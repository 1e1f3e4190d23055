use vuio_codec_dts::{
    LfeChannel, LfeChannelError, LfeInterpError, LfeInterpolationSelection, LfeInterpolator,
};

const LFE_SCALE_STEP: f64 = 0.035;

fn table64() -> Vec<f64> {
    (0..512).map(|i| ((i * 7 + 3) % 31) as f64 / 16.0 - 0.75).collect()
}

fn table128() -> Vec<f64> {
    (0..512).map(|i| ((i * 11 + 5) % 29) as f64 / 8.0 - 1.5).collect()
}

fn coefficients(sel: LfeInterpolationSelection) -> Vec<f64> {
    sel.coefficients(&table64(), &table128()).to_vec()
}

fn fresh() -> LfeInterpolator<f64> {
    LfeInterpolator::new(0.0)
}

fn run(lfe: &mut LfeInterpolator<f64>, x: &[f64], sel: LfeInterpolationSelection) -> Vec<f64> {
    lfe.process_to_vec(x, sel, &table64(), &table128(), |acc, c, s| acc + c * s)
}

fn run_pcm(lfe: &mut LfeInterpolator<f64>, x: &[f64], sel: LfeInterpolationSelection) -> Vec<i32> {
    lfe.interpolate(
        x,
        sel,
        &table64(),
        &table128(),
        |acc, c, s| acc + c * s,
        |v| v as i32,
    )
}

fn scale_of(index: u8) -> f64 {
    f64::from(index) * 40.0 + 1.0
}

fn decode(
    ch: &mut LfeChannel<f64>,
    samples: &[i8],
    scale_index: u8,
    lff: u8,
) -> Result<Vec<i32>, LfeChannelError> {
    ch.decode_subframe(
        samples,
        scale_index,
        lff,
        &table64(),
        &table128(),
        |s, index| f64::from(s) * (scale_of(index) * LFE_SCALE_STEP),
        |acc, c, s| acc + c * s,
        |v| v as i32,
    )
}

#[test]
fn new_starts_with_cleared_history() {
    let lfe = fresh();
    assert!(lfe.history().iter().all(|&v| v == 0.0));
}

#[test]
fn output_length_is_decimated_times_factor() {
    for sel in [
        LfeInterpolationSelection::Decimation64,
        LfeInterpolationSelection::Decimation128,
    ] {
        let mut lfe = fresh();
        let decimated = vec![0.0_f64; 5];
        let out = run(&mut lfe, &decimated, sel);
        assert_eq!(out.len(), 5 * sel.decimation_factor() as usize);
    }
}

#[test]
fn rejects_short_output_slice() {
    let mut lfe = fresh();
    let decimated = vec![1.0_f64; 3];
    let mut out = vec![0.0_f64; 3 * 64 - 1];
    let sel = LfeInterpolationSelection::Decimation64;
    let err = lfe
        .process(
            &decimated,
            sel,
            &table64(),
            &table128(),
            |acc, c, s| acc + c * s,
            &mut out,
        )
        .unwrap_err();
    assert_eq!(
        err,
        LfeInterpError::OutputSliceTooShort {
            required: 3 * 64,
            available: 3 * 64 - 1,
        }
    );
    assert!(lfe.history().iter().all(|&v| v == 0.0));
}

#[test]
fn zero_input_yields_zero_pcm() {
    for sel in [
        LfeInterpolationSelection::Decimation64,
        LfeInterpolationSelection::Decimation128,
    ] {
        let mut lfe = fresh();
        let out = run_pcm(&mut lfe, &[0.0; 4], sel);
        assert_eq!(out.len(), 4 * sel.decimation_factor() as usize);
        assert!(out.iter().all(|&s| s == 0));
    }
}

#[test]
fn unit_impulse_reproduces_phase_lead_taps() {
    let sel = LfeInterpolationSelection::Decimation128;
    let n = sel.decimation_factor() as usize;
    let coeff = coefficients(sel);
    let mut lfe = fresh();
    let out = run(&mut lfe, &[1.0], sel);
    assert_eq!(out.len(), n);
    for k in 0..n {
        assert!(
            (out[k] - coeff[k]).abs() < 1e-12,
            "phase {k}: got {}, want {}",
            out[k],
            coeff[k]
        );
    }
}

#[test]
fn split_calls_match_single_concatenated_call() {
    let sel = LfeInterpolationSelection::Decimation64;
    let decimated: Vec<f64> = (0..12).map(|i| ((i * 5 + 3) % 9) as f64 - 4.0).collect();

    let mut single_lfe = fresh();
    let single = run(&mut single_lfe, &decimated, sel);

    let mut split_lfe = fresh();
    let mut split = run(&mut split_lfe, &decimated[..5], sel);
    split.extend(run(&mut split_lfe, &decimated[5..], sel));

    assert_eq!(single.len(), split.len());
    for (i, (a, b)) in single.iter().zip(split.iter()).enumerate() {
        assert!((a - b).abs() < 1e-9, "sample {i}: {a} vs {b}");
    }
    assert!(single.iter().any(|&s| s != 0.0));
    assert_eq!(single_lfe.history(), split_lfe.history());
}

#[test]
fn history_holds_last_samples_most_recent_first() {
    let sel = LfeInterpolationSelection::Decimation64;
    let decimated: Vec<f64> = (0..10).map(|i| i as f64 + 1.0).collect();
    let mut lfe = fresh();
    let _ = run(&mut lfe, &decimated, sel);
    for slot in 0..7 {
        assert_eq!(lfe.history()[slot], decimated[9 - slot]);
    }
}

#[test]
fn short_subframe_retains_older_history() {
    let sel = LfeInterpolationSelection::Decimation64;
    let mut lfe = fresh();
    let first: Vec<f64> = (0..8).map(|i| (i + 1) as f64).collect();
    let _ = run(&mut lfe, &first, sel);
    let _ = run(&mut lfe, &[100.0, 200.0], sel);
    assert_eq!(lfe.history()[0], 200.0);
    assert_eq!(lfe.history()[1], 100.0);
    assert_eq!(lfe.history()[2], 8.0);
    assert_eq!(lfe.history()[3], 7.0);
    assert_eq!(lfe.history()[4], 6.0);
    assert_eq!(lfe.history()[5], 5.0);
    assert_eq!(lfe.history()[6], 4.0);
}

#[test]
fn the_128_fold_filter_carries_three_samples() {
    let sel = LfeInterpolationSelection::Decimation128;
    let mut lfe = fresh();
    let _ = run(&mut lfe, &[1.0, 2.0, 3.0, 4.0, 5.0], sel);
    assert_eq!(lfe.history(), &[5.0, 4.0, 3.0, 0.0, 0.0, 0.0, 0.0]);
}

#[test]
fn lfe_channel_declines_no_lfe() {
    let mut ch = LfeChannel::new(0.0);
    assert_eq!(
        decode(&mut ch, &[0, 0], 0, 0).unwrap_err(),
        LfeChannelError::NoLfeChannel
    );
}

#[test]
fn lfe_channel_rejects_reserved_scale_index() {
    let mut ch = LfeChannel::new(0.0);
    for idx in [125u8, 126, 127] {
        assert_eq!(
            decode(&mut ch, &[0], idx, 1).unwrap_err(),
            LfeChannelError::ReservedScaleIndex { index: idx }
        );
    }
    assert!(decode(&mut ch, &[0], 124, 1).is_ok());
}

#[test]
fn lfe_channel_selection_for_lff() {
    assert_eq!(
        LfeChannel::<f64>::selection_for_lff(1),
        LfeInterpolationSelection::Decimation128
    );
    assert_eq!(
        LfeChannel::<f64>::selection_for_lff(2),
        LfeInterpolationSelection::Decimation64
    );
}

#[test]
fn lfe_channel_decodes_zero_input_to_silence() {
    let mut ch = LfeChannel::new(0.0);
    let pcm = decode(&mut ch, &[0, 0, 0], 10, 1).unwrap();
    assert_eq!(pcm.len(), 3 * 128);
    assert!(pcm.iter().all(|&s| s == 0));
}

#[test]
fn lfe_channel_applies_rms_scale_and_step() {
    let scale_index = 60u8;
    let r_scale = scale_of(scale_index) * LFE_SCALE_STEP;
    let lfe0 = 5_i8;
    let lff = 1u8;
    let coeff = table128();
    let expected0 = (f64::from(lfe0) * r_scale * coeff[0]) as i32;

    let mut ch = LfeChannel::new(0.0);
    let pcm = decode(&mut ch, &[lfe0], scale_index, lff).unwrap();
    assert_eq!(pcm[0], expected0);
    assert_ne!(pcm[0], 0);
    assert_eq!(ch.interpolator().history()[0], f64::from(lfe0) * r_scale);
}

#[test]
fn integer_cast_truncates_toward_zero() {
    let sel = LfeInterpolationSelection::Decimation128;
    let coeff = coefficients(sel);
    let k0 = (0..(sel.decimation_factor() as usize))
        .find(|&k| coeff[k] != 0.0)
        .unwrap();
    let scale = 0.5 / coeff[k0].abs();
    let mut lfe = fresh();
    let out_i = run_pcm(&mut lfe, &[scale], sel);
    assert_eq!(out_i[k0], 0);
}
