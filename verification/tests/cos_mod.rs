use vuio_codec_dts::{
    COS_MOD_BLOCK1_START, COS_MOD_BLOCK2_START, COS_MOD_BLOCK3_START, COS_MOD_BLOCK4_START,
    COS_MOD_LEN, CosModEntry, NUM_SUBBAND, cos_mod_stage, precal_cos_mod,
};

fn table() -> [f64; 544] {
    let mut out = [0.0_f64; 544];
    for (slot, entry) in out.iter_mut().zip(precal_cos_mod()) {
        *slot = match entry {
            CosModEntry::Cosine { turns, parts } => {
                (f64::from(turns) * core::f64::consts::PI / f64::from(parts)).cos()
            }
            CosModEntry::SumFactor { turns, parts } => {
                let arg = f64::from(turns) * core::f64::consts::PI / f64::from(parts);
                0.25 / (2.0 * arg.cos())
            }
            CosModEntry::DifferenceFactor { turns, parts } => {
                let arg = f64::from(turns) * core::f64::consts::PI / f64::from(parts);
                -0.25 / (2.0 * arg.sin())
            }
        };
    }
    out
}

fn stage(xin: &[f64; 32], cos_mod: &[f64; 544]) -> [f64; 32] {
    cos_mod_stage(
        xin,
        cos_mod,
        0.0,
        |a, b| a + b,
        |a, b| a - b,
        |acc, x, c| acc + x * c,
        |a, b| a * b,
    )
}

const EPS: f64 = 1e-12;

#[test]
fn length_matches_spec() {
    let ra = table();
    assert_eq!(ra.len(), 544);
    assert_eq!(COS_MOD_LEN, 544);
}

#[test]
fn block_boundaries_are_documented_constants() {
    assert_eq!(COS_MOD_BLOCK1_START, 0);
    assert_eq!(COS_MOD_BLOCK2_START, 256);
    assert_eq!(COS_MOD_BLOCK3_START, 512);
    assert_eq!(COS_MOD_BLOCK4_START, 528);
    assert_eq!(
        COS_MOD_BLOCK2_START - COS_MOD_BLOCK1_START + COS_MOD_BLOCK3_START
            - COS_MOD_BLOCK2_START
            + COS_MOD_BLOCK4_START
            - COS_MOD_BLOCK3_START
            + COS_MOD_LEN
            - COS_MOD_BLOCK4_START,
        COS_MOD_LEN
    );
}

#[test]
fn block1_first_entry_is_cos_pi_over_64() {
    let ra = table();
    let expected = (core::f64::consts::PI / 64.0).cos();
    assert!((ra[0] - expected).abs() < EPS);
}

#[test]
fn block1_walks_all_256_indices() {
    let ra = table();
    for k in 0..16 {
        for i in 0..16 {
            let idx = COS_MOD_BLOCK1_START + 16 * k + i;
            let num = ((2 * i + 1) * (2 * k + 1)) as f64;
            let expected = (num * core::f64::consts::PI / 64.0).cos();
            assert!(
                (ra[idx] - expected).abs() < EPS,
                "Block 1 ({k}, {i}) mismatch: got {} expected {}",
                ra[idx],
                expected
            );
        }
    }
}

#[test]
fn block2_first_entry_is_one() {
    let ra = table();
    assert!((ra[COS_MOD_BLOCK2_START] - 1.0).abs() < EPS);
}

#[test]
fn block2_walks_all_256_indices() {
    let ra = table();
    for k in 0..16 {
        for i in 0..16 {
            let idx = COS_MOD_BLOCK2_START + 16 * k + i;
            let num = (i * (2 * k + 1)) as f64;
            let expected = (num * core::f64::consts::PI / 32.0).cos();
            assert!(
                (ra[idx] - expected).abs() < EPS,
                "Block 2 ({k}, {i}) mismatch: got {} expected {}",
                ra[idx],
                expected
            );
        }
    }
}

#[test]
fn block3_first_entry_matches_closed_form() {
    let ra = table();
    let arg = core::f64::consts::PI / 128.0;
    let expected = 0.25 / (2.0 * arg.cos());
    assert!((ra[COS_MOD_BLOCK3_START] - expected).abs() < EPS);
}

#[test]
fn block3_walks_all_16_indices() {
    let ra = table();
    for k in 0..16 {
        let idx = COS_MOD_BLOCK3_START + k;
        let arg = ((2 * k + 1) as f64) * core::f64::consts::PI / 128.0;
        let expected = 0.25 / (2.0 * arg.cos());
        assert!(
            (ra[idx] - expected).abs() < EPS,
            "Block 3 ({k}) mismatch: got {} expected {}",
            ra[idx],
            expected
        );
    }
}

#[test]
fn block3_entries_are_strictly_positive() {
    let ra = table();
    for k in 0..16 {
        let v = ra[COS_MOD_BLOCK3_START + k];
        assert!(v > 0.0, "Block 3 ({k}) = {v} should be > 0");
    }
}

#[test]
fn block4_first_entry_matches_closed_form() {
    let ra = table();
    let arg = core::f64::consts::PI / 128.0;
    let expected = -0.25 / (2.0 * arg.sin());
    assert!((ra[COS_MOD_BLOCK4_START] - expected).abs() < EPS);
}

#[test]
fn block4_walks_all_16_indices() {
    let ra = table();
    for k in 0..16 {
        let idx = COS_MOD_BLOCK4_START + k;
        let arg = ((2 * k + 1) as f64) * core::f64::consts::PI / 128.0;
        let expected = -0.25 / (2.0 * arg.sin());
        assert!(
            (ra[idx] - expected).abs() < EPS,
            "Block 4 ({k}) mismatch: got {} expected {}",
            ra[idx],
            expected
        );
    }
}

#[test]
fn block4_entries_are_strictly_negative() {
    let ra = table();
    for k in 0..16 {
        let v = ra[COS_MOD_BLOCK4_START + k];
        assert!(v < 0.0, "Block 4 ({k}) = {v} should be < 0");
    }
}

#[test]
fn block1_last_entry_of_row_zero() {
    let ra = table();
    let expected = (31.0 * core::f64::consts::PI / 64.0).cos();
    assert!((ra[15] - expected).abs() < EPS);
}

#[test]
fn block1_row_count_and_row_length() {
    let ra = table();
    let mut seen = 0usize;
    for k in 0..16 {
        for i in 0..16 {
            let idx = COS_MOD_BLOCK1_START + 16 * k + i;
            let num = ((2 * i + 1) * (2 * k + 1)) as f64;
            let expected = (num * core::f64::consts::PI / 64.0).cos();
            assert!((ra[idx] - expected).abs() < EPS);
            seen += 1;
        }
    }
    assert_eq!(seen, 256);
}

#[test]
fn block2_row_first_entry_is_one_for_all_k() {
    let ra = table();
    for k in 0..16 {
        let idx = COS_MOD_BLOCK2_START + 16 * k;
        assert!(
            (ra[idx] - 1.0).abs() < EPS,
            "Block 2 row {k} entry 0 should be 1.0"
        );
    }
}

#[test]
fn block3_value_grows_with_k() {
    let ra = table();
    for k in 1..16 {
        let prev = ra[COS_MOD_BLOCK3_START + k - 1];
        let cur = ra[COS_MOD_BLOCK3_START + k];
        assert!(
            cur > prev,
            "Block 3 should grow: prev={prev} cur={cur} at k={k}"
        );
    }
}

#[test]
fn block4_magnitude_shrinks_with_k() {
    let ra = table();
    for k in 1..16 {
        let prev = ra[COS_MOD_BLOCK4_START + k - 1].abs();
        let cur = ra[COS_MOD_BLOCK4_START + k].abs();
        assert!(
            cur < prev,
            "|Block 4| should shrink: prev={prev} cur={cur} at k={k}"
        );
    }
}

#[test]
fn deterministic_across_calls() {
    let a = table();
    let b = table();
    for i in 0..COS_MOD_LEN {
        assert_eq!(a[i].to_bits(), b[i].to_bits(), "mismatch at index {i}");
    }
}

#[test]
fn all_entries_are_finite() {
    let ra = table();
    for (i, v) in ra.iter().enumerate() {
        assert!(v.is_finite(), "ra[{i}] = {v} is not finite");
    }
}

#[test]
fn block1_and_block2_entries_are_bounded_by_one() {
    let ra = table();
    for (i, v) in ra[COS_MOD_BLOCK1_START..COS_MOD_BLOCK3_START]
        .iter()
        .enumerate()
    {
        assert!(v.abs() <= 1.0 + EPS, "ra[{i}] = {v} outside [-1, 1]");
    }
}

fn cos_mod_stage_reference(
    ra_xin: &[f64; NUM_SUBBAND],
    ra_cos_mod: &[f64; COS_MOD_LEN],
) -> [f64; NUM_SUBBAND] {
    let mut a = [0.0_f64; 16];
    let mut b = [0.0_f64; 16];
    let mut sum = [0.0_f64; 16];
    let mut diff = [0.0_f64; 16];
    let mut ra_x = [0.0_f64; NUM_SUBBAND];

    let mut j = 0usize;
    for k in 0..16 {
        for i in 0..16 {
            a[k] += (ra_xin[2 * i] + ra_xin[2 * i + 1]) * ra_cos_mod[j];
            j += 1;
        }
    }
    for k in 0..16 {
        for i in 0..16 {
            if i > 0 {
                b[k] += (ra_xin[2 * i] + ra_xin[2 * i - 1]) * ra_cos_mod[j];
            } else {
                b[k] += ra_xin[2 * i] * ra_cos_mod[j];
            }
            j += 1;
        }
        sum[k] = a[k] + b[k];
        diff[k] = a[k] - b[k];
    }
    for k in 0..16 {
        ra_x[k] = ra_cos_mod[j] * sum[k];
        j += 1;
    }
    for k in 0..16 {
        ra_x[NUM_SUBBAND - k - 1] = ra_cos_mod[j] * diff[k];
        j += 1;
    }
    assert_eq!(j, COS_MOD_LEN);
    ra_x
}

#[test]
fn cos_mod_stage_zero_input_yields_zero_output() {
    let ra_xin = [0.0_f64; NUM_SUBBAND];
    let ra_cos_mod = table();
    let out = stage(&ra_xin, &ra_cos_mod);
    for (i, v) in out.iter().enumerate() {
        assert_eq!(*v, 0.0, "raX[{i}] = {v} should be 0");
    }
}

#[test]
fn cos_mod_stage_matches_reference_on_zero_input() {
    let ra_xin = [0.0_f64; NUM_SUBBAND];
    let ra_cos_mod = table();
    let live = stage(&ra_xin, &ra_cos_mod);
    let reference = cos_mod_stage_reference(&ra_xin, &ra_cos_mod);
    for i in 0..NUM_SUBBAND {
        assert_eq!(
            live[i].to_bits(),
            reference[i].to_bits(),
            "raX[{i}] mismatch: live={} ref={}",
            live[i],
            reference[i]
        );
    }
}

#[test]
fn cos_mod_stage_matches_reference_on_unit_basis_inputs() {
    let ra_cos_mod = table();
    for j in 0..NUM_SUBBAND {
        let mut ra_xin = [0.0_f64; NUM_SUBBAND];
        ra_xin[j] = 1.0;
        let live = stage(&ra_xin, &ra_cos_mod);
        let reference = cos_mod_stage_reference(&ra_xin, &ra_cos_mod);
        for i in 0..NUM_SUBBAND {
            assert_eq!(
                live[i].to_bits(),
                reference[i].to_bits(),
                "raX[{i}] mismatch (impulse at {j}): live={} ref={}",
                live[i],
                reference[i]
            );
        }
    }
}

#[test]
fn cos_mod_stage_matches_reference_on_ramp_input() {
    let mut ra_xin = [0.0_f64; NUM_SUBBAND];
    for (i, slot) in ra_xin.iter_mut().enumerate() {
        *slot = (i as f64) + 0.5;
    }
    let ra_cos_mod = table();
    let live = stage(&ra_xin, &ra_cos_mod);
    let reference = cos_mod_stage_reference(&ra_xin, &ra_cos_mod);
    for i in 0..NUM_SUBBAND {
        assert_eq!(
            live[i].to_bits(),
            reference[i].to_bits(),
            "raX[{i}] mismatch on ramp input: live={} ref={}",
            live[i],
            reference[i]
        );
    }
}

#[test]
fn cos_mod_stage_matches_reference_on_alternating_signs() {
    let mut ra_xin = [0.0_f64; NUM_SUBBAND];
    for (i, slot) in ra_xin.iter_mut().enumerate() {
        *slot = if i % 2 == 0 { 1.0 } else { -1.0 };
    }
    let ra_cos_mod = table();
    let live = stage(&ra_xin, &ra_cos_mod);
    let reference = cos_mod_stage_reference(&ra_xin, &ra_cos_mod);
    for i in 0..NUM_SUBBAND {
        assert_eq!(
            live[i].to_bits(),
            reference[i].to_bits(),
            "raX[{i}] mismatch on alternating signs: live={} ref={}",
            live[i],
            reference[i]
        );
    }
}

#[test]
fn cos_mod_stage_output_is_finite() {
    let mut ra_xin = [0.0_f64; NUM_SUBBAND];
    for (i, slot) in ra_xin.iter_mut().enumerate() {
        *slot = (i as f64).sin();
    }
    let ra_cos_mod = table();
    let out = stage(&ra_xin, &ra_cos_mod);
    for (i, v) in out.iter().enumerate() {
        assert!(v.is_finite(), "raX[{i}] = {v} not finite");
    }
}

#[test]
fn cos_mod_stage_is_linear() {
    let mut ra_xin = [0.0_f64; NUM_SUBBAND];
    for (i, slot) in ra_xin.iter_mut().enumerate() {
        *slot = (i as f64) - 16.0;
    }
    let mut ra_xin_2x = [0.0_f64; NUM_SUBBAND];
    for (i, slot) in ra_xin_2x.iter_mut().enumerate() {
        *slot = 2.0 * ra_xin[i];
    }
    let ra_cos_mod = table();
    let out_1x = stage(&ra_xin, &ra_cos_mod);
    let out_2x = stage(&ra_xin_2x, &ra_cos_mod);
    for i in 0..NUM_SUBBAND {
        let expected = 2.0 * out_1x[i];
        assert!(
            (out_2x[i] - expected).abs() < 1e-9,
            "raX[{i}] not linear: 2*x->{} but expected {}",
            out_2x[i],
            expected
        );
    }
}

#[test]
fn cos_mod_stage_is_deterministic() {
    let mut ra_xin = [0.0_f64; NUM_SUBBAND];
    for (i, slot) in ra_xin.iter_mut().enumerate() {
        *slot = ((i + 1) as f64).cos();
    }
    let ra_cos_mod = table();
    let a = stage(&ra_xin, &ra_cos_mod);
    let b = stage(&ra_xin, &ra_cos_mod);
    for i in 0..NUM_SUBBAND {
        assert_eq!(a[i].to_bits(), b[i].to_bits(), "raX[{i}] differs");
    }
}

#[test]
fn num_subband_is_thirty_two() {
    assert_eq!(NUM_SUBBAND, 32);
}
