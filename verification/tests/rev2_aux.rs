use vuio_codec_dts::{
    DtsFrameHeader, Error, FrameType, LfeMode, REV2_AUX_SYNC_WORD,
    REV2_DRC_VERSION_SINGLE_BAND, Rev2Drc, SyncWordEncoding, dts_crc16, find_rev2_aux,
    parse_rev2_aux, parse_rev2_aux_at,
};

const DMIX_TABLE_UNITY_INDEX: usize = 240;

struct BitWriter {
    bits: Vec<bool>,
}

impl BitWriter {
    fn new() -> Self {
        BitWriter { bits: Vec::new() }
    }

    fn push_bits(&mut self, value: u64, width: u32) {
        for i in (0..width).rev() {
            self.bits.push((value >> i) & 1 == 1);
        }
    }

    fn bit_len(&self) -> usize {
        self.bits.len()
    }

    fn align(&mut self, to: usize) {
        while self.bits.len() % to != 0 {
            self.bits.push(false);
        }
    }

    fn into_bytes(self) -> Vec<u8> {
        let mut out = vec![0u8; self.bits.len().div_ceil(8)];
        for (i, bit) in self.bits.iter().enumerate() {
            if *bit {
                out[i / 8] |= 1 << (7 - i % 8);
            }
        }
        out
    }
}

fn synth_header_with_blocks(amode: u8, lfe: u8, blocks_per_frame: u8) -> DtsFrameHeader {
    DtsFrameHeader {
        sync_word_encoding: SyncWordEncoding::RawBigEndian,
        frame_type: FrameType::Normal,
        sample_count_per_block: 32,
        crc_present: false,
        blocks_per_frame,
        frame_size_bytes: 1024,
        amode,
        sfreq_index: 13,
        rate_index: 15,
        downmix: false,
        dynamic_range: false,
        time_stamp: false,
        aux_data: false,
        hdcd: false,
        ext_descr: 0,
        ext_coding: false,
        aspf: false,
        lfe: LfeMode::from_raw(lfe),
        predictor_history: false,
        header_crc: None,
        multirate_inter: false,
        version: 7,
        copy_history: 0,
        source_pcm_resolution_index: 0,
        front_sum: false,
        surround_sum: false,
        dialog_normalization: 0,
    }
}

fn synth_header(amode: u8, lfe: u8) -> DtsFrameHeader {
    synth_header_with_blocks(amode, lfe, 15)
}

fn frame_with_chunk(chunk: &[u8]) -> Vec<u8> {
    let mut frame = vec![0x55u8; 32];
    frame.extend_from_slice(chunk);
    frame
}

fn chunk(size: u8, body: impl FnOnce(&mut BitWriter), crc: u16) -> Vec<u8> {
    let mut w = BitWriter::new();
    w.push_bits(u64::from(REV2_AUX_SYNC_WORD), 32);
    w.push_bits(u64::from(size) - 1, 7);
    body(&mut w);
    let crc_bit = (4 + usize::from(size) - 2) * 8;
    assert!(w.bit_len() <= crc_bit, "test chunk body overruns its size");
    while w.bit_len() < crc_bit {
        w.push_bits(0, 1);
    }
    w.push_bits(u64::from(crc), 16);
    w.into_bytes()
}

fn patch_crc(chunk: &mut [u8], size: u8) {
    let crc_start = 4 + usize::from(size) - 2;
    let crc = dts_crc16(&chunk[4..crc_start]);
    chunk[crc_start..crc_start + 2].copy_from_slice(&crc.to_be_bytes());
}

#[test]
fn parses_minimal_chunk() {
    let bytes = chunk(3, |w| w.push_bits(0, 1), 0xABCD);
    let frame = frame_with_chunk(&bytes);
    let header = synth_header(2, 0);
    let chunk = parse_rev2_aux(&frame, &header).unwrap().unwrap();
    assert_eq!(chunk.offset, 32);
    assert_eq!(chunk.data_byte_size, 3);
    assert_eq!(chunk.es_downmix_scale_index, None);
    assert_eq!(chunk.drc, None);
    assert_eq!(chunk.dialnorm, None);
    assert_eq!(chunk.crc16, 0xABCD);
    assert!(!chunk.crc_valid);
}

#[test]
fn crc_valid_when_check_word_matches() {
    let header = synth_header(2, 0);
    let mut bytes = chunk(
        8,
        |w| {
            w.push_bits(0, 1);
            w.push_bits(1, 1);
            w.push_bits(1, 1);
            w.push_bits(0, 1);
            w.push_bits(u64::from(REV2_DRC_VERSION_SINGLE_BAND), 4);
            w.align(8);
            w.push_bits(0, 8);
            w.push_bits(80, 8);
        },
        0,
    );
    patch_crc(&mut bytes, 8);
    let frame = frame_with_chunk(&bytes);
    let parsed = parse_rev2_aux(&frame, &header).unwrap().unwrap();
    assert!(parsed.crc_valid);
    assert_eq!(parsed.crc16, dts_crc16(&bytes[4..4 + 8 - 2]));

    let mut corrupt = frame.clone();
    corrupt[32 + 6] ^= 0x01;
    let parsed = parse_rev2_aux_at(&corrupt, 32, &header).unwrap();
    assert!(!parsed.crc_valid);
}

#[test]
fn parses_es_downmix_scale() {
    let bytes = chunk(
        4,
        |w| {
            w.push_bits(1, 1);
            w.push_bits(DMIX_TABLE_UNITY_INDEX as u64, 8);
        },
        0x0102,
    );
    let frame = frame_with_chunk(&bytes);
    let chunk = parse_rev2_aux(&frame, &synth_header(2, 0))
        .unwrap()
        .unwrap();
    assert_eq!(chunk.es_downmix_scale_index, Some(240));
    let mut scales = vec![0.0; 241];
    scales[240] = 1.0;
    assert_eq!(chunk.es_downmix_scale(&scales), Some(1.0));
    assert_eq!(chunk.es_downmix_scale(&scales[..240]), None);
}

#[test]
fn rejects_es_scale_index_out_of_range() {
    let bytes = chunk(
        4,
        |w| {
            w.push_bits(1, 1);
            w.push_bits(39, 8);
        },
        0,
    );
    let frame = frame_with_chunk(&bytes);
    assert_eq!(
        parse_rev2_aux(&frame, &synth_header(2, 0)),
        Err(Error::Rev2AuxEsScaleIndexOutOfRange { index: 39 })
    );
}

#[test]
fn parses_broadcast_drc_and_dialnorm() {
    let header = synth_header(2, 0);
    let drc_codes = [0u8, 1u8];
    let bytes = chunk(
        8,
        |w| {
            w.push_bits(0, 1);
            w.push_bits(1, 1);
            w.push_bits(1, 1);
            w.push_bits(1, 1);
            w.push_bits(u64::from(REV2_DRC_VERSION_SINGLE_BAND), 4);
            w.align(8);
            for &c in &drc_codes {
                w.push_bits(u64::from(c), 8);
            }
            w.push_bits(21, 5);
        },
        0xFEED,
    );
    let frame = frame_with_chunk(&bytes);
    let chunk = parse_rev2_aux(&frame, &header).unwrap().unwrap();
    let drc = chunk.drc.as_ref().expect("DRC present");
    assert_eq!(drc.version, 1);
    assert_eq!(drc.codes, drc_codes);
    assert_eq!(
        drc.gains_db(|q| f64::from(q) * 0.25),
        vec![0.0, 0.25]
    );
    let mult = drc.multipliers(|c| 10f64.powf(f64::from(c as i8) * 0.25 / 20.0));
    assert_eq!(mult[0], 1.0);
    assert!((mult[1] - 10f64.powf(0.25 / 20.0)).abs() < 1e-12);
    assert_eq!(chunk.dialnorm, Some(21));
    assert_eq!(chunk.dialog_normalization_gain_db(), Some(-21));
    assert_eq!(chunk.crc16, 0xFEED);
}

#[test]
fn dialnorm_without_drc_follows_five_bit_alignment() {
    let bytes = chunk(
        6,
        |w| {
            w.push_bits(0, 1);
            w.push_bits(1, 1);
            w.push_bits(0, 1);
            w.push_bits(1, 1);
            w.align(8);
            w.push_bits(31, 5);
        },
        0x0F0F,
    );
    let frame = frame_with_chunk(&bytes);
    let chunk = parse_rev2_aux(&frame, &synth_header(2, 0))
        .unwrap()
        .unwrap();
    assert_eq!(chunk.drc, None);
    assert_eq!(chunk.dialnorm, Some(31));
    assert_eq!(chunk.dialog_normalization_gain_db(), Some(-31));
}

#[test]
fn unsupported_drc_version_skips_payload() {
    let bytes = chunk(
        8,
        |w| {
            w.push_bits(0, 1);
            w.push_bits(1, 1);
            w.push_bits(1, 1);
            w.push_bits(1, 1);
            w.push_bits(2, 4);
        },
        0xD00D,
    );
    let frame = frame_with_chunk(&bytes);
    let chunk = parse_rev2_aux(&frame, &synth_header(2, 0))
        .unwrap()
        .unwrap();
    assert_eq!(
        chunk.drc,
        Some(Rev2Drc {
            version: 2,
            codes: vec![]
        })
    );
    assert_eq!(chunk.dialnorm, None);
    assert_eq!(chunk.crc16, 0xD00D);
}

#[test]
fn size_4_chunk_never_reads_broadcast_flag() {
    let bytes = chunk(
        4,
        |w| {
            w.push_bits(0, 1);
            w.push_bits(1, 1);
        },
        0x7777,
    );
    let frame = frame_with_chunk(&bytes);
    let chunk = parse_rev2_aux(&frame, &synth_header(2, 0))
        .unwrap()
        .unwrap();
    assert_eq!(chunk.drc, None);
    assert_eq!(chunk.dialnorm, None);
}

#[test]
fn rejects_size_below_three() {
    let mut w = BitWriter::new();
    w.push_bits(u64::from(REV2_AUX_SYNC_WORD), 32);
    w.push_bits(1, 7);
    w.push_bits(0, 1);
    w.push_bits(0, 16);
    let frame = frame_with_chunk(&w.into_bytes());
    assert_eq!(
        parse_rev2_aux(&frame, &synth_header(2, 0)),
        Err(Error::Rev2AuxSizeOutOfRange { size: 2 })
    );
}

#[test]
fn rejects_fields_overrunning_declared_size() {
    let bytes = chunk(
        5,
        |w| {
            w.push_bits(0, 1);
            w.push_bits(1, 1);
            w.push_bits(1, 1);
            w.push_bits(0, 1);
            w.push_bits(1, 4);
            w.align(8);
        },
        0,
    );
    let frame = frame_with_chunk(&bytes);
    assert_eq!(
        parse_rev2_aux(&frame, &synth_header(2, 0)),
        Err(Error::Rev2AuxSizeOutOfRange { size: 5 })
    );
}

#[test]
fn drc_count_needs_whole_subsubframes() {
    let header = synth_header_with_blocks(2, 0, 11);
    assert_eq!(header.blocks_per_frame, 11);
    let bytes = chunk(
        8,
        |w| {
            w.push_bits(0, 1);
            w.push_bits(1, 1);
            w.push_bits(1, 1);
            w.push_bits(0, 1);
            w.push_bits(1, 4);
        },
        0,
    );
    let frame = frame_with_chunk(&bytes);
    assert_eq!(
        parse_rev2_aux(&frame, &header),
        Err(Error::Rev2AuxDrcCountUnresolved { blocks: 12 })
    );
}

#[test]
fn find_ignores_unaligned_sync() {
    let mut frame = vec![0x55u8; 34];
    frame.extend_from_slice(&REV2_AUX_SYNC_WORD.to_be_bytes());
    assert_eq!(find_rev2_aux(&frame), None);

    let mut frame = vec![0x55u8; 40];
    frame.extend_from_slice(&REV2_AUX_SYNC_WORD.to_be_bytes());
    assert_eq!(find_rev2_aux(&frame), Some(40));
}

#[test]
fn parse_at_rejects_wrong_sync() {
    let frame = vec![0u8; 8];
    assert_eq!(
        parse_rev2_aux_at(&frame, 0, &synth_header(2, 0)),
        Err(Error::Rev2AuxSyncMismatch { found: 0 })
    );
}

#[test]
fn truncated_chunk_reports_eof() {
    let mut w = BitWriter::new();
    w.push_bits(u64::from(REV2_AUX_SYNC_WORD), 32);
    w.push_bits(127, 7);
    w.push_bits(0, 1);
    let frame = frame_with_chunk(&w.into_bytes());
    assert_eq!(
        parse_rev2_aux(&frame, &synth_header(2, 0)),
        Err(Error::UnexpectedEof)
    );
}
