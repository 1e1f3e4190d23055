use vuio_codec_dts::{
    AmodeArrangement, DialogNormalization, DtsFrameHeader, Error, FilterBankSelection,
    FourteenBitByteOrder, FrameType, LfeMode, SampleFrequency, SourcePcmResolution,
    SyncWordEncoding, TargetedBitRate, amode_arrangement_from_index, detect_sync,
    dialog_normalization_from_codes, encode_frame_header_14bit_be,
    encode_frame_header_14bit_le, encode_frame_header_be, encode_frame_header_le,
    parse_frame_header, parse_frame_header_14bit, sample_frequency_from_index,
    source_pcm_resolution_from_index, unpack_14bit_to_16bit,
};

fn push(bv: &mut Vec<bool>, value: u32, width: u32) {
    for i in (0..width).rev() {
        bv.push(((value >> i) & 1) == 1);
    }
}

#[allow(clippy::all)]
fn build_be_header(
    ftype: u32,
    sample_count_m1: u32,
    crc_present: u32,
    nblks: u32,
    fsize_m1: u32,
    amode: u32,
    sfreq: u32,
    rate: u32,
    extra_bits: u32,
    header_crc: Option<u32>,
    post_crc: u32,
) -> Vec<u8> {
    let mut bv: Vec<bool> = Vec::new();


    push(&mut bv, 0x7FFE_8001, 32);
    push(&mut bv, ftype, 1);
    push(&mut bv, sample_count_m1, 5);
    push(&mut bv, crc_present, 1);
    push(&mut bv, nblks, 7);
    push(&mut bv, fsize_m1, 14);
    push(&mut bv, amode, 6);
    push(&mut bv, sfreq, 4);
    push(&mut bv, rate, 5);
    push(&mut bv, extra_bits, 13);
    if let Some(crc) = header_crc {
        push(&mut bv, crc, 16);
    }
    push(&mut bv, post_crc, 16);
    while bv.len() % 8 != 0 {
        bv.push(false);
    }
    let mut bytes = Vec::with_capacity(bv.len() / 8);
    for chunk in bv.chunks(8) {
        let mut b: u8 = 0;
        for (i, bit) in chunk.iter().enumerate() {
            if *bit {
                b |= 1 << (7 - i);
            }
        }
        bytes.push(b);
    }
    while bytes.len() < 16 {
        bytes.push(0);
    }
    bytes
}

#[test]
fn detect_raw_be_sync() {
    let mut buf = vec![0; 16];
    buf[0] = 0x7F;
    buf[1] = 0xFE;
    buf[2] = 0x80;
    buf[3] = 0x01;
    assert_eq!(detect_sync(&buf).unwrap(), SyncWordEncoding::RawBigEndian);
}

#[test]
fn detect_raw_le_sync() {
    let buf = [0xFE, 0x7F, 0x01, 0x80];
    assert_eq!(
        detect_sync(&buf).unwrap(),
        SyncWordEncoding::RawLittleEndian
    );
}

#[test]
fn detect_14bit_be_sync() {
    let buf = [0x1F, 0xFF, 0xE8, 0x00, 0x07, 0xFA];
    assert_eq!(
        detect_sync(&buf).unwrap(),
        SyncWordEncoding::FourteenBitBigEndian
    );
}

#[test]
fn detect_14bit_le_sync() {
    let buf = [0xFF, 0x1F, 0x00, 0xE8, 0xF3, 0x07];
    assert_eq!(
        detect_sync(&buf).unwrap(),
        SyncWordEncoding::FourteenBitLittleEndian
    );
}

#[test]
fn detect_no_sync_returns_error() {
    let buf = [0xDE, 0xAD, 0xBE, 0xEF];
    assert_eq!(detect_sync(&buf).unwrap_err(), Error::NoSync);
}

#[test]
fn detect_short_buffer_returns_eof() {
    assert_eq!(detect_sync(&[0x7F]).unwrap_err(), Error::UnexpectedEof);
}

#[test]
fn parse_normal_frame_be_typical() {
    let bytes = build_be_header(
        1,
        31,
        1,
        15,
        1023,
        9,
        13,
        25,
        0b1_0100_1010_0011,
        Some(0xC0DE),
        0,
    );

    let hdr = parse_frame_header(&bytes).unwrap();
    assert_eq!(hdr.sync_word_encoding, SyncWordEncoding::RawBigEndian);
    assert_eq!(hdr.frame_type, FrameType::Normal);
    assert_eq!(hdr.sample_count_per_block, 32);
    assert!(hdr.crc_present);
    assert_eq!(hdr.blocks_per_frame, 15);
    assert_eq!(hdr.frame_size_bytes, 1024);
    assert_eq!(hdr.amode, 9);
    assert_eq!(hdr.sfreq_index, 13);
    assert_eq!(hdr.rate_index, 25);
    assert!(hdr.downmix);
    assert!(!hdr.dynamic_range);
    assert!(hdr.time_stamp);
    assert!(!hdr.aux_data);
    assert!(!hdr.hdcd);
    assert_eq!(hdr.ext_descr, 0b101);
    assert!(!hdr.ext_coding);
    assert!(!hdr.aspf);
    assert_eq!(hdr.lfe, LfeMode::Mode1);
    assert!(hdr.predictor_history);
    assert_eq!(hdr.header_crc, Some(0xC0DE));
    assert!(!hdr.multirate_inter);
    assert_eq!(hdr.version, 0);
    assert_eq!(hdr.copy_history, 0);
    assert_eq!(hdr.source_pcm_resolution_index, 0);
    assert!(!hdr.front_sum);
    assert!(!hdr.surround_sum);
    assert_eq!(hdr.dialog_normalization, 0);
}

#[test]
fn parse_termination_frame_be() {
    let bytes = build_be_header(0, 0, 0, 5, 94, 0, 0, 0, 0, None, 0);
    let hdr = parse_frame_header(&bytes).unwrap();
    assert_eq!(hdr.frame_type, FrameType::Termination);
    assert_eq!(hdr.sample_count_per_block, 1);
    assert!(!hdr.crc_present);
    assert_eq!(hdr.blocks_per_frame, 5);
    assert_eq!(hdr.frame_size_bytes, 95);
    assert!(!hdr.downmix);
    assert!(!hdr.dynamic_range);
    assert!(!hdr.time_stamp);
    assert!(!hdr.aux_data);
    assert!(!hdr.hdcd);
    assert_eq!(hdr.ext_descr, 0);
    assert!(!hdr.ext_coding);
    assert!(!hdr.aspf);
    assert_eq!(hdr.lfe, LfeMode::Absent);
    assert!(!hdr.predictor_history);
    assert_eq!(hdr.header_crc, None);
    assert!(!hdr.multirate_inter);
    assert_eq!(hdr.version, 0);
    assert_eq!(hdr.copy_history, 0);
    assert_eq!(hdr.source_pcm_resolution_index, 0);
    assert!(!hdr.front_sum);
    assert!(!hdr.surround_sum);
    assert_eq!(hdr.dialog_normalization, 0);
}

#[test]
fn parse_rejects_nblks_below_5() {
    let bytes = build_be_header(1, 31, 1, 4, 1023, 0, 0, 0, 0, Some(0), 0);
    assert_eq!(
        parse_frame_header(&bytes).unwrap_err(),
        Error::BlockCountOutOfRange { blocks: 4 }
    );
}

#[test]
fn parse_rejects_frame_size_below_95() {
    let bytes = build_be_header(1, 31, 1, 16, 93, 0, 0, 0, 0, Some(0), 0);
    assert_eq!(
        parse_frame_header(&bytes).unwrap_err(),
        Error::FrameSizeOutOfRange { frame_size: 94 }
    );
}

#[test]
fn parse_accepts_largest_documented_values() {
    let bytes = build_be_header(
        1,
        31,
        1,
        127,
        16383,
        63,
        15,
        31,
        0b1_1111_1111_1111,
        Some(0xFFFF),
        0xFFFF,
    );
    let hdr = parse_frame_header(&bytes).unwrap();
    assert_eq!(hdr.blocks_per_frame, 127);
    assert_eq!(hdr.frame_size_bytes, 16384);
    assert_eq!(hdr.amode, 63);
    assert_eq!(hdr.sfreq_index, 15);
    assert_eq!(hdr.rate_index, 31);
    assert!(hdr.downmix);
    assert!(hdr.dynamic_range);
    assert!(hdr.time_stamp);
    assert!(hdr.aux_data);
    assert!(hdr.hdcd);
    assert_eq!(hdr.ext_descr, 0b111);
    assert!(hdr.ext_coding);
    assert!(hdr.aspf);
    assert_eq!(hdr.lfe, LfeMode::Mode3);
    assert!(hdr.predictor_history);
    assert_eq!(hdr.header_crc, Some(0xFFFF));
    assert!(hdr.multirate_inter);
    assert_eq!(hdr.version, 0b1111);
    assert_eq!(hdr.copy_history, 0b11);
    assert_eq!(hdr.source_pcm_resolution_index, 0b111);
    assert!(hdr.front_sum);
    assert!(hdr.surround_sum);
    assert_eq!(hdr.dialog_normalization, 0b1111);
}

#[test]
fn parse_short_buffer_returns_eof() {
    let mut bytes = build_be_header(1, 31, 1, 16, 1023, 9, 13, 25, 0, Some(0), 0);
    bytes.truncate(8);
    assert_eq!(
        parse_frame_header(&bytes).unwrap_err(),
        Error::UnexpectedEof
    );
}

#[test]
fn parse_le_byteswapped_matches_be() {
    let be = build_be_header(
        1,
        31,
        1,
        16,
        1023,
        9,
        13,
        25,
        0b1_0100_1010_0011,
        Some(0xBEEF),
        0xCAFE,
    );
    let mut le = Vec::with_capacity(be.len());
    for chunk in be.chunks_exact(2) {
        le.push(chunk[1]);
        le.push(chunk[0]);
    }
    assert_eq!(&le[..4], &[0xFE, 0x7F, 0x01, 0x80]);
    let hdr_be = parse_frame_header(&be).unwrap();
    let hdr_le = parse_frame_header(&le).unwrap();
    assert_eq!(hdr_le.sync_word_encoding, SyncWordEncoding::RawLittleEndian);
    assert_eq!(hdr_le.frame_type, hdr_be.frame_type);
    assert_eq!(hdr_le.sample_count_per_block, hdr_be.sample_count_per_block);
    assert_eq!(hdr_le.crc_present, hdr_be.crc_present);
    assert_eq!(hdr_le.blocks_per_frame, hdr_be.blocks_per_frame);
    assert_eq!(hdr_le.frame_size_bytes, hdr_be.frame_size_bytes);
    assert_eq!(hdr_le.amode, hdr_be.amode);
    assert_eq!(hdr_le.sfreq_index, hdr_be.sfreq_index);
    assert_eq!(hdr_le.rate_index, hdr_be.rate_index);
    assert_eq!(hdr_le.downmix, hdr_be.downmix);
    assert_eq!(hdr_le.dynamic_range, hdr_be.dynamic_range);
    assert_eq!(hdr_le.time_stamp, hdr_be.time_stamp);
    assert_eq!(hdr_le.aux_data, hdr_be.aux_data);
    assert_eq!(hdr_le.hdcd, hdr_be.hdcd);
    assert_eq!(hdr_le.ext_descr, hdr_be.ext_descr);
    assert_eq!(hdr_le.ext_coding, hdr_be.ext_coding);
    assert_eq!(hdr_le.aspf, hdr_be.aspf);
    assert_eq!(hdr_le.lfe, hdr_be.lfe);
    assert_eq!(hdr_le.predictor_history, hdr_be.predictor_history);
    assert_eq!(hdr_le.header_crc, hdr_be.header_crc);
    assert_eq!(hdr_le.multirate_inter, hdr_be.multirate_inter);
    assert_eq!(hdr_le.version, hdr_be.version);
    assert_eq!(hdr_le.copy_history, hdr_be.copy_history);
    assert_eq!(
        hdr_le.source_pcm_resolution_index,
        hdr_be.source_pcm_resolution_index
    );
    assert_eq!(hdr_le.front_sum, hdr_be.front_sum);
    assert_eq!(hdr_le.surround_sum, hdr_be.surround_sum);
    assert_eq!(hdr_le.dialog_normalization, hdr_be.dialog_normalization);
}

#[test]
fn parse_14bit_be_returns_unsupported() {
    let mut buf = vec![0; 16];
    buf[..6].copy_from_slice(&[0x1F, 0xFF, 0xE8, 0x00, 0x07, 0xFA]);
    assert_eq!(
        parse_frame_header(&buf).unwrap_err(),
        Error::UnsupportedFourteenBit
    );
}

#[test]
fn parse_14bit_le_returns_unsupported() {
    let mut buf = vec![0; 16];
    buf[..6].copy_from_slice(&[0xFF, 0x1F, 0x00, 0xE8, 0xF3, 0x07]);
    assert_eq!(
        parse_frame_header(&buf).unwrap_err(),
        Error::UnsupportedFourteenBit
    );
}

#[allow(clippy::all)]
fn build_14bit_packed_header(
    order: FourteenBitByteOrder,
    ftype: u32,
    sample_count_m1: u32,
    crc_present: u32,
    nblks: u32,
    fsize_m1: u32,
    amode: u32,
    sfreq: u32,
    rate: u32,
    extra_bits: u32,
    header_crc: Option<u32>,
    post_crc: u32,
) -> Vec<u8> {
    let raw_be = build_be_header(
        ftype,
        sample_count_m1,
        crc_present,
        nblks,
        fsize_m1,
        amode,
        sfreq,
        rate,
        extra_bits,
        header_crc,
        post_crc,
    );
    let mut packed: Vec<u8> = Vec::new();
    let mut bit_pos: usize = 0;
    let total_bits = raw_be.len() * 8;
    while bit_pos + 14 <= total_bits {
        let mut payload: u16 = 0;
        for i in 0..14 {
            let abs = bit_pos + i;
            let bit = (raw_be[abs / 8] >> (7 - (abs % 8))) & 1;
            payload = (payload << 1) | bit as u16;
        }
        let container = if payload & 0x2000 != 0 {
            payload | 0xC000
        } else {
            payload & 0x3FFF
        };
        let bytes = match order {
            FourteenBitByteOrder::BigEndian => container.to_be_bytes(),
            FourteenBitByteOrder::LittleEndian => container.to_le_bytes(),
        };
        packed.extend_from_slice(&bytes);
        bit_pos += 14;
    }
    packed
}

#[test]
fn parse_frame_header_14bit_be_matches_raw_be() {
    let raw = build_be_header(
        1,
        31,
        1,
        16,
        1023,
        9,
        13,
        25,
        0b1_0100_1010_0011,
        Some(0xC0DE),
        0x9876,
    );
    let packed = build_14bit_packed_header(
        FourteenBitByteOrder::BigEndian,
        1,
        31,
        1,
        16,
        1023,
        9,
        13,
        25,
        0b1_0100_1010_0011,
        Some(0xC0DE),
        0x9876,
    );
    let hdr_raw = parse_frame_header(&raw).unwrap();
    let hdr_packed = parse_frame_header_14bit(&packed).unwrap();
    assert_eq!(
        hdr_packed.sync_word_encoding,
        SyncWordEncoding::FourteenBitBigEndian,
    );
    assert_eq!(hdr_packed.frame_type, hdr_raw.frame_type);
    assert_eq!(
        hdr_packed.sample_count_per_block,
        hdr_raw.sample_count_per_block,
    );
    assert_eq!(hdr_packed.crc_present, hdr_raw.crc_present);
    assert_eq!(hdr_packed.blocks_per_frame, hdr_raw.blocks_per_frame);
    assert_eq!(hdr_packed.frame_size_bytes, hdr_raw.frame_size_bytes);
    assert_eq!(hdr_packed.amode, hdr_raw.amode);
    assert_eq!(hdr_packed.sfreq_index, hdr_raw.sfreq_index);
    assert_eq!(hdr_packed.rate_index, hdr_raw.rate_index);
    assert_eq!(hdr_packed.downmix, hdr_raw.downmix);
    assert_eq!(hdr_packed.dynamic_range, hdr_raw.dynamic_range);
    assert_eq!(hdr_packed.time_stamp, hdr_raw.time_stamp);
    assert_eq!(hdr_packed.aux_data, hdr_raw.aux_data);
    assert_eq!(hdr_packed.hdcd, hdr_raw.hdcd);
    assert_eq!(hdr_packed.ext_descr, hdr_raw.ext_descr);
    assert_eq!(hdr_packed.ext_coding, hdr_raw.ext_coding);
    assert_eq!(hdr_packed.aspf, hdr_raw.aspf);
    assert_eq!(hdr_packed.lfe, hdr_raw.lfe);
    assert_eq!(hdr_packed.predictor_history, hdr_raw.predictor_history);
    assert_eq!(hdr_packed.header_crc, hdr_raw.header_crc);
    assert_eq!(hdr_packed.multirate_inter, hdr_raw.multirate_inter);
    assert_eq!(hdr_packed.version, hdr_raw.version);
    assert_eq!(hdr_packed.copy_history, hdr_raw.copy_history);
    assert_eq!(
        hdr_packed.source_pcm_resolution_index,
        hdr_raw.source_pcm_resolution_index
    );
    assert_eq!(hdr_packed.front_sum, hdr_raw.front_sum);
    assert_eq!(hdr_packed.surround_sum, hdr_raw.surround_sum);
    assert_eq!(
        hdr_packed.dialog_normalization,
        hdr_raw.dialog_normalization
    );
}

#[test]
fn parse_frame_header_14bit_le_matches_raw_be() {
    let raw = build_be_header(0, 0, 0, 5, 94, 0, 0, 0, 0, None, 0);
    let packed = build_14bit_packed_header(
        FourteenBitByteOrder::LittleEndian,
        0,
        0,
        0,
        5,
        94,
        0,
        0,
        0,
        0,
        None,
        0,
    );
    let hdr_raw = parse_frame_header(&raw).unwrap();
    let hdr_packed = parse_frame_header_14bit(&packed).unwrap();
    assert_eq!(
        hdr_packed.sync_word_encoding,
        SyncWordEncoding::FourteenBitLittleEndian,
    );
    assert_eq!(hdr_packed.frame_type, FrameType::Termination);
    assert_eq!(hdr_packed.frame_type, hdr_raw.frame_type);
    assert_eq!(hdr_packed.blocks_per_frame, hdr_raw.blocks_per_frame);
    assert_eq!(hdr_packed.frame_size_bytes, hdr_raw.frame_size_bytes);
    assert_eq!(hdr_packed.header_crc, None);
    assert!(!hdr_packed.multirate_inter);
    assert_eq!(hdr_packed.version, 0);
    assert_eq!(hdr_packed.dialog_normalization, 0);
}

#[test]
fn parse_frame_header_14bit_rejects_raw_be_input() {
    let raw = build_be_header(1, 31, 1, 16, 1023, 9, 13, 25, 0, None, 0);
    assert_eq!(parse_frame_header_14bit(&raw).unwrap_err(), Error::NoSync,);
}

#[test]
fn parse_frame_header_14bit_short_buffer_returns_eof() {
    let buf = [0x1F, 0xFF, 0xE8, 0x00, 0x07, 0xF0];
    assert_eq!(
        parse_frame_header_14bit(&buf).unwrap_err(),
        Error::UnexpectedEof,
    );
}

#[test]
fn parse_frame_header_14bit_value_resolvers_resolve_through_14bit_path() {
    let packed = build_14bit_packed_header(
        FourteenBitByteOrder::BigEndian,
        1,
        31,
        1,
        16,
        1023,
        9,
        13,
        25,
        0,
        Some(0),
        0,
    );
    let hdr = parse_frame_header_14bit(&packed).unwrap();
    assert_eq!(hdr.sample_rate_hz(), Some(48_000));
    assert_eq!(hdr.bit_rate_bps(), None);
    assert_eq!(hdr.targeted_bit_rate(), TargetedBitRate::Invalid);
    assert_eq!(hdr.channel_count(), Some(5));
    assert_eq!(hdr.amode_arrangement(), AmodeArrangement::ClRSlSr);
    assert_eq!(hdr.source_pcm_bits_per_sample(), Some(16));
    assert_eq!(hdr.dialog_normalization_db(), Some(0));
    assert_eq!(
        hdr.dialog_normalization_gain(),
        DialogNormalization::Unspecified,
    );
}

#[test]
fn parse_no_sync_returns_no_sync() {
    let buf = [0xDE, 0xAD, 0xBE, 0xEF, 0, 0, 0, 0, 0, 0, 0, 0, 0, 0, 0, 0];
    assert_eq!(parse_frame_header(&buf).unwrap_err(), Error::NoSync);
}

#[test]
fn value_resolvers_resolve_per_round_202_tables() {
    let bytes = build_be_header(1, 31, 1, 16, 1023, 9, 13, 25, 0, Some(0), 0);
    let hdr = parse_frame_header(&bytes).unwrap();
    assert_eq!(hdr.sample_rate_hz(), Some(48_000));
    assert_eq!(hdr.channel_count(), Some(5));
    assert_eq!(hdr.amode_arrangement(), AmodeArrangement::ClRSlSr);
    assert_eq!(hdr.source_pcm_bits_per_sample(), Some(16));
    assert_eq!(hdr.bit_rate_bps(), None);
    assert_eq!(hdr.targeted_bit_rate(), TargetedBitRate::Invalid);
    assert_eq!(hdr.dialog_normalization_db(), Some(0));
    assert_eq!(
        hdr.dialog_normalization_gain(),
        DialogNormalization::Unspecified,
    );
}

#[test]
fn rate_table_5_7_resolves_every_code() {
    let fixed: [(u8, u32); 25] = [
        (0, 32_000),
        (1, 56_000),
        (2, 64_000),
        (3, 96_000),
        (4, 112_000),
        (5, 128_000),
        (6, 192_000),
        (7, 224_000),
        (8, 256_000),
        (9, 320_000),
        (10, 384_000),
        (11, 448_000),
        (12, 512_000),
        (13, 576_000),
        (14, 640_000),
        (15, 768_000),
        (16, 960_000),
        (17, 1_024_000),
        (18, 1_152_000),
        (19, 1_280_000),
        (20, 1_344_000),
        (21, 1_408_000),
        (22, 1_411_200),
        (23, 1_472_000),
        (24, 1_536_000),
    ];
    for (code, bps) in fixed {
        let bytes = build_be_header(1, 31, 0, 16, 1023, 2, 13, code as u32, 0, None, 0);
        let hdr = parse_frame_header(&bytes).unwrap();
        assert_eq!(hdr.rate_index, code);
        assert_eq!(
            hdr.targeted_bit_rate(),
            TargetedBitRate::Fixed(bps),
            "RATE code {code} should map to {bps} bps",
        );
        assert_eq!(hdr.bit_rate_bps(), Some(bps));
    }
    let open = build_be_header(1, 31, 0, 16, 1023, 2, 13, 29, 0, None, 0);
    let hdr = parse_frame_header(&open).unwrap();
    assert_eq!(hdr.targeted_bit_rate(), TargetedBitRate::Open);
    assert_eq!(hdr.bit_rate_bps(), None);
    for code in [25u8, 26, 27, 28, 30, 31] {
        let bytes = build_be_header(1, 31, 0, 16, 1023, 2, 13, code as u32, 0, None, 0);
        let hdr = parse_frame_header(&bytes).unwrap();
        assert_eq!(
            hdr.targeted_bit_rate(),
            TargetedBitRate::Invalid,
            "RATE code {code} should be Invalid",
        );
        assert_eq!(hdr.bit_rate_bps(), None);
    }
}

#[test]
fn lfe_mode_codes_round_trip() {
    for code in 0..=3u32 {
        let extra = (code & 0b11) << 1;
        let bytes = build_be_header(1, 31, 0, 16, 1023, 9, 13, 25, extra, None, 0);
        let hdr = parse_frame_header(&bytes).unwrap();
        assert_eq!(hdr.lfe.code(), code as u8, "code {code}");
        assert_eq!(hdr.lfe.is_present(), code != 0, "is_present({code})");
        let expected = match code {
            0 => LfeMode::Absent,
            1 => LfeMode::Mode1,
            2 => LfeMode::Mode2,
            _ => LfeMode::Mode3,
        };
        assert_eq!(hdr.lfe, expected, "enum mapping for code {code}");
    }
}

#[test]
fn header_crc_absent_when_crc_present_bit_is_zero() {
    let bytes = build_be_header(1, 31, 0, 16, 1023, 9, 13, 25, 0, None, 0);
    let hdr = parse_frame_header(&bytes).unwrap();
    assert!(!hdr.crc_present);
    assert_eq!(hdr.header_crc, None);
    assert_eq!(hdr.verify_header_crc(), None);
}

#[test]
fn header_crc_present_returns_raw_field_and_unverified() {
    let bytes = build_be_header(1, 31, 1, 16, 1023, 9, 13, 25, 0, Some(0x1234), 0);
    let hdr = parse_frame_header(&bytes).unwrap();
    assert!(hdr.crc_present);
    assert_eq!(hdr.header_crc, Some(0x1234));
    assert_eq!(hdr.verify_header_crc(), None);
}

#[test]
fn trailing_bits_all_zero_decodes_clean() {
    let bytes = build_be_header(1, 31, 0, 16, 1023, 9, 13, 25, 0, None, 0);
    let hdr = parse_frame_header(&bytes).unwrap();
    assert!(!hdr.downmix);
    assert!(!hdr.dynamic_range);
    assert!(!hdr.time_stamp);
    assert!(!hdr.aux_data);
    assert!(!hdr.hdcd);
    assert_eq!(hdr.ext_descr, 0);
    assert!(!hdr.ext_coding);
    assert!(!hdr.aspf);
    assert_eq!(hdr.lfe, LfeMode::Absent);
    assert!(!hdr.predictor_history);
}

#[test]
fn trailing_bits_all_one_decodes_max() {
    let bytes = build_be_header(1, 31, 0, 16, 1023, 9, 13, 25, 0b1_1111_1111_1111, None, 0);
    let hdr = parse_frame_header(&bytes).unwrap();
    assert!(hdr.downmix);
    assert!(hdr.dynamic_range);
    assert!(hdr.time_stamp);
    assert!(hdr.aux_data);
    assert!(hdr.hdcd);
    assert_eq!(hdr.ext_descr, 0b111);
    assert!(hdr.ext_coding);
    assert!(hdr.aspf);
    assert_eq!(hdr.lfe, LfeMode::Mode3);
    assert!(hdr.predictor_history);
}

#[test]
fn post_crc_window_decomposes_into_individual_fields() {
    let bytes = build_be_header(1, 31, 1, 16, 1023, 9, 13, 25, 0, Some(0), 0xD2EC);
    let hdr = parse_frame_header(&bytes).unwrap();
    assert!(hdr.multirate_inter);
    assert_eq!(hdr.version, 0b1010);
    assert_eq!(hdr.copy_history, 0b01);
    assert_eq!(hdr.source_pcm_resolution_index, 0b011);
    assert!(hdr.front_sum);
    assert!(!hdr.surround_sum);
    assert_eq!(hdr.dialog_normalization, 0b1100);
}

#[test]
fn post_crc_window_all_zero_decodes_to_zero_fields() {
    let bytes = build_be_header(1, 31, 0, 16, 1023, 9, 13, 25, 0, None, 0);
    let hdr = parse_frame_header(&bytes).unwrap();
    assert!(!hdr.multirate_inter);
    assert_eq!(hdr.version, 0);
    assert_eq!(hdr.copy_history, 0);
    assert_eq!(hdr.source_pcm_resolution_index, 0);
    assert!(!hdr.front_sum);
    assert!(!hdr.surround_sum);
    assert_eq!(hdr.dialog_normalization, 0);
}

#[test]
fn post_crc_window_all_one_decodes_to_max_fields() {
    let bytes = build_be_header(1, 31, 0, 16, 1023, 9, 13, 25, 0, None, 0xFFFF);
    let hdr = parse_frame_header(&bytes).unwrap();
    assert!(hdr.multirate_inter);
    assert_eq!(hdr.version, 0b1111);
    assert_eq!(hdr.copy_history, 0b11);
    assert_eq!(hdr.source_pcm_resolution_index, 0b111);
    assert!(hdr.front_sum);
    assert!(hdr.surround_sum);
    assert_eq!(hdr.dialog_normalization, 0b1111);
}

#[test]
fn pcmr_index_round_trips_for_every_3bit_code() {
    for code in 0..=7u32 {
        let post_crc = (code & 0b111) << 6;
        let bytes = build_be_header(1, 31, 0, 16, 1023, 9, 13, 25, 0, None, post_crc);
        let hdr = parse_frame_header(&bytes).unwrap();
        assert_eq!(
            hdr.source_pcm_resolution_index, code as u8,
            "PCMR code {code}"
        );
        let exp = source_pcm_resolution_from_index(code as u8);
        assert_eq!(hdr.source_pcm_resolution(), exp);
        match exp {
            SourcePcmResolution::Valid { bits, .. } => {
                assert_eq!(hdr.source_pcm_bits_per_sample(), Some(bits));
            }
            SourcePcmResolution::Invalid => {
                assert_eq!(hdr.source_pcm_bits_per_sample(), None);
            }
            other => panic!("unexpected {other:?}"),
        }
    }
}

#[test]
fn dialnorm_code_round_trips_for_every_4bit_value() {
    for code in 0..=15u32 {
        let post_crc = code & 0b1111;
        let bytes = build_be_header(1, 31, 0, 16, 1023, 9, 13, 25, 0, None, post_crc);
        let hdr = parse_frame_header(&bytes).unwrap();
        assert_eq!(hdr.dialog_normalization, code as u8, "DIALNORM code {code}");
        assert_eq!(hdr.version, 0, "VERNUM nibble must be 0 by construction");
        assert_eq!(
            hdr.dialog_normalization_db(),
            Some(0),
            "VERNUM outside 6 and 7: 0 dB",
        );
        assert_eq!(
            hdr.dialog_normalization_gain(),
            DialogNormalization::Unspecified,
        );
    }
}

#[test]
fn dialnorm_resolver_covers_table_5_20_verbatim() {
    for code in 0u32..=15 {
        let post_crc = (7u32 << 11) | code;
        let bytes = build_be_header(1, 31, 0, 16, 1023, 9, 13, 25, 0, None, post_crc);
        let hdr = parse_frame_header(&bytes).unwrap();
        assert_eq!(hdr.version, 7);
        assert_eq!(hdr.dialog_normalization, code as u8);
        let expected = -(code as i8);
        assert_eq!(
            hdr.dialog_normalization_db(),
            Some(expected),
            "VERNUM=7 DIALNORM={code} -> DNG {expected} dB",
        );
        assert_eq!(
            hdr.dialog_normalization_gain(),
            DialogNormalization::Fixed(expected),
        );
    }
    for code in 0u32..=15 {
        let post_crc = (6u32 << 11) | code;
        let bytes = build_be_header(1, 31, 0, 16, 1023, 9, 13, 25, 0, None, post_crc);
        let hdr = parse_frame_header(&bytes).unwrap();
        assert_eq!(hdr.version, 6);
        assert_eq!(hdr.dialog_normalization, code as u8);
        let expected = -(code as i8) - 16;
        assert_eq!(
            hdr.dialog_normalization_db(),
            Some(expected),
            "VERNUM=6 DIALNORM={code} -> DNG {expected} dB",
        );
        assert_eq!(
            hdr.dialog_normalization_gain(),
            DialogNormalization::Fixed(expected),
        );
    }
}

#[test]
fn dialnorm_unspec_branch_is_zero_db_for_every_other_vernum() {
    for vernum in 0u32..=15 {
        if vernum == 6 || vernum == 7 {
            continue;
        }
        for code in 0u32..=15 {
            let post_crc = (vernum << 11) | code;
            let bytes = build_be_header(1, 31, 0, 16, 1023, 9, 13, 25, 0, None, post_crc);
            let hdr = parse_frame_header(&bytes).unwrap();
            assert_eq!(hdr.version, vernum as u8);
            assert_eq!(hdr.dialog_normalization, code as u8);
            assert_eq!(
                hdr.dialog_normalization_db(),
                Some(0),
                "VERNUM={vernum} DIALNORM={code} -> DNG = 0 dB (UNSPEC)",
            );
            assert_eq!(
                hdr.dialog_normalization_gain(),
                DialogNormalization::Unspecified,
            );
        }
    }
}

#[test]
fn dialog_normalization_from_codes_boundary_rows() {
    assert_eq!(
        dialog_normalization_from_codes(7, 0),
        DialogNormalization::Fixed(0),
    );
    assert_eq!(
        dialog_normalization_from_codes(7, 15),
        DialogNormalization::Fixed(-15),
    );
    assert_eq!(
        dialog_normalization_from_codes(6, 0),
        DialogNormalization::Fixed(-16),
    );
    assert_eq!(
        dialog_normalization_from_codes(6, 15),
        DialogNormalization::Fixed(-31),
    );
    for v in [0u8, 1, 2, 3, 4, 5, 8, 9, 10, 11, 12, 13, 14, 15] {
        assert_eq!(
            dialog_normalization_from_codes(v, 0),
            DialogNormalization::Unspecified,
        );
        assert_eq!(
            dialog_normalization_from_codes(v, 15),
            DialogNormalization::Unspecified,
        );
    }
    assert_eq!(
        dialog_normalization_from_codes(0xF7, 0xF0),
        DialogNormalization::Fixed(0),
    );
    assert_eq!(
        dialog_normalization_from_codes(0xF6, 0xFF),
        DialogNormalization::Fixed(-31),
    );
}

#[test]
fn dialog_normalization_gain_db_is_zero_for_unspecified() {
    assert_eq!(DialogNormalization::Unspecified.gain_db(), 0);
    for db in -31i8..=0 {
        assert_eq!(DialogNormalization::Fixed(db).gain_db(), db);
    }
}

#[test]
fn dialnorm_resolver_range_is_0_down_to_minus_31() {
    let mut seen = [false; 32];
    for v in 0u8..=15 {
        for d in 0u8..=15 {
            let db = match dialog_normalization_from_codes(v, d) {
                DialogNormalization::Fixed(db) => db,
                DialogNormalization::Unspecified => 0,
                other => panic!("unexpected {other:?}"),
            };
            assert!((-31..=0).contains(&db), "gain out of range");
            let bucket = (-db) as usize;
            seen[bucket] = true;
        }
    }
    for (i, hit) in seen.iter().enumerate() {
        assert!(*hit, "DNG {} dB not reachable", -(i as i32));
    }
}

#[test]
fn version_code_round_trips_for_every_4bit_value() {
    for code in 0..=15u32 {
        let post_crc = (code & 0b1111) << 11;
        let bytes = build_be_header(1, 31, 0, 16, 1023, 9, 13, 25, 0, None, post_crc);
        let hdr = parse_frame_header(&bytes).unwrap();
        assert_eq!(hdr.version, code as u8, "VERSION code {code}");
    }
}

#[test]
fn copy_history_code_round_trips_for_every_2bit_value() {
    for code in 0..=3u32 {
        let post_crc = (code & 0b11) << 9;
        let bytes = build_be_header(1, 31, 0, 16, 1023, 9, 13, 25, 0, None, post_crc);
        let hdr = parse_frame_header(&bytes).unwrap();
        assert_eq!(hdr.copy_history, code as u8, "COPY_HISTORY code {code}");
    }
}

#[test]
fn post_crc_window_decodes_regardless_of_crc_present_flag() {
    let payload = 0xD2EC;
    let with_crc = build_be_header(1, 31, 1, 16, 1023, 9, 13, 25, 0, Some(0xBEEF), payload);
    let without_crc = build_be_header(1, 31, 0, 16, 1023, 9, 13, 25, 0, None, payload);
    let hdr_with = parse_frame_header(&with_crc).unwrap();
    let hdr_without = parse_frame_header(&without_crc).unwrap();
    assert_eq!(hdr_with.header_crc, Some(0xBEEF));
    assert_eq!(hdr_without.header_crc, None);
    assert_eq!(hdr_with.multirate_inter, hdr_without.multirate_inter);
    assert_eq!(hdr_with.version, hdr_without.version);
    assert_eq!(hdr_with.copy_history, hdr_without.copy_history);
    assert_eq!(
        hdr_with.source_pcm_resolution_index,
        hdr_without.source_pcm_resolution_index
    );
    assert_eq!(hdr_with.front_sum, hdr_without.front_sum);
    assert_eq!(hdr_with.surround_sum, hdr_without.surround_sum);
    assert_eq!(
        hdr_with.dialog_normalization,
        hdr_without.dialog_normalization
    );
}

#[test]
fn header_bit_length_104_when_crc_absent() {
    let bytes = build_be_header(1, 31, 0, 16, 1023, 9, 13, 25, 0, None, 0);
    let hdr = parse_frame_header(&bytes).unwrap();
    assert!(!hdr.crc_present);
    assert_eq!(hdr.header_bit_length(), 104);
    assert_eq!(hdr.header_byte_length(), 13);
}

#[test]
fn header_bit_length_120_when_crc_present() {
    let bytes = build_be_header(1, 31, 1, 16, 1023, 9, 13, 25, 0, Some(0xBEEF), 0);
    let hdr = parse_frame_header(&bytes).unwrap();
    assert!(hdr.crc_present);
    assert_eq!(hdr.header_bit_length(), 120);
    assert_eq!(hdr.header_byte_length(), 15);
}

#[test]
fn header_bit_length_matches_manual_wiki_table_sum() {
    let sync = 32u32;
    let base = 1 + 5 + 1 + 7 + 14 + 6 + 4 + 5;
    let trailing = 1 + 1 + 1 + 1 + 1 + 3 + 1 + 1 + 2 + 1;
    let post_crc = 1 + 4 + 2 + 3 + 1 + 1 + 4;
    let crc_slot = 16;

    let absent = build_be_header(1, 31, 0, 5, 94, 0, 0, 0, 0, None, 0);
    let hdr_absent = parse_frame_header(&absent).unwrap();
    assert_eq!(
        hdr_absent.header_bit_length(),
        sync + base + trailing + post_crc,
    );

    let present = build_be_header(1, 31, 1, 5, 94, 0, 0, 0, 0, Some(0), 0);
    let hdr_present = parse_frame_header(&present).unwrap();
    assert_eq!(
        hdr_present.header_bit_length(),
        sync + base + trailing + post_crc + crc_slot,
    );
}

#[test]
fn header_byte_length_is_always_byte_aligned() {
    for crc in [0, 1] {
        for nblks in [5u32, 16, 127] {
            for fsize_m1 in [94u32, 1023, 16383] {
                let crc_payload = if crc == 1 { Some(0) } else { None };
                let bytes =
                    build_be_header(1, 31, crc, nblks, fsize_m1, 0, 0, 0, 0, crc_payload, 0);
                let hdr = parse_frame_header(&bytes).unwrap();
                assert_eq!(
                    hdr.header_bit_length() % 8,
                    0,
                    "bit length must be byte-aligned (crc={crc} nblks={nblks} fsize_m1={fsize_m1})"
                );
                assert_eq!(
                    hdr.header_byte_length() * 8,
                    hdr.header_bit_length() as usize,
                );
            }
        }
    }
}

#[test]
fn header_bit_length_14bit_matches_raw_be() {
    let raw = build_be_header(1, 31, 1, 16, 1023, 9, 13, 25, 0, Some(0xC0DE), 0);
    let packed = build_14bit_packed_header(
        FourteenBitByteOrder::BigEndian,
        1,
        31,
        1,
        16,
        1023,
        9,
        13,
        25,
        0,
        Some(0xC0DE),
        0,
    );
    let hdr_raw = parse_frame_header(&raw).unwrap();
    let hdr_packed = parse_frame_header_14bit(&packed).unwrap();
    assert_eq!(hdr_raw.header_bit_length(), 120);
    assert_eq!(hdr_packed.header_bit_length(), 120);
    assert_eq!(
        hdr_raw.header_byte_length(),
        hdr_packed.header_byte_length()
    );
}

#[test]
fn frame_size_container_bytes_raw_equals_frame_size_bytes() {
    let bytes = build_be_header(1, 31, 0, 16, 1023, 0, 0, 0, 0, None, 0);
    let hdr = parse_frame_header(&bytes).unwrap();
    assert_eq!(hdr.frame_size_bytes, 1024);
    assert_eq!(
        hdr.frame_size_container_bytes(SyncWordEncoding::RawBigEndian),
        1024,
    );
    assert_eq!(
        hdr.frame_size_container_bytes(SyncWordEncoding::RawLittleEndian),
        1024,
    );
}

#[test]
fn frame_size_container_bytes_14bit_1024_logical_is_1172_container() {
    let bytes = build_be_header(1, 31, 0, 16, 1023, 0, 0, 0, 0, None, 0);
    let hdr = parse_frame_header(&bytes).unwrap();
    assert_eq!(hdr.frame_size_bytes, 1024);
    assert_eq!(
        hdr.frame_size_container_bytes(SyncWordEncoding::FourteenBitBigEndian),
        1172,
    );
    assert_eq!(
        hdr.frame_size_container_bytes(SyncWordEncoding::FourteenBitLittleEndian),
        1172,
    );
}

#[test]
fn frame_size_container_bytes_14bit_min_and_max() {
    let bytes_min = build_be_header(1, 31, 0, 5, 94, 0, 0, 0, 0, None, 0);
    let hdr_min = parse_frame_header(&bytes_min).unwrap();
    assert_eq!(hdr_min.frame_size_bytes, 95);
    assert_eq!(
        hdr_min.frame_size_container_bytes(SyncWordEncoding::FourteenBitBigEndian),
        110,
    );

    let bytes_max = build_be_header(1, 31, 0, 127, 16383, 0, 0, 0, 0, None, 0);
    let hdr_max = parse_frame_header(&bytes_max).unwrap();
    assert_eq!(hdr_max.frame_size_bytes, 16384);
    assert_eq!(
        hdr_max.frame_size_container_bytes(SyncWordEncoding::FourteenBitBigEndian),
        18726,
    );
}

#[test]
fn frame_size_container_bytes_14bit_is_strictly_greater_than_raw() {
    for fsize_m1 in [94u32, 511, 1023, 2047, 4095, 8191, 16383] {
        let bytes = build_be_header(1, 31, 0, 16, fsize_m1, 0, 0, 0, 0, None, 0);
        let hdr = parse_frame_header(&bytes).unwrap();
        let raw = hdr.frame_size_container_bytes(SyncWordEncoding::RawBigEndian);
        let packed = hdr.frame_size_container_bytes(SyncWordEncoding::FourteenBitBigEndian);
        assert!(
            packed > raw,
            "14-bit container advance must exceed raw (fsize_bytes={}, raw={}, packed={})",
            hdr.frame_size_bytes,
            raw,
            packed,
        );
        let ub = (raw * 16).div_ceil(14) + 2;
        assert!(
            packed <= ub,
            "14-bit advance overshoots scaling bound (fsize_bytes={}, raw={}, packed={}, ub={})",
            hdr.frame_size_bytes,
            raw,
            packed,
            ub,
        );
    }
}

#[test]
fn frame_size_container_bytes_be_le_equivalence() {
    for fsize_m1 in [94u32, 1023, 16383] {
        let bytes = build_be_header(1, 31, 0, 16, fsize_m1, 0, 0, 0, 0, None, 0);
        let hdr = parse_frame_header(&bytes).unwrap();
        assert_eq!(
            hdr.frame_size_container_bytes(SyncWordEncoding::RawBigEndian),
            hdr.frame_size_container_bytes(SyncWordEncoding::RawLittleEndian),
        );
        assert_eq!(
            hdr.frame_size_container_bytes(SyncWordEncoding::FourteenBitBigEndian),
            hdr.frame_size_container_bytes(SyncWordEncoding::FourteenBitLittleEndian),
        );
    }
}

#[test]
fn frame_size_container_bytes_14bit_is_even() {
    for fsize_m1 in [94u32, 100, 511, 1023, 1535, 16383] {
        let bytes = build_be_header(1, 31, 0, 16, fsize_m1, 0, 0, 0, 0, None, 0);
        let hdr = parse_frame_header(&bytes).unwrap();
        let n = hdr.frame_size_container_bytes(SyncWordEncoding::FourteenBitBigEndian);
        assert_eq!(
            n % 2,
            0,
            "14-bit container advance must be even (fsize_bytes={}, advance={})",
            hdr.frame_size_bytes,
            n,
        );
    }
}

#[test]
fn frame_size_container_bytes_14bit_matches_closed_form() {
    for fsize_m1 in [94u32, 200, 400, 1023, 8192, 16383] {
        let bytes = build_be_header(1, 31, 0, 16, fsize_m1, 0, 0, 0, 0, None, 0);
        let hdr = parse_frame_header(&bytes).unwrap();
        let logical_bits = (hdr.frame_size_bytes as u32) * 8;
        let expected = 2 * logical_bits.div_ceil(14);
        let actual = hdr.frame_size_container_bytes(SyncWordEncoding::FourteenBitBigEndian);
        assert_eq!(
            expected, actual,
            "closed-form mismatch (fsize_bytes={}, expected={}, actual={})",
            hdr.frame_size_bytes, expected, actual,
        );
    }
}

#[test]
fn encode_round_trip_non_trivial_with_crc() {
    let bytes_in = build_be_header(
        1,
        31,
        1,
        16,
        1023,
        9,
        13,
        25,
        0b1_0100_1010_0011,
        Some(0xC0DE),
        0xD2EC,
    );
    let hdr = parse_frame_header(&bytes_in).unwrap();

    let encoded = encode_frame_header_be(&hdr).expect("encode must succeed");
    assert_eq!(encoded.len(), hdr.header_byte_length());
    assert_eq!(encoded.len(), 15);

    assert_eq!(&encoded[..4], &[0x7F, 0xFE, 0x80, 0x01]);

    assert_eq!(&encoded[..], &bytes_in[..encoded.len()]);

    let mut hdr_round = parse_frame_header(&encoded).unwrap();
    assert_eq!(hdr_round.sync_word_encoding, SyncWordEncoding::RawBigEndian);
    hdr_round.sync_word_encoding = hdr.sync_word_encoding;
    assert_eq!(hdr_round, hdr);
}

#[test]
fn encode_round_trip_termination_no_crc_minimal() {
    let bytes_in = build_be_header(0, 0, 0, 5, 94, 0, 0, 0, 0, None, 0);
    let hdr = parse_frame_header(&bytes_in).unwrap();

    let encoded = encode_frame_header_be(&hdr).unwrap();
    assert_eq!(encoded.len(), 13);
    assert_eq!(encoded.len(), hdr.header_byte_length());

    assert_eq!(&encoded[..], &bytes_in[..13]);

    let mut padded = encoded.clone();
    padded.extend_from_slice(&[0u8; 2]);
    let hdr_round = parse_frame_header(&padded).unwrap();
    assert_eq!(hdr_round.frame_type, FrameType::Termination);
    assert_eq!(hdr_round.sample_count_per_block, 1);
    assert!(!hdr_round.crc_present);
    assert_eq!(hdr_round.blocks_per_frame, 5);
    assert_eq!(hdr_round.frame_size_bytes, 95);
    let mut hdr_norm = hdr_round;
    hdr_norm.sync_word_encoding = hdr.sync_word_encoding;
    assert_eq!(hdr_norm, hdr);
}

#[test]
fn encode_rejects_nblks_below_5() {
    let hdr = synth_hdr(|h| h.blocks_per_frame = 4);
    let err = encode_frame_header_be(&hdr).unwrap_err();
    assert_eq!(err, Error::BlockCountOutOfRange { blocks: 4 });
}

#[test]
fn encode_rejects_nblks_above_127() {
    let hdr = synth_hdr(|h| h.blocks_per_frame = 128);
    let err = encode_frame_header_be(&hdr).unwrap_err();
    assert_eq!(err, Error::BlockCountOutOfRange { blocks: 128 });
}

#[test]
fn encode_rejects_frame_size_below_95() {
    let hdr = synth_hdr(|h| h.frame_size_bytes = 94);
    let err = encode_frame_header_be(&hdr).unwrap_err();
    assert_eq!(err, Error::FrameSizeOutOfRange { frame_size: 94 });
}

#[test]
fn encode_rejects_frame_size_above_16384() {
    let hdr = synth_hdr(|h| h.frame_size_bytes = 16385);
    let err = encode_frame_header_be(&hdr).unwrap_err();
    assert_eq!(err, Error::FrameSizeOutOfRange { frame_size: 16385 });
}

#[test]
fn encode_rejects_amode_above_63() {
    let hdr = synth_hdr(|h| h.amode = 64);
    let err = encode_frame_header_be(&hdr).unwrap_err();
    assert_eq!(
        err,
        Error::FieldOutOfRange {
            field: "amode",
            value: 64,
            max: 63
        }
    );
}

#[test]
fn encode_rejects_pcmr_above_7() {
    let hdr = synth_hdr(|h| h.source_pcm_resolution_index = 8);
    let err = encode_frame_header_be(&hdr).unwrap_err();
    assert_eq!(
        err,
        Error::FieldOutOfRange {
            field: "source_pcm_resolution_index",
            value: 8,
            max: 7,
        }
    );
}

#[test]
fn encode_rejects_version_above_15() {
    let hdr = synth_hdr(|h| h.version = 16);
    let err = encode_frame_header_be(&hdr).unwrap_err();
    assert_eq!(
        err,
        Error::FieldOutOfRange {
            field: "version",
            value: 16,
            max: 15,
        }
    );
}

#[test]
fn encode_rejects_crc_payload_without_crc_present() {
    let hdr = synth_hdr(|h| {
        h.crc_present = false;
        h.header_crc = Some(0x1234);
    });
    let err = encode_frame_header_be(&hdr).unwrap_err();
    match err {
        Error::FieldOutOfRange { field, .. } => assert_eq!(field, "header_crc"),
        other => panic!("expected FieldOutOfRange{{field: header_crc}}, got {other:?}"),
    }
}

#[test]
fn encode_rejects_crc_present_without_payload() {
    let hdr = synth_hdr(|h| {
        h.crc_present = true;
        h.header_crc = None;
    });
    let err = encode_frame_header_be(&hdr).unwrap_err();
    match err {
        Error::FieldOutOfRange { field, .. } => assert_eq!(field, "header_crc"),
        other => panic!("expected FieldOutOfRange{{field: header_crc}}, got {other:?}"),
    }
}

#[test]
fn encode_normalises_le_input_to_raw_be_output() {
    let raw_be = build_be_header(1, 31, 0, 16, 1023, 9, 13, 25, 0, None, 0);
    let raw_le: Vec<u8> = raw_be.chunks_exact(2).flat_map(|c| [c[1], c[0]]).collect();
    let hdr_le = parse_frame_header(&raw_le).unwrap();
    assert_eq!(hdr_le.sync_word_encoding, SyncWordEncoding::RawLittleEndian);

    let encoded = encode_frame_header_be(&hdr_le).unwrap();
    assert_eq!(&encoded[..4], &[0x7F, 0xFE, 0x80, 0x01]);

    let mut padded = encoded.clone();
    padded.extend_from_slice(&[0u8; 2]);
    let hdr_round = parse_frame_header(&padded).unwrap();
    assert_eq!(hdr_round.sync_word_encoding, SyncWordEncoding::RawBigEndian);
    let mut hdr_norm = hdr_round;
    hdr_norm.sync_word_encoding = hdr_le.sync_word_encoding;
    assert_eq!(hdr_norm, hdr_le);
}

#[test]
fn encode_round_trip_grid_lfe_crc_states() {
    for crc_state in [false, true] {
        for lfe_code in 0u8..=3 {
            for &(nblks, fsize) in &[(5u8, 95u16), (16u8, 1024u16), (127u8, 16384u16)] {
                let crc_arg = if crc_state { Some(0xBEEF) } else { None };
                let bytes = build_be_header(
                    1,
                    31,
                    crc_state as u32,
                    nblks as u32,
                    (fsize - 1) as u32,
                    9,
                    13,
                    25,
                    ((lfe_code as u32) & 0b11) << 1,
                    crc_arg,
                    0,
                );
                let hdr = parse_frame_header(&bytes).unwrap();
                assert_eq!(hdr.lfe.code(), lfe_code);
                assert_eq!(hdr.crc_present, crc_state);

                let encoded = encode_frame_header_be(&hdr).unwrap();
                assert_eq!(encoded.len(), hdr.header_byte_length());

                let mut padded = encoded.clone();
                while padded.len() < 15 {
                    padded.push(0);
                }
                let hdr_round = parse_frame_header(&padded).unwrap();
                let mut hdr_norm = hdr_round;
                hdr_norm.sync_word_encoding = hdr.sync_word_encoding;
                assert_eq!(hdr_norm, hdr);
            }
        }
    }
}

#[test]
fn encode_reproduces_ffmpeg_fixture_header_prefix() {
    let ffmpeg_bytes: [u8; 16] = [
        0x7f, 0xfe, 0x80, 0x01, 0xfc, 0x3c, 0x3f, 0xf0, 0xb5, 0xe0, 0x01, 0x38, 0x00, 0x03,
        0xef, 0x7f,
    ];
    let hdr = parse_frame_header(&ffmpeg_bytes).unwrap();
    assert!(!hdr.crc_present);
    assert_eq!(hdr.header_byte_length(), 13);

    let encoded = encode_frame_header_be(&hdr).unwrap();
    assert_eq!(encoded.len(), 13);
    assert_eq!(&encoded[..], &ffmpeg_bytes[..13]);
}

fn synth_hdr(mutate: impl FnOnce(&mut DtsFrameHeader)) -> DtsFrameHeader {
    let bytes = build_be_header(1, 31, 0, 16, 1023, 9, 13, 25, 0, None, 0);
    let mut h = parse_frame_header(&bytes).unwrap();
    mutate(&mut h);
    h
}

#[test]
fn encode_le_emits_canonical_raw_le_sync() {
    let bytes_in = build_be_header(1, 31, 0, 16, 1023, 9, 13, 25, 0, None, 0);
    let hdr = parse_frame_header(&bytes_in).unwrap();
    let encoded = encode_frame_header_le(&hdr).unwrap();
    assert_eq!(&encoded[..4], &[0xFE, 0x7F, 0x01, 0x80]);
}

#[test]
fn encode_le_is_always_16_bytes() {
    let bytes_no_crc = build_be_header(1, 31, 0, 16, 1023, 9, 13, 25, 0, None, 0);
    let hdr_no_crc = parse_frame_header(&bytes_no_crc).unwrap();
    assert!(!hdr_no_crc.crc_present);
    assert_eq!(encode_frame_header_le(&hdr_no_crc).unwrap().len(), 16);

    let bytes_crc = build_be_header(1, 31, 1, 16, 1023, 9, 13, 25, 0, Some(0xCAFE), 0xD2EC);
    let hdr_crc = parse_frame_header(&bytes_crc).unwrap();
    assert!(hdr_crc.crc_present);
    assert_eq!(encode_frame_header_le(&hdr_crc).unwrap().len(), 16);
}

#[test]
fn encode_le_equals_word_swapped_be_padded() {
    let bytes_in = build_be_header(1, 31, 1, 16, 1023, 9, 13, 25, 0, Some(0xCAFE), 0xD2EC);
    let hdr = parse_frame_header(&bytes_in).unwrap();
    let be = encode_frame_header_be(&hdr).unwrap();
    let le = encode_frame_header_le(&hdr).unwrap();
    let mut expected = be.clone();
    expected.resize(16, 0);
    for pair in expected.chunks_exact_mut(2) {
        pair.swap(0, 1);
    }
    assert_eq!(le, expected);
}

#[test]
fn encode_le_round_trips_through_parser_no_crc() {
    let bytes_in = build_be_header(1, 31, 0, 16, 1023, 9, 13, 25, 0, None, 0);
    let hdr = parse_frame_header(&bytes_in).unwrap();
    let encoded_le = encode_frame_header_le(&hdr).unwrap();
    let hdr_round = parse_frame_header(&encoded_le).unwrap();
    assert_eq!(
        hdr_round.sync_word_encoding,
        SyncWordEncoding::RawLittleEndian
    );
    let mut hdr_norm = hdr_round;
    hdr_norm.sync_word_encoding = hdr.sync_word_encoding;
    assert_eq!(hdr_norm, hdr);
}

#[test]
fn encode_le_round_trips_through_parser_with_crc() {
    let bytes_in = build_be_header(1, 31, 1, 16, 1023, 9, 13, 25, 0, Some(0xCAFE), 0xD2EC);
    let hdr = parse_frame_header(&bytes_in).unwrap();
    let encoded_le = encode_frame_header_le(&hdr).unwrap();
    let hdr_round = parse_frame_header(&encoded_le).unwrap();
    assert_eq!(
        hdr_round.sync_word_encoding,
        SyncWordEncoding::RawLittleEndian
    );
    let mut hdr_norm = hdr_round;
    hdr_norm.sync_word_encoding = hdr.sync_word_encoding;
    assert_eq!(hdr_norm, hdr);
}

#[test]
fn encode_le_rejects_nblks_below_5() {
    let hdr = synth_hdr(|h| h.blocks_per_frame = 4);
    let err = encode_frame_header_le(&hdr).unwrap_err();
    assert_eq!(err, Error::BlockCountOutOfRange { blocks: 4 });
}

#[test]
fn encode_le_rejects_crc_payload_mismatch() {
    let hdr = synth_hdr(|h| {
        h.crc_present = false;
        h.header_crc = Some(0xBEEF);
    });
    let err = encode_frame_header_le(&hdr).unwrap_err();
    match err {
        Error::FieldOutOfRange { field, .. } => assert_eq!(field, "header_crc"),
        other => panic!("expected FieldOutOfRange{{field: header_crc}}, got {other:?}"),
    }
}

#[test]
fn encode_le_round_trip_grid_lfe_crc_states() {
    for crc_state in [false, true] {
        for lfe_code in 0u8..=3 {
            for &(nblks, fsize) in &[(5u8, 95u16), (16u8, 1024u16), (127u8, 16384u16)] {
                let crc_arg = if crc_state { Some(0xBEEF) } else { None };
                let bytes = build_be_header(
                    1,
                    31,
                    crc_state as u32,
                    nblks as u32,
                    (fsize - 1) as u32,
                    9,
                    13,
                    25,
                    ((lfe_code as u32) & 0b11) << 1,
                    crc_arg,
                    0,
                );
                let hdr = parse_frame_header(&bytes).unwrap();
                let encoded = encode_frame_header_le(&hdr).unwrap();
                assert_eq!(encoded.len(), 16);
                assert_eq!(&encoded[..4], &[0xFE, 0x7F, 0x01, 0x80]);
                let hdr_round = parse_frame_header(&encoded).unwrap();
                assert_eq!(
                    hdr_round.sync_word_encoding,
                    SyncWordEncoding::RawLittleEndian
                );
                let mut hdr_norm = hdr_round;
                hdr_norm.sync_word_encoding = hdr.sync_word_encoding;
                assert_eq!(hdr_norm, hdr);
            }
        }
    }
}

#[test]
fn encode_le_reproduces_ffmpeg_fixture_byte_swapped() {
    let wire_be: [u8; 16] = [
        0x7f, 0xfe, 0x80, 0x01, 0xfc, 0x3c, 0x3f, 0xf0, 0xb5, 0xe0, 0x01, 0x38, 0x00, 0x03,
        0xef, 0x7f,
    ];
    let hdr = parse_frame_header(&wire_be).unwrap();
    assert!(!hdr.crc_present);

    let mut expected = [0u8; 16];
    for i in 0..8 {
        expected[i * 2] = wire_be[i * 2 + 1];
        expected[i * 2 + 1] = wire_be[i * 2];
    }
    let encoded = encode_frame_header_le(&hdr).unwrap();
    assert_eq!(&encoded[..12], &expected[..12]);
    assert_eq!(encoded[13], expected[13]);
}


#[test]
fn encode_14bit_be_is_always_18_bytes() {
    let bytes_no_crc = build_be_header(1, 31, 0, 16, 1023, 9, 13, 25, 0, None, 0);
    let hdr_no_crc = parse_frame_header(&bytes_no_crc).unwrap();
    assert!(!hdr_no_crc.crc_present);
    assert_eq!(encode_frame_header_14bit_be(&hdr_no_crc).unwrap().len(), 18);

    let bytes_crc = build_be_header(1, 31, 1, 16, 1023, 9, 13, 25, 0, Some(0xCAFE), 0xD2EC);
    let hdr_crc = parse_frame_header(&bytes_crc).unwrap();
    assert!(hdr_crc.crc_present);
    assert_eq!(encode_frame_header_14bit_be(&hdr_crc).unwrap().len(), 18);
}

#[test]
fn encode_14bit_le_is_always_18_bytes() {
    let bytes_no_crc = build_be_header(1, 31, 0, 16, 1023, 9, 13, 25, 0, None, 0);
    let hdr_no_crc = parse_frame_header(&bytes_no_crc).unwrap();
    assert_eq!(encode_frame_header_14bit_le(&hdr_no_crc).unwrap().len(), 18);

    let bytes_crc = build_be_header(1, 31, 1, 16, 1023, 9, 13, 25, 0, Some(0xCAFE), 0xD2EC);
    let hdr_crc = parse_frame_header(&bytes_crc).unwrap();
    assert_eq!(encode_frame_header_14bit_le(&hdr_crc).unwrap().len(), 18);
}

#[test]
fn encode_14bit_be_starts_with_wiki_sync_prefix() {
    let bytes_in = build_be_header(1, 31, 0, 16, 1023, 9, 13, 25, 0, None, 0);
    let hdr = parse_frame_header(&bytes_in).unwrap();
    let encoded = encode_frame_header_14bit_be(&hdr).unwrap();
    assert_eq!(&encoded[..4], &[0x1F, 0xFF, 0xE8, 0x00]);
}

#[test]
fn encode_14bit_le_starts_with_wiki_sync_prefix() {
    let bytes_in = build_be_header(1, 31, 0, 16, 1023, 9, 13, 25, 0, None, 0);
    let hdr = parse_frame_header(&bytes_in).unwrap();
    let encoded = encode_frame_header_14bit_le(&hdr).unwrap();
    assert_eq!(&encoded[..4], &[0xFF, 0x1F, 0x00, 0xE8]);
}

#[test]
fn encode_14bit_le_equals_pairwise_byte_swap_of_be() {
    let bytes_in = build_be_header(1, 31, 1, 16, 1023, 9, 13, 25, 0, Some(0xCAFE), 0xD2EC);
    let hdr = parse_frame_header(&bytes_in).unwrap();
    let be = encode_frame_header_14bit_be(&hdr).unwrap();
    let le = encode_frame_header_14bit_le(&hdr).unwrap();
    assert_eq!(be.len(), le.len());
    assert_eq!(be.len() % 2, 0, "container-aligned");
    let mut expected = be.clone();
    for pair in expected.chunks_exact_mut(2) {
        pair.swap(0, 1);
    }
    assert_eq!(le, expected);
}

#[test]
fn encode_14bit_be_round_trips_through_parser_no_crc() {
    let bytes_in = build_be_header(1, 31, 0, 16, 1023, 9, 13, 25, 0, None, 0);
    let hdr = parse_frame_header(&bytes_in).unwrap();
    let encoded = encode_frame_header_14bit_be(&hdr).unwrap();
    assert_eq!(encoded.len(), 18);
    let hdr_round = parse_frame_header_14bit(&encoded).unwrap();
    assert_eq!(
        hdr_round.sync_word_encoding,
        SyncWordEncoding::FourteenBitBigEndian
    );
    let mut hdr_norm = hdr_round;
    hdr_norm.sync_word_encoding = hdr.sync_word_encoding;
    assert_eq!(hdr_norm, hdr);
}

#[test]
fn encode_14bit_be_round_trips_through_parser_with_crc() {
    let bytes_in = build_be_header(1, 31, 1, 16, 1023, 9, 13, 25, 0, Some(0xCAFE), 0xD2EC);
    let hdr = parse_frame_header(&bytes_in).unwrap();
    let encoded = encode_frame_header_14bit_be(&hdr).unwrap();
    assert_eq!(encoded.len(), 18);
    let hdr_round = parse_frame_header_14bit(&encoded).unwrap();
    assert_eq!(
        hdr_round.sync_word_encoding,
        SyncWordEncoding::FourteenBitBigEndian
    );
    let mut hdr_norm = hdr_round;
    hdr_norm.sync_word_encoding = hdr.sync_word_encoding;
    assert_eq!(hdr_norm, hdr);
}

#[test]
fn encode_14bit_le_round_trips_through_parser_no_crc() {
    let bytes_in = build_be_header(1, 31, 0, 16, 1023, 9, 13, 25, 0, None, 0);
    let hdr = parse_frame_header(&bytes_in).unwrap();
    let encoded = encode_frame_header_14bit_le(&hdr).unwrap();
    let hdr_round = parse_frame_header_14bit(&encoded).unwrap();
    assert_eq!(
        hdr_round.sync_word_encoding,
        SyncWordEncoding::FourteenBitLittleEndian
    );
    let mut hdr_norm = hdr_round;
    hdr_norm.sync_word_encoding = hdr.sync_word_encoding;
    assert_eq!(hdr_norm, hdr);
}

#[test]
fn encode_14bit_le_round_trips_through_parser_with_crc() {
    let bytes_in = build_be_header(1, 31, 1, 16, 1023, 9, 13, 25, 0, Some(0xCAFE), 0xD2EC);
    let hdr = parse_frame_header(&bytes_in).unwrap();
    let encoded = encode_frame_header_14bit_le(&hdr).unwrap();
    let hdr_round = parse_frame_header_14bit(&encoded).unwrap();
    assert_eq!(
        hdr_round.sync_word_encoding,
        SyncWordEncoding::FourteenBitLittleEndian
    );
    let mut hdr_norm = hdr_round;
    hdr_norm.sync_word_encoding = hdr.sync_word_encoding;
    assert_eq!(hdr_norm, hdr);
}

#[test]
fn encode_14bit_be_rejects_nblks_below_5() {
    let hdr = synth_hdr(|h| h.blocks_per_frame = 4);
    let err = encode_frame_header_14bit_be(&hdr).unwrap_err();
    assert_eq!(err, Error::BlockCountOutOfRange { blocks: 4 });
}

#[test]
fn encode_14bit_le_rejects_frame_size_above_16384() {
    let hdr = synth_hdr(|h| h.frame_size_bytes = 16385);
    let err = encode_frame_header_14bit_le(&hdr).unwrap_err();
    assert_eq!(err, Error::FrameSizeOutOfRange { frame_size: 16385 });
}

#[test]
fn encode_14bit_be_rejects_crc_payload_mismatch() {
    let hdr = synth_hdr(|h| {
        h.crc_present = false;
        h.header_crc = Some(0xBEEF);
    });
    let err = encode_frame_header_14bit_be(&hdr).unwrap_err();
    match err {
        Error::FieldOutOfRange { field, .. } => assert_eq!(field, "header_crc"),
        other => panic!("expected FieldOutOfRange{{field: header_crc}}, got {other:?}"),
    }
}

#[test]
fn encode_14bit_round_trip_grid_lfe_crc_states() {
    for crc_state in [false, true] {
        for lfe_code in 0u8..=3 {
            for &(nblks, fsize) in &[(5u8, 95u16), (16u8, 1024u16), (127u8, 16384u16)] {
                let crc_arg = if crc_state { Some(0xBEEF) } else { None };
                let bytes = build_be_header(
                    1,
                    31,
                    crc_state as u32,
                    nblks as u32,
                    (fsize - 1) as u32,
                    9,
                    13,
                    25,
                    ((lfe_code as u32) & 0b11) << 1,
                    crc_arg,
                    0,
                );
                let hdr = parse_frame_header(&bytes).unwrap();

                let encoded_be = encode_frame_header_14bit_be(&hdr).unwrap();
                assert_eq!(encoded_be.len(), 18);
                assert_eq!(&encoded_be[..4], &[0x1F, 0xFF, 0xE8, 0x00]);
                let hdr_round_be = parse_frame_header_14bit(&encoded_be).unwrap();
                assert_eq!(
                    hdr_round_be.sync_word_encoding,
                    SyncWordEncoding::FourteenBitBigEndian
                );
                let mut hdr_norm_be = hdr_round_be;
                hdr_norm_be.sync_word_encoding = hdr.sync_word_encoding;
                assert_eq!(hdr_norm_be, hdr);

                let encoded_le = encode_frame_header_14bit_le(&hdr).unwrap();
                assert_eq!(encoded_le.len(), 18);
                assert_eq!(&encoded_le[..4], &[0xFF, 0x1F, 0x00, 0xE8]);
                let hdr_round_le = parse_frame_header_14bit(&encoded_le).unwrap();
                assert_eq!(
                    hdr_round_le.sync_word_encoding,
                    SyncWordEncoding::FourteenBitLittleEndian
                );
                let mut hdr_norm_le = hdr_round_le;
                hdr_norm_le.sync_word_encoding = hdr.sync_word_encoding;
                assert_eq!(hdr_norm_le, hdr);

                let mut swapped = encoded_be.clone();
                for pair in swapped.chunks_exact_mut(2) {
                    pair.swap(0, 1);
                }
                assert_eq!(encoded_le, swapped);
            }
        }
    }
}

#[test]
fn encode_14bit_be_unpacks_back_to_raw_be_header_prefix() {
    let bytes_in = build_be_header(1, 31, 0, 16, 1023, 9, 13, 25, 0, None, 0);
    let hdr = parse_frame_header(&bytes_in).unwrap();
    let encoded_14 = encode_frame_header_14bit_be(&hdr).unwrap();
    let unpacked =
        unpack_14bit_to_16bit(&encoded_14, FourteenBitByteOrder::BigEndian).unwrap();
    let raw_be = encode_frame_header_be(&hdr).unwrap();
    assert_eq!(&unpacked[..raw_be.len()], &raw_be[..]);
    assert_eq!(&unpacked[..4], &[0x7F, 0xFE, 0x80, 0x01]);
}

#[test]
fn sample_frequency_from_index_covers_table_5_5_verbatim() {
    assert_eq!(
        sample_frequency_from_index(0b0000),
        SampleFrequency::Invalid
    );
    assert_eq!(
        sample_frequency_from_index(0b0001),
        SampleFrequency::Fixed(8_000)
    );
    assert_eq!(
        sample_frequency_from_index(0b0010),
        SampleFrequency::Fixed(16_000)
    );
    assert_eq!(
        sample_frequency_from_index(0b0011),
        SampleFrequency::Fixed(32_000)
    );
    assert_eq!(
        sample_frequency_from_index(0b0100),
        SampleFrequency::Invalid
    );
    assert_eq!(
        sample_frequency_from_index(0b0101),
        SampleFrequency::Invalid
    );
    assert_eq!(
        sample_frequency_from_index(0b0110),
        SampleFrequency::Fixed(11_025)
    );
    assert_eq!(
        sample_frequency_from_index(0b0111),
        SampleFrequency::Fixed(22_050)
    );
    assert_eq!(
        sample_frequency_from_index(0b1000),
        SampleFrequency::Fixed(44_100)
    );
    assert_eq!(
        sample_frequency_from_index(0b1001),
        SampleFrequency::Invalid
    );
    assert_eq!(
        sample_frequency_from_index(0b1010),
        SampleFrequency::Invalid
    );
    assert_eq!(
        sample_frequency_from_index(0b1011),
        SampleFrequency::Fixed(12_000)
    );
    assert_eq!(
        sample_frequency_from_index(0b1100),
        SampleFrequency::Fixed(24_000)
    );
    assert_eq!(
        sample_frequency_from_index(0b1101),
        SampleFrequency::Fixed(48_000)
    );
    assert_eq!(
        sample_frequency_from_index(0b1110),
        SampleFrequency::Invalid
    );
    assert_eq!(
        sample_frequency_from_index(0b1111),
        SampleFrequency::Invalid
    );
}

#[test]
fn sample_frequency_table_has_exactly_nine_valid_codes() {
    let valid: usize = (0u8..16)
        .filter(|&code| matches!(sample_frequency_from_index(code), SampleFrequency::Fixed(_)))
        .count();
    assert_eq!(valid, 9);
}

#[test]
fn sample_rate_hz_returns_some_for_valid_and_none_for_invalid() {
    for code in 0..16u32 {
        let header_bytes = build_be_header(
            1, 31, 0,
            15, 1023, 2,
            code, 15, 0,
            None, 0,
        );
        let hdr = parse_frame_header(&header_bytes).unwrap_or_else(|e| {
            panic!("parse_frame_header failed for sfreq={code:04b}: {e:?}")
        });
        assert_eq!(hdr.sfreq_index, code as u8);
        match sample_frequency_from_index(code as u8) {
            SampleFrequency::Fixed(hz) => {
                assert_eq!(hdr.sample_rate_hz(), Some(hz));
                assert_eq!(hdr.sample_frequency(), SampleFrequency::Fixed(hz));
            }
            SampleFrequency::Invalid => {
                assert_eq!(hdr.sample_rate_hz(), None);
                assert_eq!(hdr.sample_frequency(), SampleFrequency::Invalid);
            }
            other => panic!("unexpected {other:?}"),
        }
    }
}

#[test]
fn amode_arrangement_from_index_covers_table_5_4_verbatim() {
    assert_eq!(amode_arrangement_from_index(0), AmodeArrangement::Mono);
    assert_eq!(amode_arrangement_from_index(1), AmodeArrangement::DualMono);
    assert_eq!(amode_arrangement_from_index(2), AmodeArrangement::Stereo);
    assert_eq!(
        amode_arrangement_from_index(3),
        AmodeArrangement::SumDifference
    );
    assert_eq!(amode_arrangement_from_index(4), AmodeArrangement::LtRt);
    assert_eq!(amode_arrangement_from_index(5), AmodeArrangement::ClR);
    assert_eq!(amode_arrangement_from_index(6), AmodeArrangement::LrS);
    assert_eq!(amode_arrangement_from_index(7), AmodeArrangement::ClRS);
    assert_eq!(amode_arrangement_from_index(8), AmodeArrangement::LrSlSr);
    assert_eq!(amode_arrangement_from_index(9), AmodeArrangement::ClRSlSr);
    assert_eq!(
        amode_arrangement_from_index(10),
        AmodeArrangement::ClCrLRSlSr
    );
    assert_eq!(
        amode_arrangement_from_index(11),
        AmodeArrangement::ClRLrRrOv
    );
    assert_eq!(
        amode_arrangement_from_index(12),
        AmodeArrangement::CfCrLfRfLrRr
    );
    assert_eq!(
        amode_arrangement_from_index(13),
        AmodeArrangement::ClCCrLRSlSr
    );
    assert_eq!(
        amode_arrangement_from_index(14),
        AmodeArrangement::ClCrLRSl1Sl2Sr1Sr2
    );
    assert_eq!(
        amode_arrangement_from_index(15),
        AmodeArrangement::ClCCrLRSlSSr
    );
    for code in [16u8, 17, 31, 32, 47, 62, 63] {
        assert_eq!(
            amode_arrangement_from_index(code),
            AmodeArrangement::UserDefined(code),
            "user-defined code {code} must round-trip"
        );
    }
}

#[test]
fn front_lr_channels_follow_table_5_4_ordering() {
    for a in [AmodeArrangement::Stereo, AmodeArrangement::SumDifference, AmodeArrangement::LtRt, AmodeArrangement::LrS, AmodeArrangement::LrSlSr] {
        assert_eq!(a.front_lr_channels(), Some((0, 1)), "{a:?}");
    }
    for a in [AmodeArrangement::ClR, AmodeArrangement::ClRS, AmodeArrangement::ClRSlSr] {
        assert_eq!(a.front_lr_channels(), Some((1, 2)), "{a:?}");
    }
    assert_eq!(AmodeArrangement::ClCrLRSlSr.front_lr_channels(), Some((2, 3)));
    assert_eq!(AmodeArrangement::ClCrLRSl1Sl2Sr1Sr2.front_lr_channels(), Some((2, 3)));
    assert_eq!(AmodeArrangement::ClCCrLRSlSr.front_lr_channels(), Some((3, 4)));
    assert_eq!(AmodeArrangement::ClCCrLRSlSSr.front_lr_channels(), Some((3, 4)));
    for a in [AmodeArrangement::Mono, AmodeArrangement::DualMono, AmodeArrangement::ClRLrRrOv, AmodeArrangement::CfCrLfRfLrRr, AmodeArrangement::UserDefined(20)] {
        assert_eq!(a.front_lr_channels(), None, "{a:?}");
    }
}

#[test]
fn surround_lr_channels_follow_table_5_4_ordering() {
    assert_eq!(AmodeArrangement::LrSlSr.surround_lr_channels(), Some((2, 3)));
    assert_eq!(AmodeArrangement::ClRSlSr.surround_lr_channels(), Some((3, 4)));
    assert_eq!(AmodeArrangement::ClCrLRSlSr.surround_lr_channels(), Some((4, 5)));
    assert_eq!(AmodeArrangement::ClCCrLRSlSr.surround_lr_channels(), Some((5, 6)));
    for a in [
        AmodeArrangement::Mono,
        AmodeArrangement::DualMono,
        AmodeArrangement::Stereo,
        AmodeArrangement::SumDifference,
        AmodeArrangement::LtRt,
        AmodeArrangement::ClR,
        AmodeArrangement::LrS,
        AmodeArrangement::ClRS,
        AmodeArrangement::ClRLrRrOv,
        AmodeArrangement::CfCrLfRfLrRr,
        AmodeArrangement::ClCrLRSl1Sl2Sr1Sr2,
        AmodeArrangement::ClCCrLRSlSSr,
        AmodeArrangement::UserDefined(33),
    ] {
        assert_eq!(a.surround_lr_channels(), None, "{a:?}");
    }
}

#[test]
fn amode_channel_count_matches_table_5_4_chs_column() {
    let expected: [u8; 16] = [1, 2, 2, 2, 2, 3, 3, 4, 4, 5, 6, 6, 6, 7, 8, 8];
    for (code, exp) in expected.iter().enumerate() {
        assert_eq!(
            amode_arrangement_from_index(code as u8).channel_count(),
            Some(*exp),
            "channel_count for AMODE={code:02} (binary={code:06b})"
        );
    }
    for code in [16u8, 32, 63] {
        assert_eq!(
            amode_arrangement_from_index(code).channel_count(),
            None,
            "user-defined AMODE={code} must report None CHS"
        );
    }
}

#[test]
fn channel_count_returns_some_for_standard_and_none_for_user_defined() {
    for code in 0..64u32 {
        let header_bytes = build_be_header(
            1, 31, 0,
            15, 1023, code,
            13, 15, 0,
            None, 0,
        );
        let hdr = parse_frame_header(&header_bytes)
            .unwrap_or_else(|e| panic!("parse_frame_header failed for amode={code}: {e:?}"));
        assert_eq!(hdr.amode, code as u8);
        assert_eq!(
            hdr.amode_arrangement(),
            amode_arrangement_from_index(code as u8)
        );
        let exp = amode_arrangement_from_index(code as u8).channel_count();
        assert_eq!(hdr.channel_count(), exp, "channel_count for amode={code}");
    }
}

#[test]
fn source_pcm_resolution_from_index_covers_table_5_17_verbatim() {
    assert_eq!(
        source_pcm_resolution_from_index(0b000),
        SourcePcmResolution::Valid {
            bits: 16,
            es: false
        }
    );
    assert_eq!(
        source_pcm_resolution_from_index(0b001),
        SourcePcmResolution::Valid { bits: 16, es: true }
    );
    assert_eq!(
        source_pcm_resolution_from_index(0b010),
        SourcePcmResolution::Valid {
            bits: 20,
            es: false
        }
    );
    assert_eq!(
        source_pcm_resolution_from_index(0b011),
        SourcePcmResolution::Valid { bits: 20, es: true }
    );
    assert_eq!(
        source_pcm_resolution_from_index(0b100),
        SourcePcmResolution::Invalid
    );
    assert_eq!(
        source_pcm_resolution_from_index(0b101),
        SourcePcmResolution::Valid { bits: 24, es: true }
    );
    assert_eq!(
        source_pcm_resolution_from_index(0b110),
        SourcePcmResolution::Valid {
            bits: 24,
            es: false
        }
    );
    assert_eq!(
        source_pcm_resolution_from_index(0b111),
        SourcePcmResolution::Invalid
    );
}

#[test]
fn source_pcm_bits_per_sample_returns_some_for_valid_and_none_for_invalid() {
    for code in 0..8u32 {
        let post_crc = code << 6;
        let header_bytes = build_be_header(
            1, 31, 0,
            15, 1023, 2,
            13, 15, 0,
            None, post_crc,
        );
        let hdr = parse_frame_header(&header_bytes)
            .unwrap_or_else(|e| panic!("parse_frame_header failed for pcmr={code}: {e:?}"));
        assert_eq!(hdr.source_pcm_resolution_index, code as u8);
        assert_eq!(
            hdr.source_pcm_resolution(),
            source_pcm_resolution_from_index(code as u8)
        );
        match source_pcm_resolution_from_index(code as u8) {
            SourcePcmResolution::Valid { bits, .. } => {
                assert_eq!(hdr.source_pcm_bits_per_sample(), Some(bits));
            }
            SourcePcmResolution::Invalid => {
                assert_eq!(hdr.source_pcm_bits_per_sample(), None);
            }
            other => panic!("unexpected {other:?}"),
        }
    }
}

#[test]
fn ffmpeg_fixture_resolves_to_48k_stereo_16bit() {
    let header_bytes = build_be_header(
        1, 31, 0,
        15, 1023,
        2,
        13,
        15,
        0, None,
        0,
    );
    let hdr = parse_frame_header(&header_bytes).unwrap();
    assert_eq!(hdr.sample_rate_hz(), Some(48_000));
    assert_eq!(hdr.channel_count(), Some(2));
    assert_eq!(hdr.amode_arrangement(), AmodeArrangement::Stereo);
    assert_eq!(hdr.source_pcm_bits_per_sample(), Some(16));
    assert_eq!(
        hdr.source_pcm_resolution(),
        SourcePcmResolution::Valid {
            bits: 16,
            es: false
        }
    );
}

#[test]
fn filter_bank_selection_false_is_non_perfect_reconstruction() {
    let h = synth_hdr(|h| h.multirate_inter = false);
    assert_eq!(
        h.filter_bank_selection(),
        FilterBankSelection::NonPerfectReconstruction
    );
}

#[test]
fn filter_bank_selection_true_is_perfect_reconstruction() {
    let h = synth_hdr(|h| h.multirate_inter = true);
    assert_eq!(
        h.filter_bank_selection(),
        FilterBankSelection::PerfectReconstruction
    );
}

#[test]
fn filter_bank_selection_is_the_from_filts_bridge() {
    for bit in [false, true] {
        let h = synth_hdr(|h| h.multirate_inter = bit);
        assert_eq!(
            h.filter_bank_selection(),
            FilterBankSelection::from_filts(u8::from(bit))
        );
        assert_eq!(h.filter_bank_selection().filts(), u8::from(bit));
    }
}

#[test]
fn output_r_scale_is_full_scale_for_each_valid_pcmr() {
    for code in 0..8u8 {
        let h = synth_hdr(|h| h.source_pcm_resolution_index = code);
        match h.source_pcm_bits_per_sample() {
            Some(16) => assert_eq!(h.output_r_scale(), Some(32_768)),
            Some(20) => assert_eq!(h.output_r_scale(), Some(524_288)),
            Some(24) => assert_eq!(h.output_r_scale(), Some(8_388_608)),
            Some(other) => panic!("unexpected PCMR bits {other} for code {code}"),
            None => assert_eq!(h.output_r_scale(), None),
        }
    }
}

#[test]
fn output_r_scale_is_none_for_reserved_pcmr_codes() {
    for code in [0b100u8, 0b111u8] {
        let h = synth_hdr(|h| h.source_pcm_resolution_index = code);
        assert_eq!(h.source_pcm_bits_per_sample(), None);
        assert_eq!(h.output_r_scale(), None);
    }
}

