use vuio_codec_dts::{
    AbitsCodebook, Error, ScaleFactorAdjustment, ScalesCodebook, TmodeCodebook,
    decode_audio_coding_header_at,
};

fn pack_fields(fields: &[(u32, u8)]) -> Vec<u8> {
    let total_bits: usize = fields.iter().map(|(_, w)| *w as usize).sum();
    let mut out = vec![0u8; total_bits.div_ceil(8)];
    let mut bit_pos = 0usize;
    for &(value, width) in fields {
        for i in (0..width).rev() {
            let bit = ((value >> i) & 1) as u8;
            out[bit_pos / 8] |= bit << (7 - (bit_pos % 8));
            bit_pos += 1;
        }
    }
    out
}

fn one_channel_prefix(
    subfs: u32,
    subs: u32,
    vqsub: u32,
    joinx: u32,
    thuff: u32,
    shuff: u32,
    bhuff: u32,
) -> Vec<(u32, u8)> {
    vec![
        (subfs, 4),
        (0, 3),
        (subs, 5),
        (vqsub, 5),
        (joinx, 3),
        (thuff, 2),
        (shuff, 3),
        (bhuff, 3),
    ]
}

#[test]
fn single_channel_linear_header_decodes_bounds() {
    let mut fields = one_channel_prefix(0, 2, 1, 0, 3, 5, 6);
    fields.push((0, 1));
    for _ in 1..5 {
        fields.push((0, 2));
    }
    for _ in 5..10 {
        fields.push((0, 3));
    }
    for _ in 0..10 {
        fields.push((0, 2));
    }
    let bytes = pack_fields(&fields);
    let (hdr, _) = decode_audio_coding_header_at(&bytes, 0, false).unwrap();
    assert_eq!(hdr.n_subframes, 1);
    assert_eq!(hdr.n_pchs, 1);
    assert_eq!(hdr.channel_params.len(), 1);
    assert_eq!(hdr.channel_params[0].n_subs, 4);
    assert_eq!(hdr.channel_params[0].n_vqsub, 2);
    assert_eq!(hdr.joinx, vec![0]);
    assert_eq!(
        hdr.channel_params[0].abits_codebook,
        AbitsCodebook::Linear5Bit
    );
    assert_eq!(hdr.channel_params[0].tmode_codebook, TmodeCodebook::D4);
    assert_eq!(
        hdr.channel_params[0].scales_codebook,
        ScalesCodebook::Linear6Bit
    );
}

#[test]
fn sel_plane_routes_by_abits_index() {
    let mut fields = one_channel_prefix(0, 2, 2, 0, 0, 5, 6);
    fields.push((1, 1));
    fields.push((2, 2));
    fields.push((3, 2));
    fields.push((3, 2));
    fields.push((3, 2));
    fields.push((4, 3));
    fields.push((7, 3));
    fields.push((7, 3));
    fields.push((7, 3));
    fields.push((7, 3));
    fields.push((1, 2));
    fields.push((2, 2));
    let bytes = pack_fields(&fields);
    let (hdr, _) = decode_audio_coding_header_at(&bytes, 0, false).unwrap();
    assert_eq!(hdr.sel(0, 1), 1);
    assert_eq!(hdr.sel(0, 2), 2);
    assert_eq!(hdr.sel(0, 6), 4);
    assert_eq!(hdr.sel(0, 0), 0);
    assert_eq!(hdr.sel(0, 30), 0);
    assert_eq!(hdr.adj(0, 2), ScaleFactorAdjustment::from_index(1));
    assert_eq!(hdr.adj(0, 6), ScaleFactorAdjustment::from_index(2));
    assert_eq!(hdr.adj(0, 1), ScaleFactorAdjustment::Adj0);
    assert_eq!(hdr.adj(0, 7), ScaleFactorAdjustment::Adj0);
}

#[test]
fn two_channel_planes_interleave_by_channel() {
    let fields = vec![
        (0, 4),
        (1, 3),
        (0, 5),
        (3, 5),
        (0, 5),
        (1, 5),
        (0, 3),
        (1, 3),
        (0, 2),
        (1, 2),
        (5, 3),
        (6, 3),
        (6, 3),
        (5, 3),
        (1, 1),
        (1, 1),
    ];
    let mut fields = fields;
    for _ in 1..5 {
        fields.push((3, 2));
        fields.push((3, 2));
    }
    for _ in 5..10 {
        fields.push((7, 3));
        fields.push((7, 3));
    }
    let bytes = pack_fields(&fields);
    let (hdr, _) = decode_audio_coding_header_at(&bytes, 0, false).unwrap();
    assert_eq!(hdr.n_pchs, 2);
    assert_eq!(hdr.channel_params[0].n_subs, 2);
    assert_eq!(hdr.channel_params[1].n_subs, 5);
    assert_eq!(hdr.channel_params[0].n_vqsub, 1);
    assert_eq!(hdr.channel_params[1].n_vqsub, 2);
    assert_eq!(hdr.joinx, vec![0, 1]);
    assert_eq!(hdr.channel_params[0].tmode_codebook, TmodeCodebook::A4);
    assert_eq!(hdr.channel_params[1].tmode_codebook, TmodeCodebook::B4);
    assert_eq!(
        hdr.channel_params[0].abits_codebook,
        AbitsCodebook::Linear5Bit
    );
    assert_eq!(
        hdr.channel_params[1].abits_codebook,
        AbitsCodebook::Linear4Bit
    );
}

#[test]
fn reserved_bhuff_seven_rejected() {
    let mut fields = one_channel_prefix(0, 0, 0, 0, 0, 0, 7);
    fields.push((0, 1));
    for _ in 1..5 {
        fields.push((3, 2));
    }
    for _ in 5..10 {
        fields.push((7, 3));
    }
    fields.push((0, 2));
    let bytes = pack_fields(&fields);
    assert_eq!(
        decode_audio_coding_header_at(&bytes, 0, false).unwrap_err(),
        Error::InvalidSideInfo {
            field: "BHUFF",
            value: 7
        }
    );
}

#[test]
fn too_many_channels_rejected() {
    let fields = vec![(0, 4), (5, 3)];
    let bytes = pack_fields(&fields);
    assert_eq!(
        decode_audio_coding_header_at(&bytes, 0, false).unwrap_err(),
        Error::InvalidSideInfo {
            field: "nPCHS",
            value: 6
        }
    );
}

#[test]
fn cpf_consumes_ahcrc_trailer() {
    let mut fields = one_channel_prefix(0, 0, 0, 0, 0, 5, 6);
    fields.push((1, 1));
    for _ in 1..5 {
        fields.push((3, 2));
    }
    for _ in 5..10 {
        fields.push((7, 3));
    }
    let without_crc = fields.clone();
    let mut with_crc = fields;
    with_crc.push((0xABCD, 16));

    let bytes_no = pack_fields(&without_crc);
    let (_, bits_no) = decode_audio_coding_header_at(&bytes_no, 0, false).unwrap();
    let bytes_crc = pack_fields(&with_crc);
    let (_, bits_crc) = decode_audio_coding_header_at(&bytes_crc, 0, true).unwrap();
    assert_eq!(bits_crc, bits_no + 16);
}

#[test]
fn arbitrary_bit_offset_matches_aligned() {
    let mut fields = one_channel_prefix(0, 0, 0, 0, 0, 5, 6);
    fields.push((1, 1));
    for _ in 1..5 {
        fields.push((3, 2));
    }
    for _ in 5..10 {
        fields.push((7, 3));
    }
    let aligned = pack_fields(&fields);
    let mut shifted_fields = vec![(0b101, 3)];
    shifted_fields.extend_from_slice(&fields);
    let shifted = pack_fields(&shifted_fields);
    let (a, bits_a) = decode_audio_coding_header_at(&aligned, 0, false).unwrap();
    let (b, bits_b) = decode_audio_coding_header_at(&shifted, 3, false).unwrap();
    assert_eq!(a, b);
    assert_eq!(bits_a, bits_b);
}
