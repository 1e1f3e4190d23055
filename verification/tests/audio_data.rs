use vuio_codec_dts::{
    ABITS_MAX_BLOCK_CODE, ABITS_MAX_SEL, ABITS_TABLE_LEN, AudioQuantType, CODEBOOK_GROUP_SIZE,
    QUANT_LEVELS, SAMPLES_PER_SUBSUBFRAME, audio_quant_type, terminal_sel_index,
};

#[test]
fn quant_levels_match_table_5_26() {
    assert_eq!(QUANT_LEVELS[0], 0);
    assert_eq!(QUANT_LEVELS[1], 3);
    assert_eq!(QUANT_LEVELS[2], 5);
    assert_eq!(QUANT_LEVELS[3], 7);
    assert_eq!(QUANT_LEVELS[4], 9);
    assert_eq!(QUANT_LEVELS[5], 13);
    assert_eq!(QUANT_LEVELS[6], 17);
    assert_eq!(QUANT_LEVELS[7], 25);
    assert_eq!(QUANT_LEVELS[8], 33);
    assert_eq!(QUANT_LEVELS[9], 65);
    assert_eq!(QUANT_LEVELS[10], 129);
    assert_eq!(QUANT_LEVELS[11], 256);
}

#[test]
fn group_sizes_match_table_5_26() {
    assert_eq!(CODEBOOK_GROUP_SIZE[0], 0);
    assert_eq!(CODEBOOK_GROUP_SIZE[1], 2);
    assert_eq!(CODEBOOK_GROUP_SIZE[2], 4);
    assert_eq!(CODEBOOK_GROUP_SIZE[3], 4);
    assert_eq!(CODEBOOK_GROUP_SIZE[4], 4);
    assert_eq!(CODEBOOK_GROUP_SIZE[5], 4);
    assert_eq!(CODEBOOK_GROUP_SIZE[6], 8);
    assert_eq!(CODEBOOK_GROUP_SIZE[7], 8);
    assert_eq!(CODEBOOK_GROUP_SIZE[8], 8);
    assert_eq!(CODEBOOK_GROUP_SIZE[9], 8);
    assert_eq!(CODEBOOK_GROUP_SIZE[10], 8);
    assert_eq!(CODEBOOK_GROUP_SIZE[11], 1);
}

#[test]
fn tables_have_twelve_rows() {
    assert_eq!(QUANT_LEVELS.len(), ABITS_TABLE_LEN);
    assert_eq!(CODEBOOK_GROUP_SIZE.len(), ABITS_TABLE_LEN);
}

#[test]
fn terminal_sel_index_is_group_size_minus_one() {
    assert_eq!(terminal_sel_index(0), None);
    assert_eq!(terminal_sel_index(1), Some(1));
    assert_eq!(terminal_sel_index(2), Some(3));
    assert_eq!(terminal_sel_index(6), Some(7));
    assert_eq!(terminal_sel_index(11), Some(0));
    assert_eq!(terminal_sel_index(12), None);
    assert_eq!(terminal_sel_index(40), None);
}

#[test]
fn abits_zero_is_no_bits_regardless_of_sel() {
    for sel in 0u8..=7 {
        assert_eq!(audio_quant_type(0, sel), AudioQuantType::NoBits);
    }
}

#[test]
fn non_terminal_sel_is_huffman() {
    for sel in 0u8..=6 {
        assert_eq!(audio_quant_type(6, sel), AudioQuantType::Huffman);
    }
    for sel in 0u8..=2 {
        assert_eq!(audio_quant_type(2, sel), AudioQuantType::Huffman);
    }
}

#[test]
fn terminal_sel_block_code_for_low_abits() {
    for abits in 1u8..=ABITS_MAX_BLOCK_CODE {
        let top = terminal_sel_index(abits).unwrap();
        assert_eq!(
            audio_quant_type(abits, top),
            AudioQuantType::BlockCode,
            "ABITS {abits} terminal SEL {top}"
        );
    }
}

#[test]
fn terminal_sel_no_encoding_for_high_abits() {
    for abits in 8u8..=ABITS_MAX_SEL {
        let top = terminal_sel_index(abits).unwrap();
        assert_eq!(
            audio_quant_type(abits, top),
            AudioQuantType::NoEncoding,
            "ABITS {abits} terminal SEL {top}"
        );
    }
}

#[test]
fn abits_eleven_only_entry_is_nfe() {
    assert_eq!(audio_quant_type(11, 0), AudioQuantType::NoEncoding);
}

#[test]
fn abits_above_table_is_no_encoding() {
    for abits in 12u8..=31 {
        for sel in 0u8..=7 {
            assert_eq!(audio_quant_type(abits, sel), AudioQuantType::NoEncoding);
        }
    }
}

#[test]
fn full_abits_sel_dispatch_matrix() {
    for abits in 0u8..=ABITS_MAX_SEL {
        let group = CODEBOOK_GROUP_SIZE[abits as usize];
        if abits == 0 {
            assert_eq!(audio_quant_type(0, 0), AudioQuantType::NoBits);
            continue;
        }
        let top = group - 1;
        for sel in 0..group {
            let want = if sel == top {
                if abits <= ABITS_MAX_BLOCK_CODE {
                    AudioQuantType::BlockCode
                } else {
                    AudioQuantType::NoEncoding
                }
            } else {
                AudioQuantType::Huffman
            };
            assert_eq!(
                audio_quant_type(abits, sel),
                want,
                "ABITS {abits} SEL {sel}"
            );
        }
    }
}

#[test]
fn block_code_two_words_of_four_equals_eight_samples() {
    assert_eq!(SAMPLES_PER_SUBSUBFRAME, 8);
}

#[test]
fn constants_match_spec_bounds() {
    assert_eq!(ABITS_MAX_SEL, 11);
    assert_eq!(ABITS_MAX_BLOCK_CODE, 7);
    assert_eq!(ABITS_TABLE_LEN, 12);
}
