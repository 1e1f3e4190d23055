//! Each law on concrete values, and the edges of the transforms.

use vuio_codec_dts::{
    decode_audio_coding_header_at, detect_sync, dts_crc16, encode_frame_header_14bit_be,
    encode_frame_header_14bit_le, encode_frame_header_be, encode_frame_header_le, find_all_syncs,
    find_next_sync, iter_frames, iter_frames_14bit, iter_frames_resync, iter_syncs,
    pack_16bit_to_14bit, parse_frame_header, parse_frame_header_14bit, parse_rev2_aux_at, unpack_14bit_to_16bit,
    AbitsCodebook, AmodeArrangement, BitReader, DtsFrameHeader, Error, FourteenBitByteOrder,
    FrameType, LfeMode, ResyncCause, Rev2AuxChunk, ScalesCodebook, SyncWordEncoding,
    TmodeCodebook,
};

const ORDERS: [FourteenBitByteOrder; 2] = [
    FourteenBitByteOrder::BigEndian,
    FourteenBitByteOrder::LittleEndian,
];

fn header(crc: Option<u16>) -> DtsFrameHeader {
    DtsFrameHeader {
        sync_word_encoding: SyncWordEncoding::RawBigEndian,
        frame_type: FrameType::Normal,
        sample_count_per_block: 17,
        crc_present: crc.is_some(),
        blocks_per_frame: 100,
        frame_size_bytes: 12_345,
        amode: 37,
        sfreq_index: 11,
        rate_index: 21,
        downmix: true,
        dynamic_range: false,
        time_stamp: true,
        aux_data: false,
        hdcd: true,
        ext_descr: 5,
        ext_coding: true,
        aspf: false,
        lfe: LfeMode::Mode2,
        predictor_history: true,
        header_crc: crc,
        multirate_inter: true,
        version: 9,
        copy_history: 2,
        source_pcm_resolution_index: 6,
        front_sum: false,
        surround_sum: true,
        dialog_normalization: 13,
    }
}

#[test]
fn every_encoding_reads_back() {
    for crc in [None, Some(0xBEEF)] {
        let h = header(crc);
        let mut be = encode_frame_header_be(&h).unwrap();
        assert_eq!(be.len(), h.header_byte_length());
        let written = be.clone();
        be.extend_from_slice(&[0xA5; 4]);
        let back = parse_frame_header(&be).unwrap();
        assert_eq!(back, h);
        assert_eq!(encode_frame_header_be(&back).unwrap(), written);

        let le = encode_frame_header_le(&h).unwrap();
        let back = parse_frame_header(&le).unwrap();
        assert_eq!(back.sync_word_encoding, SyncWordEncoding::RawLittleEndian);
        assert_eq!(
            DtsFrameHeader {
                sync_word_encoding: h.sync_word_encoding,
                ..back
            },
            h
        );

        let packed_be = encode_frame_header_14bit_be(&h).unwrap();
        let packed_le = encode_frame_header_14bit_le(&h).unwrap();
        for i in 0..9 {
            assert_eq!(packed_be[2 * i], packed_le[2 * i + 1]);
            assert_eq!(packed_be[2 * i + 1], packed_le[2 * i]);
        }
        for (bytes, sync) in [
            (packed_be, SyncWordEncoding::FourteenBitBigEndian),
            (packed_le, SyncWordEncoding::FourteenBitLittleEndian),
        ] {
            let back = parse_frame_header_14bit(&bytes).unwrap();
            assert_eq!(back.sync_word_encoding, sync);
            assert_eq!(
                DtsFrameHeader {
                    sync_word_encoding: h.sync_word_encoding,
                    ..back
                },
                h
            );
        }
    }
}

#[test]
fn unpacking_gives_back_what_was_packed_and_zeros() {
    for n in 0..20usize {
        let bytes: Vec<u8> = (0..n).map(|i| (i * 37 + 101) as u8).collect();
        for order in ORDERS {
            let (packed, bits) = pack_16bit_to_14bit(&bytes, order);
            assert_eq!(bits, 8 * n);
            assert_eq!(packed.len(), 2 * (8 * n).div_ceil(14));
            let mut want = bytes.clone();
            want.resize((7 * packed.len()).div_ceil(8), 0);
            assert_eq!(unpack_14bit_to_16bit(&packed, order).unwrap(), want);
        }
    }
    assert_eq!(
        unpack_14bit_to_16bit(&[0, 1, 2], FourteenBitByteOrder::BigEndian),
        Err(Error::UnexpectedEof)
    );
}

#[test]
fn containers_repeat_their_first_payload_bit() {
    let (packed, _) = pack_16bit_to_14bit(&[0xFF, 0xFF], FourteenBitByteOrder::BigEndian);
    assert_eq!(packed, vec![0xFF, 0xFF, 0xF0, 0x00]);
    let (packed, _) = pack_16bit_to_14bit(&[0x7F, 0xFE], FourteenBitByteOrder::BigEndian);
    assert_eq!(packed, vec![0x1F, 0xFF, 0xE0, 0x00]);
    let (packed, _) = pack_16bit_to_14bit(&[0x7F, 0xFE], FourteenBitByteOrder::LittleEndian);
    assert_eq!(packed, vec![0xFF, 0x1F, 0x00, 0xE0]);
}

#[test]
fn the_upper_bits_of_a_container_do_not_hide_a_sync() {
    for top in [0x1Fu8, 0x5F, 0x9F, 0xDF] {
        let buf = [0xAA, top, 0xFF, 0x28, 0x00, 0xC4, 0x00, 0xAA];
        assert_eq!(
            detect_sync(&buf[1..]),
            Ok(SyncWordEncoding::FourteenBitBigEndian)
        );
        let m = find_next_sync(&buf, 0).unwrap();
        assert_eq!(m.offset, 1);
        assert_eq!(m.encoding, SyncWordEncoding::FourteenBitBigEndian);
    }
}

#[test]
fn sync_sequences_overlap_only_behind_a_big_endian_container_sync() {
    let buf = [0x1F, 0xFF, 0xE8, 0x00, 0x07, 0xFE, 0x7F, 0x01, 0x80, 0x00];
    let all = find_all_syncs(&buf);
    assert_eq!(all.len(), 2);
    assert_eq!(all[0].offset, 0);
    assert_eq!(all[0].sync_byte_range(), 0..6);
    assert_eq!(all[1].offset, 5);
    assert_eq!(all[1].encoding, SyncWordEncoding::RawLittleEndian);
}

fn min_frame() -> Vec<u8> {
    let h = DtsFrameHeader {
        frame_size_bytes: 95,
        blocks_per_frame: 5,
        ..header(None)
    };
    let mut bytes = encode_frame_header_be(&h).unwrap();
    bytes.resize(95, 0x11);
    bytes
}

#[test]
fn walks_advance_and_agree() {
    let mut stream = vec![0x22u8; 3];
    stream.extend_from_slice(&min_frame());
    stream.extend_from_slice(&min_frame());
    let mut strict = iter_frames(&stream);
    let mut resync = iter_frames_resync(&stream);
    let mut last = 0;
    for offset in [3, 98] {
        let a = strict.next().unwrap().unwrap();
        let b = resync.next().unwrap().unwrap();
        assert_eq!((a.offset, a.len, a.header), (b.offset, b.len, b.header));
        assert_eq!(a.offset, offset);
        assert_eq!(strict.cursor(), resync.cursor());
        assert!(strict.cursor() > last);
        last = strict.cursor();
        assert_eq!(parse_frame_header(a.data), Ok(a.header));
        assert_eq!(a.payload().len(), 95 - 13);
        assert_eq!(a.rev2_aux(), Ok(None::<Rev2AuxChunk>));
    }
    assert!(strict.next().is_none());
    assert!(resync.next().is_none());
}

#[test]
fn an_ended_walk_stays_ended() {
    let mut stream = min_frame();
    stream.truncate(60);
    let mut walk = iter_frames(&stream);
    assert_eq!(walk.next().unwrap().unwrap_err(), Error::UnexpectedEof);
    assert_eq!(walk.cursor(), 0);
    for _ in 0..3 {
        assert!(walk.next().is_none());
    }
    let (packed, _) = pack_16bit_to_14bit(&min_frame(), FourteenBitByteOrder::BigEndian);
    let mut walk = iter_frames(&packed);
    assert_eq!(
        walk.next().unwrap().unwrap_err(),
        Error::UnsupportedFourteenBit
    );
    assert!(walk.next().is_none());
    let mut walk = iter_frames_14bit(&packed[..109]);
    assert_eq!(walk.next().unwrap().unwrap_err(), Error::UnexpectedEof);
    assert!(walk.next().is_none());
    let mut walk = iter_frames_resync(&packed);
    let event = walk.next().unwrap().unwrap_err();
    assert_eq!(event.cause, ResyncCause::FourteenBitSyncSkipped);
    assert_eq!(walk.cursor(), 1);
}

#[test]
fn crc_matches_the_published_check_value() {
    assert_eq!(dts_crc16(b"123456789"), 0x29B1);
    assert_eq!(dts_crc16(&[]), 0xFFFF);
}

#[test]
fn header_errors_are_found_in_order() {
    let ok = header(Some(1));
    let field = |h: DtsFrameHeader| match encode_frame_header_be(&h).unwrap_err() {
        Error::FieldOutOfRange { field, value, max } => (field, value, max),
        other => panic!("unexpected {other:?}"),
    };
    assert_eq!(
        encode_frame_header_be(&DtsFrameHeader {
            blocks_per_frame: 4,
            frame_size_bytes: 1,
            ..ok
        }),
        Err(Error::BlockCountOutOfRange { blocks: 4 })
    );
    assert_eq!(
        encode_frame_header_be(&DtsFrameHeader {
            frame_size_bytes: 16_385,
            amode: 64,
            ..ok
        }),
        Err(Error::FrameSizeOutOfRange { frame_size: 16_385 })
    );
    assert_eq!(
        field(DtsFrameHeader {
            sample_count_per_block: 0,
            ..ok
        }),
        ("sample_count_per_block", 0, 32)
    );
    assert_eq!(field(DtsFrameHeader { amode: 64, ..ok }), ("amode", 64, 63));
    assert_eq!(
        field(DtsFrameHeader {
            crc_present: false,
            ..ok
        }),
        ("header_crc", 1, 0)
    );
    assert_eq!(
        field(DtsFrameHeader {
            header_crc: None,
            ..ok
        }),
        ("header_crc", 0, 0)
    );
}

#[test]
fn audio_coding_header_errors() {
    // Two subbands are the least, so only the largest code is too many.
    let mut fields = vec![(0u32, 4u32), (0, 3), (31, 5)];
    let err = |f: &[(u32, u32)]| decode_audio_coding_header_at(&pack(f), 0, false).unwrap_err();
    assert_eq!(
        err(&fields),
        Error::InvalidSideInfo {
            field: "nSUBS",
            value: 33
        }
    );
    fields[2] = (0, 5);
    fields.push((2, 5));
    assert_eq!(
        err(&fields),
        Error::InvalidSideInfo {
            field: "VQSUB",
            value: 3
        }
    );
    fields[3] = (0, 5);
    assert_eq!(err(&fields), Error::UnexpectedEof);
    assert_eq!(
        decode_audio_coding_header_at(&[0xFF], 100, false).unwrap_err(),
        Error::UnexpectedEof
    );
    // A reserved scale factor book, with every selector at its end.
    fields.extend([(0, 3), (0, 2), (7, 3), (0, 3), (1, 1)]);
    fields.extend([(3, 2); 4]);
    fields.extend([(7, 3); 5]);
    assert_eq!(
        err(&fields),
        Error::InvalidSideInfo {
            field: "SHUFF",
            value: 7
        }
    );
    fields[6] = (6, 3);
    let (h, bits) = decode_audio_coding_header_at(&pack(&fields), 0, false).unwrap();
    assert_eq!(bits, 52);
    assert_eq!(h.n_subs(), vec![2]);
    assert_eq!(h.n_vqsub(), vec![1]);
    assert_eq!(h.channel_params[0].abits_codebook, AbitsCodebook::A12);
    assert_eq!(h.channel_params[0].tmode_codebook, TmodeCodebook::A4);
    assert_eq!(
        h.channel_params[0].scales_codebook,
        ScalesCodebook::Linear7Bit
    );
}

fn pack(fields: &[(u32, u32)]) -> Vec<u8> {
    vuio_codec_dts::bits::pack_fields(fields)
}

#[test]
fn bit_reader_moves_only_when_it_can() {
    let bytes = [0xF0, 0x0F];
    let mut br = BitReader::from_bit_offset(&bytes, 4);
    assert_eq!(br.read_bits(8).unwrap(), 0);
    assert_eq!(br.skip_bits(5), Err(Error::UnexpectedEof));
    assert_eq!(br.absolute_bit_position(), 12);
    assert_eq!(br.skip_bits(4), Ok(()));
    assert_eq!(br.absolute_bit_position(), 16);
    assert_eq!(br.read_bit(), Err(Error::UnexpectedEof));
    assert_eq!(br.backing_bytes(), &bytes);
    let mut far = BitReader::from_byte_offset(&bytes, 9);
    assert_eq!(far.read_bits(1), Err(Error::UnexpectedEof));
}

#[test]
fn pairs_lie_inside_their_arrangement() {
    for code in 0..=20u8 {
        let a = vuio_codec_dts::amode_arrangement_from_index(code);
        for (l, r) in [a.front_lr_channels(), a.surround_lr_channels()]
            .into_iter()
            .flatten()
        {
            assert_eq!(r, l + 1);
            assert!(r < usize::from(a.channel_count().unwrap()));
        }
    }
    assert_eq!(AmodeArrangement::UserDefined(20).channel_count(), None);
}

#[test]
fn a_chunk_behind_the_frame_is_not_read() {
    let h = header(None);
    assert_eq!(
        parse_rev2_aux_at(&[0x70, 0x04, 0xC0, 0x70], usize::MAX, &h),
        Err(Error::UnexpectedEof)
    );
    assert_eq!(
        parse_rev2_aux_at(&[0x70, 0x04, 0xC0, 0x70], 0, &h),
        Err(Error::UnexpectedEof)
    );
}

#[test]
fn a_failed_walk_stands_where_it_failed() {
    let mut bytes = vec![0xAAu8; 64];
    bytes[9..15].copy_from_slice(&[0x1F, 0xFF, 0xE8, 0x00, 0x07, 0xF0]);
    let mut walk = iter_frames(&bytes);
    assert!(matches!(
        walk.next(),
        Some(Err(Error::UnsupportedFourteenBit))
    ));
    assert_eq!(walk.cursor(), 9);
    assert!(walk.next().is_none());

    bytes[5..9].copy_from_slice(&[0x7F, 0xFE, 0x80, 0x01]);
    let mut walk = iter_frames_14bit(&bytes);
    assert!(matches!(
        walk.next(),
        Some(Err(Error::UnsupportedRaw16Bit))
    ));
    assert_eq!(walk.cursor(), 5);
    assert!(walk.next().is_none());
}

#[test]
fn an_exhausted_search_rests_where_it_gave_up() {
    let mut bytes = vec![0u8; 32];
    bytes[10..14].copy_from_slice(&[0x7F, 0xFE, 0x80, 0x01]);
    let mut search = iter_syncs(&bytes);
    assert_eq!(search.next().unwrap().offset, 10);
    assert_eq!(search.cursor(), 11);
    assert!(search.next().is_none());
    assert_eq!(search.cursor(), 29);
    assert!(search.next().is_none());
    assert_eq!(search.cursor(), 29);
    let mut search = iter_syncs(&bytes[..2]);
    assert!(search.next().is_none());
    assert_eq!(search.cursor(), 0);
}

#[test]
fn auxiliary_data_is_parsed_from_the_whole_frame() {
    let mut bytes = encode_frame_header_be(&header(None)).unwrap();
    bytes.resize(usize::from(header(None).frame_size_bytes) + 7, 0xAA);
    let view = iter_frames(&bytes).next().unwrap().unwrap();
    let found = view.aux_data(|data, h| Ok(Some((data.len(), h.amode))));
    assert_eq!(
        found,
        Ok(Some((usize::from(header(None).frame_size_bytes), header(None).amode)))
    );
    let failed: Result<Option<()>, Error> = view.aux_data(|_, _| Err(Error::UnexpectedEof));
    assert_eq!(failed, Err(Error::UnexpectedEof));
}
