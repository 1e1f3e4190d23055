use vuio_codec_dts::{
    Error, FourteenBitByteOrder, FrameIteratorResync, FrameType, FrameView, FrameView14,
    ResyncCause, ResyncEvent, SyncMatch, SyncWordEncoding, detect_sync, find_all_syncs,
    find_next_sync, is_sync_first_byte_candidate, iter_frames, iter_frames_14bit,
    iter_frames_resync, iter_syncs, pack_16bit_to_14bit, parse_frame_header_14bit,
};

fn collect_frames(bytes: &[u8]) -> Result<Vec<FrameView<'_>>, Error> {
    let mut walk = iter_frames(bytes);
    let mut out = Vec::new();
    while let Some(step) = walk.next() {
        out.push(step?);
    }
    Ok(out)
}

fn collect_frames_14bit(bytes: &[u8]) -> Result<Vec<FrameView14<'_>>, Error> {
    let mut walk = iter_frames_14bit(bytes);
    let mut out = Vec::new();
    while let Some(step) = walk.next() {
        out.push(step?);
    }
    Ok(out)
}

fn drain_resync(
    mut walk: FrameIteratorResync<'_>,
) -> Vec<Result<FrameView<'_>, ResyncEvent>> {
    let mut out = Vec::new();
    while let Some(step) = walk.next() {
        out.push(step);
    }
    out
}

fn collect_resync(bytes: &[u8]) -> Vec<Result<FrameView<'_>, ResyncEvent>> {
    drain_resync(iter_frames_resync(bytes))
}

fn collect_syncs(bytes: &[u8], limit: usize) -> Vec<SyncMatch> {
    let mut walk = iter_syncs(bytes);
    let mut out = Vec::new();
    while out.len() < limit {
        match walk.next() {
            Some(m) => out.push(m),
            None => return out,
        }
    }
    out
}

fn push(bv: &mut Vec<bool>, value: u32, width: u32) {
    for i in (0..width).rev() {
        bv.push(((value >> i) & 1) == 1);
    }
}

const RAW_BE_SYNC: [u8; 4] = [0x7F, 0xFE, 0x80, 0x01];
const RAW_LE_SYNC: [u8; 4] = [0xFE, 0x7F, 0x01, 0x80];

#[test]
fn find_next_sync_at_offset_zero() {
    let mut buf = vec![0u8; 16];
    buf[..4].copy_from_slice(&RAW_BE_SYNC);
    let m = find_next_sync(&buf, 0).unwrap();
    assert_eq!(m.offset, 0);
    assert_eq!(m.encoding, SyncWordEncoding::RawBigEndian);
}

#[test]
fn find_next_sync_skips_leading_garbage() {
    let mut buf = vec![0xAAu8; 32];
    buf[7..11].copy_from_slice(&RAW_BE_SYNC);
    let m = find_next_sync(&buf, 0).unwrap();
    assert_eq!(m.offset, 7);
    assert_eq!(m.encoding, SyncWordEncoding::RawBigEndian);
}

#[test]
fn find_next_sync_le_variant() {
    let mut buf = vec![0u8; 16];
    buf[3..7].copy_from_slice(&RAW_LE_SYNC);
    let m = find_next_sync(&buf, 0).unwrap();
    assert_eq!(m.offset, 3);
    assert_eq!(m.encoding, SyncWordEncoding::RawLittleEndian);
}

#[test]
fn find_next_sync_14bit_be() {
    let mut buf = vec![0u8; 16];
    buf[5..11].copy_from_slice(&[0x1F, 0xFF, 0xE8, 0x00, 0x07, 0xFA]);
    let m = find_next_sync(&buf, 0).unwrap();
    assert_eq!(m.offset, 5);
    assert_eq!(m.encoding, SyncWordEncoding::FourteenBitBigEndian);
}

#[test]
fn find_next_sync_14bit_le() {
    let mut buf = vec![0u8; 16];
    buf[5..11].copy_from_slice(&[0xFF, 0x1F, 0x00, 0xE8, 0xF3, 0x07]);
    let m = find_next_sync(&buf, 0).unwrap();
    assert_eq!(m.offset, 5);
    assert_eq!(m.encoding, SyncWordEncoding::FourteenBitLittleEndian);
}

#[test]
fn find_next_sync_honours_start_offset() {
    let mut buf = vec![0xAAu8; 32];
    buf[2..6].copy_from_slice(&RAW_BE_SYNC);
    buf[20..24].copy_from_slice(&RAW_BE_SYNC);
    let m = find_next_sync(&buf, 7).unwrap();
    assert_eq!(m.offset, 20);
}

#[test]
fn find_next_sync_returns_none_when_absent() {
    let buf = vec![0xAAu8; 64];
    assert_eq!(find_next_sync(&buf, 0), None);
}

#[test]
fn find_next_sync_returns_none_when_start_past_end() {
    let buf = vec![0u8; 16];
    assert_eq!(find_next_sync(&buf, 100), None);
}

#[test]
fn find_next_sync_returns_none_when_only_partial_sync_at_tail() {
    let mut buf = vec![0xAAu8; 8];
    buf[5..8].copy_from_slice(&[0x7F, 0xFE, 0x80]);
    assert_eq!(find_next_sync(&buf, 0), None);
}

#[test]
fn frame_view_payload_slice_length_matches_header_boundary_no_crc() {
    let mut buf = vec![0u8; 95];
    buf[0..4].copy_from_slice(&[0x7F, 0xFE, 0x80, 0x01]);
    let mut bv: Vec<bool> = Vec::new();
    push(&mut bv, 0x7FFE_8001, 32);
    push(&mut bv, 0, 1);
    push(&mut bv, 0, 5);
    push(&mut bv, 0, 1);
    push(&mut bv, 5, 7);
    push(&mut bv, 94, 14);
    push(&mut bv, 0, 6);
    push(&mut bv, 0, 4);
    push(&mut bv, 0, 5);
    push(&mut bv, 0, 13);
    push(&mut bv, 0, 16);
    while bv.len() % 8 != 0 {
        bv.push(false);
    }
    for (i, chunk) in bv.chunks(8).enumerate() {
        let mut b: u8 = 0;
        for (k, bit) in chunk.iter().enumerate() {
            if *bit {
                b |= 1 << (7 - k);
            }
        }
        buf[i] = b;
    }
    for byte in buf.iter_mut().skip(13) {
        *byte = 0xCD;
    }

    let mut it = iter_frames(&buf);
    let view = it.next().expect("frame must yield").expect("must parse");
    assert_eq!(view.offset, 0);
    assert_eq!(view.len, 95);
    assert_eq!(view.header.frame_size_bytes, 95);
    assert!(!view.header.crc_present);
    assert_eq!(view.header.header_byte_length(), 13);

    let payload = view.payload();
    assert_eq!(payload.len(), 95 - 13);
    assert!(payload.iter().all(|&b| b == 0xCD));
    assert!(it.next().is_none());
}

#[test]
fn frame_view_payload_offset_shifts_when_crc_present() {
    let mut buf = vec![0u8; 95];
    let mut bv: Vec<bool> = Vec::new();
    push(&mut bv, 0x7FFE_8001, 32);
    push(&mut bv, 0, 1);
    push(&mut bv, 0, 5);
    push(&mut bv, 1, 1);
    push(&mut bv, 5, 7);
    push(&mut bv, 94, 14);
    push(&mut bv, 0, 6);
    push(&mut bv, 0, 4);
    push(&mut bv, 0, 5);
    push(&mut bv, 0, 13);
    push(&mut bv, 0xABCD, 16);
    push(&mut bv, 0, 16);
    while bv.len() % 8 != 0 {
        bv.push(false);
    }
    for (i, chunk) in bv.chunks(8).enumerate() {
        let mut b: u8 = 0;
        for (k, bit) in chunk.iter().enumerate() {
            if *bit {
                b |= 1 << (7 - k);
            }
        }
        buf[i] = b;
    }
    for byte in buf.iter_mut().skip(15) {
        *byte = 0xEF;
    }

    let view = iter_frames(&buf).next().unwrap().unwrap();
    assert!(view.header.crc_present);
    assert_eq!(view.header.header_byte_length(), 15);
    let payload = view.payload();
    assert_eq!(payload.len(), 95 - 15);
    assert!(payload.iter().all(|&b| b == 0xEF));
}

#[test]
fn find_all_syncs_empty_buffer_returns_empty_vec() {
    let buf: [u8; 0] = [];
    assert!(find_all_syncs(&buf).is_empty());
}

#[test]
fn find_all_syncs_no_sync_returns_empty_vec() {
    let buf = vec![0xAAu8; 64];
    assert!(find_all_syncs(&buf).is_empty());
}

#[test]
fn find_all_syncs_returns_single_match_for_single_sync() {
    let mut buf = vec![0u8; 16];
    buf[0..4].copy_from_slice(&RAW_BE_SYNC);
    let matches = find_all_syncs(&buf);
    assert_eq!(matches.len(), 1);
    assert_eq!(matches[0].offset, 0);
    assert_eq!(matches[0].encoding, SyncWordEncoding::RawBigEndian);
}

#[test]
fn find_all_syncs_mixed_raw_be_and_le_in_one_buffer() {
    let mut buf = vec![0xAAu8; 32];
    buf[0..4].copy_from_slice(&RAW_BE_SYNC);
    buf[8..12].copy_from_slice(&RAW_LE_SYNC);
    buf[16..20].copy_from_slice(&RAW_BE_SYNC);
    buf[24..28].copy_from_slice(&RAW_LE_SYNC);
    let matches = find_all_syncs(&buf);
    assert_eq!(matches.len(), 4);
    assert_eq!(matches[0].offset, 0);
    assert_eq!(matches[0].encoding, SyncWordEncoding::RawBigEndian);
    assert_eq!(matches[1].offset, 8);
    assert_eq!(matches[1].encoding, SyncWordEncoding::RawLittleEndian);
    assert_eq!(matches[2].offset, 16);
    assert_eq!(matches[2].encoding, SyncWordEncoding::RawBigEndian);
    assert_eq!(matches[3].offset, 24);
    assert_eq!(matches[3].encoding, SyncWordEncoding::RawLittleEndian);
}

#[test]
fn find_all_syncs_with_all_four_encodings() {
    let mut buf = vec![0xAAu8; 48];
    buf[0..4].copy_from_slice(&RAW_BE_SYNC);
    buf[8..12].copy_from_slice(&RAW_LE_SYNC);
    buf[16..22].copy_from_slice(&[0x1F, 0xFF, 0xE8, 0x00, 0x07, 0xFA]);
    buf[24..30].copy_from_slice(&[0xFF, 0x1F, 0x00, 0xE8, 0xF3, 0x07]);
    let matches = find_all_syncs(&buf);
    assert_eq!(matches.len(), 4);
    assert_eq!(matches[0].encoding, SyncWordEncoding::RawBigEndian);
    assert_eq!(matches[1].encoding, SyncWordEncoding::RawLittleEndian);
    assert_eq!(matches[2].encoding, SyncWordEncoding::FourteenBitBigEndian);
    assert_eq!(
        matches[3].encoding,
        SyncWordEncoding::FourteenBitLittleEndian
    );
}

#[test]
fn find_all_syncs_consecutive_back_to_back_frames() {
    let mut buf = vec![0u8; 16];
    buf[0..4].copy_from_slice(&RAW_BE_SYNC);
    buf[4..8].copy_from_slice(&RAW_BE_SYNC);
    let matches = find_all_syncs(&buf);
    assert_eq!(matches.len(), 2);
    assert_eq!(matches[0].offset, 0);
    assert_eq!(matches[1].offset, 4);
}

#[test]
fn find_all_syncs_walks_full_buffer_independent_of_starting_garbage() {
    let mut buf = vec![0xAAu8; 32];
    buf[5..9].copy_from_slice(&RAW_BE_SYNC);
    buf[20..24].copy_from_slice(&RAW_LE_SYNC);
    let matches = find_all_syncs(&buf);
    assert_eq!(matches.len(), 2);
    assert_eq!(matches[0].offset, 5);
    assert_eq!(matches[1].offset, 20);
}

#[test]
fn find_all_syncs_matches_find_next_sync_loop() {
    let mut buf = vec![0xAAu8; 64];
    buf[3..7].copy_from_slice(&RAW_BE_SYNC);
    buf[15..19].copy_from_slice(&RAW_LE_SYNC);
    buf[40..44].copy_from_slice(&RAW_BE_SYNC);

    let mut reference: Vec<SyncMatch> = Vec::new();
    let mut cursor = 0usize;
    while let Some(m) = find_next_sync(&buf, cursor) {
        reference.push(m);
        cursor = m.offset + 1;
    }

    let bulk = find_all_syncs(&buf);
    assert_eq!(bulk, reference);
}

fn build_raw_le_two_frame_stream() -> Vec<u8> {
    let mut be = Vec::with_capacity(2 * 96);
    for _frame in 0..2 {
        let mut bv: Vec<bool> = Vec::new();
        push(&mut bv, 0x7FFE_8001, 32);
        push(&mut bv, 0, 1);
        push(&mut bv, 0, 5);
        push(&mut bv, 0, 1);
        push(&mut bv, 5, 7);
        push(&mut bv, 95, 14);
        push(&mut bv, 0, 6);
        push(&mut bv, 0, 4);
        push(&mut bv, 0, 5);
        push(&mut bv, 0, 13);
        push(&mut bv, 0, 16);
        while bv.len() % 8 != 0 {
            bv.push(false);
        }
        let mut frame_bytes = vec![0u8; 96];
        for (i, chunk) in bv.chunks(8).enumerate() {
            let mut b: u8 = 0;
            for (k, bit) in chunk.iter().enumerate() {
                if *bit {
                    b |= 1 << (7 - k);
                }
            }
            frame_bytes[i] = b;
        }
        for byte in frame_bytes.iter_mut().skip(13) {
            *byte = 0xCD;
        }
        be.extend_from_slice(&frame_bytes);
    }
    for pair in be.chunks_exact_mut(2) {
        pair.swap(0, 1);
    }
    be
}

#[test]
fn iter_frames_walks_raw_le_two_frame_stream() {
    let buf = build_raw_le_two_frame_stream();
    assert_eq!(&buf[..4], &[0xFE, 0x7F, 0x01, 0x80]);
    assert_eq!(&buf[96..100], &[0xFE, 0x7F, 0x01, 0x80]);

    let frames: Vec<_> = collect_frames(&buf)
        .expect("raw-LE multi-frame stream must walk");
    assert_eq!(frames.len(), 2);

    for (i, frame) in frames.iter().enumerate() {
        assert_eq!(
            frame.header.sync_word_encoding,
            SyncWordEncoding::RawLittleEndian,
            "frame {i} encoding",
        );
        assert_eq!(frame.offset, i * 96);
        assert_eq!(frame.len, 96);
        assert_eq!(frame.header.frame_size_bytes, 96);
        assert_eq!(frame.header.blocks_per_frame, 5);
        assert_eq!(frame.header.frame_type, FrameType::Termination);
        assert!(!frame.header.crc_present);
        assert_eq!(frame.header.header_byte_length(), 13);
    }
}

#[test]
fn iter_frames_raw_le_handles_leading_garbage() {
    let stream = build_raw_le_two_frame_stream();
    let mut prefixed = Vec::with_capacity(7 + stream.len());
    prefixed.extend_from_slice(&[0xAA; 7]);
    prefixed.extend_from_slice(&stream);

    let frames: Vec<_> = collect_frames(&prefixed)
        .expect("garbage-prefixed raw-LE stream must still walk");
    assert_eq!(frames.len(), 2);
    assert_eq!(frames[0].offset, 7);
    assert_eq!(frames[1].offset, 7 + 96);
    for f in &frames {
        assert_eq!(
            f.header.sync_word_encoding,
            SyncWordEncoding::RawLittleEndian
        );
    }
}

fn push_bits(bv: &mut Vec<bool>, value: u32, width: u32) {
    for i in (0..width).rev() {
        bv.push(((value >> i) & 1) == 1);
    }
}

fn bits_to_bytes(bv: &[bool]) -> Vec<u8> {
    assert_eq!(bv.len() % 8, 0, "bit count must be multiple of 8");
    let mut out = vec![0u8; bv.len() / 8];
    for (i, chunk) in bv.chunks(8).enumerate() {
        let mut b: u8 = 0;
        for (k, bit) in chunk.iter().enumerate() {
            if *bit {
                b |= 1 << (7 - k);
            }
        }
        out[i] = b;
    }
    out
}

fn build_min_frame_be(fill: u8) -> Vec<u8> {
    let mut bv: Vec<bool> = Vec::new();
    push_bits(&mut bv, 0x7FFE_8001, 32);
    push_bits(&mut bv, 0, 1);
    push_bits(&mut bv, 0, 5);
    push_bits(&mut bv, 0, 1);
    push_bits(&mut bv, 5, 7);
    push_bits(&mut bv, 94, 14);
    push_bits(&mut bv, 0, 6);
    push_bits(&mut bv, 0, 4);
    push_bits(&mut bv, 0, 5);
    push_bits(&mut bv, 0, 13);
    push_bits(&mut bv, 0, 16);
    while bv.len() % 8 != 0 {
        bv.push(false);
    }
    let mut buf = bits_to_bytes(&bv);
    buf.resize(95, fill);
    for byte in buf.iter_mut().skip(13) {
        *byte = fill;
    }
    buf
}

#[test]
fn resync_walks_clean_stream_identically_to_fail_fast() {
    let mut stream = Vec::with_capacity(3 * 95);
    for fill in [0x11u8, 0x22, 0x33] {
        stream.extend_from_slice(&build_min_frame_be(fill));
    }
    assert_eq!(stream.len(), 285);

    let strict: Vec<FrameView<'_>> = collect_frames(&stream)
        .expect("clean stream must walk");
    let resync: Vec<FrameView<'_>> = collect_resync(&stream).into_iter().collect::<Result<Vec<_>, ResyncEvent>>()
        .expect("clean stream must walk through resync iter too");
    assert_eq!(strict.len(), 3);
    assert_eq!(resync.len(), 3);
    for (a, b) in strict.iter().zip(resync.iter()) {
        assert_eq!(a.offset, b.offset);
        assert_eq!(a.len, b.len);
        assert_eq!(a.header, b.header);
    }
}

#[test]
fn resync_skips_false_positive_sync_in_garbage_and_recovers_real_frame() {
    let real = build_min_frame_be(0xCC);
    let mut buf = vec![0xAAu8; 32];
    buf[8..12].copy_from_slice(&RAW_BE_SYNC);
    for byte in buf.iter_mut().take(32).skip(12) {
        *byte = 0;
    }
    buf.extend_from_slice(&real);
    let mut strict = iter_frames(&buf);
    match strict.next() {
        Some(Err(Error::BlockCountOutOfRange { .. })) => {}
        other => panic!("fail-fast must surface BlockCountOutOfRange, got {other:?}"),
    }
    assert!(strict.next().is_none(), "fail-fast iterator terminates");

    let mut it = iter_frames_resync(&buf);
    let first = it.next().expect("must yield event");
    match first {
        Err(ResyncEvent {
            offset: 8,
            encoding: SyncWordEncoding::RawBigEndian,
            cause: ResyncCause::StructuralBoundFailed(Error::BlockCountOutOfRange { .. }),
        }) => {}
        other => panic!("expected StructuralBoundFailed at offset 8, got {other:?}"),
    }
    let second = it.next().expect("must yield real frame");
    let view = second.expect("real frame must parse");
    assert_eq!(view.offset, 32);
    assert_eq!(view.len, 95);
    assert_eq!(
        view.header.sync_word_encoding,
        SyncWordEncoding::RawBigEndian
    );
    assert_eq!(view.header.frame_size_bytes, 95);
    assert!(it.next().is_none());
}

#[test]
fn resync_overrun_event_lets_iterator_continue() {

    let real = build_min_frame_be(0x11);
    let mut buf = real.clone();
    buf.push(0xAA);
    let false_sync_off = buf.len();
    let total_after_false_sync = 50;
    let mut bv: Vec<bool> = Vec::new();
    push_bits(&mut bv, 0x7FFE_8001, 32);
    push_bits(&mut bv, 0, 1);
    push_bits(&mut bv, 0, 5);
    push_bits(&mut bv, 0, 1);
    push_bits(&mut bv, 5, 7);
    push_bits(&mut bv, 199, 14);
    push_bits(&mut bv, 0, 6);
    push_bits(&mut bv, 0, 4);
    push_bits(&mut bv, 0, 5);
    push_bits(&mut bv, 0, 13);
    push_bits(&mut bv, 0, 16);
    while bv.len() % 8 != 0 {
        bv.push(false);
    }
    let hdr_bytes = bits_to_bytes(&bv);
    buf.extend_from_slice(&hdr_bytes);
    while buf.len() - false_sync_off < total_after_false_sync {
        buf.push(0xBB);
    }
    assert_eq!(buf.len() - false_sync_off, total_after_false_sync);

    let events: Vec<_> = collect_resync(&buf);
    assert_eq!(events.len(), 2);
    let frame = events[0].as_ref().unwrap();
    assert_eq!(frame.offset, 0);
    assert_eq!(frame.len, 95);

    match events[1] {
        Err(ResyncEvent {
            offset: 96,
            encoding: SyncWordEncoding::RawBigEndian,
            cause: ResyncCause::FrameLengthOverrunsBuffer { declared_len: 200 },
        }) => {}
        ref other => panic!("expected overrun event at 96 with len 200, got {other:?}"),
    }
}

#[test]
fn resync_skips_fourteen_bit_sync_and_keeps_walking() {
    let real = build_min_frame_be(0xDD);
    let mut buf = Vec::new();
    buf.extend_from_slice(&[0x1F, 0xFF, 0xE8, 0x00, 0x07, 0xFA]);
    buf.extend_from_slice(&[0xAA, 0xAA]);
    let real_off = buf.len();
    buf.extend_from_slice(&real);

    let mut it = iter_frames_resync(&buf);
    match it.next() {
        Some(Err(ResyncEvent {
            offset: 0,
            encoding: SyncWordEncoding::FourteenBitBigEndian,
            cause: ResyncCause::FourteenBitSyncSkipped,
        })) => {}
        other => panic!("expected 14-bit-BE skip at offset 0, got {other:?}"),
    }
    let view = it.next().expect("must yield frame").expect("must parse");
    assert_eq!(view.offset, real_off);
    assert_eq!(
        view.header.sync_word_encoding,
        SyncWordEncoding::RawBigEndian
    );
    assert!(it.next().is_none());
}

#[test]
fn resync_cursor_advances_one_byte_on_event_and_frame_size_on_ok() {
    let real = build_min_frame_be(0x44);
    let mut buf = vec![0xAAu8; 4];
    buf[0..4].copy_from_slice(&RAW_BE_SYNC);
    buf.resize(20, 0);
    let real_off = buf.len();
    buf.extend_from_slice(&real);

    let mut it = iter_frames_resync(&buf);
    let _ = it.next();
    assert_eq!(it.cursor(), 1);
    let _ = it.next();
    assert_eq!(it.cursor(), real_off + 95);
    assert!(it.next().is_none());
}

#[test]
fn resync_empty_buffer_yields_none() {
    let buf: [u8; 0] = [];
    assert!(iter_frames_resync(&buf).next().is_none());
}

#[test]
fn resync_no_sync_yields_none() {
    let buf = vec![0xAAu8; 64];
    assert!(iter_frames_resync(&buf).next().is_none());
}

#[test]
fn resync_multiple_consecutive_false_positives_each_reported() {
    let mut buf = vec![0u8; 64];
    for &off in &[0usize, 16, 32] {
        buf[off..off + 4].copy_from_slice(&RAW_BE_SYNC);
    }
    let events: Vec<_> = collect_resync(&buf);
    assert_eq!(events.len(), 3);
    for (i, &expected_off) in [0usize, 16, 32].iter().enumerate() {
        match events[i] {
            Err(ResyncEvent {
                offset,
                encoding: SyncWordEncoding::RawBigEndian,
                cause: ResyncCause::StructuralBoundFailed(Error::BlockCountOutOfRange { .. }),
            }) if offset == expected_off => {}
            ref other => panic!("event {i} mismatch: {other:?}"),
        }
    }
}

#[test]
fn resync_truncated_tail_surfaces_overrun_event_then_ends() {
    let real = build_min_frame_be(0xEE);
    let truncated = &real[..50];
    let events: Vec<_> = collect_resync(truncated);
    assert_eq!(events.len(), 1);
    match events[0] {
        Err(ResyncEvent {
            offset: 0,
            encoding: SyncWordEncoding::RawBigEndian,
            cause: ResyncCause::FrameLengthOverrunsBuffer { declared_len: 95 },
        }) => {}
        ref other => panic!("expected overrun event, got {other:?}"),
    }
}

#[test]
fn resync_truncated_header_surfaces_header_eof() {
    let buf = [0x7F, 0xFE, 0x80, 0x01, 0x00, 0x00, 0x00, 0x00];
    let events: Vec<_> = collect_resync(&buf);
    assert_eq!(events.len(), 1);
    match events[0] {
        Err(ResyncEvent {
            offset: 0,
            encoding: SyncWordEncoding::RawBigEndian,
            cause: ResyncCause::HeaderEof,
        }) => {}
        ref other => panic!("expected HeaderEof, got {other:?}"),
    }
}

#[test]
fn iter_frames_resync_matches_struct_new() {
    let real = build_min_frame_be(0x55);
    let a: Vec<_> = collect_resync(&real);
    let b: Vec<_> = drain_resync(FrameIteratorResync::new(&real));
    assert_eq!(a.len(), b.len());
    for (x, y) in a.iter().zip(b.iter()) {
        match (x, y) {
            (Ok(fx), Ok(fy)) => {
                assert_eq!(fx.offset, fy.offset);
                assert_eq!(fx.len, fy.len);
                assert_eq!(fx.header, fy.header);
            }
            (Err(ex), Err(ey)) => assert_eq!(ex, ey),
            _ => panic!("variants differ"),
        }
    }
}

fn reference_find_next_sync(bytes: &[u8], start: usize) -> Option<SyncMatch> {
    if start >= bytes.len() {
        return None;
    }
    let mut i = start;
    while i + 4 <= bytes.len() {
        if let Ok(enc) = detect_sync(&bytes[i..]) {
            return Some(SyncMatch {
                offset: i,
                encoding: enc,
            });
        }
        i += 1;
    }
    None
}

fn reference_find_all_syncs(bytes: &[u8]) -> Vec<SyncMatch> {
    let mut out = Vec::new();
    let mut cursor = 0usize;
    while let Some(m) = reference_find_next_sync(bytes, cursor) {
        out.push(m);
        cursor = m.offset + 1;
    }
    out
}

#[test]
fn first_byte_candidate_accepts_exactly_four_bytes() {
    let mut accepted: Vec<u8> = Vec::new();
    for b in 0u16..=255 {
        if is_sync_first_byte_candidate(b as u8) {
            accepted.push(b as u8);
        }
    }
    accepted.sort();
    assert_eq!(accepted, vec![0x1F, 0x7F, 0xFE, 0xFF]);
}

#[test]
fn first_byte_candidate_accepts_documented_sync_prefixes() {
    assert!(is_sync_first_byte_candidate(0x7F));
    assert!(is_sync_first_byte_candidate(0xFE));
    assert!(is_sync_first_byte_candidate(0x1F));
    assert!(is_sync_first_byte_candidate(0xFF));
    assert!(!is_sync_first_byte_candidate(0x7E));
    assert!(!is_sync_first_byte_candidate(0xFD));
    assert!(!is_sync_first_byte_candidate(0x80));
    assert!(!is_sync_first_byte_candidate(0x00));
}

#[test]
fn find_next_sync_matches_pre_optimization_reference_on_candidate_dense_payload() {
    let mut buf = vec![0u8; 256];
    let candidates = [0x7Fu8, 0xFE, 0x1F, 0xFF];
    for (i, b) in buf.iter_mut().enumerate() {
        if i % 4 == 0 {
            *b = candidates[(i / 4) % 4];
        } else {
            *b = 0x55;
        }
    }
    assert_eq!(find_next_sync(&buf, 0), None);
    assert_eq!(reference_find_next_sync(&buf, 0), None);

    buf[100..104].copy_from_slice(&RAW_BE_SYNC);
    let opt = find_next_sync(&buf, 0).unwrap();
    let r = reference_find_next_sync(&buf, 0).unwrap();
    assert_eq!(opt, r);
    assert_eq!(opt.offset, 100);
    assert_eq!(opt.encoding, SyncWordEncoding::RawBigEndian);
}

#[test]
fn find_next_sync_matches_reference_on_pseudo_random_buffer() {
    let mut buf = vec![0u8; 4096];
    let mut state: u64 = 0xDEAD_BEEF_CAFE_BABE;
    for b in buf.iter_mut() {
        state = state
            .wrapping_mul(6364136223846793005)
            .wrapping_add(1442695040888963407);
        *b = (state >> 32) as u8;
    }
    for start in 0..buf.len() {
        assert_eq!(
            find_next_sync(&buf, start),
            reference_find_next_sync(&buf, start),
            "find_next_sync diverged at start={start}"
        );
    }
}

#[test]
fn find_all_syncs_matches_reference_on_random_buffer_with_embedded_syncs() {
    let mut buf = vec![0u8; 4096];
    let mut state: u64 = 0x0123_4567_89AB_CDEF;
    for b in buf.iter_mut() {
        state = state
            .wrapping_mul(6364136223846793005)
            .wrapping_add(1442695040888963407);
        *b = (state >> 32) as u8;
    }
    buf[100..104].copy_from_slice(&RAW_BE_SYNC);
    buf[500..504].copy_from_slice(&RAW_LE_SYNC);
    buf[1000..1006].copy_from_slice(&[0x1F, 0xFF, 0xE8, 0x00, 0x07, 0xF0]);
    buf[2000..2006].copy_from_slice(&[0xFF, 0x1F, 0x00, 0xE8, 0xF0, 0x07]);

    let opt = find_all_syncs(&buf);
    let r = reference_find_all_syncs(&buf);
    assert_eq!(opt, r, "find_all_syncs diverged from reference");
    let pairs: Vec<(usize, SyncWordEncoding)> =
        opt.iter().map(|m| (m.offset, m.encoding)).collect();
    assert!(pairs.contains(&(100, SyncWordEncoding::RawBigEndian)));
    assert!(pairs.contains(&(500, SyncWordEncoding::RawLittleEndian)));
    assert!(pairs.contains(&(1000, SyncWordEncoding::FourteenBitBigEndian)));
    assert!(pairs.contains(&(2000, SyncWordEncoding::FourteenBitLittleEndian)));
}

#[test]
fn find_next_sync_handles_all_ones_payload_with_one_embedded_sync() {
    let mut buf = vec![0xFFu8; 256];
    buf[50..54].copy_from_slice(&RAW_LE_SYNC);
    let opt = find_next_sync(&buf, 0).unwrap();
    let r = reference_find_next_sync(&buf, 0).unwrap();
    assert_eq!(opt, r);
    assert_eq!(opt.offset, 50);
    assert_eq!(opt.encoding, SyncWordEncoding::RawLittleEndian);
}

#[test]
fn find_next_sync_handles_all_zero_payload() {
    let buf = vec![0u8; 4096];
    assert_eq!(find_next_sync(&buf, 0), None);
    assert_eq!(reference_find_next_sync(&buf, 0), None);
}

#[test]
fn find_next_sync_start_sweep_matches_reference_with_two_real_syncs() {
    let mut buf = vec![0xAAu8; 200];
    buf[20..24].copy_from_slice(&RAW_BE_SYNC);
    buf[100..104].copy_from_slice(&RAW_LE_SYNC);
    for start in 0..buf.len() {
        assert_eq!(
            find_next_sync(&buf, start),
            reference_find_next_sync(&buf, start),
            "divergence at start={start}"
        );
    }
}

#[test]
fn sync_word_encoding_byte_length_matches_wiki_sync_table() {
    assert_eq!(SyncWordEncoding::RawBigEndian.sync_byte_length(), 4);
    assert_eq!(SyncWordEncoding::RawLittleEndian.sync_byte_length(), 4);
    assert_eq!(SyncWordEncoding::FourteenBitBigEndian.sync_byte_length(), 6);
    assert_eq!(
        SyncWordEncoding::FourteenBitLittleEndian.sync_byte_length(),
        6
    );
}

#[test]
fn sync_word_encoding_raw_vs_packed_predicates_partition_the_enum() {
    for enc in [
        SyncWordEncoding::RawBigEndian,
        SyncWordEncoding::RawLittleEndian,
        SyncWordEncoding::FourteenBitBigEndian,
        SyncWordEncoding::FourteenBitLittleEndian,
    ] {
        assert_ne!(
            enc.is_raw_16bit(),
            enc.is_14bit_packed(),
            "exactly one predicate must hold for {enc:?}"
        );
    }
    assert!(SyncWordEncoding::RawBigEndian.is_raw_16bit());
    assert!(SyncWordEncoding::RawLittleEndian.is_raw_16bit());
    assert!(!SyncWordEncoding::FourteenBitBigEndian.is_raw_16bit());
    assert!(!SyncWordEncoding::FourteenBitLittleEndian.is_raw_16bit());
    assert!(SyncWordEncoding::FourteenBitBigEndian.is_14bit_packed());
    assert!(SyncWordEncoding::FourteenBitLittleEndian.is_14bit_packed());
}

#[test]
fn sync_match_sync_byte_range_carries_wiki_documented_byte_count() {
    let cases = [
        (SyncWordEncoding::RawBigEndian, 4usize),
        (SyncWordEncoding::RawLittleEndian, 4),
        (SyncWordEncoding::FourteenBitBigEndian, 6),
        (SyncWordEncoding::FourteenBitLittleEndian, 6),
    ];
    for (enc, expected_len) in cases {
        let m = SyncMatch {
            offset: 17,
            encoding: enc,
        };
        assert_eq!(m.sync_byte_length(), expected_len);
        let r = m.sync_byte_range();
        assert_eq!(r.start, 17);
        assert_eq!(r.end, 17 + expected_len);
    }
}

#[test]
fn sync_match_sync_byte_range_slices_raw_be_sync_bytes() {
    let mut buf = vec![0u8; 16];
    buf[..4].copy_from_slice(&RAW_BE_SYNC);
    let m = find_next_sync(&buf, 0).unwrap();
    assert_eq!(&buf[m.sync_byte_range()], &RAW_BE_SYNC);
}

#[test]
fn sync_match_sync_byte_range_slices_14bit_be_sync_bytes() {
    let mut buf = vec![0u8; 32];
    buf[5..11].copy_from_slice(&[0x1F, 0xFF, 0xE8, 0x00, 0x07, 0xF0]);
    let m = find_next_sync(&buf, 0).unwrap();
    assert_eq!(m.encoding, SyncWordEncoding::FourteenBitBigEndian);
    assert_eq!(m.sync_byte_range(), 5..11);
    assert_eq!(
        &buf[m.sync_byte_range()],
        &[0x1F, 0xFF, 0xE8, 0x00, 0x07, 0xF0]
    );
}

#[test]
fn iter_syncs_collects_to_same_vec_as_find_all_syncs_on_mixed_encoding_buffer() {
    let mut buf = vec![0u8; 64];
    buf[2..6].copy_from_slice(&RAW_BE_SYNC);
    buf[12..16].copy_from_slice(&RAW_LE_SYNC);
    buf[24..30].copy_from_slice(&[0x1F, 0xFF, 0xE8, 0x00, 0x07, 0xF5]);
    buf[40..46].copy_from_slice(&[0xFF, 0x1F, 0x00, 0xE8, 0xF7, 0x07]);
    let bulk = find_all_syncs(&buf);
    let streamed: Vec<SyncMatch> = collect_syncs(&buf, usize::MAX);
    assert_eq!(bulk, streamed);
    assert_eq!(streamed.len(), 4);
    assert_eq!(streamed[0].encoding, SyncWordEncoding::RawBigEndian);
    assert_eq!(streamed[1].encoding, SyncWordEncoding::RawLittleEndian);
    assert_eq!(streamed[2].encoding, SyncWordEncoding::FourteenBitBigEndian);
    assert_eq!(
        streamed[3].encoding,
        SyncWordEncoding::FourteenBitLittleEndian
    );
}

#[test]
fn iter_syncs_returns_none_on_buffer_without_any_syncs() {
    let buf = vec![0xAAu8; 256];
    let mut it = iter_syncs(&buf);
    assert!(it.next().is_none());
    assert_eq!(find_all_syncs(&buf), Vec::<SyncMatch>::new());
}

#[test]
fn iter_syncs_take_window_stops_after_n_matches() {
    let mut buf = vec![0u8; 256];
    for off in [10usize, 30, 50, 70, 90] {
        buf[off..off + 4].copy_from_slice(&RAW_BE_SYNC);
    }
    let first_three: Vec<SyncMatch> = collect_syncs(&buf, 3);
    assert_eq!(first_three.len(), 3);
    assert_eq!(first_three[0].offset, 10);
    assert_eq!(first_three[1].offset, 30);
    assert_eq!(first_three[2].offset, 50);
}

#[test]
fn iter_syncs_filter_by_is_raw_16bit_excludes_14bit_matches() {
    let mut buf = vec![0u8; 64];
    buf[0..4].copy_from_slice(&RAW_BE_SYNC);
    buf[10..16].copy_from_slice(&[0x1F, 0xFF, 0xE8, 0x00, 0x07, 0xF1]);
    buf[20..24].copy_from_slice(&RAW_LE_SYNC);
    buf[30..36].copy_from_slice(&[0xFF, 0x1F, 0x00, 0xE8, 0xF2, 0x07]);
    let raws: Vec<SyncMatch> = collect_syncs(&buf, usize::MAX)
        .into_iter()
        .filter(|m| m.encoding.is_raw_16bit())
        .collect();
    assert_eq!(raws.len(), 2);
    assert!(raws.iter().all(|m| m.encoding.is_raw_16bit()));
    assert_eq!(raws[0].offset, 0);
    assert_eq!(raws[1].offset, 20);
}

#[test]
fn sync_iterator_cursor_reflects_scan_position() {
    let mut buf = vec![0u8; 32];
    buf[10..14].copy_from_slice(&RAW_BE_SYNC);
    let mut it = iter_syncs(&buf);
    assert_eq!(it.cursor(), 0);
    let m = it.next().unwrap();
    assert_eq!(m.offset, 10);
    assert_eq!(it.cursor(), 11);
    assert!(it.next().is_none());
}

#[test]
fn iter_syncs_matches_reference_on_pseudo_random_buffer_with_embedded_syncs() {
    let mut buf = vec![0u8; 4096];
    let mut state: u64 = 0x4242_4242_4242_4242;
    for b in buf.iter_mut() {
        state = state
            .wrapping_mul(6364136223846793005)
            .wrapping_add(1442695040888963407);
        *b = (state >> 32) as u8;
    }
    buf[200..204].copy_from_slice(&RAW_BE_SYNC);
    buf[800..804].copy_from_slice(&RAW_LE_SYNC);
    buf[1500..1506].copy_from_slice(&[0x1F, 0xFF, 0xE8, 0x00, 0x07, 0xF2]);
    buf[3000..3006].copy_from_slice(&[0xFF, 0x1F, 0x00, 0xE8, 0xF4, 0x07]);
    let streamed: Vec<SyncMatch> = collect_syncs(&buf, usize::MAX);
    let reference = reference_find_all_syncs(&buf);
    assert_eq!(streamed, reference);
}


fn build_minimum_raw_be_frame() -> Vec<u8> {
    let mut bv: Vec<bool> = Vec::new();
    push(&mut bv, 0x7FFE_8001, 32);
    push(&mut bv, 0, 1);
    push(&mut bv, 0, 5);
    push(&mut bv, 0, 1);
    push(&mut bv, 5, 7);
    push(&mut bv, 94, 14);
    push(&mut bv, 0, 6);
    push(&mut bv, 0, 4);
    push(&mut bv, 0, 5);
    push(&mut bv, 0, 13);
    push(&mut bv, 0, 16);
    while bv.len() % 8 != 0 {
        bv.push(false);
    }
    let mut buf = vec![0u8; 95];
    for (i, chunk) in bv.chunks(8).enumerate() {
        let mut b: u8 = 0;
        for (k, bit) in chunk.iter().enumerate() {
            if *bit {
                b |= 1 << (7 - k);
            }
        }
        buf[i] = b;
    }
    for byte in buf.iter_mut().skip(13) {
        *byte = 0xC1;
    }
    buf
}

#[test]
fn iter_frames_14bit_walks_single_be_frame() {
    let raw = build_minimum_raw_be_frame();
    let (packed, _bits) = pack_16bit_to_14bit(&raw, FourteenBitByteOrder::BigEndian);
    assert_eq!(packed.len(), 110);
    let mut it = iter_frames_14bit(&packed);
    let view = it.next().expect("frame must yield").expect("must parse");
    assert_eq!(view.offset, 0);
    assert_eq!(view.len, 110);
    assert_eq!(view.data.len(), 110);
    assert_eq!(
        view.header.sync_word_encoding,
        SyncWordEncoding::FourteenBitBigEndian
    );
    assert_eq!(view.header.frame_size_bytes, 95);
    assert_eq!(view.header.blocks_per_frame, 5);
    assert_eq!(view.header.frame_type, FrameType::Termination);
    assert!(it.next().is_none());
}

#[test]
fn iter_frames_14bit_walks_single_le_frame() {
    let raw = build_minimum_raw_be_frame();
    let (packed, _bits) = pack_16bit_to_14bit(&raw, FourteenBitByteOrder::LittleEndian);
    assert_eq!(packed.len(), 110);
    let view = iter_frames_14bit(&packed)
        .next()
        .expect("frame must yield")
        .expect("must parse");
    assert_eq!(view.offset, 0);
    assert_eq!(view.len, 110);
    assert_eq!(
        view.header.sync_word_encoding,
        SyncWordEncoding::FourteenBitLittleEndian
    );
    assert_eq!(view.header.frame_size_bytes, 95);
}

#[test]
fn iter_frames_14bit_walks_two_back_to_back_be_frames() {
    let raw = build_minimum_raw_be_frame();
    let (packed_one, _) = pack_16bit_to_14bit(&raw, FourteenBitByteOrder::BigEndian);
    let mut stream = Vec::new();
    stream.extend_from_slice(&packed_one);
    stream.extend_from_slice(&packed_one);
    assert_eq!(stream.len(), 220);

    let frames: Vec<_> = collect_frames_14bit(&stream)
        .expect("both frames must parse");
    assert_eq!(frames.len(), 2);
    assert_eq!(frames[0].offset, 0);
    assert_eq!(frames[0].len, 110);
    assert_eq!(frames[1].offset, 110);
    assert_eq!(frames[1].len, 110);
    assert_eq!(
        frames[1].header.sync_word_encoding,
        SyncWordEncoding::FourteenBitBigEndian
    );
}

#[test]
fn iter_frames_14bit_handles_leading_garbage_before_first_sync() {
    let raw = build_minimum_raw_be_frame();
    let (packed, _) = pack_16bit_to_14bit(&raw, FourteenBitByteOrder::BigEndian);
    let mut buf: Vec<u8> = vec![0xAA; 17];
    buf.extend_from_slice(&packed);
    let view = iter_frames_14bit(&buf)
        .next()
        .expect("first frame must yield")
        .expect("must parse after resync");
    assert_eq!(view.offset, 17);
    assert_eq!(view.len, 110);
}

#[test]
fn iter_frames_14bit_rejects_raw_16bit_sync() {
    let mut buf = vec![0u8; 32];
    buf[0..4].copy_from_slice(&RAW_BE_SYNC);
    let mut it = iter_frames_14bit(&buf);
    match it.next() {
        Some(Err(Error::UnsupportedRaw16Bit)) => {}
        other => panic!("expected UnsupportedRaw16Bit, got {other:?}"),
    }
    assert!(it.next().is_none(), "iterator terminates after rejection");
}

#[test]
fn iter_frames_14bit_empty_buffer_yields_nothing() {
    let buf: [u8; 0] = [];
    let mut it = iter_frames_14bit(&buf);
    assert!(it.next().is_none());
}

#[test]
fn iter_frames_14bit_no_sync_yields_nothing() {
    let buf = vec![0xAAu8; 256];
    let mut it = iter_frames_14bit(&buf);
    assert!(it.next().is_none());
}

#[test]
fn iter_frames_14bit_truncated_tail_reports_eof() {
    let raw = build_minimum_raw_be_frame();
    let (packed, _) = pack_16bit_to_14bit(&raw, FourteenBitByteOrder::BigEndian);
    let truncated = &packed[..100];
    let mut it = iter_frames_14bit(truncated);
    match it.next() {
        Some(Err(Error::UnexpectedEof)) => {}
        other => panic!("expected UnexpectedEof on truncation, got {other:?}"),
    }
}

#[test]
fn iter_frames_14bit_data_slice_round_trips_through_parser() {
    let raw = build_minimum_raw_be_frame();
    let (packed, _) = pack_16bit_to_14bit(&raw, FourteenBitByteOrder::BigEndian);
    let view = iter_frames_14bit(&packed).next().unwrap().unwrap();
    let reparsed = parse_frame_header_14bit(view.data).unwrap();
    assert_eq!(reparsed, view.header);
}

#[test]
fn iter_frames_14bit_cursor_advances_by_container_byte_count() {
    let raw = build_minimum_raw_be_frame();
    let (packed, _) = pack_16bit_to_14bit(&raw, FourteenBitByteOrder::BigEndian);
    let mut stream = Vec::new();
    stream.extend_from_slice(&packed);
    stream.extend_from_slice(&packed);

    let mut it = iter_frames_14bit(&stream);
    assert_eq!(it.cursor(), 0);
    it.next().unwrap().unwrap();
    assert_eq!(it.cursor(), 110);
    it.next().unwrap().unwrap();
    assert_eq!(it.cursor(), 220);
    assert!(it.next().is_none());
}
