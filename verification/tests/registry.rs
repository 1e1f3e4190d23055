use oxideav_core::{CodecId, CodecInfo, CodecRegistry, CodecResolver, CodecTag, ProbeContext};
use vuio_codec_dts::{
    claimed_fourccs, claims_fourcc, decode_dsync_at, encode_frame_header_be, error_class,
    frame_channel_count, pack_16bit_to_14bit, parse_frame_header, planar_s32, probe_dts,
    probe_dts_tag, AudioArrayDecodeError, AudioCodingHeader, AudioJob, AudioReply,
    ChannelSideInfo, CoreFrameDecodeError, DtsDecoderHandle, DtsFrameHeader, Error, ErrorClass,
    FourteenBitByteOrder, FrameWorkers, IndexReply, LfeMode, LowReply, OutputFrame,
    ProbeConfidence, ReceiveError, SideInfoTail, SideReply, SubframePcmError, SubframePlan,
    SubframeSideInfo, SubframeWorkers, SyncWordEncoding, SynthesisReply, TailReply, CODEC_ID_STR,
};

const REAL_DTS_FRAME_HEADER: [u8; 16] = [
    0x7f, 0xfe, 0x80, 0x01, 0xfc, 0x3c, 0x3f, 0xf0, 0xb5, 0xe0, 0x01, 0x38, 0x00, 0x03, 0xef, 0x7f,
];

fn pack_fields(fields: &[(u32, u8)]) -> Vec<u8> {
    let total_bits: usize = fields.iter().map(|(_, w)| *w as usize).sum();
    let mut out = vec![0u8; total_bits.div_ceil(8)];
    let mut bit_pos = 0usize;
    for &(value, width) in fields {
        for i in (0..width).rev() {
            let bit = ((value >> i) & 1) as u8;
            out[bit_pos / 8] |= bit << (7 - (bit_pos % 8));
            bit_pos += 1;
        }
    }
    out
}

fn one_channel_frame() -> Vec<u8> {
    let mut header = parse_frame_header(&REAL_DTS_FRAME_HEADER).unwrap();
    header.dynamic_range = false;
    header.predictor_history = false;
    header.aspf = false;
    let mut bytes = encode_frame_header_be(&header).unwrap();
    let mut body: Vec<(u32, u8)> = vec![
        (0, 4),
        (0, 3),
        (0, 5),
        (1, 5),
        (0, 3),
        (0, 2),
        (0, 3),
        (6, 3),
    ];
    body.push((0, 1));
    for _ in 1..5 {
        body.push((0, 2));
    }
    for _ in 5..10 {
        body.push((0, 3));
    }
    for _ in 0..10 {
        body.push((0, 2));
    }
    body.push((0, 2));
    body.push((0, 3));
    body.push((0, 1));
    body.push((0, 1));
    body.push((0, 5));
    body.push((0, 5));
    body.push((0xffff, 16));
    bytes.extend_from_slice(&pack_fields(&body));
    bytes.extend_from_slice(&[0u8; 4]);
    bytes
}

/// The stand-in filter counts the subframes that went through it.
type Count = i32;

fn no_indices(_: &[u8], _: usize, _: &SubframePlan) -> IndexReply {
    Ok((Vec::new(), 0))
}

fn quiet_low(count: &Count, _: &[u8], _: usize, lff: u8, n_ssc: usize) -> LowReply<Count> {
    let samples = 256 * n_ssc;
    (*count, Ok((vec![i32::from(lff); samples], 0)))
}

fn silence(count: &Count, bytes: &[u8], at: usize, job: &AudioJob<'_>) -> AudioReply<Count, i32> {
    let read = match decode_dsync_at(bytes, at, 0) {
        Ok(bits) => Ok((vec![vec![[0; 32]; job.plan.rows]; job.side.len()], bits)),
        Err(e) => Err(AudioArrayDecodeError::Bitstream(e)),
    };
    (*count, read)
}

fn numbered(
    count: &Count,
    channels: usize,
    _: &Vec<Vec<[i32; 32]>>,
    plan: &SubframePlan,
) -> SynthesisReply<Count> {
    (
        *count + 1,
        Ok(vec![vec![*count; 32 * plan.rows]; channels]),
    )
}

fn side_info(_: &[u8], _: usize, coding: &AudioCodingHeader) -> SideReply {
    let side = SubframeSideInfo {
        channels: vec![ChannelSideInfo::cleared(); coding.n_pchs],
        n_ssc: 1,
        psc: 0,
    };
    Ok((side, 17))
}

fn tail(_: &[u8], _: usize, _: &AudioCodingHeader, _: &DtsFrameHeader) -> TailReply<i32> {
    let tail = SideInfoTail {
        join_scales: Vec::new(),
        range_index: None,
    };
    Ok((tail, 0))
}

fn clear_history(count: &Count) -> Count {
    *count
}

fn gain(v: i32, _: u8) -> i32 {
    v
}

fn first(a: i32, _: i32) -> i32 {
    a
}

fn start(_: usize) -> Count {
    0
}

fn receive(handle: &mut DtsDecoderHandle<Count>) -> Result<OutputFrame, ReceiveError> {
    let work = FrameWorkers {
        subframe: SubframeWorkers {
            indices: no_indices,
            low: quiet_low,
            audio: silence,
            synthesize: numbered,
            times: first,
            plus: first,
            minus: first,
        },
        side_info,
        tail,
        clear_history,
        gain,
    };
    handle.receive_frame(&start, &work)
}

fn handle() -> DtsDecoderHandle<Count> {
    DtsDecoderHandle::new()
}

fn registry() -> CodecRegistry {
    let mut reg = CodecRegistry::new();
    let tags: Vec<CodecTag> = claimed_fourccs().iter().map(CodecTag::fourcc).collect();
    reg.register(CodecInfo::new(CodecId::new(CODEC_ID_STR)).tags(tags));
    reg
}

#[test]
fn probe_returns_1_for_valid_be_header() {
    assert_eq!(probe_dts(&REAL_DTS_FRAME_HEADER), ProbeConfidence::Certain);
}

#[test]
fn probe_returns_0p5_for_truncated_be_header() {
    let truncated = &REAL_DTS_FRAME_HEADER[..5];
    assert_eq!(probe_dts(truncated), ProbeConfidence::Possible);
}

#[test]
fn probe_returns_0p5_for_buffer_shorter_than_sync() {
    let truncated = &REAL_DTS_FRAME_HEADER[..2];
    assert_eq!(probe_dts(truncated), ProbeConfidence::Possible);
}

#[test]
fn probe_returns_0_for_invalid_header() {
    let garbage = [0xDE, 0xAD, 0xBE, 0xEF, 0, 0, 0, 0, 0, 0, 0, 0, 0, 0, 0, 0];
    assert_eq!(probe_dts(&garbage), ProbeConfidence::No);
}

#[test]
fn probe_returns_0_for_short_invalid_input() {
    assert_eq!(probe_dts(&[]), ProbeConfidence::Possible);
}

#[test]
fn probe_reads_packed_headers_and_trusts_a_bare_tag() {
    let mut frame = vec![0u8; 20];
    frame[..16].copy_from_slice(&REAL_DTS_FRAME_HEADER);
    for order in [
        FourteenBitByteOrder::BigEndian,
        FourteenBitByteOrder::LittleEndian,
    ] {
        let (packed, bits) = pack_16bit_to_14bit(&frame, order);
        assert_eq!(bits, 160);
        assert_eq!(probe_dts(&packed), ProbeConfidence::Certain);
    }
    assert_eq!(probe_dts_tag(None), ProbeConfidence::Certain);
    assert_eq!(probe_dts_tag(Some(&[])), ProbeConfidence::Possible);
}

#[test]
fn registry_resolves_dts_fourcc() {
    let reg = registry();
    let tag = CodecTag::fourcc(b"dts ");
    let ctx = ProbeContext::new(&tag);
    let id = reg.resolve_tag(&ctx).expect("dts fourcc must resolve");
    assert_eq!(id, CodecId::new(CODEC_ID_STR));
    assert!(claims_fourcc(b"dts "));
    assert!(claims_fourcc(b"DTS "));
}

#[test]
fn registry_resolves_dtsc_fourcc() {
    let reg = registry();
    let tag = CodecTag::fourcc(b"dtsc");
    let ctx = ProbeContext::new(&tag);
    let id = reg.resolve_tag(&ctx).expect("dtsc fourcc must resolve");
    assert_eq!(id, CodecId::new(CODEC_ID_STR));
    assert!(claims_fourcc(b"dtsc"));
    assert!(claims_fourcc(b"DtSc"));
    assert!(!claims_fourcc(b"dtsh"));
    assert!(!claims_fourcc(b"\0ts "));
}

#[test]
fn send_packet_eagerly_parses_header() {
    let mut handle = handle();
    handle.send_packet(&REAL_DTS_FRAME_HEADER, None).unwrap();
    let hdr = handle.last_header().expect("header must be cached");
    assert_eq!(hdr.frame_size_bytes, 1024);
    assert_eq!(hdr.sfreq_index, 13);
    assert_eq!(hdr.rate_index, 15);
    assert_eq!(hdr.version, 7);
    assert_eq!(hdr.dialog_normalization, 0);
    assert_eq!(hdr.source_pcm_resolution_index, 0);
}

#[test]
fn send_packet_surfaces_no_sync_as_invalid_data() {
    let mut handle = handle();
    let err = handle
        .send_packet(
            &[0xDE, 0xAD, 0xBE, 0xEF, 0, 0, 0, 0, 0, 0, 0, 0, 0, 0, 0, 0],
            None,
        )
        .unwrap_err();
    assert_eq!(error_class(&err), ErrorClass::InvalidData);
}

#[test]
fn send_packet_surfaces_short_buffer_as_need_more() {
    let mut handle = handle();
    let err = handle.send_packet(&[0x7F, 0xFE, 0x80], None).unwrap_err();
    assert_eq!(error_class(&err), ErrorClass::NeedMore);
}

#[test]
fn receive_frame_returns_unsupported_after_header_parse() {
    let mut handle = handle();
    handle.send_packet(&REAL_DTS_FRAME_HEADER, None).unwrap();
    let err = receive(&mut handle).unwrap_err();
    assert_eq!(err, ReceiveError::BadFrame(Error::UnexpectedEof));
}

#[test]
fn receive_frame_returns_need_more_without_packet() {
    let mut handle = handle();
    assert_eq!(receive(&mut handle).unwrap_err(), ReceiveError::NeedMore);
}

#[test]
fn receive_frame_returns_eof_after_flush_without_packet() {
    let mut handle = handle();
    handle.flush();
    assert_eq!(receive(&mut handle).unwrap_err(), ReceiveError::Eof);
}

#[test]
fn reset_clears_cached_header() {
    let mut handle = handle();
    handle.send_packet(&REAL_DTS_FRAME_HEADER, Some(9)).unwrap();
    assert!(handle.last_header().is_some());
    handle.flush();
    handle.reset();
    assert!(handle.last_header().is_none());
    assert_eq!(handle.last_pts(), 0);
    assert_eq!(receive(&mut handle).unwrap_err(), ReceiveError::NeedMore);
}

#[test]
fn receive_frame_decodes_common_core_case_to_audio() {
    let mut handle = handle();
    handle.send_packet(&one_channel_frame(), None).unwrap();
    let a = receive(&mut handle).expect("common Core case must decode");
    assert_eq!(a.data.len(), 1);
    assert_eq!(a.samples, 256);
    assert_eq!(a.data[0].len(), 256 * 4);
    assert!(a.data[0].iter().all(|&b| b == 0));
}

#[test]
fn a_stream_runs_on_from_frame_to_frame() {
    let frame = one_channel_frame();
    let mut handle = handle();
    handle.send_packet(&frame, Some(42)).unwrap();
    assert_eq!(handle.last_pts(), 42);
    let out = receive(&mut handle).unwrap();
    assert_eq!((out.pts, out.data[0][0]), (42, 0));
    assert_eq!(receive(&mut handle), Err(ReceiveError::NeedMore));

    handle.send_packet(&frame, None).unwrap();
    let out = receive(&mut handle).unwrap();
    assert_eq!((out.pts, out.data[0][0]), (0, 1));

    // A frame whose audio cannot be read ends the stream.
    let mut broken = frame.clone();
    broken[25] ^= 0xff;
    handle.send_packet(&broken, None).unwrap();
    assert!(matches!(
        receive(&mut handle),
        Err(ReceiveError::Decode(CoreFrameDecodeError::Decode(
            SubframePcmError::AudioData(_)
        )))
    ));
    handle.send_packet(&frame, None).unwrap();
    assert_eq!(receive(&mut handle).unwrap().data[0][0], 0);

    // A frame whose audio coding header cannot be read does not.
    handle.send_packet(&frame[..20], None).unwrap();
    assert_eq!(
        receive(&mut handle),
        Err(ReceiveError::BadFrame(Error::UnexpectedEof))
    );
    handle.send_packet(&frame, None).unwrap();
    assert_eq!(receive(&mut handle).unwrap().data[0][0], 1);

    handle.reset();
    handle.send_packet(&frame, None).unwrap();
    assert_eq!(receive(&mut handle).unwrap().data[0][0], 0);
}

#[test]
fn packed_packets_give_the_frames_of_raw_ones() {
    let frame = one_channel_frame();
    let mut raw = handle();
    raw.send_packet(&frame, Some(3)).unwrap();
    let want = receive(&mut raw).unwrap();
    for order in [
        FourteenBitByteOrder::BigEndian,
        FourteenBitByteOrder::LittleEndian,
    ] {
        let (packed, _bits) = pack_16bit_to_14bit(&frame, order);
        let mut handle = handle();
        handle.send_packet(&packed, Some(3)).unwrap();
        assert_eq!(
            handle.last_header().unwrap().sync_word_encoding,
            SyncWordEncoding::RawBigEndian
        );
        assert_eq!(receive(&mut handle).unwrap(), want);
    }
}

#[test]
fn the_low_frequency_plane_comes_last() {
    let mut header = parse_frame_header(&REAL_DTS_FRAME_HEADER).unwrap();
    header.dynamic_range = false;
    header.aspf = false;
    header.lfe = LfeMode::Mode1;
    let mut frame = encode_frame_header_be(&header).unwrap();
    let plain = one_channel_frame();
    frame.extend_from_slice(&plain[frame.len()..]);
    let mut handle = handle();
    handle.send_packet(&frame, None).unwrap();
    let out = receive(&mut handle).unwrap();
    assert_eq!(out.data.len(), 2);
    assert_eq!(out.samples, 256);
    assert_eq!(out.data[1].len(), 1024);
    assert_eq!(out.data[1][..4], [1, 0, 0, 0]);
}

#[test]
fn a_failed_packet_leaves_the_handle_as_it_was() {
    let frame = one_channel_frame();
    let mut handle = handle();
    handle.send_packet(&frame, Some(5)).unwrap();
    assert!(handle.send_packet(&[0u8; 32], Some(6)).is_err());
    assert_eq!(handle.last_pts(), 5);
    assert!(handle.last_header().is_some());
}

#[test]
fn channel_count_comes_from_the_audio_coding_header() {
    let frame = one_channel_frame();
    let header = parse_frame_header(&frame).unwrap();
    assert_eq!(frame_channel_count(&frame, &header), Ok(1));
    assert_eq!(
        frame_channel_count(&REAL_DTS_FRAME_HEADER, &header),
        Err(Error::UnexpectedEof)
    );
}

#[test]
fn error_classes_cover_every_report() {
    assert_eq!(error_class(&Error::UnexpectedEof), ErrorClass::NeedMore);
    assert_eq!(
        error_class(&Error::UnsupportedFourteenBit),
        ErrorClass::Unsupported
    );
    assert_eq!(
        error_class(&Error::UnsupportedRaw16Bit),
        ErrorClass::Unsupported
    );
    assert_eq!(error_class(&Error::NoSync), ErrorClass::InvalidData);
    assert_eq!(
        error_class(&Error::DsyncMismatch {
            found: 0,
            n_subsubframe: 0
        }),
        ErrorClass::InvalidData
    );
}

#[test]
fn planes_are_little_endian_with_the_lfe_last() {
    let pcm = vec![vec![1, -1], vec![i32::MIN, i32::MAX]];
    let (samples, data) = planar_s32(&pcm, &vec![0x0102_0304]);
    assert_eq!(samples, 2);
    assert_eq!(data.len(), 3);
    assert_eq!(data[0], vec![1, 0, 0, 0, 0xff, 0xff, 0xff, 0xff]);
    assert_eq!(data[1], vec![0, 0, 0, 0x80, 0xff, 0xff, 0xff, 0x7f]);
    assert_eq!(data[2], vec![4, 3, 2, 1]);
    for (plane, bytes) in pcm.iter().zip(&data) {
        let want: Vec<u8> = plane.iter().flat_map(|v| v.to_le_bytes()).collect();
        assert_eq!(bytes, &want);
    }
    let (samples, data) = planar_s32(&pcm, &Vec::new());
    assert_eq!((samples, data.len()), (2, 2));
    let (samples, data) = planar_s32(&Vec::new(), &Vec::new());
    assert_eq!((samples, data.len()), (0, 0));
}
