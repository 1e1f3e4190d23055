//! Laws on the frame header: which bytes open a frame, where each field stands, and
//! which headers can be read and written.

use crate::bits::{field, flag, lemma_field_bound, swapped};
use crate::error::Error;
use crate::header::{DtsFrameHeader, FrameType, LfeMode, SyncWordEncoding};
use crate::header_codec::{encode_error, header_in, parsed, parsed_14bit, sync_of, with_sync};
use vstd::arithmetic::power2::lemma2_to64;
use vstd::prelude::*;

verus! {

/// The 16-bit word of the bytes `a` and `b`, the upper byte first, without its two
/// upper bits.
pub open spec fn payload_of(a: u8, b: u8) -> int {
    (256 * a + b) % 16384
}

/// Which sequence opens a frame: the sync word in its bytes, the sync word with the
/// bytes of each word exchanged, or, in at least six bytes, the sync word in the lower
/// 14 bits of words of either byte order.
pub proof fn law_sync_sequences(s: Seq<u8>)
    ensures
        s.len() < 4 ==> sync_of(s) == Err::<SyncWordEncoding, Error>(Error::UnexpectedEof),
        s.len() >= 4 ==> {
            let big: bool = s[0] == 0x7F && s[1] == 0xFE && s[2] == 0x80 && s[3] == 0x01;
            let little: bool = s[0] == 0xFE && s[1] == 0x7F && s[2] == 0x01 && s[3] == 0x80;
            let packed_big: bool = s.len() >= 6 && payload_of(s[0], s[1]) == 0x1FFF && payload_of(
                s[2],
                s[3],
            ) == 0x2800 && payload_of(s[4], s[5]) / 1024 == 1;
            let packed_little: bool = s.len() >= 6 && payload_of(s[1], s[0]) == 0x1FFF
                && payload_of(s[3], s[2]) == 0x2800 && payload_of(s[5], s[4]) / 1024 == 1;
            &&& big <==> sync_of(s) == Ok::<SyncWordEncoding, Error>(SyncWordEncoding::RawBigEndian)
            &&& little <==> sync_of(s) == Ok::<SyncWordEncoding, Error>(
                SyncWordEncoding::RawLittleEndian,
            )
            &&& packed_big <==> sync_of(s) == Ok::<SyncWordEncoding, Error>(
                SyncWordEncoding::FourteenBitBigEndian,
            )
            &&& packed_little <==> sync_of(s) == Ok::<SyncWordEncoding, Error>(
                SyncWordEncoding::FourteenBitLittleEndian,
            )
            &&& !big && !little && !packed_big && !packed_little <==> sync_of(s) == Err::<
                SyncWordEncoding,
                Error,
            >(Error::NoSync)
        },
{
    if s.len() >= 6 {
        let t: Seq<u8> = swapped(s);
        assert(t[0] == s[1] && t[1] == s[0] && t[2] == s[3] && t[3] == s[2] && t[4] == s[5] && t[5]
            == s[4]);
        lemma_payload(s[0], s[1]);
        lemma_payload(s[2], s[3]);
        lemma_payload(s[4], s[5]);
        lemma_payload(s[1], s[0]);
        lemma_payload(s[3], s[2]);
        lemma_payload(s[5], s[4]);
    }
}

/// The payload of a word by its bytes.
proof fn lemma_payload(a: u8, b: u8)
    ensures
        payload_of(a, b) == 256 * (a as int % 64) + b,
        payload_of(a, b) / 1024 == (a as int % 64) / 4,
{
    let q: int = a as int / 64;
    let r: int = a as int % 64;
    let low: int = 256 * r + b;
    assert(a == 64 * q + r && 0 <= r < 64);
    assert(256 * a + b == 16384 * q + low);
    assert(0 <= low < 16384);
    assert((16384 * q + low) % 16384 == low);
    let top: int = r / 4;
    assert(low == 1024 * top + (256 * (r % 4) + b));
    assert(low / 1024 == top);
}

/// Where the fields of a raw big-endian header stand, by their first bit and width.
/// The last seven fields stand behind the check word, where there is one.
pub proof fn law_header_fields_stand_in_order(s: Seq<u8>, h: DtsFrameHeader)
    requires
        s.len() >= 4,
        s[0] == 0x7F && s[1] == 0xFE && s[2] == 0x80 && s[3] == 0x01,
        parsed(s) == Ok::<DtsFrameHeader, Error>(h),
    ensures
        h.sync_word_encoding == SyncWordEncoding::RawBigEndian,
        h.frame_type == (if field(s, 32, 1) == 1 {
            FrameType::Normal
        } else {
            FrameType::Termination
        }),
        h.sample_count_per_block == field(s, 33, 5) + 1,
        h.crc_present == (field(s, 38, 1) == 1),
        h.blocks_per_frame == field(s, 39, 7),
        h.frame_size_bytes == field(s, 46, 14) + 1,
        h.amode == field(s, 60, 6),
        h.sfreq_index == field(s, 66, 4),
        h.rate_index == field(s, 70, 5),
        h.downmix == (field(s, 75, 1) == 1),
        h.dynamic_range == (field(s, 76, 1) == 1),
        h.time_stamp == (field(s, 77, 1) == 1),
        h.aux_data == (field(s, 78, 1) == 1),
        h.hdcd == (field(s, 79, 1) == 1),
        h.ext_descr == field(s, 80, 3),
        h.ext_coding == (field(s, 83, 1) == 1),
        h.aspf == (field(s, 84, 1) == 1),
        h.lfe == (match field(s, 85, 2) as u8 {
            0 => LfeMode::Absent,
            1 => LfeMode::Mode1,
            2 => LfeMode::Mode2,
            _ => LfeMode::Mode3,
        }),
        h.predictor_history == (field(s, 87, 1) == 1),
        h.header_crc is Some == h.crc_present,
        h.header_crc matches Some(crc) ==> crc == field(s, 88, 16),
        ({
            let at: int = if h.crc_present {
                104
            } else {
                88
            };
            &&& h.multirate_inter == (field(s, at, 1) == 1)
            &&& h.version == field(s, at + 1, 4)
            &&& h.copy_history == field(s, at + 5, 2)
            &&& h.source_pcm_resolution_index == field(s, at + 7, 3)
            &&& h.front_sum == (field(s, at + 10, 1) == 1)
            &&& h.surround_sum == (field(s, at + 11, 1) == 1)
            &&& h.dialog_normalization == field(s, at + 12, 4)
        }),
{
    reveal(header_in);
    reveal(flag);
    lemma2_to64();
    let at: int = if flag(s, 38) {
        104
    } else {
        88
    };
    lemma_field_bound(s, 33, 5);
    lemma_field_bound(s, 39, 7);
    lemma_field_bound(s, 46, 14);
    lemma_field_bound(s, 60, 6);
    lemma_field_bound(s, 66, 4);
    lemma_field_bound(s, 70, 5);
    lemma_field_bound(s, 80, 3);
    lemma_field_bound(s, 85, 2);
    lemma_field_bound(s, 88, 16);
    lemma_field_bound(s, at + 1, 4);
    lemma_field_bound(s, at + 5, 2);
    lemma_field_bound(s, at + 7, 3);
    lemma_field_bound(s, at + 12, 4);
}

/// Which raw big-endian headers are read: those with 15 bytes, a block count code from
/// 5 on and at least 95 bytes; each of these is asked for in turn.
pub proof fn law_which_headers_are_read(s: Seq<u8>)
    requires
        s.len() >= 4,
        s[0] == 0x7F && s[1] == 0xFE && s[2] == 0x80 && s[3] == 0x01,
    ensures
        s.len() < 15 <==> parsed(s) == Err::<DtsFrameHeader, Error>(Error::UnexpectedEof),
        s.len() >= 15 && field(s, 39, 7) < 5 ==> parsed(s) == Err::<DtsFrameHeader, Error>(
            Error::BlockCountOutOfRange { blocks: field(s, 39, 7) as u8 },
        ),
        s.len() >= 15 && field(s, 39, 7) >= 5 && field(s, 46, 14) < 94 ==> parsed(s) == Err::<
            DtsFrameHeader,
            Error,
        >(Error::FrameSizeOutOfRange { frame_size: (field(s, 46, 14) + 1) as u16 }),
        parsed(s) is Ok <==> s.len() >= 15 && field(s, 39, 7) >= 5 && field(s, 46, 14) >= 94,
{
}

/// A raw little-endian header is the big-endian one with the bytes of each of its
/// first eight words exchanged, but for its encoding.
pub proof fn law_little_endian_exchanges_bytes(s: Seq<u8>, t: Seq<u8>)
    requires
        s.len() >= 16,
        s[0] == 0xFE && s[1] == 0x7F && s[2] == 0x01 && s[3] == 0x80,
        t.len() == 16,
        forall|i: int|
            0 <= i < 16 ==> #[trigger] t[i] == (if i % 2 == 0 {
                s[i + 1]
            } else {
                s[i - 1]
            }),
    ensures
        match parsed(t) {
            Ok(h) => parsed(s) == Ok::<DtsFrameHeader, Error>(
                DtsFrameHeader { sync_word_encoding: SyncWordEncoding::RawLittleEndian, ..h },
            ),
            Err(e) => parsed(s) == Err::<DtsFrameHeader, Error>(e),
        },
{
    let u: Seq<u8> = swapped(s.subrange(0, 16));
    assert(u =~= t);
    assert(t[0] == u[0] && t[1] == u[1] && t[2] == u[2] && t[3] == u[3]);
    assert(header_in(t, SyncWordEncoding::RawLittleEndian) == with_sync(
        header_in(t, SyncWordEncoding::RawBigEndian),
        SyncWordEncoding::RawLittleEndian,
    )) by {
        reveal(header_in);
    }
}

/// A raw header that is too short for a little-endian frame, a packed frame and what
/// opens none are told apart by their errors.
pub proof fn law_other_frames_are_refused(s: Seq<u8>)
    ensures
        sync_of(s) matches Err(e) ==> parsed(s) == Err::<DtsFrameHeader, Error>(e)
            && parsed_14bit(s) == Err::<DtsFrameHeader, Error>(e),
        sync_of(s) == Ok::<SyncWordEncoding, Error>(SyncWordEncoding::RawLittleEndian) && s.len()
            < 16 ==> parsed(s) == Err::<DtsFrameHeader, Error>(Error::UnexpectedEof),
        sync_of(s) == Ok::<SyncWordEncoding, Error>(SyncWordEncoding::FourteenBitBigEndian)
            || sync_of(s) == Ok::<SyncWordEncoding, Error>(
            SyncWordEncoding::FourteenBitLittleEndian,
        ) ==> parsed(s) == Err::<DtsFrameHeader, Error>(Error::UnsupportedFourteenBit) && (s.len()
            < 18 || s.len() % 2 == 1 ==> parsed_14bit(s) == Err::<DtsFrameHeader, Error>(
            Error::UnexpectedEof,
        )),
        sync_of(s) == Ok::<SyncWordEncoding, Error>(SyncWordEncoding::RawBigEndian) || sync_of(s)
            == Ok::<SyncWordEncoding, Error>(SyncWordEncoding::RawLittleEndian) ==> parsed_14bit(s)
            == Err::<DtsFrameHeader, Error>(Error::NoSync),
{
}

/// Which headers can be written: those whose fields fit in their bits, are in range,
/// and have a check word exactly where the header says so.
pub proof fn law_which_headers_are_written(h: DtsFrameHeader)
    ensures
        encode_error(h) is None <==> {
            &&& 5 <= h.blocks_per_frame <= 127
            &&& 95 <= h.frame_size_bytes <= 16384
            &&& 1 <= h.sample_count_per_block <= 32
            &&& h.amode <= 63
            &&& h.sfreq_index <= 15
            &&& h.rate_index <= 31
            &&& h.ext_descr <= 7
            &&& h.version <= 15
            &&& h.copy_history <= 3
            &&& h.source_pcm_resolution_index <= 7
            &&& h.dialog_normalization <= 15
            &&& h.crc_present == (h.header_crc is Some)
        },
{
}

/// All fields of a header can be written, but for at most the one of number `k`, counted
/// from the block count on in the order in which they are asked for.
pub open spec fn written_but_for(h: DtsFrameHeader, k: int) -> bool {
    &&& (5 <= h.blocks_per_frame <= 127) || k == 0
    &&& (95 <= h.frame_size_bytes <= 16384) || k == 1
    &&& (1 <= h.sample_count_per_block <= 32) || k == 2
    &&& h.amode <= 63 || k == 3
    &&& h.sfreq_index <= 15 || k == 4
    &&& h.rate_index <= 31 || k == 5
    &&& h.ext_descr <= 7 || k == 6
    &&& h.version <= 15 || k == 7
    &&& h.copy_history <= 3 || k == 8
    &&& h.source_pcm_resolution_index <= 7 || k == 9
    &&& h.dialog_normalization <= 15 || k == 10
    &&& (h.crc_present == (h.header_crc is Some)) || k == 11
}

/// A header with one field that cannot be written is refused with the name of that field,
/// its value and the largest value that it may have; the block count and the frame size
/// have errors of their own.
pub proof fn law_what_a_write_refusal_names(h: DtsFrameHeader)
    ensures
        written_but_for(h, 0) && !(5 <= h.blocks_per_frame <= 127) ==> encode_error(h) == Some(
            Error::BlockCountOutOfRange { blocks: h.blocks_per_frame },
        ),
        written_but_for(h, 1) && !(95 <= h.frame_size_bytes <= 16384) ==> encode_error(h) == Some(
            Error::FrameSizeOutOfRange { frame_size: h.frame_size_bytes },
        ),
        written_but_for(h, 2) && !(1 <= h.sample_count_per_block <= 32) ==> encode_error(h) == Some(
            Error::FieldOutOfRange {
                field: "sample_count_per_block",
                value: h.sample_count_per_block as u32,
                max: 32,
            },
        ),
        written_but_for(h, 3) && h.amode > 63 ==> encode_error(h) == Some(
            Error::FieldOutOfRange {
                field: "amode",
                value: h.amode as u32,
                max: 63,
            },
        ),
        written_but_for(h, 4) && h.sfreq_index > 15 ==> encode_error(h) == Some(
            Error::FieldOutOfRange {
                field: "sfreq_index",
                value: h.sfreq_index as u32,
                max: 15,
            },
        ),
        written_but_for(h, 5) && h.rate_index > 31 ==> encode_error(h) == Some(
            Error::FieldOutOfRange {
                field: "rate_index",
                value: h.rate_index as u32,
                max: 31,
            },
        ),
        written_but_for(h, 6) && h.ext_descr > 7 ==> encode_error(h) == Some(
            Error::FieldOutOfRange {
                field: "ext_descr",
                value: h.ext_descr as u32,
                max: 7,
            },
        ),
        written_but_for(h, 7) && h.version > 15 ==> encode_error(h) == Some(
            Error::FieldOutOfRange {
                field: "version",
                value: h.version as u32,
                max: 15,
            },
        ),
        written_but_for(h, 8) && h.copy_history > 3 ==> encode_error(h) == Some(
            Error::FieldOutOfRange {
                field: "copy_history",
                value: h.copy_history as u32,
                max: 3,
            },
        ),
        written_but_for(h, 9) && h.source_pcm_resolution_index > 7 ==> encode_error(h) == Some(
            Error::FieldOutOfRange {
                field: "source_pcm_resolution_index",
                value: h.source_pcm_resolution_index as u32,
                max: 7,
            },
        ),
        written_but_for(h, 10) && h.dialog_normalization > 15 ==> encode_error(h) == Some(
            Error::FieldOutOfRange {
                field: "dialog_normalization",
                value: h.dialog_normalization as u32,
                max: 15,
            },
        ),
        written_but_for(h, 11) && h.crc_present && h.header_crc is None ==> encode_error(h) == Some(
            Error::FieldOutOfRange { field: "header_crc", value: 0, max: 0 },
        ),
        written_but_for(h, 11) && !h.crc_present && h.header_crc is Some ==> encode_error(h)
            == Some(
            Error::FieldOutOfRange {
                field: "header_crc",
                value: h.header_crc.unwrap() as u32,
                max: 0,
            },
        ),
{
}

/// Where several fields cannot be written, the first of them in this order is named: the
/// block count, the frame size, and then the fields in the order of the header.
pub proof fn law_first_misfit_is_named(h: DtsFrameHeader)
    ensures
        !(5 <= h.blocks_per_frame <= 127) ==> encode_error(h) matches Some(
            Error::BlockCountOutOfRange { .. },
        ),
        5 <= h.blocks_per_frame <= 127 && !(95 <= h.frame_size_bytes <= 16384) ==> encode_error(
            h,
        ) matches Some(Error::FrameSizeOutOfRange { .. }),
        5 <= h.blocks_per_frame <= 127 && 95 <= h.frame_size_bytes <= 16384 && encode_error(h)
            is Some ==> encode_error(h) matches Some(Error::FieldOutOfRange { .. }),
{
}

} // verus!
