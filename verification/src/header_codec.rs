//! Reading and writing the frame header in its four encodings.

use crate::bitreader::{field_at, flag_at};
use crate::bits::{
    bit, byte_bit, byte_of, bytes_of_bits, field, field_offset, fields_bits, flag,
    lemma_byte_bits_bound, lemma_byte_sum, lemma_field_bound, lemma_field_prefix,
    lemma_fields_bits_len, lemma_packed_field, pack_fields, swapped, zero_padded,
};
use crate::error::Error;
use crate::header::{DtsFrameHeader, FrameType, LfeMode, SyncWordEncoding};
use crate::unpack14::{
    big_endian_words, lemma_same_byte, pack_16bit_to_14bit, packed, payload_bits,
    unpack_14bit_to_16bit, unpacked, FourteenBitByteOrder,
};
use vstd::arithmetic::power2::*;
use vstd::prelude::*;
use vstd::slice::slice_subrange;

verus! {

/// The 32-bit sync word.
pub const SYNC_WORD: u32 = 0x7FFE_8001;

/// `7F FE 80 01` at the start.
pub open spec fn raw_big_endian_sync(s: Seq<u8>) -> bool {
    s[0] == 0x7F && s[1] == 0xFE && s[2] == 0x80 && s[3] == 0x01
}

/// `FE 7F 01 80` at the start.
pub open spec fn raw_little_endian_sync(s: Seq<u8>) -> bool {
    s[0] == 0xFE && s[1] == 0x7F && s[2] == 0x01 && s[3] == 0x80
}

/// The sync word in the payload of the first three big-endian container words.
/// The two upper bits of a word do not count.
pub open spec fn packed_sync(words: Seq<u8>) -> bool {
    &&& words[0] as int % 64 == 0x1F
    &&& words[1] == 0xFF
    &&& words[2] as int % 64 == 0x28
    &&& words[3] == 0
    &&& (words[4] as int % 64) / 4 == 1
}

/// Which sync sequence stands at the start of `s`.
pub open spec fn sync_of(s: Seq<u8>) -> Result<SyncWordEncoding, Error> {
    if s.len() < 4 {
        Err(Error::UnexpectedEof)
    } else if raw_big_endian_sync(s) {
        Ok(SyncWordEncoding::RawBigEndian)
    } else if raw_little_endian_sync(s) {
        Ok(SyncWordEncoding::RawLittleEndian)
    } else if s.len() >= 6 && packed_sync(s) {
        Ok(SyncWordEncoding::FourteenBitBigEndian)
    } else if s.len() >= 6 && packed_sync(swapped(s)) {
        Ok(SyncWordEncoding::FourteenBitLittleEndian)
    } else {
        Err(Error::NoSync)
    }
}

/// The header fields that stand in the bits of `s`, behind a big-endian sync word.
#[verifier::opaque]
pub open spec fn header_in(s: Seq<u8>, sync: SyncWordEncoding) -> DtsFrameHeader {
    let crc: bool = flag(s, 38);
    let tail: int = if crc {
        104
    } else {
        88
    };
    DtsFrameHeader {
        sync_word_encoding: sync,
        frame_type: if flag(s, 32) {
            FrameType::Normal
        } else {
            FrameType::Termination
        },
        sample_count_per_block: (field(s, 33, 5) + 1) as u8,
        crc_present: crc,
        blocks_per_frame: field(s, 39, 7) as u8,
        frame_size_bytes: (field(s, 46, 14) + 1) as u16,
        amode: field(s, 60, 6) as u8,
        sfreq_index: field(s, 66, 4) as u8,
        rate_index: field(s, 70, 5) as u8,
        downmix: flag(s, 75),
        dynamic_range: flag(s, 76),
        time_stamp: flag(s, 77),
        aux_data: flag(s, 78),
        hdcd: flag(s, 79),
        ext_descr: field(s, 80, 3) as u8,
        ext_coding: flag(s, 83),
        aspf: flag(s, 84),
        lfe: LfeMode::of_code(field(s, 85, 2)),
        predictor_history: flag(s, 87),
        header_crc: if crc {
            Some(field(s, 88, 16) as u16)
        } else {
            None
        },
        multirate_inter: flag(s, tail),
        version: field(s, tail + 1, 4) as u8,
        copy_history: field(s, tail + 5, 2) as u8,
        source_pcm_resolution_index: field(s, tail + 7, 3) as u8,
        front_sum: flag(s, tail + 10),
        surround_sum: flag(s, tail + 11),
        dialog_normalization: field(s, tail + 12, 4) as u8,
    }
}

/// The header in the bits of `s`, or the first bound that it breaks.
pub open spec fn checked_header_in(s: Seq<u8>, sync: SyncWordEncoding) -> Result<
    DtsFrameHeader,
    Error,
> {
    if s.len() < 15 {
        Err(Error::UnexpectedEof)
    } else if field(s, 39, 7) < 5 {
        Err(Error::BlockCountOutOfRange { blocks: field(s, 39, 7) as u8 })
    } else if field(s, 46, 14) + 1 < 95 {
        Err(Error::FrameSizeOutOfRange { frame_size: (field(s, 46, 14) + 1) as u16 })
    } else {
        Ok(header_in(s, sync))
    }
}

/// What a raw 16-bit frame's header says, or why it cannot be read.
pub open spec fn parsed(s: Seq<u8>) -> Result<DtsFrameHeader, Error> {
    match sync_of(s) {
        Err(e) => Err(e),
        Ok(SyncWordEncoding::RawBigEndian) => checked_header_in(
            s,
            SyncWordEncoding::RawBigEndian,
        ),
        Ok(SyncWordEncoding::RawLittleEndian) => if s.len() < 16 {
            Err(Error::UnexpectedEof)
        } else {
            checked_header_in(swapped(s.subrange(0, 16)), SyncWordEncoding::RawLittleEndian)
        },
        Ok(_) => Err(Error::UnsupportedFourteenBit),
    }
}

/// `h` with another sync encoding.
pub open spec fn with_sync(h: DtsFrameHeader, sync: SyncWordEncoding) -> DtsFrameHeader {
    DtsFrameHeader { sync_word_encoding: sync, ..h }
}

/// What a 14-bit container frame's header says, or why it cannot be read.
pub open spec fn parsed_14bit(s: Seq<u8>) -> Result<DtsFrameHeader, Error> {
    match sync_of(s) {
        Err(e) => Err(e),
        Ok(sync) => match FourteenBitByteOrder::of_sync(sync) {
            None => Err(Error::NoSync),
            Some(order) => if s.len() < 18 || s.len() % 2 == 1 {
                Err(Error::UnexpectedEof)
            } else {
                checked_header_in(unpacked(s, order), sync)
            },
        },
    }
}

/// A flag as the number that is written for it.
pub open spec fn flag_value(b: bool) -> u32 {
    if b {
        1
    } else {
        0
    }
}

/// Entry `k` of the fields before the header check word: value and width.
pub open spec fn head_field(h: DtsFrameHeader, k: int) -> (u32, u32) {
    if k == 0 {
        (SYNC_WORD, 32)
    } else if k == 1 {
        (flag_value(h.frame_type == FrameType::Normal), 1)
    } else if k == 2 {
        ((h.sample_count_per_block - 1) as u32, 5)
    } else if k == 3 {
        (flag_value(h.crc_present), 1)
    } else if k == 4 {
        (h.blocks_per_frame as u32, 7)
    } else if k == 5 {
        ((h.frame_size_bytes - 1) as u32, 14)
    } else if k == 6 {
        (h.amode as u32, 6)
    } else if k == 7 {
        (h.sfreq_index as u32, 4)
    } else if k == 8 {
        (h.rate_index as u32, 5)
    } else if k == 9 {
        (flag_value(h.downmix), 1)
    } else if k == 10 {
        (flag_value(h.dynamic_range), 1)
    } else if k == 11 {
        (flag_value(h.time_stamp), 1)
    } else if k == 12 {
        (flag_value(h.aux_data), 1)
    } else if k == 13 {
        (flag_value(h.hdcd), 1)
    } else if k == 14 {
        (h.ext_descr as u32, 3)
    } else if k == 15 {
        (flag_value(h.ext_coding), 1)
    } else if k == 16 {
        (flag_value(h.aspf), 1)
    } else if k == 17 {
        (h.lfe.code_of() as u32, 2)
    } else {
        (flag_value(h.predictor_history), 1)
    }
}

/// Entry `k` of the fields behind the header check word: value and width.
pub open spec fn tail_field(h: DtsFrameHeader, k: int) -> (u32, u32) {
    if k == 0 {
        (flag_value(h.multirate_inter), 1)
    } else if k == 1 {
        (h.version as u32, 4)
    } else if k == 2 {
        (h.copy_history as u32, 2)
    } else if k == 3 {
        (h.source_pcm_resolution_index as u32, 3)
    } else if k == 4 {
        (flag_value(h.front_sum), 1)
    } else if k == 5 {
        (flag_value(h.surround_sum), 1)
    } else {
        (h.dialog_normalization as u32, 4)
    }
}

/// The number of fields that stand before the last seven.
pub open spec fn tail_index(h: DtsFrameHeader) -> int {
    if h.header_crc is Some {
        20
    } else {
        19
    }
}

/// The fields of a written header with their widths, in order: 19 fields, the
/// check word where there is one, and seven more.
pub open spec fn header_fields(h: DtsFrameHeader) -> Seq<(u32, u32)> {
    Seq::new(
        (tail_index(h) + 7) as nat,
        |k: int|
            if k < 19 {
                head_field(h, k)
            } else if k < tail_index(h) {
                (h.header_crc.unwrap() as u32, 16)
            } else {
                tail_field(h, k - tail_index(h))
            },
    )
}

/// The raw big-endian bytes of a header.
pub open spec fn encoded(h: DtsFrameHeader) -> Seq<u8> {
    bytes_of_bits(fields_bits(header_fields(h)))
}

/// The first field of `h` that cannot be written, if any.
pub open spec fn encode_error(h: DtsFrameHeader) -> Option<Error> {
    if h.blocks_per_frame < 5 || h.blocks_per_frame > 127 {
        Some(Error::BlockCountOutOfRange { blocks: h.blocks_per_frame })
    } else if h.frame_size_bytes < 95 || h.frame_size_bytes > 16384 {
        Some(Error::FrameSizeOutOfRange { frame_size: h.frame_size_bytes })
    } else if h.sample_count_per_block == 0 || h.sample_count_per_block > 32 {
        field_error("sample_count_per_block", h.sample_count_per_block as u32, 32)
    } else if h.amode > 63 {
        field_error("amode", h.amode as u32, 63)
    } else if h.sfreq_index > 15 {
        field_error("sfreq_index", h.sfreq_index as u32, 15)
    } else if h.rate_index > 31 {
        field_error("rate_index", h.rate_index as u32, 31)
    } else if h.ext_descr > 7 {
        field_error("ext_descr", h.ext_descr as u32, 7)
    } else if h.version > 15 {
        field_error("version", h.version as u32, 15)
    } else if h.copy_history > 3 {
        field_error("copy_history", h.copy_history as u32, 3)
    } else if h.source_pcm_resolution_index > 7 {
        field_error("source_pcm_resolution_index", h.source_pcm_resolution_index as u32, 7)
    } else if h.dialog_normalization > 15 {
        field_error("dialog_normalization", h.dialog_normalization as u32, 15)
    } else if h.crc_present != (h.header_crc is Some) {
        field_error(
            "header_crc",
            match h.header_crc {
                Some(crc) => crc as u32,
                None => 0,
            },
            0,
        )
    } else {
        None
    }
}

/// Whether every field of `h` can be written.
#[verifier::opaque]
pub open spec fn encodable(h: DtsFrameHeader) -> bool {
    encode_error(h) is None
}

/// The error for a field that does not fit.
pub open spec fn field_error(field: &'static str, value: u32, max: u32) -> Option<Error> {
    Some(Error::FieldOutOfRange { field, value, max })
}

/// Which sync sequence stands at the start of `bytes`.
pub fn detect_sync(bytes: &[u8]) -> (r: Result<SyncWordEncoding, Error>)
    ensures
        r == sync_of(bytes@),
{
    if bytes.len() < 4 {
        return Err(Error::UnexpectedEof);
    }
    if bytes[0] == 0x7F && bytes[1] == 0xFE && bytes[2] == 0x80 && bytes[3] == 0x01 {
        return Ok(SyncWordEncoding::RawBigEndian);
    }
    if bytes[0] == 0xFE && bytes[1] == 0x7F && bytes[2] == 0x01 && bytes[3] == 0x80 {
        return Ok(SyncWordEncoding::RawLittleEndian);
    }
    if bytes.len() >= 6 {
        if bytes[0] % 64 == 0x1F && bytes[1] == 0xFF && bytes[2] % 64 == 0x28 && bytes[3] == 0 && (
        bytes[4] % 64) / 4 == 1 {
            return Ok(SyncWordEncoding::FourteenBitBigEndian);
        }
        if bytes[1] % 64 == 0x1F && bytes[0] == 0xFF && bytes[3] % 64 == 0x28 && bytes[2] == 0 && (
        bytes[5] % 64) / 4 == 1 {
            return Ok(SyncWordEncoding::FourteenBitLittleEndian);
        }
    }
    Err(Error::NoSync)
}

/// Two headers with equal fields are equal, shown a few flags at a time.
pub proof fn lemma_header_ext(a: DtsFrameHeader, b: DtsFrameHeader)
    requires
        a.sync_word_encoding == b.sync_word_encoding,
        a.frame_type == b.frame_type,
        a.sample_count_per_block == b.sample_count_per_block,
        a.crc_present == b.crc_present,
        a.blocks_per_frame == b.blocks_per_frame,
        a.frame_size_bytes == b.frame_size_bytes,
        a.amode == b.amode,
        a.sfreq_index == b.sfreq_index,
        a.rate_index == b.rate_index,
        a.downmix == b.downmix,
        a.dynamic_range == b.dynamic_range,
        a.time_stamp == b.time_stamp,
        a.aux_data == b.aux_data,
        a.hdcd == b.hdcd,
        a.ext_descr == b.ext_descr,
        a.ext_coding == b.ext_coding,
        a.aspf == b.aspf,
        a.lfe == b.lfe,
        a.predictor_history == b.predictor_history,
        a.header_crc == b.header_crc,
        a.multirate_inter == b.multirate_inter,
        a.version == b.version,
        a.copy_history == b.copy_history,
        a.source_pcm_resolution_index == b.source_pcm_resolution_index,
        a.front_sum == b.front_sum,
        a.surround_sum == b.surround_sum,
        a.dialog_normalization == b.dialog_normalization,
    ensures
        a == b,
{
    let m1 = DtsFrameHeader {
        crc_present: b.crc_present,
        downmix: b.downmix,
        dynamic_range: b.dynamic_range,
        time_stamp: b.time_stamp,
        ..a
    };
    assert(m1 == a);
    let m2 = DtsFrameHeader {
        aux_data: b.aux_data,
        hdcd: b.hdcd,
        ext_coding: b.ext_coding,
        aspf: b.aspf,
        ..m1
    };
    assert(m2 == m1);
    let m3 = DtsFrameHeader {
        predictor_history: b.predictor_history,
        multirate_inter: b.multirate_inter,
        front_sum: b.front_sum,
        surround_sum: b.surround_sum,
        ..m2
    };
    assert(m3 == m2);
    assert(m3 == b);
}

/// A header whose fields are those in the bits of `s`.
proof fn lemma_header_read(s: Seq<u8>, sync: SyncWordEncoding, h: DtsFrameHeader)
    requires
        h.sync_word_encoding == sync,
        h.frame_type == (if flag(s, 32) {
            FrameType::Normal
        } else {
            FrameType::Termination
        }),
        h.sample_count_per_block == (field(s, 33, 5) + 1) as u8,
        h.crc_present == flag(s, 38),
        h.blocks_per_frame == field(s, 39, 7) as u8,
        h.frame_size_bytes == (field(s, 46, 14) + 1) as u16,
        h.amode == field(s, 60, 6) as u8,
        h.sfreq_index == field(s, 66, 4) as u8,
        h.rate_index == field(s, 70, 5) as u8,
        h.downmix == flag(s, 75),
        h.dynamic_range == flag(s, 76),
        h.time_stamp == flag(s, 77),
        h.aux_data == flag(s, 78),
        h.hdcd == flag(s, 79),
        h.ext_descr == field(s, 80, 3) as u8,
        h.ext_coding == flag(s, 83),
        h.aspf == flag(s, 84),
        h.lfe == LfeMode::of_code(field(s, 85, 2)),
        h.predictor_history == flag(s, 87),
        h.header_crc == (if h.crc_present {
            Some(field(s, 88, 16) as u16)
        } else {
            None
        }),
        ({
            let tail: int = if h.crc_present {
                104
            } else {
                88
            };
            &&& h.multirate_inter == flag(s, tail)
            &&& h.version == field(s, tail + 1, 4) as u8
            &&& h.copy_history == field(s, tail + 5, 2) as u8
            &&& h.source_pcm_resolution_index == field(s, tail + 7, 3) as u8
            &&& h.front_sum == flag(s, tail + 10)
            &&& h.surround_sum == flag(s, tail + 11)
            &&& h.dialog_normalization == field(s, tail + 12, 4) as u8
        }),
    ensures
        h == header_in(s, sync),
{
    reveal(header_in);
    lemma_header_ext(h, header_in(s, sync));
}

/// The flags and codes that stand between the rate code and the check word.
fn read_flags(window: &[u8]) -> (r: (bool, bool, bool, bool, bool, u8, bool, bool, LfeMode, bool))
    requires
        15 <= window@.len() <= 16,
    ensures
        r.0 == flag(window@, 75),
        r.1 == flag(window@, 76),
        r.2 == flag(window@, 77),
        r.3 == flag(window@, 78),
        r.4 == flag(window@, 79),
        r.5 == field(window@, 80, 3) as u8,
        r.6 == flag(window@, 83),
        r.7 == flag(window@, 84),
        r.8 == LfeMode::of_code(field(window@, 85, 2)),
        r.9 == flag(window@, 87),
{
    assert(field(window@, 85, 2) < 4) by {
        lemma2_to64();
        lemma_field_bound(window@, 85, 2);
    }
    (
        flag_at(window, 75),
        flag_at(window, 76),
        flag_at(window, 77),
        flag_at(window, 78),
        flag_at(window, 79),
        field_at(window, 80, 3) as u8,
        flag_at(window, 83),
        flag_at(window, 84),
        LfeMode::from_raw(field_at(window, 85, 2) as u8),
        flag_at(window, 87),
    )
}

/// The seven fields that stand behind the check word.
fn read_tail(window: &[u8], tail: usize) -> (r: (bool, u8, u8, u8, bool, bool, u8))
    requires
        15 <= window@.len() <= 16,
        tail + 16 <= 120,
    ensures
        r.0 == flag(window@, tail as int),
        r.1 == field(window@, tail + 1, 4) as u8,
        r.2 == field(window@, tail + 5, 2) as u8,
        r.3 == field(window@, tail + 7, 3) as u8,
        r.4 == flag(window@, tail + 10),
        r.5 == flag(window@, tail + 11),
        r.6 == field(window@, tail + 12, 4) as u8,
{
    (
        flag_at(window, tail),
        field_at(window, tail + 1, 4) as u8,
        field_at(window, tail + 5, 2) as u8,
        field_at(window, tail + 7, 3) as u8,
        flag_at(window, tail + 10),
        flag_at(window, tail + 11),
        field_at(window, tail + 12, 4) as u8,
    )
}

/// The header fields that stand in the first 15 bytes of `window`.
fn read_header(window: &[u8], sync: SyncWordEncoding) -> (r: DtsFrameHeader)
    requires
        15 <= window@.len() <= 16,
    ensures
        r == header_in(window@, sync),
{
    assert(field(window@, 46, 14) < 16384 && field(window@, 33, 5) < 32) by {
        lemma2_to64();
        lemma_field_bound(window@, 46, 14);
        lemma_field_bound(window@, 33, 5);
    }
    let crc_present: bool = flag_at(window, 38);
    let flags = read_flags(window);
    let tail = read_tail(
        window,
        if crc_present {
            104
        } else {
            88
        },
    );
    let header = DtsFrameHeader {
        sync_word_encoding: sync,
        frame_type: if flag_at(window, 32) {
            FrameType::Normal
        } else {
            FrameType::Termination
        },
        sample_count_per_block: (field_at(window, 33, 5) + 1) as u8,
        crc_present,
        blocks_per_frame: field_at(window, 39, 7) as u8,
        frame_size_bytes: (field_at(window, 46, 14) + 1) as u16,
        amode: field_at(window, 60, 6) as u8,
        sfreq_index: field_at(window, 66, 4) as u8,
        rate_index: field_at(window, 70, 5) as u8,
        downmix: flags.0,
        dynamic_range: flags.1,
        time_stamp: flags.2,
        aux_data: flags.3,
        hdcd: flags.4,
        ext_descr: flags.5,
        ext_coding: flags.6,
        aspf: flags.7,
        lfe: flags.8,
        predictor_history: flags.9,
        header_crc: if crc_present {
            Some(field_at(window, 88, 16) as u16)
        } else {
            None
        },
        multirate_inter: tail.0,
        version: tail.1,
        copy_history: tail.2,
        source_pcm_resolution_index: tail.3,
        front_sum: tail.4,
        surround_sum: tail.5,
        dialog_normalization: tail.6,
    };
    proof {
        lemma_header_read(window@, sync, header);
    }
    header
}

/// The header in `window`, or the first bound that it breaks.
fn read_checked_header(window: &[u8], sync: SyncWordEncoding) -> (r: Result<
    DtsFrameHeader,
    Error,
>)
    requires
        15 <= window@.len() <= 16,
    ensures
        r == checked_header_in(window@, sync),
{
    assert(field(window@, 39, 7) < 128 && field(window@, 46, 14) < 16384) by {
        lemma2_to64();
        lemma_field_bound(window@, 39, 7);
        lemma_field_bound(window@, 46, 14);
    }
    proof {
        reveal(header_in);
    }
    let header = read_header(window, sync);
    if header.blocks_per_frame < 5 {
        return Err(Error::BlockCountOutOfRange { blocks: header.blocks_per_frame });
    }
    if header.frame_size_bytes < 95 {
        return Err(Error::FrameSizeOutOfRange { frame_size: header.frame_size_bytes });
    }
    Ok(header)
}

proof fn lemma_same_header(a: Seq<u8>, b: Seq<u8>, sync: SyncWordEncoding)
    requires
        forall|pos: int, w: nat|
            0 <= pos && pos + w <= 120 ==> #[trigger] field(a, pos, w) == field(b, pos, w),
        forall|p: int| 0 <= p < 120 ==> #[trigger] flag(a, p) == flag(b, p),
    ensures
        header_in(a, sync) == header_in(b, sync),
{
    reveal(header_in);
    lemma_header_ext(header_in(a, sync), header_in(b, sync));
}

/// Only the first 15 bytes of a frame count for its header.
pub proof fn lemma_checked_header_prefix(a: Seq<u8>, b: Seq<u8>, sync: SyncWordEncoding)
    requires
        a.len() >= 15,
        b.len() >= 15,
        forall|i: int| 0 <= i < 15 ==> a[i] == b[i],
    ensures
        checked_header_in(a, sync) == checked_header_in(b, sync),
{
    lemma_field_prefix(a, b, 15);
    assert forall|p: int| 0 <= p < 120 implies #[trigger] flag(a, p) == flag(b, p) by {
        reveal(flag);
    }
    lemma_same_header(a, b, sync);
}

/// `bytes` with the bytes of every pair exchanged; its length is even.
fn swap_pairs(bytes: &[u8]) -> (r: Vec<u8>)
    requires
        bytes@.len() % 2 == 0,
    ensures
        r@ == swapped(bytes@),
{
    let mut out: Vec<u8> = Vec::new();
    let mut i: usize = 0;
    while i < bytes.len()
        invariant
            bytes@.len() % 2 == 0,
            i % 2 == 0,
            i <= bytes@.len(),
            out@.len() == i,
            forall|j: int| 0 <= j < i ==> out@[j] == swapped(bytes@)[j],
        decreases bytes@.len() - i,
    {
        out.push(bytes[i + 1]);
        out.push(bytes[i]);
        i = i + 2;
    }
    assert(out@ =~= swapped(bytes@));
    out
}

/// The header of a raw 16-bit frame.
pub fn parse_frame_header(bytes: &[u8]) -> (r: Result<DtsFrameHeader, Error>)
    ensures
        r == parsed(bytes@),
{
    let sync = detect_sync(bytes)?;
    match sync {
        SyncWordEncoding::FourteenBitBigEndian | SyncWordEncoding::FourteenBitLittleEndian => Err(
            Error::UnsupportedFourteenBit,
        ),
        SyncWordEncoding::RawBigEndian => {
            if bytes.len() < 15 {
                return Err(Error::UnexpectedEof);
            }
            let window: &[u8] = slice_subrange(bytes, 0, 15);
            proof {
                lemma_checked_header_prefix(window@, bytes@, sync);
            }
            read_checked_header(window, sync)
        },
        SyncWordEncoding::RawLittleEndian => {
            if bytes.len() < 16 {
                return Err(Error::UnexpectedEof);
            }
            let window: Vec<u8> = swap_pairs(slice_subrange(bytes, 0, 16));
            read_checked_header(window.as_slice(), sync)
        },
    }
}

/// The first 18 container bytes carry the first 15 payload bytes.
pub proof fn lemma_unpacked_prefix(s: Seq<u8>, order: FourteenBitByteOrder)
    requires
        s.len() >= 18,
        s.len() % 2 == 0,
    ensures
        unpacked(s, order).len() >= 15,
        unpacked(s.subrange(0, 18), order).len() == 16,
        forall|i: int|
            0 <= i < 15 ==> unpacked(s, order)[i] == unpacked(s.subrange(0, 18), order)[i],
{
    let t: Seq<u8> = s.subrange(0, 18);
    let a: Seq<bool> = payload_bits(s, order);
    let b: Seq<bool> = payload_bits(t, order);
    assert forall|i: int| 0 <= i < 126 implies a[i] == b[i] by {
        let src: int = 16 * (i / 14) + 2 + i % 14;
        assert(src / 8 < 18);
        assert(big_endian_words(s, order)[src / 8] == big_endian_words(t, order)[src / 8]);
    }
    assert forall|i: int| 0 <= i < 15 implies unpacked(s, order)[i] == unpacked(t, order)[i] by {
        lemma_same_byte(a, 8 * i, b, 8 * i);
    }
}

/// A packed sync sequence carries the raw big-endian one.
pub proof fn lemma_packed_sync_unpacks(s: Seq<u8>, order: FourteenBitByteOrder)
    requires
        s.len() >= 6,
        packed_sync(big_endian_words(s, order)),
    ensures
        raw_big_endian_sync(unpacked(s, order)),
{
    let w: Seq<u8> = big_endian_words(s, order);
    let b: Seq<bool> = payload_bits(s, order);
    lemma_sync_word_bits(w);
    assert forall|i: int| 0 <= i < 32 implies b[i] == (bit(w, 16 * (i / 14) + 2 + i % 14) == 1) by {
    }
    reveal(byte_of);
    assert(unpacked(s, order)[0] == byte_of(b, 0));
    assert(unpacked(s, order)[1] == byte_of(b, 8));
    assert(unpacked(s, order)[2] == byte_of(b, 16));
    assert(unpacked(s, order)[3] == byte_of(b, 24));
}

/// The payload bits of the container words that make up a packed sync sequence.
proof fn lemma_sync_word_bits(w: Seq<u8>)
    requires
        w.len() >= 5,
        packed_sync(w),
    ensures
        bit(w, 2) == 0,
        forall|i: int| 3 <= i < 16 ==> #[trigger] bit(w, i) == 1,
        bit(w, 18) == 1,
        bit(w, 19) == 0,
        bit(w, 20) == 1,
        forall|i: int| 21 <= i < 32 ==> #[trigger] bit(w, i) == 0,
        bit(w, 34) == 0,
        bit(w, 35) == 0,
        bit(w, 36) == 0,
        bit(w, 37) == 1,
{
    lemma_low_six_bits(w[0]);
    lemma_low_six_bits(w[2]);
    lemma_low_six_bits(w[4]);
    lemma_plain_bytes();
    assert(bit(w, 2) == byte_bit(w[0], 2));
    assert forall|i: int| 3 <= i < 16 implies #[trigger] bit(w, i) == 1 by {
        if i < 8 {
            assert(i / 8 == 0 && i % 8 == i);
        } else {
            assert(i / 8 == 1 && i % 8 == i - 8);
        }
    }
    assert(bit(w, 18) == byte_bit(w[2], 2));
    assert(bit(w, 19) == byte_bit(w[2], 3));
    assert(bit(w, 20) == byte_bit(w[2], 4));
    assert forall|i: int| 21 <= i < 32 implies #[trigger] bit(w, i) == 0 by {
        if i < 24 {
            assert(i / 8 == 2 && i % 8 == i - 16);
        } else {
            assert(i / 8 == 3 && i % 8 == i - 24);
        }
    }
    assert(bit(w, 34) == byte_bit(w[4], 2));
    assert(bit(w, 35) == byte_bit(w[4], 3));
    assert(bit(w, 36) == byte_bit(w[4], 4));
    assert(bit(w, 37) == byte_bit(w[4], 5));
}

/// The low six bits of the bytes that hold the upper part of a sync container.
proof fn lemma_low_six_bits(b: u8)
    ensures
        b as int % 64 == 0x1F ==> byte_bit(b, 2) == 0 && byte_bit(b, 3) == 1 && byte_bit(b, 4) == 1
            && byte_bit(b, 5) == 1 && byte_bit(b, 6) == 1 && byte_bit(b, 7) == 1,
        b as int % 64 == 0x28 ==> byte_bit(b, 2) == 1 && byte_bit(b, 3) == 0 && byte_bit(b, 4) == 1
            && byte_bit(b, 5) == 0 && byte_bit(b, 6) == 0 && byte_bit(b, 7) == 0,
        (b as int % 64) / 4 == 1 ==> byte_bit(b, 2) == 0 && byte_bit(b, 3) == 0 && byte_bit(b, 4)
            == 0 && byte_bit(b, 5) == 1,
{
    lemma_byte_sum(b);
    lemma_byte_bits_bound(b);
    let top: nat = 2 * byte_bit(b, 0) + byte_bit(b, 1);
    let low: nat = 32 * byte_bit(b, 2) + 16 * byte_bit(b, 3) + 8 * byte_bit(b, 4) + 4 * byte_bit(
        b,
        5,
    ) + 2 * byte_bit(b, 6) + byte_bit(b, 7);
    assert(b as int == 64 * top + low);
    assert(b as int % 64 == low);
}

pub proof fn lemma_plain_bytes()
    ensures
        forall|k: int| 0 <= k < 8 ==> #[trigger] byte_bit(0xFF, k) == 1,
        forall|k: int| 0 <= k < 8 ==> #[trigger] byte_bit(0, k) == 0,
{
    reveal(byte_bit);
}

/// The bit position behind the header check word, or where it would stand.
pub open spec fn header_tail(h: DtsFrameHeader) -> int {
    if h.header_crc is Some {
        104
    } else {
        88
    }
}

/// Every entry of the field list fits in its width.
proof fn lemma_fields_fit(h: DtsFrameHeader, k: int)
    requires
        encodable(h),
        0 <= k < header_fields(h).len(),
    ensures
        (header_fields(h)[k].0 as nat) < pow2(header_fields(h)[k].1 as nat),
{
    reveal(encodable);
    lemma2_to64();
}

/// Where the first 19 fields start.
pub proof fn lemma_head_offsets(h: DtsFrameHeader)
    ensures
        field_offset(header_fields(h), 0) == 0,
        field_offset(header_fields(h), 1) == 32,
        field_offset(header_fields(h), 2) == 33,
        field_offset(header_fields(h), 3) == 38,
        field_offset(header_fields(h), 4) == 39,
        field_offset(header_fields(h), 5) == 46,
        field_offset(header_fields(h), 6) == 60,
        field_offset(header_fields(h), 7) == 66,
        field_offset(header_fields(h), 8) == 70,
        field_offset(header_fields(h), 9) == 75,
        field_offset(header_fields(h), 10) == 76,
        field_offset(header_fields(h), 11) == 77,
        field_offset(header_fields(h), 12) == 78,
        field_offset(header_fields(h), 13) == 79,
        field_offset(header_fields(h), 14) == 80,
        field_offset(header_fields(h), 15) == 83,
        field_offset(header_fields(h), 16) == 84,
        field_offset(header_fields(h), 17) == 85,
        field_offset(header_fields(h), 18) == 87,
        field_offset(header_fields(h), 19) == 88,
{
    let fs: Seq<(u32, u32)> = header_fields(h);
    assert(field_offset(fs, 0) == 0);
    assert(field_offset(fs, 1) == 32);
    assert(field_offset(fs, 2) == 33);
    assert(field_offset(fs, 3) == 38);
    assert(field_offset(fs, 4) == 39);
    assert(field_offset(fs, 5) == 46);
    assert(field_offset(fs, 6) == 60);
    assert(field_offset(fs, 7) == 66);
    assert(field_offset(fs, 8) == 70);
    assert(field_offset(fs, 9) == 75);
    assert(field_offset(fs, 10) == 76);
    assert(field_offset(fs, 11) == 77);
    assert(field_offset(fs, 12) == 78);
    assert(field_offset(fs, 13) == 79);
    assert(field_offset(fs, 14) == 80);
    assert(field_offset(fs, 15) == 83);
    assert(field_offset(fs, 16) == 84);
    assert(field_offset(fs, 17) == 85);
    assert(field_offset(fs, 18) == 87);
    assert(field_offset(fs, 19) == 88);
}

/// Where the last seven fields start, and where the header ends.
pub proof fn lemma_tail_offsets(h: DtsFrameHeader)
    ensures
        field_offset(header_fields(h), (tail_index(h) + 0) as nat) == header_tail(h) + 0,
        field_offset(header_fields(h), (tail_index(h) + 1) as nat) == header_tail(h) + 1,
        field_offset(header_fields(h), (tail_index(h) + 2) as nat) == header_tail(h) + 5,
        field_offset(header_fields(h), (tail_index(h) + 3) as nat) == header_tail(h) + 7,
        field_offset(header_fields(h), (tail_index(h) + 4) as nat) == header_tail(h) + 10,
        field_offset(header_fields(h), (tail_index(h) + 5) as nat) == header_tail(h) + 11,
        field_offset(header_fields(h), (tail_index(h) + 6) as nat) == header_tail(h) + 12,
        field_offset(header_fields(h), (tail_index(h) + 7) as nat) == header_tail(h) + 16,
{
    lemma_head_offsets(h);
    let fs: Seq<(u32, u32)> = header_fields(h);
    let t: int = tail_index(h);
    assert(field_offset(fs, t as nat) == header_tail(h));
    assert(field_offset(fs, (t + 1) as nat) == header_tail(h) + 1);
    assert(field_offset(fs, (t + 2) as nat) == header_tail(h) + 5);
    assert(field_offset(fs, (t + 3) as nat) == header_tail(h) + 7);
    assert(field_offset(fs, (t + 4) as nat) == header_tail(h) + 10);
    assert(field_offset(fs, (t + 5) as nat) == header_tail(h) + 11);
    assert(field_offset(fs, (t + 6) as nat) == header_tail(h) + 12);
    assert(field_offset(fs, (t + 7) as nat) == header_tail(h) + 16);
}

/// Field `k` of a written header stands at its offset.
pub proof fn lemma_encoded_field(h: DtsFrameHeader, k: int)
    requires
        encodable(h),
        0 <= k < header_fields(h).len(),
    ensures
        field(
            encoded(h),
            field_offset(header_fields(h), k as nat) as int,
            header_fields(h)[k].1 as nat,
        ) == header_fields(h)[k].0,
{
    lemma_fields_fit(h, k);
    lemma_packed_field(header_fields(h), k);
}

/// A written header fills its 13 or 15 bytes.
pub proof fn lemma_encoded_len(h: DtsFrameHeader)
    requires
        encodable(h),
    ensures
        encoded(h).len() == h.byte_length(),
{
    reveal(encodable);
    lemma_fields_bits_len(header_fields(h));
    lemma_tail_offsets(h);
}

/// The first nine fields of a written header.
pub proof fn lemma_encoded_head(h: DtsFrameHeader)
    requires
        encodable(h),
    ensures
        field(encoded(h), 0, 32) == SYNC_WORD,
        field(encoded(h), 32, 1) == flag_value(h.frame_type == FrameType::Normal),
        field(encoded(h), 33, 5) == (h.sample_count_per_block - 1) as u32,
        field(encoded(h), 38, 1) == flag_value(h.crc_present),
        field(encoded(h), 39, 7) == h.blocks_per_frame as u32,
        field(encoded(h), 46, 14) == (h.frame_size_bytes - 1) as u32,
        field(encoded(h), 60, 6) == h.amode as u32,
        field(encoded(h), 66, 4) == h.sfreq_index as u32,
        field(encoded(h), 70, 5) == h.rate_index as u32,
{
    lemma_head_offsets(h);
    lemma_encoded_field(h, 0);
    lemma_encoded_field(h, 1);
    lemma_encoded_field(h, 2);
    lemma_encoded_field(h, 3);
    lemma_encoded_field(h, 4);
    lemma_encoded_field(h, 5);
    lemma_encoded_field(h, 6);
    lemma_encoded_field(h, 7);
    lemma_encoded_field(h, 8);
}

/// The next ten fields of a written header.
pub proof fn lemma_encoded_flags(h: DtsFrameHeader)
    requires
        encodable(h),
    ensures
        field(encoded(h), 75, 1) == flag_value(h.downmix),
        field(encoded(h), 76, 1) == flag_value(h.dynamic_range),
        field(encoded(h), 77, 1) == flag_value(h.time_stamp),
        field(encoded(h), 78, 1) == flag_value(h.aux_data),
        field(encoded(h), 79, 1) == flag_value(h.hdcd),
        field(encoded(h), 80, 3) == h.ext_descr as u32,
        field(encoded(h), 83, 1) == flag_value(h.ext_coding),
        field(encoded(h), 84, 1) == flag_value(h.aspf),
        field(encoded(h), 85, 2) == h.lfe.code_of() as u32,
        field(encoded(h), 87, 1) == flag_value(h.predictor_history),
{
    lemma_head_offsets(h);
    lemma_encoded_field(h, 9);
    lemma_encoded_field(h, 10);
    lemma_encoded_field(h, 11);
    lemma_encoded_field(h, 12);
    lemma_encoded_field(h, 13);
    lemma_encoded_field(h, 14);
    lemma_encoded_field(h, 15);
    lemma_encoded_field(h, 16);
    lemma_encoded_field(h, 17);
    lemma_encoded_field(h, 18);
}

/// The check word and the last seven fields of a written header.
pub proof fn lemma_encoded_tail(h: DtsFrameHeader)
    requires
        encodable(h),
    ensures
        h.header_crc matches Some(crc) ==> field(encoded(h), 88, 16) == crc,
        field(encoded(h), header_tail(h), 1) == flag_value(h.multirate_inter),
        field(encoded(h), header_tail(h) + 1, 4) == h.version as u32,
        field(encoded(h), header_tail(h) + 5, 2) == h.copy_history as u32,
        field(encoded(h), header_tail(h) + 7, 3) == h.source_pcm_resolution_index as u32,
        field(encoded(h), header_tail(h) + 10, 1) == flag_value(h.front_sum),
        field(encoded(h), header_tail(h) + 11, 1) == flag_value(h.surround_sum),
        field(encoded(h), header_tail(h) + 12, 4) == h.dialog_normalization as u32,
{
    lemma_head_offsets(h);
    lemma_tail_offsets(h);
    let t: int = tail_index(h);
    if h.header_crc is Some {
        lemma_encoded_field(h, 19);
    }
    lemma_encoded_field(h, t);
    lemma_encoded_field(h, t + 1);
    lemma_encoded_field(h, t + 2);
    lemma_encoded_field(h, t + 3);
    lemma_encoded_field(h, t + 4);
    lemma_encoded_field(h, t + 5);
    lemma_encoded_field(h, t + 6);
}

/// A flag as the number that is written for it.
fn flag_number(b: bool) -> (r: u32)
    ensures
        r == flag_value(b),
{
    if b {
        1
    } else {
        0
    }
}

/// Entry `k` of the fields before the header check word.
fn head_field_of(h: &DtsFrameHeader, k: usize) -> (r: (u32, u32))
    requires
        k < 19,
        h.sample_count_per_block > 0,
        h.frame_size_bytes > 0,
    ensures
        r == head_field(*h, k as int),
{
    match k {
        0 => (SYNC_WORD, 32),
        1 => (flag_number(matches!(h.frame_type, FrameType::Normal)), 1),
        2 => ((h.sample_count_per_block - 1) as u32, 5),
        3 => (flag_number(h.crc_present), 1),
        4 => (h.blocks_per_frame as u32, 7),
        5 => ((h.frame_size_bytes - 1) as u32, 14),
        6 => (h.amode as u32, 6),
        7 => (h.sfreq_index as u32, 4),
        8 => (h.rate_index as u32, 5),
        9 => (flag_number(h.downmix), 1),
        10 => (flag_number(h.dynamic_range), 1),
        11 => (flag_number(h.time_stamp), 1),
        12 => (flag_number(h.aux_data), 1),
        13 => (flag_number(h.hdcd), 1),
        14 => (h.ext_descr as u32, 3),
        15 => (flag_number(h.ext_coding), 1),
        16 => (flag_number(h.aspf), 1),
        17 => (h.lfe.code() as u32, 2),
        _ => (flag_number(h.predictor_history), 1),
    }
}

/// Entry `k` of the fields behind the header check word.
fn tail_field_of(h: &DtsFrameHeader, k: usize) -> (r: (u32, u32))
    requires
        k < 7,
    ensures
        r == tail_field(*h, k as int),
{
    match k {
        0 => (flag_number(h.multirate_inter), 1),
        1 => (h.version as u32, 4),
        2 => (h.copy_history as u32, 2),
        3 => (h.source_pcm_resolution_index as u32, 3),
        4 => (flag_number(h.front_sum), 1),
        5 => (flag_number(h.surround_sum), 1),
        _ => (h.dialog_normalization as u32, 4),
    }
}

/// The first field of `header` that cannot be written, if any.
fn check_header(header: &DtsFrameHeader) -> (r: Option<Error>)
    ensures
        r == encode_error(*header),
{
    if header.blocks_per_frame < 5 || header.blocks_per_frame > 127 {
        return Some(Error::BlockCountOutOfRange { blocks: header.blocks_per_frame });
    }
    if header.frame_size_bytes < 95 || header.frame_size_bytes > 16384 {
        return Some(Error::FrameSizeOutOfRange { frame_size: header.frame_size_bytes });
    }
    if header.sample_count_per_block == 0 || header.sample_count_per_block > 32 {
        return Some(
            Error::FieldOutOfRange {
                field: "sample_count_per_block",
                value: header.sample_count_per_block as u32,
                max: 32,
            },
        );
    }
    if header.amode > 63 {
        return Some(
            Error::FieldOutOfRange {
                field: "amode",
                value: header.amode as u32,
                max: 63,
            },
        );
    }
    if header.sfreq_index > 15 {
        return Some(
            Error::FieldOutOfRange {
                field: "sfreq_index",
                value: header.sfreq_index as u32,
                max: 15,
            },
        );
    }
    if header.rate_index > 31 {
        return Some(
            Error::FieldOutOfRange {
                field: "rate_index",
                value: header.rate_index as u32,
                max: 31,
            },
        );
    }
    if header.ext_descr > 7 {
        return Some(
            Error::FieldOutOfRange {
                field: "ext_descr",
                value: header.ext_descr as u32,
                max: 7,
            },
        );
    }
    if header.version > 15 {
        return Some(
            Error::FieldOutOfRange {
                field: "version",
                value: header.version as u32,
                max: 15,
            },
        );
    }
    if header.copy_history > 3 {
        return Some(
            Error::FieldOutOfRange {
                field: "copy_history",
                value: header.copy_history as u32,
                max: 3,
            },
        );
    }
    if header.source_pcm_resolution_index > 7 {
        return Some(
            Error::FieldOutOfRange {
                field: "source_pcm_resolution_index",
                value: header.source_pcm_resolution_index as u32,
                max: 7,
            },
        );
    }
    if header.dialog_normalization > 15 {
        return Some(
            Error::FieldOutOfRange {
                field: "dialog_normalization",
                value: header.dialog_normalization as u32,
                max: 15,
            },
        );
    }
    if header.crc_present != header.header_crc.is_some() {
        let value: u32 = match header.header_crc {
            Some(crc) => crc as u32,
            None => 0,
        };
        return Some(Error::FieldOutOfRange { field: "header_crc", value, max: 0 });
    }
    None
}

/// The header as raw big-endian bytes, 13 without a check word and 15 with one.
pub fn encode_frame_header_be(header: &DtsFrameHeader) -> (r: Result<Vec<u8>, Error>)
    ensures
        match r {
            Ok(v) => encode_error(*header) is None && v@ == encoded(*header) && v@.len()
                == header.byte_length(),
            Err(e) => encode_error(*header) == Some(e),
        },
{
    if let Some(e) = check_header(header) {
        return Err(e);
    }
    let mut fields: Vec<(u32, u32)> = Vec::new();
    let mut k: usize = 0;
    while k < 19
        invariant
            encode_error(*header) is None,
            k <= 19,
            fields@.len() == k,
            forall|j: int| 0 <= j < k ==> fields@[j] == header_fields(*header)[j],
        decreases 19 - k,
    {
        fields.push(head_field_of(header, k));
        k = k + 1;
    }
    if let Some(crc) = header.header_crc {
        fields.push((crc as u32, 16));
    }
    let mut t: usize = 0;
    while t < 7
        invariant
            t <= 7,
            fields@.len() == tail_index(*header) + t,
            forall|j: int| 0 <= j < fields@.len() ==> fields@[j] == header_fields(*header)[j],
        decreases 7 - t,
    {
        fields.push(tail_field_of(header, t));
        t = t + 1;
    }
    assert(fields@ =~= header_fields(*header));
    proof {
        reveal(encodable);
        lemma_encoded_len(*header);
    }
    Ok(pack_fields(fields.as_slice()))
}

/// `bytes` with zero bytes behind it, `n` in all.
fn pad_with_zeros(bytes: Vec<u8>, n: usize) -> (r: Vec<u8>)
    requires
        bytes@.len() <= n,
    ensures
        r@ == zero_padded(bytes@, n as nat),
{
    let mut out: Vec<u8> = bytes;
    while out.len() < n
        invariant
            bytes@.len() <= out@.len() <= n,
            forall|j: int|
                0 <= j < out@.len() ==> out@[j] == zero_padded(bytes@, n as nat)[j],
        decreases n - out@.len(),
    {
        out.push(0);
    }
    assert(out@ =~= zero_padded(bytes@, n as nat));
    out
}

/// The header as 16 raw little-endian bytes: the big-endian ones, filled up
/// with zeros, with the bytes of every word exchanged.
pub fn encode_frame_header_le(header: &DtsFrameHeader) -> (r: Result<Vec<u8>, Error>)
    ensures
        match r {
            Ok(v) => encode_error(*header) is None && v@ == swapped(
                zero_padded(encoded(*header), 16),
            ),
            Err(e) => encode_error(*header) == Some(e),
        },
{
    let be: Vec<u8> = encode_frame_header_be(header)?;
    let padded: Vec<u8> = pad_with_zeros(be, 16);
    Ok(swap_pairs(padded.as_slice()))
}

/// The header as 18 bytes of big-endian 14-bit containers.
pub fn encode_frame_header_14bit_be(header: &DtsFrameHeader) -> (r: Result<Vec<u8>, Error>)
    ensures
        match r {
            Ok(v) => encode_error(*header) is None && v@.len() == 18 && v@ == packed(
                zero_padded(encoded(*header), 15),
                FourteenBitByteOrder::BigEndian,
            ),
            Err(e) => encode_error(*header) == Some(e),
        },
{
    let be: Vec<u8> = encode_frame_header_be(header)?;
    let padded: Vec<u8> = pad_with_zeros(be, 15);
    let packed_bytes: (Vec<u8>, usize) = pack_16bit_to_14bit(
        padded.as_slice(),
        FourteenBitByteOrder::BigEndian,
    );
    Ok(packed_bytes.0)
}

/// The header as 18 bytes of little-endian 14-bit containers.
pub fn encode_frame_header_14bit_le(header: &DtsFrameHeader) -> (r: Result<Vec<u8>, Error>)
    ensures
        match r {
            Ok(v) => encode_error(*header) is None && v@.len() == 18 && v@ == packed(
                zero_padded(encoded(*header), 15),
                FourteenBitByteOrder::LittleEndian,
            ),
            Err(e) => encode_error(*header) == Some(e),
        },
{
    let be: Vec<u8> = encode_frame_header_be(header)?;
    let padded: Vec<u8> = pad_with_zeros(be, 15);
    let packed_bytes: (Vec<u8>, usize) = pack_16bit_to_14bit(
        padded.as_slice(),
        FourteenBitByteOrder::LittleEndian,
    );
    Ok(packed_bytes.0)
}

/// The header of a 14-bit container frame.
pub fn parse_frame_header_14bit(bytes: &[u8]) -> (r: Result<DtsFrameHeader, Error>)
    ensures
        r == parsed_14bit(bytes@),
{
    let sync = detect_sync(bytes)?;
    let order = match FourteenBitByteOrder::from_sync(sync) {
        Some(order) => order,
        None => {
            return Err(Error::NoSync);
        },
    };
    if bytes.len() < 18 || bytes.len() % 2 == 1 {
        return Err(Error::UnexpectedEof);
    }
    let window: &[u8] = slice_subrange(bytes, 0, 18);
    let unpacked_bytes: Vec<u8> = unpack_14bit_to_16bit(window, order)?;
    proof {
        lemma_unpacked_prefix(bytes@, order);
        lemma_checked_header_prefix(unpacked(bytes@, order), unpacked_bytes@, sync);
    }
    read_checked_header(unpacked_bytes.as_slice(), sync)
}

} // verus!
