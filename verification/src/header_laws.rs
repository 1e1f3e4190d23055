//! What holds between the readers and the writers of the frame header.

use crate::bits::{
    bit, byte_bit, byte_of, bytes_of_bits, field, field_offset, flag, lemma_byte_field,
    lemma_bytes_ext, lemma_field_bound, lemma_field_prefix, lemma_field_split, lemma_fields_cover,
    lemma_swapped_twice, swapped, zero_padded,
};
use crate::error::Error;
use crate::header::{DtsFrameHeader, FrameType, SyncWordEncoding};
use crate::header_codec::{
    checked_header_in, encodable, encode_error, encoded, flag_value, header_fields, header_in,
    header_tail, lemma_checked_header_prefix, lemma_encoded_field, lemma_encoded_flags,
    lemma_encoded_head, lemma_encoded_len, lemma_encoded_tail, lemma_head_offsets,
    lemma_header_ext, lemma_packed_sync_unpacks, lemma_plain_bytes, lemma_tail_offsets,
    lemma_unpacked_prefix, parsed, parsed_14bit, raw_big_endian_sync, raw_little_endian_sync,
    sync_of, tail_index, with_sync, SYNC_WORD,
};
use crate::unpack14::{
    container_bits, law_unpack_undoes_pack, packed, unpacked, FourteenBitByteOrder,
};
use vstd::arithmetic::power2::*;
use vstd::prelude::*;

verus! {

/// The first 32 bits are the sync word exactly when the first four bytes are
/// `7F FE 80 01`.
proof fn lemma_sync_field(s: Seq<u8>)
    requires
        s.len() >= 4,
    ensures
        field(s, 0, 32) == SYNC_WORD <==> raw_big_endian_sync(s),
{
    lemma_field_split(s, 0, 8, 24);
    lemma_field_split(s, 8, 8, 16);
    lemma_field_split(s, 16, 8, 8);
    lemma_byte_field(s, 0);
    lemma_byte_field(s, 1);
    lemma_byte_field(s, 2);
    lemma_byte_field(s, 3);
    lemma2_to64();
}

/// A written flag reads as that flag.
proof fn lemma_flag_reads(s: Seq<u8>, e: Seq<u8>, pos: int, n: nat, b: bool)
    requires
        0 <= pos < 8 * n,
        n <= s.len(),
        n <= e.len(),
        forall|i: int| 0 <= i < n ==> s[i] == e[i],
        field(e, pos, 1) == flag_value(b),
    ensures
        flag(s, pos) == b,
{
    reveal(flag);
    lemma_field_prefix(s, e, n);
}

/// Bytes that start with a written header.
spec fn starts_with(s: Seq<u8>, h: DtsFrameHeader) -> bool {
    &&& s.len() >= 15
    &&& encoded(h).len() == h.byte_length()
    &&& forall|i: int| 0 <= i < h.byte_length() ==> s[i] == encoded(h)[i]
}

/// The fields before the check word read back.
proof fn lemma_head_reads(s: Seq<u8>, h: DtsFrameHeader, sync: SyncWordEncoding)
    requires
        encodable(h),
        starts_with(s, h),
    ensures
        ({
            let g = header_in(s, sync);
            &&& raw_big_endian_sync(s)
            &&& field(s, 39, 7) == h.blocks_per_frame
            &&& field(s, 46, 14) + 1 == h.frame_size_bytes
            &&& g.frame_type == h.frame_type
            &&& g.sample_count_per_block == h.sample_count_per_block
            &&& g.crc_present == h.crc_present
            &&& g.blocks_per_frame == h.blocks_per_frame
            &&& g.frame_size_bytes == h.frame_size_bytes
            &&& g.amode == h.amode
            &&& g.sfreq_index == h.sfreq_index
            &&& g.rate_index == h.rate_index
        }),
{
    reveal(header_in);
    lemma_encoded_head(h);
    lemma_encodable_bounds(h);
    lemma_field_prefix(s, encoded(h), h.byte_length());
    lemma_sync_field(s);
    lemma_flag_reads(s, encoded(h), 32, h.byte_length(), h.frame_type == FrameType::Normal);
    lemma_flag_reads(s, encoded(h), 38, h.byte_length(), h.crc_present);
}

/// The flags before the check word read back.
proof fn lemma_flags_read(s: Seq<u8>, h: DtsFrameHeader, sync: SyncWordEncoding)
    requires
        encodable(h),
        starts_with(s, h),
    ensures
        ({
            let g = header_in(s, sync);
            &&& g.downmix == h.downmix
            &&& g.dynamic_range == h.dynamic_range
            &&& g.time_stamp == h.time_stamp
            &&& g.aux_data == h.aux_data
            &&& g.hdcd == h.hdcd
            &&& g.ext_descr == h.ext_descr
            &&& g.ext_coding == h.ext_coding
            &&& g.aspf == h.aspf
            &&& g.lfe == h.lfe
            &&& g.predictor_history == h.predictor_history
        }),
{
    reveal(header_in);
    lemma_encoded_flags(h);
    let n: nat = h.byte_length();
    let e: Seq<u8> = encoded(h);
    lemma_field_prefix(s, e, n);
    lemma_flag_reads(s, e, 75, n, h.downmix);
    lemma_flag_reads(s, e, 76, n, h.dynamic_range);
    lemma_flag_reads(s, e, 77, n, h.time_stamp);
    lemma_flag_reads(s, e, 78, n, h.aux_data);
    lemma_flag_reads(s, e, 79, n, h.hdcd);
    lemma_flag_reads(s, e, 83, n, h.ext_coding);
    lemma_flag_reads(s, e, 84, n, h.aspf);
    lemma_flag_reads(s, e, 87, n, h.predictor_history);
}

/// The check word and the fields behind it read back.
proof fn lemma_tail_reads(s: Seq<u8>, h: DtsFrameHeader, sync: SyncWordEncoding)
    requires
        encodable(h),
        starts_with(s, h),
    ensures
        ({
            let g = header_in(s, sync);
            &&& g.header_crc == h.header_crc
            &&& g.multirate_inter == h.multirate_inter
            &&& g.version == h.version
            &&& g.copy_history == h.copy_history
            &&& g.source_pcm_resolution_index == h.source_pcm_resolution_index
            &&& g.front_sum == h.front_sum
            &&& g.surround_sum == h.surround_sum
            &&& g.dialog_normalization == h.dialog_normalization
        }),
{
    reveal(header_in);
    lemma_encoded_head(h);
    lemma_encoded_tail(h);
    lemma_encodable_bounds(h);
    let n: nat = h.byte_length();
    let e: Seq<u8> = encoded(h);
    let t: int = header_tail(h);
    lemma_field_prefix(s, e, n);
    lemma_flag_reads(s, e, 38, n, h.crc_present);
    lemma_flag_reads(s, e, t, n, h.multirate_inter);
    lemma_flag_reads(s, e, t + 10, n, h.front_sum);
    lemma_flag_reads(s, e, t + 11, n, h.surround_sum);
}

proof fn lemma_encodable_bounds(h: DtsFrameHeader)
    requires
        encodable(h),
    ensures
        5 <= h.blocks_per_frame <= 127,
        95 <= h.frame_size_bytes <= 16384,
        1 <= h.sample_count_per_block <= 32,
        h.crc_present == (h.header_crc is Some),
{
    reveal(encodable);
}

/// Bytes that start with a written header read as that header.
proof fn lemma_reads_as(s: Seq<u8>, h: DtsFrameHeader, sync: SyncWordEncoding)
    requires
        encodable(h),
        starts_with(s, h),
    ensures
        raw_big_endian_sync(s),
        checked_header_in(s, sync) == Ok::<DtsFrameHeader, Error>(with_sync(h, sync)),
{
    lemma_head_reads(s, h, sync);
    lemma_flags_read(s, h, sync);
    lemma_tail_reads(s, h, sync);
    lemma_encodable_bounds(h);
    assert(header_in(s, sync).sync_word_encoding == sync) by {
        reveal(header_in);
    }
    lemma_header_ext(header_in(s, sync), with_sync(h, sync));
}

/// Reading undoes writing, raw big-endian: whatever follows the written
/// header, it reads back as it was, with the encoding set to the raw
/// big-endian one.
pub proof fn law_raw_big_endian_round_trip(h: DtsFrameHeader, rest: Seq<u8>)
    requires
        encode_error(h) is None,
        h.byte_length() + rest.len() >= 15,
    ensures
        parsed(encoded(h) + rest) == Ok::<DtsFrameHeader, Error>(
            with_sync(h, SyncWordEncoding::RawBigEndian),
        ),
{
    reveal(encodable);
    lemma_encoded_len(h);
    lemma_reads_as(encoded(h) + rest, h, SyncWordEncoding::RawBigEndian);
}

/// Reading undoes writing, raw little-endian.
pub proof fn law_raw_little_endian_round_trip(h: DtsFrameHeader, rest: Seq<u8>)
    requires
        encode_error(h) is None,
    ensures
        parsed(swapped(zero_padded(encoded(h), 16)) + rest) == Ok::<DtsFrameHeader, Error>(
            with_sync(h, SyncWordEncoding::RawLittleEndian),
        ),
{
    let z: Seq<u8> = zero_padded(encoded(h), 16);
    let s: Seq<u8> = swapped(z) + rest;
    reveal(encodable);
    lemma_encoded_len(h);
    lemma_reads_as(z, h, SyncWordEncoding::RawLittleEndian);
    assert(s.subrange(0, 16) =~= swapped(z));
    lemma_swapped_twice(z);
    assert(raw_little_endian_sync(s));
}

/// The container words that carry a big-endian sync word hold a packed sync.
proof fn lemma_packed_words(z: Seq<u8>)
    requires
        z.len() >= 5,
        raw_big_endian_sync(z),
    ensures
        ({
            let w = bytes_of_bits(container_bits(z));
            &&& w.len() >= 6
            &&& w[0] == 0x1F
            &&& w[1] == 0xFF
            &&& w[2] == 0xE8
            &&& w[3] == 0
            &&& (w[4] as int % 64) / 4 == 1
        }),
{
    let b: Seq<bool> = container_bits(z);
    let w: Seq<u8> = bytes_of_bits(b);
    lemma_plain_bytes();
    lemma_sync_byte_bits(z);
    assert(w[0] == byte_of(b, 0));
    assert(w[1] == byte_of(b, 8));
    assert(w[2] == byte_of(b, 16));
    assert(w[3] == byte_of(b, 24));
    assert(w[4] == byte_of(b, 32));
    reveal(byte_of);
    assert(b[0] == (bit(z, 0) == 1));
    assert(b[1] == (bit(z, 0) == 1));
    assert(b[2] == (bit(z, 0) == 1));
    assert(b[3] == (bit(z, 1) == 1));
    assert(b[4] == (bit(z, 2) == 1));
    assert(b[5] == (bit(z, 3) == 1));
    assert(b[6] == (bit(z, 4) == 1));
    assert(b[7] == (bit(z, 5) == 1));
    assert(b[8] == (bit(z, 6) == 1));
    assert(b[9] == (bit(z, 7) == 1));
    assert(b[10] == (bit(z, 8) == 1));
    assert(b[11] == (bit(z, 9) == 1));
    assert(b[12] == (bit(z, 10) == 1));
    assert(b[13] == (bit(z, 11) == 1));
    assert(b[14] == (bit(z, 12) == 1));
    assert(b[15] == (bit(z, 13) == 1));
    assert(b[16] == (bit(z, 14) == 1));
    assert(b[17] == (bit(z, 14) == 1));
    assert(b[18] == (bit(z, 14) == 1));
    assert(b[19] == (bit(z, 15) == 1));
    assert(b[20] == (bit(z, 16) == 1));
    assert(b[21] == (bit(z, 17) == 1));
    assert(b[22] == (bit(z, 18) == 1));
    assert(b[23] == (bit(z, 19) == 1));
    assert(b[24] == (bit(z, 20) == 1));
    assert(b[25] == (bit(z, 21) == 1));
    assert(b[26] == (bit(z, 22) == 1));
    assert(b[27] == (bit(z, 23) == 1));
    assert(b[28] == (bit(z, 24) == 1));
    assert(b[29] == (bit(z, 25) == 1));
    assert(b[30] == (bit(z, 26) == 1));
    assert(b[31] == (bit(z, 27) == 1));
    assert(b[32] == (bit(z, 28) == 1));
    assert(b[33] == (bit(z, 28) == 1));
    assert(b[34] == (bit(z, 28) == 1));
    assert(b[35] == (bit(z, 29) == 1));
    assert(b[36] == (bit(z, 30) == 1));
    assert(b[37] == (bit(z, 31) == 1));
}

/// The bits of the sync word.
proof fn lemma_sync_byte_bits(z: Seq<u8>)
    requires
        z.len() >= 4,
        raw_big_endian_sync(z),
    ensures
        bit(z, 0) == 0,
        bit(z, 1) == 1,
        bit(z, 2) == 1,
        bit(z, 3) == 1,
        bit(z, 4) == 1,
        bit(z, 5) == 1,
        bit(z, 6) == 1,
        bit(z, 7) == 1,
        bit(z, 8) == 1,
        bit(z, 9) == 1,
        bit(z, 10) == 1,
        bit(z, 11) == 1,
        bit(z, 12) == 1,
        bit(z, 13) == 1,
        bit(z, 14) == 1,
        bit(z, 15) == 0,
        bit(z, 16) == 1,
        bit(z, 17) == 0,
        bit(z, 18) == 0,
        bit(z, 19) == 0,
        bit(z, 20) == 0,
        bit(z, 21) == 0,
        bit(z, 22) == 0,
        bit(z, 23) == 0,
        bit(z, 24) == 0,
        bit(z, 25) == 0,
        bit(z, 26) == 0,
        bit(z, 27) == 0,
        bit(z, 28) == 0,
        bit(z, 29) == 0,
        bit(z, 30) == 0,
        bit(z, 31) == 1,
{
    reveal(byte_bit);
}

/// The container encoding of a byte order.
pub open spec fn packed_encoding(order: FourteenBitByteOrder) -> SyncWordEncoding {
    match order {
        FourteenBitByteOrder::BigEndian => SyncWordEncoding::FourteenBitBigEndian,
        FourteenBitByteOrder::LittleEndian => SyncWordEncoding::FourteenBitLittleEndian,
    }
}

/// A packed stream that carries a sync word is recognised by its byte order.
pub proof fn lemma_packed_stream_sync(z: Seq<u8>, order: FourteenBitByteOrder, rest: Seq<u8>)
    requires
        z.len() >= 5,
        raw_big_endian_sync(z),
    ensures
        sync_of(packed(z, order) + rest) == Ok::<SyncWordEncoding, Error>(packed_encoding(order)),
{
    let words: Seq<u8> = bytes_of_bits(container_bits(z));
    let s: Seq<u8> = packed(z, order) + rest;
    lemma_packed_words(z);
    match order {
        FourteenBitByteOrder::BigEndian => {
            assert(s[0] == words[0] && s[1] == words[1] && s[2] == words[2] && s[3] == words[3]
                && s[4] == words[4]);
        },
        FourteenBitByteOrder::LittleEndian => {
            assert(s[0] == words[1] && s[1] == words[0] && s[2] == words[3] && s[3] == words[2]
                && s[5] == words[4]);
            let t: Seq<u8> = swapped(s);
            assert(t[0] == s[1] && t[1] == s[0] && t[2] == s[3] && t[3] == s[2] && t[4] == s[5]);
        },
    }
}

/// Reading undoes writing, 14-bit containers of either byte order: whatever
/// whole container words follow, the header reads back as it was, with the
/// encoding set to the packed one.
pub proof fn law_packed_round_trip(h: DtsFrameHeader, order: FourteenBitByteOrder, rest: Seq<u8>)
    requires
        encode_error(h) is None,
        rest.len() % 2 == 0,
    ensures
        parsed_14bit(packed(zero_padded(encoded(h), 15), order) + rest) == Ok::<
            DtsFrameHeader,
            Error,
        >(with_sync(h, packed_encoding(order))),
{
    assert(encodable(h)) by {
        reveal(encodable);
    }
    lemma_packed_payload(h, order, rest);
    let z: Seq<u8> = zero_padded(encoded(h), 15);
    lemma_packed_stream_sync(z, order, rest);
    lemma_reads_as(unpacked(packed(z, order) + rest, order), h, packed_encoding(order));
}

proof fn lemma_packed_len(z: Seq<u8>, order: FourteenBitByteOrder)
    requires
        z.len() == 15,
    ensures
        packed(z, order).len() == 18,
{
}

/// The payload of a packed header starts with that header.
proof fn lemma_packed_payload(h: DtsFrameHeader, order: FourteenBitByteOrder, rest: Seq<u8>)
    requires
        encodable(h),
        rest.len() % 2 == 0,
    ensures
        packed(zero_padded(encoded(h), 15), order).len() == 18,
        raw_big_endian_sync(zero_padded(encoded(h), 15)),
        starts_with(unpacked(packed(zero_padded(encoded(h), 15), order) + rest, order), h),
{
    let z: Seq<u8> = zero_padded(encoded(h), 15);
    let p: Seq<u8> = packed(z, order);
    let s: Seq<u8> = p + rest;
    let u: Seq<u8> = unpacked(s, order);
    lemma_encoded_len(h);
    assert(raw_big_endian_sync(z)) by {
        assert(starts_with(z, h));
        lemma_head_reads(z, h, SyncWordEncoding::RawBigEndian);
    }
    lemma_packed_len(z, order);
    assert(s.subrange(0, 18) =~= p);
    law_unpack_undoes_pack(z, order);
    lemma_unpacked_prefix(s, order);
    assert forall|i: int| 0 <= i < 15 implies u[i] == z[i] by {
        assert(u[i] == unpacked(p, order)[i]);
    }
}

/// The header of a packed frame is the header of the raw frame in its
/// payload, but for the encoding.
pub proof fn law_packed_header_is_payload_header(s: Seq<u8>, order: FourteenBitByteOrder)
    requires
        s.len() >= 18,
        s.len() % 2 == 0,
        sync_of(s) == Ok::<SyncWordEncoding, Error>(packed_encoding(order)),
    ensures
        match parsed_14bit(s) {
            Ok(h) => parsed(unpacked(s, order)) == Ok::<DtsFrameHeader, Error>(
                with_sync(h, SyncWordEncoding::RawBigEndian),
            ),
            Err(e) => parsed(unpacked(s, order)) == Err::<DtsFrameHeader, Error>(e),
        },
{
    let u: Seq<u8> = unpacked(s, order);
    let raw: SyncWordEncoding = SyncWordEncoding::RawBigEndian;
    lemma_packed_sync_unpacks(s, order);
    lemma_unpacked_prefix(s, order);
    assert(header_in(u, raw) == with_sync(header_in(u, packed_encoding(order)), raw)) by {
        reveal(header_in);
    }
}

/// A header that was read can be written.
proof fn lemma_read_is_encodable(s: Seq<u8>, sync: SyncWordEncoding)
    requires
        s.len() >= 15,
        field(s, 39, 7) >= 5,
        field(s, 46, 14) + 1 >= 95,
    ensures
        encodable(header_in(s, sync)),
{
    reveal(encodable);
    reveal(header_in);
    lemma2_to64();
    let t: int = if flag(s, 38) {
        104
    } else {
        88
    };
    lemma_field_bound(s, 33, 5);
    lemma_field_bound(s, 39, 7);
    lemma_field_bound(s, 46, 14);
    lemma_field_bound(s, 60, 6);
    lemma_field_bound(s, 66, 4);
    lemma_field_bound(s, 70, 5);
    lemma_field_bound(s, 80, 3);
    lemma_field_bound(s, t + 1, 4);
    lemma_field_bound(s, t + 5, 2);
    lemma_field_bound(s, t + 7, 3);
    lemma_field_bound(s, t + 12, 4);
}

/// A flag that was read is written as it stood.
proof fn lemma_flag_written(s: Seq<u8>, pos: int)
    ensures
        flag_value(flag(s, pos)) == field(s, pos, 1),
{
    reveal(flag);
    lemma_field_bound(s, pos, 1);
    lemma2_to64();
}

/// Field `k` before the check word is written as it was read.
proof fn lemma_head_written(s: Seq<u8>, sync: SyncWordEncoding, k: int)
    requires
        s.len() >= 15,
        raw_big_endian_sync(s),
        0 <= k < 19,
    ensures
        ({
            let fs = header_fields(header_in(s, sync));
            field(s, field_offset(fs, k as nat) as int, fs[k].1 as nat) == fs[k].0
        }),
{
    reveal(header_in);
    let h = header_in(s, sync);
    lemma_head_offsets(h);
    lemma2_to64();
    if k == 0 {
        lemma_sync_field(s);
    } else if k == 1 {
        lemma_flag_written(s, 32);
    } else if k == 2 {
        lemma_field_bound(s, 33, 5);
    } else if k == 3 {
        lemma_flag_written(s, 38);
    } else if k == 4 {
        lemma_field_bound(s, 39, 7);
    } else if k == 5 {
        lemma_field_bound(s, 46, 14);
    } else if k == 6 {
        lemma_field_bound(s, 60, 6);
    } else if k == 7 {
        lemma_field_bound(s, 66, 4);
    } else if k == 8 {
        lemma_field_bound(s, 70, 5);
    } else if k == 9 {
        lemma_flag_written(s, 75);
    } else if k == 10 {
        lemma_flag_written(s, 76);
    } else if k == 11 {
        lemma_flag_written(s, 77);
    } else if k == 12 {
        lemma_flag_written(s, 78);
    } else if k == 13 {
        lemma_flag_written(s, 79);
    } else if k == 14 {
        lemma_field_bound(s, 80, 3);
    } else if k == 15 {
        lemma_flag_written(s, 83);
    } else if k == 16 {
        lemma_flag_written(s, 84);
    } else if k == 17 {
        lemma_field_bound(s, 85, 2);
    } else if k == 18 {
        lemma_flag_written(s, 87);
    }
}

/// The check word and the fields behind it are written as they were read.
proof fn lemma_tail_written(s: Seq<u8>, sync: SyncWordEncoding, k: int)
    requires
        s.len() >= 15,
        19 <= k < header_fields(header_in(s, sync)).len(),
    ensures
        ({
            let fs = header_fields(header_in(s, sync));
            field(s, field_offset(fs, k as nat) as int, fs[k].1 as nat) == fs[k].0
        }),
{
    reveal(header_in);
    let h = header_in(s, sync);
    let i: int = tail_index(h);
    let t: int = header_tail(h);
    lemma_head_offsets(h);
    lemma_tail_offsets(h);
    lemma2_to64();
    if k < i {
        assert(k == 19);
        lemma_field_bound(s, 88, 16);
    } else if k == i + 0 {
        lemma_flag_written(s, t + 0);
    } else if k == i + 1 {
        lemma_field_bound(s, t + 1, 4);
    } else if k == i + 2 {
        lemma_field_bound(s, t + 5, 2);
    } else if k == i + 3 {
        lemma_field_bound(s, t + 7, 3);
    } else if k == i + 4 {
        lemma_flag_written(s, t + 10);
    } else if k == i + 5 {
        lemma_flag_written(s, t + 11);
    } else if k == i + 6 {
        lemma_field_bound(s, t + 12, 4);
    }
}

proof fn lemma_header_sync(s: Seq<u8>, sync: SyncWordEncoding)
    ensures
        header_in(s, sync).sync_word_encoding == sync,
{
    reveal(header_in);
}

/// A header that was read is written as it stood.
proof fn lemma_writes_back(s: Seq<u8>, sync: SyncWordEncoding)
    requires
        raw_big_endian_sync(s),
        checked_header_in(s, sync) is Ok,
    ensures
        ({
            let h = header_in(s, sync);
            &&& encodable(h)
            &&& encoded(h) == s.subrange(0, h.byte_length() as int)
        }),
{
    let h: DtsFrameHeader = header_in(s, sync);
    lemma_read_is_encodable(s, sync);
    lemma_encoded_len(h);
    let fs: Seq<(u32, u32)> = header_fields(h);
    let e: Seq<u8> = encoded(h);
    let n: int = h.byte_length() as int;
    assert forall|k: int| 0 <= k < fs.len() implies field(
        e,
        #[trigger] field_offset(fs, k as nat) as int,
        fs[k].1 as nat,
    ) == field(s, field_offset(fs, k as nat) as int, fs[k].1 as nat) by {
        lemma_encoded_field(h, k);
        if k < 19 {
            lemma_head_written(s, sync, k);
        } else {
            lemma_tail_written(s, sync, k);
        }
    }
    lemma_fields_cover(e, s, fs, fs.len());
    lemma_tail_offsets(h);
    lemma_encodable_bounds(h);
    let cut: Seq<u8> = s.subrange(0, n);
    assert forall|i: int| 0 <= i < 8 * e.len() implies #[trigger] bit(e, i) == bit(cut, i) by {
        assert(bit(cut, i) == bit(s, i));
    }
    lemma_bytes_ext(e, cut);
}

/// The raw big-endian bytes that the header of a raw frame was read from.
pub open spec fn big_endian_frame(s: Seq<u8>, sync: SyncWordEncoding) -> Seq<u8> {
    match sync {
        SyncWordEncoding::RawLittleEndian => swapped(s.subrange(0, 16)),
        _ => s,
    }
}

/// Writing undoes reading: a header that was read from a raw frame can be
/// written, and gives the bytes that it was read from, in big-endian order.
pub proof fn law_writing_undoes_reading(s: Seq<u8>, h: DtsFrameHeader)
    requires
        parsed(s) == Ok::<DtsFrameHeader, Error>(h),
    ensures
        encode_error(h) is None,
        encoded(h) == big_endian_frame(s, h.sync_word_encoding).subrange(
            0,
            h.byte_length() as int,
        ),
{
    let le: Seq<u8> = swapped(s.subrange(0, 16));
    match sync_of(s) {
        Ok(SyncWordEncoding::RawBigEndian) => {
            lemma_header_sync(s, SyncWordEncoding::RawBigEndian);
            lemma_writes_back(s, SyncWordEncoding::RawBigEndian);
        },
        _ => {
            lemma_header_sync(le, SyncWordEncoding::RawLittleEndian);
            assert(raw_big_endian_sync(le));
            lemma_writes_back(le, SyncWordEncoding::RawLittleEndian);
        },
    }
    assert(encode_error(h) is None) by {
        reveal(encodable);
    }
}

/// Writing undoes reading for a packed frame: its header can be written, and
/// gives the first bytes of the frame's payload.
pub proof fn law_writing_undoes_reading_packed(
    s: Seq<u8>,
    order: FourteenBitByteOrder,
    h: DtsFrameHeader,
)
    requires
        sync_of(s) == Ok::<SyncWordEncoding, Error>(packed_encoding(order)),
        parsed_14bit(s) == Ok::<DtsFrameHeader, Error>(h),
    ensures
        encode_error(h) is None,
        encoded(h) == unpacked(s, order).subrange(0, h.byte_length() as int),
{
    lemma_packed_sync_unpacks(s, order);
    lemma_unpacked_prefix(s, order);
    lemma_writes_back(unpacked(s, order), packed_encoding(order));
    assert(encode_error(h) is None) by {
        reveal(encodable);
    }
}

/// The bytes that stand behind the header do not matter.
pub proof fn law_only_fifteen_bytes_count(a: Seq<u8>, b: Seq<u8>)
    requires
        a.len() >= 15,
        b.len() >= 15,
        forall|i: int| 0 <= i < 15 ==> a[i] == b[i],
        raw_big_endian_sync(a),
    ensures
        parsed(a) == parsed(b),
{
    lemma_checked_header_prefix(a, b, SyncWordEncoding::RawBigEndian);
}

} // verus!
