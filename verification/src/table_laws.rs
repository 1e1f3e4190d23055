//! Laws on what the codes in a stream stand for.

use crate::audio_data::{
    quant_type, terminal_sel, AudioQuantType, CODEBOOK_GROUP_SIZE, QUANT_LEVELS,
};
use crate::cos_mod::{entry_at, CosModEntry};
use crate::error::Error;
use crate::header::{
    arrangement_of, bit_rate_of, dialog_normalization_of, sample_frequency_of,
    source_resolution_of, AmodeArrangement, DialogNormalization, DtsFrameHeader, LfeMode,
    SampleFrequency, SourcePcmResolution, SyncWordEncoding,
};
use crate::registry::{ascii_upper, class_of, confidence_of, ErrorClass, ProbeConfidence};
use crate::rev2_aux::{quarter_db, subsubframes_of};
use crate::side_info::{AbitsCodebook, ScaleFactorAdjustment, ScalesCodebook, TmodeCodebook};
use vstd::prelude::*;

verus! {

/// Different arrangement codes below 64 stand for different arrangements; above that the
/// low six bits count. Codes from 16 are user-defined and have no channel count.
pub proof fn law_arrangement_codes_tell_apart(a: u8, b: u8)
    requires
        a < 64,
        b < 64,
    ensures
        arrangement_of(a) == arrangement_of(b) ==> a == b,
        arrangement_of(a) is UserDefined <==> a >= 16,
        a >= 16 ==> arrangement_of(a) == AmodeArrangement::UserDefined(a),
        arrangement_of(a).channels() is None <==> a >= 16,
{
}

/// The number of channels grows with the arrangement code from one to eight, by one at
/// the codes 1, 5, 7, 9, 10, 13 and 14 and at no other.
pub proof fn law_channels_grow_with_the_arrangement(a: u8)
    requires
        a < 15,
    ensures
        arrangement_of(0).channels() == Some(1u8),
        arrangement_of((a + 1) as u8).channels().unwrap() == arrangement_of(a).channels().unwrap()
            + (if a == 0 || a == 4 || a == 6 || a == 8 || a == 9 || a == 12 || a == 13 {
            1int
        } else {
            0int
        }),
{
}

/// The front pair comes behind the centre channels of an arrangement: at channel 0, 1, 2
/// or 3, for none, one, two or three of these.
pub proof fn law_front_pair_is_behind_the_centre(a: u8)
    ensures
        arrangement_of(a).front_pair() == (if a == 2 || a == 3 || a == 4 || a == 6 || a == 8 {
            Some((0usize, 1usize))
        } else if a == 5 || a == 7 || a == 9 {
            Some((1usize, 2usize))
        } else if a == 10 || a == 14 {
            Some((2usize, 3usize))
        } else if a == 13 || a == 15 {
            Some((3usize, 4usize))
        } else {
            None
        }),
{
}

/// There is one surround pair in four arrangements, the two channels behind the front
/// pair, which are the last ones.
pub proof fn law_surround_pair_is_last(a: u8)
    ensures
        arrangement_of(a).surround_pair() is Some <==> a == 8 || a == 9 || a == 10 || a == 13,
        arrangement_of(a).surround_pair() matches Some((l, r)) ==> {
            &&& arrangement_of(a).front_pair() is Some
            &&& l == arrangement_of(a).front_pair().unwrap().0 + 2
            &&& r == arrangement_of(a).front_pair().unwrap().1 + 2
            &&& r + 1 == arrangement_of(a).channels().unwrap()
        },
{
}

/// The sampling frequencies are three families of three, 8000, 11025 and 12000 hertz and
/// their doubles and fourfolds, at the codes from 1, 6 and 11 on; all other codes are
/// reserved.
pub proof fn law_frequencies_double(code: u8)
    ensures
        sample_frequency_of(1) == SampleFrequency::Fixed(8_000),
        sample_frequency_of(6) == SampleFrequency::Fixed(11_025),
        sample_frequency_of(11) == SampleFrequency::Fixed(12_000),
        sample_frequency_of(code) is Fixed <==> code < 15 && 1 <= code % 5 <= 3,
        code < 15 && 1 <= code % 5 <= 2 ==> sample_frequency_of((code + 1) as u8)->Fixed_0 == 2
            * sample_frequency_of(code)->Fixed_0,
{
    let t: Seq<u32> = crate::header::SAMPLE_FREQUENCY_TABLE@;
    assert(t =~= seq![
        0u32,
        8_000,
        16_000,
        32_000,
        0,
        0,
        11_025,
        22_050,
        44_100,
        0,
        0,
        12_000,
        24_000,
        48_000,
        0,
        0,
    ]);
}

/// The bit rates of the codes grow. There are 25 fixed ones, code 29 leaves the rate open,
/// and all other codes are reserved.
pub proof fn law_rates_grow(a: u8, b: u8)
    requires
        a < b,
    ensures
        bit_rate_of(a) is Fixed <==> a <= 24,
        bit_rate_of(a) is Open <==> a == 29,
        b <= 24 ==> bit_rate_of(a)->Fixed_0 < bit_rate_of(b)->Fixed_0,
        a <= 24 ==> 32_000 <= bit_rate_of(a)->Fixed_0 <= 1_536_000,
        a <= 24 && a != 22 ==> bit_rate_of(a)->Fixed_0 % 8_000 == 0,
{
    let t: Seq<u32> = crate::header::RATE_TABLE_BPS@;
    assert(t =~= seq![
        32_000u32,
        56_000,
        64_000,
        96_000,
        112_000,
        128_000,
        192_000,
        224_000,
        256_000,
        320_000,
        384_000,
        448_000,
        512_000,
        576_000,
        640_000,
        768_000,
        960_000,
        1_024_000,
        1_152_000,
        1_280_000,
        1_344_000,
        1_408_000,
        1_411_200,
        1_472_000,
        1_536_000,
    ]);
}

/// The resolution goes by the low three bits of its code: 16, 20 and 24 bits, twice each,
/// once with extended surround. The codes 4 and 7 are reserved.
pub proof fn law_resolutions(code: u8)
    ensures
        source_resolution_of(code) == source_resolution_of((code % 8) as u8),
        source_resolution_of(code) is Invalid <==> code % 8 == 4 || code % 8 == 7,
        source_resolution_of(code) matches SourcePcmResolution::Valid { bits, es } ==> {
            &&& es == (code % 2 == 1)
            &&& bits == (if code % 8 < 2 {
                16u8
            } else if code % 8 < 4 {
                20u8
            } else {
                24u8
            })
        },
{
}

/// Each step of the normalization code takes one decibel off, and version 6 takes 16 more
/// than version 7; no other version says anything.
pub proof fn law_normalization_steps(version: u8, code: u8)
    requires
        code < 15,
    ensures
        dialog_normalization_of(7, 0) == DialogNormalization::Fixed(0),
        dialog_normalization_of(version, code) is Fixed <==> version % 16 == 6 || version % 16 == 7,
        dialog_normalization_of(version, code) is Fixed ==> dialog_normalization_of(
            version,
            (code + 1) as u8,
        ).gain() == dialog_normalization_of(version, code).gain() - 1,
        dialog_normalization_of(6, code).gain() == dialog_normalization_of(7, code).gain() - 16,
        dialog_normalization_of(version, code) is Unspecified ==> dialog_normalization_of(
            version,
            code,
        ).gain() == 0,
{
}

/// A header with a check word is two bytes longer than one without, which has 13 bytes.
pub proof fn law_check_word_takes_two_bytes(header: DtsFrameHeader)
    ensures
        header.byte_length() == 13 + 2 * (if header.crc_present {
            1int
        } else {
            0int
        }),
{
}

/// A frame takes in a raw stream the bytes that its header declares, and in a container
/// stream as few 16-bit words as have room for them at 14 bits each.
pub proof fn law_bytes_in_a_stream(header: DtsFrameHeader, encoding: SyncWordEncoding)
    ensures
        ({
            let size: int = header.frame_size_bytes as int;
            let taken: int = header.container_bytes(encoding) as int;
            if encoding == SyncWordEncoding::RawBigEndian || encoding
                == SyncWordEncoding::RawLittleEndian {
                taken == size
            } else {
                taken % 2 == 0 && 7 * taken >= 8 * size && 7 * (taken - 2) < 8 * size
            }
        }),
{
}

/// The code of a low-frequency-effects mode counts the modes from the absent one on.
pub proof fn law_effects_modes_count_up()
    ensures
        LfeMode::of_code(0) == LfeMode::Absent,
        LfeMode::of_code(1) == LfeMode::Mode1,
        LfeMode::of_code(2) == LfeMode::Mode2,
        LfeMode::of_code(3) == LfeMode::Mode3,
{
}

/// The selectors of the allocation indices name five Huffman books in order and then
/// numbers of four and five bits; one selector and all that do not fit are reserved.
pub proof fn law_allocation_books(a: nat, b: nat)
    ensures
        AbitsCodebook::of_bhuff(a) is None <==> a >= 7,
        a < 7 && AbitsCodebook::of_bhuff(a) == AbitsCodebook::of_bhuff(b) ==> a == b,
        AbitsCodebook::of_bhuff(a) == Some(AbitsCodebook::A12) ==> a == 0,
        AbitsCodebook::of_bhuff(a) == Some(AbitsCodebook::B12) ==> a == 1,
        AbitsCodebook::of_bhuff(a) == Some(AbitsCodebook::C12) ==> a == 2,
        AbitsCodebook::of_bhuff(a) == Some(AbitsCodebook::D12) ==> a == 3,
        AbitsCodebook::of_bhuff(a) == Some(AbitsCodebook::E12) ==> a == 4,
        AbitsCodebook::of_bhuff(a) == Some(AbitsCodebook::Linear4Bit) ==> a == 5,
        AbitsCodebook::of_bhuff(a) == Some(AbitsCodebook::Linear5Bit) ==> a == 6,
{
}

/// The selectors of the scale factors name five Huffman books in order and then numbers
/// of six and seven bits; one selector and all that do not fit are reserved.
pub proof fn law_scale_books(a: nat, b: nat)
    ensures
        ScalesCodebook::of_shuff(a) is None <==> a >= 7,
        a < 7 && ScalesCodebook::of_shuff(a) == ScalesCodebook::of_shuff(b) ==> a == b,
        ScalesCodebook::of_shuff(a) == Some(ScalesCodebook::Sa129) ==> a == 0,
        ScalesCodebook::of_shuff(a) == Some(ScalesCodebook::Sb129) ==> a == 1,
        ScalesCodebook::of_shuff(a) == Some(ScalesCodebook::Sc129) ==> a == 2,
        ScalesCodebook::of_shuff(a) == Some(ScalesCodebook::Sd129) ==> a == 3,
        ScalesCodebook::of_shuff(a) == Some(ScalesCodebook::Se129) ==> a == 4,
        ScalesCodebook::of_shuff(a) == Some(ScalesCodebook::Linear6Bit) ==> a == 5,
        ScalesCodebook::of_shuff(a) == Some(ScalesCodebook::Linear7Bit) ==> a == 6,
{
}

/// The selectors of the transient modes name four books in order, and the adjustment
/// indices four factors.
pub proof fn law_transient_books_and_adjustments(a: nat)
    requires
        a < 4,
    ensures
        TmodeCodebook::of_thuff(a) == TmodeCodebook::A4 <==> a == 0,
        TmodeCodebook::of_thuff(a) == TmodeCodebook::B4 <==> a == 1,
        TmodeCodebook::of_thuff(a) == TmodeCodebook::C4 <==> a == 2,
        TmodeCodebook::of_thuff(a) == TmodeCodebook::D4 <==> a == 3,
        ScaleFactorAdjustment::of_index(a) == ScaleFactorAdjustment::Adj0 <==> a == 0,
        ScaleFactorAdjustment::of_index(a) == ScaleFactorAdjustment::Adj1 <==> a == 1,
        ScaleFactorAdjustment::of_index(a) == ScaleFactorAdjustment::Adj2 <==> a == 2,
        ScaleFactorAdjustment::of_index(a) == ScaleFactorAdjustment::Adj3 <==> a == 3,
{
}

/// The samples of a subband are Huffman coded with every selector but the last one of the
/// allocation index, which is 1 for index 1, 3 for the indices 2 to 5, 7 for the indices
/// 6 to 10, and 0 for index 11. With the last one they are block coded up to index 7 and
/// plain above. An index above 11 has plain samples, and index 0 has none.
pub proof fn law_how_samples_are_coded(abits: u8, sel: u8)
    ensures
        ({
            let last: u8 = if abits == 1 {
                1
            } else if abits <= 5 {
                3
            } else if abits <= 10 {
                7
            } else {
                0
            };
            &&& 1 <= abits <= 11 ==> terminal_sel(abits) == Some(last)
            &&& quant_type(abits, sel) == AudioQuantType::NoBits <==> abits == 0
            &&& quant_type(abits, sel) == AudioQuantType::Huffman <==> 1 <= abits <= 11 && sel
                != last
            &&& quant_type(abits, sel) == AudioQuantType::BlockCode <==> 1 <= abits <= 7 && sel
                == last
            &&& quant_type(abits, sel) == AudioQuantType::NoEncoding <==> abits > 11 || (abits >= 8
                && sel == last)
        }),
{
    let t: Seq<u8> = CODEBOOK_GROUP_SIZE@;
    assert(t =~= seq![0u8, 2, 4, 4, 4, 4, 8, 8, 8, 8, 8, 1]);
}

/// The number of quantization levels grows with the allocation index, and is odd wherever
/// samples are block coded, so that the levels lie evenly around zero.
pub proof fn law_levels_grow(a: int, b: int)
    requires
        0 <= a < b < 12,
    ensures
        QUANT_LEVELS@[a] < QUANT_LEVELS@[b],
        1 <= a ==> QUANT_LEVELS@[a] % 2 == 1,
        8 <= a ==> QUANT_LEVELS@[a] == (if a == 8 {
            33int
        } else if a == 9 {
            65int
        } else {
            129int
        }),
{
    let t: Seq<u16> = QUANT_LEVELS@;
    assert(t =~= seq![0u16, 3, 5, 7, 9, 13, 17, 25, 33, 65, 129, 256]);
}

/// A gain code is a signed byte: the codes from 128 on are those below zero, and codes
/// that add up to 256 have opposite gains.
pub proof fn law_gain_codes_are_signed(code: u8)
    ensures
        -128 <= quarter_db(code) <= 127,
        (quarter_db(code) - code) % 256 == 0,
        1 <= code && code != 128 ==> quarter_db((256 - code) as u8) == -quarter_db(code),
{
}

/// A frame has one gain code for each eight blocks, and none where its blocks do not
/// divide by eight. Its header counts one block less than it has.
pub proof fn law_eight_blocks_to_a_code(blocks_per_frame: u8)
    requires
        blocks_per_frame < 255,
    ensures
        match subsubframes_of(blocks_per_frame) {
            Ok(n) => 8 * n == blocks_per_frame + 1,
            Err(e) => (blocks_per_frame + 1) % 8 != 0 && e == (Error::Rev2AuxDrcCountUnresolved {
                blocks: (blocks_per_frame + 1) as u8,
            }),
        },
{
}

/// Only an end of input asks for more, only a frame in the other form is not handled, and
/// every other error is one of the data.
pub proof fn law_error_classes(e: Error)
    ensures
        class_of(e) == ErrorClass::NeedMore <==> e == Error::UnexpectedEof,
        class_of(e) == ErrorClass::Unsupported <==> e == Error::UnsupportedFourteenBit || e
            == Error::UnsupportedRaw16Bit,
{
}

/// A probe is certain exactly of a header that was read, and in doubt exactly where the
/// input ended.
pub proof fn law_probe_confidence(r: Result<DtsFrameHeader, Error>)
    ensures
        confidence_of(r) == ProbeConfidence::Certain <==> r is Ok,
        confidence_of(r) == ProbeConfidence::Possible <==> r == Err::<DtsFrameHeader, Error>(
            Error::UnexpectedEof,
        ),
{
}

/// The modulation table by rows: entry `i` of row `k` in the first block is the cosine of
/// `(2i + 1)(2k + 1)` of 64 parts of a half turn, in the second block of `i(2k + 1)` of 32
/// parts, and the factors go by `2k + 1` of 128 parts.
pub proof fn law_modulation_table_by_rows(k: int, i: int)
    requires
        0 <= k < 16,
        0 <= i < 16,
    ensures
        entry_at(16 * k + i) matches CosModEntry::Cosine { turns, parts } && turns == (2 * i + 1)
            * (2 * k + 1) && parts == 64,
        entry_at(256 + 16 * k + i) matches CosModEntry::Cosine { turns, parts } && turns == i * (2
            * k + 1) && parts == 32,
        entry_at(512 + k) matches CosModEntry::SumFactor { turns, parts } && turns == 2 * k + 1
            && parts == 128,
        entry_at(528 + k) matches CosModEntry::DifferenceFactor { turns, parts } && turns == 2 * k
            + 1 && parts == 128,
{
    let a: int = 16 * k + i;
    let b: int = 256 + a;
    assert(a % 16 == i && a / 16 == k);
    assert((b - 256) % 16 == i && (b - 256) / 16 == k);
    let odd: int = (2 * i + 1) * (2 * k + 1);
    let even: int = i * (2 * k + 1);
    assert(0 <= odd <= 31 * 31) by (nonlinear_arith)
        requires
            0 <= k < 16,
            0 <= i < 16,
            odd == (2 * i + 1) * (2 * k + 1),
    ;
    assert(0 <= even <= 15 * 31) by (nonlinear_arith)
        requires
            0 <= k < 16,
            0 <= i < 16,
            even == i * (2 * k + 1),
    ;
    assert(entry_at(a) == CosModEntry::Cosine { turns: odd as u32, parts: 64 });
    assert(entry_at(b) == CosModEntry::Cosine { turns: even as u32, parts: 32 });
}

/// Only the case of a letter is taken away: two bytes are the same in upper case exactly
/// where they are equal or the two cases of one letter.
pub proof fn law_upper_case_takes_the_case_away(a: u8, b: u8)
    ensures
        ascii_upper(ascii_upper(a)) == ascii_upper(a),
        ascii_upper(a) == ascii_upper(b) <==> a == b || (0x41 <= a <= 0x5A && b == a + 0x20) || (
        0x41 <= b <= 0x5A && a == b + 0x20),
        0x41 <= a <= 0x5A ==> ascii_upper(a) == a,
{
}

} // verus!
