//! The frame header: its fields, and what their codes stand for.

use crate::filter_bank::FilterBankSelection;
use crate::unpack14::container_count;
use vstd::arithmetic::power2::{lemma2_to64, pow2};
use vstd::prelude::*;

verus! {

/// Which of the four sync sequences opens a frame.
#[derive(Debug, Clone, Copy, PartialEq, Eq, Hash, Structural)]
#[non_exhaustive]
pub enum SyncWordEncoding {
    /// `7F FE 80 01`.
    RawBigEndian,
    /// `FE 7F 01 80`.
    RawLittleEndian,
    /// `1F FF E8 00 07 Fx`.
    FourteenBitBigEndian,
    /// `FF 1F 00 E8 Fx 07`.
    FourteenBitLittleEndian,
}

impl SyncWordEncoding {
    /// One of the two raw 16-bit forms.
    pub open spec fn raw(self) -> bool {
        self == SyncWordEncoding::RawBigEndian || self == SyncWordEncoding::RawLittleEndian
    }

    /// The length of the sync sequence in bytes.
    pub fn sync_byte_length(self) -> (r: usize)
        ensures
            r == (if self.raw() {
                4usize
            } else {
                6usize
            }),
    {
        match self {
            SyncWordEncoding::RawBigEndian | SyncWordEncoding::RawLittleEndian => 4,
            SyncWordEncoding::FourteenBitBigEndian | SyncWordEncoding::FourteenBitLittleEndian => 6,
        }
    }

    /// Whether the frame is in one of the two raw 16-bit forms.
    pub fn is_raw_16bit(self) -> (r: bool)
        ensures
            r == self.raw(),
    {
        matches!(self, SyncWordEncoding::RawBigEndian | SyncWordEncoding::RawLittleEndian)
    }

    /// Whether the frame is in one of the two 14-bit container forms.
    pub fn is_14bit_packed(self) -> (r: bool)
        ensures
            r == !self.raw(),
    {
        matches!(
            self,
            SyncWordEncoding::FourteenBitBigEndian | SyncWordEncoding::FourteenBitLittleEndian
        )
    }
}

/// Whether a frame ends the stream or continues it.
#[derive(Debug, Clone, Copy, PartialEq, Eq, Hash, Structural)]
pub enum FrameType {
    /// The last frame, which may be cut short.
    Termination,
    /// A full frame.
    Normal,
}

/// The two-bit low-frequency-effects code.
#[derive(Debug, Clone, Copy, PartialEq, Eq, Hash, Structural)]
pub enum LfeMode {
    /// Code 0: no such channel.
    Absent,
    /// Code 1.
    Mode1,
    /// Code 2.
    Mode2,
    /// Code 3.
    Mode3,
}

impl LfeMode {
    /// The code of the mode.
    pub open spec fn code_of(self) -> nat {
        match self {
            LfeMode::Absent => 0,
            LfeMode::Mode1 => 1,
            LfeMode::Mode2 => 2,
            LfeMode::Mode3 => 3,
        }
    }

    /// The mode of a code.
    pub open spec fn of_code(code: nat) -> LfeMode {
        if code == 0 {
            LfeMode::Absent
        } else if code == 1 {
            LfeMode::Mode1
        } else if code == 2 {
            LfeMode::Mode2
        } else {
            LfeMode::Mode3
        }
    }

    /// The mode that the low two bits of `code` select.
    pub fn from_raw(code: u8) -> (r: Self)
        ensures
            r == LfeMode::of_code((code % 4) as nat),
    {
        match code % 4 {
            0 => LfeMode::Absent,
            1 => LfeMode::Mode1,
            2 => LfeMode::Mode2,
            _ => LfeMode::Mode3,
        }
    }

    /// The two-bit code.
    pub fn code(self) -> (r: u8)
        ensures
            r == self.code_of(),
    {
        match self {
            LfeMode::Absent => 0,
            LfeMode::Mode1 => 1,
            LfeMode::Mode2 => 2,
            LfeMode::Mode3 => 3,
        }
    }

    /// Whether the frame has a low-frequency-effects channel.
    pub fn is_present(self) -> (r: bool)
        ensures
            r == (self != LfeMode::Absent),
    {
        !matches!(self, LfeMode::Absent)
    }
}

/// The code of a mode selects that mode, and the mode of a two-bit code has
/// that code.
pub proof fn law_lfe_codes_round_trip(mode: LfeMode, code: nat)
    requires
        code < 4,
    ensures
        mode.code_of() < 4,
        LfeMode::of_code(mode.code_of()) == mode,
        LfeMode::of_code(code).code_of() == code,
{
}

/// The transmission bit rate that a frame is coded for.
#[derive(Debug, Clone, Copy, PartialEq, Eq, Hash, Structural)]
#[non_exhaustive]
pub enum TargetedBitRate {
    /// A rate in bits per second.
    Fixed(u32),
    /// No fixed rate.
    Open,
    /// A reserved code.
    Invalid,
}

/// The bit rates of the rate codes 0 to 24, in bits per second.
pub const RATE_TABLE_BPS: [u32; 25] = [
    32_000, 56_000, 64_000, 96_000, 112_000, 128_000, 192_000, 224_000, 256_000, 320_000, 384_000,
    448_000, 512_000, 576_000, 640_000, 768_000, 960_000, 1_024_000, 1_152_000, 1_280_000,
    1_344_000, 1_408_000, 1_411_200, 1_472_000, 1_536_000,
];

/// What a rate code stands for.
pub open spec fn bit_rate_of(rate_index: u8) -> TargetedBitRate {
    if rate_index <= 24 {
        TargetedBitRate::Fixed(RATE_TABLE_BPS@[rate_index as int])
    } else if rate_index == 29 {
        TargetedBitRate::Open
    } else {
        TargetedBitRate::Invalid
    }
}

/// What a rate code stands for.
pub fn targeted_bit_rate_from_index(rate_index: u8) -> (r: TargetedBitRate)
    ensures
        r == bit_rate_of(rate_index),
{
    if rate_index <= 24 {
        TargetedBitRate::Fixed(RATE_TABLE_BPS[rate_index as usize])
    } else if rate_index == 29 {
        TargetedBitRate::Open
    } else {
        TargetedBitRate::Invalid
    }
}

/// The sampling frequency of a frame.
#[derive(Debug, Clone, Copy, PartialEq, Eq, Hash, Structural)]
#[non_exhaustive]
pub enum SampleFrequency {
    /// A frequency in hertz.
    Fixed(u32),
    /// A reserved code.
    Invalid,
}

/// The sampling frequencies of the sixteen codes in hertz; zero is reserved.
pub const SAMPLE_FREQUENCY_TABLE: [u32; 16] = [
    0, 8_000, 16_000, 32_000, 0, 0, 11_025, 22_050, 44_100, 0, 0, 12_000, 24_000, 48_000, 0, 0,
];

/// What a sampling frequency code stands for.
pub open spec fn sample_frequency_of(sfreq_index: u8) -> SampleFrequency {
    if sfreq_index < 16 && SAMPLE_FREQUENCY_TABLE@[sfreq_index as int] != 0 {
        SampleFrequency::Fixed(SAMPLE_FREQUENCY_TABLE@[sfreq_index as int])
    } else {
        SampleFrequency::Invalid
    }
}

/// What a sampling frequency code stands for.
pub fn sample_frequency_from_index(sfreq_index: u8) -> (r: SampleFrequency)
    ensures
        r == sample_frequency_of(sfreq_index),
{
    if sfreq_index >= 16 {
        return SampleFrequency::Invalid;
    }
    let hz: u32 = SAMPLE_FREQUENCY_TABLE[sfreq_index as usize];
    if hz == 0 {
        SampleFrequency::Invalid
    } else {
        SampleFrequency::Fixed(hz)
    }
}

/// The speaker arrangement of the primary channels.
#[derive(Debug, Clone, Copy, PartialEq, Eq, Hash, Structural)]
#[non_exhaustive]
pub enum AmodeArrangement {
    /// One channel.
    Mono,
    /// Two independent channels.
    DualMono,
    /// Left and right.
    Stereo,
    /// The sum and the difference of left and right.
    SumDifference,
    /// Left total and right total.
    LtRt,
    /// Centre, left, right.
    ClR,
    /// Left, right, surround.
    LrS,
    /// Centre, left, right, surround.
    ClRS,
    /// Left, right, surround left, surround right.
    LrSlSr,
    /// Centre, left, right, surround left, surround right.
    ClRSlSr,
    /// Centre left, centre right, left, right, surround left, surround right.
    ClCrLRSlSr,
    /// Centre, left, right, left rear, right rear, overhead.
    ClRLrRrOv,
    /// Centre front, centre rear, left front, right front, left rear, right rear.
    CfCrLfRfLrRr,
    /// Centre left, centre, centre right, left, right, surround left, surround right.
    ClCCrLRSlSr,
    /// Centre left, centre right, left, right and two surround pairs.
    ClCrLRSl1Sl2Sr1Sr2,
    /// Centre left, centre, centre right, left, right, surround left, surround, surround right.
    ClCCrLRSlSSr,
    /// A user-defined arrangement, with its code.
    UserDefined(u8),
}

impl AmodeArrangement {
    /// The number of primary channels, unless the arrangement is user-defined.
    pub open spec fn channels(self) -> Option<u8> {
        match self {
            AmodeArrangement::Mono => Some(1),
            AmodeArrangement::DualMono => Some(2),
            AmodeArrangement::Stereo => Some(2),
            AmodeArrangement::SumDifference => Some(2),
            AmodeArrangement::LtRt => Some(2),
            AmodeArrangement::ClR => Some(3),
            AmodeArrangement::LrS => Some(3),
            AmodeArrangement::ClRS => Some(4),
            AmodeArrangement::LrSlSr => Some(4),
            AmodeArrangement::ClRSlSr => Some(5),
            AmodeArrangement::ClCrLRSlSr => Some(6),
            AmodeArrangement::ClRLrRrOv => Some(6),
            AmodeArrangement::CfCrLfRfLrRr => Some(6),
            AmodeArrangement::ClCCrLRSlSr => Some(7),
            AmodeArrangement::ClCrLRSl1Sl2Sr1Sr2 => Some(8),
            AmodeArrangement::ClCCrLRSlSSr => Some(8),
            AmodeArrangement::UserDefined(_) => None,
        }
    }

    /// The channel indices of the front left and right pair, if there is one.
    pub open spec fn front_pair(self) -> Option<(usize, usize)> {
        match self {
            AmodeArrangement::Stereo => Some((0, 1)),
            AmodeArrangement::SumDifference => Some((0, 1)),
            AmodeArrangement::LtRt => Some((0, 1)),
            AmodeArrangement::LrS => Some((0, 1)),
            AmodeArrangement::LrSlSr => Some((0, 1)),
            AmodeArrangement::ClR => Some((1, 2)),
            AmodeArrangement::ClRS => Some((1, 2)),
            AmodeArrangement::ClRSlSr => Some((1, 2)),
            AmodeArrangement::ClCrLRSlSr => Some((2, 3)),
            AmodeArrangement::ClCrLRSl1Sl2Sr1Sr2 => Some((2, 3)),
            AmodeArrangement::ClCCrLRSlSr => Some((3, 4)),
            AmodeArrangement::ClCCrLRSlSSr => Some((3, 4)),
            _ => None,
        }
    }

    /// The channel indices of the surround left and right pair, if there is one.
    pub open spec fn surround_pair(self) -> Option<(usize, usize)> {
        match self {
            AmodeArrangement::LrSlSr => Some((2, 3)),
            AmodeArrangement::ClRSlSr => Some((3, 4)),
            AmodeArrangement::ClCrLRSlSr => Some((4, 5)),
            AmodeArrangement::ClCCrLRSlSr => Some((5, 6)),
            _ => None,
        }
    }

    /// The number of primary channels, unless the arrangement is user-defined.
    pub fn channel_count(self) -> (r: Option<u8>)
        ensures
            r == self.channels(),
    {
        match self {
            AmodeArrangement::Mono => Some(1),
            AmodeArrangement::DualMono
            | AmodeArrangement::Stereo
            | AmodeArrangement::SumDifference
            | AmodeArrangement::LtRt => Some(2),
            AmodeArrangement::ClR | AmodeArrangement::LrS => Some(3),
            AmodeArrangement::ClRS | AmodeArrangement::LrSlSr => Some(4),
            AmodeArrangement::ClRSlSr => Some(5),
            AmodeArrangement::ClCrLRSlSr
            | AmodeArrangement::ClRLrRrOv
            | AmodeArrangement::CfCrLfRfLrRr => Some(6),
            AmodeArrangement::ClCCrLRSlSr => Some(7),
            AmodeArrangement::ClCrLRSl1Sl2Sr1Sr2 | AmodeArrangement::ClCCrLRSlSSr => Some(8),
            AmodeArrangement::UserDefined(_) => None,
        }
    }

    /// The channel indices of the front left and right pair, if there is one.
    #[must_use]
    pub fn front_lr_channels(self) -> (r: Option<(usize, usize)>)
        ensures
            r == self.front_pair(),
    {
        match self {
            AmodeArrangement::Stereo
            | AmodeArrangement::SumDifference
            | AmodeArrangement::LtRt
            | AmodeArrangement::LrS
            | AmodeArrangement::LrSlSr => Some((0, 1)),
            AmodeArrangement::ClR | AmodeArrangement::ClRS | AmodeArrangement::ClRSlSr => Some(
                (1, 2),
            ),
            AmodeArrangement::ClCrLRSlSr | AmodeArrangement::ClCrLRSl1Sl2Sr1Sr2 => Some((2, 3)),
            AmodeArrangement::ClCCrLRSlSr | AmodeArrangement::ClCCrLRSlSSr => Some((3, 4)),
            AmodeArrangement::Mono
            | AmodeArrangement::DualMono
            | AmodeArrangement::ClRLrRrOv
            | AmodeArrangement::CfCrLfRfLrRr
            | AmodeArrangement::UserDefined(_) => None,
        }
    }

    /// The channel indices of the surround left and right pair, if there is one.
    #[must_use]
    pub fn surround_lr_channels(self) -> (r: Option<(usize, usize)>)
        ensures
            r == self.surround_pair(),
    {
        match self {
            AmodeArrangement::LrSlSr => Some((2, 3)),
            AmodeArrangement::ClRSlSr => Some((3, 4)),
            AmodeArrangement::ClCrLRSlSr => Some((4, 5)),
            AmodeArrangement::ClCCrLRSlSr => Some((5, 6)),
            AmodeArrangement::Mono
            | AmodeArrangement::DualMono
            | AmodeArrangement::Stereo
            | AmodeArrangement::SumDifference
            | AmodeArrangement::LtRt
            | AmodeArrangement::ClR
            | AmodeArrangement::LrS
            | AmodeArrangement::ClRS
            | AmodeArrangement::ClRLrRrOv
            | AmodeArrangement::CfCrLfRfLrRr
            | AmodeArrangement::ClCrLRSl1Sl2Sr1Sr2
            | AmodeArrangement::ClCCrLRSlSSr
            | AmodeArrangement::UserDefined(_) => None,
        }
    }
}

/// The front pair and the surround pair of an arrangement are two adjacent
/// channels each, lie inside the arrangement and do not overlap.
pub proof fn law_channel_pairs(a: AmodeArrangement)
    ensures
        a.front_pair() matches Some((l, r)) ==> r == l + 1 && a.channels() is Some && r
            < a.channels().unwrap(),
        a.surround_pair() matches Some((l, r)) ==> r == l + 1 && a.channels() is Some && r
            < a.channels().unwrap() && a.front_pair() is Some && a.front_pair().unwrap().1 < l,
{
}

/// What an arrangement code stands for. Codes from 16 are user-defined.
pub open spec fn arrangement_of(amode: u8) -> AmodeArrangement {
    if amode == 0 {
        AmodeArrangement::Mono
    } else if amode == 1 {
        AmodeArrangement::DualMono
    } else if amode == 2 {
        AmodeArrangement::Stereo
    } else if amode == 3 {
        AmodeArrangement::SumDifference
    } else if amode == 4 {
        AmodeArrangement::LtRt
    } else if amode == 5 {
        AmodeArrangement::ClR
    } else if amode == 6 {
        AmodeArrangement::LrS
    } else if amode == 7 {
        AmodeArrangement::ClRS
    } else if amode == 8 {
        AmodeArrangement::LrSlSr
    } else if amode == 9 {
        AmodeArrangement::ClRSlSr
    } else if amode == 10 {
        AmodeArrangement::ClCrLRSlSr
    } else if amode == 11 {
        AmodeArrangement::ClRLrRrOv
    } else if amode == 12 {
        AmodeArrangement::CfCrLfRfLrRr
    } else if amode == 13 {
        AmodeArrangement::ClCCrLRSlSr
    } else if amode == 14 {
        AmodeArrangement::ClCrLRSl1Sl2Sr1Sr2
    } else if amode == 15 {
        AmodeArrangement::ClCCrLRSlSSr
    } else {
        AmodeArrangement::UserDefined((amode % 64) as u8)
    }
}

/// What an arrangement code stands for. Codes from 16 are user-defined.
pub fn amode_arrangement_from_index(amode: u8) -> (r: AmodeArrangement)
    ensures
        r == arrangement_of(amode),
{
    match amode {
        0 => AmodeArrangement::Mono,
        1 => AmodeArrangement::DualMono,
        2 => AmodeArrangement::Stereo,
        3 => AmodeArrangement::SumDifference,
        4 => AmodeArrangement::LtRt,
        5 => AmodeArrangement::ClR,
        6 => AmodeArrangement::LrS,
        7 => AmodeArrangement::ClRS,
        8 => AmodeArrangement::LrSlSr,
        9 => AmodeArrangement::ClRSlSr,
        10 => AmodeArrangement::ClCrLRSlSr,
        11 => AmodeArrangement::ClRLrRrOv,
        12 => AmodeArrangement::CfCrLfRfLrRr,
        13 => AmodeArrangement::ClCCrLRSlSr,
        14 => AmodeArrangement::ClCrLRSl1Sl2Sr1Sr2,
        15 => AmodeArrangement::ClCCrLRSlSSr,
        code => AmodeArrangement::UserDefined(code % 64),
    }
}

/// The resolution of the source samples.
#[derive(Debug, Clone, Copy, PartialEq, Eq, Hash, Structural)]
#[non_exhaustive]
pub enum SourcePcmResolution {
    /// A defined code.
    Valid {
        /// Bits per sample.
        bits: u8,
        /// Whether the stream carries extended surround.
        es: bool,
    },
    /// A reserved code.
    Invalid,
}

/// What the low three bits of a resolution code stand for.
pub open spec fn source_resolution_of(pcmr_index: u8) -> SourcePcmResolution {
    let code: int = pcmr_index as int % 8;
    if code == 0 || code == 1 {
        SourcePcmResolution::Valid { bits: 16, es: code == 1 }
    } else if code == 2 || code == 3 {
        SourcePcmResolution::Valid { bits: 20, es: code == 3 }
    } else if code == 6 || code == 5 {
        SourcePcmResolution::Valid { bits: 24, es: code == 5 }
    } else {
        SourcePcmResolution::Invalid
    }
}

/// What the low three bits of a resolution code stand for.
pub fn source_pcm_resolution_from_index(pcmr_index: u8) -> (r: SourcePcmResolution)
    ensures
        r == source_resolution_of(pcmr_index),
{
    match pcmr_index % 8 {
        0 => SourcePcmResolution::Valid { bits: 16, es: false },
        1 => SourcePcmResolution::Valid { bits: 16, es: true },
        2 => SourcePcmResolution::Valid { bits: 20, es: false },
        3 => SourcePcmResolution::Valid { bits: 20, es: true },
        6 => SourcePcmResolution::Valid { bits: 24, es: false },
        5 => SourcePcmResolution::Valid { bits: 24, es: true },
        _ => SourcePcmResolution::Invalid,
    }
}

/// The dialog normalization of a frame.
#[derive(Debug, Clone, Copy, PartialEq, Eq, Hash, Structural)]
#[non_exhaustive]
pub enum DialogNormalization {
    /// A gain in decibels.
    Fixed(i8),
    /// The version of the stream defines none.
    Unspecified,
}

impl DialogNormalization {
    /// The gain in decibels; an unspecified one is zero.
    pub open spec fn gain(self) -> int {
        match self {
            DialogNormalization::Fixed(db) => db as int,
            DialogNormalization::Unspecified => 0,
        }
    }

    /// The gain in decibels; an unspecified one is zero.
    pub fn gain_db(self) -> (r: i8)
        ensures
            r == self.gain(),
    {
        match self {
            DialogNormalization::Fixed(db) => db,
            DialogNormalization::Unspecified => 0,
        }
    }
}

/// The dialog normalization of a version and a normalization code, of which
/// the low four bits count: version 7 reaches from 0 down to -15, version 6
/// from -16 down to -31.
pub open spec fn dialog_normalization_of(vernum: u8, dialnorm: u8) -> DialogNormalization {
    let code: int = dialnorm as int % 16;
    if vernum % 16 == 7 {
        DialogNormalization::Fixed((-code) as i8)
    } else if vernum % 16 == 6 {
        DialogNormalization::Fixed((-code - 16) as i8)
    } else {
        DialogNormalization::Unspecified
    }
}

/// The dialog normalization of a version and a normalization code.
pub fn dialog_normalization_from_codes(vernum: u8, dialnorm: u8) -> (r: DialogNormalization)
    ensures
        r == dialog_normalization_of(vernum, dialnorm),
{
    let code: i8 = (dialnorm % 16) as i8;
    match vernum % 16 {
        7 => DialogNormalization::Fixed(-code),
        6 => DialogNormalization::Fixed(-code - 16),
        _ => DialogNormalization::Unspecified,
    }
}

/// A dialog normalization never amplifies and attenuates by at most 31 dB.
pub proof fn law_dialog_normalization_range(vernum: u8, dialnorm: u8)
    ensures
        -31 <= dialog_normalization_of(vernum, dialnorm).gain() <= 0,
{
}

/// The fields of a frame header.
#[derive(Debug, Clone, Copy, PartialEq, Eq, Hash)]
pub struct DtsFrameHeader {
    /// The sync sequence that opened the frame.
    pub sync_word_encoding: SyncWordEncoding,
    /// Whether the frame ends the stream.
    pub frame_type: FrameType,
    /// The deficit sample count plus one, 1 to 32.
    pub sample_count_per_block: u8,
    /// Whether check words are present.
    pub crc_present: bool,
    /// The number of 32-sample blocks minus one, 5 to 127.
    pub blocks_per_frame: u8,
    /// The frame size in bytes, 95 to 16384.
    pub frame_size_bytes: u16,
    /// The channel arrangement code.
    pub amode: u8,
    /// The sampling frequency code.
    pub sfreq_index: u8,
    /// The bit rate code.
    pub rate_index: u8,
    /// Whether embedded downmix coefficients are present.
    pub downmix: bool,
    /// Whether embedded dynamic range coefficients are present.
    pub dynamic_range: bool,
    /// Whether a time stamp is present.
    pub time_stamp: bool,
    /// Whether auxiliary data is present.
    pub aux_data: bool,
    /// Whether the source is an HDCD master.
    pub hdcd: bool,
    /// The extension audio descriptor.
    pub ext_descr: u8,
    /// Whether extension audio is present.
    pub ext_coding: bool,
    /// Whether a check word follows every subsubframe.
    pub aspf: bool,
    /// The low-frequency-effects mode.
    pub lfe: LfeMode,
    /// Whether prediction uses the history of the previous frame.
    pub predictor_history: bool,
    /// The header check word, where check words are present.
    pub header_crc: Option<u16>,
    /// The interpolator switch.
    pub multirate_inter: bool,
    /// The encoder software revision.
    pub version: u8,
    /// The copy history code.
    pub copy_history: u8,
    /// The source resolution code.
    pub source_pcm_resolution_index: u8,
    /// Whether the front channels are coded as sum and difference.
    pub front_sum: bool,
    /// Whether the surround channels are coded as sum and difference.
    pub surround_sum: bool,
    /// The dialog normalization code.
    pub dialog_normalization: u8,
}

impl DtsFrameHeader {
    /// The length of the header in bytes.
    pub open spec fn byte_length(self) -> nat {
        if self.crc_present {
            15
        } else {
            13
        }
    }

    /// The bytes that the frame takes in a stream of the given encoding.
    pub open spec fn container_bytes(self, encoding: SyncWordEncoding) -> nat {
        if encoding.raw() {
            self.frame_size_bytes as nat
        } else {
            2 * container_count(self.frame_size_bytes as nat)
        }
    }

    /// The sampling frequency in hertz, unless its code is reserved.
    pub fn sample_rate_hz(&self) -> (r: Option<u32>)
        ensures
            r == (match sample_frequency_of(self.sfreq_index) {
                SampleFrequency::Fixed(hz) => Some(hz),
                SampleFrequency::Invalid => None,
            }),
    {
        match self.sample_frequency() {
            SampleFrequency::Fixed(hz) => Some(hz),
            SampleFrequency::Invalid => None,
        }
    }

    /// The sampling frequency.
    pub fn sample_frequency(&self) -> (r: SampleFrequency)
        ensures
            r == sample_frequency_of(self.sfreq_index),
    {
        sample_frequency_from_index(self.sfreq_index)
    }

    /// The bit rate that the frame is coded for.
    pub fn targeted_bit_rate(&self) -> (r: TargetedBitRate)
        ensures
            r == bit_rate_of(self.rate_index),
    {
        targeted_bit_rate_from_index(self.rate_index)
    }

    /// The bit rate in bits per second, where the code names one.
    pub fn bit_rate_bps(&self) -> (r: Option<u32>)
        ensures
            r == (match bit_rate_of(self.rate_index) {
                TargetedBitRate::Fixed(bps) => Some(bps),
                _ => None,
            }),
    {
        match self.targeted_bit_rate() {
            TargetedBitRate::Fixed(bps) => Some(bps),
            TargetedBitRate::Open | TargetedBitRate::Invalid => None,
        }
    }

    /// The number of primary channels, unless the arrangement is user-defined.
    pub fn channel_count(&self) -> (r: Option<u8>)
        ensures
            r == arrangement_of(self.amode).channels(),
    {
        self.amode_arrangement().channel_count()
    }

    /// The speaker arrangement.
    pub fn amode_arrangement(&self) -> (r: AmodeArrangement)
        ensures
            r == arrangement_of(self.amode),
    {
        amode_arrangement_from_index(self.amode)
    }

    /// The bits per source sample, unless the code is reserved.
    pub fn source_pcm_bits_per_sample(&self) -> (r: Option<u8>)
        ensures
            r == (match source_resolution_of(self.source_pcm_resolution_index) {
                SourcePcmResolution::Valid { bits, es } => Some(bits),
                SourcePcmResolution::Invalid => None,
            }),
    {
        match self.source_pcm_resolution() {
            SourcePcmResolution::Valid { bits, .. } => Some(bits),
            SourcePcmResolution::Invalid => None,
        }
    }

    /// The resolution of the source samples.
    pub fn source_pcm_resolution(&self) -> (r: SourcePcmResolution)
        ensures
            r == source_resolution_of(self.source_pcm_resolution_index),
    {
        source_pcm_resolution_from_index(self.source_pcm_resolution_index)
    }

    /// The synthesis filter that the interpolator switch selects.
    #[must_use]
    pub fn filter_bank_selection(&self) -> (r: FilterBankSelection)
        ensures
            r == (if self.multirate_inter {
                FilterBankSelection::PerfectReconstruction
            } else {
                FilterBankSelection::NonPerfectReconstruction
            }),
    {
        FilterBankSelection::from_filts(
            if self.multirate_inter {
                1
            } else {
                0
            },
        )
    }

    /// The full scale of the output samples: two to the source bits minus one.
    #[must_use]
    pub fn output_r_scale(&self) -> (r: Option<u32>)
        ensures
            match source_resolution_of(self.source_pcm_resolution_index) {
                SourcePcmResolution::Valid { bits, es } => r matches Some(scale) && scale == pow2(
                    (bits - 1) as nat,
                ),
                SourcePcmResolution::Invalid => r is None,
            },
    {
        proof {
            lemma2_to64();
        }
        match self.source_pcm_bits_per_sample() {
            Some(16) => Some(0x8000),
            Some(20) => Some(0x8_0000),
            Some(_) => Some(0x80_0000),
            None => None,
        }
    }

    /// The number of samples that are to be padded behind a termination frame in each
    /// channel: the deficit sample count plus one. Another frame has none.
    pub fn termination_pad_samples(&self) -> (r: Option<u8>)
        ensures
            r == (match self.frame_type {
                FrameType::Termination => Some(self.sample_count_per_block),
                FrameType::Normal => None,
            }),
    {
        match self.frame_type {
            FrameType::Termination => Some(self.sample_count_per_block),
            FrameType::Normal => None,
        }
    }

    /// The dialog normalization gain in decibels, zero where none is specified.
    pub fn dialog_normalization_db(&self) -> (r: Option<i8>)
        ensures
            r matches Some(db) && db == dialog_normalization_of(
                self.version,
                self.dialog_normalization,
            ).gain(),
    {
        Some(self.dialog_normalization_gain().gain_db())
    }

    /// The dialog normalization.
    pub fn dialog_normalization_gain(&self) -> (r: DialogNormalization)
        ensures
            r == dialog_normalization_of(self.version, self.dialog_normalization),
    {
        dialog_normalization_from_codes(self.version, self.dialog_normalization)
    }

    /// The outcome of a header check. The header check word is not to be
    /// tested by a decoder, so there is none.
    pub fn verify_header_crc(&self) -> (r: Option<bool>)
        ensures
            r is None,
    {
        None
    }

    /// The length of the header in bits.
    pub fn header_bit_length(&self) -> (r: u32)
        ensures
            r == 8 * self.byte_length(),
    {
        if self.crc_present {
            120
        } else {
            104
        }
    }

    /// The length of the header in bytes.
    pub fn header_byte_length(&self) -> (r: usize)
        ensures
            r == self.byte_length(),
    {
        (self.header_bit_length() / 8) as usize
    }

    /// The bytes that the frame takes in a stream of the given encoding.
    pub fn frame_size_container_bytes(&self, encoding: SyncWordEncoding) -> (r: u32)
        ensures
            r == self.container_bytes(encoding),
    {
        let logical_bytes: u32 = self.frame_size_bytes as u32;
        if encoding.is_raw_16bit() {
            return logical_bytes;
        }
        let logical_bits: u32 = logical_bytes * 8;
        let container_words: u32 = (logical_bits + 13) / 14;
        container_words * 2
    }
}

/// A packed frame takes whole container words, and more bytes than the frame
/// that it carries.
pub proof fn law_container_bytes_even_and_larger(h: DtsFrameHeader, encoding: SyncWordEncoding)
    requires
        !encoding.raw(),
    ensures
        h.container_bytes(encoding) % 2 == 0,
        h.frame_size_bytes > 0 ==> h.container_bytes(encoding) > h.frame_size_bytes,
        7 * h.container_bytes(encoding) >= 8 * h.frame_size_bytes,
{
}

} // verus!
