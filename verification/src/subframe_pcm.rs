//! From subframes to samples: what has to hold before a subframe is decoded,
//! in which order its parts come, and what is done with its samples.

use crate::audio_header::AudioCodingHeader;
use crate::error::Error;
use crate::filter_bank::FilterBankSelection;
use crate::header::{
    arrangement_of, source_resolution_of, AmodeArrangement, DtsFrameHeader, SourcePcmResolution,
};
use crate::subframe::{ChannelSideInfo, ChannelSideInfoParams, VqCodebooks};
use vstd::prelude::*;

verus! {

/// The number of output samples of one row of subband samples.
pub const PCM_PER_SUBBAND_ROW: usize = 32;

/// The samples of a subframe or a frame, channel by channel.
pub type SubframePcm = Vec<Vec<i32>>;

/// What can be wrong with the audio data of a subframe.
#[derive(Debug, Clone, Copy, PartialEq, Eq)]
#[non_exhaustive]
pub enum AudioArrayError {
    /// The subframe needs a vector code book that is not attached.
    VqCodebookUnavailable {
        /// The channel.
        ch: usize,
        /// The subband.
        n: usize,
        /// Whether it is the book of the high subbands; else it is the book of
        /// the prediction coefficients.
        high_frequency_vq: bool,
    },
}

/// Why the audio data of a subframe could not be read.
#[derive(Debug, Clone, Copy, PartialEq, Eq)]
#[non_exhaustive]
pub enum AudioArrayDecodeError {
    /// The structure of the audio data.
    Array(AudioArrayError),
    /// The bit stream.
    Bitstream(Error),
}

/// Why the synthesis of a subframe failed.
#[derive(Debug, Clone, Copy, PartialEq, Eq)]
#[non_exhaustive]
pub enum MultiChannelQmfError {
    /// The number of channels is not the configured one.
    ChannelCountMismatch {
        /// The configured number.
        expected: usize,
        /// The number that was given.
        got: usize,
    },
    /// A channel has another number of rows than the first one.
    RowCountMismatch {
        /// The channel.
        ch: usize,
    },
}

/// Why a subframe could not be turned into samples.
#[derive(Debug, Clone, Copy, PartialEq, Eq)]
#[non_exhaustive]
pub enum SubframePcmError {
    /// The audio data could not be read.
    AudioData(AudioArrayDecodeError),
    /// The synthesis failed.
    Synthesis(MultiChannelQmfError),
    /// A channel is jointly coded and no joint scale factors were given.
    JointSubbandUnsupported {
        /// The channel.
        ch: usize,
        /// Its joint coding source, counted from one.
        joinx: u8,
    },
    /// The source resolution code is reserved, so that the output scale is undefined.
    ReservedPcmResolution {
        /// The code.
        pcmr: u8,
    },
    /// The number of channels is not the configured one.
    ChannelCountMismatch {
        /// The configured number.
        expected: usize,
        /// The number that was given.
        got: usize,
    },
    /// The subband samples of a channel do not fit what is to be done to them.
    JointSubbandShape {
        /// The channel.
        ch: usize,
    },
    /// A normal frame signals a partial subsubframe.
    PartialSubsubframeInNormalFrame {
        /// The subframe.
        subframe: usize,
        /// The partial sample count.
        psc: u8,
    },
}

/// Why a frame could not be decoded.
#[derive(Debug, Clone, Copy, PartialEq, Eq)]
#[non_exhaustive]
pub enum CoreFrameDecodeError {
    /// The side information has a tail that is not decoded.
    UnsupportedSideInfoTail {
        /// Dynamic range codes are present.
        dynamic_range: bool,
        /// A check word is present.
        side_info_crc: bool,
        /// Joint scale factors are present.
        joint_intensity: bool,
    },
    /// A subframe could not be turned into samples.
    Decode(SubframePcmError),
    /// A header could not be read.
    Bitstream(Error),
}

/// The first of the channels from `from` to `to` that is jointly coded.
pub open spec fn first_joint(joinx: Seq<u8>, from: int, to: int) -> Option<int>
    decreases to - from,
{
    if from >= to || from >= joinx.len() {
        None
    } else if joinx[from] > 0 {
        Some(from)
    } else {
        first_joint(joinx, from + 1, to)
    }
}

/// The first of the channels from `from` to `to` with vector-quantized high
/// subbands.
pub open spec fn first_hf_vq(params: Seq<ChannelSideInfoParams>, from: int, to: int) -> Option<int>
    decreases to - from,
{
    if from >= to {
        None
    } else if params[from].n_vqsub < params[from].n_subs {
        Some(from)
    } else {
        first_hf_vq(params, from + 1, to)
    }
}

/// The first of the subbands from `from` to `to` that is predicted.
pub open spec fn first_predicted(pmode: Seq<u8>, from: int, to: int) -> Option<int>
    decreases to - from,
{
    if from >= to {
        None
    } else if pmode[from] != 0 {
        Some(from)
    } else {
        first_predicted(pmode, from + 1, to)
    }
}

/// The first channel from `from` on with a predicted subband, and that subband.
pub open spec fn first_prediction(
    side: Seq<ChannelSideInfo>,
    params: Seq<ChannelSideInfoParams>,
    from: int,
) -> Option<(int, int)>
    decreases side.len() - from,
{
    if from >= side.len() {
        None
    } else {
        match first_predicted(side[from].pmode@, 0, params[from].n_vqsub as int) {
            Some(n) => Some((from, n)),
            None => first_prediction(side, params, from + 1),
        }
    }
}

/// The error for a missing code book.
pub open spec fn book_missing(ch: int, n: int, high_frequency_vq: bool) -> SubframePcmError {
    SubframePcmError::AudioData(
        AudioArrayDecodeError::Array(
            AudioArrayError::VqCodebookUnavailable {
                ch: ch as usize,
                n: n as usize,
                high_frequency_vq,
            },
        ),
    )
}

/// Why a subframe cannot be decoded, before any of its bits is read.
/// `with_scales` says whether joint scale factors are at hand.
pub open spec fn subframe_error(
    channels: usize,
    books: VqCodebooks,
    header: DtsFrameHeader,
    coding: AudioCodingHeader,
    side: Seq<ChannelSideInfo>,
    with_scales: bool,
) -> Option<SubframePcmError> {
    let joint: Option<int> = first_joint(coding.joinx@, 0, channels as int);
    let high: Option<int> = first_hf_vq(coding.channel_params@, 0, channels as int);
    let predicted: Option<(int, int)> = first_prediction(side, coding.channel_params@, 0);
    if side.len() != channels {
        Some(
            SubframePcmError::ChannelCountMismatch { expected: channels, got: side.len() as usize },
        )
    } else if coding.n_pchs != channels {
        Some(SubframePcmError::ChannelCountMismatch { expected: channels, got: coding.n_pchs })
    } else if source_resolution_of(header.source_pcm_resolution_index) is Invalid {
        Some(
            SubframePcmError::ReservedPcmResolution { pcmr: header.source_pcm_resolution_index },
        )
    } else if !with_scales && joint is Some {
        Some(
            SubframePcmError::JointSubbandUnsupported {
                ch: joint.unwrap() as usize,
                joinx: coding.joinx@[joint.unwrap()],
            },
        )
    } else if !books.hfreq && high is Some {
        Some(
            book_missing(
                high.unwrap(),
                coding.channel_params@[high.unwrap()].n_vqsub as int,
                true,
            ),
        )
    } else if !books.adpcm && predicted is Some {
        Some(book_missing(predicted.unwrap().0, predicted.unwrap().1, false))
    } else {
        None
    }
}

/// Every channel has its bounds. The subbands that are looked at for prediction where
/// its book is missing are among the 32 of a channel.
pub open spec fn within_bounds(coding: AudioCodingHeader, books: VqCodebooks) -> bool {
    &&& coding.n_pchs <= coding.channel_params@.len()
    &&& !books.adpcm ==> forall|ch: int|
        0 <= ch < coding.n_pchs ==> (#[trigger] coding.channel_params@[ch]).n_vqsub <= 32
}

/// The rows of subband samples in a subframe of `n_ssc` subsubframes, the last
/// of which is cut short where `psc` is not zero.
pub open spec fn subframe_rows(n_ssc: int, psc: int) -> int {
    if psc > 0 {
        (n_ssc - 1) * 8 + psc
    } else {
        n_ssc * 8
    }
}

/// The number of subbands that channel `ch` has once the joint imports are
/// done: a jointly coded channel has as many as its source, where that has more.
pub open spec fn synthesis_subs_of(
    joinx: Seq<u8>,
    params: Seq<ChannelSideInfoParams>,
    channels: int,
    ch: int,
) -> usize {
    let source: int = joinx[ch] - 1;
    if ch < channels && ch < joinx.len() && 0 <= source < params.len() && params[source].n_subs
        > params[ch].n_subs {
        params[source].n_subs
    } else {
        params[ch].n_subs
    }
}

/// The pair of channels that is coded as sum and difference in front.
pub open spec fn front_mix(header: DtsFrameHeader) -> Option<(usize, usize)> {
    if header.front_sum || arrangement_of(header.amode) == AmodeArrangement::SumDifference {
        arrangement_of(header.amode).front_pair()
    } else {
        None
    }
}

/// The pair of surround channels that is coded as sum and difference.
pub open spec fn surround_mix(header: DtsFrameHeader) -> Option<(usize, usize)> {
    if header.surround_sum {
        arrangement_of(header.amode).surround_pair()
    } else {
        None
    }
}

/// How a subframe is decoded.
#[derive(Debug, Clone, PartialEq, Eq)]
pub struct SubframePlan {
    /// The rows of subband samples.
    pub rows: usize,
    /// Whether code book indices of high subbands come first.
    pub scan_hf_vq: bool,
    /// The low-frequency-effects code; zero is no such channel.
    pub lff: u8,
    /// The first vector-quantized subband of each channel.
    pub n_vqsub: Vec<usize>,
    /// The number of coded subbands of each channel.
    pub n_subs: Vec<usize>,
    /// The number of subbands of each channel for the synthesis.
    pub synthesis_subs: Vec<usize>,
    /// The front pair that is coded as sum and difference.
    pub front: Option<(usize, usize)>,
    /// The surround pair that is coded as sum and difference.
    pub surround: Option<(usize, usize)>,
    /// The synthesis filter.
    pub filter: FilterBankSelection,
    /// The bits per source sample; the output scale is two to one less.
    pub source_bits: u8,
}

impl SubframePlan {
    /// The plan is the one for the given subframe.
    pub open spec fn is_for(
        &self,
        channels: usize,
        header: DtsFrameHeader,
        coding: AudioCodingHeader,
        n_ssc: int,
        psc: int,
    ) -> bool {
        let params: Seq<ChannelSideInfoParams> = coding.channel_params@;
        &&& self.rows == subframe_rows(n_ssc, psc)
        &&& self.scan_hf_vq == (first_hf_vq(params, 0, channels as int) is Some)
        &&& self.lff == header.lfe.code_of()
        &&& self.n_vqsub@ == params.map_values(|p: ChannelSideInfoParams| p.n_vqsub)
        &&& self.n_subs@ == params.map_values(|p: ChannelSideInfoParams| p.n_subs)
        &&& self.synthesis_subs@ == Seq::new(
            params.len(),
            |ch: int| synthesis_subs_of(coding.joinx@, params, channels as int, ch),
        )
        &&& self.front == front_mix(header)
        &&& self.surround == surround_mix(header)
        &&& self.filter == (if header.multirate_inter {
            FilterBankSelection::PerfectReconstruction
        } else {
            FilterBankSelection::NonPerfectReconstruction
        })
        &&& source_resolution_of(header.source_pcm_resolution_index) matches
            SourcePcmResolution::Valid { bits, es } && bits == self.source_bits
    }
}

/// The first jointly coded channel.
fn find_joint(joinx: &Vec<u8>, channels: usize) -> (r: Option<usize>)
    ensures
        match r {
            Some(ch) => first_joint(joinx@, 0, channels as int) == Some(ch as int) && ch
                < joinx@.len(),
            None => first_joint(joinx@, 0, channels as int) is None,
        },
{
    let mut ch: usize = 0;
    while ch < channels && ch < joinx.len()
        invariant
            ch <= channels,
            ch <= joinx@.len(),
            first_joint(joinx@, 0, channels as int) == first_joint(
                joinx@,
                ch as int,
                channels as int,
            ),
        decreases channels - ch,
    {
        if joinx[ch] > 0 {
            return Some(ch);
        }
        ch = ch + 1;
    }
    None
}

/// The first channel with vector-quantized high subbands.
fn find_hf_vq(params: &Vec<ChannelSideInfoParams>, channels: usize) -> (r: Option<usize>)
    requires
        channels <= params@.len(),
    ensures
        match r {
            Some(ch) => first_hf_vq(params@, 0, channels as int) == Some(ch as int) && ch
                < channels,
            None => first_hf_vq(params@, 0, channels as int) is None,
        },
{
    let mut ch: usize = 0;
    while ch < channels
        invariant
            ch <= channels <= params@.len(),
            first_hf_vq(params@, 0, channels as int) == first_hf_vq(
                params@,
                ch as int,
                channels as int,
            ),
        decreases channels - ch,
    {
        if params[ch].n_vqsub < params[ch].n_subs {
            return Some(ch);
        }
        ch = ch + 1;
    }
    None
}

/// The first predicted subband below `limit`.
fn find_predicted(pmode: &[u8; 32], limit: usize) -> (r: Option<usize>)
    requires
        limit <= 32,
    ensures
        match r {
            Some(n) => first_predicted(pmode@, 0, limit as int) == Some(n as int),
            None => first_predicted(pmode@, 0, limit as int) is None,
        },
{
    let mut n: usize = 0;
    while n < limit
        invariant
            n <= limit <= 32,
            first_predicted(pmode@, 0, limit as int) == first_predicted(
                pmode@,
                n as int,
                limit as int,
            ),
        decreases limit - n,
    {
        if pmode[n] != 0 {
            return Some(n);
        }
        n = n + 1;
    }
    None
}

/// The first channel with a predicted subband, and that subband.
fn find_prediction(side: &[ChannelSideInfo], params: &Vec<ChannelSideInfoParams>) -> (r: Option<
    (usize, usize),
>)
    requires
        side@.len() <= params@.len(),
        forall|ch: int| 0 <= ch < side@.len() ==> (#[trigger] params@[ch]).n_vqsub <= 32,
    ensures
        match r {
            Some((ch, n)) => first_prediction(side@, params@, 0) == Some((ch as int, n as int)),
            None => first_prediction(side@, params@, 0) is None,
        },
{
    let mut ch: usize = 0;
    while ch < side.len()
        invariant
            ch <= side@.len() <= params@.len(),
            forall|c: int| 0 <= c < side@.len() ==> (#[trigger] params@[c]).n_vqsub <= 32,
            first_prediction(side@, params@, 0) == first_prediction(side@, params@, ch as int),
        decreases side@.len() - ch,
    {
        match find_predicted(&side[ch].pmode, params[ch].n_vqsub) {
            Some(n) => {
                return Some((ch, n));
            },
            None => {},
        }
        ch = ch + 1;
    }
    None
}

/// The subband counts for the synthesis.
fn synthesis_counts(coding: &AudioCodingHeader, channels: usize) -> (r: Vec<usize>)
    requires
        channels <= coding.channel_params@.len(),
    ensures
        r@ == Seq::new(
            coding.channel_params@.len(),
            |ch: int|
                synthesis_subs_of(coding.joinx@, coding.channel_params@, channels as int, ch),
        ),
{
    let mut out: Vec<usize> = Vec::new();
    let mut ch: usize = 0;
    while ch < coding.channel_params.len()
        invariant
            ch <= coding.channel_params@.len(),
            out@.len() == ch,
            forall|i: int|
                0 <= i < ch ==> out@[i] == synthesis_subs_of(
                    coding.joinx@,
                    coding.channel_params@,
                    channels as int,
                    i,
                ),
        decreases coding.channel_params@.len() - ch,
    {
        let own: usize = coding.channel_params[ch].n_subs;
        let mut count: usize = own;
        if ch < channels && ch < coding.joinx.len() && coding.joinx[ch] > 0 {
            let source: usize = (coding.joinx[ch] - 1) as usize;
            if source < coding.channel_params.len() && coding.channel_params[source].n_subs > own {
                count = coding.channel_params[source].n_subs;
            }
        }
        out.push(count);
        ch = ch + 1;
    }
    assert(out@ =~= Seq::new(
        coding.channel_params@.len(),
        |i: int| synthesis_subs_of(coding.joinx@, coding.channel_params@, channels as int, i),
    ));
    out
}

/// How a subframe is decoded, or why it cannot be: nothing of it is read before
/// this is settled.
pub fn plan_subframe(
    channels: usize,
    books: VqCodebooks,
    header: &DtsFrameHeader,
    coding: &AudioCodingHeader,
    side: &[ChannelSideInfo],
    n_ssc: usize,
    psc: u8,
    with_scales: bool,
) -> (r: Result<SubframePlan, SubframePcmError>)
    requires
        side@.len() == channels && coding.n_pchs == channels ==> {
            &&& within_bounds(*coding, books)
            &&& psc > 0 ==> n_ssc > 0
            &&& n_ssc * 8 + psc <= usize::MAX
        },
    ensures
        match r {
            Ok(plan) => {
                &&& subframe_error(channels, books, *header, *coding, side@, with_scales) is None
                &&& plan.is_for(channels, *header, *coding, n_ssc as int, psc as int)
            },
            Err(e) => subframe_error(channels, books, *header, *coding, side@, with_scales)
                == Some(e),
        },
{
    if side.len() != channels {
        return Err(
            SubframePcmError::ChannelCountMismatch { expected: channels, got: side.len() },
        );
    }
    if coding.n_pchs != channels {
        return Err(
            SubframePcmError::ChannelCountMismatch { expected: channels, got: coding.n_pchs },
        );
    }
    let source_bits: u8 = match header.source_pcm_bits_per_sample() {
        Some(bits) => bits,
        None => {
            return Err(
                SubframePcmError::ReservedPcmResolution {
                    pcmr: header.source_pcm_resolution_index,
                },
            );
        },
    };
    if !with_scales {
        if let Some(ch) = find_joint(&coding.joinx, channels) {
            return Err(
                SubframePcmError::JointSubbandUnsupported { ch, joinx: coding.joinx[ch] },
            );
        }
    }
    let high: Option<usize> = find_hf_vq(&coding.channel_params, channels);
    if !books.hfreq {
        if let Some(ch) = high {
            return Err(
                SubframePcmError::AudioData(
                    AudioArrayDecodeError::Array(
                        AudioArrayError::VqCodebookUnavailable {
                            ch,
                            n: coding.channel_params[ch].n_vqsub,
                            high_frequency_vq: true,
                        },
                    ),
                ),
            );
        }
    }
    if !books.adpcm {
        if let Some((ch, n)) = find_prediction(side, &coding.channel_params) {
            return Err(
                SubframePcmError::AudioData(
                    AudioArrayDecodeError::Array(
                        AudioArrayError::VqCodebookUnavailable { ch, n, high_frequency_vq: false },
                    ),
                ),
            );
        }
    }
    let rows: usize = if psc > 0 {
        (n_ssc - 1) * 8 + psc as usize
    } else {
        n_ssc * 8
    };
    let arrangement = header.amode_arrangement();
    let front: Option<(usize, usize)> = if header.front_sum || matches!(
        arrangement,
        AmodeArrangement::SumDifference
    ) {
        arrangement.front_lr_channels()
    } else {
        None
    };
    let surround: Option<(usize, usize)> = if header.surround_sum {
        arrangement.surround_lr_channels()
    } else {
        None
    };
    Ok(
        SubframePlan {
            rows,
            scan_hf_vq: high.is_some(),
            lff: header.lfe.code(),
            n_vqsub: coding.n_vqsub(),
            n_subs: coding.n_subs(),
            synthesis_subs: synthesis_counts(coding, channels),
            front,
            surround,
            filter: header.filter_bank_selection(),
            source_bits,
        },
    )
}

} // verus!
