//! Laws on the plan of a subframe: what it takes from the headers, and when a subframe
//! is refused before any of its bits is read.

use crate::audio_header::AudioCodingHeader;
use crate::filter_bank::FilterBankSelection;
use crate::header::{DtsFrameHeader, LfeMode};
use crate::subframe::{ChannelSideInfo, ChannelSideInfoParams, VqCodebooks};
use crate::subframe_pcm::{
    first_hf_vq, first_joint, first_predicted, first_prediction, subframe_error,
    AudioArrayDecodeError, AudioArrayError, SubframePcmError, SubframePlan,
};
use vstd::prelude::*;

verus! {

/// The first jointly coded channel is jointly coded, and none before it is.
proof fn lemma_first_joint(joinx: Seq<u8>, from: int, to: int)
    requires
        0 <= from,
    ensures
        match first_joint(joinx, from, to) {
            Some(ch) => {
                &&& from <= ch < to && ch < joinx.len() && joinx[ch] > 0
                &&& forall|c: int| from <= c < ch ==> #[trigger] joinx[c] == 0
            },
            None => forall|c: int|
                from <= c < to && c < joinx.len() ==> #[trigger] joinx[c] == 0,
        },
    decreases to - from,
{
    if from < to && from < joinx.len() && joinx[from] == 0 {
        lemma_first_joint(joinx, from + 1, to);
    }
}

/// The first channel with vector-quantized subbands has some, and none before it has.
proof fn lemma_first_hf_vq(params: Seq<ChannelSideInfoParams>, from: int, to: int)
    requires
        0 <= from,
    ensures
        match first_hf_vq(params, from, to) {
            Some(ch) => {
                &&& from <= ch < to && params[ch].n_vqsub < params[ch].n_subs
                &&& forall|c: int|
                    from <= c < ch ==> (#[trigger] params[c]).n_vqsub >= params[c].n_subs
            },
            None => forall|c: int|
                from <= c < to ==> (#[trigger] params[c]).n_vqsub >= params[c].n_subs,
        },
    decreases to - from,
{
    if from < to && params[from].n_vqsub >= params[from].n_subs {
        lemma_first_hf_vq(params, from + 1, to);
    }
}

/// The first predicted subband is predicted, and none before it is.
proof fn lemma_first_predicted(pmode: Seq<u8>, from: int, to: int)
    requires
        0 <= from,
    ensures
        match first_predicted(pmode, from, to) {
            Some(n) => {
                &&& from <= n < to && pmode[n] != 0
                &&& forall|m: int| from <= m < n ==> #[trigger] pmode[m] == 0
            },
            None => forall|m: int| from <= m < to ==> #[trigger] pmode[m] == 0,
        },
    decreases to - from,
{
    if from < to && pmode[from] == 0 {
        lemma_first_predicted(pmode, from + 1, to);
    }
}

/// A channel has a predicted subband below its vector-quantized ones.
pub open spec fn is_predicted(side: ChannelSideInfo, params: ChannelSideInfoParams) -> bool {
    exists|n: int| 0 <= n < params.n_vqsub && #[trigger] side.pmode@[n] != 0
}

/// The first channel with a predicted subband has one, and none before it has.
proof fn lemma_first_prediction(
    side: Seq<ChannelSideInfo>,
    params: Seq<ChannelSideInfoParams>,
    from: int,
)
    requires
        0 <= from,
    ensures
        match first_prediction(side, params, from) {
            Some((ch, n)) => {
                &&& from <= ch < side.len() && 0 <= n < params[ch].n_vqsub
                &&& side[ch].pmode@[n] != 0
                &&& forall|m: int| 0 <= m < n ==> #[trigger] side[ch].pmode@[m] == 0
                &&& forall|c: int| from <= c < ch ==> !is_predicted(#[trigger] side[c], params[c])
            },
            None => forall|c: int|
                from <= c < side.len() ==> !is_predicted(#[trigger] side[c], params[c]),
        },
    decreases side.len() - from,
{
    if from < side.len() {
        lemma_first_predicted(side[from].pmode@, 0, params[from].n_vqsub as int);
        lemma_first_prediction(side, params, from + 1);
    }
}

/// The index of the left front channel of an arrangement code; the right one is the
/// next.
pub open spec fn front_left(amode: u8) -> Option<usize> {
    if amode == 2 || amode == 3 || amode == 4 || amode == 6 || amode == 8 {
        Some(0)
    } else if amode == 5 || amode == 7 || amode == 9 {
        Some(1)
    } else if amode == 10 || amode == 14 {
        Some(2)
    } else if amode == 13 || amode == 15 {
        Some(3)
    } else {
        None
    }
}

/// The index of the left surround channel of an arrangement code; the right one is the
/// next.
pub open spec fn surround_left(amode: u8) -> Option<usize> {
    if amode == 8 {
        Some(2)
    } else if amode == 9 {
        Some(3)
    } else if amode == 10 {
        Some(4)
    } else if amode == 13 {
        Some(5)
    } else {
        None
    }
}

/// What a plan takes from the headers.
pub proof fn law_plan_follows_the_headers(
    plan: SubframePlan,
    channels: usize,
    header: DtsFrameHeader,
    coding: AudioCodingHeader,
    n_ssc: int,
    psc: int,
)
    requires
        plan.is_for(channels, header, coding, n_ssc, psc),
    ensures
        psc == 0 ==> plan.rows == 8 * n_ssc,
        psc > 0 ==> plan.rows == 8 * n_ssc - 8 + psc,
        plan.scan_hf_vq <==> exists|ch: int|
            0 <= ch < channels && (#[trigger] coding.channel_params@[ch]).n_vqsub
                < coding.channel_params@[ch].n_subs,
        plan.lff == (match header.lfe {
            LfeMode::Absent => 0u8,
            LfeMode::Mode1 => 1,
            LfeMode::Mode2 => 2,
            LfeMode::Mode3 => 3,
        }),
        plan.n_vqsub@.len() == coding.channel_params@.len(),
        plan.n_subs@.len() == coding.channel_params@.len(),
        plan.synthesis_subs@.len() == coding.channel_params@.len(),
        forall|ch: int|
            0 <= ch < coding.channel_params@.len() ==> {
                &&& plan.n_vqsub@[ch] == (#[trigger] coding.channel_params@[ch]).n_vqsub
                &&& plan.n_subs@[ch] == coding.channel_params@[ch].n_subs
            },
        plan.filter == (if header.multirate_inter {
            FilterBankSelection::PerfectReconstruction
        } else {
            FilterBankSelection::NonPerfectReconstruction
        }),
        plan.source_bits == (match header.source_pcm_resolution_index % 8 {
            0 => 16u8,
            1 => 16,
            2 => 20,
            3 => 20,
            5 => 24,
            _ => 24,
        }),
        header.source_pcm_resolution_index % 8 != 4 && header.source_pcm_resolution_index % 8 != 7,
{
    lemma_first_hf_vq(coding.channel_params@, 0, channels as int);
}

/// A jointly coded channel is synthesized with the subbands of its source, where that
/// has more. Every other channel is synthesized with its own.
pub proof fn law_joint_channels_widen(
    plan: SubframePlan,
    channels: usize,
    header: DtsFrameHeader,
    coding: AudioCodingHeader,
    n_ssc: int,
    psc: int,
    ch: int,
)
    requires
        plan.is_for(channels, header, coding, n_ssc, psc),
        0 <= ch < channels,
        ch < coding.channel_params@.len(),
        ch < coding.joinx@.len(),
    ensures
        plan.synthesis_subs@[ch] >= coding.channel_params@[ch].n_subs,
        coding.joinx@[ch] == 0 ==> plan.synthesis_subs@[ch] == coding.channel_params@[ch].n_subs,
        1 <= coding.joinx@[ch] <= coding.channel_params@.len() ==> {
            let source: usize = coding.channel_params@[coding.joinx@[ch] - 1].n_subs;
            &&& plan.synthesis_subs@[ch] >= source
            &&& plan.synthesis_subs@[ch] == source || plan.synthesis_subs@[ch]
                == coding.channel_params@[ch].n_subs
        },
{
}

/// The front pair is mixed where the header says that it is coded as sum and
/// difference or the arrangement is one, and the surround pair where the header says
/// so. Both are left and right as the arrangement orders its channels.
pub proof fn law_pairs_follow_the_arrangement(
    plan: SubframePlan,
    channels: usize,
    header: DtsFrameHeader,
    coding: AudioCodingHeader,
    n_ssc: int,
    psc: int,
)
    requires
        plan.is_for(channels, header, coding, n_ssc, psc),
    ensures
        match front_left(header.amode) {
            Some(l) => plan.front == (if header.front_sum || header.amode == 3 {
                Some((l, (l + 1) as usize))
            } else {
                None::<(usize, usize)>
            }),
            None => plan.front is None,
        },
        match surround_left(header.amode) {
            Some(l) => plan.surround == (if header.surround_sum {
                Some((l, (l + 1) as usize))
            } else {
                None::<(usize, usize)>
            }),
            None => plan.surround is None,
        },
{
}

/// A subframe is accepted exactly where the numbers of channels agree, the source
/// resolution is defined, jointly coded channels have factors, and the code books that
/// it needs are attached.
pub proof fn law_which_subframes_are_accepted(
    channels: usize,
    books: VqCodebooks,
    header: DtsFrameHeader,
    coding: AudioCodingHeader,
    side: Seq<ChannelSideInfo>,
    with_scales: bool,
)
    ensures
        subframe_error(channels, books, header, coding, side, with_scales) is None <==> {
            &&& side.len() == channels
            &&& coding.n_pchs == channels
            &&& header.source_pcm_resolution_index % 8 != 4
            &&& header.source_pcm_resolution_index % 8 != 7
            &&& with_scales || forall|ch: int|
                0 <= ch < channels && ch < coding.joinx@.len() ==> #[trigger] coding.joinx@[ch] == 0
            &&& books.hfreq || forall|ch: int|
                0 <= ch < channels ==> (#[trigger] coding.channel_params@[ch]).n_vqsub
                    >= coding.channel_params@[ch].n_subs
            &&& books.adpcm || forall|ch: int|
                0 <= ch < channels ==> !is_predicted(
                    #[trigger] side[ch],
                    coding.channel_params@[ch],
                )
        },
{
    lemma_first_joint(coding.joinx@, 0, channels as int);
    lemma_first_hf_vq(coding.channel_params@, 0, channels as int);
    lemma_first_prediction(side, coding.channel_params@, 0);
}

/// What the refusal of a subframe names: the numbers of channels, the reserved code,
/// the first jointly coded channel with its source, or the first channel and subband
/// that need a missing book.
pub proof fn law_what_a_refusal_names(
    channels: usize,
    books: VqCodebooks,
    header: DtsFrameHeader,
    coding: AudioCodingHeader,
    side: Seq<ChannelSideInfo>,
    with_scales: bool,
    e: SubframePcmError,
)
    requires
        side.len() <= usize::MAX,
        coding.joinx@.len() <= usize::MAX,
        subframe_error(channels, books, header, coding, side, with_scales) == Some(e),
    ensures
        match e {
            SubframePcmError::ChannelCountMismatch { expected, got } => {
                &&& expected == channels
                &&& got != channels
                &&& got == (if side.len() != channels {
                    side.len()
                } else {
                    coding.n_pchs as nat
                })
            },
            SubframePcmError::ReservedPcmResolution { pcmr } => pcmr
                == header.source_pcm_resolution_index && (pcmr % 8 == 4 || pcmr % 8 == 7),
            SubframePcmError::JointSubbandUnsupported { ch, joinx } => {
                &&& !with_scales
                &&& ch < channels && ch < coding.joinx@.len()
                &&& joinx == coding.joinx@[ch as int] && joinx > 0
                &&& forall|c: int| 0 <= c < ch ==> #[trigger] coding.joinx@[c] == 0
            },
            SubframePcmError::AudioData(
                AudioArrayDecodeError::Array(
                    AudioArrayError::VqCodebookUnavailable { ch, n, high_frequency_vq },
                ),
            ) => {
                &&& ch < channels
                &&& high_frequency_vq ==> {
                    &&& !books.hfreq
                    &&& n == coding.channel_params@[ch as int].n_vqsub
                    &&& n < coding.channel_params@[ch as int].n_subs
                }
                &&& !high_frequency_vq ==> {
                    &&& !books.adpcm
                    &&& n < coding.channel_params@[ch as int].n_vqsub
                    &&& side[ch as int].pmode@[n as int] != 0
                    &&& forall|m: int| 0 <= m < n ==> #[trigger] side[ch as int].pmode@[m] == 0
                    &&& forall|c: int|
                        0 <= c < ch ==> !is_predicted(
                            #[trigger] side[c],
                            coding.channel_params@[c],
                        )
                }
            },
            _ => false,
        },
{
    lemma_first_joint(coding.joinx@, 0, channels as int);
    lemma_first_hf_vq(coding.channel_params@, 0, channels as int);
    lemma_first_prediction(side, coding.channel_params@, 0);
}

} // verus!
