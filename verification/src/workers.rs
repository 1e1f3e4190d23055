//! The work of a decoder that is handed in: the readers of coded samples, the
//! filters, and the arithmetic on samples. The state that readers and filters
//! carry from one subframe to the next is of any kind `S`, and a subband sample
//! is of any kind `T`.

use crate::audio_header::AudioCodingHeader;
use crate::error::Error;
use crate::gain::{gained, windows_scaled};
use crate::header::DtsFrameHeader;
use crate::subband_mix::mixed;
use crate::subframe::{ChannelSideInfo, SideInfoTail, SubframeSideInfo, VqCodebooks};
use crate::subframe_pcm::{AudioArrayDecodeError, MultiChannelQmfError, SubframePlan};
use vstd::prelude::*;

verus! {

/// What the reader of the audio data goes by.
#[derive(Debug, Clone, Copy)]
pub struct AudioJob<'a> {
    /// The header of the frame.
    pub header: &'a DtsFrameHeader,
    /// The audio coding header of the frame.
    pub coding: &'a AudioCodingHeader,
    /// The side information of each channel.
    pub side: &'a [ChannelSideInfo],
    /// How the subframe is decoded.
    pub plan: &'a SubframePlan,
    /// The attached code books. Without the book of the prediction coefficients
    /// there is no prediction, and its history stays as it is.
    pub books: VqCodebooks,
    /// The code book indices of the high subbands, where they were read.
    pub hf_indices: Option<&'a Vec<Vec<u16>>>,
    /// The number of subsubframes.
    pub n_ssc: usize,
    /// The samples in a partial subsubframe; zero is none.
    pub psc: u8,
    /// Whether a check word follows every subsubframe.
    pub aspf: bool,
}

/// What the reader of the code book indices gives: the indices of each channel
/// and the number of bits that they took.
pub type IndexReply = Result<(Vec<Vec<u16>>, usize), AudioArrayDecodeError>;

/// What the reader of the low-frequency-effects samples gives: the state behind
/// it, the interpolated samples, and the number of bits that they took.
pub type LowReply<S> = (S, Result<(Vec<i32>, usize), AudioArrayDecodeError>);

/// What the reader of the audio data gives: the state behind it, the subband
/// samples of each channel row by row, and the number of bits that they took.
pub type AudioReply<S, T> = (S, Result<(Vec<Vec<[T; 32]>>, usize), AudioArrayDecodeError>);

/// What the synthesis gives: the state behind it and the samples of each channel.
pub type SynthesisReply<S> = (S, Result<Vec<Vec<i32>>, MultiChannelQmfError>);

/// What the reader of the side information gives: the side information and the
/// number of bits that it took.
pub type SideReply = Result<(SubframeSideInfo, usize), Error>;

/// What the reader of the tail gives: the tail and the number of bits that it took.
pub type TailReply<T> = Result<(SideInfoTail<T>, usize), Error>;

/// The work on one subframe.
pub struct SubframeWorkers<H, L, A, Q, P, U, M> {
    /// Reads the code book indices of the high subbands.
    pub indices: H,
    /// Reads and interpolates the low-frequency-effects samples: from the state,
    /// the bytes, the bit, the code of the channel and the number of subsubframes.
    pub low: L,
    /// Reads the audio data.
    pub audio: A,
    /// Turns the subband samples of so many channels into samples.
    pub synthesize: Q,
    /// The product of a joint scale factor and a subband sample.
    pub times: P,
    /// The sum of two subband samples.
    pub plus: U,
    /// The difference of two subband samples.
    pub minus: M,
}

/// What the workers on a subframe may do, as relations between what they are
/// given and what they give.
#[verifier::reject_recursive_types(S)]
#[verifier::reject_recursive_types(T)]
pub struct SubframeBehaviour<'a, S, T> {
    /// The reader of the code book indices.
    pub indices: spec_fn(&'a [u8], usize, SubframePlan, IndexReply) -> bool,
    /// The reader of the low-frequency-effects samples.
    pub low: spec_fn(S, &'a [u8], usize, u8, usize, LowReply<S>) -> bool,
    /// The reader of the audio data.
    pub audio: spec_fn(S, &'a [u8], usize, AudioJob<'a>, AudioReply<S, T>) -> bool,
    /// The mixing of subband samples.
    pub mixed: spec_fn(
        Seq<Vec<[T; 32]>>,
        Seq<Vec<[T; 32]>>,
        SubframePlan,
        Seq<u8>,
        Seq<Vec<T>>,
    ) -> bool,
    /// The synthesis.
    pub synthesis: spec_fn(S, usize, Vec<Vec<[T; 32]>>, SubframePlan, SynthesisReply<S>) -> bool,
}

impl<H, L, A, Q, P, U, M> SubframeWorkers<H, L, A, Q, P, U, M> {
    /// The workers take whatever they are given. A reader does not go past the
    /// end of the bytes, and the synthesis gives one plane for each channel.
    pub open spec fn reliable<S, T>(&self) -> bool where
        H: Fn(&[u8], usize, &SubframePlan) -> IndexReply,
        L: Fn(&S, &[u8], usize, u8, usize) -> LowReply<S>,
        A: Fn(&S, &[u8], usize, &AudioJob<'_>) -> AudioReply<S, T>,
        Q: Fn(&S, usize, &Vec<Vec<[T; 32]>>, &SubframePlan) -> SynthesisReply<S>,
        P: Fn(T, T) -> T,
        U: Fn(T, T) -> T,
        M: Fn(T, T) -> T,
     {
        &&& forall|a: (&[u8], usize, &SubframePlan)| #[trigger] self.indices.requires(a)
        &&& forall|a: (&[u8], usize, &SubframePlan), r: IndexReply| #[trigger]
            self.indices.ensures(a, r) ==> (r matches Ok(read) ==> a.1 + read.1 <= 8 * a.0@.len())
        &&& forall|a: (&S, &[u8], usize, u8, usize)| #[trigger] self.low.requires(a)
        &&& forall|a: (&S, &[u8], usize, u8, usize), r: LowReply<S>| #[trigger]
            self.low.ensures(a, r) ==> (r.1 matches Ok(read) ==> a.2 + read.1 <= 8 * a.1@.len())
        &&& forall|a: (&S, &[u8], usize, &AudioJob<'_>)| #[trigger] self.audio.requires(a)
        &&& forall|a: (&S, &[u8], usize, &AudioJob<'_>), r: AudioReply<S, T>| #[trigger]
            self.audio.ensures(a, r) ==> (r.1 matches Ok(read) ==> a.2 + read.1 <= 8 * a.1@.len())
        &&& forall|a: (&S, usize, &Vec<Vec<[T; 32]>>, &SubframePlan)| #[trigger]
            self.synthesize.requires(a)
        &&& forall|a: (&S, usize, &Vec<Vec<[T; 32]>>, &SubframePlan), r: SynthesisReply<S>|
            #[trigger]
            self.synthesize.ensures(a, r) ==> (r.1 matches Ok(pcm) ==> pcm@.len() == a.1)
        &&& forall|x: T, y: T| #[trigger] self.times.requires((x, y))
        &&& forall|x: T, y: T| #[trigger] self.plus.requires((x, y))
        &&& forall|x: T, y: T| #[trigger] self.minus.requires((x, y))
    }

    /// What the workers may do.
    pub open spec fn behaviour<'a, S, T>(&self) -> SubframeBehaviour<'a, S, T> where
        H: Fn(&[u8], usize, &SubframePlan) -> IndexReply,
        L: Fn(&S, &[u8], usize, u8, usize) -> LowReply<S>,
        A: Fn(&S, &[u8], usize, &AudioJob<'_>) -> AudioReply<S, T>,
        Q: Fn(&S, usize, &Vec<Vec<[T; 32]>>, &SubframePlan) -> SynthesisReply<S>,
        P: Fn(T, T) -> T,
        U: Fn(T, T) -> T,
        M: Fn(T, T) -> T,
     {
        SubframeBehaviour {
            indices: |bytes: &'a [u8], at: usize, plan: SubframePlan, r: IndexReply|
                self.indices.ensures((bytes, at, &plan), r),
            low: |s: S, bytes: &'a [u8], at: usize, lff: u8, n_ssc: usize, r: LowReply<S>|
                self.low.ensures((&s, bytes, at, lff, n_ssc), r),
            audio: |s: S, bytes: &'a [u8], at: usize, job: AudioJob<'a>, r: AudioReply<S, T>|
                self.audio.ensures((&s, bytes, at, &job), r),
            mixed: |
                was: Seq<Vec<[T; 32]>>,
                now: Seq<Vec<[T; 32]>>,
                plan: SubframePlan,
                joinx: Seq<u8>,
                scales: Seq<Vec<T>>,
            |
                mixed(self.times, self.plus, self.minus, was, now, plan, joinx, scales),
            synthesis: |
                s: S,
                channels: usize,
                m: Vec<Vec<[T; 32]>>,
                plan: SubframePlan,
                r: SynthesisReply<S>,
            |
                self.synthesize.ensures((&s, channels, &m, &plan), r),
        }
    }
}

/// The work on one frame.
pub struct FrameWorkers<W, I, E, C, G> {
    /// The work on its subframes.
    pub subframe: W,
    /// Reads the side information of a subframe.
    pub side_info: I,
    /// Reads the tail of the side information of a subframe.
    pub tail: E,
    /// Forgets the prediction history.
    pub clear_history: C,
    /// A sample with the gain of a code.
    pub gain: G,
}

/// What the workers on a frame may do, as relations between what they are given
/// and what they give.
#[verifier::reject_recursive_types(S)]
#[verifier::reject_recursive_types(T)]
pub struct FrameBehaviour<'a, S, T> {
    /// The reader of the side information.
    pub side_info: spec_fn(&'a [u8], usize, AudioCodingHeader, SideReply) -> bool,
    /// The reader of the tail.
    pub tail: spec_fn(&'a [u8], usize, AudioCodingHeader, DtsFrameHeader, TailReply<T>) -> bool,
    /// The loss of the prediction history.
    pub cleared: spec_fn(S, S) -> bool,
    /// The gain of one code on all samples.
    pub gained: spec_fn(u8, Seq<Vec<i32>>, Seq<Vec<i32>>) -> bool,
    /// The gains of several codes, each on its window of samples.
    pub scaled: spec_fn(Seq<u8>, Seq<Vec<i32>>, Seq<Vec<i32>>) -> bool,
}

impl<W, I, E, C, G> FrameWorkers<W, I, E, C, G> {
    /// The workers take whatever they are given. A reader does not go past the
    /// end of the bytes, and a subframe has one to four subsubframes, of which
    /// the last one may be cut short to less than eight samples.
    pub open spec fn frame_reliable<S, T>(&self) -> bool where
        I: Fn(&[u8], usize, &AudioCodingHeader) -> SideReply,
        E: Fn(&[u8], usize, &AudioCodingHeader, &DtsFrameHeader) -> TailReply<T>,
        C: Fn(&S) -> S,
        G: Fn(i32, u8) -> i32,
     {
        &&& forall|a: (&[u8], usize, &AudioCodingHeader)| #[trigger] self.side_info.requires(a)
        &&& forall|a: (&[u8], usize, &AudioCodingHeader), r: SideReply| #[trigger]
            self.side_info.ensures(a, r) ==> (r matches Ok(read) ==> {
                &&& a.1 + read.1 <= 8 * a.0@.len()
                &&& 1 <= read.0.n_ssc <= 4
                &&& read.0.psc < 8
            })
        &&& forall|a: (&[u8], usize, &AudioCodingHeader, &DtsFrameHeader)| #[trigger]
            self.tail.requires(a)
        &&& forall|a: (&[u8], usize, &AudioCodingHeader, &DtsFrameHeader), r: TailReply<T>|
            #[trigger]
            self.tail.ensures(a, r) ==> (r matches Ok(read) ==> a.1 + read.1 <= 8 * a.0@.len())
        &&& forall|a: (&S,)| #[trigger] self.clear_history.requires(a)
        &&& forall|v: i32, code: u8| #[trigger] self.gain.requires((v, code))
    }

    /// What the workers may do beside the work on the subframes.
    pub open spec fn frame_behaviour<'a, S, T>(&self) -> FrameBehaviour<'a, S, T> where
        I: Fn(&[u8], usize, &AudioCodingHeader) -> SideReply,
        E: Fn(&[u8], usize, &AudioCodingHeader, &DtsFrameHeader) -> TailReply<T>,
        C: Fn(&S) -> S,
        G: Fn(i32, u8) -> i32,
     {
        FrameBehaviour {
            side_info: |bytes: &'a [u8], at: usize, coding: AudioCodingHeader, r: SideReply|
                self.side_info.ensures((bytes, at, &coding), r),
            tail: |
                bytes: &'a [u8],
                at: usize,
                coding: AudioCodingHeader,
                header: DtsFrameHeader,
                r: TailReply<T>,
            |
                self.tail.ensures((bytes, at, &coding, &header), r),
            cleared: |s: S, r: S| self.clear_history.ensures((&s,), r),
            gained: |code: u8, was: Seq<Vec<i32>>, now: Seq<Vec<i32>>|
                gained(self.gain, code, was, now),
            scaled: |codes: Seq<u8>, was: Seq<Vec<i32>>, now: Seq<Vec<i32>>|
                windows_scaled(self.gain, codes, was, now),
        }
    }
}

} // verus!
