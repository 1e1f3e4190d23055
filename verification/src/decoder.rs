//! The decoder of subframes: in which order the parts of a subframe are read,
//! mixed and synthesized, and what is kept for the next one.

use crate::audio_header::AudioCodingHeader;
use crate::header::DtsFrameHeader;
use crate::subband_mix::{mix_error, mix_subframe};
use crate::subframe::{ChannelSideInfo, VqCodebooks};
use crate::subframe_pcm::{
    plan_subframe, subframe_error, subframe_rows, within_bounds, AudioArrayDecodeError,
    SubframePcm, SubframePcmError, SubframePlan,
};
use crate::workers::{
    AudioJob, AudioReply, IndexReply, LowReply, SubframeBehaviour, SubframeWorkers, SynthesisReply,
};
use vstd::prelude::*;

verus! {

/// A subframe that is to be decoded.
pub struct SubframeInput<'a, T> {
    /// The bytes of the frame.
    pub bytes: &'a [u8],
    /// The first bit of the subframe's audio part.
    pub bit: usize,
    /// The header of the frame.
    pub header: DtsFrameHeader,
    /// The audio coding header of the frame.
    pub coding: AudioCodingHeader,
    /// The side information of each channel.
    pub side: &'a [ChannelSideInfo],
    /// The number of subsubframes.
    pub n_ssc: usize,
    /// The samples in a partial subsubframe; zero is none.
    pub psc: u8,
    /// Whether a check word follows every subsubframe.
    pub aspf: bool,
    /// The joint scale factors of each channel.
    pub scales: Seq<Vec<T>>,
}

impl<'a, T> SubframeInput<'a, T> {
    /// The bytes can be counted by bits. A subframe for a decoder of so many channels
    /// has its bounds and fits in memory.
    pub open spec fn wf(self, channels: usize, books: VqCodebooks) -> bool {
        &&& 8 * self.bytes@.len() <= usize::MAX
        &&& self.side@.len() == channels && self.coding.n_pchs == channels ==> {
            &&& within_bounds(self.coding, books)
            &&& self.psc > 0 ==> self.n_ssc > 0
            &&& (self.n_ssc * 8 + self.psc) * 32 <= usize::MAX
        }
    }

    /// Why the subframe cannot be decoded, before any of its bits is read.
    pub open spec fn refusal(self, channels: usize, books: VqCodebooks) -> Option<
        SubframePcmError,
    > {
        subframe_error(
            channels,
            books,
            self.header,
            self.coding,
            self.side@,
            self.scales.len() > 0,
        )
    }
}

/// What a decoder carries from one subframe to the next.
#[verifier::ext_equal]
pub struct Carried<S> {
    /// The state of the readers and filters.
    pub state: S,
    /// The last low-frequency-effects samples.
    pub lfe: Seq<i32>,
}

/// The course of the decoding of a subframe. What comes after a step that failed
/// says nothing.
pub struct SubframeSteps<S, T> {
    /// How the subframe is decoded.
    pub plan: SubframePlan,
    /// The code book indices, where there are any, and their bits.
    pub indices: Result<(Option<Vec<Vec<u16>>>, usize), AudioArrayDecodeError>,
    /// The low-frequency-effects samples, none where there is no such channel,
    /// and their bits.
    pub low: LowReply<S>,
    /// The audio data and its bits.
    pub audio: AudioReply<S, T>,
    /// The mixed subband samples.
    pub mixed: Vec<Vec<[T; 32]>>,
    /// The samples.
    pub pcm: SynthesisReply<S>,
}

impl<S, T> SubframeSteps<S, T> {
    /// The bits of the code book indices.
    pub open spec fn index_bits(self) -> int {
        self.indices.unwrap().1 as int
    }

    /// The bits of the low-frequency-effects samples.
    pub open spec fn low_bits(self) -> int {
        self.low.1.unwrap().1 as int
    }

    /// The code book indices are read first, where the plan says that there are any.
    pub open spec fn indices_read(
        self,
        b: SubframeBehaviour<'_, S, T>,
        input: SubframeInput<'_, T>,
    ) -> bool {
        if self.plan.scan_hf_vq {
            match self.indices {
                Ok((found, bits)) => found matches Some(found) && (b.indices)(
                    input.bytes,
                    input.bit,
                    self.plan,
                    Ok((found, bits)),
                ),
                Err(e) => (b.indices)(input.bytes, input.bit, self.plan, Err(e)),
            }
        } else {
            self.indices == Ok::<(Option<Vec<Vec<u16>>>, usize), AudioArrayDecodeError>((None, 0))
        }
    }

    /// The low-frequency-effects samples are read next, where there is such a
    /// channel.
    pub open spec fn low_read(
        self,
        b: SubframeBehaviour<'_, S, T>,
        input: SubframeInput<'_, T>,
        state: S,
    ) -> bool {
        if self.plan.lff != 0 {
            (b.low)(
                state,
                input.bytes,
                (input.bit + self.index_bits()) as usize,
                self.plan.lff,
                input.n_ssc,
                self.low,
            )
        } else {
            &&& self.low.0 == state
            &&& self.low.1 matches Ok((samples, bits)) && samples@ == Seq::<i32>::empty() && bits
                == 0
        }
    }

    /// The audio data is read behind them.
    pub open spec fn audio_read(
        self,
        b: SubframeBehaviour<'_, S, T>,
        books: VqCodebooks,
        input: SubframeInput<'_, T>,
    ) -> bool {
        (b.audio)(
            self.low.0,
            input.bytes,
            (input.bit + self.index_bits() + self.low_bits()) as usize,
            AudioJob {
                header: &input.header,
                coding: &input.coding,
                side: input.side,
                plan: &self.plan,
                books,
                hf_indices: match self.indices.unwrap().0 {
                    Some(found) => Some(&found),
                    None => None,
                },
                n_ssc: input.n_ssc,
                psc: input.psc,
                aspf: input.aspf,
            },
            self.audio,
        )
    }

    /// Why the subband samples cannot be mixed.
    pub open spec fn mix_refusal(self, input: SubframeInput<'_, T>) -> Option<SubframePcmError> {
        mix_error(self.audio.1.unwrap().0@, self.plan, input.coding.joinx@, input.scales)
    }

    /// The subband samples are mixed and then synthesized.
    pub open spec fn synthesized(
        self,
        b: SubframeBehaviour<'_, S, T>,
        channels: usize,
        input: SubframeInput<'_, T>,
    ) -> bool {
        &&& (b.mixed)(
            self.audio.1.unwrap().0@,
            self.mixed@,
            self.plan,
            input.coding.joinx@,
            input.scales,
        )
        &&& (b.synthesis)(self.audio.0, channels, self.mixed, self.plan, self.pcm)
    }

    /// The steps are a course of the decoding of `input`, each of them from what
    /// the ones before it gave.
    pub open spec fn follow(
        self,
        b: SubframeBehaviour<'_, S, T>,
        channels: usize,
        books: VqCodebooks,
        input: SubframeInput<'_, T>,
        state: S,
    ) -> bool {
        &&& self.plan.is_for(
            channels,
            input.header,
            input.coding,
            input.n_ssc as int,
            input.psc as int,
        )
        &&& self.indices_read(b, input)
        &&& self.indices is Ok ==> {
            &&& self.low_read(b, input, state)
            &&& self.low.1 is Ok ==> {
                &&& self.audio_read(b, books, input)
                &&& self.audio.1 is Ok && self.mix_refusal(input) is None ==> self.synthesized(
                    b,
                    channels,
                    input,
                )
            }
        }
    }

    /// What the course comes to: the samples and the number of bits, or the error
    /// of the first step that failed.
    pub open spec fn result(self, input: SubframeInput<'_, T>) -> Result<
        (SubframePcm, usize),
        SubframePcmError,
    > {
        match self.indices {
            Err(e) => Err(SubframePcmError::AudioData(e)),
            Ok(_) => match self.low.1 {
                Err(e) => Err(SubframePcmError::AudioData(e)),
                Ok(_) => match self.audio.1 {
                    Err(e) => Err(SubframePcmError::AudioData(e)),
                    Ok((_, audio_bits)) => match self.mix_refusal(input) {
                        Some(e) => Err(e),
                        None => match self.pcm.1 {
                            Err(e) => Err(SubframePcmError::Synthesis(e)),
                            Ok(pcm) => Ok(
                                (
                                    pcm,
                                    (self.index_bits() + self.low_bits() + audio_bits) as usize,
                                ),
                            ),
                        },
                    },
                },
            },
        }
    }

    /// What is carried on: the state behind the last step that was taken, and the
    /// low-frequency-effects samples, no more of them than a primary channel has.
    pub open spec fn carried(self, input: SubframeInput<'_, T>, was: Carried<S>) -> Carried<S> {
        if self.indices is Err {
            was
        } else {
            match self.low.1 {
                Err(_) => Carried { state: self.low.0, lfe: was.lfe },
                Ok((samples, _)) => Carried {
                    state: if self.audio.1 is Err || self.mix_refusal(input) is Some {
                        self.audio.0
                    } else {
                        self.pcm.0
                    },
                    lfe: cut(samples@, 32 * subframe_rows(input.n_ssc as int, input.psc as int)),
                },
            }
        }
    }
}

/// The first `len` of the samples, or all where there are fewer.
pub open spec fn cut(samples: Seq<i32>, len: int) -> Seq<i32> {
    if samples.len() <= len {
        samples
    } else {
        samples.subrange(0, len)
    }
}

/// The decoding of `input` gives `r` and carries `now` on. A subframe that is
/// refused changes nothing.
pub open spec fn subframe_decoded<S, T>(
    b: SubframeBehaviour<'_, S, T>,
    channels: usize,
    books: VqCodebooks,
    input: SubframeInput<'_, T>,
    was: Carried<S>,
    r: Result<(SubframePcm, usize), SubframePcmError>,
    now: Carried<S>,
) -> bool {
    match input.refusal(channels, books) {
        Some(e) => r == Err::<(SubframePcm, usize), SubframePcmError>(e) && now == was,
        None => exists|steps: SubframeSteps<S, T>|
            {
                &&& #[trigger] steps.follow(b, channels, books, input, was.state)
                &&& r == steps.result(input)
                &&& now == steps.carried(input, was)
            },
    }
}

/// The decoder of subframes.
#[derive(Debug, Clone)]
pub struct SubframePcmDecoder<S> {
    channels: usize,
    books: VqCodebooks,
    state: S,
    last_lfe_pcm: Vec<i32>,
}

impl<S> SubframePcmDecoder<S> {
    /// The number of primary channels.
    pub closed spec fn channels(&self) -> usize {
        self.channels
    }

    /// The attached code books.
    pub closed spec fn books(&self) -> VqCodebooks {
        self.books
    }

    /// What the decoder carries on.
    pub closed spec fn carried(&self) -> Carried<S> {
        Carried { state: self.state, lfe: self.last_lfe_pcm@ }
    }

    /// The number of channels and the code books are those of `other`.
    pub open spec fn set_up_like(&self, other: &Self) -> bool {
        &&& self.channels() == other.channels()
        &&& self.books() == other.books()
    }

    /// A decoder for `channels` primary channels with both code books.
    #[must_use]
    pub fn new(channels: usize, state: S) -> (r: Self)
        ensures
            r.channels() == channels,
            r.books() == (VqCodebooks { hfreq: true, adpcm: true }),
            r.carried() == (Carried { state, lfe: Seq::empty() }),
    {
        SubframePcmDecoder {
            channels,
            books: VqCodebooks::builtin(),
            state,
            last_lfe_pcm: Vec::new(),
        }
    }

    /// Attaches other code books.
    pub fn set_vq_codebooks(&mut self, books: VqCodebooks)
        ensures
            final(self).books() == books,
            final(self).channels() == old(self).channels(),
            final(self).carried() == old(self).carried(),
    {
        self.books = books;
    }

    /// The attached code books.
    #[must_use]
    pub fn vq_codebooks(&self) -> (r: &VqCodebooks)
        ensures
            *r == self.books(),
    {
        &self.books
    }

    /// The number of primary channels.
    #[must_use]
    pub fn channel_count(&self) -> (r: usize)
        ensures
            r == self.channels(),
    {
        self.channels
    }

    /// The state of the readers and filters.
    #[must_use]
    pub fn state(&self) -> (r: &S)
        ensures
            *r == self.carried().state,
    {
        &self.state
    }

    /// Forgets the prediction history.
    pub fn reset_adpcm_history<C: Fn(&S) -> S>(&mut self, clear_history: &C)
        requires
            forall|a: (&S,)| #[trigger] clear_history.requires(a),
        ensures
            final(self).set_up_like(old(self)),
            clear_history.ensures((&old(self).carried().state,), final(self).carried().state),
            final(self).carried().lfe == old(self).carried().lfe,
    {
        self.state = (*clear_history)(&self.state);
    }

    /// The last low-frequency-effects samples, which are forgotten by this.
    #[must_use]
    pub fn take_last_lfe_pcm(&mut self) -> (r: Vec<i32>)
        ensures
            r@ == old(self).carried().lfe,
            final(self).set_up_like(old(self)),
            final(self).carried() == (Carried { lfe: Seq::empty(), ..old(self).carried() }),
    {
        let mut out: Vec<i32> = Vec::new();
        out.append(&mut self.last_lfe_pcm);
        assert(out@ =~= old(self).carried().lfe);
        out
    }

    /// The last low-frequency-effects samples.
    pub(crate) fn last_lfe_pcm(&self) -> (r: &Vec<i32>)
        ensures
            r@ == self.carried().lfe,
    {
        &self.last_lfe_pcm
    }

    /// Sets the low-frequency-effects samples.
    pub(crate) fn set_lfe(&mut self, pcm: Vec<i32>)
        ensures
            final(self).set_up_like(old(self)),
            final(self).carried() == (Carried { lfe: pcm@, ..old(self).carried() }),
    {
        self.last_lfe_pcm = pcm;
    }

    /// Decodes a subframe whose last subsubframe may be cut short to `psc`
    /// samples, with the joint scale factors of its channels.
    pub fn decode_subframe_partial<T: Copy, H, L, A, Q, P, U, M>(
        &mut self,
        bytes: &[u8],
        bit_offset: usize,
        header: &DtsFrameHeader,
        coding: &AudioCodingHeader,
        side: &[ChannelSideInfo],
        n_ssc: usize,
        psc: u8,
        aspf: bool,
        join_scales: &[Vec<T>],
        work: &SubframeWorkers<H, L, A, Q, P, U, M>,
    ) -> (r: Result<(SubframePcm, usize), SubframePcmError>) where
        H: Fn(&[u8], usize, &SubframePlan) -> IndexReply,
        L: Fn(&S, &[u8], usize, u8, usize) -> LowReply<S>,
        A: Fn(&S, &[u8], usize, &AudioJob<'_>) -> AudioReply<S, T>,
        Q: Fn(&S, usize, &Vec<Vec<[T; 32]>>, &SubframePlan) -> SynthesisReply<S>,
        P: Fn(T, T) -> T,
        U: Fn(T, T) -> T,
        M: Fn(T, T) -> T,

        requires
            work.reliable::<S, T>(),
            (SubframeInput {
                bytes,
                bit: bit_offset,
                header: *header,
                coding: *coding,
                side,
                n_ssc,
                psc,
                aspf,
                scales: join_scales@,
            }).wf(old(self).channels(), old(self).books()),
        ensures
            final(self).set_up_like(old(self)),
            subframe_decoded(
                work.behaviour::<S, T>(),
                old(self).channels(),
                old(self).books(),
                SubframeInput {
                    bytes,
                    bit: bit_offset,
                    header: *header,
                    coding: *coding,
                    side,
                    n_ssc,
                    psc,
                    aspf,
                    scales: join_scales@,
                },
                old(self).carried(),
                r,
                final(self).carried(),
            ),
    {
        let ghost input = SubframeInput {
            bytes,
            bit: bit_offset,
            header: *header,
            coding: *coding,
            side,
            n_ssc,
            psc,
            aspf,
            scales: join_scales@,
        };
        let ghost b: SubframeBehaviour<'_, S, T> = work.behaviour::<S, T>();
        let ghost was: Carried<S> = self.carried();
        let with_scales: bool = join_scales.len() > 0;
        let plan: SubframePlan = match plan_subframe(
            self.channels,
            self.books,
            header,
            coding,
            side,
            n_ssc,
            psc,
            with_scales,
        ) {
            Ok(plan) => plan,
            Err(e) => {
                return Err(e);
            },
        };
        let ghost mut steps: SubframeSteps<S, T> = arbitrary();
        proof {
            steps = SubframeSteps { plan, ..steps };
        }

        let mut cursor: usize = bit_offset;
        let mut hf_indices: Option<Vec<Vec<u16>>> = None;
        let mut index_bits: usize = 0;
        if plan.scan_hf_vq {
            let reply: IndexReply = (work.indices)(bytes, cursor, &plan);
            match reply {
                Ok((found, bits)) => {
                    hf_indices = Some(found);
                    index_bits = bits;
                },
                Err(e) => {
                    proof {
                        steps = SubframeSteps { indices: Err(e), ..steps };
                        assert(steps.follow(b, self.channels(), self.books(), input, was.state));
                    }
                    return Err(SubframePcmError::AudioData(e));
                },
            }
        }
        proof {
            steps = SubframeSteps { indices: Ok((hf_indices, index_bits)), ..steps };
            assert(steps.indices_read(b, input));
        }
        cursor = cursor + index_bits;

        let mut low_bits: usize = 0;
        if plan.lff != 0 {
            let reply: LowReply<S> = (work.low)(&self.state, bytes, cursor, plan.lff, n_ssc);
            proof {
                steps = SubframeSteps { low: reply, ..steps };
                assert(steps.low_read(b, input, was.state));
            }
            self.state = reply.0;
            match reply.1 {
                Ok((samples, bits)) => {
                    let mut kept: Vec<i32> = samples;
                    kept.truncate(plan.rows * 32);
                    assert(kept@ =~= cut(samples@, plan.rows * 32));
                    self.last_lfe_pcm = kept;
                    low_bits = bits;
                },
                Err(e) => {
                    assert(steps.follow(b, self.channels(), self.books(), input, was.state));
                    return Err(SubframePcmError::AudioData(e));
                },
            }
        } else {
            let none: Vec<i32> = Vec::new();
            proof {
                steps = SubframeSteps { low: (was.state, Ok((none, 0))), ..steps };
                assert(steps.low_read(b, input, was.state));
            }
            self.last_lfe_pcm = none;
        }
        cursor = cursor + low_bits;

        let reply: AudioReply<S, T> = (work.audio)(
            &self.state,
            bytes,
            cursor,
            &AudioJob {
                header,
                coding,
                side,
                plan: &plan,
                books: self.books,
                hf_indices: match &hf_indices {
                    Some(found) => Some(found),
                    None => None,
                },
                n_ssc,
                psc,
                aspf,
            },
        );
        proof {
            steps = SubframeSteps { audio: reply, ..steps };
            assert(steps.audio_read(b, self.books(), input));
        }
        self.state = reply.0;
        let (mut matrices, audio_bits): (Vec<Vec<[T; 32]>>, usize) = match reply.1 {
            Ok(read) => read,
            Err(e) => {
                assert(steps.follow(b, self.channels(), self.books(), input, was.state));
                return Err(SubframePcmError::AudioData(e));
            },
        };
        match mix_subframe(
            &mut matrices,
            &plan,
            coding,
            join_scales,
            &work.times,
            &work.plus,
            &work.minus,
        ) {
            Ok(_) => {},
            Err(e) => {
                assert(steps.follow(b, self.channels(), self.books(), input, was.state));
                return Err(e);
            },
        }
        let reply: SynthesisReply<S> = (work.synthesize)(
            &self.state,
            self.channels,
            &matrices,
            &plan,
        );
        proof {
            steps = SubframeSteps { mixed: matrices, pcm: reply, ..steps };
            assert(steps.synthesized(b, self.channels(), input));
            assert(steps.follow(b, self.channels(), self.books(), input, was.state));
        }
        self.state = reply.0;
        match reply.1 {
            Ok(pcm) => Ok((pcm, index_bits + low_bits + audio_bits)),
            Err(e) => Err(SubframePcmError::Synthesis(e)),
        }
    }

    /// Decodes a subframe of full subsubframes with the joint scale factors of its
    /// channels.
    pub fn decode_subframe_with_joint<T: Copy, H, L, A, Q, P, U, M>(
        &mut self,
        bytes: &[u8],
        bit_offset: usize,
        header: &DtsFrameHeader,
        coding: &AudioCodingHeader,
        side: &[ChannelSideInfo],
        n_ssc: usize,
        aspf: bool,
        join_scales: &[Vec<T>],
        work: &SubframeWorkers<H, L, A, Q, P, U, M>,
    ) -> (r: Result<(SubframePcm, usize), SubframePcmError>) where
        H: Fn(&[u8], usize, &SubframePlan) -> IndexReply,
        L: Fn(&S, &[u8], usize, u8, usize) -> LowReply<S>,
        A: Fn(&S, &[u8], usize, &AudioJob<'_>) -> AudioReply<S, T>,
        Q: Fn(&S, usize, &Vec<Vec<[T; 32]>>, &SubframePlan) -> SynthesisReply<S>,
        P: Fn(T, T) -> T,
        U: Fn(T, T) -> T,
        M: Fn(T, T) -> T,

        requires
            work.reliable::<S, T>(),
            (SubframeInput {
                bytes,
                bit: bit_offset,
                header: *header,
                coding: *coding,
                side,
                n_ssc,
                psc: 0,
                aspf,
                scales: join_scales@,
            }).wf(old(self).channels(), old(self).books()),
        ensures
            final(self).set_up_like(old(self)),
            subframe_decoded(
                work.behaviour::<S, T>(),
                old(self).channels(),
                old(self).books(),
                SubframeInput {
                    bytes,
                    bit: bit_offset,
                    header: *header,
                    coding: *coding,
                    side,
                    n_ssc,
                    psc: 0,
                    aspf,
                    scales: join_scales@,
                },
                old(self).carried(),
                r,
                final(self).carried(),
            ),
    {
        self.decode_subframe_partial(
            bytes,
            bit_offset,
            header,
            coding,
            side,
            n_ssc,
            0,
            aspf,
            join_scales,
            work,
        )
    }

    /// Decodes a subframe of full subsubframes without joint coding.
    pub fn decode_subframe<T: Copy, H, L, A, Q, P, U, M>(
        &mut self,
        bytes: &[u8],
        bit_offset: usize,
        header: &DtsFrameHeader,
        coding: &AudioCodingHeader,
        side: &[ChannelSideInfo],
        n_ssc: usize,
        aspf: bool,
        work: &SubframeWorkers<H, L, A, Q, P, U, M>,
    ) -> (r: Result<(SubframePcm, usize), SubframePcmError>) where
        H: Fn(&[u8], usize, &SubframePlan) -> IndexReply,
        L: Fn(&S, &[u8], usize, u8, usize) -> LowReply<S>,
        A: Fn(&S, &[u8], usize, &AudioJob<'_>) -> AudioReply<S, T>,
        Q: Fn(&S, usize, &Vec<Vec<[T; 32]>>, &SubframePlan) -> SynthesisReply<S>,
        P: Fn(T, T) -> T,
        U: Fn(T, T) -> T,
        M: Fn(T, T) -> T,

        requires
            work.reliable::<S, T>(),
            (SubframeInput {
                bytes,
                bit: bit_offset,
                header: *header,
                coding: *coding,
                side,
                n_ssc,
                psc: 0,
                aspf,
                scales: Seq::<Vec<T>>::empty(),
            }).wf(old(self).channels(), old(self).books()),
        ensures
            final(self).set_up_like(old(self)),
            subframe_decoded(
                work.behaviour::<S, T>(),
                old(self).channels(),
                old(self).books(),
                SubframeInput {
                    bytes,
                    bit: bit_offset,
                    header: *header,
                    coding: *coding,
                    side,
                    n_ssc,
                    psc: 0,
                    aspf,
                    scales: Seq::<Vec<T>>::empty(),
                },
                old(self).carried(),
                r,
                final(self).carried(),
            ),
    {
        let none: Vec<Vec<T>> = Vec::new();
        assert(none@ =~= Seq::empty());
        self.decode_subframe_with_joint(
            bytes,
            bit_offset,
            header,
            coding,
            side,
            n_ssc,
            aspf,
            none.as_slice(),
            work,
        )
    }
}

/// A subframe that was decoded carries no more low-frequency-effects samples on
/// than a channel with the rows of the subframe has.
pub proof fn law_lfe_is_no_longer_than_a_channel<S, T>(
    b: SubframeBehaviour<'_, S, T>,
    channels: usize,
    books: VqCodebooks,
    input: SubframeInput<'_, T>,
    was: Carried<S>,
    pcm: SubframePcm,
    bits: usize,
    now: Carried<S>,
)
    requires
        input.psc > 0 ==> input.n_ssc > 0,
        subframe_decoded(b, channels, books, input, was, Ok((pcm, bits)), now),
    ensures
        now.lfe.len() <= 32 * subframe_rows(input.n_ssc as int, input.psc as int),
{
}

/// A subframe that is refused before any of its bits is read changes nothing.
pub proof fn law_refused_subframe_changes_nothing<S, T>(
    b: SubframeBehaviour<'_, S, T>,
    channels: usize,
    books: VqCodebooks,
    input: SubframeInput<'_, T>,
    was: Carried<S>,
    r: Result<(SubframePcm, usize), SubframePcmError>,
    now: Carried<S>,
)
    requires
        input.refusal(channels, books) is Some,
        subframe_decoded(b, channels, books, input, was, r, now),
    ensures
        r == Err::<(SubframePcm, usize), SubframePcmError>(
            input.refusal(channels, books).unwrap(),
        ),
        now == was,
{
}

} // verus!
