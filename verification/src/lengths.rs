//! The lengths of what is decoded: 32 samples for each row of subband samples,
//! and as many low-frequency-effects samples as a channel has.

use crate::audio_header::AudioCodingHeader;
use crate::core_frame::{
    blocks_of, concatenated, frame_lfe_of, gained_of, law_subframe_lengths_add, lfe_of, planes,
    samples_of, total_len, CoreFrame, CoreSubframe, DecodedSubframe, PreparedFrame, Subframe,
};
use crate::decoder::{cut, subframe_decoded, Carried, SubframeInput, SubframeSteps};
use crate::determined::lemma_walked_at;
use crate::header::{DtsFrameHeader, FrameType};
use crate::mix_laws::law_mixing_keeps_the_shape;
use crate::subband_mix::same_shape;
use crate::subframe::VqCodebooks;
use crate::subframe_pcm::{subframe_rows, SubframePcm, SubframePcmError, SubframePlan};
use crate::workers::{
    AudioJob, AudioReply, FrameBehaviour, FrameWorkers, IndexReply, LowReply, SideReply,
    SubframeBehaviour, SubframeWorkers, SynthesisReply, TailReply,
};
use vstd::prelude::*;

verus! {

/// There are `count` channels with `rows` rows of subband samples each.
pub open spec fn has_rows<T>(m: Seq<Vec<[T; 32]>>, count: int, rows: int) -> bool {
    &&& m.len() == count
    &&& forall|ch: int| 0 <= ch < count ==> (#[trigger] m[ch])@.len() == rows
}

/// There are `count` planes with `len` samples each.
pub open spec fn has_samples(pcm: Seq<Vec<i32>>, count: int, len: int) -> bool {
    &&& pcm.len() == count
    &&& forall|ch: int| 0 <= ch < count ==> (#[trigger] pcm[ch])@.len() == len
}

/// Both have the same number of planes with the same numbers of samples.
pub open spec fn same_lengths(a: Seq<Vec<i32>>, b: Seq<Vec<i32>>) -> bool {
    &&& a.len() == b.len()
    &&& forall|ch: int| 0 <= ch < a.len() ==> (#[trigger] a[ch])@.len() == b[ch]@.len()
}

/// The synthesis made of each row of each channel 32 samples of its plane.
pub open spec fn synthesized_in_full<T>(
    channels: usize,
    m: Seq<Vec<[T; 32]>>,
    pcm: Seq<Vec<i32>>,
) -> bool {
    &&& pcm.len() == channels
    &&& forall|ch: int| 0 <= ch < channels ==> (#[trigger] pcm[ch])@.len() == 32 * m[ch]@.len()
}

impl<H, L, A, Q, P, U, M> SubframeWorkers<H, L, A, Q, P, U, M> {
    /// The reader of the audio data gives each channel the rows of the plan, the
    /// synthesis gives 32 samples for each row, and the reader of the
    /// low-frequency-effects samples gives at least 256 for each subsubframe.
    pub open spec fn in_full<S, T>(&self) -> bool where
        H: Fn(&[u8], usize, &SubframePlan) -> IndexReply,
        L: Fn(&S, &[u8], usize, u8, usize) -> LowReply<S>,
        A: Fn(&S, &[u8], usize, &AudioJob<'_>) -> AudioReply<S, T>,
        Q: Fn(&S, usize, &Vec<Vec<[T; 32]>>, &SubframePlan) -> SynthesisReply<S>,
        P: Fn(T, T) -> T,
        U: Fn(T, T) -> T,
        M: Fn(T, T) -> T,
     {
        &&& forall|a: (&S, &[u8], usize, &AudioJob<'_>), r: AudioReply<S, T>| #[trigger]
            self.audio.ensures(a, r) ==> (r.1 matches Ok(read) ==> has_rows(
                read.0@,
                a.3.side@.len() as int,
                a.3.plan.rows as int,
            ))
        &&& forall|a: (&S, usize, &Vec<Vec<[T; 32]>>, &SubframePlan), r: SynthesisReply<S>|
            #[trigger]
            self.synthesize.ensures(a, r) && a.2@.len() == a.1 ==> (r.1 matches Ok(pcm)
                ==> synthesized_in_full(a.1, a.2@, pcm@))
        &&& forall|a: (&S, &[u8], usize, u8, usize), r: LowReply<S>| #[trigger]
            self.low.ensures(a, r) ==> (r.1 matches Ok(read) ==> read.0@.len() >= 256 * a.4)
    }

    /// What the workers may do is done in full where they work in full.
    pub proof fn lemma_in_full<'a, S, T>(&self) where
        H: Fn(&[u8], usize, &SubframePlan) -> IndexReply,
        L: Fn(&S, &[u8], usize, u8, usize) -> LowReply<S>,
        A: Fn(&S, &[u8], usize, &AudioJob<'_>) -> AudioReply<S, T>,
        Q: Fn(&S, usize, &Vec<Vec<[T; 32]>>, &SubframePlan) -> SynthesisReply<S>,
        P: Fn(T, T) -> T,
        U: Fn(T, T) -> T,
        M: Fn(T, T) -> T,

        requires
            self.in_full::<S, T>(),
        ensures
            self.behaviour::<'a, S, T>().in_full(),
    {
        let b: SubframeBehaviour<'a, S, T> = self.behaviour::<'a, S, T>();
        assert forall|
            s: S,
            bytes: &'a [u8],
            at: usize,
            job: AudioJob<'a>,
            r: AudioReply<S, T>,
        | #[trigger]
            (b.audio)(s, bytes, at, job, r) implies (r.1 matches Ok(read) ==> has_rows(
            read.0@,
            job.side@.len() as int,
            job.plan.rows as int,
        )) by {
            assert(self.audio.ensures((&s, bytes, at, &job), r));
        }
        assert forall|
            was: Seq<Vec<[T; 32]>>,
            now: Seq<Vec<[T; 32]>>,
            plan: SubframePlan,
            joinx: Seq<u8>,
            scales: Seq<Vec<T>>,
        | #[trigger]
            (b.mixed)(was, now, plan, joinx, scales) implies same_shape(was, now) by {
            law_mixing_keeps_the_shape(
                self.times,
                self.plus,
                self.minus,
                was,
                now,
                plan,
                joinx,
                scales,
            );
        }
        assert forall|
            s: S,
            channels: usize,
            m: Vec<Vec<[T; 32]>>,
            plan: SubframePlan,
            r: SynthesisReply<S>,
        | #[trigger]
            (b.synthesis)(s, channels, m, plan, r) && m@.len() == channels implies (
        r.1 matches Ok(pcm) ==> synthesized_in_full(channels, m@, pcm@)) by {
            assert(self.synthesize.ensures((&s, channels, &m, &plan), r));
        }
        assert forall|
            s: S,
            bytes: &'a [u8],
            at: usize,
            lff: u8,
            n_ssc: usize,
            r: LowReply<S>,
        | #[trigger]
            (b.low)(s, bytes, at, lff, n_ssc, r) implies (r.1 matches Ok(read) ==> read.0@.len()
            >= 256 * n_ssc) by {
            assert(self.low.ensures((&s, bytes, at, lff, n_ssc), r));
        }
    }
}

impl<'a, S, T> SubframeBehaviour<'a, S, T> {
    /// The audio data has the rows of the plan, the mixing keeps them, the synthesis
    /// makes 32 samples of each, and there are at least 256 low-frequency-effects
    /// samples for each subsubframe.
    pub open spec fn in_full(self) -> bool {
        &&& forall|s: S, bytes: &'a [u8], at: usize, job: AudioJob<'a>, r: AudioReply<S, T>|
            #[trigger]
            (self.audio)(s, bytes, at, job, r) ==> (r.1 matches Ok(read) ==> has_rows(
                read.0@,
                job.side@.len() as int,
                job.plan.rows as int,
            ))
        &&& forall|
            was: Seq<Vec<[T; 32]>>,
            now: Seq<Vec<[T; 32]>>,
            plan: SubframePlan,
            joinx: Seq<u8>,
            scales: Seq<Vec<T>>,
        | #[trigger] (self.mixed)(was, now, plan, joinx, scales) ==> same_shape(was, now)
        &&& forall|
            s: S,
            channels: usize,
            m: Vec<Vec<[T; 32]>>,
            plan: SubframePlan,
            r: SynthesisReply<S>,
        | #[trigger]
            (self.synthesis)(s, channels, m, plan, r) && m@.len() == channels ==> (
            r.1 matches Ok(pcm) ==> synthesized_in_full(channels, m@, pcm@))
        &&& forall|
            s: S,
            bytes: &'a [u8],
            at: usize,
            lff: u8,
            n_ssc: usize,
            r: LowReply<S>,
        | #[trigger]
            (self.low)(s, bytes, at, lff, n_ssc, r) ==> (r.1 matches Ok(read) ==> read.0@.len()
                >= 256 * n_ssc)
    }
}

impl<W, I, E, C, G> FrameWorkers<W, I, E, C, G> {
    /// What the workers on a frame may do keeps to the sizes of subframes and to
    /// the lengths of planes.
    pub proof fn lemma_keeps_sizes<'a, S, T>(&self) where
        I: Fn(&[u8], usize, &AudioCodingHeader) -> SideReply,
        E: Fn(&[u8], usize, &AudioCodingHeader, &DtsFrameHeader) -> TailReply<T>,
        C: Fn(&S) -> S,
        G: Fn(i32, u8) -> i32,

        requires
            self.frame_reliable::<S, T>(),
        ensures
            self.frame_behaviour::<'a, S, T>().keeps_sizes(),
    {
        let fb: FrameBehaviour<'a, S, T> = self.frame_behaviour::<'a, S, T>();
        assert forall|
            bytes: &'a [u8],
            at: usize,
            coding: AudioCodingHeader,
            r: SideReply,
        | #[trigger]
            (fb.side_info)(bytes, at, coding, r) implies (r matches Ok(read) ==> 1
            <= read.0.n_ssc <= 4 && read.0.psc < 8) by {
            assert(self.side_info.ensures((bytes, at, &coding), r));
        }
        assert forall|code: u8, was: Seq<Vec<i32>>, now: Seq<Vec<i32>>| #[trigger]
            (fb.gained)(code, was, now) implies same_lengths(now, was) by {
            assert forall|ch: int| 0 <= ch < now.len() implies (#[trigger] now[ch])@.len()
                == was[ch]@.len() by {
                assert(crate::gain::plane_gained(self.gain, code, was[ch]@, now[ch]@));
            }
        }
    }
}

impl<'a, S, T> FrameBehaviour<'a, S, T> {
    /// A subframe has one to four subsubframes, of which the last one may be cut
    /// short to less than eight samples, and gains keep the lengths of planes.
    pub open spec fn keeps_sizes(self) -> bool {
        &&& forall|
            bytes: &'a [u8],
            at: usize,
            coding: AudioCodingHeader,
            r: SideReply,
        | #[trigger]
            (self.side_info)(bytes, at, coding, r) ==> (r matches Ok(read) ==> 1
                <= read.0.n_ssc <= 4 && read.0.psc < 8)
        &&& forall|code: u8, was: Seq<Vec<i32>>, now: Seq<Vec<i32>>| #[trigger]
            (self.gained)(code, was, now) ==> same_lengths(now, was)
        &&& forall|codes: Seq<u8>, was: Seq<Vec<i32>>, now: Seq<Vec<i32>>| #[trigger]
            (self.scaled)(codes, was, now) ==> same_lengths(now, was)
    }
}

/// A subframe that was decoded has 32 samples for each row in each channel, and as
/// many low-frequency-effects samples, or none where there is no such channel.
pub proof fn lemma_subframe_lengths<'a, S, T>(
    b: SubframeBehaviour<'a, S, T>,
    channels: usize,
    books: VqCodebooks,
    input: SubframeInput<'a, T>,
    was: Carried<S>,
    pcm: SubframePcm,
    bits: usize,
    now: Carried<S>,
)
    requires
        b.in_full(),
        input.psc < 8,
        input.psc > 0 ==> input.n_ssc > 0,
        subframe_decoded(b, channels, books, input, was, Ok((pcm, bits)), now),
    ensures
        has_samples(
            pcm@,
            channels as int,
            32 * subframe_rows(input.n_ssc as int, input.psc as int),
        ),
        now.lfe.len() == (if input.header.lfe.code_of() == 0 {
            0
        } else {
            32 * subframe_rows(input.n_ssc as int, input.psc as int)
        }),
{
    let rows: int = subframe_rows(input.n_ssc as int, input.psc as int);
    let r: Result<(SubframePcm, usize), SubframePcmError> = Ok((pcm, bits));
    let s = choose|steps: SubframeSteps<S, T>|
        {
            &&& #[trigger] steps.follow(b, channels, books, input, was.state)
            &&& r == steps.result(input)
            &&& now == steps.carried(input, was)
        };
    assert(s.plan.rows == rows);
    let at: usize = (input.bit + s.index_bits() + s.low_bits()) as usize;
    let job = AudioJob {
        header: &input.header,
        coding: &input.coding,
        side: input.side,
        plan: &s.plan,
        books,
        hf_indices: match s.indices.unwrap().0 {
            Some(found) => Some(&found),
            None => None,
        },
        n_ssc: input.n_ssc,
        psc: input.psc,
        aspf: input.aspf,
    };
    assert((b.audio)(s.low.0, input.bytes, at, job, s.audio));
    let m: Seq<Vec<[T; 32]>> = s.audio.1.unwrap().0@;
    assert(has_rows(m, channels as int, rows));
    assert((b.mixed)(m, s.mixed@, s.plan, input.coding.joinx@, input.scales));
    assert((b.synthesis)(s.audio.0, channels, s.mixed, s.plan, s.pcm));
    assert(synthesized_in_full(channels, s.mixed@, pcm@));
    assert forall|ch: int| 0 <= ch < channels implies (#[trigger] pcm@[ch])@.len() == 32
        * rows by {
        assert(m[ch]@.len() == s.mixed@[ch]@.len());
    }
    if s.plan.lff != 0 {
        assert((b.low)(
            was.state,
            input.bytes,
            (input.bit + s.index_bits()) as usize,
            s.plan.lff,
            input.n_ssc,
            s.low,
        ));
        assert(32 * rows <= 256 * input.n_ssc);
    }
}

/// The subsubframes of subframes.
pub open spec fn subsubframes(subframes: Seq<Subframe<'_>>) -> int
    decreases subframes.len(),
{
    if subframes.len() == 0 {
        0
    } else {
        subsubframes(subframes.drop_last()) + subframes.last().n_ssc
    }
}

/// The lengths of the first subframes of a frame.
pub proof fn lemma_prepared_lengths<'a, S, T>(
    frame: PreparedFrame<'a>,
    b: SubframeBehaviour<'a, S, T>,
    channels: usize,
    books: VqCodebooks,
    was: Carried<S>,
    done: Seq<DecodedSubframe<S>>,
)
    requires
        b.in_full(),
        done.len() <= frame.subframes.len(),
        frame.decoded(b, channels, books, was, done),
    ensures
        forall|k: int| 0 <= k < done.len() ==> (#[trigger] blocks_of(done)[k])@.len() == channels,
        forall|ch: int|
            0 <= ch < channels ==> #[trigger] total_len(blocks_of(done), ch) == 256 * subsubframes(
                frame.subframes.take(done.len() as int),
            ),
        concatenated(lfe_of(done)).len() == (if frame.header.lfe.code_of() == 0 {
            0
        } else {
            256 * subsubframes(frame.subframes.take(done.len() as int))
        }),
    decreases done.len(),
{
    if done.len() > 0 {
        let before: Seq<DecodedSubframe<S>> = done.drop_last();
        let last: DecodedSubframe<S> = done.last();
        let k: int = done.len() - 1;
        lemma_prepared_lengths(frame, b, channels, books, was, before);
        lemma_subframe_lengths(
            b,
            channels,
            books,
            frame.input(k, last.at),
            last.before,
            last.block,
            last.bits,
            last.after,
        );
        assert(blocks_of(done).drop_last() =~= blocks_of(before));
        assert(lfe_of(done).drop_last() =~= lfe_of(before));
        assert(frame.subframes.take(done.len() as int).drop_last() =~= frame.subframes.take(k));
        assert forall|j: int| 0 <= j < done.len() implies (#[trigger] blocks_of(done)[j])@.len()
            == channels by {
            if j < k {
                assert(blocks_of(done)[j] == blocks_of(before)[j]);
            }
        }
        assert forall|ch: int| 0 <= ch < channels implies #[trigger] total_len(
            blocks_of(done),
            ch,
        ) == 256 * subsubframes(frame.subframes.take(done.len() as int)) by {
            assert(total_len(blocks_of(before), ch) == 256 * subsubframes(
                frame.subframes.take(k),
            ));
            assert(last.block@[ch]@.len() == 256 * frame.subframes[k].n_ssc);
        }
    }
}

/// The rows of the subframes of a walk.
pub open spec fn walked_rows<S, T>(done: Seq<CoreSubframe<'_, S, T>>) -> int
    decreases done.len(),
{
    if done.len() == 0 {
        0
    } else {
        walked_rows(done.drop_last()) + subframe_rows(
            done.last().side.n_ssc as int,
            done.last().side.psc as int,
        )
    }
}

/// The subsubframes of the subframes of a walk.
pub open spec fn walked_subsubframes<S, T>(done: Seq<CoreSubframe<'_, S, T>>) -> int
    decreases done.len(),
{
    if done.len() == 0 {
        0
    } else {
        walked_subsubframes(done.drop_last()) + done.last().side.n_ssc
    }
}

/// The lengths of the first subframes of a walk.
pub proof fn lemma_walked_lengths<'a, S, T>(
    f: CoreFrame<'a>,
    b: SubframeBehaviour<'a, S, T>,
    fb: FrameBehaviour<'a, S, T>,
    start: Carried<S>,
    done: Seq<CoreSubframe<'a, S, T>>,
)
    requires
        b.in_full(),
        fb.keeps_sizes(),
        f.walked(b, fb, start, done),
    ensures
        forall|k: int|
            0 <= k < done.len() ==> (#[trigger] gained_of(done)[k])@.len() == f.channels,
        forall|ch: int|
            0 <= ch < f.channels ==> #[trigger] total_len(gained_of(done), ch) == 32 * walked_rows(
                done,
            ),
        concatenated(frame_lfe_of(done)).len() == (if f.header.lfe.code_of() == 0 {
            0
        } else {
            32 * walked_rows(done)
        }),
        f.header.frame_type == FrameType::Normal ==> walked_rows(done) == 8 * walked_subsubframes(
            done,
        ),
    decreases done.len(),
{
    if done.len() > 0 {
        let before: Seq<CoreSubframe<'a, S, T>> = done.drop_last();
        let last: CoreSubframe<'a, S, T> = done.last();
        let k: int = done.len() - 1;
        lemma_walked_lengths(f, b, fb, start, before);
        lemma_walked_at(b, fb, f, start, done, k);
        assert((fb.side_info)(f.bytes, last.at, f.coding, Ok((last.side, last.side_bits))));
        lemma_subframe_lengths(
            b,
            f.channels,
            f.books,
            f.input(last),
            last.before,
            last.block,
            last.audio_bits,
            last.after,
        );
        if let Some(code) = f.gain_code(last) {
            assert((fb.gained)(code, last.block@, last.gained@));
        }
        assert(gained_of(done).drop_last() =~= gained_of(before));
        assert(frame_lfe_of(done).drop_last() =~= frame_lfe_of(before));
        assert forall|j: int| 0 <= j < done.len() implies (#[trigger] gained_of(done)[j])@.len()
            == f.channels by {
            if j < k {
                assert(gained_of(done)[j] == gained_of(before)[j]);
            }
        }
        assert forall|ch: int| 0 <= ch < f.channels implies #[trigger] total_len(
            gained_of(done),
            ch,
        ) == 32 * walked_rows(done) by {
            assert(total_len(gained_of(before), ch) == 32 * walked_rows(before));
            assert(last.block@[ch]@.len() == 32 * subframe_rows(
                last.side.n_ssc as int,
                last.side.psc as int,
            ));
            assert(last.gained@[ch]@.len() == last.block@[ch]@.len());
        }
    }
}

/// The planes of blocks one behind the other have the lengths of the blocks.
pub proof fn lemma_joined_lengths(
    channels: usize,
    blocks: Seq<SubframePcm>,
    pcm: Seq<Vec<i32>>,
    len: int,
)
    requires
        planes(pcm) == samples_of(channels as nat, blocks),
        forall|k: int| 0 <= k < blocks.len() ==> (#[trigger] blocks[k])@.len() == channels,
        forall|ch: int| 0 <= ch < channels ==> #[trigger] total_len(blocks, ch) == len,
    ensures
        has_samples(pcm, channels as int, len),
{
    lemma_plane_count(channels as nat, blocks);
    assert(planes(pcm).len() == pcm.len());
    assert forall|ch: int| 0 <= ch < channels implies (#[trigger] pcm[ch])@.len() == len by {
        law_subframe_lengths_add(channels as nat, blocks, ch);
        assert(planes(pcm)[ch] == pcm[ch]@);
        assert(total_len(blocks, ch) == len);
    }
}

/// Blocks one behind the other have one plane for each channel.
pub proof fn lemma_plane_count(channels: nat, blocks: Seq<SubframePcm>)
    ensures
        samples_of(channels, blocks).len() == channels,
    decreases blocks.len(),
{
    if blocks.len() > 0 {
        lemma_plane_count(channels, blocks.drop_last());
    }
}

} // verus!
