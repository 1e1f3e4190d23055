//! Laws on decoding: a frame is the run of its subframes, how long it is, and what
//! two decodings have in common. Each of them speaks of workers that have one reply
//! for each argument, or that work in full, and of results by what they hold.

use crate::audio_header::{audio_coding_header, AudioCodingHeader};
use crate::core_frame::{
    begin_error, blocks_of, carried_on, concatenated, core_frame_decoded, gained_of, lfe_of,
    planes, samples_of, CoreFrame, CoreSubframe, DecodedSubframe, PreparedFrame, Subframe,
};
use crate::decoder::{subframe_decoded, Carried, SubframeInput};
use crate::determined::{
    lemma_core_frame_determined, lemma_same_samples, lemma_subframe_determined, same_result,
};
use crate::error::Error;
use crate::header::{DtsFrameHeader, FrameType};
use crate::lengths::{
    has_samples, lemma_joined_lengths, lemma_plane_count, lemma_prepared_lengths,
    lemma_walked_lengths, same_lengths, subsubframes, walked_rows, walked_subsubframes,
};
use crate::stream::{
    both_books, decoded_alone, decoded_alone_with_info, fresh, lone_frame, lone_frame_with_info,
    pcm_and_info_decoded, pcm_decoded, with_info, without_end,
};
use crate::subframe::VqCodebooks;
use crate::subframe_pcm::{CoreFrameDecodeError, SubframePcm, SubframePcmError, SubframePlan};
use crate::workers::{
    AudioJob, AudioReply, FrameBehaviour, FrameWorkers, IndexReply, LowReply, SideReply,
    SubframeBehaviour, SubframeWorkers, SynthesisReply, TailReply,
};
use vstd::prelude::*;

verus! {

/// Both are the same samples, or the same error.
pub open spec fn same_samples(
    a: Result<SubframePcm, CoreFrameDecodeError>,
    b: Result<SubframePcm, CoreFrameDecodeError>,
) -> bool {
    match (a, b) {
        (Ok(p), Ok(q)) => planes(p@) == planes(q@),
        (Err(e), Err(f)) => e == f,
        _ => false,
    }
}

/// Two decodings of the same subframe from the same state give the same samples
/// and bits or the same error, and carry the same on.
pub proof fn law_subframe_has_one_outcome<'a, S, T, H, L, A, Q, P, U, M>(
    work: &SubframeWorkers<H, L, A, Q, P, U, M>,
    channels: usize,
    books: VqCodebooks,
    input: SubframeInput<'a, T>,
    was: Carried<S>,
    r1: Result<(SubframePcm, usize), SubframePcmError>,
    r2: Result<(SubframePcm, usize), SubframePcmError>,
    now1: Carried<S>,
    now2: Carried<S>,
) where
    H: Fn(&[u8], usize, &SubframePlan) -> IndexReply,
    L: Fn(&S, &[u8], usize, u8, usize) -> LowReply<S>,
    A: Fn(&S, &[u8], usize, &AudioJob<'_>) -> AudioReply<S, T>,
    Q: Fn(&S, usize, &Vec<Vec<[T; 32]>>, &SubframePlan) -> SynthesisReply<S>,
    P: Fn(T, T) -> T,
    U: Fn(T, T) -> T,
    M: Fn(T, T) -> T,

    requires
        work.one_reply::<S, T>(),
        subframe_decoded(work.behaviour::<S, T>(), channels, books, input, was, r1, now1),
        subframe_decoded(work.behaviour::<S, T>(), channels, books, input, was, r2, now2),
    ensures
        same_result(r1, r2),
        now1 == now2,
{
    let b: SubframeBehaviour<'a, S, T> = work.behaviour::<S, T>();
    work.lemma_one_reply::<S, T>();
    lemma_subframe_determined(b, channels, books, input, input, was, was, r1, r2, now1, now2);
}

/// The bits of the audio parts of subframes.
pub open spec fn audio_bits<S>(calls: Seq<DecodedSubframe<S>>) -> int
    decreases calls.len(),
{
    if calls.len() == 0 {
        0
    } else {
        audio_bits(calls.drop_last()) + calls.last().bits
    }
}

/// The bits between the audio parts of subframes and those behind them.
pub open spec fn gap_bits(subframes: Seq<Subframe<'_>>) -> int
    decreases subframes.len(),
{
    if subframes.len() == 0 {
        0
    } else {
        gap_bits(subframes.drop_last()) + subframes.last().side_info_bits
    }
}

/// The bit at which the next subframe is decoded in turn.
pub open spec fn turn_bit<S>(frame: PreparedFrame<'_>, calls: Seq<DecodedSubframe<S>>) -> int {
    if calls.len() == 0 {
        frame.first as int
    } else {
        calls.last().at + calls.last().bits + frame.subframes[calls.len() - 1].side_info_bits
    }
}

/// What a decoder carries into the next subframe.
pub open spec fn turn_carried<S>(was: Carried<S>, calls: Seq<DecodedSubframe<S>>) -> Carried<S> {
    if calls.len() == 0 {
        was
    } else {
        calls.last().after
    }
}

/// The first subframes of the frame have been decoded by one decoder in turn, each
/// behind the one before it and the bits between them.
pub open spec fn decoded_in_turn<S, T>(
    frame: PreparedFrame<'_>,
    b: SubframeBehaviour<'_, S, T>,
    channels: usize,
    books: VqCodebooks,
    was: Carried<S>,
    calls: Seq<DecodedSubframe<S>>,
) -> bool
    decreases calls.len(),
{
    if calls.len() == 0 {
        true
    } else {
        let last: DecodedSubframe<S> = calls.last();
        let before: Seq<DecodedSubframe<S>> = calls.drop_last();
        &&& decoded_in_turn(frame, b, channels, books, was, before)
        &&& last.at == turn_bit(frame, before)
        &&& last.before == turn_carried(was, before)
        &&& subframe_decoded(
            b,
            channels,
            books,
            frame.input(calls.len() - 1, last.at),
            last.before,
            Ok((last.block, last.bits)),
            last.after,
        )
    }
}

/// What holds of subframe `k` of a frame that is decoded.
pub proof fn lemma_decoded_at<'a, S, T>(
    frame: PreparedFrame<'a>,
    b: SubframeBehaviour<'a, S, T>,
    channels: usize,
    books: VqCodebooks,
    was: Carried<S>,
    done: Seq<DecodedSubframe<S>>,
    k: int,
)
    requires
        frame.decoded(b, channels, books, was, done),
        0 <= k < done.len(),
    ensures
        done[k].at == frame.next_bit(done.take(k)),
        done[k].before == carried_on(was, done.take(k)),
        subframe_decoded(
            b,
            channels,
            books,
            frame.input(k, done[k].at),
            done[k].before,
            Ok((done[k].block, done[k].bits)),
            done[k].after,
        ),
    decreases done.len(),
{
    let before: Seq<DecodedSubframe<S>> = done.drop_last();
    if k == done.len() - 1 {
        assert(done.take(k) =~= before);
    } else {
        lemma_decoded_at(frame, b, channels, books, was, before, k);
        assert(before.take(k) =~= done.take(k));
    }
}

/// What holds of subframe `k` of subframes that are decoded in turn.
proof fn lemma_turn_at<'a, S, T>(
    frame: PreparedFrame<'a>,
    b: SubframeBehaviour<'a, S, T>,
    channels: usize,
    books: VqCodebooks,
    was: Carried<S>,
    calls: Seq<DecodedSubframe<S>>,
    k: int,
)
    requires
        decoded_in_turn(frame, b, channels, books, was, calls),
        0 <= k < calls.len(),
    ensures
        calls[k].at == turn_bit(frame, calls.take(k)),
        calls[k].before == turn_carried(was, calls.take(k)),
        subframe_decoded(
            b,
            channels,
            books,
            frame.input(k, calls[k].at),
            calls[k].before,
            Ok((calls[k].block, calls[k].bits)),
            calls[k].after,
        ),
    decreases calls.len(),
{
    let before: Seq<DecodedSubframe<S>> = calls.drop_last();
    if k == calls.len() - 1 {
        assert(calls.take(k) =~= before);
    } else {
        lemma_turn_at(frame, b, channels, books, was, before, k);
        assert(before.take(k) =~= calls.take(k));
    }
}

/// The decoding of a frame and that of its subframes in turn agree as far as both go.
proof fn lemma_turns_agree<'a, S, T>(
    frame: PreparedFrame<'a>,
    b: SubframeBehaviour<'a, S, T>,
    channels: usize,
    books: VqCodebooks,
    was: Carried<S>,
    done: Seq<DecodedSubframe<S>>,
    calls: Seq<DecodedSubframe<S>>,
    k: int,
)
    requires
        b.one_reply(),
        frame.decoded(b, channels, books, was, done),
        decoded_in_turn(frame, b, channels, books, was, calls),
        0 <= k <= done.len(),
        k <= calls.len(),
        k <= frame.subframes.len(),
    ensures
        forall|j: int|
            0 <= j < k ==> {
                &&& planes((#[trigger] done[j]).block@) == planes(calls[j].block@)
                &&& done[j].bits == calls[j].bits
                &&& done[j].at == calls[j].at
                &&& done[j].after == calls[j].after
            },
        k < frame.subframes.len() ==> frame.next_bit(done.take(k)) == turn_bit(
            frame,
            calls.take(k),
        ),
        carried_on(was, done.take(k)).state == turn_carried(was, calls.take(k)).state,
    decreases k,
{
    if k > 0 {
        let j: int = k - 1;
        lemma_turns_agree(frame, b, channels, books, was, done, calls, j);
        lemma_decoded_at(frame, b, channels, books, was, done, j);
        lemma_turn_at(frame, b, channels, books, was, calls, j);
        let r1: Result<(SubframePcm, usize), SubframePcmError> = Ok((done[j].block, done[j].bits));
        let r2: Result<(SubframePcm, usize), SubframePcmError> = Ok(
            (calls[j].block, calls[j].bits),
        );
        lemma_subframe_determined(
            b,
            channels,
            books,
            frame.input(j, done[j].at),
            frame.input(j, calls[j].at),
            done[j].before,
            calls[j].before,
            r1,
            r2,
            done[j].after,
            calls[j].after,
        );
        assert(same_result(r1, r2));
        assert(done.take(k).last() == done[j]);
        assert(calls.take(k).last() == calls[j]);
    }
}

/// The bits up to the next subframe are those of the audio parts and between them.
proof fn lemma_turn_bits<'a, S, T>(
    frame: PreparedFrame<'a>,
    b: SubframeBehaviour<'a, S, T>,
    channels: usize,
    books: VqCodebooks,
    was: Carried<S>,
    calls: Seq<DecodedSubframe<S>>,
)
    requires
        decoded_in_turn(frame, b, channels, books, was, calls),
        calls.len() <= frame.subframes.len(),
    ensures
        turn_bit(frame, calls) == frame.first + audio_bits(calls) + gap_bits(
            frame.subframes.take(calls.len() as int),
        ),
    decreases calls.len(),
{
    if calls.len() > 0 {
        let k: int = calls.len() - 1;
        lemma_turn_bits(frame, b, channels, books, was, calls.drop_last());
        assert(frame.subframes.take(calls.len() as int).drop_last() =~= frame.subframes.take(k));
    }
}

/// Decoding a frame is decoding its subframes in turn. Where all of them are
/// decoded, the frame is their samples one behind the other, takes the bits of their
/// audio parts and those between them, and leaves their low-frequency-effects samples
/// one behind the other. Where the next one fails, the frame fails with its error.
pub proof fn law_frame_is_its_subframes_in_turn<'a, S, T, H, L, A, Q, P, U, M>(
    work: &SubframeWorkers<H, L, A, Q, P, U, M>,
    frame: PreparedFrame<'a>,
    channels: usize,
    books: VqCodebooks,
    was: Carried<S>,
    r: Result<(SubframePcm, usize), SubframePcmError>,
    now: Carried<S>,
    calls: Seq<DecodedSubframe<S>>,
    next: Result<(SubframePcm, usize), SubframePcmError>,
    after: Carried<S>,
) where
    H: Fn(&[u8], usize, &SubframePlan) -> IndexReply,
    L: Fn(&S, &[u8], usize, u8, usize) -> LowReply<S>,
    A: Fn(&S, &[u8], usize, &AudioJob<'_>) -> AudioReply<S, T>,
    Q: Fn(&S, usize, &Vec<Vec<[T; 32]>>, &SubframePlan) -> SynthesisReply<S>,
    P: Fn(T, T) -> T,
    U: Fn(T, T) -> T,
    M: Fn(T, T) -> T,

    requires
        work.one_reply::<S, T>(),
        frame.gives(work.behaviour::<S, T>(), channels, books, was, r, now),
        decoded_in_turn(frame, work.behaviour::<S, T>(), channels, books, was, calls),
        calls.len() <= frame.subframes.len(),
        calls.len() < frame.subframes.len() ==> subframe_decoded(
            work.behaviour::<S, T>(),
            channels,
            books,
            frame.input(calls.len() as int, turn_bit(frame, calls) as usize),
            turn_carried(was, calls),
            next,
            after,
        ),
    ensures
        calls.len() == frame.subframes.len() ==> {
            &&& r matches Ok((pcm, bits))
            &&& planes(pcm@) == samples_of(channels as nat, blocks_of(calls))
            &&& bits == audio_bits(calls) + (if calls.len() == 0 {
                0
            } else {
                gap_bits(frame.subframes.drop_last())
            })
            &&& now.state == turn_carried(was, calls).state
            &&& now.lfe == concatenated(lfe_of(calls))
        },
        calls.len() < frame.subframes.len() && next is Err ==> {
            &&& r == Err::<(SubframePcm, usize), SubframePcmError>(next->Err_0)
            &&& now.state == after.state
        },
{
    let b: SubframeBehaviour<'a, S, T> = work.behaviour::<S, T>();
    work.lemma_one_reply::<S, T>();
    let done = choose|done: Seq<DecodedSubframe<S>>|
        #[trigger] frame.decoded(b, channels, books, was, done) && frame.comes_to(
            b,
            channels,
            books,
            was,
            done,
            r,
            now,
        );
    let n: int = frame.subframes.len() as int;
    let k: int = if done.len() <= calls.len() {
        done.len() as int
    } else {
        calls.len() as int
    };
    lemma_turns_agree(frame, b, channels, books, was, done, calls, k);
    if done.len() < calls.len() {
        assert(done.take(k) =~= done);
        lemma_turn_at(frame, b, channels, books, was, calls, k);
        let ok: Result<(SubframePcm, usize), SubframePcmError> = Ok(
            (calls[k].block, calls[k].bits),
        );
        lemma_subframe_determined(
            b,
            channels,
            books,
            frame.input(k, calls[k].at),
            frame.input(k, frame.next_bit(done) as usize),
            calls[k].before,
            carried_on(was, done),
            ok,
            r,
            calls[k].after,
            now,
        );
        assert(same_result(ok, r));
        assert(false);
    }
    assert(calls.take(k) =~= calls);
    if calls.len() == n {
        assert(done.len() == n);
        assert(done.take(k) =~= done);
        let x: Seq<SubframePcm> = blocks_of(done);
        let y: Seq<SubframePcm> = blocks_of(calls);
        assert forall|j: int| 0 <= j < x.len() implies planes((#[trigger] x[j])@) == planes(
            y[j]@,
        ) by {
            assert(planes(done[j].block@) == planes(calls[j].block@));
        }
        lemma_same_samples(channels as nat, x, y);
        assert(lfe_of(done) =~= lfe_of(calls)) by {
            assert forall|j: int| 0 <= j < done.len() implies done[j].after.lfe
                == calls[j].after.lfe by {
                assert(done[j].after == calls[j].after);
            }
        }
        if n > 0 {
            lemma_turn_bits(frame, b, channels, books, was, calls.drop_last());
            assert(frame.subframes.take(n - 1) =~= frame.subframes.drop_last());
            assert(done.last() == done[n - 1] && calls.last() == calls[n - 1]);
            assert(done[n - 1].bits == calls[n - 1].bits);
        }
    } else {
        let at: usize = turn_bit(frame, calls) as usize;
        if done.len() == calls.len() {
            assert(done.take(k) =~= done);
            lemma_subframe_determined(
                b,
                channels,
                books,
                frame.input(k, at),
                frame.input(k, frame.next_bit(done) as usize),
                turn_carried(was, calls),
                carried_on(was, done),
                next,
                r,
                after,
                now,
            );
            assert(same_result(next, r));
        } else {
            lemma_decoded_at(frame, b, channels, books, was, done, k);
            let ok: Result<(SubframePcm, usize), SubframePcmError> = Ok(
                (done[k].block, done[k].bits),
            );
            lemma_subframe_determined(
                b,
                channels,
                books,
                frame.input(k, at),
                frame.input(k, done[k].at),
                turn_carried(was, calls),
                done[k].before,
                next,
                ok,
                after,
                done[k].after,
            );
            assert(same_result(next, ok));
        }
    }
}

/// A frame that was decoded from full subsubframes has 256 samples for each of them
/// in each channel, and leaves as many low-frequency-effects samples, or none where
/// there is no such channel.
pub proof fn law_prepared_frame_lengths<'a, S, T, H, L, A, Q, P, U, M>(
    work: &SubframeWorkers<H, L, A, Q, P, U, M>,
    frame: PreparedFrame<'a>,
    channels: usize,
    books: VqCodebooks,
    was: Carried<S>,
    pcm: SubframePcm,
    bits: usize,
    now: Carried<S>,
) where
    H: Fn(&[u8], usize, &SubframePlan) -> IndexReply,
    L: Fn(&S, &[u8], usize, u8, usize) -> LowReply<S>,
    A: Fn(&S, &[u8], usize, &AudioJob<'_>) -> AudioReply<S, T>,
    Q: Fn(&S, usize, &Vec<Vec<[T; 32]>>, &SubframePlan) -> SynthesisReply<S>,
    P: Fn(T, T) -> T,
    U: Fn(T, T) -> T,
    M: Fn(T, T) -> T,

    requires
        work.in_full::<S, T>(),
        frame.gives(work.behaviour::<S, T>(), channels, books, was, Ok((pcm, bits)), now),
    ensures
        has_samples(pcm@, channels as int, 256 * subsubframes(frame.subframes)),
        now.lfe.len() == (if frame.header.lfe.code_of() == 0 {
            0
        } else {
            256 * subsubframes(frame.subframes)
        }),
{
    let b: SubframeBehaviour<'a, S, T> = work.behaviour::<S, T>();
    work.lemma_in_full::<S, T>();
    let r: Result<(SubframePcm, usize), SubframePcmError> = Ok((pcm, bits));
    let done = choose|done: Seq<DecodedSubframe<S>>|
        #[trigger] frame.decoded(b, channels, books, was, done) && frame.comes_to(
            b,
            channels,
            books,
            was,
            done,
            r,
            now,
        );
    lemma_prepared_lengths(frame, b, channels, books, was, done);
    assert(frame.subframes.take(done.len() as int) =~= frame.subframes);
    lemma_joined_lengths(channels, blocks_of(done), pcm@, 256 * subsubframes(frame.subframes));
}

/// The frame was walked to its end through the subframes of `done`.
pub open spec fn walked_to_the_end<'a, S, T>(
    b: SubframeBehaviour<'_, S, T>,
    fb: FrameBehaviour<'_, S, T>,
    frame: CoreFrame<'a>,
    start: Carried<S>,
    done: Seq<CoreSubframe<'a, S, T>>,
) -> bool {
    &&& frame.wf()
    &&& frame.walked(b, fb, start, done)
    &&& done.len() == frame.coding.n_subframes
}

/// The samples have 32 samples for each row of the subframes in each channel, which
/// is 256 for each subsubframe in a frame that is not the last. There are as many
/// low-frequency-effects samples, or none where there is no such channel.
pub open spec fn has_lengths<S, T>(
    done: Seq<CoreSubframe<'_, S, T>>,
    channels: usize,
    header: DtsFrameHeader,
    pcm: SubframePcm,
    lfe: Seq<i32>,
) -> bool {
    &&& has_samples(pcm@, channels as int, 32 * walked_rows(done))
    &&& header.frame_type == FrameType::Normal ==> 32 * walked_rows(done) == 256
        * walked_subsubframes(done)
    &&& lfe.len() == (if header.lfe.code_of() == 0 {
        0
    } else {
        32 * walked_rows(done)
    })
}

/// A decoded frame has the lengths of the subframes that were walked through. Every
/// channel is as long as the low-frequency-effects samples, where there are any.
pub proof fn law_core_frame_lengths<'a, S, T, H, L, A, Q, P, U, M, I, E, C, G>(
    work: &FrameWorkers<SubframeWorkers<H, L, A, Q, P, U, M>, I, E, C, G>,
    channels: usize,
    books: VqCodebooks,
    bytes: &'a [u8],
    header: DtsFrameHeader,
    was: Carried<S>,
    pcm: SubframePcm,
    end: usize,
    now: Carried<S>,
) where
    H: Fn(&[u8], usize, &SubframePlan) -> IndexReply,
    L: Fn(&S, &[u8], usize, u8, usize) -> LowReply<S>,
    A: Fn(&S, &[u8], usize, &AudioJob<'_>) -> AudioReply<S, T>,
    Q: Fn(&S, usize, &Vec<Vec<[T; 32]>>, &SubframePlan) -> SynthesisReply<S>,
    P: Fn(T, T) -> T,
    U: Fn(T, T) -> T,
    M: Fn(T, T) -> T,
    I: Fn(&[u8], usize, &AudioCodingHeader) -> SideReply,
    E: Fn(&[u8], usize, &AudioCodingHeader, &DtsFrameHeader) -> TailReply<T>,
    C: Fn(&S) -> S,
    G: Fn(i32, u8) -> i32,

    requires
        work.subframe.in_full::<S, T>(),
        work.frame_reliable::<S, T>(),
        core_frame_decoded(
            work.subframe.behaviour::<S, T>(),
            work.frame_behaviour::<S, T>(),
            channels,
            books,
            bytes,
            header,
            was,
            Ok((pcm, end)),
            now,
        ),
    ensures
        exists|frame: CoreFrame<'a>, start: Carried<S>, done: Seq<CoreSubframe<'a, S, T>>|
            {
                &&& frame.bytes == bytes
                &&& frame.header == header
                &&& #[trigger] walked_to_the_end(
                    work.subframe.behaviour::<S, T>(),
                    work.frame_behaviour::<S, T>(),
                    frame,
                    start,
                    done,
                )
                &&& has_lengths(done, channels, header, pcm, now.lfe)
            },
        pcm@.len() == channels,
        forall|ch: int|
            0 <= ch < channels && header.lfe.code_of() != 0 ==> (#[trigger] pcm@[ch])@.len()
                == now.lfe.len(),
        header.lfe.code_of() == 0 ==> now.lfe.len() == 0,
{
    let b: SubframeBehaviour<'a, S, T> = work.subframe.behaviour::<S, T>();
    let fb: FrameBehaviour<'a, S, T> = work.frame_behaviour::<S, T>();
    work.subframe.lemma_in_full::<S, T>();
    work.lemma_keeps_sizes::<S, T>();
    let r: Result<(SubframePcm, usize), CoreFrameDecodeError> = Ok((pcm, end));
    assert(begin_error(channels, bytes@, header) is None);
    let (frame, start) = choose|frame: CoreFrame<'a>, start: Carried<S>|
        {
            &&& frame.bytes == bytes
            &&& frame.header == header
            &&& frame.channels == channels
            &&& frame.books == books
            &&& frame.wf()
            &&& frame.starts(fb, was, start)
            &&& #[trigger] frame.gives(b, fb, start, r, now)
        };
    let done = choose|done: Seq<CoreSubframe<'a, S, T>>|
        #[trigger] frame.walked(b, fb, start, done) && frame.comes_to(b, fb, start, done, r, now);
    lemma_walked_lengths(frame, b, fb, start, done);
    let len: int = 32 * walked_rows(done);
    let samples: Seq<Seq<i32>> = samples_of(channels as nat, gained_of(done));
    match frame.codes {
        Some(codes) => {
            let plain = choose|plain: SubframePcm|
                planes(plain@) == samples && #[trigger] (fb.scaled)(codes, plain@, pcm@);
            assert((fb.scaled)(codes, plain@, pcm@));
            lemma_joined_lengths(channels, gained_of(done), plain@, len);
            assert(same_lengths(pcm@, plain@));
        },
        None => {
            lemma_joined_lengths(channels, gained_of(done), pcm@, len);
        },
    }
    assert(walked_to_the_end(b, fb, frame, start, done));
    assert(has_lengths(done, channels, header, pcm, now.lfe));
}

/// A frame that a stream decoder gives has one plane for each channel, and leaves
/// as many low-frequency-effects samples as each of them has, or none where there is
/// no such channel.
pub proof fn law_stream_frame_lengths<'a, S, T, H, L, A, Q, P, U, M, I, E, C, G>(
    work: &FrameWorkers<SubframeWorkers<H, L, A, Q, P, U, M>, I, E, C, G>,
    channels: usize,
    books: VqCodebooks,
    bytes: &'a [u8],
    header: DtsFrameHeader,
    was: Carried<S>,
    pcm: SubframePcm,
    now: Carried<S>,
) where
    H: Fn(&[u8], usize, &SubframePlan) -> IndexReply,
    L: Fn(&S, &[u8], usize, u8, usize) -> LowReply<S>,
    A: Fn(&S, &[u8], usize, &AudioJob<'_>) -> AudioReply<S, T>,
    Q: Fn(&S, usize, &Vec<Vec<[T; 32]>>, &SubframePlan) -> SynthesisReply<S>,
    P: Fn(T, T) -> T,
    U: Fn(T, T) -> T,
    M: Fn(T, T) -> T,
    I: Fn(&[u8], usize, &AudioCodingHeader) -> SideReply,
    E: Fn(&[u8], usize, &AudioCodingHeader, &DtsFrameHeader) -> TailReply<T>,
    C: Fn(&S) -> S,
    G: Fn(i32, u8) -> i32,

    requires
        work.subframe.in_full::<S, T>(),
        work.frame_reliable::<S, T>(),
        pcm_decoded(
            work.subframe.behaviour::<S, T>(),
            work.frame_behaviour::<S, T>(),
            channels,
            books,
            bytes,
            header,
            was,
            Ok(pcm),
            now,
        ),
    ensures
        exists|frame: CoreFrame<'a>, start: Carried<S>, done: Seq<CoreSubframe<'a, S, T>>|
            {
                &&& frame.bytes == bytes
                &&& frame.header == header
                &&& #[trigger] walked_to_the_end(
                    work.subframe.behaviour::<S, T>(),
                    work.frame_behaviour::<S, T>(),
                    frame,
                    start,
                    done,
                )
                &&& has_lengths(done, channels, header, pcm, now.lfe)
            },
        pcm@.len() == channels,
        forall|ch: int|
            0 <= ch < channels && header.lfe.code_of() != 0 ==> (#[trigger] pcm@[ch])@.len()
                == now.lfe.len(),
        header.lfe.code_of() == 0 ==> now.lfe.len() == 0,
{
    let b: SubframeBehaviour<'a, S, T> = work.subframe.behaviour::<S, T>();
    let fb: FrameBehaviour<'a, S, T> = work.frame_behaviour::<S, T>();
    let r: Result<SubframePcm, CoreFrameDecodeError> = Ok(pcm);
    let full = choose|full: Result<(SubframePcm, usize), CoreFrameDecodeError>|
        #[trigger] core_frame_decoded(b, fb, channels, books, bytes, header, was, full, now)
            && r == without_end(full);
    law_core_frame_lengths(
        work,
        channels,
        books,
        bytes,
        header,
        was,
        pcm,
        full->Ok_0.1,
        now,
    );
}

/// Two decodings of the same frame from the same carried give the same samples and
/// the same end or the same error, and carry the same on.
pub proof fn law_frame_has_one_outcome<'a, S, T, H, L, A, Q, P, U, M, I, E, C, G>(
    work: &FrameWorkers<SubframeWorkers<H, L, A, Q, P, U, M>, I, E, C, G>,
    channels: usize,
    books: VqCodebooks,
    bytes: &'a [u8],
    header: DtsFrameHeader,
    was: Carried<S>,
    r1: Result<(SubframePcm, usize), CoreFrameDecodeError>,
    r2: Result<(SubframePcm, usize), CoreFrameDecodeError>,
    now1: Carried<S>,
    now2: Carried<S>,
) where
    H: Fn(&[u8], usize, &SubframePlan) -> IndexReply,
    L: Fn(&S, &[u8], usize, u8, usize) -> LowReply<S>,
    A: Fn(&S, &[u8], usize, &AudioJob<'_>) -> AudioReply<S, T>,
    Q: Fn(&S, usize, &Vec<Vec<[T; 32]>>, &SubframePlan) -> SynthesisReply<S>,
    P: Fn(T, T) -> T,
    U: Fn(T, T) -> T,
    M: Fn(T, T) -> T,
    I: Fn(&[u8], usize, &AudioCodingHeader) -> SideReply,
    E: Fn(&[u8], usize, &AudioCodingHeader, &DtsFrameHeader) -> TailReply<T>,
    C: Fn(&S) -> S,
    G: Fn(i32, u8) -> i32,

    requires
        work.subframe.one_reply::<S, T>(),
        work.frame_one_reply::<S, T>(),
        core_frame_decoded(
            work.subframe.behaviour::<S, T>(),
            work.frame_behaviour::<S, T>(),
            channels,
            books,
            bytes,
            header,
            was,
            r1,
            now1,
        ),
        core_frame_decoded(
            work.subframe.behaviour::<S, T>(),
            work.frame_behaviour::<S, T>(),
            channels,
            books,
            bytes,
            header,
            was,
            r2,
            now2,
        ),
    ensures
        same_result(r1, r2),
        now1 == now2,
{
    let b: SubframeBehaviour<'a, S, T> = work.subframe.behaviour::<S, T>();
    let fb: FrameBehaviour<'a, S, T> = work.frame_behaviour::<S, T>();
    work.subframe.lemma_one_reply::<S, T>();
    work.lemma_frame_one_reply::<S, T>();
    lemma_core_frame_determined(
        b,
        fb,
        channels,
        books,
        bytes,
        header,
        was,
        was,
        r1,
        r2,
        now1,
        now2,
    );
}

/// Where clearing the history twice is clearing it once, a frame that does not use
/// the prediction history is decoded the same, whether or not the decoder forgot its
/// history before.
pub proof fn law_unused_history_makes_no_difference<
    'a,
    S,
    T,
    H,
    L,
    A,
    Q,
    P,
    U,
    M,
    I,
    E,
    C,
    G,
>(
    work: &FrameWorkers<SubframeWorkers<H, L, A, Q, P, U, M>, I, E, C, G>,
    channels: usize,
    books: VqCodebooks,
    bytes: &'a [u8],
    header: DtsFrameHeader,
    was: Carried<S>,
    cleared: S,
    r1: Result<SubframePcm, CoreFrameDecodeError>,
    r2: Result<SubframePcm, CoreFrameDecodeError>,
    now1: Carried<S>,
    now2: Carried<S>,
) where
    H: Fn(&[u8], usize, &SubframePlan) -> IndexReply,
    L: Fn(&S, &[u8], usize, u8, usize) -> LowReply<S>,
    A: Fn(&S, &[u8], usize, &AudioJob<'_>) -> AudioReply<S, T>,
    Q: Fn(&S, usize, &Vec<Vec<[T; 32]>>, &SubframePlan) -> SynthesisReply<S>,
    P: Fn(T, T) -> T,
    U: Fn(T, T) -> T,
    M: Fn(T, T) -> T,
    I: Fn(&[u8], usize, &AudioCodingHeader) -> SideReply,
    E: Fn(&[u8], usize, &AudioCodingHeader, &DtsFrameHeader) -> TailReply<T>,
    C: Fn(&S) -> S,
    G: Fn(i32, u8) -> i32,

    requires
        work.subframe.one_reply::<S, T>(),
        work.frame_one_reply::<S, T>(),
        forall|s: S, v: S, w: S| #[trigger]
            work.clear_history.ensures((&s,), v) && #[trigger] work.clear_history.ensures(
                (&v,),
                w,
            ) ==> w == v,
        !header.predictor_history,
        work.clear_history.ensures((&was.state,), cleared),
        pcm_decoded(
            work.subframe.behaviour::<S, T>(),
            work.frame_behaviour::<S, T>(),
            channels,
            books,
            bytes,
            header,
            was,
            r1,
            now1,
        ),
        pcm_decoded(
            work.subframe.behaviour::<S, T>(),
            work.frame_behaviour::<S, T>(),
            channels,
            books,
            bytes,
            header,
            Carried { state: cleared, lfe: was.lfe },
            r2,
            now2,
        ),
    ensures
        same_samples(r1, r2),
        begin_error(channels, bytes@, header) is None ==> now1 == now2,
{
    let b: SubframeBehaviour<'a, S, T> = work.subframe.behaviour::<S, T>();
    let fb: FrameBehaviour<'a, S, T> = work.frame_behaviour::<S, T>();
    work.subframe.lemma_one_reply::<S, T>();
    work.lemma_frame_one_reply::<S, T>();
    let other: Carried<S> = Carried { state: cleared, lfe: was.lfe };
    assert forall|v: S, w: S| #[trigger]
        (fb.cleared)(was.state, v) && #[trigger] (fb.cleared)(other.state, w) implies v == w by {
        assert((fb.cleared)(was.state, cleared));
        assert(work.clear_history.ensures((&was.state,), cleared));
        assert(work.clear_history.ensures((&cleared,), w));
    }
    let f1 = choose|full: Result<(SubframePcm, usize), CoreFrameDecodeError>|
        #[trigger] core_frame_decoded(b, fb, channels, books, bytes, header, was, full, now1)
            && r1 == without_end(full);
    let f2 = choose|full: Result<(SubframePcm, usize), CoreFrameDecodeError>|
        #[trigger] core_frame_decoded(b, fb, channels, books, bytes, header, other, full, now2)
            && r2 == without_end(full);
    lemma_core_frame_determined(
        b,
        fb,
        channels,
        books,
        bytes,
        header,
        was,
        other,
        f1,
        f2,
        now1,
        now2,
    );
}

/// Where a stream decoder decodes a frame and another one in the same state decodes
/// it with its optional information, both give the same samples, fail the same and
/// carry the same on. Beside that, only the reader of the information can fail.
pub proof fn law_information_changes_nothing_else<
    'a,
    S,
    T,
    D,
    N,
    H,
    L,
    A,
    Q,
    P,
    U,
    M,
    I,
    E,
    C,
    G,
>(
    work: &FrameWorkers<SubframeWorkers<H, L, A, Q, P, U, M>, I, E, C, G>,
    info: &N,
    channels: usize,
    books: VqCodebooks,
    bytes: &'a [u8],
    header: DtsFrameHeader,
    was: Carried<S>,
    r1: Result<SubframePcm, CoreFrameDecodeError>,
    r2: Result<(SubframePcm, D), CoreFrameDecodeError>,
    now1: Carried<S>,
    now2: Carried<S>,
) where
    N: Fn(&[u8], usize, &DtsFrameHeader) -> Result<(D, usize), Error>,
    H: Fn(&[u8], usize, &SubframePlan) -> IndexReply,
    L: Fn(&S, &[u8], usize, u8, usize) -> LowReply<S>,
    A: Fn(&S, &[u8], usize, &AudioJob<'_>) -> AudioReply<S, T>,
    Q: Fn(&S, usize, &Vec<Vec<[T; 32]>>, &SubframePlan) -> SynthesisReply<S>,
    P: Fn(T, T) -> T,
    U: Fn(T, T) -> T,
    M: Fn(T, T) -> T,
    I: Fn(&[u8], usize, &AudioCodingHeader) -> SideReply,
    E: Fn(&[u8], usize, &AudioCodingHeader, &DtsFrameHeader) -> TailReply<T>,
    C: Fn(&S) -> S,
    G: Fn(i32, u8) -> i32,

    requires
        work.subframe.one_reply::<S, T>(),
        work.frame_one_reply::<S, T>(),
        pcm_decoded(
            work.subframe.behaviour::<S, T>(),
            work.frame_behaviour::<S, T>(),
            channels,
            books,
            bytes,
            header,
            was,
            r1,
            now1,
        ),
        pcm_and_info_decoded(
            work.subframe.behaviour::<S, T>(),
            work.frame_behaviour::<S, T>(),
            *info,
            channels,
            books,
            bytes,
            header,
            was,
            r2,
            now2,
        ),
    ensures
        same_but_for_information(*info, bytes, header, r1, r2),
        now1 == now2,
{
    let b: SubframeBehaviour<'a, S, T> = work.subframe.behaviour::<S, T>();
    let fb: FrameBehaviour<'a, S, T> = work.frame_behaviour::<S, T>();
    work.subframe.lemma_one_reply::<S, T>();
    work.lemma_frame_one_reply::<S, T>();
    let f1 = choose|full: Result<(SubframePcm, usize), CoreFrameDecodeError>|
        #[trigger] core_frame_decoded(b, fb, channels, books, bytes, header, was, full, now1)
            && r1 == without_end(full);
    let (f2, reply) = choose|
        full: Result<(SubframePcm, usize), CoreFrameDecodeError>,
        reply: Result<(D, usize), Error>,
    |
        {
            &&& #[trigger] core_frame_decoded(
                b,
                fb,
                channels,
                books,
                bytes,
                header,
                was,
                full,
                now2,
            )
            &&& full matches Ok((_, end)) ==> info.ensures((bytes, end, &header), reply)
            &&& r2 == #[trigger] with_info(full, reply)
        };
    lemma_core_frame_determined(
        b,
        fb,
        channels,
        books,
        bytes,
        header,
        was,
        was,
        f1,
        f2,
        now1,
        now2,
    );
    if let Ok((_, end)) = f2 {
        if let Err(cause) = reply {
            assert(info.ensures((bytes, end, &header), reply));
        }
    }
}

/// `r2` is `r1` with optional information, or the error of its reader where `r1` is
/// none.
pub open spec fn same_but_for_information<D, N>(
    info: N,
    bytes: &[u8],
    header: DtsFrameHeader,
    r1: Result<SubframePcm, CoreFrameDecodeError>,
    r2: Result<(SubframePcm, D), CoreFrameDecodeError>,
) -> bool where N: Fn(&[u8], usize, &DtsFrameHeader) -> Result<(D, usize), Error> {
    match r1 {
        Err(e) => r2 == Err::<(SubframePcm, D), CoreFrameDecodeError>(e),
        Ok(p) => match r2 {
            Ok((q, _)) => planes(p@) == planes(q@),
            Err(e) => exists|end: usize, reply: Result<(D, usize), Error>|
                {
                    &&& #[trigger] info.ensures((bytes, end, &header), reply)
                    &&& reply matches Err(cause) && e == CoreFrameDecodeError::Bitstream(cause)
                },
        },
    }
}

/// There is one state to start with.
pub open spec fn one_start<S, B: Fn(usize) -> S>(start: B) -> bool {
    forall|channels: usize, v: S, w: S| #[trigger]
        start.ensures((channels,), v) && #[trigger] start.ensures((channels,), w) ==> v == w
}

/// A frame by itself is the first frame of a stream: it fails with the error of its
/// audio coding header, or it is what a new stream decoder of its number of channels
/// gives. It has one plane for each channel.
pub proof fn law_lone_frame_is_the_first_of_a_stream<
    'a,
    S,
    T,
    B,
    H,
    L,
    A,
    Q,
    P,
    U,
    M,
    I,
    E,
    C,
    G,
>(
    work: &FrameWorkers<SubframeWorkers<H, L, A, Q, P, U, M>, I, E, C, G>,
    start: &B,
    bytes: &'a [u8],
    header: DtsFrameHeader,
    r1: Result<SubframePcm, CoreFrameDecodeError>,
    state: S,
    r2: Result<SubframePcm, CoreFrameDecodeError>,
    now: Carried<S>,
) where
    B: Fn(usize) -> S,
    H: Fn(&[u8], usize, &SubframePlan) -> IndexReply,
    L: Fn(&S, &[u8], usize, u8, usize) -> LowReply<S>,
    A: Fn(&S, &[u8], usize, &AudioJob<'_>) -> AudioReply<S, T>,
    Q: Fn(&S, usize, &Vec<Vec<[T; 32]>>, &SubframePlan) -> SynthesisReply<S>,
    P: Fn(T, T) -> T,
    U: Fn(T, T) -> T,
    M: Fn(T, T) -> T,
    I: Fn(&[u8], usize, &AudioCodingHeader) -> SideReply,
    E: Fn(&[u8], usize, &AudioCodingHeader, &DtsFrameHeader) -> TailReply<T>,
    C: Fn(&S) -> S,
    G: Fn(i32, u8) -> i32,

    requires
        work.subframe.one_reply::<S, T>(),
        work.frame_one_reply::<S, T>(),
        one_start(*start),
        lone_frame(
            work.subframe.behaviour::<S, T>(),
            work.frame_behaviour::<S, T>(),
            *start,
            bytes,
            header,
            r1,
        ),
        audio_coding_header(bytes@, 8 * header.byte_length() as int, header.crc_present) matches Ok(
            (coding, _),
        ) ==> start.ensures((coding.n_pchs as usize,), state) && pcm_decoded(
            work.subframe.behaviour::<S, T>(),
            work.frame_behaviour::<S, T>(),
            coding.n_pchs as usize,
            both_books(),
            bytes,
            header,
            fresh(state),
            r2,
            now,
        ),
    ensures
        match audio_coding_header(bytes@, 8 * header.byte_length() as int, header.crc_present) {
            Err(e) => r1 == Err::<SubframePcm, CoreFrameDecodeError>(
                CoreFrameDecodeError::Bitstream(e),
            ),
            Ok((coding, _)) => {
                &&& same_samples(r1, r2)
                &&& r1 matches Ok(pcm) ==> pcm@.len() == coding.n_pchs as usize
            },
        },
{
    let b: SubframeBehaviour<'a, S, T> = work.subframe.behaviour::<S, T>();
    let fb: FrameBehaviour<'a, S, T> = work.frame_behaviour::<S, T>();
    work.subframe.lemma_one_reply::<S, T>();
    work.lemma_frame_one_reply::<S, T>();
    if let Ok((coding, _)) = audio_coding_header(
        bytes@,
        8 * header.byte_length() as int,
        header.crc_present,
    ) {
        let n: usize = coding.n_pchs as usize;
        let (state1, now1) = choose|state: S, now: Carried<S>| #[trigger]
            decoded_alone(b, fb, *start, n, bytes, header, r1, state, now);
        assert(start.ensures((n,), state1));
        assert(start.ensures((n,), state));
        let f1 = choose|full: Result<(SubframePcm, usize), CoreFrameDecodeError>|
            #[trigger] core_frame_decoded(
                b,
                fb,
                n,
                both_books(),
                bytes,
                header,
                fresh(state),
                full,
                now1,
            ) && r1 == without_end(full);
        let f2 = choose|full: Result<(SubframePcm, usize), CoreFrameDecodeError>|
            #[trigger] core_frame_decoded(
                b,
                fb,
                n,
                both_books(),
                bytes,
                header,
                fresh(state),
                full,
                now,
            ) && r2 == without_end(full);
        lemma_core_frame_determined(
            b,
            fb,
            n,
            both_books(),
            bytes,
            header,
            fresh(state),
            fresh(state),
            f1,
            f2,
            now1,
            now,
        );
        if let Ok((pcm, end)) = f1 {
            lemma_frame_plane_count(work, n, bytes, header, fresh(state), pcm, end, now1);
        }
    }
}

/// A decoded frame has one plane for each channel.
proof fn lemma_frame_plane_count<'a, S, T, H, L, A, Q, P, U, M, I, E, C, G>(
    work: &FrameWorkers<SubframeWorkers<H, L, A, Q, P, U, M>, I, E, C, G>,
    channels: usize,
    bytes: &'a [u8],
    header: DtsFrameHeader,
    was: Carried<S>,
    pcm: SubframePcm,
    end: usize,
    now: Carried<S>,
) where
    H: Fn(&[u8], usize, &SubframePlan) -> IndexReply,
    L: Fn(&S, &[u8], usize, u8, usize) -> LowReply<S>,
    A: Fn(&S, &[u8], usize, &AudioJob<'_>) -> AudioReply<S, T>,
    Q: Fn(&S, usize, &Vec<Vec<[T; 32]>>, &SubframePlan) -> SynthesisReply<S>,
    P: Fn(T, T) -> T,
    U: Fn(T, T) -> T,
    M: Fn(T, T) -> T,
    I: Fn(&[u8], usize, &AudioCodingHeader) -> SideReply,
    E: Fn(&[u8], usize, &AudioCodingHeader, &DtsFrameHeader) -> TailReply<T>,
    C: Fn(&S) -> S,
    G: Fn(i32, u8) -> i32,

    requires
        core_frame_decoded(
            work.subframe.behaviour::<S, T>(),
            work.frame_behaviour::<S, T>(),
            channels,
            both_books(),
            bytes,
            header,
            was,
            Ok((pcm, end)),
            now,
        ),
    ensures
        pcm@.len() == channels,
{
    let b: SubframeBehaviour<'a, S, T> = work.subframe.behaviour::<S, T>();
    let fb: FrameBehaviour<'a, S, T> = work.frame_behaviour::<S, T>();
    let r: Result<(SubframePcm, usize), CoreFrameDecodeError> = Ok((pcm, end));
    assert(begin_error(channels, bytes@, header) is None);
    let (frame, start) = choose|frame: CoreFrame<'a>, start: Carried<S>|
        {
            &&& frame.bytes == bytes
            &&& frame.header == header
            &&& frame.channels == channels
            &&& frame.books == both_books()
            &&& frame.wf()
            &&& frame.starts(fb, was, start)
            &&& #[trigger] frame.gives(b, fb, start, r, now)
        };
    let done = choose|done: Seq<CoreSubframe<'a, S, T>>|
        #[trigger] frame.walked(b, fb, start, done) && frame.comes_to(b, fb, start, done, r, now);
    let samples: Seq<Seq<i32>> = samples_of(channels as nat, gained_of(done));
    lemma_plane_count(channels as nat, gained_of(done));
    assert(planes(pcm@).len() == pcm@.len());
    if let Some(codes) = frame.codes {
        let plain = choose|plain: SubframePcm|
            planes(plain@) == samples && #[trigger] (fb.scaled)(codes, plain@, pcm@);
        assert((fb.scaled)(codes, plain@, pcm@));
        assert(planes(plain@).len() == plain@.len());
    }
}

/// Two decodings of the same frame by itself give the same.
pub proof fn law_lone_frame_has_one_outcome<'a, S, T, B, H, L, A, Q, P, U, M, I, E, C, G>(
    work: &FrameWorkers<SubframeWorkers<H, L, A, Q, P, U, M>, I, E, C, G>,
    start: &B,
    bytes: &'a [u8],
    header: DtsFrameHeader,
    r1: Result<SubframePcm, CoreFrameDecodeError>,
    r2: Result<SubframePcm, CoreFrameDecodeError>,
) where
    B: Fn(usize) -> S,
    H: Fn(&[u8], usize, &SubframePlan) -> IndexReply,
    L: Fn(&S, &[u8], usize, u8, usize) -> LowReply<S>,
    A: Fn(&S, &[u8], usize, &AudioJob<'_>) -> AudioReply<S, T>,
    Q: Fn(&S, usize, &Vec<Vec<[T; 32]>>, &SubframePlan) -> SynthesisReply<S>,
    P: Fn(T, T) -> T,
    U: Fn(T, T) -> T,
    M: Fn(T, T) -> T,
    I: Fn(&[u8], usize, &AudioCodingHeader) -> SideReply,
    E: Fn(&[u8], usize, &AudioCodingHeader, &DtsFrameHeader) -> TailReply<T>,
    C: Fn(&S) -> S,
    G: Fn(i32, u8) -> i32,

    requires
        work.subframe.one_reply::<S, T>(),
        work.frame_one_reply::<S, T>(),
        one_start(*start),
        lone_frame(
            work.subframe.behaviour::<S, T>(),
            work.frame_behaviour::<S, T>(),
            *start,
            bytes,
            header,
            r1,
        ),
        lone_frame(
            work.subframe.behaviour::<S, T>(),
            work.frame_behaviour::<S, T>(),
            *start,
            bytes,
            header,
            r2,
        ),
    ensures
        same_samples(r1, r2),
{
    let b: SubframeBehaviour<'a, S, T> = work.subframe.behaviour::<S, T>();
    let fb: FrameBehaviour<'a, S, T> = work.frame_behaviour::<S, T>();
    let mut state: S = arbitrary();
    let mut now: Carried<S> = arbitrary();
    if let Ok((coding, _)) = audio_coding_header(
        bytes@,
        8 * header.byte_length() as int,
        header.crc_present,
    ) {
        let n: usize = coding.n_pchs as usize;
        let (state2, now2) = choose|state: S, now: Carried<S>| #[trigger]
            decoded_alone(b, fb, *start, n, bytes, header, r2, state, now);
        state = state2;
        now = now2;
    }
    law_lone_frame_is_the_first_of_a_stream(work, start, bytes, header, r1, state, r2, now);
}

/// A frame by itself with its optional information gives the same samples and fails
/// the same as without. Beside that, only the reader of the information can fail.
pub proof fn law_lone_information_changes_nothing_else<
    'a,
    S,
    T,
    B,
    D,
    N,
    H,
    L,
    A,
    Q,
    P,
    U,
    M,
    I,
    E,
    C,
    G,
>(
    work: &FrameWorkers<SubframeWorkers<H, L, A, Q, P, U, M>, I, E, C, G>,
    start: &B,
    info: &N,
    bytes: &'a [u8],
    header: DtsFrameHeader,
    r1: Result<SubframePcm, CoreFrameDecodeError>,
    r2: Result<(SubframePcm, D), CoreFrameDecodeError>,
) where
    B: Fn(usize) -> S,
    N: Fn(&[u8], usize, &DtsFrameHeader) -> Result<(D, usize), Error>,
    H: Fn(&[u8], usize, &SubframePlan) -> IndexReply,
    L: Fn(&S, &[u8], usize, u8, usize) -> LowReply<S>,
    A: Fn(&S, &[u8], usize, &AudioJob<'_>) -> AudioReply<S, T>,
    Q: Fn(&S, usize, &Vec<Vec<[T; 32]>>, &SubframePlan) -> SynthesisReply<S>,
    P: Fn(T, T) -> T,
    U: Fn(T, T) -> T,
    M: Fn(T, T) -> T,
    I: Fn(&[u8], usize, &AudioCodingHeader) -> SideReply,
    E: Fn(&[u8], usize, &AudioCodingHeader, &DtsFrameHeader) -> TailReply<T>,
    C: Fn(&S) -> S,
    G: Fn(i32, u8) -> i32,

    requires
        work.subframe.one_reply::<S, T>(),
        work.frame_one_reply::<S, T>(),
        one_start(*start),
        lone_frame(
            work.subframe.behaviour::<S, T>(),
            work.frame_behaviour::<S, T>(),
            *start,
            bytes,
            header,
            r1,
        ),
        lone_frame_with_info(
            work.subframe.behaviour::<S, T>(),
            work.frame_behaviour::<S, T>(),
            *start,
            *info,
            bytes,
            header,
            r2,
        ),
    ensures
        same_but_for_information(*info, bytes, header, r1, r2),
{
    let b: SubframeBehaviour<'a, S, T> = work.subframe.behaviour::<S, T>();
    let fb: FrameBehaviour<'a, S, T> = work.frame_behaviour::<S, T>();
    if let Ok((coding, _)) = audio_coding_header(
        bytes@,
        8 * header.byte_length() as int,
        header.crc_present,
    ) {
        let n: usize = coding.n_pchs as usize;
        let (state1, now1) = choose|state: S, now: Carried<S>| #[trigger]
            decoded_alone(b, fb, *start, n, bytes, header, r1, state, now);
        let (state2, now2) = choose|state: S, now: Carried<S>| #[trigger]
            decoded_alone_with_info(b, fb, *start, *info, n, bytes, header, r2, state, now);
        assert(start.ensures((n,), state1));
        assert(start.ensures((n,), state2));
        law_information_changes_nothing_else(
            work,
            info,
            n,
            both_books(),
            bytes,
            header,
            fresh(state1),
            r1,
            r2,
            now1,
            now2,
        );
    }
}

} // verus!
