//! Laws on what a decoder makes of a worker that fails, and of frames whose side
//! information is at hand.

use crate::audio_header::{audio_coding_header, AudioCodingHeader};
use crate::core_frame::{
    begin_error, blocks_of, carried_on, concatenated, core_frame_decoded, lfe_of, planes,
    samples_of, walked_on, CoreFrame, CoreSubframe, DecodedSubframe, PreparedFrame,
};
use crate::decode_laws::lemma_decoded_at;
use crate::decoder::{subframe_decoded, Carried, SubframeInput, SubframeSteps};
use crate::determined::lemma_walked_at;
use crate::frame_laws::SubframeCalls;
use crate::header::{DtsFrameHeader, FrameType};
use crate::subband_mix::{mix_error, mixed};
use crate::subframe::VqCodebooks;
use crate::subframe_pcm::{
    subframe_error, CoreFrameDecodeError, SubframePcm, SubframePcmError, SubframePlan,
};
use crate::workers::{
    AudioJob, AudioReply, FrameBehaviour, FrameWorkers, IndexReply, LowReply, SideReply,
    SubframeBehaviour, SubframeWorkers, SynthesisReply, TailReply,
};
use vstd::prelude::*;

verus! {

/// Gives the calls of the workers on a subframe a name.
pub open spec fn names_calls<S, T>(calls: SubframeCalls<S, T>) -> bool {
    true
}

/// The code book indices were read as the plan asks, from the first bit of the subframe.
pub open spec fn indices_taken<'a, S, T, H, L, A, Q, P, U, M>(
    work: &SubframeWorkers<H, L, A, Q, P, U, M>,
    input: SubframeInput<'a, T>,
    calls: SubframeCalls<S, T>,
) -> bool where
    H: Fn(&[u8], usize, &SubframePlan) -> IndexReply,
    L: Fn(&S, &[u8], usize, u8, usize) -> LowReply<S>,
    A: Fn(&S, &[u8], usize, &AudioJob<'_>) -> AudioReply<S, T>,
    Q: Fn(&S, usize, &Vec<Vec<[T; 32]>>, &SubframePlan) -> SynthesisReply<S>,
    P: Fn(T, T) -> T,
    U: Fn(T, T) -> T,
    M: Fn(T, T) -> T,
 {
    if calls.plan.scan_hf_vq {
        calls.indices is Some && work.indices.ensures(
            (input.bytes, input.bit, &calls.plan),
            Ok((calls.indices.unwrap(), calls.index_bits)),
        )
    } else {
        calls.indices is None && calls.index_bits == 0
    }
}

/// The low-frequency-effects samples were read, where there are any, from the bit behind
/// the indices.
pub open spec fn low_taken<'a, S, T, H, L, A, Q, P, U, M>(
    work: &SubframeWorkers<H, L, A, Q, P, U, M>,
    input: SubframeInput<'a, T>,
    state: S,
    calls: SubframeCalls<S, T>,
) -> bool where
    H: Fn(&[u8], usize, &SubframePlan) -> IndexReply,
    L: Fn(&S, &[u8], usize, u8, usize) -> LowReply<S>,
    A: Fn(&S, &[u8], usize, &AudioJob<'_>) -> AudioReply<S, T>,
    Q: Fn(&S, usize, &Vec<Vec<[T; 32]>>, &SubframePlan) -> SynthesisReply<S>,
    P: Fn(T, T) -> T,
    U: Fn(T, T) -> T,
    M: Fn(T, T) -> T,
 {
    if calls.plan.lff != 0 {
        work.low.ensures(
            (
                &state,
                input.bytes,
                (input.bit + calls.index_bits) as usize,
                calls.plan.lff,
                input.n_ssc,
            ),
            (calls.behind_low, Ok((calls.low, calls.low_bits))),
        )
    } else {
        calls.low@.len() == 0 && calls.low_bits == 0 && calls.behind_low == state
    }
}

/// The reader of the audio data answered `reply`, from the bit behind the
/// low-frequency-effects samples.
pub open spec fn audio_answered<'a, S, T, H, L, A, Q, P, U, M>(
    work: &SubframeWorkers<H, L, A, Q, P, U, M>,
    books: VqCodebooks,
    input: SubframeInput<'a, T>,
    calls: SubframeCalls<S, T>,
    reply: AudioReply<S, T>,
) -> bool where
    H: Fn(&[u8], usize, &SubframePlan) -> IndexReply,
    L: Fn(&S, &[u8], usize, u8, usize) -> LowReply<S>,
    A: Fn(&S, &[u8], usize, &AudioJob<'_>) -> AudioReply<S, T>,
    Q: Fn(&S, usize, &Vec<Vec<[T; 32]>>, &SubframePlan) -> SynthesisReply<S>,
    P: Fn(T, T) -> T,
    U: Fn(T, T) -> T,
    M: Fn(T, T) -> T,
 {
    work.audio.ensures(
        (
            &calls.behind_low,
            input.bytes,
            (input.bit + calls.index_bits + calls.low_bits) as usize,
            &AudioJob {
                header: &input.header,
                coding: &input.coding,
                side: input.side,
                plan: &calls.plan,
                books,
                hf_indices: match calls.indices {
                    Some(found) => Some(&found),
                    None => None,
                },
                n_ssc: input.n_ssc,
                psc: input.psc,
                aspf: input.aspf,
            },
        ),
        reply,
    )
}

/// The low-frequency-effects samples that are kept: the first ones of those that were
/// read, no more than a channel has samples.
pub open spec fn low_kept<S, T>(calls: SubframeCalls<S, T>, lfe: Seq<i32>) -> bool {
    &&& lfe.len() == (if calls.low@.len() <= 32 * calls.plan.rows {
        calls.low@.len() as int
    } else {
        32 * calls.plan.rows
    })
    &&& forall|i: int| 0 <= i < lfe.len() ==> #[trigger] lfe[i] == calls.low@[i]
}

/// A subframe that is accepted and then fails, fails with the error of the first worker
/// that failed, or because its samples do not fit together. The state is the one that
/// the last worker left. The low-frequency-effects samples are kept once they are read.
pub proof fn law_subframe_fails_with_its_worker<'a, S, T, H, L, A, Q, P, U, M>(
    work: &SubframeWorkers<H, L, A, Q, P, U, M>,
    channels: usize,
    books: VqCodebooks,
    input: SubframeInput<'a, T>,
    was: Carried<S>,
    e: SubframePcmError,
    now: Carried<S>,
) where
    H: Fn(&[u8], usize, &SubframePlan) -> IndexReply,
    L: Fn(&S, &[u8], usize, u8, usize) -> LowReply<S>,
    A: Fn(&S, &[u8], usize, &AudioJob<'_>) -> AudioReply<S, T>,
    Q: Fn(&S, usize, &Vec<Vec<[T; 32]>>, &SubframePlan) -> SynthesisReply<S>,
    P: Fn(T, T) -> T,
    U: Fn(T, T) -> T,
    M: Fn(T, T) -> T,

    requires
        input.refusal(channels, books) is None,
        subframe_decoded(
            work.behaviour::<S, T>(),
            channels,
            books,
            input,
            was,
            Err(e),
            now,
        ),
    ensures
        exists|calls: SubframeCalls<S, T>|
            {
                &&& #[trigger] names_calls(calls)
                &&& calls.plan.is_for(
                    channels,
                    input.header,
                    input.coding,
                    input.n_ssc as int,
                    input.psc as int,
                )
                &&& match e {
                    SubframePcmError::AudioData(cause) => {
                        ||| {
                            &&& calls.plan.scan_hf_vq
                            &&& work.indices.ensures(
                                (input.bytes, input.bit, &calls.plan),
                                Err(cause),
                            )
                            &&& now == was
                        }
                        ||| {
                            &&& indices_taken::<S, T, H, L, A, Q, P, U, M>(work, input, calls)
                            &&& calls.plan.lff != 0
                            &&& work.low.ensures(
                                (
                                    &was.state,
                                    input.bytes,
                                    (input.bit + calls.index_bits) as usize,
                                    calls.plan.lff,
                                    input.n_ssc,
                                ),
                                (now.state, Err(cause)),
                            )
                            &&& now.lfe == was.lfe
                        }
                        ||| {
                            &&& indices_taken::<S, T, H, L, A, Q, P, U, M>(work, input, calls)
                            &&& low_taken(work, input, was.state, calls)
                            &&& audio_answered(work, books, input, calls, (now.state, Err(cause)))
                            &&& low_kept(calls, now.lfe)
                        }
                    },
                    SubframePcmError::Synthesis(cause) => {
                        &&& indices_taken::<S, T, H, L, A, Q, P, U, M>(work, input, calls)
                        &&& low_taken(work, input, was.state, calls)
                        &&& audio_answered(
                            work,
                            books,
                            input,
                            calls,
                            (calls.behind_audio, Ok((calls.read, calls.audio_bits))),
                        )
                        &&& mixed(
                            work.times,
                            work.plus,
                            work.minus,
                            calls.read@,
                            calls.mixed@,
                            calls.plan,
                            input.coding.joinx@,
                            input.scales,
                        )
                        &&& work.synthesize.ensures(
                            (&calls.behind_audio, channels, &calls.mixed, &calls.plan),
                            (now.state, Err(cause)),
                        )
                        &&& low_kept(calls, now.lfe)
                    },
                    _ => {
                        &&& indices_taken::<S, T, H, L, A, Q, P, U, M>(work, input, calls)
                        &&& low_taken(work, input, was.state, calls)
                        &&& audio_answered(
                            work,
                            books,
                            input,
                            calls,
                            (now.state, Ok((calls.read, calls.audio_bits))),
                        )
                        &&& mix_error(
                            calls.read@,
                            calls.plan,
                            input.coding.joinx@,
                            input.scales,
                        ) == Some(e)
                        &&& low_kept(calls, now.lfe)
                    },
                }
            },
{
    let b: SubframeBehaviour<'a, S, T> = work.behaviour::<S, T>();
    let r: Result<(SubframePcm, usize), SubframePcmError> = Err(e);
    let s = choose|steps: SubframeSteps<S, T>|
        {
            &&& #[trigger] steps.follow(b, channels, books, input, was.state)
            &&& r == steps.result(input)
            &&& now == steps.carried(input, was)
        };
    let calls = SubframeCalls {
        plan: s.plan,
        indices: s.indices.unwrap().0,
        index_bits: s.indices.unwrap().1,
        low: s.low.1.unwrap().0,
        low_bits: s.low.1.unwrap().1,
        behind_low: s.low.0,
        read: s.audio.1.unwrap().0,
        audio_bits: s.audio.1.unwrap().1,
        behind_audio: s.audio.0,
        mixed: s.mixed,
    };
    assert(names_calls(calls));
    if s.indices is Ok {
        assert(indices_taken::<S, T, H, L, A, Q, P, U, M>(work, input, calls));
        if s.low.1 is Ok {
            let low: LowReply<S> = (calls.behind_low, Ok((calls.low, calls.low_bits)));
            assert(s.low == low);
            assert(low_taken(work, input, was.state, calls));
            assert(s.audio_read(b, books, input));
            assert(audio_answered(work, books, input, calls, s.audio));
            if s.audio.1 is Ok {
                let audio: AudioReply<S, T> = (
                    calls.behind_audio,
                    Ok((calls.read, calls.audio_bits)),
                );
                assert(s.audio == audio);
                assert(s.mix_refusal(input) is Some ==> s.mix_refusal(
                    input,
                ).unwrap() is JointSubbandShape);
            }
        }
    }
}

/// Gives the parts of a walk that ends in a subframe that fails a name.
pub open spec fn names_failure<'a, S, T>(
    coding: AudioCodingHeader,
    start: Carried<S>,
    walk: Seq<CoreSubframe<'a, S, T>>,
    failed: CoreSubframe<'a, S, T>,
) -> bool {
    true
}

/// A frame fails in one of these ways. Where its audio coding header cannot be read, it
/// fails with the cause of that, and where that header has another number of channels
/// than the decoder, with that; both change nothing. Else it fails at the first subframe
/// that fails: with what the reader of the side information or of the tail says, or
/// because the side information gives the subframe a part of a subsubframe in a frame
/// that does not end the stream, all of which leave what the subframes before it left,
/// or with the audio part, which is decoded as in a frame that does not fail.
#[verifier::rlimit(80)]
pub proof fn law_frame_fails_with_its_first_failure<'a, S, T, H, L, A, Q, P, U, M, I, E, C, G>(
    work: &FrameWorkers<SubframeWorkers<H, L, A, Q, P, U, M>, I, E, C, G>,
    channels: usize,
    books: VqCodebooks,
    bytes: &'a [u8],
    header: DtsFrameHeader,
    was: Carried<S>,
    e: CoreFrameDecodeError,
    now: Carried<S>,
) where
    H: Fn(&[u8], usize, &SubframePlan) -> IndexReply,
    L: Fn(&S, &[u8], usize, u8, usize) -> LowReply<S>,
    A: Fn(&S, &[u8], usize, &AudioJob<'_>) -> AudioReply<S, T>,
    Q: Fn(&S, usize, &Vec<Vec<[T; 32]>>, &SubframePlan) -> SynthesisReply<S>,
    P: Fn(T, T) -> T,
    U: Fn(T, T) -> T,
    M: Fn(T, T) -> T,
    I: Fn(&[u8], usize, &AudioCodingHeader) -> SideReply,
    E: Fn(&[u8], usize, &AudioCodingHeader, &DtsFrameHeader) -> TailReply<T>,
    C: Fn(&S) -> S,
    G: Fn(i32, u8) -> i32,

    requires
        core_frame_decoded(
            work.subframe.behaviour::<S, T>(),
            work.frame_behaviour::<S, T>(),
            channels,
            books,
            bytes,
            header,
            was,
            Err(e),
            now,
        ),
    ensures
        match audio_coding_header(
            bytes@,
            if header.crc_present {
                120
            } else {
                104
            },
            header.crc_present,
        ) {
            Err(cause) => e == CoreFrameDecodeError::Bitstream(cause) && now == was,
            Ok((view, header_bits)) => if view.n_pchs != channels {
                &&& e == CoreFrameDecodeError::Decode(
                    SubframePcmError::ChannelCountMismatch {
                        expected: channels,
                        got: view.n_pchs as usize,
                    },
                )
                &&& now == was
            } else {
                exists|
                    coding: AudioCodingHeader,
                    start: Carried<S>,
                    walk: Seq<CoreSubframe<'a, S, T>>,
                    failed: CoreSubframe<'a, S, T>,
                |
                    {
                        let at: int = header_bits + (if header.crc_present {
                            120int
                        } else {
                            104int
                        });
                        &&& #[trigger] names_failure(coding, start, walk, failed)
                        &&& coding@ == view
                        &&& walk.len() < coding.n_subframes
                        &&& header.predictor_history ==> start == was
                        &&& !header.predictor_history ==> start.lfe == was.lfe
                            && work.clear_history.ensures((&was.state,), start.state)
                        &&& walk.len() > 0 ==> walk[0].at == at && walk[0].before == start
                        &&& walk.len() == 0 ==> failed.at == at && failed.before == start
                        &&& walk.len() > 0 ==> failed.before == walk.last().after && failed.at
                            == walk.last().at + walk.last().side_bits + walk.last().tail_bits
                            + walk.last().audio_bits
                        &&& forall|k: int|
                            0 <= k < walk.len() - 1 ==> {
                                &&& walk[k + 1].at == (#[trigger] walk[k]).at + walk[k].side_bits
                                    + walk[k].tail_bits + walk[k].audio_bits
                                &&& walk[k + 1].before == walk[k].after
                            }
                        &&& forall|k: int|
                            0 <= k < walk.len() ==> {
                                &&& work.side_info.ensures(
                                    (bytes, (#[trigger] walk[k]).at, &coding),
                                    Ok((walk[k].side, walk[k].side_bits)),
                                )
                                &&& work.tail.ensures(
                                    (
                                        bytes,
                                        (walk[k].at + walk[k].side_bits) as usize,
                                        &coding,
                                        &header,
                                    ),
                                    Ok((walk[k].tail, walk[k].tail_bits)),
                                )
                                &&& walk[k].side.psc > 0 ==> header.frame_type
                                    == FrameType::Termination
                                &&& walk[k].channels@ == walk[k].side.channels@
                                &&& subframe_decoded(
                                    work.subframe.behaviour::<S, T>(),
                                    channels,
                                    books,
                                    SubframeInput {
                                        bytes,
                                        bit: (walk[k].at + walk[k].side_bits
                                            + walk[k].tail_bits) as usize,
                                        header,
                                        coding,
                                        side: walk[k].channels,
                                        n_ssc: walk[k].side.n_ssc,
                                        psc: walk[k].side.psc,
                                        aspf: header.aspf,
                                        scales: walk[k].tail.join_scales@,
                                    },
                                    walk[k].before,
                                    Ok((walk[k].block, walk[k].audio_bits)),
                                    walk[k].after,
                                )
                            }
                        &&& match e {
                            CoreFrameDecodeError::Bitstream(cause) => {
                                &&& now == failed.before
                                &&& {
                                    ||| work.side_info.ensures(
                                        (bytes, failed.at, &coding),
                                        Err(cause),
                                    )
                                    ||| {
                                        &&& work.side_info.ensures(
                                            (bytes, failed.at, &coding),
                                            Ok((failed.side, failed.side_bits)),
                                        )
                                        &&& work.tail.ensures(
                                            (
                                                bytes,
                                                (failed.at + failed.side_bits) as usize,
                                                &coding,
                                                &header,
                                            ),
                                            Err(cause),
                                        )
                                    }
                                }
                            },
                            CoreFrameDecodeError::Decode(cause) => {
                                &&& work.side_info.ensures(
                                    (bytes, failed.at, &coding),
                                    Ok((failed.side, failed.side_bits)),
                                )
                                &&& work.tail.ensures(
                                    (
                                        bytes,
                                        (failed.at + failed.side_bits) as usize,
                                        &coding,
                                        &header,
                                    ),
                                    Ok((failed.tail, failed.tail_bits)),
                                )
                                &&& if failed.side.psc > 0 && header.frame_type
                                    == FrameType::Normal {
                                    &&& now == failed.before
                                    &&& cause
                                        == SubframePcmError::PartialSubsubframeInNormalFrame {
                                        subframe: walk.len() as usize,
                                        psc: failed.side.psc,
                                    }
                                } else {
                                    &&& failed.channels@ == failed.side.channels@
                                    &&& subframe_decoded(
                                        work.subframe.behaviour::<S, T>(),
                                        channels,
                                        books,
                                        SubframeInput {
                                            bytes,
                                            bit: (failed.at + failed.side_bits
                                                + failed.tail_bits) as usize,
                                            header,
                                            coding,
                                            side: failed.channels,
                                            n_ssc: failed.side.n_ssc,
                                            psc: failed.side.psc,
                                            aspf: header.aspf,
                                            scales: failed.tail.join_scales@,
                                        },
                                        failed.before,
                                        Err(cause),
                                        now,
                                    )
                                }
                            },
                            _ => false,
                        }
                    }
            },
        },
{
    let b: SubframeBehaviour<'a, S, T> = work.subframe.behaviour::<S, T>();
    let fb: FrameBehaviour<'a, S, T> = work.frame_behaviour::<S, T>();
    let r: Result<(SubframePcm, usize), CoreFrameDecodeError> = Err(e);
    let off: int = if header.crc_present {
        120
    } else {
        104
    };
    assert(off == 8 * header.byte_length());
    if begin_error(channels, bytes@, header) is None {
        let (f, start) = choose|frame: CoreFrame<'a>, start: Carried<S>|
            {
                &&& frame.bytes == bytes
                &&& frame.header == header
                &&& frame.channels == channels
                &&& frame.books == books
                &&& frame.wf()
                &&& frame.starts(fb, was, start)
                &&& #[trigger] frame.gives(b, fb, start, r, now)
            };
        let walk = choose|done: Seq<CoreSubframe<'a, S, T>>|
            #[trigger] f.walked(b, fb, start, done) && f.comes_to(b, fb, start, done, r, now);
        let failed = choose|sf: CoreSubframe<'a, S, T>|
            {
                &&& sf.at == f.next_bit(walk)
                &&& sf.before == walked_on(start, walk)
                &&& #[trigger] f.failed(b, fb, walk.len(), sf, e, now)
            };
        assert forall|k: int| 0 <= k < walk.len() implies f.passed(b, fb, #[trigger] walk[k])
            && walk[k].at == f.next_bit(walk.take(k)) && walk[k].before == walked_on(
            start,
            walk.take(k),
        ) by {
            lemma_walked_at(b, fb, f, start, walk, k);
        }
        assert(walk.take(0).len() == 0);
        if walk.len() > 0 {
            assert(f.passed(b, fb, walk[0]));
        }
        assert forall|k: int| 0 <= k < walk.len() - 1 implies walk[k + 1].at == (
        #[trigger] walk[k]).at + walk[k].side_bits + walk[k].tail_bits + walk[k].audio_bits
            && walk[k + 1].before == walk[k].after by {
            assert(f.passed(b, fb, walk[k + 1]));
            assert(walk.take(k + 1).last() == walk[k]);
        }
        assert(names_failure(f.coding, start, walk, failed));
    }
}

/// Gives the subframes of a frame that have been decoded a name.
pub open spec fn names_done<S>(done: Seq<DecodedSubframe<S>>) -> bool {
    true
}

/// A frame whose side information is at hand is decoded subframe by subframe, the audio
/// part of each behind that of the one before it and the bits between them, with the
/// headers, the flag of the check words and the side information that it was given, no
/// part of a subsubframe and no joint factors. The low-frequency-effects samples go out
/// of each subframe and stand one behind the other in the end. The frame ends with its
/// last subframe, or fails as the first one that fails.
pub proof fn law_prepared_frame_is_read_in_order<'a, S, T, H, L, A, Q, P, U, M>(
    work: &SubframeWorkers<H, L, A, Q, P, U, M>,
    frame: PreparedFrame<'a>,
    channels: usize,
    books: VqCodebooks,
    was: Carried<S>,
    r: Result<(SubframePcm, usize), SubframePcmError>,
    now: Carried<S>,
) where
    H: Fn(&[u8], usize, &SubframePlan) -> IndexReply,
    L: Fn(&S, &[u8], usize, u8, usize) -> LowReply<S>,
    A: Fn(&S, &[u8], usize, &AudioJob<'_>) -> AudioReply<S, T>,
    Q: Fn(&S, usize, &Vec<Vec<[T; 32]>>, &SubframePlan) -> SynthesisReply<S>,
    P: Fn(T, T) -> T,
    U: Fn(T, T) -> T,
    M: Fn(T, T) -> T,

    requires
        frame.gives(work.behaviour::<S, T>(), channels, books, was, r, now),
    ensures
        exists|done: Seq<DecodedSubframe<S>>|
            {
                &&& #[trigger] names_done(done)
                &&& done.len() <= frame.subframes.len()
                &&& done.len() > 0 ==> done[0].at == frame.first && done[0].before == was
                &&& forall|k: int|
                    0 <= k < done.len() - 1 ==> {
                        &&& done[k + 1].at == (#[trigger] done[k]).at + done[k].bits
                            + frame.subframes[k].side_info_bits
                        &&& done[k + 1].before.state == done[k].after.state
                        &&& done[k + 1].before.lfe.len() == 0
                    }
                &&& forall|k: int|
                    0 <= k < done.len() ==> subframe_decoded(
                        work.behaviour::<S, T>(),
                        channels,
                        books,
                        SubframeInput {
                            bytes: frame.bytes,
                            bit: (#[trigger] done[k]).at,
                            header: frame.header,
                            coding: frame.coding,
                            side: frame.subframes[k].side,
                            n_ssc: frame.subframes[k].n_ssc,
                            psc: 0,
                            aspf: frame.aspf,
                            scales: Seq::<Vec<T>>::empty(),
                        },
                        done[k].before,
                        Ok((done[k].block, done[k].bits)),
                        done[k].after,
                    )
                &&& match r {
                    Ok((pcm, bits)) => {
                        &&& done.len() == frame.subframes.len()
                        &&& planes(pcm@) == samples_of(channels as nat, blocks_of(done))
                        &&& done.len() > 0 ==> bits == done.last().at + done.last().bits
                            - frame.first && now.state == done.last().after.state
                        &&& done.len() == 0 ==> bits == 0 && now.state == was.state
                        &&& now.lfe == concatenated(lfe_of(done))
                    },
                    Err(e) => {
                        let k: int = done.len() as int;
                        let at: int = if k == 0 {
                            frame.first as int
                        } else {
                            done.last().at + done.last().bits + frame.subframes[k
                                - 1].side_info_bits
                        };
                        &&& k < frame.subframes.len()
                        &&& subframe_decoded(
                            work.behaviour::<S, T>(),
                            channels,
                            books,
                            SubframeInput {
                                bytes: frame.bytes,
                                bit: at as usize,
                                header: frame.header,
                                coding: frame.coding,
                                side: frame.subframes[k].side,
                                n_ssc: frame.subframes[k].n_ssc,
                                psc: 0,
                                aspf: frame.aspf,
                                scales: Seq::<Vec<T>>::empty(),
                            },
                            if k == 0 {
                                was
                            } else {
                                Carried { state: done.last().after.state, lfe: Seq::empty() }
                            },
                            Err(e),
                            now,
                        )
                    },
                }
            },
{
    let b: SubframeBehaviour<'a, S, T> = work.behaviour::<S, T>();
    let done = choose|done: Seq<DecodedSubframe<S>>| #[trigger]
        frame.decoded(b, channels, books, was, done) && frame.comes_to(
            b,
            channels,
            books,
            was,
            done,
            r,
            now,
        );
    assert forall|k: int| 0 <= k < done.len() implies done[k].at == frame.next_bit(done.take(k))
        && done[k].before == carried_on(was, done.take(k)) && subframe_decoded(
        b,
        channels,
        books,
        SubframeInput {
            bytes: frame.bytes,
            bit: (#[trigger] done[k]).at,
            header: frame.header,
            coding: frame.coding,
            side: frame.subframes[k].side,
            n_ssc: frame.subframes[k].n_ssc,
            psc: 0,
            aspf: frame.aspf,
            scales: Seq::<Vec<T>>::empty(),
        },
        done[k].before,
        Ok((done[k].block, done[k].bits)),
        done[k].after,
    ) by {
        lemma_decoded_at(frame, b, channels, books, was, done, k);
    }
    assert(done.take(0).len() == 0);
    assert forall|k: int| 0 <= k < done.len() - 1 implies done[k + 1].at == (
    #[trigger] done[k]).at + done[k].bits + frame.subframes[k].side_info_bits && done[k
        + 1].before.state == done[k].after.state && done[k + 1].before.lfe.len() == 0 by {
        assert(done.take(k + 1).last() == done[k]);
        assert(done[k + 1].at == frame.next_bit(done.take(k + 1)));
    }
    assert(names_done(done));
}

/// A subframe is refused by its headers, its side information, the code books of the
/// decoder and whether there are joint factors, before any of its bits is read. It then
/// fails with that refusal and changes nothing, and else it is not refused.
pub proof fn law_subframe_is_refused_by_its_headers<'a, S, T>(
    b: SubframeBehaviour<'a, S, T>,
    channels: usize,
    books: VqCodebooks,
    input: SubframeInput<'a, T>,
    was: Carried<S>,
    r: Result<(SubframePcm, usize), SubframePcmError>,
    now: Carried<S>,
)
    requires
        subframe_decoded(b, channels, books, input, was, r, now),
    ensures
        ({
            let refusal: Option<SubframePcmError> = subframe_error(
                channels,
                books,
                input.header,
                input.coding,
                input.side@,
                input.scales.len() != 0,
            );
            &&& refusal matches Some(e) ==> r == Err::<(SubframePcm, usize), SubframePcmError>(e)
                && now == was
            &&& input.refusal(channels, books) == refusal
        }),
{
}

} // verus!
