//! Laws on what a decoder hands to its workers and makes of their answers: which bits
//! each of them reads, by which flags it goes, and where its samples end up.

use crate::audio_header::{audio_coding_header, law_read_header_is_consistent, AudioCodingHeader};
use crate::core_frame::{
    begin_error, blocks_of, concatenated, core_frame_decoded, frame_bytes, frame_lfe_of, gained_of,
    lfe_of, override_codes, planes, samples_of, total_len, walked_on, CoreFrame, CoreSubframe,
    DecodedSubframe,
};
use crate::decoder::{subframe_decoded, Carried, SubframeInput, SubframeSteps};
use crate::determined::lemma_walked_at;
use crate::gain::{law_gain_reaches_every_sample, windows_scaled};
use crate::header::{DtsFrameHeader, FrameType};
use crate::lengths::lemma_plane_count;
use crate::rev2_aux::{last_rev2_candidate, rev2_aux_at, rev2_candidate};
use crate::subband_mix::mixed;
use crate::subframe::VqCodebooks;
use crate::subframe_pcm::{CoreFrameDecodeError, SubframePcm, SubframePcmError, SubframePlan};
use crate::workers::{
    AudioJob, AudioReply, FrameBehaviour, FrameWorkers, IndexReply, LowReply, SideReply,
    SubframeBehaviour, SubframeWorkers, SynthesisReply, TailReply,
};
use vstd::prelude::*;

verus! {

/// What the workers on a subframe were given and answered.
pub struct SubframeCalls<S, T> {
    /// How the subframe is decoded.
    pub plan: SubframePlan,
    /// The code book indices, where they were read.
    pub indices: Option<Vec<Vec<u16>>>,
    /// The bits of the code book indices.
    pub index_bits: usize,
    /// The low-frequency-effects samples.
    pub low: Vec<i32>,
    /// The bits of the low-frequency-effects samples.
    pub low_bits: usize,
    /// The state behind the low-frequency-effects samples.
    pub behind_low: S,
    /// The subband samples.
    pub read: Vec<Vec<[T; 32]>>,
    /// The bits of the subband samples.
    pub audio_bits: usize,
    /// The state behind the subband samples.
    pub behind_audio: S,
    /// The mixed subband samples.
    pub mixed: Vec<Vec<[T; 32]>>,
}

/// A subframe that is decoded is read in this order: the code book indices, where a
/// channel is vector quantized, the low-frequency-effects samples, where there is such a
/// channel, and the audio data, each from the bit behind the one before it and with the
/// state that the one before it left. The reader of the audio data goes by the headers,
/// the side information, the code books of the decoder, the indices and the flag of the
/// check words that it is given. What it reads is mixed and then synthesized. The bits
/// are those of all three. The low-frequency-effects samples that are carried on are the
/// first ones, 32 for each row at most.
pub proof fn law_subframe_is_read_in_order<'a, S, T, H, L, A, Q, P, U, M>(
    work: &SubframeWorkers<H, L, A, Q, P, U, M>,
    channels: usize,
    books: VqCodebooks,
    input: SubframeInput<'a, T>,
    was: Carried<S>,
    pcm: SubframePcm,
    bits: usize,
    now: Carried<S>,
) where
    H: Fn(&[u8], usize, &SubframePlan) -> IndexReply,
    L: Fn(&S, &[u8], usize, u8, usize) -> LowReply<S>,
    A: Fn(&S, &[u8], usize, &AudioJob<'_>) -> AudioReply<S, T>,
    Q: Fn(&S, usize, &Vec<Vec<[T; 32]>>, &SubframePlan) -> SynthesisReply<S>,
    P: Fn(T, T) -> T,
    U: Fn(T, T) -> T,
    M: Fn(T, T) -> T,

    requires
        work.reliable::<S, T>(),
        8 * input.bytes@.len() <= usize::MAX,
        subframe_decoded(
            work.behaviour::<S, T>(),
            channels,
            books,
            input,
            was,
            Ok((pcm, bits)),
            now,
        ),
    ensures
        exists|calls: SubframeCalls<S, T>|
            {
                &&& calls.plan.is_for(
                    channels,
                    input.header,
                    input.coding,
                    input.n_ssc as int,
                    input.psc as int,
                )
                &&& calls.plan.scan_hf_vq ==> calls.indices is Some && work.indices.ensures(
                    (input.bytes, input.bit, &calls.plan),
                    Ok((calls.indices.unwrap(), calls.index_bits)),
                )
                &&& !calls.plan.scan_hf_vq ==> calls.indices is None && calls.index_bits == 0
                &&& calls.plan.lff != 0 ==> work.low.ensures(
                    (
                        &was.state,
                        input.bytes,
                        (input.bit + calls.index_bits) as usize,
                        calls.plan.lff,
                        input.n_ssc,
                    ),
                    (calls.behind_low, Ok((calls.low, calls.low_bits))),
                )
                &&& calls.plan.lff == 0 ==> calls.low@.len() == 0 && calls.low_bits == 0
                    && calls.behind_low == was.state
                &&& work.audio.ensures(
                    (
                        &calls.behind_low,
                        input.bytes,
                        (input.bit + calls.index_bits + calls.low_bits) as usize,
                        &AudioJob {
                            header: &input.header,
                            coding: &input.coding,
                            side: input.side,
                            plan: &calls.plan,
                            books,
                            hf_indices: match calls.indices {
                                Some(found) => Some(&found),
                                None => None,
                            },
                            n_ssc: input.n_ssc,
                            psc: input.psc,
                            aspf: input.aspf,
                        },
                    ),
                    (calls.behind_audio, Ok((calls.read, calls.audio_bits))),
                )
                &&& mixed(
                    work.times,
                    work.plus,
                    work.minus,
                    calls.read@,
                    calls.mixed@,
                    calls.plan,
                    input.coding.joinx@,
                    input.scales,
                )
                &&& #[trigger] work.synthesize.ensures(
                    (&calls.behind_audio, channels, &calls.mixed, &calls.plan),
                    (now.state, Ok(pcm)),
                )
                &&& bits == calls.index_bits + calls.low_bits + calls.audio_bits
                &&& now.lfe.len() == (if calls.low@.len() <= 32 * calls.plan.rows {
                    calls.low@.len() as int
                } else {
                    32 * calls.plan.rows
                })
                &&& forall|i: int| 0 <= i < now.lfe.len() ==> #[trigger] now.lfe[i] == calls.low@[i]
            },
{
    let b: SubframeBehaviour<'a, S, T> = work.behaviour::<S, T>();
    let r: Result<(SubframePcm, usize), SubframePcmError> = Ok((pcm, bits));
    let s = choose|steps: SubframeSteps<S, T>|
        {
            &&& #[trigger] steps.follow(b, channels, books, input, was.state)
            &&& r == steps.result(input)
            &&& now == steps.carried(input, was)
        };
    let calls = SubframeCalls {
        plan: s.plan,
        indices: s.indices.unwrap().0,
        index_bits: s.indices.unwrap().1,
        low: s.low.1.unwrap().0,
        low_bits: s.low.1.unwrap().1,
        behind_low: s.low.0,
        read: s.audio.1.unwrap().0,
        audio_bits: s.audio.1.unwrap().1,
        behind_audio: s.audio.0,
        mixed: s.mixed,
    };
    let low: LowReply<S> = (calls.behind_low, Ok((calls.low, calls.low_bits)));
    let audio: AudioReply<S, T> = (calls.behind_audio, Ok((calls.read, calls.audio_bits)));
    let out: SynthesisReply<S> = (now.state, Ok(pcm));
    assert(s.low == low);
    assert(s.audio == audio);
    assert(s.pcm == out);
    if s.plan.scan_hf_vq {
        assert(work.indices.ensures(
            (input.bytes, input.bit, &calls.plan),
            Ok((calls.indices.unwrap(), calls.index_bits)),
        ));
    }
    if s.plan.lff != 0 {
        assert(work.low.ensures(
            (
                &was.state,
                input.bytes,
                (input.bit + calls.index_bits) as usize,
                calls.plan.lff,
                input.n_ssc,
            ),
            low,
        ));
    }
    assert(s.audio_read(b, books, input));
    assert(work.audio.ensures(
        (
            &calls.behind_low,
            input.bytes,
            (input.bit + calls.index_bits + calls.low_bits) as usize,
            &AudioJob {
                header: &input.header,
                coding: &input.coding,
                side: input.side,
                plan: &calls.plan,
                books,
                hf_indices: match calls.indices {
                    Some(found) => Some(&found),
                    None => None,
                },
                n_ssc: input.n_ssc,
                psc: input.psc,
                aspf: input.aspf,
            },
        ),
        audio,
    ));
    assert(work.synthesize.ensures(
        (&calls.behind_audio, channels, &calls.mixed, &calls.plan),
        out,
    ));
}

/// Gives the parts of a walk through a frame a name.
pub open spec fn names_walk<'a, S, T>(
    coding: AudioCodingHeader,
    codes: Option<Seq<u8>>,
    start: Carried<S>,
    walk: Seq<CoreSubframe<'a, S, T>>,
) -> bool {
    true
}

/// A frame that is decoded is read in this order: behind its header the audio coding
/// header, and then for each of its subframes the side information, the tail and the
/// audio part, each from the bit behind the one before it, up to the end. The audio part
/// is decoded with the code books of the decoder, the joint factors of the tail, the
/// size that the side information gives, and the flag of the check words that stands in
/// the header of the frame. Only a termination frame has a subframe that is cut short.
/// The state goes from one subframe to the next, and into the first one without the
/// prediction history, unless the header asks for it.
#[verifier::rlimit(80)]
pub proof fn law_frame_is_read_in_order<'a, S, T, H, L, A, Q, P, U, M, I, E, C, G>(
    work: &FrameWorkers<SubframeWorkers<H, L, A, Q, P, U, M>, I, E, C, G>,
    channels: usize,
    books: VqCodebooks,
    bytes: &'a [u8],
    header: DtsFrameHeader,
    was: Carried<S>,
    pcm: SubframePcm,
    end: usize,
    now: Carried<S>,
) where
    H: Fn(&[u8], usize, &SubframePlan) -> IndexReply,
    L: Fn(&S, &[u8], usize, u8, usize) -> LowReply<S>,
    A: Fn(&S, &[u8], usize, &AudioJob<'_>) -> AudioReply<S, T>,
    Q: Fn(&S, usize, &Vec<Vec<[T; 32]>>, &SubframePlan) -> SynthesisReply<S>,
    P: Fn(T, T) -> T,
    U: Fn(T, T) -> T,
    M: Fn(T, T) -> T,
    I: Fn(&[u8], usize, &AudioCodingHeader) -> SideReply,
    E: Fn(&[u8], usize, &AudioCodingHeader, &DtsFrameHeader) -> TailReply<T>,
    C: Fn(&S) -> S,
    G: Fn(i32, u8) -> i32,

    requires
        core_frame_decoded(
            work.subframe.behaviour::<S, T>(),
            work.frame_behaviour::<S, T>(),
            channels,
            books,
            bytes,
            header,
            was,
            Ok((pcm, end)),
            now,
        ),
    ensures
        exists|
            coding: AudioCodingHeader,
            codes: Option<Seq<u8>>,
            start: Carried<S>,
            walk: Seq<CoreSubframe<'a, S, T>>,
        |
            {
                &&& #[trigger] names_walk(coding, codes, start, walk)
                &&& audio_coding_header(
                    bytes@,
                    if header.crc_present {
                        120
                    } else {
                        104
                    },
                    header.crc_present,
                ) matches Ok((view, header_bits))
                &&& coding@ == view
                &&& coding.n_pchs == channels
                &&& walk.len() == coding.n_subframes
                &&& walk.len() >= 1
                &&& walk[0].at == header_bits + (if header.crc_present {
                    120int
                } else {
                    104int
                })
                &&& header.predictor_history ==> start == was
                &&& !header.predictor_history ==> start.lfe == was.lfe
                    && work.clear_history.ensures((&was.state,), start.state)
                &&& walk[0].before == start
                &&& forall|k: int|
                    0 <= k < walk.len() - 1 ==> {
                        &&& walk[k + 1].at == (#[trigger] walk[k]).at + walk[k].side_bits
                            + walk[k].tail_bits + walk[k].audio_bits
                        &&& walk[k + 1].before == walk[k].after
                    }
                &&& end == walk.last().at + walk.last().side_bits + walk.last().tail_bits
                    + walk.last().audio_bits
                &&& now.state == walk.last().after.state
                &&& forall|k: int|
                    0 <= k < walk.len() ==> {
                        &&& work.side_info.ensures(
                            (bytes, (#[trigger] walk[k]).at, &coding),
                            Ok((walk[k].side, walk[k].side_bits)),
                        )
                        &&& work.tail.ensures(
                            (
                                bytes,
                                (walk[k].at + walk[k].side_bits) as usize,
                                &coding,
                                &header,
                            ),
                            Ok((walk[k].tail, walk[k].tail_bits)),
                        )
                        &&& walk[k].side.psc > 0 ==> header.frame_type == FrameType::Termination
                        &&& walk[k].channels@ == walk[k].side.channels@
                        &&& subframe_decoded(
                            work.subframe.behaviour::<S, T>(),
                            channels,
                            books,
                            SubframeInput {
                                bytes,
                                bit: (walk[k].at + walk[k].side_bits + walk[k].tail_bits) as usize,
                                header,
                                coding,
                                side: walk[k].channels,
                                n_ssc: walk[k].side.n_ssc,
                                psc: walk[k].side.psc,
                                aspf: header.aspf,
                                scales: walk[k].tail.join_scales@,
                            },
                            walk[k].before,
                            Ok((walk[k].block, walk[k].audio_bits)),
                            walk[k].after,
                        )
                    }
                &&& override_codes(frame_bytes(bytes@, header), header.blocks_per_frame, codes)
                &&& forall|k: int|
                    0 <= k < walk.len() ==> match (
                        codes,
                        (#[trigger] walk[k]).tail.range_index,
                    ) {
                        (None, Some(code)) => {
                            &&& walk[k].gained@.len() == walk[k].block@.len()
                            &&& forall|ch: int|
                                0 <= ch < walk[k].block@.len() ==> walk[k].gained@[ch]@.len() == (
                                #[trigger] walk[k].block@[ch])@.len()
                            &&& forall|ch: int, i: int|
                                0 <= ch < walk[k].block@.len() && 0 <= i
                                    < walk[k].block@[ch]@.len() ==> work.gain.ensures(
                                    (#[trigger] walk[k].block@[ch]@[i], code),
                                    walk[k].gained@[ch]@[i],
                                )
                        },
                        _ => walk[k].gained == walk[k].block,
                    }
                &&& codes is None ==> planes(pcm@) == samples_of(channels as nat, gained_of(walk))
                &&& codes matches Some(c) ==> exists|plain: SubframePcm|
                    planes(plain@) == samples_of(channels as nat, gained_of(walk))
                        && #[trigger] windows_scaled(work.gain, c, plain@, pcm@)
                &&& now.lfe == concatenated(frame_lfe_of(walk))
            },
{
    let b: SubframeBehaviour<'a, S, T> = work.subframe.behaviour::<S, T>();
    let fb: FrameBehaviour<'a, S, T> = work.frame_behaviour::<S, T>();
    let r: Result<(SubframePcm, usize), CoreFrameDecodeError> = Ok((pcm, end));
    assert(begin_error(channels, bytes@, header) is None);
    let (f, start) = choose|frame: CoreFrame<'a>, start: Carried<S>|
        {
            &&& frame.bytes == bytes
            &&& frame.header == header
            &&& frame.channels == channels
            &&& frame.books == books
            &&& frame.wf()
            &&& frame.starts(fb, was, start)
            &&& #[trigger] frame.gives(b, fb, start, r, now)
        };
    let walk = choose|done: Seq<CoreSubframe<'a, S, T>>|
        #[trigger] f.walked(b, fb, start, done) && f.comes_to(b, fb, start, done, r, now);
    let off: int = if header.crc_present {
        120
    } else {
        104
    };
    assert(off == 8 * header.byte_length());
    law_read_header_is_consistent(bytes@, off, header.crc_present, 0);
    assert(f.coding@.n_subframes == f.coding.n_subframes);
    assert(f.coding@.n_pchs == f.coding.n_pchs);
    let coding: AudioCodingHeader = f.coding;
    assert forall|k: int| 0 <= k < walk.len() implies f.passed(b, fb, #[trigger] walk[k])
        && walk[k].at == f.next_bit(walk.take(k)) && walk[k].before == walked_on(
        start,
        walk.take(k),
    ) by {
        lemma_walked_at(b, fb, f, start, walk, k);
    }
    assert(f.passed(b, fb, walk[0]));
    assert(walk.take(0).len() == 0);
    assert forall|k: int| 0 <= k < walk.len() - 1 implies walk[k + 1].at == (
    #[trigger] walk[k]).at + walk[k].side_bits + walk[k].tail_bits + walk[k].audio_bits
        && walk[k + 1].before == walk[k].after by {
        assert(f.passed(b, fb, walk[k + 1]));
        assert(walk.take(k + 1).last() == walk[k]);
    }
    assert forall|k: int| 0 <= k < walk.len() implies match (
        f.codes,
        (#[trigger] walk[k]).tail.range_index,
    ) {
        (None, Some(code)) => {
            &&& walk[k].gained@.len() == walk[k].block@.len()
            &&& forall|ch: int|
                0 <= ch < walk[k].block@.len() ==> walk[k].gained@[ch]@.len() == (
                #[trigger] walk[k].block@[ch])@.len()
            &&& forall|ch: int, i: int|
                0 <= ch < walk[k].block@.len() && 0 <= i < walk[k].block@[ch]@.len()
                    ==> work.gain.ensures(
                    (#[trigger] walk[k].block@[ch]@[i], code),
                    walk[k].gained@[ch]@[i],
                )
        },
        _ => walk[k].gained == walk[k].block,
    } by {
        let sf: CoreSubframe<'a, S, T> = walk[k];
        assert(f.passed(b, fb, sf));
        if f.codes is None {
            if let Some(code) = sf.tail.range_index {
                assert((fb.gained)(code, sf.block@, sf.gained@));
                assert(crate::gain::gained(work.gain, code, sf.block@, sf.gained@));
                assert forall|ch: int| 0 <= ch < sf.block@.len() implies sf.gained@[ch]@.len() == (
                #[trigger] sf.block@[ch])@.len() by {
                    law_gain_reaches_every_sample(
                        work.gain,
                        code,
                        sf.block@,
                        sf.gained@,
                        ch,
                        0,
                    );
                }
                assert forall|ch: int, i: int|
                    0 <= ch < sf.block@.len() && 0 <= i
                        < sf.block@[ch]@.len() implies work.gain.ensures(
                    (#[trigger] sf.block@[ch]@[i], code),
                    sf.gained@[ch]@[i],
                ) by {
                    law_gain_reaches_every_sample(
                        work.gain,
                        code,
                        sf.block@,
                        sf.gained@,
                        ch,
                        i,
                    );
                }
            }
        }
    }
    assert forall|k: int| 0 <= k < walk.len() implies {
        &&& work.side_info.ensures(
            (bytes, (#[trigger] walk[k]).at, &coding),
            Ok((walk[k].side, walk[k].side_bits)),
        )
        &&& work.tail.ensures(
            (bytes, (walk[k].at + walk[k].side_bits) as usize, &coding, &header),
            Ok((walk[k].tail, walk[k].tail_bits)),
        )
        &&& walk[k].side.psc > 0 ==> header.frame_type == FrameType::Termination
        &&& walk[k].channels@ == walk[k].side.channels@
        &&& subframe_decoded(
            b,
            channels,
            books,
            SubframeInput {
                bytes,
                bit: (walk[k].at + walk[k].side_bits + walk[k].tail_bits) as usize,
                header,
                coding,
                side: walk[k].channels,
                n_ssc: walk[k].side.n_ssc,
                psc: walk[k].side.psc,
                aspf: header.aspf,
                scales: walk[k].tail.join_scales@,
            },
            walk[k].before,
            Ok((walk[k].block, walk[k].audio_bits)),
            walk[k].after,
        )
    } by {
        assert(f.passed(b, fb, walk[k]));
    }
    match f.codes {
        Some(c) => {
            let plain = choose|plain: SubframePcm|
                planes(plain@) == samples_of(channels as nat, gained_of(walk))
                    && #[trigger] (fb.scaled)(c, plain@, pcm@);
            assert(windows_scaled(work.gain, c, plain@, pcm@));
        },
        None => {},
    }
    assert(names_walk(coding, f.codes, start, walk));
}

/// The flag of the check words that the reader of the audio data is given is the one in
/// the header of the frame: a reader that takes jobs with one flag only can serve only
/// frames with that flag.
pub proof fn law_audio_reader_is_told_the_flag<'a, S, T, H, L, A, Q, P, U, M, I, E, C, G>(
    work: &FrameWorkers<SubframeWorkers<H, L, A, Q, P, U, M>, I, E, C, G>,
    channels: usize,
    books: VqCodebooks,
    bytes: &'a [u8],
    header: DtsFrameHeader,
    was: Carried<S>,
    pcm: SubframePcm,
    end: usize,
    now: Carried<S>,
    aspf: bool,
) where
    H: Fn(&[u8], usize, &SubframePlan) -> IndexReply,
    L: Fn(&S, &[u8], usize, u8, usize) -> LowReply<S>,
    A: Fn(&S, &[u8], usize, &AudioJob<'_>) -> AudioReply<S, T>,
    Q: Fn(&S, usize, &Vec<Vec<[T; 32]>>, &SubframePlan) -> SynthesisReply<S>,
    P: Fn(T, T) -> T,
    U: Fn(T, T) -> T,
    M: Fn(T, T) -> T,
    I: Fn(&[u8], usize, &AudioCodingHeader) -> SideReply,
    E: Fn(&[u8], usize, &AudioCodingHeader, &DtsFrameHeader) -> TailReply<T>,
    C: Fn(&S) -> S,
    G: Fn(i32, u8) -> i32,

    requires
        work.subframe.reliable::<S, T>(),
        8 * bytes@.len() <= usize::MAX,
        forall|a: (&S, &[u8], usize, &AudioJob<'_>), r: AudioReply<S, T>| #[trigger]
            work.subframe.audio.ensures(a, r) && r.1 is Ok ==> a.3.aspf == aspf,
        core_frame_decoded(
            work.subframe.behaviour::<S, T>(),
            work.frame_behaviour::<S, T>(),
            channels,
            books,
            bytes,
            header,
            was,
            Ok((pcm, end)),
            now,
        ),
    ensures
        header.aspf == aspf,
{
    law_frame_is_read_in_order(work, channels, books, bytes, header, was, pcm, end, now);
    let (coding, codes, start, walk) = choose|
        coding: AudioCodingHeader,
        codes: Option<Seq<u8>>,
        start: Carried<S>,
        walk: Seq<CoreSubframe<'a, S, T>>,
    |
        {
            &&& #[trigger] names_walk(coding, codes, start, walk)
            &&& walk.len() >= 1
            &&& subframe_decoded(
                work.subframe.behaviour::<S, T>(),
                channels,
                books,
                SubframeInput {
                    bytes,
                    bit: (walk[0].at + walk[0].side_bits + walk[0].tail_bits) as usize,
                    header,
                    coding,
                    side: walk[0].channels,
                    n_ssc: walk[0].side.n_ssc,
                    psc: walk[0].side.psc,
                    aspf: header.aspf,
                    scales: walk[0].tail.join_scales@,
                },
                walk[0].before,
                Ok((walk[0].block, walk[0].audio_bits)),
                walk[0].after,
            )
        };
    let sf: CoreSubframe<'a, S, T> = walk[0];
    let input = SubframeInput {
        bytes,
        bit: (sf.at + sf.side_bits + sf.tail_bits) as usize,
        header,
        coding,
        side: sf.channels,
        n_ssc: sf.side.n_ssc,
        psc: sf.side.psc,
        aspf: header.aspf,
        scales: sf.tail.join_scales@,
    };
    law_subframe_is_read_in_order(
        &work.subframe,
        channels,
        books,
        input,
        sf.before,
        sf.block,
        sf.audio_bits,
        sf.after,
    );
    let calls = choose|calls: SubframeCalls<S, T>|
        {
            &&& work.subframe.audio.ensures(
                (
                    &calls.behind_low,
                    input.bytes,
                    (input.bit + calls.index_bits + calls.low_bits) as usize,
                    &AudioJob {
                        header: &input.header,
                        coding: &input.coding,
                        side: input.side,
                        plan: &calls.plan,
                        books,
                        hf_indices: match calls.indices {
                            Some(found) => Some(&found),
                            None => None,
                        },
                        n_ssc: input.n_ssc,
                        psc: input.psc,
                        aspf: input.aspf,
                    },
                ),
                (calls.behind_audio, Ok((calls.read, calls.audio_bits))),
            )
            &&& #[trigger] work.subframe.synthesize.ensures(
                (&calls.behind_audio, channels, &calls.mixed, &calls.plan),
                (sf.after.state, Ok(sf.block)),
            )
        };
    let job = AudioJob {
        header: &input.header,
        coding: &input.coding,
        side: input.side,
        plan: &calls.plan,
        books,
        hf_indices: match calls.indices {
            Some(found) => Some(&found),
            None => None,
        },
        n_ssc: input.n_ssc,
        psc: input.psc,
        aspf: input.aspf,
    };
    let reply: AudioReply<S, T> = (
        calls.behind_audio,
        Ok((calls.read, calls.audio_bits)),
    );
    assert(work.subframe.audio.ensures(
        (
            &calls.behind_low,
            input.bytes,
            (input.bit + calls.index_bits + calls.low_bits) as usize,
            &job,
        ),
        reply,
    ));
}

/// The samples of a frame are those of its blocks in order: sample `i` of block `k` in
/// a channel stands behind all samples of the blocks before it.
pub proof fn law_blocks_stand_in_order(
    channels: nat,
    blocks: Seq<SubframePcm>,
    k: int,
    ch: int,
    i: int,
)
    requires
        0 <= k < blocks.len(),
        0 <= ch < channels,
        forall|j: int| 0 <= j < blocks.len() ==> (#[trigger] blocks[j])@.len() == channels,
        0 <= i < blocks[k]@[ch]@.len(),
    ensures
        samples_of(channels, blocks).len() == channels,
        total_len(blocks.take(k), ch) + i < samples_of(channels, blocks)[ch].len(),
        samples_of(channels, blocks)[ch][total_len(blocks.take(k), ch) + i] == blocks[k]@[ch]@[i],
    decreases blocks.len(),
{
    let before: Seq<SubframePcm> = blocks.drop_last();
    assert forall|j: int| 0 <= j < before.len() implies (#[trigger] before[j])@.len()
        == channels by {
        assert(before[j] == blocks[j]);
    }
    lemma_plane_count(channels, before);
    lemma_plane_count(channels, blocks);
    crate::core_frame::law_subframe_lengths_add(channels, before, ch);
    crate::core_frame::law_subframe_lengths_add(channels, blocks, ch);
    if k == blocks.len() - 1 {
        assert(blocks.take(k) =~= before);
        assert(planes(blocks.last()@)[ch] == blocks[k]@[ch]@);
    } else {
        law_blocks_stand_in_order(channels, before, k, ch, i);
        assert(before.take(k) =~= blocks.take(k));
    }
}

/// Runs one behind the other stand in order, and nothing else does.
pub proof fn law_runs_stand_in_order(runs: Seq<Seq<i32>>, k: int, i: int)
    requires
        0 <= k < runs.len(),
        0 <= i < runs[k].len(),
    ensures
        concatenated(runs.take(k)).len() + i < concatenated(runs).len(),
        concatenated(runs)[concatenated(runs.take(k)).len() + i] == runs[k][i],
    decreases runs.len(),
{
    let before: Seq<Seq<i32>> = runs.drop_last();
    if k == runs.len() - 1 {
        assert(runs.take(k) =~= before);
    } else {
        law_runs_stand_in_order(before, k, i);
        assert(before.take(k) =~= runs.take(k));
    }
}

/// The runs together are as long as all of them.
pub proof fn law_runs_add_up(runs: Seq<Seq<i32>>, more: Seq<i32>)
    ensures
        concatenated(Seq::<Seq<i32>>::empty()).len() == 0,
        concatenated(runs.push(more)).len() == concatenated(runs).len() + more.len(),
{
    assert(runs.push(more).drop_last() =~= runs);
}

/// The gain codes of a frame take the place of those of its subframes exactly where the
/// last auxiliary chunk in it can be read, has a check word that fits the bytes that it
/// covers, and has codes of the first version. They are the codes of that chunk.
pub proof fn law_which_codes_take_over(
    s: Seq<u8>,
    blocks_per_frame: u8,
    codes: Option<Seq<u8>>,
    at: int,
)
    requires
        override_codes(s, blocks_per_frame, codes),
        rev2_candidate(s, at),
        forall|i: int| at < i ==> !#[trigger] rev2_candidate(s, i),
    ensures
        codes matches Some(c) ==> {
            &&& rev2_aux_at(s, at, blocks_per_frame) matches Ok(chunk)
            &&& chunk.crc_valid
            &&& chunk.drc == Some((1u8, c))
            &&& c.len() > 0
        },
        codes is None ==> (rev2_aux_at(s, at, blocks_per_frame) matches Ok(chunk)
            ==> !chunk.crc_valid || (chunk.drc matches Some((version, c)) ==> version != 1
            || c.len() == 0)),
{
    assert(last_rev2_candidate(s, at));
    if codes is Some {
        let c: Seq<u8> = codes.unwrap();
        let i: int = choose|i: int| #[trigger]
            last_rev2_candidate(s, i) && (rev2_aux_at(s, i, blocks_per_frame) matches Ok(chunk)
                && crate::core_frame::override_of(chunk) == Some(c));
        assert(rev2_candidate(s, i));
        assert(i == at);
    }
}

/// A frame without an auxiliary chunk has no gain codes that take over.
pub proof fn law_no_chunk_no_codes(s: Seq<u8>, blocks_per_frame: u8, codes: Option<Seq<u8>>)
    requires
        override_codes(s, blocks_per_frame, codes),
        forall|i: int| !#[trigger] rev2_candidate(s, i),
    ensures
        codes is None,
{
    if codes is Some {
        let c: Seq<u8> = codes.unwrap();
        let i: int = choose|i: int| #[trigger]
            last_rev2_candidate(s, i) && (rev2_aux_at(s, i, blocks_per_frame) matches Ok(chunk)
                && crate::core_frame::override_of(chunk) == Some(c));
        assert(rev2_candidate(s, i));
    }
}

/// A frame takes the bytes from the first on that its header declares, or all where there
/// are fewer.
pub proof fn law_frame_takes_the_declared_bytes(s: Seq<u8>, header: DtsFrameHeader, i: int)
    ensures
        frame_bytes(s, header).len() <= s.len(),
        frame_bytes(s, header).len() <= header.frame_size_bytes,
        frame_bytes(s, header).len() == s.len() || frame_bytes(s, header).len()
            == header.frame_size_bytes,
        0 <= i < frame_bytes(s, header).len() ==> frame_bytes(s, header)[i] == s[i],
{
}

/// The samples and the low-frequency-effects samples of a walk are those of its subframes,
/// each in its place: the samples with the gain of the subframe, and the
/// low-frequency-effects samples that it left.
pub proof fn law_parts_of_a_walk<'a, S, T>(walk: Seq<CoreSubframe<'a, S, T>>, k: int)
    requires
        0 <= k < walk.len(),
    ensures
        gained_of(walk).len() == walk.len(),
        gained_of(walk)[k] == walk[k].gained,
        frame_lfe_of(walk).len() == walk.len(),
        frame_lfe_of(walk)[k] == walk[k].after.lfe,
{
}

/// The samples and the low-frequency-effects samples of the decoded subframes are those of
/// each of them, in its place.
pub proof fn law_parts_of_decoded_subframes<S>(done: Seq<DecodedSubframe<S>>, k: int)
    requires
        0 <= k < done.len(),
    ensures
        blocks_of(done).len() == done.len(),
        blocks_of(done)[k] == done[k].block,
        lfe_of(done).len() == done.len(),
        lfe_of(done)[k] == done[k].after.lfe,
{
}

/// The planes of samples are those of the channels.
pub proof fn law_planes_are_the_channels(pcm: Seq<Vec<i32>>, ch: int)
    requires
        0 <= ch < pcm.len(),
    ensures
        planes(pcm).len() == pcm.len(),
        planes(pcm)[ch] == pcm[ch]@,
{
}

/// What an audio coding header shows is what its fields hold.
pub proof fn law_header_shows_its_fields(coding: AudioCodingHeader, ch: int, n: int)
    ensures
        coding@.n_subframes == coding.n_subframes,
        coding@.n_pchs == coding.n_pchs,
        coding@.joinx == coding.joinx@,
        coding@.channel_params == coding.channel_params@,
        coding@.sel.len() == coding.sel@.len(),
        coding@.adj.len() == coding.adj@.len(),
        0 <= ch < coding.sel@.len() && 0 <= n < 26 ==> coding@.sel[ch][n] == coding.sel@[ch]@[n],
        0 <= ch < coding.adj@.len() && 0 <= n < 26 ==> coding@.adj[ch][n] == coding.adj@[ch]@[n],
{
}

} // verus!
