//! Where each worker has one reply for each argument, the decoding of a subframe
//! and of a frame has one outcome. Arguments, replies and outcomes are told apart
//! by what they hold.

use crate::audio_header::AudioCodingHeader;
use crate::core_frame::{
    begin_error, core_frame_decoded, frame_bytes, frame_lfe_of, gained_of,
    lemma_override_codes_unique, planes, samples_of, walked_on, CoreFrame, CoreSubframe,
};
use crate::decoder::{subframe_decoded, Carried, SubframeInput, SubframeSteps};
use crate::error::Error;
use crate::gain::{gained, plane_gained, plane_scaled, splits, windows_scaled};
use crate::header::DtsFrameHeader;
use crate::mix_laws::{
    law_mix_error_depends_on_the_shape, law_mixing_is_determined, one_value, same_cells,
    same_factors, same_plan,
};
use crate::subband_mix::mix_error;
use crate::subframe::{SideInfoTail, SubframeSideInfo, VqCodebooks};
use crate::subframe_pcm::{CoreFrameDecodeError, SubframePcm, SubframePcmError, SubframePlan};
use crate::workers::{
    AudioJob, AudioReply, FrameBehaviour, FrameWorkers, IndexReply, LowReply, SideReply,
    SubframeBehaviour, SubframeWorkers, SynthesisReply, TailReply,
};
use vstd::prelude::*;

verus! {

/// Both hold the same code book indices.
pub open spec fn same_indices(a: Seq<Vec<u16>>, b: Seq<Vec<u16>>) -> bool {
    &&& a.len() == b.len()
    &&& forall|ch: int| 0 <= ch < a.len() ==> (#[trigger] a[ch])@ == b[ch]@
}

/// Both replies say the same.
pub open spec fn same_index_reply(a: IndexReply, b: IndexReply) -> bool {
    match (a, b) {
        (Ok((x, m)), Ok((y, n))) => same_indices(x@, y@) && m == n,
        (Err(e), Err(f)) => e == f,
        _ => false,
    }
}

/// Both replies say the same.
pub open spec fn same_low_reply<S>(a: LowReply<S>, b: LowReply<S>) -> bool {
    &&& a.0 == b.0
    &&& match (a.1, b.1) {
        (Ok((x, m)), Ok((y, n))) => x@ == y@ && m == n,
        (Err(e), Err(f)) => e == f,
        _ => false,
    }
}

/// Both replies say the same.
pub open spec fn same_audio_reply<S, T>(a: AudioReply<S, T>, b: AudioReply<S, T>) -> bool {
    &&& a.0 == b.0
    &&& match (a.1, b.1) {
        (Ok((x, m)), Ok((y, n))) => same_cells(x@, y@) && m == n,
        (Err(e), Err(f)) => e == f,
        _ => false,
    }
}

/// Both replies say the same.
pub open spec fn same_synthesis_reply<S>(a: SynthesisReply<S>, b: SynthesisReply<S>) -> bool {
    &&& a.0 == b.0
    &&& match (a.1, b.1) {
        (Ok(x), Ok(y)) => planes(x@) == planes(y@),
        (Err(e), Err(f)) => e == f,
        _ => false,
    }
}

/// Both hold the same side information.
pub open spec fn same_side(a: SubframeSideInfo, b: SubframeSideInfo) -> bool {
    a.channels@ == b.channels@ && a.n_ssc == b.n_ssc && a.psc == b.psc
}

/// Both replies say the same.
pub open spec fn same_side_reply(a: SideReply, b: SideReply) -> bool {
    match (a, b) {
        (Ok((x, m)), Ok((y, n))) => same_side(x, y) && m == n,
        (Err(e), Err(f)) => e == f,
        _ => false,
    }
}

/// Both hold the same tail.
pub open spec fn same_tail<T>(a: SideInfoTail<T>, b: SideInfoTail<T>) -> bool {
    same_factors(a.join_scales@, b.join_scales@) && a.range_index == b.range_index
}

/// Both replies say the same.
pub open spec fn same_tail_reply<T>(a: TailReply<T>, b: TailReply<T>) -> bool {
    match (a, b) {
        (Ok((x, m)), Ok((y, n))) => same_tail(x, y) && m == n,
        (Err(e), Err(f)) => e == f,
        _ => false,
    }
}

/// Both readers of the audio data go by the same.
pub open spec fn same_job(a: AudioJob<'_>, b: AudioJob<'_>) -> bool {
    &&& *a.header == *b.header
    &&& a.coding@ == b.coding@
    &&& a.side@ == b.side@
    &&& same_plan(*a.plan, *b.plan)
    &&& a.books == b.books
    &&& match (a.hf_indices, b.hf_indices) {
        (Some(x), Some(y)) => same_indices(x@, y@),
        (None, None) => true,
        _ => false,
    }
    &&& a.n_ssc == b.n_ssc
    &&& a.psc == b.psc
    &&& a.aspf == b.aspf
}

impl<'a, S, T> SubframeBehaviour<'a, S, T> {
    /// There is one reply of the reader of the code book indices.
    pub open spec fn one_index_reply(self) -> bool {
        forall|
            bytes: &'a [u8],
            at: usize,
            p: SubframePlan,
            q: SubframePlan,
            v: IndexReply,
            w: IndexReply,
        |
            same_plan(p, q) && #[trigger] (self.indices)(bytes, at, p, v)
                && #[trigger] (self.indices)(bytes, at, q, w) ==> same_index_reply(v, w)
    }

    /// There is one reply of the reader of the low-frequency-effects samples.
    pub open spec fn one_low_reply(self) -> bool {
        forall|
            s: S,
            bytes: &'a [u8],
            at: usize,
            lff: u8,
            n_ssc: usize,
            v: LowReply<S>,
            w: LowReply<S>,
        | #[trigger]
            (self.low)(s, bytes, at, lff, n_ssc, v) && #[trigger] (self.low)(
                s,
                bytes,
                at,
                lff,
                n_ssc,
                w,
            ) ==> same_low_reply(v, w)
    }

    /// There is one reply of the reader of the audio data.
    pub open spec fn one_audio_reply(self) -> bool {
        forall|
            s: S,
            bytes: &'a [u8],
            at: usize,
            j: AudioJob<'a>,
            k: AudioJob<'a>,
            v: AudioReply<S, T>,
            w: AudioReply<S, T>,
        |
            same_job(j, k) && #[trigger] (self.audio)(s, bytes, at, j, v)
                && #[trigger] (self.audio)(s, bytes, at, k, w) ==> same_audio_reply(v, w)
    }

    /// There is one result of the mixing.
    pub open spec fn one_mix(self) -> bool {
        forall|
            was1: Seq<Vec<[T; 32]>>,
            now1: Seq<Vec<[T; 32]>>,
            was2: Seq<Vec<[T; 32]>>,
            now2: Seq<Vec<[T; 32]>>,
            p: SubframePlan,
            q: SubframePlan,
            joinx: Seq<u8>,
            scales1: Seq<Vec<T>>,
            scales2: Seq<Vec<T>>,
        |
            {
                &&& same_cells(was1, was2)
                &&& same_plan(p, q)
                &&& same_factors(scales1, scales2)
                &&& mix_error(was1, p, joinx, scales1) is None
                &&& #[trigger] (self.mixed)(was1, now1, p, joinx, scales1)
                &&& #[trigger] (self.mixed)(was2, now2, q, joinx, scales2)
            } ==> same_cells(now1, now2)
    }

    /// There is one reply of the synthesis.
    pub open spec fn one_synthesis_reply(self) -> bool {
        forall|
            s: S,
            channels: usize,
            m: Vec<Vec<[T; 32]>>,
            n: Vec<Vec<[T; 32]>>,
            p: SubframePlan,
            q: SubframePlan,
            v: SynthesisReply<S>,
            w: SynthesisReply<S>,
        |
            same_cells(m@, n@) && same_plan(p, q) && #[trigger] (self.synthesis)(
                s,
                channels,
                m,
                p,
                v,
            ) && #[trigger] (self.synthesis)(s, channels, n, q, w) ==> same_synthesis_reply(v, w)
    }

    /// Each worker on a subframe has one reply for each argument.
    pub open spec fn one_reply(self) -> bool {
        &&& self.one_index_reply()
        &&& self.one_low_reply()
        &&& self.one_audio_reply()
        &&& self.one_mix()
        &&& self.one_synthesis_reply()
    }
}

/// Both are the same subframe.
pub open spec fn same_input<T>(a: SubframeInput<'_, T>, b: SubframeInput<'_, T>) -> bool {
    &&& a.bytes == b.bytes
    &&& a.bit == b.bit
    &&& a.header == b.header
    &&& a.coding@ == b.coding@
    &&& a.side@ == b.side@
    &&& a.n_ssc == b.n_ssc
    &&& a.psc == b.psc
    &&& a.aspf == b.aspf
    &&& same_factors(a.scales, b.scales)
}

/// Both are the same samples and the same number, or the same error.
pub open spec fn same_result<E>(
    a: Result<(SubframePcm, usize), E>,
    b: Result<(SubframePcm, usize), E>,
) -> bool {
    match (a, b) {
        (Ok((p, m)), Ok((q, n))) => planes(p@) == planes(q@) && m == n,
        (Err(e), Err(f)) => e == f,
        _ => false,
    }
}

/// Both courses of the same subframe agree, step by step.
proof fn lemma_steps_agree<'a, S, T>(
    b: SubframeBehaviour<'a, S, T>,
    channels: usize,
    books: VqCodebooks,
    x: SubframeInput<'a, T>,
    y: SubframeInput<'a, T>,
    state: S,
    s: SubframeSteps<S, T>,
    t: SubframeSteps<S, T>,
)
    requires
        b.one_reply(),
        same_input(x, y),
        s.follow(b, channels, books, x, state),
        t.follow(b, channels, books, y, state),
    ensures
        same_plan(s.plan, t.plan),
        match (s.indices, t.indices) {
            (Ok((f, m)), Ok((g, n))) => {
                &&& m == n
                &&& same_low_reply(s.low, t.low)
                &&& s.low.1 is Ok ==> same_audio_reply(s.audio, t.audio)
                &&& s.low.1 is Ok && s.audio.1 is Ok ==> s.mix_refusal(x) == t.mix_refusal(y)
                &&& s.low.1 is Ok && s.audio.1 is Ok && s.mix_refusal(x) is None
                    ==> same_synthesis_reply(s.pcm, t.pcm)
            },
            (Err(e), Err(f)) => e == f,
            _ => false,
        },
{
    assert(same_plan(s.plan, t.plan));
    if s.plan.scan_hf_vq {
        let v: IndexReply = match s.indices {
            Ok((found, bits)) => Ok((found.unwrap(), bits)),
            Err(e) => Err(e),
        };
        let w: IndexReply = match t.indices {
            Ok((found, bits)) => Ok((found.unwrap(), bits)),
            Err(e) => Err(e),
        };
        assert((b.indices)(x.bytes, x.bit, s.plan, v));
        assert((b.indices)(x.bytes, x.bit, t.plan, w));
        assert(same_index_reply(v, w));
    }
    if s.indices is Ok {
        assert(s.index_bits() == t.index_bits());
        if s.plan.lff != 0 {
            let at: usize = (x.bit + s.index_bits()) as usize;
            assert((b.low)(state, x.bytes, at, s.plan.lff, x.n_ssc, s.low));
            assert((b.low)(state, x.bytes, at, s.plan.lff, x.n_ssc, t.low));
        }
        assert(same_low_reply(s.low, t.low));
        if s.low.1 is Ok {
            let at: usize = (x.bit + s.index_bits() + s.low_bits()) as usize;
            let j = AudioJob {
                header: &x.header,
                coding: &x.coding,
                side: x.side,
                plan: &s.plan,
                books,
                hf_indices: match s.indices.unwrap().0 {
                    Some(found) => Some(&found),
                    None => None,
                },
                n_ssc: x.n_ssc,
                psc: x.psc,
                aspf: x.aspf,
            };
            let k = AudioJob {
                header: &y.header,
                coding: &y.coding,
                side: y.side,
                plan: &t.plan,
                books,
                hf_indices: match t.indices.unwrap().0 {
                    Some(found) => Some(&found),
                    None => None,
                },
                n_ssc: y.n_ssc,
                psc: y.psc,
                aspf: y.aspf,
            };
            assert((b.audio)(s.low.0, x.bytes, at, j, s.audio));
            assert((b.audio)(s.low.0, x.bytes, at, k, t.audio));
            assert(same_job(j, k));
            assert(same_audio_reply(s.audio, t.audio));
            if s.audio.1 is Ok {
                let m: Seq<Vec<[T; 32]>> = s.audio.1.unwrap().0@;
                let n: Seq<Vec<[T; 32]>> = t.audio.1.unwrap().0@;
                assert(x.coding.joinx@ == y.coding.joinx@) by {
                    assert(x.coding@.joinx == y.coding@.joinx);
                }
                law_mix_error_depends_on_the_shape(
                    m,
                    n,
                    s.plan,
                    t.plan,
                    x.coding.joinx@,
                    x.scales,
                    y.scales,
                );
                if s.mix_refusal(x) is None {
                    assert((b.mixed)(m, s.mixed@, s.plan, x.coding.joinx@, x.scales));
                    assert((b.mixed)(n, t.mixed@, t.plan, x.coding.joinx@, y.scales));
                    assert(same_cells(s.mixed@, t.mixed@));
                    assert((b.synthesis)(s.audio.0, channels, s.mixed, s.plan, s.pcm));
                    assert((b.synthesis)(s.audio.0, channels, t.mixed, t.plan, t.pcm));
                }
            }
        }
    }
}

/// Two decodings of the same subframe from the same state agree. What is carried
/// of the low-frequency-effects samples agrees where the subframe was decoded or
/// the same was carried before.
pub proof fn lemma_subframe_determined<'a, S, T>(
    b: SubframeBehaviour<'a, S, T>,
    channels: usize,
    books: VqCodebooks,
    x: SubframeInput<'a, T>,
    y: SubframeInput<'a, T>,
    was1: Carried<S>,
    was2: Carried<S>,
    r1: Result<(SubframePcm, usize), SubframePcmError>,
    r2: Result<(SubframePcm, usize), SubframePcmError>,
    now1: Carried<S>,
    now2: Carried<S>,
)
    requires
        b.one_reply(),
        same_input(x, y),
        was1.state == was2.state,
        subframe_decoded(b, channels, books, x, was1, r1, now1),
        subframe_decoded(b, channels, books, y, was2, r2, now2),
    ensures
        same_result(r1, r2),
        now1.state == now2.state,
        r1 is Ok || was1.lfe == was2.lfe ==> now1.lfe == now2.lfe,
{
    assert(x.coding.joinx@ == y.coding.joinx@ && x.coding.channel_params@
        == y.coding.channel_params@ && x.coding.n_pchs == y.coding.n_pchs) by {
        assert(x.coding@.joinx == y.coding@.joinx);
        assert(x.coding@.channel_params == y.coding@.channel_params);
        assert(x.coding@.n_pchs == y.coding@.n_pchs);
    }
    assert(x.refusal(channels, books) == y.refusal(channels, books));
    if x.refusal(channels, books) is None {
        let s = choose|steps: SubframeSteps<S, T>|
            {
                &&& #[trigger] steps.follow(b, channels, books, x, was1.state)
                &&& r1 == steps.result(x)
                &&& now1 == steps.carried(x, was1)
            };
        let t = choose|steps: SubframeSteps<S, T>|
            {
                &&& #[trigger] steps.follow(b, channels, books, y, was2.state)
                &&& r2 == steps.result(y)
                &&& now2 == steps.carried(y, was2)
            };
        lemma_steps_agree(b, channels, books, x, y, was1.state, s, t);
    }
}

impl<'a, S, T> FrameBehaviour<'a, S, T> {
    /// There is one reply of the reader of the side information.
    pub open spec fn one_side_reply(self) -> bool {
        forall|
            bytes: &'a [u8],
            at: usize,
            c: AudioCodingHeader,
            d: AudioCodingHeader,
            v: SideReply,
            w: SideReply,
        |
            c@ == d@ && #[trigger] (self.side_info)(bytes, at, c, v)
                && #[trigger] (self.side_info)(bytes, at, d, w) ==> same_side_reply(v, w)
    }

    /// There is one reply of the reader of the tail.
    pub open spec fn one_tail_reply(self) -> bool {
        forall|
            bytes: &'a [u8],
            at: usize,
            c: AudioCodingHeader,
            d: AudioCodingHeader,
            header: DtsFrameHeader,
            v: TailReply<T>,
            w: TailReply<T>,
        |
            c@ == d@ && #[trigger] (self.tail)(bytes, at, c, header, v) && #[trigger] (self.tail)(
                bytes,
                at,
                d,
                header,
                w,
            ) ==> same_tail_reply(v, w)
    }

    /// There is one state without the prediction history.
    pub open spec fn one_clear(self) -> bool {
        forall|s: S, v: S, w: S| #[trigger]
            (self.cleared)(s, v) && #[trigger] (self.cleared)(s, w) ==> v == w
    }

    /// There is one result of a gain on samples.
    pub open spec fn one_gain(self) -> bool {
        &&& forall|
            code: u8,
            was1: Seq<Vec<i32>>,
            now1: Seq<Vec<i32>>,
            was2: Seq<Vec<i32>>,
            now2: Seq<Vec<i32>>,
        |
            planes(was1) == planes(was2) && #[trigger] (self.gained)(code, was1, now1)
                && #[trigger] (self.gained)(code, was2, now2) ==> planes(now1) == planes(now2)
        &&& forall|
            codes: Seq<u8>,
            was1: Seq<Vec<i32>>,
            now1: Seq<Vec<i32>>,
            was2: Seq<Vec<i32>>,
            now2: Seq<Vec<i32>>,
        |
            planes(was1) == planes(was2) && #[trigger] (self.scaled)(codes, was1, now1)
                && #[trigger] (self.scaled)(codes, was2, now2) ==> planes(now1) == planes(now2)
    }

    /// Each worker on a frame has one reply for each argument.
    pub open spec fn one_reply(self) -> bool {
        &&& self.one_side_reply()
        &&& self.one_tail_reply()
        &&& self.one_clear()
        &&& self.one_gain()
    }
}

/// Both are the same frame for the same decoder.
pub open spec fn same_frame(a: CoreFrame<'_>, b: CoreFrame<'_>) -> bool {
    &&& a.bytes == b.bytes
    &&& a.header == b.header
    &&& a.coding@ == b.coding@
    &&& a.codes == b.codes
    &&& a.channels == b.channels
    &&& a.books == b.books
}

/// Both subframes start at the same bit with the same carried.
pub open spec fn same_start<S, T>(
    a: CoreSubframe<'_, S, T>,
    b: CoreSubframe<'_, S, T>,
) -> bool {
    a.at == b.at && a.before == b.before
}

/// Both subframes of a frame came out the same.
pub open spec fn same_passage<S, T>(
    a: CoreSubframe<'_, S, T>,
    b: CoreSubframe<'_, S, T>,
) -> bool {
    &&& a.end() == b.end()
    &&& a.after == b.after
    &&& planes(a.gained@) == planes(b.gained@)
}

/// Side information that is read twice is the same.
proof fn lemma_side_agrees<'a, S, T>(
    fb: FrameBehaviour<'a, S, T>,
    f: CoreFrame<'a>,
    g: CoreFrame<'a>,
    x: CoreSubframe<'a, S, T>,
    y: CoreSubframe<'a, S, T>,
)
    requires
        fb.one_reply(),
        same_frame(f, g),
        same_start(x, y),
        f.side_read(fb, x),
        g.side_read(fb, y),
    ensures
        same_side(x.side, y.side),
        x.side_bits == y.side_bits,
{
    let v: SideReply = Ok((x.side, x.side_bits));
    let w: SideReply = Ok((y.side, y.side_bits));
    assert((fb.side_info)(f.bytes, x.at, f.coding, v));
    assert((fb.side_info)(f.bytes, x.at, g.coding, w));
    assert(same_side_reply(v, w));
}

/// Side information that was read once can be read.
proof fn lemma_side_read_excludes_failure<'a, S, T>(
    fb: FrameBehaviour<'a, S, T>,
    f: CoreFrame<'a>,
    g: CoreFrame<'a>,
    x: CoreSubframe<'a, S, T>,
    y: CoreSubframe<'a, S, T>,
    cause: Error,
    now: Carried<S>,
)
    requires
        fb.one_reply(),
        same_frame(f, g),
        same_start(x, y),
        f.side_read(fb, x),
    ensures
        !g.side_failed(fb, y, cause, now),
{
    if g.side_failed(fb, y, cause, now) {
        let v: SideReply = Ok((x.side, x.side_bits));
        let w: SideReply = Err(cause);
        assert((fb.side_info)(f.bytes, x.at, f.coding, v));
        assert((fb.side_info)(f.bytes, x.at, g.coding, w));
        assert(same_side_reply(v, w));
    }
}

/// A tail that is read twice is the same.
proof fn lemma_tail_agrees<'a, S, T>(
    fb: FrameBehaviour<'a, S, T>,
    f: CoreFrame<'a>,
    g: CoreFrame<'a>,
    x: CoreSubframe<'a, S, T>,
    y: CoreSubframe<'a, S, T>,
)
    requires
        fb.one_reply(),
        same_frame(f, g),
        x.at == y.at,
        x.side_bits == y.side_bits,
        f.tail_read(fb, x),
        g.tail_read(fb, y),
    ensures
        same_tail(x.tail, y.tail),
        x.tail_bits == y.tail_bits,
{
    let at: usize = (x.at + x.side_bits) as usize;
    let v: TailReply<T> = Ok((x.tail, x.tail_bits));
    let w: TailReply<T> = Ok((y.tail, y.tail_bits));
    assert((fb.tail)(f.bytes, at, f.coding, f.header, v));
    assert((fb.tail)(f.bytes, at, g.coding, f.header, w));
    assert(same_tail_reply(v, w));
}

/// A tail that was read once can be read.
proof fn lemma_tail_read_excludes_failure<'a, S, T>(
    fb: FrameBehaviour<'a, S, T>,
    f: CoreFrame<'a>,
    g: CoreFrame<'a>,
    x: CoreSubframe<'a, S, T>,
    y: CoreSubframe<'a, S, T>,
    cause: Error,
    now: Carried<S>,
)
    requires
        fb.one_reply(),
        same_frame(f, g),
        same_start(x, y),
        f.side_read(fb, x),
        f.tail_read(fb, x),
    ensures
        !g.tail_failed(fb, y, cause, now),
{
    if g.tail_failed(fb, y, cause, now) {
        lemma_side_agrees(fb, f, g, x, y);
        let at: usize = (x.at + x.side_bits) as usize;
        let v: TailReply<T> = Ok((x.tail, x.tail_bits));
        let w: TailReply<T> = Err(cause);
        assert((fb.tail)(f.bytes, at, f.coding, f.header, v));
        assert((fb.tail)(f.bytes, at, g.coding, f.header, w));
        assert(same_tail_reply(v, w));
    }
}

/// The audio parts of the same subframe are the same.
proof fn lemma_inputs_agree<'a, S, T>(
    fb: FrameBehaviour<'a, S, T>,
    f: CoreFrame<'a>,
    g: CoreFrame<'a>,
    x: CoreSubframe<'a, S, T>,
    y: CoreSubframe<'a, S, T>,
)
    requires
        fb.one_reply(),
        same_frame(f, g),
        same_start(x, y),
        f.side_read(fb, x),
        f.tail_read(fb, x),
        x.channels@ == x.side.channels@,
        g.side_read(fb, y),
        g.tail_read(fb, y),
        y.channels@ == y.side.channels@,
    ensures
        same_input(f.input(x), g.input(y)),
        x.side_bits == y.side_bits,
        x.tail_bits == y.tail_bits,
        same_side(x.side, y.side),
        same_tail(x.tail, y.tail),
{
    lemma_side_agrees(fb, f, g, x, y);
    lemma_tail_agrees(fb, f, g, x, y);
}

/// A subframe that is passed twice comes out the same.
proof fn lemma_passed_agree<'a, S, T>(
    b: SubframeBehaviour<'a, S, T>,
    fb: FrameBehaviour<'a, S, T>,
    f: CoreFrame<'a>,
    g: CoreFrame<'a>,
    x: CoreSubframe<'a, S, T>,
    y: CoreSubframe<'a, S, T>,
)
    requires
        b.one_reply(),
        fb.one_reply(),
        same_frame(f, g),
        same_start(x, y),
        f.passed(b, fb, x),
        g.passed(b, fb, y),
    ensures
        same_passage(x, y),
{
    lemma_inputs_agree(fb, f, g, x, y);
    let r1: Result<(SubframePcm, usize), SubframePcmError> = Ok((x.block, x.audio_bits));
    let r2: Result<(SubframePcm, usize), SubframePcmError> = Ok((y.block, y.audio_bits));
    lemma_subframe_determined(
        b,
        f.channels,
        f.books,
        f.input(x),
        g.input(y),
        x.before,
        y.before,
        r1,
        r2,
        x.after,
        y.after,
    );
    assert(same_result(r1, r2));
    if let Some(code) = f.gain_code(x) {
        assert((fb.gained)(code, x.block@, x.gained@));
        assert((fb.gained)(code, y.block@, y.gained@));
    }
}

/// A subframe that was passed once does not fail.
proof fn lemma_passed_excludes_failure<'a, S, T>(
    b: SubframeBehaviour<'a, S, T>,
    fb: FrameBehaviour<'a, S, T>,
    f: CoreFrame<'a>,
    g: CoreFrame<'a>,
    x: CoreSubframe<'a, S, T>,
    y: CoreSubframe<'a, S, T>,
    index: nat,
    e: CoreFrameDecodeError,
    now: Carried<S>,
)
    requires
        b.one_reply(),
        fb.one_reply(),
        same_frame(f, g),
        same_start(x, y),
        f.passed(b, fb, x),
    ensures
        !g.failed(b, fb, index, y, e, now),
{
    if g.failed(b, fb, index, y, e, now) {
        match e {
            CoreFrameDecodeError::Bitstream(cause) => {
                lemma_side_read_excludes_failure(fb, f, g, x, y, cause, now);
                lemma_tail_read_excludes_failure(fb, f, g, x, y, cause, now);
            },
            CoreFrameDecodeError::Decode(cause) => {
                lemma_side_agrees(fb, f, g, x, y);
                if g.audio_failed(b, fb, y, cause, now) {
                    lemma_inputs_agree(fb, f, g, x, y);
                    let r1: Result<(SubframePcm, usize), SubframePcmError> = Ok(
                        (x.block, x.audio_bits),
                    );
                    let r2: Result<(SubframePcm, usize), SubframePcmError> = Err(cause);
                    lemma_subframe_determined(
                        b,
                        f.channels,
                        f.books,
                        f.input(x),
                        g.input(y),
                        x.before,
                        y.before,
                        r1,
                        r2,
                        x.after,
                        now,
                    );
                    assert(same_result(r1, r2));
                }
            },
            _ => {},
        }
    }
}

/// A subframe that fails twice fails the same.
proof fn lemma_failed_agree<'a, S, T>(
    b: SubframeBehaviour<'a, S, T>,
    fb: FrameBehaviour<'a, S, T>,
    f: CoreFrame<'a>,
    g: CoreFrame<'a>,
    x: CoreSubframe<'a, S, T>,
    y: CoreSubframe<'a, S, T>,
    index: nat,
    e1: CoreFrameDecodeError,
    e2: CoreFrameDecodeError,
    now1: Carried<S>,
    now2: Carried<S>,
)
    requires
        b.one_reply(),
        fb.one_reply(),
        same_frame(f, g),
        same_start(x, y),
        f.failed(b, fb, index, x, e1, now1),
        g.failed(b, fb, index, y, e2, now2),
    ensures
        e1 == e2,
        now1 == now2,
{
    if f.side_read(fb, x) && g.side_read(fb, y) {
        lemma_side_agrees(fb, f, g, x, y);
    }
    match e1 {
        CoreFrameDecodeError::Bitstream(c1) => {
            match e2 {
                CoreFrameDecodeError::Bitstream(c2) => {
                    lemma_bitstream_failures_agree(fb, f, g, x, y, c1, c2, now1, now2);
                },
                CoreFrameDecodeError::Decode(c2) => {
                    lemma_side_read_excludes_failure(fb, g, f, y, x, c1, now1);
                    lemma_tail_read_excludes_failure(fb, g, f, y, x, c1, now1);
                },
                _ => {},
            }
        },
        CoreFrameDecodeError::Decode(c1) => {
            match e2 {
                CoreFrameDecodeError::Bitstream(c2) => {
                    lemma_side_read_excludes_failure(fb, f, g, x, y, c2, now2);
                    lemma_tail_read_excludes_failure(fb, f, g, x, y, c2, now2);
                },
                CoreFrameDecodeError::Decode(c2) => {
                    lemma_side_agrees(fb, f, g, x, y);
                    if f.audio_failed(b, fb, x, c1, now1) && g.audio_failed(b, fb, y, c2, now2) {
                        lemma_inputs_agree(fb, f, g, x, y);
                        let r1: Result<(SubframePcm, usize), SubframePcmError> = Err(c1);
                        let r2: Result<(SubframePcm, usize), SubframePcmError> = Err(c2);
                        lemma_subframe_determined(
                            b,
                            f.channels,
                            f.books,
                            f.input(x),
                            g.input(y),
                            x.before,
                            y.before,
                            r1,
                            r2,
                            now1,
                            now2,
                        );
                        assert(same_result(r1, r2));
                    }
                },
                _ => {},
            }
        },
        _ => {},
    }
}

/// A subframe whose side information or tail fails twice fails the same.
proof fn lemma_bitstream_failures_agree<'a, S, T>(
    fb: FrameBehaviour<'a, S, T>,
    f: CoreFrame<'a>,
    g: CoreFrame<'a>,
    x: CoreSubframe<'a, S, T>,
    y: CoreSubframe<'a, S, T>,
    c1: Error,
    c2: Error,
    now1: Carried<S>,
    now2: Carried<S>,
)
    requires
        fb.one_reply(),
        same_frame(f, g),
        same_start(x, y),
        f.side_failed(fb, x, c1, now1) || f.tail_failed(fb, x, c1, now1),
        g.side_failed(fb, y, c2, now2) || g.tail_failed(fb, y, c2, now2),
    ensures
        c1 == c2,
        now1 == now2,
{
    if f.side_failed(fb, x, c1, now1) {
        if g.tail_failed(fb, y, c2, now2) {
            lemma_side_read_excludes_failure(fb, g, f, y, x, c1, now1);
        } else {
            let v: SideReply = Err(c1);
            let w: SideReply = Err(c2);
            assert((fb.side_info)(f.bytes, x.at, f.coding, v));
            assert((fb.side_info)(f.bytes, x.at, g.coding, w));
            assert(same_side_reply(v, w));
        }
    } else if g.side_failed(fb, y, c2, now2) {
        lemma_side_read_excludes_failure(fb, f, g, x, y, c2, now2);
    } else {
        lemma_side_agrees(fb, f, g, x, y);
        let at: usize = (x.at + x.side_bits) as usize;
        let v: TailReply<T> = Err(c1);
        let w: TailReply<T> = Err(c2);
        assert((fb.tail)(f.bytes, at, f.coding, f.header, v));
        assert((fb.tail)(f.bytes, at, g.coding, f.header, w));
        assert(same_tail_reply(v, w));
    }
}

/// What holds of subframe `k` of a walk.
pub proof fn lemma_walked_at<'a, S, T>(
    b: SubframeBehaviour<'a, S, T>,
    fb: FrameBehaviour<'a, S, T>,
    f: CoreFrame<'a>,
    start: Carried<S>,
    done: Seq<CoreSubframe<'a, S, T>>,
    k: int,
)
    requires
        f.walked(b, fb, start, done),
        0 <= k < done.len(),
    ensures
        f.passed(b, fb, done[k]),
        done[k].at == f.next_bit(done.take(k)),
        done[k].before == walked_on(start, done.take(k)),
    decreases done.len(),
{
    let before: Seq<CoreSubframe<'a, S, T>> = done.drop_last();
    if k == done.len() - 1 {
        assert(done.take(k) =~= before);
    } else {
        lemma_walked_at(b, fb, f, start, before, k);
        assert(before.take(k) =~= done.take(k));
    }
}

/// Two walks through the same frame agree as far as both go.
proof fn lemma_walks_agree<'a, S, T>(
    b: SubframeBehaviour<'a, S, T>,
    fb: FrameBehaviour<'a, S, T>,
    f: CoreFrame<'a>,
    g: CoreFrame<'a>,
    start: Carried<S>,
    d1: Seq<CoreSubframe<'a, S, T>>,
    d2: Seq<CoreSubframe<'a, S, T>>,
    k: int,
)
    requires
        b.one_reply(),
        fb.one_reply(),
        same_frame(f, g),
        f.walked(b, fb, start, d1),
        g.walked(b, fb, start, d2),
        0 <= k <= d1.len(),
        k <= d2.len(),
    ensures
        forall|j: int| 0 <= j < k ==> same_passage(#[trigger] d1[j], d2[j]),
        f.next_bit(d1.take(k)) == g.next_bit(d2.take(k)),
        walked_on(start, d1.take(k)) == walked_on(start, d2.take(k)),
    decreases k,
{
    if k > 0 {
        lemma_walks_agree(b, fb, f, g, start, d1, d2, k - 1);
        lemma_walked_at(b, fb, f, start, d1, k - 1);
        lemma_walked_at(b, fb, g, start, d2, k - 1);
        lemma_passed_agree(b, fb, f, g, d1[k - 1], d2[k - 1]);
        assert(d1.take(k).last() == d1[k - 1]);
        assert(d2.take(k).last() == d2[k - 1]);
    }
}

/// Blocks with the same samples make frames with the same samples.
pub proof fn lemma_same_samples(channels: nat, a: Seq<SubframePcm>, b: Seq<SubframePcm>)
    requires
        a.len() == b.len(),
        forall|k: int| 0 <= k < a.len() ==> planes((#[trigger] a[k])@) == planes(b[k]@),
    ensures
        samples_of(channels, a) == samples_of(channels, b),
    decreases a.len(),
{
    if a.len() > 0 {
        assert forall|k: int| 0 <= k < a.drop_last().len() implies planes(
            (#[trigger] a.drop_last()[k])@,
        ) == planes(b.drop_last()[k]@) by {
            assert(a.drop_last()[k] == a[k]);
        }
        lemma_same_samples(channels, a.drop_last(), b.drop_last());
        assert(planes(a[a.len() - 1]@) == planes(b[b.len() - 1]@));
    }
}

/// Two ways through the same frame come to the same.
proof fn lemma_frame_determined<'a, S, T>(
    b: SubframeBehaviour<'a, S, T>,
    fb: FrameBehaviour<'a, S, T>,
    f: CoreFrame<'a>,
    g: CoreFrame<'a>,
    start: Carried<S>,
    r1: Result<(SubframePcm, usize), CoreFrameDecodeError>,
    r2: Result<(SubframePcm, usize), CoreFrameDecodeError>,
    now1: Carried<S>,
    now2: Carried<S>,
)
    requires
        b.one_reply(),
        fb.one_reply(),
        same_frame(f, g),
        f.gives(b, fb, start, r1, now1),
        g.gives(b, fb, start, r2, now2),
    ensures
        same_result(r1, r2),
        now1 == now2,
{
    let d1 = choose|done: Seq<CoreSubframe<'a, S, T>>|
        #[trigger] f.walked(b, fb, start, done) && f.comes_to(b, fb, start, done, r1, now1);
    let d2 = choose|done: Seq<CoreSubframe<'a, S, T>>|
        #[trigger] g.walked(b, fb, start, done) && g.comes_to(b, fb, start, done, r2, now2);
    assert(f.coding.n_subframes == g.coding.n_subframes) by {
        assert(f.coding@.n_subframes == g.coding@.n_subframes);
    }
    let k: int = if d1.len() <= d2.len() {
        d1.len() as int
    } else {
        d2.len() as int
    };
    lemma_walks_agree(b, fb, f, g, start, d1, d2, k);
    if d1.len() < d2.len() {
        assert(d1.take(k) =~= d1);
        lemma_walked_at(b, fb, g, start, d2, k);
        let e: CoreFrameDecodeError = r1->Err_0;
        let x = choose|sf: CoreSubframe<'a, S, T>|
            {
                &&& sf.at == f.next_bit(d1)
                &&& sf.before == walked_on(start, d1)
                &&& #[trigger] f.failed(b, fb, d1.len(), sf, e, now1)
            };
        lemma_passed_excludes_failure(b, fb, g, f, d2[k], x, d1.len(), e, now1);
    } else if d2.len() < d1.len() {
        assert(d2.take(k) =~= d2);
        lemma_walked_at(b, fb, f, start, d1, k);
        let e: CoreFrameDecodeError = r2->Err_0;
        let y = choose|sf: CoreSubframe<'a, S, T>|
            {
                &&& sf.at == g.next_bit(d2)
                &&& sf.before == walked_on(start, d2)
                &&& #[trigger] g.failed(b, fb, d2.len(), sf, e, now2)
            };
        lemma_passed_excludes_failure(b, fb, f, g, d1[k], y, d2.len(), e, now2);
    } else {
        assert(d1.take(k) =~= d1);
        assert(d2.take(k) =~= d2);
        if d1.len() == f.coding.n_subframes {
            let a: Seq<SubframePcm> = gained_of(d1);
            let c: Seq<SubframePcm> = gained_of(d2);
            assert forall|j: int| 0 <= j < a.len() implies planes((#[trigger] a[j])@) == planes(
                c[j]@,
            ) by {
                assert(same_passage(d1[j], d2[j]));
            }
            lemma_same_samples(f.channels as nat, a, c);
            assert(frame_lfe_of(d1) =~= frame_lfe_of(d2)) by {
                assert forall|j: int| 0 <= j < d1.len() implies d1[j].after.lfe
                    == d2[j].after.lfe by {
                    assert(same_passage(d1[j], d2[j]));
                }
            }
            assert(r1 is Ok && r2 is Ok);
            let p1: SubframePcm = r1->Ok_0.0;
            let p2: SubframePcm = r2->Ok_0.0;
            let samples: Seq<Seq<i32>> = samples_of(f.channels as nat, a);
            if let Some(codes) = f.codes {
                let q1 = choose|plain: SubframePcm|
                    planes(plain@) == samples && #[trigger] (fb.scaled)(codes, plain@, p1@);
                let q2 = choose|plain: SubframePcm|
                    planes(plain@) == samples && #[trigger] (fb.scaled)(codes, plain@, p2@);
                assert((fb.scaled)(codes, q1@, p1@));
                assert((fb.scaled)(codes, q2@, p2@));
            }
            assert(planes(p1@) == planes(p2@));
        } else {
            let e1: CoreFrameDecodeError = r1->Err_0;
            let e2: CoreFrameDecodeError = r2->Err_0;
            let x = choose|sf: CoreSubframe<'a, S, T>|
                {
                    &&& sf.at == f.next_bit(d1)
                    &&& sf.before == walked_on(start, d1)
                    &&& #[trigger] f.failed(b, fb, d1.len(), sf, e1, now1)
                };
            let y = choose|sf: CoreSubframe<'a, S, T>|
                {
                    &&& sf.at == g.next_bit(d2)
                    &&& sf.before == walked_on(start, d2)
                    &&& #[trigger] g.failed(b, fb, d2.len(), sf, e2, now2)
                };
            lemma_failed_agree(b, fb, f, g, x, y, d1.len(), e1, e2, now1, now2);
        }
    }
}

/// Two decodings of the same frame agree where what they carry into the first
/// subframe agrees.
pub proof fn lemma_core_frame_determined<'a, S, T>(
    b: SubframeBehaviour<'a, S, T>,
    fb: FrameBehaviour<'a, S, T>,
    channels: usize,
    books: VqCodebooks,
    bytes: &'a [u8],
    header: DtsFrameHeader,
    was1: Carried<S>,
    was2: Carried<S>,
    r1: Result<(SubframePcm, usize), CoreFrameDecodeError>,
    r2: Result<(SubframePcm, usize), CoreFrameDecodeError>,
    now1: Carried<S>,
    now2: Carried<S>,
)
    requires
        b.one_reply(),
        fb.one_reply(),
        was1 == was2 || !header.predictor_history && was1.lfe == was2.lfe && forall|v: S, w: S|
         #[trigger]
            (fb.cleared)(was1.state, v) && #[trigger] (fb.cleared)(was2.state, w) ==> v == w,
        core_frame_decoded(b, fb, channels, books, bytes, header, was1, r1, now1),
        core_frame_decoded(b, fb, channels, books, bytes, header, was2, r2, now2),
    ensures
        same_result(r1, r2),
        begin_error(channels, bytes@, header) is None || was1 == was2 ==> now1 == now2,
{
    if begin_error(channels, bytes@, header) is None {
        let (f, s1) = choose|frame: CoreFrame<'a>, start: Carried<S>|
            {
                &&& frame.bytes == bytes
                &&& frame.header == header
                &&& frame.channels == channels
                &&& frame.books == books
                &&& frame.wf()
                &&& frame.starts(fb, was1, start)
                &&& #[trigger] frame.gives(b, fb, start, r1, now1)
            };
        let (g, s2) = choose|frame: CoreFrame<'a>, start: Carried<S>|
            {
                &&& frame.bytes == bytes
                &&& frame.header == header
                &&& frame.channels == channels
                &&& frame.books == books
                &&& frame.wf()
                &&& frame.starts(fb, was2, start)
                &&& #[trigger] frame.gives(b, fb, start, r2, now2)
            };
        lemma_override_codes_unique(
            frame_bytes(bytes@, header),
            header.blocks_per_frame,
            f.codes,
            g.codes,
        );
        assert(same_frame(f, g));
        if !header.predictor_history {
            assert((fb.cleared)(was1.state, s1.state));
            assert((fb.cleared)(was2.state, s2.state));
        }
        assert(s1 == s2);
        lemma_frame_determined(b, fb, f, g, s1, r1, r2, now1, now2);
    }
}

/// The function has one value for each sample and code.
pub open spec fn one_gain_value<F: Fn(i32, u8) -> i32>(f: F) -> bool {
    forall|x: i32, code: u8, v: i32, w: i32| #[trigger]
        f.ensures((x, code), v) && #[trigger] f.ensures((x, code), w) ==> v == w
}

impl<H, L, A, Q, P, U, M> SubframeWorkers<H, L, A, Q, P, U, M> {
    /// Each worker has one reply for each argument.
    pub open spec fn one_reply<S, T>(&self) -> bool where
        H: Fn(&[u8], usize, &SubframePlan) -> IndexReply,
        L: Fn(&S, &[u8], usize, u8, usize) -> LowReply<S>,
        A: Fn(&S, &[u8], usize, &AudioJob<'_>) -> AudioReply<S, T>,
        Q: Fn(&S, usize, &Vec<Vec<[T; 32]>>, &SubframePlan) -> SynthesisReply<S>,
        P: Fn(T, T) -> T,
        U: Fn(T, T) -> T,
        M: Fn(T, T) -> T,
     {
        &&& forall|
            a: (&[u8], usize, &SubframePlan),
            c: (&[u8], usize, &SubframePlan),
            v: IndexReply,
            w: IndexReply,
        |
            a.0 == c.0 && a.1 == c.1 && same_plan(*a.2, *c.2) && #[trigger] self.indices.ensures(
                a,
                v,
            ) && #[trigger] self.indices.ensures(c, w) ==> same_index_reply(v, w)
        &&& forall|a: (&S, &[u8], usize, u8, usize), v: LowReply<S>, w: LowReply<S>| #[trigger]
            self.low.ensures(a, v) && #[trigger] self.low.ensures(a, w) ==> same_low_reply(v, w)
        &&& forall|
            a: (&S, &[u8], usize, &AudioJob<'_>),
            c: (&S, &[u8], usize, &AudioJob<'_>),
            v: AudioReply<S, T>,
            w: AudioReply<S, T>,
        |
            *a.0 == *c.0 && a.1 == c.1 && a.2 == c.2 && same_job(*a.3, *c.3)
                && #[trigger] self.audio.ensures(a, v) && #[trigger] self.audio.ensures(c, w)
                ==> same_audio_reply(v, w)
        &&& forall|
            a: (&S, usize, &Vec<Vec<[T; 32]>>, &SubframePlan),
            c: (&S, usize, &Vec<Vec<[T; 32]>>, &SubframePlan),
            v: SynthesisReply<S>,
            w: SynthesisReply<S>,
        |
            *a.0 == *c.0 && a.1 == c.1 && same_cells(a.2@, c.2@) && same_plan(*a.3, *c.3)
                && #[trigger] self.synthesize.ensures(a, v) && #[trigger] self.synthesize.ensures(
                c,
                w,
            ) ==> same_synthesis_reply(v, w)
        &&& one_value(self.times)
        &&& one_value(self.plus)
        &&& one_value(self.minus)
    }

    /// Where each worker has one reply for each argument, so has what they may do,
    /// the mixing of subband samples counted in.
    pub proof fn lemma_one_reply<'a, S, T>(&self) where
        H: Fn(&[u8], usize, &SubframePlan) -> IndexReply,
        L: Fn(&S, &[u8], usize, u8, usize) -> LowReply<S>,
        A: Fn(&S, &[u8], usize, &AudioJob<'_>) -> AudioReply<S, T>,
        Q: Fn(&S, usize, &Vec<Vec<[T; 32]>>, &SubframePlan) -> SynthesisReply<S>,
        P: Fn(T, T) -> T,
        U: Fn(T, T) -> T,
        M: Fn(T, T) -> T,

        requires
            self.one_reply::<S, T>(),
        ensures
            self.behaviour::<'a, S, T>().one_reply(),
    {
        let b: SubframeBehaviour<'a, S, T> = self.behaviour::<'a, S, T>();
        assert forall|
            bytes: &'a [u8],
            at: usize,
            p: SubframePlan,
            q: SubframePlan,
            v: IndexReply,
            w: IndexReply,
        |
            same_plan(p, q) && #[trigger] (b.indices)(bytes, at, p, v)
                && #[trigger] (b.indices)(bytes, at, q, w) implies same_index_reply(v, w) by {
            assert(self.indices.ensures((bytes, at, &p), v));
            assert(self.indices.ensures((bytes, at, &q), w));
        }
        assert forall|
            s: S,
            bytes: &'a [u8],
            at: usize,
            lff: u8,
            n_ssc: usize,
            v: LowReply<S>,
            w: LowReply<S>,
        | #[trigger]
            (b.low)(s, bytes, at, lff, n_ssc, v) && #[trigger] (b.low)(
                s,
                bytes,
                at,
                lff,
                n_ssc,
                w,
            ) implies same_low_reply(v, w) by {
            assert(self.low.ensures((&s, bytes, at, lff, n_ssc), v));
            assert(self.low.ensures((&s, bytes, at, lff, n_ssc), w));
        }
        assert forall|
            s: S,
            bytes: &'a [u8],
            at: usize,
            j: AudioJob<'a>,
            k: AudioJob<'a>,
            v: AudioReply<S, T>,
            w: AudioReply<S, T>,
        |
            same_job(j, k) && #[trigger] (b.audio)(s, bytes, at, j, v) && #[trigger] (b.audio)(
                s,
                bytes,
                at,
                k,
                w,
            ) implies same_audio_reply(v, w) by {
            assert(self.audio.ensures((&s, bytes, at, &j), v));
            assert(self.audio.ensures((&s, bytes, at, &k), w));
        }
        assert forall|
            was1: Seq<Vec<[T; 32]>>,
            now1: Seq<Vec<[T; 32]>>,
            was2: Seq<Vec<[T; 32]>>,
            now2: Seq<Vec<[T; 32]>>,
            p: SubframePlan,
            q: SubframePlan,
            joinx: Seq<u8>,
            scales1: Seq<Vec<T>>,
            scales2: Seq<Vec<T>>,
        |
            {
                &&& same_cells(was1, was2)
                &&& same_plan(p, q)
                &&& same_factors(scales1, scales2)
                &&& mix_error(was1, p, joinx, scales1) is None
                &&& #[trigger] (b.mixed)(was1, now1, p, joinx, scales1)
                &&& #[trigger] (b.mixed)(was2, now2, q, joinx, scales2)
            } implies same_cells(now1, now2) by {
            law_mixing_is_determined(
                self.times,
                self.plus,
                self.minus,
                was1,
                now1,
                was2,
                now2,
                p,
                q,
                joinx,
                scales1,
                scales2,
            );
        }
        assert forall|
            s: S,
            channels: usize,
            m: Vec<Vec<[T; 32]>>,
            n: Vec<Vec<[T; 32]>>,
            p: SubframePlan,
            q: SubframePlan,
            v: SynthesisReply<S>,
            w: SynthesisReply<S>,
        |
            same_cells(m@, n@) && same_plan(p, q) && #[trigger] (b.synthesis)(
                s,
                channels,
                m,
                p,
                v,
            ) && #[trigger] (b.synthesis)(s, channels, n, q, w) implies same_synthesis_reply(
            v,
            w,
        ) by {
            assert(self.synthesize.ensures((&s, channels, &m, &p), v));
            assert(self.synthesize.ensures((&s, channels, &n, &q), w));
        }
    }
}

impl<W, I, E, C, G> FrameWorkers<W, I, E, C, G> {
    /// Each worker on the frame has one reply for each argument.
    pub open spec fn frame_one_reply<S, T>(&self) -> bool where
        I: Fn(&[u8], usize, &AudioCodingHeader) -> SideReply,
        E: Fn(&[u8], usize, &AudioCodingHeader, &DtsFrameHeader) -> TailReply<T>,
        C: Fn(&S) -> S,
        G: Fn(i32, u8) -> i32,
     {
        &&& forall|
            a: (&[u8], usize, &AudioCodingHeader),
            c: (&[u8], usize, &AudioCodingHeader),
            v: SideReply,
            w: SideReply,
        |
            a.0 == c.0 && a.1 == c.1 && a.2@ == c.2@
                && #[trigger] self.side_info.ensures(a, v) && #[trigger] self.side_info.ensures(
                c,
                w,
            ) ==> same_side_reply(v, w)
        &&& forall|
            a: (&[u8], usize, &AudioCodingHeader, &DtsFrameHeader),
            c: (&[u8], usize, &AudioCodingHeader, &DtsFrameHeader),
            v: TailReply<T>,
            w: TailReply<T>,
        |
            a.0 == c.0 && a.1 == c.1 && a.2@ == c.2@ && *a.3 == *c.3
                && #[trigger] self.tail.ensures(a, v) && #[trigger] self.tail.ensures(c, w)
                ==> same_tail_reply(v, w)
        &&& forall|a: (&S,), v: S, w: S| #[trigger]
            self.clear_history.ensures(a, v) && #[trigger] self.clear_history.ensures(a, w) ==> v
                == w
        &&& one_gain_value(self.gain)
    }

    /// Where each worker on the frame has one reply for each argument, so has what
    /// they may do.
    pub proof fn lemma_frame_one_reply<'a, S, T>(&self) where
        I: Fn(&[u8], usize, &AudioCodingHeader) -> SideReply,
        E: Fn(&[u8], usize, &AudioCodingHeader, &DtsFrameHeader) -> TailReply<T>,
        C: Fn(&S) -> S,
        G: Fn(i32, u8) -> i32,

        requires
            self.frame_one_reply::<S, T>(),
        ensures
            self.frame_behaviour::<'a, S, T>().one_reply(),
    {
        let fb: FrameBehaviour<'a, S, T> = self.frame_behaviour::<'a, S, T>();
        assert forall|
            bytes: &'a [u8],
            at: usize,
            c: AudioCodingHeader,
            d: AudioCodingHeader,
            v: SideReply,
            w: SideReply,
        |
            c@ == d@ && #[trigger] (fb.side_info)(bytes, at, c, v)
                && #[trigger] (fb.side_info)(bytes, at, d, w) implies same_side_reply(v, w) by {
            assert(self.side_info.ensures((bytes, at, &c), v));
            assert(self.side_info.ensures((bytes, at, &d), w));
        }
        assert forall|
            bytes: &'a [u8],
            at: usize,
            c: AudioCodingHeader,
            d: AudioCodingHeader,
            header: DtsFrameHeader,
            v: TailReply<T>,
            w: TailReply<T>,
        |
            c@ == d@ && #[trigger] (fb.tail)(bytes, at, c, header, v) && #[trigger] (fb.tail)(
                bytes,
                at,
                d,
                header,
                w,
            ) implies same_tail_reply(v, w) by {
            assert(self.tail.ensures((bytes, at, &c, &header), v));
            assert(self.tail.ensures((bytes, at, &d, &header), w));
        }
        assert forall|s: S, v: S, w: S| #[trigger]
            (fb.cleared)(s, v) && #[trigger] (fb.cleared)(s, w) implies v == w by {
            assert(self.clear_history.ensures((&s,), v));
            assert(self.clear_history.ensures((&s,), w));
        }
        assert forall|
            code: u8,
            was1: Seq<Vec<i32>>,
            now1: Seq<Vec<i32>>,
            was2: Seq<Vec<i32>>,
            now2: Seq<Vec<i32>>,
        |
            planes(was1) == planes(was2) && #[trigger] (fb.gained)(code, was1, now1)
                && #[trigger] (fb.gained)(code, was2, now2) implies planes(now1) == planes(
            now2,
        ) by {
            lemma_gain_determined(self.gain, code, was1, now1, was2, now2);
        }
        assert forall|
            codes: Seq<u8>,
            was1: Seq<Vec<i32>>,
            now1: Seq<Vec<i32>>,
            was2: Seq<Vec<i32>>,
            now2: Seq<Vec<i32>>,
        |
            planes(was1) == planes(was2) && #[trigger] (fb.scaled)(codes, was1, now1)
                && #[trigger] (fb.scaled)(codes, was2, now2) implies planes(now1) == planes(
            now2,
        ) by {
            lemma_windows_determined(self.gain, codes, was1, now1, was2, now2);
        }
    }
}

/// One gain on the same samples gives the same samples.
proof fn lemma_gain_determined<G: Fn(i32, u8) -> i32>(
    gain: G,
    code: u8,
    was1: Seq<Vec<i32>>,
    now1: Seq<Vec<i32>>,
    was2: Seq<Vec<i32>>,
    now2: Seq<Vec<i32>>,
)
    requires
        one_gain_value(gain),
        planes(was1) == planes(was2),
        gained(gain, code, was1, now1),
        gained(gain, code, was2, now2),
    ensures
        planes(now1) == planes(now2),
{
    assert(planes(was1).len() == was1.len() && planes(was2).len() == was2.len());
    assert forall|ch: int| 0 <= ch < now1.len() implies now1[ch]@ == now2[ch]@ by {
        assert(planes(was1)[ch] == planes(was2)[ch]);
        assert(plane_gained(gain, code, was1[ch]@, now1[ch]@));
        assert(plane_gained(gain, code, was2[ch]@, now2[ch]@));
        assert forall|i: int| 0 <= i < now1[ch]@.len() implies now1[ch]@[i] == now2[ch]@[i] by {
            assert(gain.ensures((was1[ch]@[i], code), now1[ch]@[i]));
            assert(gain.ensures((was1[ch]@[i], code), now2[ch]@[i]));
        }
        assert(now1[ch]@ =~= now2[ch]@);
    }
    assert(planes(now1) =~= planes(now2));
}

/// The gains of windows on the same samples give the same samples.
proof fn lemma_windows_determined<G: Fn(i32, u8) -> i32>(
    gain: G,
    codes: Seq<u8>,
    was1: Seq<Vec<i32>>,
    now1: Seq<Vec<i32>>,
    was2: Seq<Vec<i32>>,
    now2: Seq<Vec<i32>>,
)
    requires
        one_gain_value(gain),
        planes(was1) == planes(was2),
        windows_scaled(gain, codes, was1, now1),
        windows_scaled(gain, codes, was2, now2),
    ensures
        planes(now1) == planes(now2),
{
    assert(planes(was1).len() == was1.len() && planes(was2).len() == was2.len());
    assert forall|ch: int| 0 <= ch < now1.len() implies now1[ch]@ == now2[ch]@ by {
        let was: Seq<i32> = was1[ch]@;
        assert(planes(was1)[ch] == planes(was2)[ch]);
        assert(plane_scaled(gain, codes, was, now1[ch]@));
        assert(plane_scaled(gain, codes, was, now2[ch]@));
        if splits(was.len(), codes.len()) {
            let window: int = (was.len() / codes.len()) as int;
            assert forall|i: int| 0 <= i < was.len() implies now1[ch]@[i] == now2[ch]@[i] by {
                assert(gain.ensures((was[i], codes[i / window]), now1[ch]@[i]));
                assert(gain.ensures((was[i], codes[i / window]), now2[ch]@[i]));
            }
            assert(now1[ch]@ =~= now2[ch]@);
        }
    }
    assert(planes(now1) =~= planes(now2));
}

} // verus!
