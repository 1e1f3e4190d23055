//! Laws on the mixing of subband samples: it keeps the shape, and where the
//! arithmetic has one result, so has the mixing.

use crate::subband_mix::{
    cell, factors_of, first_misfit, joint_fits, joint_import, joint_imports, joint_stage,
    joint_trace, mix_error, mixed, pair_error, pair_fits, pair_stage, same_shape,
};
use crate::subframe_pcm::{SubframePcmError, SubframePlan};
use vstd::prelude::*;

verus! {

/// Both have the same samples.
pub open spec fn same_cells<T>(a: Seq<Vec<[T; 32]>>, b: Seq<Vec<[T; 32]>>) -> bool {
    &&& same_shape(a, b)
    &&& forall|ch: int, row: int, n: int|
        0 <= ch < a.len() && 0 <= row < a[ch]@.len() && 0 <= n < 32 ==> #[trigger] cell(
            a,
            ch,
            row,
            n,
        ) == cell(b, ch, row, n)
}

/// Both have the same joint scale factors.
pub open spec fn same_factors<T>(a: Seq<Vec<T>>, b: Seq<Vec<T>>) -> bool {
    &&& a.len() == b.len()
    &&& forall|ch: int| 0 <= ch < a.len() ==> (#[trigger] a[ch])@ == b[ch]@
}

/// Both plans say the same.
pub open spec fn same_plan(a: SubframePlan, b: SubframePlan) -> bool {
    &&& a.rows == b.rows
    &&& a.scan_hf_vq == b.scan_hf_vq
    &&& a.lff == b.lff
    &&& a.n_vqsub@ == b.n_vqsub@
    &&& a.n_subs@ == b.n_subs@
    &&& a.synthesis_subs@ == b.synthesis_subs@
    &&& a.front == b.front
    &&& a.surround == b.surround
    &&& a.filter == b.filter
    &&& a.source_bits == b.source_bits
}

/// The function has one value for each pair of arguments.
pub open spec fn one_value<T, F: Fn(T, T) -> T>(f: F) -> bool {
    forall|x: T, y: T, v: T, w: T| #[trigger]
        f.ensures((x, y), v) && #[trigger] f.ensures((x, y), w) ==> v == w
}

/// Samples that are the same have the same shape as whatever one of them has.
proof fn lemma_shapes<T>(a: Seq<Vec<[T; 32]>>, b: Seq<Vec<[T; 32]>>, c: Seq<Vec<[T; 32]>>)
    requires
        same_shape(a, b),
        same_shape(a, c),
    ensures
        same_shape(b, c),
        same_shape(c, b),
{
    assert forall|ch: int| 0 <= ch < b.len() implies (#[trigger] b[ch])@.len() == c[ch]@.len() by {
        assert(a[ch]@.len() == b[ch]@.len());
    }
    assert forall|ch: int| 0 <= ch < c.len() implies (#[trigger] c[ch])@.len() == b[ch]@.len() by {
        assert(a[ch]@.len() == b[ch]@.len());
    }
}

/// A joint import keeps the shape.
proof fn lemma_import_keeps_shape<T, P: Fn(T, T) -> T>(
    times: P,
    was: Seq<Vec<[T; 32]>>,
    now: Seq<Vec<[T; 32]>>,
    joinx: Seq<u8>,
    n_subs: Seq<usize>,
    scales: Seq<Vec<T>>,
    ch: int,
)
    requires
        joint_import(times, was, now, joinx, n_subs, scales, ch),
    ensures
        same_shape(was, now),
{
}

/// Joint imports keep the shape.
proof fn lemma_trace_keeps_shape<T, P: Fn(T, T) -> T>(
    times: P,
    trace: Seq<Seq<Vec<[T; 32]>>>,
    joinx: Seq<u8>,
    n_subs: Seq<usize>,
    scales: Seq<Vec<T>>,
    count: int,
)
    requires
        joint_trace(times, trace, joinx, n_subs, scales),
        0 <= count < trace.len(),
    ensures
        same_shape(trace[0], trace[count]),
    decreases count,
{
    if count > 0 {
        lemma_trace_keeps_shape(times, trace, joinx, n_subs, scales, count - 1);
        let before: Seq<Vec<[T; 32]>> = trace[count - 1];
        assert(joint_import(times, before, trace[count], joinx, n_subs, scales, count - 1));
        lemma_import_keeps_shape(times, before, trace[count], joinx, n_subs, scales, count - 1);
        assert(same_shape(before, trace[0]));
        lemma_shapes(before, trace[0], trace[count]);
    }
}

/// The first stage of the mixing keeps the shape.
proof fn lemma_joint_stage_keeps_shape<T, P: Fn(T, T) -> T>(
    times: P,
    was: Seq<Vec<[T; 32]>>,
    now: Seq<Vec<[T; 32]>>,
    plan: SubframePlan,
    joinx: Seq<u8>,
    scales: Seq<Vec<T>>,
)
    requires
        joint_stage(times, was, now, plan, joinx, scales),
    ensures
        same_shape(was, now),
{
    if scales.len() > 0 {
        let count: int = was.len() as int;
        let trace = choose|trace: Seq<Seq<Vec<[T; 32]>>>|
            {
                &&& #[trigger] joint_trace(times, trace, joinx, plan.n_subs@, scales)
                &&& trace.len() == count + 1
                &&& trace[0] == was
                &&& trace[count] == now
            };
        assert(joint_imports(times, was, now, joinx, plan.n_subs@, scales, count));
        lemma_trace_keeps_shape(times, trace, joinx, plan.n_subs@, scales, count);
    }
}

/// Mixing keeps the number of channels and of their rows.
pub proof fn law_mixing_keeps_the_shape<T, P: Fn(T, T) -> T, A: Fn(T, T) -> T, S: Fn(T, T) -> T>(
    times: P,
    plus: A,
    minus: S,
    was: Seq<Vec<[T; 32]>>,
    now: Seq<Vec<[T; 32]>>,
    plan: SubframePlan,
    joinx: Seq<u8>,
    scales: Seq<Vec<T>>,
)
    requires
        mixed(times, plus, minus, was, now, plan, joinx, scales),
    ensures
        same_shape(was, now),
{
    let (m1, m2) = choose|m1: Seq<Vec<[T; 32]>>, m2: Seq<Vec<[T; 32]>>|
        {
            &&& #[trigger] joint_stage(times, was, m1, plan, joinx, scales)
            &&& #[trigger] pair_stage(plus, minus, m1, m2, plan.front, plan.synthesis_subs@)
            &&& pair_stage(plus, minus, m2, now, plan.surround, plan.synthesis_subs@)
        };
    lemma_joint_stage_keeps_shape(times, was, m1, plan, joinx, scales);
    assert(same_shape(m1, m2));
    assert(same_shape(m2, now));
    assert(same_shape(m1, was));
    lemma_shapes(m1, was, m2);
    assert(same_shape(m2, was));
    lemma_shapes(m2, was, now);
}

/// A joint import of the same samples gives the same samples.
proof fn lemma_import_determined<T, P: Fn(T, T) -> T>(
    times: P,
    was1: Seq<Vec<[T; 32]>>,
    now1: Seq<Vec<[T; 32]>>,
    was2: Seq<Vec<[T; 32]>>,
    now2: Seq<Vec<[T; 32]>>,
    joinx: Seq<u8>,
    n_subs: Seq<usize>,
    scales1: Seq<Vec<T>>,
    scales2: Seq<Vec<T>>,
    ch: int,
)
    requires
        one_value(times),
        same_cells(was1, was2),
        same_factors(scales1, scales2),
        0 <= ch < was1.len(),
        joint_fits(was1, joinx, n_subs, scales1, ch),
        joint_import(times, was1, now1, joinx, n_subs, scales1, ch),
        joint_import(times, was2, now2, joinx, n_subs, scales2, ch),
    ensures
        same_cells(now1, now2),
{
    assert(factors_of(scales1, ch) == factors_of(scales2, ch));
    lemma_import_keeps_shape(times, was1, now1, joinx, n_subs, scales1, ch);
    lemma_import_keeps_shape(times, was2, now2, joinx, n_subs, scales2, ch);
    lemma_shapes(was1, was2, now1);
    lemma_shapes(was2, now2, now1);
    assert forall|c: int, row: int, n: int|
        0 <= c < now1.len() && 0 <= row < now1[c]@.len() && 0 <= n < 32 implies #[trigger] cell(
        now1,
        c,
        row,
        n,
    ) == cell(now2, c, row, n) by {
        assert(was1[c]@.len() == now1[c]@.len());
        assert(was1[c]@.len() == was2[c]@.len());
        assert(cell(was1, c, row, n) == cell(was2, c, row, n));
        let source: int = crate::subband_mix::source_code(joinx, ch) - 1;
        if factors_of(scales1, ch).len() > 0 {
            let k: int = n - n_subs[ch];
            if c == ch && 0 <= k < factors_of(scales1, ch).len() {
                assert(was1[source]@.len() == was1[ch]@.len());
                assert(cell(was1, source, row, n) == cell(was2, source, row, n));
                assert(was1[ch]@.len() == was2[ch]@.len());
                assert(times.ensures(
                    (factors_of(scales1, ch)[k], cell(was1, source, row, n)),
                    cell(now1, c, row, n),
                ));
                assert(times.ensures(
                    (factors_of(scales1, ch)[k], cell(was1, source, row, n)),
                    cell(now2, c, row, n),
                ));
            } else {
                assert(cell(now1, c, row, n) == cell(was1, c, row, n));
                assert(cell(now2, c, row, n) == cell(was2, c, row, n));
            }
        }
    }
}

/// Whether factors fit depends on the shape alone.
proof fn lemma_fits_same<T>(
    m1: Seq<Vec<[T; 32]>>,
    m2: Seq<Vec<[T; 32]>>,
    joinx: Seq<u8>,
    n_subs: Seq<usize>,
    scales1: Seq<Vec<T>>,
    scales2: Seq<Vec<T>>,
    ch: int,
)
    requires
        same_shape(m1, m2),
        same_factors(scales1, scales2),
        0 <= ch < m1.len(),
    ensures
        joint_fits(m1, joinx, n_subs, scales1, ch) == joint_fits(
            m2,
            joinx,
            n_subs,
            scales2,
            ch,
        ),
{
    let source: int = crate::subband_mix::source_code(joinx, ch) - 1;
    assert(factors_of(scales1, ch) == factors_of(scales2, ch));
    assert(m1[ch]@.len() == m2[ch]@.len());
    if 0 <= source < m1.len() {
        assert(m1[source]@.len() == m2[source]@.len());
    }
}

/// Behind a search without a misfit every channel fits.
proof fn lemma_no_misfit<T>(
    m: Seq<Vec<[T; 32]>>,
    joinx: Seq<u8>,
    n_subs: Seq<usize>,
    scales: Seq<Vec<T>>,
    from: int,
    ch: int,
)
    requires
        first_misfit(m, joinx, n_subs, scales, from) is None,
        from <= ch < m.len(),
    ensures
        joint_fits(m, joinx, n_subs, scales, ch),
    decreases ch - from,
{
    if from < ch {
        lemma_no_misfit(m, joinx, n_subs, scales, from + 1, ch);
    }
}

/// The first misfit depends on the shape alone.
proof fn lemma_misfit_same<T>(
    m1: Seq<Vec<[T; 32]>>,
    m2: Seq<Vec<[T; 32]>>,
    joinx: Seq<u8>,
    n_subs: Seq<usize>,
    scales1: Seq<Vec<T>>,
    scales2: Seq<Vec<T>>,
    from: int,
)
    requires
        same_shape(m1, m2),
        same_factors(scales1, scales2),
        0 <= from,
    ensures
        first_misfit(m1, joinx, n_subs, scales1, from) == first_misfit(
            m2,
            joinx,
            n_subs,
            scales2,
            from,
        ),
    decreases m1.len() - from,
{
    if from < m1.len() {
        lemma_fits_same(m1, m2, joinx, n_subs, scales1, scales2, from);
        lemma_misfit_same(m1, m2, joinx, n_subs, scales1, scales2, from + 1);
    }
}

/// Whether subband samples can be mixed depends on their shape, the plan and the
/// numbers of factors alone.
pub proof fn law_mix_error_depends_on_the_shape<T>(
    m1: Seq<Vec<[T; 32]>>,
    m2: Seq<Vec<[T; 32]>>,
    plan1: SubframePlan,
    plan2: SubframePlan,
    joinx: Seq<u8>,
    scales1: Seq<Vec<T>>,
    scales2: Seq<Vec<T>>,
)
    requires
        same_shape(m1, m2),
        same_plan(plan1, plan2),
        same_factors(scales1, scales2),
    ensures
        mix_error(m1, plan1, joinx, scales1) == mix_error(m2, plan2, joinx, scales2),
{
    lemma_misfit_same(m1, m2, joinx, plan1.n_subs@, scales1, scales2, 0);
    lemma_pair_error_same(m1, m2, plan1.front, plan1.synthesis_subs@);
    lemma_pair_error_same(m1, m2, plan1.surround, plan1.synthesis_subs@);
}

/// Whether a pair can be mixed depends on the shape alone.
proof fn lemma_pair_error_same<T>(
    m1: Seq<Vec<[T; 32]>>,
    m2: Seq<Vec<[T; 32]>>,
    pair: Option<(usize, usize)>,
    n_subs: Seq<usize>,
)
    requires
        same_shape(m1, m2),
    ensures
        pair_error(m1, pair, n_subs) == pair_error(m2, pair, n_subs),
{
    if let Some((l, r)) = pair {
        if l < m1.len() && r < m1.len() {
            assert(m1[l as int]@.len() == m2[l as int]@.len());
            assert(m1[r as int]@.len() == m2[r as int]@.len());
        }
    }
}

/// The joint imports of the same samples give the same samples.
proof fn lemma_trace_determined<T, P: Fn(T, T) -> T>(
    times: P,
    trace1: Seq<Seq<Vec<[T; 32]>>>,
    trace2: Seq<Seq<Vec<[T; 32]>>>,
    joinx: Seq<u8>,
    n_subs: Seq<usize>,
    scales1: Seq<Vec<T>>,
    scales2: Seq<Vec<T>>,
    count: int,
)
    requires
        one_value(times),
        same_factors(scales1, scales2),
        joint_trace(times, trace1, joinx, n_subs, scales1),
        joint_trace(times, trace2, joinx, n_subs, scales2),
        0 <= count < trace1.len(),
        trace2.len() == trace1.len(),
        trace1.len() == trace1[0].len() + 1,
        same_cells(trace1[0], trace2[0]),
        first_misfit(trace1[0], joinx, n_subs, scales1, 0) is None,
    ensures
        same_cells(trace1[count], trace2[count]),
    decreases count,
{
    if count > 0 {
        let ch: int = count - 1;
        lemma_trace_determined(times, trace1, trace2, joinx, n_subs, scales1, scales2, ch);
        lemma_trace_keeps_shape(times, trace1, joinx, n_subs, scales1, ch);
        lemma_no_misfit(trace1[0], joinx, n_subs, scales1, 0, ch);
        lemma_fits_same(trace1[0], trace1[ch], joinx, n_subs, scales1, scales1, ch);
        assert(joint_import(times, trace1[ch], trace1[ch + 1], joinx, n_subs, scales1, ch));
        assert(joint_import(times, trace2[ch], trace2[ch + 1], joinx, n_subs, scales2, ch));
        lemma_import_determined(
            times,
            trace1[ch],
            trace1[count],
            trace2[ch],
            trace2[count],
            joinx,
            n_subs,
            scales1,
            scales2,
            ch,
        );
    }
}

/// The first stage of the mixing of the same samples gives the same samples.
proof fn lemma_joint_stage_determined<T, P: Fn(T, T) -> T>(
    times: P,
    was1: Seq<Vec<[T; 32]>>,
    now1: Seq<Vec<[T; 32]>>,
    was2: Seq<Vec<[T; 32]>>,
    now2: Seq<Vec<[T; 32]>>,
    plan1: SubframePlan,
    plan2: SubframePlan,
    joinx: Seq<u8>,
    scales1: Seq<Vec<T>>,
    scales2: Seq<Vec<T>>,
)
    requires
        one_value(times),
        same_cells(was1, was2),
        same_plan(plan1, plan2),
        same_factors(scales1, scales2),
        scales1.len() > 0 ==> first_misfit(was1, joinx, plan1.n_subs@, scales1, 0) is None,
        joint_stage(times, was1, now1, plan1, joinx, scales1),
        joint_stage(times, was2, now2, plan2, joinx, scales2),
    ensures
        same_cells(now1, now2),
{
    if scales1.len() > 0 {
        let count: int = was1.len() as int;
        let n_subs: Seq<usize> = plan1.n_subs@;
        assert(joint_imports(times, was1, now1, joinx, n_subs, scales1, count));
        assert(joint_imports(times, was2, now2, joinx, n_subs, scales2, count));
        let trace1 = choose|trace: Seq<Seq<Vec<[T; 32]>>>|
            {
                &&& #[trigger] joint_trace(times, trace, joinx, n_subs, scales1)
                &&& trace.len() == count + 1
                &&& trace[0] == was1
                &&& trace[count] == now1
            };
        let trace2 = choose|trace: Seq<Seq<Vec<[T; 32]>>>|
            {
                &&& #[trigger] joint_trace(times, trace, joinx, n_subs, scales2)
                &&& trace.len() == count + 1
                &&& trace[0] == was2
                &&& trace[count] == now2
            };
        lemma_trace_determined(times, trace1, trace2, joinx, n_subs, scales1, scales2, count);
    }
}

/// The sum and difference of the same samples are the same.
proof fn lemma_pair_stage_determined<T, A: Fn(T, T) -> T, S: Fn(T, T) -> T>(
    plus: A,
    minus: S,
    was1: Seq<Vec<[T; 32]>>,
    now1: Seq<Vec<[T; 32]>>,
    was2: Seq<Vec<[T; 32]>>,
    now2: Seq<Vec<[T; 32]>>,
    pair: Option<(usize, usize)>,
    n_subs: Seq<usize>,
)
    requires
        one_value(plus),
        one_value(minus),
        same_cells(was1, was2),
        pair_error(was1, pair, n_subs) is None,
        pair_stage(plus, minus, was1, now1, pair, n_subs),
        pair_stage(plus, minus, was2, now2, pair, n_subs),
    ensures
        same_cells(now1, now2),
{
    if let Some((left, right)) = pair {
        let l: int = left as int;
        let r: int = right as int;
        assert(pair_fits(was1, l, r, n_subs));
        assert(same_shape(was1, now1) && same_shape(was2, now2));
        lemma_shapes(was1, was2, now1);
        lemma_shapes(was2, now2, now1);
        assert(was1[l]@.len() == was2[l]@.len());
        assert forall|c: int, row: int, n: int|
            0 <= c < now1.len() && 0 <= row < now1[c]@.len() && 0 <= n
                < 32 implies #[trigger] cell(now1, c, row, n) == cell(now2, c, row, n) by {
            assert(was1[c]@.len() == now1[c]@.len());
            assert(was1[c]@.len() == was2[c]@.len());
            assert(cell(was1, c, row, n) == cell(was2, c, row, n));
            let shared: int = crate::subband_mix::shared_subs(n_subs, l, r);
            if n < shared && (c == l || c == r) {
                assert(was1[l]@.len() == was1[r]@.len());
                assert(cell(was1, l, row, n) == cell(was2, l, row, n));
                assert(cell(was1, r, row, n) == cell(was2, r, row, n));
                let x: T = cell(was1, l, row, n);
                let y: T = cell(was1, r, row, n);
                if c == l {
                    assert(plus.ensures((x, y), cell(now1, c, row, n)));
                    assert(plus.ensures((x, y), cell(now2, c, row, n)));
                } else {
                    assert(minus.ensures((x, y), cell(now1, c, row, n)));
                    assert(minus.ensures((x, y), cell(now2, c, row, n)));
                }
            } else {
                assert(cell(now1, c, row, n) == cell(was1, c, row, n));
                assert(cell(now2, c, row, n) == cell(was2, c, row, n));
            }
        }
    }
}

/// Where the arithmetic has one result for each pair of samples, the mixing of the
/// same samples by the same plan gives the same samples.
pub proof fn law_mixing_is_determined<T, P: Fn(T, T) -> T, A: Fn(T, T) -> T, S: Fn(T, T) -> T>(
    times: P,
    plus: A,
    minus: S,
    was1: Seq<Vec<[T; 32]>>,
    now1: Seq<Vec<[T; 32]>>,
    was2: Seq<Vec<[T; 32]>>,
    now2: Seq<Vec<[T; 32]>>,
    plan1: SubframePlan,
    plan2: SubframePlan,
    joinx: Seq<u8>,
    scales1: Seq<Vec<T>>,
    scales2: Seq<Vec<T>>,
)
    requires
        one_value(times),
        one_value(plus),
        one_value(minus),
        same_cells(was1, was2),
        same_plan(plan1, plan2),
        same_factors(scales1, scales2),
        mix_error(was1, plan1, joinx, scales1) is None,
        mixed(times, plus, minus, was1, now1, plan1, joinx, scales1),
        mixed(times, plus, minus, was2, now2, plan2, joinx, scales2),
    ensures
        same_cells(now1, now2),
{
    let subs: Seq<usize> = plan1.synthesis_subs@;
    let (a1, a2) = choose|m1: Seq<Vec<[T; 32]>>, m2: Seq<Vec<[T; 32]>>|
        {
            &&& #[trigger] joint_stage(times, was1, m1, plan1, joinx, scales1)
            &&& #[trigger] pair_stage(plus, minus, m1, m2, plan1.front, subs)
            &&& pair_stage(plus, minus, m2, now1, plan1.surround, subs)
        };
    let (b1, b2) = choose|m1: Seq<Vec<[T; 32]>>, m2: Seq<Vec<[T; 32]>>|
        {
            &&& #[trigger] joint_stage(times, was2, m1, plan2, joinx, scales2)
            &&& #[trigger] pair_stage(plus, minus, m1, m2, plan2.front, subs)
            &&& pair_stage(plus, minus, m2, now2, plan2.surround, subs)
        };
    lemma_joint_stage_determined(
        times,
        was1,
        a1,
        was2,
        b1,
        plan1,
        plan2,
        joinx,
        scales1,
        scales2,
    );
    lemma_joint_stage_keeps_shape(times, was1, a1, plan1, joinx, scales1);
    lemma_pair_error_same(was1, a1, plan1.front, subs);
    lemma_pair_error_same(was1, a1, plan1.surround, subs);
    lemma_pair_stage_determined(plus, minus, a1, a2, b1, b2, plan1.front, subs);
    assert(same_shape(a1, a2));
    lemma_pair_error_same(a1, a2, plan1.surround, subs);
    lemma_pair_stage_determined(plus, minus, a2, now1, b2, now2, plan1.surround, subs);
}

/// Joint imports leave a channel without factors, and before its own turn every
/// channel.
proof fn lemma_trace_leaves<T, P: Fn(T, T) -> T>(
    times: P,
    trace: Seq<Seq<Vec<[T; 32]>>>,
    joinx: Seq<u8>,
    n_subs: Seq<usize>,
    scales: Seq<Vec<T>>,
    from: int,
    to: int,
    c: int,
    row: int,
    n: int,
)
    requires
        joint_trace(times, trace, joinx, n_subs, scales),
        0 <= from <= to < trace.len(),
        0 <= c < trace[0].len(),
        0 <= row < trace[0][c]@.len(),
        0 <= n < 32,
        from <= c < to ==> factors_of(scales, c).len() == 0,
    ensures
        trace[to][c]@[row]@[n] == trace[from][c]@[row]@[n],
    decreases to - from,
{
    if from < to {
        let ch: int = to - 1;
        lemma_trace_leaves(times, trace, joinx, n_subs, scales, from, ch, c, row, n);
        lemma_trace_keeps_shape(times, trace, joinx, n_subs, scales, ch);
        assert(trace[0][c]@.len() == trace[ch][c]@.len());
        assert(joint_import(times, trace[ch], trace[ch + 1], joinx, n_subs, scales, ch));
        if ch != c {
            if factors_of(scales, ch).len() > 0 {
                assert(cell(trace[to], c, row, n) == cell(trace[ch], c, row, n));
            }
        }
    }
}

/// The joint imports leave a channel without factors.
proof fn lemma_joint_stage_leaves<T, P: Fn(T, T) -> T>(
    times: P,
    was: Seq<Vec<[T; 32]>>,
    now: Seq<Vec<[T; 32]>>,
    plan: SubframePlan,
    joinx: Seq<u8>,
    scales: Seq<Vec<T>>,
    c: int,
    row: int,
    n: int,
)
    requires
        joint_stage(times, was, now, plan, joinx, scales),
        0 <= c < was.len(),
        0 <= row < was[c]@.len(),
        0 <= n < 32,
        c < scales.len() ==> scales[c]@.len() == 0,
    ensures
        now[c]@[row]@[n] == was[c]@[row]@[n],
{
    if scales.len() > 0 {
        let count: int = was.len() as int;
        assert(joint_imports(times, was, now, joinx, plan.n_subs@, scales, count));
        let trace = choose|trace: Seq<Seq<Vec<[T; 32]>>>|
            {
                &&& #[trigger] joint_trace(times, trace, joinx, plan.n_subs@, scales)
                &&& trace.len() == count + 1
                &&& trace[0] == was
                &&& trace[count] == now
            };
        lemma_trace_leaves(times, trace, joinx, plan.n_subs@, scales, 0, count, c, row, n);
    }
}

/// A pair leaves the channels that are not in it.
proof fn lemma_pair_stage_leaves<T, A: Fn(T, T) -> T, S: Fn(T, T) -> T>(
    plus: A,
    minus: S,
    was: Seq<Vec<[T; 32]>>,
    now: Seq<Vec<[T; 32]>>,
    pair: Option<(usize, usize)>,
    n_subs: Seq<usize>,
    c: int,
    row: int,
    n: int,
)
    requires
        pair_stage(plus, minus, was, now, pair, n_subs),
        0 <= c < was.len(),
        0 <= row < was[c]@.len(),
        0 <= n < 32,
        pair matches Some((l, r)) ==> c != l && c != r || n >= n_subs[l as int] || n
            >= n_subs[r as int],
        pair matches Some((l, r)) ==> l < n_subs.len() && r < n_subs.len(),
    ensures
        now[c]@[row]@[n] == was[c]@[row]@[n],
{
    if let Some((l, r)) = pair {
        assert(cell(now, c, row, n) == cell(was, c, row, n));
    }
}

/// A pair becomes its sum and its difference.
proof fn lemma_pair_stage_mixes<T, A: Fn(T, T) -> T, S: Fn(T, T) -> T>(
    plus: A,
    minus: S,
    was: Seq<Vec<[T; 32]>>,
    now: Seq<Vec<[T; 32]>>,
    l: usize,
    r: usize,
    n_subs: Seq<usize>,
    row: int,
    n: int,
)
    requires
        pair_stage(plus, minus, was, now, Some((l, r)), n_subs),
        l < was.len(),
        r < was.len(),
        l != r,
        0 <= row < was[l as int]@.len(),
        was[l as int]@.len() == was[r as int]@.len(),
        l < n_subs.len(),
        r < n_subs.len(),
        0 <= n < 32,
        n < n_subs[l as int],
        n < n_subs[r as int],
    ensures
        plus.ensures(
            (was[l as int]@[row]@[n], was[r as int]@[row]@[n]),
            now[l as int]@[row]@[n],
        ),
        minus.ensures(
            (was[l as int]@[row]@[n], was[r as int]@[row]@[n]),
            now[r as int]@[row]@[n],
        ),
{
    let shared: int = crate::subband_mix::shared_subs(n_subs, l as int, r as int);
    assert(n < shared);
    assert(plus.ensures(
        (cell(was, l as int, row, n), cell(was, r as int, row, n)),
        cell(now, l as int, row, n),
    ));
    assert(minus.ensures(
        (cell(was, l as int, row, n), cell(was, r as int, row, n)),
        cell(now, r as int, row, n),
    ));
}

/// The stages of the mixing of one sample of the channels of a pair, where both have
/// no factors.
proof fn lemma_stages<T, P: Fn(T, T) -> T, A: Fn(T, T) -> T, S: Fn(T, T) -> T>(
    times: P,
    plus: A,
    minus: S,
    was: Seq<Vec<[T; 32]>>,
    now: Seq<Vec<[T; 32]>>,
    plan: SubframePlan,
    joinx: Seq<u8>,
    scales: Seq<Vec<T>>,
) -> (stages: (Seq<Vec<[T; 32]>>, Seq<Vec<[T; 32]>>))
    requires
        mixed(times, plus, minus, was, now, plan, joinx, scales),
    ensures
        joint_stage(times, was, stages.0, plan, joinx, scales),
        pair_stage(plus, minus, stages.0, stages.1, plan.front, plan.synthesis_subs@),
        pair_stage(plus, minus, stages.1, now, plan.surround, plan.synthesis_subs@),
        same_shape(was, stages.0),
        same_shape(was, stages.1),
        same_shape(was, now),
{
    let (m1, m2) = choose|m1: Seq<Vec<[T; 32]>>, m2: Seq<Vec<[T; 32]>>|
        {
            &&& #[trigger] joint_stage(times, was, m1, plan, joinx, scales)
            &&& #[trigger] pair_stage(plus, minus, m1, m2, plan.front, plan.synthesis_subs@)
            &&& pair_stage(plus, minus, m2, now, plan.surround, plan.synthesis_subs@)
        };
    lemma_joint_stage_keeps_shape(times, was, m1, plan, joinx, scales);
    law_mixing_keeps_the_shape(times, plus, minus, was, now, plan, joinx, scales);
    assert(same_shape(m1, m2));
    assert(same_shape(m1, was));
    lemma_shapes(m1, was, m2);
    (m1, m2)
}

/// Mixing makes of the front pair, where none of its channels is jointly coded or in
/// the surround pair: of the left channel the sum of left and right, of the right
/// channel the difference left minus right, in every row and every subband that both
/// have.
pub proof fn law_front_pair_becomes_sum_and_difference<
    T,
    P: Fn(T, T) -> T,
    A: Fn(T, T) -> T,
    S: Fn(T, T) -> T,
>(
    times: P,
    plus: A,
    minus: S,
    was: Seq<Vec<[T; 32]>>,
    now: Seq<Vec<[T; 32]>>,
    plan: SubframePlan,
    joinx: Seq<u8>,
    scales: Seq<Vec<T>>,
    l: usize,
    r: usize,
    row: int,
    n: int,
)
    requires
        mixed(times, plus, minus, was, now, plan, joinx, scales),
        plan.front == Some((l, r)),
        plan.surround matches Some((x, y)) ==> x != l && x != r && y != l && y != r && x
            < plan.synthesis_subs@.len() && y < plan.synthesis_subs@.len(),
        l < scales.len() ==> scales[l as int]@.len() == 0,
        r < scales.len() ==> scales[r as int]@.len() == 0,
        l < was.len(),
        r < was.len(),
        l != r,
        was[l as int]@.len() == was[r as int]@.len(),
        0 <= row < was[l as int]@.len(),
        l < plan.synthesis_subs@.len(),
        r < plan.synthesis_subs@.len(),
        0 <= n < 32,
        n < plan.synthesis_subs@[l as int],
        n < plan.synthesis_subs@[r as int],
    ensures
        plus.ensures(
            (was[l as int]@[row]@[n], was[r as int]@[row]@[n]),
            now[l as int]@[row]@[n],
        ),
        minus.ensures(
            (was[l as int]@[row]@[n], was[r as int]@[row]@[n]),
            now[r as int]@[row]@[n],
        ),
{
    let (m1, m2) = lemma_stages(times, plus, minus, was, now, plan, joinx, scales);
    let subs: Seq<usize> = plan.synthesis_subs@;
    assert(was[l as int]@.len() == m1[l as int]@.len() && was[r as int]@.len()
        == m1[r as int]@.len());
    assert(was[l as int]@.len() == m2[l as int]@.len() && was[r as int]@.len()
        == m2[r as int]@.len());
    lemma_joint_stage_leaves(times, was, m1, plan, joinx, scales, l as int, row, n);
    lemma_joint_stage_leaves(times, was, m1, plan, joinx, scales, r as int, row, n);
    lemma_pair_stage_mixes(plus, minus, m1, m2, l, r, subs, row, n);
    lemma_pair_stage_leaves(plus, minus, m2, now, plan.surround, subs, l as int, row, n);
    lemma_pair_stage_leaves(plus, minus, m2, now, plan.surround, subs, r as int, row, n);
}

/// Mixing makes of the surround pair, where none of its channels is jointly coded or
/// in the front pair: of the left channel the sum of left and right, of the right
/// channel the difference left minus right, in every row and every subband that both
/// have.
pub proof fn law_surround_pair_becomes_sum_and_difference<
    T,
    P: Fn(T, T) -> T,
    A: Fn(T, T) -> T,
    S: Fn(T, T) -> T,
>(
    times: P,
    plus: A,
    minus: S,
    was: Seq<Vec<[T; 32]>>,
    now: Seq<Vec<[T; 32]>>,
    plan: SubframePlan,
    joinx: Seq<u8>,
    scales: Seq<Vec<T>>,
    l: usize,
    r: usize,
    row: int,
    n: int,
)
    requires
        mixed(times, plus, minus, was, now, plan, joinx, scales),
        plan.surround == Some((l, r)),
        plan.front matches Some((x, y)) ==> x != l && x != r && y != l && y != r && x
            < plan.synthesis_subs@.len() && y < plan.synthesis_subs@.len(),
        l < scales.len() ==> scales[l as int]@.len() == 0,
        r < scales.len() ==> scales[r as int]@.len() == 0,
        l < was.len(),
        r < was.len(),
        l != r,
        was[l as int]@.len() == was[r as int]@.len(),
        0 <= row < was[l as int]@.len(),
        l < plan.synthesis_subs@.len(),
        r < plan.synthesis_subs@.len(),
        0 <= n < 32,
        n < plan.synthesis_subs@[l as int],
        n < plan.synthesis_subs@[r as int],
    ensures
        plus.ensures(
            (was[l as int]@[row]@[n], was[r as int]@[row]@[n]),
            now[l as int]@[row]@[n],
        ),
        minus.ensures(
            (was[l as int]@[row]@[n], was[r as int]@[row]@[n]),
            now[r as int]@[row]@[n],
        ),
{
    let (m1, m2) = lemma_stages(times, plus, minus, was, now, plan, joinx, scales);
    let subs: Seq<usize> = plan.synthesis_subs@;
    assert(was[l as int]@.len() == m1[l as int]@.len() && was[r as int]@.len()
        == m1[r as int]@.len());
    assert(was[l as int]@.len() == m2[l as int]@.len() && was[r as int]@.len()
        == m2[r as int]@.len());
    lemma_joint_stage_leaves(times, was, m1, plan, joinx, scales, l as int, row, n);
    lemma_joint_stage_leaves(times, was, m1, plan, joinx, scales, r as int, row, n);
    lemma_pair_stage_leaves(plus, minus, m1, m2, plan.front, subs, l as int, row, n);
    lemma_pair_stage_leaves(plus, minus, m1, m2, plan.front, subs, r as int, row, n);
    lemma_pair_stage_mixes(plus, minus, m2, now, l, r, subs, row, n);
}

/// With the arithmetic of whole numbers, mixing undoes the coding as sum and
/// difference up to a factor of two: a front or surround pair that was coded as
/// `x + y` and `x - y` becomes `2 * x` and `2 * y`.
pub proof fn law_mixing_recovers_a_pair_twofold<
    P: Fn(i64, i64) -> i64,
    A: Fn(i64, i64) -> i64,
    S: Fn(i64, i64) -> i64,
>(
    times: P,
    plus: A,
    minus: S,
    was: Seq<Vec<[i64; 32]>>,
    now: Seq<Vec<[i64; 32]>>,
    plan: SubframePlan,
    joinx: Seq<u8>,
    scales: Seq<Vec<i64>>,
    in_front: bool,
    l: usize,
    r: usize,
    row: int,
    n: int,
    x: int,
    y: int,
)
    requires
        forall|a: i64, b: i64, c: i64| #[trigger] plus.ensures((a, b), c) ==> c == a + b,
        forall|a: i64, b: i64, c: i64| #[trigger] minus.ensures((a, b), c) ==> c == a - b,
        mixed(times, plus, minus, was, now, plan, joinx, scales),
        in_front ==> plan.front == Some((l, r)),
        !in_front ==> plan.surround == Some((l, r)),
        in_front ==> (plan.surround matches Some((v, w)) ==> v != l && v != r && w != l && w != r
            && v < plan.synthesis_subs@.len() && w < plan.synthesis_subs@.len()),
        !in_front ==> (plan.front matches Some((v, w)) ==> v != l && v != r && w != l && w != r
            && v < plan.synthesis_subs@.len() && w < plan.synthesis_subs@.len()),
        l < scales.len() ==> scales[l as int]@.len() == 0,
        r < scales.len() ==> scales[r as int]@.len() == 0,
        l < was.len(),
        r < was.len(),
        l != r,
        was[l as int]@.len() == was[r as int]@.len(),
        0 <= row < was[l as int]@.len(),
        l < plan.synthesis_subs@.len(),
        r < plan.synthesis_subs@.len(),
        0 <= n < 32,
        n < plan.synthesis_subs@[l as int],
        n < plan.synthesis_subs@[r as int],
        was[l as int]@[row]@[n] == x + y,
        was[r as int]@[row]@[n] == x - y,
    ensures
        now[l as int]@[row]@[n] == 2 * x,
        now[r as int]@[row]@[n] == 2 * y,
{
    if in_front {
        law_front_pair_becomes_sum_and_difference(
            times,
            plus,
            minus,
            was,
            now,
            plan,
            joinx,
            scales,
            l,
            r,
            row,
            n,
        );
    } else {
        law_surround_pair_becomes_sum_and_difference(
            times,
            plus,
            minus,
            was,
            now,
            plan,
            joinx,
            scales,
            l,
            r,
            row,
            n,
        );
    }
}

/// Mixing leaves a channel that is neither jointly coded nor in a pair, and of the
/// channels of a pair the subbands that one of the two does not have.
pub proof fn law_mixing_leaves_the_rest<
    T,
    P: Fn(T, T) -> T,
    A: Fn(T, T) -> T,
    S: Fn(T, T) -> T,
>(
    times: P,
    plus: A,
    minus: S,
    was: Seq<Vec<[T; 32]>>,
    now: Seq<Vec<[T; 32]>>,
    plan: SubframePlan,
    joinx: Seq<u8>,
    scales: Seq<Vec<T>>,
    c: int,
    row: int,
    n: int,
)
    requires
        mixed(times, plus, minus, was, now, plan, joinx, scales),
        0 <= c < was.len(),
        0 <= row < was[c]@.len(),
        0 <= n < 32,
        c < scales.len() ==> scales[c]@.len() == 0,
        plan.front matches Some((l, r)) ==> {
            &&& l < plan.synthesis_subs@.len() && r < plan.synthesis_subs@.len()
            &&& c != l && c != r || n >= plan.synthesis_subs@[l as int] || n
                >= plan.synthesis_subs@[r as int]
        },
        plan.surround matches Some((l, r)) ==> {
            &&& l < plan.synthesis_subs@.len() && r < plan.synthesis_subs@.len()
            &&& c != l && c != r || n >= plan.synthesis_subs@[l as int] || n
                >= plan.synthesis_subs@[r as int]
        },
    ensures
        now[c]@[row]@[n] == was[c]@[row]@[n],
{
    let (m1, m2) = lemma_stages(times, plus, minus, was, now, plan, joinx, scales);
    let subs: Seq<usize> = plan.synthesis_subs@;
    assert(was[c]@.len() == m1[c]@.len() && was[c]@.len() == m2[c]@.len());
    lemma_joint_stage_leaves(times, was, m1, plan, joinx, scales, c, row, n);
    lemma_pair_stage_leaves(plus, minus, m1, m2, plan.front, subs, c, row, n);
    lemma_pair_stage_leaves(plus, minus, m2, now, plan.surround, subs, c, row, n);
}

/// Mixing gives a jointly coded channel that is in no pair, from a source that is not
/// jointly coded itself: in each subband from its own count on, for which it has a
/// factor, that factor times the sample of the source, and it leaves its own subbands.
pub proof fn law_joint_channel_takes_its_source<
    T,
    P: Fn(T, T) -> T,
    A: Fn(T, T) -> T,
    S: Fn(T, T) -> T,
>(
    times: P,
    plus: A,
    minus: S,
    was: Seq<Vec<[T; 32]>>,
    now: Seq<Vec<[T; 32]>>,
    plan: SubframePlan,
    joinx: Seq<u8>,
    scales: Seq<Vec<T>>,
    c: int,
    source: int,
    row: int,
    n: int,
)
    requires
        mixed(times, plus, minus, was, now, plan, joinx, scales),
        mix_error(was, plan, joinx, scales) is None,
        0 <= c < was.len(),
        0 <= row < was[c]@.len(),
        0 <= n < 32,
        c < scales.len(),
        c < joinx.len(),
        joinx[c] == source + 1,
        0 <= source < was.len(),
        source != c,
        source < scales.len() ==> scales[source]@.len() == 0,
        scales[c]@.len() > 0,
        plan.front matches Some((l, r)) ==> c != l && c != r && l < plan.synthesis_subs@.len() && r
            < plan.synthesis_subs@.len(),
        plan.surround matches Some((l, r)) ==> c != l && c != r && l < plan.synthesis_subs@.len()
            && r < plan.synthesis_subs@.len(),
    ensures
        plan.n_subs@[c] <= n < plan.n_subs@[c] + scales[c]@.len() ==> times.ensures(
            (scales[c]@[n - plan.n_subs@[c]], was[source]@[row]@[n]),
            now[c]@[row]@[n],
        ),
        n < plan.n_subs@[c] || n >= plan.n_subs@[c] + scales[c]@.len() ==> now[c]@[row]@[n]
            == was[c]@[row]@[n],
        scales[c]@.len() == plan.n_subs@[source] - plan.n_subs@[c],
{
    let (m1, m2) = lemma_stages(times, plus, minus, was, now, plan, joinx, scales);
    let subs: Seq<usize> = plan.synthesis_subs@;
    let n_subs: Seq<usize> = plan.n_subs@;
    let count: int = was.len() as int;
    assert(was[c]@.len() == m1[c]@.len() && was[c]@.len() == m2[c]@.len());
    assert(joint_imports(times, was, m1, joinx, n_subs, scales, count));
    let trace = choose|trace: Seq<Seq<Vec<[T; 32]>>>|
        {
            &&& #[trigger] joint_trace(times, trace, joinx, n_subs, scales)
            &&& trace.len() == count + 1
            &&& trace[0] == was
            &&& trace[count] == m1
        };
    lemma_no_misfit(was, joinx, n_subs, scales, 0, c);
    assert(was[source]@.len() == was[c]@.len());
    lemma_trace_leaves(times, trace, joinx, n_subs, scales, 0, c, c, row, n);
    lemma_trace_leaves(times, trace, joinx, n_subs, scales, 0, c, source, row, n);
    lemma_trace_leaves(times, trace, joinx, n_subs, scales, c + 1, count, c, row, n);
    lemma_trace_keeps_shape(times, trace, joinx, n_subs, scales, c);
    assert(was[c]@.len() == trace[c][c]@.len());
    assert(joint_import(times, trace[c], trace[c + 1], joinx, n_subs, scales, c));
    let k: int = n - n_subs[c];
    if 0 <= k < scales[c]@.len() {
        assert(times.ensures(
            (factors_of(scales, c)[k], cell(trace[c], source, row, n)),
            cell(trace[c + 1], c, row, n),
        ));
    } else {
        assert(cell(trace[c + 1], c, row, n) == cell(trace[c], c, row, n));
    }
    lemma_pair_stage_leaves(plus, minus, m1, m2, plan.front, subs, c, row, n);
    lemma_pair_stage_leaves(plus, minus, m2, now, plan.surround, subs, c, row, n);
}

/// Every channel fits where the search finds no misfit, and only there.
proof fn lemma_misfit_iff<T>(
    m: Seq<Vec<[T; 32]>>,
    joinx: Seq<u8>,
    n_subs: Seq<usize>,
    scales: Seq<Vec<T>>,
    from: int,
)
    requires
        0 <= from,
    ensures
        first_misfit(m, joinx, n_subs, scales, from) is None <==> forall|ch: int|
            from <= ch < m.len() ==> #[trigger] joint_fits(m, joinx, n_subs, scales, ch),
        first_misfit(m, joinx, n_subs, scales, from) matches Some(ch) ==> {
            &&& from <= ch < m.len()
            &&& !joint_fits(m, joinx, n_subs, scales, ch)
            &&& forall|c: int| from <= c < ch ==> #[trigger] joint_fits(m, joinx, n_subs, scales, c)
        },
    decreases m.len() - from,
{
    if from < m.len() {
        lemma_misfit_iff(m, joinx, n_subs, scales, from + 1);
    }
}

/// Subband samples can be mixed exactly where every channel with factors has a source
/// channel with the same rows and one factor for each subband that the source has
/// more, up to 32, and where each pair is two different channels with the same rows,
/// unless they share no subband.
pub proof fn law_what_can_be_mixed<T>(
    m: Seq<Vec<[T; 32]>>,
    plan: SubframePlan,
    joinx: Seq<u8>,
    scales: Seq<Vec<T>>,
)
    ensures
        mix_error(m, plan, joinx, scales) is None <==> {
            &&& forall|ch: int|
                0 <= ch < m.len() && ch < scales.len() && (#[trigger] scales[ch])@.len() > 0 ==> {
                    &&& ch < joinx.len() && 1 <= joinx[ch] <= m.len()
                    &&& ch < plan.n_subs@.len() && joinx[ch] - 1 < plan.n_subs@.len()
                    &&& scales[ch]@.len() == plan.n_subs@[joinx[ch] - 1] - plan.n_subs@[ch]
                    &&& plan.n_subs@[joinx[ch] - 1] <= 32
                    &&& m[joinx[ch] - 1]@.len() == m[ch]@.len()
                }
            &&& plan.front matches Some((l, r)) ==> can_pair(m, plan.synthesis_subs@, l, r)
            &&& plan.surround matches Some((l, r)) ==> can_pair(m, plan.synthesis_subs@, l, r)
        },
{
    let n_subs: Seq<usize> = plan.n_subs@;
    lemma_misfit_iff(m, joinx, n_subs, scales, 0);
    let fits = forall|ch: int|
        0 <= ch < m.len() ==> #[trigger] joint_fits(m, joinx, n_subs, scales, ch);
    let plain = forall|ch: int|
        0 <= ch < m.len() && ch < scales.len() && (#[trigger] scales[ch])@.len() > 0 ==> {
            &&& ch < joinx.len() && 1 <= joinx[ch] <= m.len()
            &&& ch < n_subs.len() && joinx[ch] - 1 < n_subs.len()
            &&& scales[ch]@.len() == n_subs[joinx[ch] - 1] - n_subs[ch]
            &&& n_subs[joinx[ch] - 1] <= 32
            &&& m[joinx[ch] - 1]@.len() == m[ch]@.len()
        };
    if fits {
        assert forall|ch: int|
            0 <= ch < m.len() && ch < scales.len() && (#[trigger] scales[ch])@.len() > 0 implies {
            &&& ch < joinx.len() && 1 <= joinx[ch] <= m.len()
            &&& ch < n_subs.len() && joinx[ch] - 1 < n_subs.len()
            &&& scales[ch]@.len() == n_subs[joinx[ch] - 1] - n_subs[ch]
            &&& n_subs[joinx[ch] - 1] <= 32
            &&& m[joinx[ch] - 1]@.len() == m[ch]@.len()
        } by {
            assert(joint_fits(m, joinx, n_subs, scales, ch));
        }
    }
    if plain {
        assert forall|ch: int| 0 <= ch < m.len() implies #[trigger] joint_fits(
            m,
            joinx,
            n_subs,
            scales,
            ch,
        ) by {
            if ch < scales.len() {
                assert(scales[ch]@.len() > 0 ==> ch < joinx.len());
            }
        }
    }
    assert(fits == plain);
}

/// Two channels can be mixed as a pair.
pub open spec fn can_pair<T>(
    m: Seq<Vec<[T; 32]>>,
    subs: Seq<usize>,
    l: usize,
    r: usize,
) -> bool {
    &&& l < m.len() && r < m.len() && l != r
    &&& l < subs.len() && r < subs.len() && subs[l as int] > 0 && subs[r as int] > 0
        ==> m[l as int]@.len() == m[r as int]@.len()
}

/// The joint factors of a channel, where it has any, fit its source.
pub open spec fn can_join<T>(
    m: Seq<Vec<[T; 32]>>,
    n_subs: Seq<usize>,
    joinx: Seq<u8>,
    scales: Seq<Vec<T>>,
    ch: int,
) -> bool {
    ch < scales.len() && scales[ch]@.len() > 0 ==> {
        &&& ch < joinx.len() && 1 <= joinx[ch] <= m.len()
        &&& ch < n_subs.len() && joinx[ch] - 1 < n_subs.len()
        &&& scales[ch]@.len() == n_subs[joinx[ch] - 1] - n_subs[ch]
        &&& n_subs[joinx[ch] - 1] <= 32
        &&& m[joinx[ch] - 1]@.len() == m[ch]@.len()
    }
}

/// A refusal to mix names the first channel whose joint factors do not fit, or else the
/// lower channel of the front pair, where that cannot be mixed, or else that of the
/// surround pair.
pub proof fn law_what_a_mix_refusal_names<T>(
    m: Seq<Vec<[T; 32]>>,
    plan: SubframePlan,
    joinx: Seq<u8>,
    scales: Seq<Vec<T>>,
    e: SubframePcmError,
)
    requires
        m.len() <= usize::MAX,
        mix_error(m, plan, joinx, scales) == Some(e),
    ensures
        e matches SubframePcmError::JointSubbandShape { ch } && {
            let n_subs: Seq<usize> = plan.n_subs@;
            let subs: Seq<usize> = plan.synthesis_subs@;
            if exists|c: int|
                0 <= c < m.len() && !#[trigger] can_join(m, n_subs, joinx, scales, c) {
                &&& ch < m.len()
                &&& !can_join(m, n_subs, joinx, scales, ch as int)
                &&& forall|c: int|
                    0 <= c < ch ==> #[trigger] can_join(m, n_subs, joinx, scales, c)
            } else if plan.front is Some && !can_pair(
                m,
                subs,
                plan.front.unwrap().0,
                plan.front.unwrap().1,
            ) {
                &&& ch <= plan.front.unwrap().0 && ch <= plan.front.unwrap().1
                &&& ch == plan.front.unwrap().0 || ch == plan.front.unwrap().1
            } else {
                &&& plan.surround is Some
                &&& !can_pair(m, subs, plan.surround.unwrap().0, plan.surround.unwrap().1)
                &&& ch <= plan.surround.unwrap().0 && ch <= plan.surround.unwrap().1
                &&& ch == plan.surround.unwrap().0 || ch == plan.surround.unwrap().1
            }
        },
{
    let n_subs: Seq<usize> = plan.n_subs@;
    lemma_misfit_iff(m, joinx, n_subs, scales, 0);
    assert forall|c: int| 0 <= c < m.len() implies #[trigger] can_join(m, n_subs, joinx, scales, c)
        == joint_fits(m, joinx, n_subs, scales, c) by {}
    let subs: Seq<usize> = plan.synthesis_subs@;
    if let Some((l, r)) = plan.front {
        assert(pair_fits(m, l as int, r as int, subs) == can_pair(m, subs, l, r));
    }
    if let Some((l, r)) = plan.surround {
        assert(pair_fits(m, l as int, r as int, subs) == can_pair(m, subs, l, r));
    }
    if exists|c: int| 0 <= c < m.len() && !#[trigger] can_join(m, n_subs, joinx, scales, c) {
        let c: int = choose|c: int|
            0 <= c < m.len() && !#[trigger] can_join(m, n_subs, joinx, scales, c);
        assert(!joint_fits(m, joinx, n_subs, scales, c));
        assert(scales.len() > 0);
        let at: int = first_misfit(m, joinx, n_subs, scales, 0).unwrap();
        assert(!can_join(m, n_subs, joinx, scales, at));
        assert(e == (SubframePcmError::JointSubbandShape { ch: at as usize }));
        assert forall|k: int| 0 <= k < at implies #[trigger] can_join(
            m,
            n_subs,
            joinx,
            scales,
            k,
        ) by {
            assert(joint_fits(m, joinx, n_subs, scales, k));
        }
    } else {
        if first_misfit(m, joinx, n_subs, scales, 0) is Some {
            let at: int = first_misfit(m, joinx, n_subs, scales, 0).unwrap();
            assert(can_join(m, n_subs, joinx, scales, at));
        }
    }
}

} // verus!
