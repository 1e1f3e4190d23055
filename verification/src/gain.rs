//! Gains on finished samples: one for a whole subframe, or one for each
//! subsubframe of a frame.

use vstd::arithmetic::div_mod::*;
use vstd::prelude::*;

verus! {

/// `now` is `was` with every sample of every channel passed through `scale` with
/// the multiplier.
pub open spec fn gained<M, F: Fn(i32, M) -> i32>(
    scale: F,
    multiplier: M,
    was: Seq<Vec<i32>>,
    now: Seq<Vec<i32>>,
) -> bool {
    &&& now.len() == was.len()
    &&& forall|ch: int|
        0 <= ch < was.len() ==> plane_gained(scale, multiplier, was[ch]@, #[trigger] now[ch]@)
}

/// `now` is `was` with every sample passed through `scale` with the multiplier.
pub open spec fn plane_gained<M, F: Fn(i32, M) -> i32>(
    scale: F,
    multiplier: M,
    was: Seq<i32>,
    now: Seq<i32>,
) -> bool {
    &&& now.len() == was.len()
    &&& forall|i: int|
        0 <= i < was.len() ==> scale.ensures((was[i], multiplier), #[trigger] now[i])
}

/// Passes every sample of a subframe through `scale` with the multiplier.
pub fn apply_range<M: Copy, F: Fn(i32, M) -> i32>(
    block: &mut Vec<Vec<i32>>,
    multiplier: M,
    scale: F,
)
    requires
        forall|v: i32, m: M| scale.requires((v, m)),
    ensures
        gained(scale, multiplier, old(block)@, final(block)@),
{
    gain_block(block, multiplier, &scale);
}

/// Passes every sample of a subframe through `scale` with the multiplier.
pub(crate) fn gain_block<M: Copy, F: Fn(i32, M) -> i32>(
    block: &mut Vec<Vec<i32>>,
    multiplier: M,
    scale: &F,
)
    requires
        forall|v: i32, m: M| scale.requires((v, m)),
    ensures
        gained(*scale, multiplier, old(block)@, final(block)@),
{
    let ghost before: Seq<Vec<i32>> = block@;
    let mut ch: usize = 0;
    while ch < block.len()
        invariant
            forall|v: i32, m: M| scale.requires((v, m)),
            before == old(block)@,
            block@.len() == before.len(),
            ch <= block@.len(),
            forall|c: int|
                0 <= c < ch ==> plane_gained(
                    *scale,
                    multiplier,
                    before[c]@,
                    #[trigger] block@[c]@,
                ),
            forall|c: int| ch <= c < before.len() ==> #[trigger] block@[c] == before[c],
        decreases block@.len() - ch,
    {
        let mut plane: Vec<i32> = Vec::new();
        let mut i: usize = 0;
        while i < block[ch].len()
            invariant
                forall|v: i32, m: M| scale.requires((v, m)),
                ch < block@.len(),
                i <= block@[ch as int]@.len(),
                plane@.len() == i,
                forall|n: int|
                    0 <= n < i ==> scale.ensures(
                        (block@[ch as int]@[n], multiplier),
                        #[trigger] plane@[n],
                    ),
            decreases block@[ch as int]@.len() - i,
        {
            let v: i32 = (*scale)(block[ch][i], multiplier);
            plane.push(v);
            i = i + 1;
        }
        assert(plane_gained(*scale, multiplier, before[ch as int]@, plane@));
        block[ch] = plane;
        ch = ch + 1;
    }
}

/// Whether a plane of `len` samples splits into `count` windows of one length.
pub open spec fn splits(len: nat, count: nat) -> bool {
    count > 0 && len > 0 && len % count == 0
}

/// `now` is `was` with each of the equally long windows passed through `scale`
/// with its own multiplier. A plane that does not split stays as it is.
pub open spec fn plane_scaled<M, F: Fn(i32, M) -> i32>(
    scale: F,
    multipliers: Seq<M>,
    was: Seq<i32>,
    now: Seq<i32>,
) -> bool {
    if splits(was.len(), multipliers.len()) {
        let window: int = (was.len() / multipliers.len()) as int;
        &&& now.len() == was.len()
        &&& forall|i: int|
            0 <= i < was.len() ==> scale.ensures(
                (was[i], multipliers[i / window]),
                #[trigger] now[i],
            )
    } else {
        now == was
    }
}

/// One plane with each of its windows passed through `scale`.
fn scale_plane<M: Copy, F: Fn(i32, M) -> i32>(
    plane: &Vec<i32>,
    multipliers: &[M],
    window: usize,
    scale: &F,
) -> (r: Vec<i32>)
    requires
        forall|v: i32, m: M| scale.requires((v, m)),
        splits(plane@.len(), multipliers@.len()),
        window == plane@.len() / multipliers@.len(),
    ensures
        plane_scaled(*scale, multipliers@, plane@, r@),
{
    let ghost count: int = multipliers@.len() as int;
    proof {
        lemma_windows(plane@.len() as int, count, window as int);
    }
    let mut out: Vec<i32> = Vec::new();
    let mut i: usize = 0;
    let mut k: usize = 0;
    let mut j: usize = 0;
    while i < plane.len()
        invariant
            forall|v: i32, m: M| scale.requires((v, m)),
            count == multipliers@.len(),
            window > 0,
            window * count == plane@.len(),
            i <= plane@.len(),
            j < window,
            i == k * window + j,
            out@.len() == i,
            forall|n: int|
                0 <= n < i ==> scale.ensures(
                    (plane@[n], multipliers@[n / (window as int)]),
                    #[trigger] out@[n],
                ),
        decreases plane@.len() - i,
    {
        proof {
            lemma_fundamental_div_mod_converse(i as int, window as int, k as int, j as int);
            assert(k < count) by (nonlinear_arith)
                requires
                    0 <= j < window,
                    k * window + j < window * count,
            ;
        }
        let v: i32 = (*scale)(plane[i], multipliers[k]);
        out.push(v);
        i = i + 1;
        if j + 1 < window {
            j = j + 1;
        } else {
            assert((k + 1) * window == k * window + window) by (nonlinear_arith);
            k = k + 1;
            j = 0;
        }
    }
    out
}

/// Windows of one length fill the plane.
proof fn lemma_windows(len: int, count: int, window: int)
    requires
        count > 0,
        len > 0,
        len % count == 0,
        window == len / count,
    ensures
        window > 0,
        window * count == len,
{
    lemma_fundamental_div_mod(len, count);
    assert(window * count == count * window) by (nonlinear_arith);
    assert(window > 0) by (nonlinear_arith)
        requires
            count * window == len,
            len > 0,
            count > 0,
    ;
}

/// `now` is `was` with each window of each plane passed through `scale` with its
/// own multiplier.
pub open spec fn windows_scaled<M, F: Fn(i32, M) -> i32>(
    scale: F,
    multipliers: Seq<M>,
    was: Seq<Vec<i32>>,
    now: Seq<Vec<i32>>,
) -> bool {
    &&& now.len() == was.len()
    &&& forall|ch: int|
        0 <= ch < was.len() ==> plane_scaled(scale, multipliers, was[ch]@, (#[trigger] now[ch])@)
}

/// Passes each window of each plane of a frame through `scale` with its own
/// multiplier. A plane that does not split into so many windows stays as it is.
pub fn apply_rev2_drc<M: Copy, F: Fn(i32, M) -> i32>(
    pcm: &mut Vec<Vec<i32>>,
    multipliers: &[M],
    scale: F,
)
    requires
        forall|v: i32, m: M| scale.requires((v, m)),
    ensures
        windows_scaled(scale, multipliers@, old(pcm)@, final(pcm)@),
{
    scale_windows(pcm, multipliers, &scale);
}

/// Passes each window of each plane of a frame through `scale` with its own
/// multiplier.
pub(crate) fn scale_windows<M: Copy, F: Fn(i32, M) -> i32>(
    pcm: &mut Vec<Vec<i32>>,
    multipliers: &[M],
    scale: &F,
)
    requires
        forall|v: i32, m: M| scale.requires((v, m)),
    ensures
        windows_scaled(*scale, multipliers@, old(pcm)@, final(pcm)@),
{
    let ghost before: Seq<Vec<i32>> = pcm@;
    let count: usize = multipliers.len();
    let mut ch: usize = 0;
    while ch < pcm.len()
        invariant
            forall|v: i32, m: M| scale.requires((v, m)),
            before == old(pcm)@,
            count == multipliers@.len(),
            pcm@.len() == before.len(),
            ch <= pcm@.len(),
            forall|c: int|
                0 <= c < ch ==> plane_scaled(
                    *scale,
                    multipliers@,
                    before[c]@,
                    (#[trigger] pcm@[c])@,
                ),
            forall|c: int| ch <= c < before.len() ==> #[trigger] pcm@[c] == before[c],
        decreases pcm@.len() - ch,
    {
        let len: usize = pcm[ch].len();
        if count > 0 && len > 0 && len % count == 0 {
            let plane: Vec<i32> = scale_plane(&pcm[ch], multipliers, len / count, scale);
            pcm[ch] = plane;
        }
        ch = ch + 1;
    }
}

/// A gain reaches every sample of every channel: each new sample is the old one at
/// its place, scaled by the multiplier, and no plane changes its length.
pub proof fn law_gain_reaches_every_sample<M, F: Fn(i32, M) -> i32>(
    scale: F,
    multiplier: M,
    was: Seq<Vec<i32>>,
    now: Seq<Vec<i32>>,
    ch: int,
    i: int,
)
    requires
        gained(scale, multiplier, was, now),
        0 <= ch < was.len(),
    ensures
        now.len() == was.len(),
        now[ch]@.len() == was[ch]@.len(),
        0 <= i < was[ch]@.len() ==> scale.ensures((was[ch]@[i], multiplier), now[ch]@[i]),
{
    assert(plane_gained(scale, multiplier, was[ch]@, now[ch]@));
}

/// A gain treats channels alike: where the scaling has one result for each sample,
/// equal planes stay equal.
pub proof fn law_gain_treats_channels_alike<M, F: Fn(i32, M) -> i32>(
    scale: F,
    multiplier: M,
    was: Seq<Vec<i32>>,
    now: Seq<Vec<i32>>,
    a: int,
    b: int,
)
    requires
        forall|v: i32, m: M, x: i32, y: i32| #[trigger]
            scale.ensures((v, m), x) && #[trigger] scale.ensures((v, m), y) ==> x == y,
        gained(scale, multiplier, was, now),
        0 <= a < was.len(),
        0 <= b < was.len(),
        was[a]@ == was[b]@,
    ensures
        now[a]@ == now[b]@,
{
    law_gain_reaches_every_sample(scale, multiplier, was, now, a, 0);
    law_gain_reaches_every_sample(scale, multiplier, was, now, b, 0);
    assert forall|i: int| 0 <= i < now[a]@.len() implies now[a]@[i] == now[b]@[i] by {
        law_gain_reaches_every_sample(scale, multiplier, was, now, a, i);
        law_gain_reaches_every_sample(scale, multiplier, was, now, b, i);
        assert(scale.ensures((was[a]@[i], multiplier), now[a]@[i]));
        assert(scale.ensures((was[a]@[i], multiplier), now[b]@[i]));
    }
    assert(now[a]@ =~= now[b]@);
}

/// The gains of windows reach every sample of every channel: in a plane of `count`
/// windows of `window` samples, one for each multiplier, sample `j` of window `k` is
/// scaled by multiplier `k`.
pub proof fn law_window_gains_reach_every_sample<M, F: Fn(i32, M) -> i32>(
    scale: F,
    multipliers: Seq<M>,
    was: Seq<Vec<i32>>,
    now: Seq<Vec<i32>>,
    ch: int,
    window: int,
    k: int,
    j: int,
)
    requires
        windows_scaled(scale, multipliers, was, now),
        0 <= ch < was.len(),
        window > 0,
        was[ch]@.len() == multipliers.len() * window,
        0 <= k < multipliers.len(),
        0 <= j < window,
    ensures
        now.len() == was.len(),
        now[ch]@.len() == was[ch]@.len(),
        0 <= k * window + j < was[ch]@.len(),
        scale.ensures(
            (was[ch]@[k * window + j], multipliers[k]),
            now[ch]@[k * window + j],
        ),
{
    let len: int = was[ch]@.len() as int;
    let count: int = multipliers.len() as int;
    let i: int = k * window + j;
    assert(plane_scaled(scale, multipliers, was[ch]@, now[ch]@));
    lemma_fundamental_div_mod_converse(len, count, window, 0);
    assert(len == window * count + 0) by (nonlinear_arith)
        requires
            len == count * window,
    ;
    lemma_fundamental_div_mod_converse(len, count, window, 0);
    lemma_fundamental_div_mod_converse(i, window, k, j);
    assert(0 <= i < len) by (nonlinear_arith)
        requires
            i == k * window + j,
            0 <= k < count,
            0 <= j < window,
            len == count * window,
    ;
    assert(len > 0);
}

/// A plane that is no whole number of windows long, or has no windows, stays as it is.
pub proof fn law_uneven_plane_keeps_its_samples<M, F: Fn(i32, M) -> i32>(
    scale: F,
    multipliers: Seq<M>,
    was: Seq<Vec<i32>>,
    now: Seq<Vec<i32>>,
    ch: int,
)
    requires
        windows_scaled(scale, multipliers, was, now),
        0 <= ch < was.len(),
        multipliers.len() == 0 || was[ch]@.len() == 0 || was[ch]@.len() % multipliers.len() != 0,
    ensures
        now.len() == was.len(),
        now[ch]@ == was[ch]@,
{
    assert(plane_scaled(scale, multipliers, was[ch]@, now[ch]@));
}

} // verus!
