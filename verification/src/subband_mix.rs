//! What is done to the subband samples of a subframe before synthesis, over
//! any kind of sample: joint intensity import and sum/difference decoding.

use crate::audio_header::AudioCodingHeader;
use crate::subframe_pcm::{SubframePcmError, SubframePlan};
use vstd::prelude::*;

verus! {

/// The sample of subband `n` in row `row` of channel `ch`.
pub open spec fn cell<T>(m: Seq<Vec<[T; 32]>>, ch: int, row: int, n: int) -> T {
    m[ch]@[row]@[n]
}

/// Both have the same channels with the same numbers of rows.
pub open spec fn same_shape<T>(a: Seq<Vec<[T; 32]>>, b: Seq<Vec<[T; 32]>>) -> bool {
    &&& a.len() == b.len()
    &&& forall|ch: int| 0 <= ch < a.len() ==> (#[trigger] a[ch])@.len() == b[ch]@.len()
}

/// Subband counts may be missing; a missing one is zero.
pub open spec fn subs_or_zero(n_subs: Seq<usize>, ch: int) -> int {
    if 0 <= ch < n_subs.len() {
        n_subs[ch] as int
    } else {
        0
    }
}

/// The number of subbands that both channels have, 32 at most.
pub open spec fn shared_subs(n_subs: Seq<usize>, l: int, r: int) -> int {
    let a: int = subs_or_zero(n_subs, l);
    let b: int = subs_or_zero(n_subs, r);
    let least: int = if a <= b {
        a
    } else {
        b
    };
    if least <= 32 {
        least
    } else {
        32
    }
}

/// Whether the channels `l` and `r` can be taken as a pair.
pub open spec fn pair_fits<T>(m: Seq<Vec<[T; 32]>>, l: int, r: int, n_subs: Seq<usize>) -> bool {
    &&& l < m.len() && r < m.len() && l != r
    &&& shared_subs(n_subs, l, r) > 0 ==> m[l]@.len() == m[r]@.len()
}

/// `new` is `was` with the first `n_active` subbands of the pair replaced by
/// their sum and their difference, up to row `rows` and there up to subband
/// `cols`.
pub open spec fn sum_difference_upto<T, A: Fn(T, T) -> T, S: Fn(T, T) -> T>(
    plus: A,
    minus: S,
    was: Seq<Vec<[T; 32]>>,
    new: Seq<Vec<[T; 32]>>,
    l: int,
    r: int,
    n_active: int,
    rows: int,
    cols: int,
) -> bool {
    &&& same_shape(was, new)
    &&& forall|ch: int, row: int, n: int|
        0 <= ch < was.len() && 0 <= row < was[ch]@.len() && 0 <= n < 32 ==> {
            let done = n < n_active && (row < rows || row == rows && n < cols);
            if done && ch == l {
                plus.ensures(
                    (cell(was, l, row, n), cell(was, r, row, n)),
                    #[trigger] cell(new, ch, row, n),
                )
            } else if done && ch == r {
                minus.ensures((cell(was, l, row, n), cell(was, r, row, n)), cell(new, ch, row, n))
            } else {
                cell(new, ch, row, n) == cell(was, ch, row, n)
            }
        }
}

/// `new` is `was` with every shared subband of the pair replaced by its sum
/// (left) and its difference (right).
pub open spec fn sum_difference<T, A: Fn(T, T) -> T, S: Fn(T, T) -> T>(
    plus: A,
    minus: S,
    was: Seq<Vec<[T; 32]>>,
    new: Seq<Vec<[T; 32]>>,
    l: int,
    r: int,
    n_subs: Seq<usize>,
) -> bool {
    sum_difference_upto(
        plus,
        minus,
        was,
        new,
        l,
        r,
        shared_subs(n_subs, l, r),
        was[l]@.len() as int,
        0,
    )
}

/// Replaces the subband samples of a left and right pair by their sum and
/// their difference. `plus` and `minus` are the arithmetic of the samples.
pub fn apply_sum_difference<T: Copy, A: Fn(T, T) -> T, S: Fn(T, T) -> T>(
    matrices: &mut Vec<Vec<[T; 32]>>,
    l: usize,
    r: usize,
    n_subs: &[usize],
    plus: A,
    minus: S,
) -> (res: Result<(), SubframePcmError>)
    requires
        forall|x: T, y: T| plus.requires((x, y)),
        forall|x: T, y: T| minus.requires((x, y)),
    ensures
        match res {
            Ok(_) => pair_fits(old(matrices)@, l as int, r as int, n_subs@) && sum_difference(
                plus,
                minus,
                old(matrices)@,
                final(matrices)@,
                l as int,
                r as int,
                n_subs@,
            ),
            Err(e) => {
                &&& !pair_fits(old(matrices)@, l as int, r as int, n_subs@)
                &&& e == (SubframePcmError::JointSubbandShape {
                    ch: if l <= r {
                        l
                    } else {
                        r
                    },
                })
                &&& final(matrices)@ == old(matrices)@
            },
        },
{
    mix_pair(matrices, l, r, n_subs, &plus, &minus)
}

/// The sum and the difference of a left and right pair.
fn mix_pair<T: Copy, A: Fn(T, T) -> T, S: Fn(T, T) -> T>(
    matrices: &mut Vec<Vec<[T; 32]>>,
    l: usize,
    r: usize,
    n_subs: &[usize],
    plus: &A,
    minus: &S,
) -> (res: Result<(), SubframePcmError>)
    requires
        forall|x: T, y: T| plus.requires((x, y)),
        forall|x: T, y: T| minus.requires((x, y)),
    ensures
        match res {
            Ok(_) => pair_fits(old(matrices)@, l as int, r as int, n_subs@) && sum_difference(
                *plus,
                *minus,
                old(matrices)@,
                final(matrices)@,
                l as int,
                r as int,
                n_subs@,
            ),
            Err(e) => {
                &&& !pair_fits(old(matrices)@, l as int, r as int, n_subs@)
                &&& e == (SubframePcmError::JointSubbandShape {
                    ch: if l <= r {
                        l
                    } else {
                        r
                    },
                })
                &&& final(matrices)@ == old(matrices)@
            },
        },
{
    let first: usize = if l <= r {
        l
    } else {
        r
    };
    if l >= matrices.len() || r >= matrices.len() || l == r {
        return Err(SubframePcmError::JointSubbandShape { ch: first });
    }
    let subs_l: usize = if l < n_subs.len() {
        n_subs[l]
    } else {
        0
    };
    let subs_r: usize = if r < n_subs.len() {
        n_subs[r]
    } else {
        0
    };
    let least: usize = if subs_l <= subs_r {
        subs_l
    } else {
        subs_r
    };
    let n_active: usize = if least <= 32 {
        least
    } else {
        32
    };
    if n_active == 0 {
        return Ok(());
    }
    let rows: usize = matrices[l].len();
    if rows != matrices[r].len() {
        return Err(SubframePcmError::JointSubbandShape { ch: first });
    }
    let ghost before: Seq<Vec<[T; 32]>> = matrices@;
    let mut row: usize = 0;
    while row < rows
        invariant
            forall|x: T, y: T| plus.requires((x, y)),
            forall|x: T, y: T| minus.requires((x, y)),
            l < before.len(),
            r < before.len(),
            l != r,
            before[l as int]@.len() == rows,
            before[r as int]@.len() == rows,
            n_active <= 32,
            row <= rows,
            sum_difference_upto(
                *plus,
                *minus,
                before,
                matrices@,
                l as int,
                r as int,
                n_active as int,
                row as int,
                0,
            ),
        decreases rows - row,
    {
        let mut n: usize = 0;
        while n < n_active
            invariant
                forall|x: T, y: T| plus.requires((x, y)),
                forall|x: T, y: T| minus.requires((x, y)),
                l < before.len(),
                r < before.len(),
                l != r,
                before[l as int]@.len() == rows,
                before[r as int]@.len() == rows,
                n_active <= 32,
                row < rows,
                n <= n_active,
                sum_difference_upto(
                    *plus,
                    *minus,
                    before,
                    matrices@,
                    l as int,
                    r as int,
                    n_active as int,
                    row as int,
                    n as int,
                ),
            decreases n_active - n,
        {
            assert(before[l as int]@.len() == matrices@[l as int]@.len());
            assert(before[r as int]@.len() == matrices@[r as int]@.len());
            let left: T = matrices[l][row][n];
            let right: T = matrices[r][row][n];
            assert(left == cell(matrices@, l as int, row as int, n as int));
            assert(right == cell(matrices@, r as int, row as int, n as int));
            let sum: T = (*plus)(left, right);
            let difference: T = (*minus)(left, right);
            let ghost prior: Seq<Vec<[T; 32]>> = matrices@;
            matrices[l][row][n] = sum;
            matrices[r][row][n] = difference;
            proof {
                lemma_pair_step(
                    *plus,
                    *minus,
                    before,
                    prior,
                    matrices@,
                    l as int,
                    r as int,
                    n_active as int,
                    row as int,
                    n as int,
                    sum,
                    difference,
                );
            }
            n = n + 1;
        }
        row = row + 1;
    }
    Ok(())
}

/// One more subband of one row is done.
proof fn lemma_pair_step<T, A: Fn(T, T) -> T, S: Fn(T, T) -> T>(
    plus: A,
    minus: S,
    before: Seq<Vec<[T; 32]>>,
    prior: Seq<Vec<[T; 32]>>,
    after: Seq<Vec<[T; 32]>>,
    l: int,
    r: int,
    n_active: int,
    row: int,
    n: int,
    sum: T,
    difference: T,
)
    requires
        0 <= l < before.len(),
        0 <= r < before.len(),
        l != r,
        0 <= row < before[l]@.len(),
        before[l]@.len() == before[r]@.len(),
        0 <= n < n_active <= 32,
        sum_difference_upto(plus, minus, before, prior, l, r, n_active, row, n),
        same_shape(before, after),
        plus.ensures((cell(before, l, row, n), cell(before, r, row, n)), sum),
        minus.ensures((cell(before, l, row, n), cell(before, r, row, n)), difference),
        cell(after, l, row, n) == sum,
        cell(after, r, row, n) == difference,
        forall|ch: int, w: int, c: int|
            0 <= ch < before.len() && 0 <= w < before[ch]@.len() && 0 <= c < 32 && !((ch == l || ch
                == r) && w == row && c == n) ==> #[trigger] cell(after, ch, w, c) == cell(
                prior,
                ch,
                w,
                c,
            ),
    ensures
        sum_difference_upto(plus, minus, before, after, l, r, n_active, row, n + 1),
{
    assert forall|ch: int, w: int, c: int|
        0 <= ch < before.len() && 0 <= w < before[ch]@.len() && 0 <= c < 32 implies {
        let done = c < n_active && (w < row || w == row && c < n + 1);
        if done && ch == l {
            plus.ensures(
                (cell(before, l, w, c), cell(before, r, w, c)),
                #[trigger] cell(after, ch, w, c),
            )
        } else if done && ch == r {
            minus.ensures((cell(before, l, w, c), cell(before, r, w, c)), cell(after, ch, w, c))
        } else {
            cell(after, ch, w, c) == cell(before, ch, w, c)
        }
    } by {
        if !((ch == l || ch == r) && w == row && c == n) {
            assert(cell(after, ch, w, c) == cell(prior, ch, w, c));
        }
    }
}

/// The joint scale factors of a channel; a channel without any has none.
pub open spec fn factors_of<T>(scales: Seq<Vec<T>>, ch: int) -> Seq<T> {
    if 0 <= ch < scales.len() {
        scales[ch]@
    } else {
        Seq::empty()
    }
}

/// The joint coding source of a channel, counted from one; zero is none.
pub open spec fn source_code(joinx: Seq<u8>, ch: int) -> int {
    if 0 <= ch < joinx.len() {
        joinx[ch] as int
    } else {
        0
    }
}

/// Whether the joint scale factors of a channel, where it has any, fit: there is
/// a source channel with the same number of rows, and one factor for each
/// subband that it has more than this one.
pub open spec fn joint_fits<T>(
    m: Seq<Vec<[T; 32]>>,
    joinx: Seq<u8>,
    n_subs: Seq<usize>,
    scales: Seq<Vec<T>>,
    ch: int,
) -> bool {
    let source: int = source_code(joinx, ch) - 1;
    factors_of(scales, ch).len() == 0 || {
        &&& 0 <= source < m.len()
        &&& ch < n_subs.len()
        &&& source < n_subs.len()
        &&& factors_of(scales, ch).len() == n_subs[source] - n_subs[ch]
        &&& n_subs[source] <= 32
        &&& m[source]@.len() == m[ch]@.len()
    }
}

/// `new` is `was` with the subbands that channel `ch` takes from its source
/// replaced by the source's, each times its factor, up to row `rows` and there
/// up to factor `cols`.
pub open spec fn joint_import_upto<T, P: Fn(T, T) -> T>(
    times: P,
    was: Seq<Vec<[T; 32]>>,
    new: Seq<Vec<[T; 32]>>,
    ch: int,
    source: int,
    start: int,
    factors: Seq<T>,
    rows: int,
    cols: int,
) -> bool {
    &&& same_shape(was, new)
    &&& forall|c: int, row: int, n: int|
        0 <= c < was.len() && 0 <= row < was[c]@.len() && 0 <= n < 32 ==> {
            let k = n - start;
            if c == ch && 0 <= k < factors.len() && (row < rows || row == rows && k < cols) {
                times.ensures((factors[k], cell(was, source, row, n)), #[trigger] cell(
                    new,
                    c,
                    row,
                    n,
                ))
            } else {
                cell(new, c, row, n) == cell(was, c, row, n)
            }
        }
}

/// `new` is `was` with the joint import of channel `ch` done.
pub open spec fn joint_import<T, P: Fn(T, T) -> T>(
    times: P,
    was: Seq<Vec<[T; 32]>>,
    new: Seq<Vec<[T; 32]>>,
    joinx: Seq<u8>,
    n_subs: Seq<usize>,
    scales: Seq<Vec<T>>,
    ch: int,
) -> bool {
    if factors_of(scales, ch).len() == 0 {
        new == was
    } else {
        joint_import_upto(
            times,
            was,
            new,
            ch,
            source_code(joinx, ch) - 1,
            n_subs[ch] as int,
            factors_of(scales, ch),
            was[ch]@.len() as int,
            0,
        )
    }
}

/// `trace` is what the samples are before the first channel and after each of
/// the joint imports, one channel after the other.
pub open spec fn joint_trace<T, P: Fn(T, T) -> T>(
    times: P,
    trace: Seq<Seq<Vec<[T; 32]>>>,
    joinx: Seq<u8>,
    n_subs: Seq<usize>,
    scales: Seq<Vec<T>>,
) -> bool {
    &&& trace.len() > 0
    &&& forall|ch: int|
        0 <= ch < trace.len() - 1 ==> joint_import(
            times,
            #[trigger] trace[ch],
            trace[ch + 1],
            joinx,
            n_subs,
            scales,
            ch,
        )
}

/// The samples after the joint imports of the first `count` channels.
pub open spec fn joint_imports<T, P: Fn(T, T) -> T>(
    times: P,
    was: Seq<Vec<[T; 32]>>,
    new: Seq<Vec<[T; 32]>>,
    joinx: Seq<u8>,
    n_subs: Seq<usize>,
    scales: Seq<Vec<T>>,
    count: int,
) -> bool {
    exists|trace: Seq<Seq<Vec<[T; 32]>>>|
        {
            &&& #[trigger] joint_trace(times, trace, joinx, n_subs, scales)
            &&& trace.len() == count + 1
            &&& trace[0] == was
            &&& trace[count] == new
        }
}

/// Gives every jointly coded channel the subbands that it takes from its
/// source, each times its scale factor, channel by channel. The first channel
/// whose factors do not fit ends this. `times` is the product of the samples.
pub fn apply_joint_subband<T: Copy, P: Fn(T, T) -> T>(
    matrices: &mut Vec<Vec<[T; 32]>>,
    coding: &AudioCodingHeader,
    n_subs: &[usize],
    join_scales: &[Vec<T>],
    times: P,
) -> (res: Result<(), SubframePcmError>)
    requires
        forall|x: T, y: T| times.requires((x, y)),
    ensures
        same_shape(old(matrices)@, final(matrices)@),
        match res {
            Ok(_) => {
                &&& forall|ch: int|
                    0 <= ch < old(matrices)@.len() ==> #[trigger] joint_fits(
                        old(matrices)@,
                        coding.joinx@,
                        n_subs@,
                        join_scales@,
                        ch,
                    )
                &&& joint_imports(
                    times,
                    old(matrices)@,
                    final(matrices)@,
                    coding.joinx@,
                    n_subs@,
                    join_scales@,
                    old(matrices)@.len() as int,
                )
            },
            Err(e) => e matches SubframePcmError::JointSubbandShape { ch } && {
                &&& ch < old(matrices)@.len()
                &&& !joint_fits(
                    old(matrices)@,
                    coding.joinx@,
                    n_subs@,
                    join_scales@,
                    ch as int,
                )
                &&& forall|c: int|
                    0 <= c < ch ==> #[trigger] joint_fits(
                        old(matrices)@,
                        coding.joinx@,
                        n_subs@,
                        join_scales@,
                        c,
                    )
                &&& joint_imports(
                    times,
                    old(matrices)@,
                    final(matrices)@,
                    coding.joinx@,
                    n_subs@,
                    join_scales@,
                    ch as int,
                )
            },
        },
{
    import_all(matrices, coding, n_subs, join_scales, &times)
}

/// The joint imports of all channels.
fn import_all<T: Copy, P: Fn(T, T) -> T>(
    matrices: &mut Vec<Vec<[T; 32]>>,
    coding: &AudioCodingHeader,
    n_subs: &[usize],
    join_scales: &[Vec<T>],
    times: &P,
) -> (res: Result<(), SubframePcmError>)
    requires
        forall|x: T, y: T| times.requires((x, y)),
    ensures
        same_shape(old(matrices)@, final(matrices)@),
        match res {
            Ok(_) => {
                &&& forall|ch: int|
                    0 <= ch < old(matrices)@.len() ==> #[trigger] joint_fits(
                        old(matrices)@,
                        coding.joinx@,
                        n_subs@,
                        join_scales@,
                        ch,
                    )
                &&& joint_imports(
                    *times,
                    old(matrices)@,
                    final(matrices)@,
                    coding.joinx@,
                    n_subs@,
                    join_scales@,
                    old(matrices)@.len() as int,
                )
            },
            Err(e) => e matches SubframePcmError::JointSubbandShape { ch } && {
                &&& ch < old(matrices)@.len()
                &&& !joint_fits(
                    old(matrices)@,
                    coding.joinx@,
                    n_subs@,
                    join_scales@,
                    ch as int,
                )
                &&& forall|c: int|
                    0 <= c < ch ==> #[trigger] joint_fits(
                        old(matrices)@,
                        coding.joinx@,
                        n_subs@,
                        join_scales@,
                        c,
                    )
                &&& joint_imports(
                    *times,
                    old(matrices)@,
                    final(matrices)@,
                    coding.joinx@,
                    n_subs@,
                    join_scales@,
                    ch as int,
                )
            },
        },
{
    let ghost before: Seq<Vec<[T; 32]>> = matrices@;
    let ghost mut trace: Seq<Seq<Vec<[T; 32]>>> = seq![before];
    let channels: usize = matrices.len();
    let mut ch: usize = 0;
    assert(joint_trace(*times, trace, coding.joinx@, n_subs@, join_scales@));
    while ch < channels
        invariant
            forall|x: T, y: T| times.requires((x, y)),
            channels == before.len(),
            before == old(matrices)@,
            ch <= channels,
            same_shape(before, matrices@),
            forall|c: int|
                0 <= c < ch ==> #[trigger] joint_fits(
                    before,
                    coding.joinx@,
                    n_subs@,
                    join_scales@,
                    c,
                ),
            joint_trace(*times, trace, coding.joinx@, n_subs@, join_scales@),
            trace.len() == ch + 1,
            trace[0] == before,
            trace[ch as int] == matrices@,
        decreases channels - ch,
    {
        let done: Result<(), SubframePcmError> = import_channel(
            matrices,
            coding,
            n_subs,
            join_scales,
            ch,
            times,
        );
        proof {
            lemma_fits_by_shape(
                before,
                trace[ch as int],
                coding.joinx@,
                n_subs@,
                join_scales@,
                ch as int,
            );
        }
        match done {
            Err(e) => {
                return Err(e);
            },
            Ok(_) => {},
        }
        proof {
            let more: Seq<Seq<Vec<[T; 32]>>> = trace.push(matrices@);
            assert forall|c: int| 0 <= c < more.len() - 1 implies joint_import(
                *times,
                #[trigger] more[c],
                more[c + 1],
                coding.joinx@,
                n_subs@,
                join_scales@,
                c,
            ) by {
                if c < ch {
                    assert(more[c] == trace[c] && more[c + 1] == trace[c + 1]);
                }
            }
            trace = more;
        }
        ch = ch + 1;
    }
    Ok(())
}

/// Whether factors fit depends on the shape of the samples alone.
proof fn lemma_fits_by_shape<T>(
    a: Seq<Vec<[T; 32]>>,
    b: Seq<Vec<[T; 32]>>,
    joinx: Seq<u8>,
    n_subs: Seq<usize>,
    scales: Seq<Vec<T>>,
    ch: int,
)
    requires
        same_shape(a, b),
        0 <= ch < a.len(),
    ensures
        joint_fits(a, joinx, n_subs, scales, ch) == joint_fits(b, joinx, n_subs, scales, ch),
{
    let source: int = source_code(joinx, ch) - 1;
    assert(a[ch]@.len() == b[ch]@.len());
    if 0 <= source < a.len() {
        assert(a[source]@.len() == b[source]@.len());
    }
}

/// The joint import of one channel.
fn import_channel<T: Copy, P: Fn(T, T) -> T>(
    matrices: &mut Vec<Vec<[T; 32]>>,
    coding: &AudioCodingHeader,
    n_subs: &[usize],
    join_scales: &[Vec<T>],
    ch: usize,
    times: &P,
) -> (res: Result<(), SubframePcmError>)
    requires
        forall|x: T, y: T| times.requires((x, y)),
        ch < old(matrices)@.len(),
    ensures
        same_shape(old(matrices)@, final(matrices)@),
        match res {
            Ok(_) => {
                &&& joint_fits(
                    old(matrices)@,
                    coding.joinx@,
                    n_subs@,
                    join_scales@,
                    ch as int,
                )
                &&& joint_import(
                    *times,
                    old(matrices)@,
                    final(matrices)@,
                    coding.joinx@,
                    n_subs@,
                    join_scales@,
                    ch as int,
                )
            },
            Err(e) => {
                &&& !joint_fits(
                    old(matrices)@,
                    coding.joinx@,
                    n_subs@,
                    join_scales@,
                    ch as int,
                )
                &&& e == (SubframePcmError::JointSubbandShape { ch })
                &&& final(matrices)@ == old(matrices)@
            },
        },
{
    if ch >= join_scales.len() || join_scales[ch].len() == 0 {
        return Ok(());
    }
    let factors: &Vec<T> = &join_scales[ch];
    let code: u8 = if ch < coding.joinx.len() {
        coding.joinx[ch]
    } else {
        0
    };
    if code == 0 {
        return Err(SubframePcmError::JointSubbandShape { ch });
    }
    let source: usize = (code - 1) as usize;
    if source >= matrices.len() || ch >= n_subs.len() || source >= n_subs.len() {
        return Err(SubframePcmError::JointSubbandShape { ch });
    }
    let start: usize = n_subs[ch];
    let end: usize = n_subs[source];
    if end < start || factors.len() != end - start || end > 32 {
        return Err(SubframePcmError::JointSubbandShape { ch });
    }
    let rows: usize = matrices[ch].len();
    if matrices[source].len() != rows {
        return Err(SubframePcmError::JointSubbandShape { ch });
    }
    let ghost before: Seq<Vec<[T; 32]>> = matrices@;
    let mut row: usize = 0;
    while row < rows
        invariant
            forall|x: T, y: T| times.requires((x, y)),
            ch < before.len(),
            source < before.len(),
            ch != source,
            before[ch as int]@.len() == rows,
            before[source as int]@.len() == rows,
            start + factors@.len() <= 32,
            row <= rows,
            joint_import_upto(
                *times,
                before,
                matrices@,
                ch as int,
                source as int,
                start as int,
                factors@,
                row as int,
                0,
            ),
        decreases rows - row,
    {
        let mut k: usize = 0;
        while k < factors.len()
            invariant
                forall|x: T, y: T| times.requires((x, y)),
                ch < before.len(),
                source < before.len(),
                ch != source,
                before[ch as int]@.len() == rows,
                before[source as int]@.len() == rows,
                start + factors@.len() <= 32,
                row < rows,
                k <= factors@.len(),
                joint_import_upto(
                    *times,
                    before,
                    matrices@,
                    ch as int,
                    source as int,
                    start as int,
                    factors@,
                    row as int,
                    k as int,
                ),
            decreases factors@.len() - k,
        {
            assert(before[ch as int]@.len() == matrices@[ch as int]@.len());
            assert(before[source as int]@.len() == matrices@[source as int]@.len());
            let n: usize = start + k;
            let taken: T = matrices[source][row][n];
            assert(taken == cell(matrices@, source as int, row as int, n as int));
            let scaled: T = (*times)(factors[k], taken);
            let ghost prior: Seq<Vec<[T; 32]>> = matrices@;
            matrices[ch][row][n] = scaled;
            proof {
                lemma_import_step(
                    *times,
                    before,
                    prior,
                    matrices@,
                    ch as int,
                    source as int,
                    start as int,
                    factors@,
                    row as int,
                    k as int,
                    scaled,
                );
            }
            k = k + 1;
        }
        row = row + 1;
    }
    Ok(())
}

/// One more subband of one row is taken over.
proof fn lemma_import_step<T, P: Fn(T, T) -> T>(
    times: P,
    before: Seq<Vec<[T; 32]>>,
    prior: Seq<Vec<[T; 32]>>,
    after: Seq<Vec<[T; 32]>>,
    ch: int,
    source: int,
    start: int,
    factors: Seq<T>,
    row: int,
    k: int,
    scaled: T,
)
    requires
        0 <= ch < before.len(),
        0 <= source < before.len(),
        ch != source,
        0 <= row < before[ch]@.len(),
        before[ch]@.len() == before[source]@.len(),
        0 <= start,
        start + factors.len() <= 32,
        0 <= k < factors.len(),
        joint_import_upto(times, before, prior, ch, source, start, factors, row, k),
        same_shape(before, after),
        times.ensures((factors[k], cell(before, source, row, start + k)), scaled),
        cell(after, ch, row, start + k) == scaled,
        forall|c: int, w: int, n: int|
            0 <= c < before.len() && 0 <= w < before[c]@.len() && 0 <= n < 32 && !(c == ch && w
                == row && n == start + k) ==> #[trigger] cell(after, c, w, n) == cell(
                prior,
                c,
                w,
                n,
            ),
    ensures
        joint_import_upto(times, before, after, ch, source, start, factors, row, k + 1),
{
    assert forall|c: int, w: int, n: int|
        0 <= c < before.len() && 0 <= w < before[c]@.len() && 0 <= n < 32 implies {
        let i = n - start;
        if c == ch && 0 <= i < factors.len() && (w < row || w == row && i < k + 1) {
            times.ensures(
                (factors[i], cell(before, source, w, n)),
                #[trigger] cell(after, c, w, n),
            )
        } else {
            cell(after, c, w, n) == cell(before, c, w, n)
        }
    } by {
        if !(c == ch && w == row && n == start + k) {
            assert(cell(after, c, w, n) == cell(prior, c, w, n));
        }
    }
}

/// A joint import changes no channel but its own, and of that one only the
/// subbands above its own count.
pub proof fn law_joint_import_leaves_the_rest<T, P: Fn(T, T) -> T>(
    times: P,
    was: Seq<Vec<[T; 32]>>,
    new: Seq<Vec<[T; 32]>>,
    joinx: Seq<u8>,
    n_subs: Seq<usize>,
    scales: Seq<Vec<T>>,
    ch: int,
    c: int,
    row: int,
    n: int,
)
    requires
        joint_import(times, was, new, joinx, n_subs, scales, ch),
        0 <= c < was.len(),
        0 <= row < was[c]@.len(),
        0 <= n < 32,
        c != ch || n < n_subs[ch],
    ensures
        cell(new, c, row, n) == cell(was, c, row, n),
{
}

/// Sum/difference decoding changes nothing but the shared subbands of the pair.
pub proof fn law_sum_difference_leaves_the_rest<T, A: Fn(T, T) -> T, S: Fn(T, T) -> T>(
    plus: A,
    minus: S,
    was: Seq<Vec<[T; 32]>>,
    new: Seq<Vec<[T; 32]>>,
    l: int,
    r: int,
    n_subs: Seq<usize>,
    c: int,
    row: int,
    n: int,
)
    requires
        sum_difference(plus, minus, was, new, l, r, n_subs),
        0 <= c < was.len(),
        0 <= row < was[c]@.len(),
        0 <= n < 32,
        c != l && c != r || n >= shared_subs(n_subs, l, r),
    ensures
        cell(new, c, row, n) == cell(was, c, row, n),
{
}

/// The first channel from `from` on whose joint scale factors do not fit.
pub open spec fn first_misfit<T>(
    m: Seq<Vec<[T; 32]>>,
    joinx: Seq<u8>,
    n_subs: Seq<usize>,
    scales: Seq<Vec<T>>,
    from: int,
) -> Option<int>
    decreases m.len() - from,
{
    if from >= m.len() {
        None
    } else if !joint_fits(m, joinx, n_subs, scales, from) {
        Some(from)
    } else {
        first_misfit(m, joinx, n_subs, scales, from + 1)
    }
}

/// The error of a pair that cannot be mixed.
pub open spec fn pair_error<T>(
    m: Seq<Vec<[T; 32]>>,
    pair: Option<(usize, usize)>,
    n_subs: Seq<usize>,
) -> Option<SubframePcmError> {
    match pair {
        Some((l, r)) => if pair_fits(m, l as int, r as int, n_subs) {
            None
        } else {
            Some(
                SubframePcmError::JointSubbandShape {
                    ch: if l <= r {
                        l
                    } else {
                        r
                    },
                },
            )
        },
        None => None,
    }
}

/// Why the subband samples of a subframe cannot be mixed.
pub open spec fn mix_error<T>(
    m: Seq<Vec<[T; 32]>>,
    plan: SubframePlan,
    joinx: Seq<u8>,
    scales: Seq<Vec<T>>,
) -> Option<SubframePcmError> {
    let misfit: Option<int> = first_misfit(m, joinx, plan.n_subs@, scales, 0);
    if scales.len() > 0 && misfit is Some {
        Some(SubframePcmError::JointSubbandShape { ch: misfit.unwrap() as usize })
    } else if pair_error(m, plan.front, plan.synthesis_subs@) is Some {
        pair_error(m, plan.front, plan.synthesis_subs@)
    } else {
        pair_error(m, plan.surround, plan.synthesis_subs@)
    }
}

/// The joint imports, where there are scale factors.
pub open spec fn joint_stage<T, P: Fn(T, T) -> T>(
    times: P,
    was: Seq<Vec<[T; 32]>>,
    now: Seq<Vec<[T; 32]>>,
    plan: SubframePlan,
    joinx: Seq<u8>,
    scales: Seq<Vec<T>>,
) -> bool {
    if scales.len() > 0 {
        joint_imports(times, was, now, joinx, plan.n_subs@, scales, was.len() as int)
    } else {
        now == was
    }
}

/// The sum and difference of a pair, where there is one.
pub open spec fn pair_stage<T, A: Fn(T, T) -> T, S: Fn(T, T) -> T>(
    plus: A,
    minus: S,
    was: Seq<Vec<[T; 32]>>,
    now: Seq<Vec<[T; 32]>>,
    pair: Option<(usize, usize)>,
    n_subs: Seq<usize>,
) -> bool {
    match pair {
        Some((l, r)) => sum_difference(plus, minus, was, now, l as int, r as int, n_subs),
        None => now == was,
    }
}

/// `now` is `was` with the joint imports done first, then the sum and difference
/// of the front pair, then that of the surround pair.
pub open spec fn mixed<T, P: Fn(T, T) -> T, A: Fn(T, T) -> T, S: Fn(T, T) -> T>(
    times: P,
    plus: A,
    minus: S,
    was: Seq<Vec<[T; 32]>>,
    now: Seq<Vec<[T; 32]>>,
    plan: SubframePlan,
    joinx: Seq<u8>,
    scales: Seq<Vec<T>>,
) -> bool {
    exists|m1: Seq<Vec<[T; 32]>>, m2: Seq<Vec<[T; 32]>>|
        {
            &&& #[trigger] joint_stage(times, was, m1, plan, joinx, scales)
            &&& #[trigger] pair_stage(plus, minus, m1, m2, plan.front, plan.synthesis_subs@)
            &&& pair_stage(plus, minus, m2, now, plan.surround, plan.synthesis_subs@)
        }
}

/// Mixes the subband samples of a subframe: the joint imports first, then the
/// sum and difference of the front pair, then that of the surround pair. The
/// pairs have the subbands that the imports gave them.
pub fn mix_subframe<T: Copy, P: Fn(T, T) -> T, A: Fn(T, T) -> T, S: Fn(T, T) -> T>(
    matrices: &mut Vec<Vec<[T; 32]>>,
    plan: &SubframePlan,
    coding: &AudioCodingHeader,
    join_scales: &[Vec<T>],
    times: &P,
    plus: &A,
    minus: &S,
) -> (res: Result<(), SubframePcmError>)
    requires
        forall|x: T, y: T| times.requires((x, y)),
        forall|x: T, y: T| plus.requires((x, y)),
        forall|x: T, y: T| minus.requires((x, y)),
    ensures
        same_shape(old(matrices)@, final(matrices)@),
        match res {
            Ok(_) => {
                &&& mix_error(old(matrices)@, *plan, coding.joinx@, join_scales@) is None
                &&& mixed(
                    *times,
                    *plus,
                    *minus,
                    old(matrices)@,
                    final(matrices)@,
                    *plan,
                    coding.joinx@,
                    join_scales@,
                )
            },
            Err(e) => mix_error(old(matrices)@, *plan, coding.joinx@, join_scales@) == Some(e),
        },
{
    let ghost m0: Seq<Vec<[T; 32]>> = matrices@;
    if join_scales.len() > 0 {
        let imported: Result<(), SubframePcmError> = import_all(
            matrices,
            coding,
            plan.n_subs.as_slice(),
            join_scales,
            times,
        );
        match imported {
            Err(e) => {
                proof {
                    if let SubframePcmError::JointSubbandShape { ch } = e {
                        lemma_first_misfit(
                            m0,
                            coding.joinx@,
                            plan.n_subs@,
                            join_scales@,
                            0,
                            ch as int,
                        );
                    }
                }
                return Err(e);
            },
            Ok(_) => {
                proof {
                    lemma_first_misfit(
                        m0,
                        coding.joinx@,
                        plan.n_subs@,
                        join_scales@,
                        0,
                        m0.len() as int,
                    );
                }
            },
        }
    }
    let ghost m1: Seq<Vec<[T; 32]>> = matrices@;
    assert(joint_stage(*times, m0, m1, *plan, coding.joinx@, join_scales@));
    let subs: &[usize] = plan.synthesis_subs.as_slice();
    if let Some((l, r)) = plan.front {
        proof {
            lemma_pair_by_shape(m0, m1, l as int, r as int, plan.synthesis_subs@);
        }
        mix_pair(matrices, l, r, subs, plus, minus)?;
    }
    let ghost m2: Seq<Vec<[T; 32]>> = matrices@;
    assert(pair_stage(*plus, *minus, m1, m2, plan.front, plan.synthesis_subs@));
    proof {
        lemma_shape_carries(m0, m1, m2);
    }
    if let Some((l, r)) = plan.surround {
        proof {
            lemma_pair_by_shape(m0, m2, l as int, r as int, plan.synthesis_subs@);
        }
        mix_pair(matrices, l, r, subs, plus, minus)?;
    }
    proof {
        lemma_shape_carries(m0, m2, matrices@);
    }
    Ok(())
}

/// The first misfit is the channel behind which all before it fit.
proof fn lemma_first_misfit<T>(
    m: Seq<Vec<[T; 32]>>,
    joinx: Seq<u8>,
    n_subs: Seq<usize>,
    scales: Seq<Vec<T>>,
    from: int,
    ch: int,
)
    requires
        0 <= from <= ch <= m.len(),
        forall|c: int| from <= c < ch ==> #[trigger] joint_fits(m, joinx, n_subs, scales, c),
        ch < m.len() ==> !joint_fits(m, joinx, n_subs, scales, ch),
    ensures
        first_misfit(m, joinx, n_subs, scales, from) == (if ch < m.len() {
            Some(ch)
        } else {
            None::<int>
        }),
    decreases ch - from,
{
    if from < ch {
        assert(joint_fits(m, joinx, n_subs, scales, from));
        lemma_first_misfit(m, joinx, n_subs, scales, from + 1, ch);
    }
}

/// Whether a pair fits depends on the shape of the samples alone.
proof fn lemma_pair_by_shape<T>(
    a: Seq<Vec<[T; 32]>>,
    b: Seq<Vec<[T; 32]>>,
    l: int,
    r: int,
    n_subs: Seq<usize>,
)
    requires
        same_shape(a, b),
        0 <= l,
        0 <= r,
    ensures
        pair_fits(a, l, r, n_subs) == pair_fits(b, l, r, n_subs),
{
    if l < a.len() && r < a.len() {
        assert(a[l]@.len() == b[l]@.len());
        assert(a[r]@.len() == b[r]@.len());
    }
}

proof fn lemma_shape_carries<T>(a: Seq<Vec<[T; 32]>>, b: Seq<Vec<[T; 32]>>, c: Seq<Vec<[T; 32]>>)
    requires
        same_shape(a, b),
        same_shape(b, c),
    ensures
        same_shape(a, c),
{
    assert forall|ch: int| 0 <= ch < a.len() implies (#[trigger] a[ch])@.len() == c[ch]@.len() by {
        assert(a[ch]@.len() == b[ch]@.len());
        assert(b[ch]@.len() == c[ch]@.len());
    }
}

} // verus!
