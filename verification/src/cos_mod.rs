//! The cosine modulation of the 32-band synthesis filter, over any kind of
//! sample: which angle each table entry stands for, and which table entries
//! and subband samples meet in an output value.

use crate::sums::{accumulates, partial_sums};
use vstd::prelude::*;

verus! {

/// The number of entries in the modulation table.
pub const COS_MOD_LEN: usize = 544;

/// The first entry of the odd-odd cosines.
pub const COS_MOD_BLOCK1_START: usize = 0;

/// The first entry of the even-odd cosines.
pub const COS_MOD_BLOCK2_START: usize = 256;

/// The first entry of the factors of the sums.
pub const COS_MOD_BLOCK3_START: usize = 512;

/// The first entry of the factors of the differences.
pub const COS_MOD_BLOCK4_START: usize = 528;

/// What an entry of the modulation table is. An angle is `turns / parts`
/// times pi.
#[derive(Debug, Clone, Copy, PartialEq, Eq, Structural)]
pub enum CosModEntry {
    /// The cosine of the angle.
    Cosine {
        /// The numerator of the angle.
        turns: u32,
        /// The denominator of the angle.
        parts: u32,
    },
    /// A quarter over twice the cosine of the angle.
    SumFactor {
        /// The numerator of the angle.
        turns: u32,
        /// The denominator of the angle.
        parts: u32,
    },
    /// Minus a quarter over twice the sine of the angle.
    DifferenceFactor {
        /// The numerator of the angle.
        turns: u32,
        /// The denominator of the angle.
        parts: u32,
    },
}

/// Entry `j` of the modulation table: two 16 by 16 blocks of cosines, row by
/// row, then 16 factors for the sums and 16 for the differences.
pub open spec fn entry_at(j: int) -> CosModEntry {
    if j < 256 {
        CosModEntry::Cosine { turns: ((2 * (j % 16) + 1) * (2 * (j / 16) + 1)) as u32, parts: 64 }
    } else if j < 512 {
        CosModEntry::Cosine {
            turns: (((j - 256) % 16) * (2 * ((j - 256) / 16) + 1)) as u32,
            parts: 32,
        }
    } else if j < 528 {
        CosModEntry::SumFactor { turns: (2 * (j - 512) + 1) as u32, parts: 128 }
    } else {
        CosModEntry::DifferenceFactor { turns: (2 * (j - 528) + 1) as u32, parts: 128 }
    }
}

/// The entries of the modulation table, in order.
pub fn precal_cos_mod() -> (r: Vec<CosModEntry>)
    ensures
        r@.len() == 544,
        forall|j: int| 0 <= j < 544 ==> #[trigger] r@[j] == entry_at(j),
{
    let mut table: Vec<CosModEntry> = Vec::new();
    let mut k: u32 = 0;
    while k < 16
        invariant
            k <= 16,
            table@.len() == 16 * k,
            forall|j: int| 0 <= j < table@.len() ==> #[trigger] table@[j] == entry_at(j),
        decreases 16 - k,
    {
        let mut i: u32 = 0;
        while i < 16
            invariant
                k < 16,
                i <= 16,
                table@.len() == 16 * k + i,
                forall|j: int| 0 <= j < table@.len() ==> #[trigger] table@[j] == entry_at(j),
            decreases 16 - i,
        {
            assert((2 * i + 1) * (2 * k + 1) <= 31 * 31) by (nonlinear_arith)
                requires
                    i < 16,
                    k < 16,
            ;
            assert((16 * k + i) % 16 == i && (16 * k + i) / 16 == k as int);
            table.push(CosModEntry::Cosine { turns: (2 * i + 1) * (2 * k + 1), parts: 64 });
            i = i + 1;
        }
        k = k + 1;
    }
    k = 0;
    while k < 16
        invariant
            k <= 16,
            table@.len() == 256 + 16 * k,
            forall|j: int| 0 <= j < table@.len() ==> #[trigger] table@[j] == entry_at(j),
        decreases 16 - k,
    {
        let mut i: u32 = 0;
        while i < 16
            invariant
                k < 16,
                i <= 16,
                table@.len() == 256 + 16 * k + i,
                forall|j: int| 0 <= j < table@.len() ==> #[trigger] table@[j] == entry_at(j),
            decreases 16 - i,
        {
            assert(i * (2 * k + 1) <= 15 * 31) by (nonlinear_arith)
                requires
                    i < 16,
                    k < 16,
            ;
            assert((16 * k + i) % 16 == i && (16 * k + i) / 16 == k as int);
            table.push(CosModEntry::Cosine { turns: i * (2 * k + 1), parts: 32 });
            i = i + 1;
        }
        k = k + 1;
    }
    k = 0;
    while k < 16
        invariant
            k <= 16,
            table@.len() == 512 + k,
            forall|j: int| 0 <= j < table@.len() ==> #[trigger] table@[j] == entry_at(j),
        decreases 16 - k,
    {
        table.push(CosModEntry::SumFactor { turns: 2 * k + 1, parts: 128 });
        k = k + 1;
    }
    k = 0;
    while k < 16
        invariant
            k <= 16,
            table@.len() == 528 + k,
            forall|j: int| 0 <= j < table@.len() ==> #[trigger] table@[j] == entry_at(j),
        decreases 16 - k,
    {
        table.push(CosModEntry::DifferenceFactor { turns: 2 * k + 1, parts: 128 });
        k = k + 1;
    }
    table
}

/// The pairs of folded sample and table entry behind intermediate value `k`;
/// `start` is the first entry of the block.
pub open spec fn modulation_terms<T>(
    folded: Seq<T>,
    cos_mod: Seq<T>,
    start: int,
    k: int,
) -> Seq<(T, T)> {
    Seq::new(16, |i: int| (folded[i], cos_mod[start + 16 * k + i]))
}

/// `folded` holds each even subband sample plus the odd one behind it.
pub open spec fn folds_forward<T, A: Fn(T, T) -> T>(plus: A, xin: Seq<T>, folded: Seq<T>) -> bool {
    &&& folded.len() == 16
    &&& forall|i: int|
        0 <= i < 16 ==> plus.ensures((xin[2 * i], xin[2 * i + 1]), #[trigger] folded[i])
}

/// `folded` holds each even subband sample plus the odd one before it; the
/// first one stands alone.
pub open spec fn folds_backward<T, A: Fn(T, T) -> T>(
    plus: A,
    xin: Seq<T>,
    folded: Seq<T>,
) -> bool {
    &&& folded.len() == 16
    &&& folded[0] == xin[0]
    &&& forall|i: int|
        0 < i < 16 ==> plus.ensures((xin[2 * i], xin[2 * i - 1]), #[trigger] folded[i])
}

/// `sums` holds the 16 intermediate values of a block.
pub open spec fn modulates<T, M: Fn(T, T, T) -> T>(
    mac: M,
    zero: T,
    folded: Seq<T>,
    cos_mod: Seq<T>,
    start: int,
    sums: Seq<T>,
) -> bool {
    &&& sums.len() == 16
    &&& forall|k: int|
        0 <= k < 16 ==> accumulates(
            mac,
            zero,
            modulation_terms(folded, cos_mod, start, k),
            #[trigger] sums[k],
        )
}

/// `out` holds the scaled sums of `a` and `b` in its lower half and their
/// scaled differences, last one first, in its upper half.
pub open spec fn combines<T, A: Fn(T, T) -> T, S: Fn(T, T) -> T, P: Fn(T, T) -> T>(
    plus: A,
    minus: S,
    times: P,
    a: Seq<T>,
    b: Seq<T>,
    cos_mod: Seq<T>,
    out: Seq<T>,
) -> bool {
    &&& out.len() == 32
    &&& forall|k: int|
        0 <= k < 16 ==> scaled_pair(plus, times, a[k], b[k], cos_mod[512 + k], #[trigger] out[k])
    &&& forall|n: int|
        16 <= n < 32 ==> scaled_pair(
            minus,
            times,
            a[31 - n],
            b[31 - n],
            cos_mod[528 + (31 - n)],
            #[trigger] out[n],
        )
}

/// `out` is `factor` times the combination of `x` and `y`.
pub open spec fn scaled_pair<T, A: Fn(T, T) -> T, P: Fn(T, T) -> T>(
    combine: A,
    times: P,
    x: T,
    y: T,
    factor: T,
    out: T,
) -> bool {
    exists|c: T| #[trigger] combine.ensures((x, y), c) && times.ensures((factor, c), out)
}

/// `out` is the modulation of the 32 subband samples `xin`.
pub open spec fn modulation<
    T,
    A: Fn(T, T) -> T,
    S: Fn(T, T) -> T,
    M: Fn(T, T, T) -> T,
    P: Fn(T, T) -> T,
>(plus: A, minus: S, mac: M, times: P, zero: T, xin: Seq<T>, cos_mod: Seq<T>, out: Seq<T>) -> bool {
    exists|p: Seq<T>, q: Seq<T>, a: Seq<T>, b: Seq<T>|
        {
            &&& #[trigger] folds_forward(plus, xin, p)
            &&& #[trigger] folds_backward(plus, xin, q)
            &&& #[trigger] modulates(mac, zero, p, cos_mod, 0, a)
            &&& #[trigger] modulates(mac, zero, q, cos_mod, 256, b)
            &&& combines(plus, minus, times, a, b, cos_mod, out)
        }
}

/// The 16 intermediate values of a block.
fn modulate<T: Copy, M: Fn(T, T, T) -> T>(
    folded: &[T],
    cos_mod: &[T; 544],
    start: usize,
    zero: T,
    mac: &M,
) -> (r: Vec<T>)
    requires
        folded@.len() == 16,
        start + 256 <= 544,
        forall|s: T, x: T, c: T| mac.requires((s, x, c)),
    ensures
        modulates(*mac, zero, folded@, cos_mod@, start as int, r@),
{
    let mut out: Vec<T> = Vec::new();
    let mut k: usize = 0;
    while k < 16
        invariant
            folded@.len() == 16,
            start + 256 <= 544,
            forall|s: T, x: T, c: T| mac.requires((s, x, c)),
            k <= 16,
            out@.len() == k,
            forall|n: int|
                0 <= n < k ==> accumulates(
                    *mac,
                    zero,
                    modulation_terms(folded@, cos_mod@, start as int, n),
                    #[trigger] out@[n],
                ),
        decreases 16 - k,
    {
        let ghost terms: Seq<(T, T)> = modulation_terms(
            folded@,
            cos_mod@,
            start as int,
            k as int,
        );
        let mut acc: T = zero;
        let ghost mut sums: Seq<T> = seq![acc];
        let mut i: usize = 0;
        while i < 16
            invariant
                folded@.len() == 16,
                start + 256 <= 544,
                k < 16,
                forall|s: T, x: T, c: T| mac.requires((s, x, c)),
                terms == modulation_terms(folded@, cos_mod@, start as int, k as int),
                i <= 16,
                partial_sums(*mac, zero, terms.subrange(0, i as int), sums),
                sums.last() == acc,
            decreases 16 - i,
        {
            let next: T = (*mac)(acc, folded[i], cos_mod[start + 16 * k + i]);
            proof {
                let done: Seq<(T, T)> = terms.subrange(0, i + 1);
                let more: Seq<T> = sums.push(next);
                assert forall|t: int| 0 <= t < done.len() implies (*mac).ensures(
                    (#[trigger] more[t], done[t].0, done[t].1),
                    more[t + 1],
                ) by {
                    if t < i {
                        assert(more[t] == sums[t] && more[t + 1] == sums[t + 1]);
                        assert(done[t] == terms.subrange(0, i as int)[t]);
                    }
                }
                sums = more;
            }
            acc = next;
            i = i + 1;
        }
        assert(terms.subrange(0, 16) =~= terms);
        assert(partial_sums(*mac, zero, terms, sums));
        out.push(acc);
        k = k + 1;
    }
    out
}

/// The modulation of 32 subband samples. `plus`, `minus`, `mac` and `times` are
/// the arithmetic of the samples: sum, difference, sum with a product, product.
pub fn cos_mod_stage<
    T: Copy,
    A: Fn(T, T) -> T,
    S: Fn(T, T) -> T,
    M: Fn(T, T, T) -> T,
    P: Fn(T, T) -> T,
>(
    ra_xin: &[T; 32],
    ra_cos_mod: &[T; 544],
    zero: T,
    plus: A,
    minus: S,
    mac: M,
    times: P,
) -> (r: [T; 32])
    requires
        forall|x: T, y: T| plus.requires((x, y)),
        forall|x: T, y: T| minus.requires((x, y)),
        forall|s: T, x: T, c: T| mac.requires((s, x, c)),
        forall|x: T, y: T| times.requires((x, y)),
    ensures
        modulation(plus, minus, mac, times, zero, ra_xin@, ra_cos_mod@, r@),
{
    let mut p: Vec<T> = Vec::new();
    let mut q: Vec<T> = Vec::new();
    let mut i: usize = 0;
    while i < 16
        invariant
            forall|x: T, y: T| plus.requires((x, y)),
            i <= 16,
            p@.len() == i,
            q@.len() == i,
            i > 0 ==> q@[0] == ra_xin@[0],
            forall|n: int|
                0 <= n < i ==> plus.ensures((ra_xin@[2 * n], ra_xin@[2 * n + 1]), #[trigger] p@[n]),
            forall|n: int|
                0 < n < i ==> plus.ensures((ra_xin@[2 * n], ra_xin@[2 * n - 1]), #[trigger] q@[n]),
        decreases 16 - i,
    {
        let forward: T = plus(ra_xin[2 * i], ra_xin[2 * i + 1]);
        let backward: T = if i > 0 {
            plus(ra_xin[2 * i], ra_xin[2 * i - 1])
        } else {
            ra_xin[0]
        };
        p.push(forward);
        q.push(backward);
        i = i + 1;
    }
    let a: Vec<T> = modulate(p.as_slice(), ra_cos_mod, COS_MOD_BLOCK1_START, zero, &mac);
    let b: Vec<T> = modulate(q.as_slice(), ra_cos_mod, COS_MOD_BLOCK2_START, zero, &mac);
    let mut out: [T; 32] = [zero;32];
    let mut k: usize = 0;
    while k < 16
        invariant
            forall|x: T, y: T| plus.requires((x, y)),
            forall|x: T, y: T| minus.requires((x, y)),
            forall|x: T, y: T| times.requires((x, y)),
            k <= 16,
            a@.len() == 16,
            b@.len() == 16,
            forall|n: int|
                0 <= n < k ==> scaled_pair(
                    plus,
                    times,
                    a@[n],
                    b@[n],
                    ra_cos_mod@[512 + n],
                    #[trigger] out@[n],
                ),
            forall|n: int|
                32 - k <= n < 32 ==> scaled_pair(
                    minus,
                    times,
                    a@[31 - n],
                    b@[31 - n],
                    ra_cos_mod@[528 + (31 - n)],
                    #[trigger] out@[n],
                ),
        decreases 16 - k,
    {
        let sum: T = plus(a[k], b[k]);
        let low: T = times(ra_cos_mod[COS_MOD_BLOCK3_START + k], sum);
        let difference: T = minus(a[k], b[k]);
        let high: T = times(ra_cos_mod[COS_MOD_BLOCK4_START + k], difference);
        assert(scaled_pair(plus, times, a@[k as int], b@[k as int], ra_cos_mod@[512 + k], low));
        assert(scaled_pair(minus, times, a@[k as int], b@[k as int], ra_cos_mod@[528 + k], high));
        out[k] = low;
        out[31 - k] = high;
        k = k + 1;
    }
    assert(folds_forward(plus, ra_xin@, p@));
    assert(folds_backward(plus, ra_xin@, q@));
    assert(modulates(mac, zero, p@, ra_cos_mod@, 0, a@));
    assert(modulates(mac, zero, q@, ra_cos_mod@, 256, b@));
    assert(combines(plus, minus, times, a@, b@, ra_cos_mod@, out@));
    out
}

/// The sum, over the first `n` even subband samples, of the sample and the odd one next to
/// it, times the table entry of that place. The odd one is the one behind it, or with
/// `backward` the one before it, which the first sample does not have.
pub open spec fn folded_sum(xin: Seq<i64>, table: Seq<i64>, row: int, backward: bool, n: nat) -> int
    decreases n,
{
    if n == 0 {
        0
    } else {
        let i: int = n - 1;
        let next: int = if !backward {
            xin[2 * i + 1] as int
        } else if i == 0 {
            0
        } else {
            xin[2 * i - 1] as int
        };
        folded_sum(xin, table, row, backward, (n - 1) as nat) + (xin[2 * i] + next) * table[row + i]
    }
}

/// The arithmetic of whole numbers.
pub open spec fn whole_numbers<
    A: Fn(i64, i64) -> i64,
    S: Fn(i64, i64) -> i64,
    M: Fn(i64, i64, i64) -> i64,
    P: Fn(i64, i64) -> i64,
>(plus: A, minus: S, mac: M, times: P) -> bool {
    &&& forall|x: i64, y: i64, r: i64| #[trigger] plus.ensures((x, y), r) ==> r == x + y
    &&& forall|x: i64, y: i64, r: i64| #[trigger] minus.ensures((x, y), r) ==> r == x - y
    &&& forall|s: i64, x: i64, y: i64, r: i64| #[trigger]
        mac.ensures((s, x, y), r) ==> r == s + x * y
    &&& forall|x: i64, y: i64, r: i64| #[trigger] times.ensures((x, y), r) ==> r == x * y
}

/// With the arithmetic of whole numbers, output `k` and output `31 - k` of the modulation
/// come of the same two sums over the subband samples, the one with row `k` of the first
/// block of the table and the one with row `k` of the second block: their sum times sum
/// factor `k`, and their difference times difference factor `k`.
pub proof fn law_modulation_by_sums<
    A: Fn(i64, i64) -> i64,
    S: Fn(i64, i64) -> i64,
    M: Fn(i64, i64, i64) -> i64,
    P: Fn(i64, i64) -> i64,
>(
    plus: A,
    minus: S,
    mac: M,
    times: P,
    xin: Seq<i64>,
    table: Seq<i64>,
    out: Seq<i64>,
    k: int,
)
    requires
        whole_numbers(plus, minus, mac, times),
        modulation(plus, minus, mac, times, 0i64, xin, table, out),
        0 <= k < 16,
    ensures
        ({
            let first: int = folded_sum(xin, table, 16 * k, false, 16);
            let second: int = folded_sum(xin, table, 256 + 16 * k, true, 16);
            &&& out.len() == 32
            &&& out[k] == table[512 + k] * (first + second)
            &&& out[31 - k] == table[528 + k] * (first - second)
        }),
{
    let (p, q, a, b) = choose|p: Seq<i64>, q: Seq<i64>, a: Seq<i64>, b: Seq<i64>|
        {
            &&& #[trigger] folds_forward(plus, xin, p)
            &&& #[trigger] folds_backward(plus, xin, q)
            &&& #[trigger] modulates(mac, 0i64, p, table, 0, a)
            &&& #[trigger] modulates(mac, 0i64, q, table, 256, b)
            &&& combines(plus, minus, times, a, b, table, out)
        };
    assert(accumulates(mac, 0i64, modulation_terms(p, table, 0, k), a[k]));
    assert(accumulates(mac, 0i64, modulation_terms(q, table, 256, k), b[k]));
    let ps: Seq<i64> = choose|sums: Seq<i64>| #[trigger]
        partial_sums(mac, 0i64, modulation_terms(p, table, 0, k), sums) && sums.last() == a[k];
    let qs: Seq<i64> = choose|sums: Seq<i64>| #[trigger]
        partial_sums(mac, 0i64, modulation_terms(q, table, 256, k), sums) && sums.last() == b[k];
    assert forall|i: int| 0 <= i < 16 implies #[trigger] p[i] == xin[2 * i] + xin[2 * i + 1] by {
        assert(plus.ensures((xin[2 * i], xin[2 * i + 1]), p[i]));
    }
    assert forall|i: int| 0 < i < 16 implies #[trigger] q[i] == xin[2 * i] + xin[2 * i - 1] by {
        assert(plus.ensures((xin[2 * i], xin[2 * i - 1]), q[i]));
    }
    lemma_folded_sums(mac, xin, p, table, 0, k, false, ps, 16);
    lemma_folded_sums(mac, xin, q, table, 256, k, true, qs, 16);
    assert(scaled_pair(plus, times, a[k], b[k], table[512 + k], out[k]));
    let n: int = 31 - k;
    assert(scaled_pair(minus, times, a[31 - n], b[31 - n], table[528 + (31 - n)], out[n]));
    let sum: i64 = choose|c: i64| #[trigger]
        plus.ensures((a[k], b[k]), c) && times.ensures((table[512 + k], c), out[k]);
    let difference: i64 = choose|c: i64| #[trigger]
        minus.ensures((a[k], b[k]), c) && times.ensures((table[528 + k], c), out[n]);
    assert(sum == a[k] + b[k] && difference == a[k] - b[k]);
}

/// The partial sums of a row are the sums over the folded samples.
proof fn lemma_folded_sums<M: Fn(i64, i64, i64) -> i64>(
    mac: M,
    xin: Seq<i64>,
    folded: Seq<i64>,
    table: Seq<i64>,
    start: int,
    k: int,
    backward: bool,
    sums: Seq<i64>,
    n: nat,
)
    requires
        forall|s: i64, x: i64, y: i64, r: i64| #[trigger]
            mac.ensures((s, x, y), r) ==> r == s + x * y,
        partial_sums(mac, 0i64, modulation_terms(folded, table, start, k), sums),
        !backward ==> forall|i: int|
            0 <= i < 16 ==> #[trigger] folded[i] == xin[2 * i] + xin[2 * i + 1],
        backward ==> folded[0] == xin[0] && forall|i: int|
            0 < i < 16 ==> #[trigger] folded[i] == xin[2 * i] + xin[2 * i - 1],
        n <= 16,
    ensures
        sums[n as int] == folded_sum(xin, table, start + 16 * k, backward, n),
    decreases n,
{
    if n > 0 {
        let i: int = n - 1;
        let terms: Seq<(i64, i64)> = modulation_terms(folded, table, start, k);
        lemma_folded_sums(mac, xin, folded, table, start, k, backward, sums, (n - 1) as nat);
        assert(mac.ensures((sums[i], terms[i].0, terms[i].1), sums[i + 1]));
        assert(terms[i] == (folded[i], table[start + 16 * k + i]));
    }
}

} // verus!
