//! Sums of products over any kind of number, term by term.

use vstd::prelude::*;

verus! {

/// `sums` starts with `start` and takes in one term after the other.
pub open spec fn partial_sums<T, F: Fn(T, T, T) -> T>(
    mac: F,
    start: T,
    terms: Seq<(T, T)>,
    sums: Seq<T>,
) -> bool {
    &&& sums.len() == terms.len() + 1
    &&& sums[0] == start
    &&& forall|t: int|
        0 <= t < terms.len() ==> mac.ensures((#[trigger] sums[t], terms[t].0, terms[t].1), sums[t + 1])
}

/// `out` comes of `start` by taking in one term after the other.
pub open spec fn accumulates<T, F: Fn(T, T, T) -> T>(
    mac: F,
    start: T,
    terms: Seq<(T, T)>,
    out: T,
) -> bool {
    exists|sums: Seq<T>| #[trigger] partial_sums(mac, start, terms, sums) && sums.last() == out
}

} // verus!
