//! Sums of runs of consecutive elements.

use vstd::prelude::*;

verus! {

/// The sum of the elements `s[lo], ..., s[hi - 1]`, as a mathematical
/// integer. An empty run (`hi <= lo`) sums to `0`.
pub open spec fn range_sum(s: Seq<i32>, lo: int, hi: int) -> int
    decreases hi - lo,
{
    if hi <= lo {
        0
    } else {
        range_sum(s, lo, hi - 1) + s[hi - 1]
    }
}

/// A run of one element sums to that element.
pub proof fn lemma_range_sum_single(s: Seq<i32>, k: int)
    ensures
        range_sum(s, k, k + 1) == s[k],
{
    assert(range_sum(s, k, k) == 0);
}

} // verus!
