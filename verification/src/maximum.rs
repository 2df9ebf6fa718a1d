//! The maximum subarray sum as a mathematical notion: what it is, that it
//! exists and is unique, and how it grows when one more element is taken in.

use vstd::prelude::*;
use vstd::math::max;
use crate::range_sum::{lemma_range_sum_single, range_sum};

verus! {

/// `m` is the largest sum of a non-empty run `s[lo..hi]` that ends just
/// before position `hi`: some such run sums to `m`, and none sums to more.
pub open spec fn is_max_sum_ending_at(s: Seq<i32>, hi: int, m: int) -> bool {
    &&& exists|lo: int| 0 <= lo < hi && #[trigger] range_sum(s, lo, hi) == m
    &&& forall|lo: int| 0 <= lo < hi ==> #[trigger] range_sum(s, lo, hi) <= m
}

/// `m` is the largest sum of a non-empty run `s[lo..hi]` that lies within
/// the first `n` elements: some such run sums to `m`, and none sums to more.
pub open spec fn is_max_sum_within(s: Seq<i32>, n: int, m: int) -> bool {
    &&& exists|lo: int, hi: int| 0 <= lo < hi <= n && #[trigger] range_sum(s, lo, hi) == m
    &&& forall|lo: int, hi: int| 0 <= lo < hi <= n ==> #[trigger] range_sum(s, lo, hi) <= m
}

/// `m` is the largest sum of a non-empty run of consecutive elements of `s`.
/// No `m` qualifies when `s` is empty, since it then has no such run.
pub open spec fn is_max_subarray_sum(s: Seq<i32>, m: int) -> bool {
    is_max_sum_within(s, s.len() as int, m)
}

/// The maximum subarray sum of `s`: the largest sum of a non-empty run of
/// consecutive elements, and `0` by convention when `s` is empty.
pub open spec fn max_subarray_sum(s: Seq<i32>) -> int {
    if s.len() == 0 {
        0
    } else {
        choose|m: int| is_max_subarray_sum(s, m)
    }
}

/// The only run within the first element is that element alone.
pub proof fn lemma_first_element(s: Seq<i32>)
    requires
        s.len() > 0,
    ensures
        is_max_sum_ending_at(s, 1, s[0] as int),
        is_max_sum_within(s, 1, s[0] as int),
{
    lemma_range_sum_single(s, 0);
}

/// Going from the first `k` elements to the first `k + 1`: the best run that
/// ends with `s[k]` either is that element alone or prolongs the best run
/// that ended before it, and the best run overall is the better of the old
/// best and this one.
pub proof fn lemma_next_element(s: Seq<i32>, k: int, ending: int, within: int)
    requires
        0 < k < s.len(),
        is_max_sum_ending_at(s, k, ending),
        is_max_sum_within(s, k, within),
    ensures
        is_max_sum_ending_at(s, k + 1, max(s[k] as int, ending + s[k])),
        is_max_sum_within(s, k + 1, max(within, max(s[k] as int, ending + s[k]))),
{
    let x = s[k] as int;
    let ending_next = max(x, ending + x);
    let within_next = max(within, ending_next);
    lemma_range_sum_single(s, k);

    let lo_ending = choose|lo: int| 0 <= lo < k && #[trigger] range_sum(s, lo, k) == ending;
    assert(range_sum(s, lo_ending, k + 1) == ending + x);
    assert(range_sum(s, k, k + 1) == x);
    assert forall|lo: int| 0 <= lo < k + 1 implies #[trigger] range_sum(s, lo, k + 1)
        <= ending_next by {
        if lo < k {
            assert(range_sum(s, lo, k + 1) == range_sum(s, lo, k) + x);
        }
    }
    assert(is_max_sum_ending_at(s, k + 1, ending_next));

    let (lo_within, hi_within) = choose|lo: int, hi: int|
        0 <= lo < hi <= k && #[trigger] range_sum(s, lo, hi) == within;
    assert(range_sum(s, lo_within, hi_within) == within);
    assert forall|lo: int, hi: int| 0 <= lo < hi <= k + 1 implies #[trigger] range_sum(
        s,
        lo,
        hi,
    ) <= within_next by {
        if hi == k + 1 {
            assert(range_sum(s, lo, k + 1) <= ending_next);
        }
    }
}

/// For every `n >= 1` the two maxima over the first `n` elements exist.
proof fn lemma_maxima_exist(s: Seq<i32>, n: int) -> (m: (int, int))
    requires
        1 <= n <= s.len(),
    ensures
        is_max_sum_ending_at(s, n, m.0),
        is_max_sum_within(s, n, m.1),
    decreases n,
{
    if n == 1 {
        lemma_first_element(s);
        (s[0] as int, s[0] as int)
    } else {
        let (ending, within) = lemma_maxima_exist(s, n - 1);
        lemma_next_element(s, n - 1, ending, within);
        let ending_next = max(s[n - 1] as int, ending + s[n - 1]);
        (ending_next, max(within, ending_next))
    }
}

/// A sequence has at most one maximum subarray sum.
pub proof fn lemma_maximum_is_unique(s: Seq<i32>, a: int, b: int)
    requires
        is_max_subarray_sum(s, a),
        is_max_subarray_sum(s, b),
    ensures
        a == b,
{
}

/// For every non-empty sequence, `max_subarray_sum` is the maximum over all
/// pairs `lo < hi` within bounds of the sum of `s[lo..hi]`: one such run
/// sums to it, and every such run sums to at most it.
pub proof fn lemma_max_subarray_sum_is_maximum(s: Seq<i32>)
    requires
        s.len() > 0,
    ensures
        is_max_subarray_sum(s, max_subarray_sum(s)),
{
    let m = lemma_maxima_exist(s, s.len() as int);
    assert(is_max_subarray_sum(s, m.1));
}

/// Whatever qualifies as the maximum subarray sum of `s` is the value of
/// `max_subarray_sum(s)`.
pub proof fn lemma_maximum_is_max_subarray_sum(s: Seq<i32>, m: int)
    requires
        is_max_subarray_sum(s, m),
    ensures
        max_subarray_sum(s) == m,
{
    lemma_maximum_is_unique(s, m, max_subarray_sum(s));
}

/// The maximum subarray sum of a one-element sequence is that element,
/// whatever its sign.
pub proof fn lemma_max_subarray_sum_of_one(s: Seq<i32>)
    requires
        s.len() == 1,
    ensures
        max_subarray_sum(s) == s[0],
{
    lemma_first_element(s);
    lemma_maximum_is_max_subarray_sum(s, s[0] as int);
}

} // verus!
