//! The one-pass computation of the maximum subarray sum.
//!
//! Both functions walk the slice once and keep two numbers: the best sum of
//! a run that ends at the element just read, and the best sum of any run
//! read so far. The sums are `i32`, like the elements. `kadane` asks that
//! the result fit and then never overflows; `checked_kadane` takes every
//! slice and reports the ones whose result does not fit.

use vstd::prelude::*;
use vstd::math::max;
use crate::maximum::{
    is_max_subarray_sum, is_max_sum_ending_at, is_max_sum_within, lemma_first_element,
    lemma_max_subarray_sum_is_maximum, lemma_max_subarray_sum_of_one,
    lemma_maximum_is_max_subarray_sum, lemma_next_element, max_subarray_sum,
};
use crate::range_sum::range_sum;

verus! {

/// The maximum subarray sum is larger than `i32::MAX`.
#[derive(Clone, Copy, Debug, PartialEq, Eq)]
pub struct ArithmeticOverflow;

/// The maximum subarray sum of `arr`: the largest sum of a non-empty run of
/// consecutive elements, and `0` for an empty slice.
///
/// The result depends on the elements of `arr` alone, and `arr` is only
/// read. The sum has to fit in the `i32` that is returned; `checked_kadane`
/// is for callers that cannot tell beforehand. Given that it fits, no
/// addition made on the way overflows.
pub fn kadane(arr: &[i32]) -> (best: i32)
    requires
        max_subarray_sum(arr@) <= i32::MAX,
    ensures
        best == max_subarray_sum(arr@),
        arr@.len() == 0 ==> best == 0,
        arr@.len() == 1 ==> best == arr@[0],
        arr@.len() > 0 ==> is_max_subarray_sum(arr@, best as int),
{
    if arr.is_empty() {
        return 0;
    }
    let mut max_current: i32 = arr[0];
    let mut max_global: i32 = arr[0];
    proof {
        lemma_first_element(arr@);
    }

    for i in 1..arr.len()
        invariant
            is_max_sum_ending_at(arr@, i as int, max_current as int),
            is_max_sum_within(arr@, i as int, max_global as int),
            max_subarray_sum(arr@) <= i32::MAX,
    {
        let num: i32 = arr[i];
        proof {
            lemma_next_element(arr@, i as int, max_current as int, max_global as int);
            lemma_ending_sum_is_at_most_maximum(
                arr@,
                i + 1,
                max(num as int, max_current + num),
            );
        }
        // max(num, max_current + num): a negative sum so far cannot help.
        max_current = if max_current < 0 {
            num
        } else {
            max_current + num
        };
        max_global = if max_global < max_current {
            max_current
        } else {
            max_global
        };
    }

    proof {
        lemma_maximum_is_max_subarray_sum(arr@, max_global as int);
        if arr@.len() == 1 {
            lemma_max_subarray_sum_of_one(arr@);
        }
    }
    max_global
}

/// The maximum subarray sum of `arr` where it fits in an `i32`, and
/// `ArithmeticOverflow` where it does not: `Ok` exactly when
/// `max_subarray_sum(arr@) <= i32::MAX`.
///
/// The result depends on the elements of `arr` alone, and `arr` is only
/// read.
pub fn checked_kadane(arr: &[i32]) -> (result: Result<i32, ArithmeticOverflow>)
    ensures
        result is Ok <==> max_subarray_sum(arr@) <= i32::MAX,
        result matches Ok(best) ==> best == max_subarray_sum(arr@),
        result matches Ok(best) ==> arr@.len() > 0 ==> is_max_subarray_sum(arr@, best as int),
        arr@.len() == 0 ==> result == Ok::<i32, ArithmeticOverflow>(0),
        arr@.len() == 1 ==> result == Ok::<i32, ArithmeticOverflow>(arr@[0]),
{
    if arr.is_empty() {
        return Ok(0);
    }
    let mut max_current: i32 = arr[0];
    let mut max_global: i32 = arr[0];
    proof {
        lemma_first_element(arr@);
    }

    for i in 1..arr.len()
        invariant
            is_max_sum_ending_at(arr@, i as int, max_current as int),
            is_max_sum_within(arr@, i as int, max_global as int),
    {
        let num: i32 = arr[i];
        proof {
            lemma_next_element(arr@, i as int, max_current as int, max_global as int);
            lemma_ending_sum_is_at_most_maximum(
                arr@,
                i + 1,
                max(num as int, max_current + num),
            );
        }
        if max_current < 0 {
            max_current = num;
        } else {
            match max_current.checked_add(num) {
                Some(sum) => {
                    max_current = sum;
                },
                None => {
                    return Err(ArithmeticOverflow);
                },
            }
        }
        if max_global < max_current {
            max_global = max_current;
        }
    }

    proof {
        lemma_maximum_is_max_subarray_sum(arr@, max_global as int);
        if arr@.len() == 1 {
            lemma_max_subarray_sum_of_one(arr@);
        }
    }
    Ok(max_global)
}

/// The best sum of a run that ends before `hi` is the sum of a run of `s`,
/// so the maximum subarray sum of `s` is at least as large.
proof fn lemma_ending_sum_is_at_most_maximum(s: Seq<i32>, hi: int, ending: int)
    requires
        hi <= s.len(),
        is_max_sum_ending_at(s, hi, ending),
    ensures
        ending <= max_subarray_sum(s),
{
    let lo = choose|lo: int| 0 <= lo < hi && #[trigger] range_sum(s, lo, hi) == ending;
    lemma_max_subarray_sum_is_maximum(s);
    assert(range_sum(s, lo, hi) <= max_subarray_sum(s));
}

} // verus!
