//! Maximum subarray sums: the largest sum that a run of consecutive elements
//! of a sequence of `i32` values can reach, computed in one pass and proved
//! against the definition over all runs.

pub mod maximum;
pub mod one_pass;
pub mod range_sum;
