//! Trusted wrappers around the process-wide random number generator of the
//! rand crate.  Nothing is assumed of the distribution: only that a draw
//! lands in the requested range, which rand documents for non-empty ranges.

use vstd::prelude::*;

verus! {

/// Relies on rand::random_range over `0..bound`: the draw lies below
/// `bound`; the range is non-empty, so the call does not panic.
#[verifier::external_body]
pub(crate) fn sample_u64_below(bound: u64) -> (r: u64)
    requires
        bound > 0,
    ensures
        r < bound,
{
    rand::random_range(0..bound)
}

/// Relies on rand::random_range over `lo..=hi`: the draw lies between the
/// two bounds; the range is non-empty, so the call does not panic.
#[verifier::external_body]
pub(crate) fn sample_i32_between(lo: i32, hi: i32) -> (r: i32)
    requires
        lo <= hi,
    ensures
        lo <= r <= hi,
{
    rand::random_range(lo..=hi)
}

} // verus!
