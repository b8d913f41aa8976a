//! Draws of uniform randomness.
//!
//! Sampling goes through the `rand` crate. Nothing can be promised about
//! which value comes back, so each wrapper states only the range that the
//! drawn value lies in; every caller is verified for all values in that
//! range.

use vstd::prelude::*;

verus! {

/// Relies on rand's `random_range`: a value uniformly drawn from the given
/// non-empty half-open range, always within it.
#[verifier::external_body]
pub fn random_int_range(min: i64, max: i64) -> (r: i64)
    requires
        min < max,
    ensures
        min <= r < max,
{
    rand::random_range(min..max)
}

/// Relies on rand's `random_range`: an index uniformly drawn below `n`.
#[verifier::external_body]
pub fn random_index(n: usize) -> (r: usize)
    requires
        n > 0,
    ensures
        r < n,
{
    rand::random_range(0..n)
}

/// Relies on rand's `random`: an unbiased coin.
#[verifier::external_body]
pub fn random_coin() -> (r: bool)
{
    rand::random::<bool>()
}

} // verus!
