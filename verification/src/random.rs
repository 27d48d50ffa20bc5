//! Random choices, drawn from the thread-local generator of `rand`.
use vstd::prelude::*;
use rand::Rng;

verus! {

/// Calls `rand::Rng::gen_range(0..n)` on `rand::thread_rng()`: a number drawn
/// uniformly from `0..n`. Which one comes back is not stated, only that it is
/// below `n`; `gen_range` panics on an empty range, hence `n > 0`.
#[verifier::external_body]
pub(crate) fn random_below(n: usize) -> (r: usize)
    requires
        n > 0,
    ensures
        r < n,
{
    rand::thread_rng().gen_range(0..n)
}

/// Calls `rand::Rng::gen_ratio(numerator, denominator)` on `rand::thread_rng()`:
/// `true` with chance `numerator / denominator`. Its documentation promises
/// `false` for a zero numerator and `true` where the numerator equals the
/// denominator; otherwise the outcome is left open. It panics on a zero
/// denominator or a numerator above the denominator.
#[verifier::external_body]
pub(crate) fn random_ratio(numerator: u32, denominator: u32) -> (r: bool)
    requires
        0 < denominator,
        numerator <= denominator,
    ensures
        numerator == 0 ==> !r,
        numerator == denominator ==> r,
{
    rand::thread_rng().gen_ratio(numerator, denominator)
}

} // verus!
