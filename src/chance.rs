//! The source of randomness: uniform draws of small integers.
use vstd::prelude::*;
use rand::Rng;

verus! {

/// Relies on `rand::Rng::gen_range` over the thread-local generator of
/// `rand::thread_rng`: a draw from the half-open range `0..n`, which panics
/// when the range is empty.
#[verifier::external_body]
pub(crate) fn random_below(n: u64) -> (r: u64)
    requires
        n > 0,
    ensures
        r < n,
{
    rand::thread_rng().gen_range(0..n)
}

} // verus!
