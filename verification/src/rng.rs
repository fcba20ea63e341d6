//! The random numbers of the library come from `rand`'s thread-local
//! generator. Nothing is promised of their values beyond their range.

use vstd::prelude::*;
use rand::Rng;

verus! {

#[verifier::external_type_specification]
#[verifier::external_body]
pub struct ExThreadRng(rand::rngs::ThreadRng);

/// Calls `rand::rng()`, which hands out a handle to the thread-local
/// generator. Nothing is stated of the handle.
#[verifier::external_body]
pub(crate) fn thread_rng() -> rand::rngs::ThreadRng {
    rand::rng()
}

/// Calls `Rng::random::<u64>` on the generator: a uniformly distributed
/// `u64`. Its value is left unstated: it is random.
#[verifier::external_body]
pub(crate) fn random_u64(rng: &mut rand::rngs::ThreadRng) -> u64 {
    rng.random::<u64>()
}

/// Calls `Rng::random_range(0..n)`, which panics on an empty range and
/// otherwise returns a value of the range; which one is random.
#[verifier::external_body]
pub(crate) fn random_below(rng: &mut rand::rngs::ThreadRng, n: usize) -> (r: usize)
    requires
        n > 0,
    ensures
        r < n,
{
    rng.random_range(0..n)
}

} // verus!
