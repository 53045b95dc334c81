//! The random numbers that bomb placement draws, from the `rand` crate.

use rand::Rng;
use vstd::prelude::*;

verus! {

#[verifier::external_type_specification]
#[verifier::external_body]
pub struct ExThreadRng(rand::rngs::ThreadRng);

/// `rand::rng()`: a handle to the thread-local generator. Nothing is claimed
/// of the generator's state.
#[verifier::external_body]
pub(crate) fn thread_rng() -> rand::rngs::ThreadRng {
    rand::rng()
}

/// `Rng::random_range` on the range `0..n`. Its source asserts that the range
/// is not empty (hence `n > 0`) and samples a value inside it; which value
/// comes back is left to chance and is not stated.
#[verifier::external_body]
pub(crate) fn random_below(rng: &mut rand::rngs::ThreadRng, n: usize) -> (r: usize)
    requires
        n > 0,
    ensures
        r < n,
{
    rng.random_range(0..n)
}

} // verus!
