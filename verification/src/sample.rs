//! Pseudo-random sampling, through the `rand` crate.
//!
//! The partition rules draw integer samples from a fixed half-open range and
//! decide from the sample alone; everything after the draw is verified for
//! every possible sample value.

use vstd::prelude::*;
use rand::RngExt;

verus! {

#[verifier::external_type_specification]
#[verifier::external_body]
pub struct ExThreadRng(rand::rngs::ThreadRng);

/// Relies on rand::rng: a handle to the thread-local generator. It may panic
/// if the operating system cannot seed the generator the first time; that
/// does not depend on any argument.
#[verifier::external_body]
pub(crate) fn new_rng() -> rand::rngs::ThreadRng {
    rand::rng()
}

/// Relies on rand::RngExt::random_range over `0..bound`: a value uniformly
/// distributed in `[0, bound)`. The range is non-empty, so the call does not
/// panic. Nothing more can be promised of a random value.
#[verifier::external_body]
pub(crate) fn sample_below(rng: &mut rand::rngs::ThreadRng, bound: u32) -> (r: u32)
    requires
        bound > 0,
    ensures
        r < bound,
{
    rng.random_range(0..bound)
}

} // verus!
