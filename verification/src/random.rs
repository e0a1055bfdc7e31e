//! The random source that seeds a grid.

use rand::rngs::ThreadRng;
use rand::RngExt;
use vstd::prelude::*;

verus! {

/// The thread-local generator of `rand`; opaque here.
#[verifier::external_type_specification]
#[verifier::external_body]
pub struct ExThreadRng(ThreadRng);

/// Calls `rand::rng`, which hands out this thread's generator. Nothing is
/// claimed of its state; it panics only if the operating system cannot seed it.
#[verifier::external_body]
pub(crate) fn thread_rng() -> ThreadRng {
    rand::rng()
}

/// Calls `RngExt::random_ratio`, which returns `true` with probability
/// `numerator / denominator`. Its documentation promises `true` when the two
/// are equal and `false` when the numerator is 0; it panics when the
/// denominator is 0 or smaller than the numerator, which `requires` leaves out.
/// It also panics if the operating system cannot reseed the generator, which
/// depends on the machine, not on the arguments. Any other outcome is chance,
/// and nothing is claimed of it.
#[verifier::external_body]
pub(crate) fn random_ratio(rng: &mut ThreadRng, numerator: u32, denominator: u32) -> (coin: bool)
    requires
        0 < denominator,
        numerator <= denominator,
    ensures
        numerator == denominator ==> coin,
        numerator == 0 ==> !coin,
{
    rng.random_ratio(numerator, denominator)
}

} // verus!
