//! The random source that seeds a field: the `rand` crate's thread-local
//! generator. Nothing here is proved; each item states what is taken on
//! trust from `rand`.

use rand::rngs::ThreadRng;
use rand::Rng;
use vstd::prelude::*;

verus! {

/// `rand::rngs::ThreadRng`, a handle to the generator of the current thread.
/// Its state is opaque to the proofs.
#[verifier::external_type_specification]
#[verifier::external_body]
pub struct ExThreadRng(rand::rngs::ThreadRng);

/// `rand::thread_rng` hands out the handle. Nothing is claimed of it. The
/// generator is seeded from the operating system on first use in a thread,
/// and `rand` panics if that source fails.
pub assume_specification[ rand::thread_rng ]() -> (rng: ThreadRng);

/// `Rng::gen_range` on the half-open range `0..bound`. `rand` refuses an
/// empty range by panicking, hence the precondition; for a non-empty one its
/// integer sampler returns the lower end plus an offset below the width of
/// the range, so the value lies in the range. Which value comes out is left
/// open.
#[verifier::external_body]
pub(crate) fn sample_below(rng: &mut ThreadRng, bound: u32) -> (value: u32)
    requires
        bound > 0,
    ensures
        value < bound,
{
    rng.gen_range(0..bound)
}

} // verus!
