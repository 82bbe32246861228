//! The random source: the thread-local generator of the `rand` crate.

use rand::Rng;
use vstd::prelude::*;

verus! {

/// Draws an index below `bound` from `rand::thread_rng()` with
/// `Rng::gen_range(0..bound)`.
///
/// Not verified: the contract repeats what `rand` documents, that the value
/// lies in the half-open range, and leaves out the empty range, on which
/// `gen_range` panics. Which value comes is left open: two calls may differ.
/// `thread_rng` itself panics where the system gives it no seed; no argument
/// of this function can bring that about or prevent it.
#[verifier::external_body]
pub(crate) fn random_below(bound: usize) -> (drawn: usize)
    requires
        bound > 0,
    ensures
        drawn < bound,
{
    rand::thread_rng().gen_range(0..bound)
}

} // verus!
