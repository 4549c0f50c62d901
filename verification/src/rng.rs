use rand::seq::SliceRandom;
use rand::Rng;
use vstd::prelude::*;

verus! {

/// This thread's random generator, carried through the generator code.
#[verifier::external_type_specification]
#[verifier::external_body]
pub struct ExThreadRng(rand::rngs::ThreadRng);

/// Calls `rand::rng`, which hands out a handle to this thread's generator.
/// Nothing is claimed of the handle.
#[verifier::external_body]
pub(crate) fn thread_rng() -> rand::rngs::ThreadRng {
    rand::rng()
}

/// Calls `Rng::random_range` on `0..n`. The crate documents that the result
/// lies in the range and that an empty range panics, so `n` must be positive.
/// Which value comes out is left open.
#[verifier::external_body]
pub(crate) fn random_below(rng: &mut rand::rngs::ThreadRng, n: usize) -> (r: usize)
    requires
        n > 0,
    ensures
        r < n,
{
    rng.random_range(0..n)
}

/// Calls `SliceRandom::shuffle`, which permutes the slice in place. The
/// contract claims only that the same items come out, with the same
/// multiplicities; their order is left open.
#[verifier::external_body]
pub(crate) fn shuffle_indices(rng: &mut rand::rngs::ThreadRng, v: &mut Vec<usize>)
    ensures
        final(v)@.to_multiset() == old(v)@.to_multiset(),
{
    v.shuffle(rng)
}

/// Calls `Rng::random_ratio`, which returns `true` with chance `numerator`
/// in `denominator`. The crate documents that it panics when the
/// denominator is zero or below the numerator, and that the result is
/// always `true` when the two are equal and always `false` when the
/// numerator is zero. Nothing more is claimed of the outcome.
#[verifier::external_body]
pub(crate) fn random_ratio(rng: &mut rand::rngs::ThreadRng, numerator: u32, denominator: u32) -> (r: bool)
    requires
        0 < denominator,
        numerator <= denominator,
    ensures
        numerator == denominator ==> r,
        numerator == 0 ==> !r,
{
    rng.random_ratio(numerator, denominator)
}

} // verus!
