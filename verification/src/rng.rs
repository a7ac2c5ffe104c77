//! Trusted boundary to the `rand` crate.
//!
//! The engine never inspects how randomness is produced; every use of `rand`
//! goes through one of the wrappers below, whose contracts state only what
//! holds of every possible outcome.

use vstd::prelude::*;

verus! {

/// Relies on `rand::seq::SliceRandom::shuffle`, which permutes the slice in
/// place by swapping elements, so the length and the multiset of elements are
/// preserved.  Nothing is assumed about the resulting order.
#[verifier::external_body]
pub(crate) fn shuffle<T>(v: &mut Vec<T>)
    ensures
        final(v)@.len() == old(v)@.len(),
        final(v)@.to_multiset() == old(v)@.to_multiset(),
{
    rand::seq::SliceRandom::shuffle(v.as_mut_slice(), &mut rand::thread_rng());
}

/// Relies on `rand::Rng::gen_range`, which returns a value of the given
/// non-empty range (it panics on an empty one, which the precondition rules
/// out).  Nothing is assumed about which value comes back.
#[verifier::external_body]
pub(crate) fn random_index(n: usize) -> (i: usize)
    requires
        n > 0,
    ensures
        i < n,
{
    rand::Rng::gen_range(&mut rand::thread_rng(), 0..n)
}

} // verus!
