//! The process's random source, and the two draws the engine makes from it.

use rand::rngs::ThreadRng;
use rand::seq::SliceRandom;
use rand::Rng;
use vstd::prelude::*;

verus! {

/// `rand::rngs::ThreadRng`, the handle to the calling thread's generator. It
/// is carried from `rand::rng` to the draws and never looked into.
#[verifier::external_type_specification]
#[verifier::external_body]
pub struct ExThreadRng(ThreadRng);

/// `rand::rng` hands out the calling thread's generator. Nothing is claimed
/// of the handle.
pub assume_specification[ rand::rng ]() -> (source: ThreadRng)
;

/// `Rng::random_range` on a half-open range of `i64`: the value drawn lies in
/// the range, whatever the generator's state. The call does not return on an
/// empty range, which `requires` leaves out.
#[verifier::external_body]
pub(crate) fn random_range(source: &mut ThreadRng, low: i64, high: i64) -> (drawn: i64)
    requires
        low < high,
    ensures
        low <= drawn < high,
{
    source.random_range(low..high)
}

/// `SliceRandom::shuffle` reorders the elements in place: the same elements,
/// each as often as before, in an order that nothing is claimed of.
#[verifier::external_body]
pub(crate) fn shuffle<T>(source: &mut ThreadRng, items: &mut Vec<T>)
    ensures
        final(items)@.to_multiset() == old(items)@.to_multiset(),
{
    items.shuffle(source);
}

} // verus!
