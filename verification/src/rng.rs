//! The library's only source of randomness: a thread-local generator handle
//! passed explicitly through every sampling and selection call.
//!
//! Nothing is assumed about which values come out, only about their shape:
//! how many positions are drawn, that they are in range, and that a draw
//! without replacement repeats no position.

use vstd::prelude::*;
use rand::seq::IteratorRandom;

verus! {

#[verifier::external_type_specification]
#[verifier::external_body]
pub struct ExThreadRng(rand::rngs::ThreadRng);

/// Relies on rand::rng: a handle to the thread-local generator.
#[verifier::external_body]
pub fn new_rng() -> rand::rngs::ThreadRng {
    rand::rng()
}

/// Relies on rand::seq::IteratorRandom::sample over the range `0..n`: a
/// uniform sample without replacement of `min(k, n)` positions, so the
/// positions are pairwise distinct and all below `n`.
#[verifier::external_body]
pub fn sample_indices(n: usize, k: usize, rng: &mut rand::rngs::ThreadRng) -> (r: Vec<usize>)
    ensures
        r@.len() == vstd::math::min(k as int, n as int),
        forall|i: int| 0 <= i < r@.len() ==> r@[i] < n,
        forall|i: int, j: int| 0 <= i < j < r@.len() ==> r@[i] != r@[j],
{
    (0..n).sample(rng, k)
}

/// Relies on rand::seq::IteratorRandom::choose over the range `0..n`: `None`
/// exactly when the range is empty, otherwise one uniformly drawn position.
#[verifier::external_body]
pub fn choose_index(n: usize, rng: &mut rand::rngs::ThreadRng) -> (r: Option<usize>)
    ensures
        (r is None) <==> n == 0,
        (r matches Some(i) ==> i < n),
{
    (0..n).choose(rng)
}

} // verus!
