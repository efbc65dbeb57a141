//! The crate's only source of randomness: thin trusted wrappers around the
//! `rand` crate. Everything proved elsewhere holds for every value these
//! can return.

use vstd::prelude::*;
use rand::Rng;
use rand::seq::SliceRandom;
use crate::text::words_view;

verus! {

#[verifier::external_type_specification]
#[verifier::external_body]
pub struct ExThreadRng(rand::rngs::ThreadRng);

/// Relies on rand::thread_rng: hands out the thread-local generator.
#[verifier::external_body]
pub(crate) fn new_rng() -> rand::rngs::ThreadRng {
    rand::thread_rng()
}

/// Relies on rand's Rng::gen_range on the range `0..n`: returns a value of
/// that range, and panics when the range is empty — hence `n >= 1`.
#[verifier::external_body]
pub(crate) fn rand_index(rng: &mut rand::rngs::ThreadRng, n: usize) -> (r: usize)
    requires
        n >= 1,
    ensures
        r < n,
{
    rng.gen_range(0..n)
}

/// Relies on rand's SliceRandom::shuffle: reorders the elements in place by
/// swaps (a Fisher–Yates shuffle), so the words are kept, merely permuted.
#[verifier::external_body]
pub(crate) fn shuffle_words(rng: &mut rand::rngs::ThreadRng, v: &mut Vec<String>)
    ensures
        final(v)@.len() == old(v)@.len(),
        words_view(final(v)@).to_multiset() == words_view(old(v)@).to_multiset(),
{
    v.shuffle(rng)
}

} // verus!
