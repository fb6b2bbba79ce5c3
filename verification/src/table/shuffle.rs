//! The source of chance: the deck is put in a random order by the `rand`
//! crate. Nothing in this file is proved; the rest of the library relies on
//! what is stated here.

use vstd::prelude::*;
use rand::rngs::ThreadRng;
use rand::seq::SliceRandom;
use crate::table::cards::Card;

verus! {

/// `rand::rngs::ThreadRng`, the handle to the random number generator of
/// the running thread. Nothing is known of what it holds.
#[verifier::external_type_specification]
#[verifier::external_body]
pub struct ExThreadRng(ThreadRng);

/// `rand::thread_rng` hands out the generator of the running thread.
/// Nothing is claimed of the generator. (The first call in a thread seeds
/// it from the operating system and panics if the system gives no
/// randomness.)
pub assume_specification[ rand::thread_rng ]() -> (rng: ThreadRng)
;

/// `rand::seq::SliceRandom::shuffle` on the cards. It only swaps elements
/// of the slice, so afterwards the same cards are there, each as often as
/// before; in which order is left open.
#[verifier::external_body]
pub(crate) fn shuffle_cards(cards: &mut Vec<Card>, rng: &mut ThreadRng)
    ensures
        final(cards)@.to_multiset() == old(cards)@.to_multiset(),
{
    cards.shuffle(rng);
}

} // verus!
