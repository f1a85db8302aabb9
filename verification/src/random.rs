//! The two places where chance enters: the order of a shuffled deck and the
//! characters of a fresh identifier.

use crate::card::Card;
use rand::seq::SliceRandom;
use rand::Rng;
use vstd::prelude::*;

verus! {

/// Whether a byte is an ASCII letter or digit.
pub open spec fn is_alphanumeric(byte: u8) -> bool {
    ||| 0x30 <= byte <= 0x39
    ||| 0x41 <= byte <= 0x5a
    ||| 0x61 <= byte <= 0x7a
}

/// Shuffles the cards in place with `rand`'s `SliceRandom::shuffle`, driven
/// by the thread-local generator.
///
/// Trusted: the shuffle only swaps elements of the slice, so the cards after
/// the call are the cards before it in some order. Nothing is claimed about
/// which order.
#[verifier::external_body]
pub(crate) fn shuffle(cards: &mut Vec<Card>)
    ensures
        final(cards)@.to_multiset() == old(cards)@.to_multiset(),
{
    cards.shuffle(&mut rand::thread_rng());
}

/// Draws one byte from `rand`'s `Alphanumeric` distribution with `Rng::sample`
/// on the thread-local generator.
///
/// Trusted: the distribution picks from the upper-case letters, the
/// lower-case letters and the digits of ASCII. Nothing is claimed about which
/// of them comes back.
#[verifier::external_body]
pub(crate) fn random_alphanumeric() -> (byte: u8)
    ensures
        is_alphanumeric(byte),
{
    rand::thread_rng().sample(rand::distributions::Alphanumeric)
}

} // verus!
