//! Errors detected while setting a simulation up. All of them abort the run
//! before any trial executes.

use crate::card::Card;
use vstd::prelude::*;

verus! {

#[derive(Debug)]
pub enum Error {
    /// A card or hand string does not match the two-character
    /// rank-plus-suit grammar; carries the offending string.
    Parse(String),
    /// A card appears more than once across the hands and the board;
    /// carries the card whose withdrawal failed.
    Duplicate(Card),
    /// More cards are requested than remain in the deck.
    InsufficientDeck,
}

} // verus!
