//! Errors reported to the player whose command or effect could not be carried out.

use crate::card::Card;
use vstd::prelude::*;

verus! {

/// A recoverable game error, returned as a value.
#[derive(Clone, Copy, Debug, PartialEq, Eq, Structural)]
pub enum Error {
    /// No action left to play an Action card.
    NoActions,
    /// No buy left.
    NoBuys,
    /// The card cannot be played, or is not held.
    InvalidPlay(Card),
    /// The card has no pile in this game.
    NotInSupply(Card),
    /// The card's pile is exhausted.
    EmptyPile(Card),
    /// The card to discard, trash or put in play is not in hand.
    NotInHand(Card),
    /// The buy costs more than the current buying power.
    NotEnoughMoney { need: u64, have: u64 },
    /// A player's decision was not one of the offered options.
    InvalidChoice(Card),
    /// An effect needed a card to gain and got none.
    NothingToGain,
    /// An effect needed a card to trash and got none.
    NothingToTrash,
    /// An effect needed a card to repeat and got none.
    NothingToRepeat,
}

} // verus!
