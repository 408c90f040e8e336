use vstd::prelude::*;

verus! {

/// The three suits of the duel.
#[derive(Debug, Clone, Copy, PartialEq, Eq, Structural)]
pub enum CardSuit {
    Emperor,
    Citizen,
    Slave,
}

/// Where a card is: in its owner's hand at an index, on the table, or in the
/// discard pile.
#[derive(Debug, Clone, Copy, PartialEq, Eq, Structural)]
pub enum CardState {
    InHand(i32),
    InTable,
    InPile,
}

/// A card: its suit never changes, its state does.
#[derive(Debug, Clone, Copy, PartialEq, Eq, Structural)]
pub struct Card {
    pub suit: CardSuit,
    pub state: CardState,
}

/// Tag of the side that the human plays.
#[derive(Debug, Clone, Copy, PartialEq, Eq, Structural)]
pub struct Player;

/// Tag of the side that the program plays.
#[derive(Debug, Clone, Copy, PartialEq, Eq, Structural)]
pub struct Enemy;

} // verus!
