use vstd::prelude::*;

verus! {

/// Whose turn it is to play a card.
#[derive(Debug, Clone, Copy, PartialEq, Eq, Structural)]
pub enum Turn {
    Player,
    Enemy,
}

/// Stage of a round: the two sides play in `Check` and `Place`, the cards are
/// compared in `Open`.
#[derive(Debug, Clone, Copy, PartialEq, Eq, Structural)]
pub enum GameStage {
    Check,
    Place,
    Open,
}

/// Stage of the current round and the side whose turn it is.
#[derive(Debug, Clone, Copy, PartialEq, Eq, Structural)]
pub struct GameState {
    pub stage: GameStage,
    pub turn: Turn,
}

pub open spec fn other(t: Turn) -> Turn {
    match t {
        Turn::Player => Turn::Enemy,
        Turn::Enemy => Turn::Player,
    }
}

impl GameState {
    /// The state after one stage: `Check -> Place` hands the turn to the other
    /// side, `Place -> Open` and `Open -> Check` keep it.
    pub open spec fn advanced(self) -> GameState {
        match self.stage {
            GameStage::Check => GameState { stage: GameStage::Place, turn: other(self.turn) },
            GameStage::Place => GameState { stage: GameStage::Open, turn: self.turn },
            GameStage::Open => GameState { stage: GameStage::Check, turn: self.turn },
        }
    }

    /// A duel starts at `Check`, with the player to play.
    pub fn new() -> (r: GameState)
        ensures
            r.stage == GameStage::Check,
            r.turn == Turn::Player,
    {
        GameState { stage: GameStage::Check, turn: Turn::Player }
    }

    /// Moves to the next stage.
    pub fn advance(&mut self)
        ensures
            *final(self) == old(self).advanced(),
    {
        match self.stage {
            GameStage::Check => {
                self.stage = GameStage::Place;
                self.turn = match self.turn {
                    Turn::Player => Turn::Enemy,
                    Turn::Enemy => Turn::Player,
                };
            },
            GameStage::Place => {
                self.stage = GameStage::Open;
            },
            GameStage::Open => {
                self.stage = GameStage::Check;
            },
        }
    }
}

/// A whole round, `Check -> Place -> Open -> Check`, ends on the stage it began
/// with and hands the turn to the other side.
pub proof fn lemma_round_flips_turn(s: GameState)
    requires
        s.stage == GameStage::Check,
    ensures
        s.advanced().advanced().advanced() == (GameState { stage: GameStage::Check, turn: other(s.turn) }),
        other(s.turn) != s.turn,
{
}

} // verus!
