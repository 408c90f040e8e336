//! Core of a two-player "Emperor / Citizen / Slave" card duel: the hand
//! model (where each card is), the selection of a card under the pointer,
//! the resolution of two suits and the turn state machine.

pub mod cards;
pub mod components;
pub mod cursor;
pub mod game_loop;
pub mod game_state;
