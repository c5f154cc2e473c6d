//! Rules engine and turn state machine of Triple Triad, a card game for two players on a
//! three-by-three board.

pub mod battle;
pub mod card;
pub mod event;
pub mod inventory;
pub mod query;
pub mod rand;
pub mod rules;
pub mod systems;
