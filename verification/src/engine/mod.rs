//! The rules of play: positions, legality of placements, and the flow of a game.

pub mod ai;
pub mod board;
pub mod chains;
pub mod evaluation;
pub mod eye;
pub mod game;
pub mod laws;
pub mod move_generation;
pub mod rules;
pub mod state;
