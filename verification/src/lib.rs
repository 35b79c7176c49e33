//! A Go engine: the rules of play with their proofs, move choice, game
//! records, the Go Text Protocol, pattern databases and text views of the
//! board.

pub mod engine;
pub mod gtp;
pub mod patterns;
pub mod sgf;
pub mod text;
pub mod ui;
