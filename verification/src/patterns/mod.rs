//! Pattern values, pattern databases and the symmetries of the board.

pub mod pattern_database;
pub mod pattern_helpers;
pub mod pattern_loader;
pub mod pattern_matcher_impl;
pub mod pattern_matching;
pub mod pattern_transform;

pub use pattern_database::PatternDatabase;
pub use pattern_helpers::{move_allowed, on_board_after_transform, PatternConstraint};
pub use pattern_matcher_impl::find_patterns_at;
pub use pattern_matching::PatternMatcher;
pub use pattern_transform::Transformation;

use vstd::prelude::*;

verus! {

/// One value attached to a pattern.
#[derive(Debug, Clone, Copy, PartialEq, Eq, Structural)]
pub struct PatVal {
    pub pattern_id: u32,
    pub value: i32,
}

impl PatVal {
    pub fn new(pattern_id: u32, value: i32) -> (v: PatVal)
        ensures
            v == (PatVal { pattern_id, value }),
    {
        PatVal { pattern_id, value }
    }
}

/// A pattern found on the board.
#[derive(Debug, Clone, Copy)]
pub struct PatternMatchResult {
    pub pattern_id: u32,
    pub value: i32,
    pub position: (usize, usize),
    pub transform: Transformation,
}

/// What a pattern is about.
#[derive(Debug, Clone, Copy, PartialEq, Eq, Structural)]
pub enum PatternType {
    Attack,
    Defense,
    Fuseki,
    Joseki,
    Endgame,
}

} // verus!
