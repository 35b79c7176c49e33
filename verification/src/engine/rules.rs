//! Configuration of the placement rule.

use vstd::prelude::*;
use crate::engine::board::{point_of, Board, ErrorKind, Stone};
use crate::engine::state::{BoardState, Point};

verus! {

/// How repetition is restricted.
#[derive(Debug, Clone, Copy, PartialEq, Eq, Structural)]
pub enum KoRule {
    /// No ko restriction: the ko point is never consulted.
    Off,
    /// The point of a single-stone capture may not be retaken on the next play.
    Simple,
    /// Enforced exactly as `Simple`; whole-board history is not consulted.
    Superko,
}

/// The rule set a placement is judged under.
#[derive(Debug, Clone, Copy)]
pub struct GameRules {
    /// Whether a play that leaves its own group without liberties is accepted.
    pub allow_suicide: bool,
    /// Which ko rule is in force.
    pub ko_rule: KoRule,
}

impl GameRules {
    /// The usual rules: suicide is refused and simple ko is in force.
    pub open spec fn standard() -> GameRules {
        GameRules { allow_suicide: false, ko_rule: KoRule::Simple }
    }

    /// Whether the ko point forbids a play.
    pub open spec fn ko_active(self) -> bool {
        self.ko_rule != KoRule::Off
    }
}

impl GameRules {
    /// Whether `stone` may be played on `(x, y)` of `board` under these
    /// rules, and the reason if not. The board is not changed: the play is
    /// tried on a copy, by the same check that `place_stone_with` applies.
    pub fn is_legal_move(&self, board: &Board, x: usize, y: usize, stone: Stone) -> (r: Result<
        (),
        ErrorKind,
    >)
        ensures
            match board@.place((x as int, y as int), stone, *self) {
                Ok(_) => r is Ok,
                Err(e) => r == Err::<(), ErrorKind>(e),
            },
    {
        let mut test_board = board.scratch_copy();
        let size = board.size();
        proof {
            test_board@.lemma_place_same_grid(board@, (x as int, y as int), stone, *self);
            assert(size * size <= 625) by (nonlinear_arith)
                requires
                    size <= 25,
            ;
        }
        test_board.place_stone_with(x, y, stone, *self)
    }
}

/// Ko bookkeeping on a board.
pub trait BoardExt {
    /// The point that may not be played next, if any.
    spec fn ko_model(&self) -> Option<Point>;

    /// The current ko point.
    fn get_ko_point(&self) -> (k: Option<(usize, usize)>)
        ensures
            k is None <==> self.ko_model() is None,
            k matches Some(q) ==> self.ko_model() == Some(point_of(q)),
    ;

    /// Sets the ko point.
    fn set_ko_point(&mut self, x: usize, y: usize)
        ensures
            final(self).ko_model() == Some((x as int, y as int)),
    ;

    /// Clears the ko point.
    fn clear_ko_point(&mut self)
        ensures
            final(self).ko_model() is None,
    ;

    /// Records the outcome of a capture: the ko point is `capture_pos` when
    /// exactly one stone was taken, and cleared otherwise.
    fn check_ko_threat(&mut self, captured_group_size: usize, capture_pos: (usize, usize))
        ensures
            final(self).ko_model() == if captured_group_size == 1 {
                Some(point_of(capture_pos))
            } else {
                None
            },
    ;
}

impl BoardExt for Board {
    open spec fn ko_model(&self) -> Option<Point> {
        self@.ko_point
    }

    fn get_ko_point(&self) -> (k: Option<(usize, usize)>) {
        Board::get_ko_point(self)
    }

    fn set_ko_point(&mut self, x: usize, y: usize)
        ensures
            final(self)@ == old(self)@.with_ko(Some((x as int, y as int))),
    {
        Board::set_ko_point(self, x, y)
    }

    fn clear_ko_point(&mut self)
        ensures
            final(self)@ == old(self)@.with_ko(None),
    {
        Board::clear_ko_point(self)
    }

    fn check_ko_threat(&mut self, captured_group_size: usize, capture_pos: (usize, usize))
        ensures
            final(self)@ == old(self)@.with_ko(
                if captured_group_size == 1 {
                    Some(point_of(capture_pos))
                } else {
                    None
                },
            ),
    {
        if captured_group_size == 1 {
            Board::set_ko_point(self, capture_pos.0, capture_pos.1);
        } else {
            Board::clear_ko_point(self);
        }
    }
}

impl Default for GameRules {
    fn default() -> (r: GameRules)
        ensures
            r == GameRules::standard(),
    {
        GameRules { allow_suicide: false, ko_rule: KoRule::Simple }
    }
}

} // verus!
