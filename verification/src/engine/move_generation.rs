//! Listing the moves a player has.

use vstd::prelude::*;
use vstd::arithmetic::div_mod::lemma_fundamental_div_mod_converse;
use crate::engine::board::{Board, Stone};
use crate::engine::rules::GameRules;
use crate::engine::state::BoardState;

verus! {

/// A move: the point `(row, col)` to play on.
#[derive(Debug, Clone, Copy, PartialEq, Eq, Structural)]
pub struct Move {
    pub row: usize,
    pub col: usize,
}

impl Move {
    pub fn new(row: usize, col: usize) -> (m: Move)
        ensures
            m == (Move { row, col }),
    {
        Move { row, col }
    }
}

/// `a` comes before `b` when moves are listed by row and then by column.
pub open spec fn move_before(a: Move, b: Move) -> bool {
    a.row < b.row || (a.row == b.row && a.col < b.col)
}

/// The moves are listed by row and then by column, none twice.
pub open spec fn moves_in_order(v: Seq<Move>) -> bool {
    forall|i: int, j: int| 0 <= i < j < v.len() ==> move_before(v[i], v[j])
}

/// `player` may play `m` on `b` under the standard rules.
pub open spec fn is_valid(b: BoardState, m: Move, player: Stone) -> bool {
    b.place((m.row as int, m.col as int), player, GameRules::standard()) is Ok
}

/// Lists moves.
pub struct MoveGenerator;

impl MoveGenerator {
    /// The moves `player` may play, by row and then by column.
    pub fn generate_valid_moves(board: &Board, player: Stone) -> (moves: Vec<Move>)
        ensures
            moves_in_order(moves@),
            forall|m: Move| #[trigger] moves@.contains(m) <==> is_valid(board@, m, player),
    {
        let mut moves: Vec<Move> = Vec::new();
        let size = board.size();
        let mut row: usize = 0;
        while row < size
            invariant
                size == board@.size,
                row <= size,
                moves_in_order(moves@),
                forall|i: int| 0 <= i < moves@.len() ==> (#[trigger] moves@[i]).row < row,
                forall|m: Move| #[trigger] moves@.contains(m) <==> is_valid(board@, m, player) && m.row < row,
            decreases size - row,
        {
            let mut col: usize = 0;
            while col < size
                invariant
                    size == board@.size,
                    row < size,
                    col <= size,
                    moves_in_order(moves@),
                    forall|i: int|
                        0 <= i < moves@.len() ==> move_before(
                            #[trigger] moves@[i],
                            Move { row, col },
                        ),
                    forall|m: Move| #[trigger]
                        moves@.contains(m) <==> is_valid(board@, m, player) && move_before(
                            m,
                            Move { row, col },
                        ),
                decreases size - col,
            {
                let ghost before = moves@;
                if Self::is_valid_move(board, row, col, player) {
                    moves.push(Move::new(row, col));
                }
                let ghost here = Move { row, col };
                col += 1;
                proof {
                    let next = Move { row, col };
                    assert forall|m: Move| #[trigger] moves@.contains(m) implies is_valid(board@, m, player)
                        && move_before(m, next) by {
                        let i = choose|i: int| 0 <= i < moves@.len() && moves@[i] == m;
                        if i < before.len() {
                            assert(before[i] == m);
                            assert(before.contains(m));
                            assert(move_before(m, here));
                        } else {
                            assert(m == here);
                        }
                    }
                    assert forall|m: Move|
                        is_valid(board@, m, player) && move_before(
                            m,
                            next,
                        ) implies #[trigger] moves@.contains(m) by {
                        if m == here {
                            assert(moves@[moves@.len() - 1] == m);
                        } else {
                            assert(move_before(m, here));
                            assert(before.contains(m));
                            let i = choose|i: int| 0 <= i < before.len() && before[i] == m;
                            assert(moves@[i] == m);
                        }
                    }
                }
            }
            proof {
                assert forall|m: Move| #[trigger]
                    moves@.contains(m) <==> is_valid(board@, m, player) && m.row < row + 1 by {
                    if is_valid(board@, m, player) {
                        assert(board@.on_board((m.row as int, m.col as int)));
                    }
                }
            }
            row += 1;
        }
        proof {
            assert forall|m: Move| is_valid(board@, m, player) implies m.row < size by {
                assert(board@.on_board((m.row as int, m.col as int)));
            }
        }
        moves
    }

    /// Whether `player` may play on `(row, col)`: the standard placement
    /// rule decides, so this check never disagrees with an actual play.
    pub fn is_valid_move(board: &Board, row: usize, col: usize, player: Stone) -> (r: bool)
        ensures
            r == is_valid(board@, Move { row, col }, player),
    {
        GameRules::default().is_legal_move(board, row, col, player).is_ok()
    }

    /// Every point of the board as a move, by row and then by column,
    /// playable or not.
    pub fn generate_all_moves(board: &Board) -> (moves: Vec<Move>)
        ensures
            moves@.len() == board@.size * board@.size,
            forall|row: int, col: int|
                0 <= row < board@.size && 0 <= col < board@.size ==> #[trigger] moves@[row
                    * board@.size + col] == (Move { row: row as usize, col: col as usize }),
    {
        let mut moves: Vec<Move> = Vec::new();
        let size = board.size();
        let mut row: usize = 0;
        while row < size
            invariant
                size == board@.size,
                row <= size,
                moves@.len() == row * size,
                forall|r: int, c: int|
                    0 <= r < row && 0 <= c < size ==> #[trigger] moves@[r * size + c] == (Move {
                        row: r as usize,
                        col: c as usize,
                    }),
            decreases size - row,
        {
            let mut col: usize = 0;
            while col < size
                invariant
                    size == board@.size,
                    row < size,
                    col <= size,
                    moves@.len() == row * size + col,
                    forall|r: int, c: int|
                        0 <= r < size && 0 <= c < size && (r < row || (r == row && c < col))
                            ==> #[trigger] moves@[r * size + c] == (Move {
                            row: r as usize,
                            col: c as usize,
                        }),
                decreases size - col,
            {
                let ghost before = moves@;
                moves.push(Move::new(row, col));
                proof {
                    assert forall|r: int, c: int|
                        0 <= r < size && 0 <= c < size && (r < row || (r == row && c < col + 1))
                            implies #[trigger] moves@[r * size + c] == (Move {
                            row: r as usize,
                            col: c as usize,
                        }) by {
                        if r == row && c == col {
                        } else {
                            assert(r * size + c < row * size + col) by (nonlinear_arith)
                                requires
                                    0 <= r,
                                    0 <= c < size,
                                    0 <= col,
                                    r < row || (r == row && c < col),
                            ;
                            assert(r * size + c >= 0) by (nonlinear_arith)
                                requires
                                    0 <= r,
                                    0 <= c,
                                    size >= 0,
                            ;
                            assert(moves@[r * size + c] == before[r * size + c]);
                        }
                    }
                }
                col += 1;
            }
            proof {
                assert((row + 1) * size == row * size + size) by (nonlinear_arith);
            }
            row += 1;
        }
        moves
    }
}

} // verus!
