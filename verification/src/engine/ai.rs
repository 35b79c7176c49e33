//! Choosing a move.

use rand::seq::SliceRandom;
use rand::thread_rng;
use vstd::prelude::*;
use crate::engine::board::{
    holds, point_of, points_of, row_major, row_major_before, stone_list, Board, Stone,
};
use crate::engine::evaluation::{position_value, Evaluator};
use crate::engine::rules::GameRules;
use crate::engine::state::{BoardState, Point};

verus! {

/// How hard the machine tries.
#[derive(Debug, Clone, Copy, PartialEq, Eq, Structural)]
pub enum AIDifficulty {
    /// Any empty point, at random.
    Beginner,
    /// The play that leaves the best position.
    Intermediate,
    /// As `Intermediate`.
    Advanced,
}

/// A machine player.
pub struct AI {
    difficulty: AIDifficulty,
}

/// `p` is an empty point of the board.
pub open spec fn is_empty_point(b: BoardState, p: Point) -> bool {
    b.on_board(p) && b.stone_at(p) == Stone::Empty
}

/// The empty points of the board, in the order of reading it row by row.
pub fn empty_points(board: &Board) -> (v: Vec<(usize, usize)>)
    ensures
        v@ == stone_list(board@, Stone::Empty),
        row_major(v@),
        forall|i: int| 0 <= i < v@.len() ==> is_empty_point(board@, point_of(#[trigger] v@[i])),
        forall|c: Point| is_empty_point(board@, c) ==> #[trigger] points_of(v@).contains(c),
{
    let v = board.list_points(Stone::Empty);
    proof {
        let keep = |c: Point| board@.stone_at(c) == Stone::Empty;
        assert forall|i: int| 0 <= i < v@.len() implies is_empty_point(
            board@,
            point_of(#[trigger] v@[i]),
        ) by {
            assert(holds(keep, point_of(v@[i])));
        }
        assert forall|c: Point| is_empty_point(board@, c) implies #[trigger] points_of(
            v@,
        ).contains(c) by {
            assert(holds(keep, c));
        }
    }
    v
}

/// `rand::seq::SliceRandom::choose` with `rand::thread_rng()`: one of the
/// entries of `points`, whichever the generator picks, or nothing when
/// there is no entry.
#[verifier::external_body]
fn choose_point(points: &Vec<(usize, usize)>) -> (r: Option<(usize, usize)>)
    ensures
        points@.len() == 0 ==> r is None,
        points@.len() > 0 ==> r is Some && points@.contains(r->0),
{
    let mut rng = thread_rng();
    points.choose(&mut rng).copied()
}

/// The position after `player` has played on `q`, tried on a copy without
/// prisoners; nothing when the play is refused.
pub open spec fn trial(b: BoardState, q: Point, player: Stone) -> Option<BoardState> {
    match b.scratch().place(q, player, GameRules::standard()) {
        Ok(next) => Some(next),
        Err(_) => None,
    }
}

/// How good the play on `q` is for `player`: the value of the position it
/// leaves, seen from Black's side for Black and from White's side
/// otherwise.
pub open spec fn appeal(b: BoardState, q: Point, player: Stone) -> int {
    let value = position_value(trial(b, q, player)->0);
    if player == Stone::Black {
        value
    } else {
        -value
    }
}

/// `p` comes before `q` when the board is read row by row.
pub open spec fn point_before(p: Point, q: Point) -> bool {
    p.1 < q.1 || (p.1 == q.1 && p.0 < q.0)
}

/// `q` is the greedy choice for `player`: among the accepted plays the
/// first, reading row by row, of those with the greatest appeal; where no
/// play is accepted, the first empty point.
pub open spec fn is_greedy_choice(b: BoardState, q: Point, player: Stone) -> bool {
    &&& is_empty_point(b, q)
    &&& if exists|c: Point| is_empty_point(b, c) && #[trigger] trial(b, c, player) is Some {
        &&& trial(b, q, player) is Some
        &&& forall|c: Point|
            is_empty_point(b, c) && #[trigger] trial(b, c, player) is Some ==> appeal(
                b,
                c,
                player,
            ) < appeal(b, q, player) || (appeal(b, c, player) == appeal(b, q, player)
                && !point_before(c, q))
    } else {
        forall|c: Point| #[trigger] is_empty_point(b, c) ==> !point_before(c, q)
    }
}

impl AI {
    /// The level this player was made with.
    pub closed spec fn level(&self) -> AIDifficulty {
        self.difficulty
    }

    /// A machine player of the given level.
    pub fn new(difficulty: AIDifficulty) -> (ai: AI)
        ensures
            ai.level() == difficulty,
    {
        AI { difficulty }
    }

    /// A move for `player`: for a beginner some empty point, else the
    /// greedy choice; nothing when the board is full.
    pub fn get_best_move(&self, board: &Board, player: Stone) -> (r: Option<(usize, usize)>)
        ensures
            r is None <==> forall|c: Point| !is_empty_point(board@, c),
            r matches Some(q) ==> if self.level() == AIDifficulty::Beginner {
                is_empty_point(board@, point_of(q))
            } else {
                is_greedy_choice(board@, point_of(q), player)
            },
    {
        match self.difficulty {
            AIDifficulty::Beginner => self.random_move(board),
            AIDifficulty::Intermediate => self.greedy_move(board, player),
            AIDifficulty::Advanced => self.greedy_move(board, player),
        }
    }

    /// Some empty point of the board, picked at random; nothing when the
    /// board is full.
    fn random_move(&self, board: &Board) -> (r: Option<(usize, usize)>)
        ensures
            r is None <==> forall|c: Point| !is_empty_point(board@, c),
            r matches Some(q) ==> is_empty_point(board@, point_of(q)),
    {
        let valid_moves = empty_points(board);
        proof {
            if valid_moves@.len() > 0 {
                assert(is_empty_point(board@, point_of(valid_moves@[0])));
            } else {
                assert forall|c: Point| !is_empty_point(board@, c) by {
                    if is_empty_point(board@, c) {
                        assert(points_of(valid_moves@).contains(c));
                    }
                }
            }
        }
        if valid_moves.len() == 0 {
            return None;
        }
        let r = choose_point(&valid_moves);
        proof {
            let q = r->0;
            let i = choose|i: int| 0 <= i < valid_moves@.len() && valid_moves@[i] == q;
            assert(is_empty_point(board@, point_of(valid_moves@[i])));
        }
        r
    }

    /// The greedy choice for `player`; nothing when the board is full.
    fn greedy_move(&self, board: &Board, player: Stone) -> (r: Option<(usize, usize)>)
        ensures
            r is None <==> forall|c: Point| !is_empty_point(board@, c),
            r matches Some(q) ==> is_greedy_choice(board@, point_of(q), player),
    {
        let valid_moves = empty_points(board);
        let ghost b = board@;
        proof {
            if valid_moves@.len() > 0 {
                assert(is_empty_point(b, point_of(valid_moves@[0])));
            } else {
                assert forall|c: Point| !is_empty_point(b, c) by {
                    if is_empty_point(b, c) {
                        assert(points_of(valid_moves@).contains(c));
                    }
                }
            }
        }
        if valid_moves.len() == 0 {
            return None;
        }
        let mut best_move = valid_moves[0];
        let mut best_score = i32::MIN;
        let mut any = false;
        let mut i: usize = 0;
        while i < valid_moves.len()
            invariant
                b == board@,
                i <= valid_moves@.len(),
                valid_moves@.len() > 0,
                row_major(valid_moves@),
                forall|k: int|
                    0 <= k < valid_moves@.len() ==> is_empty_point(
                        b,
                        point_of(#[trigger] valid_moves@[k]),
                    ),
                !any ==> best_move == valid_moves@[0] && best_score == i32::MIN,
                !any ==> forall|k: int|
                    0 <= k < i ==> trial(b, point_of(#[trigger] valid_moves@[k]), player) is None,
                any ==> exists|j: int|
                    0 <= j < i && #[trigger] valid_moves@[j] == best_move && trial(
                        b,
                        point_of(best_move),
                        player,
                    ) is Some && best_score == appeal(b, point_of(best_move), player) && (forall|
                        k: int,
                    |
                        0 <= k < i && trial(b, point_of(#[trigger] valid_moves@[k]), player) is Some
                            ==> appeal(b, point_of(valid_moves@[k]), player) < best_score || (
                        appeal(b, point_of(valid_moves@[k]), player) == best_score && j <= k)),
            decreases valid_moves@.len() - i,
        {
            let q = valid_moves[i];
            let mut test_board = board.scratch_copy();
            let size = test_board.size();
            proof {
                assert(size * size <= 625) by (nonlinear_arith)
                    requires
                        size <= 25,
                ;
            }
            if test_board.place_stone(q.0, q.1, player).is_ok() {
                let score = Evaluator::evaluate_position(&test_board);
                let adjusted_score = if player == Stone::Black {
                    score
                } else {
                    -score
                };
                if adjusted_score > best_score {
                    best_score = adjusted_score;
                    best_move = q;
                    any = true;
                    proof {
                        assert(valid_moves@[i as int] == best_move);
                    }
                } else {
                    proof {
                        assert(any);
                    }
                }
            }
            i += 1;
        }
        proof {
            let q = point_of(best_move);
            if any {
                let j = choose|j: int|
                    0 <= j < valid_moves@.len() && #[trigger] valid_moves@[j] == best_move && (
                    forall|k: int|
                        0 <= k < valid_moves@.len() && trial(
                            b,
                            point_of(#[trigger] valid_moves@[k]),
                            player,
                        ) is Some ==> appeal(b, point_of(valid_moves@[k]), player) < best_score
                            || (appeal(b, point_of(valid_moves@[k]), player) == best_score && j
                            <= k));
                assert forall|c: Point|
                    is_empty_point(b, c) && #[trigger] trial(b, c, player) is Some implies appeal(
                    b,
                    c,
                    player,
                ) < appeal(b, q, player) || (appeal(b, c, player) == appeal(b, q, player)
                    && !point_before(c, q)) by {
                    assert(points_of(valid_moves@).contains(c));
                    let k = choose|k: int|
                        0 <= k < valid_moves@.len() && point_of(#[trigger] valid_moves@[k]) == c;
                    if k > j {
                        assert(row_major_before(valid_moves@[j], valid_moves@[k]));
                    }
                }
            } else {
                assert forall|c: Point| is_empty_point(b, c) implies trial(b, c, player) is None by {
                    assert(points_of(valid_moves@).contains(c));
                    let k = choose|k: int|
                        0 <= k < valid_moves@.len() && point_of(#[trigger] valid_moves@[k]) == c;
                }
                assert forall|c: Point| #[trigger] is_empty_point(b, c) implies !point_before(
                    c,
                    q,
                ) by {
                    assert(points_of(valid_moves@).contains(c));
                    let k = choose|k: int|
                        0 <= k < valid_moves@.len() && point_of(#[trigger] valid_moves@[k]) == c;
                    if k > 0 {
                        assert(row_major_before(valid_moves@[0], valid_moves@[k]));
                    }
                }
            }
        }
        Some(best_move)
    }
}

/// Some empty point of the board, picked at random; nothing when the board
/// is full.
pub fn get_random_move(board: &Board) -> (r: Option<(usize, usize)>)
    ensures
        r is None <==> forall|c: Point| !is_empty_point(board@, c),
        r matches Some(q) ==> is_empty_point(board@, point_of(q)),
{
    let ai = AI::new(AIDifficulty::Beginner);
    ai.get_best_move(board, Stone::Black)
}

} // verus!
