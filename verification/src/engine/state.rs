//! The mathematical model of a position: what a group is, what its liberties
//! are, and what a placement does. Every contract of the board is stated over
//! this model.

use vstd::prelude::*;
use crate::engine::board::{ErrorKind, Stone, MAX_BOARD_SIZE};
use crate::engine::rules::GameRules;

verus! {

/// A coordinate `(x, y)`; it need not lie on the board.
pub type Point = (int, int);

/// Two points are orthogonal neighbours.
pub open spec fn adjacent(p: Point, q: Point) -> bool {
    ||| q == (p.0, p.1 - 1)
    ||| q == (p.0, p.1 + 1)
    ||| q == (p.0 - 1, p.1)
    ||| q == (p.0 + 1, p.1)
}

/// The neighbour of `p` in direction `d`: up, down, left, right for 0 to 3.
pub open spec fn neighbor_spec(p: Point, d: int) -> Point {
    if d == 0 {
        (p.0, p.1 - 1)
    } else if d == 1 {
        (p.0, p.1 + 1)
    } else if d == 2 {
        (p.0 - 1, p.1)
    } else {
        (p.0 + 1, p.1)
    }
}

/// One of the four neighbours of `c` belongs to `g`.
pub open spec fn borders(g: Set<Point>, c: Point) -> bool {
    ||| g.contains((c.0, c.1 - 1))
    ||| g.contains((c.0, c.1 + 1))
    ||| g.contains((c.0 - 1, c.1))
    ||| g.contains((c.0 + 1, c.1))
}

/// A position: the grid, the prisoners each colour has taken, and the ko point.
pub struct BoardState {
    /// Side length of the square grid.
    pub size: nat,
    /// `rows[y][x]` is the content of the point `(x, y)`.
    pub rows: Seq<Seq<Stone>>,
    /// Stones captured so far by Black.
    pub captured_black: nat,
    /// Stones captured so far by White.
    pub captured_white: nat,
    /// The point that may not be played next, if any.
    pub ko_point: Option<Point>,
}

impl BoardState {
    /// The grid is square, of a valid size.
    pub open spec fn wf(self) -> bool {
        &&& 1 <= self.size <= MAX_BOARD_SIZE
        &&& self.rows.len() == self.size
        &&& forall|y: int| 0 <= y < self.size ==> (#[trigger] self.rows[y]).len() == self.size
    }

    /// The empty position of the given size.
    pub open spec fn empty(size: nat) -> BoardState {
        BoardState {
            size,
            rows: Seq::new(size, |y: int| Seq::new(size, |x: int| Stone::Empty)),
            captured_black: 0,
            captured_white: 0,
            ko_point: None,
        }
    }

    pub open spec fn on_board(self, p: Point) -> bool {
        0 <= p.0 < self.size && 0 <= p.1 < self.size
    }

    /// The content of a point; points off the board hold nothing.
    pub open spec fn stone_at(self, p: Point) -> Stone {
        if self.on_board(p) {
            self.rows[p.1][p.0]
        } else {
            Stone::Empty
        }
    }

    /// All points holding `color`.
    pub open spec fn stones(self, color: Stone) -> Set<Point> {
        Set::new(|p: Point| self.on_board(p) && self.stone_at(p) == color)
    }

    /// A walk over the board that stays on one content and moves by
    /// orthogonal steps.
    pub open spec fn is_chain(self, path: Seq<Point>) -> bool {
        &&& path.len() > 0
        &&& forall|i: int|
            0 <= i < path.len() ==> self.on_board(#[trigger] path[i]) && self.stone_at(path[i])
                == self.stone_at(path[0])
        &&& forall|i: int| 0 <= i < path.len() - 1 ==> adjacent(#[trigger] path[i], path[i + 1])
    }

    /// `q` can be reached from `p` along a chain.
    pub open spec fn connected(self, p: Point, q: Point) -> bool {
        exists|path: Seq<Point>| #[trigger] self.is_chain(path) && path[0] == p && path.last() == q
    }

    /// The maximal orthogonally connected set of points with the content of
    /// `p` that contains `p`.
    pub open spec fn group_at(self, p: Point) -> Set<Point> {
        Set::new(|q: Point| self.connected(p, q))
    }

    /// `c` is an empty point of the board next to a member of `g`.
    pub open spec fn is_liberty(self, g: Set<Point>, c: Point) -> bool {
        self.on_board(c) && self.stone_at(c) == Stone::Empty && borders(g, c)
    }

    /// The liberties of a set of points, each counted once.
    pub open spec fn liberties(self, g: Set<Point>) -> Set<Point> {
        Set::new(|c: Point| self.is_liberty(g, c))
    }

    /// The number of liberties of the group of the stone on `p`; none
    /// where no stone stands.
    pub open spec fn liberty_count(self, p: Point) -> nat {
        if self.stone_at(p) == Stone::Empty {
            0
        } else {
            self.liberties(self.group_at(p)).len()
        }
    }

    /// `c` is a liberty of the group of the stone on `p`.
    pub open spec fn is_liberty_of(self, p: Point, c: Point) -> bool {
        self.stone_at(p) != Stone::Empty && self.is_liberty(self.group_at(p), c)
    }

    /// 1 if the neighbour of `c` in direction `k` is a point of the board
    /// with content `what`, else 0.
    pub open spec fn neighbor_is(self, c: Point, k: int, what: Stone) -> nat {
        if self.on_board(neighbor_spec(c, k)) && self.stone_at(neighbor_spec(c, k)) == what {
            1
        } else {
            0
        }
    }

    /// The number of neighbours of `c` on the board with content `what`.
    pub open spec fn count_around(self, c: Point, what: Stone) -> nat {
        self.neighbor_is(c, 0, what) + self.neighbor_is(c, 1, what) + self.neighbor_is(c, 2, what)
            + self.neighbor_is(c, 3, what)
    }

    /// The position with no prisoners recorded: what plays are tried on.
    pub open spec fn scratch(self) -> BoardState {
        BoardState { captured_black: 0, captured_white: 0, ..self }
    }

    /// The position with the content of `p` replaced.
    pub open spec fn with_stone(self, p: Point, s: Stone) -> BoardState {
        BoardState { rows: self.rows.update(p.1, self.rows[p.1].update(p.0, s)), ..self }
    }

    /// The position with every point of `dead` emptied.
    pub open spec fn without(self, dead: Set<Point>) -> BoardState {
        BoardState {
            rows: Seq::new(
                self.size,
                |y: int|
                    Seq::new(
                        self.size,
                        |x: int|
                            if dead.contains((x, y)) {
                                Stone::Empty
                            } else {
                                self.rows[y][x]
                            },
                    ),
            ),
            ..self
        }
    }

    /// The position with `n` more prisoners credited to `color`.
    pub open spec fn credit(self, color: Stone, n: nat) -> BoardState {
        match color {
            Stone::Black => BoardState { captured_black: self.captured_black + n, ..self },
            Stone::White => BoardState { captured_white: self.captured_white + n, ..self },
            Stone::Empty => self,
        }
    }

    pub open spec fn with_ko(self, ko: Option<Point>) -> BoardState {
        BoardState { ko_point: ko, ..self }
    }

    /// The prisoners taken so far by `color`.
    pub open spec fn captured(self, color: Stone) -> nat {
        match color {
            Stone::Black => self.captured_black,
            Stone::White => self.captured_white,
            Stone::Empty => 0,
        }
    }

    /// The group of `q` touches `p` and has no liberty.
    pub open spec fn dies_next_to(self, p: Point, q: Point) -> bool {
        borders(self.group_at(q), p) && self.liberties(self.group_at(q)).len() == 0
    }

    /// In a position where a stone `s` has just landed on `p`: the stones of
    /// the other colour that are removed, namely every group of that colour
    /// that touches `p` and is left without a liberty.
    pub open spec fn doomed(self, p: Point, s: Stone) -> Set<Point> {
        Set::new(
            |q: Point|
                self.on_board(q) && self.stone_at(q) == s.opponent_spec() && self.dies_next_to(
                    p,
                    q,
                ),
        )
    }

    /// The part of `doomed` that is found by looking at the first `d`
    /// neighbours of `p` only.
    pub open spec fn doomed_upto(self, p: Point, s: Stone, d: int) -> Set<Point> {
        Set::new(
            |q: Point|
                self.on_board(q) && self.stone_at(q) == s.opponent_spec() && self.liberties(
                    self.group_at(q),
                ).len() == 0 && exists|k: int|
                    0 <= k < d && self.group_at(q).contains(#[trigger] neighbor_spec(p, k)),
        )
    }

    /// The ko point that a capture of `dead` leaves behind: the captured
    /// point when exactly one stone was taken, none otherwise.
    pub open spec fn ko_after(dead: Set<Point>) -> Option<Point> {
        if dead.len() == 1 {
            Some(dead.choose())
        } else {
            None
        }
    }

    /// The placement rule. A stone `s` is played on `p` under `rules`:
    /// the first failing check decides the error; otherwise the stone is
    /// placed, adjacent groups of the other colour without liberties are
    /// removed and credited to `s`, and the ko point is set anew. A play
    /// that captures nothing and leaves its own group without liberties is
    /// suicide: refused, or, where the rules allow it, the group is removed
    /// and credited to the other colour.
    pub open spec fn place(self, p: Point, s: Stone, rules: GameRules) -> Result<
        BoardState,
        ErrorKind,
    > {
        if !self.on_board(p) {
            Err(ErrorKind::OutOfBounds)
        } else if self.stone_at(p) != Stone::Empty {
            Err(ErrorKind::Occupied)
        } else if rules.ko_active() && self.ko_point == Some(p) {
            Err(ErrorKind::KoViolation)
        } else if s == Stone::Empty {
            Err(ErrorKind::EmptyStone)
        } else {
            let placed = self.with_stone(p, s);
            let dead = placed.doomed(p, s);
            let after = placed.without(dead);
            if dead.len() == 0 && after.liberties(after.group_at(p)).len() == 0 {
                if rules.allow_suicide {
                    let own = placed.group_at(p);
                    Ok(placed.without(own).credit(s.opponent_spec(), own.len()).with_ko(None))
                } else {
                    Err(ErrorKind::Suicide)
                }
            } else {
                Ok(after.credit(s, dead.len()).with_ko(Self::ko_after(dead)))
            }
        }
    }

    /// `p` is a star point of the board.
    pub open spec fn is_hoshi(self, p: Point) -> bool {
        let n = self.size as int;
        let (x, y) = p;
        if !self.on_board(p) || n == 2 || n == 4 {
            false
        } else if n == 3 {
            x == 1 && y == 1
        } else if n == 5 {
            (x == 1 && (y == 1 || y == 3)) || (x == 2 && y == 2) || (x == 3 && (y == 1 || y == 3))
        } else {
            let hoshi: int = if n <= 11 {
                2
            } else {
                3
            };
            let middle = n / 2;
            let m = if x >= middle {
                n - 1 - x
            } else {
                x
            };
            let k = if y >= middle {
                n - 1 - y
            } else {
                y
            };
            if m == hoshi && k == hoshi {
                true
            } else if n % 2 == 0 {
                false
            } else if n < 12 {
                m == middle && k == middle
            } else {
                (m == hoshi || m == middle) && (k == hoshi || k == middle)
            }
        }
    }

    /// Both capture counters can take a whole board of stones more.
    pub open spec fn capture_room(self) -> bool {
        &&& self.captured_black + self.size * self.size <= usize::MAX
        &&& self.captured_white + self.size * self.size <= usize::MAX
    }
}

} // verus!
