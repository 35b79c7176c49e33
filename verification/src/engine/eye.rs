//! Single-point eyes and strings short of liberties.

use vstd::prelude::*;
use crate::engine::board::{neighbor, point_of, points_of, row_major_before, Board, Stone};
use crate::engine::chains::lemma_points_bound;
use crate::engine::state::{neighbor_spec, BoardState, Point};
use crate::text::{decimal_spec, push_decimal, string_of};

verus! {

/// What is known of an eye space.
#[derive(Debug, Clone, Copy)]
pub struct EyeData {
    /// The point the eye space is recorded under.
    pub origin: (usize, usize),
    /// The colour that holds the eye.
    pub color: Stone,
    /// The number of points of the eye space.
    pub esize: usize,
    /// The number of marginal points among them.
    pub msize: usize,
    /// How many eyes the space is worth.
    pub value: EyeValue,
    /// Whether the eye touches an empty point.
    pub marginal: bool,
    /// The number of stones of the colour next to the origin.
    pub neighbors: usize,
    /// The number of empty points next to the origin.
    pub marginal_neighbors: usize,
}

/// The least and the most eyes a space can give.
#[derive(Debug, Clone, Copy, PartialEq, Eq, Structural)]
pub struct EyeValue {
    pub min_eyes: u8,
    pub max_eyes: u8,
    pub is_eye: bool,
}

impl EyeValue {
    /// `min.max` for an eye, `0.0` for what is none.
    pub open spec fn to_string_spec(self) -> Seq<char> {
        if self.is_eye {
            decimal_spec(self.min_eyes as nat) + seq!['.'] + decimal_spec(self.max_eyes as nat)
        } else {
            seq!['0', '.', '0']
        }
    }

    /// The value in words: `min.max` for an eye, `0.0` for what is none.
    pub fn to_string(&self) -> (s: String)
        ensures
            s@ == self.to_string_spec(),
    {
        let mut out: Vec<char> = Vec::new();
        if self.is_eye {
            push_decimal(&mut out, self.min_eyes as usize);
            out.push('.');
            push_decimal(&mut out, self.max_eyes as usize);
        } else {
            out.push('0');
            out.push('.');
            out.push('0');
        }
        assert(out@ =~= self.to_string_spec());
        string_of(&out)
    }
}

/// The kinds of half eye.
#[derive(Debug, Clone, Copy, PartialEq, Eq, Structural)]
pub enum HalfEyeType {
    Normal,
    Marginal,
    False,
    Half,
    Unknown,
}

/// The eye at the empty point `c`, as `color` sees it: at least three of
/// its neighbours hold `color` and none holds the other colour.
pub open spec fn eye_at(b: BoardState, c: Point, color: Stone) -> Option<EyeData> {
    let friends = if color == Stone::Empty {
        0
    } else {
        b.count_around(c, color)
    };
    let enemies = b.count_around(c, Stone::Black) + b.count_around(c, Stone::White) - friends;
    let empties = b.count_around(c, Stone::Empty);
    if b.on_board(c) && b.stone_at(c) == Stone::Empty && friends >= 3 && enemies == 0 {
        Some(
            EyeData {
                origin: (c.0 as usize, c.1 as usize),
                color,
                esize: 1,
                msize: 0,
                value: EyeValue { min_eyes: 1, max_eyes: 1, is_eye: true },
                marginal: empties > 0,
                neighbors: friends as usize,
                marginal_neighbors: empties as usize,
            },
        )
    } else {
        None
    }
}

/// The eyes are listed by origin, in the order of reading the board row by
/// row, none twice.
pub open spec fn eyes_in_order(v: Seq<EyeData>) -> bool {
    forall|i: int, j: int| 0 <= i < j < v.len() ==> row_major_before(v[i].origin, v[j].origin)
}

/// Finds eyes and ladders.
pub struct EyeAnalyzer {}

impl EyeAnalyzer {
    pub fn new() -> (a: EyeAnalyzer) {
        EyeAnalyzer {  }
    }

    /// The single-point eyes of `color`, in the order of reading the board
    /// row by row.
    pub fn analyze_eyes(&self, board: &Board, color: Stone) -> (eyes: Vec<EyeData>)
        ensures
            eyes_in_order(eyes@),
            forall|i: int|
                0 <= i < eyes@.len() ==> eye_at(board@, point_of((#[trigger] eyes@[i]).origin), color)
                    == Some(eyes@[i]),
            forall|c: Point|
                eye_at(board@, c, color) is Some ==> exists|i: int|
                    0 <= i < eyes@.len() && point_of((#[trigger] eyes@[i]).origin) == c,
    {
        let mut eyes: Vec<EyeData> = Vec::new();
        let size = board.size();
        let ghost b = board@;
        let mut y: usize = 0;
        while y < size
            invariant
                b == board@,
                size == b.size,
                y <= size,
                eyes_in_order(eyes@),
                forall|i: int| 0 <= i < eyes@.len() ==> (#[trigger] eyes@[i]).origin.1 < y,
                forall|i: int|
                    0 <= i < eyes@.len() ==> eye_at(b, point_of((#[trigger] eyes@[i]).origin), color)
                        == Some(eyes@[i]),
                forall|c: Point|
                    eye_at(b, c, color) is Some && c.1 < y ==> exists|i: int|
                        0 <= i < eyes@.len() && point_of((#[trigger] eyes@[i]).origin) == c,
            decreases size - y,
        {
            let mut x: usize = 0;
            while x < size
                invariant
                    b == board@,
                    size == b.size,
                    y < size,
                    x <= size,
                    eyes_in_order(eyes@),
                    forall|i: int|
                        0 <= i < eyes@.len() ==> (#[trigger] eyes@[i]).origin.1 < y || (
                        eyes@[i].origin.1 == y && eyes@[i].origin.0 < x),
                    forall|i: int|
                        0 <= i < eyes@.len() ==> eye_at(
                            b,
                            point_of((#[trigger] eyes@[i]).origin),
                            color,
                        ) == Some(eyes@[i]),
                    forall|c: Point|
                        eye_at(b, c, color) is Some && (c.1 < y || (c.1 == y && c.0 < x))
                            ==> exists|i: int|
                            0 <= i < eyes@.len() && point_of((#[trigger] eyes@[i]).origin) == c,
                decreases size - x,
            {
                let ghost before = eyes@;
                let found = self.detect_eye(board, x, y, color);
                match found {
                    Some(eye) => {
                        eyes.push(eye);
                    },
                    None => {},
                }
                proof {
                    assert forall|i: int, j: int| 0 <= i < j < eyes@.len() implies row_major_before(
                        eyes@[i].origin,
                        eyes@[j].origin,
                    ) by {
                        if j < before.len() {
                            assert(row_major_before(before[i].origin, before[j].origin));
                        } else {
                            assert(before[i] == eyes@[i]);
                        }
                    }
                    assert forall|c: Point|
                        eye_at(b, c, color) is Some && (c.1 < y || (c.1 == y && c.0 < x + 1))
                            implies exists|i: int|
                        0 <= i < eyes@.len() && point_of((#[trigger] eyes@[i]).origin) == c by {
                        if c == (x as int, y as int) {
                            assert(point_of(eyes@[eyes@.len() - 1].origin) == c);
                        } else {
                            let i = choose|i: int|
                                0 <= i < before.len() && point_of((#[trigger] before[i]).origin)
                                    == c;
                            assert(point_of(eyes@[i].origin) == c);
                        }
                    }
                }
                x += 1;
            }
            y += 1;
        }
        proof {
            assert forall|c: Point| eye_at(b, c, color) is Some implies c.1 < size by {}
        }
        eyes
    }

    /// The eye at `(x, y)`, if that point is one for `color`.
    fn detect_eye(&self, board: &Board, x: usize, y: usize, color: Stone) -> (r: Option<EyeData>)
        requires
            board@.on_board((x as int, y as int)),
        ensures
            r == eye_at(board@, (x as int, y as int), color),
    {
        if board.get_stone(x, y) != Stone::Empty {
            return None;
        }
        let size = board.size();
        let ghost b = board@;
        let ghost c: Point = (x as int, y as int);
        let mut neighbors: usize = 0;
        let mut enemy_neighbors: usize = 0;
        let mut empty_neighbors: usize = 0;
        let ghost mut blacks: nat = 0;
        let ghost mut whites: nat = 0;
        let mut d: usize = 0;
        while d < 4
            invariant
                b == board@,
                size == b.size,
                c == (x as int, y as int),
                b.on_board(c),
                d <= 4,
                blacks == (if d > 0 { b.neighbor_is(c, 0, Stone::Black) } else { 0 }) + (if d > 1 {
                    b.neighbor_is(c, 1, Stone::Black)
                } else {
                    0
                }) + (if d > 2 { b.neighbor_is(c, 2, Stone::Black) } else { 0 }) + (if d > 3 {
                    b.neighbor_is(c, 3, Stone::Black)
                } else {
                    0
                }),
                whites == (if d > 0 { b.neighbor_is(c, 0, Stone::White) } else { 0 }) + (if d > 1 {
                    b.neighbor_is(c, 1, Stone::White)
                } else {
                    0
                }) + (if d > 2 { b.neighbor_is(c, 2, Stone::White) } else { 0 }) + (if d > 3 {
                    b.neighbor_is(c, 3, Stone::White)
                } else {
                    0
                }),
                empty_neighbors == (if d > 0 { b.neighbor_is(c, 0, Stone::Empty) } else { 0 }) + (if d
                    > 1 {
                    b.neighbor_is(c, 1, Stone::Empty)
                } else {
                    0
                }) + (if d > 2 { b.neighbor_is(c, 2, Stone::Empty) } else { 0 }) + (if d > 3 {
                    b.neighbor_is(c, 3, Stone::Empty)
                } else {
                    0
                }),
                neighbors == (if color == Stone::Black {
                    blacks
                } else if color == Stone::White {
                    whites
                } else {
                    0
                }),
                neighbors + enemy_neighbors == blacks + whites,
            decreases 4 - d,
        {
            match neighbor(size, x, y, d) {
                Some(q) => {
                    match board.get_stone(q.0, q.1) {
                        Stone::Black => {
                            if color == Stone::Black {
                                neighbors += 1;
                            } else {
                                enemy_neighbors += 1;
                            }
                            proof {
                                blacks = blacks + 1;
                            }
                        },
                        Stone::White => {
                            if color == Stone::White {
                                neighbors += 1;
                            } else {
                                enemy_neighbors += 1;
                            }
                            proof {
                                whites = whites + 1;
                            }
                        },
                        Stone::Empty => {
                            empty_neighbors += 1;
                        },
                    }
                },
                None => {},
            }
            d += 1;
        }
        if neighbors >= 3 && enemy_neighbors == 0 {
            Some(
                EyeData {
                    origin: (x, y),
                    color,
                    esize: 1,
                    msize: 0,
                    value: EyeValue { min_eyes: 1, max_eyes: 1, is_eye: true },
                    marginal: empty_neighbors > 0,
                    neighbors,
                    marginal_neighbors: empty_neighbors,
                },
            )
        } else {
            None
        }
    }

    /// Whether the stone on `(x, y)` belongs to a string with exactly two
    /// liberties.
    pub fn is_ladder_attack(&self, board: &Board, x: usize, y: usize) -> (r: bool)
        ensures
            r == (board@.liberty_count((x as int, y as int)) == 2),
    {
        let stone = board.get_stone(x, y);
        if stone == Stone::Empty {
            return false;
        }
        let liberties = board.count_liberties(x, y);
        if liberties != 2 {
            return false;
        }
        true
    }

    /// For a string with exactly two liberties, the one that comes first
    /// when the board is read row by row.
    pub fn find_ladder_attack_point(&self, board: &Board, x: usize, y: usize) -> (r: Option<
        (usize, usize),
    >)
        ensures
            r is Some <==> board@.liberty_count((x as int, y as int)) == 2,
            r matches Some(q) ==> board@.is_liberty_of((x as int, y as int), point_of(q))
                && forall|c: Point|
                board@.is_liberty_of((x as int, y as int), c) ==> c == point_of(q) || q.1 < c.1 || (
                q.1 == c.1 && q.0 < c.0),
    {
        if !self.is_ladder_attack(board, x, y) {
            return None;
        }
        let liberties = board.find_liberties(x, y);
        let ghost p: Point = (x as int, y as int);
        let ghost b = board@;
        proof {
            assert(b.stone_at(p) != Stone::Empty);
            assert forall|c: Point| points_of(liberties@).contains(c) <==> b.liberties(
                b.group_at(p),
            ).contains(c) by {}
            assert(points_of(liberties@) =~= b.liberties(b.group_at(p)));
            if liberties@.len() == 0 {
                assert(points_of(liberties@) =~= Set::<Point>::empty());
            }
        }
        if liberties.len() == 0 {
            return None;
        }
        let q = liberties[0];
        proof {
            assert(points_of(liberties@).contains(point_of(liberties@[0])));
            assert forall|c: Point| b.is_liberty_of(p, c) implies c == point_of(q) || q.1 < c.1 || (
            q.1 == c.1 && q.0 < c.0) by {
                assert(points_of(liberties@).contains(c));
                let i = choose|i: int|
                    0 <= i < liberties@.len() && point_of(#[trigger] liberties@[i]) == c;
                if i > 0 {
                    assert(row_major_before(liberties@[0], liberties@[i]));
                }
            }
        }
        Some(q)
    }

    /// Eye patterns are built in; there is nothing to load, and the call
    /// succeeds.
    pub fn load_from_file(&mut self, _path: &str) -> (r: Result<(), String>)
        ensures
            r is Ok,
    {
        Ok(())
    }
}

} // verus!
