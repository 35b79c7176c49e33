//! Small checks used while matching patterns.

use vstd::prelude::*;
use crate::engine::board::{Board, Stone};
use crate::patterns::pattern_transform::Transformation;

verus! {

/// Whether `color` may stand on the image of `pos`: the image is on the
/// board and holds nothing or a stone of `color`. Without a transformation
/// the image is `pos` itself.
pub fn move_allowed(
    board: &Board,
    pos: (usize, usize),
    color: Stone,
    transform: Option<Transformation>,
) -> (r: bool)
    requires
        transform matches Some(trans) ==> trans.defined(
            pos.0 as int,
            pos.1 as int,
            board@.size as int,
        ),
    ensures
        ({
            let image = match transform {
                Some(trans) => trans.apply_spec(pos.0 as int, pos.1 as int, board@.size as int),
                None => (pos.0 as int, pos.1 as int),
            };
            r == (board@.on_board(image) && (board@.stone_at(image) == Stone::Empty
                || board@.stone_at(image) == color))
        }),
{
    let size = board.size();
    let (x, y) = match transform {
        Some(trans) => trans.apply(pos.0, pos.1, size),
        None => pos,
    };
    if x >= size || y >= size {
        return false;
    }
    let stone = board.get_stone(x, y);
    stone == Stone::Empty || stone == color
}

/// Whether the image of `pos` lies on a board of side `board_size`.
pub fn on_board_after_transform(pos: (usize, usize), transform: Transformation, board_size: usize) -> (r:
    bool)
    requires
        transform.defined(pos.0 as int, pos.1 as int, board_size as int),
    ensures
        ({
            let (x, y) = transform.apply_spec(pos.0 as int, pos.1 as int, board_size as int);
            r == (x < board_size && y < board_size)
        }),
{
    let (x, y) = transform.apply(pos.0, pos.1, board_size);
    x < board_size && y < board_size
}

/// Whether the image of `pos` lies in the first or last row or column of a
/// board of side `board_size`.
pub fn on_edge_after_transform(pos: (usize, usize), transform: Transformation, board_size: usize) -> (r:
    bool)
    requires
        transform.defined(pos.0 as int, pos.1 as int, board_size as int),
        ({
            let (x, y) = transform.apply_spec(pos.0 as int, pos.1 as int, board_size as int);
            board_size >= 1 || x == 0 || y == 0
        }),
    ensures
        ({
            let (x, y) = transform.apply_spec(pos.0 as int, pos.1 as int, board_size as int);
            r == (x == 0 || y == 0 || x == board_size - 1 || y == board_size - 1)
        }),
{
    let (x, y) = transform.apply(pos.0, pos.1, board_size);
    x == 0 || y == 0 || x == board_size - 1 || y == board_size - 1
}

/// Picks one of four values by index; any other index gives 0.
pub fn apply_autohelper(value: i32, a: i32, b: i32, c: i32, d: i32) -> (r: i32)
    ensures
        r == if value == 0 {
            a
        } else if value == 1 {
            b
        } else if value == 2 {
            c
        } else if value == 3 {
            d
        } else {
            0
        },
{
    match value {
        0 => a,
        1 => b,
        2 => c,
        3 => d,
        _ => 0,
    }
}

/// Where on the board a pattern may be looked for.
#[derive(Debug, Clone, Copy)]
pub struct PatternConstraint {
    pub min_edge_distance: usize,
    pub max_edge_distance: usize,
    pub required_stones: usize,
}

/// The distance from `(x, y)` to the nearest edge of a board of side `size`.
pub open spec fn edge_distance(x: int, y: int, size: int) -> int {
    let dx = if x <= size - 1 - x {
        x
    } else {
        size - 1 - x
    };
    let dy = if y <= size - 1 - y {
        y
    } else {
        size - 1 - y
    };
    if dx <= dy {
        dx
    } else {
        dy
    }
}

impl PatternConstraint {
    pub fn new(min_edge: usize, max_edge: usize, required: usize) -> (c: PatternConstraint)
        ensures
            c.min_edge_distance == min_edge,
            c.max_edge_distance == max_edge,
            c.required_stones == required,
    {
        PatternConstraint {
            min_edge_distance: min_edge,
            max_edge_distance: max_edge,
            required_stones: required,
        }
    }

    /// Whether the point `(x, y)` of the board is within the allowed
    /// distances from the edge.
    pub fn check(&self, board: &Board, x: usize, y: usize) -> (r: bool)
        requires
            board@.on_board((x as int, y as int)),
        ensures
            r == (self.min_edge_distance <= edge_distance(x as int, y as int, board@.size as int)
                <= self.max_edge_distance),
    {
        let size = board.size();
        let dx = if x <= size - 1 - x {
            x
        } else {
            size - 1 - x
        };
        let dy = if y <= size - 1 - y {
            y
        } else {
            size - 1 - y
        };
        let edge_dist = if dx <= dy {
            dx
        } else {
            dy
        };
        edge_dist >= self.min_edge_distance && edge_dist <= self.max_edge_distance
    }
}

} // verus!
