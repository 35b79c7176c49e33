//! Rough judgement of a position: stones, territory and influence.

use vstd::prelude::*;
use crate::engine::board::{Board, Stone};
use crate::engine::state::{BoardState, Point};

verus! {

/// The sum of `f` over the first `n` points of column `x`.
pub open spec fn column_sum(f: spec_fn(Point) -> int, x: int, n: int) -> int
    decreases n,
{
    if n <= 0 {
        0
    } else {
        column_sum(f, x, n - 1) + f((x, n - 1))
    }
}

/// The sum of `f` over the first `n` columns of a board of side `size`.
pub open spec fn grid_sum(f: spec_fn(Point) -> int, size: int, n: int) -> int
    decreases n,
{
    if n <= 0 {
        0
    } else {
        grid_sum(f, size, n - 1) + column_sum(f, n - 1, size)
    }
}

/// The sum of `f` over all points of a board of side `size`.
pub open spec fn board_sum(f: spec_fn(Point) -> int, size: int) -> int {
    grid_sum(f, size, size)
}

/// A sum of values between `lo` and `hi` lies between `n * lo` and `n * hi`.
pub proof fn lemma_column_sum_bounds(f: spec_fn(Point) -> int, x: int, n: int, lo: int, hi: int)
    requires
        0 <= n,
        forall|y: int| 0 <= y < n ==> lo <= #[trigger] f((x, y)) <= hi,
    ensures
        n * lo <= column_sum(f, x, n) <= n * hi,
    decreases n,
{
    if n > 0 {
        lemma_column_sum_bounds(f, x, n - 1, lo, hi);
        assert(lo <= f((x, n - 1)) <= hi);
        assert(n * lo == (n - 1) * lo + lo) by (nonlinear_arith);
        assert(n * hi == (n - 1) * hi + hi) by (nonlinear_arith);
    } else {
        assert(n * lo == 0 && n * hi == 0) by (nonlinear_arith)
            requires
                n == 0,
        ;
    }
}

/// A sum over columns of values between `lo` and `hi` lies between
/// `n * size * lo` and `n * size * hi`.
pub proof fn lemma_grid_sum_bounds(f: spec_fn(Point) -> int, size: int, n: int, lo: int, hi: int)
    requires
        0 <= n,
        0 <= size,
        forall|x: int, y: int| 0 <= x < n && 0 <= y < size ==> lo <= #[trigger] f((x, y)) <= hi,
    ensures
        n * (size * lo) <= grid_sum(f, size, n) <= n * (size * hi),
    decreases n,
{
    if n > 0 {
        lemma_grid_sum_bounds(f, size, n - 1, lo, hi);
        lemma_column_sum_bounds(f, n - 1, size, lo, hi);
        assert(n * (size * lo) == (n - 1) * (size * lo) + size * lo) by (nonlinear_arith);
        assert(n * (size * hi) == (n - 1) * (size * hi) + size * hi) by (nonlinear_arith);
    } else {
        assert(n * (size * lo) == 0 && n * (size * hi) == 0) by (nonlinear_arith)
            requires
                n == 0,
        ;
    }
}

/// What a point adds to the territory balance: a black stone 1, a white
/// stone -1, an empty point 1 or -1 when more of its neighbours are black
/// or white, and 0 otherwise.
pub open spec fn territory_at(b: BoardState, p: Point) -> int {
    match b.stone_at(p) {
        Stone::Black => 1,
        Stone::White => -1,
        Stone::Empty => if b.count_around(p, Stone::Black) > b.count_around(p, Stone::White) {
            1
        } else if b.count_around(p, Stone::White) > b.count_around(p, Stone::Black) {
            -1
        } else {
            0
        },
    }
}

/// The territory balance of a position, positive in Black's favour.
pub open spec fn territory(b: BoardState) -> int {
    board_sum(|p: Point| territory_at(b, p), b.size as int)
}

/// What the point `p` adds to the influence of a stone of `color` on
/// `origin`: 4 less the number of steps between them, when `p` holds
/// `color` and is at most 3 steps away.
pub open spec fn influence_from(b: BoardState, origin: Point, color: Stone, p: Point) -> int {
    let dx = if p.0 >= origin.0 {
        p.0 - origin.0
    } else {
        origin.0 - p.0
    };
    let dy = if p.1 >= origin.1 {
        p.1 - origin.1
    } else {
        origin.1 - p.1
    };
    if dx + dy <= 3 && b.stone_at(p) == color {
        4 - (dx + dy)
    } else {
        0
    }
}

/// The influence of a stone of `color` on `origin`: what the stones of its
/// colour within 3 steps, itself among them, add up to.
pub open spec fn influence_of(b: BoardState, origin: Point, color: Stone) -> int {
    board_sum(|p: Point| influence_from(b, origin, color, p), b.size as int)
}

/// What a point adds to the influence balance: the influence of its stone,
/// counted for Black and against White.
pub open spec fn influence_at(b: BoardState, p: Point) -> int {
    match b.stone_at(p) {
        Stone::Black => influence_of(b, p, Stone::Black),
        Stone::White => -influence_of(b, p, Stone::White),
        Stone::Empty => 0,
    }
}

/// The influence balance of a position, positive in Black's favour.
pub open spec fn influence(b: BoardState) -> int {
    board_sum(|p: Point| influence_at(b, p), b.size as int)
}

/// The value of a position, positive in Black's favour: the difference in
/// stones, the territory balance and the influence balance.
pub open spec fn position_value(b: BoardState) -> int {
    b.stones(Stone::Black).len() - b.stones(Stone::White).len() + territory(b) + influence(b)
}

/// 1 if the point counts for `color`: it holds `color`, or it is empty and
/// more of its neighbours hold `color` than the other colour.
pub open spec fn area_at(b: BoardState, color: Stone, p: Point) -> int {
    if b.stone_at(p) == color {
        1
    } else if b.stone_at(p) == Stone::Empty && b.count_around(p, color) > b.count_around(
        p,
        color.opponent_spec(),
    ) {
        1
    } else {
        0
    }
}

/// The estimated score of `color`: its stones, and once more every point
/// that counts for it.
pub open spec fn estimate(b: BoardState, color: Stone) -> int {
    b.stones(color).len() + board_sum(|p: Point| area_at(b, color, p), b.size as int)
}

/// The influence of a stone lies between 0 and 4 for every point of the
/// board.
pub proof fn lemma_influence_of_bounds(b: BoardState, origin: Point, color: Stone)
    requires
        b.wf(),
    ensures
        0 <= influence_of(b, origin, color) <= 2500,
{
    let f = |p: Point| influence_from(b, origin, color, p);
    let n = b.size as int;
    assert forall|x: int, y: int| 0 <= x < n && 0 <= y < n implies 0 <= #[trigger] f((x, y))
        <= 4 by {}
    lemma_grid_sum_bounds(f, n, n, 0, 4);
    assert(n * (n * 4) <= 2500 && n * (n * 0) == 0) by (nonlinear_arith)
        requires
            0 <= n <= 25,
    ;
}

/// Sums the values that `cell` gives for the points of a board of side
/// `size`, column by column.
fn sum_board<F: Fn(usize, usize) -> i32>(
    size: usize,
    cell: F,
    Ghost(f): Ghost<spec_fn(Point) -> int>,
    bound: i32,
) -> (total: i32)
    requires
        1 <= size <= 25,
        0 <= bound <= 2500,
        forall|x: usize, y: usize| x < size && y < size ==> call_requires(cell, (x, y)),
        forall|x: usize, y: usize, v: i32|
            x < size && y < size && call_ensures(cell, (x, y), v) ==> v == f((x as int, y as int))
                && -bound <= v <= bound,
    ensures
        total == board_sum(f, size as int),
        -(size * size * bound) <= total <= size * size * bound,
{
    let mut total: i32 = 0;
    let mut x: usize = 0;
    while x < size
        invariant
            1 <= size <= 25,
            0 <= bound <= 2500,
            x <= size,
            forall|x: usize, y: usize| x < size && y < size ==> call_requires(cell, (x, y)),
            forall|x: usize, y: usize, v: i32|
                x < size && y < size && call_ensures(cell, (x, y), v) ==> v == f(
                    (x as int, y as int),
                ) && -bound <= v <= bound,
            total == grid_sum(f, size as int, x as int),
            -(x * size * bound) <= total <= x * size * bound,
        decreases size - x,
    {
        let ghost base = total as int;
        let mut y: usize = 0;
        while y < size
            invariant
                1 <= size <= 25,
                0 <= bound <= 2500,
                x < size,
                y <= size,
                forall|x: usize, y: usize| x < size && y < size ==> call_requires(cell, (x, y)),
                forall|x: usize, y: usize, v: i32|
                    x < size && y < size && call_ensures(cell, (x, y), v) ==> v == f(
                        (x as int, y as int),
                    ) && -bound <= v <= bound,
                -(x * size * bound) <= base <= x * size * bound,
                total == base + column_sum(f, x as int, y as int),
                -(y * bound) <= column_sum(f, x as int, y as int) <= y * bound,
            decreases size - y,
        {
            proof {
                assert(x * size * bound <= 24 * 25 * 2500 && y * bound <= 24 * 2500 && (y + 1)
                    * bound == y * bound + bound) by (nonlinear_arith)
                    requires
                        x < size,
                        y < size,
                        size <= 25,
                        0 <= bound <= 2500,
                ;
            }
            let v = cell(x, y);
            total = total + v;
            y += 1;
        }
        proof {
            assert((x + 1) * size * bound == x * size * bound + size * bound) by (nonlinear_arith);
        }
        x += 1;
    }
    total
}

/// Judges positions.
pub struct Evaluator;

impl Evaluator {
    /// The value of the position, positive in Black's favour.
    pub fn evaluate_position(board: &Board) -> (score: i32)
        ensures
            score == position_value(board@),
            -1564375 <= score <= 1564375,
    {
        let size = board.size();
        proof {
            assert(size * size <= 625) by (nonlinear_arith)
                requires
                    size <= 25,
            ;
        }
        let black_stones = board.stones_on_board(Stone::Black);
        let white_stones = board.stones_on_board(Stone::White);
        let mut score: i32 = (black_stones as i32) - (white_stones as i32);
        score = score + Self::evaluate_territory(board);
        score = score + Self::evaluate_influence(board);
        score
    }

    /// The territory balance of the board.
    fn evaluate_territory(board: &Board) -> (r: i32)
        ensures
            r == territory(board@),
            -625 <= r <= 625,
    {
        let size = board.size();
        let ghost b = board@;
        let cell = |row: usize, col: usize| -> (v: i32)
            requires
                row < size,
                col < size,
            ensures
                v == territory_at(board@, (row as int, col as int)),
                -1 <= v <= 1,
            {
                match board.get_stone(row, col) {
                    Stone::Black => 1,
                    Stone::White => -1,
                    Stone::Empty => {
                        let black_adjacent = Self::count_adjacent_stones(
                            board,
                            row,
                            col,
                            Stone::Black,
                        );
                        let white_adjacent = Self::count_adjacent_stones(
                            board,
                            row,
                            col,
                            Stone::White,
                        );
                        if black_adjacent > white_adjacent {
                            1
                        } else if white_adjacent > black_adjacent {
                            -1
                        } else {
                            0
                        }
                    },
                }
            };
        let r = sum_board(size, cell, Ghost(|p: Point| territory_at(b, p)), 1);
        proof {
            assert(size * size * 1 <= 625) by (nonlinear_arith)
                requires
                    size <= 25,
            ;
        }
        r
    }

    /// The influence balance of the board.
    fn evaluate_influence(board: &Board) -> (r: i32)
        ensures
            r == influence(board@),
            -1562500 <= r <= 1562500,
    {
        let size = board.size();
        let ghost b = board@;
        let cell = |row: usize, col: usize| -> (v: i32)
            requires
                row < size,
                col < size,
            ensures
                v == influence_at(board@, (row as int, col as int)),
                -2500 <= v <= 2500,
            {
                match board.get_stone(row, col) {
                    Stone::Black => Self::calculate_influence(board, row, col, Stone::Black),
                    Stone::White => -Self::calculate_influence(board, row, col, Stone::White),
                    Stone::Empty => 0,
                }
            };
        let r = sum_board(size, cell, Ghost(|p: Point| influence_at(b, p)), 2500);
        proof {
            assert(size * size * 2500 <= 1562500) by (nonlinear_arith)
                requires
                    size <= 25,
            ;
        }
        r
    }

    /// The number of neighbours of `(row, col)` that hold `color`.
    fn count_adjacent_stones(board: &Board, row: usize, col: usize, color: Stone) -> (n: usize)
        requires
            board@.on_board((row as int, col as int)),
            color != Stone::Empty,
        ensures
            n == board@.count_around((row as int, col as int), color),
            n <= 4,
    {
        let mut count: usize = 0;
        let size = board.size();
        if row > 0 && board.get_stone(row - 1, col) == color {
            count += 1;
        }
        if row < size - 1 && board.get_stone(row + 1, col) == color {
            count += 1;
        }
        if col > 0 && board.get_stone(row, col - 1) == color {
            count += 1;
        }
        if col < size - 1 && board.get_stone(row, col + 1) == color {
            count += 1;
        }
        count
    }

    /// The influence of a stone of `color` on `(row, col)`.
    fn calculate_influence(board: &Board, row: usize, col: usize, color: Stone) -> (r: i32)
        requires
            board@.on_board((row as int, col as int)),
        ensures
            r == influence_of(board@, (row as int, col as int), color),
            0 <= r <= 2500,
    {
        let size = board.size();
        let ghost b = board@;
        let ghost origin: Point = (row as int, col as int);
        let cell = |r: usize, c: usize| -> (v: i32)
            requires
                r < size,
                c < size,
                row < size,
                col < size,
                size <= 25,
            ensures
                v == influence_from(board@, (row as int, col as int), color, (r as int, c as int)),
                0 <= v <= 4,
            {
                let dx = if r >= row {
                    r - row
                } else {
                    row - r
                };
                let dy = if c >= col {
                    c - col
                } else {
                    col - c
                };
                let distance = dx + dy;
                if distance <= 3 && board.get_stone(r, c) == color {
                    4 - distance as i32
                } else {
                    0
                }
            };
        proof {
            lemma_influence_of_bounds(b, origin, color);
        }
        sum_board(size, cell, Ghost(|p: Point| influence_from(b, origin, color, p)), 4)
    }

    /// The estimated scores of Black and White: for each, its stones, and
    /// once more every point that holds its stone or is empty with more
    /// neighbours of its colour than of the other.
    pub fn estimate_score(board: &Board) -> (r: (i32, i32))
        ensures
            r.0 == estimate(board@, Stone::Black),
            r.1 == estimate(board@, Stone::White),
    {
        let size = board.size();
        let ghost b = board@;
        proof {
            assert(size * size <= 625 && size * size * 1 <= 625) by (nonlinear_arith)
                requires
                    size <= 25,
            ;
        }
        let black_cell = |row: usize, col: usize| -> (v: i32)
            requires
                row < size,
                col < size,
            ensures
                v == area_at(board@, Stone::Black, (row as int, col as int)),
                0 <= v <= 1,
            {
                Self::area_cell(board, row, col, Stone::Black)
            };
        let white_cell = |row: usize, col: usize| -> (v: i32)
            requires
                row < size,
                col < size,
            ensures
                v == area_at(board@, Stone::White, (row as int, col as int)),
                0 <= v <= 1,
            {
                Self::area_cell(board, row, col, Stone::White)
            };
        let black_stones = board.stones_on_board(Stone::Black) as i32;
        let white_stones = board.stones_on_board(Stone::White) as i32;
        let black_area = sum_board(
            size,
            black_cell,
            Ghost(|p: Point| area_at(b, Stone::Black, p)),
            1,
        );
        let white_area = sum_board(
            size,
            white_cell,
            Ghost(|p: Point| area_at(b, Stone::White, p)),
            1,
        );
        (black_stones + black_area, white_stones + white_area)
    }

    /// 1 if `(row, col)` counts for `color`, else 0.
    fn area_cell(board: &Board, row: usize, col: usize, color: Stone) -> (v: i32)
        requires
            board@.on_board((row as int, col as int)),
            color != Stone::Empty,
        ensures
            v == area_at(board@, color, (row as int, col as int)),
    {
        let stone = board.get_stone(row, col);
        if stone == color {
            1
        } else if stone == Stone::Empty {
            let own = Self::count_adjacent_stones(board, row, col, color);
            let other = Self::count_adjacent_stones(board, row, col, color.opponent());
            if own > other {
                1
            } else {
                0
            }
        } else {
            0
        }
    }
}

} // verus!
