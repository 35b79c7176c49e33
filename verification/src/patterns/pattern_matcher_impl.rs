//! Looking patterns up at the stones of a board.
//!
//! Every pattern of the database counts as fitting every stone,
//! untransformed, and is reported for it. The patterns of a
//! database are walked in no particular order.

use vstd::prelude::*;
use crate::engine::board::{point_of, Board, Stone};
use crate::engine::state::BoardState;
use crate::patterns::pattern_database::{DatabaseView, PatternDatabase};
use crate::patterns::pattern_helpers::{edge_distance, PatternConstraint};
use crate::patterns::pattern_transform::Transformation;
use crate::patterns::{PatVal, PatternMatchResult};

verus! {

/// The reports for one pattern at `pos`: one for each of its values.
pub open spec fn block(id: u32, values: Seq<PatVal>, pos: (usize, usize)) -> Seq<
    PatternMatchResult,
> {
    Seq::new(
        values.len(),
        |i: int|
            PatternMatchResult {
                pattern_id: id,
                value: values[i].value,
                position: pos,
                transform: Transformation::Identity,
            },
    )
}

/// The reports for the patterns `order`, one pattern after the other.
pub open spec fn blocks(db: Map<u32, Seq<PatVal>>, order: Seq<u32>, pos: (usize, usize)) -> Seq<
    PatternMatchResult,
>
    decreases order.len(),
{
    if order.len() == 0 {
        Seq::empty()
    } else {
        blocks(db, order.drop_last(), pos) + block(order.last(), db[order.last()], pos)
    }
}

/// `order` names every pattern of the database once.
pub open spec fn is_walk(db: Map<u32, Seq<PatVal>>, order: Seq<u32>) -> bool {
    order.no_duplicates() && order.to_set() == db.dom()
}

/// `results` is what looking at `pos` may report: nothing for an empty
/// point, and for a stone the reports for every pattern of the database,
/// pattern by pattern in some order.
pub open spec fn found_at(
    b: BoardState,
    db: DatabaseView,
    pos: (usize, usize),
    results: Seq<PatternMatchResult>,
) -> bool {
    if b.stone_at(point_of(pos)) == Stone::Empty {
        results.len() == 0
    } else {
        exists|order: Seq<u32>| #[trigger]
            is_walk(db.patterns, order) && results == blocks(db.patterns, order, pos)
    }
}

/// The sequences of `cells` one after the other.
pub open spec fn chained(cells: Seq<Seq<PatternMatchResult>>) -> Seq<PatternMatchResult>
    decreases cells.len(),
{
    if cells.len() == 0 {
        Seq::empty()
    } else {
        chained(cells.drop_last()) + cells.last()
    }
}

/// The reports for the point `(x, y)`.
pub fn reports_at(board: &Board, x: usize, y: usize, db: &PatternDatabase) -> (results: Vec<
    PatternMatchResult,
>)
    ensures
        found_at(board@, db@, (x, y), results@),
{
    let mut results: Vec<PatternMatchResult> = Vec::new();
    if board.get_stone(x, y) == Stone::Empty {
        return results;
    }
    let ids = db.pattern_ids();
    let ghost patterns = db@.patterns;
    let mut i: usize = 0;
    while i < ids.len()
        invariant
            i <= ids@.len(),
            patterns == db@.patterns,
            ids@.to_set() == patterns.dom(),
            results@ == blocks(patterns, ids@.take(i as int), (x, y)),
        decreases ids@.len() - i,
    {
        let id = ids[i];
        let ghost done = ids@.take(i as int);
        let ghost next = ids@.take(i as int + 1);
        let ghost before = results@;
        proof {
            assert(next.drop_last() =~= done);
            assert(next.last() == id);
            assert(ids@.to_set().contains(id));
        }
        match db.get_pattern_values(id) {
            Some(values) => {
                let mut k: usize = 0;
                while k < values.len()
                    invariant
                        k <= values@.len(),
                        results@ == before + block(id, values@, (x, y)).take(k as int),
                    decreases values@.len() - k,
                {
                    results.push(
                        PatternMatchResult {
                            pattern_id: id,
                            value: values[k].value,
                            position: (x, y),
                            transform: Transformation::Identity,
                        },
                    );
                    k += 1;
                    assert(results@ =~= before + block(id, values@, (x, y)).take(k as int));
                }
                proof {
                    let all = block(id, values@, (x, y));
                    assert(all.take(all.len() as int) =~= all);
                }
            },
            None => {},
        }
        i += 1;
    }
    proof {
        assert(ids@.take(ids@.len() as int) =~= ids@);
        assert(is_walk(patterns, ids@));
    }
    results
}

/// Looks for the patterns of a database at the stones of a board, within
/// constraints on the distance to the edge.
pub struct PatternMatcher<'a> {
    board: &'a Board,
    db: &'a PatternDatabase,
    constraints: PatternConstraint,
}

/// `results` is what looking at `pos` may report under `constraints`:
/// nothing where the constraints rule the point out.
pub open spec fn constrained_at(
    b: BoardState,
    db: DatabaseView,
    constraints: PatternConstraint,
    pos: (usize, usize),
    results: Seq<PatternMatchResult>,
) -> bool {
    if constraints.min_edge_distance <= edge_distance(pos.0 as int, pos.1 as int, b.size as int)
        <= constraints.max_edge_distance {
        found_at(b, db, pos, results)
    } else {
        results.len() == 0
    }
}

impl<'a> PatternMatcher<'a> {
    pub closed spec fn board_view(&self) -> BoardState {
        self.board@
    }

    pub closed spec fn database(&self) -> DatabaseView {
        self.db@
    }

    pub closed spec fn limits(&self) -> PatternConstraint {
        self.constraints
    }

    pub fn new(board: &'a Board, db: &'a PatternDatabase, constraints: PatternConstraint) -> (m:
        PatternMatcher<'a>)
        ensures
            m.board_view() == board@,
            m.database() == db@,
            m.limits() == constraints,
    {
        PatternMatcher { board, db, constraints }
    }

    /// The reports for all points of the board, row by row: `cells` of the
    /// result's model holds what each point gave.
    pub fn match_all_positions(&self) -> (results: Vec<PatternMatchResult>)
        ensures
            exists|cells: Seq<Seq<PatternMatchResult>>|
                {
                    &&& cells.len() == self.board_view().size * self.board_view().size
                    &&& results@ == #[trigger] chained(cells)
                    &&& forall|x: int, y: int|
                        0 <= x < self.board_view().size && 0 <= y < self.board_view().size
                            ==> constrained_at(
                            self.board_view(),
                            self.database(),
                            self.limits(),
                            (x as usize, y as usize),
                            #[trigger] cells[y * self.board_view().size + x],
                        )
                },
    {
        let size = self.board.size();
        let ghost b = self.board@;
        let ghost mut cells: Seq<Seq<PatternMatchResult>> = Seq::empty();
        let mut results: Vec<PatternMatchResult> = Vec::new();
        let mut y: usize = 0;
        while y < size
            invariant
                b == self.board@,
                size == b.size,
                1 <= size <= 25,
                y <= size,
                cells.len() == y * size,
                results@ == chained(cells),
                forall|cx: int, cy: int|
                    0 <= cx < size && 0 <= cy < y ==> constrained_at(
                        b,
                        self.db@,
                        self.constraints,
                        (cx as usize, cy as usize),
                        #[trigger] cells[cy * size + cx],
                    ),
            decreases size - y,
        {
            let mut x: usize = 0;
            while x < size
                invariant
                    b == self.board@,
                    size == b.size,
                    1 <= size <= 25,
                    y < size,
                    x <= size,
                    cells.len() == y * size + x,
                    results@ == chained(cells),
                    forall|cx: int, cy: int|
                        0 <= cx < size && 0 <= cy < size && (cy < y || (cy == y && cx < x))
                            ==> constrained_at(
                            b,
                            self.db@,
                            self.constraints,
                            (cx as usize, cy as usize),
                            #[trigger] cells[cy * size + cx],
                        ),
                decreases size - x,
            {
                let ghost before = cells;
                let found = if self.constraints.check(self.board, x, y) {
                    self.match_at_position(x, y)
                } else {
                    Vec::new()
                };
                let mut k: usize = 0;
                let ghost base = results@;
                while k < found.len()
                    invariant
                        k <= found@.len(),
                        results@ == base + found@.take(k as int),
                    decreases found@.len() - k,
                {
                    results.push(found[k]);
                    k += 1;
                    assert(results@ =~= base + found@.take(k as int));
                }
                proof {
                    assert(found@.take(found@.len() as int) =~= found@);
                    cells = cells.push(found@);
                    assert(cells.drop_last() =~= before);
                    assert forall|cx: int, cy: int|
                        0 <= cx < size && 0 <= cy < size && (cy < y || (cy == y && cx < x + 1))
                            implies constrained_at(
                        b,
                        self.db@,
                        self.constraints,
                        (cx as usize, cy as usize),
                        #[trigger] cells[cy * size + cx],
                    ) by {
                        if cy == y && cx == x {
                        } else {
                            assert(cy * size + cx < y * size + x) by (nonlinear_arith)
                                requires
                                    0 <= cy,
                                    0 <= cx < size,
                                    0 <= x,
                                    cy < y || (cy == y && cx < x),
                            ;
                            assert(cy * size + cx >= 0) by (nonlinear_arith)
                                requires
                                    0 <= cy,
                                    0 <= cx,
                                    size >= 0,
                            ;
                            assert(cells[cy * size + cx] == before[cy * size + cx]);
                        }
                    }
                }
                x += 1;
            }
            proof {
                assert((y + 1) * size == y * size + size) by (nonlinear_arith);
            }
            y += 1;
        }
        results
    }

    /// The reports for the point `(x, y)`.
    pub fn match_at_position(&self, x: usize, y: usize) -> (results: Vec<PatternMatchResult>)
        ensures
            found_at(self.board_view(), self.database(), (x, y), results@),
    {
        reports_at(self.board, x, y, self.db)
    }

    /// The transformation under which a pattern fits a stone: the identity,
    /// for every pattern.
    pub fn pattern_fits(&self, _x: usize, _y: usize, _pattern_id: u32) -> (r: Option<
        Transformation,
    >)
        ensures
            r == Some(Transformation::Identity),
    {
        Some(Transformation::Identity)
    }
}

/// The reports for the point `(x, y)` of a board.
pub fn find_patterns_at(board: &Board, x: usize, y: usize, db: &PatternDatabase) -> (results: Vec<
    PatternMatchResult,
>)
    ensures
        found_at(board@, db@, (x, y), results@),
{
    let constraints = PatternConstraint::new(0, board.size(), 1);
    let matcher = PatternMatcher::new(board, db, constraints);
    matcher.match_at_position(x, y)
}

} // verus!
