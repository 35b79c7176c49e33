//! Looking patterns up over a whole board, with a cache of what each point
//! gave.
//!
//! The cache is filed under the kind of pattern and the point alone: a
//! point that was looked at once reports the same again, whatever the
//! board holds by then, until the cache is cleared.

use std::collections::HashMap;
use vstd::prelude::*;
use crate::engine::board::{Board, MAX_BOARD_SIZE};
use crate::engine::state::BoardState;
use crate::patterns::pattern_database::{DatabaseView, PatternDatabase, PatternDatabases};
use crate::patterns::pattern_loader::{content, file_spec, first_failure, LoadError};
use crate::patterns::pattern_matcher_impl::{chained, found_at, reports_at};
use crate::patterns::{PatVal, PatternMatchResult, PatternType};

verus! {

/// The number a kind of pattern is filed under.
pub open spec fn type_index(t: PatternType) -> int {
    match t {
        PatternType::Attack => 0,
        PatternType::Defense => 1,
        PatternType::Fuseki => 2,
        PatternType::Joseki => 3,
        PatternType::Endgame => 4,
    }
}

/// The key under which the reports for a point are cached.
pub open spec fn cache_key(t: PatternType, row: int, col: int) -> int {
    (type_index(t) * 25 + row) * 25 + col
}

/// What the point in row `row` and column `col` gave, where `cells` holds
/// the reports point by point, row by row.
pub open spec fn cell_at(
    cells: Seq<Seq<PatternMatchResult>>,
    size: int,
    row: int,
    col: int,
) -> Seq<PatternMatchResult> {
    cells[row * size + col]
}

/// The model of a matcher.
pub struct MatcherView {
    pub attack: DatabaseView,
    pub defense: DatabaseView,
    pub fuseki: DatabaseView,
    pub joseki: DatabaseView,
    pub endgame: DatabaseView,
    pub cache: Map<int, Seq<PatternMatchResult>>,
}

impl MatcherView {
    /// The database for a kind of pattern.
    pub open spec fn database(self, t: PatternType) -> DatabaseView {
        match t {
            PatternType::Attack => self.attack,
            PatternType::Defense => self.defense,
            PatternType::Fuseki => self.fuseki,
            PatternType::Joseki => self.joseki,
            PatternType::Endgame => self.endgame,
        }
    }

    /// The point in row `row` and column `col` has been searched: what it
    /// gave is cached in `after`, and it is what was cached before, or,
    /// where nothing was, what looking at the point gives.
    pub open spec fn searched(
        self,
        b: BoardState,
        t: PatternType,
        cells: Seq<Seq<PatternMatchResult>>,
        after: MatcherView,
        row: int,
        col: int,
    ) -> bool {
        let key = cache_key(t, row, col);
        let cell = cell_at(cells, b.size as int, row, col);
        &&& after.cache.contains_key(key)
        &&& after.cache[key] == cell
        &&& if self.cache.contains_key(key) {
            cell == self.cache[key]
        } else {
            found_at(b, self.database(t), (row as usize, col as usize), cell)
        }
    }

    /// What a search of the board for patterns of kind `t` may report, and
    /// what it leaves cached: `cells` holds the reports point by point,
    /// row by row; a cached point reports what is cached, any other point
    /// what looking at it gives, which is cached from then on.
    pub open spec fn search(
        self,
        b: BoardState,
        t: PatternType,
        cells: Seq<Seq<PatternMatchResult>>,
        after: MatcherView,
    ) -> bool {
        &&& cells.len() == b.size * b.size
        &&& after == (MatcherView { cache: after.cache, ..self })
        &&& forall|row: int, col: int|
            0 <= row < b.size && 0 <= col < b.size ==> #[trigger] self.searched(
                b,
                t,
                cells,
                after,
                row,
                col,
            )
        &&& forall|key: int| #[trigger]
            self.cache.contains_key(key) ==> after.cache.contains_key(key) && after.cache[key]
                == self.cache[key]
        &&& forall|key: int| #[trigger]
            after.cache.contains_key(key) ==> self.cache.contains_key(key) || exists|
                row: int,
                col: int,
            |
                0 <= row < b.size && 0 <= col < b.size && key == #[trigger] cache_key(t, row, col)
    }
}

/// The sum of the values of reports.
pub open spec fn total_value(results: Seq<PatternMatchResult>) -> int
    decreases results.len(),
{
    if results.len() == 0 {
        0
    } else {
        total_value(results.drop_last()) + results.last().value
    }
}

/// Looks patterns up over whole boards.
pub struct PatternMatcher {
    databases: PatternDatabases,
    pattern_cache: HashMap<u64, Vec<PatternMatchResult>>,
}

impl View for PatternMatcher {
    type V = MatcherView;

    closed spec fn view(&self) -> MatcherView {
        MatcherView {
            attack: self.databases.attack(),
            defense: self.databases.defense(),
            fuseki: self.databases.fuseki(),
            joseki: self.databases.joseki(),
            endgame: self.databases.endgame(),
            cache: Map::new(
                |key: int| 0 <= key <= u64::MAX && self.pattern_cache@.contains_key(key as u64),
                |key: int| self.pattern_cache@[key as u64]@,
            ),
        }
    }
}

/// The number a kind of pattern is filed under.
fn index_of_type(t: PatternType) -> (i: u64)
    ensures
        i == type_index(t),
{
    match t {
        PatternType::Attack => 0,
        PatternType::Defense => 1,
        PatternType::Fuseki => 2,
        PatternType::Joseki => 3,
        PatternType::Endgame => 4,
    }
}

/// The predefined pattern values, each list with its name.
pub fn predefined_patterns() -> (v: Vec<(Vec<PatVal>, &'static str)>)
    ensures
        v@.len() == 5,
        v@[0].0@ == seq![
            PatVal { pattern_id: 722, value: 1 },
            PatVal { pattern_id: 795, value: 2 },
            PatVal { pattern_id: 684, value: 2 },
            PatVal { pattern_id: 758, value: 0 },
            PatVal { pattern_id: 759, value: 0 },
            PatVal { pattern_id: 796, value: 0 },
        ],
        v@[1].0@ == seq![
            PatVal { pattern_id: 649, value: 1 },
            PatVal { pattern_id: 684, value: 1 },
            PatVal { pattern_id: 685, value: 2 },
            PatVal { pattern_id: 611, value: 2 },
        ],
        v@[2].0@ == seq![
            PatVal { pattern_id: 722, value: 1 },
            PatVal { pattern_id: 648, value: 1 },
            PatVal { pattern_id: 686, value: 2 },
            PatVal { pattern_id: 684, value: 2 },
        ],
        v@[3].0@ == seq![
            PatVal { pattern_id: 759, value: 1 },
            PatVal { pattern_id: 685, value: 1 },
            PatVal { pattern_id: 723, value: 2 },
            PatVal { pattern_id: 684, value: 2 },
        ],
        v@[4].0@ == seq![
            PatVal { pattern_id: 758, value: 1 },
            PatVal { pattern_id: 684, value: 1 },
            PatVal { pattern_id: 722, value: 2 },
            PatVal { pattern_id: 757, value: 0 },
        ],
        v@[0].1@ == "pat0"@,
        v@[1].1@ == "pat1"@,
        v@[2].1@ == "pat2"@,
        v@[3].1@ == "pat3"@,
        v@[4].1@ == "pat4"@,
{
    let mut v: Vec<(Vec<PatVal>, &'static str)> = Vec::new();
    let mut list0: Vec<PatVal> = Vec::new();
    list0.push(PatVal::new(722, 1));
    list0.push(PatVal::new(795, 2));
    list0.push(PatVal::new(684, 2));
    list0.push(PatVal::new(758, 0));
    list0.push(PatVal::new(759, 0));
    list0.push(PatVal::new(796, 0));
    let mut list1: Vec<PatVal> = Vec::new();
    list1.push(PatVal::new(649, 1));
    list1.push(PatVal::new(684, 1));
    list1.push(PatVal::new(685, 2));
    list1.push(PatVal::new(611, 2));
    let mut list2: Vec<PatVal> = Vec::new();
    list2.push(PatVal::new(722, 1));
    list2.push(PatVal::new(648, 1));
    list2.push(PatVal::new(686, 2));
    list2.push(PatVal::new(684, 2));
    let mut list3: Vec<PatVal> = Vec::new();
    list3.push(PatVal::new(759, 1));
    list3.push(PatVal::new(685, 1));
    list3.push(PatVal::new(723, 2));
    list3.push(PatVal::new(684, 2));
    let mut list4: Vec<PatVal> = Vec::new();
    list4.push(PatVal::new(758, 1));
    list4.push(PatVal::new(684, 1));
    list4.push(PatVal::new(722, 2));
    list4.push(PatVal::new(757, 0));
    proof {
        assert(list0@ =~= seq![
            PatVal { pattern_id: 722, value: 1 },
            PatVal { pattern_id: 795, value: 2 },
            PatVal { pattern_id: 684, value: 2 },
            PatVal { pattern_id: 758, value: 0 },
            PatVal { pattern_id: 759, value: 0 },
            PatVal { pattern_id: 796, value: 0 },
        ]);
        assert(list1@ =~= seq![
            PatVal { pattern_id: 649, value: 1 },
            PatVal { pattern_id: 684, value: 1 },
            PatVal { pattern_id: 685, value: 2 },
            PatVal { pattern_id: 611, value: 2 },
        ]);
        assert(list2@ =~= seq![
            PatVal { pattern_id: 722, value: 1 },
            PatVal { pattern_id: 648, value: 1 },
            PatVal { pattern_id: 686, value: 2 },
            PatVal { pattern_id: 684, value: 2 },
        ]);
        assert(list3@ =~= seq![
            PatVal { pattern_id: 759, value: 1 },
            PatVal { pattern_id: 685, value: 1 },
            PatVal { pattern_id: 723, value: 2 },
            PatVal { pattern_id: 684, value: 2 },
        ]);
        assert(list4@ =~= seq![
            PatVal { pattern_id: 758, value: 1 },
            PatVal { pattern_id: 684, value: 1 },
            PatVal { pattern_id: 722, value: 2 },
            PatVal { pattern_id: 757, value: 0 },
        ]);
    }
    v.push((list0, "pat0"));
    v.push((list1, "pat1"));
    v.push((list2, "pat2"));
    v.push((list3, "pat3"));
    v.push((list4, "pat4"));
    v
}

impl PatternMatcher {
    /// A matcher with five empty databases and nothing cached.
    pub fn new() -> (m: PatternMatcher)
        ensures
            m@.cache == Map::<int, Seq<PatternMatchResult>>::empty(),
            m@.attack.patterns == Map::<u32, Seq<PatVal>>::empty(),
            m@.defense.patterns == Map::<u32, Seq<PatVal>>::empty(),
            m@.fuseki.patterns == Map::<u32, Seq<PatVal>>::empty(),
            m@.joseki.patterns == Map::<u32, Seq<PatVal>>::empty(),
            m@.endgame.patterns == Map::<u32, Seq<PatVal>>::empty(),
    {
        broadcast use vstd::std_specs::hash::group_hash_axioms;

        let m = PatternMatcher { databases: PatternDatabases::new(), pattern_cache: HashMap::new() };
        assert(m@.cache =~= Map::<int, Seq<PatternMatchResult>>::empty());
        m
    }

    /// Replaces the databases by what the standard files hold, in turn;
    /// each content is handed over by the caller, if it could read the
    /// file. The first file that cannot be read or does not hold a
    /// database stops the loading with its error. The cache stays as it
    /// is.
    pub fn load_databases(
        &mut self,
        attack: Option<&[u8]>,
        defense: Option<&[u8]>,
        fuseki: Option<&[u8]>,
        joseki: Option<&[u8]>,
        endgame: Option<&[u8]>,
    ) -> (r: Result<(), LoadError>)
        ensures
            match first_failure(content(attack), content(defense), content(fuseki), content(joseki), content(endgame)) {
                Some(e) => r matches Err(f) && f == e,
                None => r is Ok && Ok::<DatabaseView, LoadError>(final(self)@.attack) == file_spec(
                    "patterns/attack.db"@,
                    content(attack),
                    PatternType::Attack,
                ) && Ok::<DatabaseView, LoadError>(final(self)@.defense) == file_spec(
                    "patterns/defense.db"@,
                    content(defense),
                    PatternType::Defense,
                ) && Ok::<DatabaseView, LoadError>(final(self)@.fuseki) == file_spec(
                    "patterns/fuseki.db"@,
                    content(fuseki),
                    PatternType::Fuseki,
                ) && Ok::<DatabaseView, LoadError>(final(self)@.joseki) == file_spec(
                    "patterns/joseki.db"@,
                    content(joseki),
                    PatternType::Joseki,
                ) && Ok::<DatabaseView, LoadError>(final(self)@.endgame) == file_spec(
                    "patterns/endgame.db"@,
                    content(endgame),
                    PatternType::Endgame,
                ),
            },
            final(self)@.cache == old(self)@.cache,
    {
        self.databases.load_all(attack, defense, fuseki, joseki, endgame)
    }

    /// The reports for all points of the board for patterns of one kind.
    pub fn find_matching_patterns(&mut self, board: &Board, pattern_type: PatternType) -> (results:
        Vec<PatternMatchResult>)
        ensures
            exists|cells: Seq<Seq<PatternMatchResult>>|
                results@ == #[trigger] chained(cells) && old(self)@.search(
                    board@,
                    pattern_type,
                    cells,
                    final(self)@,
                ),
    {
        broadcast use vstd::std_specs::hash::group_hash_axioms;

        let mut results: Vec<PatternMatchResult> = Vec::new();
        let size = board.size();
        let type_number = index_of_type(pattern_type);
        let ghost b = board@;
        let ghost start = self@;
        let ghost mut cells: Seq<Seq<PatternMatchResult>> = Seq::empty();
        let mut row: usize = 0;
        while row < size
            invariant
                b == board@,
                size == b.size,
                1 <= size <= 25,
                type_number == type_index(pattern_type),
                start == old(self)@,
                row <= size,
                cells.len() == row * size,
                results@ == chained(cells),
                self@ == (MatcherView { cache: self@.cache, ..start }),
                forall|r: int, c: int|
                    0 <= r < row && 0 <= c < size ==> #[trigger] start.searched(
                        b,
                        pattern_type,
                        cells,
                        self@,
                        r,
                        c,
                    ),
                forall|key: int| #[trigger]
                    start.cache.contains_key(key) ==> self@.cache.contains_key(key)
                        && self@.cache[key] == start.cache[key],
                forall|key: int| #[trigger]
                    self@.cache.contains_key(key) ==> start.cache.contains_key(key) || exists|
                        r: int,
                        c: int,
                    |
                        0 <= r < row && 0 <= c < size && key == #[trigger] cache_key(
                            pattern_type,
                            r,
                            c,
                        ),
            decreases size - row,
        {
            let mut col: usize = 0;
            while col < size
                invariant
                    b == board@,
                    size == b.size,
                    1 <= size <= 25,
                    type_number == type_index(pattern_type),
                    start == old(self)@,
                    row < size,
                    col <= size,
                    cells.len() == row * size + col,
                    results@ == chained(cells),
                    self@ == (MatcherView { cache: self@.cache, ..start }),
                    forall|r: int, c: int|
                        0 <= r < size && 0 <= c < size && (r < row || (r == row && c < col))
                            ==> #[trigger] start.searched(b, pattern_type, cells, self@, r, c),
                    forall|key: int| #[trigger]
                        start.cache.contains_key(key) ==> self@.cache.contains_key(key)
                            && self@.cache[key] == start.cache[key],
                    forall|key: int| #[trigger]
                        self@.cache.contains_key(key) ==> start.cache.contains_key(key) || exists|
                            r: int,
                            c: int,
                        |
                            0 <= r < size && 0 <= c < size && (r < row || (r == row && c < col))
                                && key == #[trigger] cache_key(pattern_type, r, c),
                decreases size - col,
            {
                let key: u64 = (type_number * 25 + row as u64) * 25 + col as u64;
                let ghost before = cells;
                let ghost cache_before = self@.cache;
                let ghost state_before = self@;
                let ghost base = results@;
                assert(key == cache_key(pattern_type, row as int, col as int));
                proof {
                    // A key of an earlier point is another key.
                    assert forall|r: int, c: int|
                        0 <= r < size && 0 <= c < size && (r != row || c != col) implies cache_key(
                        pattern_type,
                        r,
                        c,
                    ) != key by {}
                }
                let cached: bool = self.pattern_cache.contains_key(&key);
                assert(cached == cache_before.contains_key(key as int));
                let found: Vec<PatternMatchResult> = if cached {
                    let entry = self.pattern_cache.get(&key).unwrap();
                    let mut copy: Vec<PatternMatchResult> = Vec::new();
                    let mut k: usize = 0;
                    while k < entry.len()
                        invariant
                            k <= entry@.len(),
                            copy@ == entry@.take(k as int),
                        decreases entry@.len() - k,
                    {
                        copy.push(entry[k]);
                        k += 1;
                        assert(copy@ =~= entry@.take(k as int));
                    }
                    assert(entry@.take(entry@.len() as int) =~= entry@);
                    copy
                } else {
                    let db = match pattern_type {
                        PatternType::Attack => self.databases.get_attack_db(),
                        PatternType::Defense => self.databases.get_defense_db(),
                        PatternType::Fuseki => self.databases.get_fuseki_db(),
                        PatternType::Joseki => self.databases.get_joseki_db(),
                        PatternType::Endgame => self.databases.get_endgame_db(),
                    };
                    let matches = reports_at(board, row, col, db);
                    let mut copy: Vec<PatternMatchResult> = Vec::new();
                    let mut k: usize = 0;
                    while k < matches.len()
                        invariant
                            k <= matches@.len(),
                            copy@ == matches@.take(k as int),
                        decreases matches@.len() - k,
                    {
                        copy.push(matches[k]);
                        k += 1;
                        assert(copy@ =~= matches@.take(k as int));
                    }
                    assert(matches@.take(matches@.len() as int) =~= matches@);
                    self.pattern_cache.insert(key, copy);
                    matches
                };
                let mut k: usize = 0;
                while k < found.len()
                    invariant
                        k <= found@.len(),
                        results@ == base + found@.take(k as int),
                    decreases found@.len() - k,
                {
                    results.push(found[k]);
                    k += 1;
                    assert(results@ =~= base + found@.take(k as int));
                }
                proof {
                    assert(found@.take(found@.len() as int) =~= found@);
                    cells = cells.push(found@);
                    assert(cells.drop_last() =~= before);
                    assert(self@.cache =~= if cached {
                        cache_before
                    } else {
                        cache_before.insert(key as int, found@)
                    });
                    if cached {
                        if !start.cache.contains_key(key as int) {
                            let (r, c) = choose|r: int, c: int|
                                0 <= r < size && 0 <= c < size && (r < row || (r == row && c < col))
                                    && key == #[trigger] cache_key(pattern_type, r, c);
                            assert(false);
                        }
                    }
                    assert forall|r: int, c: int|
                        0 <= r < size && 0 <= c < size && (r < row || (r == row && c < col + 1))
                            implies #[trigger] start.searched(
                        b,
                        pattern_type,
                        cells,
                        self@,
                        r,
                        c,
                    ) by {
                        if r == row && c == col {
                            assert(cell_at(cells, size as int, r, c) == found@);
                        } else {
                            assert(r * size + c < row * size + col) by (nonlinear_arith)
                                requires
                                    0 <= r,
                                    0 <= c < size,
                                    0 <= col,
                                    r < row || (r == row && c < col),
                            ;
                            assert(r * size + c >= 0) by (nonlinear_arith)
                                requires
                                    0 <= r,
                                    0 <= c,
                                    size >= 0,
                            ;
                            assert(cells[r * size + c] == before[r * size + c]);
                            assert(cell_at(cells, size as int, r, c) == cell_at(
                                before,
                                size as int,
                                r,
                                c,
                            ));
                            assert(cache_key(pattern_type, r, c) != key);
                            assert(start.searched(b, pattern_type, before, state_before, r, c));
                        }
                    }
                    assert forall|k2: int| #[trigger] self@.cache.contains_key(k2) implies start.cache.contains_key(
                        k2,
                    ) || exists|r: int, c: int|
                        0 <= r < size && 0 <= c < size && (r < row || (r == row && c < col + 1))
                            && k2 == #[trigger] cache_key(pattern_type, r, c) by {
                        if k2 == key {
                            assert(k2 == cache_key(pattern_type, row as int, col as int));
                        } else if !start.cache.contains_key(k2) {
                            assert(cache_before.contains_key(k2));
                            let (r, c) = choose|r: int, c: int|
                                0 <= r < size && 0 <= c < size && (r < row || (r == row && c < col))
                                    && k2 == #[trigger] cache_key(pattern_type, r, c);
                            assert(k2 == cache_key(pattern_type, r, c));
                        }
                    }
                }
                col += 1;
            }
            proof {
                assert((row + 1) * size == row * size + size) by (nonlinear_arith);
            }
            row += 1;
        }
        proof {
            assert(start.search(b, pattern_type, cells, self@));
        }
        results
    }

    /// The sum of the values of the reports for all five kinds of pattern,
    /// searched in turn, if it fits the result.
    pub fn evaluate_board(&mut self, board: &Board) -> (r: Option<i32>)
        ensures
            exists|
                c1: Seq<Seq<PatternMatchResult>>,
                c2: Seq<Seq<PatternMatchResult>>,
                c3: Seq<Seq<PatternMatchResult>>,
                c4: Seq<Seq<PatternMatchResult>>,
                c5: Seq<Seq<PatternMatchResult>>,
                s1: MatcherView,
                s2: MatcherView,
                s3: MatcherView,
                s4: MatcherView,
            |
                {
                    let total = total_value(chained(c1)) + total_value(chained(c2)) + total_value(
                        chained(c3),
                    ) + total_value(chained(c4)) + total_value(chained(c5));
                    &&& #[trigger] old(self)@.search(board@, PatternType::Attack, c1, s1)
                    &&& #[trigger] s1.search(board@, PatternType::Defense, c2, s2)
                    &&& #[trigger] s2.search(board@, PatternType::Fuseki, c3, s3)
                    &&& #[trigger] s3.search(board@, PatternType::Joseki, c4, s4)
                    &&& #[trigger] s4.search(board@, PatternType::Endgame, c5, final(self)@)
                    &&& r == if i32::MIN <= total <= i32::MAX {
                        Some(total as i32)
                    } else {
                        None
                    }
                },
    {
        let ghost s0 = self@;
        let r1 = self.find_matching_patterns(board, PatternType::Attack);
        let ghost s1 = self@;
        let r2 = self.find_matching_patterns(board, PatternType::Defense);
        let ghost s2 = self@;
        let r3 = self.find_matching_patterns(board, PatternType::Fuseki);
        let ghost s3 = self@;
        let r4 = self.find_matching_patterns(board, PatternType::Joseki);
        let ghost s4 = self@;
        let r5 = self.find_matching_patterns(board, PatternType::Endgame);
        let t1 = sum_values(&r1);
        let t2 = sum_values(&r2);
        let t3 = sum_values(&r3);
        let t4 = sum_values(&r4);
        let t5 = sum_values(&r5);
        let counted = (r1.len(), r2.len(), r3.len(), r4.len(), r5.len());
        proof {
            assert(r1@.len() * 0x8000_0000 <= 0x8000_0000_0000_0000_0000_0000) by (nonlinear_arith)
                requires
                    r1@.len() <= 0x1_0000_0000_0000_0000,
            ;
            assert(r2@.len() * 0x8000_0000 <= 0x8000_0000_0000_0000_0000_0000) by (nonlinear_arith)
                requires
                    r2@.len() <= 0x1_0000_0000_0000_0000,
            ;
            assert(r3@.len() * 0x8000_0000 <= 0x8000_0000_0000_0000_0000_0000) by (nonlinear_arith)
                requires
                    r3@.len() <= 0x1_0000_0000_0000_0000,
            ;
            assert(r4@.len() * 0x8000_0000 <= 0x8000_0000_0000_0000_0000_0000) by (nonlinear_arith)
                requires
                    r4@.len() <= 0x1_0000_0000_0000_0000,
            ;
            assert(r5@.len() * 0x8000_0000 <= 0x8000_0000_0000_0000_0000_0000) by (nonlinear_arith)
                requires
                    r5@.len() <= 0x1_0000_0000_0000_0000,
            ;
        }
        let total: i128 = t1 + t2 + t3 + t4 + t5;
        proof {
            let c1 = choose|c: Seq<Seq<PatternMatchResult>>|
                r1@ == #[trigger] chained(c) && s0.search(board@, PatternType::Attack, c, s1);
            let c2 = choose|c: Seq<Seq<PatternMatchResult>>|
                r2@ == #[trigger] chained(c) && s1.search(board@, PatternType::Defense, c, s2);
            let c3 = choose|c: Seq<Seq<PatternMatchResult>>|
                r3@ == #[trigger] chained(c) && s2.search(board@, PatternType::Fuseki, c, s3);
            let c4 = choose|c: Seq<Seq<PatternMatchResult>>|
                r4@ == #[trigger] chained(c) && s3.search(board@, PatternType::Joseki, c, s4);
            let c5 = choose|c: Seq<Seq<PatternMatchResult>>|
                r5@ == #[trigger] chained(c) && s4.search(board@, PatternType::Endgame, c, self@);
            assert(s0.search(board@, PatternType::Attack, c1, s1));
            assert(s1.search(board@, PatternType::Defense, c2, s2));
            assert(s2.search(board@, PatternType::Fuseki, c3, s3));
            assert(s3.search(board@, PatternType::Joseki, c4, s4));
            assert(s4.search(board@, PatternType::Endgame, c5, self@));
        }
        if total >= -0x8000_0000 && total <= 0x7fff_ffff {
            Some(total as i32)
        } else {
            None
        }
    }

    /// Forgets what the points gave.
    pub fn clear_cache(&mut self)
        ensures
            final(self)@ == (MatcherView { cache: Map::empty(), ..old(self)@ }),
    {
        broadcast use vstd::std_specs::hash::group_hash_axioms;

        self.pattern_cache.clear();
        assert(self@.cache =~= Map::<int, Seq<PatternMatchResult>>::empty());
    }
}

/// The sum of the values of reports.
fn sum_values(results: &Vec<PatternMatchResult>) -> (total: i128)
    ensures
        total == total_value(results@),
        -(results@.len() * 0x8000_0000) <= total <= results@.len() * 0x8000_0000,
{
    let mut total: i128 = 0;
    let mut i: usize = 0;
    while i < results.len()
        invariant
            i <= results@.len(),
            total == total_value(results@.take(i as int)),
            -(i * 0x8000_0000) <= total <= i * 0x8000_0000,
        decreases results@.len() - i,
    {
        proof {
            let next = results@.take(i as int + 1);
            assert(next.drop_last() =~= results@.take(i as int));
            assert(next.last() == results@[i as int]);
        }
        total = total + results[i].value as i128;
        i += 1;
    }
    proof {
        assert(results@.take(results@.len() as int) =~= results@);
    }
    total
}

} // verus!
