//! The board: a square grid of stones with capture counters and a ko point.

use vstd::prelude::*;
use vstd::seq_lib::lemma_no_dup_in_concat;
use vstd::set_lib::lemma_set_disjoint_lens;
use crate::engine::chains::{lemma_distinct_points_bound, lemma_points_bound, lemma_single_member};
use crate::engine::rules::{GameRules, KoRule};
use crate::engine::state::{adjacent, borders, neighbor_spec, BoardState, Point};

verus! {

/// Largest side length a board may have.
pub const MAX_BOARD_SIZE: usize = 25;

/// The content of one point of the board.
#[derive(Debug, Clone, Copy, PartialEq, Eq, Structural)]
pub enum Stone {
    Empty,
    Black,
    White,
}

impl Stone {
    /// The colour that plays against `self`; `Empty` has no opponent.
    pub open spec fn opponent_spec(self) -> Stone {
        match self {
            Stone::Black => Stone::White,
            Stone::White => Stone::Black,
            Stone::Empty => Stone::Empty,
        }
    }

    pub open spec fn name_spec(self) -> Seq<char> {
        match self {
            Stone::Black => "Black"@,
            Stone::White => "White"@,
            Stone::Empty => "Empty"@,
        }
    }

    /// The word for this content.
    pub fn name(&self) -> (r: &'static str)
        ensures
            r@ == self.name_spec(),
    {
        match self {
            Stone::Black => "Black",
            Stone::White => "White",
            Stone::Empty => "Empty",
        }
    }

    /// The colour that plays against `self`.
    pub fn opponent(self) -> (r: Stone)
        ensures
            r == self.opponent_spec(),
    {
        match self {
            Stone::Black => Stone::White,
            Stone::White => Stone::Black,
            Stone::Empty => Stone::Empty,
        }
    }
}

/// Why a request was refused.
#[derive(Debug, Clone, Copy, PartialEq, Eq, Structural)]
pub enum ErrorKind {
    /// The coordinate is not on the board.
    OutOfBounds,
    /// The point already holds a stone.
    Occupied,
    /// The point is the ko point.
    KoViolation,
    /// The play would leave its own group without liberties and captures nothing.
    Suicide,
    /// `Stone::Empty` cannot be played.
    EmptyStone,
    /// The game has ended.
    GameAlreadyOver,
}

impl ErrorKind {
    pub open spec fn message_spec(self) -> Seq<char> {
        match self {
            ErrorKind::OutOfBounds => "Position out of bounds"@,
            ErrorKind::Occupied => "Position already occupied"@,
            ErrorKind::KoViolation => "Ko threat violation"@,
            ErrorKind::Suicide => "Suicide move not allowed"@,
            ErrorKind::EmptyStone => "Cannot place empty stone"@,
            ErrorKind::GameAlreadyOver => "Game is already over"@,
        }
    }

    /// A sentence for the user.
    pub fn message(&self) -> (r: &'static str)
        ensures
            r@ == self.message_spec(),
    {
        match self {
            ErrorKind::OutOfBounds => "Position out of bounds",
            ErrorKind::Occupied => "Position already occupied",
            ErrorKind::KoViolation => "Ko threat violation",
            ErrorKind::Suicide => "Suicide move not allowed",
            ErrorKind::EmptyStone => "Cannot place empty stone",
            ErrorKind::GameAlreadyOver => "Game is already over",
        }
    }
}

/// The model point of an executable coordinate.
pub open spec fn point_of(q: (usize, usize)) -> Point {
    (q.0 as int, q.1 as int)
}

/// The set of model points listed in `s`.
pub open spec fn points_of(s: Seq<(usize, usize)>) -> Set<Point> {
    Set::new(|p: Point| exists|i: int| 0 <= i < s.len() && point_of(#[trigger] s[i]) == p)
}

/// `a` comes before `b` when the board is read row by row.
pub open spec fn row_major_before(a: (usize, usize), b: (usize, usize)) -> bool {
    a.1 < b.1 || (a.1 == b.1 && a.0 < b.0)
}

/// The cells of `v` are listed in the order of reading the board row by
/// row, none twice.
pub open spec fn row_major(v: Seq<(usize, usize)>) -> bool {
    forall|i: int, j: int| 0 <= i < j < v.len() ==> row_major_before(v[i], v[j])
}

/// `keep` holds of `c`.
pub open spec fn holds(keep: spec_fn(Point) -> bool, c: Point) -> bool {
    keep(c)
}

/// `v` lists, in the order of reading the board row by row, exactly the
/// points of a board of side `n` that `keep` holds of.
pub open spec fn lists(v: Seq<(usize, usize)>, n: nat, keep: spec_fn(Point) -> bool) -> bool {
    &&& row_major(v)
    &&& forall|i: int|
        0 <= i < v.len() ==> (#[trigger] v[i]).0 < n && v[i].1 < n && holds(keep, point_of(v[i]))
    &&& forall|c: Point|
        0 <= c.0 < n && 0 <= c.1 < n && holds(keep, c) ==> #[trigger] points_of(v).contains(c)
}

/// The points of a board of side `n` that `keep` holds of, in the order of
/// reading the board row by row.
pub open spec fn listing(n: nat, keep: spec_fn(Point) -> bool) -> Seq<(usize, usize)> {
    choose|v: Seq<(usize, usize)>| lists(v, n, keep)
}

/// Two lists of the same points in reading order are the same list.
pub proof fn lemma_lists_unique(
    a: Seq<(usize, usize)>,
    b: Seq<(usize, usize)>,
    n: nat,
    keep: spec_fn(Point) -> bool,
    other: spec_fn(Point) -> bool,
)
    requires
        lists(a, n, keep),
        lists(b, n, other),
        forall|c: Point|
            0 <= c.0 < n && 0 <= c.1 < n ==> #[trigger] holds(keep, c) == holds(other, c),
    ensures
        a == b,
    decreases a.len(),
{
    if a.len() == 0 {
        if b.len() > 0 {
            assert(points_of(a).contains(point_of(b[0])));
        }
        assert(a =~= b);
    } else if b.len() == 0 {
        assert(points_of(b).contains(point_of(a[0])));
    } else {
        assert(points_of(b).contains(point_of(a[0])));
        let j = choose|j: int| 0 <= j < b.len() && point_of(#[trigger] b[j]) == point_of(a[0]);
        assert(points_of(a).contains(point_of(b[0])));
        let i = choose|i: int| 0 <= i < a.len() && point_of(#[trigger] a[i]) == point_of(b[0]);
        if j > 0 {
            assert(row_major_before(b[0], b[j]));
            if i > 0 {
                assert(row_major_before(a[0], a[i]));
            }
        }
        assert(a[0] == b[0]);
        let ta = a.drop_first();
        let tb = b.drop_first();
        assert forall|c: Point| 0 <= c.0 < n && 0 <= c.1 < n && holds(keep, c) && c != point_of(
            a[0],
        ) implies #[trigger] points_of(ta).contains(c) by {
            assert(points_of(a).contains(c));
            let k = choose|k: int| 0 <= k < a.len() && point_of(#[trigger] a[k]) == c;
            assert(k > 0);
            assert(ta[k - 1] == a[k]);
            assert(point_of(ta[k - 1]) == c);
        }
        assert forall|c: Point| 0 <= c.0 < n && 0 <= c.1 < n && holds(other, c) && c != point_of(
            b[0],
        ) implies #[trigger] points_of(tb).contains(c) by {
            assert(points_of(b).contains(c));
            let k = choose|k: int| 0 <= k < b.len() && point_of(#[trigger] b[k]) == c;
            assert(k > 0);
            assert(tb[k - 1] == b[k]);
            assert(point_of(tb[k - 1]) == c);
        }
        let first = point_of(a[0]);
        let keep_rest = |c: Point| keep(c) && c != first;
        let other_rest = |c: Point| other(c) && c != first;
        assert forall|k: int| 0 <= k < ta.len() implies (#[trigger] ta[k]).0 < n && ta[k].1 < n
            && holds(keep_rest, point_of(ta[k])) by {
            assert(ta[k] == a[k + 1]);
            assert(row_major_before(a[0], a[k + 1]));
        }
        assert forall|k: int| 0 <= k < tb.len() implies (#[trigger] tb[k]).0 < n && tb[k].1 < n
            && holds(other_rest, point_of(tb[k])) by {
            assert(tb[k] == b[k + 1]);
            assert(row_major_before(b[0], b[k + 1]));
        }
        assert(row_major(ta)) by {
            assert forall|x: int, y: int| 0 <= x < y < ta.len() implies row_major_before(
                ta[x],
                ta[y],
            ) by {
                assert(row_major_before(a[x + 1], a[y + 1]));
            }
        }
        assert(row_major(tb)) by {
            assert forall|x: int, y: int| 0 <= x < y < tb.len() implies row_major_before(
                tb[x],
                tb[y],
            ) by {
                assert(row_major_before(b[x + 1], b[y + 1]));
            }
        }
        assert forall|c: Point| 0 <= c.0 < n && 0 <= c.1 < n implies #[trigger] holds(
            keep_rest,
            c,
        ) == holds(other_rest, c) by {
            assert(holds(keep, c) == holds(other, c));
        }
        lemma_lists_unique(ta, tb, n, keep_rest, other_rest);
        assert(a =~= seq![a[0]] + ta);
        assert(b =~= seq![b[0]] + tb);
    }
}

/// A list of the points that `keep` holds of is the listing.
pub proof fn lemma_is_listing(v: Seq<(usize, usize)>, n: nat, keep: spec_fn(Point) -> bool)
    requires
        lists(v, n, keep),
    ensures
        v == listing(n, keep),
{
    lemma_lists_unique(v, listing(n, keep), n, keep, keep);
}

/// The liberties of the group of the stone on `p`, in the order of reading
/// the board row by row.
pub open spec fn liberty_list(b: BoardState, p: Point) -> Seq<(usize, usize)> {
    listing(b.size, |c: Point| b.is_liberty_of(p, c))
}

/// The points holding `what`, in the order of reading the board row by
/// row.
pub open spec fn stone_list(b: BoardState, what: Stone) -> Seq<(usize, usize)> {
    listing(b.size, |c: Point| b.stone_at(c) == what)
}

/// A group of connected stones, as found on a board at one moment.
pub struct StoneGroup {
    /// The colour of the stones.
    pub color: Stone,
    /// The points of the group, each listed once.
    pub positions: Vec<(usize, usize)>,
    /// The number of distinct empty points next to the group.
    pub liberties: usize,
}

impl StoneGroup {
    /// The group is the group of `p` on the position `b`.
    pub open spec fn describes(&self, b: BoardState, p: Point) -> bool {
        &&& self.color == b.stone_at(p)
        &&& self.positions@.no_duplicates()
        &&& points_of(self.positions@) == b.group_at(p)
        &&& self.liberties == b.liberties(b.group_at(p)).len()
    }
}

/// A Go board.
#[derive(Debug)]
pub struct Board {
    grid: Vec<Vec<Stone>>,
    size: usize,
    captured: [usize; 2],
    ko_point: Option<(usize, usize)>,
}

impl View for Board {
    type V = BoardState;

    closed spec fn view(&self) -> BoardState {
        BoardState {
            size: self.size as nat,
            rows: Seq::new(self.grid@.len(), |y: int| self.grid@[y]@),
            captured_black: self.captured[0] as nat,
            captured_white: self.captured[1] as nat,
            ko_point: match self.ko_point {
                Some(k) => Some(point_of(k)),
                None => None,
            },
        }
    }
}

/// A grid of `size` rows of `size` copies of `fill`.
fn filled_grid<T: Copy>(size: usize, fill: T) -> (g: Vec<Vec<T>>)
    ensures
        g@.len() == size,
        forall|y: int| 0 <= y < size ==> (#[trigger] g@[y])@ == Seq::new(size as nat, |x: int| fill),
{
    let mut g: Vec<Vec<T>> = Vec::new();
    let mut y: usize = 0;
    while y < size
        invariant
            y <= size,
            g@.len() == y,
            forall|j: int| 0 <= j < y ==> (#[trigger] g@[j])@ == Seq::new(size as nat, |x: int| fill),
        decreases size - y,
    {
        let mut row: Vec<T> = Vec::new();
        let mut x: usize = 0;
        while x < size
            invariant
                x <= size,
                row@ == Seq::new(x as nat, |i: int| fill),
            decreases size - x,
        {
            row.push(fill);
            x += 1;
            assert(row@ =~= Seq::new(x as nat, |i: int| fill));
        }
        g.push(row);
        y += 1;
    }
    g
}

/// A copy of a grid.
fn copied_grid(grid: &Vec<Vec<Stone>>) -> (g: Vec<Vec<Stone>>)
    ensures
        g@.len() == grid@.len(),
        forall|y: int| 0 <= y < grid@.len() ==> (#[trigger] g@[y])@ == grid@[y]@,
{
    let mut g: Vec<Vec<Stone>> = Vec::new();
    let mut y: usize = 0;
    while y < grid.len()
        invariant
            y <= grid@.len(),
            g@.len() == y,
            forall|j: int| 0 <= j < y ==> (#[trigger] g@[j])@ == grid@[j]@,
        decreases grid@.len() - y,
    {
        let mut row: Vec<Stone> = Vec::new();
        let mut x: usize = 0;
        while x < grid[y].len()
            invariant
                y < grid@.len(),
                x <= grid@[y as int]@.len(),
                row@ == grid@[y as int]@.take(x as int),
            decreases grid@[y as int]@.len() - x,
        {
            row.push(grid[y][x]);
            x += 1;
            assert(row@ =~= grid@[y as int]@.take(x as int));
        }
        assert(row@ =~= grid@[y as int]@);
        g.push(row);
        y += 1;
    }
    g
}

/// Writes one cell of a grid.
fn grid_set<T>(grid: &mut Vec<Vec<T>>, x: usize, y: usize, value: T)
    requires
        y < old(grid)@.len(),
        x < old(grid)@[y as int]@.len(),
    ensures
        final(grid)@.len() == old(grid)@.len(),
        final(grid)@[y as int]@ == old(grid)@[y as int]@.update(x as int, value),
        forall|k: int| 0 <= k < old(grid)@.len() && k != y ==> final(grid)@[k] == old(grid)@[k],
    no_unwind
{
    grid[y][x] = value;
}

/// The neighbour of `(x, y)` in direction `d`, if it lies on a board of side
/// `size`.
pub fn neighbor(size: usize, x: usize, y: usize, d: usize) -> (r: Option<(usize, usize)>)
    requires
        x < size,
        y < size,
        d < 4,
    ensures
        match r {
            Some(q) => q.0 < size && q.1 < size && point_of(q) == neighbor_spec(
                (x as int, y as int),
                d as int,
            ),
            None => {
                let n = neighbor_spec((x as int, y as int), d as int);
                !(0 <= n.0 < size && 0 <= n.1 < size)
            },
        },
{
    if d == 0 {
        if y > 0 {
            Some((x, y - 1))
        } else {
            None
        }
    } else if d == 1 {
        if y + 1 < size {
            Some((x, y + 1))
        } else {
            None
        }
    } else if d == 2 {
        if x > 0 {
            Some((x - 1, y))
        } else {
            None
        }
    } else {
        if x + 1 < size {
            Some((x + 1, y))
        } else {
            None
        }
    }
}

/// Distinct cells of a board of side `n` number at most `n * n`.
proof fn lemma_distinct_cells_bound(s: Seq<(usize, usize)>, n: nat)
    requires
        s.no_duplicates(),
        forall|i: int| 0 <= i < s.len() ==> (#[trigger] s[i]).0 < n && s[i].1 < n,
    ensures
        s.len() <= n * n,
{
    let ps = Seq::new(s.len(), |i: int| point_of(s[i]));
    assert forall|i: int, j: int| 0 <= i < ps.len() && 0 <= j < ps.len() && i != j implies ps[i]
        != ps[j] by {
        assert(s[i] != s[j]);
    }
    lemma_distinct_points_bound(ps, n);
}

/// The mark of a point in a grid of flags.
spec fn marked(flags: Seq<Vec<bool>>, p: Point) -> bool {
    flags[p.1]@[p.0]
}

/// A grid of flags has side `n`.
spec fn square(flags: Seq<Vec<bool>>, n: nat) -> bool {
    &&& flags.len() == n
    &&& forall|y: int| 0 <= y < n ==> (#[trigger] flags[y])@.len() == n
}

/// The neighbour `d` of a flooded point has been looked at: if it belongs
/// to the group of `seed`, it is marked.
spec fn reached(b: BoardState, seed: Point, flags: Seq<Vec<bool>>, d: Point) -> bool {
    b.on_board(d) && b.stone_at(d) == b.stone_at(seed) ==> marked(flags, d)
}

/// All four neighbours of `c` have been looked at.
spec fn expanded(b: BoardState, seed: Point, flags: Seq<Vec<bool>>, c: Point) -> bool {
    forall|k: int| 0 <= k < 4 ==> reached(b, seed, flags, #[trigger] neighbor_spec(c, k))
}

/// The state of a flood fill from `seed`: `done` and `todo` together list
/// each marked point once, and every listed point is connected to `seed`.
spec fn flooding(
    b: BoardState,
    seed: Point,
    flags: Seq<Vec<bool>>,
    done: Seq<(usize, usize)>,
    todo: Seq<(usize, usize)>,
) -> bool {
    &&& square(flags, b.size)
    &&& done.no_duplicates()
    &&& todo.no_duplicates()
    &&& forall|i: int, j: int| 0 <= i < done.len() && 0 <= j < todo.len() ==> done[i] != todo[j]
    &&& forall|i: int|
        0 <= i < done.len() ==> b.on_board(point_of(#[trigger] done[i])) && marked(
            flags,
            point_of(done[i]),
        ) && b.connected(seed, point_of(done[i]))
    &&& forall|i: int|
        0 <= i < todo.len() ==> b.on_board(point_of(#[trigger] todo[i])) && marked(
            flags,
            point_of(todo[i]),
        ) && b.connected(seed, point_of(todo[i]))
    &&& forall|p: Point|
        b.on_board(p) && #[trigger] marked(flags, p) ==> points_of(done).contains(p) || points_of(
            todo,
        ).contains(p)
    &&& marked(flags, seed)
}

/// While flooding, `done` and `todo` together hold at most a board of cells.
proof fn lemma_flooding_bound(
    b: BoardState,
    seed: Point,
    flags: Seq<Vec<bool>>,
    done: Seq<(usize, usize)>,
    todo: Seq<(usize, usize)>,
)
    requires
        flooding(b, seed, flags, done, todo),
    ensures
        done.len() + todo.len() <= b.size * b.size,
{
    lemma_no_dup_in_concat(done, todo);
    let all = done + todo;
    assert forall|i: int| 0 <= i < all.len() implies (#[trigger] all[i]).0 < b.size && all[i].1
        < b.size by {
        if i < done.len() {
            assert(all[i] == done[i]);
        } else {
            assert(all[i] == todo[i - done.len()]);
        }
    }
    lemma_distinct_cells_bound(all, b.size);
}

/// `c` is an empty point next to one of the cells of `s` that come before
/// direction `d` of cell `i`.
spec fn counted(b: BoardState, s: Seq<(usize, usize)>, i: int, d: int, c: Point) -> bool {
    &&& b.on_board(c)
    &&& b.stone_at(c) == Stone::Empty
    &&& exists|j: int, k: int| #[trigger] turn_before(s, i, d, j, k) && c == neighbor_spec(point_of(s[j]), k)
}

/// Direction `k` of cell `j` comes before direction `d` of cell `i`.
spec fn turn_before(s: Seq<(usize, usize)>, i: int, d: int, j: int, k: int) -> bool {
    0 <= j < s.len() && 0 <= k < 4 && (j < i || (j == i && k < d))
}

/// Once every direction of every cell has had its turn, the counted points
/// are the liberties.
proof fn lemma_counted_all(b: BoardState, s: Seq<(usize, usize)>, c: Point)
    ensures
        counted(b, s, s.len() as int, 0, c) <==> b.is_liberty(points_of(s), c),
{
    let g = points_of(s);
    if counted(b, s, s.len() as int, 0, c) {
        let (j, k) = choose|j: int, k: int| #[trigger]
            turn_before(s, s.len() as int, 0, j, k) && c == neighbor_spec(point_of(s[j]), k);
        assert(g.contains(point_of(s[j])));
        assert(borders(g, c));
    }
    if b.is_liberty(g, c) {
        if g.contains((c.0, c.1 - 1)) {
            let j = choose|j: int| 0 <= j < s.len() && point_of(#[trigger] s[j]) == (c.0, c.1 - 1);
            assert(turn_before(s, s.len() as int, 0, j, 1));
        } else if g.contains((c.0, c.1 + 1)) {
            let j = choose|j: int| 0 <= j < s.len() && point_of(#[trigger] s[j]) == (c.0, c.1 + 1);
            assert(turn_before(s, s.len() as int, 0, j, 0));
        } else if g.contains((c.0 - 1, c.1)) {
            let j = choose|j: int| 0 <= j < s.len() && point_of(#[trigger] s[j]) == (c.0 - 1, c.1);
            assert(turn_before(s, s.len() as int, 0, j, 3));
        } else {
            let j = choose|j: int| 0 <= j < s.len() && point_of(#[trigger] s[j]) == (c.0 + 1, c.1);
            assert(turn_before(s, s.len() as int, 0, j, 2));
        }
    }
}

/// Cells listed once each are as many as the points they stand for.
proof fn lemma_points_of_len(s: Seq<(usize, usize)>)
    requires
        s.no_duplicates(),
    ensures
        points_of(s).finite(),
        points_of(s).len() == s.len(),
{
    let ps = Seq::new(s.len(), |i: int| point_of(s[i]));
    assert forall|i: int, j: int| 0 <= i < ps.len() && 0 <= j < ps.len() && i != j implies ps[i]
        != ps[j] by {
        assert(s[i] != s[j]);
    }
    ps.unique_seq_to_set();
    assert forall|p: Point| ps.to_set().contains(p) <==> points_of(s).contains(p) by {
        if ps.to_set().contains(p) {
            let i = choose|i: int| 0 <= i < ps.len() && ps[i] == p;
            assert(point_of(s[i]) == p);
        }
        if points_of(s).contains(p) {
            let i = choose|i: int| 0 <= i < s.len() && point_of(#[trigger] s[i]) == p;
            assert(ps[i] == p);
        }
    }
    assert(ps.to_set() =~= points_of(s));
    vstd::seq_lib::seq_to_set_is_finite(ps);
}

/// A square board of side at most 25 has at most 625 points.
proof fn lemma_area(n: nat)
    requires
        n <= MAX_BOARD_SIZE,
    ensures
        n * n <= 625,
{
    assert(n * n <= 625) by (nonlinear_arith)
        requires
            n <= 25,
    ;
}

impl Board {
    /// Every board is square and of a valid size.
    #[verifier::type_invariant]
    pub closed spec fn inv(&self) -> bool {
        &&& 1 <= self.size <= MAX_BOARD_SIZE
        &&& self.grid@.len() == self.size
        &&& forall|y: int| 0 <= y < self.size ==> (#[trigger] self.grid@[y])@.len() == self.size
    }

    /// The model of a board is well formed.
    pub proof fn lemma_inv_wf(&self)
        requires
            self.inv(),
        ensures
            self@.wf(),
    {
    }

    /// An empty board with `size` points on a side.
    pub fn new(size: usize) -> (b: Board)
        requires
            1 <= size <= MAX_BOARD_SIZE,
        ensures
            b@ == BoardState::empty(size as nat),
            b@.wf(),
            b@.capture_room(),
    {
        proof {
            lemma_area(size as nat);
        }
        let b = Board {
            grid: filled_grid(size, Stone::Empty),
            size,
            captured: [0, 0],
            ko_point: None,
        };
        assert(b@.rows =~= BoardState::empty(size as nat).rows);
        b
    }

    /// The side length.
    pub fn size(&self) -> (n: usize)
        ensures
            n == self@.size,
            1 <= n <= MAX_BOARD_SIZE,
            self@.wf(),
    {
        proof {
            use_type_invariant(self);
            self.lemma_inv_wf();
        }
        self.size
    }

    /// The content of the point `(x, y)`; a point off the board is empty.
    pub fn get_stone(&self, x: usize, y: usize) -> (s: Stone)
        ensures
            s == self@.stone_at((x as int, y as int)),
    {
        proof {
            use_type_invariant(self);
        }
        if x < self.size && y < self.size {
            self.grid[y][x]
        } else {
            Stone::Empty
        }
    }

    /// The prisoners taken so far, Black's first and White's second.
    pub fn get_captured(&self) -> (c: [usize; 2])
        ensures
            c[0] == self@.captured_black,
            c[1] == self@.captured_white,
    {
        self.captured
    }

    /// The point that may not be played next, if any.
    pub fn get_ko_point(&self) -> (k: Option<(usize, usize)>)
        ensures
            k is None <==> self@.ko_point is None,
            k matches Some(q) ==> self@.ko_point == Some(point_of(q)),
    {
        self.ko_point
    }

    /// Forbids the next play on `(x, y)`.
    pub fn set_ko_point(&mut self, x: usize, y: usize)
        ensures
            final(self)@ == old(self)@.with_ko(Some((x as int, y as int))),
    {
        proof {
            use_type_invariant(&*self);
        }
        self.ko_point = Some((x, y));
    }

    /// Lifts the ko restriction.
    pub fn clear_ko_point(&mut self)
        ensures
            final(self)@ == old(self)@.with_ko(None),
    {
        proof {
            use_type_invariant(&*self);
        }
        self.ko_point = None;
    }

    /// Writes the content of `(x, y)` without judging the play; a point off
    /// the board is left alone.
    pub fn set_stone(&mut self, x: usize, y: usize, stone: Stone)
        ensures
            final(self)@ == if old(self)@.on_board((x as int, y as int)) {
                old(self)@.with_stone((x as int, y as int), stone)
            } else {
                old(self)@
            },
    {
        proof {
            use_type_invariant(&*self);
        }
        if x < self.size && y < self.size {
            grid_set(&mut self.grid, x, y, stone);
            assert(self@.rows =~= old(self)@.with_stone((x as int, y as int), stone).rows);
        }
    }
}

impl Board {
    /// The group of the stone on `(x, y)` with its liberty count; nothing
    /// for an empty point or one off the board.
    pub fn find_group(&self, x: usize, y: usize) -> (r: Option<StoneGroup>)
        ensures
            r is None <==> self@.stone_at((x as int, y as int)) == Stone::Empty,
            r matches Some(g) ==> g.describes(self@, (x as int, y as int)),
    {
        proof {
            use_type_invariant(self);
        }
        if x >= self.size || y >= self.size || self.grid[y][x] == Stone::Empty {
            return None;
        }
        let size = self.size;
        let color = self.grid[y][x];
        let ghost b = self@;
        let ghost seed: Point = (x as int, y as int);
        let ghost total: nat = b.size * b.size;
        let mut visited: Vec<Vec<bool>> = filled_grid(size, false);
        let mut positions: Vec<(usize, usize)> = Vec::new();
        let mut queue: Vec<(usize, usize)> = Vec::new();
        queue.push((x, y));
        grid_set(&mut visited, x, y, true);
        proof {
            b.lemma_connected_refl(seed);
            assert forall|p: Point| b.on_board(p) && #[trigger] marked(visited@, p) implies points_of(
                positions@,
            ).contains(p) || points_of(queue@).contains(p) by {
                assert(p == seed);
                assert(point_of(queue@[0]) == p);
            }
        }
        while queue.len() > 0
            invariant
                self.inv(),
                b == self@,
                size == self.size,
                seed == (x as int, y as int),
                color == b.stone_at(seed),
                flooding(b, seed, visited@, positions@, queue@),
                forall|i: int|
                    0 <= i < positions@.len() ==> expanded(
                        b,
                        seed,
                        visited@,
                        point_of(#[trigger] positions@[i]),
                    ),
                total == b.size * b.size,
            decreases 2 * total - 2 * positions@.len() - queue@.len(),
        {
            proof {
                lemma_flooding_bound(b, seed, visited@, positions@, queue@);
            }
            let ghost before_done = positions@;
            let ghost before_todo = queue@;

            let c = queue.pop().unwrap();
            positions.push(c);
            let ghost cp = point_of(c);
            proof {
                assert(c == before_todo[before_todo.len() - 1]);
                assert forall|p: Point| b.on_board(p) && #[trigger] marked(visited@, p) implies points_of(
                    positions@,
                ).contains(p) || points_of(queue@).contains(p) by {
                    if points_of(before_done).contains(p) {
                        let i = choose|i: int|
                            0 <= i < before_done.len() && point_of(#[trigger] before_done[i]) == p;
                        assert(point_of(positions@[i]) == p);
                    } else {
                        let i = choose|i: int|
                            0 <= i < before_todo.len() && point_of(#[trigger] before_todo[i]) == p;
                        if i == before_todo.len() - 1 {
                            assert(point_of(positions@[positions@.len() - 1]) == p);
                        } else {
                            assert(point_of(queue@[i]) == p);
                        }
                    }
                }
                assert(flooding(b, seed, visited@, positions@, queue@));
            }
            let mut d: usize = 0;
            while d < 4
                invariant
                    self.inv(),
                    b == self@,
                    size == self.size,
                    seed == (x as int, y as int),
                    color == b.stone_at(seed),
                    d <= 4,
                    positions@.len() > 0,
                    c == positions@[positions@.len() - 1],
                    cp == point_of(c),
                    flooding(b, seed, visited@, positions@, queue@),
                    forall|i: int|
                        0 <= i < positions@.len() - 1 ==> expanded(
                            b,
                            seed,
                            visited@,
                            point_of(#[trigger] positions@[i]),
                        ),
                    forall|k: int| 0 <= k < d ==> reached(b, seed, visited@, #[trigger] neighbor_spec(cp, k)),
                    2 * positions@.len() + queue@.len() > 2 * before_done.len()
                        + before_todo.len(),
                decreases 4 - d,
            {
                let ghost old_flags = visited@;
                let ghost old_todo = queue@;
                let n = neighbor(size, c.0, c.1, d);
                match n {
                    Some(q) => {
                        if !visited[q.1][q.0] && self.grid[q.1][q.0] == color {
                            grid_set(&mut visited, q.0, q.1, true);
                            queue.push(q);
                            proof {
                                let np = point_of(q);
                                assert(adjacent(cp, np));
                                b.lemma_connected_step(seed, cp, np);
                                assert forall|i: int| 0 <= i < positions@.len() implies positions@[i]
                                    != q by {
                                    assert(marked(old_flags, point_of(positions@[i])));
                                }
                                assert forall|i: int| 0 <= i < old_todo.len() implies old_todo[i]
                                    != q by {
                                    assert(marked(old_flags, point_of(old_todo[i])));
                                }
                                assert forall|p: Point|
                                    b.on_board(p) && #[trigger] marked(
                                        visited@,
                                        p,
                                    ) implies points_of(positions@).contains(p) || points_of(
                                    queue@,
                                ).contains(p) by {
                                    if p == np {
                                        assert(point_of(queue@[queue@.len() - 1]) == p);
                                    } else {
                                        assert(marked(old_flags, p));
                                        if !points_of(positions@).contains(p) {
                                            let i = choose|i: int|
                                                0 <= i < old_todo.len() && point_of(
                                                    #[trigger] old_todo[i],
                                                ) == p;
                                            assert(point_of(queue@[i]) == p);
                                        }
                                    }
                                }
                                assert forall|i: int| 0 <= i < queue@.len() implies b.on_board(
                                    point_of(#[trigger] queue@[i]),
                                ) && marked(visited@, point_of(queue@[i])) && b.connected(
                                    seed,
                                    point_of(queue@[i]),
                                ) by {
                                    if i < old_todo.len() {
                                        assert(queue@[i] == old_todo[i]);
                                        assert(marked(old_flags, point_of(old_todo[i])));
                                    }
                                }
                                assert forall|i: int| 0 <= i < positions@.len() implies marked(
                                    visited@,
                                    point_of(#[trigger] positions@[i]),
                                ) by {
                                    assert(marked(old_flags, point_of(positions@[i])));
                                }
                                assert(flooding(b, seed, visited@, positions@, queue@));
                                lemma_flooding_bound(b, seed, visited@, positions@, queue@);
                            }
                        }
                    },
                    None => {},
                }
                proof {
                    assert forall|p: Point| marked(old_flags, p) && b.on_board(p) implies marked(
                        visited@,
                        p,
                    ) by {}
                    assert forall|i: int| 0 <= i < positions@.len() - 1 implies expanded(
                        b,
                        seed,
                        visited@,
                        point_of(#[trigger] positions@[i]),
                    ) by {
                        let e = point_of(positions@[i]);
                        assert(expanded(b, seed, old_flags, e));
                        assert forall|k: int| 0 <= k < 4 implies reached(
                            b,
                            seed,
                            visited@,
                            #[trigger] neighbor_spec(e, k),
                        ) by {
                            assert(reached(b, seed, old_flags, neighbor_spec(e, k)));
                        }
                    }
                    assert forall|k: int| 0 <= k < d + 1 implies reached(
                        b,
                        seed,
                        visited@,
                        #[trigger] neighbor_spec(cp, k),
                    ) by {
                        if k < d {
                            assert(reached(b, seed, old_flags, neighbor_spec(cp, k)));
                        }
                    }
                }
                d += 1;
            }
            proof {
                assert(expanded(b, seed, visited@, cp));
                lemma_flooding_bound(b, seed, visited@, positions@, queue@);
            }
        }
        let liberties = self.count_liberties_for_positions(positions.as_slice());
        proof {
            let s = points_of(positions@);
            assert forall|c: Point, d: Point|
                s.contains(c) && adjacent(c, d) && b.on_board(d) && b.stone_at(d) == b.stone_at(
                    seed,
                ) implies #[trigger] s.contains(d) || !#[trigger] adjacent(c, d) by {
                let i = choose|i: int|
                    0 <= i < positions@.len() && point_of(#[trigger] positions@[i]) == c;
                assert(expanded(b, seed, visited@, point_of(positions@[i])));
                assert(d == neighbor_spec(c, 0) || d == neighbor_spec(c, 1) || d == neighbor_spec(c, 2)
                    || d == neighbor_spec(c, 3));
                assert(reached(b, seed, visited@, d));
                assert(marked(visited@, d));
            }
            assert(s.contains(seed));
            b.lemma_group_in_closed(seed, s);
            assert forall|q: Point| s.contains(q) implies b.group_at(seed).contains(q) by {
                let i = choose|i: int|
                    0 <= i < positions@.len() && point_of(#[trigger] positions@[i]) == q;
            }
            assert(s =~= b.group_at(seed));
        }
        Some(StoneGroup { color, positions, liberties })
    }

    /// The number of distinct empty points next to any of the given cells.
    fn count_liberties_for_positions(&self, positions: &[(usize, usize)]) -> (n: usize)
        requires
            forall|i: int|
                0 <= i < positions@.len() ==> self@.on_board(point_of(#[trigger] positions@[i])),
        ensures
            n == self@.liberties(points_of(positions@)).len(),
    {
        proof {
            use_type_invariant(self);
        }
        let size = self.size;
        let ghost b = self@;
        let ghost s = positions@;
        let mut liberties: usize = 0;
        let mut checked: Vec<Vec<bool>> = filled_grid(size, false);
        let ghost mut libs: Set<Point> = Set::empty();
        let mut i: usize = 0;
        while i < positions.len()
            invariant
                self.inv(),
                b == self@,
                s == positions@,
                size == self.size,
                i <= s.len(),
                forall|j: int| 0 <= j < s.len() ==> b.on_board(point_of(#[trigger] s[j])),
                square(checked@, b.size),
                libs.finite(),
                liberties == libs.len(),
                forall|c: Point| b.on_board(c) ==> (marked(checked@, c) <==> #[trigger] libs.contains(c)),
                forall|c: Point| #[trigger] libs.contains(c) <==> counted(b, s, i as int, 0, c),
            decreases s.len() - i,
        {
            let p = positions[i];
            let mut d: usize = 0;
            while d < 4
                invariant
                    self.inv(),
                    b == self@,
                    s == positions@,
                    size == self.size,
                    i < s.len(),
                    p == s[i as int],
                    d <= 4,
                    forall|j: int| 0 <= j < s.len() ==> b.on_board(point_of(#[trigger] s[j])),
                    square(checked@, b.size),
                    libs.finite(),
                    liberties == libs.len(),
                    forall|c: Point|
                        b.on_board(c) ==> (marked(checked@, c) <==> #[trigger] libs.contains(c)),
                    forall|c: Point| #[trigger] libs.contains(c) <==> counted(b, s, i as int, d as int, c),
                decreases 4 - d,
            {
                let ghost old_libs = libs;
                let ghost np = neighbor_spec(point_of(p), d as int);
                assert(b.on_board(point_of(s[i as int])));
                match neighbor(size, p.0, p.1, d) {
                    Some(q) => {
                        if !checked[q.1][q.0] && self.grid[q.1][q.0] == Stone::Empty {
                            proof {
                                lemma_points_bound(libs, b.size);
                                assert(b.size * b.size <= 625) by (nonlinear_arith)
                                    requires
                                        b.size <= 25,
                                ;
                                libs = libs.insert(np);
                            }
                            liberties += 1;
                            grid_set(&mut checked, q.0, q.1, true);
                        }
                    },
                    None => {},
                }
                proof {
                    assert forall|c: Point| #[trigger] libs.contains(c) <==> counted(
                        b,
                        s,
                        i as int,
                        d as int + 1,
                        c,
                    ) by {
                        if counted(b, s, i as int, d as int + 1, c) {
                            let (j, k) = choose|j: int, k: int| #[trigger]
                                turn_before(s, i as int, d as int + 1, j, k) && c == neighbor_spec(
                                    point_of(s[j]),
                                    k,
                                );
                            if j == i && k == d {
                                assert(c == np);
                            } else {
                                assert(turn_before(s, i as int, d as int, j, k));
                                assert(counted(b, s, i as int, d as int, c));
                            }
                        }
                        if libs.contains(c) {
                            if old_libs.contains(c) {
                                let (j, k) = choose|j: int, k: int| #[trigger]
                                    turn_before(s, i as int, d as int, j, k) && c == neighbor_spec(
                                        point_of(s[j]),
                                        k,
                                    );
                                assert(turn_before(s, i as int, d as int + 1, j, k));
                            } else {
                                assert(c == np);
                                assert(turn_before(s, i as int, d as int + 1, i as int, d as int));
                            }
                        }
                    }
                }
                d += 1;
            }
            proof {
                assert forall|c: Point| #[trigger] libs.contains(c) <==> counted(
                    b,
                    s,
                    i as int + 1,
                    0,
                    c,
                ) by {
                    if counted(b, s, i as int + 1, 0, c) {
                        let (j, k) = choose|j: int, k: int| #[trigger]
                            turn_before(s, i as int + 1, 0, j, k) && c == neighbor_spec(
                                point_of(s[j]),
                                k,
                            );
                        assert(turn_before(s, i as int, 4, j, k));
                    }
                    if counted(b, s, i as int, 4, c) {
                        let (j, k) = choose|j: int, k: int| #[trigger]
                            turn_before(s, i as int, 4, j, k) && c == neighbor_spec(
                                point_of(s[j]),
                                k,
                            );
                        assert(turn_before(s, i as int + 1, 0, j, k));
                    }
                }
            }
            i += 1;
        }
        proof {
            assert forall|c: Point| libs.contains(c) <==> b.liberties(points_of(s)).contains(c) by {
                lemma_counted_all(b, s, c);
            }
            assert(libs =~= b.liberties(points_of(s)));
        }
        liberties
    }
}

impl Board {
    /// Takes the stones of `group` off the board and credits them to the
    /// colour that plays against them.
    fn capture_group(&mut self, group: &StoneGroup)
        requires
            forall|i: int|
                0 <= i < group.positions@.len() ==> old(self)@.on_board(
                    point_of(#[trigger] group.positions@[i]),
                ),
            old(self)@.captured(group.color.opponent_spec()) + group.positions@.len()
                <= usize::MAX,
        ensures
            final(self)@ == old(self)@.without(points_of(group.positions@)).credit(
                group.color.opponent_spec(),
                group.positions@.len(),
            ),
    {
        proof {
            use_type_invariant(&*self);
        }
        let ghost b = self@;
        let count = group.positions.len();
        let mut i: usize = 0;
        proof {
            let none = b.without(points_of(group.positions@.take(0)));
            assert forall|yy: int| 0 <= yy < b.size implies #[trigger] b.rows[yy] =~= none.rows[yy] by {}
            assert(b.rows =~= none.rows);
        }
        while i < count
            invariant
                self.inv(),
                i <= count,
                count == group.positions@.len(),
                forall|j: int|
                    0 <= j < group.positions@.len() ==> b.on_board(
                        point_of(#[trigger] group.positions@[j]),
                    ),
                b.wf(),
                self@ == b.without(points_of(group.positions@.take(i as int))),
            decreases count - i,
        {
            let q = group.positions[i];
            let ghost before = self@;
            assert(b.on_board(point_of(group.positions@[i as int])));
            grid_set(&mut self.grid, q.0, q.1, Stone::Empty);
            proof {
                let s0 = group.positions@.take(i as int);
                let s1 = group.positions@.take(i as int + 1);
                assert forall|c: Point| points_of(s1).contains(c) <==> (points_of(s0).contains(c) || c
                    == point_of(q)) by {
                    if points_of(s1).contains(c) {
                        let j = choose|j: int| 0 <= j < s1.len() && point_of(#[trigger] s1[j]) == c;
                        if j < i {
                            assert(point_of(s0[j]) == c);
                        }
                    }
                    if points_of(s0).contains(c) {
                        let j = choose|j: int| 0 <= j < s0.len() && point_of(#[trigger] s0[j]) == c;
                        assert(point_of(s1[j]) == c);
                    }
                    if c == point_of(q) {
                        assert(point_of(s1[i as int]) == c);
                    }
                }
                let target = b.without(points_of(s1));
                assert forall|yy: int| 0 <= yy < b.size implies #[trigger] self@.rows[yy]
                    =~= target.rows[yy] by {
                    assert(before.rows[yy] == b.without(points_of(s0)).rows[yy]);
                }
                assert(self@.rows =~= target.rows);
                use_type_invariant(&*self);
            }
            i += 1;
        }
        proof {
            assert(group.positions@.take(count as int) =~= group.positions@);
            use_type_invariant(&*self);
        }
        match group.color {
            Stone::Black => {
                self.captured[1] += count;
            },
            Stone::White => {
                self.captured[0] += count;
            },
            Stone::Empty => {},
        }
    }

    /// Plays `stone` on `(x, y)` under `rules`, as one transaction: either
    /// the play is accepted and the board holds its full effect, or an
    /// error is returned and the board is as it was.
    ///
    /// Stones removed as suicide, where the rules allow it, count as
    /// prisoners of the other colour.
    pub fn place_stone_with(&mut self, x: usize, y: usize, stone: Stone, rules: GameRules) -> (r:
        Result<(), ErrorKind>)
        requires
            old(self)@.capture_room(),
        ensures
            match old(self)@.place((x as int, y as int), stone, rules) {
                Ok(next) => r is Ok && final(self)@ == next,
                Err(e) => r == Err::<(), ErrorKind>(e) && final(self)@ == old(self)@,
            },
    {
        proof {
            use_type_invariant(&*self);
        }
        let size = self.size;
        if x >= size || y >= size {
            return Err(ErrorKind::OutOfBounds);
        }
        if self.grid[y][x] != Stone::Empty {
            return Err(ErrorKind::Occupied);
        }
        if rules.ko_rule != KoRule::Off {
            if let Some(k) = self.ko_point {
                if x == k.0 && y == k.1 {
                    return Err(ErrorKind::KoViolation);
                }
            }
        }
        let opponent = match stone {
            Stone::Black => Stone::White,
            Stone::White => Stone::Black,
            Stone::Empty => {
                return Err(ErrorKind::EmptyStone);
            },
        };
        let ghost b0 = self@;
        let ghost p: Point = (x as int, y as int);
        let ghost placed = b0.with_stone(p, stone);
        grid_set(&mut self.grid, x, y, stone);
        let mut total: usize = 0;
        let mut last: (usize, usize) = (x, y);
        proof {
            assert(self@.rows =~= placed.rows);
            placed.lemma_doomed_none(p, stone);
            assert forall|yy: int| 0 <= yy < b0.size implies #[trigger] placed.without(
                Set::<Point>::empty(),
            ).rows[yy] =~= placed.rows[yy] by {}
            assert(placed.without(Set::<Point>::empty()).rows =~= placed.rows);
            lemma_area(b0.size);
        }
        let mut d: usize = 0;
        while d < 4
            invariant
                self.inv(),
                size == self.size,
                x < size,
                y < size,
                p == (x as int, y as int),
                d <= 4,
                stone != Stone::Empty,
                opponent == stone.opponent_spec(),
                b0.wf(),
                b0.capture_room(),
                b0.size == size,
                b0.stone_at(p) == Stone::Empty,
                placed == b0.with_stone(p, stone),
                placed.wf(),
                self@ == placed.without(placed.doomed_upto(p, stone, d as int)).credit(
                    stone,
                    total as nat,
                ),
                placed.doomed_upto(p, stone, d as int).finite(),
                total == placed.doomed_upto(p, stone, d as int).len(),
                total > 0 ==> placed.doomed_upto(p, stone, d as int).contains(point_of(last)),
            decreases 4 - d,
        {
            let ghost gone = placed.doomed_upto(p, stone, d as int);
            let ghost live = self@;
            let ghost n = neighbor_spec(p, d as int);
            let mut taken = false;
            proof {
                assert(live.rows == placed.without(gone).rows);
            }
            match neighbor(size, x, y, d) {
                Some(q) => {
                    if self.grid[q.1][q.0] == opponent {
                        proof {
                            placed.lemma_live_group(live, p, stone, d as int, n);
                        }
                        match self.find_group(q.0, q.1) {
                            Some(group) => {
                                if group.liberties == 0 {
                                    proof {
                                        placed.lemma_doomed_take(p, stone, d as int);
                                        placed.lemma_group_finite(n);
                                        lemma_points_of_len(group.positions@);
                                        lemma_set_disjoint_lens(gone, placed.group_at(n));
                                        placed.lemma_doomed_finite(p, stone, d as int + 1);
                                        lemma_area(b0.size);
                                        assert forall|i: int|
                                            0 <= i < group.positions@.len() implies live.on_board(
                                            point_of(#[trigger] group.positions@[i]),
                                        ) by {
                                            assert(points_of(group.positions@).contains(
                                                point_of(group.positions@[i]),
                                            ));
                                        }
                                        placed.lemma_connected_refl(n);
                                    }
                                    self.capture_group(&group);
                                    total += group.positions.len();
                                    last = q;
                                    taken = true;
                                    proof {
                                        let next = placed.doomed_upto(p, stone, d as int + 1);
                                        let target = placed.without(next);
                                        assert forall|yy: int| 0 <= yy < b0.size implies #[trigger] self@.rows[yy]
                                            =~= target.rows[yy] by {
                                            assert(live.rows[yy] == placed.without(gone).rows[yy]);
                                        }
                                        assert(self@.rows =~= target.rows);
                                    }
                                }
                            },
                            None => {},
                        }
                    }
                },
                None => {},
            }
            proof {
                if !taken {
                    if live.on_board(n) && live.stone_at(n) == opponent {
                        placed.lemma_live_group(live, p, stone, d as int, n);
                    } else if live.on_board(n) {
                        assert(live.stone_at(n) == (if gone.contains(n) {
                            Stone::Empty
                        } else {
                            placed.stone_at(n)
                        }));
                    }
                    placed.lemma_doomed_skip(p, stone, d as int);
                }
                use_type_invariant(&*self);
            }
            d += 1;
        }
        proof {
            placed.lemma_doomed_all(p, stone);
            use_type_invariant(&*self);
        }
        let ghost dead = placed.doomed(p, stone);
        if total == 0 {
            proof {
                dead.lemma_len0_is_empty();
                assert(self@ == placed.without(dead));
            }
            match self.find_group(x, y) {
                Some(own) => {
                    if own.liberties == 0 {
                        if rules.allow_suicide {
                            proof {
                                let live = self@;
                                assert forall|yy: int| 0 <= yy < b0.size implies #[trigger] live.rows[yy]
                                    =~= placed.rows[yy] by {}
                                assert(live.rows =~= placed.rows);
                                assert(live == placed);
                                placed.lemma_group_finite(p);
                                lemma_points_of_len(own.positions@);
                                lemma_area(b0.size);
                                assert forall|i: int|
                                    0 <= i < own.positions@.len() implies live.on_board(
                                    point_of(#[trigger] own.positions@[i]),
                                ) by {
                                    assert(points_of(own.positions@).contains(
                                        point_of(own.positions@[i]),
                                    ));
                                }
                            }
                            self.capture_group(&own);
                            proof {
                                use_type_invariant(&*self);
                            }
                            self.ko_point = None;
                            return Ok(());
                        } else {
                            let ghost live = self@;
                            grid_set(&mut self.grid, x, y, Stone::Empty);
                            proof {
                                assert forall|yy: int| 0 <= yy < b0.size implies #[trigger] self@.rows[yy]
                                    =~= b0.rows[yy] by {
                                    assert(live.rows[yy] == placed.without(dead).rows[yy]);
                                    assert(live.rows[yy] =~= placed.rows[yy]);
                                    assert(b0.rows[p.1][p.0] == Stone::Empty);
                                }
                                assert(self@.rows =~= b0.rows);
                            }
                            return Err(ErrorKind::Suicide);
                        }
                    }
                },
                None => {},
            }
        }
        proof {
            if total == 1 {
                lemma_single_member(dead, point_of(last));
            }
        }
        self.ko_point = if total == 1 {
            Some(last)
        } else {
            None
        };
        Ok(())
    }

    /// Plays `stone` on `(x, y)` under the standard rules: simple ko, no
    /// suicide.
    pub fn place_stone(&mut self, x: usize, y: usize, stone: Stone) -> (r: Result<(), ErrorKind>)
        requires
            old(self)@.capture_room(),
        ensures
            match old(self)@.place((x as int, y as int), stone, GameRules::standard()) {
                Ok(next) => r is Ok && final(self)@ == next,
                Err(e) => r == Err::<(), ErrorKind>(e) && final(self)@ == old(self)@,
            },
    {
        self.place_stone_with(x, y, stone, GameRules::default())
    }
}

impl Board {
    /// Whether `(x, y)` is a star point; no point off the board is one.
    pub fn is_hoshi_point(&self, x: usize, y: usize) -> (r: bool)
        ensures
            r == self@.is_hoshi((x as int, y as int)),
    {
        proof {
            use_type_invariant(self);
        }
        let size = self.size;
        if x >= size || y >= size || size == 2 || size == 4 {
            return false;
        }
        if size == 3 {
            return x == 1 && y == 1;
        }
        if size == 5 {
            return (x == 1 && (y == 1 || y == 3)) || (x == 2 && y == 2) || (x == 3 && (y == 1 || y
                == 3));
        }
        let hoshi: usize = if size <= 11 {
            2
        } else {
            3
        };
        let middle = size / 2;
        let m = if x >= middle {
            size - 1 - x
        } else {
            x
        };
        let n = if y >= middle {
            size - 1 - y
        } else {
            y
        };
        if m == hoshi && n == hoshi {
            return true;
        }
        if size % 2 == 0 {
            return false;
        }
        if size < 12 {
            return m == middle && n == middle;
        }
        (m == hoshi || m == middle) && (n == hoshi || n == middle)
    }

    /// The number of points holding `color`.
    pub fn stones_on_board(&self, color: Stone) -> (n: usize)
        ensures
            n == self@.stones(color).len(),
            n <= self@.size * self@.size,
    {
        proof {
            use_type_invariant(self);
            lemma_area(self@.size);
        }
        let size = self.size;
        let ghost b = self@;
        let ghost mut seen: Set<Point> = Set::empty();
        let mut count: usize = 0;
        let mut y: usize = 0;
        while y < size
            invariant
                self.inv(),
                b == self@,
                size == self.size,
                y <= size,
                seen.finite(),
                count == seen.len(),
                forall|c: Point| #[trigger]
                    seen.contains(c) <==> b.on_board(c) && b.stone_at(c) == color && c.1 < y,
            decreases size - y,
        {
            let mut x: usize = 0;
            while x < size
                invariant
                    self.inv(),
                    b == self@,
                    size == self.size,
                    y < size,
                    x <= size,
                    seen.finite(),
                    count == seen.len(),
                    forall|c: Point| #[trigger]
                        seen.contains(c) <==> b.on_board(c) && b.stone_at(c) == color && (c.1 < y
                            || (c.1 == y && c.0 < x)),
                decreases size - x,
            {
                if self.grid[y][x] == color {
                    proof {
                        lemma_points_bound(seen, b.size);
                        lemma_area(b.size);
                        seen = seen.insert((x as int, y as int));
                    }
                    count += 1;
                }
                x += 1;
            }
            y += 1;
        }
        proof {
            assert(seen =~= b.stones(color));
            lemma_points_bound(seen, b.size);
        }
        count
    }
}

impl Board {
    /// Whether both capture counters can take a whole board of stones
    /// more: what a placement asks for.
    pub fn has_capture_room(&self) -> (r: bool)
        ensures
            r == self@.capture_room(),
    {
        proof {
            use_type_invariant(self);
            lemma_area(self@.size);
        }
        let area = self.size * self.size;
        self.captured[0] <= usize::MAX - area && self.captured[1] <= usize::MAX - area
    }

    /// A copy to try plays on: the same grid and ko point, with no
    /// prisoners recorded.
    pub fn scratch_copy(&self) -> (b: Board)
        ensures
            b@ == self@.scratch(),
    {
        proof {
            use_type_invariant(self);
        }
        let b = Board {
            grid: copied_grid(&self.grid),
            size: self.size,
            captured: [0, 0],
            ko_point: self.ko_point,
        };
        assert(b@.rows =~= self@.rows);
        b
    }
}

/// A grid of flags of side `size` that marks exactly the given cells.
fn marked_cells(size: usize, cells: &Vec<(usize, usize)>) -> (flags: Vec<Vec<bool>>)
    requires
        forall|i: int| 0 <= i < cells@.len() ==> (#[trigger] cells@[i]).0 < size && cells@[i].1 < size,
    ensures
        square(flags@, size as nat),
        forall|c: Point|
            0 <= c.0 < size && 0 <= c.1 < size ==> (#[trigger] marked(flags@, c) <==> points_of(
                cells@,
            ).contains(c)),
{
    let mut flags: Vec<Vec<bool>> = filled_grid(size, false);
    let mut i: usize = 0;
    while i < cells.len()
        invariant
            i <= cells@.len(),
            square(flags@, size as nat),
            forall|k: int|
                0 <= k < cells@.len() ==> (#[trigger] cells@[k]).0 < size && cells@[k].1 < size,
            forall|c: Point|
                0 <= c.0 < size && 0 <= c.1 < size ==> (#[trigger] marked(flags@, c) <==> points_of(
                    cells@.take(i as int),
                ).contains(c)),
        decreases cells@.len() - i,
    {
        let q = cells[i];
        let ghost before = flags@;
        grid_set(&mut flags, q.0, q.1, true);
        proof {
            let s0 = cells@.take(i as int);
            let s1 = cells@.take(i as int + 1);
            assert forall|c: Point| 0 <= c.0 < size && 0 <= c.1 < size implies (#[trigger] marked(
                flags@,
                c,
            ) <==> points_of(s1).contains(c)) by {
                assert(marked(before, c) <==> points_of(s0).contains(c));
                if points_of(s1).contains(c) {
                    let j = choose|j: int| 0 <= j < s1.len() && point_of(#[trigger] s1[j]) == c;
                    if j < i {
                        assert(point_of(s0[j]) == c);
                    }
                }
                if points_of(s0).contains(c) {
                    let j = choose|j: int| 0 <= j < s0.len() && point_of(#[trigger] s0[j]) == c;
                    assert(point_of(s1[j]) == c);
                }
                if c == point_of(q) {
                    assert(point_of(s1[i as int]) == c);
                }
            }
        }
        i += 1;
    }
    proof {
        assert(cells@.take(cells@.len() as int) =~= cells@);
    }
    flags
}

impl Board {
    /// The number of liberties of the group of the stone on `(x, y)`; none
    /// where no stone stands.
    pub fn count_liberties(&self, x: usize, y: usize) -> (n: usize)
        ensures
            n == self@.liberty_count((x as int, y as int)),
    {
        match self.find_group(x, y) {
            Some(group) => group.liberties,
            None => 0,
        }
    }

    /// The liberties of the group of the stone on `(x, y)`, in the order
    /// of reading the board row by row; none where no stone stands.
    pub fn find_liberties(&self, x: usize, y: usize) -> (v: Vec<(usize, usize)>)
        ensures
            row_major(v@),
            forall|i: int| 0 <= i < v@.len() ==> self@.on_board(point_of(#[trigger] v@[i])),
            forall|c: Point|
                points_of(v@).contains(c) <==> self@.is_liberty_of((x as int, y as int), c),
            v@ == liberty_list(self@, (x as int, y as int)),
    {
        proof {
            use_type_invariant(self);
        }
        let ghost b = self@;
        let ghost p: Point = (x as int, y as int);
        let mut found: Vec<(usize, usize)> = Vec::new();
        let group = match self.find_group(x, y) {
            Some(group) => group,
            None => {
                assert forall|c: Point| !points_of(found@).contains(c) by {}
                proof {
                    lemma_is_listing(found@, b.size, |c: Point| b.is_liberty_of(p, c));
                }
                return found;
            },
        };
        let size = self.size;
        proof {
            b.lemma_group_finite(p);
            assert forall|i: int| 0 <= i < group.positions@.len() implies (
            #[trigger] group.positions@[i]).0 < size && group.positions@[i].1 < size by {
                assert(points_of(group.positions@).contains(point_of(group.positions@[i])));
            }
        }
        let member = marked_cells(size, &group.positions);
        let ghost g = b.group_at(p);
        let mut cy: usize = 0;
        while cy < size
            invariant
                self.inv(),
                b == self@,
                size == self.size,
                cy <= size,
                g == b.group_at(p),
                b.stone_at(p) != Stone::Empty,
                square(member@, size as nat),
                forall|c: Point|
                    0 <= c.0 < size && 0 <= c.1 < size ==> (#[trigger] marked(member@, c)
                        <==> g.contains(c)),
                forall|c: Point| #[trigger] g.contains(c) ==> b.on_board(c),
                row_major(found@),
                forall|i: int|
                    0 <= i < found@.len() ==> (#[trigger] found@[i]).1 < cy && found@[i].0 < size,
                forall|c: Point|
                    points_of(found@).contains(c) <==> b.is_liberty(g, c) && c.1 < cy,
            decreases size - cy,
        {
            let mut cx: usize = 0;
            while cx < size
                invariant
                    self.inv(),
                    b == self@,
                    size == self.size,
                    cy < size,
                    cx <= size,
                    g == b.group_at(p),
                    b.stone_at(p) != Stone::Empty,
                    square(member@, size as nat),
                    forall|c: Point|
                        0 <= c.0 < size && 0 <= c.1 < size ==> (#[trigger] marked(member@, c)
                            <==> g.contains(c)),
                    forall|c: Point| #[trigger] g.contains(c) ==> b.on_board(c),
                    row_major(found@),
                    forall|i: int|
                        0 <= i < found@.len() ==> row_major_before(#[trigger] found@[i], (cx, cy))
                            && found@[i].0 < size,
                    forall|c: Point|
                        points_of(found@).contains(c) <==> b.is_liberty(g, c) && (c.1 < cy || (c.1
                            == cy && c.0 < cx)),
                decreases size - cx,
            {
                let ghost here: Point = (cx as int, cy as int);
                let ghost before = found@;
                if self.grid[cy][cx] == Stone::Empty {
                    let up = cy > 0 && member[cy - 1][cx];
                    let down = cy + 1 < size && member[cy + 1][cx];
                    let left = cx > 0 && member[cy][cx - 1];
                    let right = cx + 1 < size && member[cy][cx + 1];
                    proof {
                        assert(up <==> g.contains((here.0, here.1 - 1))) by {
                            if cy > 0 {
                                assert(marked(member@, (here.0, here.1 - 1)) <==> g.contains(
                                    (here.0, here.1 - 1),
                                ));
                            }
                        }
                        assert(down <==> g.contains((here.0, here.1 + 1))) by {
                            if cy + 1 < size {
                                assert(marked(member@, (here.0, here.1 + 1)) <==> g.contains(
                                    (here.0, here.1 + 1),
                                ));
                            }
                        }
                        assert(left <==> g.contains((here.0 - 1, here.1))) by {
                            if cx > 0 {
                                assert(marked(member@, (here.0 - 1, here.1)) <==> g.contains(
                                    (here.0 - 1, here.1),
                                ));
                            }
                        }
                        assert(right <==> g.contains((here.0 + 1, here.1))) by {
                            if cx + 1 < size {
                                assert(marked(member@, (here.0 + 1, here.1)) <==> g.contains(
                                    (here.0 + 1, here.1),
                                ));
                            }
                        }
                        assert(borders(g, here) <==> (up || down || left || right));
                    }
                    if up || down || left || right {
                        found.push((cx, cy));
                    }
                }
                proof {
                    assert forall|c: Point|
                        points_of(found@).contains(c) <==> b.is_liberty(g, c) && (c.1 < cy || (c.1
                            == cy && c.0 < cx + 1)) by {
                        if points_of(found@).contains(c) {
                            let i = choose|i: int|
                                0 <= i < found@.len() && point_of(#[trigger] found@[i]) == c;
                            if i < before.len() {
                                assert(point_of(before[i]) == c);
                                assert(points_of(before).contains(c));
                            }
                        }
                        if b.is_liberty(g, c) && (c.1 < cy || (c.1 == cy && c.0 < cx + 1)) {
                            if c == here {
                                assert(point_of(found@[found@.len() - 1]) == c);
                            } else {
                                assert(points_of(before).contains(c));
                                let i = choose|i: int|
                                    0 <= i < before.len() && point_of(#[trigger] before[i]) == c;
                                assert(point_of(found@[i]) == c);
                            }
                        }
                    }
                }
                cx += 1;
            }
            cy += 1;
        }
        proof {
            assert forall|i: int| 0 <= i < found@.len() implies holds(
                |c: Point| b.is_liberty_of(p, c),
                point_of(#[trigger] found@[i]),
            ) by {
                assert(points_of(found@).contains(point_of(found@[i])));
            }
            lemma_is_listing(found@, b.size, |c: Point| b.is_liberty_of(p, c));
        }
        found
    }
}

impl Board {
    /// The points holding `what`, in the order of reading the board row by
    /// row.
    pub fn list_points(&self, what: Stone) -> (v: Vec<(usize, usize)>)
        ensures
            v@ == stone_list(self@, what),
            lists(v@, self@.size, |c: Point| self@.stone_at(c) == what),
    {
        proof {
            use_type_invariant(self);
        }
        let size = self.size;
        let ghost b = self@;
        let ghost keep = |c: Point| b.stone_at(c) == what;
        let mut found: Vec<(usize, usize)> = Vec::new();
        let mut y: usize = 0;
        while y < size
            invariant
                self.inv(),
                b == self@,
                size == self.size,
                y <= size,
                row_major(found@),
                forall|i: int|
                    0 <= i < found@.len() ==> (#[trigger] found@[i]).1 < y && found@[i].0 < size
                        && b.stone_at(point_of(found@[i])) == what,
                forall|c: Point|
                    b.on_board(c) && b.stone_at(c) == what && c.1 < y ==> #[trigger] points_of(
                        found@,
                    ).contains(c),
            decreases size - y,
        {
            let mut x: usize = 0;
            while x < size
                invariant
                    self.inv(),
                    b == self@,
                    size == self.size,
                    y < size,
                    x <= size,
                    row_major(found@),
                    forall|i: int|
                        0 <= i < found@.len() ==> row_major_before(#[trigger] found@[i], (x, y))
                            && found@[i].0 < size && b.stone_at(point_of(found@[i])) == what,
                    forall|c: Point|
                        b.on_board(c) && b.stone_at(c) == what && (c.1 < y || (c.1 == y && c.0
                            < x)) ==> #[trigger] points_of(found@).contains(c),
                decreases size - x,
            {
                let ghost before = found@;
                if self.grid[y][x] == what {
                    found.push((x, y));
                }
                proof {
                    assert forall|c: Point|
                        b.on_board(c) && b.stone_at(c) == what && (c.1 < y || (c.1 == y && c.0 < x
                            + 1)) implies #[trigger] points_of(found@).contains(c) by {
                        if c == (x as int, y as int) {
                            assert(point_of(found@[found@.len() - 1]) == c);
                        } else {
                            assert(points_of(before).contains(c));
                            let i = choose|i: int|
                                0 <= i < before.len() && point_of(#[trigger] before[i]) == c;
                            assert(point_of(found@[i]) == c);
                        }
                    }
                }
                x += 1;
            }
            y += 1;
        }
        proof {
            assert(lists(found@, b.size, keep));
            lemma_is_listing(found@, b.size, keep);
        }
        found
    }
}

impl Clone for Board {
    fn clone(&self) -> (b: Board)
        ensures
            b@ == self@,
    {
        proof {
            use_type_invariant(self);
        }
        let b = Board {
            grid: copied_grid(&self.grid),
            size: self.size,
            captured: self.captured,
            ko_point: self.ko_point,
        };
        assert(b@.rows =~= self@.rows);
        b
    }
}

} // verus!
