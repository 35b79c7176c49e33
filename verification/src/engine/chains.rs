//! Facts about chains, groups and liberties of a position.

use vstd::prelude::*;
use vstd::set_lib::{lemma_int_range, lemma_len_subset, lemma_map_size, set_int_range};
use vstd::arithmetic::div_mod::lemma_fundamental_div_mod_converse;
use crate::engine::board::{ErrorKind, Stone};
use crate::engine::rules::GameRules;
use crate::engine::state::{adjacent, borders, neighbor_spec, BoardState, Point};

verus! {

/// All points of a board of side `n`.
pub open spec fn board_points(n: nat) -> Set<Point> {
    Set::new(|p: Point| 0 <= p.0 < n && 0 <= p.1 < n)
}

/// A board of side `n` has `n * n` points.
pub proof fn lemma_board_points(n: nat)
    ensures
        board_points(n).finite(),
        board_points(n).len() == n * n,
{
    if n == 0 {
        assert(board_points(n) =~= Set::empty());
        assert(n * n == 0);
    } else {
        let range = set_int_range(0, (n * n) as int);
        let unflatten = |i: int| (i % (n as int), i / (n as int));
        assert(n * n >= 0) by (nonlinear_arith);
        lemma_int_range(0, (n * n) as int);
        assert forall|i: int| #[trigger] range.contains(i) implies board_points(n).contains(
            unflatten(i),
        ) by {
            assert(0 <= i % (n as int) < n && 0 <= i / (n as int) < n) by (nonlinear_arith)
                requires
                    0 <= i < n * n,
                    n > 0,
            ;
        }
        assert forall|i: int, j: int|
            range.contains(i) && range.contains(j) && #[trigger] unflatten(i) == #[trigger] unflatten(
                j,
            ) implies i == j by {
            assert(i == (i / (n as int)) * n + i % (n as int)) by (nonlinear_arith)
                requires
                    n > 0,
            ;
            assert(j == (j / (n as int)) * n + j % (n as int)) by (nonlinear_arith)
                requires
                    n > 0,
            ;
        }
        assert forall|p: Point| board_points(n).contains(p) implies range.map(unflatten).contains(
            p,
        ) by {
            let i = p.1 * n + p.0;
            lemma_fundamental_div_mod_converse(i, n as int, p.1, p.0);
            assert(0 <= i < n * n) by (nonlinear_arith)
                requires
                    0 <= p.0 < n,
                    0 <= p.1 < n,
                    i == p.1 * n + p.0,
            ;
            assert(range.contains(i) && unflatten(i) == p);
        }
        assert(range.map(unflatten) =~= board_points(n));
        lemma_map_size(range, board_points(n), unflatten);
    }
}

/// A set of points of a board of side `n` is finite and has at most `n * n`
/// members.
pub proof fn lemma_points_bound(s: Set<Point>, n: nat)
    requires
        forall|p: Point| s.contains(p) ==> 0 <= p.0 < n && 0 <= p.1 < n,
    ensures
        s.finite(),
        s.len() <= n * n,
{
    lemma_board_points(n);
    lemma_len_subset(s, board_points(n));
}

/// A sequence of distinct points of a board of side `n` has at most `n * n`
/// entries.
pub proof fn lemma_distinct_points_bound(s: Seq<Point>, n: nat)
    requires
        s.no_duplicates(),
        forall|i: int| 0 <= i < s.len() ==> 0 <= (#[trigger] s[i]).0 < n && 0 <= s[i].1 < n,
    ensures
        s.len() <= n * n,
{
    s.unique_seq_to_set();
    assert forall|p: Point| s.to_set().contains(p) implies 0 <= p.0 < n && 0 <= p.1 < n by {
        let i = choose|i: int| 0 <= i < s.len() && s[i] == p;
        assert(s[i] == p);
    }
    lemma_points_bound(s.to_set(), n);
}

impl BoardState {
    /// Every point of the board is connected to itself.
    pub proof fn lemma_connected_refl(self, p: Point)
        requires
            self.on_board(p),
        ensures
            self.connected(p, p),
    {
        let path = seq![p];
        assert(self.is_chain(path));
        assert(path[0] == p && path.last() == p);
    }

    /// What being connected implies of the two ends.
    pub proof fn lemma_connected_ends(self, p: Point, q: Point)
        requires
            self.connected(p, q),
        ensures
            self.on_board(p),
            self.on_board(q),
            self.stone_at(q) == self.stone_at(p),
    {
        let path = choose|path: Seq<Point>| #[trigger]
            self.is_chain(path) && path[0] == p && path.last() == q;
        assert(self.on_board(path[0]));
        assert(self.on_board(path[path.len() - 1]));
    }

    /// A chain can be extended by one step onto a neighbour of equal content.
    pub proof fn lemma_connected_step(self, p: Point, q: Point, r: Point)
        requires
            self.connected(p, q),
            adjacent(q, r),
            self.on_board(r),
            self.stone_at(r) == self.stone_at(p),
        ensures
            self.connected(p, r),
    {
        let path = choose|path: Seq<Point>| #[trigger]
            self.is_chain(path) && path[0] == p && path.last() == q;
        let longer = path.push(r);
        assert forall|i: int| 0 <= i < longer.len() implies self.on_board(#[trigger] longer[i])
            && self.stone_at(longer[i]) == self.stone_at(longer[0]) by {
            if i < path.len() {
                assert(longer[i] == path[i]);
            }
        }
        assert forall|i: int| 0 <= i < longer.len() - 1 implies adjacent(
            #[trigger] longer[i],
            longer[i + 1],
        ) by {
            if i < path.len() - 1 {
                assert(longer[i] == path[i]);
                assert(longer[i + 1] == path[i + 1]);
            }
        }
        assert(self.is_chain(longer));
        assert(longer[0] == p && longer.last() == r);
    }

    /// Being connected is symmetric.
    pub proof fn lemma_connected_sym(self, p: Point, q: Point)
        requires
            self.connected(p, q),
        ensures
            self.connected(q, p),
    {
        let path = choose|path: Seq<Point>| #[trigger]
            self.is_chain(path) && path[0] == p && path.last() == q;
        let n = path.len() as int;
        let back = Seq::new(path.len(), |i: int| path[n - 1 - i]);
        assert forall|i: int| 0 <= i < back.len() implies self.on_board(#[trigger] back[i])
            && self.stone_at(back[i]) == self.stone_at(back[0]) by {
            assert(back[i] == path[n - 1 - i]);
            assert(self.on_board(path[n - 1 - i]));
            assert(self.on_board(path[n - 1]));
        }
        assert forall|i: int| 0 <= i < back.len() - 1 implies adjacent(
            #[trigger] back[i],
            back[i + 1],
        ) by {
            assert(adjacent(path[n - 2 - i], path[n - 2 - i + 1]));
        }
        assert(self.is_chain(back));
        assert(back[0] == q && back.last() == p);
    }

    /// Being connected is transitive.
    pub proof fn lemma_connected_trans(self, p: Point, q: Point, r: Point)
        requires
            self.connected(p, q),
            self.connected(q, r),
        ensures
            self.connected(p, r),
    {
        let a = choose|path: Seq<Point>| #[trigger]
            self.is_chain(path) && path[0] == p && path.last() == q;
        let b = choose|path: Seq<Point>| #[trigger]
            self.is_chain(path) && path[0] == q && path.last() == r;
        let tail = b.subrange(1, b.len() as int);
        let joined = a + tail;
        assert(self.on_board(a[a.len() - 1]));
        assert forall|i: int| 0 <= i < joined.len() implies self.on_board(#[trigger] joined[i])
            && self.stone_at(joined[i]) == self.stone_at(joined[0]) by {
            if i < a.len() {
                assert(joined[i] == a[i]);
            } else {
                assert(joined[i] == b[i - a.len() + 1]);
                assert(self.on_board(b[i - a.len() + 1]));
            }
        }
        assert forall|i: int| 0 <= i < joined.len() - 1 implies adjacent(
            #[trigger] joined[i],
            joined[i + 1],
        ) by {
            if i < a.len() - 1 {
                assert(adjacent(a[i], a[i + 1]));
            } else {
                let j = i - a.len() + 1;
                assert(adjacent(b[j], b[j + 1]));
                assert(joined[i + 1] == b[j + 1]);
                if j == 0 {
                    assert(joined[i] == a[a.len() - 1]);
                } else {
                    assert(joined[i] == b[j]);
                }
            }
        }
        assert(self.is_chain(joined));
        if tail.len() == 0 {
            assert(joined.last() == a[a.len() - 1]);
        } else {
            assert(joined.last() == b[b.len() - 1]);
        }
        assert(joined[0] == p && joined.last() == r);
    }

    /// Connected points have the same group.
    pub proof fn lemma_same_group(self, p: Point, q: Point)
        requires
            self.connected(p, q),
        ensures
            self.group_at(q) == self.group_at(p),
    {
        self.lemma_connected_sym(p, q);
        assert forall|r: Point| self.group_at(q).contains(r) <==> self.group_at(p).contains(
            r,
        ) by {
            if self.connected(q, r) {
                self.lemma_connected_trans(p, q, r);
            }
            if self.connected(p, r) {
                self.lemma_connected_trans(q, p, r);
            }
        }
        assert(self.group_at(q) =~= self.group_at(p));
    }

    /// A group is a finite set of points of the board, all of one content.
    pub proof fn lemma_group_finite(self, p: Point)
        ensures
            self.group_at(p).finite(),
            self.group_at(p).len() <= self.size * self.size,
            forall|q: Point| #[trigger]
                self.group_at(p).contains(q) ==> self.on_board(q) && self.stone_at(q)
                    == self.stone_at(p),
    {
        assert forall|q: Point| #[trigger] self.group_at(p).contains(q) implies self.on_board(q)
            && self.stone_at(q) == self.stone_at(p) by {
            self.lemma_connected_ends(p, q);
        }
        lemma_points_bound(self.group_at(p), self.size);
    }

    /// The liberties of any set form a finite set of points of the board.
    pub proof fn lemma_liberties_finite(self, g: Set<Point>)
        ensures
            self.liberties(g).finite(),
            self.liberties(g).len() <= self.size * self.size,
    {
        lemma_points_bound(self.liberties(g), self.size);
    }

    /// `s` contains `p` and, with each member, its neighbours of the content
    /// of `p`.
    pub open spec fn closed_around(self, s: Set<Point>, p: Point) -> bool {
        &&& s.contains(p)
        &&& forall|c: Point, d: Point|
            s.contains(c) && adjacent(c, d) && self.on_board(d) && self.stone_at(d)
                == self.stone_at(p) ==> #[trigger] s.contains(d) || !#[trigger] adjacent(c, d)
    }

    /// A chain from `p` never leaves a set that is closed around `p`.
    pub proof fn lemma_chain_stays(self, path: Seq<Point>, s: Set<Point>)
        requires
            self.is_chain(path),
            self.closed_around(s, path[0]),
        ensures
            s.contains(path.last()),
        decreases path.len(),
    {
        if path.len() > 1 {
            let shorter = path.drop_last();
            assert forall|i: int| 0 <= i < shorter.len() implies self.on_board(
                #[trigger] shorter[i],
            ) && self.stone_at(shorter[i]) == self.stone_at(shorter[0]) by {
                assert(shorter[i] == path[i]);
            }
            assert forall|i: int| 0 <= i < shorter.len() - 1 implies adjacent(
                #[trigger] shorter[i],
                shorter[i + 1],
            ) by {
                assert(adjacent(path[i], path[i + 1]));
            }
            self.lemma_chain_stays(shorter, s);
            let c = path[path.len() - 2];
            let d = path[path.len() - 1];
            assert(shorter.last() == c);
            assert(adjacent(c, d));
            assert(self.on_board(d));
            assert(s.contains(d));
        }
    }

    /// The group of `p` lies inside every set closed around `p`.
    pub proof fn lemma_group_in_closed(self, p: Point, s: Set<Point>)
        requires
            self.closed_around(s, p),
        ensures
            self.group_at(p).subset_of(s),
    {
        assert forall|q: Point| self.group_at(p).contains(q) implies s.contains(q) by {
            let path = choose|path: Seq<Point>| #[trigger]
                self.is_chain(path) && path[0] == p && path.last() == q;
            self.lemma_chain_stays(path, s);
        }
    }

    /// The group of `n` is the same on a second position that agrees with
    /// this one on the group and has no further point of its content.
    pub proof fn lemma_group_unchanged(self, other: BoardState, n: Point)
        requires
            self.size == other.size,
            self.on_board(n),
            forall|q: Point| #[trigger]
                self.group_at(n).contains(q) ==> other.stone_at(q) == self.stone_at(q),
            forall|q: Point|
                other.on_board(q) && #[trigger] other.stone_at(q) == self.stone_at(n)
                    ==> self.stone_at(q) == self.stone_at(n),
        ensures
            other.group_at(n) == self.group_at(n),
    {
        let g = self.group_at(n);
        let h = other.group_at(n);
        self.lemma_connected_refl(n);
        other.lemma_connected_refl(n);
        assert(g.contains(n));
        assert forall|c: Point, d: Point|
            g.contains(c) && adjacent(c, d) && other.on_board(d) && other.stone_at(d)
                == other.stone_at(n) implies #[trigger] g.contains(d) || !#[trigger] adjacent(
            c,
            d,
        ) by {
            self.lemma_connected_step(n, c, d);
        }
        other.lemma_group_in_closed(n, g);
        assert forall|c: Point, d: Point|
            h.contains(c) && adjacent(c, d) && self.on_board(d) && self.stone_at(d)
                == self.stone_at(n) implies #[trigger] h.contains(d) || !#[trigger] adjacent(
            c,
            d,
        ) by {
            assert(g.contains(c));
            self.lemma_connected_step(n, c, d);
            assert(g.contains(d));
            other.lemma_connected_step(n, c, d);
        }
        self.lemma_group_in_closed(n, h);
        assert(g =~= h);
    }

    /// The liberties of the group of the stone on `n` are the same on a
    /// second position that differs only on points of its colour outside
    /// the group.
    pub proof fn lemma_liberties_unchanged(self, other: BoardState, n: Point)
        requires
            self.size == other.size,
            self.on_board(n),
            self.stone_at(n) != Stone::Empty,
            forall|q: Point|
                self.on_board(q) ==> #[trigger] other.stone_at(q) == self.stone_at(q) || (
                self.stone_at(q) == self.stone_at(n) && !self.group_at(n).contains(q)),
        ensures
            other.liberties(self.group_at(n)) == self.liberties(self.group_at(n)),
    {
        let g = self.group_at(n);
        assert forall|c: Point| other.is_liberty(g, c) <==> self.is_liberty(g, c) by {
            if self.on_board(c) && other.stone_at(c) != self.stone_at(c) {
                if borders(g, c) {
                    let e = if g.contains((c.0, c.1 - 1)) {
                        (c.0, c.1 - 1)
                    } else if g.contains((c.0, c.1 + 1)) {
                        (c.0, c.1 + 1)
                    } else if g.contains((c.0 - 1, c.1)) {
                        (c.0 - 1, c.1)
                    } else {
                        (c.0 + 1, c.1)
                    };
                    assert(g.contains(e) && adjacent(e, c));
                    self.lemma_connected_step(n, e, c);
                    assert(false);
                }
            }
        }
        assert(other.liberties(g) =~= self.liberties(g));
    }

    /// Looking at all four neighbours finds every doomed stone.
    pub proof fn lemma_doomed_all(self, p: Point, s: Stone)
        ensures
            self.doomed_upto(p, s, 4) == self.doomed(p, s),
    {
        assert forall|q: Point| self.doomed_upto(p, s, 4).contains(q) <==> self.doomed(
            p,
            s,
        ).contains(q) by {
            let g = self.group_at(q);
            if self.doomed_upto(p, s, 4).contains(q) {
                let k = choose|k: int| 0 <= k < 4 && g.contains(#[trigger] neighbor_spec(p, k));
                assert(borders(g, p));
            }
            if self.doomed(p, s).contains(q) {
                assert(borders(g, p));
                assert(g.contains(neighbor_spec(p, 0)) || g.contains(neighbor_spec(p, 1))
                    || g.contains(neighbor_spec(p, 2)) || g.contains(neighbor_spec(p, 3)));
            }
        }
        assert(self.doomed_upto(p, s, 4) =~= self.doomed(p, s));
    }

    /// Nothing is doomed before any neighbour has been looked at.
    pub proof fn lemma_doomed_none(self, p: Point, s: Stone)
        ensures
            self.doomed_upto(p, s, 0) == Set::<Point>::empty(),
    {
        assert(self.doomed_upto(p, s, 0) =~= Set::<Point>::empty());
    }

    /// The doomed stones found so far are finitely many points of the
    /// board.
    pub proof fn lemma_doomed_finite(self, p: Point, s: Stone, d: int)
        ensures
            self.doomed_upto(p, s, d).finite(),
            self.doomed_upto(p, s, d).len() <= self.size * self.size,
    {
        lemma_points_bound(self.doomed_upto(p, s, d), self.size);
    }

    /// The neighbour in direction `d` adds nothing when it is off the
    /// board, not of the other colour, already doomed, or its group has a
    /// liberty.
    pub proof fn lemma_doomed_skip(self, p: Point, s: Stone, d: int)
        requires
            0 <= d < 4,
            ({
                let n = neighbor_spec(p, d);
                ||| !self.on_board(n)
                ||| self.stone_at(n) != s.opponent_spec()
                ||| self.doomed_upto(p, s, d).contains(n)
                ||| self.liberties(self.group_at(n)).len() != 0
            }),
        ensures
            self.doomed_upto(p, s, d + 1) == self.doomed_upto(p, s, d),
    {
        let n = neighbor_spec(p, d);
        assert forall|q: Point| self.doomed_upto(p, s, d + 1).contains(q) implies self.doomed_upto(
            p,
            s,
            d,
        ).contains(q) by {
            let k = choose|k: int|
                0 <= k < d + 1 && self.group_at(q).contains(#[trigger] neighbor_spec(p, k));
            if k == d {
                self.lemma_connected_ends(q, n);
                self.lemma_same_group(q, n);
                let j = choose|j: int|
                    0 <= j < d && self.group_at(n).contains(#[trigger] neighbor_spec(p, j));
                assert(self.group_at(q).contains(neighbor_spec(p, j)));
            }
        }
        assert forall|q: Point| self.doomed_upto(p, s, d).contains(q) implies self.doomed_upto(
            p,
            s,
            d + 1,
        ).contains(q) by {
            let k = choose|k: int|
                0 <= k < d && self.group_at(q).contains(#[trigger] neighbor_spec(p, k));
            assert(0 <= k < d + 1);
        }
        assert(self.doomed_upto(p, s, d + 1) =~= self.doomed_upto(p, s, d));
    }

    /// The neighbour in direction `d` adds its whole group when that group
    /// is of the other colour, has no liberty and was not found before.
    pub proof fn lemma_doomed_take(self, p: Point, s: Stone, d: int)
        requires
            0 <= d < 4,
            self.on_board(neighbor_spec(p, d)),
            self.stone_at(neighbor_spec(p, d)) == s.opponent_spec(),
            !self.doomed_upto(p, s, d).contains(neighbor_spec(p, d)),
            self.liberties(self.group_at(neighbor_spec(p, d))).len() == 0,
        ensures
            self.doomed_upto(p, s, d + 1) == self.doomed_upto(p, s, d).union(
                self.group_at(neighbor_spec(p, d)),
            ),
            self.doomed_upto(p, s, d).disjoint(self.group_at(neighbor_spec(p, d))),
    {
        let n = neighbor_spec(p, d);
        let g = self.group_at(n);
        self.lemma_connected_refl(n);
        assert forall|q: Point| g.contains(q) implies !self.doomed_upto(p, s, d).contains(q)
            && self.doomed_upto(p, s, d + 1).contains(q) by {
            self.lemma_connected_ends(n, q);
            self.lemma_same_group(n, q);
            if self.doomed_upto(p, s, d).contains(q) {
                let k = choose|k: int|
                    0 <= k < d && self.group_at(q).contains(#[trigger] neighbor_spec(p, k));
                assert(g.contains(neighbor_spec(p, k)));
                assert(false);
            }
            assert(self.group_at(q).contains(neighbor_spec(p, d)));
        }
        assert forall|q: Point| self.doomed_upto(p, s, d).contains(q) implies self.doomed_upto(
            p,
            s,
            d + 1,
        ).contains(q) by {
            let k = choose|k: int|
                0 <= k < d && self.group_at(q).contains(#[trigger] neighbor_spec(p, k));
            assert(0 <= k < d + 1);
        }
        assert forall|q: Point| self.doomed_upto(p, s, d + 1).contains(q) implies self.doomed_upto(
            p,
            s,
            d,
        ).contains(q) || g.contains(q) by {
            let k = choose|k: int|
                0 <= k < d + 1 && self.group_at(q).contains(#[trigger] neighbor_spec(p, k));
            if k == d {
                self.lemma_connected_sym(q, n);
            }
        }
        assert(self.doomed_upto(p, s, d + 1) =~= self.doomed_upto(p, s, d).union(g));
    }

    /// On the live board, where the doomed stones found so far are gone, a
    /// neighbour of the other colour has the group and the liberties it
    /// had when the stone landed.
    pub proof fn lemma_live_group(self, live: BoardState, p: Point, s: Stone, d: int, n: Point)
        requires
            self.wf(),
            live.size == self.size,
            live.rows == self.without(self.doomed_upto(p, s, d)).rows,
            s != Stone::Empty,
            live.on_board(n),
            live.stone_at(n) == s.opponent_spec(),
        ensures
            self.stone_at(n) == s.opponent_spec(),
            !self.doomed_upto(p, s, d).contains(n),
            live.group_at(n) == self.group_at(n),
            live.liberties(live.group_at(n)) == self.liberties(self.group_at(n)),
    {
        let gone = self.doomed_upto(p, s, d);
        let g = self.group_at(n);
        assert forall|q: Point| self.on_board(q) implies #[trigger] live.stone_at(q) == (if gone.contains(
            q,
        ) {
            Stone::Empty
        } else {
            self.stone_at(q)
        }) by {}
        assert(live.stone_at(n) == self.stone_at(n));
        assert forall|q: Point| #[trigger] g.contains(q) implies !gone.contains(q) by {
            self.lemma_connected_ends(n, q);
            self.lemma_same_group(n, q);
            if gone.contains(q) {
                let k = choose|k: int|
                    0 <= k < d && self.group_at(q).contains(#[trigger] neighbor_spec(p, k));
                assert(g.contains(neighbor_spec(p, k)));
            }
        }
        assert forall|q: Point| #[trigger] g.contains(q) implies live.stone_at(q) == self.stone_at(
            q,
        ) by {
            self.lemma_connected_ends(n, q);
        }
        self.lemma_group_unchanged(live, n);
        self.lemma_liberties_unchanged(live, n);
    }
    /// Two positions hold the same stones on the same grid.
    pub open spec fn same_grid(self, other: BoardState) -> bool {
        self.size == other.size && self.rows == other.rows
    }

    /// Whether two points are connected depends on the grid alone.
    pub proof fn lemma_same_grid_connected(self, other: BoardState, p: Point, q: Point)
        requires
            self.same_grid(other),
        ensures
            self.connected(p, q) == other.connected(p, q),
    {
        if self.connected(p, q) {
            let path = choose|path: Seq<Point>| #[trigger]
                self.is_chain(path) && path[0] == p && path.last() == q;
            assert(other.is_chain(path));
        }
        if other.connected(p, q) {
            let path = choose|path: Seq<Point>| #[trigger]
                other.is_chain(path) && path[0] == p && path.last() == q;
            assert(self.is_chain(path));
        }
    }

    /// Groups and their liberties depend on the grid alone.
    pub proof fn lemma_same_grid_group(self, other: BoardState, p: Point)
        requires
            self.same_grid(other),
        ensures
            self.group_at(p) == other.group_at(p),
            self.liberties(self.group_at(p)) == other.liberties(other.group_at(p)),
    {
        assert forall|q: Point| self.group_at(p).contains(q) <==> other.group_at(p).contains(
            q,
        ) by {
            self.lemma_same_grid_connected(other, p, q);
        }
        assert(self.group_at(p) =~= other.group_at(p));
        assert(self.liberties(self.group_at(p)) =~= other.liberties(self.group_at(p)));
    }

    /// The stones removed by a play depend on the grid alone.
    pub proof fn lemma_same_grid_doomed(self, other: BoardState, p: Point, s: Stone)
        requires
            self.same_grid(other),
        ensures
            self.doomed(p, s) == other.doomed(p, s),
    {
        assert forall|q: Point| self.doomed(p, s).contains(q) <==> other.doomed(p, s).contains(
            q,
        ) by {
            self.lemma_same_grid_group(other, q);
        }
        assert(self.doomed(p, s) =~= other.doomed(p, s));
    }

    /// Whether a play is accepted, and the error if not, depends on the
    /// grid and the ko point alone, not on the prisoners taken so far; so
    /// does the grid and the ko point it leaves.
    pub proof fn lemma_place_same_grid(self, other: BoardState, p: Point, s: Stone, rules: GameRules)
        requires
            self.same_grid(other),
            self.ko_point == other.ko_point,
        ensures
            match (self.place(p, s, rules), other.place(p, s, rules)) {
                (Ok(a), Ok(b)) => a.same_grid(b) && a.ko_point == b.ko_point,
                (Err(e), Err(f)) => e == f,
                _ => false,
            },
    {
        let placed = self.with_stone(p, s);
        let other_placed = other.with_stone(p, s);
        assert(placed.same_grid(other_placed));
        placed.lemma_same_grid_doomed(other_placed, p, s);
        let dead = placed.doomed(p, s);
        let after = placed.without(dead);
        let other_after = other_placed.without(dead);
        assert(after.same_grid(other_after));
        after.lemma_same_grid_group(other_after, p);
        placed.lemma_same_grid_group(other_placed, p);
        let own = placed.group_at(p);
        assert(placed.without(own).same_grid(other_placed.without(own)));
    }

    /// An accepted placement keeps the board's size and shape, and takes
    /// prisoners away from neither colour: each counter grows by at most a
    /// board of stones.
    pub proof fn lemma_place_shape(self, p: Point, s: Stone, rules: GameRules)
        requires
            self.wf(),
        ensures
            self.place(p, s, rules) matches Ok(next) ==> {
                &&& next.wf()
                &&& next.size == self.size
                &&& self.captured_black <= next.captured_black <= self.captured_black + self.size
                    * self.size
                &&& self.captured_white <= next.captured_white <= self.captured_white + self.size
                    * self.size
            },
    {
        if self.place(p, s, rules) is Ok {
            let placed = self.with_stone(p, s);
            let dead = placed.doomed(p, s);
            lemma_points_bound(dead, self.size);
            placed.lemma_group_finite(p);
        }
    }
}

/// A finite set with one member has that member for its choice.
pub proof fn lemma_single_member<A>(s: Set<A>, a: A)
    requires
        s.finite(),
        s.len() == 1,
        s.contains(a),
    ensures
        s.choose() == a,
{
    let c = s.choose();
    assert(s.contains(c));
    if c != a {
        assert(s.remove(a).contains(c));
        assert(s.remove(a).len() == 0);
    }
}

} // verus!
