//! The eight symmetries of the square board, applied to coordinates.

use vstd::prelude::*;
use crate::engine::board::{Board, Stone};

verus! {

/// A symmetry of the square.
#[derive(Debug, Clone, Copy, PartialEq, Eq, Structural)]
pub enum Transformation {
    Identity,
    Rot90,
    Rot180,
    Rot270,
    Mirror,
    MirrorRot90,
    MirrorRot180,
    MirrorRot270,
}

/// A stone expected at a coordinate.
pub type PatternEntry = (usize, usize, Stone);

impl Transformation {
    /// The image mirrors the `x` coordinate, so `x` must lie on the board.
    pub open spec fn reflects_x(self) -> bool {
        self == Transformation::Rot90 || self == Transformation::Rot180 || self
            == Transformation::Mirror || self == Transformation::MirrorRot270
    }

    /// The image mirrors the `y` coordinate, so `y` must lie on the board.
    pub open spec fn reflects_y(self) -> bool {
        self == Transformation::Rot180 || self == Transformation::Rot270 || self
            == Transformation::MirrorRot180 || self == Transformation::MirrorRot270
    }

    /// The image of `(x, y)` can be computed: every coordinate that is
    /// mirrored is less than `size`.
    pub open spec fn defined(self, x: int, y: int, size: int) -> bool {
        (self.reflects_x() ==> x < size) && (self.reflects_y() ==> y < size)
    }

    /// The image of `(x, y)` on a board of side `size`.
    pub open spec fn apply_spec(self, x: int, y: int, size: int) -> (int, int) {
        match self {
            Transformation::Identity => (x, y),
            Transformation::Rot90 => (y, size - 1 - x),
            Transformation::Rot180 => (size - 1 - x, size - 1 - y),
            Transformation::Rot270 => (size - 1 - y, x),
            Transformation::Mirror => (size - 1 - x, y),
            Transformation::MirrorRot90 => (y, x),
            Transformation::MirrorRot180 => (x, size - 1 - y),
            Transformation::MirrorRot270 => (size - 1 - y, size - 1 - x),
        }
    }

    /// The image of `(x, y)` on a board of side `size`.
    pub fn apply(&self, x: usize, y: usize, size: usize) -> (r: (usize, usize))
        requires
            self.defined(x as int, y as int, size as int),
        ensures
            (r.0 as int, r.1 as int) == self.apply_spec(x as int, y as int, size as int),
    {
        match self {
            Transformation::Identity => (x, y),
            Transformation::Rot90 => (y, size - 1 - x),
            Transformation::Rot180 => (size - 1 - x, size - 1 - y),
            Transformation::Rot270 => (size - 1 - y, x),
            Transformation::Mirror => (size - 1 - x, y),
            Transformation::MirrorRot90 => (y, x),
            Transformation::MirrorRot180 => (x, size - 1 - y),
            Transformation::MirrorRot270 => (size - 1 - y, size - 1 - x),
        }
    }

    /// All eight symmetries, the identity first.
    pub fn all() -> (r: [Transformation; 8])
        ensures
            r@ == seq![
                Transformation::Identity,
                Transformation::Rot90,
                Transformation::Rot180,
                Transformation::Rot270,
                Transformation::Mirror,
                Transformation::MirrorRot90,
                Transformation::MirrorRot180,
                Transformation::MirrorRot270,
            ],
    {
        let r = [
            Transformation::Identity,
            Transformation::Rot90,
            Transformation::Rot180,
            Transformation::Rot270,
            Transformation::Mirror,
            Transformation::MirrorRot90,
            Transformation::MirrorRot180,
            Transformation::MirrorRot270,
        ];
        assert(r@ =~= seq![
            Transformation::Identity,
            Transformation::Rot90,
            Transformation::Rot180,
            Transformation::Rot270,
            Transformation::Mirror,
            Transformation::MirrorRot90,
            Transformation::MirrorRot180,
            Transformation::MirrorRot270,
        ]);
        r
    }

    /// The symmetry that undoes `self`.
    pub open spec fn inverse(self) -> Transformation {
        match self {
            Transformation::Rot90 => Transformation::Rot270,
            Transformation::Rot270 => Transformation::Rot90,
            other => other,
        }
    }

    /// A symmetry maps the board onto itself, and its inverse maps every
    /// image back.
    pub proof fn lemma_symmetry(self, x: int, y: int, size: int)
        requires
            0 <= x < size,
            0 <= y < size,
        ensures
            ({
                let (tx, ty) = self.apply_spec(x, y, size);
                &&& 0 <= tx < size
                &&& 0 <= ty < size
                &&& self.inverse().apply_spec(tx, ty, size) == (x, y)
            }),
    {
    }
}

/// Every entry of `pattern` can be mapped by `trans`.
pub open spec fn all_defined(pattern: Seq<PatternEntry>, trans: Transformation, size: int) -> bool {
    forall|i: int|
        0 <= i < pattern.len() ==> trans.defined(
            (#[trigger] pattern[i]).0 as int,
            pattern[i].1 as int,
            size,
        )
}

/// The image of one entry.
pub open spec fn entry_image(e: PatternEntry, trans: Transformation, size: int) -> (int, int, Stone) {
    let (tx, ty) = trans.apply_spec(e.0 as int, e.1 as int, size);
    (tx, ty, e.2)
}

/// Under `trans`, every entry of `pattern` finds its stone on the board.
pub open spec fn matches_under(
    board: crate::engine::state::BoardState,
    pattern: Seq<PatternEntry>,
    trans: Transformation,
) -> bool {
    forall|i: int|
        0 <= i < pattern.len() ==> board.stone_at(
            trans.apply_spec(
                (#[trigger] pattern[i]).0 as int,
                pattern[i].1 as int,
                board.size as int,
            ),
        ) == pattern[i].2
}

/// The first of `transformations` under which `pattern` matches the board,
/// if any does.
pub fn patterns_match(
    board: &Board,
    pattern: &[PatternEntry],
    transformations: &[Transformation],
) -> (r: Option<Transformation>)
    requires
        forall|t: int|
            0 <= t < transformations@.len() ==> all_defined(
                pattern@,
                #[trigger] transformations@[t],
                board@.size as int,
            ),
    ensures
        match r {
            Some(trans) => exists|t: int|
                0 <= t < transformations@.len() && #[trigger] transformations@[t] == trans
                    && matches_under(board@, pattern@, trans) && forall|u: int|
                    0 <= u < t ==> !matches_under(board@, pattern@, #[trigger] transformations@[u]),
            None => forall|u: int|
                0 <= u < transformations@.len() ==> !matches_under(
                    board@,
                    pattern@,
                    #[trigger] transformations@[u],
                ),
        },
{
    let size = board.size();
    let mut t: usize = 0;
    while t < transformations.len()
        invariant
            t <= transformations@.len(),
            size == board@.size,
            forall|k: int|
                0 <= k < transformations@.len() ==> all_defined(
                    pattern@,
                    #[trigger] transformations@[k],
                    board@.size as int,
                ),
            forall|u: int|
                0 <= u < t ==> !matches_under(board@, pattern@, #[trigger] transformations@[u]),
        decreases transformations@.len() - t,
    {
        let trans = transformations[t];
        let mut matched = true;
        let mut i: usize = 0;
        while i < pattern.len() && matched
            invariant
                i <= pattern@.len(),
                size == board@.size,
                trans == transformations@[t as int],
                all_defined(pattern@, trans, board@.size as int),
                matched ==> forall|k: int|
                    0 <= k < i ==> board@.stone_at(
                        trans.apply_spec(
                            (#[trigger] pattern@[k]).0 as int,
                            pattern@[k].1 as int,
                            board@.size as int,
                        ),
                    ) == pattern@[k].2,
                !matched ==> !matches_under(board@, pattern@, trans),
            decreases pattern@.len() - i + if matched { 1int } else { 0int },
        {
            let e = pattern[i];
            let (tx, ty) = trans.apply(e.0, e.1, size);
            if board.get_stone(tx, ty) != e.2 {
                matched = false;
            } else {
                i += 1;
            }
        }
        if matched {
            assert(matches_under(board@, pattern@, trans));
            return Some(trans);
        }
        t += 1;
    }
    None
}

/// The images of the entries of `pattern` under `trans`.
pub fn transform_pattern(pattern: &[PatternEntry], trans: Transformation, size: usize) -> (r: Vec<
    PatternEntry,
>)
    requires
        all_defined(pattern@, trans, size as int),
    ensures
        r@.len() == pattern@.len(),
        forall|i: int|
            0 <= i < pattern@.len() ==> ((#[trigger] r@[i]).0 as int, r@[i].1 as int, r@[i].2)
                == entry_image(pattern@[i], trans, size as int),
{
    let mut r: Vec<PatternEntry> = Vec::new();
    let mut i: usize = 0;
    while i < pattern.len()
        invariant
            i <= pattern@.len(),
            r@.len() == i,
            all_defined(pattern@, trans, size as int),
            forall|k: int|
                0 <= k < i ==> ((#[trigger] r@[k]).0 as int, r@[k].1 as int, r@[k].2)
                    == entry_image(pattern@[k], trans, size as int),
        decreases pattern@.len() - i,
    {
        let e = pattern[i];
        let (tx, ty) = trans.apply(e.0, e.1, size);
        r.push((tx, ty, e.2));
        i += 1;
    }
    r
}

} // verus!
