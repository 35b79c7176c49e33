//! What the rules guarantee, stated over the model and proved.

use vstd::prelude::*;
use crate::engine::board::{ErrorKind, Stone};
use crate::engine::chains::{lemma_points_bound, lemma_single_member};
use crate::engine::game::GameView;
use crate::engine::rules::GameRules;
use crate::engine::state::{BoardState, Point};

verus! {

/// A new board is empty everywhere, of a valid shape, with no prisoners
/// and no ko point.
pub proof fn lemma_new_board_is_empty(size: nat, p: Point)
    requires
        1 <= size <= crate::engine::board::MAX_BOARD_SIZE,
    ensures
        BoardState::empty(size).wf(),
        BoardState::empty(size).stone_at(p) == Stone::Empty,
        BoardState::empty(size).ko_point is None,
        BoardState::empty(size).captured_black == 0,
        BoardState::empty(size).captured_white == 0,
{
}

/// What an accepted placement leaves on the board under rules that refuse
/// suicide: the played stone on its point, an empty point where a stone was
/// captured, and every other point as it was.
pub proof fn lemma_place_effect(b: BoardState, p: Point, s: Stone, rules: GameRules, q: Point)
    requires
        b.wf(),
        !rules.allow_suicide,
        b.place(p, s, rules) is Ok,
    ensures
        ({
            let next = b.place(p, s, rules)->Ok_0;
            let dead = b.with_stone(p, s).doomed(p, s);
            next.stone_at(q) == if dead.contains(q) {
                Stone::Empty
            } else if q == p {
                s
            } else {
                b.stone_at(q)
            }
        }),
{
    let placed = b.with_stone(p, s);
    let dead = placed.doomed(p, s);
    let after = placed.without(dead);
    let next = b.place(p, s, rules)->Ok_0;
    assert(next.rows == after.rows);
    assert(next.size == b.size);
    if b.on_board(q) {
        assert(after.rows[q.1][q.0] == if dead.contains(q) {
            Stone::Empty
        } else {
            placed.rows[q.1][q.0]
        });
        if dead.contains(p) {
            assert(placed.stone_at(p) == s);
        }
    }
}

/// Capturing exactly one stone sets the ko point to the point it stood on;
/// capturing none, or two or more, clears it.
pub proof fn lemma_ko_follows_capture(b: BoardState, p: Point, s: Stone, rules: GameRules)
    requires
        b.wf(),
        b.place(p, s, rules) is Ok,
    ensures
        ({
            let next = b.place(p, s, rules)->Ok_0;
            let dead = b.with_stone(p, s).doomed(p, s);
            &&& dead.finite()
            &&& dead.len() == 1 ==> forall|k: Point| dead.contains(k) ==> next.ko_point == Some(k)
            &&& dead.len() != 1 ==> next.ko_point is None
        }),
{
    let dead = b.with_stone(p, s).doomed(p, s);
    lemma_points_bound(dead, b.size);
    if dead.len() == 1 {
        assert forall|k: Point| dead.contains(k) implies dead.choose() == k by {
            lemma_single_member(dead, k);
        }
    }
}

/// A ko point that an accepted placement leaves behind is an empty point
/// of the board, where a stone of the other colour was just captured.
pub proof fn lemma_ko_point_is_empty(b: BoardState, p: Point, s: Stone, rules: GameRules)
    requires
        b.wf(),
        b.place(p, s, rules) is Ok,
        b.place(p, s, rules)->Ok_0.ko_point is Some,
    ensures
        ({
            let next = b.place(p, s, rules)->Ok_0;
            let k = next.ko_point->0;
            &&& next.on_board(k)
            &&& next.stone_at(k) == Stone::Empty
            &&& b.stone_at(k) == s.opponent_spec()
            &&& k != p
        }),
{
    let placed = b.with_stone(p, s);
    let dead = placed.doomed(p, s);
    lemma_points_bound(dead, b.size);
    assert(dead.contains(dead.choose()));
}

/// Right after an accepted placement that left a ko point, a play on that
/// point by either colour is refused as a ko violation, and the board stays
/// as it is.
pub proof fn lemma_ko_blocks_replay(
    b: BoardState,
    p: Point,
    s: Stone,
    rules: GameRules,
    replay: Stone,
)
    requires
        b.wf(),
        rules.ko_active(),
        b.place(p, s, rules) is Ok,
        b.place(p, s, rules)->Ok_0.ko_point is Some,
    ensures
        ({
            let next = b.place(p, s, rules)->Ok_0;
            next.place(next.ko_point->0, replay, rules) == Err::<BoardState, ErrorKind>(
                ErrorKind::KoViolation,
            )
        }),
{
    lemma_ko_point_is_empty(b, p, s, rules);
}

/// Once another placement has been accepted, by either colour, the former
/// ko point is no longer the ko point, and a play on it is not refused as a
/// ko violation.
pub proof fn lemma_ko_lapses(
    b: BoardState,
    p: Point,
    s: Stone,
    q: Point,
    t: Stone,
    rules: GameRules,
    replay: Stone,
)
    requires
        b.wf(),
        b.place(p, s, rules) is Ok,
        b.place(p, s, rules)->Ok_0.ko_point is Some,
        b.place(p, s, rules)->Ok_0.place(q, t, rules) is Ok,
    ensures
        ({
            let first = b.place(p, s, rules)->Ok_0;
            let k = first.ko_point->0;
            let second = first.place(q, t, rules)->Ok_0;
            &&& second.ko_point != Some(k)
            &&& second.place(k, replay, rules) != Err::<BoardState, ErrorKind>(
                ErrorKind::KoViolation,
            )
        }),
{
    let first = b.place(p, s, rules)->Ok_0;
    let k = first.ko_point->0;
    lemma_ko_point_is_empty(b, p, s, rules);
    b.lemma_place_shape(p, s, rules);
    lemma_ko_moves_on(first, q, t, rules, k);
}

/// The ko point left by an accepted placement is never a point that was
/// empty before it.
pub proof fn lemma_ko_moves_on(b: BoardState, p: Point, s: Stone, rules: GameRules, k: Point)
    requires
        b.wf(),
        b.stone_at(k) == Stone::Empty,
        b.place(p, s, rules) is Ok,
    ensures
        b.place(p, s, rules)->Ok_0.ko_point != Some(k),
{
    if b.place(p, s, rules)->Ok_0.ko_point is Some {
        lemma_ko_point_is_empty(b, p, s, rules);
    }
}

/// An accepted pass lifts the ko restriction: no play on the board that
/// follows is refused as a ko violation.
pub proof fn lemma_pass_clears_ko(g: GameView, p: Point, s: Stone, rules: GameRules)
    requires
        g.pass() is Ok,
    ensures
        g.pass()->Ok_0.board.ko_point is None,
        g.pass()->Ok_0.board.place(p, s, rules) != Err::<BoardState, ErrorKind>(
            ErrorKind::KoViolation,
        ),
{
}

/// The prisoners of either colour never become fewer by an accepted
/// placement, and a refused placement leaves the position as it is.
pub proof fn lemma_prisoners_never_decrease(b: BoardState, p: Point, s: Stone, rules: GameRules)
    requires
        b.wf(),
    ensures
        match b.place(p, s, rules) {
            Ok(next) => next.wf() && next.size == b.size && b.captured_black
                <= next.captured_black && b.captured_white <= next.captured_white,
            Err(_) => true,
        },
{
    b.lemma_place_shape(p, s, rules);
}

/// A play that captures nothing and leaves its own group without a liberty
/// is refused as suicide under rules that do not allow it.
pub proof fn lemma_suicide_refused(b: BoardState, p: Point, s: Stone, rules: GameRules)
    requires
        b.wf(),
        !rules.allow_suicide,
        b.on_board(p),
        b.stone_at(p) == Stone::Empty,
        s != Stone::Empty,
        !(rules.ko_active() && b.ko_point == Some(p)),
        b.with_stone(p, s).doomed(p, s).len() == 0,
        b.with_stone(p, s).liberties(b.with_stone(p, s).group_at(p)).len() == 0,
    ensures
        b.place(p, s, rules) == Err::<BoardState, ErrorKind>(ErrorKind::Suicide),
{
    let placed = b.with_stone(p, s);
    let dead = placed.doomed(p, s);
    lemma_points_bound(dead, b.size);
    dead.lemma_len0_is_empty();
    let after = placed.without(dead);
    assert forall|y: int| 0 <= y < b.size implies #[trigger] after.rows[y] =~= placed.rows[y] by {}
    assert(after.rows =~= placed.rows);
    assert(after == placed);
}

/// Two games agree on what undo keeps: the board, the turn, the prisoners
/// and the recorded moves.
pub open spec fn same_position(a: GameView, b: GameView) -> bool {
    &&& a.board == b.board
    &&& a.black_to_move == b.black_to_move
    &&& a.captured_black == b.captured_black
    &&& a.captured_white == b.captured_white
    &&& a.history == b.history
}

/// Every move of `moves`, played in turn from `g`, is accepted.
pub open spec fn all_accepted(g: GameView, moves: Seq<(int, int)>) -> bool
    decreases moves.len(),
{
    moves.len() == 0 || match g.make_move(moves[0].0, moves[0].1) {
        Ok(next) => all_accepted(next, moves.drop_first()),
        Err(_) => false,
    }
}

/// The game after the moves of `moves`, skipping any that is refused.
pub open spec fn after_moves(g: GameView, moves: Seq<(int, int)>) -> GameView
    decreases moves.len(),
{
    if moves.len() == 0 {
        g
    } else {
        match g.make_move(moves[0].0, moves[0].1) {
            Ok(next) => after_moves(next, moves.drop_first()),
            Err(_) => after_moves(g, moves.drop_first()),
        }
    }
}

/// The game after `n` undos, if that many moves are recorded.
pub open spec fn after_undos(g: GameView, n: nat) -> Option<GameView>
    decreases n,
{
    if n == 0 {
        Some(g)
    } else {
        match after_undos(g, (n - 1) as nat) {
            Some(mid) => mid.undo(),
            None => None,
        }
    }
}

/// An accepted move records exactly one snapshot, and undoing it brings
/// back the board, the turn, the prisoners and the earlier history.
pub proof fn lemma_undo_restores(g: GameView, row: int, col: int)
    requires
        g.make_move(row, col) is Ok,
    ensures
        ({
            let next = g.make_move(row, col)->Ok_0;
            &&& next.history.len() == g.history.len() + 1
            &&& next.undo() matches Some(prev) && same_position(prev, g)
        }),
{
    let next = g.make_move(row, col)->Ok_0;
    assert(next.history.drop_last() =~= g.history);
}

/// A refused move records nothing: the game is unchanged.
pub proof fn lemma_refused_move_records_nothing(g: GameView, row: int, col: int)
    ensures
        g.make_move(row, col) is Err ==> after_moves(g, seq![(row, col)]) == g,
{
    let moves = seq![(row, col)];
    assert(moves.drop_first().len() == 0);
    reveal_with_fuel(after_moves, 2);
}

/// After any number of accepted moves, as many undos bring back the board,
/// the turn, the prisoners and the history the game started from.
pub proof fn lemma_undo_all(g: GameView, moves: Seq<(int, int)>)
    requires
        all_accepted(g, moves),
    ensures
        after_moves(g, moves).history.len() == g.history.len() + moves.len(),
        after_undos(after_moves(g, moves), moves.len()) matches Some(back) && same_position(
            back,
            g,
        ),
    decreases moves.len(),
{
    if moves.len() > 0 {
        let next = g.make_move(moves[0].0, moves[0].1)->Ok_0;
        lemma_undo_all(next, moves.drop_first());
        lemma_undo_restores(g, moves[0].0, moves[0].1);
        let mid = after_undos(after_moves(g, moves), (moves.len() - 1) as nat)->0;
        assert(same_position(mid, next));
        assert(mid.history.drop_last() =~= g.history);
    }
}

/// From a new game: after any number of accepted moves and as many undos
/// the board is empty again and no move is recorded, and one more undo
/// finds nothing to take back.
pub proof fn lemma_undo_to_start(size: nat, moves: Seq<(int, int)>)
    requires
        all_accepted(GameView::initial(size), moves),
    ensures
        ({
            let end = after_moves(GameView::initial(size), moves);
            &&& after_undos(end, moves.len()) matches Some(back) && back.board
                == BoardState::empty(size) && back.history.len() == 0 && back.undo() is None
        }),
{
    lemma_undo_all(GameView::initial(size), moves);
}

/// An accepted pass records exactly one snapshot, and undoing it brings
/// back the board with its ko point, the turn, the prisoners and the
/// earlier history.
pub proof fn lemma_undo_restores_pass(g: GameView)
    requires
        g.pass() is Ok,
    ensures
        ({
            let next = g.pass()->Ok_0;
            &&& next.history.len() == g.history.len() + 1
            &&& next.history.last() == g.snapshot()
            &&& next.undo() matches Some(prev) && same_position(prev, g)
        }),
{
    let next = g.pass()->Ok_0;
    assert(next.history.drop_last() =~= g.history);
}

/// A refused pass records nothing: it is refused exactly when the game is
/// over.
pub proof fn lemma_refused_pass(g: GameView)
    ensures
        g.pass() is Err <==> g.status != crate::engine::game::GameStatus::InProgress,
        g.pass() is Err ==> g.pass() == Err::<GameView, ErrorKind>(ErrorKind::GameAlreadyOver),
{
}

/// What a player does on a turn: play on a row and column, or pass.
pub enum Turn {
    Play(int, int),
    Pass,
}

/// The game after a turn, or the reason why the turn is refused.
pub open spec fn take(g: GameView, turn: Turn) -> Result<GameView, ErrorKind> {
    match turn {
        Turn::Play(row, col) => g.make_move(row, col),
        Turn::Pass => g.pass(),
    }
}

/// Every turn of `turns`, taken in order from `g`, is accepted.
pub open spec fn all_taken(g: GameView, turns: Seq<Turn>) -> bool
    decreases turns.len(),
{
    turns.len() == 0 || match take(g, turns[0]) {
        Ok(next) => all_taken(next, turns.drop_first()),
        Err(_) => false,
    }
}

/// The game after the turns of `turns`, skipping any that is refused.
pub open spec fn after_turns(g: GameView, turns: Seq<Turn>) -> GameView
    decreases turns.len(),
{
    if turns.len() == 0 {
        g
    } else {
        match take(g, turns[0]) {
            Ok(next) => after_turns(next, turns.drop_first()),
            Err(_) => after_turns(g, turns.drop_first()),
        }
    }
}

/// The history holds one snapshot for each accepted move or pass: after
/// any number of accepted turns it is longer by that number, and as many
/// undos bring back the board, the turn, the prisoners and the history the
/// game started from.
pub proof fn lemma_undo_all_turns(g: GameView, turns: Seq<Turn>)
    requires
        all_taken(g, turns),
    ensures
        after_turns(g, turns).history.len() == g.history.len() + turns.len(),
        after_undos(after_turns(g, turns), turns.len()) matches Some(back) && same_position(
            back,
            g,
        ),
    decreases turns.len(),
{
    if turns.len() > 0 {
        let next = take(g, turns[0])->Ok_0;
        lemma_undo_all_turns(next, turns.drop_first());
        match turns[0] {
            Turn::Play(row, col) => {
                lemma_undo_restores(g, row, col);
            },
            Turn::Pass => {
                lemma_undo_restores_pass(g);
            },
        }
        let mid = after_undos(after_turns(g, turns), (turns.len() - 1) as nat)->0;
        assert(same_position(mid, next));
        assert(mid.history.drop_last() =~= g.history);
    }
}

/// A refused turn leaves the game as it is, and so records nothing.
pub proof fn lemma_refused_turn_records_nothing(g: GameView, turn: Turn)
    ensures
        take(g, turn) is Err ==> after_turns(g, seq![turn]) == g,
{
    let turns = seq![turn];
    assert(turns.drop_first().len() == 0);
    reveal_with_fuel(after_turns, 2);
}

} // verus!
