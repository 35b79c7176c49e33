//! A game in progress: whose turn it is, passes, resignation, the undo
//! history and the final result.

use vstd::prelude::*;
use crate::engine::board::{Board, ErrorKind, Stone};
use crate::engine::rules::GameRules;
use crate::engine::state::BoardState;

verus! {

/// Where a game stands.
#[derive(Debug, Clone, Copy, PartialEq, Eq, Structural)]
pub enum GameStatus {
    /// Moves are being played.
    InProgress,
    /// Both players passed in a row; the result has been counted.
    Ended,
    /// A player resigned.
    Resigned,
}

impl GameStatus {
    pub open spec fn describe_spec(self) -> Seq<char> {
        match self {
            GameStatus::InProgress => "In Progress"@,
            GameStatus::Ended => "Ended by agreement"@,
            GameStatus::Resigned => "Resigned"@,
        }
    }

    /// A few words for the user.
    pub fn describe(&self) -> (r: &'static str)
        ensures
            r@ == self.describe_spec(),
    {
        match self {
            GameStatus::InProgress => "In Progress",
            GameStatus::Ended => "Ended by agreement",
            GameStatus::Resigned => "Resigned",
        }
    }
}

/// The model of a snapshot: what undo brings back.
pub struct SnapshotView {
    pub board: BoardState,
    pub black_to_move: bool,
    pub captured_black: nat,
    pub captured_white: nat,
}

/// The model of a game.
pub struct GameView {
    pub board: BoardState,
    pub black_to_move: bool,
    /// One snapshot for each accepted move or pass not yet undone, oldest
    /// first.
    pub history: Seq<SnapshotView>,
    pub captured_black: nat,
    pub captured_white: nat,
    /// Passes in a row since the last accepted move.
    pub pass_count: nat,
    pub status: GameStatus,
    pub winner: Option<Stone>,
}

impl GameView {
    /// A new game on an empty board of the given size; Black moves first.
    pub open spec fn initial(size: nat) -> GameView {
        GameView {
            board: BoardState::empty(size),
            black_to_move: true,
            history: Seq::empty(),
            captured_black: 0,
            captured_white: 0,
            pass_count: 0,
            status: GameStatus::InProgress,
            winner: None,
        }
    }

    /// The colour whose turn it is.
    pub open spec fn to_move(self) -> Stone {
        if self.black_to_move {
            Stone::Black
        } else {
            Stone::White
        }
    }

    /// What is kept for undo before a move is tried.
    pub open spec fn snapshot(self) -> SnapshotView {
        SnapshotView {
            board: self.board,
            black_to_move: self.black_to_move,
            captured_black: self.captured_black,
            captured_white: self.captured_white,
        }
    }

    /// The prisoners recorded for `color`.
    pub open spec fn captured(self, color: Stone) -> nat {
        match color {
            Stone::Black => self.captured_black,
            Stone::White => self.captured_white,
            Stone::Empty => 0,
        }
    }

    /// Area score: stones on the board plus prisoners taken.
    pub open spec fn score(self, color: Stone) -> nat {
        self.board.stones(color).len() + self.captured(color)
    }

    /// The colour with the higher score, none on a tie.
    pub open spec fn leader(self) -> Option<Stone> {
        if self.score(Stone::Black) > self.score(Stone::White) {
            Some(Stone::Black)
        } else if self.score(Stone::White) > self.score(Stone::Black) {
            Some(Stone::White)
        } else {
            None
        }
    }

    /// The player to move plays on `(row, col)` under the standard rules.
    /// An accepted move is recorded for undo, ends any run of passes and
    /// hands the turn over; a refused one changes nothing.
    pub open spec fn make_move(self, row: int, col: int) -> Result<GameView, ErrorKind> {
        if self.status != GameStatus::InProgress {
            Err(ErrorKind::GameAlreadyOver)
        } else {
            match self.board.place((row, col), self.to_move(), GameRules::standard()) {
                Ok(next) => Ok(
                    GameView {
                        board: next,
                        black_to_move: !self.black_to_move,
                        history: self.history.push(self.snapshot()),
                        captured_black: next.captured_black,
                        captured_white: next.captured_white,
                        pass_count: 0,
                        ..self
                    },
                ),
                Err(e) => Err(e),
            }
        }
    }

    /// The player to move passes. An accepted pass is recorded for undo,
    /// the ko point lapses, the turn is handed over, and the second pass
    /// in a row ends the game and names the leader as winner; a refused
    /// pass changes nothing.
    pub open spec fn pass(self) -> Result<GameView, ErrorKind> {
        if self.status != GameStatus::InProgress {
            Err(ErrorKind::GameAlreadyOver)
        } else {
            let passed = GameView {
                board: self.board.with_ko(None),
                black_to_move: !self.black_to_move,
                history: self.history.push(self.snapshot()),
                pass_count: self.pass_count + 1,
                ..self
            };
            if passed.pass_count >= 2 {
                Ok(GameView { status: GameStatus::Ended, winner: passed.leader(), ..passed })
            } else {
                Ok(passed)
            }
        }
    }

    /// The player to move resigns; the other colour wins.
    pub open spec fn resign(self) -> Result<GameView, ErrorKind> {
        if self.status != GameStatus::InProgress {
            Err(ErrorKind::GameAlreadyOver)
        } else {
            Ok(
                GameView {
                    status: GameStatus::Resigned,
                    winner: Some(self.to_move().opponent_spec()),
                    ..self
                },
            )
        }
    }

    /// The last recorded move or pass is taken back: board, turn and
    /// prisoners are as before it. Nothing when none is recorded.
    pub open spec fn undo(self) -> Option<GameView> {
        if self.history.len() == 0 {
            None
        } else {
            let snap = self.history.last();
            Some(
                GameView {
                    board: snap.board,
                    black_to_move: snap.black_to_move,
                    captured_black: snap.captured_black,
                    captured_white: snap.captured_white,
                    history: self.history.drop_last(),
                    ..self
                },
            )
        }
    }

    /// The prisoners of either colour, with a whole board more, fit the
    /// game's counters.
    pub open spec fn capture_room(self) -> bool {
        &&& self.board.captured_black + self.board.size * self.board.size <= u32::MAX
        &&& self.board.captured_white + self.board.size * self.board.size <= u32::MAX
    }
}

/// What is kept of a game for undo.
#[derive(Debug)]
pub struct GameState {
    pub board: Board,
    pub current_player: bool,
    pub captured_stones: [u32; 2],
}

impl View for GameState {
    type V = SnapshotView;

    open spec fn view(&self) -> SnapshotView {
        SnapshotView {
            board: self.board@,
            black_to_move: self.current_player,
            captured_black: self.captured_stones[0] as nat,
            captured_white: self.captured_stones[1] as nat,
        }
    }
}

impl Clone for GameState {
    fn clone(&self) -> (s: GameState)
        ensures
            s@ == self@,
    {
        GameState {
            board: self.board.clone(),
            current_player: self.current_player,
            captured_stones: self.captured_stones,
        }
    }
}

/// The models of a list of snapshots.
pub open spec fn snapshots_view(v: Seq<GameState>) -> Seq<SnapshotView> {
    Seq::new(v.len(), |i: int| v[i]@)
}

/// A game of Go.
#[derive(Debug)]
pub struct Game {
    /// The position.
    pub board: Board,
    /// Whether Black is to move.
    pub current_player: bool,
    /// One snapshot for each accepted move or pass, oldest first.
    pub history: Vec<GameState>,
    /// Prisoners taken, Black's first and White's second.
    pub captured_stones: [u32; 2],
    pass_count: u32,
    status: GameStatus,
    winner: Option<Stone>,
}

impl View for Game {
    type V = GameView;

    closed spec fn view(&self) -> GameView {
        GameView {
            board: self.board@,
            black_to_move: self.current_player,
            history: Seq::new(self.history@.len(), |i: int| self.history@[i]@),
            captured_black: self.captured_stones[0] as nat,
            captured_white: self.captured_stones[1] as nat,
            pass_count: self.pass_count as nat,
            status: self.status,
            winner: self.winner,
        }
    }
}

impl Clone for Game {
    fn clone(&self) -> (g: Game)
        ensures
            g@ == self@,
    {
        let mut history: Vec<GameState> = Vec::new();
        let mut i: usize = 0;
        while i < self.history.len()
            invariant
                i <= self.history@.len(),
                history@.len() == i,
                forall|k: int| 0 <= k < i ==> (#[trigger] history@[k])@ == self.history@[k]@,
            decreases self.history@.len() - i,
        {
            history.push(self.history[i].clone());
            i += 1;
        }
        let g = Game {
            board: self.board.clone(),
            current_player: self.current_player,
            history,
            captured_stones: self.captured_stones,
            pass_count: self.pass_count,
            status: self.status,
            winner: self.winner,
        };
        assert(g@.history =~= self@.history);
        g
    }
}

impl Game {
    /// A new game on an empty board; Black moves first.
    pub fn new(size: usize) -> (g: Game)
        requires
            1 <= size <= crate::engine::board::MAX_BOARD_SIZE,
        ensures
            g@ == GameView::initial(size as nat),
            g@.capture_room(),
    {
        proof {
            assert(size * size <= 625) by (nonlinear_arith)
                requires
                    size <= 25,
            ;
        }
        let g = Game {
            board: Board::new(size),
            current_player: true,
            history: Vec::new(),
            captured_stones: [0, 0],
            pass_count: 0,
            status: GameStatus::InProgress,
            winner: None,
        };
        assert(g@.history =~= Seq::empty());
        g
    }

    /// The player to move plays on `(row, col)`.
    pub fn make_move(&mut self, row: usize, col: usize) -> (r: Result<(), ErrorKind>)
        requires
            old(self)@.capture_room(),
        ensures
            match old(self)@.make_move(row as int, col as int) {
                Ok(next) => r is Ok && final(self)@ == next,
                Err(e) => r == Err::<(), ErrorKind>(e) && final(self)@ == old(self)@,
            },
    {
        if self.status != GameStatus::InProgress {
            return Err(ErrorKind::GameAlreadyOver);
        }
        let ghost before = self@;
        proof {
            use_type_invariant(&self.board);
            self.board.lemma_inv_wf();
            before.board.lemma_place_shape(
                (row as int, col as int),
                before.to_move(),
                GameRules::standard(),
            );
        }
        self.history.push(
            GameState {
                board: self.board.clone(),
                current_player: self.current_player,
                captured_stones: self.captured_stones,
            },
        );
        let stone = if self.current_player {
            Stone::Black
        } else {
            Stone::White
        };
        match self.board.place_stone(row, col, stone) {
            Ok(()) => {
                self.update_captured_stones();
                self.reset_pass_count();
                self.current_player = !self.current_player;
                proof {
                    assert(self@.history =~= before.history.push(before.snapshot()));
                }
                Ok(())
            },
            Err(e) => {
                self.history.pop();
                proof {
                    assert(self@.history =~= before.history);
                }
                Err(e)
            },
        }
    }

    /// Takes back the last recorded move or pass; `None` when there is none.
    pub fn undo_move(&mut self) -> (r: Option<()>)
        ensures
            match old(self)@.undo() {
                Some(prev) => r is Some && final(self)@ == prev,
                None => r is None && final(self)@ == old(self)@,
            },
    {
        let ghost before = self@;
        match self.history.pop() {
            Some(last_state) => {
                self.board = last_state.board;
                self.current_player = last_state.current_player;
                self.captured_stones = last_state.captured_stones;
                proof {
                    assert(self@.history =~= before.history.drop_last());
                }
                Some(())
            },
            None => {
                proof {
                    assert(self@.history =~= before.history);
                }
                None
            },
        }
    }

    /// The position.
    pub fn board(&self) -> (b: &Board)
        ensures
            b@ == self@.board,
    {
        &self.board
    }

    /// Whether the prisoners of either colour, with a whole board more,
    /// fit the game's counters: what `make_move` asks for.
    pub fn has_capture_room(&self) -> (r: bool)
        ensures
            r == self@.capture_room(),
    {
        let size = self.board.size();
        let c = self.board.get_captured();
        proof {
            assert(size * size <= 625) by (nonlinear_arith)
                requires
                    size <= 25,
            ;
        }
        let area = size * size;
        c[0] <= 0xffff_ffff - area && c[1] <= 0xffff_ffff - area
    }

    /// The colour whose turn it is.
    pub fn current_player(&self) -> (s: Stone)
        ensures
            s == self@.to_move(),
    {
        if self.current_player {
            Stone::Black
        } else {
            Stone::White
        }
    }

    /// The prisoners recorded for `color`; none for `Empty`.
    pub fn captured(&self, color: Stone) -> (n: u32)
        ensures
            n == self@.captured(color),
    {
        match color {
            Stone::Black => self.captured_stones[0],
            Stone::White => self.captured_stones[1],
            _ => 0,
        }
    }

    /// The player to move passes.
    pub fn pass(&mut self) -> (r: Result<(), ErrorKind>)
        requires
            old(self)@.pass_count < u32::MAX,
        ensures
            match old(self)@.pass() {
                Ok(next) => r is Ok && final(self)@ == next,
                Err(e) => r == Err::<(), ErrorKind>(e) && final(self)@ == old(self)@,
            },
    {
        if self.status != GameStatus::InProgress {
            return Err(ErrorKind::GameAlreadyOver);
        }
        let ghost before = self@;
        self.history.push(
            GameState {
                board: self.board.clone(),
                current_player: self.current_player,
                captured_stones: self.captured_stones,
            },
        );
        self.board.clear_ko_point();
        self.pass_count += 1;
        self.current_player = !self.current_player;
        proof {
            assert(self@.history =~= before.history.push(before.snapshot()));
        }
        if self.pass_count >= 2 {
            self.status = GameStatus::Ended;
            self.determine_winner();
        }
        Ok(())
    }

    /// The player to move resigns.
    pub fn resign(&mut self) -> (r: Result<(), ErrorKind>)
        ensures
            match old(self)@.resign() {
                Ok(next) => r is Ok && final(self)@ == next,
                Err(e) => r == Err::<(), ErrorKind>(e) && final(self)@ == old(self)@,
            },
    {
        if self.status != GameStatus::InProgress {
            return Err(ErrorKind::GameAlreadyOver);
        }
        let ghost before = self@;
        self.status = GameStatus::Resigned;
        self.winner = Some(self.current_player().opponent());
        proof {
            assert(self@.history =~= before.history);
        }
        Ok(())
    }

    /// Whether the game has ended, by passes or by resignation.
    pub fn is_game_over(&self) -> (b: bool)
        ensures
            b == (self@.status != GameStatus::InProgress),
    {
        self.status != GameStatus::InProgress
    }

    /// Where the game stands.
    pub fn status(&self) -> (s: GameStatus)
        ensures
            s == self@.status,
    {
        self.status
    }

    /// The winner, once there is one; none while playing and on a tie.
    pub fn winner(&self) -> (w: Option<Stone>)
        ensures
            w == self@.winner,
    {
        self.winner
    }

    /// Passes in a row since the last accepted move.
    pub fn pass_count(&self) -> (n: u32)
        ensures
            n == self@.pass_count,
    {
        self.pass_count
    }

    /// The area score of `color`: its stones on the board plus its
    /// prisoners.
    pub fn score(&self, color: Stone) -> (n: u64)
        ensures
            n == self@.score(color),
    {
        let size = self.board.size();
        let stones = self.board.stones_on_board(color);
        let prisoners = self.captured(color);
        proof {
            assert(size * size <= 625) by (nonlinear_arith)
                requires
                    size <= 25,
            ;
        }
        stones as u64 + prisoners as u64
    }

    /// Names the leader as winner.
    fn determine_winner(&mut self)
        ensures
            final(self)@ == (GameView { winner: old(self)@.leader(), ..old(self)@ }),
    {
        let ghost before = self@;
        let black_score = self.score(Stone::Black);
        let white_score = self.score(Stone::White);
        if black_score > white_score {
            self.winner = Some(Stone::Black);
        } else if white_score > black_score {
            self.winner = Some(Stone::White);
        } else {
            self.winner = None;
        }
        proof {
            assert(self@.history =~= before.history);
        }
    }

    /// Ends the run of passes.
    fn reset_pass_count(&mut self)
        ensures
            final(self)@ == (GameView { pass_count: 0, ..old(self)@ }),
    {
        let ghost before = self@;
        self.pass_count = 0;
        proof {
            assert(self@.history =~= before.history);
        }
    }

    /// Copies the board's prisoner counts into the game's.
    fn update_captured_stones(&mut self)
        requires
            old(self)@.board.captured_black <= u32::MAX,
            old(self)@.board.captured_white <= u32::MAX,
        ensures
            final(self)@ == (GameView {
                captured_black: old(self)@.board.captured_black,
                captured_white: old(self)@.board.captured_white,
                ..old(self)@
            }),
    {
        let ghost before = self@;
        let c = self.board.get_captured();
        self.captured_stones[0] = c[0] as u32;
        self.captured_stones[1] = c[1] as u32;
        proof {
            assert(self@.history =~= before.history);
        }
    }
}

} // verus!
