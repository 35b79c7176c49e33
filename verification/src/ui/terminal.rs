//! The line-based interface of a game: one line of input in, one thing to
//! do out.

use vstd::prelude::*;
use crate::engine::board::{ErrorKind, MAX_BOARD_SIZE};
use crate::engine::game::{Game, GameView};
use crate::text::{
    chars_of, is_space, is_space_spec, lowercase_of, lowered, parse_usize, text_is, to_upper,
    to_upper_spec, unsigned_value,
};

verus! {

/// The move that a text names: a column letter of either case other than
/// `I`, then the row counted from 1, given as row and column counted from
/// 0; row 0 stands for row 1.
pub open spec fn move_spec(s: Seq<char>) -> Option<(usize, usize)> {
    if s.len() == 0 {
        None
    } else {
        let col = to_upper_spec(s[0]);
        if !('A' <= col && col <= 'Z') || col == 'I' {
            None
        } else {
            let x = if col > 'I' {
                col as u32 - 66
            } else {
                col as u32 - 65
            };
            match unsigned_value(s.drop_first()) {
                Some(n) => if n <= usize::MAX {
                    Some(
                        (
                            (if n == 0 {
                                0
                            } else {
                                n - 1
                            }) as usize,
                            x as usize,
                        ),
                    )
                } else {
                    None
                },
                None => None,
            }
        }
    }
}

/// Reads a move such as `A1`, as row and column counted from 0.
pub fn parse_move(input: &str) -> (r: Option<(usize, usize)>)
    ensures
        r == move_spec(input@),
{
    parse_move_chars(&chars_of(input))
}

/// Reads a move from its characters.
pub fn parse_move_chars(chars: &Vec<char>) -> (r: Option<(usize, usize)>)
    ensures
        r == move_spec(chars@),
{
    if chars.len() == 0 {
        return None;
    }
    let col_char = to_upper(chars[0]);
    if !(col_char >= 'A' && col_char <= 'Z') || col_char == 'I' {
        return None;
    }
    let mut x: usize = (col_char as u32 - 65) as usize;
    if col_char > 'I' {
        x = x - 1;
    }
    let mut rest: Vec<char> = Vec::new();
    let mut i: usize = 1;
    while i < chars.len()
        invariant
            1 <= i <= chars@.len(),
            rest@ == chars@.subrange(1, i as int),
        decreases chars@.len() - i,
    {
        rest.push(chars[i]);
        i += 1;
        assert(rest@ =~= chars@.subrange(1, i as int));
    }
    assert(rest@ =~= chars@.drop_first());
    match parse_usize(&rest) {
        Some(y) => Some((if y == 0 {
            0
        } else {
            y - 1
        }, x)),
        None => None,
    }
}

/// The number of white-space characters at the start of `s`.
pub open spec fn leading_spaces(s: Seq<char>) -> int
    decreases s.len(),
{
    if s.len() > 0 && is_space_spec(s[0]) {
        1 + leading_spaces(s.drop_first())
    } else {
        0
    }
}

/// The number of white-space characters at the end of `s`.
pub open spec fn trailing_spaces(s: Seq<char>) -> int
    decreases s.len(),
{
    if s.len() > 0 && is_space_spec(s.last()) {
        1 + trailing_spaces(s.drop_last())
    } else {
        0
    }
}

/// The text without the white space at its start and at its end.
pub open spec fn trimmed(s: Seq<char>) -> Seq<char> {
    let from = leading_spaces(s);
    if from >= s.len() {
        Seq::empty()
    } else {
        s.subrange(from, s.len() - trailing_spaces(s))
    }
}

/// The text without the white space at its start and at its end.
pub fn trim(s: &Vec<char>) -> (out: Vec<char>)
    ensures
        out@ == trimmed(s@),
{
    let mut from: usize = 0;
    assert(s@.skip(0) =~= s@);
    while from < s.len() && is_space(s[from])
        invariant
            from <= s@.len(),
            leading_spaces(s@) == from + leading_spaces(s@.skip(from as int)),
        decreases s@.len() - from,
    {
        proof {
            let rest = s@.skip(from as int);
            assert(rest[0] == s@[from as int]);
            assert(rest.drop_first() =~= s@.skip(from as int + 1));
        }
        from += 1;
    }
    proof {
        let rest = s@.skip(from as int);
        if from < s@.len() {
            assert(rest[0] == s@[from as int]);
        }
        assert(leading_spaces(rest) == 0);
        assert(leading_spaces(s@) == from);
    }
    if from >= s.len() {
        return Vec::new();
    }
    let mut to: usize = s.len();
    assert(s@.take(s@.len() as int) =~= s@);
    while to > from && is_space(s[to - 1])
        invariant
            from < s@.len(),
            !is_space_spec(s@[from as int]),
            from < to <= s@.len(),
            leading_spaces(s@) == from,
            trailing_spaces(s@) == (s@.len() - to) + trailing_spaces(s@.take(to as int)),
        decreases to,
    {
        proof {
            let head = s@.take(to as int);
            assert(head.last() == s@[to - 1]);
            assert(head.drop_last() =~= s@.take(to - 1));
        }
        to -= 1;
    }
    proof {
        let head = s@.take(to as int);
        assert(to > from);
        assert(head.last() == s@[to - 1]);
        assert(trailing_spaces(head) == 0);
        assert(trailing_spaces(s@) == s@.len() - to);
    }
    let mut out: Vec<char> = Vec::new();
    let mut i: usize = from;
    while i < to
        invariant
            from <= i <= to <= s@.len(),
            out@ == s@.subrange(from as int, i as int),
            leading_spaces(s@) == from,
            trailing_spaces(s@) == s@.len() - to,
        decreases to - i,
    {
        out.push(s[i]);
        i += 1;
        assert(out@ =~= s@.subrange(from as int, i as int));
    }
    out
}

/// What the interface does after a line of input.
pub enum TerminalAction {
    /// Leave the game.
    Quit,
    /// Draw the board again and ask for the next line.
    Continue,
    /// Show why the command was refused, then go on.
    Rejected(ErrorKind),
    /// Tell the player that the line is no command, then go on.
    Invalid,
}

/// The game after a line of input, and what the interface does next. The
/// line counts without the white space around it and in lower case:
/// `quit`, `pass`, `resign`, or a move such as `a1`, which is played as
/// row and column in the order in which `move_spec` gives them.
pub open spec fn step(g: GameView, input: Seq<char>) -> (GameView, TerminalAction) {
    step_line(g, lowercase_of(trimmed(input)))
}

/// The game after a command, given without white space around it and in
/// lower case, and what the interface does next.
pub open spec fn step_line(g: GameView, line: Seq<char>) -> (GameView, TerminalAction) {
    if line == "quit"@ {
        (g, TerminalAction::Quit)
    } else if line == "pass"@ {
        match g.pass() {
            Ok(next) => (next, TerminalAction::Continue),
            Err(e) => (g, TerminalAction::Rejected(e)),
        }
    } else if line == "resign"@ {
        match g.resign() {
            Ok(next) => (next, TerminalAction::Continue),
            Err(e) => (g, TerminalAction::Rejected(e)),
        }
    } else {
        match move_spec(line) {
            Some(m) => match g.make_move(m.1 as int, m.0 as int) {
                Ok(next) => (next, TerminalAction::Continue),
                Err(e) => (g, TerminalAction::Rejected(e)),
            },
            None => (g, TerminalAction::Invalid),
        }
    }
}

/// A game played over a terminal.
pub struct TerminalUI {
    game: Game,
}

impl TerminalUI {
    /// The game being played.
    pub closed spec fn game_view(&self) -> GameView {
        self.game@
    }

    /// The game can take any command: the counters of prisoners and of
    /// passes have room.
    pub open spec fn ready(&self) -> bool {
        self.game_view().capture_room() && self.game_view().pass_count < u32::MAX
    }

    /// An interface with a new game on a board of the given size.
    pub fn new(size: usize) -> (ui: TerminalUI)
        requires
            1 <= size <= MAX_BOARD_SIZE,
        ensures
            ui.game_view() == GameView::initial(size as nat),
    {
        TerminalUI { game: Game::new(size) }
    }

    /// The game being played.
    pub fn game(&self) -> (g: &Game)
        ensures
            g@ == self.game_view(),
    {
        &self.game
    }

    /// Whether the game can take any command.
    pub fn is_ready(&self) -> (r: bool)
        ensures
            r == self.ready(),
    {
        self.game.has_capture_room() && self.game.pass_count() < u32::MAX
    }

    /// Carries out one line of input.
    pub fn handle_input(&mut self, input: &str) -> (action: TerminalAction)
        requires
            old(self).ready(),
        ensures
            (final(self).game_view(), action) == step(old(self).game_view(), input@),
    {
        let line = lowered(&trim(&chars_of(input)));
        self.handle_line(&line)
    }

    /// Carries out one command, given without white space around it and in
    /// lower case.
    pub fn handle_line(&mut self, line: &Vec<char>) -> (action: TerminalAction)
        requires
            old(self).ready(),
        ensures
            (final(self).game_view(), action) == step_line(old(self).game_view(), line@),
    {
        if text_is(line, "quit") {
            TerminalAction::Quit
        } else if text_is(line, "pass") {
            match self.game.pass() {
                Ok(()) => TerminalAction::Continue,
                Err(e) => TerminalAction::Rejected(e),
            }
        } else if text_is(line, "resign") {
            match self.game.resign() {
                Ok(()) => TerminalAction::Continue,
                Err(e) => TerminalAction::Rejected(e),
            }
        } else {
            match parse_move_chars(line) {
                Some(m) => match self.game.make_move(m.1, m.0) {
                    Ok(()) => TerminalAction::Continue,
                    Err(e) => TerminalAction::Rejected(e),
                },
                None => TerminalAction::Invalid,
            }
        }
    }
}

} // verus!
