//! The Go Text Protocol: one command line in, one response out.
//!
//! The handler answers every command it can answer from the game alone.
//! For the commands that need the komi or a file, it hands back what is
//! asked for, and the caller completes the response with
//! `format_response`.

use vstd::prelude::*;
use crate::engine::board::{
    liberty_list, point_of, points_of, stone_list, Board, ErrorKind, Stone, MAX_BOARD_SIZE,
};
use crate::engine::eye::{eye_at, EyeAnalyzer, EyeData};
use crate::engine::game::{Game, GameStatus, GameView};
use crate::engine::rules::GameRules;
use crate::engine::state::{BoardState, Point};
use crate::sgf::{apply_spec, record_text, tree_spec, SGFHandler};
use crate::text::{
    chars_of, decimal_spec, joined, lowercase_of, lowered, parse_u32, parse_usize, push_all,
    push_decimal, push_str, split_words, string_of, text_is, texts, to_upper, to_upper_spec,
    unsigned_value, words,
};

verus! {

/// The letter of column `x`: `A` to `Z` without `I`.
pub open spec fn column_letter(x: int) -> char {
    if x < 8 {
        ((65 + x) as u8) as char
    } else {
        ((66 + x) as u8) as char
    }
}

/// The vertex `(x, y)` in protocol notation: the column letter and the row
/// counted from 1.
pub open spec fn format_move_spec(x: int, y: int) -> Seq<char> {
    seq![column_letter(x)] + decimal_spec((y + 1) as nat)
}

/// Appends the vertex `(x, y)` in protocol notation.
pub fn push_move(out: &mut Vec<char>, x: usize, y: usize)
    requires
        x < MAX_BOARD_SIZE,
        y < usize::MAX,
    ensures
        final(out)@ == old(out)@ + format_move_spec(x as int, y as int),
{
    let col_char = if x < 8 {
        (65u8 + x as u8) as char
    } else {
        (65u8 + x as u8 + 1) as char
    };
    out.push(col_char);
    push_decimal(out, y + 1);
    assert(out@ =~= old(out)@ + format_move_spec(x as int, y as int));
}

/// The vertex `(x, y)` in protocol notation, such as `D4`.
pub fn format_move(x: usize, y: usize) -> (s: String)
    requires
        x < MAX_BOARD_SIZE,
        y < usize::MAX,
    ensures
        s@ == format_move_spec(x as int, y as int),
{
    let mut out: Vec<char> = Vec::new();
    push_move(&mut out, x, y);
    assert(out@ =~= format_move_spec(x as int, y as int));
    string_of(&out)
}

/// The vertex that a text names on a board of side `board_size`: a column
/// letter of either case other than `I`, then the row counted from 1;
/// nothing for any other text or a vertex off the board.
pub open spec fn gtp_move_spec(s: Seq<char>, board_size: nat) -> Option<(usize, usize)> {
    if s.len() < 2 {
        None
    } else {
        let col = to_upper_spec(s[0]);
        if !('A' <= col && col <= 'Z') || col == 'I' {
            None
        } else {
            let x = if col > 'I' {
                col as u32 - 66
            } else {
                col as u32 - 65
            };
            match unsigned_value(s.drop_first()) {
                Some(n) => if 0 < n <= board_size && x < board_size {
                    Some((x as usize, (n - 1) as usize))
                } else {
                    None
                },
                None => None,
            }
        }
    }
}

/// Reads a vertex in protocol notation, such as `D4`.
pub fn parse_gtp_move(move_str: &str, board_size: usize) -> (r: Option<(usize, usize)>)
    ensures
        r == gtp_move_spec(move_str@, board_size as nat),
{
    let chars = chars_of(move_str);
    parse_vertex(&chars, board_size)
}

/// Reads a vertex in protocol notation from its characters.
pub fn parse_vertex(chars: &Vec<char>, board_size: usize) -> (r: Option<(usize, usize)>)
    ensures
        r == gtp_move_spec(chars@, board_size as nat),
{
    if chars.len() < 2 {
        return None;
    }
    let col_char = to_upper(chars[0]);
    if !(col_char >= 'A' && col_char <= 'Z') || col_char == 'I' {
        return None;
    }
    let mut x: usize = (col_char as u32 - 65) as usize;
    if col_char > 'I' {
        x -= 1;
    }
    let mut rest: Vec<char> = Vec::new();
    let mut i: usize = 1;
    while i < chars.len()
        invariant
            1 <= i <= chars@.len(),
            rest@ == chars@.subrange(1, i as int),
        decreases chars@.len() - i,
    {
        rest.push(chars[i]);
        i += 1;
        assert(rest@ =~= chars@.subrange(1, i as int));
    }
    assert(rest@ =~= chars@.drop_first());
    let y: usize = match parse_usize(&rest) {
        Some(n) => if n > 0 && n <= board_size {
            n - 1
        } else {
            return None;
        },
        None => {
            return None;
        },
    };
    if x < board_size && y < board_size {
        Some((x, y))
    } else {
        None
    }
}

/// The response to a command: `=` or, for a content that starts with `?`,
/// `?`; then the id of the command if it had one, the content after a
/// blank if there is any, and an empty line.
pub open spec fn format_response_spec(id: Option<u32>, content: Seq<char>) -> Seq<char> {
    let prefix = if content.len() > 0 && content[0] == '?' {
        seq!['?']
    } else {
        seq!['=']
    };
    let id_text = match id {
        Some(n) => decimal_spec(n as nat),
        None => Seq::empty(),
    };
    if content.len() == 0 {
        prefix + id_text + seq!['\n', '\n']
    } else {
        prefix + id_text + seq![' '] + content + seq!['\n', '\n']
    }
}

/// The characters of the response to a command.
pub fn response_chars(id: Option<u32>, content: &Vec<char>) -> (out: Vec<char>)
    ensures
        out@ == format_response_spec(id, content@),
{
    let mut out: Vec<char> = Vec::new();
    if content.len() > 0 && content[0] == '?' {
        out.push('?');
    } else {
        out.push('=');
    }
    match id {
        Some(n) => {
            push_decimal(&mut out, n as usize);
        },
        None => {},
    }
    if content.len() > 0 {
        out.push(' ');
        push_all(&mut out, content);
    }
    out.push('\n');
    out.push('\n');
    assert(out@ =~= format_response_spec(id, content@));
    out
}

/// The response to a command with the given id and content.
pub fn format_response(id: Option<u32>, content: &str) -> (s: String)
    ensures
        s@ == format_response_spec(id, content@),
{
    let chars = chars_of(content);
    let out = response_chars(id, &chars);
    string_of(&out)
}

/// The colour that a text names, in any case: `black` or `white`.
pub open spec fn color_of_lowered(low: Seq<char>) -> Option<Stone> {
    if low == "black"@ {
        Some(Stone::Black)
    } else if low == "white"@ {
        Some(Stone::White)
    } else {
        None
    }
}

/// The colour that a lower-case text names.
pub fn parse_color(low: &Vec<char>) -> (r: Option<Stone>)
    ensures
        r == color_of_lowered(low@),
{
    if text_is(low, "black") {
        Some(Stone::Black)
    } else if text_is(low, "white") {
        Some(Stone::White)
    } else {
        None
    }
}

/// Whether a lower-case text says `pass`.
pub fn is_pass(low: &Vec<char>) -> (r: bool)
    ensures
        r == (low@ == "pass"@),
{
    text_is(low, "pass")
}

/// The commands that `known_command` knows.
pub open spec fn known_names() -> Seq<Seq<char>> {
    seq![
        "protocol_version"@,
        "name"@,
        "version"@,
        "boardsize"@,
        "clear_board"@,
        "komi"@,
        "get_komi"@,
        "play"@,
        "genmove"@,
        "genmove_black"@,
        "genmove_white"@,
        "undo"@,
        "captures"@,
        "final_score"@,
        "time_settings"@,
        "quit"@,
        "list_commands"@,
        "showboard"@,
        "known_command"@,
        "is_legal"@,
        "list_stones"@,
        "countlib"@,
        "findlib"@,
        "echo"@,
        "echo_err"@,
        "ladder_attack"@,
        "eye_data"@,
        "loadsgf"@,
        "printsgf"@,
    ]
}

/// The commands that `list_commands` lists, one to a line.
pub open spec fn listed_names() -> Seq<Seq<char>> {
    seq![
        "protocol_version"@,
        "name"@,
        "version"@,
        "boardsize"@,
        "clear_board"@,
        "komi"@,
        "get_komi"@,
        "play"@,
        "genmove"@,
        "genmove_black"@,
        "genmove_white"@,
        "undo"@,
        "captures"@,
        "final_score"@,
        "time_settings"@,
        "is_legal"@,
        "list_stones"@,
        "quit"@,
        "list_commands"@,
        "showboard"@,
        "known_command"@,
        "countlib"@,
        "findlib"@,
        "echo"@,
        "echo_err"@,
        "ladder_attack"@,
        "eye_data"@,
    ]
}

/// One point of the board as `showboard` draws it.
pub open spec fn board_symbol(s: Stone) -> char {
    match s {
        Stone::Black => 'X',
        Stone::White => 'O',
        Stone::Empty => '.',
    }
}

/// The first `n` points of row `y`, each followed by a blank.
pub open spec fn row_text(b: BoardState, y: int, n: int) -> Seq<char>
    decreases n,
{
    if n <= 0 {
        Seq::empty()
    } else {
        row_text(b, y, n - 1) + seq![board_symbol(b.stone_at((n - 1, y))), ' ']
    }
}

/// The first `n` rows of the board, one to a line.
pub open spec fn rows_text(b: BoardState, n: int) -> Seq<char>
    decreases n,
{
    if n <= 0 {
        Seq::empty()
    } else {
        rows_text(b, n - 1) + row_text(b, n - 1, b.size as int) + seq!['\n']
    }
}

/// The content of an error response.
pub open spec fn error_text(e: ErrorKind) -> Seq<char> {
    "? "@ + e.message_spec()
}

/// The `i`-th of the words of a command, or the empty text.
pub open spec fn word_at(cmd: Seq<Seq<char>>, i: int) -> Seq<char> {
    if 0 <= i < cmd.len() {
        cmd[i]
    } else {
        Seq::empty()
    }
}

/// The lines that describe an eye.
pub open spec fn eye_text(eye: EyeData) -> Seq<char> {
    "origin "@ + decimal_spec(eye.origin.0 as nat) + " "@ + decimal_spec(eye.origin.1 as nat)
        + "\ncolor "@ + (match eye.color {
        Stone::Black => "black"@,
        Stone::White => "white"@,
        Stone::Empty => "empty"@,
    }) + "\nesize "@ + decimal_spec(eye.esize as nat) + "\nmsize "@ + decimal_spec(
        eye.msize as nat,
    ) + "\nvalue "@ + eye.value.to_string_spec() + "\nmarginal "@ + (if eye.marginal {
        "1"@
    } else {
        "0"@
    }) + "\nneighbors "@ + decimal_spec(eye.neighbors as nat) + "\nmarginal_neighbors "@
        + decimal_spec(eye.marginal_neighbors as nat)
}

/// The texts of the vertices of `v`.
pub open spec fn move_texts(v: Seq<(usize, usize)>) -> Seq<Seq<char>> {
    Seq::new(v.len(), |i: int| format_move_spec(v[i].0 as int, v[i].1 as int))
}

/// `genmove` may play on `c`: the point is empty, and the player to move
/// may play on its mirror image across the diagonal.
pub open spec fn genmove_accepts(g: GameView, c: Point) -> bool {
    g.board.stone_at(c) == Stone::Empty && g.make_move(c.1, c.0) is Ok
}

/// The first point of row `y`, from column `x` on, that `genmove` may
/// play.
pub open spec fn genmove_in_row(g: GameView, y: int, x: int) -> Option<(usize, usize)>
    decreases g.board.size - x,
{
    if x < 0 || x >= g.board.size {
        None
    } else if genmove_accepts(g, (x, y)) {
        Some((x as usize, y as usize))
    } else {
        genmove_in_row(g, y, x + 1)
    }
}

/// The first point, from row `y` on, that `genmove` may play, reading the
/// board row by row.
pub open spec fn genmove_from_row(g: GameView, y: int) -> Option<(usize, usize)>
    decreases g.board.size - y,
{
    if y < 0 || y >= g.board.size {
        None
    } else {
        match genmove_in_row(g, y, 0) {
            Some(q) => Some(q),
            None => genmove_from_row(g, y + 1),
        }
    }
}

/// What the handler hands back for a command line.
pub enum GtpReply {
    /// The response, complete.
    Text(String),
    /// `komi`: the caller reads the number in the argument and keeps it.
    SetKomi(Option<u32>, String),
    /// `get_komi`: the caller answers with the komi it keeps.
    GetKomi(Option<u32>),
    /// `loadsgf`: the caller reads the named file and hands its content to
    /// `load_sgf`.
    LoadSgf(Option<u32>, String),
    /// `printsgf`: the caller has the game written out, into the named
    /// file if the name is not empty.
    PrintSgf(Option<u32>, String),
}

/// The model of a reply.
pub enum ReplyView {
    Text(Seq<char>),
    SetKomi(Option<u32>, Seq<char>),
    GetKomi(Option<u32>),
    LoadSgf(Option<u32>, Seq<char>),
    PrintSgf(Option<u32>, Seq<char>),
}

impl View for GtpReply {
    type V = ReplyView;

    open spec fn view(&self) -> ReplyView {
        match self {
            GtpReply::Text(s) => ReplyView::Text(s@),
            GtpReply::SetKomi(id, s) => ReplyView::SetKomi(*id, s@),
            GtpReply::GetKomi(id) => ReplyView::GetKomi(*id),
            GtpReply::LoadSgf(id, s) => ReplyView::LoadSgf(*id, s@),
            GtpReply::PrintSgf(id, s) => ReplyView::PrintSgf(*id, s@),
        }
    }
}

/// The game after a command that the handler answers itself, and the
/// content of the response. `cmd` holds the words of the command, its name
/// first.
pub open spec fn answer(g: GameView, cmd: Seq<Seq<char>>) -> (GameView, Seq<char>) {
    let name = cmd[0];
    let size = g.board.size;
    if name == "protocol_version"@ {
        (g, "2"@)
    } else if name == "name"@ {
        (g, "gnugo_rs"@)
    } else if name == "version"@ {
        (g, "0.2.0"@)
    } else if name == "boardsize"@ {
        match unsigned_value(word_at(cmd, 1)) {
            Some(n) => if 1 <= n <= MAX_BOARD_SIZE {
                (GameView::initial(n), Seq::empty())
            } else {
                (g, "? unacceptable size"@)
            },
            None => (g, "? unacceptable size"@),
        }
    } else if name == "clear_board"@ {
        (GameView::initial(size), Seq::empty())
    } else if name == "play"@ {
        if cmd.len() > 2 {
            answer_play(g, cmd[1], cmd[2])
        } else {
            answer_play(g, Seq::empty(), Seq::empty())
        }
    } else if name == "genmove"@ {
        answer_genmove(g, word_at(cmd, 1))
    } else if name == "genmove_black"@ {
        answer_genmove(g, "black"@)
    } else if name == "genmove_white"@ {
        answer_genmove(g, "white"@)
    } else if name == "undo"@ {
        match g.undo() {
            Some(prev) => (prev, Seq::empty()),
            None => (g, "? cannot undo"@),
        }
    } else if name == "captures"@ {
        match color_of_lowered(lowercase_of(word_at(cmd, 1))) {
            Some(stone) => (g, decimal_spec(g.captured(stone))),
            None => (g, "? invalid color"@),
        }
    } else if name == "final_score"@ {
        if g.status == GameStatus::InProgress {
            (g, "? game not finished"@)
        } else {
            match g.winner {
                Some(Stone::Black) => (g, "B+"@),
                Some(Stone::White) => (g, "W+"@),
                _ => (g, "0"@),
            }
        }
    } else if name == "time_settings"@ {
        (g, Seq::empty())
    } else if name == "is_legal"@ {
        if cmd.len() > 2 {
            (g, answer_is_legal(g, cmd[1], cmd[2]))
        } else {
            (g, answer_is_legal(g, Seq::empty(), Seq::empty()))
        }
    } else if name == "list_stones"@ {
        match color_of_lowered(lowercase_of(word_at(cmd, 1))) {
            Some(stone) => (g, joined(move_texts(stone_list(g.board, stone)), "\n"@)),
            None => (g, "? invalid color"@),
        }
    } else if name == "countlib"@ {
        match gtp_move_spec(word_at(cmd, 1), size) {
            Some(q) => (g, decimal_spec(g.board.liberty_count(point_of(q)))),
            None => (g, "? invalid move"@),
        }
    } else if name == "findlib"@ {
        match gtp_move_spec(word_at(cmd, 1), size) {
            Some(q) => (g, joined(move_texts(liberty_list(g.board, point_of(q))), "\n"@)),
            None => (g, "? invalid move"@),
        }
    } else if name == "ladder_attack"@ {
        match gtp_move_spec(word_at(cmd, 1), size) {
            Some(q) => if g.board.stone_at(point_of(q)) == Stone::Empty {
                (g, "? vertex must not be empty"@)
            } else if g.board.liberty_count(point_of(q)) != 2 {
                (g, "? string must have exactly 2 liberties"@)
            } else {
                let first = liberty_list(g.board, point_of(q))[0];
                (g, "1 "@ + format_move_spec(first.0 as int, first.1 as int))
            },
            None => (g, "? invalid move"@),
        }
    } else if name == "eye_data"@ {
        if cmd.len() > 2 {
            (g, answer_eye_data(g, cmd[1], cmd[2]))
        } else {
            (g, answer_eye_data(g, Seq::empty(), Seq::empty()))
        }
    } else if name == "quit"@ {
        (g, "quit"@)
    } else if name == "list_commands"@ {
        (g, joined(listed_names(), "\n"@))
    } else if name == "showboard"@ {
        (g, rows_text(g.board, size as int))
    } else if name == "known_command"@ {
        if known_names().contains(word_at(cmd, 1)) {
            (g, "true"@)
        } else {
            (g, "false"@)
        }
    } else {
        (g, "unknown command: "@ + name)
    }
}

/// `play`: the player to move plays on the named vertex, or passes. The
/// colour is checked and otherwise ignored. The vertex `(x, y)` is played
/// as row `y` and column `x`.
pub open spec fn answer_play(g: GameView, color: Seq<char>, vertex: Seq<char>) -> (
    GameView,
    Seq<char>,
) {
    if color_of_lowered(lowercase_of(color)) is None {
        (g, "? invalid color"@)
    } else if lowercase_of(vertex) == "pass"@ {
        match g.pass() {
            Ok(next) => (next, Seq::empty()),
            Err(e) => (g, error_text(e)),
        }
    } else {
        match gtp_move_spec(vertex, g.board.size) {
            Some(q) => match g.make_move(q.1 as int, q.0 as int) {
                Ok(next) => (next, Seq::empty()),
                Err(e) => (g, error_text(e)),
            },
            None => (g, "? invalid move"@),
        }
    }
}

/// `genmove`: the player to move plays the first of the points it may
/// play, and passes when there is none.
pub open spec fn answer_genmove(g: GameView, color: Seq<char>) -> (GameView, Seq<char>) {
    if color_of_lowered(lowercase_of(color)) is None {
        (g, "? invalid color"@)
    } else {
        match genmove_from_row(g, 0) {
            Some(q) => (
                g.make_move(q.1 as int, q.0 as int)->Ok_0,
                format_move_spec(q.0 as int, q.1 as int),
            ),
            None => match g.pass() {
                Ok(next) => (next, "pass"@),
                Err(e) => (g, error_text(e)),
            },
        }
    }
}

/// `is_legal`: `1` for a pass and for a vertex that is empty and whose
/// mirror image across the diagonal the colour may play on, else `0`.
pub open spec fn answer_is_legal(g: GameView, color: Seq<char>, vertex: Seq<char>) -> Seq<char> {
    match color_of_lowered(lowercase_of(color)) {
        None => "? invalid color"@,
        Some(stone) => if lowercase_of(vertex) == "pass"@ {
            "1"@
        } else {
            match gtp_move_spec(vertex, g.board.size) {
                Some(q) => if g.board.stone_at(point_of(q)) == Stone::Empty && g.board.place(
                    (q.1 as int, q.0 as int),
                    stone,
                    GameRules::standard(),
                ) is Ok {
                    "1"@
                } else {
                    "0"@
                },
                None => "0"@,
            }
        },
    }
}

/// `eye_data`: the description of the eye of the colour at the vertex.
pub open spec fn answer_eye_data(g: GameView, color: Seq<char>, vertex: Seq<char>) -> Seq<char> {
    match color_of_lowered(lowercase_of(color)) {
        None => "? invalid color"@,
        Some(stone) => match gtp_move_spec(vertex, g.board.size) {
            Some(q) => match eye_at(g.board, point_of(q), stone) {
                Some(eye) => eye_text(eye),
                None => "? no eye data for this position"@,
            },
            None => "? invalid move"@,
        },
    }
}

/// The game after a command line, and the reply to it.
pub open spec fn respond(g: GameView, command: Seq<char>) -> (GameView, ReplyView) {
    let parts = words(command);
    if parts.len() == 0 {
        (g, ReplyView::Text(Seq::empty()))
    } else {
        let numbered = unsigned_value(parts[0]) matches Some(n) && n <= u32::MAX;
        let id = if numbered {
            Some(unsigned_value(parts[0])->0 as u32)
        } else {
            None
        };
        let cmd = if numbered {
            parts.skip(1)
        } else {
            parts
        };
        if cmd.len() == 0 {
            (g, ReplyView::Text(format_response_spec(id, "unknown command"@)))
        } else if cmd[0] == "komi"@ {
            (g, ReplyView::SetKomi(id, word_at(cmd, 1)))
        } else if cmd[0] == "get_komi"@ {
            (g, ReplyView::GetKomi(id))
        } else if cmd[0] == "loadsgf"@ {
            if word_at(cmd, 1).len() == 0 {
                (g, ReplyView::Text(format_response_spec(id, "? missing filename"@)))
            } else {
                (g, ReplyView::LoadSgf(id, word_at(cmd, 1)))
            }
        } else if cmd[0] == "printsgf"@ {
            (g, ReplyView::PrintSgf(id, word_at(cmd, 1)))
        } else {
            let (next, content) = answer(g, cmd);
            (next, ReplyView::Text(format_response_spec(id, content)))
        }
    }
}

/// The game after the record `content` of the file `path` has been replayed
/// on it, and the response to `loadsgf`.
pub open spec fn load_sgf_spec(g: GameView, id: Option<u32>, path: Seq<char>, content: Seq<char>) -> (
    GameView,
    Seq<char>,
) {
    match tree_spec(content) {
        Ok(root) => {
            let (next, error) = apply_spec(root, g);
            match error {
                None => (next, format_response_spec(id, Seq::empty())),
                Some(e) => (next, format_response_spec(id, "? "@ + e.message_spec())),
            }
        },
        Err(e) => (
            g,
            format_response_spec(
                id,
                "? "@ + "Parse error in '"@ + path + "': "@ + e.message_spec(),
            ),
        ),
    }
}

/// Answers protocol commands for one game.
pub struct GTPHandler {
    game: Game,
    eye_analyzer: EyeAnalyzer,
}

impl GTPHandler {
    /// The game the handler plays.
    pub closed spec fn game_view(&self) -> GameView {
        self.game@
    }

    /// The game can take any command: the counters of prisoners and of
    /// passes have room.
    pub open spec fn ready(&self) -> bool {
        self.game_view().capture_room() && self.game_view().pass_count < u32::MAX
    }

    /// A handler with a new game on a board of the given size.
    pub fn new(size: usize) -> (h: GTPHandler)
        requires
            1 <= size <= MAX_BOARD_SIZE,
        ensures
            h.game_view() == GameView::initial(size as nat),
    {
        GTPHandler { game: Game::new(size), eye_analyzer: EyeAnalyzer::new() }
    }

    /// The game the handler plays.
    pub fn game(&self) -> (g: &Game)
        ensures
            g@ == self.game_view(),
    {
        &self.game
    }

    /// Whether the game can take any command.
    pub fn is_ready(&self) -> (r: bool)
        ensures
            r == self.ready(),
    {
        self.game.has_capture_room() && self.game.pass_count() < u32::MAX
    }

    /// Completes `loadsgf`: reads the record `content` of the file `path`
    /// and replays it on the game. The response is empty on success and
    /// tells the error otherwise.
    pub fn load_sgf(&mut self, id: Option<u32>, path: &str, content: &str) -> (s: String)
        ensures
            (final(self).game_view(), s@) == load_sgf_spec(
                old(self).game_view(),
                id,
                path@,
                content@,
            ),
    {
        let handler = SGFHandler::new();
        let mut message = chars_of("? ");
        match handler.parse(content) {
            Ok(tree) => {
                match handler.apply_to_game(&tree, &mut self.game) {
                    Ok(()) => {
                        return string_of(&response_chars(id, &Vec::new()));
                    },
                    Err(e) => {
                        let text = e.message();
                        push_str(&mut message, text.as_str());
                    },
                }
            },
            Err(e) => {
                push_str(&mut message, "Parse error in '");
                push_str(&mut message, path);
                push_str(&mut message, "': ");
                let text = e.message();
                push_str(&mut message, text.as_str());
            },
        }
        string_of(&response_chars(id, &message))
    }

    /// The record of the current position, with the komi as given: what
    /// `printsgf` writes.
    pub fn sgf_text(&self, komi: &str) -> (s: String)
        ensures
            s@ == record_text(self.game_view().board, komi@),
    {
        SGFHandler::new().game_to_sgf(&self.game, komi)
    }

    /// Carries out one command line.
    pub fn process_command(&mut self, command: &str) -> (r: GtpReply)
        requires
            old(self).ready(),
        ensures
            (final(self).game_view(), r@) == respond(old(self).game_view(), command@),
    {
        let line = chars_of(command);
        let parts = split_words(&line);
        if parts.len() == 0 {
            return GtpReply::Text(string_of(&Vec::new()));
        }
        let ghost all = texts(parts@);
        assert(all[0] == parts@[0]@);
        let (id, start): (Option<u32>, usize) = match parse_u32(&parts[0]) {
            Some(n) => (Some(n), 1),
            None => (None, 0),
        };
        let mut cmd: Vec<Vec<char>> = Vec::new();
        let mut i: usize = start;
        while i < parts.len()
            invariant
                start <= i <= parts@.len(),
                texts(cmd@) == texts(parts@).subrange(start as int, i as int),
            decreases parts@.len() - i,
        {
            let ghost before = texts(cmd@);
            cmd.push(parts[i].clone());
            proof {
                assert(cmd@[cmd@.len() - 1]@ == parts@[i as int]@);
                assert(texts(cmd@) =~= before.push(parts@[i as int]@));
                assert(texts(cmd@) =~= texts(parts@).subrange(start as int, i as int + 1));
            }
            i += 1;
        }
        proof {
            assert(texts(cmd@) =~= if start == 1 {
                all.skip(1)
            } else {
                all
            });
        }
        let ghost words = texts(cmd@);
        if cmd.len() == 0 {
            return GtpReply::Text(string_of(&response_chars(id, &chars_of("unknown command"))));
        }
        assert(words[0] == cmd@[0]@);
        let arg1: Vec<char> = if cmd.len() > 1 {
            cmd[1].clone()
        } else {
            Vec::new()
        };
        let arg2: Vec<char> = if cmd.len() > 2 {
            cmd[2].clone()
        } else {
            Vec::new()
        };
        proof {
            assert(arg1@ =~= word_at(words, 1));
            if cmd@.len() > 2 {
                assert(arg2@ == words[2] && arg1@ == words[1]);
            }
        }
        let name = &cmd[0];
        if text_is(name, "komi") {
            return GtpReply::SetKomi(id, string_of(&arg1));
        }
        if text_is(name, "get_komi") {
            return GtpReply::GetKomi(id);
        }
        if text_is(name, "loadsgf") {
            if arg1.len() == 0 {
                return GtpReply::Text(
                    string_of(&response_chars(id, &chars_of("? missing filename"))),
                );
            }
            return GtpReply::LoadSgf(id, string_of(&arg1));
        }
        if text_is(name, "printsgf") {
            return GtpReply::PrintSgf(id, string_of(&arg1));
        }
        let pair: bool = cmd.len() > 2;
        let empty: Vec<char> = Vec::new();
        let content: Vec<char> = if text_is(name, "protocol_version") {
            self.protocol_version()
        } else if text_is(name, "name") {
            self.name()
        } else if text_is(name, "version") {
            self.version()
        } else if text_is(name, "boardsize") {
            self.boardsize(&arg1)
        } else if text_is(name, "clear_board") {
            self.clear_board()
        } else if text_is(name, "play") {
            if pair {
                self.play(&arg1, &arg2)
            } else {
                self.play(&empty, &empty)
            }
        } else if text_is(name, "genmove") {
            self.genmove(&arg1)
        } else if text_is(name, "genmove_black") {
            self.genmove_black()
        } else if text_is(name, "genmove_white") {
            self.genmove_white()
        } else if text_is(name, "undo") {
            self.undo()
        } else if text_is(name, "captures") {
            self.captures(&arg1)
        } else if text_is(name, "final_score") {
            self.final_score()
        } else if text_is(name, "time_settings") {
            self.time_settings()
        } else if text_is(name, "is_legal") {
            if pair {
                self.is_legal(&arg1, &arg2)
            } else {
                self.is_legal(&empty, &empty)
            }
        } else if text_is(name, "list_stones") {
            self.list_stones(&arg1)
        } else if text_is(name, "countlib") {
            self.countlib(&arg1)
        } else if text_is(name, "findlib") {
            self.findlib(&arg1)
        } else if text_is(name, "ladder_attack") {
            self.ladder_attack(&arg1)
        } else if text_is(name, "eye_data") {
            if pair {
                self.eye_data(&arg1, &arg2)
            } else {
                self.eye_data(&empty, &empty)
            }
        } else if text_is(name, "quit") {
            chars_of("quit")
        } else if text_is(name, "list_commands") {
            self.list_commands()
        } else if text_is(name, "showboard") {
            self.showboard()
        } else if text_is(name, "known_command") {
            self.known_command(&arg1)
        } else {
            let mut out = chars_of("unknown command: ");
            push_all(&mut out, name);
            out
        };
        GtpReply::Text(string_of(&response_chars(id, &content)))
    }

    fn protocol_version(&self) -> (out: Vec<char>)
        ensures
            out@ == "2"@,
    {
        chars_of("2")
    }

    fn name(&self) -> (out: Vec<char>)
        ensures
            out@ == "gnugo_rs"@,
    {
        chars_of("gnugo_rs")
    }

    fn version(&self) -> (out: Vec<char>)
        ensures
            out@ == "0.2.0"@,
    {
        chars_of("0.2.0")
    }

    fn boardsize(&mut self, size_str: &Vec<char>) -> (out: Vec<char>)
        ensures
            (final(self).game_view(), out@) == answer(
                old(self).game_view(),
                seq!["boardsize"@, size_str@],
            ),
    {
        proof {
            reveal_strlit("boardsize");
            reveal_strlit("protocol_version");
            reveal_strlit("name");
            reveal_strlit("version");
        }
        match parse_usize(size_str) {
            Some(size) => {
                if 1 <= size && size <= 25 {
                    self.game = Game::new(size);
                    Vec::new()
                } else {
                    chars_of("? unacceptable size")
                }
            },
            None => chars_of("? unacceptable size"),
        }
    }

    fn clear_board(&mut self) -> (out: Vec<char>)
        ensures
            final(self).game_view() == GameView::initial(old(self).game_view().board.size),
            out@ == Seq::<char>::empty(),
    {
        let size = self.game.board().size();
        self.game = Game::new(size);
        Vec::new()
    }

    fn play(&mut self, color: &Vec<char>, move_str: &Vec<char>) -> (out: Vec<char>)
        requires
            old(self).ready(),
        ensures
            (final(self).game_view(), out@) == answer_play(
                old(self).game_view(),
                color@,
                move_str@,
            ),
    {
        if parse_color(&lowered(color)).is_none() {
            return chars_of("? invalid color");
        }
        if is_pass(&lowered(move_str)) {
            return match self.game.pass() {
                Ok(()) => Vec::new(),
                Err(e) => error_chars(e),
            };
        }
        let size = self.game.board().size();
        match parse_vertex(move_str, size) {
            Some(q) => match self.game.make_move(q.1, q.0) {
                Ok(()) => Vec::new(),
                Err(e) => error_chars(e),
            },
            None => chars_of("? invalid move"),
        }
    }

    fn genmove(&mut self, color: &Vec<char>) -> (out: Vec<char>)
        requires
            old(self).ready(),
        ensures
            (final(self).game_view(), out@) == answer_genmove(old(self).game_view(), color@),
    {
        if parse_color(&lowered(color)).is_none() {
            return chars_of("? invalid color");
        }
        let ghost g = self.game@;
        let size = self.game.board().size();
        let mut y: usize = 0;
        while y < size
            invariant
                self.game@ == g,
                g.capture_room(),
                g.pass_count < u32::MAX,
                size == g.board.size,
                1 <= size <= 25,
                y <= size,
                color_of_lowered(lowercase_of(color@)) is Some,
                g == old(self).game_view(),
                genmove_from_row(g, 0) == genmove_from_row(g, y as int),
            decreases size - y,
        {
            let mut x: usize = 0;
            while x < size
                invariant
                    self.game@ == g,
                    g.capture_room(),
                    g.pass_count < u32::MAX,
                    size == g.board.size,
                    1 <= size <= 25,
                    y < size,
                    x <= size,
                    color_of_lowered(lowercase_of(color@)) is Some,
                    g == old(self).game_view(),
                    genmove_from_row(g, 0) == genmove_from_row(g, y as int),
                    genmove_in_row(g, y as int, 0) == genmove_in_row(g, y as int, x as int),
                decreases size - x,
            {
                if self.game.board().get_stone(x, y) == Stone::Empty {
                    if self.game.make_move(y, x).is_ok() {
                        let mut out: Vec<char> = Vec::new();
                        push_move(&mut out, x, y);
                        proof {
                            assert(genmove_accepts(g, (x as int, y as int)));
                            assert(out@ =~= format_move_spec(x as int, y as int));
                            assert(genmove_in_row(g, y as int, x as int) == Some((x, y)));
                            assert(genmove_from_row(g, y as int) == Some((x, y)));
                        }
                        return out;
                    }
                }
                x += 1;
            }
            y += 1;
        }
        match self.game.pass() {
            Ok(()) => chars_of("pass"),
            Err(e) => error_chars(e),
        }
    }

    fn genmove_black(&mut self) -> (out: Vec<char>)
        requires
            old(self).ready(),
        ensures
            (final(self).game_view(), out@) == answer_genmove(old(self).game_view(), "black"@),
    {
        self.genmove(&chars_of("black"))
    }

    fn genmove_white(&mut self) -> (out: Vec<char>)
        requires
            old(self).ready(),
        ensures
            (final(self).game_view(), out@) == answer_genmove(old(self).game_view(), "white"@),
    {
        self.genmove(&chars_of("white"))
    }

    fn undo(&mut self) -> (out: Vec<char>)
        ensures
            match old(self).game_view().undo() {
                Some(prev) => final(self).game_view() == prev && out@ == Seq::<char>::empty(),
                None => final(self).game_view() == old(self).game_view() && out@
                    == "? cannot undo"@,
            },
    {
        match self.game.undo_move() {
            Some(()) => Vec::new(),
            None => chars_of("? cannot undo"),
        }
    }

    fn captures(&self, color: &Vec<char>) -> (out: Vec<char>)
        ensures
            out@ == match color_of_lowered(lowercase_of(color@)) {
                Some(stone) => decimal_spec(self.game_view().captured(stone)),
                None => "? invalid color"@,
            },
    {
        match parse_color(&lowered(color)) {
            Some(stone) => {
                let mut out: Vec<char> = Vec::new();
                push_decimal(&mut out, self.game.captured(stone) as usize);
                assert(out@ =~= decimal_spec(self.game_view().captured(stone)));
                out
            },
            None => chars_of("? invalid color"),
        }
    }

    fn final_score(&self) -> (out: Vec<char>)
        ensures
            out@ == if self.game_view().status == GameStatus::InProgress {
                "? game not finished"@
            } else {
                match self.game_view().winner {
                    Some(Stone::Black) => "B+"@,
                    Some(Stone::White) => "W+"@,
                    _ => "0"@,
                }
            },
    {
        if !self.game.is_game_over() {
            return chars_of("? game not finished");
        }
        match self.game.winner() {
            Some(Stone::Black) => chars_of("B+"),
            Some(Stone::White) => chars_of("W+"),
            _ => chars_of("0"),
        }
    }

    fn time_settings(&self) -> (out: Vec<char>)
        ensures
            out@ == Seq::<char>::empty(),
    {
        Vec::new()
    }

    fn is_legal(&self, color: &Vec<char>, move_str: &Vec<char>) -> (out: Vec<char>)
        ensures
            out@ == answer_is_legal(self.game_view(), color@, move_str@),
    {
        let stone = match parse_color(&lowered(color)) {
            Some(stone) => stone,
            None => {
                return chars_of("? invalid color");
            },
        };
        if is_pass(&lowered(move_str)) {
            return chars_of("1");
        }
        let size = self.game.board().size();
        match parse_vertex(move_str, size) {
            Some(q) => {
                if self.game.board().get_stone(q.0, q.1) == Stone::Empty {
                    return match GameRules::default().is_legal_move(
                        self.game.board(),
                        q.1,
                        q.0,
                        stone,
                    ) {
                        Ok(()) => chars_of("1"),
                        Err(_) => chars_of("0"),
                    };
                }
            },
            None => {},
        }
        chars_of("0")
    }

    fn list_stones(&self, color: &Vec<char>) -> (out: Vec<char>)
        ensures
            out@ == match color_of_lowered(lowercase_of(color@)) {
                Some(stone) => joined(move_texts(stone_list(self.game_view().board, stone)), "\n"@),
                None => "? invalid color"@,
            },
    {
        let stone = match parse_color(&lowered(color)) {
            Some(stone) => stone,
            None => {
                return chars_of("? invalid color");
            },
        };
        let size = self.game.board().size();
        let stones = self.game.board().list_points(stone);
        join_moves(&stones, size)
    }

    fn countlib(&self, move_str: &Vec<char>) -> (out: Vec<char>)
        ensures
            out@ == match gtp_move_spec(move_str@, self.game_view().board.size) {
                Some(q) => decimal_spec(self.game_view().board.liberty_count(point_of(q))),
                None => "? invalid move"@,
            },
    {
        let size = self.game.board().size();
        match parse_vertex(move_str, size) {
            Some(q) => {
                let liberties = self.game.board().count_liberties(q.0, q.1);
                let mut out: Vec<char> = Vec::new();
                push_decimal(&mut out, liberties);
                assert(out@ =~= decimal_spec(liberties as nat));
                out
            },
            None => chars_of("? invalid move"),
        }
    }

    fn findlib(&self, move_str: &Vec<char>) -> (out: Vec<char>)
        ensures
            out@ == match gtp_move_spec(move_str@, self.game_view().board.size) {
                Some(q) => joined(
                    move_texts(liberty_list(self.game_view().board, point_of(q))),
                    "\n"@,
                ),
                None => "? invalid move"@,
            },
    {
        let size = self.game.board().size();
        match parse_vertex(move_str, size) {
            Some(q) => {
                let liberties = self.game.board().find_liberties(q.0, q.1);
                join_moves(&liberties, size)
            },
            None => chars_of("? invalid move"),
        }
    }

    fn ladder_attack(&self, move_str: &Vec<char>) -> (out: Vec<char>)
        ensures
            out@ == match gtp_move_spec(move_str@, self.game_view().board.size) {
                Some(q) => if self.game_view().board.stone_at(point_of(q)) == Stone::Empty {
                    "? vertex must not be empty"@
                } else if self.game_view().board.liberty_count(point_of(q)) != 2 {
                    "? string must have exactly 2 liberties"@
                } else {
                    let first = liberty_list(self.game_view().board, point_of(q))[0];
                    "1 "@ + format_move_spec(first.0 as int, first.1 as int)
                },
                None => "? invalid move"@,
            },
    {
        let size = self.game.board().size();
        match parse_vertex(move_str, size) {
            Some(q) => {
                if self.game.board().get_stone(q.0, q.1) == Stone::Empty {
                    return chars_of("? vertex must not be empty");
                }
                let liberties = self.game.board().count_liberties(q.0, q.1);
                if liberties != 2 {
                    return chars_of("? string must have exactly 2 liberties");
                }
                let list = self.game.board().find_liberties(q.0, q.1);
                proof {
                    let b = self.game@.board;
                    let p = point_of(q);
                    assert forall|c: Point| points_of(list@).contains(c) <==> b.liberties(
                        b.group_at(p),
                    ).contains(c) by {}
                    assert(points_of(list@) =~= b.liberties(b.group_at(p)));
                    if list@.len() == 0 {
                        assert(points_of(list@) =~= Set::<Point>::empty());
                    }
                }
                let first = list[0];
                let mut out = chars_of("1 ");
                push_move(&mut out, first.0, first.1);
                out
            },
            None => chars_of("? invalid move"),
        }
    }

    fn eye_data(&self, color: &Vec<char>, move_str: &Vec<char>) -> (out: Vec<char>)
        ensures
            out@ == answer_eye_data(self.game_view(), color@, move_str@),
    {
        let stone_color = match parse_color(&lowered(color)) {
            Some(stone) => stone,
            None => {
                return chars_of("? invalid color");
            },
        };
        let size = self.game.board().size();
        match parse_vertex(move_str, size) {
            Some(q) => {
                let eyes = self.eye_analyzer.analyze_eyes(self.game.board(), stone_color);
                let ghost b = self.game@.board;
                let mut i: usize = 0;
                while i < eyes.len()
                    invariant
                        i <= eyes@.len(),
                        b == self.game_view().board,
                        size == b.size,
                        color_of_lowered(lowercase_of(color@)) == Some(stone_color),
                        gtp_move_spec(move_str@, size as nat) == Some(q),
                        forall|k: int| 0 <= k < i ==> (#[trigger] eyes@[k]).origin != q,
                        forall|k: int|
                            0 <= k < eyes@.len() ==> eye_at(
                                b,
                                point_of((#[trigger] eyes@[k]).origin),
                                stone_color,
                            ) == Some(eyes@[k]),
                    decreases eyes@.len() - i,
                {
                    let eye = eyes[i];
                    if eye.origin.0 == q.0 && eye.origin.1 == q.1 {
                        proof {
                            assert(eye_at(b, point_of(eyes@[i as int].origin), stone_color) == Some(
                                eye,
                            ));
                        }
                        return eye_chars(&eye);
                    }
                    i += 1;
                }
                proof {
                    if eye_at(b, point_of(q), stone_color) is Some {
                        let k = choose|k: int|
                            0 <= k < eyes@.len() && point_of((#[trigger] eyes@[k]).origin)
                                == point_of(q);
                        assert(eyes@[k].origin == q);
                    }
                }
                chars_of("? no eye data for this position")
            },
            None => chars_of("? invalid move"),
        }
    }

    fn list_commands(&self) -> (out: Vec<char>)
        ensures
            out@ == joined(listed_names(), "\n"@),
    {
        let names = [
            "protocol_version",
            "name",
            "version",
            "boardsize",
            "clear_board",
            "komi",
            "get_komi",
            "play",
            "genmove",
            "genmove_black",
            "genmove_white",
            "undo",
            "captures",
            "final_score",
            "time_settings",
            "is_legal",
            "list_stones",
            "quit",
            "list_commands",
            "showboard",
            "known_command",
            "countlib",
            "findlib",
            "echo",
            "echo_err",
            "ladder_attack",
            "eye_data",
        ];
        let mut parts: Vec<Vec<char>> = Vec::new();
        let mut i: usize = 0;
        while i < 27
            invariant
                i <= 27,
                names@.len() == 27,
                parts@.len() == i,
                forall|k: int| 0 <= k < i ==> (#[trigger] parts@[k])@ == names@[k]@,
            decreases 27 - i,
        {
            parts.push(chars_of(names[i]));
            i += 1;
        }
        assert(texts(parts@) =~= listed_names());
        crate::text::join(&parts, "\n")
    }

    fn showboard(&self) -> (out: Vec<char>)
        ensures
            out@ == rows_text(self.game_view().board, self.game_view().board.size as int),
    {
        let board = self.game.board();
        let size = board.size();
        let ghost b = board@;
        let mut result: Vec<char> = Vec::new();
        let mut y: usize = 0;
        while y < size
            invariant
                b == board@,
                size == b.size,
                y <= size,
                result@ == rows_text(b, y as int),
            decreases size - y,
        {
            let ghost base = result@;
            let mut x: usize = 0;
            while x < size
                invariant
                    b == board@,
                    size == b.size,
                    y < size,
                    x <= size,
                    result@ == base + row_text(b, y as int, x as int),
                decreases size - x,
            {
                let c = match board.get_stone(x, y) {
                    Stone::Black => 'X',
                    Stone::White => 'O',
                    Stone::Empty => '.',
                };
                result.push(c);
                result.push(' ');
                x += 1;
                assert(result@ =~= base + row_text(b, y as int, x as int));
            }
            result.push('\n');
            y += 1;
            assert(result@ =~= rows_text(b, y as int));
        }
        result
    }

    fn known_command(&self, command: &Vec<char>) -> (out: Vec<char>)
        ensures
            out@ == if known_names().contains(command@) {
                "true"@
            } else {
                "false"@
            },
    {
        let names = [
            "protocol_version",
            "name",
            "version",
            "boardsize",
            "clear_board",
            "komi",
            "get_komi",
            "play",
            "genmove",
            "genmove_black",
            "genmove_white",
            "undo",
            "captures",
            "final_score",
            "time_settings",
            "quit",
            "list_commands",
            "showboard",
            "known_command",
            "is_legal",
            "list_stones",
            "countlib",
            "findlib",
            "echo",
            "echo_err",
            "ladder_attack",
            "eye_data",
            "loadsgf",
            "printsgf",
        ];
        let mut i: usize = 0;
        while i < 29
            invariant
                i <= 29,
                names@.len() == 29,
                forall|k: int| 0 <= k < 29 ==> (#[trigger] names@[k])@ == known_names()[k],
                forall|k: int| 0 <= k < i ==> (#[trigger] names@[k])@ != command@,
            decreases 29 - i,
        {
            if text_is(command, names[i]) {
                assert(known_names()[i as int] == command@);
                return chars_of("true");
            }
            i += 1;
        }
        proof {
            if known_names().contains(command@) {
                let k = choose|k: int| 0 <= k < known_names().len() && known_names()[k] == command@;
                assert(names@[k]@ == command@);
            }
        }
        chars_of("false")
    }
}

/// The content of an error response.
fn error_chars(e: ErrorKind) -> (out: Vec<char>)
    ensures
        out@ == error_text(e),
{
    let mut out = chars_of("? ");
    push_str(&mut out, e.message());
    out
}

/// The vertices of `v` in protocol notation, one to a line.
fn join_moves(v: &Vec<(usize, usize)>, size: usize) -> (out: Vec<char>)
    requires
        size <= MAX_BOARD_SIZE,
        forall|i: int| 0 <= i < v@.len() ==> (#[trigger] v@[i]).0 < size && v@[i].1 < size,
    ensures
        out@ == joined(move_texts(v@), "\n"@),
{
    let mut parts: Vec<Vec<char>> = Vec::new();
    let mut i: usize = 0;
    while i < v.len()
        invariant
            i <= v@.len(),
            size <= MAX_BOARD_SIZE,
            forall|k: int| 0 <= k < v@.len() ==> (#[trigger] v@[k]).0 < size && v@[k].1 < size,
            parts@.len() == i,
            forall|k: int|
                0 <= k < i ==> (#[trigger] parts@[k])@ == format_move_spec(
                    v@[k].0 as int,
                    v@[k].1 as int,
                ),
        decreases v@.len() - i,
    {
        let mut one: Vec<char> = Vec::new();
        push_move(&mut one, v[i].0, v[i].1);
        assert(one@ =~= format_move_spec(v@[i as int].0 as int, v@[i as int].1 as int));
        parts.push(one);
        i += 1;
    }
    assert(texts(parts@) =~= move_texts(v@));
    crate::text::join(&parts, "\n")
}

/// The lines that describe an eye.
fn eye_chars(eye: &EyeData) -> (out: Vec<char>)
    ensures
        out@ == eye_text(*eye),
{
    let mut out = chars_of("origin ");
    push_decimal(&mut out, eye.origin.0);
    push_str(&mut out, " ");
    push_decimal(&mut out, eye.origin.1);
    push_str(&mut out, "\ncolor ");
    match eye.color {
        Stone::Black => push_str(&mut out, "black"),
        Stone::White => push_str(&mut out, "white"),
        Stone::Empty => push_str(&mut out, "empty"),
    }
    push_str(&mut out, "\nesize ");
    push_decimal(&mut out, eye.esize);
    push_str(&mut out, "\nmsize ");
    push_decimal(&mut out, eye.msize);
    push_str(&mut out, "\nvalue ");
    let value = eye.value.to_string();
    push_str(&mut out, value.as_str());
    push_str(&mut out, "\nmarginal ");
    if eye.marginal {
        push_str(&mut out, "1");
    } else {
        push_str(&mut out, "0");
    }
    push_str(&mut out, "\nneighbors ");
    push_decimal(&mut out, eye.neighbors);
    push_str(&mut out, "\nmarginal_neighbors ");
    push_decimal(&mut out, eye.marginal_neighbors);
    assert(out@ =~= eye_text(*eye));
    out
}

} // verus!
