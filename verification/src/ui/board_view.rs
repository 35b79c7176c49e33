//! The board as it is drawn on a terminal: row 1 at the bottom, column
//! letters without `I`, star points marked.

use vstd::prelude::*;
use crate::engine::board::{Board, Stone, MAX_BOARD_SIZE};
use crate::engine::state::BoardState;
use crate::gtp::column_letter;
use crate::text::{decimal_spec, push_decimal, string_of};

verus! {

impl Stone {
    pub open spec fn to_char_spec(self) -> char {
        match self {
            Stone::Black => '○',
            Stone::White => '●',
            Stone::Empty => '·',
        }
    }

    /// The character a point with this content is drawn with.
    pub fn to_char(&self) -> (c: char)
        ensures
            c == self.to_char_spec(),
    {
        match self {
            Stone::Black => '○',
            Stone::White => '●',
            Stone::Empty => '·',
        }
    }
}

/// A number in a field two characters wide, flush right.
pub open spec fn two_wide(n: nat) -> Seq<char> {
    if n < 10 {
        seq![' '] + decimal_spec(n)
    } else {
        decimal_spec(n)
    }
}

/// Appends a number in a field two characters wide, flush right.
pub fn push_two_wide(out: &mut Vec<char>, n: usize)
    ensures
        final(out)@ == old(out)@ + two_wide(n as nat),
{
    if n < 10 {
        out.push(' ');
    }
    push_decimal(out, n);
    assert(out@ =~= old(out)@ + two_wide(n as nat));
}

/// The letters of the first `n` columns, each between two blanks.
pub open spec fn letters_text(n: int) -> Seq<char>
    decreases n,
{
    if n <= 0 {
        Seq::empty()
    } else {
        letters_text(n - 1) + seq![' ', column_letter(n - 1), ' ']
    }
}

/// The line of column letters above and below the board.
pub open spec fn letters_line(size: int) -> Seq<char> {
    seq![' ', ' '] + letters_text(size) + seq!['\n']
}

/// A point as it is drawn: a stone, a star point, or a dot.
pub open spec fn cell_symbol(b: BoardState, x: int, y: int) -> char {
    match b.stone_at((x, y)) {
        Stone::Black => '○',
        Stone::White => '●',
        Stone::Empty => if b.is_hoshi((x, y)) {
            '+'
        } else {
            '·'
        },
    }
}

/// The first `n` points of row `y`, each between two blanks.
pub open spec fn cells_text(b: BoardState, y: int, n: int) -> Seq<char>
    decreases n,
{
    if n <= 0 {
        Seq::empty()
    } else {
        cells_text(b, y, n - 1) + seq![' ', cell_symbol(b, n - 1, y), ' ']
    }
}

/// The line of row `y`: its number, its points, and its number again.
pub open spec fn row_line(b: BoardState, y: int) -> Seq<char> {
    two_wide((y + 1) as nat) + cells_text(b, y, b.size as int) + seq![' '] + two_wide(
        (y + 1) as nat,
    ) + seq!['\n']
}

/// The lines of the top `n` rows, the topmost first.
pub open spec fn rows_lines(b: BoardState, n: int) -> Seq<char>
    decreases n,
{
    if n <= 0 {
        Seq::empty()
    } else {
        rows_lines(b, n - 1) + row_line(b, b.size - n)
    }
}

/// The whole drawing: the letters, the rows from the top one down, and
/// the letters again.
pub open spec fn board_text(b: BoardState) -> Seq<char> {
    letters_line(b.size as int) + rows_lines(b, b.size as int) + letters_line(b.size as int)
}

/// Appends the line of column letters.
fn push_letters(out: &mut Vec<char>, size: usize)
    requires
        size <= MAX_BOARD_SIZE,
    ensures
        final(out)@ == old(out)@ + letters_line(size as int),
{
    let ghost start = out@;
    out.push(' ');
    out.push(' ');
    let mut x: usize = 0;
    while x < size
        invariant
            x <= size <= MAX_BOARD_SIZE,
            out@ == start + seq![' ', ' '] + letters_text(x as int),
        decreases size - x,
    {
        let col_char = if x < 8 {
            (65u8 + x as u8) as char
        } else {
            (65u8 + x as u8 + 1) as char
        };
        out.push(' ');
        out.push(col_char);
        out.push(' ');
        x += 1;
        assert(out@ =~= start + seq![' ', ' '] + letters_text(x as int));
    }
    out.push('\n');
    assert(out@ =~= start + letters_line(size as int));
}

/// The drawing of the board, to be written to the terminal as it is.
pub fn draw_board(board: &Board) -> (s: String)
    ensures
        s@ == board_text(board@),
{
    let size = board.size();
    let ghost b = board@;
    let mut out: Vec<char> = Vec::new();
    push_letters(&mut out, size);
    let ghost head = out@;
    assert(head =~= letters_line(size as int));
    let mut display_row: usize = 0;
    while display_row < size
        invariant
            b == board@,
            size == b.size,
            size <= MAX_BOARD_SIZE,
            display_row <= size,
            out@ == head + rows_lines(b, display_row as int),
        decreases size - display_row,
    {
        let internal_row = size - 1 - display_row;
        let ghost base = out@;
        push_two_wide(&mut out, size - display_row);
        let ghost numbered = out@;
        let mut x: usize = 0;
        while x < size
            invariant
                b == board@,
                size == b.size,
                x <= size,
                internal_row < size,
                out@ == numbered + cells_text(b, internal_row as int, x as int),
            decreases size - x,
        {
            let symbol = match board.get_stone(x, internal_row) {
                Stone::Black => '○',
                Stone::White => '●',
                Stone::Empty => {
                    if board.is_hoshi_point(x, internal_row) {
                        '+'
                    } else {
                        '·'
                    }
                },
            };
            out.push(' ');
            out.push(symbol);
            out.push(' ');
            x += 1;
            assert(out@ =~= numbered + cells_text(b, internal_row as int, x as int));
        }
        out.push(' ');
        push_two_wide(&mut out, size - display_row);
        out.push('\n');
        display_row += 1;
        assert(out@ =~= head + rows_lines(b, display_row as int));
    }
    push_letters(&mut out, size);
    assert(out@ =~= board_text(b));
    string_of(&out)
}

} // verus!
