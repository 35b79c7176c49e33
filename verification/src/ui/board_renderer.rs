//! A board renderer with symbols and colours of the caller's choice.

use vstd::prelude::*;
use crate::engine::board::{Board, Stone, MAX_BOARD_SIZE};
use crate::engine::state::BoardState;
use crate::text::{push_str, string_of};
use crate::ui::board_view::{push_two_wide, two_wide};

verus! {

/// How a board is rendered.
#[derive(Debug, Clone, Copy)]
pub struct RenderConfig {
    pub empty_symbol: char,
    pub black_symbol: char,
    pub white_symbol: char,
    /// Whether stones are wrapped in colour escape sequences.
    pub use_colors: bool,
    /// Whether column letters and row numbers are shown.
    pub show_coordinates: bool,
}

impl RenderConfig {
    /// Dots and circles, in colour, with coordinates.
    pub open spec fn standard() -> RenderConfig {
        RenderConfig {
            empty_symbol: '·',
            black_symbol: '○',
            white_symbol: '●',
            use_colors: true,
            show_coordinates: true,
        }
    }

    /// The symbol of a point.
    pub open spec fn symbol(self, stone: Stone) -> char {
        match stone {
            Stone::Empty => self.empty_symbol,
            Stone::Black => self.black_symbol,
            Stone::White => self.white_symbol,
        }
    }

    /// A point as it is rendered: blue for Black and white for White where
    /// colours are on, else the symbol between two blanks.
    pub open spec fn cell(self, stone: Stone) -> Seq<char> {
        if !self.use_colors || stone == Stone::Empty {
            seq![' ', self.symbol(stone), ' ']
        } else if stone == Stone::Black {
            "\x1b[34m"@ + seq![self.symbol(stone), ' '] + "\x1b[0m"@
        } else {
            "\x1b[37m"@ + seq![self.symbol(stone), ' '] + "\x1b[0m"@
        }
    }

    /// The letters `A`, `B`, ... of the first `n` columns, each between two
    /// blanks.
    pub open spec fn header_cells(n: int) -> Seq<char>
        decreases n,
    {
        if n <= 0 {
            Seq::empty()
        } else {
            Self::header_cells(n - 1) + seq![' ', ((65 + n - 1) as u8) as char, ' ']
        }
    }

    /// The first `n` points of row `y`.
    pub open spec fn row_cells(self, b: BoardState, y: int, n: int) -> Seq<char>
        decreases n,
    {
        if n <= 0 {
            Seq::empty()
        } else {
            self.row_cells(b, y, n - 1) + self.cell(b.stone_at((n - 1, y)))
        }
    }

    /// The line of row `y`.
    pub open spec fn row_line(self, b: BoardState, y: int) -> Seq<char> {
        (if self.show_coordinates {
            two_wide((y + 1) as nat)
        } else {
            Seq::empty()
        }) + self.row_cells(b, y, b.size as int) + seq!['\n']
    }

    /// The lines of the first `n` rows.
    pub open spec fn rows(self, b: BoardState, n: int) -> Seq<char>
        decreases n,
    {
        if n <= 0 {
            Seq::empty()
        } else {
            self.rows(b, n - 1) + self.row_line(b, n - 1)
        }
    }

    /// The rendering of a board: the column letters where coordinates are
    /// shown, and the rows from row 1 on.
    pub open spec fn render(self, b: BoardState) -> Seq<char> {
        (if self.show_coordinates {
            seq![' ', ' '] + Self::header_cells(b.size as int) + seq!['\n']
        } else {
            Seq::empty()
        }) + self.rows(b, b.size as int)
    }
}

impl Default for RenderConfig {
    fn default() -> (c: RenderConfig)
        ensures
            c == RenderConfig::standard(),
    {
        RenderConfig {
            empty_symbol: '·',
            black_symbol: '○',
            white_symbol: '●',
            use_colors: true,
            show_coordinates: true,
        }
    }
}

/// Renders boards as text.
pub struct BoardRenderer {
    config: RenderConfig,
}

impl BoardRenderer {
    /// The configuration in use.
    pub closed spec fn settings(&self) -> RenderConfig {
        self.config
    }

    /// A renderer with the given configuration.
    pub fn new(config: RenderConfig) -> (r: BoardRenderer)
        ensures
            r.settings() == config,
    {
        BoardRenderer { config }
    }

    /// A renderer with the standard configuration.
    pub fn with_defaults() -> (r: BoardRenderer)
        ensures
            r.settings() == RenderConfig::standard(),
    {
        Self::new(RenderConfig::default())
    }

    /// The board as text.
    pub fn render(&self, board: &Board) -> (s: String)
        ensures
            s@ == self.settings().render(board@),
    {
        let size = board.size();
        let ghost b = board@;
        let ghost config = self.config;
        let mut output: Vec<char> = Vec::new();
        if self.config.show_coordinates {
            output.push(' ');
            output.push(' ');
            let mut x: usize = 0;
            while x < size
                invariant
                    x <= size <= MAX_BOARD_SIZE,
                    output@ == seq![' ', ' '] + RenderConfig::header_cells(x as int),
                decreases size - x,
            {
                let col_char = (65u8 + x as u8) as char;
                output.push(' ');
                output.push(col_char);
                output.push(' ');
                x += 1;
                assert(output@ =~= seq![' ', ' '] + RenderConfig::header_cells(x as int));
            }
            output.push('\n');
        }
        let ghost head = output@;
        assert(head =~= if config.show_coordinates {
            seq![' ', ' '] + RenderConfig::header_cells(size as int) + seq!['\n']
        } else {
            Seq::<char>::empty()
        });
        let mut y: usize = 0;
        while y < size
            invariant
                b == board@,
                size == b.size,
                config == self.config,
                y <= size,
                output@ == head + config.rows(b, y as int),
            decreases size - y,
        {
            let ghost base = output@;
            if self.config.show_coordinates {
                push_two_wide(&mut output, y + 1);
            }
            let ghost numbered = output@;
            let mut x: usize = 0;
            while x < size
                invariant
                    b == board@,
                    size == b.size,
                    config == self.config,
                    y < size,
                    x <= size,
                    output@ == numbered + config.row_cells(b, y as int, x as int),
                decreases size - x,
            {
                let stone = board.get_stone(x, y);
                let symbol = self.stone_to_symbol(stone);
                self.colorize(&mut output, symbol, stone);
                x += 1;
                assert(output@ =~= numbered + config.row_cells(b, y as int, x as int));
            }
            output.push('\n');
            y += 1;
            assert(output@ =~= head + config.rows(b, y as int));
        }
        string_of(&output)
    }

    /// The symbol of a point.
    fn stone_to_symbol(&self, stone: Stone) -> (c: char)
        ensures
            c == self.settings().symbol(stone),
    {
        match stone {
            Stone::Empty => self.config.empty_symbol,
            Stone::Black => self.config.black_symbol,
            Stone::White => self.config.white_symbol,
        }
    }

    /// Appends a point as it is rendered.
    fn colorize(&self, out: &mut Vec<char>, symbol: char, stone: Stone)
        requires
            symbol == self.settings().symbol(stone),
        ensures
            final(out)@ == old(out)@ + self.settings().cell(stone),
    {
        if !self.config.use_colors {
            out.push(' ');
            out.push(symbol);
            out.push(' ');
        } else {
            match stone {
                Stone::Black => {
                    push_str(out, "\x1b[34m");
                    out.push(symbol);
                    out.push(' ');
                    push_str(out, "\x1b[0m");
                },
                Stone::White => {
                    push_str(out, "\x1b[37m");
                    out.push(symbol);
                    out.push(' ');
                    push_str(out, "\x1b[0m");
                },
                Stone::Empty => {
                    out.push(' ');
                    out.push(symbol);
                    out.push(' ');
                },
            }
        }
        assert(out@ =~= old(out)@ + self.settings().cell(stone));
    }

    /// Replaces the configuration.
    pub fn update_config(&mut self, config: RenderConfig)
        ensures
            final(self).settings() == config,
    {
        self.config = config;
    }

    /// The configuration in use.
    pub fn config(&self) -> (c: &RenderConfig)
        ensures
            *c == self.settings(),
    {
        &self.config
    }
}

} // verus!
