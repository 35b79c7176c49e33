//! Text views of the board and the line-based interface of a game.

pub mod board_renderer;
pub mod board_view;
pub mod terminal;
