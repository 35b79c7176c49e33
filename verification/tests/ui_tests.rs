use gnugo_rs::engine::board::{Board, ErrorKind, Stone};
use gnugo_rs::engine::game::GameStatus;
use gnugo_rs::ui::board_renderer::{BoardRenderer, RenderConfig};
use gnugo_rs::ui::board_view::draw_board;
use gnugo_rs::ui::terminal::{parse_move, trim, TerminalAction, TerminalUI};

#[test]
fn stones_as_characters() {
    assert_eq!(Stone::Black.to_char(), '○');
    assert_eq!(Stone::White.to_char(), '●');
    assert_eq!(Stone::Empty.to_char(), '·');
}

#[test]
fn a_small_board_is_drawn_with_row_one_at_the_bottom() {
    let mut board = Board::new(3);
    board.set_stone(0, 0, Stone::Black);
    board.set_stone(2, 2, Stone::White);
    let expected = "   A  B  C \n 3 ·  ·  ●   3\n 2 ·  +  ·   2\n 1 ○  ·  ·   1\n   A  B  C \n";
    assert_eq!(draw_board(&board), expected);
}

#[test]
fn a_large_board_skips_the_letter_i_and_numbers_flush_right() {
    let board = Board::new(10);
    let text = draw_board(&board);
    let lines: Vec<&str> = text.lines().collect();
    assert_eq!(lines.len(), 12);
    assert_eq!(lines[0], "   A  B  C  D  E  F  G  H  J  K ");
    assert_eq!(lines[11], lines[0]);
    assert!(lines[1].starts_with("10 · "));
    assert!(lines[1].ends_with(" 10"));
    assert!(lines[10].starts_with(" 1 · "));
    assert!(lines[10].ends_with("  1"));
    // The star points of a 10x10 board are the four 3-3 points.
    assert_eq!(text.matches('+').count(), 4);
}

#[test]
fn default_rendering() {
    let config = RenderConfig::default();
    assert_eq!(config.empty_symbol, '·');
    assert_eq!(config.black_symbol, '○');
    assert_eq!(config.white_symbol, '●');
    assert!(config.use_colors);
    assert!(config.show_coordinates);
    let renderer = BoardRenderer::with_defaults();
    assert!(renderer.config().use_colors);
    let mut board = Board::new(2);
    board.set_stone(0, 0, Stone::Black);
    board.set_stone(1, 1, Stone::White);
    let expected = "   A  B \n 1\u{1b}[34m○ \u{1b}[0m · \n 2 · \u{1b}[37m● \u{1b}[0m\n";
    assert_eq!(renderer.render(&board), expected);
}

#[test]
fn plain_rendering_with_custom_symbols() {
    let config = RenderConfig {
        empty_symbol: '.',
        black_symbol: 'X',
        white_symbol: 'O',
        use_colors: false,
        show_coordinates: false,
    };
    let mut renderer = BoardRenderer::new(config);
    let mut board = Board::new(3);
    board.set_stone(1, 0, Stone::Black);
    board.set_stone(2, 2, Stone::White);
    assert_eq!(renderer.render(&board), " .  X  . \n .  .  . \n .  .  O \n");
    renderer.update_config(RenderConfig { show_coordinates: true, ..config });
    assert!(renderer.config().show_coordinates);
    assert_eq!(
        renderer.render(&board),
        "   A  B  C \n 1 .  X  . \n 2 .  .  . \n 3 .  .  O \n"
    );
    let wide = Board::new(10);
    let text = renderer.render(&wide);
    assert!(text.starts_with("   A  B  C  D  E  F  G  H  I  J \n 1 . "));
    assert!(text.contains("\n10 . "));
}

#[test]
fn moves_typed_at_the_terminal() {
    assert_eq!(parse_move("A1"), Some((0, 0)));
    assert_eq!(parse_move("a1"), Some((0, 0)));
    assert_eq!(parse_move("h8"), Some((7, 7)));
    assert_eq!(parse_move("j9"), Some((8, 8)));
    assert_eq!(parse_move("T19"), Some((18, 18)));
    assert_eq!(parse_move("d0"), Some((0, 3)));
    assert_eq!(parse_move("z100"), Some((99, 24)));
    assert_eq!(parse_move("i5"), None);
    assert_eq!(parse_move("I5"), None);
    assert_eq!(parse_move(""), None);
    assert_eq!(parse_move("d"), None);
    assert_eq!(parse_move("4d"), None);
    assert_eq!(parse_move("d4x"), None);
    assert_eq!(parse_move("d-4"), None);
    assert_eq!(parse_move("é4"), None);
    assert_eq!(parse_move("[4"), None);
}

#[test]
fn trimming() {
    let t = |s: &str| -> String { trim(&s.chars().collect()).into_iter().collect() };
    assert_eq!(t("  pass \n"), "pass");
    assert_eq!(t("a b"), "a b");
    assert_eq!(t(" \t "), "");
    assert_eq!(t(""), "");
    assert_eq!(t("x"), "x");
    assert_eq!(t("\u{3000}é \u{a0}"), "é");
}

#[test]
fn a_game_at_the_terminal() {
    let mut ui = TerminalUI::new(9);
    assert!(ui.is_ready());
    assert!(matches!(ui.handle_input("  D4\n"), TerminalAction::Continue));
    // `d4` is row 3, column 3; it is played as column and row swapped again.
    assert_eq!(ui.game().board().get_stone(3, 3), Stone::Black);
    assert!(matches!(ui.handle_input("a2\n"), TerminalAction::Continue));
    assert_eq!(ui.game().board().get_stone(0, 1), Stone::White);
    assert!(matches!(
        ui.handle_input("A2\n"),
        TerminalAction::Rejected(ErrorKind::Occupied)
    ));
    assert!(matches!(
        ui.handle_input("k1\n"),
        TerminalAction::Rejected(ErrorKind::OutOfBounds)
    ));
    assert!(matches!(ui.handle_input("hello\n"), TerminalAction::Invalid));
    assert!(matches!(ui.handle_input("\n"), TerminalAction::Invalid));
    assert!(matches!(ui.handle_input("PASS\n"), TerminalAction::Continue));
    assert_eq!(ui.game().pass_count(), 1);
    assert!(matches!(ui.handle_input("Quit\n"), TerminalAction::Quit));
    assert!(matches!(ui.handle_input("pass"), TerminalAction::Continue));
    assert_eq!(ui.game().status(), GameStatus::Ended);
    assert!(matches!(
        ui.handle_input("pass"),
        TerminalAction::Rejected(ErrorKind::GameAlreadyOver)
    ));
    assert!(matches!(
        ui.handle_input("resign"),
        TerminalAction::Rejected(ErrorKind::GameAlreadyOver)
    ));
    let mut other = TerminalUI::new(5);
    assert!(matches!(other.handle_input("resign"), TerminalAction::Continue));
    assert_eq!(other.game().winner(), Some(Stone::White));
}
