use gnugo_rs::engine::board::{ErrorKind, Stone};
use gnugo_rs::engine::game::Game;
use gnugo_rs::sgf::{
    classify_value, format_sgf_point, get_property, stone_to_sgf_color, ApplyError, SGFHandler,
    SGFProperty, SgfError,
};

fn text(s: &str) -> SGFProperty {
    SGFProperty::Text(s.to_string())
}

#[test]
fn points_and_colours_in_records() {
    assert_eq!(format_sgf_point(0, 0), "aa");
    assert_eq!(format_sgf_point(3, 3), "dd");
    assert_eq!(format_sgf_point(8, 2), "ic");
    assert_eq!(format_sgf_point(24, 18), "ys");
    assert_eq!(format_sgf_point(25, 0), "za");
    assert_eq!(format_sgf_point(0, 18), "as");
    for x in 0..26 {
        for y in 0..26 {
            let s = format_sgf_point(x, y);
            assert_eq!(s.as_bytes(), [b'a' + x as u8, b'a' + y as u8]);
            assert_eq!(SGFHandler::new().parse_point(&s), Some((x, y)));
        }
    }
    assert_eq!(stone_to_sgf_color(Stone::Black), "B");
    assert_eq!(stone_to_sgf_color(Stone::White), "W");
    assert_eq!(stone_to_sgf_color(Stone::Empty), "");
    let handler = SGFHandler::new();
    assert_eq!(handler.parse_point("dd"), Some((3, 3)));
    assert_eq!(handler.parse_point("az"), Some((0, 25)));
    assert_eq!(handler.parse_point("ia"), Some((8, 0)));
    assert_eq!(handler.parse_point("d"), None);
    assert_eq!(handler.parse_point("ddd"), None);
    assert_eq!(handler.parse_point("dD"), None);
    assert_eq!(handler.parse_point("d4"), None);
    assert_eq!(handler.parse_point("é"), None);
    assert_eq!(handler.parse_point(""), None);
}

#[test]
fn values_are_classified() {
    let c = |s: &str| classify_value(&s.chars().collect());
    assert_eq!(c("19"), SGFProperty::Number(19));
    assert_eq!(c("-3"), SGFProperty::Number(-3));
    assert_eq!(c("+4"), SGFProperty::Number(4));
    assert_eq!(c("1"), SGFProperty::Number(1));
    assert_eq!(c("B"), SGFProperty::Color(Stone::Black));
    assert_eq!(c("W"), SGFProperty::Color(Stone::White));
    assert_eq!(c("dd"), SGFProperty::Point((3, 3)));
    assert_eq!(c("6.5"), text("6.5"));
    assert_eq!(c("99999999999"), text("99999999999"));
    assert_eq!(c(""), text(""));
    assert_eq!(c("b"), text("b"));
    assert_eq!(c("Dd"), text("Dd"));
    assert_eq!(c("Hello there"), text("Hello there"));
}

#[test]
fn a_record_is_read_into_a_tree() {
    let handler = SGFHandler::new();
    let tree =
        handler.parse("  (;FF[4]GM[1]SZ[9]KM[6.5]AB[aa][bb];B[cc];W[dd](;B[ee])(;B[ff];W[gg]))trailing").unwrap();
    assert_eq!(tree.current, 0);
    let root = &tree.root;
    let names: Vec<&str> = root.properties.iter().map(|p| p.0.as_str()).collect();
    assert_eq!(names, vec!["FF", "GM", "SZ", "KM", "AB"]);
    assert_eq!(get_property(&root.properties, "SZ"), Some(&vec![SGFProperty::Number(9)]));
    assert_eq!(get_property(&root.properties, "KM"), Some(&vec![text("6.5")]));
    assert_eq!(
        get_property(&root.properties, "AB"),
        Some(&vec![SGFProperty::Point((0, 0)), SGFProperty::Point((1, 1))])
    );
    assert_eq!(get_property(&root.properties, "AW"), None);
    assert_eq!(root.children.len(), 1);
    let first = &root.children[0];
    assert_eq!(get_property(&first.properties, "B"), Some(&vec![SGFProperty::Point((2, 2))]));
    assert_eq!(first.children.len(), 1);
    let second = &first.children[0];
    assert_eq!(get_property(&second.properties, "W"), Some(&vec![SGFProperty::Point((3, 3))]));
    assert_eq!(second.children.len(), 2);
    assert_eq!(
        get_property(&second.children[0].properties, "B"),
        Some(&vec![SGFProperty::Point((4, 4))])
    );
    assert!(second.children[0].children.is_empty());
    assert_eq!(second.children[1].children.len(), 1);
    assert_eq!(
        get_property(&second.children[1].children[0].properties, "W"),
        Some(&vec![SGFProperty::Point((6, 6))])
    );
}

#[test]
fn a_repeated_property_keeps_the_last_values_in_the_first_place() {
    let handler = SGFHandler::new();
    let tree = handler.parse("(;C[one]SZ[9]C[two][three]X)").unwrap();
    let names: Vec<&str> = tree.root.properties.iter().map(|p| p.0.as_str()).collect();
    assert_eq!(names, vec!["C", "SZ", "X"]);
    assert_eq!(get_property(&tree.root.properties, "C"), Some(&vec![text("two"), text("three")]));
    assert_eq!(get_property(&tree.root.properties, "X"), Some(&vec![]));
}

#[test]
fn broken_records_are_refused_with_the_position() {
    let handler = SGFHandler::new();
    let err = |s: &str| handler.parse(s).err();
    assert_eq!(err(""), Some(SgfError::ExpectedOpen(0)));
    assert_eq!(err("   "), Some(SgfError::ExpectedOpen(3)));
    assert_eq!(err(" ;B[aa])"), Some(SgfError::ExpectedOpen(1)));
    assert_eq!(err("("), Some(SgfError::ExpectedSemicolon(1)));
    assert_eq!(err("(  B[aa])"), Some(SgfError::ExpectedSemicolon(3)));
    assert_eq!(err("(;B[aa]"), Some(SgfError::ExpectedClose(7)));
    assert_eq!(err("(;B[aa]  x"), Some(SgfError::Unexpected(' ', 7)));
    assert_eq!(err("(;B[aa]w[bb])"), Some(SgfError::Unexpected('w', 7)));
    assert_eq!(err("(;B[aa"), Some(SgfError::ExpectedBracket(6)));
    assert_eq!(err("(;C[a\\]b])"), Some(SgfError::ExpectedBracket(5)));
    assert_eq!(err("(;B[aa](;W[bb]"), Some(SgfError::ExpectedClose(14)));
    assert_eq!(err("(;B[aa](W[bb]))"), Some(SgfError::ExpectedSemicolon(8)));
    assert_eq!(err("(;B[aa];)"), None);
    assert_eq!(err("(;)"), None);
    assert_eq!(err("(;B[aa] )"), Some(SgfError::Unexpected(' ', 7)));
    assert_eq!(err("(;B[aa]; W[bb])"), Some(SgfError::Unexpected(' ', 8)));
}

#[test]
fn error_sentences() {
    assert_eq!(SgfError::ExpectedOpen(0).message(), "Expected '(' at position 0");
    assert_eq!(SgfError::ExpectedClose(12).message(), "Expected ')' at position 12");
    assert_eq!(SgfError::ExpectedSemicolon(3).message(), "Expected ';' at position 3");
    assert_eq!(
        SgfError::ExpectedBracket(7).message(),
        "Expected ']' after property value at position 7"
    );
    assert_eq!(SgfError::ExpectedIdentifier(1).message(), "Expected identifier at position 1");
    assert_eq!(SgfError::Unexpected('x', 5).message(), "Unexpected character 'x' at position 5");
    assert_eq!(ApplyError::BoardSize(30).message(), "Unsupported board size");
    assert_eq!(
        ApplyError::BlackMove(ErrorKind::Occupied).message(),
        "Failed to apply black move: Position already occupied"
    );
    assert_eq!(
        ApplyError::WhiteMove(ErrorKind::KoViolation).message(),
        "Failed to apply white move: Ko threat violation"
    );
    assert_eq!(ApplyError::CountersFull.message(), "Capture counters are full");
}

#[test]
fn scanning_helpers() {
    let handler = SGFHandler::new();
    let chars: Vec<char> = "  \n AB[cd]x".chars().collect();
    assert_eq!(handler.skip_whitespace(&chars, 0), 4);
    assert_eq!(handler.skip_whitespace(&chars, 4), 4);
    assert_eq!(handler.skip_whitespace(&chars, chars.len()), chars.len());
    assert_eq!(handler.read_identifier(&chars, 4), Ok(("AB".to_string(), 6)));
    assert_eq!(handler.read_identifier(&chars, 6), Err(SgfError::ExpectedIdentifier(6)));
    assert_eq!(handler.read_identifier(&chars, chars.len()), Err(SgfError::ExpectedIdentifier(11)));
}

#[test]
fn a_tree_is_replayed_on_a_game() {
    let handler = SGFHandler::new();
    let tree = handler.parse("(;SZ[5];B[bc];W[dd];B[aa][ee])").unwrap();
    let mut game = Game::new(9);
    assert_eq!(handler.apply_to_game(&tree, &mut game), Ok(()));
    assert_eq!(game.board.size(), 5);
    // The point `bc` is (1,2); it is played as row 2, column 1.
    assert_eq!(game.board.get_stone(2, 1), Stone::Black);
    assert_eq!(game.board.get_stone(3, 3), Stone::White);
    assert_eq!(game.board.get_stone(0, 0), Stone::Black);
    assert_eq!(game.board.get_stone(4, 4), Stone::White);
    assert_eq!(game.history.len(), 4);
    assert_eq!(game.current_player(), Stone::Black);
}

#[test]
fn variations_start_again_from_the_game_before_their_parent() {
    let handler = SGFHandler::new();
    let tree = handler.parse("(;SZ[5];B[aa](;W[bb])(;W[cc]))").unwrap();
    let mut game = Game::new(5);
    assert_eq!(handler.apply_to_game(&tree, &mut game), Ok(()));
    // The second variation is replayed on the game as it was before `B[aa]`.
    assert_eq!(game.board.get_stone(0, 0), Stone::Empty);
    assert_eq!(game.board.get_stone(1, 1), Stone::Empty);
    assert_eq!(game.board.get_stone(2, 2), Stone::Black);
    assert_eq!(game.history.len(), 1);
}

#[test]
fn a_refused_move_stops_the_replay() {
    let handler = SGFHandler::new();
    let tree = handler.parse("(;SZ[5];B[aa];W[aa];B[bb])").unwrap();
    let mut game = Game::new(5);
    assert_eq!(
        handler.apply_to_game(&tree, &mut game),
        Err(ApplyError::WhiteMove(ErrorKind::Occupied))
    );
    assert_eq!(game.board.get_stone(0, 0), Stone::Black);
    assert_eq!(game.board.get_stone(1, 1), Stone::Empty);
    let far = handler.parse("(;SZ[5];B[zz])").unwrap();
    assert_eq!(
        handler.apply_to_game(&far, &mut game),
        Err(ApplyError::BlackMove(ErrorKind::OutOfBounds))
    );
    let big = handler.parse("(;SZ[26];B[aa])").unwrap();
    let mut other = Game::new(7);
    other.make_move(1, 1).unwrap();
    assert_eq!(handler.apply_to_game(&big, &mut other), Err(ApplyError::BoardSize(26)));
    assert_eq!(other.board.size(), 7);
    assert_eq!(other.board.get_stone(1, 1), Stone::Black);
    let none = handler.parse("(;SZ[0])").unwrap();
    assert_eq!(handler.apply_to_game(&none, &mut other), Err(ApplyError::BoardSize(0)));
}

#[test]
fn without_a_size_the_game_goes_on() {
    let handler = SGFHandler::new();
    let tree = handler.parse("(;GM[1];B[cc])").unwrap();
    let mut game = Game::new(9);
    game.make_move(0, 0).unwrap();
    assert_eq!(handler.apply_to_game(&tree, &mut game), Ok(()));
    assert_eq!(game.board.size(), 9);
    assert_eq!(game.board.get_stone(0, 0), Stone::Black);
    assert_eq!(game.board.get_stone(2, 2), Stone::White);
}

#[test]
fn a_position_is_written_as_a_record() {
    let handler = SGFHandler::new();
    let mut game = Game::new(9);
    assert_eq!(handler.game_to_sgf(&game, "6.5"), "(;FF[4]GM[1]SZ[9]KM[6.5]\n\n)\n");
    game.board.set_stone(3, 3, Stone::Black);
    game.board.set_stone(0, 0, Stone::Black);
    game.board.set_stone(8, 2, Stone::White);
    assert_eq!(
        handler.game_to_sgf(&game, "0"),
        "(;FF[4]GM[1]SZ[9]KM[0]\n;AB[aa][dd];AW[ic]\n)\n"
    );
    // The line break after the header is not something the reader accepts.
    assert_eq!(
        handler.parse(&handler.game_to_sgf(&game, "0")).err(),
        Some(SgfError::Unexpected('\n', 22))
    );
}
