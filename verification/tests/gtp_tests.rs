use gnugo_rs::engine::board::Stone;
use gnugo_rs::engine::game::GameStatus;
use gnugo_rs::gtp::{
    format_move, format_response, is_pass, parse_color, parse_gtp_move, GTPHandler, GtpReply,
};

fn say(handler: &mut GTPHandler, command: &str) -> String {
    assert!(handler.is_ready());
    match handler.process_command(command) {
        GtpReply::Text(s) => s,
        other => panic!("no text for {:?}: {:?}", command, describe(&other)),
    }
}

fn describe(reply: &GtpReply) -> String {
    match reply {
        GtpReply::Text(s) => format!("Text({:?})", s),
        GtpReply::SetKomi(id, s) => format!("SetKomi({:?}, {:?})", id, s),
        GtpReply::GetKomi(id) => format!("GetKomi({:?})", id),
        GtpReply::LoadSgf(id, s) => format!("LoadSgf({:?}, {:?})", id, s),
        GtpReply::PrintSgf(id, s) => format!("PrintSgf({:?}, {:?})", id, s),
    }
}

#[test]
fn vertices_are_written_without_the_letter_i() {
    assert_eq!(format_move(0, 0), "A1");
    assert_eq!(format_move(3, 3), "D4");
    assert_eq!(format_move(7, 8), "H9");
    assert_eq!(format_move(8, 0), "J1");
    assert_eq!(format_move(18, 18), "T19");
    assert_eq!(format_move(24, 24), "Z25");
}

#[test]
fn vertices_are_read_on_a_board() {
    assert_eq!(parse_gtp_move("D4", 19), Some((3, 3)));
    assert_eq!(parse_gtp_move("d4", 19), Some((3, 3)));
    assert_eq!(parse_gtp_move("A1", 19), Some((0, 0)));
    assert_eq!(parse_gtp_move("H8", 19), Some((7, 7)));
    assert_eq!(parse_gtp_move("J9", 19), Some((8, 8)));
    assert_eq!(parse_gtp_move("T19", 19), Some((18, 18)));
    assert_eq!(parse_gtp_move("T19", 9), None);
    assert_eq!(parse_gtp_move("K1", 9), None);
    assert_eq!(parse_gtp_move("J9", 9), Some((8, 8)));
    assert_eq!(parse_gtp_move("A10", 9), None);
    assert_eq!(parse_gtp_move("A0", 9), None);
    assert_eq!(parse_gtp_move("I5", 19), None);
    assert_eq!(parse_gtp_move("i5", 19), None);
    assert_eq!(parse_gtp_move("A", 19), None);
    assert_eq!(parse_gtp_move("", 19), None);
    assert_eq!(parse_gtp_move("11", 19), None);
    assert_eq!(parse_gtp_move("pass", 19), None);
    assert_eq!(parse_gtp_move("D4 ", 19), None);
    assert_eq!(parse_gtp_move("D+4", 19), Some((3, 3)));
    for y in 0..19 {
        for x in 0..19 {
            assert_eq!(parse_gtp_move(&format_move(x, y), 19), Some((x, y)));
        }
    }
}

#[test]
fn responses_are_framed() {
    assert_eq!(format_response(None, ""), "=\n\n");
    assert_eq!(format_response(Some(7), ""), "=7\n\n");
    assert_eq!(format_response(None, "ok"), "= ok\n\n");
    assert_eq!(format_response(Some(12), "ok"), "=12 ok\n\n");
    assert_eq!(format_response(None, "? no"), "? ? no\n\n");
    assert_eq!(format_response(Some(3), "? no"), "?3 ? no\n\n");
}

#[test]
fn colours_by_name() {
    let c = |s: &str| parse_color(&s.chars().collect());
    assert_eq!(c("black"), Some(Stone::Black));
    assert_eq!(c("white"), Some(Stone::White));
    assert_eq!(c("Black"), None);
    assert_eq!(c("b"), None);
    assert_eq!(c(""), None);
    assert!(is_pass(&"pass".chars().collect()));
    assert!(!is_pass(&"PASS".chars().collect()));
    assert!(!is_pass(&"pas".chars().collect()));
}

#[test]
fn identity_commands() {
    let mut h = GTPHandler::new(19);
    assert_eq!(say(&mut h, "protocol_version"), "= 2\n\n");
    assert_eq!(say(&mut h, "1 name"), "=1 gnugo_rs\n\n");
    assert_eq!(say(&mut h, "22 version"), "=22 0.2.0\n\n");
    assert_eq!(say(&mut h, "quit"), "= quit\n\n");
    assert_eq!(say(&mut h, "time_settings 0 0 0"), "=\n\n");
    assert_eq!(say(&mut h, ""), "");
    assert_eq!(say(&mut h, "   "), "");
    assert_eq!(say(&mut h, "5"), "=5 unknown command\n\n");
    assert_eq!(say(&mut h, "frobnicate now"), "= unknown command: frobnicate\n\n");
    assert_eq!(say(&mut h, "9 frobnicate"), "=9 unknown command: frobnicate\n\n");
    assert_eq!(say(&mut h, "known_command play"), "= true\n\n");
    assert_eq!(say(&mut h, "known_command loadsgf"), "= true\n\n");
    assert_eq!(say(&mut h, "known_command echo"), "= true\n\n");
    assert_eq!(say(&mut h, "known_command frobnicate"), "= false\n\n");
    assert_eq!(say(&mut h, "known_command"), "= false\n\n");
    let listed = say(&mut h, "list_commands");
    assert!(listed.starts_with("= protocol_version\nname\nversion\nboardsize\n"));
    assert!(listed.ends_with("\nladder_attack\neye_data\n\n"));
    assert_eq!(listed.lines().filter(|l| !l.is_empty()).count(), 27);
    assert!(!listed.contains("loadsgf"));
}

#[test]
fn board_size_and_clearing() {
    let mut h = GTPHandler::new(19);
    assert_eq!(say(&mut h, "play black D4"), "=\n\n");
    assert_eq!(say(&mut h, "boardsize 9"), "=\n\n");
    assert_eq!(h.game().board().size(), 9);
    assert_eq!(h.game().board().stones_on_board(Stone::Black), 0);
    assert_eq!(say(&mut h, "boardsize 26"), "? ? unacceptable size\n\n");
    assert_eq!(say(&mut h, "boardsize 0"), "? ? unacceptable size\n\n");
    assert_eq!(say(&mut h, "boardsize nine"), "? ? unacceptable size\n\n");
    assert_eq!(say(&mut h, "3 boardsize"), "?3 ? unacceptable size\n\n");
    assert_eq!(h.game().board().size(), 9);
    assert_eq!(say(&mut h, "boardsize 25"), "=\n\n");
    assert_eq!(h.game().board().size(), 25);
    assert_eq!(say(&mut h, "boardsize 5"), "=\n\n");
    assert_eq!(say(&mut h, "play black A1"), "=\n\n");
    assert_eq!(say(&mut h, "clear_board"), "=\n\n");
    assert_eq!(h.game().board().size(), 5);
    assert_eq!(h.game().board().stones_on_board(Stone::Black), 0);
    assert_eq!(h.game().current_player(), Stone::Black);
}

#[test]
fn playing_and_undoing() {
    let mut h = GTPHandler::new(9);
    assert_eq!(say(&mut h, "play BLACK c2"), "=\n\n");
    // `C2` is the vertex (2,1); it is played as row 1, column 2.
    assert_eq!(h.game().board().get_stone(1, 2), Stone::Black);
    assert_eq!(say(&mut h, "play white C2"), "? ? Position already occupied\n\n");
    assert_eq!(say(&mut h, "4 play white K1"), "?4 ? invalid move\n\n");
    assert_eq!(say(&mut h, "play green C3"), "? ? invalid color\n\n");
    assert_eq!(say(&mut h, "play white"), "? ? invalid color\n\n");
    assert_eq!(say(&mut h, "play"), "? ? invalid color\n\n");
    // The colour is checked and otherwise ignored: it is White's turn.
    assert_eq!(say(&mut h, "play black D4"), "=\n\n");
    assert_eq!(h.game().board().get_stone(3, 3), Stone::White);
    assert_eq!(say(&mut h, "undo"), "=\n\n");
    assert_eq!(h.game().board().get_stone(3, 3), Stone::Empty);
    assert_eq!(say(&mut h, "undo"), "=\n\n");
    assert_eq!(say(&mut h, "undo"), "? ? cannot undo\n\n");
    assert_eq!(say(&mut h, "play black PASS"), "=\n\n");
    assert_eq!(say(&mut h, "final_score"), "? ? game not finished\n\n");
    assert_eq!(say(&mut h, "play white pass"), "=\n\n");
    assert_eq!(h.game().status(), GameStatus::Ended);
    assert_eq!(say(&mut h, "final_score"), "= 0\n\n");
    assert_eq!(say(&mut h, "play black pass"), "? ? Game is already over\n\n");
    assert_eq!(say(&mut h, "play black A1"), "? ? Game is already over\n\n");
    assert_eq!(say(&mut h, "genmove black"), "? ? Game is already over\n\n");
}

#[test]
fn the_final_score_names_the_leader() {
    let mut h = GTPHandler::new(5);
    assert_eq!(say(&mut h, "play black C3"), "=\n\n");
    assert_eq!(say(&mut h, "play white pass"), "=\n\n");
    assert_eq!(say(&mut h, "play black pass"), "=\n\n");
    assert_eq!(say(&mut h, "final_score"), "= B+\n\n");
    let mut w = GTPHandler::new(5);
    assert_eq!(say(&mut w, "play black pass"), "=\n\n");
    assert_eq!(say(&mut w, "play white C3"), "=\n\n");
    assert_eq!(say(&mut w, "play black pass"), "=\n\n");
    assert_eq!(say(&mut w, "play white pass"), "=\n\n");
    assert_eq!(say(&mut w, "final_score"), "= W+\n\n");
}

#[test]
fn generated_moves_take_the_first_point() {
    let mut h = GTPHandler::new(3);
    assert_eq!(say(&mut h, "genmove black"), "= A1\n\n");
    assert_eq!(say(&mut h, "genmove_white"), "= B1\n\n");
    // B1 is the vertex (1,0), played as row 0, column 1: the point (0,1).
    assert_eq!(h.game().board().get_stone(0, 0), Stone::Black);
    assert_eq!(h.game().board().get_stone(0, 1), Stone::White);
    assert_eq!(say(&mut h, "genmove_black"), "= C1\n\n");
    assert_eq!(h.game().board().get_stone(0, 2), Stone::Black);
    assert_eq!(say(&mut h, "genmove purple"), "? ? invalid color\n\n");
    assert_eq!(say(&mut h, "genmove"), "? ? invalid color\n\n");
}

#[test]
fn generating_on_a_full_board_passes() {
    let mut h = GTPHandler::new(1);
    assert_eq!(say(&mut h, "7 genmove white"), "=7 pass\n\n");
    assert_eq!(h.game().pass_count(), 1);
    assert_eq!(say(&mut h, "genmove white"), "= pass\n\n");
    assert_eq!(say(&mut h, "genmove white"), "? ? Game is already over\n\n");
}

#[test]
fn captures_and_stones_are_reported() {
    let mut h = GTPHandler::new(5);
    assert_eq!(say(&mut h, "play black A2"), "=\n\n"); // Black on (1,0)
    assert_eq!(say(&mut h, "play white A1"), "=\n\n"); // White on (0,0)
    assert_eq!(say(&mut h, "play black B1"), "=\n\n"); // Black on (0,1) captures
    assert_eq!(say(&mut h, "captures black"), "= 1\n\n");
    assert_eq!(say(&mut h, "captures WHITE"), "= 0\n\n");
    assert_eq!(say(&mut h, "captures"), "? ? invalid color\n\n");
    assert_eq!(say(&mut h, "list_stones black"), "= B1\nA2\n\n");
    assert_eq!(say(&mut h, "list_stones white"), "=\n\n");
    assert_eq!(say(&mut h, "list_stones red"), "? ? invalid color\n\n");
    assert_eq!(say(&mut h, "showboard"), "= . X . . . \nX . . . . \n. . . . . \n. . . . . \n. . . . . \n\n\n");
}

#[test]
fn liberties_are_reported() {
    let mut h = GTPHandler::new(5);
    assert_eq!(say(&mut h, "play black A1"), "=\n\n");
    assert_eq!(say(&mut h, "countlib A1"), "= 2\n\n");
    assert_eq!(say(&mut h, "findlib A1"), "= B1\nA2\n\n");
    assert_eq!(say(&mut h, "countlib C3"), "= 0\n\n");
    assert_eq!(say(&mut h, "findlib C3"), "=\n\n");
    assert_eq!(say(&mut h, "countlib Z9"), "? ? invalid move\n\n");
    assert_eq!(say(&mut h, "findlib"), "? ? invalid move\n\n");
    assert_eq!(say(&mut h, "ladder_attack A1"), "= 1 B1\n\n");
    assert_eq!(say(&mut h, "ladder_attack C3"), "? ? vertex must not be empty\n\n");
    assert_eq!(say(&mut h, "ladder_attack"), "? ? invalid move\n\n");
    assert_eq!(say(&mut h, "play white C3"), "=\n\n");
    assert_eq!(say(&mut h, "ladder_attack C3"), "? ? string must have exactly 2 liberties\n\n");
}

#[test]
fn legality_is_reported() {
    let mut h = GTPHandler::new(5);
    assert_eq!(say(&mut h, "play black A2"), "=\n\n"); // Black on (1,0)
    assert_eq!(say(&mut h, "is_legal white pass"), "= 1\n\n");
    assert_eq!(say(&mut h, "is_legal white C3"), "= 1\n\n");
    // B1 is the vertex (1,0), which holds the black stone.
    assert_eq!(say(&mut h, "is_legal white B1"), "= 0\n\n");
    // A2 is the vertex (0,1): empty, but its mirror image (1,0) is taken.
    assert_eq!(say(&mut h, "is_legal white A2"), "= 0\n\n");
    assert_eq!(say(&mut h, "is_legal white K9"), "= 0\n\n");
    assert_eq!(say(&mut h, "is_legal grey C3"), "? ? invalid color\n\n");
    assert_eq!(say(&mut h, "is_legal white"), "? ? invalid color\n\n");
}

#[test]
fn eyes_are_described() {
    let mut h = GTPHandler::new(5);
    // Black on (1,0), (0,1) and (1,2) around (1,1); White plays far away.
    assert_eq!(say(&mut h, "play black A2"), "=\n\n");
    assert_eq!(say(&mut h, "play white E5"), "=\n\n");
    assert_eq!(say(&mut h, "play black B1"), "=\n\n");
    assert_eq!(say(&mut h, "play white E4"), "=\n\n");
    assert_eq!(say(&mut h, "play black C2"), "=\n\n");
    let text = say(&mut h, "eye_data black B2");
    assert_eq!(
        text,
        "= origin 1 1\ncolor black\nesize 1\nmsize 0\nvalue 1.1\nmarginal 1\nneighbors 3\nmarginal_neighbors 1\n\n"
    );
    assert_eq!(say(&mut h, "eye_data white B2"), "? ? no eye data for this position\n\n");
    assert_eq!(say(&mut h, "eye_data black C3"), "? ? no eye data for this position\n\n");
    assert_eq!(say(&mut h, "eye_data black K3"), "? ? invalid move\n\n");
    assert_eq!(say(&mut h, "eye_data blue B2"), "? ? invalid color\n\n");
}

#[test]
fn commands_for_the_caller() {
    let mut h = GTPHandler::new(9);
    assert!(matches!(h.process_command("komi 6.5"), GtpReply::SetKomi(None, s) if s == "6.5"));
    assert!(matches!(h.process_command("8 komi"), GtpReply::SetKomi(Some(8), s) if s.is_empty()));
    assert!(matches!(h.process_command("get_komi"), GtpReply::GetKomi(None)));
    assert!(matches!(h.process_command("2 get_komi"), GtpReply::GetKomi(Some(2))));
    assert!(
        matches!(h.process_command("loadsgf game.sgf 3"), GtpReply::LoadSgf(None, s) if s == "game.sgf")
    );
    assert!(
        matches!(h.process_command("5 loadsgf"), GtpReply::Text(s) if s == "?5 ? missing filename\n\n")
    );
    assert!(matches!(h.process_command("printsgf"), GtpReply::PrintSgf(None, s) if s.is_empty()));
    assert!(
        matches!(h.process_command("1 printsgf out.sgf"), GtpReply::PrintSgf(Some(1), s) if s == "out.sgf")
    );
}

#[test]
fn records_are_loaded_and_printed() {
    let mut h = GTPHandler::new(19);
    assert_eq!(h.load_sgf(Some(4), "game.sgf", "(;SZ[5];B[aa];W[bb])"), "=4\n\n");
    assert_eq!(h.game().board().size(), 5);
    assert_eq!(h.game().board().get_stone(0, 0), Stone::Black);
    assert_eq!(h.game().board().get_stone(1, 1), Stone::White);
    assert_eq!(h.sgf_text("5.5"), "(;FF[4]GM[1]SZ[5]KM[5.5]\n;AB[aa];AW[bb]\n)\n");
    assert_eq!(
        h.load_sgf(None, "bad.sgf", "(;SZ[5]"),
        "? ? Parse error in 'bad.sgf': Expected ')' at position 7\n\n"
    );
    assert_eq!(h.game().board().get_stone(0, 0), Stone::Black);
    assert_eq!(
        h.load_sgf(Some(1), "again.sgf", "(;B[cc];W[cc])"),
        "?1 ? Failed to apply white move: Position already occupied\n\n"
    );
    assert_eq!(h.game().board().get_stone(2, 2), Stone::Black);
}
