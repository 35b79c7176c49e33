use gnugo_rs::engine::ai::{empty_points, get_random_move, AIDifficulty, AI};
use gnugo_rs::engine::board::{neighbor, Board, ErrorKind, Stone};
use gnugo_rs::engine::evaluation::Evaluator;
use gnugo_rs::engine::eye::{EyeAnalyzer, EyeValue, HalfEyeType};
use gnugo_rs::engine::game::Game;
use gnugo_rs::engine::move_generation::{Move, MoveGenerator};
use gnugo_rs::engine::rules::{BoardExt, GameRules, KoRule};

fn snapshot(board: &Board) -> (Vec<Stone>, [usize; 2], Option<(usize, usize)>) {
    let mut cells = Vec::new();
    for y in 0..board.size() {
        for x in 0..board.size() {
            cells.push(board.get_stone(x, y));
        }
    }
    (cells, board.get_captured(), board.get_ko_point())
}

#[test]
fn opponents() {
    assert_eq!(Stone::Black.opponent(), Stone::White);
    assert_eq!(Stone::White.opponent(), Stone::Black);
    assert_eq!(Stone::Empty.opponent(), Stone::Empty);
}

#[test]
fn neighbours_stay_on_the_board() {
    assert_eq!(neighbor(9, 0, 0, 0), None);
    assert_eq!(neighbor(9, 0, 0, 1), Some((0, 1)));
    assert_eq!(neighbor(9, 0, 0, 2), None);
    assert_eq!(neighbor(9, 0, 0, 3), Some((1, 0)));
    assert_eq!(neighbor(9, 8, 8, 1), None);
    assert_eq!(neighbor(9, 8, 8, 3), None);
    assert_eq!(neighbor(9, 4, 4, 0), Some((4, 3)));
    assert_eq!(neighbor(9, 4, 4, 2), Some((3, 4)));
}

#[test]
fn default_rules_are_simple_ko_without_suicide() {
    let rules = GameRules::default();
    assert!(!rules.allow_suicide);
    assert_eq!(rules.ko_rule, KoRule::Simple);
}

#[test]
fn legality_check_does_not_touch_the_board() {
    let mut board = Board::new(9);
    board.set_stone(1, 0, Stone::White);
    board.set_stone(0, 1, Stone::White);
    board.set_stone(4, 4, Stone::Black);
    board.set_ko_point(6, 6);
    let before = snapshot(&board);
    let rules = GameRules::default();
    assert_eq!(rules.is_legal_move(&board, 2, 2, Stone::Black), Ok(()));
    assert_eq!(rules.is_legal_move(&board, 9, 2, Stone::Black), Err(ErrorKind::OutOfBounds));
    assert_eq!(rules.is_legal_move(&board, 4, 4, Stone::Black), Err(ErrorKind::Occupied));
    assert_eq!(rules.is_legal_move(&board, 6, 6, Stone::Black), Err(ErrorKind::KoViolation));
    assert_eq!(rules.is_legal_move(&board, 0, 0, Stone::Black), Err(ErrorKind::Suicide));
    assert_eq!(rules.is_legal_move(&board, 0, 0, Stone::White), Ok(()));
    assert_eq!(rules.is_legal_move(&board, 2, 2, Stone::Empty), Err(ErrorKind::EmptyStone));
    assert_eq!(snapshot(&board), before);
}

#[test]
fn without_the_ko_rule_the_ko_point_may_be_played() {
    let mut board = Board::new(9);
    board.set_ko_point(6, 6);
    let rules = GameRules { allow_suicide: false, ko_rule: KoRule::Off };
    assert_eq!(rules.is_legal_move(&board, 6, 6, Stone::Black), Ok(()));
    assert_eq!(board.place_stone_with(6, 6, Stone::Black, rules), Ok(()));
    assert_eq!(board.get_stone(6, 6), Stone::Black);
    let mut other = Board::new(9);
    other.set_ko_point(6, 6);
    let superko = GameRules { allow_suicide: false, ko_rule: KoRule::Superko };
    assert_eq!(other.place_stone_with(6, 6, Stone::Black, superko), Err(ErrorKind::KoViolation));
}

#[test]
fn allowed_suicide_removes_the_group_and_credits_the_opponent() {
    let mut board = Board::new(5);
    // Black holds (0,0); White surrounds (0,0),(1,0): Black at (1,0) kills both.
    board.set_stone(0, 0, Stone::Black);
    board.set_stone(2, 0, Stone::White);
    board.set_stone(0, 1, Stone::White);
    board.set_stone(1, 1, Stone::White);
    board.set_ko_point(4, 4);
    let rules = GameRules { allow_suicide: true, ko_rule: KoRule::Simple };
    assert_eq!(rules.is_legal_move(&board, 1, 0, Stone::Black), Ok(()));
    assert_eq!(board.place_stone_with(1, 0, Stone::Black, rules), Ok(()));
    assert_eq!(board.get_stone(0, 0), Stone::Empty);
    assert_eq!(board.get_stone(1, 0), Stone::Empty);
    assert_eq!(board.get_captured(), [0, 2]);
    assert_eq!(board.get_ko_point(), None);
    assert_eq!(board.stones_on_board(Stone::White), 3);
    let mut strict = Board::new(5);
    strict.set_stone(0, 0, Stone::Black);
    strict.set_stone(2, 0, Stone::White);
    strict.set_stone(0, 1, Stone::White);
    strict.set_stone(1, 1, Stone::White);
    assert_eq!(strict.place_stone(1, 0, Stone::Black), Err(ErrorKind::Suicide));
}

#[test]
fn ko_bookkeeping_through_the_trait() {
    let mut board = Board::new(9);
    BoardExt::set_ko_point(&mut board, 3, 4);
    assert_eq!(BoardExt::get_ko_point(&board), Some((3, 4)));
    BoardExt::clear_ko_point(&mut board);
    assert_eq!(BoardExt::get_ko_point(&board), None);
    board.check_ko_threat(1, (5, 6));
    assert_eq!(board.get_ko_point(), Some((5, 6)));
    board.check_ko_threat(2, (1, 1));
    assert_eq!(board.get_ko_point(), None);
    board.check_ko_threat(1, (5, 6));
    board.check_ko_threat(0, (1, 1));
    assert_eq!(board.get_ko_point(), None);
}

#[test]
fn scratch_copies_and_clones() {
    let mut board = Board::new(5);
    board.set_stone(0, 0, Stone::Black);
    board.set_stone(1, 0, Stone::White);
    board.place_stone(0, 1, Stone::White).unwrap();
    assert_eq!(board.get_captured(), [0, 1]);
    let copy = board.clone();
    assert_eq!(snapshot(&copy), snapshot(&board));
    assert!(board.has_capture_room());
    let scratch = board.scratch_copy();
    assert_eq!(scratch.get_captured(), [0, 0]);
    assert_eq!(scratch.get_ko_point(), board.get_ko_point());
    assert_eq!(snapshot(&scratch).0, snapshot(&board).0);
}

#[test]
fn liberties_are_counted_and_listed() {
    let mut board = Board::new(5);
    board.set_stone(1, 1, Stone::Black);
    board.set_stone(2, 1, Stone::Black);
    board.set_stone(1, 0, Stone::White);
    assert_eq!(board.count_liberties(1, 1), 5);
    assert_eq!(board.find_liberties(2, 1), vec![(2, 0), (0, 1), (3, 1), (1, 2), (2, 2)]);
    assert_eq!(board.count_liberties(1, 0), 2);
    assert_eq!(board.find_liberties(1, 0), vec![(0, 0), (2, 0)]);
    assert_eq!(board.count_liberties(4, 4), 0);
    assert_eq!(board.find_liberties(4, 4), Vec::new());
    assert_eq!(board.count_liberties(7, 7), 0);
    assert_eq!(board.list_points(Stone::Black), vec![(1, 1), (2, 1)]);
    assert_eq!(board.list_points(Stone::White), vec![(1, 0)]);
    assert_eq!(board.list_points(Stone::Empty).len(), 22);
}

#[test]
fn moves_are_made_of_row_and_column() {
    let m = Move::new(3, 4);
    assert_eq!(m.row, 3);
    assert_eq!(m.col, 4);
    assert_eq!(m, Move { row: 3, col: 4 });
}

#[test]
fn all_moves_are_listed_by_row_and_column() {
    let board = Board::new(3);
    let moves = MoveGenerator::generate_all_moves(&board);
    assert_eq!(moves.len(), 9);
    assert_eq!(moves[0], Move::new(0, 0));
    assert_eq!(moves[1], Move::new(0, 1));
    assert_eq!(moves[3], Move::new(1, 0));
    assert_eq!(moves[8], Move::new(2, 2));
}

#[test]
fn valid_moves_agree_with_placement() {
    let mut board = Board::new(3);
    board.set_stone(1, 0, Stone::White);
    board.set_stone(0, 1, Stone::White);
    board.set_stone(2, 2, Stone::Black);
    board.set_ko_point(1, 1);
    let moves = MoveGenerator::generate_valid_moves(&board, Stone::Black);
    // (0,0) is suicide for Black, (1,1) is the ko point, three points are taken.
    assert_eq!(
        moves,
        vec![Move::new(0, 2), Move::new(1, 2), Move::new(2, 0), Move::new(2, 1)]
    );
    assert!(!MoveGenerator::is_valid_move(&board, 0, 0, Stone::Black));
    assert!(MoveGenerator::is_valid_move(&board, 0, 0, Stone::White));
    assert!(!MoveGenerator::is_valid_move(&board, 1, 1, Stone::White));
    assert!(!MoveGenerator::is_valid_move(&board, 3, 0, Stone::White));
    assert!(!MoveGenerator::is_valid_move(&board, 2, 2, Stone::White));
    for row in 0..4 {
        for col in 0..4 {
            for &color in &[Stone::Black, Stone::White] {
                let mut copy = board.clone();
                assert_eq!(
                    MoveGenerator::is_valid_move(&board, row, col, color),
                    copy.place_stone(row, col, color).is_ok()
                );
            }
        }
    }
}

#[test]
fn a_capturing_move_without_liberties_is_valid() {
    let mut board = Board::new(5);
    board.set_stone(1, 0, Stone::White);
    board.set_stone(0, 1, Stone::White);
    board.set_stone(2, 0, Stone::Black);
    board.set_stone(1, 1, Stone::Black);
    board.set_stone(0, 2, Stone::Black);
    assert!(MoveGenerator::is_valid_move(&board, 0, 0, Stone::Black));
}

#[test]
fn eye_values_in_words() {
    assert_eq!(EyeValue { min_eyes: 1, max_eyes: 2, is_eye: true }.to_string(), "1.2");
    assert_eq!(EyeValue { min_eyes: 0, max_eyes: 0, is_eye: true }.to_string(), "0.0");
    assert_eq!(EyeValue { min_eyes: 10, max_eyes: 255, is_eye: true }.to_string(), "10.255");
    assert_eq!(EyeValue { min_eyes: 3, max_eyes: 4, is_eye: false }.to_string(), "0.0");
    assert_ne!(HalfEyeType::Half, HalfEyeType::False);
}

#[test]
fn eyes_are_found_in_reading_order() {
    let mut board = Board::new(5);
    // A black eye at the corner (0,0) has only two neighbours: no eye.
    board.set_stone(1, 0, Stone::Black);
    board.set_stone(0, 1, Stone::Black);
    // An eye on the edge at (3,0): three black neighbours.
    board.set_stone(2, 0, Stone::Black);
    board.set_stone(4, 0, Stone::Black);
    board.set_stone(3, 1, Stone::Black);
    // An eye in the middle at (2,3) with one empty neighbour.
    board.set_stone(1, 3, Stone::Black);
    board.set_stone(3, 3, Stone::Black);
    board.set_stone(2, 4, Stone::Black);
    // A spoiled eye at (0,3): a white neighbour.
    board.set_stone(0, 2, Stone::Black);
    board.set_stone(0, 4, Stone::White);
    let analyzer = EyeAnalyzer::new();
    let eyes = analyzer.analyze_eyes(&board, Stone::Black);
    let origins: Vec<(usize, usize)> = eyes.iter().map(|e| e.origin).collect();
    assert_eq!(origins, vec![(3, 0), (2, 3)]);
    assert_eq!(eyes[0].neighbors, 3);
    assert_eq!(eyes[0].marginal_neighbors, 0);
    assert!(!eyes[0].marginal);
    assert_eq!(eyes[1].neighbors, 3);
    assert_eq!(eyes[1].marginal_neighbors, 1);
    assert!(eyes[1].marginal);
    assert_eq!(eyes[1].esize, 1);
    assert_eq!(eyes[1].msize, 0);
    assert_eq!(eyes[1].color, Stone::Black);
    assert_eq!(eyes[1].value, EyeValue { min_eyes: 1, max_eyes: 1, is_eye: true });
    assert!(analyzer.analyze_eyes(&board, Stone::White).is_empty());
    assert!(analyzer.analyze_eyes(&board, Stone::Empty).is_empty());
}

#[test]
fn ladders_are_strings_with_two_liberties() {
    let mut board = Board::new(5);
    board.set_stone(0, 0, Stone::Black);
    board.set_stone(2, 2, Stone::White);
    let mut analyzer = EyeAnalyzer::new();
    assert!(analyzer.is_ladder_attack(&board, 0, 0));
    assert!(!analyzer.is_ladder_attack(&board, 2, 2));
    assert!(!analyzer.is_ladder_attack(&board, 4, 4));
    assert!(!analyzer.is_ladder_attack(&board, 9, 9));
    assert_eq!(analyzer.find_ladder_attack_point(&board, 0, 0), Some((1, 0)));
    assert_eq!(analyzer.find_ladder_attack_point(&board, 2, 2), None);
    assert_eq!(analyzer.find_ladder_attack_point(&board, 4, 4), None);
    assert_eq!(analyzer.load_from_file("eyes.db"), Ok(()));
}

#[test]
fn evaluation_of_small_positions() {
    let empty = Board::new(5);
    assert_eq!(Evaluator::evaluate_position(&empty), 0);
    assert_eq!(Evaluator::estimate_score(&empty), (0, 0));

    let mut one = Board::new(5);
    one.set_stone(2, 2, Stone::Black);
    // stones 1; territory 1 + 4 neighbours; influence 4 for the stone itself.
    assert_eq!(Evaluator::evaluate_position(&one), 1 + 5 + 4);
    // stones 1, once more the stone, and its four neighbours.
    assert_eq!(Evaluator::estimate_score(&one), (6, 0));

    let mut two = Board::new(5);
    two.set_stone(0, 0, Stone::Black);
    two.set_stone(1, 0, Stone::Black);
    two.set_stone(4, 4, Stone::White);
    // stones 2 - 1; territory (2 + 3) - (1 + 2); influence 2 * (4 + 3) - 4.
    assert_eq!(Evaluator::evaluate_position(&two), 1 + 2 + 10);
    assert_eq!(Evaluator::estimate_score(&two), (2 + 2 + 3, 1 + 1 + 2));

    let mut contested = Board::new(3);
    contested.set_stone(0, 1, Stone::Black);
    contested.set_stone(2, 1, Stone::White);
    // (1,1) has one neighbour of each colour: it counts for neither.
    assert_eq!(Evaluator::estimate_score(&contested), (1 + 1 + 2, 1 + 1 + 2));
    assert_eq!(Evaluator::evaluate_position(&contested), 0);
}

#[test]
fn influence_reaches_three_steps() {
    let mut board = Board::new(9);
    board.set_stone(0, 0, Stone::White);
    board.set_stone(3, 0, Stone::White);
    board.set_stone(0, 4, Stone::White);
    // stones -3; territory -(3 + 2 + 3 + 3); influence: (4 + 1) + (4 + 1) + 4.
    assert_eq!(Evaluator::evaluate_position(&board), -3 - 11 - 14);
}

#[test]
fn empty_points_in_reading_order() {
    let mut board = Board::new(2);
    assert_eq!(empty_points(&board), vec![(0, 0), (1, 0), (0, 1), (1, 1)]);
    board.set_stone(1, 0, Stone::Black);
    assert_eq!(empty_points(&board), vec![(0, 0), (0, 1), (1, 1)]);
}

#[test]
fn a_beginner_plays_some_empty_point() {
    let mut board = Board::new(3);
    for y in 0..3 {
        for x in 0..3 {
            if (x, y) != (1, 2) && (x, y) != (2, 0) {
                board.set_stone(x, y, Stone::Black);
            }
        }
    }
    let ai = AI::new(AIDifficulty::Beginner);
    let mut seen = Vec::new();
    for _ in 0..200 {
        let m = ai.get_best_move(&board, Stone::White).unwrap();
        assert!(m == (1, 2) || m == (2, 0));
        if !seen.contains(&m) {
            seen.push(m);
        }
        let r = get_random_move(&board).unwrap();
        assert!(r == (1, 2) || r == (2, 0));
    }
    assert_eq!(seen.len(), 2);
    board.set_stone(1, 2, Stone::Black);
    assert_eq!(ai.get_best_move(&board, Stone::White), Some((2, 0)));
    board.set_stone(2, 0, Stone::Black);
    assert_eq!(ai.get_best_move(&board, Stone::White), None);
    assert_eq!(get_random_move(&board), None);
    assert_eq!(AI::new(AIDifficulty::Advanced).get_best_move(&board, Stone::White), None);
}

#[test]
fn the_greedy_choice_captures() {
    let mut board = Board::new(5);
    board.set_stone(0, 0, Stone::White);
    board.set_stone(1, 0, Stone::Black);
    let ai = AI::new(AIDifficulty::Intermediate);
    // Taking the corner stone is worth more than any other play.
    let best = ai.get_best_move(&board, Stone::Black).unwrap();
    let mut best_score = i32::MIN;
    let mut expected = (9, 9);
    for y in 0..5 {
        for x in 0..5 {
            let mut copy = board.clone();
            if copy.place_stone(x, y, Stone::Black).is_ok() {
                let score = Evaluator::evaluate_position(&copy);
                if score > best_score {
                    best_score = score;
                    expected = (x, y);
                }
            }
        }
    }
    assert_eq!(best, expected);
    let for_white = AI::new(AIDifficulty::Advanced).get_best_move(&board, Stone::White).unwrap();
    let mut copy = board.clone();
    assert!(copy.place_stone(for_white.0, for_white.1, Stone::White).is_ok());
}

#[test]
fn the_greedy_choice_without_a_legal_play_is_the_first_empty_point() {
    let mut board = Board::new(3);
    for y in 0..3 {
        for x in 0..3 {
            board.set_stone(x, y, Stone::White);
        }
    }
    board.set_stone(1, 1, Stone::Empty);
    let ai = AI::new(AIDifficulty::Intermediate);
    assert_eq!(ai.get_best_move(&board, Stone::Black), Some((1, 1)));
    assert_eq!(ai.get_best_move(&board, Stone::Empty), Some((1, 1)));
}

#[test]
fn game_accessors() {
    let mut game = Game::new(9);
    assert!(game.has_capture_room());
    assert_eq!(game.board().size(), 9);
    game.make_move(1, 2).unwrap();
    assert_eq!(game.board().get_stone(1, 2), Stone::Black);
    let copy = game.clone();
    assert_eq!(copy.history.len(), 1);
    assert_eq!(copy.current_player(), Stone::White);
    assert_eq!(copy.board.get_stone(1, 2), Stone::Black);
    game.captured_stones = [u32::MAX, 0];
    game.board.set_stone(0, 0, Stone::Black);
    assert!(game.has_capture_room());
}

#[test]
fn stones_by_name() {
    assert_eq!(Stone::Black.name(), "Black");
    assert_eq!(Stone::White.name(), "White");
    assert_eq!(Stone::Empty.name(), "Empty");
}
