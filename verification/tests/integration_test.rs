use gnugo_rs::engine::board::{Board, ErrorKind, Stone};
use gnugo_rs::engine::game::{Game, GameStatus};

#[test]
fn it_works() {
    assert_eq!(2 + 2, 4);
}

#[test]
fn test_board_creation() {
    let board = Board::new(9);
    assert_eq!(board.size(), 9);
    assert_eq!(board.get_stone(0, 0), Stone::Empty);
}

#[test]
fn test_board_placement() {
    let mut board = Board::new(9);
    let result = board.place_stone(0, 0, Stone::Black);
    assert!(result.is_ok());
    assert_eq!(board.get_stone(0, 0), Stone::Black);
}

#[test]
fn test_game_creation() {
    let game = Game::new(13);
    assert_eq!(game.current_player, true);
}

#[test]
fn test_game_move() {
    let mut game = Game::new(9);
    let result = game.make_move(4, 4);
    assert!(result.is_ok());
    assert_eq!(game.current_player, false);
}

#[test]
fn test_undo_move() {
    let mut game = Game::new(9);
    game.make_move(4, 4).unwrap();
    let result = game.undo_move();
    assert!(result.is_some());
}

#[test]
fn new_board_is_empty_everywhere() {
    for size in 1..=25usize {
        let board = Board::new(size);
        assert_eq!(board.size(), size);
        for y in 0..size {
            for x in 0..size {
                assert_eq!(board.get_stone(x, y), Stone::Empty);
            }
        }
        assert_eq!(board.get_captured(), [0, 0]);
        assert_eq!(board.get_ko_point(), None);
    }
}

#[test]
fn off_board_points_read_as_empty() {
    let mut board = Board::new(5);
    assert_eq!(board.get_stone(5, 0), Stone::Empty);
    assert_eq!(board.get_stone(0, 99), Stone::Empty);
    board.set_stone(7, 7, Stone::Black);
    assert_eq!(board.stones_on_board(Stone::Black), 0);
}

fn snapshot(board: &Board) -> (Vec<Stone>, [usize; 2], Option<(usize, usize)>) {
    let mut cells = Vec::new();
    for y in 0..board.size() {
        for x in 0..board.size() {
            cells.push(board.get_stone(x, y));
        }
    }
    (cells, board.get_captured(), board.get_ko_point())
}

#[test]
fn rejected_placements_leave_the_board_unchanged() {
    let mut board = Board::new(9);
    board.set_stone(1, 0, Stone::White);
    board.set_stone(0, 1, Stone::White);
    board.set_stone(4, 4, Stone::Black);
    board.set_ko_point(6, 6);
    let before = snapshot(&board);

    assert_eq!(board.place_stone(9, 0, Stone::Black), Err(ErrorKind::OutOfBounds));
    assert_eq!(snapshot(&board), before);
    assert_eq!(board.place_stone(0, 9, Stone::Black), Err(ErrorKind::OutOfBounds));
    assert_eq!(snapshot(&board), before);
    assert_eq!(board.place_stone(4, 4, Stone::White), Err(ErrorKind::Occupied));
    assert_eq!(snapshot(&board), before);
    assert_eq!(board.place_stone(6, 6, Stone::White), Err(ErrorKind::KoViolation));
    assert_eq!(snapshot(&board), before);
    assert_eq!(board.place_stone(0, 0, Stone::Black), Err(ErrorKind::Suicide));
    assert_eq!(snapshot(&board), before);
    assert_eq!(board.place_stone(2, 2, Stone::Empty), Err(ErrorKind::EmptyStone));
    assert_eq!(snapshot(&board), before);
}

#[test]
fn error_order_is_bounds_then_occupied_then_ko() {
    let mut board = Board::new(9);
    board.set_stone(3, 3, Stone::Black);
    board.set_ko_point(3, 3);
    assert_eq!(board.place_stone(3, 3, Stone::White), Err(ErrorKind::Occupied));
    board.set_ko_point(20, 20);
    assert_eq!(board.place_stone(20, 20, Stone::White), Err(ErrorKind::OutOfBounds));
    board.set_ko_point(5, 5);
    assert_eq!(board.place_stone(5, 5, Stone::Empty), Err(ErrorKind::KoViolation));
}

#[test]
fn capturing_one_stone_sets_the_ko_point() {
    let mut board = Board::new(9);
    board.set_stone(1, 0, Stone::Black);
    board.set_stone(0, 1, Stone::Black);
    board.set_stone(2, 1, Stone::Black);
    board.set_stone(1, 1, Stone::White);
    assert_eq!(board.place_stone(1, 2, Stone::Black), Ok(()));
    assert_eq!(board.get_stone(1, 1), Stone::Empty);
    assert_eq!(board.get_ko_point(), Some((1, 1)));
    assert_eq!(board.get_captured(), [1, 0]);
}

#[test]
fn capturing_nothing_clears_the_ko_point() {
    let mut board = Board::new(9);
    board.set_ko_point(7, 7);
    assert_eq!(board.place_stone(2, 2, Stone::Black), Ok(()));
    assert_eq!(board.get_ko_point(), None);
    assert_eq!(board.get_captured(), [0, 0]);
}

#[test]
fn capturing_two_stones_clears_the_ko_point() {
    let mut board = Board::new(9);
    // A white pair on (1,1),(2,1), surrounded but for (3,1).
    board.set_stone(1, 1, Stone::White);
    board.set_stone(2, 1, Stone::White);
    board.set_stone(1, 0, Stone::Black);
    board.set_stone(2, 0, Stone::Black);
    board.set_stone(0, 1, Stone::Black);
    board.set_stone(1, 2, Stone::Black);
    board.set_stone(2, 2, Stone::Black);
    board.set_ko_point(8, 8);
    assert_eq!(board.place_stone(3, 1, Stone::Black), Ok(()));
    assert_eq!(board.get_stone(1, 1), Stone::Empty);
    assert_eq!(board.get_stone(2, 1), Stone::Empty);
    assert_eq!(board.get_ko_point(), None);
    assert_eq!(board.get_captured(), [2, 0]);
}

#[test]
fn capturing_two_single_stones_clears_the_ko_point() {
    let mut board = Board::new(9);
    // White singles on (1,0) and (0,1) die together when Black plays (1,1)...
    board.set_stone(1, 0, Stone::White);
    board.set_stone(0, 1, Stone::White);
    board.set_stone(2, 0, Stone::Black);
    board.set_stone(0, 2, Stone::Black);
    board.set_stone(0, 0, Stone::Black);
    assert_eq!(board.place_stone(1, 1, Stone::Black), Ok(()));
    assert_eq!(board.get_stone(1, 0), Stone::Empty);
    assert_eq!(board.get_stone(0, 1), Stone::Empty);
    assert_eq!(board.get_captured(), [2, 0]);
    assert_eq!(board.get_ko_point(), None);
}

#[test]
fn white_captures_are_credited_to_white() {
    let mut board = Board::new(5);
    board.set_stone(0, 0, Stone::Black);
    board.set_stone(1, 0, Stone::White);
    assert_eq!(board.place_stone(0, 1, Stone::White), Ok(()));
    assert_eq!(board.get_stone(0, 0), Stone::Empty);
    assert_eq!(board.get_captured(), [0, 1]);
    assert_eq!(board.get_ko_point(), Some((0, 0)));
}

#[test]
fn a_play_that_captures_is_not_suicide() {
    let mut board = Board::new(5);
    // Black at (0,0) would have no liberty, but it takes the white stone on (1,0).
    board.set_stone(1, 0, Stone::White);
    board.set_stone(0, 1, Stone::White);
    board.set_stone(2, 0, Stone::Black);
    board.set_stone(1, 1, Stone::Black);
    assert_eq!(board.place_stone(0, 0, Stone::Black), Ok(()));
    assert_eq!(board.get_stone(0, 0), Stone::Black);
    assert_eq!(board.get_stone(1, 0), Stone::Empty);
    assert_eq!(board.get_stone(0, 1), Stone::White);
    assert_eq!(board.get_ko_point(), Some((1, 0)));
}

#[test]
fn suicide_is_refused_and_changes_nothing() {
    let mut board = Board::new(9);
    board.set_stone(3, 4, Stone::White);
    board.set_stone(5, 4, Stone::White);
    board.set_stone(4, 3, Stone::White);
    board.set_stone(4, 5, Stone::White);
    let before = snapshot(&board);
    assert_eq!(board.place_stone(4, 4, Stone::Black), Err(ErrorKind::Suicide));
    assert_eq!(snapshot(&board), before);
    // The same point is fine for White.
    assert_eq!(board.place_stone(4, 4, Stone::White), Ok(()));
}

#[test]
fn ko_scenario_on_a_nine_by_nine_board() {
    let mut board = Board::new(9);
    // White stone on P = (2,2) with one liberty left at (1,2); around (1,2)
    // White stands so that Black's capturing stone is left with one liberty.
    board.set_stone(2, 1, Stone::Black);
    board.set_stone(3, 2, Stone::Black);
    board.set_stone(2, 3, Stone::Black);
    board.set_stone(2, 2, Stone::White);
    board.set_stone(1, 1, Stone::White);
    board.set_stone(0, 2, Stone::White);
    board.set_stone(1, 3, Stone::White);

    assert_eq!(board.place_stone(1, 2, Stone::Black), Ok(()));
    assert_eq!(board.get_stone(2, 2), Stone::Empty);
    assert_eq!(board.get_ko_point(), Some((2, 2)));

    let before = snapshot(&board);
    assert_eq!(board.place_stone(2, 2, Stone::White), Err(ErrorKind::KoViolation));
    assert_eq!(snapshot(&board), before);

    assert_eq!(board.place_stone(7, 7, Stone::White), Ok(()));
    assert_eq!(board.get_ko_point(), None);

    // The point is playable again: White retakes.
    assert_eq!(board.place_stone(2, 2, Stone::White), Ok(()));
    assert_eq!(board.get_stone(1, 2), Stone::Empty);
    assert_eq!(board.get_ko_point(), Some((1, 2)));
}

#[test]
fn find_group_returns_the_whole_group_and_its_liberties() {
    let mut board = Board::new(5);
    board.set_stone(0, 0, Stone::Black);
    board.set_stone(1, 0, Stone::Black);
    board.set_stone(1, 1, Stone::Black);
    board.set_stone(2, 2, Stone::Black);
    board.set_stone(2, 0, Stone::White);
    let group = board.find_group(0, 0).unwrap();
    assert_eq!(group.color, Stone::Black);
    let mut cells = group.positions.clone();
    cells.sort();
    assert_eq!(cells, vec![(0, 0), (1, 0), (1, 1)]);
    // Liberties: (0,1), (2,1), (1,2); (0,1) touches two stones and counts once.
    assert_eq!(group.liberties, 3);
    assert!(board.find_group(3, 3).is_none());
    assert!(board.find_group(9, 9).is_none());
    let lone = board.find_group(2, 2).unwrap();
    assert_eq!(lone.positions, vec![(2, 2)]);
    assert_eq!(lone.liberties, 4);
}

#[test]
fn find_group_handles_a_ring() {
    let mut board = Board::new(5);
    for &(x, y) in &[(1, 1), (2, 1), (3, 1), (1, 2), (3, 2), (1, 3), (2, 3), (3, 3)] {
        board.set_stone(x, y, Stone::White);
    }
    let group = board.find_group(2, 1).unwrap();
    assert_eq!(group.positions.len(), 8);
    // Inner point (2,2) plus the twelve points around the ring.
    assert_eq!(group.liberties, 13);
}

#[test]
fn stones_are_counted_by_colour() {
    let mut board = Board::new(9);
    board.set_stone(0, 0, Stone::Black);
    board.set_stone(8, 8, Stone::Black);
    board.set_stone(4, 4, Stone::White);
    assert_eq!(board.stones_on_board(Stone::Black), 2);
    assert_eq!(board.stones_on_board(Stone::White), 1);
    assert_eq!(board.stones_on_board(Stone::Empty), 78);
}

#[test]
fn star_points() {
    let b19 = Board::new(19);
    let mut found = Vec::new();
    for y in 0..19 {
        for x in 0..19 {
            if b19.is_hoshi_point(x, y) {
                found.push((x, y));
            }
        }
    }
    assert_eq!(
        found,
        vec![(3, 3), (9, 3), (15, 3), (3, 9), (9, 9), (15, 9), (3, 15), (9, 15), (15, 15)]
    );
    let b9 = Board::new(9);
    assert!(b9.is_hoshi_point(2, 2));
    assert!(b9.is_hoshi_point(4, 4));
    assert!(b9.is_hoshi_point(6, 2));
    assert!(!b9.is_hoshi_point(4, 2));
    assert!(!b9.is_hoshi_point(9, 9));
    assert!(Board::new(3).is_hoshi_point(1, 1));
    assert!(!Board::new(4).is_hoshi_point(1, 1));
    assert!(Board::new(5).is_hoshi_point(3, 1));
    assert!(!Board::new(2).is_hoshi_point(0, 0));
}

#[test]
fn error_messages() {
    assert_eq!(ErrorKind::OutOfBounds.message(), "Position out of bounds");
    assert_eq!(ErrorKind::Occupied.message(), "Position already occupied");
    assert_eq!(ErrorKind::KoViolation.message(), "Ko threat violation");
    assert_eq!(ErrorKind::Suicide.message(), "Suicide move not allowed");
    assert_eq!(ErrorKind::EmptyStone.message(), "Cannot place empty stone");
    assert_eq!(ErrorKind::GameAlreadyOver.message(), "Game is already over");
}

#[test]
fn scoring_after_two_passes() {
    let mut game = Game::new(9);
    for &(x, y) in &[(0, 0), (2, 0), (4, 0), (6, 0), (8, 0)] {
        game.board.set_stone(x, y, Stone::Black);
    }
    for &(x, y) in &[(0, 8), (4, 8), (8, 8)] {
        game.board.set_stone(x, y, Stone::White);
    }
    game.captured_stones = [2, 0];
    assert_eq!(game.pass(), Ok(()));
    assert!(!game.is_game_over());
    assert_eq!(game.pass_count(), 1);
    assert_eq!(game.winner(), None);
    assert_eq!(game.pass(), Ok(()));
    assert!(game.is_game_over());
    assert_eq!(game.status(), GameStatus::Ended);
    assert_eq!(game.score(Stone::Black), 7);
    assert_eq!(game.score(Stone::White), 3);
    assert_eq!(game.winner(), Some(Stone::Black));
    assert_eq!(game.pass(), Err(ErrorKind::GameAlreadyOver));
    assert_eq!(game.make_move(1, 1), Err(ErrorKind::GameAlreadyOver));
    assert_eq!(game.resign(), Err(ErrorKind::GameAlreadyOver));
}

#[test]
fn tie_has_no_winner() {
    let mut game = Game::new(5);
    game.pass().unwrap();
    game.pass().unwrap();
    assert_eq!(game.status(), GameStatus::Ended);
    assert_eq!(game.winner(), None);
}

#[test]
fn a_move_resets_the_pass_count_and_flips_the_turn() {
    let mut game = Game::new(9);
    assert_eq!(game.current_player(), Stone::Black);
    game.pass().unwrap();
    assert_eq!(game.current_player(), Stone::White);
    assert_eq!(game.pass_count(), 1);
    game.make_move(3, 3).unwrap();
    assert_eq!(game.pass_count(), 0);
    assert_eq!(game.board.get_stone(3, 3), Stone::White);
    assert_eq!(game.current_player(), Stone::Black);
    game.pass().unwrap();
    assert!(!game.is_game_over());
}

#[test]
fn a_pass_clears_the_ko_point() {
    let mut game = Game::new(9);
    game.board.set_ko_point(4, 4);
    game.pass().unwrap();
    assert_eq!(game.board.get_ko_point(), None);
    assert_eq!(game.make_move(4, 4), Ok(()));
}

#[test]
fn resignation_names_the_opponent_winner() {
    let mut game = Game::new(9);
    game.make_move(0, 0).unwrap();
    assert_eq!(game.resign(), Ok(()));
    assert_eq!(game.status(), GameStatus::Resigned);
    assert_eq!(game.winner(), Some(Stone::Black));
    assert!(game.is_game_over());
    let mut other = Game::new(9);
    other.resign().unwrap();
    assert_eq!(other.winner(), Some(Stone::White));
}

#[test]
fn a_refused_move_leaves_the_game_unchanged() {
    let mut game = Game::new(9);
    game.make_move(2, 2).unwrap();
    assert_eq!(game.make_move(2, 2), Err(ErrorKind::Occupied));
    assert_eq!(game.make_move(9, 2), Err(ErrorKind::OutOfBounds));
    assert_eq!(game.history.len(), 1);
    assert_eq!(game.current_player(), Stone::White);
    assert_eq!(game.board.get_stone(2, 2), Stone::Black);
}

#[test]
fn undo_restores_the_empty_board() {
    let mut game = Game::new(9);
    let moves = [(2, 2), (3, 3), (4, 4), (5, 5), (6, 6)];
    for &(r, c) in &moves {
        game.make_move(r, c).unwrap();
    }
    assert_eq!(game.history.len(), 5);
    for _ in 0..moves.len() {
        assert_eq!(game.undo_move(), Some(()));
    }
    assert_eq!(game.history.len(), 0);
    assert_eq!(game.board.stones_on_board(Stone::Empty), 81);
    assert_eq!(game.current_player(), Stone::Black);
    assert_eq!(game.captured(Stone::Black), 0);
    assert_eq!(game.undo_move(), None);
    assert_eq!(game.board.stones_on_board(Stone::Empty), 81);
    assert_eq!(game.history.len(), 0);
}

#[test]
fn undo_brings_back_captured_stones_and_counts() {
    let mut game = Game::new(5);
    game.make_move(1, 0).unwrap(); // B
    game.make_move(0, 0).unwrap(); // W
    game.make_move(0, 1).unwrap(); // B captures (0,0)
    assert_eq!(game.board.get_stone(0, 0), Stone::Empty);
    assert_eq!(game.captured(Stone::Black), 1);
    assert_eq!(game.captured(Stone::White), 0);
    assert_eq!(game.captured(Stone::Empty), 0);
    assert_eq!(game.undo_move(), Some(()));
    assert_eq!(game.board.get_stone(0, 0), Stone::White);
    assert_eq!(game.board.get_stone(0, 1), Stone::Empty);
    assert_eq!(game.captured(Stone::Black), 0);
    assert_eq!(game.current_player(), Stone::Black);
}

#[test]
fn status_texts() {
    assert_eq!(GameStatus::InProgress.describe(), "In Progress");
    assert_eq!(GameStatus::Ended.describe(), "Ended by agreement");
    assert_eq!(GameStatus::Resigned.describe(), "Resigned");
}

#[test]
fn a_pass_is_recorded_and_can_be_undone() {
    let mut game = Game::new(9);
    game.make_move(2, 2).unwrap();
    game.board.set_ko_point(4, 4);
    assert_eq!(game.history.len(), 1);
    assert_eq!(game.pass(), Ok(()));
    assert_eq!(game.history.len(), 2);
    assert_eq!(game.board.get_ko_point(), None);
    assert_eq!(game.current_player(), Stone::Black);
    assert_eq!(game.pass(), Ok(()));
    assert_eq!(game.history.len(), 3);
    // A refused pass records nothing.
    assert_eq!(game.pass(), Err(ErrorKind::GameAlreadyOver));
    assert_eq!(game.history.len(), 3);
    assert_eq!(game.undo_move(), Some(()));
    assert_eq!(game.current_player(), Stone::Black);
    assert_eq!(game.history.len(), 2);
    assert_eq!(game.undo_move(), Some(()));
    // The board is as before the first pass, ko point included.
    assert_eq!(game.board.get_ko_point(), Some((4, 4)));
    assert_eq!(game.current_player(), Stone::White);
    assert_eq!(game.board.get_stone(2, 2), Stone::Black);
    assert_eq!(game.captured(Stone::Black), 0);
    assert_eq!(game.history.len(), 1);
    assert_eq!(game.undo_move(), Some(()));
    assert_eq!(game.undo_move(), None);
    assert_eq!(game.board.stones_on_board(Stone::Empty), 81);
}

#[test]
fn moves_and_passes_are_undone_in_turn() {
    let mut game = Game::new(5);
    game.make_move(0, 0).unwrap();
    game.pass().unwrap();
    game.make_move(1, 1).unwrap();
    assert_eq!(game.history.len(), 3);
    assert_eq!(game.pass_count(), 0);
    for _ in 0..3 {
        assert_eq!(game.undo_move(), Some(()));
    }
    assert_eq!(game.history.len(), 0);
    assert_eq!(game.board.stones_on_board(Stone::Empty), 25);
    assert_eq!(game.current_player(), Stone::Black);
    assert_eq!(game.undo_move(), None);
}
