use gnugo_rs::engine::board::{Board, Stone};
use gnugo_rs::patterns::pattern_database::{PatternDatabase, PatternDatabases};
use gnugo_rs::patterns::pattern_helpers::{
    apply_autohelper, move_allowed, on_board_after_transform, on_edge_after_transform,
    PatternConstraint,
};
use gnugo_rs::patterns::pattern_loader::{load_all_databases, load_database, LoadError};
use gnugo_rs::patterns::pattern_matcher_impl::{find_patterns_at, PatternMatcher as PositionMatcher};
use gnugo_rs::patterns::pattern_matching::{predefined_patterns, PatternMatcher};
use gnugo_rs::patterns::pattern_transform::{patterns_match, transform_pattern, Transformation};
use gnugo_rs::patterns::{PatVal, PatternType};

fn words(ws: &[u32]) -> Vec<u8> {
    let mut out = Vec::new();
    for w in ws {
        out.extend_from_slice(&w.to_le_bytes());
    }
    out
}

const MAGIC: u32 = 0x474E5547;

#[test]
fn transformations_of_a_corner() {
    let size = 9;
    let expect = [
        (Transformation::Identity, (1, 2)),
        (Transformation::Rot90, (2, 7)),
        (Transformation::Rot180, (7, 6)),
        (Transformation::Rot270, (6, 1)),
        (Transformation::Mirror, (7, 2)),
        (Transformation::MirrorRot90, (2, 1)),
        (Transformation::MirrorRot180, (1, 6)),
        (Transformation::MirrorRot270, (6, 7)),
    ];
    for &(t, image) in expect.iter() {
        assert_eq!(t.apply(1, 2, size), image, "{:?}", t);
    }
    assert_eq!(Transformation::all().len(), 8);
    assert_eq!(Transformation::all()[0], Transformation::Identity);
    assert_eq!(Transformation::all()[7], Transformation::MirrorRot270);
    assert_eq!(Transformation::all()[3], Transformation::Rot270);
}

#[test]
fn every_transformation_permutes_the_board() {
    let size = 5;
    for &t in Transformation::all().iter() {
        let mut seen = vec![false; size * size];
        for y in 0..size {
            for x in 0..size {
                let (tx, ty) = t.apply(x, y, size);
                assert!(tx < size && ty < size);
                assert!(!seen[ty * size + tx]);
                seen[ty * size + tx] = true;
            }
        }
    }
}

#[test]
fn images_on_and_off_the_board() {
    assert!(on_board_after_transform((3, 4), Transformation::Rot90, 9));
    assert!(!on_board_after_transform((9, 4), Transformation::Identity, 9));
    assert!(!on_board_after_transform((2, 9), Transformation::MirrorRot90, 9));
    assert!(!on_board_after_transform((2, 9), Transformation::Mirror, 9));
    assert!(on_edge_after_transform((0, 4), Transformation::Identity, 9));
    assert!(on_edge_after_transform((0, 4), Transformation::Mirror, 9));
    assert!(on_edge_after_transform((4, 8), Transformation::Rot90, 9));
    assert!(!on_edge_after_transform((4, 4), Transformation::Rot180, 9));
    assert!(!on_edge_after_transform((1, 7), Transformation::Identity, 9));
}

#[test]
fn autohelper_picks_by_index() {
    assert_eq!(apply_autohelper(0, 10, 20, 30, 40), 10);
    assert_eq!(apply_autohelper(1, 10, 20, 30, 40), 20);
    assert_eq!(apply_autohelper(2, 10, 20, 30, 40), 30);
    assert_eq!(apply_autohelper(3, 10, 20, 30, 40), 40);
    assert_eq!(apply_autohelper(4, 10, 20, 30, 40), 0);
    assert_eq!(apply_autohelper(-1, 10, 20, 30, 40), 0);
}

#[test]
fn constraints_measure_the_distance_to_the_edge() {
    let board = Board::new(9);
    let c = PatternConstraint::new(1, 2, 0);
    assert_eq!(c.min_edge_distance, 1);
    assert_eq!(c.max_edge_distance, 2);
    assert_eq!(c.required_stones, 0);
    assert!(!c.check(&board, 0, 4));
    assert!(c.check(&board, 1, 4));
    assert!(c.check(&board, 6, 4));
    assert!(c.check(&board, 4, 7));
    assert!(!c.check(&board, 4, 4));
    assert!(!c.check(&board, 8, 8));
    assert!(PatternConstraint::new(4, 4, 0).check(&board, 4, 4));
}

#[test]
fn moves_allowed_on_empty_or_own_points() {
    let mut board = Board::new(9);
    board.set_stone(1, 2, Stone::Black);
    board.set_stone(7, 2, Stone::White);
    assert!(move_allowed(&board, (1, 2), Stone::Black, None));
    assert!(!move_allowed(&board, (1, 2), Stone::White, None));
    assert!(move_allowed(&board, (3, 3), Stone::White, None));
    assert!(!move_allowed(&board, (9, 3), Stone::White, None));
    // Mirror sends (1,2) to (7,2), where White stands.
    assert!(move_allowed(&board, (1, 2), Stone::White, Some(Transformation::Mirror)));
    assert!(!move_allowed(&board, (1, 2), Stone::Black, Some(Transformation::Mirror)));
}

#[test]
fn patterns_match_under_the_first_fitting_transformation() {
    let mut board = Board::new(5);
    board.set_stone(4, 0, Stone::Black);
    board.set_stone(4, 1, Stone::White);
    let pattern = [(0usize, 0usize, Stone::Black), (0, 1, Stone::White)];
    let all = Transformation::all();
    assert_eq!(patterns_match(&board, &pattern, &all), Some(Transformation::Mirror));
    assert_eq!(patterns_match(&board, &pattern, &all[..4]), None);
    assert_eq!(patterns_match(&board, &[], &all), Some(Transformation::Identity));
    assert_eq!(patterns_match(&board, &pattern, &[]), None);
    let empty = [(2usize, 2usize, Stone::Empty)];
    assert_eq!(patterns_match(&board, &empty, &all[1..]), Some(Transformation::Rot90));
}

#[test]
fn patterns_are_transformed_entry_by_entry() {
    let pattern = [(0usize, 0usize, Stone::Black), (1, 2, Stone::White), (4, 4, Stone::Empty)];
    assert_eq!(
        transform_pattern(&pattern, Transformation::Rot90, 5),
        vec![(0, 4, Stone::Black), (2, 3, Stone::White), (4, 0, Stone::Empty)]
    );
    assert_eq!(transform_pattern(&pattern, Transformation::Identity, 5), pattern.to_vec());
    assert_eq!(transform_pattern(&[], Transformation::Mirror, 5), Vec::new());
}

#[test]
fn a_database_files_values_under_ids() {
    let mut db = PatternDatabase::new("attack", PatternType::Attack);
    assert_eq!(db.get_name(), "attack");
    assert_eq!(db.get_pattern_type(), PatternType::Attack);
    assert_eq!(db.get_pattern_count(), 0);
    assert!(db.get_pattern_values(7).is_none());
    db.add_pattern(7, vec![PatVal::new(722, 1), PatVal::new(795, 2)]);
    db.add_pattern(9, vec![]);
    assert_eq!(db.get_pattern_count(), 2);
    assert_eq!(
        db.get_pattern_values(7),
        Some(&vec![PatVal { pattern_id: 722, value: 1 }, PatVal { pattern_id: 795, value: 2 }])
    );
    assert_eq!(db.get_pattern_values(9), Some(&vec![]));
    db.add_pattern(7, vec![PatVal::new(1, -1)]);
    assert_eq!(db.get_pattern_count(), 2);
    assert_eq!(db.get_pattern_values(7), Some(&vec![PatVal::new(1, -1)]));
    assert_eq!(db.get_patterns().len(), 2);
    let mut ids = db.pattern_ids();
    ids.sort();
    assert_eq!(ids, vec![7, 9]);
    assert_eq!(db.save_to_file("anywhere.db"), Ok(()));
}

#[test]
fn the_five_databases_start_empty() {
    let dbs = PatternDatabases::new();
    assert_eq!(dbs.get_attack_db().get_name(), "attack");
    assert_eq!(dbs.get_defense_db().get_name(), "defense");
    assert_eq!(dbs.get_fuseki_db().get_name(), "fuseki");
    assert_eq!(dbs.get_joseki_db().get_name(), "joseki");
    assert_eq!(dbs.get_endgame_db().get_name(), "endgame");
    assert_eq!(dbs.get_attack_db().get_pattern_type(), PatternType::Attack);
    assert_eq!(dbs.get_defense_db().get_pattern_type(), PatternType::Defense);
    assert_eq!(dbs.get_fuseki_db().get_pattern_type(), PatternType::Fuseki);
    assert_eq!(dbs.get_joseki_db().get_pattern_type(), PatternType::Joseki);
    assert_eq!(dbs.get_endgame_db().get_pattern_type(), PatternType::Endgame);
    assert_eq!(dbs.get_endgame_db().get_pattern_count(), 0);
}

#[test]
fn a_database_is_read_from_little_endian_words() {
    let data = words(&[
        MAGIC, 1, 2, // header: two patterns
        5, 2, 722, 1, 795, 0xFFFF_FFFE, // pattern 5: (722, 1), (795, -2)
        0x0102_0304, 0, // pattern 0x01020304: no values
        99, 99, // trailing bytes are not read
    ]);
    let db = load_database("some/path.db", &data, PatternType::Joseki).unwrap();
    assert_eq!(db.get_name(), "some/path.db");
    assert_eq!(db.get_pattern_type(), PatternType::Joseki);
    assert_eq!(db.get_pattern_count(), 2);
    assert_eq!(
        db.get_pattern_values(5),
        Some(&vec![PatVal::new(722, 1), PatVal::new(795, -2)])
    );
    assert_eq!(db.get_pattern_values(0x0102_0304), Some(&vec![]));
    let same = PatternDatabase::load_from_file("p", &data, PatternType::Attack).unwrap();
    assert_eq!(same.get_pattern_values(5), db.get_pattern_values(5));
}

#[test]
fn byte_order_is_lowest_byte_first() {
    let mut data = words(&[MAGIC, 1, 1, 1, 1]);
    data.extend_from_slice(&[0x01, 0x02, 0x03, 0x04, 0x00, 0x00, 0x00, 0x80]);
    let db = load_database("p", &data, PatternType::Attack).unwrap();
    assert_eq!(db.get_pattern_values(1), Some(&vec![PatVal::new(0x0403_0201, i32::MIN)]));
}

#[test]
fn a_later_pattern_replaces_an_earlier_one() {
    let data = words(&[MAGIC, 1, 2, 5, 1, 1, 1, 5, 1, 2, 2]);
    let db = load_database("p", &data, PatternType::Attack).unwrap();
    assert_eq!(db.get_pattern_count(), 1);
    assert_eq!(db.get_pattern_values(5), Some(&vec![PatVal::new(2, 2)]));
}

#[test]
fn broken_databases_are_refused() {
    let load = |data: &[u8]| load_database("p", data, PatternType::Attack).err();
    assert_eq!(load(&[]), Some(LoadError::UnexpectedEof));
    assert_eq!(load(&[0x47, 0x55, 0x4E]), Some(LoadError::UnexpectedEof));
    assert_eq!(load(&words(&[0x12345678, 1, 0])), Some(LoadError::InvalidData));
    assert_eq!(load(&words(&[0x12345678])), Some(LoadError::InvalidData));
    assert_eq!(load(&words(&[MAGIC])), Some(LoadError::UnexpectedEof));
    assert_eq!(load(&words(&[MAGIC, 1])), Some(LoadError::UnexpectedEof));
    assert_eq!(load(&words(&[MAGIC, 1, 1])), Some(LoadError::UnexpectedEof));
    assert_eq!(load(&words(&[MAGIC, 1, 1, 5])), Some(LoadError::UnexpectedEof));
    assert_eq!(load(&words(&[MAGIC, 1, 1, 5, 1, 7])), Some(LoadError::UnexpectedEof));
    assert_eq!(load(&words(&[MAGIC, 1, 1, 5, 0xFFFF_FFFF, 7, 7])), Some(LoadError::UnexpectedEof));
    assert_eq!(load(&words(&[MAGIC, 1, 0])), None);
    let mut odd = words(&[MAGIC, 1, 1, 5, 1, 7]);
    odd.extend_from_slice(&[1, 2, 3]);
    assert_eq!(load(&odd), Some(LoadError::UnexpectedEof));
}

#[test]
fn all_databases_load_or_the_first_failure_tells() {
    let good = words(&[MAGIC, 1, 1, 3, 1, 4, 5]);
    let empty = words(&[MAGIC, 1, 0]);
    let bad = words(&[1, 1, 0]);
    let (a, d, f, j, e) = load_all_databases(Some(&good[..]), Some(&empty[..]), Some(&empty[..]), Some(&empty[..]), Some(&good[..])).unwrap();
    assert_eq!(a.get_name(), "patterns/attack.db");
    assert_eq!(d.get_name(), "patterns/defense.db");
    assert_eq!(f.get_name(), "patterns/fuseki.db");
    assert_eq!(j.get_name(), "patterns/joseki.db");
    assert_eq!(e.get_name(), "patterns/endgame.db");
    assert_eq!(a.get_pattern_type(), PatternType::Attack);
    assert_eq!(e.get_pattern_type(), PatternType::Endgame);
    assert_eq!(a.get_pattern_values(3), Some(&vec![PatVal::new(4, 5)]));
    assert_eq!(d.get_pattern_count(), 0);
    assert_eq!(
        load_all_databases(Some(&good[..]), Some(&bad[..]), Some(&[][..]), Some(&empty[..]), Some(&good[..])).err(),
        Some(LoadError::InvalidData)
    );
    assert_eq!(
        load_all_databases(Some(&good[..]), Some(&good[..]), Some(&[][..]), Some(&bad[..]), Some(&good[..])).err(),
        Some(LoadError::UnexpectedEof)
    );

    let mut dbs = PatternDatabases::new();
    assert_eq!(dbs.load_all(Some(&good[..]), Some(&empty[..]), Some(&bad[..]), Some(&good[..]), Some(&good[..])), Err(LoadError::InvalidData));
    assert_eq!(dbs.get_attack_db().get_name(), "patterns/attack.db");
    assert_eq!(dbs.get_attack_db().get_pattern_count(), 1);
    assert_eq!(dbs.get_defense_db().get_name(), "patterns/defense.db");
    assert_eq!(dbs.get_fuseki_db().get_name(), "fuseki");
    assert_eq!(dbs.get_joseki_db().get_name(), "joseki");
    assert_eq!(dbs.get_joseki_db().get_pattern_count(), 0);
    assert_eq!(
        dbs.load_all(Some(&good[..]), None, Some(&good[..]), Some(&good[..]), Some(&good[..])),
        Err(LoadError::Unreadable)
    );
    assert_eq!(
        load_all_databases(None, Some(&bad[..]), None, None, None).err(),
        Some(LoadError::Unreadable)
    );
    assert_eq!(
        load_all_databases(Some(&bad[..]), None, None, None, None).err(),
        Some(LoadError::InvalidData)
    );
    assert_eq!(dbs.load_all(Some(&good[..]), Some(&good[..]), Some(&good[..]), Some(&good[..]), Some(&good[..])), Ok(()));
    assert_eq!(dbs.get_endgame_db().get_pattern_values(3), Some(&vec![PatVal::new(4, 5)]));
}

#[test]
fn reports_for_a_stone_list_every_pattern() {
    let mut board = Board::new(3);
    board.set_stone(1, 1, Stone::Black);
    let mut db = PatternDatabase::new("attack", PatternType::Attack);
    db.add_pattern(5, vec![PatVal::new(722, 1), PatVal::new(795, 2)]);
    db.add_pattern(9, vec![PatVal::new(1, -4)]);
    assert!(find_patterns_at(&board, 0, 0, &db).is_empty());
    let found = find_patterns_at(&board, 1, 1, &db);
    let mut got: Vec<(u32, i32)> = found.iter().map(|r| (r.pattern_id, r.value)).collect();
    // Reports of one pattern stay together, in the order of its values.
    assert!(got == vec![(5, 1), (5, 2), (9, -4)] || got == vec![(9, -4), (5, 1), (5, 2)]);
    got.sort();
    assert_eq!(got, vec![(5, 1), (5, 2), (9, -4)]);
    for r in found.iter() {
        assert_eq!(r.position, (1, 1));
        assert_eq!(r.transform, Transformation::Identity);
    }
    let matcher = PositionMatcher::new(&board, &db, PatternConstraint::new(0, 3, 1));
    assert_eq!(matcher.pattern_fits(1, 1, 5), Some(Transformation::Identity));
    assert_eq!(matcher.match_all_positions().len(), 3);
    assert_eq!(matcher.match_at_position(1, 1).len(), 3);
    board.set_stone(0, 0, Stone::White);
    let all = PositionMatcher::new(&board, &db, PatternConstraint::new(0, 3, 1));
    let reports = all.match_all_positions();
    assert_eq!(reports.len(), 6);
    assert_eq!(reports[0].position, (0, 0));
    assert_eq!(reports[5].position, (1, 1));
    let inner = PositionMatcher::new(&board, &db, PatternConstraint::new(1, 1, 1));
    let inner_reports = inner.match_all_positions();
    assert_eq!(inner_reports.len(), 3);
    assert_eq!(inner_reports[0].position, (1, 1));
}

#[test]
fn the_cached_matcher_reports_what_it_cached() {
    let good = words(&[MAGIC, 1, 2, 3, 2, 4, 5, 6, -7i32 as u32, 8, 1, 9, 10]);
    let empty = words(&[MAGIC, 1, 0]);
    let mut matcher = PatternMatcher::new();
    let mut board = Board::new(3);
    board.set_stone(2, 1, Stone::Black);
    assert_eq!(matcher.evaluate_board(&board), Some(0));
    matcher.clear_cache();
    assert_eq!(matcher.load_databases(Some(&good[..]), Some(&empty[..]), Some(&empty[..]), Some(&empty[..]), Some(&good[..])), Ok(()));
    let found = matcher.find_matching_patterns(&board, PatternType::Attack);
    let mut got: Vec<(u32, i32, (usize, usize))> =
        found.iter().map(|r| (r.pattern_id, r.value, r.position)).collect();
    got.sort();
    assert_eq!(got, vec![(3, -7, (2, 1)), (3, 5, (2, 1)), (8, 10, (2, 1))]);
    // The point is cached: a stone elsewhere is found, an emptied point still reports.
    board.set_stone(2, 1, Stone::Empty);
    let again = matcher.find_matching_patterns(&board, PatternType::Attack);
    assert_eq!(again.len(), 3);
    assert!(matcher.find_matching_patterns(&board, PatternType::Defense).is_empty());
    matcher.clear_cache();
    assert!(matcher.find_matching_patterns(&board, PatternType::Attack).is_empty());
    matcher.clear_cache();
    board.set_stone(0, 0, Stone::White);
    board.set_stone(1, 1, Stone::White);
    // Attack and endgame each report 5 - 7 + 10 for each of the two stones.
    assert_eq!(matcher.evaluate_board(&board), Some(32));
    assert_eq!(matcher.load_databases(Some(&good[..]), Some(&[][..]), Some(&empty[..]), Some(&empty[..]), Some(&good[..])), Err(LoadError::UnexpectedEof));

    let big = words(&[MAGIC, 1, 1, 1, 2, 0, i32::MAX as u32, 0, i32::MAX as u32]);
    let mut overflowing = PatternMatcher::new();
    assert_eq!(overflowing.load_databases(Some(&big[..]), Some(&empty[..]), Some(&empty[..]), Some(&empty[..]), Some(&empty[..])), Ok(()));
    assert_eq!(overflowing.evaluate_board(&board), None);

    let predefined = predefined_patterns();
    assert_eq!(predefined.len(), 5);
    assert_eq!(predefined[0].1, "pat0");
    assert_eq!(predefined[4].1, "pat4");
    assert_eq!(predefined[0].0.len(), 6);
    assert_eq!(predefined[0].0[0], PatVal::new(722, 1));
    assert_eq!(predefined[1].0, vec![PatVal::new(649, 1), PatVal::new(684, 1), PatVal::new(685, 2), PatVal::new(611, 2)]);
    assert_eq!(predefined[4].0[3], PatVal::new(757, 0));
}
