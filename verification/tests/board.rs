use ataxx::ataxx_move::AtaxxMove;
use ataxx::fen::FenError;
use ataxx::history::HistoryTable;
use ataxx::limit::SearchLimiter;
use ataxx::position::{GameResult, Position};
use ataxx::square::{Color, Square};
use ataxx::ttable::{TTable, TtEntryFlag};
use ataxx::bitboard::{Biterator, Bitboard};

#[test]
fn noncapture_single_key() {
    let mut pos = Position::startpos();
    pos.apply_move::<false, true>(AtaxxMove::Single(Square::from_coords(5, 1)));

    let incr_key = pos.key();

    pos.regen_curr_key();
    let regen_key = pos.key();

    assert_eq!(incr_key, regen_key);
}

#[test]
fn noncapture_double_key() {
    let mut pos = Position::startpos();
    pos.apply_move::<false, true>(AtaxxMove::Double(
        Square::from_coords(6, 0),
        Square::from_coords(4, 2),
    ));

    let incr_key = pos.key();

    pos.regen_curr_key();
    let regen_key = pos.key();

    assert_eq!(incr_key, regen_key);
}

#[test]
fn capture_single_key() {
    let mut pos = Position::from_fen("x5o/2o4/7/7/7/7/o5x x 0 1").unwrap();
    pos.apply_move::<false, true>(AtaxxMove::Single(Square::from_coords(5, 1)));

    let incr_key = pos.key();

    pos.regen_curr_key();
    let regen_key = pos.key();

    assert_eq!(incr_key, regen_key);
}

#[test]
fn capture_double_key() {
    let mut pos = Position::from_fen("x5o/2o4/7/7/7/7/o5x x 0 1").unwrap();
    pos.apply_move::<false, true>(AtaxxMove::Double(
        Square::from_coords(6, 0),
        Square::from_coords(4, 2),
    ));

    let incr_key = pos.key();

    pos.regen_curr_key();
    let regen_key = pos.key();

    assert_eq!(incr_key, regen_key);
}

#[test]
fn apply_then_unapply_restores_everything() {
    let mut pos = Position::from_fen("x5o/2o4/7/7/7/7/o5x x 3 7").unwrap();
    let key0 = pos.key();
    let red0 = pos.red_occupancy().raw();
    let blue0 = pos.blue_occupancy().raw();
    let half0 = pos.halfmoves();
    let full0 = pos.fullmoves();

    pos.apply_move::<true, true>(AtaxxMove::Double(
        Square::from_coords(6, 0),
        Square::from_coords(4, 2),
    ));
    assert_ne!(pos.key(), key0);
    pos.pop_move::<true>();

    assert_eq!(pos.key(), key0);
    assert_eq!(pos.red_occupancy().raw(), red0);
    assert_eq!(pos.blue_occupancy().raw(), blue0);
    assert_eq!(pos.halfmoves(), half0);
    assert_eq!(pos.fullmoves(), full0);
}

#[test]
fn terminal_scoring_zero_squares_is_a_win() {
    // Blue owns nothing: red wins, this is no draw.
    let pos = Position::from_fen("x6/7/7/7/7/7/7 o 0 1").unwrap();
    assert!(pos.game_over());
    assert_eq!(pos.result(), GameResult::Win(Color::red()));

    let pos = Position::from_fen("o6/7/7/7/7/7/7 x 0 1").unwrap();
    assert!(pos.game_over());
    assert_eq!(pos.result(), GameResult::Win(Color::blue()));
}

#[test]
fn terminal_scoring_equal_counts_draw() {
    // Both sides hold one square and the no-progress clock has run out.
    let pos = Position::from_fen("x5o/7/7/7/7/7/7 x 100 1").unwrap();
    assert!(pos.game_over());
    assert_eq!(pos.result(), GameResult::Draw);
}

#[test]
fn fen_error_taxonomy() {
    assert_eq!(
        Position::from_fen("x5o/7/7/7/7/7/o5x x 0").unwrap_err(),
        FenError::NotEnoughParts
    );
    assert_eq!(
        Position::from_fen("x5o/7/7/7/7/o5x x 0 1").unwrap_err(),
        FenError::NotEnoughRanks
    );
    assert_eq!(
        Position::from_fen("x5o/7/7/7/7/7/7/o5x x 0 1").unwrap_err(),
        FenError::TooManyRanks
    );
    assert_eq!(
        Position::from_fen("x4o/7/7/7/7/7/o5x x 0 1").unwrap_err(),
        FenError::NotEnoughFiles(0)
    );
    assert_eq!(
        Position::from_fen("x6o/7/7/7/7/7/o5x x 0 1").unwrap_err(),
        FenError::TooManyFiles(0)
    );
    assert_eq!(
        Position::from_fen("x5o/7/3q3/7/7/7/o5x x 0 1").unwrap_err(),
        FenError::InvalidChar('q')
    );
    assert_eq!(
        Position::from_fen("x5o/7/7/7/7/7/o5x w 0 1").unwrap_err(),
        FenError::InvalidStm
    );
    assert_eq!(
        Position::from_fen("x5o/7/7/7/7/7/o5x x zz 1").unwrap_err(),
        FenError::InvalidHalfmove
    );
    assert_eq!(
        Position::from_fen("x5o/7/7/7/7/7/o5x x 0 9999999999").unwrap_err(),
        FenError::InvalidFullmove
    );
}

#[test]
fn fen_fields_land_in_the_position() {
    let pos = Position::from_fen("x5o/7/2-1-2/7/2-1-2/7/o5x o 42 17").unwrap();
    assert_eq!(pos.halfmoves(), 42);
    assert_eq!(pos.fullmoves(), 17);
    assert_eq!(pos.side_to_move(), Color::blue());
    assert_eq!(pos.red_occupancy().popcount(), 2);
    assert_eq!(pos.blue_occupancy().popcount(), 2);
    assert_eq!(pos.gaps().popcount(), 4);
    assert!(pos.gap_at(Square::from_coords(4, 2)));
    assert!(!pos.gap_at(Square::from_coords(3, 3)));
}

#[test]
fn tt_probe_fingerprint_matches_or_nothing() {
    let mut tt = TTable::new();
    let key: u64 = 5;
    tt.store(key, AtaxxMove::Single(Square::from_coords(2, 2)), 123, 4, TtEntryFlag::Exact);

    let hit = tt.probe(key).unwrap();
    assert_eq!(hit.key, (key & 0xFFFF) as u16);
    assert_eq!(hit.score, 123);
    assert_eq!(hit.depth, 4);
    assert_eq!(hit.flag, TtEntryFlag::Exact);
    assert_eq!(
        hit.m.unpack(),
        AtaxxMove::Single(Square::from_coords(2, 2))
    );

    // Same slot, different fingerprint: the colliding probe sees nothing.
    let colliding: u64 = 6;
    assert!(tt.probe(colliding).is_none());

    tt.clear();
    assert!(tt.probe(key).is_none());
}

#[test]
fn limiter_latches_forever() {
    let mut limiter = SearchLimiter::fixed_nodes(10);
    assert!(!limiter.should_stop(5));
    assert!(!limiter.stopped());
    assert!(limiter.should_stop(10));
    assert!(limiter.stopped());
    // Once true, always true, even for earlier node counts.
    assert!(limiter.should_stop(0));
    assert!(limiter.should_stop(3));

    let mut infinite = SearchLimiter::infinite();
    assert!(!infinite.should_stop(1 << 20));
    assert!(!infinite.stopped());
}

#[test]
fn history_gravity_formula() {
    let mut table = HistoryTable::new();
    let mv = AtaxxMove::Single(Square::from_coords(3, 3));
    assert_eq!(table.get_history(mv), 0);

    table.update_history(mv, 100);
    // 0 + 100 - 0 * 100 / 16384
    assert_eq!(table.get_history(mv), 100);

    table.update_history(mv, 1000);
    // 100 + 1000 - 100 * 1000 / 16384
    let expected = (100i32 + 1000 - (100 * 1000) / 16384) as i16;
    assert_eq!(table.get_history(mv), expected);

    table.clear();
    assert_eq!(table.get_history(mv), 0);
}

#[test]
fn startpos_layout() {
    let pos = Position::startpos();
    assert_eq!(pos.red_occupancy().popcount(), 2);
    assert_eq!(pos.blue_occupancy().popcount(), 2);
    assert_eq!(pos.side_to_move(), Color::red());
    assert!(pos.color_at(Square::from_coords(6, 0)) == Color::red());
    assert!(pos.color_at(Square::from_coords(0, 6)) == Color::red());
    assert!(pos.color_at(Square::from_coords(0, 0)) == Color::blue());
    assert!(pos.color_at(Square::from_coords(6, 6)) == Color::blue());
    assert!(!pos.game_over());
}

#[test]
fn biterator_walks_ascending() {
    let bb = Bitboard::from_raw((1u64 << 3) | (1u64 << 17) | (1u64 << 52));
    let mut it = Biterator::new(bb);
    assert_eq!(it.next().map(|s| s.bit_idx()), Some(3));
    assert_eq!(it.next().map(|s| s.bit_idx()), Some(17));
    assert_eq!(it.next().map(|s| s.bit_idx()), Some(52));
    assert_eq!(it.next().map(|s| s.bit_idx()), None);
}

#[test]
fn fen_encode_round_trip() {
    let fens = [
        "x5o/7/7/7/7/7/o5x x 0 1",
        "x5o/7/2-1-2/7/2-1-2/7/o5x o 42 17",
        "7/7/7/2x1o2/7/7/7 x 0 1",
        "x-1-1-o/1-1-1-1/1-1-1-1/1-1-1-1/1-1-1-1/1-1-1-1/o-1-1-x x 3 9",
    ];
    for fen in fens {
        let pos = ataxx::position::Position::from_fen(fen).unwrap();
        assert_eq!(pos.to_fen(), fen);
    }
}
