use ataxx::ataxx_move::AtaxxMove;
use ataxx::movegen::{fill_move_list, MoveList};
use ataxx::movepick::Movepicker;
use ataxx::position::Position;
use ataxx::square::Square;

#[test]
fn tt_move_first() {
    let pos = Position::startpos();

    let mut moves = MoveList::new();
    fill_move_list(&mut moves, &pos);

    let tt_move = moves[3];
    let mut movepicker = Movepicker::new(tt_move);

    assert_eq!(tt_move, movepicker.next(&pos).unwrap());
}

#[test]
fn tt_move_unduplicated() {
    let pos = Position::startpos();

    let mut moves = MoveList::new();
    fill_move_list(&mut moves, &pos);

    let tt_move = moves[3];
    let mut movepicker = Movepicker::new(tt_move);

    movepicker.next(&pos);

    while let Some(m) = movepicker.next(&pos) {
        assert_ne!(m, tt_move);
    }
}

#[test]
fn no_move_missing() {
    let pos = Position::startpos();

    let mut moves = MoveList::new();
    fill_move_list(&mut moves, &pos);

    let tt_move = moves[3];
    let mut movepicker = Movepicker::new(tt_move);

    let mut move_count = 0usize;

    while movepicker.next(&pos).is_some() {
        move_count += 1;
    }

    assert_eq!(move_count, moves.len());
}

#[test]
fn no_move_missing_no_tt_move() {
    let pos = Position::startpos();

    let mut moves = MoveList::new();
    fill_move_list(&mut moves, &pos);

    let mut movepicker = Movepicker::new(AtaxxMove::NoMove);

    let mut move_count = 0usize;

    while movepicker.next(&pos).is_some() {
        move_count += 1;
    }

    assert_eq!(move_count, moves.len());
}

#[test]
fn illegal_tt_move() {
    let pos = Position::startpos();

    let mut moves = MoveList::new();
    fill_move_list(&mut moves, &pos);

    let tt_move = AtaxxMove::Single(Square::from_coords(0, 1));
    let mut movepicker = Movepicker::new(tt_move);

    while let Some(m) = movepicker.next(&pos) {
        assert_ne!(m, tt_move);
    }
}

#[test]
fn picker_yields_each_generated_move_once() {
    let pos = Position::from_fen("x5o/7/2-1-2/7/2-1-2/7/o5x x 0 1").unwrap();

    let mut moves = MoveList::new();
    fill_move_list(&mut moves, &pos);

    let tt_move = moves[moves.len() - 1];
    let mut movepicker = Movepicker::new(tt_move);

    let mut seen: Vec<AtaxxMove> = Vec::new();
    while let Some(m) = movepicker.next(&pos) {
        assert!(!seen.contains(&m), "a move came out twice");
        assert!(moves.contains(&m), "a move outside the generated set");
        seen.push(m);
    }
    assert_eq!(seen.len(), moves.len());
    assert_eq!(seen[0], tt_move);
}

#[test]
fn pass_when_nothing_else_exists() {
    // One red piece boxed in by blocked squares: red can only pass.
    let pos = Position::from_fen("x--4/---4/---4/7/7/7/4o2 x 0 1").unwrap();
    assert!(!pos.game_over());

    let mut moves = MoveList::new();
    fill_move_list(&mut moves, &pos);
    assert_eq!(moves, vec![AtaxxMove::Null]);

    assert!(pos.is_legal(AtaxxMove::Null));
    assert!(!pos.is_legal(AtaxxMove::Single(Square::from_coords(3, 3))));
}
