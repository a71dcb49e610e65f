use ataxx::ataxx_move::{AtaxxMove, MoveStrError, PackedMove};
use ataxx::square::{Color, Square, SquareStrError};

#[test]
fn pack_single() {
    let m = AtaxxMove::Single(Square::from_coords(5, 1));
    assert_eq!(m.pack().raw(), 0b10_000000_101001);
}

#[test]
fn pack_double() {
    let m = AtaxxMove::Double(Square::from_coords(4, 1), Square::from_coords(6, 0));
    assert_eq!(m.pack().raw(), 0b11_100001_110000);
}

#[test]
fn unpack_single() {
    let m = AtaxxMove::Single(Square::from_coords(5, 1));
    let packed = PackedMove::from_raw(0b10_000000_101001);

    assert_eq!(packed.unpack(), m);
}

#[test]
fn unpack_double() {
    let m = AtaxxMove::Double(Square::from_coords(4, 1), Square::from_coords(6, 0));
    let packed = PackedMove::from_raw(0b11_100001_110000);

    assert_eq!(packed.unpack(), m);
}

#[test]
fn square_flip() {
    assert_eq!(Color::red().flip(), Color::blue());
    assert_eq!(Color::blue().flip(), Color::red());

    assert_eq!(Color::red().flip().flip(), Color::red());
    assert_eq!(Color::blue().flip().flip(), Color::blue());
}

#[test]
fn pack_round_trips_every_variant() {
    let cases = [
        AtaxxMove::NoMove,
        AtaxxMove::Null,
        AtaxxMove::Single(Square::from_coords(0, 0)),
        AtaxxMove::Single(Square::from_coords(6, 6)),
        AtaxxMove::Double(Square::from_coords(0, 6), Square::from_coords(2, 5)),
        AtaxxMove::Double(Square::from_coords(6, 0), Square::from_coords(4, 2)),
    ];
    for m in cases {
        assert_eq!(m.pack().unpack(), m);
    }
}

#[test]
fn move_text_round_trip() {
    assert_eq!(AtaxxMove::from_str("0000").unwrap(), AtaxxMove::Null);
    let single = AtaxxMove::from_str("b6").unwrap();
    assert_eq!(single, AtaxxMove::Single(Square::from_coords(5, 1)));
    assert_eq!(single.to_text(), "b6");
    let double = AtaxxMove::from_str("a7c5").unwrap();
    assert_eq!(
        double,
        AtaxxMove::Double(Square::from_coords(6, 0), Square::from_coords(4, 2))
    );
    assert_eq!(double.to_text(), "a7c5");
    assert_eq!(AtaxxMove::Null.to_text(), "0000");
}

#[test]
fn move_text_errors() {
    assert!(matches!(
        AtaxxMove::from_str("abc"),
        Err(MoveStrError::WrongSize)
    ));
    assert!(matches!(
        AtaxxMove::from_str("z9"),
        Err(MoveStrError::InvalidTo)
    ));
    assert!(matches!(
        AtaxxMove::from_str("z9a1"),
        Err(MoveStrError::InvalidFrom)
    ));
    assert!(matches!(
        AtaxxMove::from_str("a1z9"),
        Err(MoveStrError::InvalidTo)
    ));
}

#[test]
fn square_text_errors() {
    assert!(matches!(
        Square::from_str("a"),
        Err(SquareStrError::WrongSize)
    ));
    assert!(matches!(
        Square::from_str("h1"),
        Err(SquareStrError::InvalidFile)
    ));
    assert!(matches!(
        Square::from_str("a8"),
        Err(SquareStrError::InvalidRank)
    ));
    let sq = Square::from_str("g7").unwrap();
    assert_eq!(sq.idx(), 48);
}
