use m4k::types::{Bitboard, CastleRights, Color, Piece, Square};

#[test]
fn test_basic_types() {
    let _bb: Bitboard = Bitboard(Bitboard::EMPTY);
    let _sq: Square = Square(Square::A1);
}

#[test]
fn test_bitboard_basics() {
    let mut bb = Bitboard(Bitboard::EMPTY);
    assert_eq!(bb.count(), 0);

    bb.set(Square(Square::E4));
    assert!(bb.is_occupied(Square(Square::E4)));
    assert_eq!(bb.count(), 1);

    bb.set(Square(Square::D4));
    assert_eq!(bb.count(), 2);

    bb.clear(Square(Square::E4));
    assert!(!bb.is_occupied(Square(Square::E4)));
    assert_eq!(bb.count(), 1);
}

#[test]
fn test_square_conversion() {
    let sq = Square(Square::E4);
    assert_eq!(sq.file(), 4);
    assert_eq!(sq.rank(), 3);

    let sq2 = Square::new(4, 3);
    assert_eq!(sq, sq2);
}

#[test]
fn bitboard_toggle_flips_membership() {
    let mut bb = Bitboard::empty();
    bb.toggle(Square(Square::H8));
    assert_eq!(bb.0, 0x8000_0000_0000_0000);
    bb.toggle(Square(Square::H8));
    assert!(bb.is_empty());
}

#[test]
fn bitboard_lsb_and_pop_lsb_go_lowest_first() {
    let mut bb = Bitboard(0b1011_0000);
    assert_eq!(bb.lsb(), Some(Square(4)));
    assert_eq!(bb.pop_lsb(), Some(Square(4)));
    assert_eq!(bb.pop_lsb(), Some(Square(5)));
    assert_eq!(bb.pop_lsb(), Some(Square(7)));
    assert_eq!(bb.pop_lsb(), None);
    assert_eq!(Bitboard::empty().lsb(), None);
}

#[test]
fn bitboard_iter_hands_out_every_square_once() {
    let bb = Bitboard(Bitboard::RANK_2);
    let mut it = bb.iter();
    let mut seen = Vec::new();
    while let Some(sq) = it.next() {
        seen.push(sq.0);
    }
    assert_eq!(seen, vec![8, 9, 10, 11, 12, 13, 14, 15]);
}

#[test]
fn file_and_rank_masks() {
    assert_eq!(Bitboard::file(0).0, Bitboard::FILE_A);
    assert_eq!(Bitboard::file(7).0, Bitboard::FILE_H);
    assert_eq!(Bitboard::rank(0).0, Bitboard::RANK_1);
    assert_eq!(Bitboard::rank(7).0, Bitboard::RANK_8);
    assert_eq!(Bitboard::all().0, Bitboard::ALL);
    assert_eq!(Bitboard::from_square(Square(Square::E4)).0, 1u64 << 28);
    assert_eq!(Square(Square::E4).to_bitboard().0, 1u64 << 28);
}

#[test]
fn piece_numbers() {
    assert_eq!(Piece::from_u8(0), Some(Piece::Pawn));
    assert_eq!(Piece::from_u8(5), Some(Piece::King));
    assert_eq!(Piece::from_u8(6), None);
    assert_eq!(Piece::Queen.index(), 4);
}

#[test]
fn color_opposite_is_an_involution() {
    assert_eq!(Color::White.opposite(), Color::Black);
    assert_eq!(Color::Black.opposite(), Color::White);
    assert_eq!(Color::White.opposite().opposite(), Color::White);
    assert_eq!(Color::from_u8(1), Color::Black);
    assert_eq!(Color::from_u8(0), Color::White);
    assert_eq!(Color::from_u8(7), Color::White);
    assert_eq!(Color::Black.index(), 1);
}

#[test]
fn castle_rights_flags() {
    let mut rights = CastleRights(CastleRights::NONE);
    assert!(!rights.has(CastleRights(CastleRights::WHITE_KING)));
    rights.add(CastleRights(CastleRights::WHITE_KING));
    rights.add(CastleRights(CastleRights::BLACK_QUEEN));
    assert_eq!(rights.0, 9);
    assert!(rights.has(CastleRights(CastleRights::WHITE_KING)));
    assert!(rights.has(CastleRights(CastleRights::ALL)));
    rights.remove(CastleRights(CastleRights::WHITE_KING));
    assert_eq!(rights.0, 8);
}
