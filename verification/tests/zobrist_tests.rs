use m4k::types::{CastleRights, Color, Piece, Square};
use m4k::zobrist::{
    black_to_move_key, castle_key, en_passant_key, mix, piece_square_key, ZobristHash,
};

#[test]
fn test_zobrist_hash_creation() {
    let hash = ZobristHash::new();
    assert_eq!(hash.value(), 0);
}

#[test]
fn test_piece_placement() {
    let mut hash = ZobristHash::new();
    let original = hash.value();

    hash.place_piece(Piece::Pawn, Color::White, Square(Square::E4));
    assert_ne!(hash.value(), original);

    hash.place_piece(Piece::Pawn, Color::White, Square(Square::E4));
    assert_eq!(hash.value(), original);
}

#[test]
fn test_piece_movement() {
    let mut hash = ZobristHash::new();
    let original = hash.value();

    hash.place_piece(Piece::Knight, Color::Black, Square(Square::B1));
    let after_place = hash.value();
    assert_ne!(after_place, original);

    hash.move_piece(Piece::Knight, Color::Black, Square(Square::B1), Square(Square::C3));
    let after_move = hash.value();
    assert_ne!(after_move, after_place);

    hash.move_piece(Piece::Knight, Color::Black, Square(Square::C3), Square(Square::B1));
    assert_eq!(hash.value(), after_place);
}

#[test]
fn test_side_to_move() {
    let mut hash = ZobristHash::new();
    let original = hash.value();

    hash.flip_side();
    assert_ne!(hash.value(), original);

    hash.flip_side();
    assert_eq!(hash.value(), original);
}

#[test]
fn test_castle_rights() {
    let mut hash = ZobristHash::new();
    let original = hash.value();

    hash.update_castle_rights(CastleRights(CastleRights::ALL), CastleRights(CastleRights::NONE));
    assert_ne!(hash.value(), original);

    hash.update_castle_rights(CastleRights(CastleRights::NONE), CastleRights(CastleRights::ALL));
    assert_eq!(hash.value(), original);
}

#[test]
fn en_passant_target_is_swapped_by_file() {
    let mut hash = ZobristHash::new();
    let original = hash.value();

    hash.update_en_passant(None, Some(Square(Square::E3)));
    let with_target = hash.value();
    assert_ne!(with_target, original);
    assert_eq!(with_target, en_passant_key(4));

    // The same target again changes nothing, and neither does another
    // square of the same file.
    hash.update_en_passant(Some(Square(Square::E3)), Some(Square(Square::E3)));
    assert_eq!(hash.value(), with_target);
    hash.update_en_passant(Some(Square(Square::E3)), Some(Square(Square::E6)));
    assert_eq!(hash.value(), with_target);

    hash.update_en_passant(Some(Square(Square::E6)), None);
    assert_eq!(hash.value(), original);
}

#[test]
fn keys_are_fixed_and_distinct() {
    assert_eq!(mix(0), 0xE220_A839_7B1D_CDAF);
    assert_eq!(piece_square_key(Piece::Pawn, Color::White, Square(0)), mix(1));
    assert_eq!(piece_square_key(Piece::King, Color::Black, Square(63)), mix(768));
    assert_eq!(black_to_move_key(), mix(769));
    assert_eq!(castle_key(CastleRights(0)), mix(770));
    assert_eq!(castle_key(CastleRights(15)), mix(785));
    assert_eq!(en_passant_key(0), mix(786));
    assert_eq!(en_passant_key(7), mix(793));
    let mut seen = std::collections::HashSet::new();
    for i in 0..794u64 {
        assert!(seen.insert(mix(i)));
    }
    assert!(!seen.contains(&0));
}

#[test]
fn remove_piece_undoes_place_piece() {
    let mut hash = ZobristHash::new();
    hash.place_piece(Piece::Queen, Color::Black, Square(Square::D8));
    hash.remove_piece(Piece::Queen, Color::Black, Square(Square::D8));
    assert_eq!(hash.value(), 0);
}

#[test]
fn a_number_becomes_a_fingerprint() {
    assert_eq!(ZobristHash::from(5).value(), 5);
    assert_eq!(ZobristHash::default(), ZobristHash::new());
}
