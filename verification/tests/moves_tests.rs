use m4k::moves::{Move, MoveList, MoveType, MAX_MOVES};
use m4k::types::{Bitboard, Piece, Square};

#[test]
fn test_move_creation() {
    let mv = Move::new(Square(Square::E2), Square(Square::E4));
    assert_eq!(mv.from(), Square(Square::E2));
    assert_eq!(mv.to(), Square(Square::E4));
    assert_eq!(mv.move_type(), MoveType::Normal);
}

#[test]
fn test_promotion_move() {
    let mv = Move::promotion(Square(Square::E7), Square(Square::E8), Piece::Queen);
    assert_eq!(mv.from(), Square(Square::E7));
    assert_eq!(mv.to(), Square(Square::E8));
    assert_eq!(mv.move_type(), MoveType::Promotion);
    assert_eq!(mv.promotion_piece(), Piece::Queen);
}

#[test]
fn test_en_passant_move() {
    let mv = Move::en_passant(Square(Square::E5), Square(Square::F6));
    assert_eq!(mv.move_type(), MoveType::EnPassant);
}

#[test]
fn test_castling_move() {
    let mv = Move::castling(Square(Square::E1), Square(Square::G1));
    assert_eq!(mv.move_type(), MoveType::Castling);
}

#[test]
fn test_move_list() {
    let mut list = MoveList::new();
    assert_eq!(list.len(), 0);
    assert!(list.is_empty());

    list.push(Move::new(Square(Square::E2), Square(Square::E4)));
    assert_eq!(list.len(), 1);
    assert!(!list.is_empty());

    assert_eq!(list.at(0).from(), Square(Square::E2));
}

#[test]
fn move_bits_are_packed_as_documented() {
    assert_eq!(Move::new(Square(12), Square(28)).0, 12 | (28 << 6));
    assert_eq!(Move::promotion(Square(52), Square(60), Piece::Knight).0, 52 | (60 << 6) | (1 << 12) | (3 << 14));
    assert_eq!(Move::promotion(Square(52), Square(60), Piece::King).0, 52 | (60 << 6) | (1 << 12));
    assert_eq!(Move::en_passant(Square(36), Square(45)).0, 36 | (45 << 6) | (2 << 12));
    assert_eq!(Move::castling(Square(4), Square(6)).0, 4 | (6 << 6) | (3 << 12));
}

#[test]
fn every_promotion_piece_reads_back() {
    for piece in [Piece::Queen, Piece::Rook, Piece::Bishop, Piece::Knight] {
        let mv = Move::promotion(Square(Square::A7), Square(Square::B8), piece);
        assert_eq!(mv.promotion_piece(), piece);
        assert!(mv.is_promotion());
        assert!(!mv.is_en_passant());
        assert!(!mv.is_castling());
    }
    assert_eq!(
        Move::promotion(Square(Square::A7), Square(Square::A8), Piece::Pawn).promotion_piece(),
        Piece::Queen
    );
}

#[test]
fn capture_is_read_off_the_occupancy() {
    let mv = Move::new(Square(Square::E4), Square(Square::D5));
    assert!(mv.is_capture(Bitboard(1u64 << 35)));
    assert!(!mv.is_capture(Bitboard(1u64 << 36)));
}

#[test]
fn a_full_list_takes_no_more() {
    let mut list = MoveList::new();
    for i in 0..MAX_MOVES {
        assert!(list.try_push(Move::new(Square((i % 64) as u8), Square(0))));
    }
    assert_eq!(list.len(), 256);
    assert!(!list.try_push(Move::new(Square(1), Square(2))));
    assert_eq!(list.len(), 256);
    assert_eq!(list.at(255), Move::new(Square(63), Square(0)));
}

#[test]
fn list_get_set_clear_and_copy() {
    let mut list = MoveList::new();
    let a = Move::new(Square(1), Square(2));
    let b = Move::new(Square(3), Square(4));
    list.push(a);
    list.push(b);
    assert_eq!(list.get(0), Some(a));
    assert_eq!(list.get(1), Some(b));
    assert_eq!(list.get(2), None);
    list.set(0, b);
    assert_eq!(list.to_vec(), vec![b, b]);
    list.clear();
    assert!(list.is_empty());
    assert_eq!(list.get(0), None);
}

#[test]
fn default_and_clone() {
    assert!(MoveList::default().is_empty());
    let mut list = MoveList::new();
    list.push(Move::new(Square(1), Square(2)));
    list.push(Move::castling(Square(4), Square(6)));
    let copy = list.clone();
    list.clear();
    assert_eq!(copy.to_vec(), vec![Move::new(Square(1), Square(2)), Move::castling(Square(4), Square(6))]);
}
