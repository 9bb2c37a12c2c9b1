use m4k::legal::{is_legal_move, legal_moves};
use m4k::magic::init_magics;
use m4k::moves::{Move, MoveType};
use m4k::position::{Position, PositionError, Undo};
use m4k::types::{Bitboard, CastleRights, Color, Piece, Square};

fn from_fen(fen: &str) -> Position {
    let mut pos = Position::empty();
    assert_eq!(pos.set_fen(fen), Ok(()));
    pos
}

fn startpos() -> Position {
    let mut pos = Position::empty();
    pos.set_startpos();
    pos
}

#[test]
fn test_startpos_zobrist_hash_consistency() {
    let mut pos = Position::empty();
    pos.set_startpos();
    let hash1 = pos.zobrist_hash();
    let hash2 = pos.zobrist_hash();
    assert_eq!(hash1, hash2, "Zobrist hash should be consistent for startpos");
}

#[test]
fn test_piece_placement_and_removal() {
    let mut pos = Position::empty();
    pos.set_piece(Piece::Knight, Color::White, Square(Square::E4));
    assert_eq!(
        pos.piece_bb(Piece::Knight, Color::White).is_occupied(Square(Square::E4)),
        true
    );
    pos.remove_piece(Piece::Knight, Color::White, Square(Square::E4));
    assert_eq!(
        pos.piece_bb(Piece::Knight, Color::White).is_occupied(Square(Square::E4)),
        false
    );
}

#[test]
fn empty_position_fields() {
    let pos = Position::empty();
    assert_eq!(pos.all_occupied().0, 0);
    assert_eq!(pos.side_to_move, Color::White);
    assert_eq!(pos.castling_rights, CastleRights(0));
    assert_eq!(pos.en_passant, None);
    assert_eq!(pos.halfmove_clock, 0);
    assert_eq!(pos.fullmove_number, 1);
}

#[test]
fn startpos_has_the_standard_placement() {
    let pos = startpos();
    assert_eq!(pos.piece_bb(Piece::Pawn, Color::White).0, 0xFF00);
    assert_eq!(pos.piece_bb(Piece::King, Color::Black).0, 1u64 << 60);
    assert_eq!(pos.occupancy_of(Color::White).0, 0xFFFF);
    assert_eq!(pos.occupancy_of(Color::Black).0, 0xFFFF_0000_0000_0000);
    assert_eq!(pos.castling_rights.0, 15);
    assert_eq!(pos.to_fen(), "rnbqkbnr/pppppppp/8/8/8/8/PPPPPPPP/RNBQKBNR w KQkq - 0 1");
    assert_eq!(pos.piece_on(Color::White, Square(Square::D1)), Some(Piece::Queen));
    assert_eq!(pos.piece_on(Color::Black, Square(Square::D1)), None);
}

#[test]
fn set_piece_keeps_the_fingerprint_in_step() {
    let mut pos = Position::empty();
    pos.set_piece(Piece::Rook, Color::Black, Square(Square::A8));
    pos.set_piece(Piece::Rook, Color::Black, Square(Square::A8));
    pos.set_piece(Piece::King, Color::White, Square(Square::E1));
    let stored = pos.zobrist_hash();
    pos.recompute_hash();
    assert_eq!(pos.zobrist_hash(), stored);
    pos.remove_piece(Piece::Rook, Color::Black, Square(Square::A8));
    pos.remove_piece(Piece::Rook, Color::Black, Square(Square::A8));
    pos.remove_piece(Piece::King, Color::White, Square(Square::E1));
    assert_eq!(pos, Position::empty());
}

#[test]
fn fingerprint_depends_on_side_rights_and_target_file_only() {
    let a = from_fen("4k3/8/8/8/4P3/8/8/4K3 b - e3 0 1");
    let b = from_fen("4k3/8/8/8/4P3/8/8/4K3 b - e3 37 99");
    assert_eq!(a.zobrist_hash(), b.zobrist_hash());
    let other_side = from_fen("4k3/8/8/8/4P3/8/8/4K3 w - e3 0 1");
    assert_ne!(a.zobrist_hash(), other_side.zobrist_hash());
    let other_file = from_fen("4k3/8/8/8/4P3/8/8/4K3 b - d3 0 1");
    assert_ne!(a.zobrist_hash(), other_file.zobrist_hash());
    let no_target = from_fen("4k3/8/8/8/4P3/8/8/4K3 b - - 0 1");
    assert_ne!(a.zobrist_hash(), no_target.zobrist_hash());
    let with_rights = from_fen("4k3/8/8/8/4P3/8/8/4K3 b K e3 0 1");
    assert_ne!(a.zobrist_hash(), with_rights.zobrist_hash());
}

#[test]
fn make_move_without_a_piece_on_the_origin_fails() {
    let mut pos = startpos();
    let before = pos;
    assert_eq!(
        pos.make_move(Move::new(Square(Square::E4), Square(Square::E5))),
        Err(PositionError::InvalidMove)
    );
    assert_eq!(pos, before);
    // A black piece is no piece of the side to move.
    assert_eq!(
        pos.make_move(Move::new(Square(Square::E7), Square(Square::E5))),
        Err(PositionError::InvalidMove)
    );
    assert_eq!(pos.play(Move::new(Square(Square::E4), Square(Square::E5))), None);
}

#[test]
fn double_push_sets_the_target_and_resets_the_clock() {
    let mut pos = from_fen("rnbqkbnr/pppppppp/8/8/8/8/PPPPPPPP/RNBQKBNR w KQkq - 7 1");
    let undo = pos.make_move(Move::new(Square(Square::E2), Square(Square::E4))).unwrap();
    assert_eq!(
        undo,
        Undo {
            mv: Move::new(Square(Square::E2), Square(Square::E4)),
            captured: None,
            prev_castling: CastleRights(15),
            prev_en_passant: None,
            prev_halfmove: 7,
        }
    );
    assert_eq!(pos.to_fen(), "rnbqkbnr/pppppppp/8/8/4P3/8/PPPP1PPP/RNBQKBNR b KQkq e3 0 1");
    pos.make_move(Move::new(Square(Square::G8), Square(Square::F6))).unwrap();
    assert_eq!(pos.to_fen(), "rnbqkb1r/pppppppp/5n2/8/4P3/8/PPPP1PPP/RNBQKBNR w KQkq - 1 2");
}

#[test]
fn capture_promotion_and_their_undo() {
    let start = from_fen("1r2k3/P7/8/8/8/8/8/4K3 w - - 5 10");
    let mut pos = start;
    let mv = Move::promotion(Square(Square::A7), Square(Square::B8), Piece::Knight);
    let undo = pos.make_move(mv).unwrap();
    assert_eq!(undo.captured, Some(Piece::Rook));
    assert_eq!(pos.to_fen(), "1N2k3/8/8/8/8/8/8/4K3 b - - 0 10");
    pos.unmake_move(undo);
    assert_eq!(pos, start);
    assert_eq!(pos.zobrist_hash(), start.zobrist_hash());
}

#[test]
fn castling_moves_the_rook_and_costs_the_rights() {
    let start = from_fen("r3k2r/8/8/8/8/8/8/R3K2R w KQkq - 0 1");
    let mut pos = start;
    let undo = pos.make_move(Move::castling(Square(Square::E1), Square(Square::G1))).unwrap();
    assert_eq!(pos.to_fen(), "r3k2r/8/8/8/8/8/8/R4RK1 b kq - 1 1");
    let undo2 = pos.make_move(Move::castling(Square(Square::E8), Square(Square::C8))).unwrap();
    assert_eq!(pos.to_fen(), "2kr3r/8/8/8/8/8/8/R4RK1 w - - 2 2");
    pos.unmake_move(undo2);
    pos.unmake_move(undo);
    assert_eq!(pos, start);
}

#[test]
fn rook_moves_and_corner_captures_cost_one_right() {
    let mut pos = from_fen("r3k2r/8/8/8/8/8/8/R3K2R w KQkq - 0 1");
    pos.make_move(Move::new(Square(Square::A1), Square(Square::A8))).unwrap();
    // White's rook left a1 and took the rook on a8.
    assert_eq!(pos.castling_rights.0, CastleRights::WHITE_KING | CastleRights::BLACK_KING);
    pos.make_move(Move::new(Square(Square::E8), Square(Square::E7))).unwrap();
    assert_eq!(pos.castling_rights.0, CastleRights::WHITE_KING);
}

#[test]
fn en_passant_takes_the_pawn_beside_the_origin() {
    // The move e5f6 is legal, captures the f5 pawn and clears the target.
    let tables = init_magics().unwrap();
    let start = from_fen("rnbqkbnr/ppp1p1pp/8/3pPp2/8/8/PPPP1PPP/RNBQKBNR w KQkq f6 0 3");
    let mv = Move::en_passant(Square(Square::E5), Square(Square::F6));
    assert!(is_legal_move(&tables, mv, &start));
    assert!(legal_moves(&tables, &start).to_vec().contains(&mv));
    let mut pos = start;
    let undo = pos.make_move(mv).unwrap();
    assert_eq!(undo.captured, Some(Piece::Pawn));
    assert!(!pos.piece_bb(Piece::Pawn, Color::Black).is_occupied(Square(Square::F5)));
    assert!(pos.piece_bb(Piece::Pawn, Color::White).is_occupied(Square(Square::F6)));
    assert_eq!(pos.en_passant, None);
    assert_eq!(pos.to_fen(), "rnbqkbnr/ppp1p1pp/5P2/3p4/8/8/PPPP1PPP/RNBQKBNR b KQkq - 0 3");
    pos.unmake_move(undo);
    assert_eq!(pos, start);
}

#[test]
fn fullmove_counts_up_after_black_and_back_on_undo() {
    let start = from_fen("4k3/8/8/8/8/8/8/4K3 b - - 3 41");
    let mut pos = start;
    let undo = pos.make_move(Move::new(Square(Square::E8), Square(Square::D8))).unwrap();
    assert_eq!(pos.fullmove_number, 42);
    assert_eq!(pos.halfmove_clock, 4);
    assert_eq!(pos.side_to_move, Color::White);
    pos.unmake_move(undo);
    assert_eq!(pos, start);
}

#[test]
fn eighty_plies_forth_and_back_restore_the_start() {
    // Apply every move of a 40-move game from the start, then undo them all.
    let tables = init_magics().unwrap();
    let start = startpos();
    let mut pos = start;
    let mut undos = Vec::new();
    let mut hashes = vec![pos.zobrist_hash()];
    for ply in 0..80usize {
        let legal = legal_moves(&tables, &pos).to_vec();
        assert!(!legal.is_empty());
        let mv = legal[(ply * 7 + 3) % legal.len()];
        undos.push(pos.make_move(mv).unwrap());
        let stored = pos.zobrist_hash();
        let mut fresh = pos;
        fresh.recompute_hash();
        assert_eq!(fresh.zobrist_hash(), stored);
        assert_eq!(pos.occupancy_of(Color::White).0 & pos.occupancy_of(Color::Black).0, 0);
        hashes.push(stored);
    }
    assert_eq!(pos.fullmove_number, 41);
    while let Some(undo) = undos.pop() {
        pos.unmake_move(undo);
        hashes.pop();
        assert_eq!(pos.zobrist_hash(), *hashes.last().unwrap());
    }
    assert_eq!(pos, start);
    assert_eq!(pos.zobrist_hash(), start.zobrist_hash());
}

#[test]
fn undo_restores_every_legal_move_of_a_busy_position() {
    let tables = init_magics().unwrap();
    let start = from_fen("r3k2r/p1ppqpb1/bn2pnp1/3PN3/1p2P3/2N2Q1p/PPPBBPPP/R3K2R w KQkq - 0 1");
    let legal = legal_moves(&tables, &start).to_vec();
    assert_eq!(legal.len(), 48);
    for mv in legal {
        let mut pos = start;
        let undo = pos.make_move(mv).unwrap();
        assert_ne!(pos, start);
        pos.unmake_move(undo);
        assert_eq!(pos, start);
    }
}

#[test]
fn kinds_of_generated_moves() {
    let tables = init_magics().unwrap();
    let pos = from_fen("r3k2r/8/8/8/8/8/8/R3K2R w KQkq - 0 1");
    let legal = legal_moves(&tables, &pos).to_vec();
    let castles: Vec<&Move> = legal.iter().filter(|m| m.move_type() == MoveType::Castling).collect();
    assert_eq!(castles.len(), 2);
    assert_eq!(pos.all_occupied(), Bitboard(0x9100_0000_0000_0091));
}
