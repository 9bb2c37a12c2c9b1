use m4k::generator::{
    generate_bishop_moves, generate_castling_moves, generate_king_moves, generate_knight_moves,
    generate_moves, generate_pawn_moves, generate_queen_moves, generate_rook_moves,
};
use m4k::legal::{
    compute_enemy_attacks, filter_legal_moves, is_checkmate, is_in_check, is_legal_castling,
    is_legal_move, is_stalemate, king_in_check, legal_moves, simulate_move_and_check_king,
};
use m4k::magic::init_magics;
use m4k::moves::{Move, MoveList, MoveType};
use m4k::position::Position;
use m4k::types::{Bitboard, CastleRights, Color, Piece, Square};

fn from_fen(fen: &str) -> Position {
    let mut pos = Position::empty();
    assert_eq!(pos.set_fen(fen), Ok(()));
    pos
}

#[test]
fn test_check_detection() {
    let king_sq = Square(Square::E1);
    let mut enemy_attacks = Bitboard(Bitboard::EMPTY);
    enemy_attacks.set(Square(Square::E1));

    assert!(is_in_check(king_sq, enemy_attacks));

    let enemy_attacks = Bitboard(Bitboard::EMPTY);
    assert!(!is_in_check(king_sq, enemy_attacks));
}

#[test]
fn test_checkmate_stalemate() {
    let king_sq = Square(Square::E1);
    let enemy_attacks = Bitboard(Bitboard::EMPTY);
    let empty_moves = MoveList::new();

    assert!(is_stalemate(king_sq, enemy_attacks, &empty_moves));
    assert!(!is_checkmate(king_sq, enemy_attacks, &empty_moves));

    let mut enemy_attacks = Bitboard(Bitboard::EMPTY);
    enemy_attacks.set(Square(Square::E1));
    assert!(is_checkmate(king_sq, enemy_attacks, &empty_moves));
    assert!(!is_stalemate(king_sq, enemy_attacks, &empty_moves));
}

#[test]
fn start_position_has_twenty_moves() {
    let tables = init_magics().unwrap();
    let mut pos = Position::empty();
    pos.set_startpos();
    let pseudo = generate_moves(&tables, &pos);
    assert_eq!(pseudo.len(), 20);
    let legal = legal_moves(&tables, &pos);
    assert_eq!(legal.len(), 20);
    // Nothing occurs twice.
    let mut seen = std::collections::HashSet::new();
    for mv in legal.to_vec() {
        assert!(seen.insert(mv));
    }
    assert!(seen.contains(&Move::new(Square(Square::E2), Square(Square::E4))));
    assert!(seen.contains(&Move::new(Square(Square::G1), Square(Square::F3))));
}

#[test]
fn known_move_counts() {
    let tables = init_magics().unwrap();
    for (fen, count) in [
        ("r3k2r/p1ppqpb1/bn2pnp1/3PN3/1p2P3/2N2Q1p/PPPBBPPP/R3K2R w KQkq - 0 1", 48),
        ("8/2p5/3p4/KP5r/1R3p1k/8/4P1P1/8 w - - 0 1", 14),
        ("r3k2r/Pppp1ppp/1b3nbN/nP6/BBP1P3/q4N2/Pp1P2PP/R2Q1RK1 w kq - 0 1", 6),
        ("rnbq1k1r/pp1Pbppp/2p5/8/2B5/8/PPP1NnPP/RNBQK2R w KQ - 1 8", 44),
        ("r4rk1/1pp1qppp/p1np1n2/2b1p1B1/2B1P1b1/P1NP1N2/1PP1QPPP/R4RK1 w - - 0 10", 46),
    ] {
        let pos = from_fen(fen);
        assert_eq!(legal_moves(&tables, &pos).len(), count, "{}", fen);
    }
}

#[test]
fn perft_two_from_the_start() {
    let tables = init_magics().unwrap();
    let mut pos = Position::empty();
    pos.set_startpos();
    let mut nodes = 0;
    for mv in legal_moves(&tables, &pos).to_vec() {
        let next = pos.play(mv).unwrap();
        nodes += legal_moves(&tables, &next).len();
    }
    assert_eq!(nodes, 400);
}

#[test]
fn perft_two_from_a_busy_position() {
    let tables = init_magics().unwrap();
    let pos = from_fen("r3k2r/p1ppqpb1/bn2pnp1/3PN3/1p2P3/2N2Q1p/PPPBBPPP/R3K2R w KQkq - 0 1");
    let mut nodes = 0;
    for mv in legal_moves(&tables, &pos).to_vec() {
        let next = pos.play(mv).unwrap();
        nodes += legal_moves(&tables, &next).len();
    }
    assert_eq!(nodes, 2039);
}

#[test]
fn stalemate_has_no_legal_move_and_no_check() {
    let tables = init_magics().unwrap();
    let pos = from_fen("7k/5Q2/6K1/8/8/8/8/8 b - - 0 1");
    let legal = legal_moves(&tables, &pos);
    assert_eq!(legal.len(), 0);
    assert!(!king_in_check(&tables, &pos, Color::Black));
    let attacks = compute_enemy_attacks(&tables, &pos, Color::White);
    assert!(is_stalemate(Square(Square::H8), attacks, &legal));
    assert!(!is_checkmate(Square(Square::H8), attacks, &legal));
}

#[test]
fn mate_has_no_legal_move_and_check() {
    let tables = init_magics().unwrap();
    let pos = from_fen("R5k1/5ppp/8/8/8/8/5PPP/6K1 b - - 1 1");
    let legal = legal_moves(&tables, &pos);
    assert_eq!(legal.len(), 0);
    assert!(king_in_check(&tables, &pos, Color::Black));
    let attacks = compute_enemy_attacks(&tables, &pos, Color::White);
    assert!(is_checkmate(Square(Square::G8), attacks, &legal));
}

#[test]
fn castling_through_an_attacked_square_is_illegal() {
    let tables = init_magics().unwrap();
    // A black rook on f8 attacks f1: kingside castling is out, queenside is in.
    let pos = from_fen("4kr2/8/8/8/8/8/8/R3K2R w KQ - 0 1");
    let kingside = Move::castling(Square(Square::E1), Square(Square::G1));
    let queenside = Move::castling(Square(Square::E1), Square(Square::C1));
    let pseudo = generate_moves(&tables, &pos).to_vec();
    assert!(pseudo.contains(&kingside));
    assert!(pseudo.contains(&queenside));
    assert!(!is_legal_castling(&tables, kingside, &pos));
    assert!(is_legal_castling(&tables, queenside, &pos));
    assert!(!is_legal_move(&tables, kingside, &pos));
    assert!(is_legal_move(&tables, queenside, &pos));
    let legal = legal_moves(&tables, &pos).to_vec();
    assert!(!legal.contains(&kingside));
    assert!(legal.contains(&queenside));
}

#[test]
fn castling_out_of_check_or_onto_an_attacked_square_is_illegal() {
    let tables = init_magics().unwrap();
    let in_check = from_fen("4r1k1/8/8/8/8/8/8/R3K2R w KQ - 0 1");
    assert!(!is_legal_move(&tables, Move::castling(Square(Square::E1), Square(Square::G1)), &in_check));
    assert!(!is_legal_move(&tables, Move::castling(Square(Square::E1), Square(Square::C1)), &in_check));
    let target_hit = from_fen("2r3k1/8/8/8/8/8/8/R3K2R w KQ - 0 1");
    assert!(!is_legal_move(&tables, Move::castling(Square(Square::E1), Square(Square::C1)), &target_hit));
    assert!(is_legal_move(&tables, Move::castling(Square(Square::E1), Square(Square::G1)), &target_hit));
    // An attack on b1 alone does not stop queenside castling.
    let b_file = from_fen("1r4k1/8/8/8/8/8/8/R3K2R w KQ - 0 1");
    assert!(is_legal_move(&tables, Move::castling(Square(Square::E1), Square(Square::C1)), &b_file));
}

#[test]
fn a_pinned_piece_may_not_leave_the_line() {
    let tables = init_magics().unwrap();
    let pos = from_fen("4r1k1/8/8/8/8/8/4N3/4K3 w - - 0 1");
    assert!(!is_legal_move(&tables, Move::new(Square(Square::E2), Square(Square::C3)), &pos));
    assert!(!simulate_move_and_check_king(&tables, Move::new(Square(Square::E2), Square(Square::C3)), &pos));
    assert!(is_legal_move(&tables, Move::new(Square(Square::E1), Square(Square::D1)), &pos));
    // No piece of the side to move on the origin.
    assert!(!is_legal_move(&tables, Move::new(Square(Square::A1), Square(Square::A2)), &pos));
    let pseudo = generate_moves(&tables, &pos);
    let legal = filter_legal_moves(&tables, &pseudo, &pos);
    assert_eq!(pseudo.len(), 6 + 4);
    assert_eq!(legal.len(), 4);
}

#[test]
fn legal_moves_are_the_pseudo_legal_moves_that_keep_the_king_safe() {
    let tables = init_magics().unwrap();
    let pos = from_fen("r3k2r/p1ppqpb1/bn2pnp1/3PN3/1p2P3/2N2Q1p/PPPBBPPP/R3K2R b KQkq - 0 1");
    let legal = legal_moves(&tables, &pos).to_vec();
    for mv in generate_moves(&tables, &pos).to_vec() {
        let next = pos.play(mv).unwrap();
        let safe = !king_in_check(&tables, &next, Color::Black);
        let path = mv.move_type() != MoveType::Castling || is_legal_castling(&tables, mv, &pos);
        assert_eq!(legal.contains(&mv), safe && path);
    }
}

#[test]
fn enemy_attacks_are_the_union_over_all_pieces() {
    let tables = init_magics().unwrap();
    let pos = from_fen("4k3/8/8/8/8/2n5/P7/R3K3 w - - 0 1");
    let white = compute_enemy_attacks(&tables, &pos, Color::White);
    // Rook a1: b1, c1, d1, the king's square e1 and the pawn's square a2;
    // pawn a2: b3; king e1: d1, f1, d2, e2, f2.
    let expected = (1u64 << 1) | (1u64 << 2) | (1u64 << 3) | (1u64 << 4) | (1u64 << 8)
        | (1u64 << 17) | (1u64 << 5) | (1u64 << 11) | (1u64 << 12) | (1u64 << 13);
    assert_eq!(white.0, expected);
    let black = compute_enemy_attacks(&tables, &pos, Color::Black);
    assert!(black.is_occupied(Square(Square::A2)));
    assert!(black.is_occupied(Square(Square::E2)));
    assert!(black.is_occupied(Square(Square::D7)));
}

#[test]
fn pawn_generation_covers_pushes_captures_promotions_and_en_passant() {
    let mut moves = MoveList::new();
    // White pawns on a2, e5 and g7; enemies on b3, f8 and h8; target d6.
    let pawns = Bitboard((1u64 << 8) | (1u64 << 36) | (1u64 << 54));
    let enemies = Bitboard((1u64 << 17) | (1u64 << 61) | (1u64 << 63));
    let occupied = Bitboard(pawns.0 | enemies.0);
    generate_pawn_moves(&mut moves, pawns, occupied, enemies, Color::White, Some(Square(Square::D6)));
    let got = moves.to_vec();
    let a2 = Square(Square::A2);
    let e5 = Square(Square::E5);
    let g7 = Square(Square::G7);
    let expected = vec![
        Move::new(a2, Square(Square::A3)),
        Move::new(a2, Square(Square::A4)),
        Move::new(a2, Square(Square::B3)),
        Move::new(e5, Square(Square::E6)),
        Move::en_passant(e5, Square(Square::D6)),
        Move::promotion(g7, Square(Square::G8), Piece::Queen),
        Move::promotion(g7, Square(Square::G8), Piece::Rook),
        Move::promotion(g7, Square(Square::G8), Piece::Bishop),
        Move::promotion(g7, Square(Square::G8), Piece::Knight),
        Move::promotion(g7, Square(Square::F8), Piece::Queen),
        Move::promotion(g7, Square(Square::F8), Piece::Rook),
        Move::promotion(g7, Square(Square::F8), Piece::Bishop),
        Move::promotion(g7, Square(Square::F8), Piece::Knight),
        Move::promotion(g7, Square(Square::H8), Piece::Queen),
        Move::promotion(g7, Square(Square::H8), Piece::Rook),
        Move::promotion(g7, Square(Square::H8), Piece::Bishop),
        Move::promotion(g7, Square(Square::H8), Piece::Knight),
    ];
    assert_eq!(got, expected);
}

#[test]
fn black_pawns_move_down_and_blocked_pawns_stay() {
    let mut moves = MoveList::new();
    let pawns = Bitboard((1u64 << 52) | (1u64 << 9));
    let blocker = Bitboard(1u64 << 36);
    generate_pawn_moves(&mut moves, pawns, Bitboard(pawns.0 | blocker.0), blocker, Color::Black, None);
    assert_eq!(
        moves.to_vec(),
        vec![
            Move::promotion(Square(Square::B2), Square(Square::B1), Piece::Queen),
            Move::promotion(Square(Square::B2), Square(Square::B1), Piece::Rook),
            Move::promotion(Square(Square::B2), Square(Square::B1), Piece::Bishop),
            Move::promotion(Square(Square::B2), Square(Square::B1), Piece::Knight),
            Move::new(Square(Square::E7), Square(Square::E6)),
        ]
    );
    let mut moves = MoveList::new();
    generate_pawn_moves(
        &mut moves,
        Bitboard(1u64 << 12),
        Bitboard((1u64 << 12) | (1u64 << 20)),
        Bitboard(1u64 << 20),
        Color::White,
        None,
    );
    assert!(moves.is_empty());
    // A pawn on the last rank has nowhere to go.
    let mut moves = MoveList::new();
    generate_pawn_moves(&mut moves, Bitboard(1u64 << 60), Bitboard(1u64 << 60), Bitboard(0), Color::White, None);
    assert!(moves.is_empty());
}

#[test]
fn piece_generation_avoids_friends_and_takes_enemies() {
    let tables = init_magics().unwrap();
    let friend = 1u64 << 18;
    let enemy = 1u64 << 10;
    let occupied = Bitboard((1u64 << 1) | friend | enemy);
    let mut moves = MoveList::new();
    generate_knight_moves(&mut moves, Bitboard(1u64 << 1), occupied, Bitboard(enemy));
    // A knight on b1 attacks a3, c3 and d2; c3 holds a friend.
    assert_eq!(
        moves.to_vec(),
        vec![
            Move::new(Square(Square::B1), Square(Square::D2)),
            Move::new(Square(Square::B1), Square(Square::A3)),
        ]
    );
    let mut moves = MoveList::new();
    generate_king_moves(&mut moves, Square(Square::B1), occupied, Bitboard(enemy));
    assert_eq!(moves.len(), 5);
    let mut moves = MoveList::new();
    generate_rook_moves(&mut moves, &tables, Bitboard(1u64 << 2), Bitboard((1u64 << 2) | friend | enemy), Bitboard(enemy));
    // A rook on c1: a1, b1, d1..h1 along the rank, c2 takes the enemy.
    assert_eq!(moves.len(), 2 + 5 + 1);
    let mut moves = MoveList::new();
    generate_bishop_moves(&mut moves, &tables, Bitboard(1u64 << 0), Bitboard(1 | friend), Bitboard(0));
    assert_eq!(moves.to_vec(), vec![Move::new(Square(Square::A1), Square(Square::B2))]);
    let mut moves = MoveList::new();
    generate_queen_moves(&mut moves, &tables, Bitboard(1u64 << 27), Bitboard(1u64 << 27), Bitboard(0));
    assert_eq!(moves.len(), 27);
}

#[test]
fn castling_generation_needs_the_right_and_an_empty_path() {
    let e1 = Square(Square::E1);
    let e8 = Square(Square::E8);
    let mut moves = MoveList::new();
    generate_castling_moves(&mut moves, e1, CastleRights(CastleRights::ALL), Bitboard(0x91), Color::White);
    assert_eq!(
        moves.to_vec(),
        vec![Move::castling(e1, Square(Square::G1)), Move::castling(e1, Square(Square::C1))]
    );
    let mut moves = MoveList::new();
    generate_castling_moves(&mut moves, e1, CastleRights(CastleRights::WHITE_QUEEN), Bitboard(0x91), Color::White);
    assert_eq!(moves.to_vec(), vec![Move::castling(e1, Square(Square::C1))]);
    let mut moves = MoveList::new();
    generate_castling_moves(&mut moves, e1, CastleRights(CastleRights::ALL), Bitboard(0x93 | 0x20), Color::White);
    assert!(moves.is_empty());
    let mut moves = MoveList::new();
    generate_castling_moves(&mut moves, e8, CastleRights(CastleRights::ALL), Bitboard(0x9100_0000_0000_0000), Color::Black);
    assert_eq!(
        moves.to_vec(),
        vec![Move::castling(e8, Square(Square::G8)), Move::castling(e8, Square(Square::C8))]
    );
    let mut moves = MoveList::new();
    generate_castling_moves(&mut moves, e8, CastleRights(CastleRights::WHITE_KING | CastleRights::WHITE_QUEEN), Bitboard(0), Color::Black);
    assert!(moves.is_empty());
}

#[test]
fn generation_stops_when_the_list_is_full() {
    let tables = init_magics().unwrap();
    // Queens all around the edge of an otherwise empty board have 288
    // pseudo-legal moves between them.
    let mut pos = Position::empty();
    for sq in 0..64u8 {
        if sq / 8 == 0 || sq / 8 == 7 || sq % 8 == 0 || sq % 8 == 7 {
            pos.set_piece(Piece::Queen, Color::White, Square(sq));
        }
    }
    let moves = generate_moves(&tables, &pos);
    assert_eq!(moves.len(), 256);
}

fn perft(tables: &m4k::magic::MagicTables, pos: &Position, depth: u32) -> u64 {
    if depth == 0 {
        return 1;
    }
    let mut nodes = 0;
    for mv in legal_moves(tables, pos).to_vec() {
        let mut next = *pos;
        let undo = next.make_move(mv).unwrap();
        nodes += perft(tables, &next, depth - 1);
        next.unmake_move(undo);
        assert_eq!(next, *pos);
    }
    nodes
}

#[test]
fn perft_three_from_the_start() {
    let tables = init_magics().unwrap();
    let mut pos = Position::empty();
    pos.set_startpos();
    assert_eq!(perft(&tables, &pos, 3), 8902);
}

#[test]
fn perft_of_positions_with_special_moves() {
    let tables = init_magics().unwrap();
    let endgame = from_fen("8/2p5/3p4/KP5r/1R3p1k/8/4P1P1/8 w - - 0 1");
    assert_eq!(perft(&tables, &endgame, 2), 191);
    assert_eq!(perft(&tables, &endgame, 3), 2812);
    let promotions = from_fen("r3k2r/Pppp1ppp/1b3nbN/nP6/BBP1P3/q4N2/Pp1P2PP/R2Q1RK1 w kq - 0 1");
    assert_eq!(perft(&tables, &promotions, 2), 264);
    let tricky = from_fen("rnbq1k1r/pp1Pbppp/2p5/8/2B5/8/PPP1NnPP/RNBQK2R w KQ - 1 8");
    assert_eq!(perft(&tables, &tricky, 2), 1486);
}
