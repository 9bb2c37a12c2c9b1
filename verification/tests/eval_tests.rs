use m4k::evaluator::Evaluator;
use m4k::king_safety::{
    evaluate_king_safety, evaluate_pawn_shield, evaluate_single_king_safety, king_files_open,
    king_files_semi_open,
};
use m4k::magic::init_magics;
use m4k::material::{
    count_pieces, evaluate_material, has_mating_material, piece_value, KING_VALUE, PAWN_VALUE,
    QUEEN_VALUE,
};
use m4k::pawn::{
    evaluate_pawn_structure, evaluate_single_color_pawns, is_doubled_pawn, is_isolated_pawn,
    is_passed_pawn,
};
use m4k::position::Position;
use m4k::pst::{evaluate_pst, layer_pst_sum, pst_value};
use m4k::types::{Bitboard, Color, Piece, Square};

fn from_fen(fen: &str) -> Position {
    let mut pos = Position::empty();
    assert_eq!(pos.set_fen(fen), Ok(()));
    pos
}

#[test]
fn test_evaluator_creation() {
    let tables = init_magics().unwrap();
    let evaluator = Evaluator::new();
    let dummy_position = Position::empty();
    let score = evaluator.evaluate(&tables, &dummy_position);
    assert!(score >= -20000 && score <= 20000);
}

#[test]
fn test_king_safety() {
    let score = evaluate_king_safety(
        Square(Square::E1),
        Square(Square::E8),
        Bitboard(Bitboard::EMPTY),
        Bitboard(Bitboard::EMPTY),
    );
    assert_eq!(score, 0);
}

#[test]
fn test_piece_values() {
    assert_eq!(piece_value(Piece::Pawn), PAWN_VALUE);
    assert_eq!(piece_value(Piece::Queen), QUEEN_VALUE);
    assert_eq!(piece_value(Piece::King), KING_VALUE);
}

#[test]
fn test_material_evaluation() {
    let white_pawns = Bitboard(0x0000_0000_0000_FF00);
    let white_knights = Bitboard(0x0000_0000_0000_0042);
    let white_bishops = Bitboard(0x0000_0000_0000_0024);
    let white_rooks = Bitboard(0x0000_0000_0000_0081);
    let white_queens = Bitboard(0x0000_0000_0000_0008);
    let white_king = Bitboard(0x0000_0000_0000_0010);

    let black_pawns = Bitboard(0x00FF_0000_0000_0000);
    let black_knights = Bitboard(0x4200_0000_0000_0000);
    let black_bishops = Bitboard(0x2400_0000_0000_0000);
    let black_rooks = Bitboard(0x8100_0000_0000_0000);
    let black_queens = Bitboard(0x0800_0000_0000_0000);
    let black_king = Bitboard(0x1000_0000_0000_0000);

    let score = evaluate_material(
        white_pawns,
        white_knights,
        white_bishops,
        white_rooks,
        white_queens,
        white_king,
        black_pawns,
        black_knights,
        black_bishops,
        black_rooks,
        black_queens,
        black_king,
    );

    assert_eq!(score, 0);
}

#[test]
fn test_mating_material() {
    assert!(!has_mating_material(
        Bitboard(Bitboard::EMPTY),
        Bitboard(Bitboard::EMPTY),
        Bitboard(Bitboard::EMPTY),
        Bitboard(Bitboard::EMPTY),
        Bitboard(Bitboard::EMPTY),
        Bitboard(Bitboard::EMPTY),
        Bitboard(Bitboard::EMPTY),
        Bitboard(Bitboard::EMPTY),
        Bitboard(Bitboard::EMPTY),
        Bitboard(Bitboard::EMPTY)
    ));

    let mut white_pawns = Bitboard(Bitboard::EMPTY);
    white_pawns.set(Square(Square::E4));
    assert!(has_mating_material(
        white_pawns,
        Bitboard(Bitboard::EMPTY),
        Bitboard(Bitboard::EMPTY),
        Bitboard(Bitboard::EMPTY),
        Bitboard(Bitboard::EMPTY),
        Bitboard(Bitboard::EMPTY),
        Bitboard(Bitboard::EMPTY),
        Bitboard(Bitboard::EMPTY),
        Bitboard(Bitboard::EMPTY),
        Bitboard(Bitboard::EMPTY)
    ));
}

#[test]
fn test_pawn_structure() {
    let score = evaluate_pawn_structure(Bitboard(Bitboard::EMPTY), Bitboard(Bitboard::EMPTY));
    assert_eq!(score, 0);
}

#[test]
fn test_pst_value() {
    let center_value = pst_value(Piece::Knight, Square(Square::E4), Color::White);
    assert!(center_value > 0);

    let black_value = pst_value(Piece::Knight, Square(Square::E5), Color::Black);
    assert_eq!(center_value, black_value);
}

#[test]
fn test_pst_evaluation() {
    let score = evaluate_pst(
        Square(Square::E4).to_bitboard(),
        Bitboard(Bitboard::EMPTY),
        Bitboard(Bitboard::EMPTY),
        Bitboard(Bitboard::EMPTY),
        Bitboard(Bitboard::EMPTY),
        Square(Square::E1),
        Square(Square::H2).to_bitboard(),
        Bitboard(Bitboard::EMPTY),
        Bitboard(Bitboard::EMPTY),
        Bitboard(Bitboard::EMPTY),
        Bitboard(Bitboard::EMPTY),
        Square(Square::E8),
    );

    assert!(score > 0);
}

#[test]
fn material_counts_every_kind_at_its_value() {
    let none = Bitboard(0);
    assert_eq!(count_pieces(Bitboard(0xFF)), 8);
    assert_eq!(
        evaluate_material(Bitboard(0b11), Bitboard(1), Bitboard(1), Bitboard(1), Bitboard(1), Bitboard(1), none, none, none, none, none, none),
        2 * 100 + 320 + 330 + 500 + 900 + 20000
    );
    assert_eq!(
        evaluate_material(none, none, none, none, none, none, none, none, none, Bitboard(0b111), none, none),
        -1500
    );
    assert_eq!(piece_value(Piece::Knight), 320);
    assert_eq!(piece_value(Piece::Bishop), 330);
    assert_eq!(piece_value(Piece::Rook), 500);
    let evaluator = Evaluator::new();
    assert_eq!(
        evaluator.evaluate_material_only(none, none, none, none, Bitboard(1), none, none, none, none, none, none, none),
        900
    );
}

#[test]
fn mating_material_needs_more_than_kings() {
    let none = Bitboard(0);
    assert!(has_mating_material(none, Bitboard(2), none, none, none, none, none, none, none, none));
    assert!(has_mating_material(none, none, none, none, none, none, none, Bitboard(4), none, none));
    assert!(has_mating_material(none, none, none, none, none, none, none, none, none, Bitboard(4)));
}

#[test]
fn pst_exact_entries() {
    assert_eq!(pst_value(Piece::Pawn, Square(Square::E4), Color::White), 25);
    assert_eq!(pst_value(Piece::Pawn, Square(Square::H2), Color::Black), 5);
    assert_eq!(pst_value(Piece::King, Square(Square::E1), Color::White), -50);
    assert_eq!(pst_value(Piece::King, Square(Square::E8), Color::Black), -50);
    assert_eq!(pst_value(Piece::Knight, Square(Square::A1), Color::White), -50);
    assert_eq!(pst_value(Piece::Rook, Square(Square::B2), Color::White), 10);
    assert_eq!(pst_value(Piece::Queen, Square(Square::D4), Color::White), 5);
    assert_eq!(pst_value(Piece::Bishop, Square(Square::C3), Color::White), 5);
    assert_eq!(layer_pst_sum(Piece::Pawn, Color::White, Bitboard(0xFF00)), 400);
    assert_eq!(layer_pst_sum(Piece::Pawn, Color::White, Bitboard(0)), 0);
    assert_eq!(
        evaluate_pst(
            Square(Square::E4).to_bitboard(),
            Bitboard(0),
            Bitboard(0),
            Bitboard(0),
            Bitboard(0),
            Square(Square::E1),
            Square(Square::H2).to_bitboard(),
            Bitboard(0),
            Bitboard(0),
            Bitboard(0),
            Bitboard(0),
            Square(Square::E8),
        ),
        20
    );
}

#[test]
fn doubled_isolated_and_passed_pawns() {
    let white = Bitboard((1u64 << 12) | (1u64 << 28) | (1u64 << 8));
    // White pawns on e2, e4 and a2.
    assert!(is_doubled_pawn(Square(Square::E2), white));
    assert!(is_doubled_pawn(Square(Square::E4), white));
    assert!(!is_doubled_pawn(Square(Square::A2), white));
    assert!(is_isolated_pawn(Square(Square::E4), white));
    assert!(is_isolated_pawn(Square(Square::A2), white));
    assert!(!is_isolated_pawn(Square(Square::A2), Bitboard((1u64 << 8) | (1u64 << 17))));

    let black = Bitboard(1u64 << 51);
    // A black pawn on d7 is ahead of e4 on the next file, not of a2.
    assert!(!is_passed_pawn(Square(Square::E4), Color::White, black));
    assert!(is_passed_pawn(Square(Square::A2), Color::White, black));
    assert!(is_passed_pawn(Square(Square::E4), Color::White, Bitboard(1u64 << 27)));
    assert!(is_passed_pawn(Square(Square::D7), Color::Black, Bitboard(1u64 << 59)));
    assert!(!is_passed_pawn(Square(Square::D7), Color::Black, Bitboard(1u64 << 12)));
    assert!(is_passed_pawn(Square(Square::H8), Color::White, Bitboard(0xFFFF_FFFF_FFFF_FFFF)));
    assert!(is_passed_pawn(Square(Square::A1), Color::Black, Bitboard(0xFFFF_FFFF_FFFF_FFFF)));
}

#[test]
fn pawn_structure_scores() {
    let none = Bitboard(0);
    // A lone white pawn on e4: isolated, passed, two ranks from home.
    assert_eq!(evaluate_single_color_pawns(Bitboard(1u64 << 28), none, Color::White), -10 + 10 + 5 * 2);
    // A lone black pawn on e4: isolated, passed, three ranks from home.
    assert_eq!(evaluate_single_color_pawns(Bitboard(1u64 << 28), none, Color::Black), -10 + 10 + 5 * 3);
    // Doubled on the e-file, facing a pawn on d7.
    let white = Bitboard((1u64 << 12) | (1u64 << 28));
    assert_eq!(evaluate_single_color_pawns(white, Bitboard(1u64 << 51), Color::White), 2 * (-15 - 10));
    assert_eq!(evaluate_pawn_structure(Bitboard(1u64 << 28), Bitboard(1u64 << 28)), 10 - 15);
}

#[test]
fn pawn_shield_and_open_files() {
    // King g1 behind f2, g2 and h3.
    let pawns = Bitboard((1u64 << 13) | (1u64 << 14) | (1u64 << 23));
    assert_eq!(evaluate_pawn_shield(Square(Square::G1), pawns, Color::White), 1 + 2 + 0);
    assert_eq!(evaluate_pawn_shield(Square(Square::G1), Bitboard(0), Color::White), 0);
    assert_eq!(evaluate_pawn_shield(Square(Square::A1), Bitboard(0x0303_00), Color::White), 2 + 1 + 1 + 0);
    assert_eq!(evaluate_pawn_shield(Square(Square::H8), Bitboard(0x0080_8000_0000_0000), Color::Black), 2 + 1);
    assert_eq!(evaluate_pawn_shield(Square(Square::E8), Bitboard(0xFFFF_FFFF_FFFF_FFFF), Color::White), 0);
    assert_eq!(evaluate_pawn_shield(Square(Square::E1), Bitboard(0xFFFF_FFFF_FFFF_FFFF), Color::Black), 0);

    let enemy = Bitboard((1u64 << 53) | (1u64 << 54) | (1u64 << 55));
    assert!(!king_files_open(Square(Square::G1), enemy));
    assert!(king_files_open(Square(Square::G1), Bitboard(1u64 << 54)));
    assert!(king_files_open(Square(Square::A1), Bitboard(1u64 << 48)));
    assert!(!king_files_open(Square(Square::A1), Bitboard((1u64 << 48) | (1u64 << 49))));

    assert!(king_files_semi_open(Square(Square::G1), Bitboard((1u64 << 13) | (1u64 << 14)), enemy));
    assert!(!king_files_semi_open(Square(Square::G1), pawns, enemy));
    assert!(!king_files_semi_open(Square(Square::G1), Bitboard(0), Bitboard(0)));

    assert_eq!(evaluate_single_king_safety(Square(Square::G1), pawns, enemy, Color::White), 9);
    assert_eq!(evaluate_single_king_safety(Square(Square::G1), Bitboard(0), enemy, Color::White), -10);
    assert_eq!(evaluate_single_king_safety(Square(Square::G1), Bitboard(0), Bitboard(0), Color::White), -20);
    // Black's king on g8 stands behind f7, g7 and h7: a shield of 1 + 2 + 1.
    assert_eq!(
        evaluate_king_safety(Square(Square::G1), Square(Square::G8), pawns, enemy),
        9 - 3 * 4
    );
}

#[test]
fn start_position_is_balanced() {
    let tables = init_magics().unwrap();
    let mut pos = Position::empty();
    pos.set_startpos();
    assert_eq!(Evaluator::new().evaluate(&tables, &pos), 0);
    assert_eq!(Evaluator::evaluate_mobility(&tables, &pos), 0);
}

#[test]
fn evaluation_is_weighted_rounded_and_signed() {
    let tables = init_magics().unwrap();
    let evaluator = Evaluator::new();
    // White: king e1, pawn e4. Black: king e8.
    let white = from_fen("4k3/8/8/8/4P3/8/8/4K3 w - - 0 1");
    // material 100; pst 25; pawn: isolated and passed two ranks up: 10;
    // king safety: both kings have an open file near them and no shield,
    // white's also none that is semi-open: -20 - (-20 - 10) = 10;
    // mobility: white has 5 king moves and 1 pawn move, black 5 king moves.
    // 100 * 100 + 20 * 25 + 15 * 10 + 15 * 10 + 10 * 1 = 10810, rounded 108.
    assert_eq!(Evaluator::evaluate_mobility(&tables, &white), 1);
    assert_eq!(evaluator.evaluate(&tables, &white), 108);
    let black = from_fen("4k3/8/8/8/4P3/8/8/4K3 b - - 0 1");
    assert_eq!(evaluator.evaluate(&tables, &black), -108);
}

#[test]
fn rounding_goes_to_the_nearest_and_halves_away_from_zero() {
    let tables = init_magics().unwrap();
    let evaluator = Evaluator::new();
    // Kings on a1 and a8 with a white knight on b1: material 320, pst
    // -40 + 20 - 20 = -40, no pawns, king safety even; white has 3 king
    // moves less one (b1 is taken) and 3 knight moves, black 3 king moves.
    // 32000 - 800 + 10 * 2 = 31220, rounded 312.
    let pos = from_fen("k7/8/8/8/8/8/8/KN6 w - - 0 1");
    assert_eq!(Evaluator::evaluate_mobility(&tables, &pos), 2);
    assert_eq!(evaluator.evaluate(&tables, &pos), 312);
    // The same with black to move.
    let pos = from_fen("k7/8/8/8/8/8/8/KN6 b - - 0 1");
    assert_eq!(evaluator.evaluate(&tables, &pos), -312);
}
