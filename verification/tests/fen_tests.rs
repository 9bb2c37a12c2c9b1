use m4k::position::{Position, PositionError};
use m4k::types::{CastleRights, Color, Piece, Square};

fn from_fen(fen: &str) -> Position {
    let mut pos = Position::empty();
    assert_eq!(pos.set_fen(fen), Ok(()));
    pos
}

fn refused(fen: &str) {
    let mut pos = Position::empty();
    pos.set_startpos();
    let before = pos;
    assert_eq!(pos.set_fen(fen), Err(PositionError::InvalidFen), "{}", fen);
    assert_eq!(pos, before);
}

#[test]
fn start_position_reads_as_set_startpos() {
    let mut expected = Position::empty();
    expected.set_startpos();
    assert_eq!(from_fen("rnbqkbnr/pppppppp/8/8/8/8/PPPPPPPP/RNBQKBNR w KQkq - 0 1"), expected);
}

#[test]
fn fields_are_read() {
    let pos = from_fen("8/8/8/3pP3/8/8/8/K6k b Qk d6 12 34");
    assert_eq!(pos.side_to_move, Color::Black);
    assert_eq!(pos.castling_rights, CastleRights(CastleRights::WHITE_QUEEN | CastleRights::BLACK_KING));
    assert_eq!(pos.en_passant, Some(Square(Square::D6)));
    assert_eq!(pos.halfmove_clock, 12);
    assert_eq!(pos.fullmove_number, 34);
    assert!(pos.piece_bb(Piece::Pawn, Color::Black).is_occupied(Square(Square::D5)));
    assert!(pos.piece_bb(Piece::Pawn, Color::White).is_occupied(Square(Square::E5)));
    assert!(pos.piece_bb(Piece::King, Color::White).is_occupied(Square(Square::A1)));
    assert!(pos.piece_bb(Piece::King, Color::Black).is_occupied(Square(Square::H1)));
    assert_eq!(pos.all_occupied().count(), 4);
}

#[test]
fn clocks_default_to_zero_and_one() {
    let pos = from_fen("8/8/8/8/8/8/8/K6k w - -");
    assert_eq!(pos.halfmove_clock, 0);
    assert_eq!(pos.fullmove_number, 1);
    let pos = from_fen("8/8/8/8/8/8/8/K6k w - - x y");
    assert_eq!(pos.halfmove_clock, 0);
    assert_eq!(pos.fullmove_number, 1);
    let pos = from_fen("  8/8/8/8/8/8/8/K6k \t w  -  -   9 ");
    assert_eq!(pos.halfmove_clock, 9);
    assert_eq!(pos.fullmove_number, 1);
}

#[test]
fn malformed_descriptions_are_refused() {
    refused("");
    refused("8/8/8/8/8/8/8/K6k w -");
    refused("8/8/8/8/8/8/8/K6k x - - 0 1");
    refused("8/8/8/8/8/8/8/K6k w KX - 0 1");
    refused("8/8/8/8/8/8/8/K6k w - e9 0 1");
    refused("8/8/8/8/8/8/8/K6k w - e 0 1");
    refused("8/8/8/8/8/8/8/K6k w - i3 0 1");
    refused("8/8/8/8/8/8/8 w - - 0 1");
    refused("8/8/8/8/8/8/8/8/8 w - - 0 1");
    refused("8/8/8/8/8/8/8/K7k w - - 0 1");
    refused("8/8/8/8/8/8/8/K5k w - - 0 1");
    refused("8/8/8/8/8/8/8/9 w - - 0 1");
    refused("8/8/8/8/8/8/8/K6x w - - 0 1");
    refused("7/8/8/8/8/8/8/K6k w - - 0 1");
    refused("44/8/8/8/8/8/8/K6k1 w - - 0 1");
}

#[test]
fn description_round_trips() {
    for fen in [
        "rnbqkbnr/pppppppp/8/8/8/8/PPPPPPPP/RNBQKBNR w KQkq - 0 1",
        "r3k2r/p1ppqpb1/bn2pnp1/3PN3/1p2P3/2N2Q1p/PPPBBPPP/R3K2R b Kq - 3 17",
        "8/8/8/8/8/8/8/8 w - - 0 1",
        "4k3/8/8/3pP3/8/8/8/4K3 w - d6 0 4294967295",
        "1p1p1p1p/p1p1p1p1/8/8/8/8/P1P1P1P1/1P1P1P1P b q a3 4294967295 0",
    ] {
        let pos = from_fen(fen);
        assert_eq!(pos.to_fen(), fen);
        assert_eq!(String::from_utf8(pos.to_fen_bytes()).unwrap(), fen);
        let mut again = Position::empty();
        assert_eq!(again.set_fen_bytes(&pos.to_fen_bytes()), Ok(()));
        assert_eq!(again, pos);
    }
}

#[test]
fn repeated_right_letters_are_taken_once() {
    let pos = from_fen("8/8/8/8/8/8/8/K6k w qqKK - 0 1");
    assert_eq!(pos.castling_rights.0, 9);
    assert_eq!(pos.to_fen(), "8/8/8/8/8/8/8/K6k w Kq - 0 1");
}
