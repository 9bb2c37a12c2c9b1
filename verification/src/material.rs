//! Material: the value of the pieces on the board.

use crate::bitset::popcount;
use crate::types::{Bitboard, Piece};
use vstd::prelude::*;

verus! {

/// The value of a pawn in centipawns.
pub const PAWN_VALUE: i32 = 100;

/// The value of a knight.
pub const KNIGHT_VALUE: i32 = 320;

/// The value of a bishop.
pub const BISHOP_VALUE: i32 = 330;

/// The value of a rook.
pub const ROOK_VALUE: i32 = 500;

/// The value of a queen.
pub const QUEEN_VALUE: i32 = 900;

/// The value of a king: more than all the other pieces together.
pub const KING_VALUE: i32 = 20000;

/// The value of the pieces of one side, given the occupancy word of each kind.
pub open spec fn side_material(
    pawns: u64,
    knights: u64,
    bishops: u64,
    rooks: u64,
    queens: u64,
    king: u64,
) -> int {
    (popcount(pawns) * 100 + popcount(knights) * 320 + popcount(bishops) * 330 + popcount(rooks)
        * 500 + popcount(queens) * 900 + popcount(king) * 20000) as int
}

/// The value of `piece`.
pub open spec fn spec_piece_value(piece: Piece) -> int {
    match piece {
        Piece::Pawn => 100,
        Piece::Knight => 320,
        Piece::Bishop => 330,
        Piece::Rook => 500,
        Piece::Queen => 900,
        Piece::King => 20000,
    }
}

/// The number of pieces in `bb`.
pub fn count_pieces(bb: Bitboard) -> (n: i32)
    ensures
        n == popcount(bb.0),
        0 <= n <= 64,
{
    bb.count() as i32
}

/// The value of `piece` in centipawns.
pub fn piece_value(piece: Piece) -> (v: i32)
    ensures
        v == spec_piece_value(piece),
{
    match piece {
        Piece::Pawn => PAWN_VALUE,
        Piece::Knight => KNIGHT_VALUE,
        Piece::Bishop => BISHOP_VALUE,
        Piece::Rook => ROOK_VALUE,
        Piece::Queen => QUEEN_VALUE,
        Piece::King => KING_VALUE,
    }
}

/// The material balance: the value of white's pieces less the value of black's.
pub fn evaluate_material(
    white_pawns: Bitboard,
    white_knights: Bitboard,
    white_bishops: Bitboard,
    white_rooks: Bitboard,
    white_queens: Bitboard,
    white_king: Bitboard,
    black_pawns: Bitboard,
    black_knights: Bitboard,
    black_bishops: Bitboard,
    black_rooks: Bitboard,
    black_queens: Bitboard,
    black_king: Bitboard,
) -> (score: i32)
    ensures
        score == side_material(
            white_pawns.0,
            white_knights.0,
            white_bishops.0,
            white_rooks.0,
            white_queens.0,
            white_king.0,
        ) - side_material(
            black_pawns.0,
            black_knights.0,
            black_bishops.0,
            black_rooks.0,
            black_queens.0,
            black_king.0,
        ),
        -1_417_600 <= score <= 1_417_600,
{
    let white_material = count_pieces(white_pawns) * PAWN_VALUE + count_pieces(white_knights)
        * KNIGHT_VALUE + count_pieces(white_bishops) * BISHOP_VALUE + count_pieces(white_rooks)
        * ROOK_VALUE + count_pieces(white_queens) * QUEEN_VALUE + count_pieces(white_king)
        * KING_VALUE;
    let black_material = count_pieces(black_pawns) * PAWN_VALUE + count_pieces(black_knights)
        * KNIGHT_VALUE + count_pieces(black_bishops) * BISHOP_VALUE + count_pieces(black_rooks)
        * ROOK_VALUE + count_pieces(black_queens) * QUEEN_VALUE + count_pieces(black_king)
        * KING_VALUE;
    white_material - black_material
}

/// Whether mate is still possible: true unless neither side has anything
/// but its king.
pub fn has_mating_material(
    white_pawns: Bitboard,
    white_knights: Bitboard,
    white_bishops: Bitboard,
    white_rooks: Bitboard,
    white_queens: Bitboard,
    black_pawns: Bitboard,
    black_knights: Bitboard,
    black_bishops: Bitboard,
    black_rooks: Bitboard,
    black_queens: Bitboard,
) -> (r: bool)
    ensures
        r == !(white_pawns.0 == 0 && white_knights.0 == 0 && white_bishops.0 == 0 && white_rooks.0
            == 0 && white_queens.0 == 0 && black_pawns.0 == 0 && black_knights.0 == 0
            && black_bishops.0 == 0 && black_rooks.0 == 0 && black_queens.0 == 0),
{
    if !white_pawns.is_empty() || !black_pawns.is_empty() {
        return true;
    }
    if !white_queens.is_empty() || !black_queens.is_empty() {
        return true;
    }
    if !white_rooks.is_empty() || !black_rooks.is_empty() {
        return true;
    }
    !(white_knights.is_empty() && white_bishops.is_empty() && black_knights.is_empty()
        && black_bishops.is_empty())
}

} // verus!
