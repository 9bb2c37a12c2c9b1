//! Piece-square tables: a bonus for each piece kind on each square, written
//! from white's side of the board. A black piece reads the table mirrored top
//! to bottom, and its bonus counts against white.

use crate::bitset::squares_of;
use crate::types::{Bitboard, Color, Piece, Square};
use vstd::prelude::*;

verus! {

/// The bonuses of pawns, indexed by square.
pub const PAWN_PST: [i32; 64] = [
    0, 0, 0, 0, 0, 0, 0, 0,
    50, 50, 50, 50, 50, 50, 50, 50,
    10, 10, 20, 30, 30, 20, 10, 10,
    5, 5, 10, 25, 25, 10, 5, 5,
    0, 0, 0, 20, 20, 0, 0, 0,
    5, -5, -10, 0, 0, -10, -5, 5,
    5, 10, 10, -20, -20, 10, 10, 5,
    0, 0, 0, 0, 0, 0, 0, 0,
];

/// The bonuses of knights, indexed by square.
pub const KNIGHT_PST: [i32; 64] = [
    -50, -40, -30, -30, -30, -30, -40, -50,
    -40, -20, 0, 0, 0, 0, -20, -40,
    -30, 0, 10, 15, 15, 10, 0, -30,
    -30, 5, 15, 20, 20, 15, 5, -30,
    -30, 0, 15, 20, 20, 15, 0, -30,
    -30, 5, 10, 15, 15, 10, 5, -30,
    -40, -20, 0, 5, 5, 0, -20, -40,
    -50, -40, -30, -30, -30, -30, -40, -50,
];

/// The bonuses of bishops, indexed by square.
pub const BISHOP_PST: [i32; 64] = [
    -20, -10, -10, -10, -10, -10, -10, -20,
    -10, 0, 0, 0, 0, 0, 0, -10,
    -10, 0, 5, 10, 10, 5, 0, -10,
    -10, 5, 5, 10, 10, 5, 5, -10,
    -10, 0, 10, 10, 10, 10, 0, -10,
    -10, 10, 10, 10, 10, 10, 10, -10,
    -10, 5, 0, 0, 0, 0, 5, -10,
    -20, -10, -10, -10, -10, -10, -10, -20,
];

/// The bonuses of rooks, indexed by square.
pub const ROOK_PST: [i32; 64] = [
    0, 0, 0, 0, 0, 0, 0, 0,
    5, 10, 10, 10, 10, 10, 10, 5,
    -5, 0, 0, 0, 0, 0, 0, -5,
    -5, 0, 0, 0, 0, 0, 0, -5,
    -5, 0, 0, 0, 0, 0, 0, -5,
    -5, 0, 0, 0, 0, 0, 0, -5,
    -5, 0, 0, 0, 0, 0, 0, -5,
    0, 0, 0, 5, 5, 0, 0, 0,
];

/// The bonuses of queens, indexed by square.
pub const QUEEN_PST: [i32; 64] = [
    -20, -10, -10, -5, -5, -10, -10, -20,
    -10, 0, 0, 0, 0, 0, 0, -10,
    -10, 0, 5, 5, 5, 5, 0, -10,
    -5, 0, 5, 5, 5, 5, 0, -5,
    0, 0, 5, 5, 5, 5, 0, -5,
    -10, 5, 5, 5, 5, 5, 0, -10,
    -10, 0, 5, 0, 0, 0, 0, -10,
    -20, -10, -10, -5, -5, -10, -10, -20,
];

/// The bonuses of kings in the middlegame, indexed by square.
pub const KING_PST: [i32; 64] = [
    -30, -40, -40, -50, -50, -40, -40, -30,
    -30, -40, -40, -50, -50, -40, -40, -30,
    -30, -40, -40, -50, -50, -40, -40, -30,
    -30, -40, -40, -50, -50, -40, -40, -30,
    -20, -30, -30, -40, -40, -30, -30, -20,
    -10, -20, -20, -20, -20, -20, -20, -10,
    20, 20, 0, 0, 0, 0, 20, 20,
    20, 30, 10, 0, 0, 10, 30, 20,
];

/// The bonus of `piece` on the square numbered `index` of its table.
pub open spec fn table_value(piece: Piece, index: int) -> int {
    match piece {
        Piece::Pawn => PAWN_PST[index] as int,
        Piece::Knight => KNIGHT_PST[index] as int,
        Piece::Bishop => BISHOP_PST[index] as int,
        Piece::Rook => ROOK_PST[index] as int,
        Piece::Queen => QUEEN_PST[index] as int,
        Piece::King => KING_PST[index] as int,
    }
}

/// The square that mirrors square `sq` top to bottom: same file, rank 7 less the rank.
pub open spec fn mirrored(sq: int) -> int {
    (7 - sq / 8) * 8 + sq % 8
}

/// The bonus of `piece` of `color` on `square`: the table's entry for the
/// square, mirrored for black.
pub open spec fn spec_pst_value(piece: Piece, square: Square, color: Color) -> int {
    if color == Color::White {
        table_value(piece, square.0 as int)
    } else {
        table_value(piece, mirrored(square.0 as int))
    }
}

/// The sum of the bonuses of `piece` of `color` over `squares`.
pub open spec fn pst_sum(piece: Piece, color: Color, squares: Seq<u64>) -> int
    decreases squares.len(),
{
    if squares.len() == 0 {
        0
    } else {
        pst_sum(piece, color, squares.drop_last()) + spec_pst_value(
            piece,
            Square(squares.last() as u8),
            color,
        )
    }
}

/// The sum of the bonuses of the pieces `bits` of `piece` and `color`.
pub open spec fn layer_pst(piece: Piece, color: Color, bits: u64) -> int {
    pst_sum(piece, color, squares_of(bits))
}

/// Mirroring a square top to bottom flips the three bits of its rank.
proof fn lemma_mirror(sq: u8)
    by (bit_vector)
    requires
        sq < 64,
    ensures
        sq ^ 56 == (7 - sq / 8) * 8 + sq % 8,
        sq ^ 56 < 64,
{
}

/// The bonus of `piece` of `color` on `square`.
pub fn pst_value(piece: Piece, square: Square, color: Color) -> (v: i32)
    requires
        square.valid(),
    ensures
        v == spec_pst_value(piece, square, color),
        -50 <= v <= 50,
{
    proof {
        lemma_mirror(square.0);
    }
    let index: usize = match color {
        Color::White => square.0 as usize,
        Color::Black => (square.0 ^ 56) as usize,
    };
    match piece {
        Piece::Pawn => PAWN_PST[index],
        Piece::Knight => KNIGHT_PST[index],
        Piece::Bishop => BISHOP_PST[index],
        Piece::Rook => ROOK_PST[index],
        Piece::Queen => QUEEN_PST[index],
        Piece::King => KING_PST[index],
    }
}

/// The sum of the bonuses of the pieces `pieces` of `piece` and `color`.
pub fn layer_pst_sum(piece: Piece, color: Color, pieces: Bitboard) -> (sum: i32)
    ensures
        sum == layer_pst(piece, color, pieces.0),
        -3200 <= sum <= 3200,
{
    let ghost all = squares_of(pieces.0);
    let mut rest = pieces;
    let mut sum: i32 = 0;
    let ghost mut n: int = 0;
    proof {
        crate::bitset::lemma_squares_of_sorted(pieces.0);
        assert(all.take(0) =~= Seq::<u64>::empty());
        assert(all.skip(0) =~= all);
    }
    while rest.0 != 0
        invariant
            all == squares_of(pieces.0),
            all.len() <= 64,
            0 <= n <= all.len(),
            squares_of(rest.0) == all.skip(n),
            forall|a: int| 0 <= a < all.len() ==> all[a] < 64,
            sum == pst_sum(piece, color, all.take(n)),
            -50 * n <= sum <= 50 * n,
        decreases all.len() - n,
    {
        let ghost before = rest.0;
        let popped = rest.pop_lsb();
        proof {
            crate::bitset::lemma_lowest(before);
            assert(squares_of(rest.0) =~= squares_of(before).skip(1));
            assert(all.skip(n).skip(1) =~= all.skip(n + 1));
            assert(all.skip(n)[0] == all[n]);
        }
        match popped {
            Some(sq) => {
                assert(sq.0 == all[n]);
                sum = sum + pst_value(piece, sq, color);
                proof {
                    assert(all.take(n + 1).drop_last() =~= all.take(n));
                    n = n + 1;
                }
            },
            None => {},
        }
    }
    proof {
        assert(all.take(n) =~= all);
    }
    sum
}

/// The piece-square balance: the bonuses of white's pieces less those of
/// black's. The kings are given by their squares.
pub open spec fn spec_evaluate_pst(
    white_pawns: u64,
    white_knights: u64,
    white_bishops: u64,
    white_rooks: u64,
    white_queens: u64,
    white_king: Square,
    black_pawns: u64,
    black_knights: u64,
    black_bishops: u64,
    black_rooks: u64,
    black_queens: u64,
    black_king: Square,
) -> int {
    layer_pst(Piece::Pawn, Color::White, white_pawns) + layer_pst(
        Piece::Knight,
        Color::White,
        white_knights,
    ) + layer_pst(Piece::Bishop, Color::White, white_bishops) + layer_pst(
        Piece::Rook,
        Color::White,
        white_rooks,
    ) + layer_pst(Piece::Queen, Color::White, white_queens) + spec_pst_value(
        Piece::King,
        white_king,
        Color::White,
    ) - layer_pst(Piece::Pawn, Color::Black, black_pawns) - layer_pst(
        Piece::Knight,
        Color::Black,
        black_knights,
    ) - layer_pst(Piece::Bishop, Color::Black, black_bishops) - layer_pst(
        Piece::Rook,
        Color::Black,
        black_rooks,
    ) - layer_pst(Piece::Queen, Color::Black, black_queens) - spec_pst_value(
        Piece::King,
        black_king,
        Color::Black,
    )
}

/// The piece-square balance from white's side.
pub fn evaluate_pst(
    white_pawns: Bitboard,
    white_knights: Bitboard,
    white_bishops: Bitboard,
    white_rooks: Bitboard,
    white_queens: Bitboard,
    white_king: Square,
    black_pawns: Bitboard,
    black_knights: Bitboard,
    black_bishops: Bitboard,
    black_rooks: Bitboard,
    black_queens: Bitboard,
    black_king: Square,
) -> (score: i32)
    requires
        white_king.valid(),
        black_king.valid(),
    ensures
        score == spec_evaluate_pst(
            white_pawns.0,
            white_knights.0,
            white_bishops.0,
            white_rooks.0,
            white_queens.0,
            white_king,
            black_pawns.0,
            black_knights.0,
            black_bishops.0,
            black_rooks.0,
            black_queens.0,
            black_king,
        ),
        -32100 <= score <= 32100,
{
    let white = layer_pst_sum(Piece::Pawn, Color::White, white_pawns) + layer_pst_sum(
        Piece::Knight,
        Color::White,
        white_knights,
    ) + layer_pst_sum(Piece::Bishop, Color::White, white_bishops) + layer_pst_sum(
        Piece::Rook,
        Color::White,
        white_rooks,
    ) + layer_pst_sum(Piece::Queen, Color::White, white_queens) + pst_value(
        Piece::King,
        white_king,
        Color::White,
    );
    let black = layer_pst_sum(Piece::Pawn, Color::Black, black_pawns) + layer_pst_sum(
        Piece::Knight,
        Color::Black,
        black_knights,
    ) + layer_pst_sum(Piece::Bishop, Color::Black, black_bishops) + layer_pst_sum(
        Piece::Rook,
        Color::Black,
        black_rooks,
    ) + layer_pst_sum(Piece::Queen, Color::Black, black_queens) + pst_value(
        Piece::King,
        black_king,
        Color::Black,
    );
    white - black
}

} // verus!
