//! The static evaluation: material, piece-square bonuses, pawn structure,
//! king safety and mobility, weighted and added up.

use crate::bitset::{lowest, squares_of};
use crate::generator::{bounded, generate_moves, pseudo_legal};
use crate::king_safety::{evaluate_king_safety, king_safety_score};
use crate::magic::MagicTables;
use crate::material::{evaluate_material, side_material};
use crate::pawn::{evaluate_pawn_structure, side_pawn_score};
use crate::position::Position;
use crate::pst::{evaluate_pst, spec_evaluate_pst};
use crate::types::{Bitboard, Color, Piece, Square};
use vstd::prelude::*;

verus! {

/// The static evaluator. It holds no state.
#[derive(Copy, Clone, Debug)]
pub struct Evaluator {}

/// `pos` with `color` to move.
pub open spec fn with_side(pos: Position, color: Color) -> Position {
    Position { side_to_move: color, ..pos }
}

/// The number of pseudo-legal moves `color` would have in `pos`, as far as a
/// move list counts.
pub open spec fn mobility_of(pos: Position, color: Color) -> int {
    bounded(pseudo_legal(with_side(pos, color))).len() as int
}

/// The square of the king of `color`; its home square when it has no king.
pub open spec fn king_square_or_home(pos: Position, color: Color) -> Square {
    if pos.layer(Piece::King, color) != 0 {
        Square(lowest(pos.layer(Piece::King, color)) as u8)
    } else if color == Color::White {
        Square(Square::E1)
    } else {
        Square(Square::E8)
    }
}

/// The material balance of `pos` from white's side.
pub open spec fn material_balance(pos: Position) -> int {
    side_material(
        pos.layer(Piece::Pawn, Color::White),
        pos.layer(Piece::Knight, Color::White),
        pos.layer(Piece::Bishop, Color::White),
        pos.layer(Piece::Rook, Color::White),
        pos.layer(Piece::Queen, Color::White),
        pos.layer(Piece::King, Color::White),
    ) - side_material(
        pos.layer(Piece::Pawn, Color::Black),
        pos.layer(Piece::Knight, Color::Black),
        pos.layer(Piece::Bishop, Color::Black),
        pos.layer(Piece::Rook, Color::Black),
        pos.layer(Piece::Queen, Color::Black),
        pos.layer(Piece::King, Color::Black),
    )
}

/// The piece-square balance of `pos` from white's side.
pub open spec fn pst_balance(pos: Position) -> int {
    spec_evaluate_pst(
        pos.layer(Piece::Pawn, Color::White),
        pos.layer(Piece::Knight, Color::White),
        pos.layer(Piece::Bishop, Color::White),
        pos.layer(Piece::Rook, Color::White),
        pos.layer(Piece::Queen, Color::White),
        king_square_or_home(pos, Color::White),
        pos.layer(Piece::Pawn, Color::Black),
        pos.layer(Piece::Knight, Color::Black),
        pos.layer(Piece::Bishop, Color::Black),
        pos.layer(Piece::Rook, Color::Black),
        pos.layer(Piece::Queen, Color::Black),
        king_square_or_home(pos, Color::Black),
    )
}

/// The pawn-structure balance of `pos` from white's side.
pub open spec fn pawn_balance(pos: Position) -> int {
    side_pawn_score(
        pos.layer(Piece::Pawn, Color::White),
        pos.layer(Piece::Pawn, Color::Black),
        Color::White,
    ) - side_pawn_score(
        pos.layer(Piece::Pawn, Color::Black),
        pos.layer(Piece::Pawn, Color::White),
        Color::Black,
    )
}

/// The king-safety balance of `pos` from white's side.
pub open spec fn king_balance(pos: Position) -> int {
    king_safety_score(
        king_square_or_home(pos, Color::White),
        pos.layer(Piece::Pawn, Color::White),
        pos.layer(Piece::Pawn, Color::Black),
        Color::White,
    ) - king_safety_score(
        king_square_or_home(pos, Color::Black),
        pos.layer(Piece::Pawn, Color::Black),
        pos.layer(Piece::Pawn, Color::White),
        Color::Black,
    )
}

/// The mobility balance of `pos`: white's count of pseudo-legal moves less black's.
pub open spec fn mobility_balance(pos: Position) -> int {
    mobility_of(pos, Color::White) - mobility_of(pos, Color::Black)
}

/// A hundred times the weighted sum from white's side: material counts in
/// full, piece-square bonuses for 0.20, pawn structure and king safety for
/// 0.15 each, mobility for 0.10.
pub open spec fn weighted_hundredths(pos: Position) -> int {
    100 * material_balance(pos) + 20 * pst_balance(pos) + 15 * pawn_balance(pos) + 15
        * king_balance(pos) + 10 * mobility_balance(pos)
}

/// `hundredths` over a hundred, rounded to the nearest whole number, halves
/// away from zero.
pub open spec fn rounded(hundredths: int) -> int {
    if hundredths >= 0 {
        (hundredths + 50) / 100
    } else {
        -((50 - hundredths) / 100)
    }
}

/// The score of `pos` in centipawns for the side to move: the weighted sum
/// from white's side, rounded, and negated when black is to move.
#[verifier::opaque]
pub open spec fn static_score(pos: Position) -> int {
    if pos.side_to_move == Color::White {
        rounded(weighted_hundredths(pos))
    } else {
        -rounded(weighted_hundredths(pos))
    }
}

/// The number of pseudo-legal moves `color` would have in `position`.
fn count_moves(tables: &MagicTables, position: &Position, color: Color) -> (n: i32)
    requires
        tables.wf(),
    ensures
        n == mobility_of(*position, color),
        0 <= n <= 256,
{
    let mut turned = *position;
    turned.side_to_move = color;
    generate_moves(tables, &turned).len() as i32
}

/// The square of the king of `color`, its home square when it has none.
fn king_square(position: &Position, color: Color) -> (sq: Square)
    ensures
        sq == king_square_or_home(*position, color),
        sq.valid(),
{
    match position.piece_bb(Piece::King, color).lsb() {
        Some(sq) => sq,
        None => match color {
            Color::White => Square(Square::E1),
            Color::Black => Square(Square::E8),
        },
    }
}

impl Evaluator {
    /// A new evaluator.
    pub fn new() -> Evaluator {
        Evaluator {  }
    }

    /// The score of `position` in centipawns for the side to move.
    pub fn evaluate(&self, tables: &MagicTables, position: &Position) -> (score: i32)
        requires
            tables.wf(),
        ensures
            score == static_score(*position),
            -1_500_000 <= score <= 1_500_000,
    {
        reveal(static_score);
        let wp = position.piece_bb(Piece::Pawn, Color::White);
        let wn = position.piece_bb(Piece::Knight, Color::White);
        let wb = position.piece_bb(Piece::Bishop, Color::White);
        let wr = position.piece_bb(Piece::Rook, Color::White);
        let wq = position.piece_bb(Piece::Queen, Color::White);
        let wk = position.piece_bb(Piece::King, Color::White);
        let bp = position.piece_bb(Piece::Pawn, Color::Black);
        let bn = position.piece_bb(Piece::Knight, Color::Black);
        let bb = position.piece_bb(Piece::Bishop, Color::Black);
        let br = position.piece_bb(Piece::Rook, Color::Black);
        let bq = position.piece_bb(Piece::Queen, Color::Black);
        let bk = position.piece_bb(Piece::King, Color::Black);
        let white_king = king_square(position, Color::White);
        let black_king = king_square(position, Color::Black);
        let material = evaluate_material(wp, wn, wb, wr, wq, wk, bp, bn, bb, br, bq, bk);
        let pst = evaluate_pst(wp, wn, wb, wr, wq, white_king, bp, bn, bb, br, bq, black_king);
        let pawn_structure = evaluate_pawn_structure(wp, bp);
        let king_safety = evaluate_king_safety(white_king, black_king, wp, bp);
        let mobility = Evaluator::evaluate_mobility(tables, position);
        let hundredths: i32 = 100 * material + 20 * pst + 15 * pawn_structure + 15 * king_safety
            + 10 * mobility;
        let whole: i32 = if hundredths >= 0 {
            (hundredths + 50) / 100
        } else {
            -((50 - hundredths) / 100)
        };
        match position.side_to_move {
            Color::White => whole,
            Color::Black => -whole,
        }
    }

    /// The mobility balance: white's count of pseudo-legal moves less black's.
    pub fn evaluate_mobility(tables: &MagicTables, position: &Position) -> (score: i32)
        requires
            tables.wf(),
        ensures
            score == mobility_balance(*position),
            -256 <= score <= 256,
    {
        let white_moves = count_moves(tables, position, Color::White);
        let black_moves = count_moves(tables, position, Color::Black);
        white_moves - black_moves
    }

    /// The material balance of the given pieces: white's less black's.
    pub fn evaluate_material_only(
        &self,
        white_pawns: Bitboard,
        white_knights: Bitboard,
        white_bishops: Bitboard,
        white_rooks: Bitboard,
        white_queens: Bitboard,
        white_king: Bitboard,
        black_pawns: Bitboard,
        black_knights: Bitboard,
        black_bishops: Bitboard,
        black_rooks: Bitboard,
        black_queens: Bitboard,
        black_king: Bitboard,
    ) -> (score: i32)
        ensures
            score == side_material(
                white_pawns.0,
                white_knights.0,
                white_bishops.0,
                white_rooks.0,
                white_queens.0,
                white_king.0,
            ) - side_material(
                black_pawns.0,
                black_knights.0,
                black_bishops.0,
                black_rooks.0,
                black_queens.0,
                black_king.0,
            ),
    {
        evaluate_material(
            white_pawns,
            white_knights,
            white_bishops,
            white_rooks,
            white_queens,
            white_king,
            black_pawns,
            black_knights,
            black_bishops,
            black_rooks,
            black_queens,
            black_king,
        )
    }
}

/// The material of one side is at most that of 64 pieces of every kind.
proof fn lemma_side_material_bounded(p: u64, n: u64, b: u64, r: u64, q: u64, k: u64)
    ensures
        0 <= side_material(p, n, b, r, q, k) <= 1_417_600,
{
    crate::bitset::lemma_squares_of_sorted(p);
    crate::bitset::lemma_squares_of_sorted(n);
    crate::bitset::lemma_squares_of_sorted(b);
    crate::bitset::lemma_squares_of_sorted(r);
    crate::bitset::lemma_squares_of_sorted(q);
    crate::bitset::lemma_squares_of_sorted(k);
}

/// The bonuses of the pieces on `squares` add up to at most 50 each.
proof fn lemma_pst_sum_bounded(piece: Piece, color: Color, squares: Seq<u64>)
    requires
        forall|i: int| 0 <= i < squares.len() ==> squares[i] < 64,
    ensures
        -50 * squares.len() <= crate::pst::pst_sum(piece, color, squares) <= 50 * squares.len(),
    decreases squares.len(),
{
    if squares.len() > 0 {
        lemma_pst_sum_bounded(piece, color, squares.drop_last());
        lemma_pst_value_bounded(piece, Square(squares.last() as u8), color);
    }
}

/// A bonus is between -50 and 50.
proof fn lemma_pst_value_bounded(piece: Piece, sq: Square, color: Color)
    requires
        sq.valid(),
    ensures
        -50 <= crate::pst::spec_pst_value(piece, sq, color) <= 50,
{
    let index = if color == Color::White {
        sq.0 as int
    } else {
        crate::pst::mirrored(sq.0 as int)
    };
    assert(0 <= index < 64);
    assert(-50 <= crate::pst::PAWN_PST[index] <= 50);
    assert(-50 <= crate::pst::KNIGHT_PST[index] <= 50);
    assert(-50 <= crate::pst::BISHOP_PST[index] <= 50);
    assert(-50 <= crate::pst::ROOK_PST[index] <= 50);
    assert(-50 <= crate::pst::QUEEN_PST[index] <= 50);
    assert(-50 <= crate::pst::KING_PST[index] <= 50);
}

/// The bonuses of a layer add up to at most 3200.
proof fn lemma_layer_pst_bounded(piece: Piece, color: Color, bits: u64)
    ensures
        -3200 <= crate::pst::layer_pst(piece, color, bits) <= 3200,
{
    crate::bitset::lemma_squares_of_sorted(bits);
    lemma_pst_sum_bounded(piece, color, squares_of(bits));
}

/// The structure scores of the pawns on `squares` add up to between -25
/// and 45 each.
proof fn lemma_pawn_scores_bounded(squares: Seq<u64>, friendly: u64, enemy: u64, color: Color)
    requires
        forall|i: int| 0 <= i < squares.len() ==> squares[i] < 64,
    ensures
        -25 * squares.len() <= crate::pawn::pawn_scores_over(squares, friendly, enemy, color) <= 45
            * squares.len(),
    decreases squares.len(),
{
    if squares.len() > 0 {
        lemma_pawn_scores_bounded(squares.drop_last(), friendly, enemy, color);
    }
}

/// The structure score of the pawns of one side is between -1600 and 2880.
proof fn lemma_side_pawn_score_bounded(friendly: u64, enemy: u64, color: Color)
    ensures
        -1600 <= side_pawn_score(friendly, enemy, color) <= 2880,
{
    crate::bitset::lemma_squares_of_sorted(friendly);
    lemma_pawn_scores_bounded(squares_of(friendly), friendly, enemy, color);
}

/// The static score of any position is between -1,500,000 and 1,500,000.
pub proof fn lemma_static_score_bounded(pos: Position)
    ensures
        -1_500_000 <= static_score(pos) <= 1_500_000,
{
    reveal(static_score);
    let w = Color::White;
    let b = Color::Black;
    lemma_side_material_bounded(
        pos.layer(Piece::Pawn, w),
        pos.layer(Piece::Knight, w),
        pos.layer(Piece::Bishop, w),
        pos.layer(Piece::Rook, w),
        pos.layer(Piece::Queen, w),
        pos.layer(Piece::King, w),
    );
    lemma_side_material_bounded(
        pos.layer(Piece::Pawn, b),
        pos.layer(Piece::Knight, b),
        pos.layer(Piece::Bishop, b),
        pos.layer(Piece::Rook, b),
        pos.layer(Piece::Queen, b),
        pos.layer(Piece::King, b),
    );
    lemma_layer_pst_bounded(Piece::Pawn, w, pos.layer(Piece::Pawn, w));
    lemma_layer_pst_bounded(Piece::Knight, w, pos.layer(Piece::Knight, w));
    lemma_layer_pst_bounded(Piece::Bishop, w, pos.layer(Piece::Bishop, w));
    lemma_layer_pst_bounded(Piece::Rook, w, pos.layer(Piece::Rook, w));
    lemma_layer_pst_bounded(Piece::Queen, w, pos.layer(Piece::Queen, w));
    lemma_layer_pst_bounded(Piece::Pawn, b, pos.layer(Piece::Pawn, b));
    lemma_layer_pst_bounded(Piece::Knight, b, pos.layer(Piece::Knight, b));
    lemma_layer_pst_bounded(Piece::Bishop, b, pos.layer(Piece::Bishop, b));
    lemma_layer_pst_bounded(Piece::Rook, b, pos.layer(Piece::Rook, b));
    lemma_layer_pst_bounded(Piece::Queen, b, pos.layer(Piece::Queen, b));
    if pos.layer(Piece::King, w) != 0 {
        crate::bitset::lemma_lowest(pos.layer(Piece::King, w));
    }
    if pos.layer(Piece::King, b) != 0 {
        crate::bitset::lemma_lowest(pos.layer(Piece::King, b));
    }
    lemma_pst_value_bounded(Piece::King, king_square_or_home(pos, w), w);
    lemma_pst_value_bounded(Piece::King, king_square_or_home(pos, b), b);
    lemma_side_pawn_score_bounded(pos.layer(Piece::Pawn, w), pos.layer(Piece::Pawn, b), w);
    lemma_side_pawn_score_bounded(pos.layer(Piece::Pawn, b), pos.layer(Piece::Pawn, w), b);
    crate::generator::lemma_bounded_append(pseudo_legal(with_side(pos, w)), Seq::empty());
    crate::generator::lemma_bounded_append(pseudo_legal(with_side(pos, b)), Seq::empty());
    assert(-141_760_000 <= 100 * material_balance(pos) <= 141_760_000);
    assert(-32_100 <= pst_balance(pos) <= 32_100);
    assert(-4480 <= pawn_balance(pos) <= 4480);
    assert(-48 <= king_balance(pos) <= 48);
    assert(-256 <= mobility_balance(pos) <= 256);
}

} // verus!
