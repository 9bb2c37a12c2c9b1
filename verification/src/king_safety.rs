//! King safety: the pawn shield in front of the king and the open files around it.

use crate::attacks::{on_board, square_bit, step_bit};
use crate::pawn::file_mask;
use crate::types::{Bitboard, Color, Square};
use vstd::prelude::*;

verus! {

/// `bonus` when `pawns` holds the square on rank `r` and file `f`, nothing otherwise.
pub open spec fn shield_cell(pawns: u64, r: int, f: int, bonus: int) -> int {
    if on_board(r, f) && pawns & square_bit(r, f) != 0 {
        bonus
    } else {
        0
    }
}

/// The pawn shield of the king of `color` on `king_sq`: each pawn on the
/// king's file or a file next to it, one or two ranks ahead of the king,
/// counts 2 less its rank distance plus 1 less its file distance.
pub open spec fn shield_score(king_sq: Square, pawns: u64, color: Color) -> int {
    let r = king_sq.spec_rank() as int;
    let f = king_sq.spec_file() as int;
    let d: int = if color == Color::White { 1 } else { -1 };
    shield_cell(pawns, r + d, f - 1, 1) + shield_cell(pawns, r + d, f, 2) + shield_cell(
        pawns,
        r + d,
        f + 1,
        1,
    ) + shield_cell(pawns, r + 2 * d, f - 1, 0) + shield_cell(pawns, r + 2 * d, f, 1)
        + shield_cell(pawns, r + 2 * d, f + 1, 0)
}

/// Whether file `file` is a file of the board that holds none of `pawns`.
pub open spec fn file_free_of(pawns: u64, file: int) -> bool {
    0 <= file < 8 && pawns & file_mask(file) == 0
}

/// Whether the king's file or a file next to it holds no enemy pawn.
pub open spec fn files_open(king_sq: Square, enemy_pawns: u64) -> bool {
    let f = king_sq.spec_file() as int;
    file_free_of(enemy_pawns, f - 1) || file_free_of(enemy_pawns, f) || file_free_of(
        enemy_pawns,
        f + 1,
    )
}

/// Whether file `file` holds an enemy pawn and no friendly one.
pub open spec fn file_semi_open(friendly: u64, enemy: u64, file: int) -> bool {
    0 <= file < 8 && enemy & file_mask(file) != 0 && friendly & file_mask(file) == 0
}

/// Whether the king's file or a file next to it holds an enemy pawn and no
/// friendly one.
pub open spec fn files_semi_open(king_sq: Square, friendly: u64, enemy: u64) -> bool {
    let f = king_sq.spec_file() as int;
    file_semi_open(friendly, enemy, f - 1) || file_semi_open(friendly, enemy, f)
        || file_semi_open(friendly, enemy, f + 1)
}

/// The safety of the king of `color` on `king_sq`: three times the pawn
/// shield, 20 off for an open file near the king, 10 off for a semi-open one.
pub open spec fn king_safety_score(king_sq: Square, friendly: u64, enemy: u64, color: Color)
    -> int {
    3 * shield_score(king_sq, friendly, color) - (if files_open(king_sq, enemy) {
        20int
    } else {
        0int
    }) - (if files_semi_open(king_sq, friendly, enemy) {
        10int
    } else {
        0int
    })
}

/// `bonus` when `pawns` holds the square on rank `r` and file `f`.
fn cell(pawns: Bitboard, r: i8, f: i8, bonus: i32) -> (v: i32)
    ensures
        v == shield_cell(pawns.0, r as int, f as int, bonus as int),
{
    if 0 <= r && r < 8 && 0 <= f && f < 8 && pawns.0 & step_bit(r, f) != 0 {
        bonus
    } else {
        0
    }
}

/// The pawn shield of the king of `color` on `king_sq`.
pub fn evaluate_pawn_shield(king_sq: Square, pawns: Bitboard, color: Color) -> (score: i32)
    requires
        king_sq.valid(),
    ensures
        score == shield_score(king_sq, pawns.0, color),
        0 <= score <= 6,
{
    let r = king_sq.rank() as i8;
    let f = king_sq.file() as i8;
    let d: i8 = match color {
        Color::White => 1,
        Color::Black => -1,
    };
    cell(pawns, r + d, f - 1, 1) + cell(pawns, r + d, f, 2) + cell(pawns, r + d, f + 1, 1) + cell(
        pawns,
        r + 2 * d,
        f - 1,
        0,
    ) + cell(pawns, r + 2 * d, f, 1) + cell(pawns, r + 2 * d, f + 1, 0)
}

/// Whether file `file` is on the board and holds none of `pawns`.
fn file_is_free(pawns: Bitboard, file: i8) -> (r: bool)
    requires
        -1 <= file <= 8,
    ensures
        r == file_free_of(pawns.0, file as int),
{
    0 <= file && file < 8 && pawns.0 & (Bitboard::FILE_A << (file as u64)) == 0
}

/// Whether the king's file or a file next to it holds no enemy pawn.
pub fn king_files_open(king_sq: Square, enemy_pawns: Bitboard) -> (r: bool)
    requires
        king_sq.valid(),
    ensures
        r == files_open(king_sq, enemy_pawns.0),
{
    let f = king_sq.file() as i8;
    file_is_free(enemy_pawns, f - 1) || file_is_free(enemy_pawns, f) || file_is_free(
        enemy_pawns,
        f + 1,
    )
}

/// Whether file `file` holds an enemy pawn and no friendly one.
fn file_is_semi_open(friendly: Bitboard, enemy: Bitboard, file: i8) -> (r: bool)
    requires
        -1 <= file <= 8,
    ensures
        r == file_semi_open(friendly.0, enemy.0, file as int),
{
    0 <= file && file < 8 && enemy.0 & (Bitboard::FILE_A << (file as u64)) != 0 && friendly.0 & (
    Bitboard::FILE_A << (file as u64)) == 0
}

/// Whether the king's file or a file next to it holds an enemy pawn and no
/// friendly one.
pub fn king_files_semi_open(king_sq: Square, friendly_pawns: Bitboard, enemy_pawns: Bitboard) -> (r:
    bool)
    requires
        king_sq.valid(),
    ensures
        r == files_semi_open(king_sq, friendly_pawns.0, enemy_pawns.0),
{
    let f = king_sq.file() as i8;
    file_is_semi_open(friendly_pawns, enemy_pawns, f - 1) || file_is_semi_open(
        friendly_pawns,
        enemy_pawns,
        f,
    ) || file_is_semi_open(friendly_pawns, enemy_pawns, f + 1)
}

/// The safety of the king of `color` on `king_sq`.
pub fn evaluate_single_king_safety(
    king_sq: Square,
    friendly_pawns: Bitboard,
    enemy_pawns: Bitboard,
    color: Color,
) -> (score: i32)
    requires
        king_sq.valid(),
    ensures
        score == king_safety_score(king_sq, friendly_pawns.0, enemy_pawns.0, color),
        -30 <= score <= 18,
{
    let mut score: i32 = evaluate_pawn_shield(king_sq, friendly_pawns, color) * 3;
    if king_files_open(king_sq, enemy_pawns) {
        score = score - 20;
    }
    if king_files_semi_open(king_sq, friendly_pawns, enemy_pawns) {
        score = score - 10;
    }
    score
}

/// The king-safety balance: the safety of white's king less that of black's.
pub fn evaluate_king_safety(
    white_king: Square,
    black_king: Square,
    white_pawns: Bitboard,
    black_pawns: Bitboard,
) -> (score: i32)
    requires
        white_king.valid(),
        black_king.valid(),
    ensures
        score == king_safety_score(white_king, white_pawns.0, black_pawns.0, Color::White)
            - king_safety_score(black_king, black_pawns.0, white_pawns.0, Color::Black),
        -48 <= score <= 48,
{
    let white_safety = evaluate_single_king_safety(
        white_king,
        white_pawns,
        black_pawns,
        Color::White,
    );
    let black_safety = evaluate_single_king_safety(
        black_king,
        black_pawns,
        white_pawns,
        Color::Black,
    );
    white_safety - black_safety
}

} // verus!
