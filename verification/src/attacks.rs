//! Attack sets of every piece kind: the step tables of knights, kings and
//! pawns, and the ray walk that defines what a sliding piece attacks.

use crate::bitset::{is_set, lemma_bitwise_members};
use crate::types::{Bitboard, Color, Square};
use vstd::prelude::*;

verus! {

/// Whether rank `r` and file `f` name a square of the board.
pub open spec fn on_board(r: int, f: int) -> bool {
    0 <= r < 8 && 0 <= f < 8
}

/// The occupancy word of the square on rank `r` and file `f`, or the empty
/// word when they name no square.
pub open spec fn square_bit(r: int, f: int) -> u64 {
    if on_board(r, f) {
        1u64 << ((r * 8 + f) as u64)
    } else {
        0
    }
}

/// The squares a knight on `sq` attacks: the eight jumps that stay on the board.
pub open spec fn knight_attack_mask(sq: Square) -> u64 {
    let r = sq.spec_rank() as int;
    let f = sq.spec_file() as int;
    square_bit(r - 2, f - 1) | square_bit(r - 2, f + 1) | square_bit(r - 1, f - 2) | square_bit(
        r - 1,
        f + 2,
    ) | square_bit(r + 1, f - 2) | square_bit(r + 1, f + 2) | square_bit(r + 2, f - 1)
        | square_bit(r + 2, f + 1)
}

/// The squares a king on `sq` attacks: the eight neighbours that are on the board.
pub open spec fn king_attack_mask(sq: Square) -> u64 {
    let r = sq.spec_rank() as int;
    let f = sq.spec_file() as int;
    square_bit(r - 1, f - 1) | square_bit(r - 1, f) | square_bit(r - 1, f + 1) | square_bit(
        r,
        f - 1,
    ) | square_bit(r, f + 1) | square_bit(r + 1, f - 1) | square_bit(r + 1, f) | square_bit(
        r + 1,
        f + 1,
    )
}

/// The squares a pawn of `color` on `sq` attacks: the two diagonal
/// neighbours one rank ahead, where ahead is up for white and down for black.
pub open spec fn pawn_attack_mask(sq: Square, color: Color) -> u64 {
    let r = sq.spec_rank() as int;
    let f = sq.spec_file() as int;
    let ahead = if color == Color::White { r + 1 } else { r - 1 };
    square_bit(ahead, f - 1) | square_bit(ahead, f + 1)
}

/// The occupancy word of the square on rank `r` and file `f`, empty when
/// they name no square.
pub fn step_bit(r: i8, f: i8) -> (b: u64)
    ensures
        b == square_bit(r as int, f as int),
{
    if 0 <= r && r < 8 && 0 <= f && f < 8 {
        1u64 << ((r * 8 + f) as u64)
    } else {
        0
    }
}

/// The squares a knight on `square` attacks.
pub fn knight_attacks(square: Square) -> (bb: Bitboard)
    requires
        square.valid(),
    ensures
        bb.0 == knight_attack_mask(square),
{
    let r = square.rank() as i8;
    let f = square.file() as i8;
    Bitboard(
        step_bit(r - 2, f - 1) | step_bit(r - 2, f + 1) | step_bit(r - 1, f - 2) | step_bit(
            r - 1,
            f + 2,
        ) | step_bit(r + 1, f - 2) | step_bit(r + 1, f + 2) | step_bit(r + 2, f - 1) | step_bit(
            r + 2,
            f + 1,
        ),
    )
}

/// The squares a king on `square` attacks.
pub fn king_attacks(square: Square) -> (bb: Bitboard)
    requires
        square.valid(),
    ensures
        bb.0 == king_attack_mask(square),
{
    let r = square.rank() as i8;
    let f = square.file() as i8;
    Bitboard(
        step_bit(r - 1, f - 1) | step_bit(r - 1, f) | step_bit(r - 1, f + 1) | step_bit(r, f - 1)
            | step_bit(r, f + 1) | step_bit(r + 1, f - 1) | step_bit(r + 1, f) | step_bit(
            r + 1,
            f + 1,
        ),
    )
}

/// The squares a pawn of `color` on `square` attacks.
pub fn pawn_attacks(square: Square, color: Color) -> (bb: Bitboard)
    requires
        square.valid(),
    ensures
        bb.0 == pawn_attack_mask(square, color),
{
    let r = square.rank() as i8;
    let f = square.file() as i8;
    let ahead: i8 = match color {
        Color::White => r + 1,
        Color::Black => r - 1,
    };
    Bitboard(step_bit(ahead, f - 1) | step_bit(ahead, f + 1))
}

/// The knight attack set of every square, indexed by the square's number.
pub fn generate_knight_attacks() -> (table: [Bitboard; 64])
    ensures
        forall|i: int| 0 <= i < 64 ==> (#[trigger] table[i]).0 == knight_attack_mask(Square(i as u8)),
{
    let mut table = [Bitboard(0);64];
    let mut sq: u8 = 0;
    while sq < 64
        invariant
            sq <= 64,
            forall|i: int| 0 <= i < sq ==> (#[trigger] table[i]).0 == knight_attack_mask(Square(i as u8)),
        decreases 64 - sq,
    {
        table[sq as usize] = knight_attacks(Square(sq));
        sq += 1;
    }
    table
}

/// The king attack set of every square, indexed by the square's number.
pub fn generate_king_attacks() -> (table: [Bitboard; 64])
    ensures
        forall|i: int| 0 <= i < 64 ==> (#[trigger] table[i]).0 == king_attack_mask(Square(i as u8)),
{
    let mut table = [Bitboard(0);64];
    let mut sq: u8 = 0;
    while sq < 64
        invariant
            sq <= 64,
            forall|i: int| 0 <= i < sq ==> (#[trigger] table[i]).0 == king_attack_mask(Square(i as u8)),
        decreases 64 - sq,
    {
        table[sq as usize] = king_attacks(Square(sq));
        sq += 1;
    }
    table
}

/// The pawn attack set of every square for both colours: `table[0]` is
/// white's, `table[1]` black's.
pub fn generate_pawn_attacks() -> (table: [[Bitboard; 64]; 2])
    ensures
        forall|i: int| 0 <= i < 64 ==> (#[trigger] table[0][i]).0 == pawn_attack_mask(
            Square(i as u8), Color::White),
        forall|i: int| 0 <= i < 64 ==> (#[trigger] table[1][i]).0 == pawn_attack_mask(
            Square(i as u8), Color::Black),
{
    let mut white = [Bitboard(0);64];
    let mut black = [Bitboard(0);64];
    let mut sq: u8 = 0;
    while sq < 64
        invariant
            sq <= 64,
            forall|i: int| 0 <= i < sq ==> (#[trigger] white[i]).0 == pawn_attack_mask(
                Square(i as u8), Color::White),
            forall|i: int| 0 <= i < sq ==> (#[trigger] black[i]).0 == pawn_attack_mask(
                Square(i as u8), Color::Black),
        decreases 64 - sq,
    {
        white[sq as usize] = pawn_attacks(Square(sq), Color::White);
        black[sq as usize] = pawn_attacks(Square(sq), Color::Black);
        sq += 1;
    }
    [white, black]
}

/// The squares met walking from rank `r`, file `f` in steps of `(dr, df)`,
/// for at most `n` squares: the walk takes in each square it stands on and
/// ends on the first one that is in `occ`, or where the board ends.
pub open spec fn ray(r: int, f: int, dr: int, df: int, occ: u64, n: nat) -> u64
    decreases n,
{
    if n == 0 || !on_board(r, f) {
        0
    } else if occ & square_bit(r, f) != 0 {
        square_bit(r, f)
    } else {
        square_bit(r, f) | ray(r + dr, f + df, dr, df, occ, (n - 1) as nat)
    }
}

/// The ray that leaves `sq` in direction `(dr, df)`, the origin left out.
pub open spec fn ray_from(sq: Square, dr: int, df: int, occ: u64) -> u64 {
    ray(sq.spec_rank() + dr, sq.spec_file() + df, dr, df, occ, 7)
}

/// What a bishop on `sq` attacks when `occ` is occupied: the four diagonal
/// rays, each up to and including its first occupied square.
pub open spec fn bishop_ray_attacks(sq: Square, occ: u64) -> u64 {
    ray_from(sq, 1, 1, occ) | ray_from(sq, -1, -1, occ) | ray_from(sq, 1, -1, occ) | ray_from(
        sq,
        -1,
        1,
        occ,
    )
}

/// What a rook on `sq` attacks when `occ` is occupied: the two rays along
/// the rank and the two along the file, each up to and including its first
/// occupied square.
pub open spec fn rook_ray_attacks(sq: Square, occ: u64) -> u64 {
    ray_from(sq, 0, 1, occ) | ray_from(sq, 0, -1, occ) | ray_from(sq, 1, 0, occ) | ray_from(
        sq,
        -1,
        0,
        occ,
    )
}

/// What a queen on `sq` attacks: a bishop's and a rook's rays together.
pub open spec fn queen_ray_attacks(sq: Square, occ: u64) -> u64 {
    bishop_ray_attacks(sq, occ) | rook_ray_attacks(sq, occ)
}

/// Walks the ray that starts on rank `r`, file `f` and goes on in steps of
/// `(dr, df)`.
pub fn walk_ray(r: i8, f: i8, dr: i8, df: i8, occ: u64, n: u8) -> (m: u64)
    requires
        -1 <= r <= 8,
        -1 <= f <= 8,
        -1 <= dr <= 1,
        -1 <= df <= 1,
        n <= 7,
    ensures
        m == ray(r as int, f as int, dr as int, df as int, occ, n as nat),
    decreases n,
{
    if n == 0 || !(0 <= r && r < 8 && 0 <= f && f < 8) {
        0
    } else {
        let b = step_bit(r, f);
        if occ & b != 0 {
            b
        } else {
            b | walk_ray(r + dr, f + df, dr, df, occ, n - 1)
        }
    }
}

/// Walks the ray that leaves `square` in direction `(dr, df)`.
pub fn walk_from(square: Square, dr: i8, df: i8, occ: u64) -> (m: u64)
    requires
        square.valid(),
        -1 <= dr <= 1,
        -1 <= df <= 1,
    ensures
        m == ray_from(square, dr as int, df as int, occ),
{
    let r = square.rank() as i8;
    let f = square.file() as i8;
    walk_ray(r + dr, f + df, dr, df, occ, 7)
}

/// What a bishop on `square` attacks, found by walking its four rays.
pub fn generate_bishop_attacks_slow(square: Square, occupied: Bitboard) -> (bb: Bitboard)
    requires
        square.valid(),
    ensures
        bb.0 == bishop_ray_attacks(square, occupied.0),
{
    Bitboard(
        walk_from(square, 1, 1, occupied.0) | walk_from(square, -1, -1, occupied.0) | walk_from(
            square,
            1,
            -1,
            occupied.0,
        ) | walk_from(square, -1, 1, occupied.0),
    )
}

/// What a rook on `square` attacks, found by walking its four rays.
pub fn generate_rook_attacks_slow(square: Square, occupied: Bitboard) -> (bb: Bitboard)
    requires
        square.valid(),
    ensures
        bb.0 == rook_ray_attacks(square, occupied.0),
{
    Bitboard(
        walk_from(square, 0, 1, occupied.0) | walk_from(square, 0, -1, occupied.0) | walk_from(
            square,
            1,
            0,
            occupied.0,
        ) | walk_from(square, -1, 0, occupied.0),
    )
}

/// A knight on `sq` attacks `t` exactly when `t` is a knight's jump away:
/// two ranks and one file, or one rank and two files.
pub proof fn lemma_knight_attack_members(sq: Square, t: Square)
    requires
        sq.valid(),
        t.valid(),
    ensures
        is_set(knight_attack_mask(sq), t.idx()) <==> {
            let dr = t.spec_rank() - sq.spec_rank();
            let df = t.spec_file() - sq.spec_file();
            (dr * dr == 4 && df * df == 1) || (dr * dr == 1 && df * df == 4)
        },
{
    lemma_bitwise_members();
    let dr = t.spec_rank() - sq.spec_rank();
    let df = t.spec_file() - sq.spec_file();
    assert(dr * dr == 4 <==> (dr == 2 || dr == -2)) by (nonlinear_arith);
    assert(dr * dr == 1 <==> (dr == 1 || dr == -1)) by (nonlinear_arith);
    assert(df * df == 4 <==> (df == 2 || df == -2)) by (nonlinear_arith);
    assert(df * df == 1 <==> (df == 1 || df == -1)) by (nonlinear_arith);
}

/// A king on `sq` attacks `t` exactly when `t` is another square at most
/// one rank and one file away.
pub proof fn lemma_king_attack_members(sq: Square, t: Square)
    requires
        sq.valid(),
        t.valid(),
    ensures
        is_set(king_attack_mask(sq), t.idx()) <==> {
            let dr = t.spec_rank() - sq.spec_rank();
            let df = t.spec_file() - sq.spec_file();
            -1 <= dr <= 1 && -1 <= df <= 1 && t != sq
        },
{
    lemma_bitwise_members();
}

/// A pawn of `color` on `sq` attacks `t` exactly when `t` is one rank ahead
/// and one file to either side.
pub proof fn lemma_pawn_attack_members(sq: Square, color: Color, t: Square)
    requires
        sq.valid(),
        t.valid(),
    ensures
        is_set(pawn_attack_mask(sq, color), t.idx()) <==> {
            let dr = t.spec_rank() - sq.spec_rank();
            let df = t.spec_file() - sq.spec_file();
            dr == (if color == Color::White { 1int } else { -1int }) && (df == 1 || df == -1)
        },
{
    lemma_bitwise_members();
}

/// Every square of a ray lies, seen from where the ray starts, in the
/// direction of the ray.
pub proof fn lemma_ray_direction(r: int, f: int, dr: int, df: int, occ: u64, n: nat, t: u64)
    requires
        -1 <= dr <= 1,
        -1 <= df <= 1,
        is_set(ray(r, f, dr, df, occ, n), t),
    ensures
        t < 64,
        dr == 1 ==> t / 8 >= r,
        dr == -1 ==> t / 8 <= r,
        dr == 0 ==> t / 8 == r,
        df == 1 ==> t % 8 >= f,
        df == -1 ==> t % 8 <= f,
        df == 0 ==> t % 8 == f,
    decreases n,
{
    lemma_bitwise_members();
    if n == 0 || !on_board(r, f) {
    } else if occ & square_bit(r, f) != 0 {
    } else {
        if !(t == r * 8 + f) {
            lemma_ray_direction(r + dr, f + df, dr, df, occ, (n - 1) as nat, t);
        }
    }
}

/// A sliding piece never attacks the square it stands on.
pub proof fn lemma_slider_misses_origin(sq: Square, occ: u64)
    requires
        sq.valid(),
    ensures
        !is_set(bishop_ray_attacks(sq, occ), sq.idx()),
        !is_set(rook_ray_attacks(sq, occ), sq.idx()),
        !is_set(queen_ray_attacks(sq, occ), sq.idx()),
{
    lemma_bitwise_members();
    let r = sq.spec_rank() as int;
    let f = sq.spec_file() as int;
    let t = sq.idx();
    if is_set(ray_from(sq, 1, 1, occ), t) {
        lemma_ray_direction(r + 1, f + 1, 1, 1, occ, 7, t);
    }
    if is_set(ray_from(sq, -1, -1, occ), t) {
        lemma_ray_direction(r - 1, f - 1, -1, -1, occ, 7, t);
    }
    if is_set(ray_from(sq, 1, -1, occ), t) {
        lemma_ray_direction(r + 1, f - 1, 1, -1, occ, 7, t);
    }
    if is_set(ray_from(sq, -1, 1, occ), t) {
        lemma_ray_direction(r - 1, f + 1, -1, 1, occ, 7, t);
    }
    if is_set(ray_from(sq, 0, 1, occ), t) {
        lemma_ray_direction(r, f + 1, 0, 1, occ, 7, t);
    }
    if is_set(ray_from(sq, 0, -1, occ), t) {
        lemma_ray_direction(r, f - 1, 0, -1, occ, 7, t);
    }
    if is_set(ray_from(sq, 1, 0, occ), t) {
        lemma_ray_direction(r + 1, f, 1, 0, occ, 7, t);
    }
    if is_set(ray_from(sq, -1, 0, occ), t) {
        lemma_ray_direction(r - 1, f, -1, 0, occ, 7, t);
    }
}

/// What a bishop on `square` attacks when `occupied` is occupied, looked up
/// in `tables`.
pub fn bishop_attacks(tables: &crate::magic::MagicTables, square: Square, occupied: Bitboard) -> (bb:
    Bitboard)
    requires
        tables.wf(),
        square.valid(),
    ensures
        bb.0 == bishop_ray_attacks(square, occupied.0),
{
    crate::magic::bishop_attacks_magic(tables, square, occupied)
}

/// What a rook on `square` attacks when `occupied` is occupied, looked up
/// in `tables`.
pub fn rook_attacks(tables: &crate::magic::MagicTables, square: Square, occupied: Bitboard) -> (bb:
    Bitboard)
    requires
        tables.wf(),
        square.valid(),
    ensures
        bb.0 == rook_ray_attacks(square, occupied.0),
{
    crate::magic::rook_attacks_magic(tables, square, occupied)
}

/// What a queen on `square` attacks when `occupied` is occupied, looked up
/// in `tables`.
pub fn queen_attacks(tables: &crate::magic::MagicTables, square: Square, occupied: Bitboard) -> (bb:
    Bitboard)
    requires
        tables.wf(),
        square.valid(),
    ensures
        bb.0 == queen_ray_attacks(square, occupied.0),
{
    crate::magic::queen_attacks_magic(tables, square, occupied)
}

} // verus!
