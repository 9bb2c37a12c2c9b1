//! Sliding attacks without tables: each line of attack is walked square by
//! square from the piece to the first blocker.

use crate::attacks::{bishop_ray_attacks, ray_from, rook_ray_attacks, walk_from};
use crate::bitset::{is_set, lemma_bitwise_members};
use crate::types::Square;
use vstd::prelude::*;

verus! {

/// The squares attacked along the rank of `square`, to either side.
pub fn rank_attacks_inner(square: u32, occupied: u64) -> (attacks: u64)
    requires
        square < 64,
    ensures
        attacks == ray_from(Square(square as u8), 0, 1, occupied) | ray_from(
            Square(square as u8),
            0,
            -1,
            occupied,
        ),
{
    let sq = Square(square as u8);
    walk_from(sq, 0, 1, occupied) | walk_from(sq, 0, -1, occupied)
}

/// The squares attacked along the file of `square`, up and down.
pub fn file_attacks_inner(square: u32, occupied: u64) -> (attacks: u64)
    requires
        square < 64,
    ensures
        attacks == ray_from(Square(square as u8), 1, 0, occupied) | ray_from(
            Square(square as u8),
            -1,
            0,
            occupied,
        ),
{
    let sq = Square(square as u8);
    walk_from(sq, 1, 0, occupied) | walk_from(sq, -1, 0, occupied)
}

/// The squares attacked along the diagonal of `square` that rises towards
/// the higher files.
pub fn diagonal_attacks_inner(square: u32, occupied: u64) -> (attacks: u64)
    requires
        square < 64,
    ensures
        attacks == ray_from(Square(square as u8), 1, 1, occupied) | ray_from(
            Square(square as u8),
            -1,
            -1,
            occupied,
        ),
{
    let sq = Square(square as u8);
    walk_from(sq, 1, 1, occupied) | walk_from(sq, -1, -1, occupied)
}

/// The squares attacked along the diagonal of `square` that rises towards
/// the lower files.
pub fn anti_diagonal_attacks_inner(square: u32, occupied: u64) -> (attacks: u64)
    requires
        square < 64,
    ensures
        attacks == ray_from(Square(square as u8), 1, -1, occupied) | ray_from(
            Square(square as u8),
            -1,
            1,
            occupied,
        ),
{
    let sq = Square(square as u8);
    walk_from(sq, 1, -1, occupied) | walk_from(sq, -1, 1, occupied)
}

/// Regrouping a union of four words.
proof fn lemma_union_regroup(a: u64, b: u64, c: u64, d: u64)
    by (bit_vector)
    ensures
        (a | b) | (c | d) == a | b | c | d,
{
}

/// What a rook on `square` attacks when `occupied` is occupied.
pub fn rook_attacks_neon(square: u32, occupied: u64) -> (attacks: u64)
    requires
        square < 64,
    ensures
        attacks == rook_ray_attacks(Square(square as u8), occupied),
{
    let rank_attacks = rank_attacks_inner(square, occupied);
    let file_attacks = file_attacks_inner(square, occupied);
    proof {
        let sq = Square(square as u8);
        lemma_union_regroup(
            ray_from(sq, 0, 1, occupied),
            ray_from(sq, 0, -1, occupied),
            ray_from(sq, 1, 0, occupied),
            ray_from(sq, -1, 0, occupied),
        );
    }
    rank_attacks | file_attacks
}

/// What a bishop on `square` attacks when `occupied` is occupied.
pub fn bishop_attacks_neon(square: u32, occupied: u64) -> (attacks: u64)
    requires
        square < 64,
    ensures
        attacks == bishop_ray_attacks(Square(square as u8), occupied),
{
    let diag_attacks = diagonal_attacks_inner(square, occupied);
    let anti_diag_attacks = anti_diagonal_attacks_inner(square, occupied);
    proof {
        let sq = Square(square as u8);
        lemma_union_regroup(
            ray_from(sq, 1, 1, occupied),
            ray_from(sq, -1, -1, occupied),
            ray_from(sq, 1, -1, occupied),
            ray_from(sq, -1, 1, occupied),
        );
    }
    diag_attacks | anti_diag_attacks
}

/// The squares for which `on_line` holds of rank and file, found by asking
/// square by square.
fn line_mask(sum: bool, index: i32) -> (mask: u64)
    ensures
        forall|t: u64|
            is_set(mask, t) <==> t < 64 && (if sum {
                t / 8 + t % 8 == index
            } else {
                t / 8 - t % 8 == index
            }),
{
    let mut mask: u64 = 0;
    let mut t: u64 = 0;
    proof {
        lemma_bitwise_members();
    }
    while t < 64
        invariant
            t <= 64,
            forall|s: u64|
                is_set(mask, s) <==> s < t && (if sum {
                    s / 8 + s % 8 == index
                } else {
                    s / 8 - s % 8 == index
                }),
        decreases 64 - t,
    {
        let rank = (t / 8) as i32;
        let file = (t % 8) as i32;
        let on_line = if sum {
            rank + file == index
        } else {
            rank - file == index
        };
        let ghost before = mask;
        if on_line {
            mask = mask | (1u64 << t);
        }
        proof {
            lemma_bitwise_members();
            assert forall|s: u64| #[trigger] is_set(mask, s) <==> is_set(before, s) || (s == t
                && on_line) by {}
        }
        t += 1;
    }
    mask
}

/// The squares of the diagonal on which the rank less the file is `diag`;
/// none when there is no such diagonal.
pub fn diagonal_mask(diag: i32) -> (mask: u64)
    ensures
        forall|t: u64| is_set(mask, t) <==> t < 64 && t / 8 - t % 8 == diag,
{
    line_mask(false, diag)
}

/// The squares of the diagonal on which rank and file add up to
/// `anti_diag`; none when there is no such diagonal.
pub fn anti_diagonal_mask(anti_diag: i32) -> (mask: u64)
    ensures
        forall|t: u64| is_set(mask, t) <==> t < 64 && t / 8 + t % 8 == anti_diag,
{
    line_mask(true, anti_diag)
}

} // verus!
