//! Pawn structure: doubled, isolated and passed pawns.

use crate::bitset::{is_set, popcount, squares_of};
use crate::types::{Bitboard, Color, Square};
use vstd::prelude::*;

verus! {

/// The eight squares of file `file`; empty when `file` is no file.
pub open spec fn file_mask(file: int) -> u64 {
    if 0 <= file < 8 {
        Bitboard::FILE_A << (file as u64)
    } else {
        0
    }
}

/// The squares of the files next to `file`.
pub open spec fn adjacent_files(file: int) -> u64 {
    file_mask(file - 1) | file_mask(file + 1)
}

/// The squares on a rank of number `rank` or above.
pub open spec fn ranks_from(rank: int) -> u64 {
    if rank <= 0 {
        Bitboard::ALL
    } else if rank < 8 {
        Bitboard::ALL << ((8 * rank) as u64)
    } else {
        0
    }
}

/// The squares that a pawn of `color` on `sq` has to pass: those of its file
/// and the files next to it, on the ranks ahead of it.
pub open spec fn front_span(sq: Square, color: Color) -> u64 {
    let files = file_mask(sq.spec_file() as int) | adjacent_files(sq.spec_file() as int);
    if color == Color::White {
        files & ranks_from(sq.spec_rank() + 1)
    } else {
        files & !ranks_from(sq.spec_rank() as int)
    }
}

/// How far a pawn of `color` on `sq` has come from its start rank towards promotion.
pub open spec fn advancement(sq: Square, color: Color) -> int {
    if color == Color::White {
        sq.spec_rank() - 1
    } else {
        6 - sq.spec_rank()
    }
}

/// Whether the pawn on `sq` is doubled: its file holds more than one pawn of its side.
pub open spec fn doubled(sq: Square, friendly: u64) -> bool {
    popcount(friendly & file_mask(sq.spec_file() as int)) > 1
}

/// Whether the pawn on `sq` is isolated: the files next to it hold no pawn of its side.
pub open spec fn isolated(sq: Square, friendly: u64) -> bool {
    friendly & adjacent_files(sq.spec_file() as int) == 0
}

/// Whether the pawn of `color` on `sq` is passed: no enemy pawn is ahead of
/// it on its file or the files next to it.
pub open spec fn passed(sq: Square, color: Color, enemy: u64) -> bool {
    enemy & front_span(sq, color) == 0
}

/// What the pawn of `color` on `sq` is worth in structure: 15 off when
/// doubled, 10 off when isolated, 10 and 5 for each rank of advancement on
/// top when passed.
pub open spec fn pawn_score(sq: Square, friendly: u64, enemy: u64, color: Color) -> int {
    (if doubled(sq, friendly) { -15int } else { 0int }) + (if isolated(sq, friendly) {
        -10int
    } else {
        0int
    }) + (if passed(sq, color, enemy) {
        10 + 5 * advancement(sq, color)
    } else {
        0int
    })
}

/// The structure scores of the pawns on `squares`, added up.
pub open spec fn pawn_scores_over(squares: Seq<u64>, friendly: u64, enemy: u64, color: Color)
    -> int
    decreases squares.len(),
{
    if squares.len() == 0 {
        0
    } else {
        pawn_scores_over(squares.drop_last(), friendly, enemy, color) + pawn_score(
            Square(squares.last() as u8),
            friendly,
            enemy,
            color,
        )
    }
}

/// The structure score of the pawns `friendly` of `color` against the pawns `enemy`.
pub open spec fn side_pawn_score(friendly: u64, enemy: u64, color: Color) -> int {
    pawn_scores_over(squares_of(friendly), friendly, enemy, color)
}

/// The squares of file `file`.
fn file_bits(file: i8) -> (m: u64)
    requires
        -1 <= file <= 8,
    ensures
        m == file_mask(file as int),
{
    if 0 <= file && file < 8 {
        Bitboard::FILE_A << (file as u64)
    } else {
        0
    }
}

/// The squares on rank `rank` or above.
fn rank_bits_from(rank: u8) -> (m: u64)
    requires
        rank <= 8,
    ensures
        m == ranks_from(rank as int),
{
    if rank == 0 {
        Bitboard::ALL
    } else if rank < 8 {
        Bitboard::ALL << ((8 * rank) as u64)
    } else {
        0
    }
}

/// Whether the pawn of `color` on `pawn_sq` is passed.
pub fn is_passed_pawn(pawn_sq: Square, color: Color, enemy_pawns: Bitboard) -> (r: bool)
    requires
        pawn_sq.valid(),
    ensures
        r == passed(pawn_sq, color, enemy_pawns.0),
{
    let file = pawn_sq.file() as i8;
    let rank = pawn_sq.rank();
    let files = file_bits(file) | (file_bits(file - 1) | file_bits(file + 1));
    let span = match color {
        Color::White => files & rank_bits_from(rank + 1),
        Color::Black => files & !rank_bits_from(rank),
    };
    enemy_pawns.0 & span == 0
}

/// Whether the pawn on `pawn_sq` is isolated.
pub fn is_isolated_pawn(pawn_sq: Square, friendly_pawns: Bitboard) -> (r: bool)
    requires
        pawn_sq.valid(),
    ensures
        r == isolated(pawn_sq, friendly_pawns.0),
{
    let file = pawn_sq.file() as i8;
    friendly_pawns.0 & (file_bits(file - 1) | file_bits(file + 1)) == 0
}

/// Whether the pawn on `pawn_sq` is doubled.
pub fn is_doubled_pawn(pawn_sq: Square, friendly_pawns: Bitboard) -> (r: bool)
    requires
        pawn_sq.valid(),
    ensures
        r == doubled(pawn_sq, friendly_pawns.0),
{
    let file = pawn_sq.file() as i8;
    Bitboard(friendly_pawns.0 & file_bits(file)).count() > 1
}

/// The structure score of the pawns `friendly_pawns` of `color`.
pub fn evaluate_single_color_pawns(friendly_pawns: Bitboard, enemy_pawns: Bitboard, color: Color)
    -> (score: i32)
    ensures
        score == side_pawn_score(friendly_pawns.0, enemy_pawns.0, color),
        -1600 <= score <= 2880,
{
    let ghost all = squares_of(friendly_pawns.0);
    let mut rest = friendly_pawns;
    let mut score: i32 = 0;
    let ghost mut n: int = 0;
    proof {
        crate::bitset::lemma_squares_of_sorted(friendly_pawns.0);
        assert(all.take(0) =~= Seq::<u64>::empty());
        assert(all.skip(0) =~= all);
    }
    while rest.0 != 0
        invariant
            all == squares_of(friendly_pawns.0),
            all.len() <= 64,
            0 <= n <= all.len(),
            squares_of(rest.0) == all.skip(n),
            forall|a: int| 0 <= a < all.len() ==> all[a] < 64,
            score == pawn_scores_over(all.take(n), friendly_pawns.0, enemy_pawns.0, color),
            -25 * n <= score <= 45 * n,
        decreases all.len() - n,
    {
        let ghost before = rest.0;
        let popped = rest.pop_lsb();
        proof {
            crate::bitset::lemma_lowest(before);
            assert(squares_of(rest.0) =~= squares_of(before).skip(1));
            assert(all.skip(n).skip(1) =~= all.skip(n + 1));
            assert(all.skip(n)[0] == all[n]);
        }
        match popped {
            Some(sq) => {
                assert(sq.0 == all[n]);
                if is_doubled_pawn(sq, friendly_pawns) {
                    score = score - 15;
                }
                if is_isolated_pawn(sq, friendly_pawns) {
                    score = score - 10;
                }
                if is_passed_pawn(sq, color, enemy_pawns) {
                    let rank = sq.rank() as i32;
                    let advanced: i32 = match color {
                        Color::White => rank - 1,
                        Color::Black => 6 - rank,
                    };
                    score = score + 10 + advanced * 5;
                }
                proof {
                    assert(all.take(n + 1).drop_last() =~= all.take(n));
                    n = n + 1;
                }
            },
            None => {},
        }
    }
    proof {
        assert(all.take(n) =~= all);
    }
    score
}

/// The pawn-structure balance: white's structure score less black's.
pub fn evaluate_pawn_structure(white_pawns: Bitboard, black_pawns: Bitboard) -> (score: i32)
    ensures
        score == side_pawn_score(white_pawns.0, black_pawns.0, Color::White) - side_pawn_score(
            black_pawns.0,
            white_pawns.0,
            Color::Black,
        ),
        -4480 <= score <= 4480,
{
    let white_score = evaluate_single_color_pawns(white_pawns, black_pawns, Color::White);
    let black_score = evaluate_single_color_pawns(black_pawns, white_pawns, Color::Black);
    white_score - black_score
}

/// Which squares the masks of files and ranks hold.
pub proof fn lemma_mask_members(file: u64, rank: u64, t: u64)
    by (bit_vector)
    requires
        file < 8,
        1 <= rank < 8,
        t < 64,
    ensures
        (0x0101_0101_0101_0101u64 << file) & (1u64 << t) != 0 <==> t % 8 == file,
        (0xFFFF_FFFF_FFFF_FFFFu64 << (8 * rank) as u64) & (1u64 << t) != 0 <==> t / 8 >= rank,
{
}

/// The squares a pawn has to pass are those at most one file away from it
/// on the ranks ahead of it.
pub proof fn lemma_front_span_members(sq: Square, color: Color, t: Square)
    requires
        sq.valid(),
        t.valid(),
    ensures
        is_set(front_span(sq, color), t.idx()) <==> {
            let df = t.spec_file() - sq.spec_file();
            -1 <= df <= 1 && if color == Color::White {
                t.spec_rank() > sq.spec_rank()
            } else {
                t.spec_rank() < sq.spec_rank()
            }
        },
{
    crate::bitset::lemma_bitwise_members();
    let f = sq.spec_file() as int;
    let r = sq.spec_rank() as int;
    if f > 0 {
        lemma_mask_members((f - 1) as u64, 1, t.idx());
    }
    lemma_mask_members(f as u64, 1, t.idx());
    if f < 7 {
        lemma_mask_members((f + 1) as u64, 1, t.idx());
    }
    if color == Color::White {
        if r + 1 < 8 {
            lemma_mask_members(0, (r + 1) as u64, t.idx());
        }
    } else {
        if r >= 1 {
            lemma_mask_members(0, r as u64, t.idx());
        }
    }
}

} // verus!
