//! Pseudo-legal move generation: every move that follows the way the pieces
//! move and lands on no piece of its own side, whether or not it leaves the
//! king attacked.

use crate::attacks::{
    bishop_ray_attacks, king_attack_mask, king_attacks, knight_attack_mask, knight_attacks,
    pawn_attack_mask, pawn_attacks, queen_ray_attacks, rook_ray_attacks,
};
use crate::bitset::{is_set, squares_of};
use crate::magic::{bishop_attacks_magic, queen_attacks_magic, rook_attacks_magic, MagicTables};
use crate::moves::{pack, promotion_bits, Move, MoveList, MoveType, MAX_MOVES};
use crate::position::Position;
use crate::types::{Bitboard, CastleRights, Color, Piece, Square};
use vstd::prelude::*;

verus! {

/// As much of `s` as a move list can hold: its first `MAX_MOVES` items.
pub open spec fn bounded(s: Seq<Move>) -> Seq<Move> {
    if s.len() <= MAX_MOVES {
        s
    } else {
        s.take(MAX_MOVES as int)
    }
}

/// Cutting down early changes nothing: what fits of a list that was cut down
/// and then extended is what fits of the list extended.
pub proof fn lemma_bounded_append(s: Seq<Move>, t: Seq<Move>)
    ensures
        bounded(bounded(s) + t) == bounded(s + t),
        bounded(bounded(s)) == bounded(s),
        bounded(s).len() <= MAX_MOVES,
{
    if s.len() > MAX_MOVES {
        assert((s.take(MAX_MOVES as int) + t).take(MAX_MOVES as int) =~= (s + t).take(
            MAX_MOVES as int,
        ));
    }
    assert(bounded(s) + Seq::<Move>::empty() =~= bounded(s));
}

/// The squares `kind` of `color` on `sq` attacks when `occ` is occupied.
pub open spec fn attack_mask(kind: Piece, color: Color, sq: Square, occ: u64) -> u64 {
    match kind {
        Piece::Pawn => pawn_attack_mask(sq, color),
        Piece::Knight => knight_attack_mask(sq),
        Piece::Bishop => bishop_ray_attacks(sq, occ),
        Piece::Rook => rook_ray_attacks(sq, occ),
        Piece::Queen => queen_ray_attacks(sq, occ),
        Piece::King => king_attack_mask(sq),
    }
}

/// The squares `kind` of `color` on `square` attacks when `occupied` is occupied.
pub fn attacks_from(
    tables: &MagicTables,
    kind: Piece,
    color: Color,
    square: Square,
    occupied: Bitboard,
) -> (bb: Bitboard)
    requires
        tables.wf(),
        square.valid(),
    ensures
        bb.0 == attack_mask(kind, color, square, occupied.0),
{
    match kind {
        Piece::Pawn => pawn_attacks(square, color),
        Piece::Knight => knight_attacks(square),
        Piece::Bishop => bishop_attacks_magic(tables, square, occupied),
        Piece::Rook => rook_attacks_magic(tables, square, occupied),
        Piece::Queen => queen_attacks_magic(tables, square, occupied),
        Piece::King => king_attacks(square),
    }
}

/// The normal moves from `from` to each square of `targets`, lowest first.
pub open spec fn moves_to(from: Square, targets: Seq<u64>) -> Seq<Move> {
    targets.map_values(|t: u64| Move(pack(from, Square(t as u8), MoveType::Normal, 0)))
}

/// The four promotions from `from` to `to`: queen, rook, bishop, knight.
pub open spec fn four_promotions(from: Square, to: Square) -> Seq<Move> {
    seq![
        Move(pack(from, to, MoveType::Promotion, 0)),
        Move(pack(from, to, MoveType::Promotion, 1)),
        Move(pack(from, to, MoveType::Promotion, 2)),
        Move(pack(from, to, MoveType::Promotion, 3)),
    ]
}

/// The four promotions from `from` to each square of `targets` in turn.
pub open spec fn promotions_to(from: Square, targets: Seq<u64>) -> Seq<Move>
    decreases targets.len(),
{
    if targets.len() == 0 {
        Seq::empty()
    } else {
        promotions_to(from, targets.drop_last()) + four_promotions(
            from,
            Square(targets.last() as u8),
        )
    }
}

/// The rank from which a pawn of `color` promotes with its next step.
pub open spec fn promotion_rank(color: Color) -> int {
    if color == Color::White {
        6
    } else {
        1
    }
}

/// The rank on which the pawns of `color` start.
pub open spec fn start_rank(color: Color) -> int {
    if color == Color::White {
        1
    } else {
        6
    }
}

/// The number of the square `steps` ranks ahead of `sq` for `color`.
pub open spec fn ahead(sq: Square, color: Color, steps: int) -> int {
    if color == Color::White {
        sq.0 + 8 * steps
    } else {
        sq.0 - 8 * steps
    }
}

/// The pushes of the pawn of `color` on `sq`: one step when the square ahead
/// is on the board and empty, as four promotions from the promotion rank;
/// and two steps from the start rank when both squares are empty.
pub open spec fn pawn_pushes(sq: Square, occ: u64, color: Color) -> Seq<Move> {
    let one = ahead(sq, color, 1);
    let two = ahead(sq, color, 2);
    if !(0 <= one < 64) || is_set(occ, one as u64) {
        Seq::empty()
    } else {
        let single = if sq.spec_rank() == promotion_rank(color) {
            four_promotions(sq, Square(one as u8))
        } else {
            seq![Move(pack(sq, Square(one as u8), MoveType::Normal, 0))]
        };
        if sq.spec_rank() == start_rank(color) && 0 <= two < 64 && !is_set(occ, two as u64) {
            single.push(Move(pack(sq, Square(two as u8), MoveType::Normal, 0)))
        } else {
            single
        }
    }
}

/// The captures of the pawn of `color` on `sq`: to each attacked square
/// that holds an enemy, as four promotions from the promotion rank.
pub open spec fn pawn_captures(sq: Square, enemies: u64, color: Color) -> Seq<Move> {
    let targets = squares_of(pawn_attack_mask(sq, color) & enemies);
    if sq.spec_rank() == promotion_rank(color) {
        promotions_to(sq, targets)
    } else {
        moves_to(sq, targets)
    }
}

/// The en-passant capture of the pawn of `color` on `sq`, when the target
/// is a square that the pawn attacks.
pub open spec fn pawn_en_passant(sq: Square, color: Color, en_passant: Option<Square>) -> Seq<
    Move,
> {
    match en_passant {
        Some(target) => if target.valid() && is_set(pawn_attack_mask(sq, color), target.idx()) {
            seq![Move(pack(sq, target, MoveType::EnPassant, 0))]
        } else {
            Seq::empty()
        },
        None => Seq::empty(),
    }
}

/// All the moves of the pawn of `color` on `sq`: pushes, captures, en passant.
pub open spec fn pawn_moves_from(
    sq: Square,
    occ: u64,
    enemies: u64,
    color: Color,
    en_passant: Option<Square>,
) -> Seq<Move> {
    pawn_pushes(sq, occ, color) + pawn_captures(sq, enemies, color) + pawn_en_passant(
        sq,
        color,
        en_passant,
    )
}

/// The moves of the pawns on `squares`, pawn by pawn.
pub open spec fn pawn_moves_over(
    squares: Seq<u64>,
    occ: u64,
    enemies: u64,
    color: Color,
    en_passant: Option<Square>,
) -> Seq<Move>
    decreases squares.len(),
{
    if squares.len() == 0 {
        Seq::empty()
    } else {
        pawn_moves_over(squares.drop_last(), occ, enemies, color, en_passant) + pawn_moves_from(
            Square(squares.last() as u8),
            occ,
            enemies,
            color,
            en_passant,
        )
    }
}

/// The pseudo-legal moves of the pawns `pawns` of `color`, lowest pawn first.
pub open spec fn pawn_moves(
    pawns: u64,
    occ: u64,
    enemies: u64,
    color: Color,
    en_passant: Option<Square>,
) -> Seq<Move> {
    pawn_moves_over(squares_of(pawns), occ, enemies, color, en_passant)
}

/// The moves of a piece of `kind` on `sq`: to every square it attacks that
/// holds no piece of its own side. The pieces of its own side are those of
/// `occ` that are not in `enemies`.
pub open spec fn piece_moves_from(kind: Piece, sq: Square, occ: u64, enemies: u64) -> Seq<Move> {
    moves_to(sq, squares_of(attack_mask(kind, Color::White, sq, occ) & !(occ & !enemies)))
}

/// The moves of the pieces of `kind` on `squares`, piece by piece.
pub open spec fn piece_moves_over(kind: Piece, squares: Seq<u64>, occ: u64, enemies: u64) -> Seq<
    Move,
>
    decreases squares.len(),
{
    if squares.len() == 0 {
        Seq::empty()
    } else {
        piece_moves_over(kind, squares.drop_last(), occ, enemies) + piece_moves_from(
            kind,
            Square(squares.last() as u8),
            occ,
            enemies,
        )
    }
}

/// The pseudo-legal moves of the pieces `pieces` of `kind`, which is not a
/// pawn, lowest piece first.
pub open spec fn piece_moves(kind: Piece, pieces: u64, occ: u64, enemies: u64) -> Seq<Move> {
    piece_moves_over(kind, squares_of(pieces), occ, enemies)
}

/// Adds `mv` to `moves` if there is room.
fn append(moves: &mut MoveList, mv: Move, Ghost(base): Ghost<Seq<Move>>)
    requires
        old(moves)@ == bounded(base),
    ensures
        final(moves)@ == bounded(base.push(mv)),
{
    let n = moves.len();
    let ok = moves.try_push(mv);
    proof {
        if base.len() > MAX_MOVES {
            assert(base.take(MAX_MOVES as int) =~= base.push(mv).take(MAX_MOVES as int));
        } else if base.len() == MAX_MOVES {
            assert(base =~= base.push(mv).take(MAX_MOVES as int));
        }
    }
}

/// Adds the normal moves from `from` to each square of `targets`.
fn add_moves_to(moves: &mut MoveList, from: Square, targets: Bitboard, Ghost(base): Ghost<Seq<Move>>)
    requires
        from.valid(),
        old(moves)@ == bounded(base),
    ensures
        final(moves)@ == bounded(base + moves_to(from, squares_of(targets.0))),
{
    let ghost all = squares_of(targets.0);
    let mut rest = targets;
    let ghost mut n: int = 0;
    proof {
        crate::bitset::lemma_squares_of_sorted(targets.0);
        assert(all.take(0) =~= Seq::<u64>::empty());
        assert(base + moves_to(from, all.take(0)) =~= base);
        assert(all.skip(0) =~= all);
    }
    while rest.0 != 0
        invariant
            from.valid(),
            all == squares_of(targets.0),
            0 <= n <= all.len(),
            squares_of(rest.0) == all.skip(n),
            forall|a: int| 0 <= a < all.len() ==> all[a] < 64,
            moves@ == bounded(base + moves_to(from, all.take(n))),
        decreases all.len() - n,
    {
        let ghost before = rest.0;
        let popped = rest.pop_lsb();
        proof {
            crate::bitset::lemma_lowest(before);
            assert(squares_of(before).len() > 0);
            assert(squares_of(rest.0) =~= squares_of(before).skip(1));
            assert(all.skip(n).skip(1) =~= all.skip(n + 1));
            assert(all.skip(n)[0] == all[n]);
        }
        match popped {
            Some(to) => {
                assert(to.0 == all[n]);
                let mv = Move::new(from, to);
                append(moves, mv, Ghost(base + moves_to(from, all.take(n))));
                proof {
                    assert(all.take(n + 1) =~= all.take(n).push(all[n]));
                    assert((base + moves_to(from, all.take(n))).push(mv) =~= base + moves_to(
                        from,
                        all.take(n + 1),
                    ));
                    n = n + 1;
                }
            },
            None => {},
        }
    }
    proof {
        assert(all.skip(n).len() == 0);
        assert(all.take(n) =~= all);
    }
}

/// Adds the four promotions from `from` to `to`.
fn add_promotions(moves: &mut MoveList, from: Square, to: Square, Ghost(base): Ghost<Seq<Move>>)
    requires
        from.valid(),
        to.valid(),
        old(moves)@ == bounded(base),
    ensures
        final(moves)@ == bounded(base + four_promotions(from, to)),
{
    let q = Move::promotion(from, to, Piece::Queen);
    let r = Move::promotion(from, to, Piece::Rook);
    let b = Move::promotion(from, to, Piece::Bishop);
    let n = Move::promotion(from, to, Piece::Knight);
    append(moves, q, Ghost(base));
    append(moves, r, Ghost(base.push(q)));
    append(moves, b, Ghost(base.push(q).push(r)));
    append(moves, n, Ghost(base.push(q).push(r).push(b)));
    assert(base.push(q).push(r).push(b).push(n) =~= base + four_promotions(from, to));
}

/// Adds the four promotions from `from` to each square of `targets`.
fn add_promotions_to(
    moves: &mut MoveList,
    from: Square,
    targets: Bitboard,
    Ghost(base): Ghost<Seq<Move>>,
)
    requires
        from.valid(),
        old(moves)@ == bounded(base),
    ensures
        final(moves)@ == bounded(base + promotions_to(from, squares_of(targets.0))),
{
    let ghost all = squares_of(targets.0);
    let mut rest = targets;
    let ghost mut n: int = 0;
    proof {
        crate::bitset::lemma_squares_of_sorted(targets.0);
        assert(all.take(0) =~= Seq::<u64>::empty());
        assert(base + promotions_to(from, all.take(0)) =~= base);
        assert(all.skip(0) =~= all);
    }
    while rest.0 != 0
        invariant
            from.valid(),
            all == squares_of(targets.0),
            0 <= n <= all.len(),
            squares_of(rest.0) == all.skip(n),
            forall|a: int| 0 <= a < all.len() ==> all[a] < 64,
            moves@ == bounded(base + promotions_to(from, all.take(n))),
        decreases all.len() - n,
    {
        let ghost before = rest.0;
        let popped = rest.pop_lsb();
        proof {
            crate::bitset::lemma_lowest(before);
            assert(squares_of(rest.0) =~= squares_of(before).skip(1));
            assert(all.skip(n).skip(1) =~= all.skip(n + 1));
            assert(all.skip(n)[0] == all[n]);
        }
        match popped {
            Some(to) => {
                assert(to.0 == all[n]);
                add_promotions(moves, from, to, Ghost(base + promotions_to(from, all.take(n))));
                proof {
                    assert(all.take(n + 1).drop_last() =~= all.take(n));
                    assert((base + promotions_to(from, all.take(n))) + four_promotions(from, to)
                        =~= base + promotions_to(from, all.take(n + 1)));
                    n = n + 1;
                }
            },
            None => {},
        }
    }
    proof {
        assert(all.take(n) =~= all);
    }
}

/// Adds the moves of the pawn of `color` on `sq`.
fn add_pawn_moves_from(
    moves: &mut MoveList,
    sq: Square,
    occupied: Bitboard,
    enemies: Bitboard,
    color: Color,
    en_passant: Option<Square>,
    Ghost(base): Ghost<Seq<Move>>,
)
    requires
        sq.valid(),
        old(moves)@ == bounded(base),
    ensures
        final(moves)@ == bounded(
            base + pawn_moves_from(sq, occupied.0, enemies.0, color, en_passant),
        ),
{
    let rank = sq.rank();
    let (step, start, last): (i16, u8, u8) = match color {
        Color::White => (8, 1, 6),
        Color::Black => (-8, 6, 1),
    };
    let one: i16 = sq.0 as i16 + step;
    let two: i16 = sq.0 as i16 + 2 * step;
    assert(one == ahead(sq, color, 1) && two == ahead(sq, color, 2));
    let ghost pushes = pawn_pushes(sq, occupied.0, color);
    if 0 <= one && one < 64 && !occupied.is_occupied(Square(one as u8)) {
        let to = Square(one as u8);
        let ghost single;
        if rank == last {
            add_promotions(moves, sq, to, Ghost(base));
            proof {
                single = four_promotions(sq, to);
            }
        } else {
            let mv = Move::new(sq, to);
            append(moves, mv, Ghost(base));
            proof {
                single = seq![mv];
                assert(base.push(mv) =~= base + single);
            }
        }
        if rank == start && 0 <= two && two < 64 && !occupied.is_occupied(Square(two as u8)) {
            let mv = Move::new(sq, Square(two as u8));
            append(moves, mv, Ghost(base + single));
            assert((base + single).push(mv) =~= base + pushes);
        }
    } else {
        assert(base + pushes =~= base);
    }
    let targets = Bitboard(pawn_attacks(sq, color).0 & enemies.0);
    let ghost captures = pawn_captures(sq, enemies.0, color);
    if rank == last {
        add_promotions_to(moves, sq, targets, Ghost(base + pushes));
    } else {
        add_moves_to(moves, sq, targets, Ghost(base + pushes));
    }
    let ghost passing = pawn_en_passant(sq, color, en_passant);
    match en_passant {
        Some(target) => {
            if target.0 < 64 && pawn_attacks(sq, color).is_occupied(target) {
                let mv = Move::en_passant(sq, target);
                append(moves, mv, Ghost(base + pushes + captures));
                assert((base + pushes + captures).push(mv) =~= base + pushes + captures
                    + passing);
            } else {
                assert(base + pushes + captures + passing =~= base + pushes + captures);
            }
        },
        None => {
            assert(base + pushes + captures + passing =~= base + pushes + captures);
        },
    }
    assert(base + pushes + captures + passing =~= base + pawn_moves_from(
        sq,
        occupied.0,
        enemies.0,
        color,
        en_passant,
    ));
}

/// Adds the pseudo-legal moves of the pawns `pawns` of `color` to `moves`,
/// as far as there is room.
pub fn generate_pawn_moves(
    moves: &mut MoveList,
    pawns: Bitboard,
    occupied: Bitboard,
    enemies: Bitboard,
    color: Color,
    en_passant: Option<Square>,
)
    ensures
        final(moves)@ == bounded(
            old(moves)@ + pawn_moves(pawns.0, occupied.0, enemies.0, color, en_passant),
        ),
{
    let held = moves.len();
    let ghost base = moves@;
    let ghost all = squares_of(pawns.0);
    let mut rest = pawns;
    let ghost mut n: int = 0;
    proof {
        crate::bitset::lemma_squares_of_sorted(pawns.0);
        assert(all.take(0) =~= Seq::<u64>::empty());
        assert(base + pawn_moves_over(all.take(0), occupied.0, enemies.0, color, en_passant)
            =~= base);
        assert(all.skip(0) =~= all);
    }
    while rest.0 != 0
        invariant
            all == squares_of(pawns.0),
            0 <= n <= all.len(),
            squares_of(rest.0) == all.skip(n),
            forall|a: int| 0 <= a < all.len() ==> all[a] < 64,
            moves@ == bounded(
                base + pawn_moves_over(all.take(n), occupied.0, enemies.0, color, en_passant),
            ),
        decreases all.len() - n,
    {
        let ghost before = rest.0;
        let popped = rest.pop_lsb();
        proof {
            crate::bitset::lemma_lowest(before);
            assert(squares_of(rest.0) =~= squares_of(before).skip(1));
            assert(all.skip(n).skip(1) =~= all.skip(n + 1));
            assert(all.skip(n)[0] == all[n]);
        }
        match popped {
            Some(sq) => {
                assert(sq.0 == all[n]);
                let ghost sofar = pawn_moves_over(
                    all.take(n),
                    occupied.0,
                    enemies.0,
                    color,
                    en_passant,
                );
                add_pawn_moves_from(
                    moves,
                    sq,
                    occupied,
                    enemies,
                    color,
                    en_passant,
                    Ghost(base + sofar),
                );
                proof {
                    assert(all.take(n + 1).drop_last() =~= all.take(n));
                    assert((base + sofar) + pawn_moves_from(
                        sq,
                        occupied.0,
                        enemies.0,
                        color,
                        en_passant,
                    ) =~= base + pawn_moves_over(
                        all.take(n + 1),
                        occupied.0,
                        enemies.0,
                        color,
                        en_passant,
                    ));
                    n = n + 1;
                }
            },
            None => {},
        }
    }
    proof {
        assert(all.take(n) =~= all);
    }
}

/// Whether the attacks of `kind` are looked up in the sliding tables.
pub open spec fn slides(kind: Piece) -> bool {
    kind == Piece::Bishop || kind == Piece::Rook || kind == Piece::Queen
}

/// The squares `kind` on `square` attacks; the tables are needed for the
/// sliding kinds only.
fn attacks_with(tables: Option<&MagicTables>, kind: Piece, square: Square, occupied: Bitboard) -> (bb:
    Bitboard)
    requires
        square.valid(),
        slides(kind) ==> tables.is_some() && tables.unwrap().wf(),
    ensures
        bb.0 == attack_mask(kind, Color::White, square, occupied.0),
{
    match kind {
        Piece::Pawn => pawn_attacks(square, Color::White),
        Piece::Knight => knight_attacks(square),
        Piece::King => king_attacks(square),
        _ => match tables {
            Some(t) => attacks_from(t, kind, Color::White, square, occupied),
            None => Bitboard(0),
        },
    }
}

/// Adds the moves of the pieces `pieces` of `kind`.
fn add_piece_moves(
    moves: &mut MoveList,
    tables: Option<&MagicTables>,
    kind: Piece,
    pieces: Bitboard,
    occupied: Bitboard,
    enemies: Bitboard,
)
    requires
        slides(kind) ==> tables.is_some() && tables.unwrap().wf(),
    ensures
        final(moves)@ == bounded(
            old(moves)@ + piece_moves(kind, pieces.0, occupied.0, enemies.0),
        ),
{
    let held = moves.len();
    let ghost base = moves@;
    let ghost all = squares_of(pieces.0);
    let friends: u64 = occupied.0 & !enemies.0;
    let mut rest = pieces;
    let ghost mut n: int = 0;
    proof {
        crate::bitset::lemma_squares_of_sorted(pieces.0);
        assert(all.take(0) =~= Seq::<u64>::empty());
        assert(base + piece_moves_over(kind, all.take(0), occupied.0, enemies.0) =~= base);
        assert(all.skip(0) =~= all);
    }
    while rest.0 != 0
        invariant
            slides(kind) ==> tables.is_some() && tables.unwrap().wf(),
            all == squares_of(pieces.0),
            friends == occupied.0 & !enemies.0,
            0 <= n <= all.len(),
            squares_of(rest.0) == all.skip(n),
            forall|a: int| 0 <= a < all.len() ==> all[a] < 64,
            moves@ == bounded(base + piece_moves_over(kind, all.take(n), occupied.0, enemies.0)),
        decreases all.len() - n,
    {
        let ghost before = rest.0;
        let popped = rest.pop_lsb();
        proof {
            crate::bitset::lemma_lowest(before);
            assert(squares_of(rest.0) =~= squares_of(before).skip(1));
            assert(all.skip(n).skip(1) =~= all.skip(n + 1));
            assert(all.skip(n)[0] == all[n]);
        }
        match popped {
            Some(sq) => {
                assert(sq.0 == all[n]);
                let ghost sofar = piece_moves_over(kind, all.take(n), occupied.0, enemies.0);
                let targets = Bitboard(attacks_with(tables, kind, sq, occupied).0 & !friends);
                add_moves_to(moves, sq, targets, Ghost(base + sofar));
                proof {
                    assert(all.take(n + 1).drop_last() =~= all.take(n));
                    assert((base + sofar) + piece_moves_from(kind, sq, occupied.0, enemies.0)
                        =~= base + piece_moves_over(
                        kind,
                        all.take(n + 1),
                        occupied.0,
                        enemies.0,
                    ));
                    n = n + 1;
                }
            },
            None => {},
        }
    }
    proof {
        assert(all.take(n) =~= all);
    }
}

/// Adds the pseudo-legal moves of the knights `knights` to `moves`, as far
/// as there is room.
pub fn generate_knight_moves(
    moves: &mut MoveList,
    knights: Bitboard,
    occupied: Bitboard,
    enemies: Bitboard,
)
    ensures
        final(moves)@ == bounded(
            old(moves)@ + piece_moves(Piece::Knight, knights.0, occupied.0, enemies.0),
        ),
{
    add_piece_moves(moves, None, Piece::Knight, knights, occupied, enemies);
}

/// Adds the pseudo-legal moves of the bishops `bishops` to `moves`, as far
/// as there is room.
pub fn generate_bishop_moves(
    moves: &mut MoveList,
    tables: &MagicTables,
    bishops: Bitboard,
    occupied: Bitboard,
    enemies: Bitboard,
)
    requires
        tables.wf(),
    ensures
        final(moves)@ == bounded(
            old(moves)@ + piece_moves(Piece::Bishop, bishops.0, occupied.0, enemies.0),
        ),
{
    add_piece_moves(moves, Some(tables), Piece::Bishop, bishops, occupied, enemies);
}

/// Adds the pseudo-legal moves of the rooks `rooks` to `moves`, as far as
/// there is room.
pub fn generate_rook_moves(
    moves: &mut MoveList,
    tables: &MagicTables,
    rooks: Bitboard,
    occupied: Bitboard,
    enemies: Bitboard,
)
    requires
        tables.wf(),
    ensures
        final(moves)@ == bounded(
            old(moves)@ + piece_moves(Piece::Rook, rooks.0, occupied.0, enemies.0),
        ),
{
    add_piece_moves(moves, Some(tables), Piece::Rook, rooks, occupied, enemies);
}

/// Adds the pseudo-legal moves of the queens `queens` to `moves`, as far as
/// there is room.
pub fn generate_queen_moves(
    moves: &mut MoveList,
    tables: &MagicTables,
    queens: Bitboard,
    occupied: Bitboard,
    enemies: Bitboard,
)
    requires
        tables.wf(),
    ensures
        final(moves)@ == bounded(
            old(moves)@ + piece_moves(Piece::Queen, queens.0, occupied.0, enemies.0),
        ),
{
    add_piece_moves(moves, Some(tables), Piece::Queen, queens, occupied, enemies);
}

/// Adds the pseudo-legal moves of the king on `king_sq` to `moves`, as far
/// as there is room.
pub fn generate_king_moves(
    moves: &mut MoveList,
    king_sq: Square,
    occupied: Bitboard,
    enemies: Bitboard,
)
    requires
        king_sq.valid(),
    ensures
        final(moves)@ == bounded(
            old(moves)@ + piece_moves_from(Piece::King, king_sq, occupied.0, enemies.0),
        ),
{
    let held = moves.len();
    let friends: u64 = occupied.0 & !enemies.0;
    let targets = Bitboard(king_attacks(king_sq).0 & !friends);
    add_moves_to(moves, king_sq, targets, Ghost(moves@));
}

/// The squares between king and rook on the wing of `color` that `kingside`
/// names: f and g, or b, c and d, on the side's first rank.
pub open spec fn castle_path(color: Color, kingside: bool) -> u64 {
    let path: u64 = if kingside {
        0x60
    } else {
        0x0E
    };
    if color == Color::White {
        path
    } else {
        path << 56
    }
}

/// The flag of the castle right of `color` on the wing that `kingside` names.
pub open spec fn castle_flag(color: Color, kingside: bool) -> u8 {
    match (color, kingside) {
        (Color::White, true) => 1,
        (Color::White, false) => 2,
        (Color::Black, true) => 4,
        (Color::Black, false) => 8,
    }
}

/// The square where the king of `color` lands when it castles on the wing
/// that `kingside` names: g or c on the side's first rank.
pub open spec fn castle_target(color: Color, kingside: bool) -> Square {
    match (color, kingside) {
        (Color::White, true) => Square(Square::G1),
        (Color::White, false) => Square(Square::C1),
        (Color::Black, true) => Square(Square::G8),
        (Color::Black, false) => Square(Square::C8),
    }
}

/// The castling move of `color` on one wing, when the right is held and the
/// squares between king and rook are empty.
pub open spec fn castling_on(
    king_sq: Square,
    rights: CastleRights,
    occ: u64,
    color: Color,
    kingside: bool,
) -> Seq<Move> {
    if rights.0 & castle_flag(color, kingside) != 0 && occ & castle_path(color, kingside) == 0 {
        seq![Move(pack(king_sq, castle_target(color, kingside), MoveType::Castling, 0))]
    } else {
        Seq::empty()
    }
}

/// The castling moves of `color`: kingside first, then queenside.
pub open spec fn castling_moves(king_sq: Square, rights: CastleRights, occ: u64, color: Color)
    -> Seq<Move> {
    castling_on(king_sq, rights, occ, color, true) + castling_on(
        king_sq,
        rights,
        occ,
        color,
        false,
    )
}

/// Adds the castling move of `color` on one wing.
fn add_castling_on(
    moves: &mut MoveList,
    king_sq: Square,
    castle_rights: CastleRights,
    occupied: Bitboard,
    color: Color,
    kingside: bool,
    Ghost(base): Ghost<Seq<Move>>,
)
    requires
        king_sq.valid(),
        old(moves)@ == bounded(base),
    ensures
        final(moves)@ == bounded(
            base + castling_on(king_sq, castle_rights, occupied.0, color, kingside),
        ),
{
    let (flag, target): (u8, u8) = match (color, kingside) {
        (Color::White, true) => (CastleRights::WHITE_KING, Square::G1),
        (Color::White, false) => (CastleRights::WHITE_QUEEN, Square::C1),
        (Color::Black, true) => (CastleRights::BLACK_KING, Square::G8),
        (Color::Black, false) => (CastleRights::BLACK_QUEEN, Square::C8),
    };
    let near: u64 = if kingside {
        0x60
    } else {
        0x0E
    };
    let path: u64 = match color {
        Color::White => near,
        Color::Black => near << 56,
    };
    if castle_rights.has(CastleRights(flag)) && occupied.0 & path == 0 {
        let mv = Move::castling(king_sq, Square(target));
        append(moves, mv, Ghost(base));
        assert(base.push(mv) =~= base + castling_on(
            king_sq,
            castle_rights,
            occupied.0,
            color,
            kingside,
        ));
    } else {
        assert(base + castling_on(king_sq, castle_rights, occupied.0, color, kingside) =~= base);
    }
}

/// Adds the castling moves of the king of `color` on `king_sq` to `moves`,
/// as far as there is room: on each wing where the right is held and the
/// squares between king and rook are empty. Whether the king crosses an
/// attacked square is for the legality filter to say.
pub fn generate_castling_moves(
    moves: &mut MoveList,
    king_sq: Square,
    castle_rights: CastleRights,
    occupied: Bitboard,
    color: Color,
)
    requires
        king_sq.valid(),
    ensures
        final(moves)@ == bounded(
            old(moves)@ + castling_moves(king_sq, castle_rights, occupied.0, color),
        ),
{
    let held = moves.len();
    let ghost base = moves@;
    add_castling_on(moves, king_sq, castle_rights, occupied, color, true, Ghost(base));
    add_castling_on(
        moves,
        king_sq,
        castle_rights,
        occupied,
        color,
        false,
        Ghost(base + castling_on(king_sq, castle_rights, occupied.0, color, true)),
    );
    assert(base + castling_on(king_sq, castle_rights, occupied.0, color, true) + castling_on(
        king_sq,
        castle_rights,
        occupied.0,
        color,
        false,
    ) =~= base + castling_moves(king_sq, castle_rights, occupied.0, color));
}

/// The castling moves of the side to move, from the square of its king; none
/// when it has no king.
pub open spec fn castling_of(pos: Position) -> Seq<Move> {
    let us = pos.side_to_move;
    if pos.layer(Piece::King, us) == 0 {
        Seq::empty()
    } else {
        castling_moves(
            Square(crate::bitset::lowest(pos.layer(Piece::King, us)) as u8),
            pos.castling_rights,
            pos.occupied(),
            us,
        )
    }
}

/// Every pseudo-legal move of the side to move in `pos`: those of the
/// pawns, knights, bishops, rooks, queens and kings in this order, then
/// castling.
#[verifier::opaque]
pub open spec fn pseudo_legal(pos: Position) -> Seq<Move> {
    let us = pos.side_to_move;
    let occ = pos.occupied();
    let enemies = pos.occupancy(us.spec_opposite());
    pawn_moves(pos.layer(Piece::Pawn, us), occ, enemies, us, pos.en_passant) + piece_moves(
        Piece::Knight,
        pos.layer(Piece::Knight, us),
        occ,
        enemies,
    ) + piece_moves(Piece::Bishop, pos.layer(Piece::Bishop, us), occ, enemies) + piece_moves(
        Piece::Rook,
        pos.layer(Piece::Rook, us),
        occ,
        enemies,
    ) + piece_moves(Piece::Queen, pos.layer(Piece::Queen, us), occ, enemies) + piece_moves(
        Piece::King,
        pos.layer(Piece::King, us),
        occ,
        enemies,
    ) + castling_of(pos)
}

/// The pseudo-legal moves of the side to move in `position`, as far as the
/// list has room.
pub fn generate_moves(tables: &MagicTables, position: &Position) -> (moves: MoveList)
    requires
        tables.wf(),
    ensures
        moves@ == bounded(pseudo_legal(*position)),
{
    reveal(pseudo_legal);
    let us = position.side_to_move;
    let occupied = position.all_occupied();
    let enemies = position.occupancy_of(us.opposite());
    let mut moves = MoveList::new();
    let ghost a = pawn_moves(
        position.layer(Piece::Pawn, us),
        occupied.0,
        enemies.0,
        us,
        position.en_passant,
    );
    let ghost b = piece_moves(Piece::Knight, position.layer(Piece::Knight, us), occupied.0, enemies.0);
    let ghost c = piece_moves(Piece::Bishop, position.layer(Piece::Bishop, us), occupied.0, enemies.0);
    let ghost d = piece_moves(Piece::Rook, position.layer(Piece::Rook, us), occupied.0, enemies.0);
    let ghost e = piece_moves(Piece::Queen, position.layer(Piece::Queen, us), occupied.0, enemies.0);
    let ghost f = piece_moves(Piece::King, position.layer(Piece::King, us), occupied.0, enemies.0);
    let ghost g = castling_of(*position);
    let ghost none = Seq::<Move>::empty();
    generate_pawn_moves(
        &mut moves,
        position.piece_bb(Piece::Pawn, us),
        occupied,
        enemies,
        us,
        position.en_passant,
    );
    assert(none + a =~= a);
    generate_knight_moves(&mut moves, position.piece_bb(Piece::Knight, us), occupied, enemies);
    proof {
        lemma_bounded_append(a, b);
    }
    generate_bishop_moves(
        &mut moves,
        tables,
        position.piece_bb(Piece::Bishop, us),
        occupied,
        enemies,
    );
    proof {
        lemma_bounded_append(a + b, c);
    }
    generate_rook_moves(&mut moves, tables, position.piece_bb(Piece::Rook, us), occupied, enemies);
    proof {
        lemma_bounded_append(a + b + c, d);
    }
    generate_queen_moves(
        &mut moves,
        tables,
        position.piece_bb(Piece::Queen, us),
        occupied,
        enemies,
    );
    proof {
        lemma_bounded_append(a + b + c + d, e);
    }
    add_piece_moves(
        &mut moves,
        None,
        Piece::King,
        position.piece_bb(Piece::King, us),
        occupied,
        enemies,
    );
    proof {
        lemma_bounded_append(a + b + c + d + e, f);
    }
    match position.piece_bb(Piece::King, us).lsb() {
        Some(king_sq) => {
            generate_castling_moves(&mut moves, king_sq, position.castling_rights, occupied, us);
        },
        None => {
            proof {
                lemma_bounded_append(a + b + c + d + e + f, none);
            }
            assert(a + b + c + d + e + f + none =~= a + b + c + d + e + f);
        },
    }
    proof {
        lemma_bounded_append(a + b + c + d + e + f, g);
    }
    moves
}

} // verus!
