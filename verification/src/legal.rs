//! The legality filter: a pseudo-legal move is legal when it does not leave
//! the mover's king attacked, and castling when besides the king neither
//! stands on, crosses nor lands on an attacked square.

use crate::bitset::{is_set, lowest, squares_of};
use crate::generator::{attack_mask, attacks_from};
use crate::magic::MagicTables;
use crate::moves::{Move, MoveList, MoveType};
use crate::position::Position;
use crate::types::{Bitboard, Color, Piece, Square};
use vstd::prelude::*;

verus! {

/// The squares that the pieces of `kind` and `color` on `squares` attack together.
pub open spec fn attacks_over(kind: Piece, color: Color, squares: Seq<u64>, occ: u64) -> u64
    decreases squares.len(),
{
    if squares.len() == 0 {
        0
    } else {
        attacks_over(kind, color, squares.drop_last(), occ) | attack_mask(
            kind,
            color,
            Square(squares.last() as u8),
            occ,
        )
    }
}

/// The squares that the pieces of `kind` and `color` attack in `pos`.
pub open spec fn attacks_of_kind(pos: Position, kind: Piece, color: Color) -> u64 {
    attacks_over(kind, color, squares_of(pos.layer(kind, color)), pos.occupied())
}

/// The squares that `color` attacks in `pos`: the union of what each of its
/// pieces attacks with the occupancy as it is.
pub open spec fn attacked_by(pos: Position, color: Color) -> u64 {
    attacks_of_kind(pos, Piece::Pawn, color) | attacks_of_kind(pos, Piece::Knight, color)
        | attacks_of_kind(pos, Piece::Bishop, color) | attacks_of_kind(pos, Piece::Rook, color)
        | attacks_of_kind(pos, Piece::Queen, color) | attacks_of_kind(pos, Piece::King, color)
}

/// Whether the king of `color` is attacked in `pos`. A side without a king
/// is not in check.
pub open spec fn in_check(pos: Position, color: Color) -> bool {
    pos.layer(Piece::King, color) != 0 && is_set(
        attacked_by(pos, color.spec_opposite()),
        lowest(pos.layer(Piece::King, color)),
    )
}

/// The square that the king crosses in the castling move `mv`: the one
/// midway between origin and destination.
pub open spec fn castle_transit(mv: Move) -> Square {
    Square(((mv.spec_from().0 + mv.spec_to().0) / 2) as u8)
}

/// Whether the king may castle by `mv`: the enemy attacks neither the
/// origin, nor the square crossed, nor the destination, as the pieces stand
/// before the move.
pub open spec fn castle_path_safe(pos: Position, mv: Move) -> bool {
    let attacked = attacked_by(pos, pos.side_to_move.spec_opposite());
    !is_set(attacked, mv.spec_from().idx()) && !is_set(attacked, castle_transit(mv).idx())
        && !is_set(attacked, mv.spec_to().idx())
}

/// Whether `mv` leaves the mover's king unattacked.
pub open spec fn king_safe_after(pos: Position, mv: Move) -> bool {
    !in_check(pos.after(mv), pos.side_to_move)
}

/// Whether `mv` is legal in `pos`, given that it is pseudo-legal: the side
/// to move has a piece on the origin, the move leaves its king unattacked,
/// and a castling move has a safe path.
#[verifier::opaque]
pub open spec fn is_legal(pos: Position, mv: Move) -> bool {
    pos.moving_piece(mv).is_some() && king_safe_after(pos, mv) && (mv.spec_move_type()
        == MoveType::Castling ==> castle_path_safe(pos, mv))
}

/// The squares that the pieces of `kind` and `color` attack.
fn kind_attacks(tables: &MagicTables, position: &Position, kind: Piece, color: Color) -> (bb:
    Bitboard)
    requires
        tables.wf(),
    ensures
        bb.0 == attacks_of_kind(*position, kind, color),
{
    let occupied = position.all_occupied();
    let pieces = position.piece_bb(kind, color);
    let ghost all = squares_of(pieces.0);
    let mut rest = pieces;
    let mut attacked: u64 = 0;
    let ghost mut n: int = 0;
    proof {
        crate::bitset::lemma_squares_of_sorted(pieces.0);
        assert(all.take(0) =~= Seq::<u64>::empty());
        assert(all.skip(0) =~= all);
    }
    while rest.0 != 0
        invariant
            tables.wf(),
            all == squares_of(pieces.0),
            0 <= n <= all.len(),
            squares_of(rest.0) == all.skip(n),
            forall|a: int| 0 <= a < all.len() ==> all[a] < 64,
            attacked == attacks_over(kind, color, all.take(n), occupied.0),
        decreases all.len() - n,
    {
        let ghost before = rest.0;
        let popped = rest.pop_lsb();
        proof {
            crate::bitset::lemma_lowest(before);
            assert(squares_of(rest.0) =~= squares_of(before).skip(1));
            assert(all.skip(n).skip(1) =~= all.skip(n + 1));
            assert(all.skip(n)[0] == all[n]);
        }
        match popped {
            Some(sq) => {
                assert(sq.0 == all[n]);
                attacked = attacked | attacks_from(tables, kind, color, sq, occupied).0;
                proof {
                    assert(all.take(n + 1).drop_last() =~= all.take(n));
                    n = n + 1;
                }
            },
            None => {},
        }
    }
    proof {
        assert(all.take(n) =~= all);
    }
    Bitboard(attacked)
}

/// The squares that `enemy_color` attacks in `position`.
pub fn compute_enemy_attacks(tables: &MagicTables, position: &Position, enemy_color: Color) -> (bb:
    Bitboard)
    requires
        tables.wf(),
    ensures
        bb.0 == attacked_by(*position, enemy_color),
{
    Bitboard(
        kind_attacks(tables, position, Piece::Pawn, enemy_color).0 | kind_attacks(
            tables,
            position,
            Piece::Knight,
            enemy_color,
        ).0 | kind_attacks(tables, position, Piece::Bishop, enemy_color).0 | kind_attacks(
            tables,
            position,
            Piece::Rook,
            enemy_color,
        ).0 | kind_attacks(tables, position, Piece::Queen, enemy_color).0 | kind_attacks(
            tables,
            position,
            Piece::King,
            enemy_color,
        ).0,
    )
}

/// Whether the king of `color` is attacked in `position`.
pub fn king_in_check(tables: &MagicTables, position: &Position, color: Color) -> (r: bool)
    requires
        tables.wf(),
    ensures
        r == in_check(*position, color),
{
    match position.piece_bb(Piece::King, color).lsb() {
        None => false,
        Some(king_square) => {
            let enemy_attacks = compute_enemy_attacks(tables, position, color.opposite());
            is_in_check(king_square, enemy_attacks)
        },
    }
}

/// Whether the castling move `mv` has a safe path in `position`.
pub fn is_legal_castling(tables: &MagicTables, mv: Move, position: &Position) -> (r: bool)
    requires
        tables.wf(),
    ensures
        r == castle_path_safe(*position, mv),
{
    let from = mv.from();
    let to = mv.to();
    let transit = Square((from.0 + to.0) / 2);
    let enemy_attacks = compute_enemy_attacks(tables, position, position.side_to_move.opposite());
    !enemy_attacks.is_occupied(from) && !enemy_attacks.is_occupied(transit)
        && !enemy_attacks.is_occupied(to)
}

/// Plays `mv` on a copy of `position` and says whether the mover's king is
/// unattacked afterwards. False when the side to move has no piece on the
/// origin.
pub fn simulate_move_and_check_king(tables: &MagicTables, mv: Move, position: &Position) -> (r:
    bool)
    requires
        tables.wf(),
        position.hash_consistent(),
    ensures
        r == (position.moving_piece(mv).is_some() && king_safe_after(*position, mv)),
{
    match position.play(mv) {
        None => false,
        Some(next) => !king_in_check(tables, &next, position.side_to_move),
    }
}

/// Whether the pseudo-legal move `mv` is legal in `position`.
pub fn is_legal_move(tables: &MagicTables, mv: Move, position: &Position) -> (r: bool)
    requires
        tables.wf(),
        position.hash_consistent(),
    ensures
        r == is_legal(*position, mv),
{
    reveal(is_legal);
    match mv.move_type() {
        MoveType::Castling => is_legal_castling(tables, mv, position)
            && simulate_move_and_check_king(tables, mv, position),
        _ => simulate_move_and_check_king(tables, mv, position),
    }
}

/// Whether `king_square` is among the squares in `enemy_attacks`.
pub fn is_in_check(king_square: Square, enemy_attacks: Bitboard) -> (r: bool)
    requires
        king_square.valid(),
    ensures
        r == enemy_attacks.contains(king_square),
{
    enemy_attacks.is_occupied(king_square)
}

/// Checkmate: the king is attacked and there is no legal move.
pub fn is_checkmate(king_square: Square, enemy_attacks: Bitboard, legal_moves: &MoveList) -> (r:
    bool)
    requires
        king_square.valid(),
    ensures
        r == (enemy_attacks.contains(king_square) && legal_moves@.len() == 0),
{
    is_in_check(king_square, enemy_attacks) && legal_moves.is_empty()
}

/// Stalemate: the king is not attacked and there is no legal move.
pub fn is_stalemate(king_square: Square, enemy_attacks: Bitboard, legal_moves: &MoveList) -> (r:
    bool)
    requires
        king_square.valid(),
    ensures
        r == (!enemy_attacks.contains(king_square) && legal_moves@.len() == 0),
{
    !is_in_check(king_square, enemy_attacks) && legal_moves.is_empty()
}

/// The moves of `pseudo_legal` that are legal in `position`, in their order.
pub fn filter_legal_moves(tables: &MagicTables, pseudo_legal: &MoveList, position: &Position) -> (legal:
    MoveList)
    requires
        tables.wf(),
        position.hash_consistent(),
    ensures
        legal@ == pseudo_legal@.filter(|mv: Move| is_legal(*position, mv)),
{
    let mut legal = MoveList::new();
    let n = pseudo_legal.len();
    let ghost keep = |mv: Move| is_legal(*position, mv);
    let mut i: usize = 0;
    assert(pseudo_legal@.take(0).filter(keep) =~= Seq::<Move>::empty());
    while i < n
        invariant
            tables.wf(),
            position.hash_consistent(),
            n == pseudo_legal@.len(),
            n <= crate::moves::MAX_MOVES,
            i <= n,
            keep == |mv: Move| is_legal(*position, mv),
            legal@ == pseudo_legal@.take(i as int).filter(keep),
            legal@.len() <= i,
        decreases n - i,
    {
        let mv = pseudo_legal.at(i);
        proof {
            assert(pseudo_legal@.take(i + 1).drop_last() =~= pseudo_legal@.take(i as int));
            reveal(Seq::filter);
        }
        if is_legal_move(tables, mv, position) {
            legal.push(mv);
        }
        i += 1;
    }
    assert(pseudo_legal@.take(n as int) =~= pseudo_legal@);
    legal
}

/// The legal moves of the side to move in `pos`: the pseudo-legal moves, as
/// far as a list holds them, that are legal, in their order.
pub open spec fn legal_moves_of(pos: Position) -> Seq<Move> {
    crate::generator::bounded(crate::generator::pseudo_legal(pos)).filter(
        |mv: Move| is_legal(pos, mv),
    )
}

/// The legal moves of the side to move in `position`.
pub fn legal_moves(tables: &MagicTables, position: &Position) -> (legal: MoveList)
    requires
        tables.wf(),
        position.hash_consistent(),
    ensures
        legal@ == legal_moves_of(*position),
{
    let pseudo = crate::generator::generate_moves(tables, position);
    filter_legal_moves(tables, &pseudo, position)
}

/// Where a list has room for every pseudo-legal move, the legal moves are
/// exactly the pseudo-legal moves after which the enemy does not attack the
/// mover's king, less the castling moves whose path is attacked.
pub proof fn lemma_legal_moves_are_the_safe_ones(pos: Position, mv: Move)
    requires
        crate::generator::pseudo_legal(pos).len() <= crate::moves::MAX_MOVES,
    ensures
        legal_moves_of(pos).contains(mv) <==> crate::generator::pseudo_legal(pos).contains(mv)
            && pos.moving_piece(mv).is_some() && king_safe_after(pos, mv) && (mv.spec_move_type()
            == MoveType::Castling ==> castle_path_safe(pos, mv)),
{
    reveal(is_legal);
    let all = crate::generator::pseudo_legal(pos);
    let keep = |m: Move| is_legal(pos, m);
    let kept = all.filter(keep);
    if all.contains(mv) && keep(mv) {
        let i = choose|i: int| 0 <= i < all.len() && all[i] == mv;
        all.lemma_filter_contains(keep, i);
    }
    if kept.contains(mv) {
        all.lemma_filter_contains_rev(keep, mv);
        let j = choose|j: int| 0 <= j < kept.len() && kept[j] == mv;
        all.lemma_filter_pred(keep, j);
    }
}

/// A legal move moves a piece of the side to move.
pub proof fn lemma_legal_has_mover(pos: Position, mv: Move)
    requires
        is_legal(pos, mv),
    ensures
        pos.moving_piece(mv).is_some(),
{
    reveal(is_legal);
}

/// Every move in the list of legal moves is legal.
pub proof fn lemma_legal_moves_are_legal(pos: Position, i: int)
    requires
        0 <= i < legal_moves_of(pos).len(),
    ensures
        is_legal(pos, legal_moves_of(pos)[i]),
        pos.moving_piece(legal_moves_of(pos)[i]).is_some(),
{
    let all = crate::generator::bounded(crate::generator::pseudo_legal(pos));
    let fit = |mv: Move| is_legal(pos, mv);
    all.lemma_filter_pred(fit, i);
    lemma_legal_has_mover(pos, legal_moves_of(pos)[i]);
}

} // verus!
