//! Why quiescence search ends: every capture takes a piece off the board, so
//! a chain of captures is no longer than the number of pieces, and a budget
//! of that many plies never cuts the search short.

use crate::bitset::{
    is_set, lemma_bitwise_members, lemma_popcount_clear, lemma_popcount_set, lemma_same_members,
    popcount, squares_of,
};
use crate::generator::pseudo_legal;
use crate::legal::{is_legal, legal_moves_of};
use crate::moves::{lemma_unpack_bounds, Move, MoveType};
use crate::position::{en_passant_victim, lemma_after_is_led_to, Position};
use crate::quiescence::{capture_moves, captures, larger, quiesce, quiesce_scan};
use crate::sound::{
    lemma_legal_is_pseudo_legal, lemma_occupancy_members, lemma_pseudo_legal_is_playable,
    lemma_sound_is_kept, sound,
};
use crate::types::{Color, Piece, Square};
use vstd::prelude::*;

verus! {

/// A square is occupied exactly when some layer holds it.
proof fn lemma_occupied_members(pos: Position, s: u64)
    ensures
        is_set(pos.occupied(), s) <==> exists|p: Piece, c: Color| is_set(pos.layer(p, c), s),
{
    lemma_bitwise_members();
    if is_set(pos.occupied(), s) {
        if is_set(pos.occupancy(Color::White), s) {
            let c = Color::White;
            if is_set(pos.layer(Piece::Pawn, c), s) {
            } else if is_set(pos.layer(Piece::Knight, c), s) {
            } else if is_set(pos.layer(Piece::Bishop, c), s) {
            } else if is_set(pos.layer(Piece::Rook, c), s) {
            } else if is_set(pos.layer(Piece::Queen, c), s) {
            } else {
                assert(is_set(pos.layer(Piece::King, c), s));
            }
        } else {
            let c = Color::Black;
            if is_set(pos.layer(Piece::Pawn, c), s) {
            } else if is_set(pos.layer(Piece::Knight, c), s) {
            } else if is_set(pos.layer(Piece::Bishop, c), s) {
            } else if is_set(pos.layer(Piece::Rook, c), s) {
            } else if is_set(pos.layer(Piece::Queen, c), s) {
            } else {
                assert(is_set(pos.layer(Piece::King, c), s));
            }
        }
    }
    if exists|p: Piece, c: Color| is_set(pos.layer(p, c), s) {
        let (p, c) = choose|p: Piece, c: Color| is_set(pos.layer(p, c), s);
        assert(is_set(pos.layer(p, c), s));
    }
}

/// The squares that are occupied after a move of a sound position that lands
/// on an enemy piece: those that were occupied, but for the origin.
proof fn lemma_occupied_after_taking(pos: Position, m: Move)
    requires
        sound(pos),
        pos.admits(m),
        pos.lands_clear(m),
        m.spec_move_type() == MoveType::Normal || m.spec_move_type() == MoveType::Promotion,
        is_set(pos.occupancy(pos.side_to_move.spec_opposite()), m.spec_to().idx()),
    ensures
        pos.after(m).occupied() == pos.occupied() & !m.spec_from().mask(),
{
    lemma_bitwise_members();
    lemma_unpack_bounds(m.0);
    lemma_after_is_led_to(pos, m);
    let after = pos.after(m);
    let from = m.spec_from();
    let to = m.spec_to();
    let us = pos.side_to_move;
    let them = us.spec_opposite();
    lemma_occupancy_members(pos, them, to);
    lemma_occupancy_members(pos, us, from);
    assert forall|s: u64| s < 64 implies (is_set(after.occupied(), s) <==> is_set(
        pos.occupied() & !from.mask(),
        s,
    )) by {
        lemma_occupied_members(pos, s);
        lemma_occupied_members(after, s);
        assert(is_set(!from.mask(), s) <==> s != from.idx());
        assert forall|p: Piece, c: Color|
            is_set(#[trigger] after.layer(p, c), s) ==> is_set(pos.occupied(), s) && s
                != from.idx() by {
            assert(after.layer(p, c) == pos.layer_after(m, p, c));
            if is_set(after.layer(p, c), s) {
                if s == to.idx() {
                } else {
                    assert(is_set(pos.layer(p, c), s));
                }
                if s == from.idx() {
                    assert(is_set(pos.layer(p, c), s));
                    crate::sound::lemma_apart(pos, p, c, from);
                }
            }
        }
        if is_set(pos.occupied(), s) && s != from.idx() {
            let (p, c) = choose|p: Piece, c: Color| is_set(pos.layer(p, c), s);
            assert(after.layer(p, c) == pos.layer_after(m, p, c));
            if s == to.idx() {
                let landing = pos.landing_piece(m);
                assert(after.layer(landing, us) == pos.layer_after(m, landing, us));
                assert(is_set(after.layer(landing, us), s));
            } else {
                assert(is_set(after.layer(p, c), s));
            }
        }
    }
    lemma_same_members(after.occupied(), pos.occupied() & !from.mask());
}

/// The squares that are occupied after an en-passant capture in a sound
/// position: those that were occupied, but for the origin and the square of
/// the captured pawn, and the target.
proof fn lemma_occupied_after_passing(pos: Position, m: Move)
    requires
        sound(pos),
        pos.admits(m),
        pos.lands_clear(m),
        m.spec_move_type() == MoveType::EnPassant,
        pos.captured_piece(m) == Some(Piece::Pawn),
        !is_set(pos.occupied(), m.spec_to().idx()),
    ensures
        pos.after(m).occupied() == ((pos.occupied() & !m.spec_from().mask()) & !en_passant_victim(
            m,
        ).mask()) | m.spec_to().mask(),
{
    lemma_bitwise_members();
    lemma_unpack_bounds(m.0);
    lemma_after_is_led_to(pos, m);
    let after = pos.after(m);
    let from = m.spec_from();
    let to = m.spec_to();
    let victim = en_passant_victim(m);
    let us = pos.side_to_move;
    let them = us.spec_opposite();
    let goal = ((pos.occupied() & !from.mask()) & !victim.mask()) | to.mask();
    assert(victim.valid());
    assert forall|s: u64| s < 64 implies (is_set(after.occupied(), s) <==> is_set(goal, s)) by {
        lemma_occupied_members(pos, s);
        lemma_occupied_members(after, s);
        assert(is_set(!from.mask(), s) <==> s != from.idx());
        assert(is_set(!victim.mask(), s) <==> s != victim.idx());
        assert forall|p: Piece, c: Color|
            is_set(#[trigger] after.layer(p, c), s) ==> is_set(goal, s) by {
            assert(after.layer(p, c) == pos.layer_after(m, p, c));
            if is_set(after.layer(p, c), s) && s != to.idx() {
                assert(is_set(pos.layer(p, c), s));
                if s == from.idx() {
                    crate::sound::lemma_apart(pos, p, c, from);
                }
                if s == victim.idx() {
                    crate::sound::lemma_apart(pos, p, c, victim);
                }
            }
        }
        if is_set(goal, s) {
            if s == to.idx() {
                assert(after.layer(Piece::Pawn, us) == pos.layer_after(m, Piece::Pawn, us));
                assert(is_set(after.layer(Piece::Pawn, us), s));
            } else {
                let (p, c) = choose|p: Piece, c: Color| is_set(pos.layer(p, c), s);
                assert(after.layer(p, c) == pos.layer_after(m, p, c));
                assert(is_set(after.layer(p, c), s));
            }
        }
    }
    lemma_same_members(after.occupied(), goal);
}

/// A pseudo-legal capture of a sound position takes one piece off the board.
pub proof fn lemma_capture_takes_a_piece(pos: Position, m: Move)
    requires
        sound(pos),
        pseudo_legal(pos).contains(m),
        captures(pos, m),
    ensures
        popcount(pos.after(m).occupied()) + 1 == popcount(pos.occupied()),
{
    lemma_bitwise_members();
    lemma_unpack_bounds(m.0);
    lemma_pseudo_legal_is_playable(pos, m);
    let us = pos.side_to_move;
    let them = us.spec_opposite();
    let from = m.spec_from();
    let to = m.spec_to();
    let occ = pos.occupied();
    lemma_occupancy_members(pos, us, from);
    lemma_occupancy_members(pos, them, to);
    lemma_occupancy_members(pos, us, to);
    if m.spec_move_type() == MoveType::EnPassant {
        lemma_passing_shape(pos, m);
        let victim = en_passant_victim(m);
        lemma_occupancy_members(pos, them, victim);
        lemma_occupied_after_passing(pos, m);
        lemma_popcount_clear(occ, from.idx());
        let lifted = occ & !from.mask();
        assert(is_set(lifted, victim.idx())) by {
            assert(is_set(!from.mask(), victim.idx()) <==> victim.idx() != from.idx());
        }
        lemma_popcount_clear(lifted, victim.idx());
        let taken = lifted & !victim.mask();
        assert(!is_set(taken, to.idx()));
        lemma_popcount_set(taken, to.idx());
    } else {
        assert(m.spec_move_type() != MoveType::Castling);
        lemma_occupied_after_taking(pos, m);
        lemma_popcount_clear(occ, from.idx());
    }
}

/// What a pseudo-legal en-passant capture of a sound position is like: it
/// lands on the empty target and takes the pawn that stands behind it.
proof fn lemma_passing_shape(pos: Position, m: Move)
    requires
        sound(pos),
        pseudo_legal(pos).contains(m),
        m.spec_move_type() == MoveType::EnPassant,
    ensures
        pos.en_passant == Some(m.spec_to()),
        !is_set(pos.occupied(), m.spec_to().idx()),
        pos.captured_piece(m) == Some(Piece::Pawn),
        en_passant_victim(m).valid(),
        en_passant_victim(m) != m.spec_from(),
{
    lemma_bitwise_members();
    lemma_unpack_bounds(m.0);
    let us = pos.side_to_move;
    crate::sound::lemma_pseudo_legal_origin(pos, m);
    if exists|kind: Piece, sq: u64| crate::sound::piece_has(pos, kind, sq, m) {
        let (kind, sq) = choose|kind: Piece, sq: u64| crate::sound::piece_has(pos, kind, sq, m);
        let origin = Square(sq as u8);
        assert(origin.idx() == sq);
        crate::sound::lemma_moves_to_members(
            origin,
            crate::generator::attack_mask(kind, Color::White, origin, pos.occupied()) & !(
            pos.occupied() & !pos.occupancy(us.spec_opposite())),
            m,
        );
        assert(false);
    }
    if crate::generator::castling_of(pos).contains(m) {
        crate::sound::lemma_castling_kind(pos, m);
        assert(false);
    }
    let sq = choose|sq: u64| crate::sound::pawn_has(pos, sq, m);
    let from = Square(sq as u8);
    assert(from.idx() == sq);
    crate::sound::lemma_passing_move(pos, from, m);
}

/// A position without a piece has no capture.
proof fn lemma_no_pieces_no_captures(pos: Position)
    requires
        pos.occupied() == 0,
    ensures
        capture_moves(pos).len() == 0,
{
    lemma_bitwise_members();
    reveal(pseudo_legal);
    let us = pos.side_to_move;
    assert forall|p: Piece, c: Color| #[trigger] pos.layer(p, c) == 0 by {
        assert forall|s: u64| s < 64 implies (is_set(pos.layer(p, c), s) <==> is_set(0u64, s)) by {
            lemma_occupied_members(pos, s);
        }
        lemma_same_members(pos.layer(p, c), 0);
    }
    assert(squares_of(0) =~= Seq::<u64>::empty());
    let all = pseudo_legal(pos);
    assert(all =~= Seq::<Move>::empty());
    let fit = crate::generator::bounded(all);
    assert(fit.len() == 0);
    fit.lemma_filter_len(|mv: Move| is_legal(pos, mv));
    legal_moves_of(pos).lemma_filter_len(|mv: Move| captures(pos, mv));
}

/// Every capture in the list of captures is a pseudo-legal capture.
proof fn lemma_capture_list_member(pos: Position, i: int)
    requires
        0 <= i < capture_moves(pos).len(),
    ensures
        pseudo_legal(pos).contains(capture_moves(pos)[i]),
        captures(pos, capture_moves(pos)[i]),
{
    let legal = legal_moves_of(pos);
    let keep = |mv: Move| captures(pos, mv);
    let m = capture_moves(pos)[i];
    legal.lemma_filter_pred(keep, i);
    assert(capture_moves(pos).contains(m));
    legal.lemma_filter_contains_rev(keep, m);
    lemma_legal_is_pseudo_legal(pos, m);
}

/// With a budget of as many plies as there are pieces, one ply more
/// changes nothing: the search never runs into its budget.
pub proof fn lemma_budget_is_enough(pos: Position, alpha: int, beta: int, budget: nat)
    requires
        sound(pos),
        budget >= popcount(pos.occupied()),
    ensures
        quiesce(pos, alpha, beta, budget) == quiesce(pos, alpha, beta, budget + 1),
    decreases budget, 1nat, 0nat,
{
    let stand = crate::evaluator::static_score(pos);
    if stand >= beta {
    } else if budget == 0 {
        lemma_no_pieces_no_captures(pos);
    } else {
        lemma_scan_budget_is_enough(
            pos,
            capture_moves(pos),
            0,
            larger(alpha, stand),
            beta,
            budget,
        );
    }
}

/// The scan of the captures comes out the same with one ply more.
proof fn lemma_scan_budget_is_enough(
    pos: Position,
    moves: Seq<Move>,
    i: int,
    alpha: int,
    beta: int,
    budget: nat,
)
    requires
        sound(pos),
        budget >= 1,
        budget >= popcount(pos.occupied()),
        moves == capture_moves(pos),
        0 <= i <= moves.len(),
    ensures
        quiesce_scan(pos, moves, i, alpha, beta, budget) == quiesce_scan(
            pos,
            moves,
            i,
            alpha,
            beta,
            budget + 1,
        ),
    decreases budget, 0nat, moves.len() - i,
{
    if i < moves.len() {
        let m = moves[i];
        lemma_capture_list_member(pos, i);
        lemma_capture_takes_a_piece(pos, m);
        lemma_after_is_led_to(pos, m);
        lemma_sound_is_kept(pos, m, pos.after(m));
        lemma_budget_is_enough(pos.after(m), -beta, -alpha, (budget - 1) as nat);
        let score = -quiesce(pos.after(m), -beta, -alpha, (budget - 1) as nat);
        if score < beta {
            lemma_scan_budget_is_enough(pos, moves, i + 1, larger(alpha, score), beta, budget);
        }
    }
}

/// With a budget of as many plies as there are pieces, any larger budget
/// gives the same value: quiescence search in a sound position is cut short
/// by nothing but the end of the captures.
pub proof fn lemma_budget_never_binds(pos: Position, alpha: int, beta: int, budget: nat, more: nat)
    requires
        sound(pos),
        budget >= popcount(pos.occupied()),
    ensures
        quiesce(pos, alpha, beta, budget) == quiesce(pos, alpha, beta, budget + more),
    decreases more,
{
    if more > 0 {
        lemma_budget_never_binds(pos, alpha, beta, budget, (more - 1) as nat);
        lemma_budget_is_enough(pos, alpha, beta, budget + (more - 1) as nat);
    }
}

} // verus!
