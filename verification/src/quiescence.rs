//! Quiescence search: at the horizon of the main search, play out the
//! captures so that the static evaluation is taken in a quiet position.

use crate::bitset::{is_set, popcount};
use crate::cancel::{cancelled, never_cancelled};
use crate::evaluator::{static_score, Evaluator};
use crate::legal::{is_legal, legal_moves, legal_moves_of};
use crate::magic::MagicTables;
use crate::moves::{Move, MoveList, MoveType};
use crate::position::Position;
use crate::time::TimeManager;
use crate::types::Color;
use std::sync::atomic::AtomicBool;
use vstd::prelude::*;

verus! {

/// The largest magnitude that a bound of a search window may have: half the
/// range of 32 bits, so that every bound can be negated.
pub const INFINITY: i32 = 1_073_741_824;

/// Whether `mv` captures in `pos`: it lands on an enemy piece or is an
/// en-passant capture.
pub open spec fn captures(pos: Position, mv: Move) -> bool {
    is_set(pos.occupancy(pos.side_to_move.spec_opposite()), mv.spec_to().idx())
        || mv.spec_move_type() == MoveType::EnPassant
}

/// The legal captures in `pos`, in the order of the legal moves.
pub open spec fn capture_moves(pos: Position) -> Seq<Move> {
    legal_moves_of(pos).filter(|mv: Move| captures(pos, mv))
}

/// The larger of two numbers.
pub open spec fn larger(a: int, b: int) -> int {
    if a >= b {
        a
    } else {
        b
    }
}

/// The smaller of two numbers.
pub open spec fn smaller(a: int, b: int) -> int {
    if a <= b {
        a
    } else {
        b
    }
}

/// The value of `pos` in the window from `alpha` to `beta`, captures played
/// out at most `budget` plies deep. It is `beta` when standing pat already
/// reaches `beta`; otherwise the best of standing pat, `alpha` and what each
/// capture leads to, and `beta` as soon as one of those reaches it.
pub open spec fn quiesce(pos: Position, alpha: int, beta: int, budget: nat) -> int
    decreases budget, 1nat, 0nat,
{
    let stand = static_score(pos);
    if stand >= beta {
        beta
    } else if budget == 0 {
        larger(alpha, stand)
    } else {
        quiesce_scan(pos, capture_moves(pos), 0, larger(alpha, stand), beta, budget)
    }
}

/// The value that the captures `moves` from number `i` on give `pos`, when
/// the moves before have raised the lower bound to `alpha`.
pub open spec fn quiesce_scan(
    pos: Position,
    moves: Seq<Move>,
    i: int,
    alpha: int,
    beta: int,
    budget: nat,
) -> int
    decreases budget, 0nat, moves.len() - i,
{
    if i < 0 || i >= moves.len() || budget == 0 {
        alpha
    } else {
        let score = -quiesce(pos.after(moves[i]), -beta, -alpha, (budget - 1) as nat);
        if score >= beta {
            beta
        } else {
            quiesce_scan(pos, moves, i + 1, larger(alpha, score), beta, budget)
        }
    }
}

/// The legal captures in `position`.
pub fn generate_captures(tables: &MagicTables, position: &Position) -> (list: MoveList)
    requires
        tables.wf(),
        position.hash_consistent(),
    ensures
        list@ == capture_moves(*position),
        forall|i: int| 0 <= i < list@.len() ==> is_legal(*position, #[trigger] list@[i]),
{
    let legal = legal_moves(tables, position);
    let enemies = position.occupancy_of(position.side_to_move.opposite());
    let mut list = MoveList::new();
    let n = legal.len();
    let ghost keep = |mv: Move| captures(*position, mv);
    let mut i: usize = 0;
    assert(legal@.take(0).filter(keep) =~= Seq::<Move>::empty());
    proof {
        let all = crate::generator::bounded(crate::generator::pseudo_legal(*position));
        let fit = |mv: Move| is_legal(*position, mv);
        assert forall|k: int| 0 <= k < legal@.len() implies is_legal(
            *position,
            #[trigger] legal@[k],
        ) by {
            all.lemma_filter_pred(fit, k);
        }
    }
    while i < n
        invariant
            n == legal@.len(),
            n <= crate::moves::MAX_MOVES,
            i <= n,
            enemies.0 == position.occupancy(position.side_to_move.spec_opposite()),
            keep == |mv: Move| captures(*position, mv),
            list@ == legal@.take(i as int).filter(keep),
            list@.len() <= i,
            forall|k: int| 0 <= k < legal@.len() ==> is_legal(*position, #[trigger] legal@[k]),
            forall|k: int| 0 <= k < list@.len() ==> is_legal(*position, #[trigger] list@[k]),
        decreases n - i,
    {
        let mv = legal.at(i);
        proof {
            assert(legal@.take(i + 1).drop_last() =~= legal@.take(i as int));
            reveal(Seq::filter);
        }
        if mv.is_capture(enemies) || mv.is_en_passant() {
            list.push(mv);
        }
        i += 1;
    }
    assert(legal@.take(n as int) =~= legal@);
    list
}

/// Quiescence search within `budget` plies of captures.
fn quiescence_within(
    alpha: i32,
    beta: i32,
    evaluator: &Evaluator,
    tables: &MagicTables,
    position: &Position,
    stop_flag: Option<&AtomicBool>,
    clock: &TimeManager,
    budget: u32,
) -> (score: i32)
    requires
        tables.wf(),
        position.hash_consistent(),
        -INFINITY <= alpha <= INFINITY,
        -INFINITY <= beta <= INFINITY,
    ensures
        smaller(alpha as int, beta as int) <= score <= larger(alpha as int, beta as int),
        never_cancelled(stop_flag, clock) ==> score == quiesce(
            *position,
            alpha as int,
            beta as int,
            budget as nat,
        ),
    decreases budget,
{
    let stand_pat = evaluator.evaluate(tables, position);
    if stand_pat >= beta {
        return beta;
    }
    let mut best: i32 = if alpha >= stand_pat {
        alpha
    } else {
        stand_pat
    };
    if budget == 0 {
        return best;
    }
    let moves = generate_captures(tables, position);
    let n = moves.len();
    let mut i: usize = 0;
    let ghost goal = quiesce(*position, alpha as int, beta as int, budget as nat);
    while i < n
        invariant
            tables.wf(),
            position.hash_consistent(),
            n == moves@.len(),
            i <= n,
            budget > 0,
            moves@ == capture_moves(*position),
            forall|k: int| 0 <= k < moves@.len() ==> is_legal(*position, #[trigger] moves@[k]),
            -INFINITY <= beta <= INFINITY,
            -INFINITY <= alpha <= INFINITY,
            alpha <= best || stand_pat <= best,
            best <= larger(alpha as int, beta as int),
            best < beta || best == alpha,
            smaller(alpha as int, beta as int) <= best,
            goal == quiesce(*position, alpha as int, beta as int, budget as nat),
            never_cancelled(stop_flag, clock) ==> goal == quiesce_scan(
                *position,
                moves@,
                i as int,
                best as int,
                beta as int,
                budget as nat,
            ),
        decreases n - i,
    {
        if cancelled(stop_flag, clock) {
            return best;
        }
        let mv = moves.at(i);
        proof {
            crate::legal::lemma_legal_has_mover(*position, moves@[i as int]);
        }
        match position.play(mv) {
            None => {
                assert(false);
            },
            Some(child) => {
                let score = -quiescence_within(
                    -beta,
                    -best,
                    evaluator,
                    tables,
                    &child,
                    stop_flag,
                    clock,
                    budget - 1,
                );
                if score >= beta {
                    return beta;
                }
                if score > best {
                    best = score;
                }
            },
        }
        i += 1;
    }
    best
}

/// The value of `position` in the window from `alpha` to `beta` once the
/// captures are played out. The search asks before each capture whether it
/// has to stop, and then returns the bound it has reached. Its budget of
/// plies is the number of pieces on the board, which no chain of captures
/// in a sound position outlasts.
pub fn quiescence_search(
    alpha: i32,
    beta: i32,
    evaluator: &Evaluator,
    tables: &MagicTables,
    position: &Position,
    stop_flag: Option<&AtomicBool>,
    clock: &TimeManager,
) -> (score: i32)
    requires
        tables.wf(),
        position.hash_consistent(),
        -INFINITY <= alpha <= INFINITY,
        -INFINITY <= beta <= INFINITY,
    ensures
        smaller(alpha as int, beta as int) <= score <= larger(alpha as int, beta as int),
        never_cancelled(stop_flag, clock) ==> score == quiesce(
            *position,
            alpha as int,
            beta as int,
            popcount(position.occupied()),
        ),
{
    let budget = position.all_occupied().count();
    quiescence_within(alpha, beta, evaluator, tables, position, stop_flag, clock, budget)
}

/// Whether a position is quiet: no capture is to be had and the side to
/// move is not in check.
pub fn is_quiet_position(captures_available: bool, in_check: bool) -> (quiet: bool)
    ensures
        quiet == (!captures_available && !in_check),
{
    !captures_available && !in_check
}

} // verus!
