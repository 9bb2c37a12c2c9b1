//! Plain negamax: the value of a position is the best, over its legal moves,
//! of the negated value of what the move leads to.

use crate::evaluator::{static_score, Evaluator};
use crate::legal::{in_check, king_in_check, legal_moves, legal_moves_of, lemma_legal_moves_are_legal};
use crate::magic::MagicTables;
use crate::moves::Move;
use crate::position::Position;
use crate::quiescence::larger;
use vstd::prelude::*;

verus! {

/// The score of being mated with no depth left to search; a mate found with
/// more depth left scores further from zero.
pub const MATE_SCORE: i32 = 10_000_000;

/// The deepest search that is asked for.
pub const MAX_DEPTH: i32 = 128;

/// No score from evaluation, mate or draw is further from zero than this.
pub const SCORE_LIMIT: i32 = 10_000_128;

/// What stands for "no move tried yet": lower than every score and every
/// bound of a window.
pub const NO_SCORE: i32 = -1_073_741_825;

/// The value of a position without a legal move, `depth` plies above the
/// horizon: mated when the king is attacked, and the more so the more depth
/// is left; a draw by stalemate otherwise.
pub open spec fn terminal_score(pos: Position, depth: nat) -> int {
    if in_check(pos, pos.side_to_move) {
        -(MATE_SCORE + depth)
    } else {
        0
    }
}

/// The negamax value of `pos` searched `depth` plies deep: the static score
/// at depth zero, the score of mate or stalemate when there is no legal
/// move, and otherwise the largest negated value among the positions that
/// the legal moves lead to.
pub open spec fn negamax_value(pos: Position, depth: nat) -> int
    decreases depth, 1nat, 0nat,
{
    if depth == 0 {
        static_score(pos)
    } else if legal_moves_of(pos).len() == 0 {
        terminal_score(pos, depth)
    } else {
        negamax_scan(pos, depth, legal_moves_of(pos), 0, NO_SCORE as int)
    }
}

/// The largest of `best` and the negated values of the positions that the
/// moves from number `i` on lead to.
pub open spec fn negamax_scan(pos: Position, depth: nat, moves: Seq<Move>, i: int, best: int) -> int
    decreases depth, 0nat, moves.len() - i,
{
    if i < 0 || i >= moves.len() || depth == 0 {
        best
    } else {
        let score = -negamax_value(pos.after(moves[i]), (depth - 1) as nat);
        negamax_scan(pos, depth, moves, i + 1, larger(best, score))
    }
}

/// The result of a negamax search.
#[derive(Copy, Clone, Debug)]
pub struct NegamaxResult {
    pub score: i32,
}

/// The score of the side to move when it has no legal move.
pub fn score_without_moves(tables: &MagicTables, position: &Position, depth: i32) -> (score: i32)
    requires
        tables.wf(),
        0 <= depth <= MAX_DEPTH,
    ensures
        score == terminal_score(*position, depth as nat),
        -SCORE_LIMIT <= score <= 0,
{
    if king_in_check(tables, position, position.side_to_move) {
        -(MATE_SCORE + depth)
    } else {
        0
    }
}

/// The negamax value of `position` searched `depth` plies deep.
pub fn negamax(depth: i32, evaluator: &Evaluator, tables: &MagicTables, position: &Position) -> (result:
    NegamaxResult)
    requires
        tables.wf(),
        position.hash_consistent(),
        0 <= depth <= MAX_DEPTH,
    ensures
        result.score == negamax_value(*position, depth as nat),
        -SCORE_LIMIT <= result.score <= SCORE_LIMIT,
    decreases depth,
{
    if depth == 0 {
        return NegamaxResult { score: evaluator.evaluate(tables, position) };
    }
    let moves = legal_moves(tables, position);
    let n = moves.len();
    if n == 0 {
        return NegamaxResult { score: score_without_moves(tables, position, depth) };
    }
    let mut best: i32 = NO_SCORE;
    let mut i: usize = 0;
    let ghost goal = negamax_value(*position, depth as nat);
    while i < n
        invariant
            tables.wf(),
            position.hash_consistent(),
            0 < depth <= MAX_DEPTH,
            n == moves@.len(),
            n > 0,
            i <= n,
            moves@ == legal_moves_of(*position),
            best == NO_SCORE || -SCORE_LIMIT <= best <= SCORE_LIMIT,
            i > 0 ==> best != NO_SCORE,
            goal == negamax_scan(*position, depth as nat, moves@, i as int, best as int),
        decreases n - i,
    {
        let mv = moves.at(i);
        proof {
            lemma_legal_moves_are_legal(*position, i as int);
        }
        match position.play(mv) {
            None => {
                assert(false);
            },
            Some(child) => {
                let score = -negamax(depth - 1, evaluator, tables, &child).score;
                if score > best {
                    best = score;
                }
            },
        }
        i += 1;
    }
    NegamaxResult { score: best }
}

/// The negamax value of a position is within the limit of scores.
pub proof fn lemma_negamax_bounded(pos: Position, depth: nat)
    requires
        depth <= MAX_DEPTH,
    ensures
        -SCORE_LIMIT <= negamax_value(pos, depth) <= SCORE_LIMIT,
    decreases depth, 1nat, 0nat,
{
    if depth == 0 {
        crate::evaluator::lemma_static_score_bounded(pos);
    } else if legal_moves_of(pos).len() == 0 {
    } else {
        lemma_negamax_scan_bounded(pos, depth, legal_moves_of(pos), 0, NO_SCORE as int);
    }
}

/// A scan of moves gives at least what it starts with, stays within the
/// limit of scores, and gives a score once it has looked at a move.
pub proof fn lemma_negamax_scan_bounded(pos: Position, depth: nat, moves: Seq<Move>, i: int, best: int)
    requires
        0 < depth <= MAX_DEPTH,
        0 <= i <= moves.len(),
        best == NO_SCORE || -SCORE_LIMIT <= best <= SCORE_LIMIT,
    ensures
        negamax_scan(pos, depth, moves, i, best) >= best,
        negamax_scan(pos, depth, moves, i, best) == NO_SCORE || -SCORE_LIMIT <= negamax_scan(
            pos,
            depth,
            moves,
            i,
            best,
        ) <= SCORE_LIMIT,
        i < moves.len() ==> negamax_scan(pos, depth, moves, i, best) != NO_SCORE,
    decreases depth, 0nat, moves.len() - i,
{
    if i < moves.len() {
        lemma_negamax_bounded(pos.after(moves[i]), (depth - 1) as nat);
        let score = -negamax_value(pos.after(moves[i]), (depth - 1) as nat);
        lemma_negamax_scan_bounded(pos, depth, moves, i + 1, larger(best, score));
    }
}

} // verus!
