//! Principal variation search: the first move of a node is searched in the
//! full window, every other move in a window of width one that only tests
//! whether it beats the best so far, and again in the full window when it does.

use crate::evaluator::{static_score, Evaluator};
use crate::legal::{legal_moves, legal_moves_of, lemma_legal_moves_are_legal};
use crate::magic::MagicTables;
use crate::moves::Move;
use crate::negamax::{score_without_moves, terminal_score, MAX_DEPTH, NO_SCORE, SCORE_LIMIT};
use crate::position::Position;
use crate::quiescence::INFINITY;
use vstd::prelude::*;

verus! {

/// The result of a principal variation search: the score and the line of
/// best moves that leads to it.
#[derive(Debug)]
pub struct PvsResult {
    pub score: i32,
    pub pv: Vec<Move>,
}

/// How far the scan of the moves of a node has come.
pub struct PvsScan {
    /// The lower bound of the window as the moves so far have raised it.
    pub alpha: i32,
    /// The best score so far.
    pub best: i32,
    /// The line that gave the best score.
    pub pv: Seq<Move>,
    /// Whether a score has reached the upper bound.
    pub cut: bool,
}

/// The lower end of the window of width one below `-alpha`, kept within the
/// range of windows.
pub open spec fn null_low(alpha: i32) -> i32 {
    if alpha >= INFINITY {
        (-INFINITY) as i32
    } else {
        (-alpha - 1) as i32
    }
}

/// What principal variation search gives for `pos`, searched `depth` plies
/// deep in the window from `alpha` to `beta`: the static score at depth
/// zero, the score of mate or stalemate without a legal move, and otherwise
/// what the scan of the moves gives.
pub open spec fn pvs(pos: Position, depth: nat, alpha: i32, beta: i32) -> (i32, Seq<Move>)
    decreases depth, 2nat, 0nat,
{
    if depth == 0 {
        (static_score(pos) as i32, Seq::empty())
    } else if legal_moves_of(pos).len() == 0 {
        (terminal_score(pos, depth) as i32, Seq::empty())
    } else {
        let end = pvs_scan(
            pos,
            depth,
            beta,
            legal_moves_of(pos),
            0,
            PvsScan { alpha, best: NO_SCORE, pv: Seq::empty(), cut: false },
        );
        (end.best, end.pv)
    }
}

/// The score and line that move number `i` gives: searched in the full
/// window when it is the first move; otherwise in the window of width one,
/// and again in the full window when that score lies strictly inside the
/// window.
pub open spec fn pvs_try(pos: Position, depth: nat, beta: i32, mv: Move, first: bool, alpha: i32)
    -> (i32, Seq<Move>)
    decreases depth, 0nat, 0nat,
{
    if depth == 0 {
        (0, Seq::empty())
    } else {
        let child = pos.after(mv);
        let full = pvs(child, (depth - 1) as nat, (-beta) as i32, (-alpha) as i32);
        if first {
            ((-full.0) as i32, full.1)
        } else {
            let null = pvs(child, (depth - 1) as nat, null_low(alpha), (-alpha) as i32);
            let score = (-null.0) as i32;
            if score > alpha && score < beta {
                ((-full.0) as i32, full.1)
            } else {
                (score, null.1)
            }
        }
    }
}

/// The scan of the moves from number `i` on: the score of each move becomes
/// the best, with the move in front of its line, when it beats the best so
/// far; it raises `alpha` when it beats `alpha`; and the scan ends when
/// `alpha` reaches `beta`.
pub open spec fn pvs_scan(pos: Position, depth: nat, beta: i32, moves: Seq<Move>, i: int, scan: PvsScan)
    -> PvsScan
    decreases depth, 1nat, moves.len() - i,
{
    if i < 0 || i >= moves.len() || scan.cut || depth == 0 {
        scan
    } else {
        let (score, line) = pvs_try(pos, depth, beta, moves[i], i == 0, scan.alpha);
        let better = score > scan.best;
        let alpha = if score > scan.alpha {
            score
        } else {
            scan.alpha
        };
        pvs_scan(
            pos,
            depth,
            beta,
            moves,
            i + 1,
            PvsScan {
                alpha,
                best: if better {
                    score
                } else {
                    scan.best
                },
                pv: if better {
                    seq![moves[i]] + line
                } else {
                    scan.pv
                },
                cut: alpha >= beta,
            },
        )
    }
}

/// Searches `position` `depth` plies deep in the window from `alpha` to
/// `beta` and returns the score with the line of best moves. A score
/// strictly inside the window is the negamax value of the position; one at
/// or below the window is an upper bound of it, one at or above a lower bound.
pub fn pvs_search(
    depth: i32,
    alpha: i32,
    beta: i32,
    evaluator: &Evaluator,
    tables: &MagicTables,
    position: &Position,
) -> (result: PvsResult)
    requires
        tables.wf(),
        position.hash_consistent(),
        0 <= depth <= MAX_DEPTH,
        -INFINITY <= alpha <= INFINITY,
        -INFINITY <= beta <= INFINITY,
    ensures
        (result.score, result.pv@) == pvs(*position, depth as nat, alpha, beta),
        -SCORE_LIMIT <= result.score <= SCORE_LIMIT,
        alpha < beta ==> tells(
            result.score as int,
            crate::negamax::negamax_value(*position, depth as nat),
            alpha as int,
            beta as int,
        ),
    decreases depth,
{
    proof {
        if alpha < beta {
            lemma_pvs_tells_negamax(*position, depth as nat, alpha, beta);
        }
    }
    if depth == 0 {
        return PvsResult { score: evaluator.evaluate(tables, position), pv: Vec::new() };
    }
    let moves = legal_moves(tables, position);
    let n = moves.len();
    if n == 0 {
        return PvsResult {
            score: score_without_moves(tables, position, depth),
            pv: Vec::new(),
        };
    }
    let mut running = alpha;
    let mut best_score: i32 = NO_SCORE;
    let mut best_pv: Vec<Move> = Vec::new();
    let mut cut = false;
    let mut i: usize = 0;
    let ghost goal = pvs_scan(
        *position,
        depth as nat,
        beta,
        moves@,
        0,
        PvsScan { alpha, best: NO_SCORE, pv: Seq::empty(), cut: false },
    );
    while i < n && !cut
        invariant
            tables.wf(),
            position.hash_consistent(),
            0 < depth <= MAX_DEPTH,
            n == moves@.len(),
            n > 0,
            i <= n,
            moves@ == legal_moves_of(*position),
            -INFINITY <= beta <= INFINITY,
            -INFINITY <= running <= INFINITY,
            best_score == NO_SCORE || -SCORE_LIMIT <= best_score <= SCORE_LIMIT,
            i > 0 ==> best_score != NO_SCORE,
            cut ==> i > 0,
            goal == pvs_scan(
                *position,
                depth as nat,
                beta,
                moves@,
                i as int,
                PvsScan { alpha: running, best: best_score, pv: best_pv@, cut },
            ),
        decreases n - i,
    {
        let mv = moves.at(i);
        proof {
            lemma_legal_moves_are_legal(*position, i as int);
        }
        match position.play(mv) {
            None => {
                assert(false);
            },
            Some(child) => {
                let mut found: PvsResult;
                if i == 0 {
                    found = pvs_search(depth - 1, -beta, -running, evaluator, tables, &child);
                } else {
                    let low: i32 = if running >= INFINITY {
                        -INFINITY
                    } else {
                        -running - 1
                    };
                    found = pvs_search(depth - 1, low, -running, evaluator, tables, &child);
                    if -found.score > running && -found.score < beta {
                        found = pvs_search(depth - 1, -beta, -running, evaluator, tables, &child);
                    }
                }
                let score = -found.score;
                assert((score, found.pv@) == pvs_try(
                    *position,
                    depth as nat,
                    beta,
                    mv,
                    i == 0,
                    running,
                ));
                let ghost before = PvsScan { alpha: running, best: best_score, pv: best_pv@, cut };
                if score > best_score {
                    best_score = score;
                    let mut line: Vec<Move> = Vec::new();
                    line.push(mv);
                    let mut k: usize = 0;
                    while k < found.pv.len()
                        invariant
                            k <= found.pv@.len(),
                            line@ == seq![mv] + found.pv@.take(k as int),
                        decreases found.pv@.len() - k,
                    {
                        line.push(found.pv[k]);
                        assert(found.pv@.take(k + 1) =~= found.pv@.take(k as int).push(
                            found.pv@[k as int],
                        ));
                        assert(line@ =~= seq![mv] + found.pv@.take(k + 1));
                        k += 1;
                    }
                    assert(found.pv@.take(found.pv@.len() as int) =~= found.pv@);
                    best_pv = line;
                }
                if score > running {
                    running = score;
                }
                if running >= beta {
                    cut = true;
                }
                assert(pvs_scan(*position, depth as nat, beta, moves@, i as int, before)
                    == pvs_scan(
                    *position,
                    depth as nat,
                    beta,
                    moves@,
                    i + 1,
                    PvsScan { alpha: running, best: best_score, pv: best_pv@, cut },
                ));
            },
        }
        i += 1;
    }
    PvsResult { score: best_score, pv: best_pv }
}

/// What a score found in the window from `alpha` to `beta` says about the
/// true value: at or below `alpha` it is no less than the true value, at or
/// above `beta` no more, and strictly inside the window it is the true value.
pub open spec fn tells(found: int, truth: int, alpha: int, beta: int) -> bool {
    &&& found <= alpha ==> truth <= found
    &&& found >= beta ==> truth >= found
    &&& alpha < found < beta ==> truth == found
}

/// The score of a principal variation search tells the negamax value of
/// the position: it is that value when it lies strictly inside the window,
/// an upper bound of it when it lies at or below the window, and a lower
/// bound when it lies at or above.
pub proof fn lemma_pvs_tells_negamax(pos: Position, depth: nat, alpha: i32, beta: i32)
    requires
        depth <= MAX_DEPTH,
        -INFINITY <= alpha < beta <= INFINITY,
    ensures
        -SCORE_LIMIT <= pvs(pos, depth, alpha, beta).0 <= SCORE_LIMIT,
        tells(
            pvs(pos, depth, alpha, beta).0 as int,
            crate::negamax::negamax_value(pos, depth),
            alpha as int,
            beta as int,
        ),
    decreases depth, 2nat, 0nat,
{
    if depth == 0 {
        crate::evaluator::lemma_static_score_bounded(pos);
    } else if legal_moves_of(pos).len() == 0 {
    } else {
        lemma_pvs_scan_tells(
            pos,
            depth,
            alpha,
            beta,
            legal_moves_of(pos),
            0,
            PvsScan { alpha, best: NO_SCORE, pv: Seq::empty(), cut: false },
            NO_SCORE as int,
        );
        crate::negamax::lemma_negamax_scan_bounded(
            pos,
            depth,
            legal_moves_of(pos),
            0,
            NO_SCORE as int,
        );
    }
}

/// The score that one move gets tells the negated negamax value of the
/// position the move leads to.
proof fn lemma_pvs_try_tells(pos: Position, depth: nat, beta: i32, mv: Move, first: bool, alpha: i32)
    requires
        0 < depth <= MAX_DEPTH,
        -INFINITY <= alpha < beta <= INFINITY,
    ensures
        -SCORE_LIMIT <= pvs_try(pos, depth, beta, mv, first, alpha).0 <= SCORE_LIMIT,
        tells(
            pvs_try(pos, depth, beta, mv, first, alpha).0 as int,
            -crate::negamax::negamax_value(pos.after(mv), (depth - 1) as nat),
            alpha as int,
            beta as int,
        ),
    decreases depth, 0nat, 0nat,
{
    let child = pos.after(mv);
    let below = (depth - 1) as nat;
    lemma_pvs_tells_negamax(child, below, (-beta) as i32, (-alpha) as i32);
    if !first {
        lemma_pvs_tells_negamax(child, below, null_low(alpha), (-alpha) as i32);
    }
}

/// The scan of the moves from number `i` on ends with a best score that
/// tells the largest negated negamax value among all the moves, when the
/// best score so far tells the largest among the moves before.
proof fn lemma_pvs_scan_tells(
    pos: Position,
    depth: nat,
    alpha: i32,
    beta: i32,
    moves: Seq<Move>,
    i: int,
    scan: PvsScan,
    truth: int,
)
    requires
        0 < depth <= MAX_DEPTH,
        -INFINITY <= alpha < beta <= INFINITY,
        0 <= i <= moves.len(),
        scan.best == NO_SCORE || -SCORE_LIMIT <= scan.best <= SCORE_LIMIT,
        truth == NO_SCORE || -SCORE_LIMIT <= truth <= SCORE_LIMIT,
        scan.alpha == (if scan.best > alpha {
            scan.best
        } else {
            alpha
        }),
        scan.cut == (scan.alpha >= beta),
        i == 0 ==> !scan.cut,
        tells(scan.best as int, truth, alpha as int, beta as int),
    ensures
        ({
            let end = pvs_scan(pos, depth, beta, moves, i, scan);
            let all = crate::negamax::negamax_scan(pos, depth, moves, i, truth);
            &&& tells(end.best as int, all, alpha as int, beta as int)
            &&& (end.best == NO_SCORE || -SCORE_LIMIT <= end.best <= SCORE_LIMIT)
            &&& (i < moves.len() && !scan.cut ==> end.best != NO_SCORE)
            &&& (scan.best != NO_SCORE ==> end.best != NO_SCORE)
        }),
    decreases depth, 1nat, moves.len() - i,
{
    if i >= moves.len() {
    } else if scan.cut {
        crate::negamax::lemma_negamax_scan_bounded(pos, depth, moves, i, truth);
    } else {
        lemma_pvs_try_tells(pos, depth, beta, moves[i], i == 0, scan.alpha);
        crate::negamax::lemma_negamax_bounded(pos.after(moves[i]), (depth - 1) as nat);
        let (score, line) = pvs_try(pos, depth, beta, moves[i], i == 0, scan.alpha);
        let worth = -crate::negamax::negamax_value(pos.after(moves[i]), (depth - 1) as nat);
        let better = score > scan.best;
        let raised = if score > scan.alpha {
            score
        } else {
            scan.alpha
        };
        let next = PvsScan {
            alpha: raised,
            best: if better {
                score
            } else {
                scan.best
            },
            pv: if better {
                seq![moves[i]] + line
            } else {
                scan.pv
            },
            cut: raised >= beta,
        };
        let grown = crate::quiescence::larger(truth, worth);
        assert(tells(next.best as int, grown, alpha as int, beta as int));
        lemma_pvs_scan_tells(pos, depth, alpha, beta, moves, i + 1, next, grown);
    }
}

/// With the whole range of scores for its window, principal variation
/// search finds the negamax value of the position.
pub proof fn lemma_pvs_finds_negamax(pos: Position, depth: nat)
    requires
        depth <= MAX_DEPTH,
    ensures
        pvs(pos, depth, (-INFINITY) as i32, INFINITY).0 == crate::negamax::negamax_value(
            pos,
            depth,
        ),
{
    lemma_pvs_tells_negamax(pos, depth, (-INFINITY) as i32, INFINITY);
}

} // verus!
