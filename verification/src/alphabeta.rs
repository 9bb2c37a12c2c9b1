//! Alpha-beta search with a transposition table, and iterative deepening on
//! top of it.

use crate::bitset::popcount;
use crate::cancel::{cancelled, never_cancelled};
use crate::commands::TimeControl;
use crate::evaluator::Evaluator;
use crate::legal::{legal_moves, legal_moves_of, lemma_legal_moves_are_legal};
use crate::magic::MagicTables;
use crate::moves::{Move, MoveList};
use crate::negamax::{score_without_moves, terminal_score, MAX_DEPTH, NO_SCORE, SCORE_LIMIT};
use crate::position::Position;
use crate::quiescence::{larger, quiesce, quiescence_search, smaller, INFINITY};
use crate::time::TimeManager;
use crate::transposition::{
    probe_slots, store_slots, NodeType, Slots, TTEntry, TranspositionTable,
};
use std::sync::atomic::AtomicBool;
use vstd::prelude::*;

verus! {

/// What a search returns: the best move it found, if any, the score of the
/// position for the side to move, and the number of nodes it visited.
#[derive(Copy, Clone, Debug)]
pub struct SearchResult {
    pub best_move: Option<Move>,
    pub score: i32,
    pub nodes_searched: u64,
}

/// The sum of two node counts, or the largest count when that is too large.
pub open spec fn capped_nodes(a: int, b: int) -> u64 {
    if a + b > u64::MAX {
        u64::MAX
    } else {
        (a + b) as u64
    }
}

/// Whether the stored `entry` may stand in for a search `depth` plies deep:
/// it was searched at least as deep and its score is one a search can give.
pub open spec fn usable(entry: TTEntry, depth: nat) -> bool {
    entry.depth >= depth && -SCORE_LIMIT <= entry.score <= SCORE_LIMIT
}

/// How far the scan of the moves of a node has come.
pub struct Scan {
    /// The lower bound of the window as the moves so far have raised it.
    pub alpha: i32,
    /// The best score so far.
    pub best: i32,
    /// The move that gave the best score.
    pub best_move: Option<Move>,
    /// The nodes visited so far.
    pub nodes: u64,
    /// Whether a score has reached the upper bound.
    pub cut: bool,
    /// The contents of the transposition table.
    pub slots: Slots,
}

/// What alpha-beta search gives for `pos`, searched `depth` plies deep in
/// the window from `alpha` to `beta` with a table that holds `slots`, when
/// nothing stops it: the result, and what the table holds afterwards.
///
/// A usable entry of the table answers at once when it is exact; a lower
/// bound raises `alpha`, an upper bound lowers `beta`, and the entry answers
/// when the window is then empty. At depth zero the answer is the
/// quiescence value. Without a legal move it is the score of mate or
/// stalemate. Otherwise the moves are scanned, and the best score is stored
/// with its move: as a lower bound after a cutoff, as exact when it raised
/// `alpha`, as an upper bound when it did not.
pub open spec fn alpha_beta(pos: Position, depth: nat, alpha: i32, beta: i32, slots: Slots) -> (
    SearchResult,
    Slots,
)
    decreases depth, 1nat, 0nat,
{
    let hit = probe_slots(slots, pos.hash.0);
    let known = hit.is_some() && usable(hit.unwrap(), depth);
    let entry = hit.unwrap();
    let answer = SearchResult {
        best_move: Some(entry.best_move),
        score: entry.score,
        nodes_searched: 1,
    };
    let low = if known && entry.node_type == NodeType::Lower && entry.score > alpha {
        entry.score
    } else {
        alpha
    };
    let high = if known && entry.node_type == NodeType::Upper && entry.score < beta {
        entry.score
    } else {
        beta
    };
    if known && (entry.node_type == NodeType::Exact || low >= high) {
        (answer, slots)
    } else if depth == 0 {
        (
            SearchResult {
                best_move: None,
                score: quiesce(pos, low as int, high as int, popcount(pos.occupied())) as i32,
                nodes_searched: 1,
            },
            slots,
        )
    } else if legal_moves_of(pos).len() == 0 {
        (
            SearchResult {
                best_move: None,
                score: terminal_score(pos, depth) as i32,
                nodes_searched: 1,
            },
            slots,
        )
    } else {
        let end = alpha_beta_scan(
            pos,
            depth,
            high,
            legal_moves_of(pos),
            0,
            Scan { alpha: low, best: NO_SCORE, best_move: None, nodes: 1, cut: false, slots },
        );
        let kind = if end.cut {
            NodeType::Lower
        } else if end.best > low {
            NodeType::Exact
        } else {
            NodeType::Upper
        };
        (
            SearchResult { best_move: end.best_move, score: end.best, nodes_searched: end.nodes },
            match end.best_move {
                Some(mv) => store_slots(
                    end.slots,
                    pos.hash.0,
                    TTEntry { score: end.best, best_move: mv, depth: depth as i32, node_type: kind },
                ),
                None => end.slots,
            },
        )
    }
}

/// The scan of the moves from number `i` on: each move is searched one ply
/// less deep in the negated window, its negated score becomes the best when
/// it beats the best so far and raises `alpha` when it beats `alpha`, and
/// the scan ends when `alpha` reaches `beta`.
pub open spec fn alpha_beta_scan(
    pos: Position,
    depth: nat,
    beta: i32,
    moves: Seq<Move>,
    i: int,
    scan: Scan,
) -> Scan
    decreases depth, 0nat, moves.len() - i,
{
    if i < 0 || i >= moves.len() || scan.cut || depth == 0 {
        scan
    } else {
        let (child, slots) = alpha_beta(
            pos.after(moves[i]),
            (depth - 1) as nat,
            (-beta) as i32,
            (-scan.alpha) as i32,
            scan.slots,
        );
        let score = (-child.score) as i32;
        let better = score > scan.best;
        let alpha = if score > scan.alpha {
            score
        } else {
            scan.alpha
        };
        alpha_beta_scan(
            pos,
            depth,
            beta,
            moves,
            i + 1,
            Scan {
                alpha,
                best: if better {
                    score
                } else {
                    scan.best
                },
                best_move: if better {
                    Some(moves[i])
                } else {
                    scan.best_move
                },
                nodes: capped_nodes(scan.nodes as int, child.nodes_searched as int),
                cut: alpha >= beta,
                slots,
            },
        )
    }
}

/// Searches `position` `depth` plies deep in the window from `alpha` to
/// `beta`. The search asks before each move whether it has to stop; a
/// search that was stopped returns the best it has found and stores nothing
/// for the node it was stopped in. The move it returns is a legal move of
/// the position, or the move that the table held for the position.
pub fn alpha_beta_search(
    depth: i32,
    alpha: i32,
    beta: i32,
    tt: &mut TranspositionTable,
    evaluator: &Evaluator,
    tables: &MagicTables,
    position: &Position,
    stop_flag: Option<&AtomicBool>,
    clock: &TimeManager,
) -> (result: SearchResult)
    requires
        old(tt).wf(),
        tables.wf(),
        position.hash_consistent(),
        0 <= depth <= MAX_DEPTH,
        -INFINITY <= alpha <= INFINITY,
        -INFINITY <= beta <= INFINITY,
    ensures
        final(tt).wf(),
        final(tt).capacity() == old(tt).capacity(),
        -INFINITY <= result.score <= INFINITY,
        result.nodes_searched >= 1,
        result.best_move matches Some(mv) ==> legal_moves_of(*position).contains(mv) || (
        probe_slots(old(tt)@, position.hash.0) matches Some(entry) && entry.best_move == mv),
        never_cancelled(stop_flag, clock) ==> (result, final(tt)@) == alpha_beta(
            *position,
            depth as nat,
            alpha,
            beta,
            old(tt)@,
        ),
    decreases depth,
{
    let pos_hash = position.zobrist_hash().value();
    let mut low = alpha;
    let mut high = beta;
    if let Some(entry) = tt.probe(pos_hash) {
        if entry.depth >= depth && -SCORE_LIMIT <= entry.score && entry.score <= SCORE_LIMIT {
            let answer = SearchResult {
                best_move: Some(entry.best_move),
                score: entry.score,
                nodes_searched: 1,
            };
            match entry.node_type {
                NodeType::Exact => {
                    return answer;
                },
                NodeType::Lower => {
                    if entry.score > low {
                        low = entry.score;
                    }
                },
                NodeType::Upper => {
                    if entry.score < high {
                        high = entry.score;
                    }
                },
            }
            if low >= high {
                return answer;
            }
        }
    }
    if depth == 0 {
        let score = quiescence_search(low, high, evaluator, tables, position, stop_flag, clock);
        return SearchResult { best_move: None, score, nodes_searched: 1 };
    }
    let moves = legal_moves(tables, position);
    let n = moves.len();
    if n == 0 {
        return SearchResult {
            best_move: None,
            score: score_without_moves(tables, position, depth),
            nodes_searched: 1,
        };
    }
    let mut running = low;
    let mut best_score: i32 = NO_SCORE;
    let mut best_move: Option<Move> = None;
    let mut nodes: u64 = 1;
    let mut cut = false;
    let mut stopped = false;
    let mut i: usize = 0;
    let ghost start = Scan {
        alpha: low,
        best: NO_SCORE,
        best_move: None,
        nodes: 1,
        cut: false,
        slots: tt@,
    };
    let ghost goal = alpha_beta_scan(*position, depth as nat, high, moves@, 0, start);
    while i < n && !cut && !stopped
        invariant
            tt.wf(),
            tt.capacity() == old(tt).capacity(),
            tables.wf(),
            position.hash_consistent(),
            0 < depth <= MAX_DEPTH,
            n == moves@.len(),
            i <= n,
            moves@ == legal_moves_of(*position),
            -INFINITY <= high <= INFINITY,
            -INFINITY <= running <= INFINITY,
            best_score == NO_SCORE || -INFINITY <= best_score <= INFINITY,
            best_move.is_some() ==> best_score != NO_SCORE,
            best_move matches Some(mv) ==> legal_moves_of(*position).contains(mv),
            i > 0 ==> best_move.is_some(),
            best_move.is_none() ==> best_score == NO_SCORE,
            cut ==> i > 0,
            nodes >= 1,
            never_cancelled(stop_flag, clock) ==> !stopped,
            never_cancelled(stop_flag, clock) ==> goal == alpha_beta_scan(
                *position,
                depth as nat,
                high,
                moves@,
                i as int,
                Scan { alpha: running, best: best_score, best_move, nodes, cut, slots: tt@ },
            ),
        decreases n - i, (if stopped { 0int } else { 1int }),
    {
        if cancelled(stop_flag, clock) {
            stopped = true;
        } else {
            let mv = moves.at(i);
            proof {
                lemma_legal_moves_are_legal(*position, i as int);
            }
            match position.play(mv) {
                None => {
                    assert(false);
                },
                Some(child) => {
                    let child_result = alpha_beta_search(
                        depth - 1,
                        -high,
                        -running,
                        tt,
                        evaluator,
                        tables,
                        &child,
                        stop_flag,
                        clock,
                    );
                    let score = -child_result.score;
                    nodes = if nodes > u64::MAX - child_result.nodes_searched {
                        u64::MAX
                    } else {
                        nodes + child_result.nodes_searched
                    };
                    if score > best_score {
                        best_score = score;
                        best_move = Some(mv);
                    }
                    if score > running {
                        running = score;
                    }
                    if running >= high {
                        cut = true;
                    }
                },
            }
            i += 1;
        }
    }
    if stopped || cancelled(stop_flag, clock) {
        return SearchResult {
            best_move,
            score: if best_move.is_some() {
                best_score
            } else {
                low
            },
            nodes_searched: nodes,
        };
    }
    let node_type = if cut {
        NodeType::Lower
    } else if best_score > low {
        NodeType::Exact
    } else {
        NodeType::Upper
    };
    match best_move {
        Some(mv) => {
            tt.store(pos_hash, TTEntry { score: best_score, best_move: mv, depth, node_type });
            SearchResult { best_move, score: best_score, nodes_searched: nodes }
        },
        None => {
            proof {
                if never_cancelled(stop_flag, clock) {
                    lemma_legal_moves_are_legal(*position, 0);
                }
            }
            SearchResult { best_move, score: low, nodes_searched: nodes }
        },
    }
}

/// The depth that iterative deepening stops at when the time control names none.
pub const DEFAULT_DEPTH: i32 = 8;

/// The deepest iteration that `tc` asks for: its depth, `DEFAULT_DEPTH` when
/// it names none, and never more than `MAX_DEPTH`.
pub open spec fn depth_ceiling(tc: TimeControl) -> nat {
    match tc.depth {
        Some(d) => if d > MAX_DEPTH {
            MAX_DEPTH as nat
        } else {
            d as nat
        },
        None => DEFAULT_DEPTH as nat,
    }
}

/// The first legal move of `pos`, if it has one.
pub open spec fn first_legal(pos: Position) -> Option<Move> {
    if legal_moves_of(pos).len() > 0 {
        Some(legal_moves_of(pos)[0])
    } else {
        None
    }
}

/// What the iterations from depth `d` to depth `max` give, when nothing
/// stops them: each searches the full window, and its move replaces the
/// move in hand when it is a legal move of `pos`.
pub open spec fn deepen(pos: Position, d: nat, max: nat, current: SearchResult, slots: Slots) -> (
    SearchResult,
    Slots,
)
    decreases max + 1 - d,
{
    if d > max {
        (current, slots)
    } else {
        let (found, after) = alpha_beta(pos, d, (-INFINITY) as i32, INFINITY, slots);
        let keeps = found.best_move.is_some() && legal_moves_of(pos).contains(
            found.best_move.unwrap(),
        );
        deepen(
            pos,
            d + 1,
            max,
            SearchResult {
                best_move: if keeps {
                    found.best_move
                } else {
                    current.best_move
                },
                score: found.score,
                nodes_searched: found.nodes_searched,
            },
            after,
        )
    }
}

/// What iterative deepening gives for `pos` under `tc` when nothing stops
/// it: the iterations from depth one to the depth ceiling, starting with the
/// first legal move in hand.
pub open spec fn iterative(pos: Position, tc: TimeControl, slots: Slots) -> (SearchResult, Slots) {
    deepen(
        pos,
        1,
        depth_ceiling(tc),
        SearchResult { best_move: first_legal(pos), score: 0, nodes_searched: 0 },
        slots,
    )
}

/// Whether the next iteration is likely to take too long: four times the
/// time gone by is more than eight tenths of the time left. Never so when
/// there is no limit.
pub fn next_depth_too_costly(elapsed: u64, remaining: Option<u64>) -> (stop: bool)
    ensures
        stop == (remaining.is_some() && 5 * elapsed > remaining.unwrap()),
{
    match remaining {
        Some(left) => elapsed > left / 5,
        None => false,
    }
}

/// Whether `mv` is in `list`.
pub fn list_contains(list: &MoveList, mv: Move) -> (found: bool)
    ensures
        found == list@.contains(mv),
{
    let n = list.len();
    let mut i: usize = 0;
    while i < n
        invariant
            n == list@.len(),
            i <= n,
            forall|k: int| 0 <= k < i ==> list@[k] != mv,
        decreases n - i,
    {
        if list.at(i) == mv {
            return true;
        }
        i += 1;
    }
    false
}

/// The first legal move of `position`, to fall back on when the search
/// finds none.
pub fn generate_fallback_move(tables: &MagicTables, position: &Position) -> (mv: Option<Move>)
    requires
        tables.wf(),
        position.hash_consistent(),
    ensures
        mv == first_legal(*position),
{
    legal_moves(tables, position).get(0)
}

/// Searches `position` one depth after the other, up to the depth ceiling
/// of `time_control`, and returns the result of the deepest iteration that
/// ran to its end. It stops between iterations when the stop flag is set,
/// when the time is up, or when the next iteration is likely to take too
/// long. The move returned is a legal move whenever there is one: the first
/// legal move until an iteration has found another.
pub fn iterative_deepening(
    time_control: &TimeControl,
    tt: &mut TranspositionTable,
    evaluator: &Evaluator,
    tables: &MagicTables,
    position: &Position,
    stop_flag: Option<&AtomicBool>,
) -> (result: SearchResult)
    requires
        old(tt).wf(),
        tables.wf(),
        position.hash_consistent(),
    ensures
        final(tt).wf(),
        final(tt).capacity() == old(tt).capacity(),
        legal_moves_of(*position).len() > 0 ==> result.best_move.is_some() && legal_moves_of(
            *position,
        ).contains(result.best_move.unwrap()),
        legal_moves_of(*position).len() == 0 ==> result.best_move.is_none(),
        stop_flag.is_none() && time_control.infinite ==> (result, final(tt)@) == iterative(
            *position,
            *time_control,
            old(tt)@,
        ),
{
    let clock = TimeManager::new(time_control, position.side_to_move);
    let max_depth: i32 = match time_control.depth {
        Some(d) => if d > MAX_DEPTH as u32 {
            MAX_DEPTH
        } else {
            d as i32
        },
        None => DEFAULT_DEPTH,
    };
    let legal = legal_moves(tables, position);
    let mut result = SearchResult { best_move: legal.get(0), score: 0, nodes_searched: 0 };
    let mut depth: i32 = 1;
    let mut halted = false;
    let ghost free = stop_flag.is_none() && time_control.infinite;
    let ghost goal = iterative(*position, *time_control, tt@);
    while depth <= max_depth && !halted
        invariant
            tt.wf(),
            tt.capacity() == old(tt).capacity(),
            tables.wf(),
            position.hash_consistent(),
            1 <= depth <= max_depth + 1,
            max_depth <= MAX_DEPTH,
            max_depth == depth_ceiling(*time_control),
            legal@ == legal_moves_of(*position),
            legal@.len() > 0 ==> result.best_move.is_some() && legal@.contains(
                result.best_move.unwrap(),
            ),
            legal@.len() == 0 ==> result.best_move.is_none(),
            free == (stop_flag.is_none() && time_control.infinite),
            free ==> never_cancelled(stop_flag, &clock),
            free ==> !halted,
            free ==> goal == deepen(*position, depth as nat, max_depth as nat, result, tt@),
        decreases max_depth + 1 - depth, (if halted { 0int } else { 1int }),
    {
        if cancelled(stop_flag, &clock) {
            halted = true;
        } else if depth > 1 && next_depth_too_costly(clock.elapsed(), clock.remaining_time()) {
            halted = true;
        } else {
            let found = alpha_beta_search(
                depth,
                -INFINITY,
                INFINITY,
                tt,
                evaluator,
                tables,
                position,
                stop_flag,
                &clock,
            );
            if cancelled(stop_flag, &clock) {
                halted = true;
            } else {
                let keeps = match found.best_move {
                    Some(mv) => list_contains(&legal, mv),
                    None => false,
                };
                result = SearchResult {
                    best_move: if keeps {
                        found.best_move
                    } else {
                        result.best_move
                    },
                    score: found.score,
                    nodes_searched: found.nodes_searched,
                };
                depth += 1;
            }
        }
    }
    result
}

/// A search that nothing stops is a function of what it is given: two
/// searches of the same position to the same depth in the same window, with
/// tables that hold the same, give the same result and leave the same in
/// their tables.
pub proof fn lemma_search_is_deterministic(
    pos: Position,
    depth: nat,
    alpha: i32,
    beta: i32,
    slots: Slots,
    first: (SearchResult, Slots),
    second: (SearchResult, Slots),
)
    requires
        first == alpha_beta(pos, depth, alpha, beta, slots),
        second == alpha_beta(pos, depth, alpha, beta, slots),
    ensures
        first == second,
{
}

/// Iterative deepening that nothing stops is a function of what it is
/// given: two runs on the same position under the same time control, with
/// tables that hold the same, give the same result.
pub proof fn lemma_deepening_is_deterministic(
    pos: Position,
    tc: TimeControl,
    slots: Slots,
    first: (SearchResult, Slots),
    second: (SearchResult, Slots),
)
    requires
        first == iterative(pos, tc, slots),
        second == iterative(pos, tc, slots),
    ensures
        first == second,
{
}

} // verus!
