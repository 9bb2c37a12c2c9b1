//! Move ordering: a score for each move by which a search tries the most
//! promising moves first.

use crate::moves::{Move, MoveList, MoveType};
use crate::types::Piece;
use vstd::prelude::*;

verus! {

/// The classes of moves, the least promising first.
#[derive(Copy, Clone, PartialEq, Eq, Structural, Debug, PartialOrd, Ord)]
pub enum MoveScore {
    /// A quiet move, ranked by the history heuristic.
    Quiet,
    /// A capture that loses material.
    BadCapture,
    /// The second killer move.
    Killer2,
    /// The first killer move.
    Killer1,
    /// A promotion.
    Promotion,
    /// A capture that wins material.
    GoodCapture,
    /// The move from the transposition table.
    Hash,
}

impl MoveScore {
    pub open spec fn spec_value(self) -> int {
        match self {
            MoveScore::Quiet => 0,
            MoveScore::BadCapture => 2000,
            MoveScore::Killer2 => 4000,
            MoveScore::Killer1 => 5000,
            MoveScore::Promotion => 6000,
            MoveScore::GoodCapture => 8000,
            MoveScore::Hash => 10000,
        }
    }

    /// The base score of the class.
    pub fn value(self) -> (v: i32)
        ensures
            v == self.spec_value(),
    {
        match self {
            MoveScore::Quiet => 0,
            MoveScore::BadCapture => 2000,
            MoveScore::Killer2 => 4000,
            MoveScore::Killer1 => 5000,
            MoveScore::Promotion => 6000,
            MoveScore::GoodCapture => 8000,
            MoveScore::Hash => 10000,
        }
    }
}

/// Static exchange evaluation. It holds no state and rates every capture as even.
#[derive(Copy, Clone, Debug)]
pub struct SEE {}

impl SEE {
    /// A new evaluator of exchanges.
    pub fn new() -> SEE {
        SEE {  }
    }

    /// What the capture `mv` wins: nothing, for every move.
    pub fn evaluate_capture(&mut self, mv: Move) -> (gain: i32)
        ensures
            gain == 0,
    {
        0
    }
}

/// What a promotion into `piece` adds to the score of its class.
pub open spec fn promotion_bonus(piece: Piece) -> int {
    match piece {
        Piece::Queen => 900,
        Piece::Rook => 500,
        Piece::Bishop => 300,
        Piece::Knight => 300,
        _ => 0,
    }
}

/// The score of `mv` for ordering. The move from the table scores 10000; a
/// promotion 6000 and the bonus of its piece; an en-passant capture 8100;
/// castling 50; a normal move 5000 as the first killer, 4000 as the second,
/// and otherwise its history count.
pub open spec fn ordering_score(
    mv: Move,
    hash_move: Option<Move>,
    killers: Seq<Move>,
    history: Seq<[i32; 64]>,
) -> int {
    if hash_move == Some(mv) {
        MoveScore::Hash.spec_value()
    } else {
        match mv.spec_move_type() {
            MoveType::Promotion => MoveScore::Promotion.spec_value() + promotion_bonus(
                mv.spec_promotion_piece(),
            ),
            MoveType::EnPassant => MoveScore::GoodCapture.spec_value() + 100,
            MoveType::Castling => MoveScore::Quiet.spec_value() + 50,
            MoveType::Normal => if mv == killers[0] {
                MoveScore::Killer1.spec_value()
            } else if mv == killers[1] {
                MoveScore::Killer2.spec_value()
            } else {
                history[mv.spec_from().0 as int][mv.spec_to().0 as int] as int
            },
        }
    }
}

/// The score of `mv` for ordering.
pub fn score_move(
    mv: Move,
    hash_move: Option<Move>,
    killer_moves: &[Move; 2],
    history_table: &[[i32; 64]; 64],
    see_table: &mut SEE,
) -> (score: i32)
    ensures
        score == ordering_score(mv, hash_move, killer_moves@, history_table@),
{
    if let Some(hash) = hash_move {
        if hash == mv {
            return MoveScore::Hash.value();
        }
    }
    match mv.move_type() {
        MoveType::Promotion => {
            let bonus: i32 = match mv.promotion_piece() {
                Piece::Queen => 900,
                Piece::Rook => 500,
                Piece::Bishop => 300,
                Piece::Knight => 300,
                _ => 0,
            };
            MoveScore::Promotion.value() + bonus
        },
        MoveType::EnPassant => MoveScore::GoodCapture.value() + 100,
        MoveType::Castling => MoveScore::Quiet.value() + 50,
        MoveType::Normal => {
            if mv == killer_moves[0] {
                MoveScore::Killer1.value()
            } else if mv == killer_moves[1] {
                MoveScore::Killer2.value()
            } else {
                let from = mv.from().0 as usize;
                let to = mv.to().0 as usize;
                history_table[from][to]
            }
        },
    }
}

/// Whether the scores of `moves` never rise from one move to the next.
pub open spec fn ordered(
    moves: Seq<Move>,
    hash_move: Option<Move>,
    killers: Seq<Move>,
    history: Seq<[i32; 64]>,
) -> bool {
    forall|a: int, b: int|
        0 <= a < b < moves.len() ==> ordering_score(moves[a], hash_move, killers, history)
            >= ordering_score(moves[b], hash_move, killers, history)
}

/// Exchanges the moves at `i` and `j`.
fn exchange(moves: &mut MoveList, i: usize, j: usize)
    requires
        i < old(moves)@.len(),
        j < old(moves)@.len(),
    ensures
        final(moves)@ == old(moves)@.update(i as int, old(moves)@[j as int]).update(
            j as int,
            old(moves)@[i as int],
        ),
        final(moves)@.to_multiset() == old(moves)@.to_multiset(),
{
    let a = moves.at(i);
    let b = moves.at(j);
    moves.set(i, b);
    moves.set(j, a);
    proof {
        let s = old(moves)@;
        vstd::seq_lib::to_multiset_update(s, i as int, b);
        vstd::seq_lib::to_multiset_update(s.update(i as int, b), j as int, a);
        assert(s.to_multiset().insert(b).remove(a).insert(a).remove(s.update(i as int, b)[j as int])
            =~= s.to_multiset()) by {
            vstd::seq_lib::to_multiset_contains(s, a);
            vstd::seq_lib::to_multiset_contains(s, b);
            assert(s.contains(s[i as int]));
            assert(s.contains(s[j as int]));
        }
    }
}

/// Puts `moves` in the order of their scores, the highest first. The list
/// holds the same moves afterwards, each as often as before.
pub fn order_moves(
    moves: &mut MoveList,
    hash_move: Option<Move>,
    killer_moves: &[Move; 2],
    history_table: &[[i32; 64]; 64],
    see_table: &mut SEE,
)
    ensures
        final(moves)@.to_multiset() == old(moves)@.to_multiset(),
        final(moves)@.len() == old(moves)@.len(),
        ordered(final(moves)@, hash_move, killer_moves@, history_table@),
{
    let n = moves.len();
    let mut i: usize = 1;
    while i < n
        invariant
            n == moves@.len(),
            n == old(moves)@.len(),
            1 <= i,
            moves@.to_multiset() == old(moves)@.to_multiset(),
            forall|a: int, b: int|
                0 <= a < b < i && b < n ==> ordering_score(
                    moves@[a],
                    hash_move,
                    killer_moves@,
                    history_table@,
                ) >= ordering_score(moves@[b], hash_move, killer_moves@, history_table@),
        decreases n - i,
    {
        let mut j: usize = i;
        while j > 0 && score_move(moves.at(j - 1), hash_move, killer_moves, history_table, see_table)
            < score_move(moves.at(j), hash_move, killer_moves, history_table, see_table)
            invariant
                n == moves@.len(),
                n == old(moves)@.len(),
                j <= i < n,
                moves@.to_multiset() == old(moves)@.to_multiset(),
                forall|a: int, b: int|
                    0 <= a < b <= i && a != j && b != j ==> ordering_score(
                        moves@[a],
                        hash_move,
                        killer_moves@,
                        history_table@,
                    ) >= ordering_score(moves@[b], hash_move, killer_moves@, history_table@),
                forall|b: int|
                    j < b <= i ==> ordering_score(
                        moves@[j as int],
                        hash_move,
                        killer_moves@,
                        history_table@,
                    ) > ordering_score(moves@[b], hash_move, killer_moves@, history_table@),
            decreases j,
        {
            exchange(moves, j - 1, j);
            j -= 1;
        }
        i += 1;
    }
}

/// The sum of `a` and `b`, kept within 32 bits.
pub open spec fn clamped_sum(a: int, b: int) -> i32 {
    if a + b > i32::MAX {
        i32::MAX
    } else if a + b < i32::MIN {
        i32::MIN
    } else {
        (a + b) as i32
    }
}

/// Credits the normal move `mv` with a cutoff at `depth`: its history count
/// grows by the square of the depth, as far as 32 bits count. A move of
/// another kind leaves the table as it is.
pub fn update_history(history_table: &mut [[i32; 64]; 64], mv: Move, depth: i32)
    ensures
        mv.spec_move_type() != MoveType::Normal ==> *final(history_table) == *old(history_table),
        mv.spec_move_type() == MoveType::Normal ==> final(history_table)@[mv.spec_from().0 as int]@[mv.spec_to().0 as int]
            == clamped_sum(
            old(history_table)@[mv.spec_from().0 as int]@[mv.spec_to().0 as int] as int,
            depth * depth,
        ),
        forall|f: int, t: int|
            0 <= f < 64 && 0 <= t < 64 && (f != mv.spec_from().0 || t != mv.spec_to().0)
                ==> final(history_table)@[f]@[t] == old(history_table)@[f]@[t],
{
    if mv.move_type() == MoveType::Normal {
        let from = mv.from().0 as usize;
        let to = mv.to().0 as usize;
        assert(-2147483648 * -2147483648 == 4611686018427387904) by (nonlinear_arith);
        assert(0 <= depth * depth <= 4611686018427387904) by (nonlinear_arith)
            requires
                -2147483648 <= depth <= 2147483647,
        ;
        let bonus: i64 = (depth as i64) * (depth as i64);
        let total: i64 = history_table[from][to] as i64 + bonus;
        let kept: i32 = if total > i32::MAX as i64 {
            i32::MAX
        } else {
            total as i32
        };
        history_table[from][to] = kept;
    }
}

/// Half of `v`, rounded towards zero.
pub open spec fn halved(v: i32) -> int {
    if v >= 0 {
        v / 2
    } else {
        -((-v) / 2)
    }
}

/// Ages the history: every count is halved, rounded towards zero.
pub fn age_history(history_table: &mut [[i32; 64]; 64])
    ensures
        forall|f: int, t: int|
            0 <= f < 64 && 0 <= t < 64 ==> final(history_table)@[f]@[t] == halved(
                old(history_table)@[f]@[t],
            ),
{
    let mut from: usize = 0;
    while from < 64
        invariant
            from <= 64,
            forall|f: int, t: int|
                0 <= f < from && 0 <= t < 64 ==> history_table@[f]@[t] == halved(
                    old(history_table)@[f]@[t],
                ),
            forall|f: int, t: int|
                from <= f < 64 && 0 <= t < 64 ==> history_table@[f]@[t] == old(history_table)@[f]@[t],
        decreases 64 - from,
    {
        let mut to: usize = 0;
        while to < 64
            invariant
                from < 64,
                to <= 64,
                forall|f: int, t: int|
                    0 <= f < from && 0 <= t < 64 ==> history_table@[f]@[t] == halved(
                        old(history_table)@[f]@[t],
                    ),
                forall|f: int, t: int|
                    from < f < 64 && 0 <= t < 64 ==> history_table@[f]@[t] == old(history_table)@[f]@[t],
                forall|t: int|
                    0 <= t < to ==> history_table@[from as int]@[t] == halved(
                        old(history_table)@[from as int]@[t],
                    ),
                forall|t: int|
                    to <= t < 64 ==> history_table@[from as int]@[t] == old(history_table)@[from as int]@[t],
            decreases 64 - to,
        {
            let v = history_table[from][to];
            let half: i32 = if v >= 0 {
                v / 2
            } else if v == i32::MIN {
                -1_073_741_824
            } else {
                -((-v) / 2)
            };
            history_table[from][to] = half;
            to += 1;
        }
        from += 1;
    }
}

/// Records the normal move `mv` as a killer: it becomes the first killer
/// and the first becomes the second, unless it is the first already. A
/// move of another kind leaves the killers as they are.
pub fn update_killers(killer_moves: &mut [Move; 2], mv: Move)
    ensures
        mv.spec_move_type() == MoveType::Normal && mv != old(killer_moves)@[0] ==> final(killer_moves)@[0] == mv && final(killer_moves)@[1] == old(killer_moves)@[0],
        !(mv.spec_move_type() == MoveType::Normal && mv != old(killer_moves)@[0]) ==> *final(killer_moves) == *old(killer_moves),
{
    if mv.move_type() == MoveType::Normal {
        if mv != killer_moves[0] {
            killer_moves[1] = killer_moves[0];
            killer_moves[0] = mv;
        }
    }
}

} // verus!
