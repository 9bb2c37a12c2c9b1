//! The time manager: how long a search may take, and whether that time is up.

use crate::commands::TimeControl;
use crate::types::Color;
use std::time::{Duration, Instant};
use vstd::prelude::*;

verus! {

#[verifier::external_type_specification]
#[verifier::external_body]
pub struct ExInstant(Instant);

/// `Instant::now`: the present moment. Nothing is known of it.
#[verifier::external_body]
fn now() -> Instant {
    Instant::now()
}

/// `Instant::elapsed`: the time gone by since `start`. Nothing is known of it.
#[verifier::external_body]
fn elapsed_since(start: &Instant) -> Duration {
    start.elapsed()
}

/// `Duration::as_millis`: the whole milliseconds of `span`, as far as 64
/// bits count them. Nothing is stated of their number.
#[verifier::external_body]
fn whole_millis(span: &Duration) -> u64 {
    span.as_millis() as u64
}

/// The milliseconds that an unlimited search is planned for: one hour.
pub const UNLIMITED_MS: u64 = 3_600_000;

/// The milliseconds allowed when the time control names no time at all.
pub const DEFAULT_MS: u64 = 1000;

/// The milliseconds taken as a share of the clock when the moves to go are zero.
pub const FALLBACK_SHARE_MS: u64 = 100;

/// The moves that the clock is shared among when the time control names none.
pub const DEFAULT_MOVES_TO_GO: u32 = 40;

/// How much time a search has, in milliseconds.
#[derive(Copy, Clone, PartialEq, Eq, Structural, Debug)]
pub struct TimeBudget {
    /// The hard limit: the search stops once this long has gone by.
    pub time_limit: Option<u64>,
    /// The emergency limit.
    pub max_time: Option<u64>,
    /// The time set aside for the move.
    pub allocated: u64,
}

/// The sum of `a` and `b`, or the largest number when that is too large.
pub open spec fn capped_sum(a: int, b: int) -> u64 {
    if a + b > u64::MAX {
        u64::MAX
    } else {
        (a + b) as u64
    }
}

/// `a` times `b`, or the largest number when that is too large.
pub open spec fn capped_product(a: int, b: int) -> u64 {
    if a * b > u64::MAX {
        u64::MAX
    } else {
        (a * b) as u64
    }
}

/// The time set aside for a move played on the clock: the remaining time
/// shared among the moves to go, 40 when none are named, plus three
/// quarters of the increment.
pub open spec fn clock_allocation(remaining: u64, increment: Option<u64>, movestogo: Option<u32>)
    -> u64 {
    let moves = match movestogo {
        Some(m) => m,
        None => DEFAULT_MOVES_TO_GO,
    };
    let share = if moves == 0 {
        FALLBACK_SHARE_MS as int
    } else {
        remaining as int / moves as int
    };
    let bonus = match increment {
        Some(inc) => capped_product(inc as int, 3) as int / 4,
        None => 0,
    };
    capped_sum(share, bonus)
}

/// The time that `tc` gives `color`. An infinite search has no limit and an
/// hour set aside. A fixed time per move is limit, emergency limit and
/// allocation at once. On the clock the allocation is `clock_allocation`,
/// the hard limit nine tenths of it and the emergency limit five times it.
/// With no time named at all, everything is one second.
pub open spec fn budget_of(tc: TimeControl, color: Color) -> TimeBudget {
    if tc.infinite {
        TimeBudget { time_limit: None, max_time: None, allocated: UNLIMITED_MS }
    } else if tc.movetime.is_some() {
        let t = tc.movetime.unwrap();
        TimeBudget { time_limit: Some(t), max_time: Some(t), allocated: t }
    } else {
        let (remaining, increment) = if color == Color::White {
            (tc.wtime, tc.winc)
        } else {
            (tc.btime, tc.binc)
        };
        match remaining {
            Some(ours) => {
                let allocated = clock_allocation(ours, increment, tc.movestogo);
                TimeBudget {
                    time_limit: Some((allocated / 10 * 9 + allocated % 10 * 9 / 10) as u64),
                    max_time: Some(capped_product(allocated as int, 5)),
                    allocated,
                }
            },
            None => TimeBudget {
                time_limit: Some(DEFAULT_MS),
                max_time: Some(DEFAULT_MS),
                allocated: DEFAULT_MS,
            },
        }
    }
}

/// The time that `time_control` gives `color`.
pub fn plan_time(time_control: &TimeControl, color: Color) -> (budget: TimeBudget)
    ensures
        budget == budget_of(*time_control, color),
{
    if time_control.infinite {
        TimeBudget { time_limit: None, max_time: None, allocated: UNLIMITED_MS }
    } else if let Some(t) = time_control.movetime {
        TimeBudget { time_limit: Some(t), max_time: Some(t), allocated: t }
    } else {
        let (remaining, increment) = match color {
            Color::White => (time_control.wtime, time_control.winc),
            Color::Black => (time_control.btime, time_control.binc),
        };
        match remaining {
            Some(ours) => {
                let moves = match time_control.movestogo {
                    Some(m) => m,
                    None => DEFAULT_MOVES_TO_GO,
                };
                let share: u64 = if moves == 0 {
                    FALLBACK_SHARE_MS
                } else {
                    ours / (moves as u64)
                };
                let bonus: u64 = match increment {
                    Some(inc) => {
                        let tripled: u64 = if inc > u64::MAX / 3 {
                            u64::MAX
                        } else {
                            inc * 3
                        };
                        tripled / 4
                    },
                    None => 0,
                };
                let allocated: u64 = if share > u64::MAX - bonus {
                    u64::MAX
                } else {
                    share + bonus
                };
                let limit: u64 = allocated / 10 * 9 + allocated % 10 * 9 / 10;
                let emergency: u64 = if allocated > u64::MAX / 5 {
                    u64::MAX
                } else {
                    allocated * 5
                };
                TimeBudget { time_limit: Some(limit), max_time: Some(emergency), allocated }
            },
            None => TimeBudget {
                time_limit: Some(DEFAULT_MS),
                max_time: Some(DEFAULT_MS),
                allocated: DEFAULT_MS,
            },
        }
    }
}

/// Whether a search with `budget` has to stop once `elapsed` milliseconds
/// have gone by: when that is the hard limit or more, or the emergency
/// limit or more.
pub open spec fn time_is_up(budget: TimeBudget, elapsed: u64) -> bool {
    (budget.time_limit.is_some() && elapsed >= budget.time_limit.unwrap()) || (
    budget.max_time.is_some() && elapsed >= budget.max_time.unwrap())
}

/// What is left of the hard limit of `budget` once `elapsed` milliseconds
/// have gone by; nothing to say when there is no hard limit.
pub open spec fn time_left(budget: TimeBudget, elapsed: u64) -> Option<u64> {
    match budget.time_limit {
        Some(limit) => Some(
            if elapsed >= limit {
                0u64
            } else {
                (limit - elapsed) as u64
            },
        ),
        None => None,
    }
}

/// Whether a search with `budget` has to stop after `elapsed` milliseconds.
pub fn should_stop_at(budget: &TimeBudget, elapsed: u64) -> (stop: bool)
    ensures
        stop == time_is_up(*budget, elapsed),
{
    if let Some(limit) = budget.time_limit {
        if elapsed >= limit {
            return true;
        }
    }
    if let Some(max) = budget.max_time {
        if elapsed >= max {
            return true;
        }
    }
    false
}

/// What is left of the hard limit of `budget` after `elapsed` milliseconds.
pub fn remaining_at(budget: &TimeBudget, elapsed: u64) -> (left: Option<u64>)
    ensures
        left == time_left(*budget, elapsed),
{
    match budget.time_limit {
        Some(limit) => Some(
            if elapsed >= limit {
                0
            } else {
                limit - elapsed
            },
        ),
        None => None,
    }
}

/// The time manager of one search: when it started and how long it may take.
pub struct TimeManager {
    start_time: Instant,
    budget: TimeBudget,
}

impl TimeManager {
    /// How long the search may take.
    pub closed spec fn budget(&self) -> TimeBudget {
        self.budget
    }

    /// The manager sets no limit: its search is never stopped for time.
    pub open spec fn unlimited(&self) -> bool {
        self.budget().time_limit.is_none() && self.budget().max_time.is_none()
    }

    /// A manager that starts now with the time that `time_control` gives `color`.
    pub fn new(time_control: &TimeControl, color: Color) -> (tm: TimeManager)
        ensures
            tm.budget() == budget_of(*time_control, color),
    {
        TimeManager { start_time: now(), budget: plan_time(time_control, color) }
    }

    /// How long the search may take.
    pub fn limits(&self) -> (budget: TimeBudget)
        ensures
            budget == self.budget(),
    {
        self.budget
    }

    /// Whether the time is up: whether the time gone by, whatever the clock
    /// says it is, has reached the hard or the emergency limit. Never so for
    /// a manager without limits.
    pub fn should_stop(&self) -> (stop: bool)
        ensures
            self.unlimited() ==> !stop,
            exists|elapsed: u64| stop == time_is_up(self.budget(), elapsed),
    {
        if self.budget.time_limit.is_none() && self.budget.max_time.is_none() {
            assert(!time_is_up(self.budget(), 0));
            false
        } else {
            let elapsed = self.elapsed();
            should_stop_at(&self.budget, elapsed)
        }
    }

    /// The milliseconds gone by since the search started.
    pub fn elapsed(&self) -> u64 {
        let span = elapsed_since(&self.start_time);
        whole_millis(&span)
    }

    /// What is left of the hard limit after the time gone by, whatever the
    /// clock says it is; `None` when there is no hard limit.
    pub fn remaining_time(&self) -> (left: Option<u64>)
        ensures
            left.is_some() == self.budget().time_limit.is_some(),
            exists|elapsed: u64| left == time_left(self.budget(), elapsed),
    {
        match self.budget.time_limit {
            Some(_) => {
                let elapsed = self.elapsed();
                remaining_at(&self.budget, elapsed)
            },
            None => {
                assert(time_left(self.budget(), 0) == None::<u64>);
                None
            },
        }
    }
}

} // verus!
