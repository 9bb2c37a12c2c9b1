use m4k::cancel::cancelled;
use m4k::commands::TimeControl;
use m4k::time::{plan_time, remaining_at, should_stop_at, TimeBudget, TimeManager};
use m4k::types::Color;
use std::sync::atomic::{AtomicBool, Ordering};

fn none() -> TimeControl {
    TimeControl {
        wtime: None,
        btime: None,
        winc: None,
        binc: None,
        movestogo: None,
        depth: None,
        nodes: None,
        movetime: None,
        infinite: false,
    }
}

#[test]
fn infinite_has_no_limit_and_an_hour_set_aside() {
    let tc = TimeControl { infinite: true, movetime: Some(5), wtime: Some(1), ..none() };
    assert_eq!(
        plan_time(&tc, Color::White),
        TimeBudget { time_limit: None, max_time: None, allocated: 3_600_000 }
    );
}

#[test]
fn fixed_time_per_move() {
    let tc = TimeControl { movetime: Some(250), wtime: Some(60_000), ..none() };
    assert_eq!(
        plan_time(&tc, Color::Black),
        TimeBudget { time_limit: Some(250), max_time: Some(250), allocated: 250 }
    );
}

#[test]
fn clock_with_increment_and_moves_to_go() {
    let tc = TimeControl {
        wtime: Some(60_000),
        btime: Some(30_000),
        winc: Some(1000),
        binc: Some(2001),
        movestogo: Some(20),
        ..none()
    };
    // 60000 / 20 + 0.75 * 1000 = 3750; 0.9 * 3750 = 3375; 5 * 3750 = 18750.
    assert_eq!(
        plan_time(&tc, Color::White),
        TimeBudget { time_limit: Some(3375), max_time: Some(18750), allocated: 3750 }
    );
    // 30000 / 20 + 0.75 * 2001 = 1500 + 1500 = 3000 in whole milliseconds.
    assert_eq!(
        plan_time(&tc, Color::Black),
        TimeBudget { time_limit: Some(2700), max_time: Some(15000), allocated: 3000 }
    );
}

#[test]
fn moves_to_go_default_to_forty() {
    let tc = TimeControl { wtime: Some(40_000), ..none() };
    assert_eq!(
        plan_time(&tc, Color::White),
        TimeBudget { time_limit: Some(900), max_time: Some(5000), allocated: 1000 }
    );
    // Black's clock is not named: the default second.
    assert_eq!(
        plan_time(&tc, Color::Black),
        TimeBudget { time_limit: Some(1000), max_time: Some(1000), allocated: 1000 }
    );
    assert_eq!(
        plan_time(&TimeControl { depth: Some(3), ..none() }, Color::White),
        TimeBudget { time_limit: Some(1000), max_time: Some(1000), allocated: 1000 }
    );
}

#[test]
fn zero_moves_to_go_and_huge_numbers() {
    let tc = TimeControl { wtime: Some(40_000), movestogo: Some(0), ..none() };
    assert_eq!(plan_time(&tc, Color::White).allocated, 100);
    let tc = TimeControl { wtime: Some(u64::MAX), winc: Some(u64::MAX), movestogo: Some(1), ..none() };
    assert_eq!(
        plan_time(&tc, Color::White),
        TimeBudget {
            time_limit: Some(u64::MAX / 10 * 9 + 4),
            max_time: Some(u64::MAX),
            allocated: u64::MAX,
        }
    );
}

#[test]
fn stopping_and_remaining_time() {
    let budget = TimeBudget { time_limit: Some(900), max_time: Some(5000), allocated: 1000 };
    assert!(!should_stop_at(&budget, 0));
    assert!(!should_stop_at(&budget, 899));
    assert!(should_stop_at(&budget, 900));
    assert!(should_stop_at(&budget, 10_000));
    assert_eq!(remaining_at(&budget, 0), Some(900));
    assert_eq!(remaining_at(&budget, 899), Some(1));
    assert_eq!(remaining_at(&budget, 900), Some(0));
    assert_eq!(remaining_at(&budget, 5000), Some(0));
    let emergency = TimeBudget { time_limit: None, max_time: Some(50), allocated: 10 };
    assert!(!should_stop_at(&emergency, 49));
    assert!(should_stop_at(&emergency, 50));
    assert_eq!(remaining_at(&emergency, 7), None);
    let free = TimeBudget { time_limit: None, max_time: None, allocated: 3_600_000 };
    assert!(!should_stop_at(&free, u64::MAX));
    assert_eq!(remaining_at(&free, 7), None);
}

#[test]
fn a_manager_reads_the_clock() {
    let free = TimeManager::new(&TimeControl { infinite: true, ..none() }, Color::White);
    assert!(!free.should_stop());
    assert_eq!(free.remaining_time(), None);
    assert_eq!(free.limits().allocated, 3_600_000);
    let spent = TimeManager::new(&TimeControl { movetime: Some(0), ..none() }, Color::White);
    assert!(spent.should_stop());
    assert_eq!(spent.remaining_time(), Some(0));
    let long = TimeManager::new(&TimeControl { movetime: Some(3_600_000), ..none() }, Color::White);
    assert!(!long.should_stop());
    assert!(long.elapsed() < 3_600_000);
    let left = long.remaining_time().unwrap();
    assert!(left > 3_000_000 && left <= 3_600_000);
}

#[test]
fn a_search_is_cancelled_by_the_flag_or_by_the_clock() {
    let free = TimeManager::new(&TimeControl { infinite: true, ..none() }, Color::White);
    let spent = TimeManager::new(&TimeControl { movetime: Some(0), ..none() }, Color::Black);
    let flag = AtomicBool::new(false);
    assert!(!cancelled(None, &free));
    assert!(!cancelled(Some(&flag), &free));
    assert!(cancelled(None, &spent));
    assert!(cancelled(Some(&flag), &spent));
    flag.store(true, Ordering::Relaxed);
    assert!(cancelled(Some(&flag), &free));
    assert!(cancelled(Some(&flag), &spent));
    flag.store(false, Ordering::Relaxed);
    assert!(!cancelled(Some(&flag), &free));
}
