use m4k::alphabeta::{
    alpha_beta_search, generate_fallback_move, iterative_deepening, list_contains,
    next_depth_too_costly,
};
use m4k::commands::TimeControl;
use m4k::evaluator::Evaluator;
use m4k::legal::legal_moves;
use m4k::magic::init_magics;
use m4k::moves::Move;
use m4k::negamax::{negamax, score_without_moves, MATE_SCORE};
use m4k::position::Position;
use m4k::pvs::pvs_search;
use m4k::quiescence::{generate_captures, is_quiet_position, quiescence_search, INFINITY};
use m4k::time::TimeManager;
use m4k::transposition::{NodeType, TTEntry, TranspositionTable};
use m4k::types::{Color, Square};
use std::sync::atomic::AtomicBool;

fn from_fen(fen: &str) -> Position {
    let mut pos = Position::empty();
    assert_eq!(pos.set_fen(fen), Ok(()));
    pos
}

fn unlimited() -> TimeControl {
    TimeControl {
        wtime: None,
        btime: None,
        winc: None,
        binc: None,
        movestogo: None,
        depth: None,
        nodes: None,
        movetime: None,
        infinite: true,
    }
}

fn to_depth(depth: u32) -> TimeControl {
    TimeControl { depth: Some(depth), ..unlimited() }
}

#[test]
fn test_alpha_beta_structure() {
    let tables = init_magics().unwrap();
    let mut tt = TranspositionTable::with_size(1);
    let evaluator = Evaluator::new();
    let stop_flag = AtomicBool::new(false);
    let clock = TimeManager::new(&TimeControl { movetime: Some(1000), ..TimeControl::default() }, Color::White);

    let dummy_position = Position::empty();
    let result = alpha_beta_search(
        1,
        i32::MIN / 2,
        i32::MAX / 2,
        &mut tt,
        &evaluator,
        &tables,
        &dummy_position,
        Some(&stop_flag),
        &clock,
    );

    assert!(result.nodes_searched >= 1);
}

#[test]
fn test_negamax_structure() {
    let tables = init_magics().unwrap();
    let evaluator = Evaluator::new();
    let dummy_position = Position::empty();
    let result = negamax(1, &evaluator, &tables, &dummy_position);
    assert!(result.score >= i32::MIN && result.score <= i32::MAX);
}

#[test]
fn test_pvs_structure() {
    let tables = init_magics().unwrap();
    let evaluator = Evaluator::new();
    let dummy_position = Position::empty();
    let result = pvs_search(1, i32::MIN / 2, i32::MAX / 2, &evaluator, &tables, &dummy_position);
    assert!(result.score >= i32::MIN / 2 && result.score <= i32::MAX / 2);
}

#[test]
fn test_quiescence_structure() {
    let tables = init_magics().unwrap();
    let evaluator = Evaluator::new();
    let clock = TimeManager::new(&unlimited(), Color::White);
    let dummy_position = Position::empty();
    let score = quiescence_search(
        i32::MIN / 2,
        i32::MAX / 2,
        &evaluator,
        &tables,
        &dummy_position,
        None,
        &clock,
    );
    assert!(score >= i32::MIN / 2 && score <= i32::MAX / 2);
}

#[test]
fn depth_one_from_the_start_gives_a_legal_move() {
    let tables = init_magics().unwrap();
    let mut pos = Position::empty();
    pos.set_startpos();
    let mut tt = TranspositionTable::with_size(1);
    let result = iterative_deepening(&to_depth(1), &mut tt, &Evaluator::new(), &tables, &pos, None);
    let legal = legal_moves(&tables, &pos);
    assert_eq!(legal.len(), 20);
    assert!(list_contains(&legal, result.best_move.unwrap()));
}

#[test]
fn mate_in_one_is_found_at_depth_two() {
    let tables = init_magics().unwrap();
    let pos = from_fen("6k1/5ppp/8/8/8/8/5PPP/R5K1 w - - 0 1");
    let mut tt = TranspositionTable::with_size(1);
    let result = iterative_deepening(&to_depth(2), &mut tt, &Evaluator::new(), &tables, &pos, None);
    assert_eq!(result.best_move, Some(Move::new(Square(Square::A1), Square(Square::A8))));
    assert_eq!(result.score, MATE_SCORE + 1);
}

#[test]
fn stalemate_scores_zero_and_has_no_move() {
    let tables = init_magics().unwrap();
    let pos = from_fen("7k/5Q2/6K1/8/8/8/8/8 b - - 0 1");
    let evaluator = Evaluator::new();
    assert_eq!(negamax(3, &evaluator, &tables, &pos).score, 0);
    assert_eq!(score_without_moves(&tables, &pos, 3), 0);
    let mut tt = TranspositionTable::with_size(1);
    let clock = TimeManager::new(&unlimited(), Color::Black);
    let result = alpha_beta_search(3, -INFINITY, INFINITY, &mut tt, &evaluator, &tables, &pos, None, &clock);
    assert_eq!(result.score, 0);
    assert_eq!(result.best_move, None);
    let result = iterative_deepening(&to_depth(2), &mut tt, &evaluator, &tables, &pos, None);
    assert_eq!(result.best_move, None);
    assert_eq!(generate_fallback_move(&tables, &pos), None);
}

#[test]
fn being_mated_sooner_scores_worse() {
    let tables = init_magics().unwrap();
    let mated = from_fen("R5k1/5ppp/8/8/8/8/5PPP/6K1 b - - 1 1");
    assert_eq!(score_without_moves(&tables, &mated, 0), -MATE_SCORE);
    assert_eq!(score_without_moves(&tables, &mated, 5), -MATE_SCORE - 5);
    assert_eq!(negamax(2, &Evaluator::new(), &tables, &mated).score, -MATE_SCORE - 2);
}

#[test]
fn alpha_beta_agrees_with_negamax_on_quiet_positions() {
    let tables = init_magics().unwrap();
    let evaluator = Evaluator::new();
    let clock = TimeManager::new(&unlimited(), Color::White);
    for fen in [
        "k7/8/8/8/8/8/P7/K7 w - - 0 1",
        "k7/p7/8/8/8/8/8/K7 b - - 0 1",
        "7k/8/8/8/8/8/1N6/K7 w - - 0 1",
    ] {
        let pos = from_fen(fen);
        for depth in 1..=3 {
            let mut tt = TranspositionTable::with_size(1);
            let fast = alpha_beta_search(depth, -INFINITY, INFINITY, &mut tt, &evaluator, &tables, &pos, None, &clock);
            let plain = negamax(depth, &evaluator, &tables, &pos);
            assert_eq!(fast.score, plain.score, "{} at depth {}", fen, depth);
            let pvs = pvs_search(depth, -INFINITY, INFINITY, &evaluator, &tables, &pos);
            assert_eq!(pvs.score, plain.score, "{} at depth {}", fen, depth);
            assert_eq!(pvs.pv.len(), depth as usize);
            assert_eq!(Some(pvs.pv[0]), fast.best_move);
        }
    }
}

#[test]
fn search_gives_the_same_result_every_time() {
    let tables = init_magics().unwrap();
    let pos = from_fen("4k3/pppp4/8/8/8/8/PPPP4/4K3 w - - 0 1");
    let evaluator = Evaluator::new();
    let mut first = TranspositionTable::with_size(1);
    let mut second = TranspositionTable::with_size(1);
    let a = iterative_deepening(&to_depth(2), &mut first, &evaluator, &tables, &pos, None);
    let b = iterative_deepening(&to_depth(2), &mut second, &evaluator, &tables, &pos, None);
    assert_eq!(a.best_move, b.best_move);
    assert_eq!(a.score, b.score);
    assert_eq!(a.nodes_searched, b.nodes_searched);
    assert_eq!(first.stats().used_entries, second.stats().used_entries);
}

#[test]
fn a_set_stop_flag_ends_the_search_at_once_with_a_legal_move() {
    let tables = init_magics().unwrap();
    let mut pos = Position::empty();
    pos.set_startpos();
    let stop = AtomicBool::new(true);
    let mut tt = TranspositionTable::with_size(1);
    let result = iterative_deepening(&unlimited(), &mut tt, &Evaluator::new(), &tables, &pos, Some(&stop));
    assert_eq!(result.best_move, generate_fallback_move(&tables, &pos));
    assert_eq!(result.nodes_searched, 0);
    assert_eq!(tt.stats().used_entries, 0);
    let clock = TimeManager::new(&unlimited(), Color::White);
    let cut = alpha_beta_search(3, -50, 50, &mut tt, &Evaluator::new(), &tables, &pos, Some(&stop), &clock);
    assert_eq!(cut.best_move, None);
    assert_eq!(cut.score, -50);
    assert_eq!(cut.nodes_searched, 1);
    assert_eq!(tt.stats().used_entries, 0);
}

#[test]
fn a_stored_exact_entry_answers_for_its_position() {
    let tables = init_magics().unwrap();
    let mut pos = Position::empty();
    pos.set_startpos();
    let mut tt = TranspositionTable::with_size(1);
    let mv = Move::new(Square(Square::B1), Square(Square::C3));
    tt.store(pos.zobrist_hash().value(), TTEntry { score: 77, best_move: mv, depth: 9, node_type: NodeType::Exact });
    let clock = TimeManager::new(&unlimited(), Color::White);
    let evaluator = Evaluator::new();
    let hit = alpha_beta_search(3, -INFINITY, INFINITY, &mut tt, &evaluator, &tables, &pos, None, &clock);
    assert_eq!((hit.score, hit.best_move, hit.nodes_searched), (77, Some(mv), 1));
    // An entry that was searched less deep is not used.
    let deeper = alpha_beta_search(10, -INFINITY, INFINITY, &mut TranspositionTable::with_size(1), &evaluator, &tables, &Position::empty(), None, &clock);
    assert_eq!(deeper.nodes_searched, 1);
    tt.store(pos.zobrist_hash().value(), TTEntry { score: 77, best_move: mv, depth: 0, node_type: NodeType::Exact });
    let miss = alpha_beta_search(1, -INFINITY, INFINITY, &mut tt, &evaluator, &tables, &pos, None, &clock);
    assert_eq!(miss.nodes_searched, 21);
    // Bounds that close the window answer too.
    tt.store(pos.zobrist_hash().value(), TTEntry { score: 60, best_move: mv, depth: 5, node_type: NodeType::Lower });
    let cut = alpha_beta_search(2, -10, 50, &mut tt, &evaluator, &tables, &pos, None, &clock);
    assert_eq!((cut.score, cut.best_move, cut.nodes_searched), (60, Some(mv), 1));
    tt.store(pos.zobrist_hash().value(), TTEntry { score: -60, best_move: mv, depth: 5, node_type: NodeType::Upper });
    let cut = alpha_beta_search(2, -10, 50, &mut tt, &evaluator, &tables, &pos, None, &clock);
    assert_eq!((cut.score, cut.best_move, cut.nodes_searched), (-60, Some(mv), 1));
}

#[test]
fn quiescence_plays_out_captures() {
    let tables = init_magics().unwrap();
    let evaluator = Evaluator::new();
    let clock = TimeManager::new(&unlimited(), Color::White);
    // White can take a loose queen.
    let pos = from_fen("k7/8/8/3q4/4P3/8/8/K7 w - - 0 1");
    let stand_pat = evaluator.evaluate(&tables, &pos);
    let quiet = quiescence_search(-INFINITY, INFINITY, &evaluator, &tables, &pos, None, &clock);
    assert!(stand_pat < -700);
    assert!(quiet > 50);
    assert_eq!(generate_captures(&tables, &pos).to_vec(), vec![Move::new(Square(Square::E4), Square(Square::D5))]);
    // Standing pat above beta returns beta, below alpha returns alpha.
    let calm = from_fen("k7/8/8/8/8/8/8/K7 w - - 0 1");
    assert_eq!(evaluator.evaluate(&tables, &calm), 0);
    assert_eq!(quiescence_search(-300, -200, &evaluator, &tables, &calm, None, &clock), -200);
    assert_eq!(quiescence_search(200, 300, &evaluator, &tables, &calm, None, &clock), 200);
    assert_eq!(quiescence_search(-5, 5, &evaluator, &tables, &calm, None, &clock), 0);
    assert!(is_quiet_position(false, false));
    assert!(!is_quiet_position(true, false));
    assert!(!is_quiet_position(false, true));
}

#[test]
fn pacing_between_iterations() {
    assert!(!next_depth_too_costly(1_000_000, None));
    assert!(!next_depth_too_costly(20, Some(100)));
    assert!(next_depth_too_costly(21, Some(100)));
    assert!(next_depth_too_costly(1, Some(0)));
    assert!(!next_depth_too_costly(0, Some(0)));
}

#[test]
fn depth_zero_in_the_time_control_searches_nothing() {
    let tables = init_magics().unwrap();
    let mut pos = Position::empty();
    pos.set_startpos();
    let mut tt = TranspositionTable::with_size(1);
    let result = iterative_deepening(&to_depth(0), &mut tt, &Evaluator::new(), &tables, &pos, None);
    assert_eq!(result.best_move, generate_fallback_move(&tables, &pos));
    assert_eq!(result.nodes_searched, 0);
}
