use m4k::alphabeta::{iterative_deepening, SearchResult};
use m4k::commands::{parse_command, TimeControl, UciCommand};
use m4k::evaluator::Evaluator;
use m4k::legal::legal_moves;
use m4k::magic::init_magics;
use m4k::moves::Move;
use m4k::position::Position;
use m4k::protocol::{apply_moves, move_bytes, resolve_move, Action, EngineState};
use m4k::transposition::TranspositionTable;
use m4k::types::{Piece, Square};

fn from_fen(fen: &str) -> Position {
    let mut pos = Position::empty();
    assert_eq!(pos.set_fen(fen), Ok(()));
    pos
}

fn startpos() -> Position {
    let mut pos = Position::empty();
    pos.set_startpos();
    pos
}

#[test]
fn simple_commands() {
    let tables = init_magics().unwrap();
    let mut state = EngineState::new();
    assert_eq!(state.position, startpos());
    assert!(!state.searching);
    assert_eq!(state.handle_line(&tables, "uci"), Action::Identify);
    assert_eq!(state.handle_line(&tables, "isready"), Action::ReadyOk);
    assert_eq!(state.handle_line(&tables, "stop"), Action::Idle);
    assert_eq!(state.handle_line(&tables, "quit"), Action::Quit);
    assert_eq!(state.handle_line(&tables, "hello world"), Action::Unknown);
    assert_eq!(state.handle_line(&tables, ""), Action::Unknown);
    assert_eq!(state.position, startpos());
}

#[test]
fn position_sets_the_root_and_plays_the_moves() {
    let tables = init_magics().unwrap();
    let mut state = EngineState::new();
    assert_eq!(
        state.handle_line(&tables, "position startpos moves e2e4 e7e5 g1f3"),
        Action::PositionSet { reset: false, dropped: 0 }
    );
    assert_eq!(state.position.to_fen(), "rnbqkbnr/pppp1ppp/8/4p3/4P3/5N2/PPPP1PPP/RNBQKB1R b KQkq - 1 2");
    assert_eq!(state.handle_line(&tables, "ucinewgame"), Action::ReadyOk);
    assert_eq!(state.position, startpos());
    assert_eq!(
        state.handle_line(&tables, "position fen r3k2r/8/8/8/8/8/8/R3K2R w KQkq - 0 1 moves e1g1 e8c8"),
        Action::PositionSet { reset: false, dropped: 0 }
    );
    assert_eq!(state.position.to_fen(), "2kr3r/8/8/8/8/8/8/R4RK1 w - - 2 2");
}

#[test]
fn illegal_move_words_are_passed_over() {
    let tables = init_magics().unwrap();
    let mut state = EngineState::new();
    // e2e5 is no legal move; e7e5 is legal once e2e4 is played.
    assert_eq!(
        state.handle_line(&tables, "position startpos moves e2e5 e2e4 e7e5 e1e2 e1e3"),
        Action::PositionSet { reset: false, dropped: 2 }
    );
    assert_eq!(state.position.to_fen(), "rnbqkbnr/pppp1ppp/8/4p3/4P3/8/PPPPKPPP/RNBQ1BNR b kq - 1 2");
}

#[test]
fn a_bad_description_resets_to_the_start() {
    let tables = init_magics().unwrap();
    let mut state = EngineState::new();
    state.handle_line(&tables, "position startpos moves e2e4");
    assert_eq!(
        state.handle_line(&tables, "position fen 8/8/8 w - - 0 1 moves d2d4"),
        Action::PositionSet { reset: true, dropped: 0 }
    );
    assert_eq!(state.position.to_fen(), "rnbqkbnr/pppppppp/8/8/3P4/8/PPP1PPPP/RNBQKBNR b KQkq d3 0 1");
}

#[test]
fn move_words_name_en_passant_castling_and_promotion() {
    let tables = init_magics().unwrap();
    let pos = from_fen("rnbqkbnr/ppp1p1pp/8/3pPp2/8/8/PPPP1PPP/RNBQKBNR w KQkq f6 0 3");
    assert_eq!(
        resolve_move(&tables, &pos, Move::new(Square(Square::E5), Square(Square::F6))),
        Some(Move::en_passant(Square(Square::E5), Square(Square::F6)))
    );
    assert_eq!(resolve_move(&tables, &pos, Move::new(Square(Square::E5), Square(Square::D6))), None);
    let pos = from_fen("r3k2r/8/8/8/8/8/8/R3K2R w KQkq - 0 1");
    assert_eq!(
        resolve_move(&tables, &pos, Move::new(Square(Square::E1), Square(Square::G1))),
        Some(Move::castling(Square(Square::E1), Square(Square::G1)))
    );
    let pos = from_fen("4k3/P7/8/8/8/8/8/4K3 w - - 0 1");
    let rook = Move::promotion(Square(Square::A7), Square(Square::A8), Piece::Rook);
    assert_eq!(resolve_move(&tables, &pos, rook), Some(rook));
    // A promotion has to say its piece, and no other move may.
    assert_eq!(resolve_move(&tables, &pos, Move::new(Square(Square::A7), Square(Square::A8))), None);
    assert_eq!(
        resolve_move(&tables, &pos, Move::promotion(Square(Square::E1), Square(Square::E2), Piece::Queen)),
        None
    );
    let mut played = pos;
    assert_eq!(apply_moves(&tables, &mut played, &vec![rook, rook]), 1);
    assert_eq!(played.to_fen(), "R3k3/8/8/8/8/8/8/4K3 b - - 0 1");
}

#[test]
fn one_best_move_for_each_go() {
    let tables = init_magics().unwrap();
    let mut state = EngineState::new();
    let go = match parse_command("go depth 1") {
        Some(command) => command,
        None => panic!("go was not read"),
    };
    let limits = match &go {
        UciCommand::Go { time_control } => *time_control,
        _ => panic!("go was not read"),
    };
    assert_eq!(state.handle(&tables, &go), Action::StartSearch { time_control: limits });
    assert!(state.searching);
    assert_eq!(state.time_control.depth, Some(1));
    // A second go while the first is under way is refused.
    assert_eq!(state.handle_line(&tables, "go depth 3"), Action::Busy);
    assert_eq!(state.time_control.depth, Some(1));
    assert_eq!(state.handle_line(&tables, "stop"), Action::StopSearch);

    let mut tt = TranspositionTable::with_size(1);
    let result = iterative_deepening(&limits, &mut tt, &Evaluator::new(), &tables, &state.position, None);
    let action = state.finish_search(&tables, &result);
    match action {
        Action::BestMove { mv: Some(mv) } => {
            assert!(legal_moves(&tables, &state.position).to_vec().contains(&mv));
        },
        _ => panic!("no best move"),
    }
    assert!(!state.searching);
    // The answer was given: a second result is passed over.
    assert_eq!(state.finish_search(&tables, &result), Action::Idle);
    assert_eq!(state.handle_line(&tables, "stop"), Action::Idle);
}

#[test]
fn a_result_without_a_move_falls_back_on_a_legal_move() {
    let tables = init_magics().unwrap();
    let mut state = EngineState::new();
    state.handle_line(&tables, "go infinite");
    let empty = SearchResult { best_move: None, score: 0, nodes_searched: 0 };
    let first = legal_moves(&tables, &state.position).at(0);
    assert_eq!(state.finish_search(&tables, &empty), Action::BestMove { mv: Some(first) });
}

#[test]
fn stalemate_answers_with_no_move() {
    let tables = init_magics().unwrap();
    let mut state = EngineState::new();
    assert_eq!(
        state.handle_line(&tables, "position fen 7k/5Q2/6K1/8/8/8/8/8 b - - 0 1"),
        Action::PositionSet { reset: false, dropped: 0 }
    );
    assert!(matches!(state.handle_line(&tables, "go depth 2"), Action::StartSearch { .. }));
    let mut tt = TranspositionTable::with_size(1);
    let limits: TimeControl = state.time_control;
    let result = iterative_deepening(&limits, &mut tt, &Evaluator::new(), &tables, &state.position, None);
    assert_eq!(result.score, 0);
    let action = state.finish_search(&tables, &result);
    assert_eq!(action, Action::BestMove { mv: None });
    assert_eq!(move_bytes(None), b"0000".to_vec());
}

#[test]
fn moves_are_written_as_words() {
    assert_eq!(move_bytes(Some(Move::new(Square(Square::E2), Square(Square::E4)))), b"e2e4".to_vec());
    assert_eq!(move_bytes(Some(Move::castling(Square(Square::E8), Square(Square::C8)))), b"e8c8".to_vec());
    assert_eq!(move_bytes(Some(Move::en_passant(Square(Square::E5), Square(Square::F6)))), b"e5f6".to_vec());
    assert_eq!(
        move_bytes(Some(Move::promotion(Square(Square::A7), Square(Square::A8), Piece::Queen))),
        b"a7a8q".to_vec()
    );
    assert_eq!(
        move_bytes(Some(Move::promotion(Square(Square::H2), Square(Square::G1), Piece::Knight))),
        b"h2g1n".to_vec()
    );
    assert_eq!(
        move_bytes(Some(Move::promotion(Square(Square::H2), Square(Square::G1), Piece::Rook))),
        b"h2g1r".to_vec()
    );
    assert_eq!(
        move_bytes(Some(Move::promotion(Square(Square::H2), Square(Square::G1), Piece::Bishop))),
        b"h2g1b".to_vec()
    );
}
