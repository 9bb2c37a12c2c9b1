use m4k::moves::{Move, MoveList};
use m4k::ordering::{
    age_history, order_moves, score_move, update_history, update_killers, MoveScore, SEE,
};
use m4k::types::{Piece, Square};

#[test]
fn test_move_scoring() {
    let mut see = SEE::new();
    let history = [[0i32; 64]; 64];
    let killers = [Move::new(Square(Square::A1), Square(Square::A2)); 2];

    let promo_move = Move::promotion(Square(Square::E7), Square(Square::E8), Piece::Queen);
    let score = score_move(promo_move, None, &killers, &history, &mut see);
    assert!(score >= MoveScore::Promotion.value());

    let killer_move = Move::new(Square(Square::A1), Square(Square::A2));
    let score = score_move(killer_move, None, &killers, &history, &mut see);
    assert_eq!(score, MoveScore::Killer1.value());
}

#[test]
fn test_history_update() {
    let mut history = [[0i32; 64]; 64];
    let mv = Move::new(Square(Square::E2), Square(Square::E4));

    update_history(&mut history, mv, 3);
    assert!(history[Square::E2 as usize][Square::E4 as usize] > 0);

    age_history(&mut history);
    assert!(history[Square::E2 as usize][Square::E4 as usize] >= 0);
}

#[test]
fn classes_rise_from_quiet_to_hash() {
    assert_eq!(MoveScore::Quiet.value(), 0);
    assert_eq!(MoveScore::BadCapture.value(), 2000);
    assert_eq!(MoveScore::Killer2.value(), 4000);
    assert_eq!(MoveScore::Killer1.value(), 5000);
    assert_eq!(MoveScore::Promotion.value(), 6000);
    assert_eq!(MoveScore::GoodCapture.value(), 8000);
    assert_eq!(MoveScore::Hash.value(), 10000);
    assert!(MoveScore::Hash > MoveScore::GoodCapture);
    assert!(MoveScore::Quiet < MoveScore::BadCapture);
}

#[test]
fn every_kind_of_move_has_its_score() {
    let mut see = SEE::new();
    let mut history = [[0i32; 64]; 64];
    history[12][28] = 77;
    let first = Move::new(Square(1), Square(18));
    let second = Move::new(Square(6), Square(21));
    let killers = [first, second];
    let quiet = Move::new(Square(12), Square(28));
    assert_eq!(score_move(quiet, Some(quiet), &killers, &history, &mut see), 10000);
    assert_eq!(score_move(first, Some(first), &killers, &history, &mut see), 10000);
    assert_eq!(score_move(first, None, &killers, &history, &mut see), 5000);
    assert_eq!(score_move(second, Some(quiet), &killers, &history, &mut see), 4000);
    assert_eq!(score_move(quiet, None, &killers, &history, &mut see), 77);
    assert_eq!(score_move(Move::new(Square(0), Square(8)), None, &killers, &history, &mut see), 0);
    let from = Square(Square::E7);
    let to = Square(Square::E8);
    assert_eq!(score_move(Move::promotion(from, to, Piece::Queen), None, &killers, &history, &mut see), 6900);
    assert_eq!(score_move(Move::promotion(from, to, Piece::Rook), None, &killers, &history, &mut see), 6500);
    assert_eq!(score_move(Move::promotion(from, to, Piece::Bishop), None, &killers, &history, &mut see), 6300);
    assert_eq!(score_move(Move::promotion(from, to, Piece::Knight), None, &killers, &history, &mut see), 6300);
    assert_eq!(score_move(Move::en_passant(Square(36), Square(45)), None, &killers, &history, &mut see), 8100);
    assert_eq!(score_move(Move::castling(Square(4), Square(6)), None, &killers, &history, &mut see), 50);
    assert_eq!(see.evaluate_capture(quiet), 0);
}

#[test]
fn ordering_sorts_by_score_and_keeps_the_moves() {
    let mut see = SEE::new();
    let mut history = [[0i32; 64]; 64];
    history[12][28] = 77;
    history[11][27] = 300;
    let killers = [Move::new(Square(1), Square(18)), Move::new(Square(6), Square(21))];
    let hash = Move::new(Square(8), Square(16));
    let given = vec![
        Move::new(Square(0), Square(1)),
        Move::new(Square(12), Square(28)),
        killers[1],
        Move::castling(Square(4), Square(6)),
        hash,
        Move::promotion(Square(52), Square(60), Piece::Rook),
        Move::new(Square(11), Square(27)),
        killers[0],
        Move::en_passant(Square(36), Square(45)),
        Move::new(Square(0), Square(2)),
    ];
    let mut list = MoveList::new();
    for mv in &given {
        list.push(*mv);
    }
    order_moves(&mut list, Some(hash), &killers, &history, &mut see);
    assert_eq!(
        list.to_vec(),
        vec![
            hash,
            Move::en_passant(Square(36), Square(45)),
            Move::promotion(Square(52), Square(60), Piece::Rook),
            killers[0],
            killers[1],
            Move::new(Square(11), Square(27)),
            Move::new(Square(12), Square(28)),
            Move::castling(Square(4), Square(6)),
            Move::new(Square(0), Square(1)),
            Move::new(Square(0), Square(2)),
        ]
    );
    let mut empty = MoveList::new();
    order_moves(&mut empty, None, &killers, &history, &mut see);
    assert!(empty.is_empty());
}

#[test]
fn history_grows_by_the_square_of_the_depth_and_is_capped() {
    let mut history = [[0i32; 64]; 64];
    let mv = Move::new(Square(12), Square(28));
    update_history(&mut history, mv, 3);
    assert_eq!(history[12][28], 9);
    update_history(&mut history, mv, -4);
    assert_eq!(history[12][28], 25);
    update_history(&mut history, mv, 46341);
    assert_eq!(history[12][28], i32::MAX);
    update_history(&mut history, mv, i32::MIN);
    assert_eq!(history[12][28], i32::MAX);
    // Other kinds of moves and other squares are left alone.
    update_history(&mut history, Move::castling(Square(4), Square(6)), 5);
    update_history(&mut history, Move::promotion(Square(52), Square(60), Piece::Queen), 5);
    assert_eq!(history[4][6], 0);
    assert_eq!(history[52][60], 0);
    assert_eq!(history[28][12], 0);
}

#[test]
fn aging_halves_towards_zero() {
    let mut history = [[0i32; 64]; 64];
    history[0][0] = 7;
    history[1][2] = -7;
    history[63][63] = i32::MIN;
    history[5][5] = i32::MAX;
    age_history(&mut history);
    assert_eq!(history[0][0], 3);
    assert_eq!(history[1][2], -3);
    assert_eq!(history[63][63], -1_073_741_824);
    assert_eq!(history[5][5], 1_073_741_823);
    assert_eq!(history[9][9], 0);
}

#[test]
fn killers_shift_down() {
    let a = Move::new(Square(1), Square(18));
    let b = Move::new(Square(6), Square(21));
    let c = Move::new(Square(12), Square(28));
    let mut killers = [a, b];
    update_killers(&mut killers, a);
    assert_eq!(killers, [a, b]);
    update_killers(&mut killers, c);
    assert_eq!(killers, [c, a]);
    update_killers(&mut killers, a);
    assert_eq!(killers, [a, c]);
    update_killers(&mut killers, Move::castling(Square(4), Square(6)));
    assert_eq!(killers, [a, c]);
}
