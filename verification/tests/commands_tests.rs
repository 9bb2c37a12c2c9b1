use m4k::commands::{
    parse_command, parse_command_bytes, parse_go_command, parse_position_command, parse_uci_move,
    TimeControl, UciCommand, START_FEN,
};
use m4k::moves::Move;
use m4k::text::{blank, parse_u32, parse_u64, push_decimal, split_words, word_is};
use m4k::types::{Piece, Square};

fn words(line: &str) -> Vec<Vec<u8>> {
    split_words(line.as_bytes())
}

#[test]
fn test_parse_uci_command() {
    assert!(matches!(parse_command("uci"), Some(UciCommand::Uci)));
    assert!(matches!(parse_command("isready"), Some(UciCommand::IsReady)));
    assert!(matches!(parse_command("quit"), Some(UciCommand::Quit)));
}

#[test]
fn every_verb_is_recognized() {
    assert!(matches!(parse_command("  ucinewgame  "), Some(UciCommand::NewGame)));
    assert!(matches!(parse_command("stop"), Some(UciCommand::Stop)));
    assert!(matches!(parse_command("\tquit now"), Some(UciCommand::Quit)));
    assert!(matches!(parse_command("go"), Some(UciCommand::Go { .. })));
    assert!(matches!(parse_command("position startpos"), Some(UciCommand::Position { .. })));
    assert!(parse_command("").is_none());
    assert!(parse_command("   ").is_none());
    assert!(parse_command("UCI").is_none());
    assert!(parse_command("ucii").is_none());
    assert!(parse_command("position").is_none());
    assert!(parse_command("position moves e2e4").is_none());
    assert!(parse_command_bytes(b"xyzzy").is_none());
}

#[test]
fn words_are_split_on_blanks() {
    assert_eq!(words("  go \t depth\r\n 3 "), vec![b"go".to_vec(), b"depth".to_vec(), b"3".to_vec()]);
    assert!(words("").is_empty());
    assert!(words(" \t\n").is_empty());
    assert!(blank(b' ') && blank(b'\t') && blank(b'\n') && blank(11) && blank(12) && blank(b'\r'));
    assert!(!blank(b'a') && !blank(0) && !blank(8) && !blank(14));
    assert!(word_is(&b"go".to_vec(), &[103, 111]));
    assert!(!word_is(&b"go".to_vec(), &[103, 110]));
    assert!(!word_is(&b"go".to_vec(), &[103]));
}

#[test]
fn numbers_are_read_in_decimal() {
    assert_eq!(parse_u64(&b"0".to_vec()), Some(0));
    assert_eq!(parse_u64(&b"007".to_vec()), Some(7));
    assert_eq!(parse_u64(&b"+15".to_vec()), Some(15));
    assert_eq!(parse_u64(&b"18446744073709551615".to_vec()), Some(u64::MAX));
    assert_eq!(parse_u64(&b"18446744073709551616".to_vec()), None);
    assert_eq!(parse_u64(&b"99999999999999999999999".to_vec()), None);
    assert_eq!(parse_u64(&b"".to_vec()), None);
    assert_eq!(parse_u64(&b"+".to_vec()), None);
    assert_eq!(parse_u64(&b"-1".to_vec()), None);
    assert_eq!(parse_u64(&b"12a".to_vec()), None);
    assert_eq!(parse_u64(&b"++1".to_vec()), None);
    assert_eq!(parse_u32(&b"4294967295".to_vec()), Some(u32::MAX));
    assert_eq!(parse_u32(&b"4294967296".to_vec()), None);
    let mut out = b"x".to_vec();
    push_decimal(&mut out, 0);
    push_decimal(&mut out, 4294967295);
    push_decimal(&mut out, 1050);
    assert_eq!(out, b"x042949672951050".to_vec());
}

#[test]
fn move_words() {
    assert_eq!(parse_uci_move(&b"e2e4".to_vec()), Some(Move::new(Square(Square::E2), Square(Square::E4))));
    assert_eq!(parse_uci_move(&b"a1h8".to_vec()), Some(Move::new(Square(Square::A1), Square(Square::H8))));
    assert_eq!(
        parse_uci_move(&b"e7e8q".to_vec()),
        Some(Move::promotion(Square(Square::E7), Square(Square::E8), Piece::Queen))
    );
    assert_eq!(
        parse_uci_move(&b"a2b1n".to_vec()),
        Some(Move::promotion(Square(Square::A2), Square(Square::B1), Piece::Knight))
    );
    assert_eq!(
        parse_uci_move(&b"a2b1r".to_vec()),
        Some(Move::promotion(Square(Square::A2), Square(Square::B1), Piece::Rook))
    );
    assert_eq!(
        parse_uci_move(&b"a2b1b".to_vec()),
        Some(Move::promotion(Square(Square::A2), Square(Square::B1), Piece::Bishop))
    );
    for bad in ["0000", "e2e", "e2e4qq", "i2e4", "e9e4", "e2e0", "e7e8k", "e7e8Q", "E2E4", ""] {
        assert_eq!(parse_uci_move(&bad.as_bytes().to_vec()), None, "{}", bad);
    }
}

fn go_control(line: &str) -> TimeControl {
    match parse_command(line) {
        Some(UciCommand::Go { time_control }) => time_control,
        _ => panic!("no go command: {}", line),
    }
}

#[test]
fn go_parameters_in_any_order() {
    let none = TimeControl {
        wtime: None,
        btime: None,
        winc: None,
        binc: None,
        movestogo: None,
        depth: None,
        nodes: None,
        movetime: None,
        infinite: false,
    };
    assert_eq!(go_control("go"), none);
    assert_eq!(go_control("go infinite"), TimeControl { infinite: true, ..none });
    assert_eq!(go_control("go depth 6"), TimeControl { depth: Some(6), ..none });
    assert_eq!(
        go_control("go binc 5 wtime 300000 btime 250000 winc 10 movestogo 12"),
        TimeControl {
            wtime: Some(300000),
            btime: Some(250000),
            winc: Some(10),
            binc: Some(5),
            movestogo: Some(12),
            ..none
        }
    );
    assert_eq!(
        go_control("go nodes 1000 movetime 50 infinite"),
        TimeControl { nodes: Some(1000), movetime: Some(50), infinite: true, ..none }
    );
    // A value that is no number unsets the parameter and is used up.
    assert_eq!(go_control("go depth 5 depth x"), none);
    assert_eq!(go_control("go depth depth 5"), TimeControl { ..none });
    assert_eq!(go_control("go wtime depth 5"), TimeControl { ..none });
    // A key in the last place and unknown words are passed over.
    assert_eq!(go_control("go ponder depth 3 wtime"), TimeControl { depth: Some(3), ..none });
    assert_eq!(go_control("go depth 4294967296"), none);
    let direct = parse_go_command(&words("go depth 2"), 1);
    assert!(matches!(direct, Some(UciCommand::Go { time_control }) if time_control.depth == Some(2)));
    assert_eq!(TimeControl::default(), TimeControl { depth: Some(4), ..none });
}

fn position_parts(line: &str) -> (Vec<u8>, Vec<Move>) {
    match parse_command(line) {
        Some(UciCommand::Position { fen, moves }) => (fen, moves),
        _ => panic!("no position command: {}", line),
    }
}

#[test]
fn position_command() {
    let e2e4 = Move::new(Square(Square::E2), Square(Square::E4));
    let e7e5 = Move::new(Square(Square::E7), Square(Square::E5));
    assert_eq!(position_parts("position startpos"), (START_FEN.to_vec(), vec![]));
    assert_eq!(
        String::from_utf8(START_FEN.to_vec()).unwrap(),
        "rnbqkbnr/pppppppp/8/8/8/8/PPPPPPPP/RNBQKBNR w KQkq - 0 1"
    );
    assert_eq!(position_parts("position startpos moves e2e4 e7e5"), (START_FEN.to_vec(), vec![e2e4, e7e5]));
    assert_eq!(position_parts("position startpos moves e2e4 zz e7e5 0000"), (START_FEN.to_vec(), vec![e2e4, e7e5]));
    assert_eq!(position_parts("position startpos e2e4"), (START_FEN.to_vec(), vec![]));
    assert_eq!(
        position_parts("position fen 8/8/8/8/8/8/8/K6k   w - - 0 1 moves a1a2"),
        (b"8/8/8/8/8/8/8/K6k w - - 0 1".to_vec(), vec![Move::new(Square(Square::A1), Square(Square::A2))])
    );
    assert_eq!(position_parts("position fen 8/8/8/8/8/8/8/K6k w - -"), (b"8/8/8/8/8/8/8/K6k w - -".to_vec(), vec![]));
    assert_eq!(position_parts("position fen"), (vec![], vec![]));
    assert_eq!(position_parts("position fen moves"), (vec![], vec![]));
    assert!(parse_position_command(&words("position"), 1).is_none());
    assert!(parse_position_command(&words("position nothing"), 1).is_none());
}
