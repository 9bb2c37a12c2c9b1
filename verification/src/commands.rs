//! The commands of the line protocol and how a line of text is read as one.

use crate::moves::{pack, Move, MoveType};
use crate::text::{
    contents, parse_decimal, parse_u32, parse_u64, split_words, word_is, words_of,
};
use crate::types::{Piece, Square};
use vstd::prelude::*;
use vstd::string::StringSliceAdditionalSpecFns;

verus! {

/// The limits that a `go` command sets for a search. Times are in milliseconds.
#[derive(Copy, Clone, PartialEq, Eq, Structural, Debug)]
pub struct TimeControl {
    pub wtime: Option<u64>,
    pub btime: Option<u64>,
    pub winc: Option<u64>,
    pub binc: Option<u64>,
    pub movestogo: Option<u32>,
    pub depth: Option<u32>,
    pub nodes: Option<u64>,
    pub movetime: Option<u64>,
    pub infinite: bool,
}

/// The time control that sets no limit at all.
pub open spec fn no_limits() -> TimeControl {
    TimeControl {
        wtime: None,
        btime: None,
        winc: None,
        binc: None,
        movestogo: None,
        depth: None,
        nodes: None,
        movetime: None,
        infinite: false,
    }
}

impl Default for TimeControl {
    /// No clock, no increment, and a depth of four.
    fn default() -> (tc: TimeControl)
        ensures
            tc == (TimeControl { depth: Some(4u32), ..no_limits() }),
    {
        TimeControl {
            wtime: None,
            btime: None,
            winc: None,
            binc: None,
            movestogo: None,
            depth: Some(4),
            nodes: None,
            movetime: None,
            infinite: false,
        }
    }
}

/// A command of the protocol.
#[derive(Debug)]
pub enum UciCommand {
    Uci,
    IsReady,
    NewGame,
    /// Set up the position that `fen` describes and play `moves` on it.
    Position { fen: Vec<u8>, moves: Vec<Move> },
    Go { time_control: TimeControl },
    Stop,
    Quit,
}

/// A command as a plain value.
pub enum CommandView {
    Uci,
    IsReady,
    NewGame,
    Position { fen: Seq<u8>, moves: Seq<Move> },
    Go { time_control: TimeControl },
    Stop,
    Quit,
}

impl View for UciCommand {
    type V = CommandView;

    open spec fn view(&self) -> CommandView {
        match self {
            UciCommand::Uci => CommandView::Uci,
            UciCommand::IsReady => CommandView::IsReady,
            UciCommand::NewGame => CommandView::NewGame,
            UciCommand::Position { fen, moves } => CommandView::Position {
                fen: fen@,
                moves: moves@,
            },
            UciCommand::Go { time_control } => CommandView::Go { time_control: *time_control },
            UciCommand::Stop => CommandView::Stop,
            UciCommand::Quit => CommandView::Quit,
        }
    }
}

/// The word `uci`.
pub const WORD_UCI: [u8; 3] = [117, 99, 105];

/// The word `isready`.
pub const WORD_ISREADY: [u8; 7] = [105, 115, 114, 101, 97, 100, 121];

/// The word `ucinewgame`.
pub const WORD_UCINEWGAME: [u8; 10] = [117, 99, 105, 110, 101, 119, 103, 97, 109, 101];

/// The word `position`.
pub const WORD_POSITION: [u8; 8] = [112, 111, 115, 105, 116, 105, 111, 110];

/// The word `go`.
pub const WORD_GO: [u8; 2] = [103, 111];

/// The word `stop`.
pub const WORD_STOP: [u8; 4] = [115, 116, 111, 112];

/// The word `quit`.
pub const WORD_QUIT: [u8; 4] = [113, 117, 105, 116];

/// The word `startpos`.
pub const WORD_STARTPOS: [u8; 8] = [115, 116, 97, 114, 116, 112, 111, 115];

/// The word `fen`.
pub const WORD_FEN: [u8; 3] = [102, 101, 110];

/// The word `moves`.
pub const WORD_MOVES: [u8; 5] = [109, 111, 118, 101, 115];

/// The word `infinite`.
pub const WORD_INFINITE: [u8; 8] = [105, 110, 102, 105, 110, 105, 116, 101];

/// The word `wtime`.
pub const WORD_WTIME: [u8; 5] = [119, 116, 105, 109, 101];

/// The word `btime`.
pub const WORD_BTIME: [u8; 5] = [98, 116, 105, 109, 101];

/// The word `winc`.
pub const WORD_WINC: [u8; 4] = [119, 105, 110, 99];

/// The word `binc`.
pub const WORD_BINC: [u8; 4] = [98, 105, 110, 99];

/// The word `movestogo`.
pub const WORD_MOVESTOGO: [u8; 9] = [109, 111, 118, 101, 115, 116, 111, 103, 111];

/// The word `depth`.
pub const WORD_DEPTH: [u8; 5] = [100, 101, 112, 116, 104];

/// The word `nodes`.
pub const WORD_NODES: [u8; 5] = [110, 111, 100, 101, 115];

/// The word `movetime`.
pub const WORD_MOVETIME: [u8; 8] = [109, 111, 118, 101, 116, 105, 109, 101];

/// The start of a game in Forsyth-Edwards notation:
/// `rnbqkbnr/pppppppp/8/8/8/8/PPPPPPPP/RNBQKBNR w KQkq - 0 1`.
pub const START_FEN: [u8; 56] = [
    114, 110, 98, 113, 107, 98, 110, 114, 47, 112, 112, 112, 112, 112, 112, 112, 112, 47, 56, 47,
    56, 47, 56, 47, 56, 47, 80, 80, 80, 80, 80, 80, 80, 80, 47, 82, 78, 66, 81, 75, 66, 78, 82, 32,
    119, 32, 75, 81, 107, 113, 32, 45, 32, 48, 32, 49,
];

/// The number that `word` writes, when it writes one that fits 64 bits.
pub open spec fn number64(word: Seq<u8>) -> Option<u64> {
    match parse_decimal(word, u64::MAX as nat) {
        Some(v) => Some(v as u64),
        None => None,
    }
}

/// The number that `word` writes, when it writes one that fits 32 bits.
pub open spec fn number32(word: Seq<u8>) -> Option<u32> {
    match parse_decimal(word, u32::MAX as nat) {
        Some(v) => Some(v as u32),
        None => None,
    }
}

/// The promotion piece that the letter `b` names: `q`, `r`, `b` or `n`.
pub open spec fn promotion_letter(b: u8) -> Option<Piece> {
    if b == 113 {
        Some(Piece::Queen)
    } else if b == 114 {
        Some(Piece::Rook)
    } else if b == 98 {
        Some(Piece::Bishop)
    } else if b == 110 {
        Some(Piece::Knight)
    } else {
        None
    }
}

/// The square that a file letter `a` to `h` and a rank digit `1` to `8` name.
pub open spec fn named_square(file: u8, rank: u8) -> Option<Square> {
    if 97 <= file <= 104 && 49 <= rank <= 56 {
        Some(Square(((rank - 49) * 8 + (file - 97)) as u8))
    } else {
        None
    }
}

/// The move that `word` writes: origin and destination square, and for a
/// promotion the letter of the piece; four or five characters in all.
pub open spec fn move_of_word(word: Seq<u8>) -> Option<Move> {
    if word.len() != 4 && word.len() != 5 {
        None
    } else {
        match (named_square(word[0], word[1]), named_square(word[2], word[3])) {
            (Some(from), Some(to)) => if word.len() == 4 {
                Some(Move(pack(from, to, MoveType::Normal, 0)))
            } else {
                match promotion_letter(word[4]) {
                    Some(piece) => Some(
                        Move(
                            pack(
                                from,
                                to,
                                MoveType::Promotion,
                                crate::moves::promotion_bits(piece),
                            ),
                        ),
                    ),
                    None => None,
                }
            },
            _ => None,
        }
    }
}

/// The square that `file` and `rank` name.
fn read_square(file: u8, rank: u8) -> (sq: Option<Square>)
    ensures
        sq == named_square(file, rank),
        sq.is_some() ==> sq.unwrap().valid(),
{
    if 97 <= file && file <= 104 && 49 <= rank && rank <= 56 {
        Some(Square::new(file - 97, rank - 49))
    } else {
        None
    }
}

/// Reads a move word: `e2e4`, `e7e8q`.
pub fn parse_uci_move(word: &Vec<u8>) -> (mv: Option<Move>)
    ensures
        mv == move_of_word(word@),
{
    let n = word.len();
    if n != 4 && n != 5 {
        return None;
    }
    let from = match read_square(word[0], word[1]) {
        Some(sq) => sq,
        None => {
            return None;
        },
    };
    let to = match read_square(word[2], word[3]) {
        Some(sq) => sq,
        None => {
            return None;
        },
    };
    if n == 4 {
        Some(Move::new(from, to))
    } else {
        let letter = word[4];
        if letter == 113 {
            Some(Move::promotion(from, to, Piece::Queen))
        } else if letter == 114 {
            Some(Move::promotion(from, to, Piece::Rook))
        } else if letter == 98 {
            Some(Move::promotion(from, to, Piece::Bishop))
        } else if letter == 110 {
            Some(Move::promotion(from, to, Piece::Knight))
        } else {
            None
        }
    }
}

/// The time control that the words of a `go` command set, read from word
/// `i` on, on top of `tc`. `infinite` stands alone; each of `wtime`, `btime`,
/// `winc`, `binc`, `movestogo`, `depth`, `nodes` and `movetime` takes the
/// next word as its number and is unset when that word is no number; a key
/// in the last place and any other word are passed over.
pub open spec fn go_scan(words: Seq<Seq<u8>>, i: int, tc: TimeControl) -> TimeControl
    decreases words.len() - i,
{
    if i < 0 || i >= words.len() {
        tc
    } else {
        let w = words[i];
        if w == WORD_INFINITE@ {
            go_scan(words, i + 1, TimeControl { infinite: true, ..tc })
        } else if i + 1 >= words.len() {
            go_scan(words, i + 1, tc)
        } else {
            let v = words[i + 1];
            if w == WORD_WTIME@ {
                go_scan(words, i + 2, TimeControl { wtime: number64(v), ..tc })
            } else if w == WORD_BTIME@ {
                go_scan(words, i + 2, TimeControl { btime: number64(v), ..tc })
            } else if w == WORD_WINC@ {
                go_scan(words, i + 2, TimeControl { winc: number64(v), ..tc })
            } else if w == WORD_BINC@ {
                go_scan(words, i + 2, TimeControl { binc: number64(v), ..tc })
            } else if w == WORD_MOVESTOGO@ {
                go_scan(words, i + 2, TimeControl { movestogo: number32(v), ..tc })
            } else if w == WORD_DEPTH@ {
                go_scan(words, i + 2, TimeControl { depth: number32(v), ..tc })
            } else if w == WORD_NODES@ {
                go_scan(words, i + 2, TimeControl { nodes: number64(v), ..tc })
            } else if w == WORD_MOVETIME@ {
                go_scan(words, i + 2, TimeControl { movetime: number64(v), ..tc })
            } else {
                go_scan(words, i + 1, tc)
            }
        }
    }
}

/// Reads the parameters of a `go` command from word `start` on.
pub fn parse_go_command(words: &Vec<Vec<u8>>, start: usize) -> (command: Option<UciCommand>)
    requires
        start <= words@.len(),
    ensures
        command.is_some(),
        command.unwrap()@ == (CommandView::Go {
            time_control: go_scan(contents(words@), start as int, no_limits()),
        }),
{
    let mut tc = TimeControl {
        wtime: None,
        btime: None,
        winc: None,
        binc: None,
        movestogo: None,
        depth: None,
        nodes: None,
        movetime: None,
        infinite: false,
    };
    let n = words.len();
    let ghost all = contents(words@);
    let mut i: usize = start;
    while i < n
        invariant
            n == words@.len(),
            all == contents(words@),
            start <= i <= n,
            go_scan(all, i as int, tc) == go_scan(all, start as int, no_limits()),
        decreases n - i,
    {
        let w = &words[i];
        assert(all[i as int] == w@);
        if word_is(w, &WORD_INFINITE) {
            tc.infinite = true;
            i += 1;
        } else if i + 1 >= n {
            i += 1;
        } else {
            let v = &words[i + 1];
            assert(all[i + 1] == v@);
            if word_is(w, &WORD_WTIME) {
                tc.wtime = parse_u64(v);
                i += 2;
            } else if word_is(w, &WORD_BTIME) {
                tc.btime = parse_u64(v);
                i += 2;
            } else if word_is(w, &WORD_WINC) {
                tc.winc = parse_u64(v);
                i += 2;
            } else if word_is(w, &WORD_BINC) {
                tc.binc = parse_u64(v);
                i += 2;
            } else if word_is(w, &WORD_MOVESTOGO) {
                tc.movestogo = parse_u32(v);
                i += 2;
            } else if word_is(w, &WORD_DEPTH) {
                tc.depth = parse_u32(v);
                i += 2;
            } else if word_is(w, &WORD_NODES) {
                tc.nodes = parse_u64(v);
                i += 2;
            } else if word_is(w, &WORD_MOVETIME) {
                tc.movetime = parse_u64(v);
                i += 2;
            } else {
                i += 1;
            }
        }
    }
    Some(UciCommand::Go { time_control: tc })
}

/// The place of the first word `moves` among `words` from `i` on; the
/// number of words when there is none.
pub open spec fn moves_index(words: Seq<Seq<u8>>, i: int) -> int
    decreases words.len() - i,
{
    if i < 0 || i >= words.len() {
        words.len() as int
    } else if words[i] == WORD_MOVES@ {
        i
    } else {
        moves_index(words, i + 1)
    }
}

/// The moves that the words from `i` on write, those that write none left out.
pub open spec fn moves_from(words: Seq<Seq<u8>>, i: int) -> Seq<Move>
    decreases words.len() - i,
{
    if i < 0 || i >= words.len() {
        Seq::empty()
    } else {
        match move_of_word(words[i]) {
            Some(mv) => seq![mv] + moves_from(words, i + 1),
            None => moves_from(words, i + 1),
        }
    }
}

/// The words from `i` up to `end`, with a space between each two.
pub open spec fn joined(words: Seq<Seq<u8>>, i: int, end: int) -> Seq<u8>
    decreases end - i,
{
    if i >= end || i < 0 || end > words.len() {
        Seq::empty()
    } else if i + 1 == end {
        words[i]
    } else {
        words[i] + seq![32u8] + joined(words, i + 1, end)
    }
}

/// What the words of a `position` command, from `start` on, ask for: a
/// description of the position and the moves to play on it. The
/// description is that of the start of a game after `startpos`, and after
/// `fen` the words up to the word `moves`. The moves are those written
/// after the first word `moves`.
pub open spec fn position_request(words: Seq<Seq<u8>>, start: int) -> Option<(Seq<u8>, Seq<Move>)> {
    if start < 0 || start >= words.len() {
        None
    } else {
        let at = moves_index(words, start);
        if words[start] == WORD_STARTPOS@ {
            Some((START_FEN@, moves_from(words, at + 1)))
        } else if words[start] == WORD_FEN@ {
            Some((joined(words, start + 1, at), moves_from(words, at + 1)))
        } else {
            None
        }
    }
}

/// Reads the parameters of a `position` command from word `start` on.
pub fn parse_position_command(words: &Vec<Vec<u8>>, start: usize) -> (command: Option<UciCommand>)
    requires
        start <= words@.len(),
    ensures
        match position_request(contents(words@), start as int) {
            Some((fen, moves)) => command.is_some() && command.unwrap()@ == (
            CommandView::Position { fen, moves }),
            None => command.is_none(),
        },
{
    let n = words.len();
    let ghost all = contents(words@);
    if start >= n {
        return None;
    }
    assert(all[start as int] == words@[start as int]@);
    let is_start = word_is(&words[start], &WORD_STARTPOS);
    let is_fen = word_is(&words[start], &WORD_FEN);
    if !is_start && !is_fen {
        return None;
    }
    let mut at: usize = start;
    while at < n && !word_is(&words[at], &WORD_MOVES)
        invariant
            n == words@.len(),
            all == contents(words@),
            start <= at <= n,
            moves_index(all, at as int) == moves_index(all, start as int),
        decreases n - at,
    {
        assert(all[at as int] == words@[at as int]@);
        at += 1;
    }
    assert(at < n ==> all[at as int] == words@[at as int]@);
    let mut fen: Vec<u8> = Vec::new();
    if is_start {
        let mut k: usize = 0;
        while k < 56
            invariant
                k <= 56,
                fen@ == START_FEN@.take(k as int),
            decreases 56 - k,
        {
            fen.push(START_FEN[k]);
            assert(START_FEN@.take(k + 1) =~= START_FEN@.take(k as int).push(START_FEN@[k as int]));
            k += 1;
        }
        assert(START_FEN@.take(56) =~= START_FEN@);
    } else {
        let mut k: usize = at;
        assert(joined(all, at as int, at as int) =~= Seq::<u8>::empty());
        while k > start + 1
            invariant
                n == words@.len(),
                all == contents(words@),
                start + 1 <= at <= n,
                start + 1 <= k <= at || (k == at && at == start + 1),
                fen@ == joined(all, k as int, at as int),
            decreases k,
        {
            k -= 1;
            let w = &words[k];
            assert(all[k as int] == w@);
            let mut piece: Vec<u8> = Vec::new();
            let mut j: usize = 0;
            while j < w.len()
                invariant
                    j <= w@.len(),
                    piece@ == w@.take(j as int),
                decreases w@.len() - j,
            {
                piece.push(w[j]);
                assert(w@.take(j + 1) =~= w@.take(j as int).push(w@[j as int]));
                j += 1;
            }
            assert(w@.take(w@.len() as int) =~= w@);
            if k + 1 < at {
                piece.push(32);
            }
            let ghost tail = fen@;
            let mut t: usize = 0;
            while t < fen.len()
                invariant
                    t <= fen@.len(),
                    fen@ == tail,
                    piece@ == (if k + 1 < at {
                        w@ + seq![32u8]
                    } else {
                        w@
                    }) + tail.take(t as int),
                decreases fen@.len() - t,
            {
                piece.push(fen[t]);
                assert(tail.take(t + 1) =~= tail.take(t as int).push(tail[t as int]));
                t += 1;
            }
            assert(tail.take(tail.len() as int) =~= tail);
            fen = piece;
        }
    }
    let mut moves: Vec<Move> = Vec::new();
    let mut i: usize = if at < n {
        at + 1
    } else {
        n
    };
    let ghost first = i;
    assert(at + 1 > n ==> moves_from(all, at + 1) =~= moves_from(all, n as int));
    while i < n
        invariant
            n == words@.len(),
            all == contents(words@),
            first <= i <= n,
            moves@ + moves_from(all, i as int) == moves_from(all, first as int),
        decreases n - i,
    {
        assert(all[i as int] == words@[i as int]@);
        let ghost before = moves@;
        match parse_uci_move(&words[i]) {
            Some(mv) => {
                moves.push(mv);
                assert(before.push(mv) + moves_from(all, i + 1) =~= before + (seq![mv]
                    + moves_from(all, i + 1)));
            },
            None => {},
        }
        i += 1;
    }
    assert(moves@ + Seq::<Move>::empty() =~= moves@);
    Some(UciCommand::Position { fen, moves })
}

/// What the line `line` asks for. The first word names the command: `uci`,
/// `isready`, `ucinewgame`, `position`, `go`, `stop` or `quit`. A line whose
/// first word is none of these, or a `position` command without `startpos`
/// or `fen`, asks for nothing.
pub open spec fn command_of(line: Seq<u8>) -> Option<CommandView> {
    let words = words_of(line);
    if words.len() == 0 {
        None
    } else if words[0] == WORD_UCI@ {
        Some(CommandView::Uci)
    } else if words[0] == WORD_ISREADY@ {
        Some(CommandView::IsReady)
    } else if words[0] == WORD_UCINEWGAME@ {
        Some(CommandView::NewGame)
    } else if words[0] == WORD_POSITION@ {
        match position_request(words, 1) {
            Some((fen, moves)) => Some(CommandView::Position { fen, moves }),
            None => None,
        }
    } else if words[0] == WORD_GO@ {
        Some(CommandView::Go { time_control: go_scan(words, 1, no_limits()) })
    } else if words[0] == WORD_STOP@ {
        Some(CommandView::Stop)
    } else if words[0] == WORD_QUIT@ {
        Some(CommandView::Quit)
    } else {
        None
    }
}

/// Reads the bytes of a line as a command.
pub fn parse_command_bytes(line: &[u8]) -> (command: Option<UciCommand>)
    ensures
        match command_of(line@) {
            Some(view) => command.is_some() && command.unwrap()@ == view,
            None => command.is_none(),
        },
{
    let words = split_words(line);
    if words.len() == 0 {
        return None;
    }
    let first = &words[0];
    assert(contents(words@)[0] == first@);
    if word_is(first, &WORD_UCI) {
        Some(UciCommand::Uci)
    } else if word_is(first, &WORD_ISREADY) {
        Some(UciCommand::IsReady)
    } else if word_is(first, &WORD_UCINEWGAME) {
        Some(UciCommand::NewGame)
    } else if word_is(first, &WORD_POSITION) {
        parse_position_command(&words, 1)
    } else if word_is(first, &WORD_GO) {
        parse_go_command(&words, 1)
    } else if word_is(first, &WORD_STOP) {
        Some(UciCommand::Stop)
    } else if word_is(first, &WORD_QUIT) {
        Some(UciCommand::Quit)
    } else {
        None
    }
}

/// Reads a line as a command.
pub fn parse_command(command: &str) -> (parsed: Option<UciCommand>)
    ensures
        match command_of(command.spec_bytes()) {
            Some(view) => parsed.is_some() && parsed.unwrap()@ == view,
            None => parsed.is_none(),
        },
{
    parse_command_bytes(command.as_bytes())
}

} // verus!
