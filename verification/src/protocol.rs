//! The protocol driver's decisions: what each command does to the state of
//! the engine and what the engine has to do in answer. Reading lines,
//! running the search on a worker and writing replies are left to the caller.

use crate::alphabeta::{first_legal, generate_fallback_move, SearchResult};
use crate::commands::{parse_command_bytes, CommandView, TimeControl, UciCommand};
use crate::fen::{cell_at, describes, parse_fen, FenFields};
use crate::legal::{legal_moves, legal_moves_of, lemma_legal_moves_are_legal};
use crate::magic::MagicTables;
use crate::moves::{Move, MoveList, MoveType};
use crate::position::{
    lemma_fingerprint_depends_on, lemma_same_layers_same_pieces, Position,
};
use crate::types::{Color, Piece, Square};
use vstd::prelude::*;
use vstd::string::StringSliceAdditionalSpecFns;

verus! {

/// What the driver knows between two commands.
#[derive(Copy, Clone, Debug)]
pub struct EngineState {
    /// The root position.
    pub position: Position,
    /// The limits of the search that was started last.
    pub time_control: TimeControl,
    /// Whether a search is under way: started, and its result not yet taken.
    pub searching: bool,
}

/// What the caller has to do after a command or a finished search.
#[derive(Copy, Clone, PartialEq, Eq, Structural, Debug)]
pub enum Action {
    /// Write the identification lines and `uciok`.
    Identify,
    /// Write `readyok`.
    ReadyOk,
    /// The root position was set. `reset` says that the description was no
    /// position and the start of a game was set up instead; `dropped` is the
    /// number of move words that were no legal move and were passed over.
    PositionSet { reset: bool, dropped: usize },
    /// Start a search of the root position under `time_control`.
    StartSearch { time_control: TimeControl },
    /// A search is under way; the command to start another is refused.
    Busy,
    /// Tell the search to stop.
    StopSearch,
    /// Stop the search and leave.
    Quit,
    /// Write `bestmove` with this move, or with `0000` when there is none.
    BestMove { mv: Option<Move> },
    /// The line was no command: write a diagnostic and go on.
    Unknown,
    /// Nothing to do.
    Idle,
}

/// Whether `pos` is the start of a game.
pub open spec fn is_start(pos: Position) -> bool {
    &&& pos.has_start_placement()
    &&& pos.side_to_move == Color::White
    &&& pos.castling_rights.0 == 15
    &&& pos.en_passant.is_none()
    &&& pos.halfmove_clock == 0
    &&& pos.fullmove_number == 1
    &&& pos.hash_consistent()
}

/// Whether the legal move `mv` is the one that the move word `token`
/// names: the same origin and destination, and for a promotion the same
/// piece. The word of a promotion names no other move, and no other word
/// names a promotion.
pub open spec fn names(token: Move, mv: Move) -> bool {
    &&& mv.spec_from() == token.spec_from()
    &&& mv.spec_to() == token.spec_to()
    &&& (mv.spec_move_type() == MoveType::Promotion) == (token.spec_move_type()
        == MoveType::Promotion)
    &&& mv.spec_move_type() == MoveType::Promotion ==> mv.spec_promotion_piece()
        == token.spec_promotion_piece()
}

/// The first of `moves` from number `i` on that `token` names.
pub open spec fn first_named(moves: Seq<Move>, token: Move, i: int) -> Option<Move>
    decreases moves.len() - i,
{
    if i < 0 || i >= moves.len() {
        None
    } else if names(token, moves[i]) {
        Some(moves[i])
    } else {
        first_named(moves, token, i + 1)
    }
}

/// The legal move of `pos` that the move word `token` names, if there is one.
pub open spec fn resolve(pos: Position, token: Move) -> Option<Move> {
    first_named(legal_moves_of(pos), token, 0)
}

/// The position after the move words `tokens` from number `i` on are played
/// on `pos`, and the number of words passed over, `dropped` to begin with.
/// A word that names no legal move is passed over.
pub open spec fn play_tokens(pos: Position, tokens: Seq<Move>, i: int, dropped: nat) -> (
    Position,
    nat,
)
    decreases tokens.len() - i,
{
    if i < 0 || i >= tokens.len() {
        (pos, dropped)
    } else {
        match resolve(pos, tokens[i]) {
            Some(mv) => play_tokens(pos.after(mv), tokens, i + 1, dropped),
            None => play_tokens(pos, tokens, i + 1, dropped + 1),
        }
    }
}

/// Whether `after` and `action` are what a `position` command with the
/// description `fen` and the move words `moves` makes of `before`, when
/// `base` is the position that the description sets up.
pub open spec fn set_from(
    base: Position,
    before: EngineState,
    after: EngineState,
    action: Action,
    fen: Seq<u8>,
    moves: Seq<Move>,
) -> bool {
    &&& match parse_fen(fen) {
        Some(fields) => describes(fields, base),
        None => is_start(base),
    }
    &&& after.position == play_tokens(base, moves, 0, 0).0
    &&& action == (Action::PositionSet {
        reset: parse_fen(fen).is_none(),
        dropped: play_tokens(base, moves, 0, 0).1 as usize,
    })
    &&& after.searching == before.searching
    &&& after.time_control == before.time_control
}

/// Whether `after` and `action` are what a `position` command with the
/// description `fen` and the move words `moves` makes of `before`: the root
/// position is the one that the description says, or the start of a game
/// when it says none, with the move words played on it; the action reports
/// whether the start of a game stood in and how many words were passed over.
pub open spec fn positioned(
    before: EngineState,
    after: EngineState,
    action: Action,
    fen: Seq<u8>,
    moves: Seq<Move>,
) -> bool {
    exists|base: Position| set_from(base, before, after, action, fen, moves)
}

/// Whether `after` and `action` are what the command `command` makes of
/// `before`. `uci` and `isready` ask for their replies and change nothing.
/// `ucinewgame` sets up the start of a game. `position` sets the root
/// position. `go` starts a search with its time control unless one is under
/// way, and is refused when one is. `stop` stops the search that is under
/// way and does nothing without one. `quit` asks to leave.
pub open spec fn handled(before: EngineState, after: EngineState, action: Action, command: CommandView)
    -> bool {
    match command {
        CommandView::Uci => action == Action::Identify && after == before,
        CommandView::IsReady => action == Action::ReadyOk && after == before,
        CommandView::NewGame => action == Action::ReadyOk && is_start(after.position)
            && after.searching == before.searching && after.time_control == before.time_control,
        CommandView::Position { fen, moves } => positioned(before, after, action, fen, moves),
        CommandView::Go { time_control } => if before.searching {
            action == Action::Busy && after == before
        } else {
            action == (Action::StartSearch { time_control }) && after.searching
                && after.time_control == time_control && after.position == before.position
        },
        CommandView::Stop => after == before && action == if before.searching {
            Action::StopSearch
        } else {
            Action::Idle
        },
        CommandView::Quit => action == Action::Quit && after == before,
    }
}

/// The legal move of `position` that the move word `token` names.
pub fn resolve_move(tables: &MagicTables, position: &Position, token: Move) -> (found: Option<Move>)
    requires
        tables.wf(),
        position.hash_consistent(),
    ensures
        found == resolve(*position, token),
        found.is_some() ==> position.moving_piece(found.unwrap()).is_some(),
{
    let legal = legal_moves(tables, position);
    let n = legal.len();
    let mut i: usize = 0;
    while i < n
        invariant
            n == legal@.len(),
            i <= n,
            legal@ == legal_moves_of(*position),
            first_named(legal@, token, i as int) == first_named(legal@, token, 0),
        decreases n - i,
    {
        let mv = legal.at(i);
        let promotes = mv.is_promotion();
        if mv.from() == token.from() && mv.to() == token.to() && promotes == token.is_promotion()
            && (!promotes || mv.promotion_piece() == token.promotion_piece()) {
            proof {
                lemma_legal_moves_are_legal(*position, i as int);
            }
            return Some(mv);
        }
        i += 1;
    }
    None
}

/// Plays the move words `tokens` on `position` and returns the number of
/// words that named no legal move and were passed over.
pub fn apply_moves(tables: &MagicTables, position: &mut Position, tokens: &Vec<Move>) -> (dropped:
    usize)
    requires
        tables.wf(),
        old(position).hash_consistent(),
    ensures
        final(position).hash_consistent(),
        (*final(position), dropped as nat) == play_tokens(*old(position), tokens@, 0, 0),
{
    let n = tokens.len();
    let mut dropped: usize = 0;
    let mut i: usize = 0;
    while i < n
        invariant
            tables.wf(),
            n == tokens@.len(),
            i <= n,
            dropped <= i,
            position.hash_consistent(),
            play_tokens(*position, tokens@, i as int, dropped as nat) == play_tokens(
                *old(position),
                tokens@,
                0,
                0,
            ),
        decreases n - i,
    {
        match resolve_move(tables, position, tokens[i]) {
            Some(mv) => {
                match position.play(mv) {
                    Some(next) => {
                        *position = next;
                    },
                    None => {
                        assert(false);
                    },
                }
            },
            None => {
                dropped += 1;
            },
        }
        i += 1;
    }
    dropped
}

impl EngineState {
    /// The state of an engine that was just started: the start of a game
    /// on the board, the default time control, no search under way.
    pub fn new() -> (state: EngineState)
        ensures
            is_start(state.position),
            state.position.wf(),
            !state.searching,
    {
        let mut position = Position::empty();
        position.set_startpos();
        EngineState { position, time_control: TimeControl::default(), searching: false }
    }

    /// Acts on the command `command`.
    ///
    /// `uci` and `isready` ask for their replies. `ucinewgame` sets up the
    /// start of a game. `position` sets the root position from its
    /// description, or the start of a game when the description is no
    /// position, and plays the move words on it. `go` starts a search
    /// unless one is under way. `stop` stops the search that is under way.
    /// `quit` ends the engine.
    pub fn handle(&mut self, tables: &MagicTables, command: &UciCommand) -> (action: Action)
        requires
            tables.wf(),
            old(self).position.hash_consistent(),
        ensures
            final(self).position.hash_consistent(),
            handled(*old(self), *final(self), action, command@),
    {
        match command {
            UciCommand::Uci => Action::Identify,
            UciCommand::IsReady => Action::ReadyOk,
            UciCommand::NewGame => {
                self.position.set_startpos();
                Action::ReadyOk
            },
            UciCommand::Position { fen, moves } => {
                let mut base = Position::empty();
                let reset = match base.set_fen_bytes(fen.as_slice()) {
                    Ok(_) => false,
                    Err(_) => {
                        base.set_startpos();
                        true
                    },
                };
                let ghost begin = base;
                let dropped = apply_moves(tables, &mut base, moves);
                self.position = base;
                let action = Action::PositionSet { reset, dropped };
                assert(set_from(begin, *old(self), *self, action, fen@, moves@));
                assert(positioned(*old(self), *self, action, fen@, moves@));
                action
            },
            UciCommand::Go { time_control } => {
                if self.searching {
                    Action::Busy
                } else {
                    self.time_control = *time_control;
                    self.searching = true;
                    Action::StartSearch { time_control: *time_control }
                }
            },
            UciCommand::Stop => {
                if self.searching {
                    Action::StopSearch
                } else {
                    Action::Idle
                }
            },
            UciCommand::Quit => Action::Quit,
        }
    }

    /// Acts on the line `line`: on the command that it is, and with
    /// `Unknown` when it is none.
    pub fn handle_line(&mut self, tables: &MagicTables, line: &str) -> (action: Action)
        requires
            tables.wf(),
            old(self).position.hash_consistent(),
        ensures
            final(self).position.hash_consistent(),
            match crate::commands::command_of(line.spec_bytes()) {
                Some(command) => handled(*old(self), *final(self), action, command),
                None => action == Action::Unknown && *final(self) == *old(self),
            },
    {
        match parse_command_bytes(line.as_bytes()) {
            Some(command) => self.handle(tables, &command),
            None => Action::Unknown,
        }
    }

    /// Takes the result of the search that is under way: the move to
    /// answer with is the move of the result, or the first legal move of the
    /// root position when the result has none, or none when there is no
    /// legal move. A result that comes while no search is under way is
    /// passed over, so that each search is answered once.
    pub fn finish_search(&mut self, tables: &MagicTables, result: &SearchResult) -> (action: Action)
        requires
            tables.wf(),
            old(self).position.hash_consistent(),
        ensures
            final(self).position == old(self).position,
            final(self).time_control == old(self).time_control,
            !final(self).searching,
            !old(self).searching ==> action == Action::Idle,
            old(self).searching ==> action == (Action::BestMove {
                mv: if result.best_move.is_some() {
                    result.best_move
                } else {
                    first_legal(old(self).position)
                },
            }),
    {
        if !self.searching {
            return Action::Idle;
        }
        self.searching = false;
        let mv = match result.best_move {
            Some(mv) => Some(mv),
            None => generate_fallback_move(tables, &self.position),
        };
        Action::BestMove { mv }
    }
}

/// No command answers with a best move, a command starts a search only when
/// none is under way, and only the start of a search changes whether one is
/// under way. With `finish_search`, which answers once for a search that is
/// under way and ends it, this makes one best move for each search started.
pub proof fn lemma_one_answer_per_search(
    before: EngineState,
    after: EngineState,
    action: Action,
    command: CommandView,
)
    requires
        handled(before, after, action, command),
    ensures
        !(action matches Action::BestMove { .. }),
        action matches Action::StartSearch { .. } ==> !before.searching && after.searching,
        !(action matches Action::StartSearch { .. }) ==> after.searching == before.searching,
{
}

/// The word that writes `mv`: the origin and the destination square, file
/// letter before rank digit, and the letter of the piece after a promotion.
pub open spec fn move_word(mv: Move) -> Seq<u8> {
    let from = mv.spec_from();
    let to = mv.spec_to();
    let squares = seq![
        (97 + from.spec_file()) as u8,
        (49 + from.spec_rank()) as u8,
        (97 + to.spec_file()) as u8,
        (49 + to.spec_rank()) as u8,
    ];
    if mv.spec_move_type() == MoveType::Promotion {
        squares.push(
            match mv.spec_promotion_piece() {
                Piece::Rook => 114u8,
                Piece::Bishop => 98u8,
                Piece::Knight => 110u8,
                _ => 113u8,
            },
        )
    } else {
        squares
    }
}

/// The word that writes the move to answer with: `0000` when there is none.
pub open spec fn answer_word(mv: Option<Move>) -> Seq<u8> {
    match mv {
        Some(mv) => move_word(mv),
        None => seq![48u8, 48u8, 48u8, 48u8],
    }
}

/// The word that writes the move to answer with, as bytes.
pub fn move_bytes(mv: Option<Move>) -> (word: Vec<u8>)
    ensures
        word@ == answer_word(mv),
{
    let mut word: Vec<u8> = Vec::new();
    match mv {
        None => {
            word.push(48);
            word.push(48);
            word.push(48);
            word.push(48);
            assert(word@ =~= answer_word(mv));
        },
        Some(mv) => {
            let from = mv.from();
            let to = mv.to();
            word.push(97 + from.file());
            word.push(49 + from.rank());
            word.push(97 + to.file());
            word.push(49 + to.rank());
            if mv.is_promotion() {
                let letter: u8 = match mv.promotion_piece() {
                    Piece::Rook => 114,
                    Piece::Bishop => 98,
                    Piece::Knight => 110,
                    _ => 113,
                };
                word.push(letter);
            }
            assert(word@ =~= move_word(mv));
        },
    }
    word
}

/// A move word reads back as the move it writes, for a normal move and for
/// a promotion.
pub proof fn lemma_move_word_round_trip(mv: Move)
    requires
        mv.spec_move_type() == MoveType::Normal || mv.spec_move_type() == MoveType::Promotion,
        mv.spec_move_type() == MoveType::Normal ==> mv.0 >> 14 == 0,
    ensures
        crate::commands::move_of_word(move_word(mv)) == Some(mv),
{
    crate::moves::lemma_unpack_bounds(mv.0);
    let from = mv.spec_from();
    let to = mv.spec_to();
    let word = move_word(mv);
    assert(crate::commands::named_square(word[0], word[1]) == Some(from));
    assert(crate::commands::named_square(word[2], word[3]) == Some(to));
    lemma_shift_is_field(mv.0);
    if mv.spec_move_type() == MoveType::Normal {
        crate::moves::lemma_pack_fields(from.0 as u16, to.0 as u16, 0, 0);
        crate::moves::lemma_move_determined_by_fields(
            mv,
            Move(crate::moves::pack(from, to, MoveType::Normal, 0)),
        );
    } else {
        let piece = mv.spec_promotion_piece();
        let bits = crate::moves::promotion_bits(piece);
        crate::moves::lemma_pack_fields(from.0 as u16, to.0 as u16, 1, bits);
        crate::moves::lemma_move_determined_by_fields(
            mv,
            Move(crate::moves::pack(from, to, MoveType::Promotion, bits)),
        );
    }
}

/// The top two bits of a move are its promotion field.
proof fn lemma_shift_is_field(m: u16)
    by (bit_vector)
    ensures
        (m >> 14) & 0x3 == m >> 14,
{
}

} // verus!
