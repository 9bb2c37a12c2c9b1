//! Positions in Forsyth-Edwards notation: six fields in a line, the
//! placement rank by rank from the eighth down, the side to move, the castle
//! rights, the en-passant target and the two clocks.

use crate::bitset::{is_set, lemma_bitwise_members};
use crate::position::{Position, PositionError};
use crate::text::{decimal_of, parse_decimal, parse_u32, push_decimal, split_words, words_of};
use crate::types::{Bitboard, CastleRights, Color, Piece, Square};
use crate::zobrist::ZobristHash;
use vstd::prelude::*;
use vstd::string::StringSliceAdditionalSpecFns;

verus! {

/// What stands on a square: a piece of a side, or nothing.
pub type Cell = Option<(Piece, Color)>;

/// What stands on the square numbered `s` in `pos`: white's piece when
/// white has one there, else black's, else nothing.
pub open spec fn cell_at(pos: Position, s: int) -> Cell {
    let sq = Square(s as u8);
    match pos.piece_at(Color::White, sq) {
        Some(piece) => Some((piece, Color::White)),
        None => match pos.piece_at(Color::Black, sq) {
            Some(piece) => Some((piece, Color::Black)),
            None => None,
        },
    }
}

/// The letter of `piece` of `color`: upper case for white, lower case for black.
pub open spec fn piece_letter(piece: Piece, color: Color) -> u8 {
    let lower: u8 = match piece {
        Piece::Pawn => 112,
        Piece::Knight => 110,
        Piece::Bishop => 98,
        Piece::Rook => 114,
        Piece::Queen => 113,
        Piece::King => 107,
    };
    if color == Color::White {
        (lower - 32) as u8
    } else {
        lower
    }
}

/// The digit that counts `empty` squares, or nothing for none.
pub open spec fn gap_text(empty: int) -> Seq<u8> {
    if empty > 0 {
        seq![(48 + empty) as u8]
    } else {
        Seq::empty()
    }
}

/// The text of rank `rank` from file `file` on, when `empty` squares before
/// it wait to be counted: a letter for each piece, a digit for each run of
/// empty squares.
pub open spec fn rank_text(pos: Position, rank: int, file: int, empty: int) -> Seq<u8>
    decreases 8 - file,
{
    if file >= 8 {
        gap_text(empty)
    } else {
        match cell_at(pos, rank * 8 + file) {
            Some((piece, color)) => gap_text(empty) + seq![piece_letter(piece, color)] + rank_text(
                pos,
                rank,
                file + 1,
                0,
            ),
            None => rank_text(pos, rank, file + 1, empty + 1),
        }
    }
}

/// The text of the ranks from `rank` down to the first, a slash between each two.
pub open spec fn ranks_text(pos: Position, rank: int) -> Seq<u8>
    decreases rank,
{
    if rank <= 0 {
        rank_text(pos, 0, 0, 0)
    } else {
        rank_text(pos, rank, 0, 0) + seq![47u8] + ranks_text(pos, rank - 1)
    }
}

/// The castle rights as text: `K`, `Q`, `k` and `q` for the rights held, in
/// this order, or `-` for none.
pub open spec fn rights_text(rights: CastleRights) -> Seq<u8> {
    let held = (if rights.0 & 1 != 0 { seq![75u8] } else { Seq::<u8>::empty() }) + (if rights.0 & 2
        != 0 { seq![81u8] } else { Seq::<u8>::empty() }) + (if rights.0 & 4 != 0 {
        seq![107u8]
    } else {
        Seq::<u8>::empty()
    }) + (if rights.0 & 8 != 0 { seq![113u8] } else { Seq::<u8>::empty() });
    if held.len() == 0 {
        seq![45u8]
    } else {
        held
    }
}

/// The en-passant target as text: file letter and rank digit, or `-` for none.
pub open spec fn target_text(target: Option<Square>) -> Seq<u8> {
    match target {
        Some(sq) => seq![(97 + sq.spec_file()) as u8, (49 + sq.spec_rank()) as u8],
        None => seq![45u8],
    }
}

/// The side to move as text: `w` or `b`.
pub open spec fn side_text(side: Color) -> Seq<u8> {
    if side == Color::White {
        seq![119u8]
    } else {
        seq![98u8]
    }
}

/// The position in Forsyth-Edwards notation.
pub open spec fn fen_text(pos: Position) -> Seq<u8> {
    ranks_text(pos, 7) + seq![32u8] + side_text(pos.side_to_move) + seq![32u8] + rights_text(
        pos.castling_rights,
    ) + seq![32u8] + target_text(pos.en_passant) + seq![32u8] + decimal_of(
        pos.halfmove_clock as nat,
    ) + seq![32u8] + decimal_of(pos.fullmove_number as nat)
}

/// What stands on `sq`.
fn cell_on(position: &Position, sq: Square) -> (cell: Cell)
    requires
        sq.valid(),
    ensures
        cell == cell_at(*position, sq.0 as int),
{
    match position.piece_on(Color::White, sq) {
        Some(piece) => Some((piece, Color::White)),
        None => match position.piece_on(Color::Black, sq) {
            Some(piece) => Some((piece, Color::Black)),
            None => None,
        },
    }
}

/// The letter of `piece` of `color`.
fn letter_of(piece: Piece, color: Color) -> (letter: u8)
    ensures
        letter == piece_letter(piece, color),
{
    let lower: u8 = match piece {
        Piece::Pawn => 112,
        Piece::Knight => 110,
        Piece::Bishop => 98,
        Piece::Rook => 114,
        Piece::Queen => 113,
        Piece::King => 107,
    };
    match color {
        Color::White => lower - 32,
        Color::Black => lower,
    }
}

/// Appends the text of rank `rank` to `out`.
fn push_rank(position: &Position, out: &mut Vec<u8>, rank: u8)
    requires
        rank < 8,
    ensures
        final(out)@ == old(out)@ + rank_text(*position, rank as int, 0, 0),
{
    let ghost begin = out@;
    let mut empty: u8 = 0;
    let mut file: u8 = 0;
    while file < 8
        invariant
            rank < 8,
            file <= 8,
            empty <= file,
            out@ + rank_text(*position, rank as int, file as int, empty as int) == begin
                + rank_text(*position, rank as int, 0, 0),
        decreases 8 - file,
    {
        let ghost before = out@;
        match cell_on(position, Square::new(file, rank)) {
            Some((piece, color)) => {
                if empty > 0 {
                    out.push(48 + empty);
                }
                out.push(letter_of(piece, color));
                assert(out@ + rank_text(*position, rank as int, file + 1, 0) =~= before
                    + rank_text(*position, rank as int, file as int, empty as int));
                empty = 0;
            },
            None => {
                empty += 1;
            },
        }
        file += 1;
    }
    let ghost before = out@;
    if empty > 0 {
        out.push(48 + empty);
    }
    assert(out@ =~= before + rank_text(*position, rank as int, 8, empty as int));
}

/// Appends the placement to `out`.
fn push_placement(position: &Position, out: &mut Vec<u8>)
    ensures
        final(out)@ == old(out)@ + ranks_text(*position, 7),
{
    let ghost begin = out@;
    let mut rank: u8 = 7;
    while rank > 0
        invariant
            rank <= 7,
            out@ + ranks_text(*position, rank as int) == begin + ranks_text(*position, 7),
        decreases rank,
    {
        let ghost before = out@;
        push_rank(position, out, rank);
        out.push(47);
        assert(out@ + ranks_text(*position, rank - 1) =~= before + ranks_text(
            *position,
            rank as int,
        ));
        rank -= 1;
    }
    let ghost before = out@;
    push_rank(position, out, 0);
    assert(out@ =~= before + ranks_text(*position, 0));
}

/// Appends the castle rights to `out`.
fn push_rights(rights: CastleRights, out: &mut Vec<u8>)
    ensures
        final(out)@ == old(out)@ + rights_text(rights),
{
    let mut any = false;
    if rights.has(CastleRights(CastleRights::WHITE_KING)) {
        out.push(75);
        any = true;
    }
    if rights.has(CastleRights(CastleRights::WHITE_QUEEN)) {
        out.push(81);
        any = true;
    }
    if rights.has(CastleRights(CastleRights::BLACK_KING)) {
        out.push(107);
        any = true;
    }
    if rights.has(CastleRights(CastleRights::BLACK_QUEEN)) {
        out.push(113);
        any = true;
    }
    if !any {
        out.push(45);
    }
    assert(out@ =~= old(out)@ + rights_text(rights));
}

/// Appends the en-passant target to `out`.
fn push_target(target: Option<Square>, out: &mut Vec<u8>)
    requires
        target.is_some() ==> target.unwrap().valid(),
    ensures
        final(out)@ == old(out)@ + target_text(target),
{
    match target {
        Some(sq) => {
            out.push(97 + sq.file());
            out.push(49 + sq.rank());
        },
        None => {
            out.push(45);
        },
    }
    assert(out@ =~= old(out)@ + target_text(target));
}

impl Position {
    /// The position in Forsyth-Edwards notation, as bytes.
    pub fn to_fen_bytes(&self) -> (out: Vec<u8>)
        requires
            self.en_passant.is_some() ==> self.en_passant.unwrap().valid(),
        ensures
            out@ == fen_text(*self),
    {
        let mut out: Vec<u8> = Vec::new();
        push_placement(self, &mut out);
        out.push(32);
        match self.side_to_move {
            Color::White => out.push(119),
            Color::Black => out.push(98),
        }
        out.push(32);
        let ghost a = out@;
        assert(a =~= ranks_text(*self, 7) + seq![32u8] + side_text(self.side_to_move) + seq![
            32u8,
        ]);
        push_rights(self.castling_rights, &mut out);
        out.push(32);
        push_target(self.en_passant, &mut out);
        out.push(32);
        push_decimal(&mut out, self.halfmove_clock);
        out.push(32);
        push_decimal(&mut out, self.fullmove_number);
        assert(out@ =~= fen_text(*self));
        out
    }

    /// The position in Forsyth-Edwards notation.
    pub fn to_fen(&self) -> (fen: String)
        requires
            self.en_passant.is_some() ==> self.en_passant.unwrap().valid(),
        ensures
            fen@.len() == fen_text(*self).len(),
            forall|i: int| 0 <= i < fen@.len() ==> fen@[i] as u8 == fen_text(*self)[i],
    {
        let bytes = self.to_fen_bytes();
        proof {
            lemma_fen_text_is_ascii(*self);
        }
        ascii_string(bytes)
    }
}

/// `String::from_utf8` on bytes that are all below 128: the string that has
/// one character for each byte, the character with the byte's number.
#[verifier::external_body]
fn ascii_string(bytes: Vec<u8>) -> (s: String)
    requires
        forall|i: int| 0 <= i < bytes@.len() ==> bytes@[i] < 128,
    ensures
        s@.len() == bytes@.len(),
        forall|i: int| 0 <= i < s@.len() ==> s@[i] as u8 == bytes@[i],
{
    String::from_utf8(bytes).unwrap_or_default()
}

/// Whether every byte of `s` is below 128.
pub open spec fn is_plain(s: Seq<u8>) -> bool {
    forall|i: int| 0 <= i < s.len() ==> #[trigger] s[i] < 128
}

proof fn lemma_rank_text_is_plain(pos: Position, rank: int, file: int, empty: int)
    requires
        0 <= empty <= file <= 8,
    ensures
        is_plain(rank_text(pos, rank, file, empty)),
    decreases 8 - file,
{
    if file < 8 {
        lemma_rank_text_is_plain(pos, rank, file + 1, 0);
        lemma_rank_text_is_plain(pos, rank, file + 1, empty + 1);
    }
}

proof fn lemma_ranks_text_is_plain(pos: Position, rank: int)
    ensures
        is_plain(ranks_text(pos, rank)),
    decreases rank,
{
    lemma_rank_text_is_plain(pos, 0, 0, 0);
    if rank > 0 {
        lemma_rank_text_is_plain(pos, rank, 0, 0);
        lemma_ranks_text_is_plain(pos, rank - 1);
    }
}

proof fn lemma_decimal_is_plain(n: nat)
    ensures
        is_plain(decimal_of(n)),
    decreases n,
{
    if n >= 10 {
        lemma_decimal_is_plain(n / 10);
    }
}

/// The notation of a position is plain text.
pub proof fn lemma_fen_text_is_ascii(pos: Position)
    requires
        pos.en_passant.is_some() ==> pos.en_passant.unwrap().valid(),
    ensures
        is_plain(fen_text(pos)),
{
    lemma_ranks_text_is_plain(pos, 7);
    lemma_decimal_is_plain(pos.halfmove_clock as nat);
    lemma_decimal_is_plain(pos.fullmove_number as nat);
}

/// What a description in Forsyth-Edwards notation says.
pub struct FenFields {
    /// What stands on each of the 64 squares.
    pub board: Seq<Cell>,
    pub side: Color,
    pub castling: CastleRights,
    pub en_passant: Option<Square>,
    pub halfmove: u32,
    pub fullmove: u32,
}

/// The piece that the letter `b` names: `PNBRQK` for white, `pnbrqk` for black.
pub open spec fn letter_piece(b: u8) -> Cell {
    if b == 80 {
        Some((Piece::Pawn, Color::White))
    } else if b == 78 {
        Some((Piece::Knight, Color::White))
    } else if b == 66 {
        Some((Piece::Bishop, Color::White))
    } else if b == 82 {
        Some((Piece::Rook, Color::White))
    } else if b == 81 {
        Some((Piece::Queen, Color::White))
    } else if b == 75 {
        Some((Piece::King, Color::White))
    } else if b == 112 {
        Some((Piece::Pawn, Color::Black))
    } else if b == 110 {
        Some((Piece::Knight, Color::Black))
    } else if b == 98 {
        Some((Piece::Bishop, Color::Black))
    } else if b == 114 {
        Some((Piece::Rook, Color::Black))
    } else if b == 113 {
        Some((Piece::Queen, Color::Black))
    } else if b == 107 {
        Some((Piece::King, Color::Black))
    } else {
        None
    }
}

/// The board with nothing on it.
pub open spec fn empty_board() -> Seq<Cell> {
    Seq::new(64, |s: int| None::<(Piece, Color)>)
}

/// The board that the placement `s` describes from byte `i` on, when the
/// bytes before have filled `board` and the next square is on `rank` and
/// `file`. A slash ends a rank that is full and goes to the start of the
/// rank below; a digit from 1 to 8 skips that many squares within the rank;
/// a piece letter fills the next square. The description has to end with
/// the first rank full. Anything else describes no board.
pub open spec fn scan_placement(s: Seq<u8>, i: int, rank: int, file: int, board: Seq<Cell>)
    -> Option<Seq<Cell>>
    decreases s.len() - i,
{
    if i < 0 || i >= s.len() {
        if rank == 0 && file == 8 {
            Some(board)
        } else {
            None
        }
    } else if s[i] == 47 {
        if file == 8 && rank > 0 {
            scan_placement(s, i + 1, rank - 1, 0, board)
        } else {
            None
        }
    } else if 49 <= s[i] <= 56 {
        if file + (s[i] - 48) <= 8 {
            scan_placement(s, i + 1, rank, file + (s[i] - 48), board)
        } else {
            None
        }
    } else if letter_piece(s[i]).is_some() && file < 8 {
        scan_placement(s, i + 1, rank, file + 1, board.update(rank * 8 + file, letter_piece(s[i])))
    } else {
        None
    }
}

/// The side that the word `w` names: `w` or `b`.
pub open spec fn parse_side(w: Seq<u8>) -> Option<Color> {
    if w == seq![119u8] {
        Some(Color::White)
    } else if w == seq![98u8] {
        Some(Color::Black)
    } else {
        None
    }
}

/// The flag that the letter `b` names: `K`, `Q`, `k` or `q`.
pub open spec fn right_letter(b: u8) -> Option<u8> {
    if b == 75 {
        Some(1u8)
    } else if b == 81 {
        Some(2u8)
    } else if b == 107 {
        Some(4u8)
    } else if b == 113 {
        Some(8u8)
    } else {
        None
    }
}

/// The rights that the letters of `s` from `i` on add to `rights`.
pub open spec fn scan_rights(s: Seq<u8>, i: int, rights: u8) -> Option<u8>
    decreases s.len() - i,
{
    if i < 0 || i >= s.len() {
        Some(rights)
    } else {
        match right_letter(s[i]) {
            Some(flag) => scan_rights(s, i + 1, rights | flag),
            None => None,
        }
    }
}

/// The castle rights that the word `w` names: `-` for none, else letters
/// among `KQkq`.
pub open spec fn parse_rights(w: Seq<u8>) -> Option<u8> {
    if w == seq![45u8] {
        Some(0u8)
    } else {
        scan_rights(w, 0, 0)
    }
}

/// The en-passant target that the word `w` names: `-` for none, else a
/// file letter and a rank digit.
pub open spec fn parse_target(w: Seq<u8>) -> Option<Option<Square>> {
    if w == seq![45u8] {
        Some(None)
    } else if w.len() == 2 && crate::commands::named_square(w[0], w[1]).is_some() {
        Some(crate::commands::named_square(w[0], w[1]))
    } else {
        None
    }
}

/// The clock in field `k`: its number, and `default` when the field is
/// missing or no number.
pub open spec fn clock_field(fields: Seq<Seq<u8>>, k: int, default: u32) -> u32 {
    if k < fields.len() {
        match parse_decimal(fields[k], u32::MAX as nat) {
            Some(v) => v as u32,
            None => default,
        }
    } else {
        default
    }
}

/// What the text `text` says as a description of a position, if it is one:
/// at least four fields, of which the first describes a board, the second
/// names a side, the third castle rights and the fourth an en-passant
/// target. The clocks come from the fifth and sixth field and are 0 and 1
/// without them.
pub open spec fn parse_fen(text: Seq<u8>) -> Option<FenFields> {
    let fields = words_of(text);
    if fields.len() < 4 {
        None
    } else {
        let board = scan_placement(fields[0], 0, 7, 0, empty_board());
        let side = parse_side(fields[1]);
        let rights = parse_rights(fields[2]);
        let target = parse_target(fields[3]);
        if board.is_some() && side.is_some() && rights.is_some() && target.is_some() {
            Some(
                FenFields {
                    board: board.unwrap(),
                    side: side.unwrap(),
                    castling: CastleRights(rights.unwrap()),
                    en_passant: target.unwrap(),
                    halfmove: clock_field(fields, 4, 0),
                    fullmove: clock_field(fields, 5, 1),
                },
            )
        } else {
            None
        }
    }
}

/// Whether `pos` holds on every square what `board` says.
pub open spec fn placed_as(pos: Position, board: Seq<Cell>) -> bool {
    forall|s: int| 0 <= s < 64 ==> #[trigger] cell_at(pos, s) == board[s]
}

/// Whether `pos` is the position that `fields` says: the same on every
/// square, with no square in two layers, the same side to move, castle
/// rights, en-passant target and clocks, and the right fingerprint.
pub open spec fn describes(fields: FenFields, pos: Position) -> bool {
    &&& placed_as(pos, fields.board)
    &&& pos.disjoint()
    &&& pos.side_to_move == fields.side
    &&& pos.castling_rights == fields.castling
    &&& pos.en_passant == fields.en_passant
    &&& pos.halfmove_clock == fields.halfmove
    &&& pos.fullmove_number == fields.fullmove
    &&& pos.hash_consistent()
}

/// The piece that the letter `b` names.
fn read_letter(b: u8) -> (cell: Cell)
    ensures
        cell == letter_piece(b),
{
    if b == 80 {
        Some((Piece::Pawn, Color::White))
    } else if b == 78 {
        Some((Piece::Knight, Color::White))
    } else if b == 66 {
        Some((Piece::Bishop, Color::White))
    } else if b == 82 {
        Some((Piece::Rook, Color::White))
    } else if b == 81 {
        Some((Piece::Queen, Color::White))
    } else if b == 75 {
        Some((Piece::King, Color::White))
    } else if b == 112 {
        Some((Piece::Pawn, Color::Black))
    } else if b == 110 {
        Some((Piece::Knight, Color::Black))
    } else if b == 98 {
        Some((Piece::Bishop, Color::Black))
    } else if b == 114 {
        Some((Piece::Rook, Color::Black))
    } else if b == 113 {
        Some((Piece::Queen, Color::Black))
    } else if b == 107 {
        Some((Piece::King, Color::Black))
    } else {
        None
    }
}

/// Whether the squares from rank `rank`, file `file` on, in the order of
/// the notation, are empty in `board`: the rest of the rank and all the
/// ranks below.
pub open spec fn empty_from(board: Seq<Cell>, rank: int, file: int) -> bool {
    forall|s: int|
        0 <= s < 64 && (s / 8 < rank || (s / 8 == rank && s % 8 >= file)) ==> (#[trigger] board[s]).is_none()
}

/// Putting a piece on an empty square changes what stands there and nothing else.
proof fn lemma_place_on_empty(before: Position, after: Position, piece: Piece, color: Color, sq: Square)
    requires
        sq.valid(),
        before.disjoint(),
        cell_at(before, sq.0 as int).is_none(),
        before.differs_in_layer(after, piece, color, before.layer(piece, color) | sq.mask()),
    ensures
        after.disjoint(),
        cell_at(after, sq.0 as int) == Some((piece, color)),
        forall|s: int| 0 <= s < 64 && s != sq.0 ==> #[trigger] cell_at(after, s) == cell_at(before, s),
{
    lemma_bitwise_members();
    assert(Square(sq.0 as int as u8) == sq);
    assert forall|p: Piece, c: Color, s: u64| #[trigger]
        is_set(after.layer(p, c), s) <==> is_set(before.layer(p, c), s) || (p == piece && c == color
            && s == sq.idx()) by {
        if p == piece && c == color {
            assert(is_set(before.layer(p, c) | sq.mask(), s) <==> is_set(before.layer(p, c), s)
                || is_set(sq.mask(), s));
        }
    }
    assert forall|p: Piece, c: Color| !is_set(#[trigger] before.layer(p, c), sq.idx()) by {
        if c == Color::White {
            assert(before.piece_at(Color::White, sq).is_none());
        } else {
            assert(before.piece_at(Color::Black, sq).is_none());
        }
    }
    assert forall|s: int| 0 <= s < 64 && s != sq.0 implies #[trigger] cell_at(after, s) == cell_at(
        before,
        s,
    ) by {
        let t = Square(s as u8);
        assert(t.idx() != sq.idx());
        assert(after.piece_at(Color::White, t) == before.piece_at(Color::White, t));
        assert(after.piece_at(Color::Black, t) == before.piece_at(Color::Black, t));
    }
}

/// Reads the placement `field` into `position`, which has to be empty.
fn read_placement(field: &Vec<u8>, position: &mut Position) -> (ok: bool)
    requires
        forall|p: Piece, c: Color| #[trigger] old(position).layer(p, c) == 0,
        old(position).hash_consistent(),
    ensures
        ok == scan_placement(field@, 0, 7, 0, empty_board()).is_some(),
        ok ==> placed_as(*final(position), scan_placement(field@, 0, 7, 0, empty_board()).unwrap()),
        ok ==> final(position).disjoint(),
        final(position).hash_consistent(),
        final(position).side_to_move == old(position).side_to_move,
        final(position).castling_rights == old(position).castling_rights,
        final(position).en_passant == old(position).en_passant,
        final(position).halfmove_clock == old(position).halfmove_clock,
        final(position).fullmove_number == old(position).fullmove_number,
{
    let n = field.len();
    let mut rank: u8 = 7;
    let mut file: u8 = 0;
    let mut i: usize = 0;
    let ghost mut board = empty_board();
    let ghost goal = scan_placement(field@, 0, 7, 0, empty_board());
    proof {
        lemma_bitwise_members();
        assert forall|s: int| 0 <= s < 64 implies #[trigger] cell_at(*position, s) == board[s] by {
            let t = Square(s as u8);
            assert(position.piece_at(Color::White, t).is_none());
            assert(position.piece_at(Color::Black, t).is_none());
        }
    }
    while i < n
        invariant
            n == field@.len(),
            i <= n,
            rank <= 7,
            file <= 8,
            board.len() == 64,
            goal == scan_placement(field@, 0, 7, 0, empty_board()),
            goal == scan_placement(field@, i as int, rank as int, file as int, board),
            placed_as(*position, board),
            empty_from(board, rank as int, file as int),
            position.disjoint(),
            position.hash_consistent(),
            position.side_to_move == old(position).side_to_move,
            position.castling_rights == old(position).castling_rights,
            position.en_passant == old(position).en_passant,
            position.halfmove_clock == old(position).halfmove_clock,
            position.fullmove_number == old(position).fullmove_number,
        decreases n - i,
    {
        let b = field[i];
        if b == 47 {
            if file != 8 || rank == 0 {
                return false;
            }
            rank -= 1;
            file = 0;
        } else if 49 <= b && b <= 56 {
            if file + (b - 48) > 8 {
                return false;
            }
            file += b - 48;
        } else {
            match read_letter(b) {
                Some((piece, color)) => {
                    if file > 7 {
                        return false;
                    }
                    let sq = Square::new(file, rank);
                    let ghost before = *position;
                    assert(board[sq.0 as int].is_none());
                    assert(cell_at(before, sq.0 as int).is_none());
                    position.set_piece(piece, color, sq);
                    proof {
                        lemma_place_on_empty(before, *position, piece, color, sq);
                        board = board.update(sq.0 as int, Some((piece, color)));
                    }
                    file += 1;
                },
                None => {
                    return false;
                },
            }
        }
        i += 1;
    }
    rank == 0 && file == 8
}

/// Reads the castle rights that `field` names.
fn read_rights(field: &Vec<u8>) -> (rights: Option<u8>)
    ensures
        rights == parse_rights(field@),
{
    let n = field.len();
    if n == 1 && field[0] == 45 {
        assert(field@ =~= seq![45u8]);
        return Some(0);
    }
    let mut rights: u8 = 0;
    let mut i: usize = 0;
    assert(field@ != seq![45u8]) by {
        if field@ == seq![45u8] {
            assert(field@.len() == 1 && field@[0] == 45);
        }
    }
    while i < n
        invariant
            n == field@.len(),
            i <= n,
            field@ != seq![45u8],
            scan_rights(field@, i as int, rights) == scan_rights(field@, 0, 0),
        decreases n - i,
    {
        let b = field[i];
        if b == 75 {
            rights = rights | 1;
        } else if b == 81 {
            rights = rights | 2;
        } else if b == 107 {
            rights = rights | 4;
        } else if b == 113 {
            rights = rights | 8;
        } else {
            return None;
        }
        i += 1;
    }
    Some(rights)
}

/// Reads the en-passant target that `field` names.
fn read_target(field: &Vec<u8>) -> (target: Option<Option<Square>>)
    ensures
        target == parse_target(field@),
{
    let n = field.len();
    if n == 1 && field[0] == 45 {
        assert(field@ =~= seq![45u8]);
        return Some(None);
    }
    if n != 2 {
        return None;
    }
    let file = field[0];
    let rank = field[1];
    if 97 <= file && file <= 104 && 49 <= rank && rank <= 56 {
        Some(Some(Square::new(file - 97, rank - 49)))
    } else {
        None
    }
}

/// Reads the side that `field` names.
fn read_side(field: &Vec<u8>) -> (side: Option<Color>)
    ensures
        side == parse_side(field@),
{
    if field.len() != 1 {
        return None;
    }
    if field[0] == 119 {
        assert(field@ =~= seq![119u8]);
        Some(Color::White)
    } else if field[0] == 98 {
        assert(field@ =~= seq![98u8]);
        Some(Color::Black)
    } else {
        None
    }
}

impl Position {
    /// Sets the position to the one that the bytes `fen` describe in
    /// Forsyth-Edwards notation. Fails with `InvalidFen`, the position
    /// untouched, when they describe none.
    pub fn set_fen_bytes(&mut self, fen: &[u8]) -> (done: Result<(), PositionError>)
        ensures
            match parse_fen(fen@) {
                Some(fields) => done.is_ok() && describes(fields, *final(self)),
                None => done == Err::<(), PositionError>(PositionError::InvalidFen) && *final(self)
                    == *old(self),
            },
    {
        let fields = split_words(fen);
        let ghost words = crate::text::contents(fields@);
        if fields.len() < 4 {
            return Err(PositionError::InvalidFen);
        }
        assert(words[0] == fields@[0]@ && words[1] == fields@[1]@ && words[2] == fields@[2]@
            && words[3] == fields@[3]@);
        let mut next = Position::empty();
        if !read_placement(&fields[0], &mut next) {
            return Err(PositionError::InvalidFen);
        }
        let side = match read_side(&fields[1]) {
            Some(side) => side,
            None => {
                return Err(PositionError::InvalidFen);
            },
        };
        let rights = match read_rights(&fields[2]) {
            Some(rights) => rights,
            None => {
                return Err(PositionError::InvalidFen);
            },
        };
        let target = match read_target(&fields[3]) {
            Some(target) => target,
            None => {
                return Err(PositionError::InvalidFen);
            },
        };
        let halfmove: u32 = if fields.len() > 4 {
            assert(words[4] == fields@[4]@);
            match parse_u32(&fields[4]) {
                Some(v) => v,
                None => 0,
            }
        } else {
            0
        };
        let fullmove: u32 = if fields.len() > 5 {
            assert(words[5] == fields@[5]@);
            match parse_u32(&fields[5]) {
                Some(v) => v,
                None => 1,
            }
        } else {
            1
        };
        let ghost placed = next;
        next.side_to_move = side;
        next.castling_rights = CastleRights(rights);
        next.en_passant = target;
        next.halfmove_clock = halfmove;
        next.fullmove_number = fullmove;
        next.recompute_hash();
        proof {
            assert forall|s: int| 0 <= s < 64 implies #[trigger] cell_at(next, s) == cell_at(
                placed,
                s,
            ) by {
                let t = Square(s as u8);
                assert(next.pieces == placed.pieces);
                assert(next.piece_at(Color::White, t) == placed.piece_at(Color::White, t));
                assert(next.piece_at(Color::Black, t) == placed.piece_at(Color::Black, t));
            }
            assert(next.disjoint()) by {
                assert(next.pieces == placed.pieces);
                assert forall|p: Piece, c: Color| #[trigger] next.layer(p, c) == placed.layer(p, c) by {}
            }
        }
        *self = next;
        Ok(())
    }

    /// Sets the position to the one that `fen` describes in Forsyth-Edwards
    /// notation. Fails with `InvalidFen`, the position untouched, when it
    /// describes none.
    pub fn set_fen(&mut self, fen: &str) -> (done: Result<(), PositionError>)
        ensures
            match parse_fen(fen.spec_bytes()) {
                Some(fields) => done.is_ok() && describes(fields, *final(self)),
                None => done == Err::<(), PositionError>(PositionError::InvalidFen) && *final(self)
                    == *old(self),
            },
    {
        self.set_fen_bytes(fen.as_bytes())
    }
}

/// What stands on every square of `pos`.
pub open spec fn board_of(pos: Position) -> Seq<Cell> {
    Seq::new(64, |s: int| cell_at(pos, s))
}

/// The board as the notation has described it when the next square to
/// come is on `rank` and `file`: what stands in `pos` on the squares that
/// came before, and nothing on the others.
pub open spec fn board_before(pos: Position, rank: int, file: int) -> Seq<Cell> {
    Seq::new(
        64,
        |s: int|
            if s / 8 > rank || (s / 8 == rank && s % 8 < file) {
                cell_at(pos, s)
            } else {
                None
            },
    )
}

/// Whether no byte of `s` is a blank.
pub open spec fn no_blank(s: Seq<u8>) -> bool {
    forall|i: int| 0 <= i < s.len() ==> !crate::text::is_blank(#[trigger] s[i])
}

/// The letter of a piece names that piece.
proof fn lemma_letter_names_piece(piece: Piece, color: Color)
    ensures
        letter_piece(piece_letter(piece, color)) == Some((piece, color)),
        piece_letter(piece, color) != 47,
        !(49 <= piece_letter(piece, color) <= 56),
        !crate::text::is_blank(piece_letter(piece, color)),
{
}

/// Reading the text of the rest of a rank fills the rest of the rank.
proof fn lemma_scan_rank(
    pos: Position,
    s: Seq<u8>,
    i: int,
    rank: int,
    file: int,
    empty: int,
    board: Seq<Cell>,
)
    requires
        0 <= rank < 8,
        0 <= empty <= file <= 8,
        0 <= i,
        i + rank_text(pos, rank, file, empty).len() <= s.len(),
        s.subrange(i, i + rank_text(pos, rank, file, empty).len()) == rank_text(
            pos,
            rank,
            file,
            empty,
        ),
        board == board_before(pos, rank, file),
    ensures
        scan_placement(s, i, rank, file - empty, board) == scan_placement(
            s,
            i + rank_text(pos, rank, file, empty).len(),
            rank,
            8,
            board_before(pos, rank, 8),
        ),
    decreases 8 - file,
{
    let text = rank_text(pos, rank, file, empty);
    if file >= 8 {
        if empty > 0 {
            assert(s[i] == text[0]);
        }
    } else {
        match cell_at(pos, rank * 8 + file) {
            Some((piece, color)) => {
                let rest = rank_text(pos, rank, file + 1, 0);
                let gap = gap_text(empty);
                lemma_letter_names_piece(piece, color);
                let at = i + gap.len();
                assert(text =~= gap + seq![piece_letter(piece, color)] + rest);
                if empty > 0 {
                    assert(s[i] == text[0]);
                }
                assert(s[at] == text[gap.len() as int]);
                assert(scan_placement(s, i, rank, file - empty, board) == scan_placement(
                    s,
                    at,
                    rank,
                    file,
                    board,
                ));
                let next = board.update(rank * 8 + file, Some((piece, color)));
                assert(next =~= board_before(pos, rank, file + 1)) by {
                    assert forall|k: int| 0 <= k < 64 implies next[k] == board_before(
                        pos,
                        rank,
                        file + 1,
                    )[k] by {
                        if k == rank * 8 + file {
                        }
                    }
                }
                assert(s.subrange(at + 1, at + 1 + rest.len()) =~= rest) by {
                    assert forall|k: int| 0 <= k < rest.len() implies s[at + 1 + k] == rest[k] by {
                        assert(s[i + (gap.len() + 1 + k)] == text[gap.len() + 1 + k]);
                    }
                }
                lemma_scan_rank(pos, s, at + 1, rank, file + 1, 0, next);
            },
            None => {
                assert(board =~= board_before(pos, rank, file + 1)) by {
                    assert forall|k: int| 0 <= k < 64 implies board[k] == board_before(
                        pos,
                        rank,
                        file + 1,
                    )[k] by {
                        if k == rank * 8 + file {
                        }
                    }
                }
                lemma_scan_rank(pos, s, i, rank, file + 1, empty + 1, board);
            },
        }
    }
}

/// Reading the text of the ranks from `rank` down gives the board of the position.
proof fn lemma_scan_ranks(pos: Position, s: Seq<u8>, i: int, rank: int)
    requires
        0 <= rank < 8,
        0 <= i,
        i + ranks_text(pos, rank).len() == s.len(),
        s.subrange(i, s.len() as int) == ranks_text(pos, rank),
    ensures
        scan_placement(s, i, rank, 0, board_before(pos, rank, 0)) == Some(board_of(pos)),
    decreases rank,
{
    let line = rank_text(pos, rank, 0, 0);
    let all = ranks_text(pos, rank);
    assert(s.subrange(i, i + line.len()) =~= line) by {
        assert forall|k: int| 0 <= k < line.len() implies s[i + k] == line[k] by {
            assert(s.subrange(i, s.len() as int)[k] == all[k]);
        }
    }
    lemma_scan_rank(pos, s, i, rank, 0, 0, board_before(pos, rank, 0));
    let at = i + line.len();
    if rank == 0 {
        assert(board_before(pos, 0, 8) =~= board_of(pos));
    } else {
        let rest = ranks_text(pos, rank - 1);
        assert(all =~= line + seq![47u8] + rest);
        assert(s[at] == 47) by {
            assert(s.subrange(i, s.len() as int)[line.len() as int] == all[line.len() as int]);
        }
        assert(board_before(pos, rank, 8) =~= board_before(pos, rank - 1, 0));
        assert(s.subrange(at + 1, s.len() as int) =~= rest) by {
            assert forall|k: int| 0 <= k < rest.len() implies s[at + 1 + k] == rest[k] by {
                assert(s.subrange(i, s.len() as int)[line.len() + 1 + k] == all[line.len() + 1
                    + k]);
            }
        }
        lemma_scan_ranks(pos, s, at + 1, rank - 1);
    }
}

proof fn lemma_rank_text_no_blank(pos: Position, rank: int, file: int, empty: int)
    requires
        0 <= empty <= file <= 8,
    ensures
        no_blank(rank_text(pos, rank, file, empty)),
    decreases 8 - file,
{
    if file < 8 {
        lemma_rank_text_no_blank(pos, rank, file + 1, 0);
        lemma_rank_text_no_blank(pos, rank, file + 1, empty + 1);
        match cell_at(pos, rank * 8 + file) {
            Some((piece, color)) => {
                lemma_letter_names_piece(piece, color);
            },
            None => {},
        }
    }
}

proof fn lemma_ranks_text_no_blank(pos: Position, rank: int)
    ensures
        no_blank(ranks_text(pos, rank)),
        rank > 0 ==> ranks_text(pos, rank).len() > 0,
    decreases rank,
{
    lemma_rank_text_no_blank(pos, 0, 0, 0);
    if rank > 0 {
        lemma_rank_text_no_blank(pos, rank, 0, 0);
        lemma_ranks_text_no_blank(pos, rank - 1);
    }
}

proof fn lemma_decimal_no_blank(n: nat)
    ensures
        no_blank(decimal_of(n)),
    decreases n,
{
    if n >= 10 {
        lemma_decimal_no_blank(n / 10);
    }
}

/// The word at the start of a text that begins with a word without
/// blanks, followed by a space, is that word.
proof fn lemma_word_len_of_prefix(w: Seq<u8>, rest: Seq<u8>)
    requires
        no_blank(w),
    ensures
        crate::text::word_len(w + seq![32u8] + rest) == w.len(),
        crate::text::word_len(w) == w.len(),
    decreases w.len(),
{
    let all = w + seq![32u8] + rest;
    if w.len() == 0 {
        assert(all[0] == 32);
    } else {
        assert(all[0] == w[0]);
        assert(all.skip(1) =~= w.skip(1) + seq![32u8] + rest);
        assert(no_blank(w.skip(1))) by {
            assert forall|i: int| 0 <= i < w.skip(1).len() implies !crate::text::is_blank(
                #[trigger] w.skip(1)[i],
            ) by {
                assert(w.skip(1)[i] == w[i + 1]);
            }
        }
        lemma_word_len_of_prefix(w.skip(1), rest);
    }
}

/// The words of a word without blanks that is followed by a space and
/// more text are that word and the words of the rest.
proof fn lemma_words_of_joined(w: Seq<u8>, rest: Seq<u8>)
    requires
        no_blank(w),
        w.len() > 0,
    ensures
        words_of(w + seq![32u8] + rest) == seq![w] + words_of(rest),
        words_of(w) == seq![w],
{
    let all = w + seq![32u8] + rest;
    lemma_word_len_of_prefix(w, rest);
    assert(all[0] == w[0]);
    assert(all.take(w.len() as int) =~= w);
    let tail = all.skip(w.len() as int);
    assert(tail =~= seq![32u8] + rest);
    assert(tail[0] == 32);
    assert(tail.skip(1) =~= rest);
    assert(words_of(tail) == words_of(rest));
    assert(w.take(w.len() as int) =~= w);
    assert(w.skip(w.len() as int) =~= Seq::<u8>::empty());
    assert(words_of(w) =~= seq![w] + words_of(Seq::<u8>::empty()));
    assert(seq![w] + Seq::<Seq<u8>>::empty() =~= seq![w]);
}

/// Scanning the letters of two texts, one after the other, is scanning
/// the first and then the second.
proof fn lemma_scan_rights_append(a: Seq<u8>, b: Seq<u8>, i: int, rights: u8)
    requires
        0 <= i <= a.len(),
    ensures
        scan_rights(a + b, i, rights) == match scan_rights(a, i, rights) {
            Some(so_far) => scan_rights(b, 0, so_far),
            None => None,
        },
    decreases a.len() - i,
{
    if i < a.len() {
        assert((a + b)[i] == a[i]);
        match right_letter(a[i]) {
            Some(flag) => {
                lemma_scan_rights_append(a, b, i + 1, rights | flag);
            },
            None => {},
        }
    } else {
        lemma_scan_rights_shift(a, b, 0, rights);
    }
}

/// Scanning a text from where a text before it ends is scanning it from its start.
proof fn lemma_scan_rights_shift(a: Seq<u8>, b: Seq<u8>, k: int, rights: u8)
    requires
        0 <= k <= b.len(),
    ensures
        scan_rights(a + b, a.len() + k, rights) == scan_rights(b, k, rights),
    decreases b.len() - k,
{
    if k < b.len() {
        assert((a + b)[a.len() + k] == b[k]);
        match right_letter(b[k]) {
            Some(flag) => {
                lemma_scan_rights_shift(a, b, k + 1, rights | flag);
            },
            None => {},
        }
    }
}

/// Four flags that are or are not set make up the number below 16 that they are the bits of.
proof fn lemma_flags_make_rights(r: u8)
    by (bit_vector)
    requires
        r < 16,
    ensures
        (if r & 1 != 0 { 1u8 } else { 0u8 }) | (if r & 2 != 0 { 2u8 } else { 0u8 }) | (if r & 4
            != 0 { 4u8 } else { 0u8 }) | (if r & 8 != 0 { 8u8 } else { 0u8 }) == r,
        r & 1 == 0 && r & 2 == 0 && r & 4 == 0 && r & 8 == 0 ==> r == 0,
        forall|x: u8| x | 0 == x,
        0u8 | 1 == 1,
{
}

/// The text of castle rights reads back as the rights.
proof fn lemma_rights_round_trip(rights: CastleRights)
    requires
        rights.0 < 16,
    ensures
        parse_rights(rights_text(rights)) == Some(rights.0),
        no_blank(rights_text(rights)),
        rights_text(rights).len() > 0,
{
    let r = rights.0;
    let a = if r & 1 != 0 { seq![75u8] } else { Seq::<u8>::empty() };
    let b = if r & 2 != 0 { seq![81u8] } else { Seq::<u8>::empty() };
    let c = if r & 4 != 0 { seq![107u8] } else { Seq::<u8>::empty() };
    let d = if r & 8 != 0 { seq![113u8] } else { Seq::<u8>::empty() };
    let fa: u8 = if r & 1 != 0 { 1 } else { 0 };
    let fb: u8 = if r & 2 != 0 { 2 } else { 0 };
    let fc: u8 = if r & 4 != 0 { 4 } else { 0 };
    let fd: u8 = if r & 8 != 0 { 8 } else { 0 };
    lemma_flags_make_rights(r);
    let held = a + b + c + d;
    assert(scan_rights(a, 0, 0) == Some(0u8 | fa)) by {
        if r & 1 != 0 {
            assert(scan_rights(a, 1, 0u8 | 1u8) == Some(0u8 | 1u8));
        }
    }
    assert(forall|x: u8| scan_rights(b, 0, x) == Some(x | fb)) by {
        assert forall|x: u8| scan_rights(b, 0, x) == Some(x | fb) by {
            if r & 2 != 0 {
                assert(scan_rights(b, 1, x | 2u8) == Some(x | 2u8));
            }
        }
    }
    assert(forall|x: u8| scan_rights(c, 0, x) == Some(x | fc)) by {
        assert forall|x: u8| scan_rights(c, 0, x) == Some(x | fc) by {
            if r & 4 != 0 {
                assert(scan_rights(c, 1, x | 4u8) == Some(x | 4u8));
            }
        }
    }
    assert(forall|x: u8| scan_rights(d, 0, x) == Some(x | fd)) by {
        assert forall|x: u8| scan_rights(d, 0, x) == Some(x | fd) by {
            if r & 8 != 0 {
                assert(scan_rights(d, 1, x | 8u8) == Some(x | 8u8));
            }
        }
    }
    lemma_scan_rights_append(a + b + c, d, 0, 0);
    lemma_scan_rights_append(a + b, c, 0, 0);
    lemma_scan_rights_append(a, b, 0, 0);
    assert(scan_rights(held, 0, 0) == Some((((0u8 | fa) | fb) | fc) | fd));
    lemma_or_of_flags(fa, fb, fc, fd);
    if held.len() > 0 {
        assert(held[0] != 45);
        assert(held != seq![45u8]) by {
            if held == seq![45u8] {
                assert(held[0] == seq![45u8][0]);
            }
        }
    }
}

/// Or-ing flags onto zero one by one is or-ing them together.
proof fn lemma_or_of_flags(a: u8, b: u8, c: u8, d: u8)
    by (bit_vector)
    ensures
        (((0u8 | a) | b) | c) | d == a | b | c | d,
{
}

/// The six fields of a position's notation, in order.
pub open spec fn fen_fields(pos: Position) -> Seq<Seq<u8>> {
    seq![
        ranks_text(pos, 7),
        side_text(pos.side_to_move),
        rights_text(pos.castling_rights),
        target_text(pos.en_passant),
        decimal_of(pos.halfmove_clock as nat),
        decimal_of(pos.fullmove_number as nat),
    ]
}

/// The words of six words without blanks that are written with a space
/// between each two are those six words.
proof fn lemma_six_words(a: Seq<u8>, b: Seq<u8>, c: Seq<u8>, d: Seq<u8>, e: Seq<u8>, f: Seq<u8>)
    requires
        no_blank(a) && a.len() > 0,
        no_blank(b) && b.len() > 0,
        no_blank(c) && c.len() > 0,
        no_blank(d) && d.len() > 0,
        no_blank(e) && e.len() > 0,
        no_blank(f) && f.len() > 0,
    ensures
        words_of(
            a + seq![32u8] + b + seq![32u8] + c + seq![32u8] + d + seq![32u8] + e + seq![32u8]
                + f,
        ) == seq![a, b, c, d, e, f],
{
    let t5 = f;
    let t4 = e + seq![32u8] + t5;
    let t3 = d + seq![32u8] + t4;
    let t2 = c + seq![32u8] + t3;
    let t1 = b + seq![32u8] + t2;
    let t0 = a + seq![32u8] + t1;
    assert(a + seq![32u8] + b + seq![32u8] + c + seq![32u8] + d + seq![32u8] + e + seq![32u8] + f
        =~= t0);
    lemma_words_of_joined(f, Seq::empty());
    lemma_words_of_joined(e, t5);
    lemma_words_of_joined(d, t4);
    lemma_words_of_joined(c, t3);
    lemma_words_of_joined(b, t2);
    lemma_words_of_joined(a, t1);
    assert(words_of(t0) =~= seq![a, b, c, d, e, f]);
}

/// Every field of a position's notation is a word: it has no blank and is not empty.
proof fn lemma_fen_fields_are_words(pos: Position)
    requires
        pos.castling_rights.0 < 16,
    ensures
        forall|k: int| 0 <= k < 6 ==> no_blank(#[trigger] fen_fields(pos)[k]) && fen_fields(
            pos,
        )[k].len() > 0,
{
    lemma_ranks_text_no_blank(pos, 7);
    lemma_rights_round_trip(pos.castling_rights);
    lemma_decimal_no_blank(pos.halfmove_clock as nat);
    lemma_decimal_no_blank(pos.fullmove_number as nat);
    crate::text::lemma_decimal_round_trip(pos.halfmove_clock as nat);
    crate::text::lemma_decimal_round_trip(pos.fullmove_number as nat);
}

/// The words of a position's notation are its six fields.
proof fn lemma_fen_words(pos: Position)
    requires
        pos.castling_rights.0 < 16,
    ensures
        words_of(fen_text(pos)) == fen_fields(pos),
{
    lemma_fen_fields_are_words(pos);
    let w = fen_fields(pos);
    assert(no_blank(w[0]) && no_blank(w[1]) && no_blank(w[2]) && no_blank(w[3]) && no_blank(w[4])
        && no_blank(w[5]));
    lemma_six_words(w[0], w[1], w[2], w[3], w[4], w[5]);
    assert(seq![w[0], w[1], w[2], w[3], w[4], w[5]] =~= w);
}

/// The placement of a position reads back as its board.
proof fn lemma_placement_round_trip(pos: Position)
    ensures
        scan_placement(ranks_text(pos, 7), 0, 7, 0, empty_board()) == Some(board_of(pos)),
{
    let placement = ranks_text(pos, 7);
    assert(placement.subrange(0, placement.len() as int) =~= placement);
    assert(board_before(pos, 7, 0) =~= empty_board());
    lemma_scan_ranks(pos, placement, 0, 7);
}

/// The text of an en-passant target reads back as the target.
proof fn lemma_target_round_trip(target: Option<Square>)
    requires
        target.is_some() ==> target.unwrap().valid(),
    ensures
        parse_target(target_text(target)) == Some(target),
{
    let text = target_text(target);
    match target {
        Some(sq) => {
            assert(crate::commands::named_square(text[0], text[1]) == Some(sq));
            assert(text != seq![45u8]) by {
                if text == seq![45u8] {
                    assert(text.len() == seq![45u8].len());
                }
            }
        },
        None => {},
    }
}

/// The text of a clock reads back as the clock.
proof fn lemma_clock_round_trip(n: u32)
    ensures
        parse_decimal(decimal_of(n as nat), u32::MAX as nat) == Some(n as nat),
{
    crate::text::lemma_decimal_round_trip(n as nat);
    assert(crate::text::unsigned_body(decimal_of(n as nat)) == decimal_of(n as nat));
}

/// The text of a side reads back as the side.
proof fn lemma_side_round_trip(side: Color)
    ensures
        parse_side(side_text(side)) == Some(side),
{
    if side == Color::Black {
        assert(seq![98u8] != seq![119u8]) by {
            if seq![98u8] == seq![119u8] {
                assert(seq![98u8][0] == seq![119u8][0]);
            }
        }
    }
}

/// A position's own notation says what the position is: reading
/// `fen_text(pos)` gives fields that describe `pos`.
pub proof fn lemma_fen_round_trip(pos: Position)
    requires
        pos.wf(),
    ensures
        parse_fen(fen_text(pos)).is_some(),
        describes(parse_fen(fen_text(pos)).unwrap(), pos),
{
    lemma_fen_words(pos);
    lemma_placement_round_trip(pos);
    lemma_side_round_trip(pos.side_to_move);
    lemma_rights_round_trip(pos.castling_rights);
    lemma_target_round_trip(pos.en_passant);
    lemma_clock_round_trip(pos.halfmove_clock);
    lemma_clock_round_trip(pos.fullmove_number);
    let fields = words_of(fen_text(pos));
    assert(fields.len() == 6);
    assert(fields[0] == ranks_text(pos, 7));
    assert(fields[1] == side_text(pos.side_to_move));
    assert(fields[2] == rights_text(pos.castling_rights));
    assert(fields[3] == target_text(pos.en_passant));
    assert(fields[4] == decimal_of(pos.halfmove_clock as nat));
    assert(fields[5] == decimal_of(pos.fullmove_number as nat));
    assert(placed_as(pos, board_of(pos)));
}

/// In a position whose layers are apart, a layer holds a square exactly
/// when its piece is what stands on the square.
pub proof fn lemma_layer_is_its_cells(pos: Position, piece: Piece, color: Color, s: u64)
    requires
        pos.disjoint(),
        s < 64,
    ensures
        is_set(pos.layer(piece, color), s) <==> cell_at(pos, s as int) == Some((piece, color)),
{
    let sq = Square(s as int as u8);
    assert(sq.idx() == s);
    if is_set(pos.layer(piece, color), s) {
        assert(pos.piece_at(color, sq) == Some(piece));
        if color == Color::Black {
            assert(pos.piece_at(Color::White, sq).is_none());
        }
    }
}

/// There is one position that a description describes: any two that it
/// describes are equal.
pub proof fn lemma_described_position_is_unique(fields: FenFields, a: Position, b: Position)
    requires
        describes(fields, a),
        describes(fields, b),
    ensures
        a == b,
{
    assert forall|p: Piece, c: Color| #[trigger] a.layer(p, c) == b.layer(p, c) by {
        assert forall|s: u64| s < 64 implies (is_set(a.layer(p, c), s) <==> is_set(
            b.layer(p, c),
            s,
        )) by {
            lemma_layer_is_its_cells(a, p, c, s);
            lemma_layer_is_its_cells(b, p, c, s);
            assert(cell_at(a, s as int) == fields.board[s as int]);
            assert(cell_at(b, s as int) == fields.board[s as int]);
        }
        crate::bitset::lemma_same_members(a.layer(p, c), b.layer(p, c));
    }
    crate::position::lemma_same_layers_same_pieces(a, b);
    crate::position::lemma_fingerprint_depends_on(a, b);
}

/// Reading a position's own notation gives the position back: a position
/// that the notation of `pos` describes is `pos`.
pub proof fn lemma_reading_own_notation_gives_position(pos: Position, read: Position)
    requires
        pos.wf(),
        parse_fen(fen_text(pos)).is_some() ==> describes(parse_fen(fen_text(pos)).unwrap(), read),
    ensures
        read == pos,
{
    lemma_fen_round_trip(pos);
    lemma_described_position_is_unique(parse_fen(fen_text(pos)).unwrap(), read, pos);
}

} // verus!
