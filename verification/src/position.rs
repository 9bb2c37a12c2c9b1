//! The full state of a game: where the pieces stand, who moves, what castling
//! and en-passant capture are still open, and the two move counters. Moves
//! are applied in place and taken back from an undo record.

use crate::bitset::{is_set, lemma_bitwise_members};
use crate::moves::{Move, MoveType};
use crate::types::{Bitboard, CastleRights, Color, Piece, Square};
use crate::zobrist::{
    castle_key, en_passant_key, layer_key, lemma_layer_key_toggle, lemma_xor_algebra,
    lemma_xor_zero, side_key, spec_castle_key, spec_piece_square_key, target_key, ZobristHash,
};
use vstd::prelude::*;

verus! {

/// The piece kind numbered `i`; a king for any number above 4.
pub open spec fn kind_at(i: int) -> Piece {
    if i <= 0 {
        Piece::Pawn
    } else if i == 1 {
        Piece::Knight
    } else if i == 2 {
        Piece::Bishop
    } else if i == 3 {
        Piece::Rook
    } else if i == 4 {
        Piece::Queen
    } else {
        Piece::King
    }
}

/// The side numbered `j`: white for 0, black for any other number.
pub open spec fn side_at(j: int) -> Color {
    if j <= 0 {
        Color::White
    } else {
        Color::Black
    }
}

/// Why a position refused a request.
#[derive(Copy, Clone, PartialEq, Eq, Structural, Debug)]
pub enum PositionError {
    /// The move's origin square holds no piece of the side to move.
    InvalidMove,
    /// The text is not a position in Forsyth-Edwards notation.
    InvalidFen,
}

/// What `make_move` hands back so that `unmake_move` can reverse it.
#[derive(Copy, Clone, PartialEq, Eq, Structural, Debug)]
pub struct Undo {
    pub mv: Move,
    pub captured: Option<Piece>,
    pub prev_castling: CastleRights,
    pub prev_en_passant: Option<Square>,
    pub prev_halfmove: u32,
}

/// A chess position. `pieces[kind][side]` is the set of squares that hold a
/// piece of that kind and side; `hash` is the fingerprint of the placement,
/// the side to move, the castle rights and the en-passant file.
#[derive(Copy, Clone, PartialEq, Eq, Debug)]
pub struct Position {
    pub pieces: [[Bitboard; 2]; 6],
    pub side_to_move: Color,
    pub castling_rights: CastleRights,
    pub en_passant: Option<Square>,
    pub halfmove_clock: u32,
    pub fullmove_number: u32,
    pub hash: ZobristHash,
}

/// The rights that survive a piece leaving `sq`: a king's home square costs
/// its side both rights, a rook's corner the right on that wing.
pub open spec fn rights_kept_leaving(sq: Square) -> u8 {
    if sq.0 == Square::E1 {
        12
    } else if sq.0 == Square::E8 {
        3
    } else {
        rights_kept_arriving(sq)
    }
}

/// The rights that survive a piece arriving on `sq`: a corner costs the
/// right on that wing.
pub open spec fn rights_kept_arriving(sq: Square) -> u8 {
    if sq.0 == Square::A1 {
        13
    } else if sq.0 == Square::H1 {
        14
    } else if sq.0 == Square::A8 {
        7
    } else if sq.0 == Square::H8 {
        11
    } else {
        15
    }
}

/// The square of the pawn that an en-passant capture removes: on the file
/// where the capturing pawn lands, on the rank where it started.
pub open spec fn en_passant_victim(mv: Move) -> Square {
    Square((mv.spec_from().spec_rank() * 8 + mv.spec_to().spec_file()) as u8)
}

/// Whether a castling move goes to the kingside: towards the higher files.
pub open spec fn castles_kingside(mv: Move) -> bool {
    mv.spec_to().spec_file() > mv.spec_from().spec_file()
}

/// Where the rook stands before a castling move: the corner of the king's
/// rank on the wing the king moves to.
pub open spec fn castle_rook_from(mv: Move) -> Square {
    Square((mv.spec_from().spec_rank() * 8 + if castles_kingside(mv) { 7int } else { 0int }) as u8)
}

/// Where the rook stands after a castling move: the square the king crossed.
pub open spec fn castle_rook_to(mv: Move) -> Square {
    Square((mv.spec_from().spec_rank() * 8 + if castles_kingside(mv) { 5int } else { 3int }) as u8)
}

impl Position {
    /// The occupancy word of `piece` of `color`.
    pub open spec fn layer(self, piece: Piece, color: Color) -> u64 {
        self.pieces[piece.spec_index()][color.spec_index()].0
    }

    /// The XOR of the piece keys over the first `k` layers, counted kind by
    /// kind and white before black.
    pub open spec fn pieces_key(self, k: nat) -> u64
        decreases k,
    {
        if k == 0 {
            0
        } else {
            let i = (k - 1) / 2;
            let j = (k - 1) % 2;
            self.pieces_key((k - 1) as nat) ^ layer_key(
                self.pieces[i][j].0,
                kind_at(i),
                side_at(j),
                64,
            )
        }
    }

    /// The fingerprint: the XOR of the key of every piece on its square, the
    /// key of black to move when black moves, the key of the castle state
    /// and the key of the en-passant file when there is a target. It depends
    /// on nothing else.
    pub open spec fn fingerprint(self) -> u64 {
        ((self.pieces_key(12) ^ side_key(self.side_to_move)) ^ spec_castle_key(
            self.castling_rights,
        )) ^ target_key(self.en_passant)
    }

    /// The stored fingerprint is the fingerprint of the position.
    pub open spec fn hash_consistent(self) -> bool {
        self.hash.0 == self.fingerprint()
    }

    /// The squares that hold a piece of `color`.
    pub open spec fn occupancy(self, color: Color) -> u64 {
        self.layer(Piece::Pawn, color) | self.layer(Piece::Knight, color) | self.layer(
            Piece::Bishop,
            color,
        ) | self.layer(Piece::Rook, color) | self.layer(Piece::Queen, color) | self.layer(
            Piece::King,
            color,
        )
    }

    /// The squares that hold any piece.
    pub open spec fn occupied(self) -> u64 {
        self.occupancy(Color::White) | self.occupancy(Color::Black)
    }

    /// No square is in two layers.
    pub open spec fn disjoint(self) -> bool {
        forall|p: Piece, c: Color, q: Piece, d: Color, s: u64|
            (p != q || c != d) && #[trigger] is_set(self.layer(p, c), s) ==> !#[trigger] is_set(
                self.layer(q, d),
                s,
            )
    }

    /// The position is one that play can reach or a description can name: no
    /// square is in two layers, the castle rights are among the four flags,
    /// the en-passant target is a square of the board and the stored
    /// fingerprint is right.
    pub open spec fn wf(self) -> bool {
        &&& self.disjoint()
        &&& self.castling_rights.0 < 16
        &&& (self.en_passant matches Some(sq) ==> sq.valid())
        &&& self.hash_consistent()
    }

    /// The kind of the piece of `color` on `sq`: the first kind, in the order
    /// of the kinds, whose layer holds the square.
    pub open spec fn piece_at(self, color: Color, sq: Square) -> Option<Piece> {
        if is_set(self.layer(Piece::Pawn, color), sq.idx()) {
            Some(Piece::Pawn)
        } else if is_set(self.layer(Piece::Knight, color), sq.idx()) {
            Some(Piece::Knight)
        } else if is_set(self.layer(Piece::Bishop, color), sq.idx()) {
            Some(Piece::Bishop)
        } else if is_set(self.layer(Piece::Rook, color), sq.idx()) {
            Some(Piece::Rook)
        } else if is_set(self.layer(Piece::Queen, color), sq.idx()) {
            Some(Piece::Queen)
        } else if is_set(self.layer(Piece::King, color), sq.idx()) {
            Some(Piece::King)
        } else {
            None
        }
    }

    /// `later` is this position but for the layer of `piece` of `color`,
    /// which is `bits`, and for the stored fingerprint.
    pub open spec fn differs_in_layer(self, later: Position, piece: Piece, color: Color, bits: u64)
        -> bool {
        &&& later.layer(piece, color) == bits
        &&& forall|p: Piece, c: Color|
            (p != piece || c != color) ==> #[trigger] later.layer(p, c) == self.layer(p, c)
        &&& later.side_to_move == self.side_to_move
        &&& later.castling_rights == self.castling_rights
        &&& later.en_passant == self.en_passant
        &&& later.halfmove_clock == self.halfmove_clock
        &&& later.fullmove_number == self.fullmove_number
    }

    /// The position with no piece on the board: white to move, no castle
    /// rights, no en-passant target, clocks at 0 and 1.
    pub fn empty() -> (pos: Position)
        ensures
            forall|p: Piece, c: Color| #[trigger] pos.layer(p, c) == 0,
            pos.side_to_move == Color::White,
            pos.castling_rights.0 == 0,
            pos.en_passant.is_none(),
            pos.halfmove_clock == 0,
            pos.fullmove_number == 1,
            pos.wf(),
    {
        let pos = Position {
            pieces: [[Bitboard(0);2];6],
            side_to_move: Color::White,
            castling_rights: CastleRights(0),
            en_passant: None,
            halfmove_clock: 0,
            fullmove_number: 1,
            hash: ZobristHash(castle_key(CastleRights(0))),
        };
        proof {
            lemma_bitwise_members();
            lemma_empty_pieces_key(pos, 12);
            lemma_xor_zero(spec_castle_key(CastleRights(0)));
            lemma_xor_zero(0);
        }
        pos
    }

    /// The set of squares that hold `piece` of `color`.
    pub fn piece_bb(&self, piece: Piece, color: Color) -> (bb: Bitboard)
        ensures
            bb.0 == self.layer(piece, color),
    {
        self.pieces[piece.index()][color.index()]
    }

    /// The stored fingerprint.
    pub fn zobrist_hash(&self) -> (h: ZobristHash)
        ensures
            h == self.hash,
            self.hash_consistent() ==> h.0 == self.fingerprint(),
    {
        self.hash
    }

    /// Flips the presence of `piece` of `color` on `sq`, and the fingerprint with it.
    fn flip_piece(&mut self, piece: Piece, color: Color, sq: Square)
        requires
            sq.valid(),
        ensures
            old(self).differs_in_layer(
                *final(self),
                piece,
                color,
                old(self).layer(piece, color) ^ sq.mask(),
            ),
            old(self).hash_consistent() ==> final(self).hash_consistent(),
    {
        let i = piece.index();
        let j = color.index();
        self.pieces[i][j].toggle(sq);
        self.hash.place_piece(piece, color, sq);
        proof {
            assert forall|p: Piece, c: Color| (p != piece || c != color) implies #[trigger] self.layer(
                p,
                c,
            ) == old(self).layer(p, c) by {
                assert(p.spec_index() != i || c.spec_index() != j);
            }
            if old(self).hash_consistent() {
                lemma_pieces_key_toggle(*old(self), *self, piece, color, sq.idx(), 12);
                let k = spec_piece_square_key(piece, color, sq.idx());
                let pk = old(self).pieces_key(12);
                let s = side_key(self.side_to_move);
                let c = spec_castle_key(self.castling_rights);
                let e = target_key(self.en_passant);
                lemma_xor_algebra(pk, s, k);
                lemma_xor_algebra(pk ^ s, c, k);
                lemma_xor_algebra((pk ^ s) ^ c, e, k);
            }
        }
    }

    /// Puts `piece` of `color` on `sq`.
    pub fn set_piece(&mut self, piece: Piece, color: Color, sq: Square)
        requires
            sq.valid(),
        ensures
            old(self).differs_in_layer(
                *final(self),
                piece,
                color,
                old(self).layer(piece, color) | sq.mask(),
            ),
            old(self).hash_consistent() ==> final(self).hash_consistent(),
    {
        proof {
            lemma_toggle_forms(self.layer(piece, color), sq.idx());
        }
        if !self.pieces[piece.index()][color.index()].is_occupied(sq) {
            self.flip_piece(piece, color, sq);
        }
    }

    /// Takes `piece` of `color` off `sq`.
    pub fn remove_piece(&mut self, piece: Piece, color: Color, sq: Square)
        requires
            sq.valid(),
        ensures
            old(self).differs_in_layer(
                *final(self),
                piece,
                color,
                old(self).layer(piece, color) & !sq.mask(),
            ),
            old(self).hash_consistent() ==> final(self).hash_consistent(),
    {
        proof {
            lemma_toggle_forms(self.layer(piece, color), sq.idx());
        }
        if self.pieces[piece.index()][color.index()].is_occupied(sq) {
            self.flip_piece(piece, color, sq);
        }
    }

    /// The kind of the piece of `color` on `sq`, if there is one.
    pub fn piece_on(&self, color: Color, sq: Square) -> (found: Option<Piece>)
        requires
            sq.valid(),
        ensures
            found == self.piece_at(color, sq),
    {
        let j = color.index();
        if self.pieces[0][j].is_occupied(sq) {
            Some(Piece::Pawn)
        } else if self.pieces[1][j].is_occupied(sq) {
            Some(Piece::Knight)
        } else if self.pieces[2][j].is_occupied(sq) {
            Some(Piece::Bishop)
        } else if self.pieces[3][j].is_occupied(sq) {
            Some(Piece::Rook)
        } else if self.pieces[4][j].is_occupied(sq) {
            Some(Piece::Queen)
        } else if self.pieces[5][j].is_occupied(sq) {
            Some(Piece::King)
        } else {
            None
        }
    }

    /// The kind of the piece that `mv` moves: the piece of the side to move
    /// on the origin square.
    pub open spec fn moving_piece(self, mv: Move) -> Option<Piece> {
        self.piece_at(self.side_to_move, mv.spec_from())
    }

    /// The square that `mv` empties of an enemy piece: the pawn's square for
    /// an en-passant capture, the destination otherwise.
    pub open spec fn capture_square(self, mv: Move) -> Square {
        if mv.spec_move_type() == MoveType::EnPassant {
            en_passant_victim(mv)
        } else {
            mv.spec_to()
        }
    }

    /// The kind of the piece that `mv` captures. A normal move or a promotion
    /// captures what the other side has on the destination; an en-passant
    /// capture takes the pawn beside the origin, if one is there; castling
    /// captures nothing.
    pub open spec fn captured_piece(self, mv: Move) -> Option<Piece> {
        let them = self.side_to_move.spec_opposite();
        match mv.spec_move_type() {
            MoveType::Castling => None,
            MoveType::EnPassant => if is_set(
                self.layer(Piece::Pawn, them),
                en_passant_victim(mv).idx(),
            ) {
                Some(Piece::Pawn)
            } else {
                None
            },
            _ => self.piece_at(them, mv.spec_to()),
        }
    }

    /// The kind of the piece that stands on the destination after `mv`: the
    /// promotion piece for a promotion, the moving piece otherwise.
    pub open spec fn landing_piece(self, mv: Move) -> Piece {
        if mv.spec_move_type() == MoveType::Promotion {
            mv.spec_promotion_piece()
        } else {
            self.moving_piece(mv).unwrap()
        }
    }

    /// The layer of `piece` of `color` after `mv`: the captured piece leaves
    /// its square, the moving piece leaves the origin, the landing piece
    /// takes the destination, and in castling the rook goes from its corner
    /// to the square the king crossed.
    pub open spec fn layer_after(self, mv: Move, piece: Piece, color: Color) -> u64 {
        let us = self.side_to_move;
        let start = self.layer(piece, color);
        let taken = if color != us && self.captured_piece(mv) == Some(piece) {
            start & !self.capture_square(mv).mask()
        } else {
            start
        };
        let lifted = if color == us && self.moving_piece(mv) == Some(piece) {
            taken & !mv.spec_from().mask()
        } else {
            taken
        };
        let placed = if color == us && self.landing_piece(mv) == piece {
            lifted | mv.spec_to().mask()
        } else {
            lifted
        };
        if color == us && mv.spec_move_type() == MoveType::Castling && piece == Piece::Rook {
            (placed & !castle_rook_from(mv).mask()) | castle_rook_to(mv).mask()
        } else {
            placed
        }
    }

    /// The castle rights after `mv`: those that survive leaving the origin
    /// and arriving on the destination.
    pub open spec fn rights_after(self, mv: Move) -> CastleRights {
        CastleRights(
            (self.castling_rights.0 & rights_kept_leaving(mv.spec_from())) & rights_kept_arriving(
                mv.spec_to(),
            ),
        )
    }

    /// The en-passant target after `mv`: the square a pawn skipped when it
    /// moved two ranks, none otherwise.
    pub open spec fn target_after(self, mv: Move) -> Option<Square> {
        let from = mv.spec_from();
        let to = mv.spec_to();
        if self.moving_piece(mv) == Some(Piece::Pawn) && (from.spec_rank() - to.spec_rank() == 2
            || to.spec_rank() - from.spec_rank() == 2) {
            Some(Square((((from.spec_rank() + to.spec_rank()) / 2) * 8 + from.spec_file()) as u8))
        } else {
            None
        }
    }

    /// The halfmove clock after `mv`: zero after a pawn move or a capture,
    /// one more otherwise, counted modulo 2^32.
    pub open spec fn halfmove_after(self, mv: Move) -> u32 {
        if self.moving_piece(mv) == Some(Piece::Pawn) || self.captured_piece(mv).is_some() {
            0
        } else {
            self.halfmove_clock.wrapping_add(1)
        }
    }

    /// The fullmove number after a move: one more after black has moved,
    /// counted modulo 2^32.
    pub open spec fn fullmove_after(self) -> u32 {
        if self.side_to_move == Color::Black {
            self.fullmove_number.wrapping_add(1)
        } else {
            self.fullmove_number
        }
    }

    /// The record that undoes `mv`.
    pub open spec fn undo_record(self, mv: Move) -> Undo {
        Undo {
            mv,
            captured: self.captured_piece(mv),
            prev_castling: self.castling_rights,
            prev_en_passant: self.en_passant,
            prev_halfmove: self.halfmove_clock,
        }
    }

    /// `later` is this position after `mv`.
    pub open spec fn leads_to(self, mv: Move, later: Position) -> bool {
        &&& forall|p: Piece, c: Color| #[trigger] later.layer(p, c) == self.layer_after(mv, p, c)
        &&& later.side_to_move == self.side_to_move.spec_opposite()
        &&& later.castling_rights == self.rights_after(mv)
        &&& later.en_passant == self.target_after(mv)
        &&& later.halfmove_clock == self.halfmove_after(mv)
        &&& later.fullmove_number == self.fullmove_after()
    }

    /// The layer of `piece` of `color` once `undo` is taken back: the landed
    /// piece leaves the destination, the piece that moved returns to the
    /// origin (a pawn after a promotion), the rook returns to its corner
    /// after castling, and the captured piece returns to its square.
    pub open spec fn layer_before(self, undo: Undo, piece: Piece, color: Color) -> u64 {
        let mv = undo.mv;
        let us = self.side_to_move.spec_opposite();
        let landed = self.piece_at(us, mv.spec_to());
        let start = self.layer(piece, color);
        let lifted = if color == us && landed == Some(piece) {
            start & !mv.spec_to().mask()
        } else {
            start
        };
        let home = if mv.spec_move_type() == MoveType::Promotion {
            Some(Piece::Pawn)
        } else {
            landed
        };
        let placed = if color == us && home == Some(piece) {
            lifted | mv.spec_from().mask()
        } else {
            lifted
        };
        let rooked = if color == us && mv.spec_move_type() == MoveType::Castling && piece
            == Piece::Rook {
            (placed & !castle_rook_to(mv).mask()) | castle_rook_from(mv).mask()
        } else {
            placed
        };
        if color != us && mv.spec_move_type() != MoveType::Castling && undo.captured == Some(
            piece,
        ) {
            rooked | (if mv.spec_move_type() == MoveType::EnPassant {
                en_passant_victim(mv)
            } else {
                mv.spec_to()
            }).mask()
        } else {
            rooked
        }
    }

    /// `earlier` is this position with `undo` taken back.
    pub open spec fn restores_to(self, undo: Undo, earlier: Position) -> bool {
        &&& forall|p: Piece, c: Color|
            #[trigger] earlier.layer(p, c) == self.layer_before(undo, p, c)
        &&& earlier.side_to_move == self.side_to_move.spec_opposite()
        &&& earlier.castling_rights == undo.prev_castling
        &&& earlier.en_passant == undo.prev_en_passant
        &&& earlier.halfmove_clock == undo.prev_halfmove
        &&& earlier.fullmove_number == if self.side_to_move == Color::White {
            self.fullmove_number.wrapping_sub(1)
        } else {
            self.fullmove_number
        }
    }

    /// Sets the castle rights, and the fingerprint with them.
    fn set_castling(&mut self, rights: CastleRights)
        ensures
            forall|p: Piece, c: Color| #[trigger] final(self).layer(p, c) == old(self).layer(p, c),
            final(self).castling_rights == rights,
            final(self).side_to_move == old(self).side_to_move,
            final(self).en_passant == old(self).en_passant,
            final(self).halfmove_clock == old(self).halfmove_clock,
            final(self).fullmove_number == old(self).fullmove_number,
            old(self).hash_consistent() ==> final(self).hash_consistent(),
    {
        let before = self.castling_rights;
        self.hash.update_castle_rights(before, rights);
        self.castling_rights = rights;
        proof {
            lemma_same_pieces_key(*old(self), *self, 12);
            let pk = self.pieces_key(12);
            let s = side_key(self.side_to_move);
            let c0 = spec_castle_key(before);
            let c1 = spec_castle_key(rights);
            let e = target_key(self.en_passant);
            lemma_xor_algebra((pk ^ s) ^ c0, e, c0);
            lemma_xor_algebra(pk ^ s, c0, c0);
            lemma_xor_algebra((pk ^ s) ^ e, c1, e);
            lemma_xor_algebra(pk ^ s, e, c1);
            lemma_xor_algebra((pk ^ s), c1, e);
        }
    }

    /// Sets the en-passant target, and the fingerprint with it.
    fn set_en_passant(&mut self, target: Option<Square>)
        ensures
            forall|p: Piece, c: Color| #[trigger] final(self).layer(p, c) == old(self).layer(p, c),
            final(self).en_passant == target,
            final(self).side_to_move == old(self).side_to_move,
            final(self).castling_rights == old(self).castling_rights,
            final(self).halfmove_clock == old(self).halfmove_clock,
            final(self).fullmove_number == old(self).fullmove_number,
            old(self).hash_consistent() ==> final(self).hash_consistent(),
    {
        let before = self.en_passant;
        self.hash.update_en_passant(before, target);
        self.en_passant = target;
        proof {
            lemma_same_pieces_key(*old(self), *self, 12);
            let pk = self.pieces_key(12);
            let s = side_key(self.side_to_move);
            let c = spec_castle_key(self.castling_rights);
            let e0 = target_key(before);
            let e1 = target_key(target);
            lemma_xor_algebra((pk ^ s) ^ c, e0, e0);
            lemma_xor_algebra(((pk ^ s) ^ c), e0, e1);
        }
    }

    /// Passes the move to the other side, and the fingerprint with it.
    fn flip_side(&mut self)
        ensures
            forall|p: Piece, c: Color| #[trigger] final(self).layer(p, c) == old(self).layer(p, c),
            final(self).side_to_move == old(self).side_to_move.spec_opposite(),
            final(self).en_passant == old(self).en_passant,
            final(self).castling_rights == old(self).castling_rights,
            final(self).halfmove_clock == old(self).halfmove_clock,
            final(self).fullmove_number == old(self).fullmove_number,
            old(self).hash_consistent() ==> final(self).hash_consistent(),
    {
        self.hash.flip_side();
        self.side_to_move = self.side_to_move.opposite();
        proof {
            lemma_same_pieces_key(*old(self), *self, 12);
            let pk = self.pieces_key(12);
            let s0 = side_key(old(self).side_to_move);
            let b = crate::zobrist::spec_black_to_move_key();
            let c = spec_castle_key(self.castling_rights);
            let e = target_key(self.en_passant);
            lemma_xor_zero(b);
            lemma_xor_zero(pk);
            lemma_xor_algebra(pk, s0, b);
            lemma_xor_algebra(pk, b, b);
            lemma_xor_algebra(pk ^ s0, c, b);
            lemma_xor_algebra((pk ^ s0) ^ c, e, b);
        }
    }

    /// Applies `mv` for the side to move and returns the record that undoes
    /// it. Fails with `InvalidMove`, the position untouched, when the origin
    /// square holds no piece of the side to move.
    pub fn make_move(&mut self, mv: Move) -> (done: Result<Undo, PositionError>)
        ensures
            old(self).moving_piece(mv).is_none() ==> done == Err::<Undo, PositionError>(
                PositionError::InvalidMove,
            ) && *final(self) == *old(self),
            old(self).moving_piece(mv).is_some() ==> done == Ok::<Undo, PositionError>(
                old(self).undo_record(mv),
            ) && old(self).leads_to(mv, *final(self)),
            old(self).hash_consistent() ==> final(self).hash_consistent(),
            old(self).moving_piece(mv).is_some() && old(self).hash_consistent() ==> *final(self)
                == old(self).after(mv),
    {
        let from = mv.from();
        let to = mv.to();
        let us = self.side_to_move;
        let them = us.opposite();
        let kind = mv.move_type();
        let moving = match self.piece_on(us, from) {
            None => {
                return Err(PositionError::InvalidMove);
            },
            Some(piece) => piece,
        };
        let undo = Undo {
            mv,
            captured: None,
            prev_castling: self.castling_rights,
            prev_en_passant: self.en_passant,
            prev_halfmove: self.halfmove_clock,
        };
        let mut captured: Option<Piece> = None;
        match kind {
            MoveType::Castling => {},
            MoveType::EnPassant => {
                let victim = Square::new(to.file(), from.rank());
                if self.pieces[0][them.index()].is_occupied(victim) {
                    self.remove_piece(Piece::Pawn, them, victim);
                    captured = Some(Piece::Pawn);
                }
            },
            _ => {
                if let Some(piece) = self.piece_on(them, to) {
                    self.remove_piece(piece, them, to);
                    captured = Some(piece);
                }
            },
        }
        let ghost taken = *self;
        self.remove_piece(moving, us, from);
        let ghost lifted = *self;
        let landing = match kind {
            MoveType::Promotion => mv.promotion_piece(),
            _ => moving,
        };
        self.set_piece(landing, us, to);
        let ghost placed = *self;
        match kind {
            MoveType::Castling => {
                let rank = from.rank();
                let kingside = to.file() > from.file();
                let rook_from = Square::new(if kingside { 7 } else { 0 }, rank);
                let rook_to = Square::new(if kingside { 5 } else { 3 }, rank);
                self.remove_piece(Piece::Rook, us, rook_from);
                self.set_piece(Piece::Rook, us, rook_to);
            },
            _ => {},
        }
        let rights = CastleRights(
            (undo.prev_castling.0 & kept_leaving(from)) & kept_arriving(to),
        );
        self.set_castling(rights);
        let from_rank = from.rank();
        let to_rank = to.rank();
        let double_step = moving == Piece::Pawn && (from_rank == to_rank + 2 || to_rank
            == from_rank + 2);
        let target = if double_step {
            Some(Square::new(from.file(), (from_rank + to_rank) / 2))
        } else {
            None
        };
        self.set_en_passant(target);
        let ghost stamped = *self;
        if moving == Piece::Pawn || captured.is_some() {
            self.halfmove_clock = 0;
        } else {
            self.halfmove_clock = self.halfmove_clock.wrapping_add(1);
        }
        if us == Color::Black {
            self.fullmove_number = self.fullmove_number.wrapping_add(1);
        }
        proof {
            lemma_fingerprint_depends_on(stamped, *self);
        }
        self.flip_side();
        proof {
            assert(captured == old(self).captured_piece(mv));
            assert forall|p: Piece, c: Color| #[trigger] self.layer(p, c) == old(self).layer_after(
                mv,
                p,
                c,
            ) by {
                let start = old(self).layer(p, c);
                let a = if c != us && captured == Some(p) {
                    start & !old(self).capture_square(mv).mask()
                } else {
                    start
                };
                assert(taken.layer(p, c) == a);
                let b = if c == us && moving == p {
                    a & !from.mask()
                } else {
                    a
                };
                assert(lifted.layer(p, c) == b);
                let d = if c == us && landing == p {
                    b | to.mask()
                } else {
                    b
                };
                assert(placed.layer(p, c) == d);
                assert(stamped.layer(p, c) == self.layer(p, c));
            }
        }
        proof {
            if old(self).hash_consistent() {
                lemma_after_unique(*old(self), mv, *self);
            }
        }
        Ok(Undo { captured, ..undo })
    }

    /// Takes back the move that `undo` records. The piece that landed on the
    /// destination has to be there.
    pub fn unmake_move(&mut self, undo: Undo)
        requires
            old(self).piece_at(
                old(self).side_to_move.spec_opposite(),
                undo.mv.spec_to(),
            ).is_some(),
        ensures
            old(self).restores_to(undo, *final(self)),
            old(self).hash_consistent() ==> final(self).hash_consistent() && *final(self)
                == old(self).undone(undo),
    {
        let mv = undo.mv;
        let from = mv.from();
        let to = mv.to();
        let them = self.side_to_move;
        let us = them.opposite();
        let kind = mv.move_type();
        let landed = match self.piece_on(us, to) {
            Some(piece) => piece,
            None => Piece::Pawn,
        };
        self.remove_piece(landed, us, to);
        let ghost lifted = *self;
        let home = match kind {
            MoveType::Promotion => Piece::Pawn,
            _ => landed,
        };
        self.set_piece(home, us, from);
        let ghost placed = *self;
        match kind {
            MoveType::Castling => {
                let rank = from.rank();
                let kingside = to.file() > from.file();
                let rook_from = Square::new(if kingside { 7 } else { 0 }, rank);
                let rook_to = Square::new(if kingside { 5 } else { 3 }, rank);
                self.remove_piece(Piece::Rook, us, rook_to);
                self.set_piece(Piece::Rook, us, rook_from);
            },
            _ => {},
        }
        let ghost rooked = *self;
        match kind {
            MoveType::Castling => {},
            MoveType::EnPassant => {
                if let Some(piece) = undo.captured {
                    self.set_piece(piece, them, Square::new(to.file(), from.rank()));
                }
            },
            _ => {
                if let Some(piece) = undo.captured {
                    self.set_piece(piece, them, to);
                }
            },
        }
        let ghost restored = *self;
        self.set_castling(undo.prev_castling);
        self.set_en_passant(undo.prev_en_passant);
        let ghost stamped = *self;
        self.halfmove_clock = undo.prev_halfmove;
        if us == Color::Black {
            self.fullmove_number = self.fullmove_number.wrapping_sub(1);
        }
        proof {
            lemma_fingerprint_depends_on(stamped, *self);
        }
        self.flip_side();
        proof {
            assert forall|p: Piece, c: Color| #[trigger] self.layer(p, c) == old(self).layer_before(
                undo,
                p,
                c,
            ) by {
                let start = old(self).layer(p, c);
                let a = if c == us && landed == p {
                    start & !to.mask()
                } else {
                    start
                };
                assert(lifted.layer(p, c) == a);
                let b = if c == us && home == p {
                    a | from.mask()
                } else {
                    a
                };
                assert(placed.layer(p, c) == b);
                let d = if c == us && kind == MoveType::Castling && p == Piece::Rook {
                    (b & !castle_rook_to(mv).mask()) | castle_rook_from(mv).mask()
                } else {
                    b
                };
                assert(rooked.layer(p, c) == d);
                assert(restored.layer(p, c) == old(self).layer_before(undo, p, c));
                assert(stamped.layer(p, c) == self.layer(p, c));
            }
            if old(self).hash_consistent() {
                lemma_undone_unique(*old(self), undo, *self);
            }
        }
    }

    /// `mv` can be played and taken back: the side to move has a piece on
    /// the origin and none on the destination; a promotion or an en-passant
    /// capture is made by a pawn, the latter to another file; castling is
    /// made by the king, from the e-file to the g-file or the c-file of its
    /// rank, with its rook in the corner and no piece of its own where the
    /// rook lands.
    pub open spec fn admits(self, mv: Move) -> bool {
        let us = self.side_to_move;
        let from = mv.spec_from();
        let to = mv.spec_to();
        &&& self.moving_piece(mv).is_some()
        &&& self.piece_at(us, to).is_none()
        &&& mv.spec_move_type() == MoveType::Promotion ==> self.moving_piece(mv) == Some(
            Piece::Pawn,
        )
        &&& mv.spec_move_type() == MoveType::EnPassant ==> self.moving_piece(mv) == Some(
            Piece::Pawn,
        ) && to.spec_file() != from.spec_file()
        &&& mv.spec_move_type() == MoveType::Castling ==> {
            &&& self.moving_piece(mv) == Some(Piece::King)
            &&& (to.spec_file() == 6 || to.spec_file() == 2)
            &&& from.spec_file() == 4
            &&& to.spec_rank() == from.spec_rank()
            &&& is_set(self.layer(Piece::Rook, us), castle_rook_from(mv).idx())
            &&& self.piece_at(us, castle_rook_to(mv)).is_none()
        }
    }

    /// The squares on which `mv` puts a piece without capturing are free of
    /// enemy pieces: the destination of an en-passant capture, and in
    /// castling the squares where king and rook land.
    pub open spec fn lands_clear(self, mv: Move) -> bool {
        let them = self.side_to_move.spec_opposite();
        &&& mv.spec_move_type() == MoveType::EnPassant ==> self.piece_at(
            them,
            mv.spec_to(),
        ).is_none()
        &&& mv.spec_move_type() == MoveType::Castling ==> self.piece_at(
            them,
            mv.spec_to(),
        ).is_none() && self.piece_at(them, castle_rook_to(mv)).is_none()
    }
}

/// Two positions with the same layers hold the same placement.
pub proof fn lemma_same_layers_same_pieces(a: Position, b: Position)
    requires
        forall|p: Piece, c: Color| #[trigger] a.layer(p, c) == b.layer(p, c),
    ensures
        a.pieces == b.pieces,
{
    assert forall|i: int| 0 <= i < 6 implies a.pieces[i] == b.pieces[i] by {
        assert forall|j: int| 0 <= j < 2 implies a.pieces[i][j] == b.pieces[i][j] by {
            assert(kind_at(i).spec_index() == i && side_at(j).spec_index() == j);
            assert(a.layer(kind_at(i), side_at(j)) == b.layer(kind_at(i), side_at(j)));
        }
        assert(a.pieces[i] =~= b.pieces[i]);
    }
    assert(a.pieces =~= b.pieces);
}

/// Taking back a move that the position admits gives the position back,
/// bit for bit, the fingerprint included.
pub proof fn lemma_unmake_reverses_make(start: Position, mv: Move, after: Position, back: Position)
    requires
        start.admits(mv),
        start.hash_consistent(),
        start.leads_to(mv, after),
        after.restores_to(start.undo_record(mv), back),
        back.hash_consistent(),
    ensures
        back == start,
{
    lemma_bitwise_members();
    let undo = start.undo_record(mv);
    let us = start.side_to_move;
    let from = mv.spec_from();
    let to = mv.spec_to();
    crate::moves::lemma_unpack_bounds(mv.0);
    assert(after.piece_at(us, to) == Some(start.landing_piece(mv)));
    assert forall|p: Piece, c: Color| #[trigger] back.layer(p, c) == start.layer(p, c) by {
        crate::bitset::lemma_same_members(after.layer_before(undo, p, c), start.layer(p, c));
    }
    lemma_same_layers_same_pieces(back, start);
    lemma_fingerprint_depends_on(back, start);
}

/// A move that the position admits and that lands clear keeps the layers
/// apart: after it no square is in two layers, so the mover's pieces and the
/// opponent's share no square.
pub proof fn lemma_make_keeps_layers_apart(start: Position, mv: Move, after: Position)
    requires
        start.disjoint(),
        start.admits(mv),
        start.lands_clear(mv),
        start.leads_to(mv, after),
    ensures
        after.disjoint(),
        after.occupancy(Color::White) & after.occupancy(Color::Black) == 0,
{
    lemma_bitwise_members();
    crate::moves::lemma_unpack_bounds(mv.0);
    assert forall|p: Piece, c: Color, q: Piece, d: Color, s: u64|
        (p != q || c != d) && #[trigger] is_set(after.layer(p, c), s) implies !#[trigger] is_set(
            after.layer(q, d),
            s,
        ) by {
        assert(after.layer(p, c) == start.layer_after(mv, p, c));
        assert(after.layer(q, d) == start.layer_after(mv, q, d));
    }
    lemma_disjoint_sides(after);
}

/// In a position whose layers are apart the two sides share no square.
pub proof fn lemma_disjoint_sides(pos: Position)
    requires
        pos.disjoint(),
    ensures
        pos.occupancy(Color::White) & pos.occupancy(Color::Black) == 0,
{
    lemma_bitwise_members();
    let w = pos.occupancy(Color::White);
    let b = pos.occupancy(Color::Black);
    assert forall|s: u64| s < 64 implies !is_set(w & b, s) by {
        if is_set(w, s) && is_set(b, s) {
            let p = choose|p: Piece| is_set(pos.layer(p, Color::White), s);
            let q = choose|q: Piece| is_set(pos.layer(q, Color::Black), s);
            assert(is_set(pos.layer(p, Color::White), s));
            assert(is_set(pos.layer(q, Color::Black), s));
        }
    }
    crate::bitset::lemma_same_members(w & b, 0);
}

impl Position {
    /// Computes the fingerprint from the fields and stores it.
    pub fn recompute_hash(&mut self)
        ensures
            final(self).pieces == old(self).pieces,
            final(self).side_to_move == old(self).side_to_move,
            final(self).castling_rights == old(self).castling_rights,
            final(self).en_passant == old(self).en_passant,
            final(self).halfmove_clock == old(self).halfmove_clock,
            final(self).fullmove_number == old(self).fullmove_number,
            final(self).hash_consistent(),
    {
        let mut key: u64 = 0;
        let mut k: usize = 0;
        while k < 12
            invariant
                k <= 12,
                key == self.pieces_key(k as nat),
                *self == *old(self),
            decreases 12 - k,
        {
            let i = k / 2;
            let j = k % 2;
            let piece = match Piece::from_u8(i as u8) {
                Some(piece) => piece,
                None => Piece::King,
            };
            let color = Color::from_u8(j as u8);
            assert(piece == kind_at(i as int) && color == side_at(j as int));
            let bits = self.pieces[i][j];
            let mut layer: u64 = 0;
            let mut sq: u8 = 0;
            while sq < 64
                invariant
                    sq <= 64,
                    layer == layer_key(bits.0, piece, color, sq as nat),
                decreases 64 - sq,
            {
                if bits.is_occupied(Square(sq)) {
                    layer = layer ^ crate::zobrist::piece_square_key(piece, color, Square(sq));
                }
                sq += 1;
            }
            key = key ^ layer;
            k += 1;
        }
        if self.side_to_move == Color::Black {
            key = key ^ crate::zobrist::black_to_move_key();
        } else {
            proof {
                lemma_xor_zero(key);
            }
        }
        key = key ^ castle_key(self.castling_rights);
        match self.en_passant {
            Some(sq) => {
                key = key ^ en_passant_key(sq.file());
            },
            None => {
                proof {
                    lemma_xor_zero(key);
                }
            },
        }
        self.hash = ZobristHash(key);
        proof {
            lemma_fingerprint_depends_on(*old(self), *self);
        }
    }

    /// Whether the layers are those of the start of a game.
    pub open spec fn has_start_placement(self) -> bool {
        &&& self.layer(Piece::Pawn, Color::White) == 0x0000_0000_0000_FF00
        &&& self.layer(Piece::Knight, Color::White) == 0x0000_0000_0000_0042
        &&& self.layer(Piece::Bishop, Color::White) == 0x0000_0000_0000_0024
        &&& self.layer(Piece::Rook, Color::White) == 0x0000_0000_0000_0081
        &&& self.layer(Piece::Queen, Color::White) == 0x0000_0000_0000_0008
        &&& self.layer(Piece::King, Color::White) == 0x0000_0000_0000_0010
        &&& self.layer(Piece::Pawn, Color::Black) == 0x00FF_0000_0000_0000
        &&& self.layer(Piece::Knight, Color::Black) == 0x4200_0000_0000_0000
        &&& self.layer(Piece::Bishop, Color::Black) == 0x2400_0000_0000_0000
        &&& self.layer(Piece::Rook, Color::Black) == 0x8100_0000_0000_0000
        &&& self.layer(Piece::Queen, Color::Black) == 0x0800_0000_0000_0000
        &&& self.layer(Piece::King, Color::Black) == 0x1000_0000_0000_0000
    }

    /// Sets up the start of a game: the standard placement, white to move,
    /// all four castle rights, no en-passant target, clocks at 0 and 1.
    pub fn set_startpos(&mut self)
        ensures
            final(self).has_start_placement(),
            final(self).side_to_move == Color::White,
            final(self).castling_rights.0 == 15,
            final(self).en_passant.is_none(),
            final(self).halfmove_clock == 0,
            final(self).fullmove_number == 1,
            final(self).wf(),
    {
        self.pieces = [
            [Bitboard(0x0000_0000_0000_FF00), Bitboard(0x00FF_0000_0000_0000)],
            [Bitboard(0x0000_0000_0000_0042), Bitboard(0x4200_0000_0000_0000)],
            [Bitboard(0x0000_0000_0000_0024), Bitboard(0x2400_0000_0000_0000)],
            [Bitboard(0x0000_0000_0000_0081), Bitboard(0x8100_0000_0000_0000)],
            [Bitboard(0x0000_0000_0000_0008), Bitboard(0x0800_0000_0000_0000)],
            [Bitboard(0x0000_0000_0000_0010), Bitboard(0x1000_0000_0000_0000)],
        ];
        self.side_to_move = Color::White;
        self.castling_rights = CastleRights(CastleRights::ALL);
        self.en_passant = None;
        self.halfmove_clock = 0;
        self.fullmove_number = 1;
        self.recompute_hash();
        proof {
            lemma_bitwise_members();
            lemma_start_layers_apart();
            assert forall|p: Piece, c: Color, q: Piece, d: Color, s: u64|
                (p != q || c != d) && #[trigger] is_set(self.layer(p, c), s) implies !#[trigger] is_set(
                    self.layer(q, d),
                    s,
                ) by {
                assert(is_set(self.layer(p, c) & self.layer(q, d), s) <==> is_set(
                    self.layer(p, c),
                    s,
                ) && is_set(self.layer(q, d), s));
                assert(self.layer(p, c) & self.layer(q, d) == 0);
            }
        }
    }
}

/// The twelve layers of the start of a game share no square.
proof fn lemma_start_layers_apart()
    by (bit_vector)
    ensures
        forall|a: u64, b: u64|
            (a == 0xFF00 || a == 0x42 || a == 0x24 || a == 0x81 || a == 0x08 || a == 0x10 || a
                == 0x00FF_0000_0000_0000 || a == 0x4200_0000_0000_0000 || a
                == 0x2400_0000_0000_0000 || a == 0x8100_0000_0000_0000 || a
                == 0x0800_0000_0000_0000 || a == 0x1000_0000_0000_0000) && (b == 0xFF00 || b
                == 0x42 || b == 0x24 || b == 0x81 || b == 0x08 || b == 0x10 || b
                == 0x00FF_0000_0000_0000 || b == 0x4200_0000_0000_0000 || b
                == 0x2400_0000_0000_0000 || b == 0x8100_0000_0000_0000 || b
                == 0x0800_0000_0000_0000 || b == 0x1000_0000_0000_0000) && a != b ==> #[trigger] (a
                & b) == 0,
{
}

impl Position {
    /// The position that `mv` leads to, its fingerprint left as it was.
    pub open spec fn moved(self, mv: Move) -> Position {
        Position {
            pieces: [
                [
                    Bitboard(self.layer_after(mv, Piece::Pawn, Color::White)),
                    Bitboard(self.layer_after(mv, Piece::Pawn, Color::Black)),
                ],
                [
                    Bitboard(self.layer_after(mv, Piece::Knight, Color::White)),
                    Bitboard(self.layer_after(mv, Piece::Knight, Color::Black)),
                ],
                [
                    Bitboard(self.layer_after(mv, Piece::Bishop, Color::White)),
                    Bitboard(self.layer_after(mv, Piece::Bishop, Color::Black)),
                ],
                [
                    Bitboard(self.layer_after(mv, Piece::Rook, Color::White)),
                    Bitboard(self.layer_after(mv, Piece::Rook, Color::Black)),
                ],
                [
                    Bitboard(self.layer_after(mv, Piece::Queen, Color::White)),
                    Bitboard(self.layer_after(mv, Piece::Queen, Color::Black)),
                ],
                [
                    Bitboard(self.layer_after(mv, Piece::King, Color::White)),
                    Bitboard(self.layer_after(mv, Piece::King, Color::Black)),
                ],
            ],
            side_to_move: self.side_to_move.spec_opposite(),
            castling_rights: self.rights_after(mv),
            en_passant: self.target_after(mv),
            halfmove_clock: self.halfmove_after(mv),
            fullmove_number: self.fullmove_after(),
            hash: self.hash,
        }
    }

    /// The position that `mv` leads to, with its fingerprint.
    pub open spec fn after(self, mv: Move) -> Position {
        Position { hash: ZobristHash(self.moved(mv).fingerprint()), ..self.moved(mv) }
    }

    /// The position with `undo` taken back, its fingerprint left as it was.
    pub open spec fn unmoved(self, undo: Undo) -> Position {
        Position {
            pieces: [
                [
                    Bitboard(self.layer_before(undo, Piece::Pawn, Color::White)),
                    Bitboard(self.layer_before(undo, Piece::Pawn, Color::Black)),
                ],
                [
                    Bitboard(self.layer_before(undo, Piece::Knight, Color::White)),
                    Bitboard(self.layer_before(undo, Piece::Knight, Color::Black)),
                ],
                [
                    Bitboard(self.layer_before(undo, Piece::Bishop, Color::White)),
                    Bitboard(self.layer_before(undo, Piece::Bishop, Color::Black)),
                ],
                [
                    Bitboard(self.layer_before(undo, Piece::Rook, Color::White)),
                    Bitboard(self.layer_before(undo, Piece::Rook, Color::Black)),
                ],
                [
                    Bitboard(self.layer_before(undo, Piece::Queen, Color::White)),
                    Bitboard(self.layer_before(undo, Piece::Queen, Color::Black)),
                ],
                [
                    Bitboard(self.layer_before(undo, Piece::King, Color::White)),
                    Bitboard(self.layer_before(undo, Piece::King, Color::Black)),
                ],
            ],
            side_to_move: self.side_to_move.spec_opposite(),
            castling_rights: undo.prev_castling,
            en_passant: undo.prev_en_passant,
            halfmove_clock: undo.prev_halfmove,
            fullmove_number: if self.side_to_move == Color::White {
                self.fullmove_number.wrapping_sub(1)
            } else {
                self.fullmove_number
            },
            hash: self.hash,
        }
    }

    /// The position with `undo` taken back, with its fingerprint.
    pub open spec fn undone(self, undo: Undo) -> Position {
        Position { hash: ZobristHash(self.unmoved(undo).fingerprint()), ..self.unmoved(undo) }
    }

    /// The position after `mv`, or `None` when the side to move has no
    /// piece on the origin square.
    pub fn play(&self, mv: Move) -> (next: Option<Position>)
        requires
            self.hash_consistent(),
        ensures
            next.is_some() == self.moving_piece(mv).is_some(),
            next.is_some() ==> next.unwrap() == self.after(mv) && next.unwrap().hash_consistent(),
    {
        let mut next = *self;
        match next.make_move(mv) {
            Err(_) => None,
            Ok(_) => {
                proof {
                    lemma_after_unique(*self, mv, next);
                }
                Some(next)
            },
        }
    }

    /// The squares that hold a piece of `color`.
    pub fn occupancy_of(&self, color: Color) -> (bb: Bitboard)
        ensures
            bb.0 == self.occupancy(color),
    {
        let j = color.index();
        Bitboard(
            self.pieces[0][j].0 | self.pieces[1][j].0 | self.pieces[2][j].0 | self.pieces[3][j].0
                | self.pieces[4][j].0 | self.pieces[5][j].0,
        )
    }

    /// The squares that hold any piece.
    pub fn all_occupied(&self) -> (bb: Bitboard)
        ensures
            bb.0 == self.occupied(),
    {
        Bitboard(self.occupancy_of(Color::White).0 | self.occupancy_of(Color::Black).0)
    }
}

/// `after` is a position that the move leads to, and its fingerprint is right.
pub proof fn lemma_after_is_led_to(start: Position, mv: Move)
    ensures
        start.leads_to(mv, start.after(mv)),
        start.after(mv).hash_consistent(),
{
    let moved = start.moved(mv);
    let next = start.after(mv);
    assert forall|p: Piece, c: Color| #[trigger] next.layer(p, c) == start.layer_after(mv, p, c) by {
        assert(next.pieces == moved.pieces);
    }
    assert forall|p: Piece, c: Color| #[trigger] next.layer(p, c) == moved.layer(p, c) by {
        assert(next.pieces == moved.pieces);
    }
    lemma_fingerprint_depends_on(next, moved);
}

/// `undone` is a position that taking back restores, and its fingerprint is right.
pub proof fn lemma_undone_is_restored(start: Position, undo: Undo)
    ensures
        start.restores_to(undo, start.undone(undo)),
        start.undone(undo).hash_consistent(),
{
    let unmoved = start.unmoved(undo);
    let back = start.undone(undo);
    assert forall|p: Piece, c: Color| #[trigger] back.layer(p, c) == start.layer_before(
        undo,
        p,
        c,
    ) by {
        assert(back.pieces == unmoved.pieces);
    }
    assert forall|p: Piece, c: Color| #[trigger] back.layer(p, c) == unmoved.layer(p, c) by {
        assert(back.pieces == unmoved.pieces);
    }
    lemma_fingerprint_depends_on(back, unmoved);
}

/// There is one position that taking back restores: any two that qualify
/// are equal.
pub proof fn lemma_undone_unique(start: Position, undo: Undo, earlier: Position)
    requires
        start.restores_to(undo, earlier),
        earlier.hash_consistent(),
    ensures
        earlier == start.undone(undo),
{
    let back = start.undone(undo);
    lemma_undone_is_restored(start, undo);
    lemma_same_layers_same_pieces(earlier, back);
    lemma_fingerprint_depends_on(earlier, back);
}

/// Taking back a move that the position admits gives the position back:
/// `undone` of `after` is where it started, bit for bit, the fingerprint
/// included.
pub proof fn lemma_undone_after_is_start(start: Position, mv: Move)
    requires
        start.admits(mv),
        start.hash_consistent(),
    ensures
        start.after(mv).undone(start.undo_record(mv)) == start,
{
    let next = start.after(mv);
    let back = next.undone(start.undo_record(mv));
    lemma_after_is_led_to(start, mv);
    lemma_undone_is_restored(next, start.undo_record(mv));
    lemma_unmake_reverses_make(start, mv, next, back);
}

/// There is one position that a move leads to: any two that qualify are equal.
pub proof fn lemma_after_unique(start: Position, mv: Move, later: Position)
    requires
        start.leads_to(mv, later),
        later.hash_consistent(),
    ensures
        later == start.after(mv),
{
    let next = start.after(mv);
    lemma_after_is_led_to(start, mv);
    lemma_same_layers_same_pieces(later, next);
    lemma_fingerprint_depends_on(later, next);
}

/// The rights that survive a piece leaving `sq`.
fn kept_leaving(sq: Square) -> (kept: u8)
    ensures
        kept == rights_kept_leaving(sq),
{
    if sq.0 == Square::E1 {
        12
    } else if sq.0 == Square::E8 {
        3
    } else {
        kept_arriving(sq)
    }
}

/// The rights that survive a piece arriving on `sq`.
fn kept_arriving(sq: Square) -> (kept: u8)
    ensures
        kept == rights_kept_arriving(sq),
{
    if sq.0 == Square::A1 {
        13
    } else if sq.0 == Square::H1 {
        14
    } else if sq.0 == Square::A8 {
        7
    } else if sq.0 == Square::H8 {
        11
    } else {
        15
    }
}

/// Positions with the same layers have the same piece key.
proof fn lemma_same_pieces_key(a: Position, b: Position, k: nat)
    requires
        forall|p: Piece, c: Color| #[trigger] a.layer(p, c) == b.layer(p, c),
        k <= 12,
    ensures
        a.pieces_key(k) == b.pieces_key(k),
    decreases k,
{
    if k > 0 {
        lemma_same_pieces_key(a, b, (k - 1) as nat);
        let i = (k - 1) / 2;
        let j = (k - 1) % 2;
        assert(kind_at(i).spec_index() == i && side_at(j).spec_index() == j);
        assert(a.layer(kind_at(i), side_at(j)) == b.layer(kind_at(i), side_at(j)));
    }
}

/// The fingerprint depends only on the layers, the side to move, the castle
/// rights and the file of the en-passant target.
pub proof fn lemma_fingerprint_depends_on(a: Position, b: Position)
    requires
        forall|p: Piece, c: Color| #[trigger] a.layer(p, c) == b.layer(p, c),
        a.side_to_move == b.side_to_move,
        a.castling_rights.0 % 16 == b.castling_rights.0 % 16,
        a.en_passant.is_some() == b.en_passant.is_some(),
        a.en_passant.is_some() ==> a.en_passant.unwrap().spec_file()
            == b.en_passant.unwrap().spec_file(),
    ensures
        a.fingerprint() == b.fingerprint(),
{
    lemma_same_pieces_key(a, b, 12);
}


/// With one bit in hand, setting, clearing and flipping it are the same
/// where the bit's state allows.
pub proof fn lemma_toggle_forms(x: u64, s: u64)
    by (bit_vector)
    requires
        s < 64,
    ensures
        x & (1u64 << s) == 0 ==> x | (1u64 << s) == x ^ (1u64 << s),
        x & (1u64 << s) == 0 ==> x & !(1u64 << s) == x,
        x & (1u64 << s) != 0 ==> x & !(1u64 << s) == x ^ (1u64 << s),
        x & (1u64 << s) != 0 ==> x | (1u64 << s) == x,
{
}

/// A board with no piece has the piece key zero.
proof fn lemma_empty_pieces_key(pos: Position, k: nat)
    requires
        forall|i: int, j: int| 0 <= i < 6 && 0 <= j < 2 ==> (#[trigger] pos.pieces[i][j]).0 == 0,
        k <= 12,
    ensures
        pos.pieces_key(k) == 0,
    decreases k,
{
    if k > 0 {
        lemma_empty_pieces_key(pos, (k - 1) as nat);
        let i = (k - 1) / 2;
        let j = (k - 1) % 2;
        assert(pos.pieces[i][j].0 == 0);
        lemma_empty_layer_key(kind_at(i), side_at(j), 64);
        lemma_xor_zero(0);
    }
}

proof fn lemma_empty_layer_key(piece: Piece, color: Color, n: nat)
    ensures
        layer_key(0, piece, color, n) == 0,
    decreases n,
{
    lemma_bitwise_members();
    if n > 0 {
        lemma_empty_layer_key(piece, color, (n - 1) as nat);
    }
}

/// Flipping one square of one layer changes the piece key by the key of that
/// piece on that square.
proof fn lemma_pieces_key_toggle(
    before: Position,
    after: Position,
    piece: Piece,
    color: Color,
    s: u64,
    k: nat,
)
    requires
        s < 64,
        k <= 12,
        after.layer(piece, color) == before.layer(piece, color) ^ (1u64 << s),
        forall|p: Piece, c: Color|
            (p != piece || c != color) ==> #[trigger] after.layer(p, c) == before.layer(p, c),
    ensures
        after.pieces_key(k) == if piece.spec_index() * 2 + color.spec_index() < k {
            before.pieces_key(k) ^ spec_piece_square_key(piece, color, s)
        } else {
            before.pieces_key(k)
        },
    decreases k,
{
    if k > 0 {
        lemma_pieces_key_toggle(before, after, piece, color, s, (k - 1) as nat);
        let i = (k - 1) / 2;
        let j = (k - 1) % 2;
        let p = kind_at(i);
        let c = side_at(j);
        assert(p.spec_index() == i && c.spec_index() == j);
        assert(after.layer(p, c) == after.pieces[i][j].0);
        assert(before.layer(p, c) == before.pieces[i][j].0);
        let key = spec_piece_square_key(piece, color, s);
        let lower = before.pieces_key((k - 1) as nat);
        let this = layer_key(before.pieces[i][j].0, p, c, 64);
        if p == piece && c == color {
            lemma_layer_key_toggle(before.pieces[i][j].0, p, c, s, 64);
            lemma_xor_algebra(lower, this, key);
        } else {
            assert(after.layer(p, c) == before.layer(p, c));
            lemma_xor_algebra(lower, key, this);
        }
    }
}

} // verus!
