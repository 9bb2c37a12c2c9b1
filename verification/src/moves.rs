//! Moves packed into 16 bits, and the bounded list that move generation fills.

use crate::types::{Bitboard, Piece, Square};
use arrayvec::ArrayVec;
use vstd::prelude::*;

verus! {

/// The most moves a list can hold.
pub const MAX_MOVES: usize = 256;

/// The four kinds of move that the encoding tells apart.
#[derive(Copy, Clone, PartialEq, Eq, Structural, Debug)]
pub enum MoveType {
    Normal,
    Promotion,
    EnPassant,
    Castling,
}

impl MoveType {
    /// The two-bit tag of the kind.
    pub open spec fn tag(self) -> u16 {
        match self {
            MoveType::Normal => 0,
            MoveType::Promotion => 1,
            MoveType::EnPassant => 2,
            MoveType::Castling => 3,
        }
    }
}

/// The two bits that stand for a promotion piece: queen 0, rook 1, bishop 2,
/// knight 3. A pawn or a king counts as a queen.
pub open spec fn promotion_bits(piece: Piece) -> u16 {
    match piece {
        Piece::Rook => 1,
        Piece::Bishop => 2,
        Piece::Knight => 3,
        _ => 0,
    }
}

/// The word that packs the four fields of a move.
pub open spec fn pack(from: Square, to: Square, kind: MoveType, promo: u16) -> u16 {
    (from.0 as u16) | ((to.0 as u16) << 6) | (kind.tag() << 12) | (promo << 14)
}

/// A move in 16 bits: the origin square in bits 0 to 5, the destination in
/// bits 6 to 11, the kind in bits 12 and 13, the promotion piece in bits 14
/// and 15. Two moves are equal when their bits are.
#[derive(Copy, Clone, PartialEq, Eq, Structural, Debug, Hash)]
pub struct Move(pub u16);

impl Move {
    pub open spec fn spec_from(self) -> Square {
        Square((self.0 & 0x3F) as u8)
    }

    pub open spec fn spec_to(self) -> Square {
        Square(((self.0 >> 6) & 0x3F) as u8)
    }

    pub open spec fn spec_move_type(self) -> MoveType {
        let tag = (self.0 >> 12) & 0x3;
        if tag == 0 {
            MoveType::Normal
        } else if tag == 1 {
            MoveType::Promotion
        } else if tag == 2 {
            MoveType::EnPassant
        } else {
            MoveType::Castling
        }
    }

    pub open spec fn spec_promotion_piece(self) -> Piece {
        let bits = (self.0 >> 14) & 0x3;
        if bits == 0 {
            Piece::Queen
        } else if bits == 1 {
            Piece::Rook
        } else if bits == 2 {
            Piece::Bishop
        } else {
            Piece::Knight
        }
    }

    /// The normal move from `from` to `to`.
    pub fn new(from: Square, to: Square) -> (mv: Move)
        requires
            from.valid(),
            to.valid(),
        ensures
            mv.0 == pack(from, to, MoveType::Normal, 0),
            mv.spec_from() == from,
            mv.spec_to() == to,
            mv.spec_move_type() == MoveType::Normal,
    {
        proof {
            lemma_pack_fields(from.0 as u16, to.0 as u16, 0, 0);
        }
        Move((from.0 as u16) | ((to.0 as u16) << 6) | (0u16 << 12) | (0u16 << 14))
    }

    /// The promotion from `from` to `to` into `promo_piece`. A pawn or a king
    /// as `promo_piece` counts as a queen.
    pub fn promotion(from: Square, to: Square, promo_piece: Piece) -> (mv: Move)
        requires
            from.valid(),
            to.valid(),
        ensures
            mv.0 == pack(from, to, MoveType::Promotion, promotion_bits(promo_piece)),
            mv.spec_from() == from,
            mv.spec_to() == to,
            mv.spec_move_type() == MoveType::Promotion,
            mv.spec_promotion_piece() == match promo_piece {
                Piece::Rook => Piece::Rook,
                Piece::Bishop => Piece::Bishop,
                Piece::Knight => Piece::Knight,
                _ => Piece::Queen,
            },
    {
        let promo_bits: u16 = match promo_piece {
            Piece::Queen => 0,
            Piece::Rook => 1,
            Piece::Bishop => 2,
            Piece::Knight => 3,
            _ => 0,
        };
        proof {
            lemma_pack_fields(from.0 as u16, to.0 as u16, 1, promo_bits);
        }
        Move((from.0 as u16) | ((to.0 as u16) << 6) | (1u16 << 12) | (promo_bits << 14))
    }

    /// The en-passant capture from `from` to `to`.
    pub fn en_passant(from: Square, to: Square) -> (mv: Move)
        requires
            from.valid(),
            to.valid(),
        ensures
            mv.0 == pack(from, to, MoveType::EnPassant, 0),
            mv.spec_from() == from,
            mv.spec_to() == to,
            mv.spec_move_type() == MoveType::EnPassant,
    {
        proof {
            lemma_pack_fields(from.0 as u16, to.0 as u16, 2, 0);
        }
        Move((from.0 as u16) | ((to.0 as u16) << 6) | (2u16 << 12) | (0u16 << 14))
    }

    /// The castling move that takes the king from `from` to `to`.
    pub fn castling(from: Square, to: Square) -> (mv: Move)
        requires
            from.valid(),
            to.valid(),
        ensures
            mv.0 == pack(from, to, MoveType::Castling, 0),
            mv.spec_from() == from,
            mv.spec_to() == to,
            mv.spec_move_type() == MoveType::Castling,
    {
        proof {
            lemma_pack_fields(from.0 as u16, to.0 as u16, 3, 0);
        }
        Move((from.0 as u16) | ((to.0 as u16) << 6) | (3u16 << 12) | (0u16 << 14))
    }

    /// The origin square.
    #[verifier::when_used_as_spec(spec_from)]
    pub fn from(self) -> (sq: Square)
        ensures
            sq == self.spec_from(),
            sq.valid(),
    {
        proof {
            lemma_unpack_bounds(self.0);
        }
        Square((self.0 & 0x3F) as u8)
    }

    /// The destination square.
    #[verifier::when_used_as_spec(spec_to)]
    pub fn to(self) -> (sq: Square)
        ensures
            sq == self.spec_to(),
            sq.valid(),
    {
        proof {
            lemma_unpack_bounds(self.0);
        }
        Square(((self.0 >> 6) & 0x3F) as u8)
    }

    /// The kind of the move.
    #[verifier::when_used_as_spec(spec_move_type)]
    pub fn move_type(self) -> (kind: MoveType)
        ensures
            kind == self.spec_move_type(),
    {
        proof {
            lemma_unpack_bounds(self.0);
        }
        let tag: u16 = (self.0 >> 12) & 0x3;
        if tag == 0 {
            MoveType::Normal
        } else if tag == 1 {
            MoveType::Promotion
        } else if tag == 2 {
            MoveType::EnPassant
        } else {
            MoveType::Castling
        }
    }

    /// The piece that a promotion turns the pawn into. Of another kind of
    /// move it says what bits 14 and 15 hold, a queen where the move was
    /// built by one of the constructors.
    #[verifier::when_used_as_spec(spec_promotion_piece)]
    pub fn promotion_piece(self) -> (piece: Piece)
        ensures
            piece == self.spec_promotion_piece(),
    {
        let bits: u16 = (self.0 >> 14) & 0x3;
        if bits == 0 {
            Piece::Queen
        } else if bits == 1 {
            Piece::Rook
        } else if bits == 2 {
            Piece::Bishop
        } else {
            Piece::Knight
        }
    }

    /// Whether the destination is in `occupied`.
    pub fn is_capture(self, occupied: Bitboard) -> (r: bool)
        ensures
            r == occupied.contains(self.spec_to()),
    {
        occupied.is_occupied(self.to())
    }

    /// Whether the move is a promotion.
    pub fn is_promotion(self) -> (r: bool)
        ensures
            r == (self.spec_move_type() == MoveType::Promotion),
    {
        self.move_type() == MoveType::Promotion
    }

    /// Whether the move is an en-passant capture.
    pub fn is_en_passant(self) -> (r: bool)
        ensures
            r == (self.spec_move_type() == MoveType::EnPassant),
    {
        self.move_type() == MoveType::EnPassant
    }

    /// Whether the move is a castling move.
    pub fn is_castling(self) -> (r: bool)
        ensures
            r == (self.spec_move_type() == MoveType::Castling),
    {
        self.move_type() == MoveType::Castling
    }
}

/// Packing four fields and reading them back gives the fields.
pub proof fn lemma_pack_fields(f: u16, t: u16, k: u16, p: u16)
    by (bit_vector)
    requires
        f < 64,
        t < 64,
        k < 4,
        p < 4,
    ensures
        (f | (t << 6) | (k << 12) | (p << 14)) & 0x3F == f,
        ((f | (t << 6) | (k << 12) | (p << 14)) >> 6) & 0x3F == t,
        ((f | (t << 6) | (k << 12) | (p << 14)) >> 12) & 0x3 == k,
        ((f | (t << 6) | (k << 12) | (p << 14)) >> 14) & 0x3 == p,
{
}

/// The fields of any word are in range, and packing them gives the word back.
pub proof fn lemma_unpack_bounds(m: u16)
    by (bit_vector)
    ensures
        m & 0x3F < 64,
        (m >> 6) & 0x3F < 64,
        (m >> 12) & 0x3 < 4,
        (m >> 14) & 0x3 < 4,
        m == (m & 0x3F) | (((m >> 6) & 0x3F) << 6) | (((m >> 12) & 0x3) << 12) | (((m >> 14) & 0x3)
            << 14),
{
}

/// Two moves with the same origin, destination, kind and promotion piece are
/// the same move.
pub proof fn lemma_move_determined_by_fields(a: Move, b: Move)
    requires
        a.spec_from() == b.spec_from(),
        a.spec_to() == b.spec_to(),
        a.spec_move_type() == b.spec_move_type(),
        a.spec_promotion_piece() == b.spec_promotion_piece(),
    ensures
        a == b,
{
    lemma_unpack_bounds(a.0);
    lemma_unpack_bounds(b.0);
}

#[verifier::external_type_specification]
#[verifier::external_body]
#[verifier::reject_recursive_types(T)]
pub struct ExArrayVec<T, const CAP: usize>(ArrayVec<T, CAP>);

/// The items that an `ArrayVec` of packed moves holds, first pushed first.
pub uninterp spec fn arrayvec_items(v: ArrayVec<u16, MAX_MOVES>) -> Seq<u16>;

/// `ArrayVec::new`: a vector that holds nothing.
#[verifier::external_body]
fn raw_new() -> (v: ArrayVec<u16, MAX_MOVES>)
    ensures
        arrayvec_items(v) == Seq::<u16>::empty(),
{
    ArrayVec::new()
}

/// `ArrayVec::len`: the number of items held, never above the capacity.
#[verifier::external_body]
fn raw_len(v: &ArrayVec<u16, MAX_MOVES>) -> (n: usize)
    ensures
        n == arrayvec_items(*v).len(),
        n <= MAX_MOVES,
{
    v.len()
}

/// `ArrayVec::try_push`: appends `x` and succeeds when the vector is below
/// its capacity; fails and leaves the vector as it was when it is full.
#[verifier::external_body]
fn raw_try_push(v: &mut ArrayVec<u16, MAX_MOVES>, x: u16) -> (ok: bool)
    ensures
        ok == (arrayvec_items(*old(v)).len() < MAX_MOVES),
        ok ==> arrayvec_items(*final(v)) == arrayvec_items(*old(v)).push(x),
        !ok ==> arrayvec_items(*final(v)) == arrayvec_items(*old(v)),
{
    v.try_push(x).is_ok()
}

/// `ArrayVec::clear`: removes every item.
#[verifier::external_body]
fn raw_clear(v: &mut ArrayVec<u16, MAX_MOVES>)
    ensures
        arrayvec_items(*final(v)) == Seq::<u16>::empty(),
{
    v.clear()
}

/// Indexing an `ArrayVec` through its slice: the item at `index`.
#[verifier::external_body]
fn raw_get(v: &ArrayVec<u16, MAX_MOVES>, index: usize) -> (x: u16)
    requires
        index < arrayvec_items(*v).len(),
    ensures
        x == arrayvec_items(*v)[index as int],
{
    v[index]
}

/// Assigning through an `ArrayVec`'s slice: the item at `index` becomes `x`,
/// the others stay.
#[verifier::external_body]
fn raw_set(v: &mut ArrayVec<u16, MAX_MOVES>, index: usize, x: u16)
    requires
        index < arrayvec_items(*old(v)).len(),
    ensures
        arrayvec_items(*final(v)) == arrayvec_items(*old(v)).update(index as int, x),
{
    v[index] = x;
}

/// A list of at most `MAX_MOVES` moves, in the order they were added.
pub struct MoveList {
    moves: ArrayVec<u16, MAX_MOVES>,
}

impl View for MoveList {
    type V = Seq<Move>;

    closed spec fn view(&self) -> Seq<Move> {
        arrayvec_items(self.moves).map_values(|bits: u16| Move(bits))
    }
}

impl Clone for MoveList {
    /// A list that holds the same moves in the same order.
    fn clone(&self) -> (copy: MoveList)
        ensures
            copy@ == self@,
    {
        let n = self.len();
        let mut copy = MoveList::new();
        let mut i: usize = 0;
        while i < n
            invariant
                n == self@.len(),
                n <= MAX_MOVES,
                i <= n,
                copy@ == self@.take(i as int),
            decreases n - i,
        {
            copy.push(self.at(i));
            assert(self@.take(i + 1) =~= self@.take(i as int).push(self@[i as int]));
            i += 1;
        }
        assert(self@.take(n as int) =~= self@);
        copy
    }
}

impl Default for MoveList {
    /// An empty list.
    fn default() -> (list: MoveList)
        ensures
            list@ == Seq::<Move>::empty(),
    {
        MoveList::new()
    }
}

impl MoveList {
    /// An empty list.
    pub fn new() -> (list: MoveList)
        ensures
            list@ == Seq::<Move>::empty(),
    {
        let list = MoveList { moves: raw_new() };
        assert(list@ =~= Seq::<Move>::empty());
        list
    }

    /// Adds `mv` at the end.
    pub fn push(&mut self, mv: Move)
        requires
            old(self)@.len() < MAX_MOVES,
        ensures
            final(self)@ == old(self)@.push(mv),
    {
        let ok = raw_try_push(&mut self.moves, mv.0);
        assert(self@ =~= old(self)@.push(mv));
    }

    /// Adds `mv` at the end if the list is below its capacity, and says
    /// whether it did.
    pub fn try_push(&mut self, mv: Move) -> (ok: bool)
        ensures
            ok == (old(self)@.len() < MAX_MOVES),
            ok ==> final(self)@ == old(self)@.push(mv),
            !ok ==> final(self)@ == old(self)@,
    {
        let ok = raw_try_push(&mut self.moves, mv.0);
        assert(ok ==> self@ =~= old(self)@.push(mv));
        ok
    }

    /// The number of moves held.
    pub fn len(&self) -> (n: usize)
        ensures
            n == self@.len(),
            n <= MAX_MOVES,
    {
        raw_len(&self.moves)
    }

    /// Whether the list holds no move.
    pub fn is_empty(&self) -> (r: bool)
        ensures
            r == (self@.len() == 0),
    {
        raw_len(&self.moves) == 0
    }

    /// Removes every move.
    pub fn clear(&mut self)
        ensures
            final(self)@ == Seq::<Move>::empty(),
    {
        raw_clear(&mut self.moves);
        assert(self@ =~= Seq::<Move>::empty());
    }

    /// The move at `index`, or `None` when the list is shorter.
    pub fn get(&self, index: usize) -> (r: Option<Move>)
        ensures
            r == if index < self@.len() { Some(self@[index as int]) } else { None },
    {
        if index < raw_len(&self.moves) {
            Some(Move(raw_get(&self.moves, index)))
        } else {
            None
        }
    }

    /// The move at `index`.
    pub fn at(&self, index: usize) -> (mv: Move)
        requires
            index < self@.len(),
        ensures
            mv == self@[index as int],
    {
        Move(raw_get(&self.moves, index))
    }

    /// Puts `mv` in place of the move at `index`.
    pub fn set(&mut self, index: usize, mv: Move)
        requires
            index < old(self)@.len(),
        ensures
            final(self)@ == old(self)@.update(index as int, mv),
    {
        raw_set(&mut self.moves, index, mv.0);
        assert(self@ =~= old(self)@.update(index as int, mv));
    }

    /// The moves as a vector, in order.
    pub fn to_vec(&self) -> (v: Vec<Move>)
        ensures
            v@ == self@,
    {
        let n = self.len();
        let mut v: Vec<Move> = Vec::new();
        let mut i: usize = 0;
        while i < n
            invariant
                n == self@.len(),
                i <= n,
                v@ == self@.take(i as int),
            decreases n - i,
        {
            v.push(self.at(i));
            assert(self@.take(i + 1) =~= self@.take(i as int).push(self@[i as int]));
            i += 1;
        }
        assert(self@.take(n as int) =~= self@);
        v
    }
}

} // verus!
