//! Core board types: squares, occupancy sets, piece kinds, colours and castle rights.

use crate::bitset::{drop_lowest, is_set, lemma_lowest, lowest, popcount, squares_of};
use vstd::prelude::*;

verus! {

/// A square of the board, numbered `rank * 8 + file`: rank 0 is the first
/// rank, file 0 the queenside edge.
#[derive(Copy, Clone, PartialEq, Eq, Structural, Debug, Hash, PartialOrd, Ord)]
pub struct Square(pub u8);

impl Square {
    pub const A1: u8 = 0;
    pub const B1: u8 = 1;
    pub const C1: u8 = 2;
    pub const D1: u8 = 3;
    pub const E1: u8 = 4;
    pub const F1: u8 = 5;
    pub const G1: u8 = 6;
    pub const H1: u8 = 7;
    pub const A2: u8 = 8;
    pub const B2: u8 = 9;
    pub const C2: u8 = 10;
    pub const D2: u8 = 11;
    pub const E2: u8 = 12;
    pub const F2: u8 = 13;
    pub const G2: u8 = 14;
    pub const H2: u8 = 15;
    pub const A3: u8 = 16;
    pub const B3: u8 = 17;
    pub const C3: u8 = 18;
    pub const D3: u8 = 19;
    pub const E3: u8 = 20;
    pub const F3: u8 = 21;
    pub const G3: u8 = 22;
    pub const H3: u8 = 23;
    pub const A4: u8 = 24;
    pub const B4: u8 = 25;
    pub const C4: u8 = 26;
    pub const D4: u8 = 27;
    pub const E4: u8 = 28;
    pub const F4: u8 = 29;
    pub const G4: u8 = 30;
    pub const H4: u8 = 31;
    pub const A5: u8 = 32;
    pub const B5: u8 = 33;
    pub const C5: u8 = 34;
    pub const D5: u8 = 35;
    pub const E5: u8 = 36;
    pub const F5: u8 = 37;
    pub const G5: u8 = 38;
    pub const H5: u8 = 39;
    pub const A6: u8 = 40;
    pub const B6: u8 = 41;
    pub const C6: u8 = 42;
    pub const D6: u8 = 43;
    pub const E6: u8 = 44;
    pub const F6: u8 = 45;
    pub const G6: u8 = 46;
    pub const H6: u8 = 47;
    pub const A7: u8 = 48;
    pub const B7: u8 = 49;
    pub const C7: u8 = 50;
    pub const D7: u8 = 51;
    pub const E7: u8 = 52;
    pub const F7: u8 = 53;
    pub const G7: u8 = 54;
    pub const H7: u8 = 55;
    pub const A8: u8 = 56;
    pub const B8: u8 = 57;
    pub const C8: u8 = 58;
    pub const D8: u8 = 59;
    pub const E8: u8 = 60;
    pub const F8: u8 = 61;
    pub const G8: u8 = 62;
    pub const H8: u8 = 63;

    /// A square is on the board when its number is below 64.
    pub open spec fn valid(self) -> bool {
        self.0 < 64
    }

    /// The square's number, as the bit index it has in an occupancy word.
    pub open spec fn idx(self) -> u64 {
        self.0 as u64
    }

    /// The occupancy word that holds this square alone.
    pub open spec fn mask(self) -> u64 {
        1u64 << (self.0 as u64)
    }

    pub open spec fn spec_file(self) -> u8 {
        self.0 % 8
    }

    pub open spec fn spec_rank(self) -> u8 {
        self.0 / 8
    }

    /// The square on `file` and `rank`, both counted from zero.
    pub fn new(file: u8, rank: u8) -> (sq: Square)
        requires
            file < 8,
            rank < 8,
        ensures
            sq.0 == rank * 8 + file,
            sq.valid(),
            sq.spec_file() == file,
            sq.spec_rank() == rank,
    {
        Square(rank * 8 + file)
    }

    /// The file, 0 to 7.
    #[verifier::when_used_as_spec(spec_file)]
    pub fn file(self) -> (f: u8)
        ensures
            f == self.spec_file(),
            f < 8,
    {
        self.0 % 8
    }

    /// The rank, 0 to 7 for a square on the board.
    #[verifier::when_used_as_spec(spec_rank)]
    pub fn rank(self) -> (r: u8)
        ensures
            r == self.spec_rank(),
            self.valid() ==> r < 8,
    {
        self.0 / 8
    }

    /// The occupancy set that holds this square alone.
    pub fn to_bitboard(self) -> (bb: Bitboard)
        requires
            self.valid(),
        ensures
            bb.0 == self.mask(),
    {
        Bitboard::from_square(self)
    }
}

/// A set of squares, one bit per square: bit `i` is set when square `i` is in the set.
#[derive(Copy, Clone, PartialEq, Eq, Structural, Debug, Default, Hash)]
pub struct Bitboard(pub u64);

impl Bitboard {
    pub const EMPTY: u64 = 0;
    pub const ALL: u64 = 0xFFFF_FFFF_FFFF_FFFF;
    pub const RANK_1: u64 = 0x0000_0000_0000_00FF;
    pub const RANK_2: u64 = 0x0000_0000_0000_FF00;
    pub const RANK_3: u64 = 0x0000_0000_00FF_0000;
    pub const RANK_4: u64 = 0x0000_0000_FF00_0000;
    pub const RANK_5: u64 = 0x0000_00FF_0000_0000;
    pub const RANK_6: u64 = 0x0000_FF00_0000_0000;
    pub const RANK_7: u64 = 0x00FF_0000_0000_0000;
    pub const RANK_8: u64 = 0xFF00_0000_0000_0000;
    pub const FILE_A: u64 = 0x0101_0101_0101_0101;
    pub const FILE_B: u64 = 0x0202_0202_0202_0202;
    pub const FILE_C: u64 = 0x0404_0404_0404_0404;
    pub const FILE_D: u64 = 0x0808_0808_0808_0808;
    pub const FILE_E: u64 = 0x1010_1010_1010_1010;
    pub const FILE_F: u64 = 0x2020_2020_2020_2020;
    pub const FILE_G: u64 = 0x4040_4040_4040_4040;
    pub const FILE_H: u64 = 0x8080_8080_8080_8080;

    /// Whether `sq` is in the set.
    pub open spec fn contains(self, sq: Square) -> bool {
        is_set(self.0, sq.idx())
    }

    /// The squares of the set, lowest number first.
    pub open spec fn squares(self) -> Seq<Square> {
        squares_of(self.0).map_values(|i: u64| Square(i as u8))
    }

    /// The set of no squares.
    pub fn empty() -> (bb: Bitboard)
        ensures
            bb.0 == 0,
    {
        Bitboard(0)
    }

    /// The set of all 64 squares.
    pub fn all() -> (bb: Bitboard)
        ensures
            bb.0 == Bitboard::ALL,
    {
        Bitboard(Bitboard::ALL)
    }

    /// The eight squares of `file`.
    pub fn file(file: u8) -> (bb: Bitboard)
        requires
            file < 8,
        ensures
            bb.0 == Bitboard::FILE_A << (file as u64),
    {
        Bitboard(Bitboard::FILE_A << (file as u64))
    }

    /// The eight squares of `rank`.
    pub fn rank(rank: u8) -> (bb: Bitboard)
        requires
            rank < 8,
        ensures
            bb.0 == Bitboard::RANK_1 << ((rank * 8) as u64),
    {
        Bitboard(Bitboard::RANK_1 << ((rank * 8) as u64))
    }

    /// The set that holds `sq` alone.
    pub fn from_square(sq: Square) -> (bb: Bitboard)
        requires
            sq.valid(),
        ensures
            bb.0 == sq.mask(),
    {
        Bitboard(1u64 << (sq.0 as u64))
    }

    /// Whether `sq` is in the set.
    pub fn is_occupied(self, sq: Square) -> (r: bool)
        requires
            sq.valid(),
        ensures
            r == self.contains(sq),
            r == (self.0 & sq.mask() != 0),
    {
        (self.0 & (1u64 << (sq.0 as u64))) != 0
    }

    /// Adds `sq` to the set.
    pub fn set(&mut self, sq: Square)
        requires
            sq.valid(),
        ensures
            final(self).0 == old(self).0 | sq.mask(),
    {
        self.0 = self.0 | (1u64 << (sq.0 as u64));
    }

    /// Takes `sq` out of the set.
    pub fn clear(&mut self, sq: Square)
        requires
            sq.valid(),
        ensures
            final(self).0 == old(self).0 & !sq.mask(),
    {
        self.0 = self.0 & !(1u64 << (sq.0 as u64));
    }

    /// Adds `sq` if it is absent, takes it out if it is present.
    pub fn toggle(&mut self, sq: Square)
        requires
            sq.valid(),
        ensures
            final(self).0 == old(self).0 ^ sq.mask(),
    {
        self.0 = self.0 ^ (1u64 << (sq.0 as u64));
    }

    /// The number of squares in the set.
    pub fn count(self) -> (n: u32)
        ensures
            n == popcount(self.0),
            n <= 64,
    {
        crate::scan::popcnt(self.0)
    }

    /// Whether the set holds no square.
    pub fn is_empty(self) -> (r: bool)
        ensures
            r == (self.0 == 0),
    {
        self.0 == 0
    }

    /// The lowest square of the set, if it has one.
    pub fn lsb(self) -> (r: Option<Square>)
        ensures
            self.0 == 0 ==> r.is_none(),
            self.0 != 0 ==> r == Some(Square(lowest(self.0) as u8)) && lowest(self.0) < 64,
    {
        if self.0 == 0 {
            None
        } else {
            proof {
                lemma_lowest(self.0);
            }
            Some(Square(crate::scan::bitscan_forward(self.0) as u8))
        }
    }

    /// Takes the lowest square out of the set and returns it.
    pub fn pop_lsb(&mut self) -> (r: Option<Square>)
        ensures
            old(self).0 == 0 ==> r.is_none() && final(self).0 == 0,
            old(self).0 != 0 ==> r == Some(Square(lowest(old(self).0) as u8)) && lowest(
                old(self).0,
            ) < 64 && final(self).0 == drop_lowest(old(self).0),
            old(self).0 != 0 ==> old(self).squares().len() > 0 && r == Some(old(self).squares()[0])
                && final(self).squares() =~= old(self).squares().skip(1),
            old(self).0 == 0 ==> old(self).squares().len() == 0,
    {
        proof {
            if self.0 != 0 {
                lemma_lowest(self.0);
                assert(squares_of(self.0).skip(1) =~= squares_of(drop_lowest(self.0)));
            }
        }
        match self.lsb() {
            None => None,
            Some(sq) => {
                self.0 = crate::scan::reset_lsb(self.0);
                Some(sq)
            },
        }
    }

    /// A cursor over the squares of the set, lowest first.
    pub fn iter(self) -> (it: BitboardIter)
        ensures
            it.0 == self,
    {
        BitboardIter(self)
    }
}

/// A cursor over the squares of a set, lowest first. It holds the squares
/// still to come.
#[derive(Copy, Clone, Debug)]
pub struct BitboardIter(pub Bitboard);

impl BitboardIter {
    /// The squares still to come, lowest first.
    pub open spec fn remaining(self) -> Seq<Square> {
        self.0.squares()
    }

    /// The next square, or `None` when all have been handed out.
    pub fn next(&mut self) -> (r: Option<Square>)
        ensures
            old(self).remaining().len() == 0 ==> r.is_none() && final(self).remaining().len() == 0,
            old(self).remaining().len() > 0 ==> r == Some(old(self).remaining()[0])
                && r.unwrap().valid() && final(self).remaining() =~= old(self).remaining().skip(1),
    {
        proof {
            if self.0.0 != 0 {
                lemma_lowest(self.0.0);
            }
        }
        self.0.pop_lsb()
    }
}

/// A kind of piece. The kinds are numbered 0 to 5 in the order written.
#[derive(Copy, Clone, PartialEq, Eq, Structural, Debug, Hash)]
pub enum Piece {
    Pawn,
    Knight,
    Bishop,
    Rook,
    Queen,
    King,
}

impl Piece {
    /// The kind's number, 0 to 5.
    pub open spec fn spec_index(self) -> int {
        match self {
            Piece::Pawn => 0,
            Piece::Knight => 1,
            Piece::Bishop => 2,
            Piece::Rook => 3,
            Piece::Queen => 4,
            Piece::King => 5,
        }
    }

    /// The kind with number `val`.
    pub open spec fn spec_from_index(val: int) -> Option<Piece> {
        if val == 0 {
            Some(Piece::Pawn)
        } else if val == 1 {
            Some(Piece::Knight)
        } else if val == 2 {
            Some(Piece::Bishop)
        } else if val == 3 {
            Some(Piece::Rook)
        } else if val == 4 {
            Some(Piece::Queen)
        } else if val == 5 {
            Some(Piece::King)
        } else {
            None
        }
    }

    /// The kind's number, 0 to 5.
    pub fn index(self) -> (i: usize)
        ensures
            i == self.spec_index(),
            i < 6,
    {
        match self {
            Piece::Pawn => 0,
            Piece::Knight => 1,
            Piece::Bishop => 2,
            Piece::Rook => 3,
            Piece::Queen => 4,
            Piece::King => 5,
        }
    }

    /// The kind with number `val`, or `None` when `val` is above 5.
    pub fn from_u8(val: u8) -> (r: Option<Piece>)
        ensures
            r == Piece::spec_from_index(val as int),
            val < 6 <==> r.is_some(),
            r.is_some() ==> r.unwrap().spec_index() == val,
    {
        match val {
            0 => Some(Piece::Pawn),
            1 => Some(Piece::Knight),
            2 => Some(Piece::Bishop),
            3 => Some(Piece::Rook),
            4 => Some(Piece::Queen),
            5 => Some(Piece::King),
            _ => None,
        }
    }
}

/// A side. White is numbered 0, black 1.
#[derive(Copy, Clone, PartialEq, Eq, Structural, Debug, Hash)]
pub enum Color {
    White,
    Black,
}

impl Color {
    /// The side's number: 0 for white, 1 for black.
    pub open spec fn spec_index(self) -> int {
        match self {
            Color::White => 0,
            Color::Black => 1,
        }
    }

    pub open spec fn spec_opposite(self) -> Color {
        match self {
            Color::White => Color::Black,
            Color::Black => Color::White,
        }
    }

    /// The side's number: 0 for white, 1 for black.
    pub fn index(self) -> (i: usize)
        ensures
            i == self.spec_index(),
            i < 2,
    {
        match self {
            Color::White => 0,
            Color::Black => 1,
        }
    }

    /// The other side.
    #[verifier::when_used_as_spec(spec_opposite)]
    pub fn opposite(self) -> (c: Color)
        ensures
            c == self.spec_opposite(),
            c != self,
            c.spec_opposite() == self,
    {
        match self {
            Color::White => Color::Black,
            Color::Black => Color::White,
        }
    }

    /// Black for 1, white for every other number.
    pub fn from_u8(val: u8) -> (c: Color)
        ensures
            c == if val == 1 { Color::Black } else { Color::White },
    {
        match val {
            1 => Color::Black,
            _ => Color::White,
        }
    }
}

/// A set of castle rights: one flag each for white kingside, white queenside,
/// black kingside and black queenside.
#[derive(Copy, Clone, PartialEq, Eq, Structural, Debug, Default)]
pub struct CastleRights(pub u8);

impl CastleRights {
    pub const NONE: u8 = 0;
    pub const WHITE_KING: u8 = 1;
    pub const WHITE_QUEEN: u8 = 2;
    pub const BLACK_KING: u8 = 4;
    pub const BLACK_QUEEN: u8 = 8;
    pub const ALL: u8 = 15;

    /// Whether the set shares a flag with `rights`.
    pub fn has(self, rights: CastleRights) -> (r: bool)
        ensures
            r == (self.0 & rights.0 != 0),
    {
        (self.0 & rights.0) != 0
    }

    /// Adds the flags of `rights`.
    pub fn add(&mut self, rights: CastleRights)
        ensures
            final(self).0 == old(self).0 | rights.0,
    {
        self.0 = self.0 | rights.0;
    }

    /// Takes the flags of `rights` out.
    pub fn remove(&mut self, rights: CastleRights)
        ensures
            final(self).0 == old(self).0 & !rights.0,
    {
        self.0 = self.0 & !rights.0;
    }
}

} // verus!
