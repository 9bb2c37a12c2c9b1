//! Position fingerprints: a fixed 64-bit key for every piece on every square,
//! for the side to move, for each castle state and for each en-passant file.
//! A fingerprint is the XOR of the keys that apply.

use crate::bitset::is_set;
use crate::types::{CastleRights, Color, Piece, Square};
use vstd::prelude::*;

verus! {

/// A fixed scrambling of `x`: three rounds of shift, XOR and multiply on `x`
/// plus an odd constant.
pub open spec fn spec_mix(x: u64) -> u64 {
    let a = x.wrapping_add(0x9E37_79B9_7F4A_7C15);
    let b = (a ^ (a >> 30)).wrapping_mul(0xBF58_476D_1CE4_E5B9);
    let c = (b ^ (b >> 27)).wrapping_mul(0x94D0_49BB_1331_11EB);
    c ^ (c >> 31)
}

/// A fixed scrambling of `x`.
#[verifier::when_used_as_spec(spec_mix)]
pub fn mix(x: u64) -> (r: u64)
    ensures
        r == spec_mix(x),
{
    let a = x.wrapping_add(0x9E37_79B9_7F4A_7C15);
    let b = (a ^ (a >> 30)).wrapping_mul(0xBF58_476D_1CE4_E5B9);
    let c = (b ^ (b >> 27)).wrapping_mul(0x94D0_49BB_1331_11EB);
    c ^ (c >> 31)
}

/// The key of `piece` of `color` on the square numbered `sq`.
pub open spec fn spec_piece_square_key(piece: Piece, color: Color, sq: u64) -> u64 {
    spec_mix((1 + (piece.spec_index() * 2 + color.spec_index()) * 64 + sq) as u64)
}

/// The key that is in the fingerprint when black is to move.
pub open spec fn spec_black_to_move_key() -> u64 {
    spec_mix(769)
}

/// The key of the castle state `rights`, one for each of the 16 states.
pub open spec fn spec_castle_key(rights: CastleRights) -> u64 {
    spec_mix((770 + rights.0 % 16) as u64)
}

/// The key of an en-passant target on `file`.
pub open spec fn spec_en_passant_key(file: u8) -> u64 {
    spec_mix((786 + file % 8) as u64)
}

/// The part of a fingerprint that the side to move gives.
pub open spec fn side_key(side: Color) -> u64 {
    if side == Color::Black {
        spec_black_to_move_key()
    } else {
        0
    }
}

/// The part of a fingerprint that the en-passant target gives: the key of
/// its file, nothing when there is no target.
pub open spec fn target_key(ep: Option<Square>) -> u64 {
    match ep {
        Some(sq) => spec_en_passant_key(sq.spec_file()),
        None => 0,
    }
}

/// The XOR of the keys of `piece` of `color` over the members of `bits` below `n`.
pub open spec fn layer_key(bits: u64, piece: Piece, color: Color, n: nat) -> u64
    decreases n,
{
    if n == 0 {
        0
    } else {
        let below = layer_key(bits, piece, color, (n - 1) as nat);
        if is_set(bits, (n - 1) as u64) {
            below ^ spec_piece_square_key(piece, color, (n - 1) as u64)
        } else {
            below
        }
    }
}

/// The key of `piece` of `color` on `square`.
pub fn piece_square_key(piece: Piece, color: Color, square: Square) -> (key: u64)
    requires
        square.valid(),
    ensures
        key == spec_piece_square_key(piece, color, square.idx()),
{
    let layer: u64 = (piece.index() * 2 + color.index()) as u64;
    mix(1 + layer * 64 + square.0 as u64)
}

/// The key that is in the fingerprint when black is to move.
pub fn black_to_move_key() -> (key: u64)
    ensures
        key == spec_black_to_move_key(),
{
    mix(769)
}

/// The key of the castle state `rights`.
pub fn castle_key(rights: CastleRights) -> (key: u64)
    ensures
        key == spec_castle_key(rights),
{
    mix(770 + (rights.0 % 16) as u64)
}

/// The key of an en-passant target on `file`.
pub fn en_passant_key(file: u8) -> (key: u64)
    ensures
        key == spec_en_passant_key(file),
{
    mix(786 + (file % 8) as u64)
}

/// A fingerprint under construction: XOR keys in and out as the position changes.
#[derive(Copy, Clone, PartialEq, Eq, Structural, Debug, Default, Hash)]
pub struct ZobristHash(pub u64);

impl ZobristHash {
    /// The fingerprint of nothing: zero.
    pub fn new() -> (h: ZobristHash)
        ensures
            h.0 == 0,
    {
        ZobristHash(0)
    }

    /// Takes `piece` of `color` off `from` and puts it on `to`.
    pub fn move_piece(&mut self, piece: Piece, color: Color, from: Square, to: Square)
        requires
            from.valid(),
            to.valid(),
        ensures
            final(self).0 == (old(self).0 ^ spec_piece_square_key(piece, color, from.idx()))
                ^ spec_piece_square_key(piece, color, to.idx()),
    {
        self.0 = self.0 ^ piece_square_key(piece, color, from);
        self.0 = self.0 ^ piece_square_key(piece, color, to);
    }

    /// Puts `piece` of `color` on `square`.
    pub fn place_piece(&mut self, piece: Piece, color: Color, square: Square)
        requires
            square.valid(),
        ensures
            final(self).0 == old(self).0 ^ spec_piece_square_key(piece, color, square.idx()),
    {
        self.0 = self.0 ^ piece_square_key(piece, color, square);
    }

    /// Takes `piece` of `color` off `square`.
    pub fn remove_piece(&mut self, piece: Piece, color: Color, square: Square)
        requires
            square.valid(),
        ensures
            final(self).0 == old(self).0 ^ spec_piece_square_key(piece, color, square.idx()),
    {
        self.0 = self.0 ^ piece_square_key(piece, color, square);
    }

    /// Passes the move to the other side.
    pub fn flip_side(&mut self)
        ensures
            final(self).0 == old(self).0 ^ spec_black_to_move_key(),
    {
        self.0 = self.0 ^ black_to_move_key();
    }

    /// Replaces the castle state `old_rights` by `new_rights`.
    pub fn update_castle_rights(&mut self, old_rights: CastleRights, new_rights: CastleRights)
        ensures
            final(self).0 == (old(self).0 ^ spec_castle_key(old_rights)) ^ spec_castle_key(
                new_rights,
            ),
    {
        self.0 = self.0 ^ castle_key(old_rights);
        self.0 = self.0 ^ castle_key(new_rights);
    }

    /// Replaces the en-passant target `old_ep` by `new_ep`.
    pub fn update_en_passant(&mut self, old_ep: Option<Square>, new_ep: Option<Square>)
        ensures
            final(self).0 == (old(self).0 ^ target_key(old_ep)) ^ target_key(new_ep),
    {
        proof {
            lemma_xor_zero(self.0);
            lemma_xor_zero(self.0 ^ target_key(old_ep));
        }
        if let Some(ep) = old_ep {
            self.0 = self.0 ^ en_passant_key(ep.file());
        }
        if let Some(ep) = new_ep {
            self.0 = self.0 ^ en_passant_key(ep.file());
        }
    }

    /// The fingerprint as a number.
    pub fn value(self) -> (v: u64)
        ensures
            v == self.0,
    {
        self.0
    }
}

impl From<u64> for ZobristHash {
    /// The fingerprint with the number `value`.
    fn from(value: u64) -> (h: ZobristHash) {
        ZobristHash(value)
    }
}

impl vstd::std_specs::convert::FromSpecImpl<u64> for ZobristHash {
    open spec fn obeys_from_spec() -> bool {
        true
    }

    open spec fn from_spec(value: u64) -> ZobristHash {
        ZobristHash(value)
    }
}

/// XOR with zero changes nothing.
pub proof fn lemma_xor_zero(a: u64)
    by (bit_vector)
    ensures
        a ^ 0 == a,
        0 ^ a == a,
        a ^ a == 0,
{
}

/// XOR may be regrouped and reordered.
pub proof fn lemma_xor_algebra(a: u64, b: u64, c: u64)
    by (bit_vector)
    ensures
        (a ^ b) ^ c == a ^ (b ^ c),
        (a ^ b) ^ c == (a ^ c) ^ b,
        a ^ b == b ^ a,
        (a ^ b) ^ b == a,
{
}

/// Flipping one bit of a layer changes its key by the key of that square.
pub proof fn lemma_layer_key_toggle(bits: u64, piece: Piece, color: Color, s: u64, n: nat)
    requires
        s < 64,
        n <= 64,
    ensures
        layer_key(bits ^ (1u64 << s), piece, color, n) == if s < n {
            layer_key(bits, piece, color, n) ^ spec_piece_square_key(piece, color, s)
        } else {
            layer_key(bits, piece, color, n)
        },
    decreases n,
{
    crate::bitset::lemma_bitwise_members();
    if n > 0 {
        lemma_layer_key_toggle(bits, piece, color, s, (n - 1) as nat);
        let i = (n - 1) as u64;
        let flipped = bits ^ (1u64 << s);
        let below = layer_key(bits, piece, color, (n - 1) as nat);
        let k = spec_piece_square_key(piece, color, s);
        let ki = spec_piece_square_key(piece, color, i);
        assert(is_set(flipped, i) <==> (is_set(bits, i) != (i == s)));
        lemma_xor_zero(below);
        lemma_xor_algebra(below, k, ki);
        lemma_xor_algebra(below, ki, ki);
    }
}

} // verus!
