//! Bit manipulation on 64-bit words, and set operations on occupancy sets.

use crate::bitset::{
    drop_lowest, highest, is_set, lemma_bitwise_members, lemma_highest, lemma_lowest,
    lemma_same_members, lowest, squares_of,
};
use crate::scan::popcnt;
use crate::types::Bitboard;
use vstd::arithmetic::power2::{lemma2_to64, lemma2_to64_rest, lemma_pow2_strictly_increases, lemma_pow2_unfold, pow2};
use vstd::prelude::*;
use vstd::std_specs::bits::{axiom_u64_leading_zeros, axiom_u64_trailing_zeros};

verus! {

/// The number of zero bits below the lowest set bit of `x`; 64 for zero.
pub fn trailing_zeros(x: u64) -> (n: u32)
    ensures
        n == lowest(x),
        x == 0 <==> n == 64,
        x != 0 ==> n < 64 && is_set(x, n as u64) && forall|j: u64| j < n ==> !is_set(x, j),
{
    proof {
        axiom_u64_trailing_zeros(x);
        if x != 0 {
            lemma_lowest(x);
        }
    }
    if x == 0 {
        64
    } else {
        x.trailing_zeros()
    }
}

/// The number of zero bits above the highest set bit of `x`; 64 for zero.
pub fn leading_zeros(x: u64) -> (n: u32)
    ensures
        n == 63 - highest(x),
        x == 0 <==> n == 64,
        x != 0 ==> n < 64 && is_set(x, (63 - n) as u64) && forall|j: u64|
            63 - n < j < 64 ==> !is_set(x, j),
{
    proof {
        axiom_u64_leading_zeros(x);
        if x != 0 {
            lemma_highest(x);
        }
    }
    if x == 0 {
        64
    } else {
        x.leading_zeros()
    }
}

/// The index of the lowest set bit of `x`; 64 for zero.
pub fn lsb_index(x: u64) -> (n: u32)
    ensures
        n == lowest(x),
        x == 0 <==> n == 64,
        x != 0 ==> n < 64 && is_set(x, n as u64) && forall|j: u64| j < n ==> !is_set(x, j),
{
    trailing_zeros(x)
}

/// The index of the highest set bit of `x`, which is not zero.
pub fn msb_index(x: u64) -> (n: u32)
    requires
        x != 0,
    ensures
        n == highest(x),
        n < 64,
        is_set(x, n as u64),
        forall|j: u64| n < j < 64 ==> !is_set(x, j),
{
    63 - leading_zeros(x)
}

/// Whether `x` is a power of two: it has exactly one bit set.
pub fn is_power_of_two(x: u64) -> (r: bool)
    ensures
        r == (crate::bitset::popcount(x) == 1),
{
    proof {
        if x != 0 {
            lemma_lowest(x);
            assert(squares_of(x).len() == 1 + squares_of(drop_lowest(x)).len());
            if drop_lowest(x) != 0 {
                lemma_lowest(drop_lowest(x));
            }
        }
    }
    x != 0 && (x & (x - 1)) == 0
}

/// The smallest power of two that is no less than `x`; 1 for zero. `x` may
/// be at most 2^63, the largest power of two that 64 bits hold.
pub fn next_power_of_two(x: u64) -> (r: u64)
    requires
        x <= 0x8000_0000_0000_0000,
    ensures
        exists|k: nat| k < 64 && r == pow2(k),
        r >= x,
        r >= 1,
        x > 1 ==> r / 2 < x,
        x <= 1 ==> r == 1,
{
    let mut p: u64 = 1;
    let ghost mut k: nat = 0;
    proof {
        lemma2_to64();
        lemma2_to64_rest();
    }
    while p < x
        invariant
            x <= 0x8000_0000_0000_0000,
            p == pow2(k),
            k <= 63,
            p >= 1,
            k > 0 ==> p / 2 < x,
            k == 0 ==> p == 1,
            pow2(63) == 0x8000_0000_0000_0000,
        decreases 64 - k,
    {
        proof {
            if k >= 63 {
                assert(false);
            }
            lemma_pow2_unfold(k + 1);
            if k + 1 < 63 {
                lemma_pow2_strictly_increases(k + 1, 63);
            }
        }
        p = p * 2;
        proof {
            k = k + 1;
        }
    }
    p
}

/// `u64::reverse_bits`: the word with the bits of `x` in reverse order, so
/// that bit `i` of the result is bit `63 - i` of `x`.
#[verifier::external_body]
fn std_reverse_bits(x: u64) -> (r: u64)
    ensures
        forall|i: u64| i < 64 ==> (is_set(r, i) <==> is_set(x, (63 - i) as u64)),
{
    x.reverse_bits()
}

/// `u64::swap_bytes`: the word with the bytes of `x` in reverse order, so
/// that bit `i` of the result is the bit of `x` in the same place of the
/// mirrored byte.
#[verifier::external_body]
fn std_swap_bytes(x: u64) -> (r: u64)
    ensures
        forall|i: u64| i < 64 ==> (is_set(r, i) <==> is_set(x, (56 - 8 * (i / 8) + i % 8) as u64)),
{
    x.swap_bytes()
}

/// `u64::rotate_left`: the bits of `x` moved `n` places up, those that
/// leave at the top coming back in at the bottom.
#[verifier::external_body]
fn std_rotate_left(x: u64, n: u32) -> (r: u64)
    ensures
        forall|i: u64| i < 64 ==> (is_set(r, ((i + n) % 64) as u64) <==> is_set(x, i)),
{
    x.rotate_left(n)
}

/// `u64::rotate_right`: the bits of `x` moved `n` places down, those that
/// leave at the bottom coming back in at the top.
#[verifier::external_body]
fn std_rotate_right(x: u64, n: u32) -> (r: u64)
    ensures
        forall|i: u64| i < 64 ==> (is_set(r, i) <==> is_set(x, ((i + n) % 64) as u64)),
{
    x.rotate_right(n)
}

/// The bits of `x` in reverse order: bit `i` of the result is bit `63 - i` of `x`.
pub fn reverse_bits(x: u64) -> (r: u64)
    ensures
        forall|i: u64| i < 64 ==> (is_set(r, i) <==> is_set(x, (63 - i) as u64)),
{
    std_reverse_bits(x)
}

/// The bytes of `x` in reverse order.
pub fn swap_bytes(x: u64) -> (r: u64)
    ensures
        forall|i: u64| i < 64 ==> (is_set(r, i) <==> is_set(x, (56 - 8 * (i / 8) + i % 8) as u64)),
{
    std_swap_bytes(x)
}

/// `x` rotated `n` places towards the high bits.
pub fn rotate_left(x: u64, n: u32) -> (r: u64)
    ensures
        forall|i: u64| i < 64 ==> (is_set(r, ((i + n) % 64) as u64) <==> is_set(x, i)),
{
    std_rotate_left(x, n)
}

/// `x` rotated `n` places towards the low bits.
pub fn rotate_right(x: u64, n: u32) -> (r: u64)
    ensures
        forall|i: u64| i < 64 ==> (is_set(r, i) <==> is_set(x, ((i + n) % 64) as u64)),
{
    std_rotate_right(x, n)
}

/// The word with bits 0 to `end` set; all 64 when `end` is 63 or more.
pub open spec fn low_mask(end: u32) -> u64 {
    if end >= 63 {
        0xFFFF_FFFF_FFFF_FFFFu64
    } else {
        ((1u64 << ((end + 1) as u64)) - 1) as u64
    }
}

/// Which bits a low mask holds, and what shifting down does to the members.
proof fn lemma_extract(x: u64, start: u64, end: u64)
    by (bit_vector)
    requires
        start < 64,
        end < 63,
    ensures
        1u64 << ((end + 1) as u64) >= 1,
        forall|i: u64|
            i < 64 ==> (#[trigger] is_set(
                (x & (((1u64 << ((end + 1) as u64)) - 1) as u64)) >> start,
                i,
            ) <==> (i + start <= end && is_set(x, (i + start) as u64))),
        forall|i: u64|
            i < 64 ==> (#[trigger] is_set((x & 0xFFFF_FFFF_FFFF_FFFFu64) >> start, i) <==> is_set(
                x,
                (i + start) as u64,
            )),
{
}

/// The bits `start` to `end` of `x`, moved down to start at bit 0.
pub fn extract_bits(x: u64, start: u32, end: u32) -> (r: u64)
    requires
        start < 64,
    ensures
        r == (x & low_mask(end)) >> (start as u64),
        forall|i: u64|
            i < 64 ==> (is_set(r, i) <==> i + start <= end && is_set(x, (i + start) as u64)),
{
    proof {
        lemma_extract(x, start as u64, if end < 63 { end as u64 } else { 0 });
    }
    let mask: u64 = if end >= 63 {
        u64::MAX
    } else {
        (1u64 << ((end + 1) as u64)) - 1
    };
    (x & mask) >> (start as u64)
}

/// `value` with the field of as many bits as `bits` has set, from bit
/// `start` on, replaced by the low bits of `bits`.
pub fn deposit_bits(value: u64, bits: u64, start: u32) -> (r: u64)
    requires
        start < 64,
        crate::bitset::popcount(bits) < 64,
    ensures
        ({
            let field = (!(0xFFFF_FFFF_FFFF_FFFFu64 << (crate::bitset::popcount(bits) as u64))) << (start as u64);
            r == (value & !field) | ((bits << (start as u64)) & field)
        }),
{
    let width = popcnt(bits);
    let mask: u64 = (!(u64::MAX << (width as u64))) << (start as u64);
    (value & !mask) | ((bits << (start as u64)) & mask)
}

/// The number of set bits of `x`.
pub fn popcount(x: u64) -> (n: u32)
    ensures
        n == crate::bitset::popcount(x),
        n <= 64,
{
    popcnt(x)
}

/// Whether bit `bit` of `x` is set.
pub fn test_bit(x: u64, bit: u32) -> (r: bool)
    requires
        bit < 64,
    ensures
        r == is_set(x, bit as u64),
{
    (x & (1u64 << (bit as u64))) != 0
}

/// `x` with bit `bit` set.
pub fn set_bit(x: u64, bit: u32) -> (r: u64)
    requires
        bit < 64,
    ensures
        r == x | (1u64 << (bit as u64)),
        forall|i: u64| is_set(r, i) <==> is_set(x, i) || i == bit,
{
    proof {
        lemma_bitwise_members();
    }
    x | (1u64 << (bit as u64))
}

/// `x` with bit `bit` cleared.
pub fn clear_bit(x: u64, bit: u32) -> (r: u64)
    requires
        bit < 64,
    ensures
        r == x & !(1u64 << (bit as u64)),
        forall|i: u64| is_set(r, i) <==> is_set(x, i) && i != bit,
{
    proof {
        lemma_bitwise_members();
        assert forall|i: u64| is_set(x & !(1u64 << (bit as u64)), i) <==> is_set(x, i) && i
            != bit by {
            if i < 64 {
                assert(is_set(!(1u64 << (bit as u64)), i) <==> !is_set(1u64 << (bit as u64), i));
            }
        }
    }
    x & !(1u64 << (bit as u64))
}

/// `x` with bit `bit` flipped.
pub fn toggle_bit(x: u64, bit: u32) -> (r: u64)
    requires
        bit < 64,
    ensures
        r == x ^ (1u64 << (bit as u64)),
        forall|i: u64| i < 64 ==> (is_set(r, i) <==> (is_set(x, i) != (i == bit))),
{
    proof {
        lemma_bitwise_members();
    }
    x ^ (1u64 << (bit as u64))
}

/// Clears the lowest set bit of `x` and returns its index; `None` for zero.
pub fn find_and_clear_lsb(x: &mut u64) -> (found: Option<u32>)
    ensures
        *old(x) == 0 ==> found.is_none() && *final(x) == 0,
        *old(x) != 0 ==> found == Some(lowest(*old(x)) as u32) && *final(x) == drop_lowest(
            *old(x),
        ) && is_set(*old(x), lowest(*old(x))),
{
    if *x == 0 {
        None
    } else {
        proof {
            lemma_lowest(*x);
        }
        let bit = lsb_index(*x);
        *x = *x & (*x - 1);
        Some(bit)
    }
}

/// The bits of `x` and `y` interleaved: bit `i` of `x` becomes bit `2i` of
/// the result, bit `i` of `y` bit `2i + 1`.
pub fn interleave_bits(x: u32, y: u32) -> (z: u64)
    ensures
        forall|i: u64| i < 32 ==> (is_set(z, (2 * i) as u64) <==> #[trigger] is_set(x as u64, i)),
        forall|i: u64|
            i < 32 ==> (is_set(z, (2 * i + 1) as u64) <==> #[trigger] is_set(y as u64, i)),
{
    let xw = x as u64;
    let yw = y as u64;
    let mut z: u64 = 0;
    let mut i: u64 = 0;
    proof {
        lemma_bitwise_members();
    }
    while i < 32
        invariant
            i <= 32,
            xw == x as u64,
            yw == y as u64,
            forall|j: u64| j < i ==> (is_set(z, (2 * j) as u64) <==> #[trigger] is_set(xw, j)),
            forall|j: u64| j < i ==> (is_set(z, (2 * j + 1) as u64) <==> #[trigger] is_set(yw, j)),
            forall|t: u64| 2 * i <= t ==> !#[trigger] is_set(z, t),
        decreases 32 - i,
    {
        let ghost before = z;
        if xw & (1u64 << i) != 0 {
            z = z | (1u64 << (2 * i));
        }
        let ghost middle = z;
        if yw & (1u64 << i) != 0 {
            z = z | (1u64 << (2 * i + 1));
        }
        proof {
            lemma_bitwise_members();
            assert forall|t: u64| #[trigger] is_set(z, t) <==> is_set(before, t) || (t == 2 * i
                && is_set(xw, i)) || (t == 2 * i + 1 && is_set(yw, i)) by {
                assert(is_set(middle, t) <==> is_set(before, t) || (t == 2 * i && is_set(xw, i)));
            }
        }
        i += 1;
    }
    z
}

/// A word without bits from 32 on fits 32 bits.
proof fn lemma_low_word(v: u64)
    by (bit_vector)
    ensures
        v & 0xFFFF_FFFF <= 0xFFFF_FFFF,
        forall|i: u64| i < 64 ==> (#[trigger] is_set(0xFFFF_FFFFu64, i) <==> i < 32),
{
}

/// The two words whose bits are interleaved in `z`: bit `i` of the first
/// is bit `2i` of `z`, bit `i` of the second is bit `2i + 1`.
pub fn deinterleave_bits(z: u64) -> (pair: (u32, u32))
    ensures
        forall|i: u64|
            i < 32 ==> (#[trigger] is_set(pair.0 as u64, i) <==> is_set(z, (2 * i) as u64)),
        forall|i: u64|
            i < 32 ==> (#[trigger] is_set(pair.1 as u64, i) <==> is_set(z, (2 * i + 1) as u64)),
{
    let mut x: u64 = 0;
    let mut y: u64 = 0;
    let mut i: u64 = 0;
    proof {
        lemma_bitwise_members();
    }
    while i < 32
        invariant
            i <= 32,
            forall|j: u64| j < i ==> (#[trigger] is_set(x, j) <==> is_set(z, (2 * j) as u64)),
            forall|j: u64| j < i ==> (#[trigger] is_set(y, j) <==> is_set(z, (2 * j + 1) as u64)),
            forall|t: u64| i <= t ==> !#[trigger] is_set(x, t),
            forall|t: u64| i <= t ==> !#[trigger] is_set(y, t),
        decreases 32 - i,
    {
        let ghost x0 = x;
        let ghost y0 = y;
        if z & (1u64 << (2 * i)) != 0 {
            x = x | (1u64 << i);
        }
        if z & (1u64 << (2 * i + 1)) != 0 {
            y = y | (1u64 << i);
        }
        proof {
            lemma_bitwise_members();
            assert forall|t: u64| #[trigger] is_set(x, t) <==> is_set(x0, t) || (t == i && is_set(
                z,
                (2 * i) as u64,
            )) by {}
            assert forall|t: u64| #[trigger] is_set(y, t) <==> is_set(y0, t) || (t == i && is_set(
                z,
                (2 * i + 1) as u64,
            )) by {}
        }
        i += 1;
    }
    proof {
        lemma_bitwise_members();
        lemma_low_word(x);
        lemma_low_word(y);
        lemma_same_members(x, x & 0xFFFF_FFFF);
        lemma_same_members(y, y & 0xFFFF_FFFF);
    }
    (x as u32, y as u32)
}

/// The number of bits in which `a` and `b` differ.
pub fn hamming_distance(a: u64, b: u64) -> (n: u32)
    ensures
        n == crate::bitset::popcount(a ^ b),
        n <= 64,
{
    popcnt(a ^ b)
}

/// Whether `a` and `b` share a square.
pub fn has_intersection(a: Bitboard, b: Bitboard) -> (r: bool)
    ensures
        r == exists|i: u64| is_set(a.0, i) && is_set(b.0, i),
{
    proof {
        lemma_bitwise_members();
        if a.0 & b.0 != 0 {
            lemma_lowest(a.0 & b.0);
            assert(is_set(a.0, lowest(a.0 & b.0)) && is_set(b.0, lowest(a.0 & b.0)));
        } else {
            assert forall|i: u64| !(is_set(a.0, i) && is_set(b.0, i)) by {
                assert(is_set(a.0 & b.0, i) <==> is_set(a.0, i) && is_set(b.0, i));
            }
        }
    }
    (a.0 & b.0) != 0
}

/// The squares that are in both `a` and `b`.
pub fn intersection(a: Bitboard, b: Bitboard) -> (r: Bitboard)
    ensures
        r.0 == a.0 & b.0,
        forall|i: u64| is_set(r.0, i) <==> is_set(a.0, i) && is_set(b.0, i),
{
    proof {
        lemma_bitwise_members();
    }
    Bitboard(a.0 & b.0)
}

/// The squares that are in `a` or in `b`.
pub fn union(a: Bitboard, b: Bitboard) -> (r: Bitboard)
    ensures
        r.0 == a.0 | b.0,
        forall|i: u64| is_set(r.0, i) <==> is_set(a.0, i) || is_set(b.0, i),
{
    proof {
        lemma_bitwise_members();
    }
    Bitboard(a.0 | b.0)
}

/// The squares that are in exactly one of `a` and `b`.
pub fn symmetric_difference(a: Bitboard, b: Bitboard) -> (r: Bitboard)
    ensures
        r.0 == a.0 ^ b.0,
        forall|i: u64| is_set(r.0, i) <==> (is_set(a.0, i) != is_set(b.0, i)),
{
    proof {
        lemma_bitwise_members();
    }
    Bitboard(a.0 ^ b.0)
}

/// Whether every square of `subset` is in `superset`.
pub fn is_subset(subset: Bitboard, superset: Bitboard) -> (r: bool)
    ensures
        r == forall|i: u64| is_set(subset.0, i) ==> is_set(superset.0, i),
{
    proof {
        lemma_bitwise_members();
        let both = subset.0 & superset.0;
        if both == subset.0 {
            assert forall|i: u64| is_set(subset.0, i) implies is_set(superset.0, i) by {
                assert(is_set(both, i) <==> is_set(subset.0, i) && is_set(superset.0, i));
            }
        } else {
            if forall|i: u64| is_set(subset.0, i) ==> is_set(superset.0, i) {
                assert forall|i: u64| i < 64 implies (is_set(both, i) <==> is_set(subset.0, i)) by {
                    assert(is_set(both, i) <==> is_set(subset.0, i) && is_set(superset.0, i));
                }
                lemma_same_members(both, subset.0);
            }
        }
    }
    (subset.0 & superset.0) == subset.0
}

/// Whether `bb` holds no square.
pub fn is_empty(bb: Bitboard) -> (r: bool)
    ensures
        r == (bb.0 == 0),
        r == forall|i: u64| !is_set(bb.0, i),
{
    proof {
        lemma_bitwise_members();
        if bb.0 != 0 {
            lemma_lowest(bb.0);
        }
    }
    bb.0 == 0
}

/// The squares that are not in `bb`.
pub fn complement(bb: Bitboard) -> (r: Bitboard)
    ensures
        r.0 == !bb.0,
        forall|i: u64| i < 64 ==> (is_set(r.0, i) <==> !is_set(bb.0, i)),
{
    proof {
        lemma_bitwise_members();
    }
    Bitboard(!bb.0)
}

} // verus!
