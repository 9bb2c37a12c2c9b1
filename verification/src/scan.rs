//! Scanning primitives on 64-bit words: population count, bit scans, isolating
//! and resetting the lowest bit, and parallel bit deposit and extract.

use crate::bitset::{
    drop_lowest, highest, is_set, lemma_bitwise_members, lemma_highest, lemma_lowest,
    lemma_squares_of_members, lemma_squares_of_sorted, lowest, popcount, squares_of,
};
use vstd::prelude::*;
use vstd::std_specs::bits::{axiom_u64_leading_zeros, axiom_u64_trailing_zeros};

verus! {

/// `u64::count_ones`: the number of one bits in `x`, which is the number of
/// squares that `squares_of` lists.
#[verifier::external_body]
fn count_ones(x: u64) -> (n: u32)
    ensures
        n == popcount(x),
{
    x.count_ones()
}

/// The number of set bits of `x`.
pub fn popcnt(x: u64) -> (n: u32)
    ensures
        n == popcount(x),
        n <= 64,
{
    proof {
        crate::bitset::lemma_squares_of_sorted(x);
    }
    count_ones(x)
}

/// The index of the lowest set bit; 64 when `x` is zero.
pub fn bitscan_forward(x: u64) -> (i: u32)
    ensures
        i == lowest(x),
        x == 0 <==> i == 64,
        x != 0 ==> i < 64 && is_set(x, i as u64) && forall|j: u64| j < i ==> !is_set(x, j),
{
    proof {
        axiom_u64_trailing_zeros(x);
        if x != 0 {
            lemma_lowest(x);
        }
    }
    if x == 0 {
        64
    } else {
        x.trailing_zeros()
    }
}

/// The index of the highest set bit; 64 when `x` is zero.
pub fn bitscan_reverse(x: u64) -> (i: u32)
    ensures
        x == 0 ==> i == 64,
        x != 0 ==> i == highest(x) && i < 64 && is_set(x, i as u64) && forall|j: u64|
            i < j ==> !is_set(x, j),
{
    proof {
        axiom_u64_leading_zeros(x);
        if x != 0 {
            lemma_highest(x);
        }
    }
    if x == 0 {
        64
    } else {
        63 - x.leading_zeros()
    }
}

/// `x` without its lowest set bit; zero stays zero.
pub fn reset_lsb(x: u64) -> (r: u64)
    ensures
        x == 0 ==> r == 0,
        x != 0 ==> r == drop_lowest(x),
{
    if x == 0 {
        0
    } else {
        x & (x - 1)
    }
}

/// The lowest set bit of `x` as a word of its own; zero for zero.
pub fn lsb(x: u64) -> (r: u64)
    ensures
        x == 0 ==> r == 0,
        x != 0 ==> r == 1u64 << lowest(x),
        forall|i: u64| is_set(r, i) <==> x != 0 && i == lowest(x),
{
    proof {
        lemma_bitwise_members();
        if x != 0 {
            lemma_lowest(x);
        }
    }
    if x == 0 {
        0
    } else {
        1u64 << (bitscan_forward(x) as u64)
    }
}

/// Parallel bit deposit: the low bits of `src` spread over the set bits of
/// `mask`, bit `k` of `src` landing on the `k`-th lowest set bit of `mask`.
/// The result has no bit outside `mask`.
pub fn pdep_neon(src: u64, mask: u64) -> (r: u64)
    ensures
        forall|k: int|
            0 <= k < squares_of(mask).len() ==> (is_set(r, #[trigger] squares_of(mask)[k])
                <==> is_set(src, k as u64)),
        forall|i: u64| is_set(r, i) ==> is_set(mask, i),
{
    let ghost all = squares_of(mask);
    let mut rest = mask;
    let mut result: u64 = 0;
    let mut k: u64 = 0;
    proof {
        lemma_bitwise_members();
        lemma_squares_of_sorted(mask);
        assert(all.skip(0) =~= all);
    }
    while rest != 0
        invariant
            all == squares_of(mask),
            all.len() <= 64,
            k <= all.len(),
            squares_of(rest) == all.skip(k as int),
            forall|a: int, b: int| 0 <= a < b < all.len() ==> all[a] < all[b],
            forall|a: int| 0 <= a < all.len() ==> all[a] < 64,
            forall|j: int| 0 <= j < k ==> (is_set(result, #[trigger] all[j]) <==> is_set(src, j as u64)),
            forall|i: u64| is_set(result, i) ==> exists|j: int| 0 <= j < k && all[j] == i,
        decreases all.len() - k,
    {
        proof {
            lemma_lowest(rest);
            assert(squares_of(drop_lowest(rest)) =~= squares_of(rest).skip(1));
            assert(all.skip(k as int).skip(1) =~= all.skip(k + 1));
            assert(all.skip(k as int)[0] == all[k as int]);
            lemma_bitwise_members();
        }
        let bit = bitscan_forward(rest) as u64;
        assert(bit == all[k as int]);
        let ghost before = result;
        if src & (1u64 << k) != 0 {
            result = result | (1u64 << bit);
        }
        proof {
            assert forall|i: u64| #[trigger] is_set(result, i) <==> is_set(before, i) || (i == bit
                && is_set(src, k)) by {}
            assert forall|j: int| 0 <= j < k + 1 implies (is_set(result, #[trigger] all[j])
                <==> is_set(src, j as u64)) by {
                if j < k {
                    assert(all[j] < all[k as int]);
                }
            }
            assert forall|i: u64| is_set(result, i) implies exists|j: int|
                0 <= j < k + 1 && all[j] == i by {
                if is_set(before, i) {
                    let j = choose|j: int| 0 <= j < k && all[j] == i;
                    assert(0 <= j < k + 1 && all[j] == i);
                } else {
                    assert(all[k as int] == i);
                }
            }
        }
        rest = rest & (rest - 1);
        k += 1;
    }
    proof {
        assert forall|i: u64| is_set(result, i) implies is_set(mask, i) by {
            let j = choose|j: int| 0 <= j < k && all[j] == i;
            lemma_squares_of_members(mask, i);
            assert(all.contains(all[j]));
        }
    }
    result
}

/// Parallel bit extract: the bits of `src` on the set bits of `mask`,
/// packed into the low bits of the result, the bit on the `k`-th lowest set
/// bit of `mask` landing on bit `k`. The result has no bit from the number
/// of set bits of `mask` on.
pub fn pext_neon(src: u64, mask: u64) -> (r: u64)
    ensures
        forall|k: int|
            0 <= k < squares_of(mask).len() ==> (is_set(r, k as u64) <==> is_set(
                src,
                #[trigger] squares_of(mask)[k],
            )),
        forall|i: u64| i >= squares_of(mask).len() ==> !is_set(r, i),
{
    let ghost all = squares_of(mask);
    let mut rest = mask;
    let mut result: u64 = 0;
    let mut k: u64 = 0;
    proof {
        lemma_bitwise_members();
        lemma_squares_of_sorted(mask);
        assert(all.skip(0) =~= all);
    }
    while rest != 0
        invariant
            all == squares_of(mask),
            all.len() <= 64,
            k <= all.len(),
            squares_of(rest) == all.skip(k as int),
            forall|a: int| 0 <= a < all.len() ==> all[a] < 64,
            forall|j: int| 0 <= j < k ==> (is_set(result, j as u64) <==> is_set(src, #[trigger] all[j])),
            forall|i: u64| i >= k ==> !is_set(result, i),
        decreases all.len() - k,
    {
        proof {
            lemma_lowest(rest);
            assert(squares_of(drop_lowest(rest)) =~= squares_of(rest).skip(1));
            assert(all.skip(k as int).skip(1) =~= all.skip(k + 1));
            assert(all.skip(k as int)[0] == all[k as int]);
            lemma_bitwise_members();
        }
        let bit = bitscan_forward(rest) as u64;
        assert(bit == all[k as int]);
        let ghost before = result;
        if src & (1u64 << bit) != 0 {
            result = result | (1u64 << k);
        }
        proof {
            assert forall|i: u64| #[trigger] is_set(result, i) <==> is_set(before, i) || (i == k
                && is_set(src, bit)) by {}
        }
        rest = rest & (rest - 1);
        k += 1;
    }
    result
}

/// The squares that are in at least one of the four sets.
pub fn neon_or_array(bitboards: &[u64; 4]) -> (all: u64)
    ensures
        all == bitboards[0] | bitboards[1] | bitboards[2] | bitboards[3],
        forall|i: u64|
            is_set(all, i) <==> is_set(bitboards[0], i) || is_set(bitboards[1], i) || is_set(
                bitboards[2],
                i,
            ) || is_set(bitboards[3], i),
{
    proof {
        lemma_bitwise_members();
    }
    bitboards[0] | bitboards[1] | bitboards[2] | bitboards[3]
}

/// The squares that are in each of the four sets.
pub fn neon_and_array(bitboards: &[u64; 4]) -> (common: u64)
    ensures
        common == bitboards[0] & bitboards[1] & bitboards[2] & bitboards[3],
        forall|i: u64|
            is_set(common, i) <==> is_set(bitboards[0], i) && is_set(bitboards[1], i) && is_set(
                bitboards[2],
                i,
            ) && is_set(bitboards[3], i),
{
    proof {
        lemma_bitwise_members();
    }
    bitboards[0] & bitboards[1] & bitboards[2] & bitboards[3]
}

} // verus!
