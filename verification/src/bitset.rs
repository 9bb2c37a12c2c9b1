//! Words of 64 bits read as sets of squares, and the facts about them that the
//! rest of the crate reasons with.

use vstd::prelude::*;
use vstd::std_specs::bits::{
    axiom_u64_leading_zeros, axiom_u64_trailing_zeros, u64_leading_zeros, u64_trailing_zeros,
};

verus! {

/// Bit `i` of `x` is set. False for every `i` from 64 on.
pub open spec fn is_set(x: u64, i: u64) -> bool {
    i < 64 && x & (1u64 << i) != 0
}

/// The index of the lowest set bit of `x`; 64 when `x` is zero.
pub open spec fn lowest(x: u64) -> u64 {
    u64_trailing_zeros(x) as u64
}

/// The index of the highest set bit of `x`; -1 when `x` is zero.
pub open spec fn highest(x: u64) -> int {
    63 - u64_leading_zeros(x)
}

/// `x` without its lowest set bit.
pub open spec fn drop_lowest(x: u64) -> u64 {
    x & ((x - 1) as u64)
}

/// The indices of the set bits of `x`, lowest first.
pub open spec fn squares_of(x: u64) -> Seq<u64>
    decreases x,
    via squares_of_terminates
{
    if x == 0 {
        Seq::empty()
    } else {
        seq![lowest(x)] + squares_of(drop_lowest(x))
    }
}

#[via_fn]
proof fn squares_of_terminates(x: u64) {
    assert(x != 0 ==> x & ((x - 1) as u64) < x) by (bit_vector);
}

/// The number of set bits of `x`.
pub open spec fn popcount(x: u64) -> nat {
    squares_of(x).len()
}

/// How the bitwise operators act on single bits.
pub proof fn lemma_bitwise_members()
    by (bit_vector)
    ensures
        forall|i: u64| !#[trigger] is_set(0u64, i),
        forall|i: u64| i < 64 ==> #[trigger] is_set(0xFFFF_FFFF_FFFF_FFFFu64, i),
        forall|a: u64, b: u64, i: u64| #[trigger] is_set(a | b, i) <==> is_set(a, i) || is_set(b, i),
        forall|a: u64, b: u64, i: u64| #[trigger] is_set(a & b, i) <==> is_set(a, i) && is_set(b, i),
        forall|a: u64, b: u64, i: u64| #[trigger]
            is_set(a ^ b, i) <==> (is_set(a, i) != is_set(b, i)),
        forall|a: u64, i: u64| i < 64 ==> (#[trigger] is_set(!a, i) <==> !is_set(a, i)),
        forall|k: u64, i: u64| k < 64 ==> (#[trigger] is_set(1u64 << k, i) <==> i == k),
        forall|a: u64, b: u64| #[trigger] (a ^ b) == 0 ==> a == b,
{
}

/// What the lowest set bit of a nonzero word is, from the shape std gives it.
proof fn lemma_lowest_shape(x: u64, t: u64)
    by (bit_vector)
    requires
        t < 64,
        (x >> t) & 1 == 1,
        x << ((64 - t) as u64) == 0,
    ensures
        x != 0,
        x & (1u64 << t) != 0,
        x & ((x - 1) as u64) == x & !(1u64 << t),
        x & ((x - 1) as u64) < x,
        forall|j: u64| j < t ==> x & (1u64 << j) == 0,
{
}

/// The lowest set bit of a nonzero word is set, nothing below it is, and
/// dropping it clears that bit alone.
pub proof fn lemma_lowest(x: u64)
    requires
        x != 0,
    ensures
        lowest(x) < 64,
        is_set(x, lowest(x)),
        forall|j: u64| j < lowest(x) ==> !is_set(x, j),
        drop_lowest(x) == x & !(1u64 << lowest(x)),
        drop_lowest(x) < x,
        forall|j: u64| is_set(drop_lowest(x), j) <==> is_set(x, j) && j != lowest(x),
{
    axiom_u64_trailing_zeros(x);
    let t = lowest(x);
    lemma_lowest_shape(x, t);
    lemma_bitwise_members();
    assert forall|j: u64| is_set(drop_lowest(x), j) <==> is_set(x, j) && j != t by {
        if j < 64 {
            assert(is_set(x & !(1u64 << t), j) <==> is_set(x, j) && is_set(!(1u64 << t), j));
        }
    }
}

/// What the highest set bit of a nonzero word is, from the shape std gives it.
proof fn lemma_highest_shape(x: u64, t: u64)
    by (bit_vector)
    requires
        t < 64,
        (x >> t) & 1 != 0,
        t < 63 ==> x >> ((t + 1) as u64) == 0,
    ensures
        x & (1u64 << t) != 0,
        forall|j: u64| t < j < 64 ==> x & (1u64 << j) == 0,
{
}

/// The highest set bit of a nonzero word is set and nothing above it is.
pub proof fn lemma_highest(x: u64)
    requires
        x != 0,
    ensures
        0 <= highest(x) < 64,
        is_set(x, highest(x) as u64),
        forall|j: u64| highest(x) < j ==> !is_set(x, j),
{
    axiom_u64_leading_zeros(x);
    lemma_highest_shape(x, highest(x) as u64);
}

/// Two words with the same members are the same word.
pub proof fn lemma_same_members(a: u64, b: u64)
    requires
        forall|i: u64| i < 64 ==> (is_set(a, i) <==> is_set(b, i)),
    ensures
        a == b,
{
    lemma_bitwise_members();
    let d = a ^ b;
    if d != 0 {
        lemma_lowest(d);
        assert(is_set(a ^ b, lowest(d)));
    }
}

/// `squares_of` lists exactly the members of `x`.
pub proof fn lemma_squares_of_members(x: u64, i: u64)
    ensures
        squares_of(x).contains(i) <==> is_set(x, i),
    decreases x,
{
    lemma_bitwise_members();
    if x != 0 {
        lemma_lowest(x);
        let rest = squares_of(drop_lowest(x));
        lemma_squares_of_members(drop_lowest(x), i);
        let head = seq![lowest(x)];
        if is_set(x, i) {
            if i == lowest(x) {
                assert((head + rest)[0] == i);
            } else {
                let k = choose|k: int| 0 <= k < rest.len() && rest[k] == i;
                assert((head + rest)[k + 1] == i);
            }
        }
        if squares_of(x).contains(i) {
            let k = choose|k: int| 0 <= k < (head + rest).len() && (head + rest)[k] == i;
            if k > 0 {
                assert(rest[k - 1] == i);
            }
        }
    }
}

/// `squares_of` is strictly increasing, so nothing occurs in it twice.
pub proof fn lemma_squares_of_sorted(x: u64)
    ensures
        forall|a: int, b: int| 0 <= a < b < squares_of(x).len() ==> squares_of(x)[a] < squares_of(x)[b],
        forall|a: int| 0 <= a < squares_of(x).len() ==> squares_of(x)[a] < 64,
        squares_of(x).len() <= 64,
    decreases x,
{
    if x != 0 {
        lemma_lowest(x);
        let rest = squares_of(drop_lowest(x));
        lemma_squares_of_sorted(drop_lowest(x));
        let s = seq![lowest(x)] + rest;
        assert forall|a: int, b: int| 0 <= a < b < s.len() implies s[a] < s[b] by {
            let r = rest[b - 1];
            lemma_squares_of_members(drop_lowest(x), r);
            assert(rest.contains(r));
            assert(is_set(drop_lowest(x), r));
            assert(is_set(x, r) && r != lowest(x));
            assert(s[b] == r);
            if a > 0 {
                assert(s[a] == rest[a - 1]);
            } else {
                assert(s[a] == lowest(x));
                assert(!(r < lowest(x)));
            }
        }
        assert forall|a: int| 0 <= a < s.len() implies s[a] < 64 by {
            if a > 0 {
                assert(s[a] == rest[a - 1]);
            }
        }
        if s.len() > 64 {
            lemma_strictly_increasing_bound(s);
        }
    }
}

/// A strictly increasing sequence of numbers below 64 has at most 64 items.
proof fn lemma_strictly_increasing_bound(s: Seq<u64>)
    requires
        forall|a: int, b: int| 0 <= a < b < s.len() ==> s[a] < s[b],
        forall|a: int| 0 <= a < s.len() ==> s[a] < 64,
    ensures
        s.len() <= 64,
{
    assert forall|a: int| 0 <= a < s.len() implies s[a] >= a by {
        lemma_increasing_at_least_index(s, a);
    }
    if s.len() > 64 {
        assert(s[64] >= 64);
    }
}

proof fn lemma_increasing_at_least_index(s: Seq<u64>, a: int)
    requires
        forall|a: int, b: int| 0 <= a < b < s.len() ==> s[a] < s[b],
        0 <= a < s.len(),
    ensures
        s[a] >= a,
    decreases a,
{
    if a > 0 {
        lemma_increasing_at_least_index(s, a - 1);
    }
}

/// The lowest set bit is the one set bit that has nothing set below it.
pub proof fn lemma_lowest_is_unique(x: u64, l: u64)
    requires
        is_set(x, l),
        forall|j: u64| j < l ==> !is_set(x, j),
    ensures
        lowest(x) == l,
{
    lemma_bitwise_members();
    lemma_lowest(x);
}

/// Taking a member out of a set leaves one member less.
pub proof fn lemma_popcount_clear(x: u64, s: u64)
    requires
        is_set(x, s),
    ensures
        popcount(x & !(1u64 << s)) + 1 == popcount(x),
    decreases x,
{
    lemma_bitwise_members();
    lemma_lowest(x);
    let l = lowest(x);
    let y = x & !(1u64 << s);
    assert forall|j: u64| is_set(y, j) <==> is_set(x, j) && j != s by {
        if j < 64 {
            assert(is_set(!(1u64 << s), j) <==> !is_set(1u64 << s, j));
        }
    }
    if s == l {
        assert(y == drop_lowest(x));
    } else {
        assert(is_set(y, l));
        lemma_lowest_is_unique(y, l);
        lemma_lowest(y);
        let rest = drop_lowest(x);
        let cleared = rest & !(1u64 << s);
        assert forall|j: u64| j < 64 implies (is_set(drop_lowest(y), j) <==> is_set(cleared, j)) by {
            assert(is_set(!(1u64 << s), j) <==> !is_set(1u64 << s, j));
        }
        lemma_same_members(drop_lowest(y), cleared);
        lemma_popcount_clear(rest, s);
    }
}

/// Putting a new member into a set makes one member more.
pub proof fn lemma_popcount_set(x: u64, s: u64)
    requires
        s < 64,
        !is_set(x, s),
    ensures
        popcount(x | (1u64 << s)) == popcount(x) + 1,
{
    lemma_bitwise_members();
    let y = x | (1u64 << s);
    assert forall|j: u64| j < 64 implies (is_set(y & !(1u64 << s), j) <==> is_set(x, j)) by {
        assert(is_set(!(1u64 << s), j) <==> !is_set(1u64 << s, j));
    }
    lemma_same_members(y & !(1u64 << s), x);
    lemma_popcount_clear(y, s);
}

/// Stepping through the subsets of `mask` in rising order: from a subset `s`
/// that is not the last, the next one is above `s` and no subset lies between.
pub proof fn lemma_next_subset(s: u64, t: u64, mask: u64)
    by (bit_vector)
    requires
        s & !mask == 0,
        t & !mask == 0,
        s < t,
    ensures
        (s | !mask) != 0xFFFF_FFFF_FFFF_FFFFu64,
        (((s | !mask) + 1) as u64) & mask <= t,
        (((s | !mask) + 1) as u64) & mask > s,
        ((((s | !mask) + 1) as u64) & mask) & !mask == 0,
{
}

/// What holds of a word cut down to a mask, and of the step from one subset
/// of a mask to the next.
pub proof fn lemma_subset_facts(x: u64, mask: u64)
    by (bit_vector)
    ensures
        (x & mask) & !mask == 0,
        (x & mask) & mask == x & mask,
        0u64 & !mask == 0,
        x & !mask == 0 ==> x & mask == x,
        x & !mask == 0 ==> x <= mask,
        x & !mask == 0 && (x | !mask) != 0xFFFF_FFFF_FFFF_FFFFu64 ==> (((x | !mask) + 1) as u64)
            & mask > x && ((((x | !mask) + 1) as u64) & mask) & !mask == 0,
        x & !mask == 0 ==> ((x | !mask) == 0xFFFF_FFFF_FFFF_FFFFu64 <==> x == mask),
{
}

} // verus!
