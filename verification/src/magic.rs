//! Sliding-piece attacks by hashed lookup: for each square a relevance mask,
//! a multiplier and a shift that send every subset of the mask to a slot of
//! its own, and in that slot the attack set that the ray walk gives.

use crate::attacks::{
    bishop_ray_attacks, generate_bishop_attacks_slow, generate_rook_attacks_slow, on_board,
    rook_ray_attacks, square_bit, step_bit,
};
use crate::bitset::{lemma_next_subset, lemma_subset_facts, popcount};
use crate::scan::popcnt;
use crate::types::{Bitboard, Square};
use vstd::prelude::*;

verus! {

/// The two kinds of sliding piece that have a table of their own. A queen
/// uses both.
#[derive(Copy, Clone, PartialEq, Eq, Structural, Debug)]
pub enum Slider {
    Bishop,
    Rook,
}

/// The squares of one ray that can block it: every square of the ray but the
/// last one before the edge.
pub open spec fn relevant_ray(r: int, f: int, dr: int, df: int, n: nat) -> u64
    decreases n,
{
    if n == 0 || !on_board(r, f) || !on_board(r + dr, f + df) {
        0
    } else {
        square_bit(r, f) | relevant_ray(r + dr, f + df, dr, df, (n - 1) as nat)
    }
}

/// The blocking squares of the ray that leaves `sq` in direction `(dr, df)`.
pub open spec fn relevant_from(sq: Square, dr: int, df: int) -> u64 {
    relevant_ray(sq.spec_rank() + dr, sq.spec_file() + df, dr, df, 7)
}

/// The relevance mask of a bishop on `sq`.
pub open spec fn bishop_mask(sq: Square) -> u64 {
    relevant_from(sq, 1, 1) | relevant_from(sq, -1, -1) | relevant_from(sq, 1, -1) | relevant_from(
        sq,
        -1,
        1,
    )
}

/// The relevance mask of a rook on `sq`.
pub open spec fn rook_mask(sq: Square) -> u64 {
    relevant_from(sq, 0, 1) | relevant_from(sq, 0, -1) | relevant_from(sq, 1, 0) | relevant_from(
        sq,
        -1,
        0,
    )
}

/// The relevance mask of `kind` on `sq`.
pub open spec fn slider_mask(kind: Slider, sq: Square) -> u64 {
    match kind {
        Slider::Bishop => bishop_mask(sq),
        Slider::Rook => rook_mask(sq),
    }
}

/// What `kind` on `sq` attacks by the ray walk.
pub open spec fn slider_ray_attacks(kind: Slider, sq: Square, occ: u64) -> u64 {
    match kind {
        Slider::Bishop => bishop_ray_attacks(sq, occ),
        Slider::Rook => rook_ray_attacks(sq, occ),
    }
}

/// The slot, counted from the start of a square's part of the table, that
/// the subset `subset` of the mask hashes to.
pub open spec fn local_slot(subset: u64, magic: u64, shift: u32) -> u64 {
    subset.wrapping_mul(magic) >> (shift as u64)
}

/// What the lookup of one square needs.
#[derive(Copy, Clone, Debug)]
pub struct MagicEntry {
    /// The multiplier.
    pub magic: u64,
    /// The relevance mask.
    pub mask: Bitboard,
    /// 64 less the number of squares in the mask.
    pub shift: u32,
    /// Where the square's part of the table starts.
    pub offset: usize,
}

impl MagicEntry {
    /// The table slot that holds the attack set for occupancy `occ`.
    pub open spec fn slot(self, occ: u64) -> int {
        self.offset + local_slot(occ & self.mask.0, self.magic, self.shift)
    }

    /// The slots that the entry's part of the table has: one for each
    /// number of as many bits as the shift leaves.
    pub open spec fn room(self) -> int {
        (1u64 << ((64 - self.shift) as u64)) as int
    }

    /// The entry is cut to its mask: the shift leaves as many bits as the
    /// mask has squares, and the multiplier sends no two subsets of the mask
    /// with different attack sets to one slot.
    pub open spec fn fitted(self, kind: Slider, sq: Square) -> bool {
        &&& self.shift == 64 - popcount(self.mask.0)
        &&& collision_free(kind, sq, self.mask.0, self.magic, self.shift)
    }

    /// The entry is the one of `kind` on `sq`, and every occupancy finds in
    /// `table` the attack set that the ray walk gives for its relevant part.
    pub open spec fn serves(self, kind: Slider, sq: Square, table: Seq<Bitboard>) -> bool {
        &&& self.mask.0 == slider_mask(kind, sq)
        &&& 44 <= self.shift <= 63
        &&& self.offset + (1u64 << ((64 - self.shift) as u64)) <= table.len()
        &&& forall|occ: u64|
            0 <= #[trigger] self.slot(occ) < table.len() && table[self.slot(occ)].0
                == slider_ray_attacks(kind, sq, occ & self.mask.0)
    }
}

/// The slots that the first `n` entries take together.
pub open spec fn rooms_before(entries: Seq<MagicEntry>, n: int) -> int
    decreases n,
{
    if n <= 0 || n > entries.len() {
        0
    } else {
        rooms_before(entries, n - 1) + entries[n - 1].room()
    }
}

/// The entries of `kind` for the squares in their order are cut to their
/// masks, and their parts lie one after the other in a table of `total`
/// slots and fill it: each part begins where the parts before it end.
#[verifier::opaque]
pub open spec fn packed(kind: Slider, entries: Seq<MagicEntry>, total: int) -> bool {
    &&& forall|i: int|
        0 <= i < entries.len() ==> (#[trigger] entries[i]).fitted(kind, Square(i as u8))
            && entries[i].offset == rooms_before(entries, i)
    &&& total == rooms_before(entries, entries.len() as int)
}

/// An entry added at the end does not change the room that those before it take.
proof fn lemma_rooms_before_push(earlier: Seq<MagicEntry>, entry: MagicEntry, n: int)
    requires
        0 <= n <= earlier.len(),
    ensures
        rooms_before(earlier.push(entry), n) == rooms_before(earlier, n),
    decreases n,
{
    if n > 0 {
        lemma_rooms_before_push(earlier, entry, n - 1);
        assert(earlier.push(entry)[n - 1] == earlier[n - 1]);
    }
}

/// An entry that is cut to its mask and begins where the table ends may
/// follow the entries that are packed into the table.
proof fn lemma_packed_grows(kind: Slider, earlier: Seq<MagicEntry>, total: int, entry: MagicEntry)
    requires
        packed(kind, earlier, total),
        entry.fitted(kind, Square(earlier.len() as u8)),
        entry.offset == total,
    ensures
        packed(kind, earlier.push(entry), total + entry.room()),
{
    reveal(packed);
    let grown = earlier.push(entry);
    let n = earlier.len() as int;
    lemma_rooms_before_push(earlier, entry, n);
    assert forall|i: int| 0 <= i < grown.len() implies (#[trigger] grown[i]).fitted(
        kind,
        Square(i as u8),
    ) && grown[i].offset == rooms_before(grown, i) by {
        lemma_rooms_before_push(earlier, entry, i);
        if i < n {
            assert(grown[i] == earlier[i]);
        }
    }
    assert(grown[n] == entry);
    assert(rooms_before(grown, n + 1) == rooms_before(grown, n) + grown[n].room());
}

/// The lookup tables of both sliding pieces, built once by `init_magics` and
/// read ever after.
pub struct MagicTables {
    pub bishop_magics: Vec<MagicEntry>,
    pub rook_magics: Vec<MagicEntry>,
    pub bishop_table: Vec<Bitboard>,
    pub rook_table: Vec<Bitboard>,
}

impl MagicTables {
    /// Every square has an entry for each kind, and each entry serves its square.
    pub open spec fn wf(self) -> bool {
        &&& self.bishop_magics@.len() == 64
        &&& self.rook_magics@.len() == 64
        &&& forall|i: int|
            0 <= i < 64 ==> (#[trigger] self.bishop_magics@[i]).serves(
                Slider::Bishop,
                Square(i as u8),
                self.bishop_table@,
            )
        &&& forall|i: int|
            0 <= i < 64 ==> (#[trigger] self.rook_magics@[i]).serves(
                Slider::Rook,
                Square(i as u8),
                self.rook_table@,
            )
    }
}

/// Walks the blocking squares of one ray.
fn walk_relevant(r: i8, f: i8, dr: i8, df: i8, n: u8) -> (m: u64)
    requires
        -1 <= r <= 8,
        -1 <= f <= 8,
        -1 <= dr <= 1,
        -1 <= df <= 1,
        n <= 7,
    ensures
        m == relevant_ray(r as int, f as int, dr as int, df as int, n as nat),
    decreases n,
{
    if n == 0 || !(0 <= r && r < 8 && 0 <= f && f < 8) || !(0 <= r + dr && r + dr < 8 && 0 <= f
        + df && f + df < 8) {
        0
    } else {
        step_bit(r, f) | walk_relevant(r + dr, f + df, dr, df, n - 1)
    }
}

/// Walks the blocking squares of the ray that leaves `square` in direction `(dr, df)`.
fn walk_relevant_from(square: Square, dr: i8, df: i8) -> (m: u64)
    requires
        square.valid(),
        -1 <= dr <= 1,
        -1 <= df <= 1,
    ensures
        m == relevant_from(square, dr as int, df as int),
{
    let r = square.rank() as i8;
    let f = square.file() as i8;
    walk_relevant(r + dr, f + df, dr, df, 7)
}

/// The relevance mask of a bishop on `square`: the squares of its diagonals
/// that lie between it and the edge.
pub fn bishop_relevant_mask(square: Square) -> (bb: Bitboard)
    requires
        square.valid(),
    ensures
        bb.0 == bishop_mask(square),
{
    Bitboard(
        walk_relevant_from(square, 1, 1) | walk_relevant_from(square, -1, -1) | walk_relevant_from(
            square,
            1,
            -1,
        ) | walk_relevant_from(square, -1, 1),
    )
}

/// The relevance mask of a rook on `square`: the squares of its rank and
/// file that lie between it and the edge.
pub fn rook_relevant_mask(square: Square) -> (bb: Bitboard)
    requires
        square.valid(),
    ensures
        bb.0 == rook_mask(square),
{
    Bitboard(
        walk_relevant_from(square, 0, 1) | walk_relevant_from(square, 0, -1) | walk_relevant_from(
            square,
            1,
            0,
        ) | walk_relevant_from(square, -1, 0),
    )
}

/// The relevance mask of `kind` on `square`.
pub fn relevant_mask(kind: Slider, square: Square) -> (bb: Bitboard)
    requires
        square.valid(),
    ensures
        bb.0 == slider_mask(kind, square),
{
    match kind {
        Slider::Bishop => bishop_relevant_mask(square),
        Slider::Rook => rook_relevant_mask(square),
    }
}

/// What `kind` on `square` attacks, found by walking its rays.
pub fn slow_attacks(kind: Slider, square: Square, occupied: Bitboard) -> (bb: Bitboard)
    requires
        square.valid(),
    ensures
        bb.0 == slider_ray_attacks(kind, square, occupied.0),
{
    match kind {
        Slider::Bishop => generate_bishop_attacks_slow(square, occupied),
        Slider::Rook => generate_rook_attacks_slow(square, occupied),
    }
}

/// A shifted word is below the power of two that the shift leaves room for.
proof fn lemma_slot_bound(x: u64, shift: u32)
    by (bit_vector)
    requires
        44 <= shift <= 63,
    ensures
        x >> (shift as u64) < 1u64 << ((64 - shift) as u64),
        1u64 << ((64 - shift) as u64) <= 0x10_0000,
        1u64 << ((64 - shift) as u64) >= 2,
{
}

/// The subset of `mask` that follows `subset` when the subsets are counted
/// up as numbers; the empty subset after the last.
pub open spec fn next_subset(subset: u64, mask: u64) -> u64 {
    if (subset | !mask) == 0xFFFF_FFFF_FFFF_FFFFu64 {
        0
    } else {
        (((subset | !mask) + 1) as u64) & mask
    }
}

/// The subset of `mask` with number `k`, counted up from the empty subset.
pub open spec fn nth_subset(mask: u64, k: nat) -> u64
    decreases k,
{
    if k == 0 {
        0
    } else {
        next_subset(nth_subset(mask, (k - 1) as nat), mask)
    }
}

/// Whether the first `n` subsets of `mask`, counted up from the empty
/// subset, are all of them: whether the mask itself, which is the last of
/// its subsets, is among them.
pub open spec fn reaches(mask: u64, n: nat) -> bool {
    exists|k: nat| k < n && #[trigger] nth_subset(mask, k) == mask
}

/// Whether the multiplier `magic` serves `kind` on `square`: no two subsets
/// of `mask` with different attack sets hash to one slot.
#[verifier::opaque]
pub open spec fn collision_free(
    kind: Slider,
    square: Square,
    mask: u64,
    magic: u64,
    shift: u32,
) -> bool {
    forall|s: u64, t: u64|
        s & !mask == 0 && t & !mask == 0 && #[trigger] local_slot(s, magic, shift)
            == #[trigger] local_slot(t, magic, shift) ==> slider_ray_attacks(kind, square, s)
            == slider_ray_attacks(kind, square, t)
}

/// What `kind` on `square` attacks for each subset of `mask` in turn,
/// found by walking the rays: one attack set for each subset, from the
/// empty subset up to the mask itself, with which the list ends.
pub fn subset_attacks(kind: Slider, square: Square, mask: Bitboard) -> (reference: Vec<Bitboard>)
    requires
        square.valid(),
    ensures
        forall|k: int|
            0 <= k < reference@.len() ==> (#[trigger] reference@[k]).0 == slider_ray_attacks(
                kind,
                square,
                nth_subset(mask.0, k as nat),
            ),
        reference@.len() >= 1,
        nth_subset(mask.0, (reference@.len() - 1) as nat) == mask.0,
        forall|k: nat| k + 1 < reference@.len() ==> #[trigger] nth_subset(mask.0, k) != mask.0,
{
    let mut reference: Vec<Bitboard> = Vec::new();
    let mut subset: u64 = 0;
    let mut done = false;
    proof {
        lemma_subset_facts(0, mask.0);
    }
    while !done
        invariant
            square.valid(),
            subset & !mask.0 == 0,
            !done ==> subset == nth_subset(mask.0, reference@.len()),
            forall|k: int|
                0 <= k < reference@.len() ==> (#[trigger] reference@[k]).0 == slider_ray_attacks(
                    kind,
                    square,
                    nth_subset(mask.0, k as nat),
                ),
            done ==> reference@.len() >= 1 && nth_subset(
                mask.0,
                (reference@.len() - 1) as nat,
            ) == mask.0,
            forall|k: nat|
                k + (if done { 1int } else { 0int }) < reference@.len() ==> #[trigger] nth_subset(
                    mask.0,
                    k,
                ) != mask.0,
        decreases 0xFFFF_FFFF_FFFF_FFFFu64 - subset, (if done { 0int } else { 1int }),
    {
        reference.push(slow_attacks(kind, square, Bitboard(subset)));
        proof {
            lemma_subset_facts(subset, mask.0);
        }
        if (subset | !mask.0) == 0xFFFF_FFFF_FFFF_FFFFu64 {
            done = true;
        } else {
            subset = ((subset | !mask.0) + 1) & mask.0;
        }
    }
    reference
}

/// Fills the last part of `table`, from `offset` on, for `kind` on `square`
/// with multiplier `magic`: every subset of `mask` gets its attack set, taken
/// from `reference`, in its slot. Gives up, and says so, exactly when two
/// subsets with different attack sets meet in one slot, or when `reference`
/// is too short to hold every subset. What lies before `offset` stays. A
/// slot counts as filled when its stamp in `stamps` is `round`; the stamps
/// have to be older on entry.
pub fn fill_slots(
    kind: Slider,
    square: Square,
    mask: Bitboard,
    magic: u64,
    shift: u32,
    reference: &Vec<Bitboard>,
    table: &mut Vec<Bitboard>,
    offset: usize,
    stamps: &mut Vec<u64>,
    round: u64,
) -> (ok: bool)
    requires
        square.valid(),
        44 <= shift <= 63,
        offset + (1u64 << ((64 - shift) as u64)) == old(table)@.len(),
        old(stamps)@.len() == (1u64 << ((64 - shift) as u64)),
        forall|k: int| 0 <= k < old(stamps)@.len() ==> old(stamps)@[k] < round,
        forall|k: int|
            0 <= k < reference@.len() ==> (#[trigger] reference@[k]).0 == slider_ray_attacks(
                kind,
                square,
                nth_subset(mask.0, k as nat),
            ),
    ensures
        final(table)@.len() == old(table)@.len(),
        forall|k: int| 0 <= k < offset ==> final(table)@[k] == old(table)@[k],
        final(stamps)@.len() == old(stamps)@.len(),
        forall|k: int| 0 <= k < final(stamps)@.len() ==> final(stamps)@[k] <= round,
        ok ==> forall|occ: u64|
            (#[trigger] final(table)@[offset + local_slot(occ & mask.0, magic, shift)]).0
                == slider_ray_attacks(kind, square, occ & mask.0),
        ok <==> reaches(mask.0, reference@.len() as nat) && collision_free(
            kind,
            square,
            mask.0,
            magic,
            shift,
        ),
{
    proof {
        lemma_slot_bound(0, shift);
    }
    let size: usize = (1u64 << ((64 - shift) as u64)) as usize;
    let total = table.len();
    let known = reference.len();
    let mut subset: u64 = 0;
    let mut count: usize = 0;
    let mut done = false;
    let ghost mut owner: Seq<u64> = Seq::new(size as nat, |j: int| 0u64);
    proof {
        lemma_subset_facts(0, mask.0);
    }
    while !done
        invariant
            square.valid(),
            known == reference@.len(),
            count <= known,
            !done ==> subset == nth_subset(mask.0, count as nat),
            forall|k: int|
                0 <= k < reference@.len() ==> (#[trigger] reference@[k]).0 == slider_ray_attacks(
                    kind,
                    square,
                    nth_subset(mask.0, k as nat),
                ),
            44 <= shift <= 63,
            size == 1u64 << ((64 - shift) as u64),
            offset + size == total,
            total == table@.len(),
            table@.len() == old(table)@.len(),
            stamps@.len() == size,
            stamps@.len() == old(stamps)@.len(),
            forall|k: int| 0 <= k < stamps@.len() ==> stamps@[k] <= round,
            subset & !mask.0 == 0,
            forall|k: int| 0 <= k < offset ==> table@[k] == old(table)@[k],
            forall|t: u64|
                t & !mask.0 == 0 && (t < subset || (done && t == subset)) ==> stamps@[(
                #[trigger] local_slot(t, magic, shift)) as int] == round && table@[offset
                    + local_slot(t, magic, shift)].0 == slider_ray_attacks(kind, square, t),
            done ==> (subset | !mask.0) == 0xFFFF_FFFF_FFFF_FFFFu64,
            done ==> count >= 1 && nth_subset(mask.0, (count - 1) as nat) == mask.0,
            forall|k: nat|
                k + (if done { 1int } else { 0int }) < count ==> #[trigger] nth_subset(mask.0, k)
                    != mask.0,
            owner.len() == size,
            forall|j: int|
                0 <= j < size && stamps@[j] == round ==> (#[trigger] owner[j]) & !mask.0 == 0
                    && local_slot(owner[j], magic, shift) == j && table@[offset + j].0
                    == slider_ray_attacks(kind, square, owner[j]),
        decreases 0xFFFF_FFFF_FFFF_FFFFu64 - subset, (if done { 0int } else { 1int }),
    {
        proof {
            lemma_slot_bound(subset.wrapping_mul(magic), shift);
            lemma_subset_facts(subset, mask.0);
        }
        let hashed: u64 = subset.wrapping_mul(magic) >> (shift as u64);
        assert(hashed == local_slot(subset, magic, shift));
        assert(hashed < size);
        let slot: usize = hashed as usize;
        proof {
            assert forall|t: u64| t & !mask.0 == 0 && t < subset implies #[trigger] local_slot(
                t,
                magic,
                shift,
            ) < size by {
                lemma_slot_bound(t.wrapping_mul(magic), shift);
            }
        }
        if count >= known {
            return false;
        }
        let attacks = reference[count];
        count += 1;
        if stamps[slot] == round {
            if table[offset + slot].0 != attacks.0 {
                proof {
                    reveal(collision_free);
                    let first = owner[slot as int];
                    assert(local_slot(first, magic, shift) == local_slot(subset, magic, shift));
                    assert(slider_ray_attacks(kind, square, first) != slider_ray_attacks(
                        kind,
                        square,
                        subset,
                    ));
                }
                return false;
            }
        } else {
            table[offset + slot] = attacks;
            stamps[slot] = round;
            proof {
                owner = owner.update(slot as int, subset);
            }
        }
        if (subset | !mask.0) == 0xFFFF_FFFF_FFFF_FFFFu64 {
            done = true;
        } else {
            let next: u64 = ((subset | !mask.0) + 1) & mask.0;
            proof {
                lemma_subset_facts(subset, mask.0);
                assert forall|t: u64| t & !mask.0 == 0 && t < next implies t <= subset by {
                    if subset < t {
                        lemma_next_subset(subset, t, mask.0);
                    }
                }
            }
            subset = next;
        }
    }
    proof {
        assert forall|occ: u64|
            (#[trigger] table@[offset + local_slot(occ & mask.0, magic, shift)]).0
                == slider_ray_attacks(kind, square, occ & mask.0) by {
            let t = occ & mask.0;
            lemma_subset_facts(occ, mask.0);
            if subset < t {
                lemma_next_subset(subset, t, mask.0);
            }
        }
        assert forall|s: u64, t: u64|
            s & !mask.0 == 0 && t & !mask.0 == 0 && #[trigger] local_slot(s, magic, shift)
                == #[trigger] local_slot(t, magic, shift) implies slider_ray_attacks(
            kind,
            square,
            s,
        ) == slider_ray_attacks(kind, square, t) by {
            lemma_subset_facts(s, mask.0);
            lemma_subset_facts(t, mask.0);
            assert(table@[offset + local_slot(s & mask.0, magic, shift)].0 == slider_ray_attacks(
                kind,
                square,
                s & mask.0,
            ));
            assert(table@[offset + local_slot(t & mask.0, magic, shift)].0 == slider_ray_attacks(
                kind,
                square,
                t & mask.0,
            ));
        }
        assert(nth_subset(mask.0, (count - 1) as nat) == mask.0);
        reveal(collision_free);
    }
    true
}

/// `rand::random::<u64>()`: a word drawn at random. Nothing is known of it.
#[verifier::external_body]
fn random_u64() -> u64 {
    rand::random::<u64>()
}

/// The most candidates that `init_magics` draws for one square.
pub const MAGIC_ATTEMPTS: u64 = 100_000_000;

/// Walks the rays once for every subset of `mask`, then draws sparse random
/// multipliers, at most `attempts` of them, until one sends every subset to
/// a slot that holds its attack set, and returns it with the last part of
/// `table` filled for it. A candidate whose
/// product with the mask has fewer than six bits set is passed over. What
/// lies before `offset` stays, whatever comes back.
pub fn find_magic(
    kind: Slider,
    square: Square,
    mask: Bitboard,
    shift: u32,
    table: &mut Vec<Bitboard>,
    offset: usize,
    attempts: u64,
) -> (found: Option<u64>)
    requires
        square.valid(),
        44 <= shift <= 63,
        offset + (1u64 << ((64 - shift) as u64)) == old(table)@.len(),
    ensures
        final(table)@.len() == old(table)@.len(),
        forall|k: int| 0 <= k < offset ==> final(table)@[k] == old(table)@[k],
        found matches Some(magic) ==> forall|occ: u64|
            (#[trigger] final(table)@[offset + local_slot(occ & mask.0, magic, shift)]).0
                == slider_ray_attacks(kind, square, occ & mask.0),
        found matches Some(magic) ==> collision_free(kind, square, mask.0, magic, shift)
            && popcount(magic.wrapping_mul(mask.0)) >= 6,
        attempts == 0 ==> found.is_none(),
{
    let reference = subset_attacks(kind, square, mask);
    assert(reaches(mask.0, reference@.len() as nat)) by {
        let last = (reference@.len() - 1) as nat;
        assert(nth_subset(mask.0, last) == mask.0);
    }
    proof {
        lemma_slot_bound(0, shift);
    }
    let size: usize = (1u64 << ((64 - shift) as u64)) as usize;
    let mut stamps: Vec<u64> = Vec::new();
    let mut k: usize = 0;
    while k < size
        invariant
            k <= size,
            stamps@.len() == k,
            forall|j: int| 0 <= j < k ==> stamps@[j] == 0,
        decreases size - k,
    {
        stamps.push(0);
        k += 1;
    }
    let mut tried: u64 = 0;
    while tried < attempts
        invariant
            square.valid(),
            stamps@.len() == (1u64 << ((64 - shift) as u64)),
            forall|j: int| 0 <= j < stamps@.len() ==> stamps@[j] <= tried,
            forall|k: int|
                0 <= k < reference@.len() ==> (#[trigger] reference@[k]).0 == slider_ray_attacks(
                    kind,
                    square,
                    nth_subset(mask.0, k as nat),
                ),
            44 <= shift <= 63,
            reaches(mask.0, reference@.len() as nat),
            table@.len() == old(table)@.len(),
            offset + (1u64 << ((64 - shift) as u64)) == table@.len(),
            forall|k: int| 0 <= k < offset ==> table@[k] == old(table)@[k],
        decreases attempts - tried,
    {
        let candidate = random_u64() & random_u64() & random_u64();
        tried += 1;
        if popcnt(candidate.wrapping_mul(mask.0)) >= 6 {
            if fill_slots(
                kind,
                square,
                mask,
                candidate,
                shift,
                &reference,
                table,
                offset,
                &mut stamps,
                tried,
            ) {
                return Some(candidate);
            }
        }
    }
    None
}

/// Builds the entries and the table of `kind` for all 64 squares, drawing at
/// most `attempts` candidates for each. `None` when some square found no
/// multiplier among them. The table that is built has one part for each
/// square, in the order of the squares, with a slot for every subset of the
/// square's mask.
pub fn init_slider(kind: Slider, attempts: u64) -> (built: Option<(Vec<MagicEntry>, Vec<Bitboard>)>)
    ensures
        built matches Some((entries, table)) ==> entries@.len() == 64 && forall|i: int|
            0 <= i < 64 ==> (#[trigger] entries@[i]).serves(kind, Square(i as u8), table@),
        built matches Some((entries, table)) ==> packed(kind, entries@, table@.len() as int),
        attempts == 0 ==> built.is_none(),
{
    let mut entries: Vec<MagicEntry> = Vec::new();
    let mut table: Vec<Bitboard> = Vec::new();
    let mut sq: u8 = 0;
    proof {
        reveal(packed);
    }
    while sq < 64
        invariant
            sq <= 64,
            entries@.len() == sq,
            forall|i: int|
                0 <= i < sq ==> (#[trigger] entries@[i]).serves(kind, Square(i as u8), table@),
            packed(kind, entries@, table@.len() as int),
            attempts == 0 ==> sq == 0,
        decreases 64 - sq,
    {
        let square = Square(sq);
        let mask = relevant_mask(kind, square);
        let bits = mask.count();
        if bits < 1 || bits > 20 {
            return None;
        }
        let shift: u32 = 64 - bits;
        proof {
            lemma_slot_bound(0, shift);
        }
        let size: usize = (1u64 << (bits as u64)) as usize;
        let offset = table.len();
        if size > usize::MAX - offset {
            return None;
        }
        let ghost before = table@;
        let mut k: usize = 0;
        while k < size
            invariant
                k <= size,
                offset + size <= usize::MAX,
                table@.len() == offset + k,
                forall|j: int| 0 <= j < offset ==> table@[j] == before[j],
            decreases size - k,
        {
            table.push(Bitboard(0));
            k += 1;
        }
        match find_magic(kind, square, mask, shift, &mut table, offset, attempts) {
            None => {
                return None;
            },
            Some(magic) => {
                let entry = MagicEntry { magic, mask, shift, offset };
                proof {
                    assert forall|occ: u64|
                        0 <= #[trigger] entry.slot(occ) < table@.len() && table@[entry.slot(
                            occ,
                        )].0 == slider_ray_attacks(kind, square, occ & entry.mask.0) by {
                        lemma_slot_bound((occ & mask.0).wrapping_mul(magic), shift);
                    }
                    assert forall|i: int| 0 <= i < sq implies (#[trigger] entries@[i]).serves(
                        kind,
                        Square(i as u8),
                        table@,
                    ) by {
                        let e = entries@[i];
                        assert(e.serves(kind, Square(i as u8), before));
                        assert forall|occ: u64|
                            0 <= #[trigger] e.slot(occ) < table@.len() && table@[e.slot(occ)].0
                                == slider_ray_attacks(kind, Square(i as u8), occ & e.mask.0) by {
                            assert(0 <= e.slot(occ) < before.len());
                        }
                    }
                }
                proof {
                    assert(entry.room() == size);
                    lemma_packed_grows(kind, entries@, offset as int, entry);
                }
                entries.push(entry);
            },
        }
        sq += 1;
    }
    Some((entries, table))
}

/// Builds the lookup tables of both sliding pieces. `None` when some square
/// found no multiplier within `MAGIC_ATTEMPTS` draws.
pub fn init_magics() -> (tables: Option<MagicTables>)
    ensures
        tables matches Some(t) ==> t.wf(),
        tables matches Some(t) ==> packed(
            Slider::Bishop,
            t.bishop_magics@,
            t.bishop_table@.len() as int,
        ) && packed(Slider::Rook, t.rook_magics@, t.rook_table@.len() as int),
{
    match init_slider(Slider::Bishop, MAGIC_ATTEMPTS) {
        None => None,
        Some((bishop_magics, bishop_table)) => match init_slider(Slider::Rook, MAGIC_ATTEMPTS) {
            None => None,
            Some((rook_magics, rook_table)) => Some(
                MagicTables { bishop_magics, rook_magics, bishop_table, rook_table },
            ),
        },
    }
}

/// The attack set in the slot that `occupied` hashes to by `entry`.
fn lookup(entry: &MagicEntry, table: &Vec<Bitboard>, occupied: Bitboard) -> (bb: Bitboard)
    requires
        44 <= entry.shift <= 63,
        0 <= entry.slot(occupied.0) < table@.len(),
    ensures
        bb == table@[entry.slot(occupied.0)],
{
    let relevant = occupied.0 & entry.mask.0;
    proof {
        lemma_slot_bound(relevant.wrapping_mul(entry.magic), entry.shift);
    }
    let total = table.len();
    let local: u64 = relevant.wrapping_mul(entry.magic) >> (entry.shift as u64);
    let index = local as usize + entry.offset;
    table[index]
}

/// What a bishop on `square` attacks when `occupied` is occupied, by lookup.
pub fn bishop_attacks_magic(tables: &MagicTables, square: Square, occupied: Bitboard) -> (bb:
    Bitboard)
    requires
        tables.wf(),
        square.valid(),
    ensures
        bb.0 == bishop_ray_attacks(square, occupied.0),
{
    let entry = &tables.bishop_magics[square.0 as usize];
    assert(entry.serves(Slider::Bishop, Square(square.0 as int as u8), tables.bishop_table@));
    proof {
        lemma_mask_decides(Slider::Bishop, square, occupied.0);
    }
    lookup(entry, &tables.bishop_table, occupied)
}

/// What a rook on `square` attacks when `occupied` is occupied, by lookup.
pub fn rook_attacks_magic(tables: &MagicTables, square: Square, occupied: Bitboard) -> (bb:
    Bitboard)
    requires
        tables.wf(),
        square.valid(),
    ensures
        bb.0 == rook_ray_attacks(square, occupied.0),
{
    let entry = &tables.rook_magics[square.0 as usize];
    assert(entry.serves(Slider::Rook, Square(square.0 as int as u8), tables.rook_table@));
    proof {
        lemma_mask_decides(Slider::Rook, square, occupied.0);
    }
    lookup(entry, &tables.rook_table, occupied)
}

/// What a queen on `square` attacks when `occupied` is occupied, by lookup.
pub fn queen_attacks_magic(tables: &MagicTables, square: Square, occupied: Bitboard) -> (bb:
    Bitboard)
    requires
        tables.wf(),
        square.valid(),
    ensures
        bb.0 == crate::attacks::queen_ray_attacks(square, occupied.0),
{
    Bitboard(
        bishop_attacks_magic(tables, square, occupied).0 | rook_attacks_magic(
            tables,
            square,
            occupied,
        ).0,
    )
}

/// In well-formed tables the slot of every subset of a square's relevance
/// mask holds what the ray walk gives for that subset.
pub proof fn lemma_lookup_is_ray_walk(tables: MagicTables, kind: Slider, sq: Square, subset: u64)
    requires
        tables.wf(),
        sq.valid(),
        subset & !slider_mask(kind, sq) == 0,
    ensures
        kind == Slider::Bishop ==> tables.bishop_table@[tables.bishop_magics@[sq.0 as int].slot(
            subset,
        )].0 == bishop_ray_attacks(sq, subset),
        kind == Slider::Rook ==> tables.rook_table@[tables.rook_magics@[sq.0 as int].slot(
            subset,
        )].0 == rook_ray_attacks(sq, subset),
{
    lemma_subset_facts(subset, slider_mask(kind, sq));
    assert(Square(sq.0 as int as u8) == sq);
    if kind == Slider::Bishop {
        let e = tables.bishop_magics@[sq.0 as int];
        assert(e.serves(Slider::Bishop, sq, tables.bishop_table@));
        assert(0 <= e.slot(subset));
    } else {
        let e = tables.rook_magics@[sq.0 as int];
        assert(e.serves(Slider::Rook, sq, tables.rook_table@));
        assert(0 <= e.slot(subset));
    }
}

/// Facts about a single square's bit inside a mask.
proof fn lemma_bit_in_mask(b: u64, rest: u64, occ: u64, mask: u64)
    by (bit_vector)
    ensures
        b | 0 == b,
        (b | rest) & !mask == 0 ==> b & !mask == 0 && rest & !mask == 0,
        b & !mask == 0 ==> ((occ & mask) & b != 0 <==> occ & b != 0),
        b & !(b | rest) == 0,
        rest & !(b | rest) == 0,
        b & !mask == 0 && mask & !rest == 0 ==> b & !rest == 0,
{
}

/// A ray comes out the same when the occupancy is cut down to any mask that
/// holds the ray's blocking squares.
pub proof fn lemma_ray_ignores_outside(r: int, f: int, dr: int, df: int, occ: u64, mask: u64, n: nat)
    requires
        relevant_ray(r, f, dr, df, n) & !mask == 0,
    ensures
        crate::attacks::ray(r, f, dr, df, occ, n) == crate::attacks::ray(r, f, dr, df, occ & mask, n),
    decreases n,
{
    if n == 0 || !on_board(r, f) {
    } else {
        let b = square_bit(r, f);
        if !on_board(r + dr, f + df) {
            lemma_bit_in_mask(b, 0, occ, mask);
            assert(crate::attacks::ray(r + dr, f + df, dr, df, occ, (n - 1) as nat) == 0);
            assert(crate::attacks::ray(r + dr, f + df, dr, df, occ & mask, (n - 1) as nat) == 0);
        } else {
            let rest = relevant_ray(r + dr, f + df, dr, df, (n - 1) as nat);
            lemma_bit_in_mask(b, rest, occ, mask);
            lemma_ray_ignores_outside(r + dr, f + df, dr, df, occ, mask, (n - 1) as nat);
        }
    }
}

/// What a sliding piece attacks depends on the occupancy only through the
/// squares of its relevance mask.
pub proof fn lemma_mask_decides(kind: Slider, sq: Square, occ: u64)
    requires
        sq.valid(),
    ensures
        slider_ray_attacks(kind, sq, occ & slider_mask(kind, sq)) == slider_ray_attacks(
            kind,
            sq,
            occ,
        ),
{
    let mask = slider_mask(kind, sq);
    let r = sq.spec_rank() as int;
    let f = sq.spec_file() as int;
    match kind {
        Slider::Bishop => {
            let a = relevant_from(sq, 1, 1);
            let b = relevant_from(sq, -1, -1);
            let c = relevant_from(sq, 1, -1);
            let d = relevant_from(sq, -1, 1);
            lemma_union_of_four(a, b, c, d);
            lemma_ray_ignores_outside(r + 1, f + 1, 1, 1, occ, mask, 7);
            lemma_ray_ignores_outside(r - 1, f - 1, -1, -1, occ, mask, 7);
            lemma_ray_ignores_outside(r + 1, f - 1, 1, -1, occ, mask, 7);
            lemma_ray_ignores_outside(r - 1, f + 1, -1, 1, occ, mask, 7);
        },
        Slider::Rook => {
            let a = relevant_from(sq, 0, 1);
            let b = relevant_from(sq, 0, -1);
            let c = relevant_from(sq, 1, 0);
            let d = relevant_from(sq, -1, 0);
            lemma_union_of_four(a, b, c, d);
            lemma_ray_ignores_outside(r, f + 1, 0, 1, occ, mask, 7);
            lemma_ray_ignores_outside(r, f - 1, 0, -1, occ, mask, 7);
            lemma_ray_ignores_outside(r + 1, f, 1, 0, occ, mask, 7);
            lemma_ray_ignores_outside(r - 1, f, -1, 0, occ, mask, 7);
        },
    }
}

/// Each of four words lies inside their union.
proof fn lemma_union_of_four(a: u64, b: u64, c: u64, d: u64)
    by (bit_vector)
    ensures
        a & !(a | b | c | d) == 0,
        b & !(a | b | c | d) == 0,
        c & !(a | b | c | d) == 0,
        d & !(a | b | c | d) == 0,
{
}

} // verus!
