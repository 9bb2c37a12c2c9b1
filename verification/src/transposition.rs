//! The transposition table: a direct-mapped cache of search results, one slot
//! for each fingerprint class modulo the capacity. A slot holds the full
//! fingerprint beside the entry, and a probe answers only for that fingerprint.

use crate::moves::Move;
use vstd::prelude::*;

verus! {

/// What a stored score says about the true value of the position.
#[derive(Copy, Clone, PartialEq, Eq, Structural, Debug)]
pub enum NodeType {
    /// The score is the true value.
    Exact,
    /// The true value is at least the score.
    Lower,
    /// The true value is at most the score.
    Upper,
}

/// A search result as the table keeps it.
#[derive(Copy, Clone, Debug)]
pub struct TTEntry {
    pub score: i32,
    pub best_move: Move,
    pub depth: i32,
    pub node_type: NodeType,
}

/// The contents of a table: for each slot the fingerprint and entry it
/// holds, if any.
pub type Slots = Seq<Option<(u64, TTEntry)>>;

/// The slot of fingerprint `hash` in a table of `capacity` slots.
pub open spec fn slot_of(hash: u64, capacity: nat) -> int {
    (hash as int) % (capacity as int)
}

/// What a probe for `hash` finds in `slots`: the entry in the slot of
/// `hash`, when that slot was filled under `hash` itself.
pub open spec fn probe_slots(slots: Slots, hash: u64) -> Option<TTEntry> {
    match slots[slot_of(hash, slots.len())] {
        Some((key, entry)) => if key == hash {
            Some(entry)
        } else {
            None
        },
        None => None,
    }
}

/// `slots` after `entry` is stored under `hash`: the slot of `hash` holds
/// both, whatever it held before.
pub open spec fn store_slots(slots: Slots, hash: u64, entry: TTEntry) -> Slots {
    slots.update(slot_of(hash, slots.len()), Some((hash, entry)))
}

/// The number of bytes that one slot is counted as when a size in
/// mebibytes is turned into a capacity.
pub const SLOT_BYTES: usize = 32;

/// The default size of a table in mebibytes.
pub const DEFAULT_SIZE_MB: usize = 16;

/// The usage of a table.
#[derive(Copy, Clone, Debug)]
pub struct TTStats {
    pub total_entries: usize,
    pub used_entries: usize,
    /// The filled slots in hundredths of all slots, rounded down.
    pub usage_percent: usize,
}

/// A transposition table of fixed capacity.
pub struct TranspositionTable {
    table: Vec<Option<(u64, TTEntry)>>,
    size: usize,
}

impl View for TranspositionTable {
    type V = Slots;

    closed spec fn view(&self) -> Slots {
        self.table@
    }
}

impl TranspositionTable {
    /// The table has as many slots as it says, and at least one.
    pub closed spec fn wf(&self) -> bool {
        self.size == self.table@.len() && self.size > 0
    }

    /// The number of slots.
    pub closed spec fn capacity(&self) -> nat {
        self.size as nat
    }

    /// An empty table of the default size.
    pub fn new() -> (tt: TranspositionTable)
        ensures
            tt.wf(),
            tt.capacity() == DEFAULT_SIZE_MB * 1024 * 1024 / (SLOT_BYTES as int),
            tt@.len() == tt.capacity(),
            forall|i: int| 0 <= i < tt@.len() ==> tt@[i].is_none(),
    {
        TranspositionTable::with_size(DEFAULT_SIZE_MB)
    }

    /// An empty table of `size_mb` mebibytes: one slot for every
    /// `SLOT_BYTES` bytes, and one slot when that comes to none.
    pub fn with_size(size_mb: usize) -> (tt: TranspositionTable)
        requires
            size_mb * 1024 * 1024 <= usize::MAX,
        ensures
            tt.wf(),
            tt.capacity() == if size_mb == 0 {
                1
            } else {
                size_mb * 1024 * 1024 / (SLOT_BYTES as int)
            },
            tt@.len() == tt.capacity(),
            forall|i: int| 0 <= i < tt@.len() ==> tt@[i].is_none(),
    {
        let bytes = size_mb * 1024 * 1024;
        let num_entries = if bytes / SLOT_BYTES == 0 {
            1
        } else {
            bytes / SLOT_BYTES
        };
        let mut table: Vec<Option<(u64, TTEntry)>> = Vec::new();
        let mut i: usize = 0;
        while i < num_entries
            invariant
                i <= num_entries,
                table@.len() == i,
                forall|k: int| 0 <= k < i ==> table@[k].is_none(),
            decreases num_entries - i,
        {
            table.push(None);
            i += 1;
        }
        TranspositionTable { table, size: num_entries }
    }

    /// The slot of fingerprint `hash`: `hash` modulo the capacity.
    pub fn hash_index(&self, hash: u64) -> (index: usize)
        requires
            self.wf(),
        ensures
            index == slot_of(hash, self.capacity()),
            index < self.capacity(),
    {
        (hash % (self.size as u64)) as usize
    }

    /// The entry stored under `hash`, if the slot of `hash` holds one that
    /// was stored under `hash`.
    pub fn probe(&self, hash: u64) -> (found: Option<TTEntry>)
        requires
            self.wf(),
        ensures
            found == probe_slots(self@, hash),
    {
        let index = self.hash_index(hash);
        match self.table[index] {
            Some((key, entry)) => if key == hash {
                Some(entry)
            } else {
                None
            },
            None => None,
        }
    }

    /// Stores `entry` under `hash`, over whatever the slot held.
    pub fn store(&mut self, hash: u64, entry: TTEntry)
        requires
            old(self).wf(),
        ensures
            final(self).wf(),
            final(self).capacity() == old(self).capacity(),
            final(self)@ == store_slots(old(self)@, hash, entry),
    {
        let index = self.hash_index(hash);
        self.table[index] = Some((hash, entry));
    }

    /// Empties every slot.
    pub fn clear(&mut self)
        requires
            old(self).wf(),
        ensures
            final(self).wf(),
            final(self).capacity() == old(self).capacity(),
            final(self)@.len() == old(self)@.len(),
            forall|i: int| 0 <= i < final(self)@.len() ==> final(self)@[i].is_none(),
    {
        let n = self.size;
        let mut i: usize = 0;
        while i < n
            invariant
                n == self.size,
                self.wf(),
                self.size == old(self).size,
                i <= n,
                forall|k: int| 0 <= k < i ==> self.table@[k].is_none(),
            decreases n - i,
        {
            self.table[i] = None;
            i += 1;
        }
    }

    /// The number of slots.
    pub fn size(&self) -> (n: usize)
        ensures
            n == self.capacity(),
    {
        self.size
    }

    /// How many slots there are and how many are filled.
    pub fn stats(&self) -> (stats: TTStats)
        requires
            self.wf(),
        ensures
            stats.total_entries == self.capacity(),
            stats.used_entries == filled_among(self@, self@.len()),
            stats.used_entries <= stats.total_entries,
            stats.usage_percent == stats.used_entries * 100 / (stats.total_entries as int),
    {
        let n = self.size;
        let mut used: usize = 0;
        let mut i: usize = 0;
        while i < n
            invariant
                n == self.size,
                self.wf(),
                i <= n,
                used == filled_among(self.table@, i as nat),
                used <= i,
            decreases n - i,
        {
            if self.table[i].is_some() {
                used += 1;
            }
            i += 1;
        }
        assert((used as int) * 100 / (n as int) <= 100) by (nonlinear_arith)
            requires
                0 <= used <= n,
                n > 0,
        ;
        let percent = ((used as u128) * 100 / (n as u128)) as usize;
        TTStats { total_entries: n, used_entries: used, usage_percent: percent }
    }
}

/// The number of filled slots among the first `n`.
pub open spec fn filled_among(slots: Slots, n: nat) -> nat
    decreases n,
{
    if n == 0 {
        0
    } else {
        filled_among(slots, (n - 1) as nat) + if slots[n - 1].is_some() {
            1nat
        } else {
            0nat
        }
    }
}

/// A probe under the fingerprint that an entry was stored under finds that
/// entry: its score, move, depth and bound kind are those that were stored.
pub proof fn lemma_probe_after_store(slots: Slots, hash: u64, entry: TTEntry)
    requires
        slots.len() > 0,
    ensures
        probe_slots(store_slots(slots, hash, entry), hash) == Some(entry),
{
}

/// A store under one fingerprint leaves the answer for every fingerprint of
/// another slot as it was.
pub proof fn lemma_store_keeps_other_slots(slots: Slots, hash: u64, entry: TTEntry, other: u64)
    requires
        slots.len() > 0,
        slot_of(other, slots.len()) != slot_of(hash, slots.len()),
    ensures
        probe_slots(store_slots(slots, hash, entry), other) == probe_slots(slots, other),
{
}

} // verus!
