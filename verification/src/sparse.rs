//! The sparse weight matrix as the engine reads it: entity hashes, hash
//! occurrence counts and weighted entries, all addressed by dense index.

use vstd::prelude::*;

verus! {

/// Hash that marks an unused entity slot.
pub const EMPTY_HASH: i64 = -1;

/// One weighted contribution of entity `col`'s current vector to entity `row`'s next vector.
/// `value` is the bit pattern of a single-precision weight.
#[derive(Clone, Copy, Debug, PartialEq, Eq)]
pub struct Entry {
    pub row: u32,
    pub col: u32,
    pub value: u32,
}

/// Whether every entry addresses entities below `entities_count`.
pub open spec fn entries_in_range(entries: Seq<Entry>, entities_count: nat) -> bool {
    forall|k: int|
        0 <= k < entries.len() ==> (#[trigger] entries[k]).row < entities_count
            && entries[k].col < entities_count
}

/// A row-normalized sparse matrix, read once into plain values.
#[derive(Debug)]
pub struct SparseSource {
    /// Stable hash of each entity index; `EMPTY_HASH` for an unused slot.
    pub hashes: Vec<i64>,
    /// Occurrence count of each entity's hash.
    pub occurrences: Vec<u32>,
    /// The weighted entries, in the order in which they are applied.
    pub entries: Vec<Entry>,
}

impl SparseSource {
    /// Number of entity slots.
    pub open spec fn entities_count(&self) -> nat {
        self.hashes@.len()
    }

    /// The tables agree in length, the entity count fits 32 bits and every
    /// entry addresses an existing slot.
    pub open spec fn wf(&self) -> bool {
        &&& self.hashes@.len() <= u32::MAX
        &&& self.occurrences@.len() == self.hashes@.len()
        &&& entries_in_range(self.entries@, self.hashes@.len())
    }

    /// Decides `wf`.
    pub fn is_well_formed(&self) -> (ok: bool)
        ensures
            ok == self.wf(),
    {
        let n: usize = self.hashes.len();
        if n > 0xffff_ffff || self.occurrences.len() != n {
            return false;
        }
        let mut k: usize = 0;
        while k < self.entries.len()
            invariant
                k <= self.entries@.len(),
                n == self.hashes@.len(),
                forall|q: int|
                    0 <= q < k ==> (#[trigger] self.entries@[q]).row < n && self.entries@[q].col < n,
            decreases self.entries@.len() - k,
        {
            let entry = self.entries[k];
            if entry.row as usize >= n || entry.col as usize >= n {
                return false;
            }
            k += 1;
        }
        true
    }

    /// Number of entity slots.
    pub fn get_entity_counter(&self) -> (count: u32)
        requires
            self.wf(),
        ensures
            count == self.entities_count(),
    {
        self.hashes.len() as u32
    }

    /// Number of entries.
    pub fn get_amount_of_data(&self) -> (count: usize)
        ensures
            count == self.entries@.len(),
    {
        self.entries.len()
    }
}

} // verus!
