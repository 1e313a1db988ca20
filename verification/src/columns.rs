//! The work on one column of a matrix held in memory, owned by one task
//! for the length of a phase.

use crate::hashing::hash;
use crate::model::{
    accumulated, apply_entry, initial_cell, initial_column, scaled, scaled_column, zero_column,
    HASH_RANGE,
};
use crate::single::{
    add_single, div_single, mul_single, sqrt_single, unit_fraction, NEGATIVE_ZERO_BITS, ZERO_BITS,
};
use crate::sparse::{entries_in_range, Entry, EMPTY_HASH};
use vstd::prelude::*;

verus! {

/// Computes the initial cell of an entity with hash `h` in column `i`.
pub fn initial_value(h: i64, i: u16) -> (bits: u32)
    ensures
        bits == initial_cell(h, i as nat),
{
    if h == EMPTY_HASH {
        ZERO_BITS
    } else {
        let digest: i64 = hash(h.wrapping_add(i as i64));
        let reduced: u64 = (#[verifier::truncate] (digest as u64)) % HASH_RANGE;
        unit_fraction(reduced as u32)
    }
}

/// Fills a column with column `i` of the initial matrix. Unused slots are zeroed.
pub fn initialize_column(hashes: &Vec<i64>, i: u16, column: Vec<u32>) -> (filled: Vec<u32>)
    requires
        column@.len() == hashes@.len(),
    ensures
        filled@ == initial_column(hashes@, i as nat),
{
    let mut filled = column;
    let mut j: usize = 0;
    while j < hashes.len()
        invariant
            j <= hashes@.len(),
            filled@.len() == hashes@.len(),
            forall|q: int| 0 <= q < j ==> filled@[q] == initial_cell(hashes@[q], i as nat),
        decreases hashes@.len() - j,
    {
        filled.set(j, initial_value(hashes[j], i));
        j += 1;
    }
    assert(filled@ =~= initial_column(hashes@, i as nat));
    filled
}

/// Accumulates one column of the next generation: applies every entry, in
/// order, to `acc`, reading from the previous generation's column.
pub fn accumulate_column(previous: &Vec<u32>, entries: &Vec<Entry>, acc: Vec<u32>) -> (next: Vec<u32>)
    requires
        acc@ == zero_column(previous@.len()),
        entries_in_range(entries@, previous@.len()),
    ensures
        next@ == accumulated(previous@, entries@, entries@.len()),
{
    let mut next = acc;
    let mut k: usize = 0;
    while k < entries.len()
        invariant
            k <= entries@.len(),
            entries_in_range(entries@, previous@.len()),
            next@.len() == previous@.len(),
            next@ == accumulated(previous@, entries@, k as nat),
        decreases entries@.len() - k,
    {
        let entry = entries[k];
        let row: usize = entry.row as usize;
        let contribution: u32 = mul_single(previous[entry.col as usize], entry.value);
        let sum: u32 = add_single(next[row], contribution);
        next.set(row, sum);
        k += 1;
        assert(next@ == apply_entry(accumulated(previous@, entries@, (k - 1) as nat), previous@, entries@[k - 1]));
    }
    next
}

/// Divides a cell by the square root of its entity's sum of squares, unless the sum is zero.
pub fn scale(cell: u32, sum: u32) -> (bits: u32)
    ensures
        bits == scaled(cell, sum),
{
    if sum == ZERO_BITS || sum == NEGATIVE_ZERO_BITS {
        cell
    } else {
        div_single(cell, sqrt_single(sum))
    }
}

/// Scales a column cell by cell.
pub fn scale_column(column: Vec<u32>, sums: &Vec<u32>) -> (result: Vec<u32>)
    requires
        column@.len() == sums@.len(),
    ensures
        result@ == scaled_column(column@, sums@),
{
    let mut result = column;
    let ghost before = result@;
    let mut j: usize = 0;
    while j < result.len()
        invariant
            j <= result@.len(),
            result@.len() == before.len(),
            before.len() == sums@.len(),
            forall|q: int| 0 <= q < j ==> result@[q] == scaled(before[q], sums@[q]),
            forall|q: int| j <= q < before.len() ==> result@[q] == before[q],
        decreases result@.len() - j,
    {
        let bits: u32 = scale(result[j], sums[j]);
        result.set(j, bits);
        j += 1;
    }
    assert(result@ =~= scaled_column(before, sums@));
    result
}

/// The work of one phase on every column of a matrix.
pub enum ColumnTask<'a> {
    /// Fill the column with the initial column for these hashes.
    Initialize { hashes: &'a Vec<i64> },
    /// Accumulate into the zero column from the same column of `previous`.
    Accumulate { previous: &'a Vec<Vec<u32>>, entries: &'a Vec<Entry> },
    /// Scale the column by these sums of squares.
    Scale { sums: &'a Vec<u32> },
}

impl<'a> ColumnTask<'a> {
    /// What the task asks of column `i` before it runs.
    pub open spec fn admits(&self, i: nat, before: Seq<u32>) -> bool {
        match self {
            ColumnTask::Initialize { hashes } => before.len() == hashes@.len() && i <= u16::MAX,
            ColumnTask::Accumulate { previous, entries } => {
                &&& i < previous@.len()
                &&& before == zero_column(previous@[i as int]@.len())
                &&& entries_in_range(entries@, previous@[i as int]@.len())
            },
            ColumnTask::Scale { sums } => before.len() == sums@.len(),
        }
    }

    /// What the task makes of column `i`.
    pub open spec fn done(&self, i: nat, before: Seq<u32>, after: Seq<u32>) -> bool {
        match self {
            ColumnTask::Initialize { hashes } => after == initial_column(hashes@, i),
            ColumnTask::Accumulate { previous, entries } => after == accumulated(
                previous@[i as int]@,
                entries@,
                entries@.len(),
            ),
            ColumnTask::Scale { sums } => after == scaled_column(before, sums@),
        }
    }

    /// Runs the task on column `i`.
    pub fn run(&self, i: usize, column: Vec<u32>) -> (changed: Vec<u32>)
        requires
            self.admits(i as nat, column@),
        ensures
            self.done(i as nat, column@, changed@),
    {
        match self {
            ColumnTask::Initialize { hashes } => initialize_column(hashes, i as u16, column),
            ColumnTask::Accumulate { previous, entries } => accumulate_column(&previous[i], entries, column),
            ColumnTask::Scale { sums } => scale_column(column, sums),
        }
    }
}

} // verus!
