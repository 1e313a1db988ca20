//! The work on one column of a flat region: a chunk of `4 * entities_count`
//! bytes, owned by one task for the length of a phase.

use crate::columns::{initial_value, scale};
use crate::layout::{chunk_of, column_of_bytes, lemma_stored_in_column, read_word, write_word};
use crate::model::{accumulated, apply_entry, initial_cell, initial_column, scaled, scaled_column, zero_column};
use crate::single::{add_single, mul_single};
use crate::sparse::{entries_in_range, Entry};
use vstd::prelude::*;

verus! {

/// What `initialize_chunk` leaves in chunk `i`: column `i` of the initial matrix.
pub open spec fn chunk_initialized(hashes: Seq<i64>, i: nat, after: Seq<u8>) -> bool {
    &&& after.len() == 4 * hashes.len()
    &&& column_of_bytes(after, hashes.len()) == initial_column(hashes, i)
}

/// What `accumulate_chunk` leaves in chunk `i`: the column accumulated from
/// column `i` of the region `input`.
pub open spec fn chunk_accumulated(
    input: Seq<u8>,
    entries: Seq<Entry>,
    entities_count: nat,
    i: nat,
    after: Seq<u8>,
) -> bool {
    &&& after.len() == 4 * entities_count
    &&& column_of_bytes(after, entities_count) == accumulated(
        column_of_bytes(chunk_of(input, 4 * entities_count, i as int), entities_count),
        entries,
        entries.len(),
    )
}

/// What `scale_chunk` makes of a chunk: the column it held, scaled.
pub open spec fn chunk_scaled(sums: Seq<u32>, before: Seq<u8>, after: Seq<u8>) -> bool {
    &&& after.len() == before.len()
    &&& column_of_bytes(after, sums.len()) == scaled_column(column_of_bytes(before, sums.len()), sums)
}

/// Writes column `i` of the initial matrix into its chunk. Unused slots are zeroed.
pub fn initialize_chunk(hashes: &Vec<i64>, i: usize, chunk: &mut [u8])
    requires
        old(chunk)@.len() == 4 * hashes@.len(),
        i <= u16::MAX,
    ensures
        chunk_initialized(hashes@, i as nat, final(chunk)@),
{
    let entities_count: usize = hashes.len();
    let total: usize = chunk.len();
    let mut j: usize = 0;
    while j < entities_count
        invariant
            j <= entities_count,
            entities_count == hashes@.len(),
            i <= u16::MAX,
            chunk@.len() == 4 * entities_count,
            total == 4 * entities_count,
            forall|q: int|
                0 <= q < j ==> column_of_bytes(chunk@, entities_count as nat)[q] == initial_cell(
                    hashes@[q],
                    i as nat,
                ),
        decreases entities_count - j,
    {
        let ghost before = chunk@;
        let bits: u32 = initial_value(hashes[j], i as u16);
        write_word(chunk, j * 4, bits);
        proof {
            lemma_stored_in_column(before, entities_count as nat, j as int, bits);
        }
        j += 1;
    }
    assert(column_of_bytes(chunk@, entities_count as nat) =~= initial_column(hashes@, i as nat));
}

/// Accumulates column `i` of the next generation into its chunk: zeroes the
/// chunk, then applies every entry in order, reading column `i` of `input`.
pub fn accumulate_chunk(input: &[u8], entries: &Vec<Entry>, entities_count: usize, i: usize, chunk: &mut [u8])
    requires
        old(chunk)@.len() == 4 * entities_count,
        (i + 1) * (4 * entities_count) <= input@.len(),
        entries_in_range(entries@, entities_count as nat),
    ensures
        chunk_accumulated(input@, entries@, entities_count as nat, i as nat, final(chunk)@),
{
    let ghost previous = column_of_bytes(
        chunk_of(input@, (4 * entities_count) as nat, i as int),
        entities_count as nat,
    );
    proof {
        assert((i + 1) * (4 * entities_count) == i * (4 * entities_count) + 4 * entities_count)
            by (nonlinear_arith);
        assert(i * (4 * entities_count) == (i * entities_count) * 4) by (nonlinear_arith);
        assert(0 <= i * entities_count) by (nonlinear_arith)
            requires
                0 <= i,
                0 <= entities_count,
        ;
    }
    let total: usize = chunk.len();
    let available: usize = input.len();
    let base: usize = i * entities_count;
    let mut j: usize = 0;
    while j < entities_count
        invariant
            j <= entities_count,
            chunk@.len() == 4 * entities_count,
            total == 4 * entities_count,
            forall|q: int| 0 <= q < j ==> column_of_bytes(chunk@, entities_count as nat)[q] == 0u32,
        decreases entities_count - j,
    {
        let ghost before = chunk@;
        write_word(chunk, j * 4, 0);
        proof {
            lemma_stored_in_column(before, entities_count as nat, j as int, 0u32);
        }
        j += 1;
    }
    assert(column_of_bytes(chunk@, entities_count as nat) =~= zero_column(previous.len()));
    let mut k: usize = 0;
    while k < entries.len()
        invariant
            k <= entries@.len(),
            entries_in_range(entries@, entities_count as nat),
            chunk@.len() == 4 * entities_count,
            base == i * entities_count,
            base * 4 + 4 * entities_count <= input@.len(),
            available == input@.len(),
            total == 4 * entities_count,
            previous == column_of_bytes(
                chunk_of(input@, (4 * entities_count) as nat, i as int),
                entities_count as nat,
            ),
            i * (4 * entities_count) == base * 4,
            (i + 1) * (4 * entities_count) == base * 4 + 4 * entities_count,
            column_of_bytes(chunk@, entities_count as nat) == accumulated(previous, entries@, k as nat),
        decreases entries@.len() - k,
    {
        let ghost before = chunk@;
        let entry = entries[k];
        let row: usize = entry.row as usize;
        let col: usize = entry.col as usize;
        let value: u32 = read_word(input, (base + col) * 4);
        assert(value == previous[col as int]) by {
            assert(chunk_of(input@, (4 * entities_count) as nat, i as int) == input@.subrange(
                base * 4,
                base * 4 + 4 * entities_count,
            ));
        }
        let current: u32 = read_word(chunk, row * 4);
        let sum: u32 = add_single(current, mul_single(value, entry.value));
        write_word(chunk, row * 4, sum);
        proof {
            lemma_stored_in_column(before, entities_count as nat, row as int, sum);
        }
        k += 1;
        assert(column_of_bytes(chunk@, entities_count as nat) == apply_entry(
            accumulated(previous, entries@, (k - 1) as nat),
            previous,
            entries@[k - 1],
        ));
    }
}

/// Scales the column in a chunk cell by cell.
pub fn scale_chunk(sums: &Vec<u32>, chunk: &mut [u8])
    requires
        old(chunk)@.len() == 4 * sums@.len(),
    ensures
        chunk_scaled(sums@, old(chunk)@, final(chunk)@),
{
    let entities_count: usize = sums.len();
    let total: usize = chunk.len();
    let ghost start = column_of_bytes(chunk@, entities_count as nat);
    let mut j: usize = 0;
    while j < entities_count
        invariant
            j <= entities_count,
            entities_count == sums@.len(),
            total == 4 * entities_count,
            start.len() == entities_count,
            chunk@.len() == 4 * entities_count,
            chunk@.len() == old(chunk)@.len(),
            forall|q: int|
                0 <= q < j ==> column_of_bytes(chunk@, entities_count as nat)[q] == scaled(
                    start[q],
                    sums@[q],
                ),
            forall|q: int|
                j <= q < entities_count ==> column_of_bytes(chunk@, entities_count as nat)[q] == start[q],
        decreases entities_count - j,
    {
        let ghost before = chunk@;
        let bits: u32 = scale(read_word(chunk, j * 4), sums[j]);
        write_word(chunk, j * 4, bits);
        proof {
            lemma_stored_in_column(before, entities_count as nat, j as int, bits);
        }
        j += 1;
    }
    assert(column_of_bytes(chunk@, entities_count as nat) =~= scaled_column(start, sums@));
}

/// The work of one phase on every chunk of a region.
pub enum ChunkTask<'a> {
    /// Write the initial column for these hashes.
    Initialize { hashes: &'a Vec<i64> },
    /// Accumulate the column from the same column of the region `input`.
    Accumulate { input: &'a [u8], entries: &'a Vec<Entry>, entities_count: usize },
    /// Scale the column by these sums of squares.
    Scale { sums: &'a Vec<u32> },
}

impl<'a> ChunkTask<'a> {
    /// What the task asks of chunk `i` before it runs.
    pub open spec fn admits(&self, i: nat, before: Seq<u8>) -> bool {
        match self {
            ChunkTask::Initialize { hashes } => before.len() == 4 * hashes@.len() && i <= u16::MAX,
            ChunkTask::Accumulate { input, entries, entities_count } => {
                &&& before.len() == 4 * (*entities_count)
                &&& (i + 1) * (4 * (*entities_count)) <= input@.len()
                &&& entries_in_range(entries@, *entities_count as nat)
            },
            ChunkTask::Scale { sums } => before.len() == 4 * sums@.len(),
        }
    }

    /// What the task leaves in chunk `i`.
    pub open spec fn done(&self, i: nat, before: Seq<u8>, after: Seq<u8>) -> bool {
        match self {
            ChunkTask::Initialize { hashes } => chunk_initialized(hashes@, i, after),
            ChunkTask::Accumulate { input, entries, entities_count } => chunk_accumulated(
                input@,
                entries@,
                *entities_count as nat,
                i,
                after,
            ),
            ChunkTask::Scale { sums } => chunk_scaled(sums@, before, after),
        }
    }

    /// Runs the task on chunk `i`.
    pub fn run(&self, i: usize, chunk: &mut [u8])
        requires
            self.admits(i as nat, old(chunk)@),
        ensures
            self.done(i as nat, old(chunk)@, final(chunk)@),
    {
        match self {
            ChunkTask::Initialize { hashes } => initialize_chunk(hashes, i, chunk),
            ChunkTask::Accumulate { input, entries, entities_count } => accumulate_chunk(
                input,
                entries,
                *entities_count,
                i,
                chunk,
            ),
            ChunkTask::Scale { sums } => scale_chunk(sums, chunk),
        }
    }
}

} // verus!
