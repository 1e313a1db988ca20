//! The embedding computation as mathematics over bit patterns.
//!
//! A matrix is a sequence of `dimension` columns, each a sequence of
//! `entities_count` single-precision patterns.

use crate::hashing::stable_hash;
use crate::single::{fraction_bits, is_zero, product_bits, quotient_bits, root_bits, sum_bits, ZERO_BITS};
use crate::sparse::{entries_in_range, Entry, EMPTY_HASH};
use vstd::prelude::*;

verus! {

/// Number of values the reduced hash can take: 2^23.
pub const HASH_RANGE: u64 = 0x80_0000;

/// Whether `m` has `dimension` columns of `entities_count` cells each.
pub open spec fn is_matrix(m: Seq<Seq<u32>>, entities_count: nat, dimension: nat) -> bool {
    &&& m.len() == dimension
    &&& forall|i: int| 0 <= i < m.len() ==> (#[trigger] m[i]).len() == entities_count
}

/// The initial numerator of an entity with hash `h` in column `i`:
/// the stable hash of `h + i`, read as unsigned, modulo 2^23.
pub open spec fn initial_numerator(h: i64, i: nat) -> nat {
    ((stable_hash(h.wrapping_add(i as i64)) as u64) % HASH_RANGE) as nat
}

/// The initial cell of an entity with hash `h` in column `i`: the numerator
/// over 2^23, a value in `[0, 1)`; zero for an unused slot.
pub open spec fn initial_cell(h: i64, i: nat) -> u32 {
    if h == EMPTY_HASH {
        ZERO_BITS
    } else {
        fraction_bits(initial_numerator(h, i))
    }
}

/// Column `i` of the initial matrix.
pub open spec fn initial_column(hashes: Seq<i64>, i: nat) -> Seq<u32> {
    Seq::new(hashes.len(), |j: int| initial_cell(hashes[j], i))
}

/// The initial matrix, before normalization.
pub open spec fn initial_matrix(hashes: Seq<i64>, dimension: nat) -> Seq<Seq<u32>> {
    Seq::new(dimension, |i: int| initial_column(hashes, i as nat))
}

/// A column of zeros.
pub open spec fn zero_column(entities_count: nat) -> Seq<u32> {
    Seq::new(entities_count, |j: int| ZERO_BITS)
}

/// A matrix of zeros.
pub open spec fn zero_matrix(entities_count: nat, dimension: nat) -> Seq<Seq<u32>> {
    Seq::new(dimension, |i: int| zero_column(entities_count))
}

/// Adds one entry's contribution to the column being accumulated:
/// `acc[row] += previous[col] * value`.
pub open spec fn apply_entry(acc: Seq<u32>, previous: Seq<u32>, entry: Entry) -> Seq<u32> {
    acc.update(
        entry.row as int,
        sum_bits(acc[entry.row as int], product_bits(previous[entry.col as int], entry.value)),
    )
}

/// The column obtained from a zero column by applying the first `count`
/// entries in order, reading from `previous`.
pub open spec fn accumulated(previous: Seq<u32>, entries: Seq<Entry>, count: nat) -> Seq<u32>
    decreases count,
{
    if count == 0 {
        zero_column(previous.len())
    } else {
        apply_entry(
            accumulated(previous, entries, (count - 1) as nat),
            previous,
            entries[count - 1],
        )
    }
}

/// One accumulation step: every column is accumulated from its predecessor.
pub open spec fn next_power(m: Seq<Seq<u32>>, entries: Seq<Entry>) -> Seq<Seq<u32>> {
    Seq::new(m.len(), |i: int| accumulated(m[i], entries, entries.len()))
}

/// Sum of the squares of entity `j`'s cells over the first `count` columns,
/// added in column order starting from zero.
pub open spec fn square_sum(m: Seq<Seq<u32>>, j: int, count: nat) -> u32
    decreases count,
{
    if count == 0 {
        ZERO_BITS
    } else {
        sum_bits(
            square_sum(m, j, (count - 1) as nat),
            product_bits(m[count - 1][j], m[count - 1][j]),
        )
    }
}

/// The sums of squares of all entities of a column length.
pub open spec fn square_sums(m: Seq<Seq<u32>>, entities_count: nat) -> Seq<u32> {
    Seq::new(entities_count, |j: int| square_sum(m, j, m.len()))
}

/// A cell divided by the square root of its entity's sum of squares.
/// An entity whose sum is zero keeps its cells.
pub open spec fn scaled(cell: u32, sum: u32) -> u32 {
    if is_zero(sum) {
        cell
    } else {
        quotient_bits(cell, root_bits(sum))
    }
}

/// A column scaled cell by cell.
pub open spec fn scaled_column(column: Seq<u32>, sums: Seq<u32>) -> Seq<u32> {
    Seq::new(column.len(), |j: int| scaled(column[j], sums[j]))
}

/// L2 normalization of every entity's vector across the columns.
pub open spec fn normalized(m: Seq<Seq<u32>>) -> Seq<Seq<u32>> {
    Seq::new(m.len(), |i: int| scaled_column(m[i], square_sums(m, m[i].len())))
}

/// The matrix after `rounds` rounds of accumulation and normalization.
pub open spec fn propagated(m: Seq<Seq<u32>>, entries: Seq<Entry>, rounds: nat) -> Seq<Seq<u32>>
    decreases rounds,
{
    if rounds == 0 {
        m
    } else {
        normalized(next_power(propagated(m, entries, (rounds - 1) as nat), entries))
    }
}

/// Generation `rounds` of the run: the normalized initial matrix, propagated.
pub open spec fn generation(hashes: Seq<i64>, entries: Seq<Entry>, dimension: nat, rounds: nat) -> Seq<Seq<u32>> {
    propagated(normalized(initial_matrix(hashes, dimension)), entries, rounds)
}

/// Entity `j`'s vector: its cell in every column.
pub open spec fn row_vector(m: Seq<Seq<u32>>, j: int) -> Seq<u32> {
    Seq::new(m.len(), |i: int| m[i][j])
}

/// Accumulation keeps the column length.
pub proof fn lemma_accumulated_len(previous: Seq<u32>, entries: Seq<Entry>, count: nat)
    requires
        count <= entries.len(),
        entries_in_range(entries, previous.len()),
    ensures
        accumulated(previous, entries, count).len() == previous.len(),
    decreases count,
{
    if count > 0 {
        lemma_accumulated_len(previous, entries, (count - 1) as nat);
    }
}

/// The initial matrix has the shape asked for.
pub proof fn lemma_initial_is_matrix(hashes: Seq<i64>, dimension: nat)
    ensures
        is_matrix(initial_matrix(hashes, dimension), hashes.len(), dimension),
{
}

/// Accumulation keeps the shape.
pub proof fn lemma_next_power_is_matrix(m: Seq<Seq<u32>>, entries: Seq<Entry>, entities_count: nat)
    requires
        is_matrix(m, entities_count, m.len()),
        entries_in_range(entries, entities_count),
    ensures
        is_matrix(next_power(m, entries), entities_count, m.len()),
{
    assert forall|i: int| 0 <= i < m.len() implies (#[trigger] next_power(m, entries)[i]).len()
        == entities_count by {
        lemma_accumulated_len(m[i], entries, entries.len());
    }
}

/// Normalization keeps the shape.
pub proof fn lemma_normalized_is_matrix(m: Seq<Seq<u32>>, entities_count: nat)
    requires
        is_matrix(m, entities_count, m.len()),
    ensures
        is_matrix(normalized(m), entities_count, m.len()),
{
}

/// Propagation keeps the shape.
pub proof fn lemma_propagated_is_matrix(m: Seq<Seq<u32>>, entries: Seq<Entry>, rounds: nat, entities_count: nat)
    requires
        is_matrix(m, entities_count, m.len()),
        entries_in_range(entries, entities_count),
    ensures
        is_matrix(propagated(m, entries, rounds), entities_count, m.len()),
    decreases rounds,
{
    if rounds > 0 {
        let before = propagated(m, entries, (rounds - 1) as nat);
        lemma_propagated_is_matrix(m, entries, (rounds - 1) as nat, entities_count);
        lemma_next_power_is_matrix(before, entries, entities_count);
        lemma_normalized_is_matrix(next_power(before, entries), entities_count);
    }
}

} // verus!
