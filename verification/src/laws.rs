//! What holds of every run, stated over the model.

use crate::lifecycle::{disk_after, lemma_schedule_outcome, Inputs};
use crate::model::{
    generation, initial_matrix, is_matrix, lemma_initial_is_matrix, lemma_normalized_is_matrix,
    lemma_propagated_is_matrix, next_power, normalized, propagated,
};
use crate::output::{emissions, EmissionModel};
use crate::rotation::schedule;
use crate::sparse::{entries_in_range, Entry};
use vstd::prelude::*;

verus! {

/// Determinism: two runs on the same hashes, occurrence counts, names,
/// entries, dimension and number of rounds emit the same sequence.
pub proof fn lemma_runs_agree(
    first: Seq<EmissionModel>,
    second: Seq<EmissionModel>,
    hashes: Seq<i64>,
    occurrences: Seq<u32>,
    names: Seq<Option<Seq<char>>>,
    entries: Seq<Entry>,
    dimension: nat,
    max_iter: nat,
)
    requires
        first == emissions(hashes, occurrences, names, generation(hashes, entries, dimension, max_iter)),
        second == emissions(hashes, occurrences, names, generation(hashes, entries, dimension, max_iter)),
    ensures
        first == second,
{
}

/// Strategy equivalence: the matrix that the disk-backed rotation writes
/// out is the one the in-memory strategy computes, so both emit the same sequence.
pub proof fn lemma_strategies_agree(
    inputs: Inputs,
    occurrences: Seq<u32>,
    names: Seq<Option<Seq<char>>>,
    max_iter: u8,
)
    ensures
        disk_after(inputs, max_iter, schedule(max_iter).len()).persisted == Some(
            generation(inputs.hashes, inputs.entries, inputs.dimension, max_iter as nat),
        ),
        emissions(
            inputs.hashes,
            occurrences,
            names,
            disk_after(inputs, max_iter, schedule(max_iter).len()).persisted.unwrap(),
        ) == emissions(
            inputs.hashes,
            occurrences,
            names,
            generation(inputs.hashes, inputs.entries, inputs.dimension, max_iter as nat),
        ),
{
    lemma_schedule_outcome(inputs, max_iter);
}

/// Shape: every generation has `dimension` columns of one cell for each entity.
pub proof fn lemma_generation_has_shape(
    hashes: Seq<i64>,
    entries: Seq<Entry>,
    dimension: nat,
    rounds: nat,
)
    requires
        entries_in_range(entries, hashes.len()),
    ensures
        is_matrix(generation(hashes, entries, dimension, rounds), hashes.len(), dimension),
{
    let init = initial_matrix(hashes, dimension);
    lemma_initial_is_matrix(hashes, dimension);
    lemma_normalized_is_matrix(init, hashes.len());
    lemma_propagated_is_matrix(normalized(init), entries, rounds, hashes.len());
}

/// Every generation comes out of the normalization step: generation zero is
/// the normalized initial matrix, and each later one is the normalized
/// accumulation of its predecessor.
pub proof fn lemma_every_generation_is_normalized(
    hashes: Seq<i64>,
    entries: Seq<Entry>,
    dimension: nat,
    rounds: nat,
)
    ensures
        generation(hashes, entries, dimension, 0) == normalized(initial_matrix(hashes, dimension)),
        rounds > 0 ==> generation(hashes, entries, dimension, rounds) == normalized(
            next_power(generation(hashes, entries, dimension, (rounds - 1) as nat), entries),
        ),
{
}

/// Zero rounds: propagation changes nothing, and the run yields exactly the
/// normalized initial matrix.
pub proof fn lemma_zero_rounds(m: Seq<Seq<u32>>, hashes: Seq<i64>, entries: Seq<Entry>, dimension: nat)
    ensures
        propagated(m, entries, 0) == m,
        generation(hashes, entries, dimension, 0) == normalized(initial_matrix(hashes, dimension)),
{
}

} // verus!
