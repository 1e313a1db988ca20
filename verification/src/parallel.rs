//! Fan-out of independent column computations over a work-stealing pool.

use crate::chunks::ChunkTask;
use crate::columns::ColumnTask;
use crate::layout::chunk_of;
use rayon::iter::IndexedParallelIterator;
use rayon::iter::IntoParallelIterator;
use rayon::iter::ParallelIterator;
use rayon::slice::ParallelSliceMut;
use vstd::prelude::*;

verus! {

/// Runs rayon's `into_par_iter().enumerate().map(..).collect()` over the columns.
/// Claimed: `task.run` is called once on each column, with the column's
/// index, and the results are collected in index order.
#[verifier::external_body]
pub(crate) fn par_columns(columns: Vec<Vec<u32>>, task: &ColumnTask) -> (changed: Vec<Vec<u32>>)
    requires
        forall|i: int| 0 <= i < columns@.len() ==> task.admits(i as nat, (#[trigger] columns@[i])@),
    ensures
        changed@.len() == columns@.len(),
        forall|i: int|
            0 <= i < columns@.len() ==> task.done(i as nat, columns@[i]@, (#[trigger] changed@[i])@),
{
    columns.into_par_iter().enumerate().map(|(i, column)| task.run(i, column)).collect()
}

/// Runs rayon's `par_chunks_mut(..).enumerate().for_each(..)` over a region.
/// Claimed: the chunks are the consecutive pieces of `chunk_len` bytes,
/// disjoint and together the whole region; `task.run` is called once on
/// each, with the piece's index.
#[verifier::external_body]
pub(crate) fn par_chunks(bytes: &mut [u8], chunk_len: usize, task: &ChunkTask)
    requires
        chunk_len > 0,
        old(bytes)@.len() % (chunk_len as nat) == 0,
        forall|i: int|
            0 <= i < old(bytes)@.len() / (chunk_len as nat) ==> task.admits(
                i as nat,
                #[trigger] chunk_of(old(bytes)@, chunk_len as nat, i),
            ),
    ensures
        final(bytes)@.len() == old(bytes)@.len(),
        forall|i: int|
            0 <= i < old(bytes)@.len() / (chunk_len as nat) ==> task.done(
                i as nat,
                chunk_of(old(bytes)@, chunk_len as nat, i),
                #[trigger] chunk_of(final(bytes)@, chunk_len as nat, i),
            ),
{
    bytes.par_chunks_mut(chunk_len).enumerate().for_each(|(i, chunk)| task.run(i, chunk));
}

} // verus!
