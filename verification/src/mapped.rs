//! The disk-backed strategy: the evolving matrix is a memory-mapped region
//! in the flat layout, one region per generation.

use crate::chunks::{chunk_accumulated, chunk_initialized, chunk_scaled, ChunkTask};
use crate::layout::{
    byte_len, cell_offset, chunk_of, lemma_cell_in_bounds, lemma_cells_disjoint,
    lemma_chunk_is_column, lemma_stored_word, matrix_of_bytes, read_word, word_at, write_word,
};
use crate::model::{
    accumulated, initial_column, initial_matrix, lemma_accumulated_len, next_power, normalized,
    row_vector, scaled_column, square_sum, square_sums,
};
use crate::output::{emissions, emissions_view, names_view, record_of, records, Emission, EmissionModel};
use crate::parallel::par_chunks;
use crate::single::{add_single, mul_single};
use crate::sparse::{SparseSource, EMPTY_HASH};
use memmap::MmapMut;
use vstd::arithmetic::div_mod::{lemma_div_by_multiple, lemma_mod_multiples_basic};
use vstd::prelude::*;

verus! {

/// A writable memory map of `memmap`, opaque here.
#[verifier::external_type_specification]
#[verifier::external_body]
pub struct ExMmapMut(MmapMut);

/// The bytes a writable memory map holds.
pub uninterp spec fn mapped_bytes(map: MmapMut) -> Seq<u8>;

/// Borrows the map as a byte slice, through `MmapMut`'s `Deref`.
/// Claimed: the slice is the bytes the map holds.
#[verifier::external_body]
pub(crate) fn mapped_slice(map: &MmapMut) -> (bytes: &[u8])
    ensures
        bytes@ == mapped_bytes(*map),
{
    &map[..]
}

/// Borrows the map as a mutable byte slice, through `MmapMut`'s `DerefMut`.
/// Claimed: the slice is the bytes the map holds, and what the slice holds
/// when the borrow ends is what the map holds from then on.
#[verifier::external_body]
pub(crate) fn mapped_slice_mut(map: &mut MmapMut) -> (bytes: &mut [u8])
    ensures
        bytes@ == mapped_bytes(*old(map)),
        mapped_bytes(*final(map)) == final(bytes)@,
{
    &mut map[..]
}

/// A region of `byte_len` bytes cut into chunks of one column each has
/// exactly `dimension` chunks.
pub proof fn lemma_chunk_count(entities_count: nat, dimension: nat)
    requires
        entities_count > 0,
    ensures
        byte_len(entities_count, dimension) % (4 * entities_count) == 0,
        byte_len(entities_count, dimension) / (4 * entities_count) == dimension,
        dimension > 0 ==> 4 * entities_count <= byte_len(entities_count, dimension),
{
    lemma_div_by_multiple(dimension as int, (4 * entities_count) as int);
    lemma_mod_multiples_basic(dimension as int, (4 * entities_count) as int);
    assert(4 * entities_count * dimension == dimension * (4 * entities_count)) by (nonlinear_arith);
    if dimension > 0 {
        assert(4 * entities_count <= dimension * (4 * entities_count)) by (nonlinear_arith)
            requires
                dimension >= 1,
        ;
    }
}

/// A matrix without cells is determined by its shape.
pub proof fn lemma_empty_matrix(bytes: Seq<u8>, entities_count: nat, dimension: nat, m: Seq<Seq<u32>>)
    requires
        entities_count == 0 || dimension == 0,
        m.len() == dimension,
        forall|i: int| 0 <= i < dimension ==> (#[trigger] m[i]).len() == entities_count,
    ensures
        matrix_of_bytes(bytes, entities_count, dimension) == m,
{
    assert(matrix_of_bytes(bytes, entities_count, dimension) =~~= m);
}

/// Computes every entity's sum of squares across the columns of a region.
pub fn sum_squares_mapped(bytes: &[u8], entities_count: usize, dimension: usize) -> (sums: Vec<u32>)
    requires
        bytes@.len() == byte_len(entities_count as nat, dimension as nat),
    ensures
        sums@ == square_sums(
            matrix_of_bytes(bytes@, entities_count as nat, dimension as nat),
            entities_count as nat,
        ),
{
    let ghost m = matrix_of_bytes(bytes@, entities_count as nat, dimension as nat);
    let total: usize = bytes.len();
    let mut sums: Vec<u32> = vec![0u32; entities_count];
    let mut i: usize = 0;
    while i < dimension
        invariant
            i <= dimension,
            total == bytes@.len(),
            bytes@.len() == byte_len(entities_count as nat, dimension as nat),
            m == matrix_of_bytes(bytes@, entities_count as nat, dimension as nat),
            sums@.len() == entities_count,
            forall|q: int| 0 <= q < entities_count ==> sums@[q] == square_sum(m, q, i as nat),
        decreases dimension - i,
    {
        let mut j: usize = 0;
        while j < entities_count
            invariant
                j <= entities_count,
                i < dimension,
                total == bytes@.len(),
                bytes@.len() == byte_len(entities_count as nat, dimension as nat),
                m == matrix_of_bytes(bytes@, entities_count as nat, dimension as nat),
                sums@.len() == entities_count,
                forall|q: int| 0 <= q < j ==> sums@[q] == square_sum(m, q, (i + 1) as nat),
                forall|q: int| j <= q < entities_count ==> sums@[q] == square_sum(m, q, i as nat),
            decreases entities_count - j,
        {
            proof {
                lemma_cell_in_bounds(entities_count as nat, dimension as nat, i as int, j as int);
            }
            let cell: u32 = read_word(bytes, (i * entities_count + j) * 4);
            assert(cell == m[i as int][j as int]);
            let sum: u32 = add_single(sums[j], mul_single(cell, cell));
            sums.set(j, sum);
            j += 1;
        }
        i += 1;
    }
    assert(sums@ =~= square_sums(m, entities_count as nat));
    sums
}

/// Provides matrix multiplication based on sparse matrix data, over
/// memory-mapped generations.
#[derive(Debug)]
pub struct MatrixMultiplicatorMMap<'a> {
    pub dimension: u16,
    pub sparse_matrix_id: String,
    pub source: &'a SparseSource,
}

impl<'a> MatrixMultiplicatorMMap<'a> {
    /// The source is well formed.
    pub open spec fn wf(&self) -> bool {
        self.source.wf()
    }

    /// Whether the map has exactly the size of this run's matrix.
    pub open spec fn holds_matrix(&self, map: &MmapMut) -> bool {
        mapped_bytes(*map).len() == byte_len(self.source.entities_count(), self.dimension as nat)
    }

    /// The matrix a map of the right size holds.
    pub open spec fn matrix(&self, map: &MmapMut) -> Seq<Seq<u32>> {
        matrix_of_bytes(mapped_bytes(*map), self.source.entities_count(), self.dimension as nat)
    }

    /// The size in bytes of every generation: four bytes for each cell.
    pub fn number_of_bytes(&self) -> (bytes: u64)
        requires
            self.wf(),
        ensures
            bytes == byte_len(self.source.entities_count(), self.dimension as nat),
    {
        let entities_count: u64 = self.source.get_entity_counter() as u64;
        let dimension: u64 = self.dimension as u64;
        assert(entities_count * dimension <= 0xffff_ffff * 0xffff) by (nonlinear_arith)
            requires
                entities_count <= 0xffff_ffff,
                dimension <= 0xffff,
        ;
        assert(4 * self.source.entities_count() * (self.dimension as nat) == (entities_count
            * dimension) * 4) by (nonlinear_arith)
            requires
                entities_count == self.source.entities_count(),
                dimension == self.dimension,
        ;
        entities_count * dimension * 4
    }

    /// Decides `holds_matrix`.
    pub fn fits(&self, map: &MmapMut) -> (ok: bool)
        requires
            self.wf(),
        ensures
            ok == self.holds_matrix(map),
    {
        mapped_slice(map).len() as u64 == self.number_of_bytes()
    }

    /// Reads the cell of entity `j` in column `i`.
    pub fn get(&self, res: &MmapMut, i: usize, j: usize) -> (bits: u32)
        requires
            self.wf(),
            self.holds_matrix(res),
            i < self.dimension,
            j < self.source.entities_count(),
        ensures
            bits == self.matrix(res)[i as int][j as int],
    {
        let entities_count: usize = self.source.hashes.len();
        let bytes = mapped_slice(res);
        let total: usize = bytes.len();
        proof {
            lemma_cell_in_bounds(entities_count as nat, self.dimension as nat, i as int, j as int);
        }
        read_word(bytes, (i * entities_count + j) * 4)
    }

    /// Writes the cell of entity `j` in column `i`; every other cell stays.
    pub fn set(&self, res: &mut MmapMut, i: usize, j: usize, bits: u32)
        requires
            self.wf(),
            self.holds_matrix(old(res)),
            i < self.dimension,
            j < self.source.entities_count(),
        ensures
            self.holds_matrix(final(res)),
            self.matrix(final(res)) == self.matrix(old(res)).update(
                i as int,
                self.matrix(old(res))[i as int].update(j as int, bits),
            ),
    {
        let entities_count: usize = self.source.hashes.len();
        let ghost n = entities_count as nat;
        let ghost d = self.dimension as nat;
        let ghost start = mapped_bytes(*res);
        let ghost before = self.matrix(res);
        let total: usize = mapped_slice(res).len();
        proof {
            lemma_cell_in_bounds(n, d, i as int, j as int);
        }
        let at: usize = (i * entities_count + j) * 4;
        let bytes = mapped_slice_mut(res);
        write_word(bytes, at, bits);
        proof {
            let after = mapped_bytes(*res);
            lemma_stored_word(start, at as int, bits);
            assert forall|k: int, l: int| 0 <= k < d && 0 <= l < n implies word_at(
                after,
                cell_offset(n, k, l),
            ) == (if k == i && l == j {
                bits
            } else {
                word_at(start, cell_offset(n, k, l))
            }) by {
                lemma_cell_in_bounds(n, d, k, l);
                if k != i || l != j {
                    lemma_cells_disjoint(n, k, l, i as int, j as int);
                }
            }
            assert(matrix_of_bytes(after, n, d) =~~= before.update(
                i as int,
                before[i as int].update(j as int, bits),
            ));
        }
    }

    /// Runs a task on every column of the map, each column's chunk owned by
    /// one parallel task.
    fn run_on_columns(&self, map: &mut MmapMut, task: &ChunkTask)
        requires
            self.wf(),
            self.holds_matrix(old(map)),
            self.source.entities_count() > 0,
            self.dimension > 0,
            forall|i: int|
                0 <= i < self.dimension ==> task.admits(
                    i as nat,
                    #[trigger] chunk_of(mapped_bytes(*old(map)), 4 * self.source.entities_count(), i),
                ),
        ensures
            self.holds_matrix(final(map)),
            forall|i: int|
                0 <= i < self.dimension ==> task.done(
                    i as nat,
                    chunk_of(mapped_bytes(*old(map)), 4 * self.source.entities_count(), i),
                    #[trigger] chunk_of(mapped_bytes(*final(map)), 4 * self.source.entities_count(), i),
                ),
    {
        let entities_count: usize = self.source.hashes.len();
        let total: usize = mapped_slice(map).len();
        proof {
            lemma_chunk_count(entities_count as nat, self.dimension as nat);
        }
        let chunk_len: usize = 4 * entities_count;
        let bytes = mapped_slice_mut(map);
        par_chunks(bytes, chunk_len, task);
    }

    /// Writes the initial matrix into the map: column `i` holds, for each
    /// entity with a valid hash `h`, the stable hash of `h + i` reduced to
    /// `[0, 1)`, and zero for an unused slot.
    pub fn initialize(&self, map: &mut MmapMut)
        requires
            self.wf(),
            self.holds_matrix(old(map)),
        ensures
            self.holds_matrix(final(map)),
            self.matrix(final(map)) == initial_matrix(self.source.hashes@, self.dimension as nat),
    {
        let entities_count: usize = self.source.hashes.len();
        let ghost n = entities_count as nat;
        let ghost d = self.dimension as nat;
        if entities_count == 0 || self.dimension == 0 {
            proof {
                lemma_empty_matrix(mapped_bytes(*map), n, d, initial_matrix(self.source.hashes@, d));
            }
            return ;
        }
        let ghost start = mapped_bytes(*map);
        let task = ChunkTask::Initialize { hashes: &self.source.hashes };
        proof {
            assert forall|i: int| 0 <= i < d implies task.admits(
                i as nat,
                #[trigger] chunk_of(start, 4 * n, i),
            ) by {
                lemma_chunk_is_column(start, n, d, i);
            }
        }
        self.run_on_columns(map, &task);
        proof {
            let after = mapped_bytes(*map);
            assert forall|i: int| 0 <= i < d implies (#[trigger] matrix_of_bytes(after, n, d)[i])
                == initial_column(self.source.hashes@, i as nat) by {
                lemma_chunk_is_column(after, n, d, i);
                assert(chunk_initialized(self.source.hashes@, i as nat, chunk_of(after, 4 * n, i)));
            }
            assert(matrix_of_bytes(after, n, d) =~= initial_matrix(self.source.hashes@, d));
        }
    }

    /// One accumulation step from the generation in `res` into the map
    /// `next`: for every entry and every column, `new[row] += old[col] * value`,
    /// starting from zeros. What `next` held before is overwritten.
    pub fn next_power(&self, res: &MmapMut, next: &mut MmapMut)
        requires
            self.wf(),
            self.holds_matrix(res),
            self.holds_matrix(old(next)),
        ensures
            self.holds_matrix(final(next)),
            self.matrix(final(next)) == next_power(self.matrix(res), self.source.entries@),
    {
        let entities_count: usize = self.source.hashes.len();
        let ghost n = entities_count as nat;
        let ghost d = self.dimension as nat;
        let ghost before = self.matrix(res);
        if entities_count == 0 || self.dimension == 0 {
            proof {
                assert forall|i: int| 0 <= i < d implies (#[trigger] next_power(before, self.source.entries@)[i]).len()
                    == n by {
                    lemma_accumulated_len(before[i], self.source.entries@, self.source.entries@.len());
                }
                lemma_empty_matrix(mapped_bytes(*next), n, d, next_power(before, self.source.entries@));
            }
            return ;
        }
        let ghost start = mapped_bytes(*next);
        let ghost input = mapped_bytes(*res);
        let task = ChunkTask::Accumulate {
            input: mapped_slice(res),
            entries: &self.source.entries,
            entities_count,
        };
        proof {
            assert forall|i: int| 0 <= i < d implies task.admits(
                i as nat,
                #[trigger] chunk_of(start, 4 * n, i),
            ) by {
                lemma_chunk_is_column(start, n, d, i);
                lemma_chunk_is_column(input, n, d, i);
            }
        }
        self.run_on_columns(next, &task);
        proof {
            let after = mapped_bytes(*next);
            assert forall|i: int| 0 <= i < d implies (#[trigger] matrix_of_bytes(after, n, d)[i])
                == accumulated(before[i], self.source.entries@, self.source.entries@.len()) by {
                lemma_chunk_is_column(after, n, d, i);
                lemma_chunk_is_column(input, n, d, i);
                assert(chunk_accumulated(input, self.source.entries@, n, i as nat, chunk_of(after, 4 * n, i)));
            }
            assert(matrix_of_bytes(after, n, d) =~= next_power(before, self.source.entries@));
        }
    }

    /// L2 normalization of every entity's vector across the columns, in place.
    /// An entity whose sum of squares is zero keeps its vector.
    pub fn normalize(&self, res: &mut MmapMut)
        requires
            self.wf(),
            self.holds_matrix(old(res)),
        ensures
            self.holds_matrix(final(res)),
            self.matrix(final(res)) == normalized(self.matrix(old(res))),
    {
        let entities_count: usize = self.source.hashes.len();
        let ghost n = entities_count as nat;
        let ghost d = self.dimension as nat;
        let ghost before = self.matrix(res);
        let ghost input = mapped_bytes(*res);
        if entities_count == 0 || self.dimension == 0 {
            proof {
                lemma_empty_matrix(mapped_bytes(*res), n, d, normalized(before));
            }
            return ;
        }
        let row_sum = sum_squares_mapped(mapped_slice(res), entities_count, self.dimension as usize);
        let task = ChunkTask::Scale { sums: &row_sum };
        proof {
            assert forall|i: int| 0 <= i < d implies task.admits(
                i as nat,
                #[trigger] chunk_of(input, 4 * n, i),
            ) by {
                lemma_chunk_is_column(input, n, d, i);
            }
        }
        self.run_on_columns(res, &task);
        proof {
            let after = mapped_bytes(*res);
            assert forall|i: int| 0 <= i < d implies (#[trigger] matrix_of_bytes(after, n, d)[i])
                == scaled_column(before[i], square_sums(before, n)) by {
                lemma_chunk_is_column(after, n, d, i);
                lemma_chunk_is_column(input, n, d, i);
                assert(chunk_scaled(row_sum@, chunk_of(input, 4 * n, i), chunk_of(after, 4 * n, i)));
            }
            assert(matrix_of_bytes(after, n, d) =~= normalized(before));
        }
    }

    /// Gathers entity `j`'s vector from the columns of a generation.
    pub fn embedding_of(&self, res: &MmapMut, j: usize) -> (vector: Vec<u32>)
        requires
            self.wf(),
            self.holds_matrix(res),
            j < self.source.entities_count(),
        ensures
            vector@ == row_vector(self.matrix(res), j as int),
    {
        let mut vector: Vec<u32> = Vec::with_capacity(self.dimension as usize);
        let mut i: usize = 0;
        while i < self.dimension as usize
            invariant
                i <= self.dimension,
                self.wf(),
                j < self.source.entities_count(),
                self.holds_matrix(res),
                vector@.len() == i,
                forall|q: int| 0 <= q < i ==> vector@[q] == self.matrix(res)[q][j as int],
            decreases self.dimension - i,
        {
            vector.push(self.get(res, i, j));
            i += 1;
        }
        assert(vector@ =~= row_vector(self.matrix(res), j as int));
        vector
    }

    /// Emits the metadata, then the record of every entity whose slot is in
    /// use and whose name resolved, in index order, then the closing signal.
    pub fn persist(&self, res: &MmapMut, names: &Vec<Option<String>>) -> (out: Vec<Emission>)
        requires
            self.wf(),
            self.holds_matrix(res),
            names@.len() == self.source.entities_count(),
        ensures
            emissions_view(&out) == emissions(
                self.source.hashes@,
                self.source.occurrences@,
                names_view(names),
                self.matrix(res),
            ),
    {
        let entities_count: u32 = self.source.get_entity_counter();
        let mut out: Vec<Emission> = Vec::new();
        out.push(Emission::Metadata { entity_count: entities_count, dimension: self.dimension });
        let ghost first = emissions_view(&out);
        let ghost hashes = self.source.hashes@;
        let ghost occurrences = self.source.occurrences@;
        let ghost resolved = names_view(names);
        let ghost m = self.matrix(res);
        assert(first =~= seq![
            EmissionModel::Metadata { entity_count: hashes.len() as u32, dimension: m.len() as u16 },
        ]);
        let mut j: usize = 0;
        while j < entities_count as usize
            invariant
                j <= entities_count,
                entities_count == self.source.entities_count(),
                self.wf(),
                self.holds_matrix(res),
                names@.len() == entities_count,
                hashes == self.source.hashes@,
                occurrences == self.source.occurrences@,
                resolved == names_view(names),
                m == self.matrix(res),
                emissions_view(&out) == first + records(hashes, occurrences, resolved, m, j as nat),
            decreases entities_count - j,
        {
            let ghost before = emissions_view(&out);
            if self.source.hashes[j] != EMPTY_HASH {
                match &names[j] {
                    Some(name) => {
                        let vector = self.embedding_of(res, j);
                        out.push(
                            Emission::Data {
                                entity: name.clone(),
                                occur_count: self.source.occurrences[j],
                                vector,
                            },
                        );
                        assert(resolved[j as int] == Some(name@));
                        assert(emissions_view(&out) =~= before.push(
                            record_of(occurrences, resolved, m, j as int),
                        ));
                    },
                    None => {
                        assert(resolved[j as int] is None);
                    },
                }
            }
            assert(emissions_view(&out) =~= first + records(
                hashes,
                occurrences,
                resolved,
                m,
                (j + 1) as nat,
            ));
            j += 1;
        }
        let ghost body = emissions_view(&out);
        out.push(Emission::Finish);
        assert(emissions_view(&out) =~= body + seq![EmissionModel::Finish]);
        out
    }
}

} // verus!
