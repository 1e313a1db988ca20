//! The in-memory strategy: the evolving matrix is a vector of columns.

use crate::columns::ColumnTask;
use crate::model::{
    generation, initial_matrix, is_matrix, lemma_next_power_is_matrix, lemma_normalized_is_matrix,
    next_power, normalized, propagated, row_vector, square_sum, square_sums, zero_column,
    zero_matrix,
};
use crate::output::{emissions, emissions_view, names_view, record_of, records, Emission, EmissionModel};
use crate::parallel::par_columns;
use crate::single::{add_single, mul_single};
use crate::sparse::{SparseSource, EMPTY_HASH};
use vstd::prelude::*;

verus! {

/// The columns of a matrix held as a vector of vectors.
pub open spec fn matrix_view(m: &Vec<Vec<u32>>) -> Seq<Seq<u32>> {
    Seq::new(m@.len(), |i: int| m@[i]@)
}

/// Computes every entity's sum of squares across the columns.
pub fn sum_squares(res: &Vec<Vec<u32>>, entities_count: usize) -> (sums: Vec<u32>)
    requires
        is_matrix(matrix_view(res), entities_count as nat, res@.len()),
    ensures
        sums@ == square_sums(matrix_view(res), entities_count as nat),
{
    let mut sums: Vec<u32> = vec![0u32; entities_count];
    let mut i: usize = 0;
    while i < res.len()
        invariant
            i <= res@.len(),
            is_matrix(matrix_view(res), entities_count as nat, res@.len()),
            sums@.len() == entities_count,
            forall|q: int| 0 <= q < entities_count ==> sums@[q] == square_sum(matrix_view(res), q, i as nat),
        decreases res@.len() - i,
    {
        let column = &res[i];
        assert(column@ == matrix_view(res)[i as int]);
        let mut j: usize = 0;
        while j < entities_count
            invariant
                j <= entities_count,
                i < res@.len(),
                column@ == matrix_view(res)[i as int],
                column@.len() == entities_count,
                sums@.len() == entities_count,
                forall|q: int| 0 <= q < j ==> sums@[q] == square_sum(matrix_view(res), q, (i + 1) as nat),
                forall|q: int| j <= q < entities_count ==> sums@[q] == square_sum(matrix_view(res), q, i as nat),
            decreases entities_count - j,
        {
            let cell: u32 = column[j];
            let sum: u32 = add_single(sums[j], mul_single(cell, cell));
            sums.set(j, sum);
            j += 1;
        }
        i += 1;
    }
    assert(sums@ =~= square_sums(matrix_view(res), entities_count as nat));
    sums
}

/// Provides matrix multiplication based on sparse matrix data.
#[derive(Debug)]
pub struct MatrixMultiplicator<'a> {
    pub dimension: u16,
    pub sparse_matrix_id: String,
    pub source: &'a SparseSource,
}

impl<'a> MatrixMultiplicator<'a> {
    /// The source is well formed.
    pub open spec fn wf(&self) -> bool {
        self.source.wf()
    }

    /// Whether `res` is a matrix of this run's shape.
    pub open spec fn shaped(&self, res: &Vec<Vec<u32>>) -> bool {
        is_matrix(matrix_view(res), self.source.entities_count(), self.dimension as nat)
    }

    /// Decides `shaped`.
    pub fn has_shape(&self, res: &Vec<Vec<u32>>) -> (ok: bool)
        ensures
            ok == self.shaped(res),
    {
        if res.len() != self.dimension as usize {
            return false;
        }
        let mut i: usize = 0;
        while i < res.len()
            invariant
                i <= res@.len(),
                res@.len() == self.dimension,
                forall|q: int| 0 <= q < i ==> (#[trigger] matrix_view(res)[q]).len() == self.source.entities_count(),
            decreases res@.len() - i,
        {
            if res[i].len() != self.source.hashes.len() {
                assert(matrix_view(res)[i as int].len() != self.source.entities_count());
                return false;
            }
            assert(matrix_view(res)[i as int].len() == self.source.entities_count());
            i += 1;
        }
        true
    }

    /// Reads the cell of entity `j` in column `i`.
    pub fn get(&self, res: &Vec<Vec<u32>>, i: usize, j: usize) -> (bits: u32)
        requires
            self.shaped(res),
            i < self.dimension,
            j < self.source.entities_count(),
        ensures
            bits == matrix_view(res)[i as int][j as int],
    {
        let column = &res[i];
        assert(column@ == matrix_view(res)[i as int]);
        column[j]
    }

    /// Writes the cell of entity `j` in column `i`; every other cell stays.
    pub fn set(&self, res: &mut Vec<Vec<u32>>, i: usize, j: usize, bits: u32)
        requires
            self.shaped(old(res)),
            i < self.dimension,
            j < self.source.entities_count(),
        ensures
            self.shaped(final(res)),
            matrix_view(final(res)) == matrix_view(old(res)).update(
                i as int,
                matrix_view(old(res))[i as int].update(j as int, bits),
            ),
    {
        let ghost before = matrix_view(res);
        assert(res@[i as int]@ == before[i as int]);
        res[i][j] = bits;
        assert(matrix_view(res) =~= before.update(i as int, before[i as int].update(j as int, bits)));
        assert forall|q: int| 0 <= q < matrix_view(res).len() implies (#[trigger] matrix_view(res)[q]).len()
            == self.source.entities_count() by {
            assert(before[q].len() == self.source.entities_count());
        }
    }

    /// Builds the initial matrix: column `i` holds, for each entity with a
    /// valid hash `h`, the stable hash of `h + i` reduced to `[0, 1)`.
    pub fn initialize(&self) -> (res: Vec<Vec<u32>>)
        ensures
            matrix_view(&res) == initial_matrix(self.source.hashes@, self.dimension as nat),
            self.shaped(&res),
    {
        let blank = Self::zero_2d(self.source.hashes.len(), self.dimension as usize);
        let task = ColumnTask::Initialize { hashes: &self.source.hashes };
        let res = par_columns(blank, &task);
        assert(matrix_view(&res) =~= initial_matrix(self.source.hashes@, self.dimension as nat));
        res
    }

    /// A matrix of `col` columns of `row` zeros.
    pub fn zero_2d(row: usize, col: usize) -> (res: Vec<Vec<u32>>)
        ensures
            matrix_view(&res) == zero_matrix(row as nat, col as nat),
            res@.len() == col,
            forall|i: int| 0 <= i < col ==> (#[trigger] res@[i])@ == zero_column(row as nat),
    {
        let mut res: Vec<Vec<u32>> = Vec::with_capacity(col);
        let mut i: usize = 0;
        while i < col
            invariant
                i <= col,
                res@.len() == i,
                forall|q: int| 0 <= q < i ==> (#[trigger] res@[q])@ == zero_column(row as nat),
            decreases col - i,
        {
            let column: Vec<u32> = vec![0u32; row];
            assert(column@ =~= zero_column(row as nat));
            res.push(column);
            i += 1;
        }
        assert(matrix_view(&res) =~= zero_matrix(row as nat, col as nat));
        res
    }

    /// One accumulation step: for every entry and every column,
    /// `new[row] += old[col] * value`, starting from zeros.
    pub fn next_power(&self, res: Vec<Vec<u32>>) -> (next: Vec<Vec<u32>>)
        requires
            self.wf(),
            self.shaped(&res),
        ensures
            matrix_view(&next) == next_power(matrix_view(&res), self.source.entries@),
            self.shaped(&next),
    {
        let entities_count: usize = self.source.hashes.len();
        let rnew = Self::zero_2d(entities_count, self.dimension as usize);
        assert forall|i: int| 0 <= i < res@.len() implies (#[trigger] res@[i])@.len() == entities_count by {
            assert(matrix_view(&res)[i].len() == entities_count);
        }
        let task = ColumnTask::Accumulate { previous: &res, entries: &self.source.entries };
        let next = par_columns(rnew, &task);
        proof {
            assert(matrix_view(&next) =~= next_power(matrix_view(&res), self.source.entries@));
            lemma_next_power_is_matrix(matrix_view(&res), self.source.entries@, entities_count as nat);
        }
        next
    }

    /// L2 normalization of every entity's vector across the columns.
    /// An entity whose sum of squares is zero keeps its vector.
    pub fn normalize(&self, res: Vec<Vec<u32>>) -> (result: Vec<Vec<u32>>)
        requires
            self.shaped(&res),
        ensures
            matrix_view(&result) == normalized(matrix_view(&res)),
            self.shaped(&result),
    {
        let entities_count: usize = self.source.hashes.len();
        let row_sum = sum_squares(&res, entities_count);
        let ghost before = matrix_view(&res);
        assert forall|i: int| 0 <= i < res@.len() implies (#[trigger] res@[i])@.len() == entities_count by {
            assert(matrix_view(&res)[i].len() == entities_count);
        }
        let task = ColumnTask::Scale { sums: &row_sum };
        let result = par_columns(res, &task);
        proof {
            assert(matrix_view(&result) =~= normalized(before));
            lemma_normalized_is_matrix(before, entities_count as nat);
        }
        result
    }

    /// Runs `max_iter` rounds of accumulation followed by normalization.
    pub fn propagate(&self, max_iter: u8, res: Vec<Vec<u32>>) -> (result: Vec<Vec<u32>>)
        requires
            self.wf(),
            self.shaped(&res),
        ensures
            matrix_view(&result) == propagated(matrix_view(&res), self.source.entries@, max_iter as nat),
            self.shaped(&result),
    {
        let ghost start = matrix_view(&res);
        let mut new_res = res;
        let mut i: u8 = 0;
        while i < max_iter
            invariant
                i <= max_iter,
                self.wf(),
                self.shaped(&new_res),
                matrix_view(&new_res) == propagated(start, self.source.entries@, i as nat),
            decreases max_iter - i,
        {
            let next = self.next_power(new_res);
            new_res = self.normalize(next);
            i += 1;
        }
        new_res
    }

    /// Gathers entity `j`'s vector from the columns.
    pub fn embedding_of(&self, res: &Vec<Vec<u32>>, j: usize) -> (vector: Vec<u32>)
        requires
            self.shaped(res),
            j < self.source.entities_count(),
        ensures
            vector@ == row_vector(matrix_view(res), j as int),
    {
        let mut vector: Vec<u32> = Vec::with_capacity(self.dimension as usize);
        let mut i: usize = 0;
        while i < res.len()
            invariant
                i <= res@.len(),
                self.shaped(res),
                j < self.source.entities_count(),
                vector@.len() == i,
                forall|q: int| 0 <= q < i ==> vector@[q] == matrix_view(res)[q][j as int],
            decreases res@.len() - i,
        {
            vector.push(self.get(res, i, j));
            i += 1;
        }
        assert(vector@ =~= row_vector(matrix_view(res), j as int));
        vector
    }

    /// Emits the metadata, then the record of every entity whose slot is in
    /// use and whose name resolved, in index order, then the closing signal.
    pub fn persist(&self, res: Vec<Vec<u32>>, names: &Vec<Option<String>>) -> (out: Vec<Emission>)
        requires
            self.wf(),
            self.shaped(&res),
            names@.len() == self.source.entities_count(),
        ensures
            emissions_view(&out) == emissions(
                self.source.hashes@,
                self.source.occurrences@,
                names_view(names),
                matrix_view(&res),
            ),
    {
        let entities_count: u32 = self.source.get_entity_counter();
        let mut out: Vec<Emission> = Vec::new();
        out.push(Emission::Metadata { entity_count: entities_count, dimension: self.dimension });
        let ghost first = emissions_view(&out);
        let ghost hashes = self.source.hashes@;
        let ghost occurrences = self.source.occurrences@;
        let ghost resolved = names_view(names);
        let ghost m = matrix_view(&res);
        assert(first =~= seq![
            EmissionModel::Metadata { entity_count: hashes.len() as u32, dimension: m.len() as u16 },
        ]);
        let mut j: usize = 0;
        while j < entities_count as usize
            invariant
                j <= entities_count,
                entities_count == self.source.entities_count(),
                self.wf(),
                self.shaped(&res),
                names@.len() == entities_count,
                hashes == self.source.hashes@,
                occurrences == self.source.occurrences@,
                resolved == names_view(names),
                m == matrix_view(&res),
                emissions_view(&out) == first + records(hashes, occurrences, resolved, m, j as nat),
            decreases entities_count - j,
        {
            let ghost before = emissions_view(&out);
            if self.source.hashes[j] != EMPTY_HASH {
                match &names[j] {
                    Some(name) => {
                        let vector = self.embedding_of(&res, j);
                        out.push(
                            Emission::Data {
                                entity: name.clone(),
                                occur_count: self.source.occurrences[j],
                                vector,
                            },
                        );
                        assert(resolved[j as int] == Some(name@));
                        assert(emissions_view(&out) =~= before.push(
                            record_of(occurrences, resolved, m, j as int),
                        ));
                    },
                    None => {
                        assert(resolved[j as int] is None);
                    },
                }
            }
            assert(emissions_view(&out) =~= first + records(
                hashes,
                occurrences,
                resolved,
                m,
                (j + 1) as nat,
            ));
            j += 1;
        }
        let ghost body = emissions_view(&out);
        out.push(Emission::Finish);
        assert(emissions_view(&out) =~= body + seq![EmissionModel::Finish]);
        out
    }
}

/// Calculates embeddings in memory: the initial matrix is normalized, then
/// propagated for `max_iter` rounds, then written out.
///
/// `source` is expected to be row-normalized already; `names` holds, for
/// each entity index, the name its hash resolved to, if any.
pub fn calculate_embeddings(
    source: &SparseSource,
    sparse_matrix_id: String,
    dimension: u16,
    max_iter: u8,
    names: &Vec<Option<String>>,
) -> (out: Vec<Emission>)
    requires
        source.wf(),
        names@.len() == source.entities_count(),
    ensures
        emissions_view(&out) == emissions(
            source.hashes@,
            source.occurrences@,
            names_view(names),
            generation(source.hashes@, source.entries@, dimension as nat, max_iter as nat),
        ),
{
    let mult = MatrixMultiplicator { dimension, sparse_matrix_id, source };
    let init = mult.initialize();
    let first = mult.normalize(init);
    let res = mult.propagate(max_iter, first);
    mult.persist(res, names)
}

} // verus!
