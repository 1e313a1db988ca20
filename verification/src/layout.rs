//! The flat byte layout of a matrix: column-major, four bytes per cell,
//! least significant byte first. Column `i` occupies the cells
//! `i * entities_count .. (i + 1) * entities_count`.

use vstd::prelude::*;

verus! {

/// The 32-bit word stored at byte offset `at`, least significant byte first.
pub open spec fn word_at(bytes: Seq<u8>, at: int) -> u32 {
    (bytes[at] as int + 0x100 * (bytes[at + 1] as int) + 0x1_0000 * (bytes[at + 2] as int) + 0x100_0000
        * (bytes[at + 3] as int)) as u32
}

/// `bytes` with the word `word` stored at byte offset `at`.
pub open spec fn stored(bytes: Seq<u8>, at: int, word: u32) -> Seq<u8> {
    bytes.update(at, (word % 0x100) as u8).update(at + 1, ((word / 0x100) % 0x100) as u8).update(
        at + 2,
        ((word / 0x1_0000) % 0x100) as u8,
    ).update(at + 3, (word / 0x100_0000) as u8)
}

/// Byte offset of cell `(i, j)`: column `i`, entity `j`.
pub open spec fn cell_offset(entities_count: nat, i: int, j: int) -> int {
    (i * entities_count + j) * 4
}

/// Number of bytes of a matrix.
pub open spec fn byte_len(entities_count: nat, dimension: nat) -> nat {
    4 * entities_count * dimension
}

/// The column held in a chunk of `4 * entities_count` bytes.
pub open spec fn column_of_bytes(chunk: Seq<u8>, entities_count: nat) -> Seq<u32> {
    Seq::new(entities_count, |j: int| word_at(chunk, 4 * j))
}

/// The matrix held in a flat region of `byte_len` bytes.
pub open spec fn matrix_of_bytes(bytes: Seq<u8>, entities_count: nat, dimension: nat) -> Seq<Seq<u32>> {
    Seq::new(
        dimension,
        |i: int| Seq::new(entities_count, |j: int| word_at(bytes, cell_offset(entities_count, i, j))),
    )
}

/// Chunk `i` of a region cut into chunks of `chunk_len` bytes.
pub open spec fn chunk_of(bytes: Seq<u8>, chunk_len: nat, i: int) -> Seq<u8> {
    bytes.subrange(i * chunk_len, (i + 1) * chunk_len)
}

/// Every cell of a matrix lies within its region.
pub proof fn lemma_cell_in_bounds(entities_count: nat, dimension: nat, i: int, j: int)
    requires
        0 <= i < dimension,
        0 <= j < entities_count,
    ensures
        0 <= i * entities_count <= i * entities_count + j,
        0 <= cell_offset(entities_count, i, j),
        cell_offset(entities_count, i, j) + 4 <= byte_len(entities_count, dimension),
{
    assert(0 <= i * entities_count && (i + 1) * entities_count <= dimension * entities_count)
        by (nonlinear_arith)
        requires
            0 <= i < dimension,
    ;
    assert((i + 1) * entities_count == i * entities_count + entities_count) by (nonlinear_arith);
    assert(4 * (dimension * entities_count) == 4 * entities_count * dimension) by (nonlinear_arith);
}

/// Distinct cells occupy disjoint bytes.
pub proof fn lemma_cells_disjoint(entities_count: nat, i: int, j: int, k: int, l: int)
    requires
        0 <= j < entities_count,
        0 <= l < entities_count,
        0 <= i,
        0 <= k,
        (i, j) != (k, l),
    ensures
        cell_offset(entities_count, i, j) + 4 <= cell_offset(entities_count, k, l) || cell_offset(
            entities_count,
            k,
            l,
        ) + 4 <= cell_offset(entities_count, i, j),
{
    if i < k {
        assert((i + 1) * entities_count <= k * entities_count) by (nonlinear_arith)
            requires
                i < k,
        ;
        assert((i + 1) * entities_count == i * entities_count + entities_count) by (nonlinear_arith);
    } else if k < i {
        assert((k + 1) * entities_count <= i * entities_count) by (nonlinear_arith)
            requires
                k < i,
        ;
        assert((k + 1) * entities_count == k * entities_count + entities_count) by (nonlinear_arith);
    }
}

/// A stored word is read back, and the words of other cells stay.
pub proof fn lemma_stored_word(bytes: Seq<u8>, at: int, word: u32)
    requires
        0 <= at,
        at + 4 <= bytes.len(),
    ensures
        stored(bytes, at, word).len() == bytes.len(),
        word_at(stored(bytes, at, word), at) == word,
        forall|other: int|
            0 <= other && other + 4 <= bytes.len() && (other + 4 <= at || at + 4 <= other)
                ==> #[trigger] word_at(stored(bytes, at, word), other) == word_at(bytes, other),
{
}

/// Storing cell `j` of a chunk updates entry `j` of the column it holds.
pub proof fn lemma_stored_in_column(chunk: Seq<u8>, entities_count: nat, j: int, word: u32)
    requires
        chunk.len() == 4 * entities_count,
        0 <= j < entities_count,
    ensures
        column_of_bytes(stored(chunk, 4 * j, word), entities_count) == column_of_bytes(
            chunk,
            entities_count,
        ).update(j, word),
{
    lemma_stored_word(chunk, 4 * j, word);
    assert(column_of_bytes(stored(chunk, 4 * j, word), entities_count) =~= column_of_bytes(
        chunk,
        entities_count,
    ).update(j, word));
}

/// Chunk `i` of a region holds column `i` of the matrix in the region.
pub proof fn lemma_chunk_is_column(bytes: Seq<u8>, entities_count: nat, dimension: nat, i: int)
    requires
        bytes.len() == byte_len(entities_count, dimension),
        0 <= i < dimension,
    ensures
        0 <= i * (4 * entities_count),
        (i + 1) * (4 * entities_count) <= bytes.len(),
        chunk_of(bytes, 4 * entities_count, i).len() == 4 * entities_count,
        column_of_bytes(chunk_of(bytes, 4 * entities_count, i), entities_count) == matrix_of_bytes(
            bytes,
            entities_count,
            dimension,
        )[i],
{
    assert(0 <= i * (4 * entities_count) && (i + 1) * (4 * entities_count) <= dimension * (4
        * entities_count)) by (nonlinear_arith)
        requires
            0 <= i < dimension,
    ;
    assert(dimension * (4 * entities_count) == 4 * entities_count * dimension) by (nonlinear_arith);
    assert((i + 1) * (4 * entities_count) == i * (4 * entities_count) + 4 * entities_count)
        by (nonlinear_arith);
    assert(i * (4 * entities_count) == (i * entities_count) * 4) by (nonlinear_arith);
    let chunk = chunk_of(bytes, 4 * entities_count, i);
    assert forall|j: int| 0 <= j < entities_count implies word_at(chunk, 4 * j) == word_at(
        bytes,
        cell_offset(entities_count, i, j),
    ) by {
        assert(cell_offset(entities_count, i, j) == i * (4 * entities_count) + 4 * j);
    }
    assert(column_of_bytes(chunk, entities_count) =~= matrix_of_bytes(bytes, entities_count, dimension)[i]);
}

/// Reads the word at byte offset `at`.
pub fn read_word(bytes: &[u8], at: usize) -> (word: u32)
    requires
        at + 4 <= bytes@.len(),
    ensures
        word == word_at(bytes@, at as int),
{
    let b0: u32 = bytes[at] as u32;
    let b1: u32 = bytes[at + 1] as u32;
    let b2: u32 = bytes[at + 2] as u32;
    let b3: u32 = bytes[at + 3] as u32;
    b0 + 0x100 * b1 + 0x1_0000 * b2 + 0x100_0000 * b3
}

/// Stores `word` at byte offset `at`.
pub fn write_word(bytes: &mut [u8], at: usize, word: u32)
    requires
        at + 4 <= old(bytes)@.len(),
    ensures
        final(bytes)@ == stored(old(bytes)@, at as int, word),
        final(bytes)@.len() == old(bytes)@.len(),
{
    bytes[at] = (word % 0x100) as u8;
    bytes[at + 1] = ((word / 0x100) % 0x100) as u8;
    bytes[at + 2] = ((word / 0x1_0000) % 0x100) as u8;
    bytes[at + 3] = (word / 0x100_0000) as u8;
}

} // verus!
