//! What the rotation does to the generation files, as a model, and what
//! holds of it: never more than two generations at once, no generation read
//! before it is computed, none removed before its successor is flushed,
//! nothing left at the end, and the same matrix written out as the in-memory
//! strategy computes.

use crate::model::{generation, initial_matrix, next_power, normalized};
use crate::rotation::{epilogue, lemma_rounds_index, lemma_rounds_len, prologue, round, rounds, schedule, Step};
use crate::sparse::Entry;
use vstd::prelude::*;

verus! {

/// The generation files of a run, as far as the rotation is concerned.
pub struct Disk {
    /// The matrix in each generation file that exists; `None` while the
    /// file is created but not yet computed.
    pub files: Map<u16, Option<Seq<Seq<u32>>>>,
    /// The generations whose file holds everything computed so far.
    pub flushed: Set<u16>,
    /// The matrix written out as the result, once it has been.
    pub persisted: Option<Seq<Seq<u32>>>,
}

/// The inputs that the steps compute from.
pub struct Inputs {
    pub hashes: Seq<i64>,
    pub entries: Seq<Entry>,
    pub dimension: nat,
}

/// No file, nothing written out.
pub open spec fn empty_disk() -> Disk {
    Disk { files: Map::empty(), flushed: Set::empty(), persisted: None }
}

/// At most two generation files exist.
pub open spec fn at_most_two(files: Map<u16, Option<Seq<Seq<u32>>>>) -> bool {
    forall|a: u16, b: u16, c: u16|
        files.contains_key(a) && files.contains_key(b) && files.contains_key(c) ==> a == b || b == c
            || a == c
}

/// Whether the generation's file exists and holds a computed matrix.
pub open spec fn computed(disk: Disk, generation: u16) -> bool {
    disk.files.contains_key(generation) && disk.files[generation] is Some
}

/// Whether a step may be taken: it creates no third file and only the
/// successor of the one that exists, touches only files that exist, reads
/// only what has been computed, accumulates only from a flushed generation
/// into its successor, and removes a generation only once its successor,
/// accumulated from it and normalized, is flushed or, for the last one, once
/// it has been written out.
pub open spec fn permitted(disk: Disk, step: Step, inputs: Inputs) -> bool {
    match step {
        Step::Create { generation } => {
            &&& !disk.files.contains_key(generation)
            &&& forall|other: u16| disk.files.contains_key(other) ==> other + 1 == generation
        },
        Step::Initialize { generation } => disk.files.contains_key(generation),
        Step::Accumulate { from, into } => {
            &&& from + 1 == into
            &&& computed(disk, from)
            &&& disk.files.contains_key(into)
            &&& disk.flushed.contains(from)
        },
        Step::Normalize { generation } => computed(disk, generation),
        Step::Flush { generation } => computed(disk, generation),
        Step::Remove { generation } => {
            &&& computed(disk, generation)
            &&& {
                ||| {
                    &&& generation < u16::MAX
                    &&& disk.files.contains_key((generation + 1) as u16)
                    &&& disk.files[(generation + 1) as u16] == Some(
                        normalized(next_power(disk.files[generation].unwrap(), inputs.entries)),
                    )
                    &&& disk.flushed.contains((generation + 1) as u16)
                }
                ||| disk.persisted == disk.files[generation]
            }
        },
        Step::Persist { generation } => computed(disk, generation) && disk.flushed.contains(generation),
    }
}

/// The generations a step names.
pub open spec fn names_generation(step: Step, generation: u16) -> bool {
    match step {
        Step::Create { generation: g } => g == generation,
        Step::Initialize { generation: g } => g == generation,
        Step::Accumulate { from, into } => from == generation || into == generation,
        Step::Normalize { generation: g } => g == generation,
        Step::Flush { generation: g } => g == generation,
        Step::Remove { generation: g } => g == generation,
        Step::Persist { generation: g } => g == generation,
    }
}

/// The files after a step.
pub open spec fn perform(disk: Disk, step: Step, inputs: Inputs) -> Disk {
    match step {
        Step::Create { generation } => Disk {
            files: disk.files.insert(generation, None),
            flushed: disk.flushed.remove(generation),
            ..disk
        },
        Step::Initialize { generation } => Disk {
            files: disk.files.insert(generation, Some(initial_matrix(inputs.hashes, inputs.dimension))),
            flushed: disk.flushed.remove(generation),
            ..disk
        },
        Step::Accumulate { from, into } => Disk {
            files: disk.files.insert(into, Some(next_power(disk.files[from].unwrap(), inputs.entries))),
            flushed: disk.flushed.remove(into),
            ..disk
        },
        Step::Normalize { generation } => Disk {
            files: disk.files.insert(generation, Some(normalized(disk.files[generation].unwrap()))),
            flushed: disk.flushed.remove(generation),
            ..disk
        },
        Step::Flush { generation } => Disk { flushed: disk.flushed.insert(generation), ..disk },
        Step::Remove { generation } => Disk {
            files: disk.files.remove(generation),
            flushed: disk.flushed.remove(generation),
            ..disk
        },
        Step::Persist { generation } => Disk { persisted: disk.files[generation], ..disk },
    }
}

/// The files after the first `count` steps of a run of `max_iter` rounds.
pub open spec fn disk_after(inputs: Inputs, max_iter: u8, count: nat) -> Disk
    decreases count,
{
    if count == 0 {
        empty_disk()
    } else {
        perform(
            disk_after(inputs, max_iter, (count - 1) as nat),
            schedule(max_iter)[count - 1],
            inputs,
        )
    }
}

/// Generation `k` of the run.
pub open spec fn matrix_of(inputs: Inputs, k: nat) -> Seq<Seq<u32>> {
    generation(inputs.hashes, inputs.entries, inputs.dimension, k)
}

/// The files between rounds: generation `k` alone, flushed.
pub open spec fn settled(inputs: Inputs, k: u16) -> Disk {
    Disk {
        files: Map::empty().insert(k, Some(matrix_of(inputs, k as nat))),
        flushed: Set::empty().insert(k),
        persisted: None,
    }
}

/// The files after `r` steps of round `k`.
pub open spec fn within_round(inputs: Inputs, k: u16, r: nat) -> Disk {
    let current = matrix_of(inputs, k as nat);
    let next = (k + 1) as u16;
    let raw = next_power(current, inputs.entries);
    let one = Map::<u16, Option<Seq<Seq<u32>>>>::empty().insert(k, Some(current));
    let only = Set::<u16>::empty().insert(k);
    if r == 0 {
        settled(inputs, k)
    } else if r == 1 {
        Disk { files: one.insert(next, None), flushed: only, persisted: None }
    } else if r == 2 {
        Disk { files: one.insert(next, Some(raw)), flushed: only, persisted: None }
    } else if r == 3 {
        Disk { files: one.insert(next, Some(raw)), flushed: only.insert(next), persisted: None }
    } else if r == 4 {
        Disk { files: one.insert(next, Some(normalized(raw))), flushed: only, persisted: None }
    } else if r == 5 {
        Disk { files: one.insert(next, Some(normalized(raw))), flushed: only.insert(next), persisted: None }
    } else {
        settled(inputs, next)
    }
}

/// Two disks with the same files, flushed set and result are the same.
proof fn lemma_disk_equal(a: Disk, b: Disk)
    requires
        a.files =~= b.files,
        a.flushed =~= b.flushed,
        a.persisted == b.persisted,
    ensures
        a == b,
{
}

/// The prologue leaves generation zero alone, normalized and flushed, and
/// each of its steps is permitted.
proof fn lemma_prologue(inputs: Inputs, max_iter: u8)
    ensures
        disk_after(inputs, max_iter, 5) == settled(inputs, 0),
        forall|p: nat|
            p < 5 ==> permitted(#[trigger] disk_after(inputs, max_iter, p), schedule(max_iter)[p as int], inputs)
                && at_most_two(disk_after(inputs, max_iter, p).files),
{
    let s = schedule(max_iter);
    assert(s[0] == prologue()[0] && s[1] == prologue()[1] && s[2] == prologue()[2] && s[3]
        == prologue()[3] && s[4] == prologue()[4]);
    let init = initial_matrix(inputs.hashes, inputs.dimension);
    let none = Set::<u16>::empty();
    let d0 = disk_after(inputs, max_iter, 0);
    let d1 = disk_after(inputs, max_iter, 1);
    let d2 = disk_after(inputs, max_iter, 2);
    let d3 = disk_after(inputs, max_iter, 3);
    let d4 = disk_after(inputs, max_iter, 4);
    let d5 = disk_after(inputs, max_iter, 5);
    assert(d0 == empty_disk());
    assert(d1 == perform(d0, s[0], inputs));
    lemma_disk_equal(d1, Disk { files: Map::empty().insert(0u16, None), flushed: none, persisted: None });
    assert(d2 == perform(d1, s[1], inputs));
    lemma_disk_equal(
        d2,
        Disk { files: Map::empty().insert(0u16, Some(init)), flushed: none, persisted: None },
    );
    assert(d3 == perform(d2, s[2], inputs));
    lemma_disk_equal(
        d3,
        Disk { files: Map::empty().insert(0u16, Some(init)), flushed: none.insert(0u16), persisted: None },
    );
    assert(d4 == perform(d3, s[3], inputs));
    lemma_disk_equal(
        d4,
        Disk { files: Map::empty().insert(0u16, Some(normalized(init))), flushed: none, persisted: None },
    );
    assert(d5 == perform(d4, s[4], inputs));
    lemma_disk_equal(d5, settled(inputs, 0));
    assert forall|p: nat| p < 5 implies permitted(
        #[trigger] disk_after(inputs, max_iter, p),
        schedule(max_iter)[p as int],
        inputs,
    ) && at_most_two(disk_after(inputs, max_iter, p).files) by {
        if p == 0 {
        } else if p == 1 {
        } else if p == 2 {
        } else if p == 3 {
        } else {
        }
    }
}

/// After `r` steps of round `k` the files are as `within_round` says.
proof fn lemma_disk_in_round(inputs: Inputs, max_iter: u8, k: u16, r: nat)
    requires
        k < max_iter,
        r <= 6,
    ensures
        disk_after(inputs, max_iter, 5 + 6 * (k as nat) + r) == within_round(inputs, k, r),
    decreases 7 * k + r,
{
    let s = schedule(max_iter);
    let here = 5 + 6 * (k as nat) + r;
    if r == 0 {
        if k == 0 {
            lemma_prologue(inputs, max_iter);
        } else {
            lemma_disk_in_round(inputs, max_iter, (k - 1) as u16, 6);
        }
    } else {
        lemma_disk_in_round(inputs, max_iter, k, (r - 1) as nat);
        lemma_rounds_index(max_iter as nat, k as nat, (r - 1) as nat);
        lemma_rounds_len(max_iter as nat);
        assert(s[here - 1] == rounds(max_iter as nat)[6 * (k as nat) + r - 1]);
        assert(s[here - 1] == round(k)[r - 1]);
        let before = within_round(inputs, k, (r - 1) as nat);
        assert(disk_after(inputs, max_iter, here) == perform(before, s[here - 1], inputs));
        lemma_disk_equal(perform(before, round(k)[r - 1], inputs), within_round(inputs, k, r));
    }
}

/// Between rounds, generation `k` alone exists, flushed.
pub proof fn lemma_disk_between_rounds(inputs: Inputs, max_iter: u8, k: u16)
    requires
        k <= max_iter,
    ensures
        disk_after(inputs, max_iter, 5 + 6 * (k as nat)) == settled(inputs, k),
{
    if k == 0 {
        lemma_prologue(inputs, max_iter);
    } else {
        lemma_disk_in_round(inputs, max_iter, (k - 1) as u16, 6);
    }
}

/// Every step of the schedule is permitted when its turn comes, and at no
/// point do more than two generation files exist.
pub proof fn lemma_schedule_is_permitted(inputs: Inputs, max_iter: u8, position: nat)
    requires
        position < schedule(max_iter).len(),
    ensures
        permitted(disk_after(inputs, max_iter, position), schedule(max_iter)[position as int], inputs),
        at_most_two(disk_after(inputs, max_iter, position).files),
        forall|generation: u16|
            names_generation(schedule(max_iter)[position as int], generation) ==> generation <= max_iter,
{
    let s = schedule(max_iter);
    lemma_rounds_len(max_iter as nat);
    if position < 5 {
        lemma_prologue(inputs, max_iter);
    } else {
        let within = (position - 5) as nat;
        let k = within / 6;
        let r = within % 6;
        if k < max_iter {
            lemma_disk_in_round(inputs, max_iter, k as u16, r);
            lemma_rounds_index(max_iter as nat, k, r);
            assert(s[position as int] == rounds(max_iter as nat)[within as int]);
            assert(s[position as int] == round(k as u16)[r as int]);
            let disk = within_round(inputs, k as u16, r);
            if r == 0 {
            } else if r == 1 {
            } else if r == 2 {
            } else if r == 3 {
            } else if r == 4 {
            } else {
            }
        } else {
            let last = max_iter as u16;
            lemma_disk_between_rounds(inputs, max_iter, last);
            assert(s[5 + 6 * (max_iter as int)] == epilogue(last)[0]);
            assert(s[6 + 6 * (max_iter as int)] == epilogue(last)[1]);
            if position == 5 + 6 * (max_iter as nat) {
            } else {
                assert(position == 6 + 6 * (max_iter as nat));
                assert(disk_after(inputs, max_iter, position) == perform(
                    settled(inputs, last),
                    s[position - 1],
                    inputs,
                ));
            }
        }
    }
}

/// After the whole schedule no generation file is left, and the matrix
/// written out is generation `max_iter`: the normalized initial matrix
/// propagated `max_iter` times, as the in-memory strategy computes it.
pub proof fn lemma_schedule_outcome(inputs: Inputs, max_iter: u8)
    ensures
        disk_after(inputs, max_iter, schedule(max_iter).len()).files == Map::<
            u16,
            Option<Seq<Seq<u32>>>,
        >::empty(),
        disk_after(inputs, max_iter, schedule(max_iter).len()).persisted == Some(
            generation(inputs.hashes, inputs.entries, inputs.dimension, max_iter as nat),
        ),
{
    let s = schedule(max_iter);
    let last = max_iter as u16;
    let end = 7 + 6 * (max_iter as nat);
    lemma_rounds_len(max_iter as nat);
    lemma_disk_between_rounds(inputs, max_iter, last);
    assert(s[end - 2] == epilogue(last)[0]);
    assert(s[end - 1] == epilogue(last)[1]);
    let d0 = disk_after(inputs, max_iter, (end - 2) as nat);
    let d1 = disk_after(inputs, max_iter, (end - 1) as nat);
    let d2 = disk_after(inputs, max_iter, end);
    assert(d1 == perform(d0, s[end - 2], inputs));
    assert(d2 == perform(d1, s[end - 1], inputs));
    assert(d2.files =~= Map::<u16, Option<Seq<Seq<u32>>>>::empty());
}

/// The result is written out once, between the last round and the last
/// removal, and it is the last generation that is written out.
pub proof fn lemma_persist_position(max_iter: u8, position: nat)
    requires
        position < schedule(max_iter).len(),
        schedule(max_iter)[position as int] is Persist,
    ensures
        position == 5 + 6 * max_iter,
        schedule(max_iter)[position as int] == (Step::Persist { generation: max_iter as u16 }),
{
    let s = schedule(max_iter);
    lemma_rounds_len(max_iter as nat);
    if position < 5 {
        assert(s[position as int] == prologue()[position as int]);
    } else {
        let within = (position - 5) as nat;
        let k = within / 6;
        let r = within % 6;
        if k < max_iter {
            lemma_rounds_index(max_iter as nat, k, r);
            assert(s[position as int] == rounds(max_iter as nat)[within as int]);
        } else {
            assert(s[5 + 6 * (max_iter as int)] == epilogue(max_iter as u16)[0]);
            assert(s[6 + 6 * (max_iter as int)] == epilogue(max_iter as u16)[1]);
        }
    }
}

} // verus!
