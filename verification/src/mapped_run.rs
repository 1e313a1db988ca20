//! A disk-backed run, step by step. The run holds the maps of the
//! generations that exist, carries out the computing steps itself, and asks
//! its caller for the file system work: to create a generation's file, to
//! flush a map, to remove a file.

use crate::layout::byte_len;
use crate::lifecycle::{
    disk_after, lemma_disk_between_rounds, lemma_persist_position, lemma_schedule_is_permitted,
    lemma_schedule_outcome, names_generation, perform, Disk, Inputs,
};
use crate::mapped::MatrixMultiplicatorMMap;
use crate::model::generation;
use crate::output::{emissions, emissions_view, names_view, Emission};
use crate::rotation::{
    generation_file_name, generation_name, lemma_schedule_len, schedule, Rotation, Step,
};
use crate::sparse::SparseSource;
use memmap::MmapMut;
use vstd::prelude::*;

verus! {

/// What the caller of a disk-backed run is asked to do.
#[derive(Debug)]
pub enum Request {
    /// Create the file of this name with the matrix's byte length, map it
    /// and hand the map in with the next call.
    Create { generation: u16, file_name: String },
    /// The map handed in was not asked for, or has another length than the
    /// matrix; it is handed back and nothing has changed.
    Refused { map: MmapMut },
    /// Nothing: a map was taken in, or a computing step was carried out.
    Proceed,
    /// Flush the generation's map to its file, before the next call.
    Flush { generation: u16 },
    /// Drop the map, then delete the file of this name.
    Remove { generation: u16, file_name: String, map: MmapMut },
    /// Hand these emissions to the writer.
    Emit { emissions: Vec<Emission> },
    /// Nothing is left to do.
    Done,
}

/// A disk-backed run in progress.
pub struct MappedRun<'a> {
    mult: MatrixMultiplicatorMMap<'a>,
    names: &'a Vec<Option<String>>,
    rotation: Rotation,
    older: Option<MmapMut>,
    newer: Option<MmapMut>,
    base: u16,
}

impl<'a> MappedRun<'a> {
    /// The multiplicator that computes for the run.
    pub closed spec fn multiplier(&self) -> MatrixMultiplicatorMMap<'a> {
        self.mult
    }

    /// The inputs of the run.
    pub open spec fn inputs(&self) -> Inputs {
        Inputs {
            hashes: self.multiplier().source.hashes@,
            entries: self.multiplier().source.entries@,
            dimension: self.multiplier().dimension as nat,
        }
    }

    /// The occurrence counts of the run.
    pub open spec fn occurrences(&self) -> Seq<u32> {
        self.multiplier().source.occurrences@
    }

    /// The name of a generation's file.
    pub open spec fn file_name(&self, generation: u16) -> Seq<char> {
        generation_name(self.multiplier().sparse_matrix_id@, generation as nat)
    }

    /// The resolved names of the run.
    pub closed spec fn names(&self) -> Seq<Option<Seq<char>>> {
        names_view(self.names)
    }

    /// The number of rounds of the run.
    pub closed spec fn max_iter(&self) -> u8 {
        self.rotation.max_iter
    }

    /// The number of steps taken so far.
    pub closed spec fn position(&self) -> nat {
        self.rotation.position as nat
    }

    /// The matrix the run is to write out: its last generation.
    pub open spec fn outcome(&self) -> Seq<Seq<u32>> {
        generation(
            self.inputs().hashes,
            self.inputs().entries,
            self.inputs().dimension,
            self.max_iter() as nat,
        )
    }

    /// The generation files as the steps taken so far leave them.
    pub open spec fn disk(&self) -> Disk {
        disk_after(self.inputs(), self.max_iter(), self.position())
    }

    /// The map held for a generation, if one is.
    pub closed spec fn held(&self, generation: u16) -> Option<MmapMut> {
        if generation == self.base {
            self.older
        } else if generation == self.base + 1 {
            self.newer
        } else {
            None
        }
    }

    /// Whether a map has the matrix's size and holds what the model says
    /// its generation holds, once that is computed.
    pub open spec fn agrees(&self, map: MmapMut, content: Option<Seq<Seq<u32>>>) -> bool {
        &&& self.multiplier().holds_matrix(&map)
        &&& content is Some ==> self.multiplier().matrix(&map) == content.unwrap()
    }

    /// The run holds a map for exactly the generation files of the model,
    /// and each map holds what the model says.
    pub closed spec fn wf(&self) -> bool {
        &&& self.mult.wf()
        &&& self.names@.len() == self.mult.source.entities_count()
        &&& self.rotation.wf()
        &&& self.newer is Some ==> self.older is Some
        &&& forall|g: u16| #[trigger] self.disk().files.contains_key(g) <==> self.held(g) is Some
        &&& forall|g: u16| #[trigger]
            self.disk().files.contains_key(g) ==> g <= self.max_iter() && self.agrees(
                self.held(g).unwrap(),
                self.disk().files[g],
            )
    }

    /// Whether `after` is the same run as `self`, further on.
    spec fn continues(&self, after: &Self) -> bool {
        &&& after.mult == self.mult
        &&& after.names == self.names
        &&& after.rotation.max_iter == self.rotation.max_iter
    }

    /// The invariant of a run: it holds a map for exactly the generation
    /// files of the model, never more than two, each of the matrix's size
    /// and holding what the model says its generation holds.
    pub proof fn lemma_holds_what_the_model_says(&self, generation: u16)
        requires
            self.wf(),
        ensures
            self.multiplier().wf(),
            self.position() <= schedule(self.max_iter()).len(),
            self.held(generation) is Some <==> self.disk().files.contains_key(generation),
            self.held(generation) is Some ==> self.agrees(
                self.held(generation).unwrap(),
                self.disk().files[generation],
            ),
            forall|a: u16, b: u16, c: u16|
                self.held(a) is Some && self.held(b) is Some && self.held(c) is Some ==> a == b || b == c
                    || a == c,
    {
        assert(self.disk().files.contains_key(generation) <==> self.held(generation) is Some);
    }

    /// A run of `max_iter` rounds, before its first step.
    pub fn new(mult: MatrixMultiplicatorMMap<'a>, names: &'a Vec<Option<String>>, max_iter: u8) -> (run: Self)
        requires
            mult.wf(),
            names@.len() == mult.source.entities_count(),
        ensures
            run.wf(),
            run.max_iter() == max_iter,
            run.position() == 0,
            run.multiplier() == mult,
            run.names() == names_view(names),
    {
        MappedRun { mult, names, rotation: Rotation::new(max_iter), older: None, newer: None, base: 0 }
    }

    /// The size in bytes that every generation's file must have.
    pub fn number_of_bytes(&self) -> (bytes: u64)
        requires
            self.wf(),
        ensures
            bytes == byte_len(self.inputs().hashes.len(), self.inputs().dimension),
    {
        self.mult.number_of_bytes()
    }

    /// Whether a map has the size of the run's matrix.
    pub open spec fn admits(&self, map: MmapMut) -> bool {
        self.multiplier().holds_matrix(&map)
    }

    /// What a call of `advance` owes: a map that was not asked for, or does
    /// not fit, is handed back; otherwise the caller is asked for the map of
    /// the generation to create, or the next step of the schedule is taken
    /// and the caller is told what is left for it to do.
    pub open spec fn answers(&self, after: &Self, supplied: Option<MmapMut>, request: Request) -> bool {
        let position = self.position();
        let steps = schedule(self.max_iter());
        if supplied is Some && !(position < steps.len() && steps[position as int] is Create
            && self.admits(supplied.unwrap())) {
            request == (Request::Refused { map: supplied.unwrap() }) && *after == *self
        } else if position >= steps.len() {
            request is Done && *after == *self && forall|g: u16| self.held(g) is None
        } else {
            match steps[position as int] {
                Step::Create { generation } => if supplied is None {
                    &&& request matches Request::Create { generation: asked, file_name }
                    &&& asked == generation
                    &&& file_name@ == self.file_name(generation)
                    &&& *after == *self
                } else {
                    &&& request is Proceed
                    &&& after.position() == position + 1
                    &&& after.held(generation) == supplied
                },
                Step::Initialize { generation } => request is Proceed && after.position() == position + 1,
                Step::Accumulate { from, into } => request is Proceed && after.position() == position + 1,
                Step::Normalize { generation } => request is Proceed && after.position() == position + 1,
                Step::Flush { generation } => {
                    &&& request == (Request::Flush { generation })
                    &&& after.position() == position + 1
                    &&& after.held(generation) is Some
                },
                Step::Remove { generation } => {
                    &&& request matches Request::Remove { generation: removed, file_name, map }
                    &&& removed == generation
                    &&& file_name@ == self.file_name(generation)
                    &&& self.held(generation) == Some(map)
                    &&& after.position() == position + 1
                    &&& after.held(generation) is None
                },
                Step::Persist { generation } => {
                    &&& request matches Request::Emit { emissions: out }
                    &&& emissions_view(&out) == emissions(
                        self.inputs().hashes,
                        self.occurrences(),
                        self.names(),
                        self.outcome(),
                    )
                    &&& after.position() == position + 1
                },
            }
        }
    }

    /// Takes the map of a generation out of its place.
    fn take_map(&mut self, generation: u16) -> (map: Option<MmapMut>)
        ensures
            map == old(self).held(generation),
            final(self).mult == old(self).mult,
            final(self).names == old(self).names,
            final(self).rotation == old(self).rotation,
            final(self).base == old(self).base,
            final(self).older == (if generation == old(self).base {
                None
            } else {
                old(self).older
            }),
            final(self).newer == (if generation == old(self).base + 1 {
                None
            } else {
                old(self).newer
            }),
    {
        if generation == self.base {
            self.older.take()
        } else if generation as u32 == self.base as u32 + 1 {
            self.newer.take()
        } else {
            None
        }
    }

    /// Puts the map of a generation back in its place.
    fn put_map(&mut self, generation: u16, map: MmapMut)
        requires
            generation == old(self).base || generation == old(self).base + 1,
        ensures
            final(self).mult == old(self).mult,
            final(self).names == old(self).names,
            final(self).rotation == old(self).rotation,
            final(self).base == old(self).base,
            final(self).older == (if generation == old(self).base {
                Some(map)
            } else {
                old(self).older
            }),
            final(self).newer == (if generation == old(self).base {
                old(self).newer
            } else {
                Some(map)
            }),
    {
        if generation == self.base {
            self.older = Some(map);
        } else {
            self.newer = Some(map);
        }
    }

    /// Takes in the map of the generation that the next step creates.
    fn accept(&mut self, generation: u16, map: MmapMut)
        requires
            old(self).wf(),
            old(self).position() < schedule(old(self).max_iter()).len(),
            schedule(old(self).max_iter())[old(self).position() as int] == (Step::Create { generation }),
            old(self).admits(map),
        ensures
            final(self).wf(),
            old(self).continues(final(self)),
            final(self).position() == old(self).position() + 1,
            final(self).held(generation) == Some(map),
    {
        proof {
            lemma_schedule_len(self.rotation.max_iter);
            lemma_schedule_is_permitted(self.inputs(), self.max_iter(), self.position());
        }
        let ghost before = self.disk();
        let ghost start = *self;
        if self.older.is_none() {
            assert forall|g: u16| !before.files.contains_key(g) by {
                assert(start.held(g) is None);
            }
            self.older = Some(map);
            self.base = generation;
        } else {
            assert(before.files.contains_key(self.base));
            assert(self.base + 1 == generation);
            assert(start.held(generation) is None);
            self.newer = Some(map);
        }
        let _ = self.rotation.advance();
        proof {
            let after = self.disk();
            assert(after == perform(before, Step::Create { generation }, self.inputs()));
            assert forall|g: u16| #[trigger] after.files.contains_key(g) <==> self.held(g) is Some by {
                assert(before.files.contains_key(g) <==> start.held(g) is Some);
            }
            assert forall|g: u16| #[trigger] after.files.contains_key(g) implies g <= self.max_iter()
                && self.agrees(self.held(g).unwrap(), after.files[g]) by {
                if g != generation {
                    assert(before.files.contains_key(g));
                    assert(start.held(g) is Some);
                    assert(self.held(g) == start.held(g));
                    assert(start.agrees(start.held(g).unwrap(), before.files[g]));
                } else {
                    assert(names_generation(Step::Create { generation }, generation));
                }
            }
        }
    }

    /// Carries out a step that rewrites one generation: `Initialize` or `Normalize`.
    fn rewrite(&mut self, generation: u16, normalize: bool)
        requires
            old(self).wf(),
            old(self).position() < schedule(old(self).max_iter()).len(),
            schedule(old(self).max_iter())[old(self).position() as int] == (if normalize {
                Step::Normalize { generation }
            } else {
                Step::Initialize { generation }
            }),
        ensures
            final(self).wf(),
            old(self).continues(final(self)),
            final(self).position() == old(self).position() + 1,
    {
        proof {
            lemma_schedule_len(self.rotation.max_iter);
            lemma_schedule_is_permitted(self.inputs(), self.max_iter(), self.position());
        }
        let ghost before = self.disk();
        let ghost step = schedule(self.max_iter())[self.position() as int];
        assert(before.files.contains_key(generation));
        let mut map = self.take_map(generation).unwrap();
        if normalize {
            self.mult.normalize(&mut map);
        } else {
            self.mult.initialize(&mut map);
        }
        self.put_map(generation, map);
        let _ = self.rotation.advance();
        proof {
            assert(self.disk() == perform(before, step, self.inputs()));
        }
    }

    /// Carries out an `Accumulate` step.
    fn accumulate(&mut self, from: u16, into: u16)
        requires
            old(self).wf(),
            old(self).position() < schedule(old(self).max_iter()).len(),
            schedule(old(self).max_iter())[old(self).position() as int] == (Step::Accumulate { from, into }),
        ensures
            final(self).wf(),
            old(self).continues(final(self)),
            final(self).position() == old(self).position() + 1,
    {
        proof {
            lemma_schedule_len(self.rotation.max_iter);
            lemma_schedule_is_permitted(self.inputs(), self.max_iter(), self.position());
        }
        let ghost before = self.disk();
        assert(before.files.contains_key(from));
        assert(before.files.contains_key(into));
        let mut next = self.take_map(into).unwrap();
        self.mult.next_power(self.map_of(from).unwrap(), &mut next);
        self.put_map(into, next);
        let _ = self.rotation.advance();
        proof {
            assert(self.disk() == perform(before, Step::Accumulate { from, into }, self.inputs()));
        }
    }

    /// Carries out a `Flush` step, as far as the run is concerned.
    fn pass_flush(&mut self, generation: u16)
        requires
            old(self).wf(),
            old(self).position() < schedule(old(self).max_iter()).len(),
            schedule(old(self).max_iter())[old(self).position() as int] == (Step::Flush { generation }),
        ensures
            final(self).wf(),
            old(self).continues(final(self)),
            final(self).position() == old(self).position() + 1,
            final(self).held(generation) is Some,
    {
        proof {
            lemma_schedule_len(self.rotation.max_iter);
            lemma_schedule_is_permitted(self.inputs(), self.max_iter(), self.position());
        }
        let ghost before = self.disk();
        assert(before.files.contains_key(generation));
        let _ = self.rotation.advance();
        proof {
            assert(self.disk() == perform(before, Step::Flush { generation }, self.inputs()));
        }
    }

    /// Carries out a `Remove` step: gives the generation's map up.
    fn release(&mut self, generation: u16) -> (map: MmapMut)
        requires
            old(self).wf(),
            old(self).position() < schedule(old(self).max_iter()).len(),
            schedule(old(self).max_iter())[old(self).position() as int] == (Step::Remove { generation }),
        ensures
            final(self).wf(),
            old(self).continues(final(self)),
            final(self).position() == old(self).position() + 1,
            old(self).held(generation) == Some(map),
            final(self).held(generation) is None,
    {
        proof {
            lemma_schedule_len(self.rotation.max_iter);
            lemma_schedule_is_permitted(self.inputs(), self.max_iter(), self.position());
        }
        let ghost before = self.disk();
        assert(before.files.contains_key(generation));
        let map = self.take_map(generation).unwrap();
        if self.older.is_none() && self.newer.is_some() {
            assert(before.files.contains_key((self.base + 1) as u16));
            self.older = self.newer.take();
            self.base = self.base + 1;
        }
        let _ = self.rotation.advance();
        proof {
            assert(self.disk() == perform(before, Step::Remove { generation }, self.inputs()));
        }
        map
    }

    /// Carries out the `Persist` step.
    fn emit(&mut self, generation: u16) -> (out: Vec<Emission>)
        requires
            old(self).wf(),
            old(self).position() < schedule(old(self).max_iter()).len(),
            schedule(old(self).max_iter())[old(self).position() as int] == (Step::Persist { generation }),
        ensures
            final(self).wf(),
            old(self).continues(final(self)),
            final(self).position() == old(self).position() + 1,
            emissions_view(&out) == emissions(
                old(self).inputs().hashes,
                old(self).occurrences(),
                old(self).names(),
                old(self).outcome(),
            ),
    {
        proof {
            lemma_schedule_len(self.rotation.max_iter);
            lemma_schedule_is_permitted(self.inputs(), self.max_iter(), self.position());
            lemma_persist_position(self.max_iter(), self.position());
            lemma_disk_between_rounds(self.inputs(), self.max_iter(), self.max_iter() as u16);
        }
        let ghost before = self.disk();
        assert(before.files.contains_key(generation));
        let out = self.mult.persist(self.map_of(generation).unwrap(), self.names);
        let _ = self.rotation.advance();
        proof {
            assert(self.disk() == perform(before, Step::Persist { generation }, self.inputs()));
        }
        out
    }

    /// Takes the next step of the run. `supplied` is the map of the
    /// generation that the run last asked its caller to create, and `None`
    /// at every other call.
    pub fn advance(&mut self, supplied: Option<MmapMut>) -> (request: Request)
        requires
            old(self).wf(),
        ensures
            final(self).wf(),
            final(self).multiplier() == old(self).multiplier(),
            final(self).names() == old(self).names(),
            final(self).max_iter() == old(self).max_iter(),
            old(self).answers(final(self), supplied, request),
    {
        proof {
            lemma_schedule_len(self.rotation.max_iter);
        }
        let step = self.rotation.peek();
        match supplied {
            Some(map) => match step {
                Some(Step::Create { generation }) => {
                    if self.mult.fits(&map) {
                        self.accept(generation, map);
                        Request::Proceed
                    } else {
                        Request::Refused { map }
                    }
                },
                _ => Request::Refused { map },
            },
            None => match step {
                None => {
                    proof {
                        lemma_schedule_outcome(self.inputs(), self.max_iter());
                        assert forall|g: u16| self.held(g) is None by {
                            assert(!self.disk().files.contains_key(g));
                        }
                    }
                    Request::Done
                },
                Some(Step::Create { generation }) => Request::Create {
                    generation,
                    file_name: generation_file_name(self.mult.sparse_matrix_id.as_str(), generation),
                },
                Some(Step::Initialize { generation }) => {
                    self.rewrite(generation, false);
                    Request::Proceed
                },
                Some(Step::Accumulate { from, into }) => {
                    self.accumulate(from, into);
                    Request::Proceed
                },
                Some(Step::Normalize { generation }) => {
                    self.rewrite(generation, true);
                    Request::Proceed
                },
                Some(Step::Flush { generation }) => {
                    self.pass_flush(generation);
                    Request::Flush { generation }
                },
                Some(Step::Remove { generation }) => {
                    let map = self.release(generation);
                    let file_name = generation_file_name(self.mult.sparse_matrix_id.as_str(), generation);
                    Request::Remove { generation, file_name, map }
                },
                Some(Step::Persist { generation }) => {
                    let out = self.emit(generation);
                    Request::Emit { emissions: out }
                },
            },
        }
    }

    /// The map held for a generation, if one is.
    pub fn map_of(&self, generation: u16) -> (map: Option<&MmapMut>)
        ensures
            map is Some <==> self.held(generation) is Some,
            map is Some ==> *map.unwrap() == self.held(generation).unwrap(),
    {
        if generation == self.base {
            self.older.as_ref()
        } else if generation as u32 == self.base as u32 + 1 {
            self.newer.as_ref()
        } else {
            None
        }
    }
}

/// Calculates embeddings with memory-mapped files: sets up the run, which
/// its caller then drives with `advance` until it is done. The initial
/// matrix is normalized, then propagated for `max_iter` rounds, each
/// generation in a file of its own, then written out.
///
/// `source` is expected to be row-normalized already; `names` holds, for
/// each entity index, the name its hash resolved to, if any.
pub fn calculate_embeddings_mmap<'a>(
    source: &'a SparseSource,
    sparse_matrix_id: String,
    dimension: u16,
    max_iter: u8,
    names: &'a Vec<Option<String>>,
) -> (run: MappedRun<'a>)
    requires
        source.wf(),
        names@.len() == source.entities_count(),
    ensures
        run.wf(),
        run.max_iter() == max_iter,
        run.position() == 0,
        run.multiplier() == (MatrixMultiplicatorMMap { dimension, sparse_matrix_id, source }),
        run.names() == names_view(names),
{
    MappedRun::new(MatrixMultiplicatorMMap { dimension, sparse_matrix_id, source }, names, max_iter)
}

} // verus!
