//! What a run hands to the embedding writer: one metadata record, one data
//! record for each retained entity, and a closing signal.

use crate::model::row_vector;
use crate::sparse::EMPTY_HASH;
use vstd::prelude::*;

verus! {

/// One call owed to the embedding writer.
#[derive(Debug, PartialEq, Eq)]
pub enum Emission {
    /// Announces the entity count and the dimension; comes first.
    Metadata { entity_count: u32, dimension: u16 },
    /// One retained entity: its name, the occurrence count of its hash and
    /// its vector as single-precision patterns.
    Data { entity: String, occur_count: u32, vector: Vec<u32> },
    /// Closes the output; comes last.
    Finish,
}

/// An emission as mathematics.
pub enum EmissionModel {
    Metadata { entity_count: u32, dimension: u16 },
    Data { entity: Seq<char>, occur_count: u32, vector: Seq<u32> },
    Finish,
}

impl View for Emission {
    type V = EmissionModel;

    open spec fn view(&self) -> EmissionModel {
        match self {
            Emission::Metadata { entity_count, dimension } => EmissionModel::Metadata {
                entity_count: *entity_count,
                dimension: *dimension,
            },
            Emission::Data { entity, occur_count, vector } => EmissionModel::Data {
                entity: entity@,
                occur_count: *occur_count,
                vector: vector@,
            },
            Emission::Finish => EmissionModel::Finish,
        }
    }
}

/// The emissions of a vector, each by its view.
pub open spec fn emissions_view(out: &Vec<Emission>) -> Seq<EmissionModel> {
    Seq::new(out@.len(), |k: int| out@[k]@)
}

/// The resolved names of the entities, each by its view.
pub open spec fn names_view(names: &Vec<Option<String>>) -> Seq<Option<Seq<char>>> {
    Seq::new(
        names@.len(),
        |j: int|
            match names@[j] {
                Some(name) => Some(name@),
                None => None,
            },
    )
}

/// Whether entity `j` is written out: its slot is in use and its name resolved.
pub open spec fn retained(hashes: Seq<i64>, names: Seq<Option<Seq<char>>>, j: int) -> bool {
    hashes[j] != EMPTY_HASH && names[j] is Some
}

/// The data record of entity `j`.
pub open spec fn record_of(
    occurrences: Seq<u32>,
    names: Seq<Option<Seq<char>>>,
    m: Seq<Seq<u32>>,
    j: int,
) -> EmissionModel {
    EmissionModel::Data { entity: names[j].unwrap(), occur_count: occurrences[j], vector: row_vector(m, j) }
}

/// The data records of the retained entities among the first `count`, in index order.
pub open spec fn records(
    hashes: Seq<i64>,
    occurrences: Seq<u32>,
    names: Seq<Option<Seq<char>>>,
    m: Seq<Seq<u32>>,
    count: nat,
) -> Seq<EmissionModel>
    decreases count,
{
    if count == 0 {
        Seq::empty()
    } else {
        let earlier = records(hashes, occurrences, names, m, (count - 1) as nat);
        if retained(hashes, names, count - 1) {
            earlier.push(record_of(occurrences, names, m, count - 1))
        } else {
            earlier
        }
    }
}

/// Everything a run emits: the metadata, the records, the closing signal.
pub open spec fn emissions(
    hashes: Seq<i64>,
    occurrences: Seq<u32>,
    names: Seq<Option<Seq<char>>>,
    m: Seq<Seq<u32>>,
) -> Seq<EmissionModel> {
    seq![EmissionModel::Metadata { entity_count: hashes.len() as u32, dimension: m.len() as u16 }]
        + records(hashes, occurrences, names, m, hashes.len()) + seq![EmissionModel::Finish]
}

/// Number of retained entities among the first `count`.
pub open spec fn retained_count(hashes: Seq<i64>, names: Seq<Option<Seq<char>>>, count: nat) -> nat
    decreases count,
{
    if count == 0 {
        0
    } else {
        retained_count(hashes, names, (count - 1) as nat) + if retained(hashes, names, count - 1) {
            1nat
        } else {
            0nat
        }
    }
}

/// Filtering: there are exactly as many data records as retained entities,
/// and every record is the record of a retained entity. An entity with the
/// empty hash, or one whose name did not resolve, contributes nothing.
pub proof fn lemma_records_are_of_retained(
    hashes: Seq<i64>,
    occurrences: Seq<u32>,
    names: Seq<Option<Seq<char>>>,
    m: Seq<Seq<u32>>,
    count: nat,
)
    ensures
        records(hashes, occurrences, names, m, count).len() == retained_count(hashes, names, count),
        forall|k: int|
            0 <= k < records(hashes, occurrences, names, m, count).len() ==> exists|j: int|
                0 <= j < count && retained(hashes, names, j) && #[trigger] records(
                    hashes,
                    occurrences,
                    names,
                    m,
                    count,
                )[k] == record_of(occurrences, names, m, j),
    decreases count,
{
    if count > 0 {
        lemma_records_are_of_retained(hashes, occurrences, names, m, (count - 1) as nat);
        let earlier = records(hashes, occurrences, names, m, (count - 1) as nat);
        let all = records(hashes, occurrences, names, m, count);
        assert forall|k: int| 0 <= k < all.len() implies exists|j: int|
            0 <= j < count && retained(hashes, names, j) && #[trigger] all[k] == record_of(
                occurrences,
                names,
                m,
                j,
            ) by {
            if k < earlier.len() {
                let j = choose|j: int|
                    0 <= j < count - 1 && retained(hashes, names, j) && earlier[k] == record_of(
                        occurrences,
                        names,
                        m,
                        j,
                    );
                assert(all[k] == record_of(occurrences, names, m, j));
            } else {
                assert(all[k] == record_of(occurrences, names, m, count - 1));
            }
        }
    }
}

/// Framing: the metadata comes first and once, the closing signal last and
/// once, and everything between them is the data record of a retained entity.
pub proof fn lemma_emissions_are_framed(
    hashes: Seq<i64>,
    occurrences: Seq<u32>,
    names: Seq<Option<Seq<char>>>,
    m: Seq<Seq<u32>>,
)
    ensures
        emissions(hashes, occurrences, names, m).len() == retained_count(hashes, names, hashes.len()) + 2,
        emissions(hashes, occurrences, names, m)[0] == (EmissionModel::Metadata {
            entity_count: hashes.len() as u32,
            dimension: m.len() as u16,
        }),
        emissions(hashes, occurrences, names, m).last() == EmissionModel::Finish,
        forall|k: int|
            1 <= k < emissions(hashes, occurrences, names, m).len() - 1 ==> #[trigger] emissions(
                hashes,
                occurrences,
                names,
                m,
            )[k] is Data,
{
    lemma_records_are_of_retained(hashes, occurrences, names, m, hashes.len());
    let body = records(hashes, occurrences, names, m, hashes.len());
    let out = emissions(hashes, occurrences, names, m);
    assert forall|k: int| 1 <= k < out.len() - 1 implies #[trigger] out[k] is Data by {
        assert(out[k] == body[k - 1]);
    }
}

} // verus!
