//! Exact sidecars for immutable flat retrieval.

use crate::index::graph::IndexKind;
use crate::json::{
    distinct_names, fields_model, json_object_fields, object_fields, FieldModel, JsonField,
};
use crate::scalar::{
    field_names, fields_within, law_fields_stay_ordered, lemma_with_fields_within, names_ascend,
    scalar_fields_model, update_scalar_field_stats, with_fields, ScalarField, ScalarFieldModel,
};
use vstd::prelude::*;

verus! {

/// File-backed exact sidecar for immutable flat retrieval.
#[derive(Debug, PartialEq, Eq)]
pub struct FlatIndexSidecar {
    /// Sidecar version.
    pub version: u16,
    /// Segment identifier this sidecar belongs to.
    pub segment_id: String,
    /// Index family represented by the sidecar.
    pub index_kind: IndexKind,
    /// Total segment entry count, including tombstones.
    pub entry_count: usize,
    /// Number of put entries represented by the sidecar.
    pub put_count: usize,
    /// Number of delete entries represented by the sidecar.
    pub delete_count: usize,
    /// Stable offsets into the segment payload sections.
    pub entry_offsets: Vec<FlatIndexOffset>,
    /// Precomputed vector norms for put entries, as binary32 bit patterns.
    pub vector_norms: Vec<Option<u32>>,
    /// Scalar field summaries over top-level metadata fields, ordered by field name.
    pub scalar_fields: Vec<ScalarField>,
}

/// Offsets into the immutable segment payload sections.
#[derive(Clone, Copy, Debug, PartialEq, Eq, Structural)]
pub struct FlatIndexOffset {
    /// Offset into the record id section.
    pub record_id_offset: u64,
    /// Offset into the vector section.
    pub vector_offset: u64,
    /// Offset into the metadata section.
    pub metadata_offset: u64,
}

/// Builder input for one segment entry.
#[derive(Debug)]
pub struct FlatIndexEntrySource {
    /// Whether the segment entry is a put.
    pub is_put: bool,
    /// Offset into the record id section.
    pub record_id_offset: u64,
    /// Offset into the vector section.
    pub vector_offset: u64,
    /// Offset into the metadata section.
    pub metadata_offset: u64,
    /// Raw vector for put entries, as binary32 bit patterns.
    pub vector: Option<Vec<u32>>,
    /// Metadata for put entries, as JSON text.
    pub metadata: Option<String>,
}

/// The offsets of an entry.
pub open spec fn offset_of(entry: FlatIndexEntrySource) -> FlatIndexOffset {
    FlatIndexOffset {
        record_id_offset: entry.record_id_offset,
        vector_offset: entry.vector_offset,
        metadata_offset: entry.metadata_offset,
    }
}

/// The norm kept for an entry: that of the vector of a put, and none otherwise.
pub open spec fn norm_of(entry: FlatIndexEntrySource, norm: u32) -> Option<u32> {
    if entry.is_put && entry.vector is Some {
        Some(norm)
    } else {
        None
    }
}

/// Number of puts among the first `count` entries.
pub open spec fn put_total(entries: Seq<FlatIndexEntrySource>, count: nat) -> nat
    decreases count,
{
    if count == 0 {
        0
    } else {
        put_total(entries, (count - 1) as nat) + if entries[count - 1].is_put {
            1nat
        } else {
            0nat
        }
    }
}

/// Number of fields of the first `count` documents.
pub open spec fn field_total(documents: Seq<Seq<FieldModel>>, count: nat) -> nat
    decreases count,
{
    if count == 0 {
        0
    } else {
        field_total(documents, (count - 1) as nat) + documents[count - 1].len()
    }
}

/// Scalar field summaries of the first `count` documents.
pub open spec fn summarized(documents: Seq<Seq<FieldModel>>, count: nat) -> Seq<ScalarFieldModel>
    decreases count,
{
    if count == 0 {
        Seq::empty()
    } else {
        with_fields(
            summarized(documents, (count - 1) as nat),
            documents[count - 1],
            documents[count - 1].len(),
        )
    }
}

/// The top-level metadata fields that an entry contributes: those of a put whose
/// metadata is an object.
pub open spec fn entry_fields(entry: FlatIndexEntrySource) -> Seq<FieldModel> {
    match entry.metadata {
        Some(metadata) => if entry.is_put {
            json_object_fields(metadata@)
        } else {
            Seq::empty()
        },
        None => Seq::empty(),
    }
}

/// The top-level metadata fields of every entry.
pub open spec fn all_fields(entries: Seq<FlatIndexEntrySource>) -> Seq<Seq<FieldModel>> {
    Seq::new(entries.len(), |i: int| entry_fields(entries[i]))
}

/// Models of documents.
pub open spec fn documents_model(documents: Seq<Vec<JsonField>>) -> Seq<Seq<FieldModel>> {
    Seq::new(documents.len(), |i: int| fields_model(documents[i]@))
}

/// Whether a sidecar is the one of a segment, where `norms` holds the norm of the
/// vector of every entry and `documents` the metadata fields of every entry.
pub open spec fn is_flat_index(
    sidecar: FlatIndexSidecar,
    segment_id: Seq<char>,
    entries: Seq<FlatIndexEntrySource>,
    norms: Seq<u32>,
    documents: Seq<Seq<FieldModel>>,
) -> bool {
    &&& sidecar.version == 1
    &&& sidecar.segment_id@ == segment_id
    &&& sidecar.index_kind == IndexKind::Flat
    &&& sidecar.entry_count == entries.len()
    &&& sidecar.put_count == put_total(entries, entries.len())
    &&& sidecar.delete_count == entries.len() - put_total(entries, entries.len())
    &&& sidecar.entry_offsets@ == Seq::new(entries.len(), |i: int| offset_of(entries[i]))
    &&& sidecar.vector_norms@ == Seq::new(entries.len(), |i: int| norm_of(entries[i], norms[i]))
    &&& scalar_fields_model(sidecar.scalar_fields@) == summarized(documents, entries.len())
}

proof fn lemma_put_total(entries: Seq<FlatIndexEntrySource>, count: nat)
    ensures
        put_total(entries, count) <= count,
    decreases count,
{
    if count > 0 {
        lemma_put_total(entries, (count - 1) as nat);
    }
}

proof fn lemma_field_total(documents: Seq<Seq<FieldModel>>, early: nat, late: nat)
    requires
        early <= late,
    ensures
        field_total(documents, early) <= field_total(documents, late),
    decreases late,
{
    if early < late {
        lemma_field_total(documents, early, (late - 1) as nat);
    }
}

proof fn lemma_summarized_within(documents: Seq<Seq<FieldModel>>, count: nat)
    ensures
        fields_within(summarized(documents, count), field_total(documents, count)),
    decreases count,
{
    if count > 0 {
        lemma_summarized_within(documents, (count - 1) as nat);
        lemma_with_fields_within(
            summarized(documents, (count - 1) as nat),
            documents[count - 1],
            documents[count - 1].len(),
            field_total(documents, (count - 1) as nat),
        );
    }
}

/// Build a flat exact sidecar from segment entries whose metadata fields are given.
///
/// `norms` holds the bit pattern of the norm of every entry's vector; it is not
/// looked at where an entry has none.
pub fn build_flat_index_from_documents(
    segment_id: &str,
    entries: &[FlatIndexEntrySource],
    norms: &[u32],
    documents: &Vec<Vec<JsonField>>,
) -> (sidecar: FlatIndexSidecar)
    requires
        norms@.len() == entries@.len(),
        documents@.len() == entries@.len(),
        field_total(documents_model(documents@), documents@.len()) <= usize::MAX,
    ensures
        is_flat_index(
            sidecar,
            segment_id@,
            entries@,
            norms@,
            documents_model(documents@),
        ),
{
    let ghost fields = documents_model(documents@);
    let mut put_count: usize = 0;
    let mut delete_count: usize = 0;
    let mut vector_norms: Vec<Option<u32>> = Vec::new();
    let mut entry_offsets: Vec<FlatIndexOffset> = Vec::new();
    let mut scalar_fields: Vec<ScalarField> = Vec::new();
    let mut index: usize = 0;
    assert(scalar_fields_model(scalar_fields@) =~= summarized(fields, 0));
    while index < entries.len()
        invariant
            fields == documents_model(documents@),
            norms@.len() == entries@.len(),
            documents@.len() == entries@.len(),
            field_total(fields, fields.len()) <= usize::MAX,
            index <= entries@.len(),
            put_count == put_total(entries@, index as nat),
            put_count + delete_count == index,
            entry_offsets@ =~= Seq::new(index as nat, |i: int| offset_of(entries@[i])),
            vector_norms@ =~= Seq::new(index as nat, |i: int| norm_of(entries@[i], norms@[i])),
            scalar_fields_model(scalar_fields@) == summarized(fields, index as nat),
        decreases entries@.len() - index,
    {
        let entry = &entries[index];
        entry_offsets.push(
            FlatIndexOffset {
                record_id_offset: entry.record_id_offset,
                vector_offset: entry.vector_offset,
                metadata_offset: entry.metadata_offset,
            },
        );
        if entry.is_put {
            put_count = put_count + 1;
            vector_norms.push(
                match &entry.vector {
                    Some(_) => Some(norms[index]),
                    None => None,
                },
            );
        } else {
            delete_count = delete_count + 1;
            vector_norms.push(None);
        }
        proof {
            lemma_summarized_within(fields, index as nat);
            lemma_field_total(fields, (index + 1) as nat, fields.len());
            assert(fields[index as int] == fields_model(documents@[index as int]@));
        }
        update_scalar_field_stats(
            &mut scalar_fields,
            &documents[index],
            Ghost(field_total(fields, index as nat)),
        );
        index = index + 1;
    }
    FlatIndexSidecar {
        version: 1,
        segment_id: segment_id.to_owned(),
        index_kind: IndexKind::Flat,
        entry_count: entries.len(),
        put_count,
        delete_count,
        entry_offsets,
        vector_norms,
        scalar_fields,
    }
}

/// Build a persisted flat exact sidecar from segment entries. There is none where
/// the metadata fields of all entries are too many to be counted.
///
/// `norms` holds the bit pattern of the norm of every entry's vector; it is not
/// looked at where an entry has none.
pub fn build_flat_index(
    segment_id: &str,
    entries: &[FlatIndexEntrySource],
    norms: &[u32],
) -> (sidecar: Option<FlatIndexSidecar>)
    requires
        norms@.len() == entries@.len(),
    ensures
        match sidecar {
            Some(sidecar) => {
                &&& field_total(all_fields(entries@), entries@.len()) <= usize::MAX
                &&& is_flat_index(sidecar, segment_id@, entries@, norms@, all_fields(entries@))
                &&& forall|i: int|
                    0 <= i < entries@.len() ==> distinct_names(
                        #[trigger] all_fields(entries@)[i],
                    )
            },
            None => field_total(all_fields(entries@), entries@.len()) > usize::MAX,
        },
{
    let mut documents: Vec<Vec<JsonField>> = Vec::new();
    let mut total: usize = 0;
    let mut index: usize = 0;
    while index < entries.len()
        invariant
            index <= entries@.len(),
            documents_model(documents@) =~= all_fields(entries@).take(index as int),
            total == field_total(all_fields(entries@), index as nat),
            forall|i: int|
                0 <= i < index ==> distinct_names(#[trigger] all_fields(entries@)[i]),
        decreases entries@.len() - index,
    {
        let entry = &entries[index];
        let fields: Vec<JsonField> = match &entry.metadata {
            Some(metadata) => if entry.is_put {
                object_fields(metadata)
            } else {
                Vec::new()
            },
            None => Vec::new(),
        };
        assert(fields_model(fields@) =~= entry_fields(*entry));
        total = match total.checked_add(fields.len()) {
            Some(sum) => sum,
            None => {
                proof {
                    lemma_field_total(all_fields(entries@), (index + 1) as nat, entries@.len());
                }
                return None;
            },
        };
        let ghost before = documents@;
        let ghost held = fields@;
        documents.push(fields);
        proof {
            let all = all_fields(entries@);
            assert(documents_model(documents@) =~= documents_model(before).push(
                fields_model(held),
            ));
            assert(all[index as int] == fields_model(held));
            assert(all.take(index + 1) =~= all.take(index as int).push(all[index as int]));
        }
        index = index + 1;
    }
    assert(documents_model(documents@) =~= all_fields(entries@));
    Some(build_flat_index_from_documents(segment_id, entries, norms, &documents))
}

/// The scalar summaries of a sidecar are ordered by field name, each field once.
pub proof fn law_summaries_are_ordered(documents: Seq<Seq<FieldModel>>, count: nat)
    ensures
        names_ascend(field_names(summarized(documents, count))),
    decreases count,
{
    if count > 0 {
        law_summaries_are_ordered(documents, (count - 1) as nat);
        lemma_fields_ordered(
            summarized(documents, (count - 1) as nat),
            documents[count - 1],
            documents[count - 1].len(),
        );
    }
}

pub proof fn lemma_fields_ordered(
    fields: Seq<ScalarFieldModel>,
    document: Seq<FieldModel>,
    count: nat,
)
    requires
        names_ascend(field_names(fields)),
    ensures
        names_ascend(field_names(with_fields(fields, document, count))),
    decreases count,
{
    if count > 0 {
        lemma_fields_ordered(fields, document, (count - 1) as nat);
        law_fields_stay_ordered(
            with_fields(fields, document, (count - 1) as nat),
            document[count - 1],
        );
    }
}

proof fn lemma_put_total_counts(entries: Seq<FlatIndexEntrySource>, count: nat)
    requires
        count <= entries.len(),
    ensures
        put_total(entries, count) == entries.take(count as int).filter(
            |entry: FlatIndexEntrySource| entry.is_put,
        ).len(),
    decreases count,
{
    reveal(Seq::filter);
    let taken = entries.take(count as int);
    if count > 0 {
        lemma_put_total_counts(entries, (count - 1) as nat);
        assert(taken.drop_last() =~= entries.take(count - 1));
        assert(taken.last() == entries[count - 1]);
    }
}

/// A flat sidecar counts the entries, the puts and the deletes of its segment, keeps for each entry
/// its own offsets, and a norm for exactly those puts that have a vector: the one given for it.
pub proof fn law_flat_indexes_mirror_their_segments(
    sidecar: FlatIndexSidecar,
    segment_id: Seq<char>,
    entries: Seq<FlatIndexEntrySource>,
    norms: Seq<u32>,
    documents: Seq<Seq<FieldModel>>,
)
    requires
        is_flat_index(sidecar, segment_id, entries, norms, documents),
    ensures
        sidecar.version == 1,
        sidecar.segment_id@ == segment_id,
        sidecar.index_kind == IndexKind::Flat,
        sidecar.entry_count == entries.len(),
        sidecar.put_count == entries.filter(|entry: FlatIndexEntrySource| entry.is_put).len(),
        sidecar.put_count + sidecar.delete_count == sidecar.entry_count,
        sidecar.entry_offsets@.len() == entries.len(),
        sidecar.vector_norms@.len() == entries.len(),
        forall|i: int|
            #![trigger sidecar.entry_offsets@[i]]
            #![trigger sidecar.vector_norms@[i]]
            0 <= i < entries.len() ==> {
                &&& sidecar.entry_offsets@[i].record_id_offset == entries[i].record_id_offset
                &&& sidecar.entry_offsets@[i].vector_offset == entries[i].vector_offset
                &&& sidecar.entry_offsets@[i].metadata_offset == entries[i].metadata_offset
                &&& entries[i].is_put && entries[i].vector is Some ==> sidecar.vector_norms@[i]
                    == Some(norms[i])
                &&& !entries[i].is_put || entries[i].vector is None
                    ==> sidecar.vector_norms@[i] is None
            },
{
    lemma_put_total_counts(entries, entries.len());
    assert(entries.take(entries.len() as int) =~= entries);
}

/// An entry gives fields to the summaries exactly where it is a put with metadata, and then those of
/// its metadata.
pub proof fn law_puts_alone_give_fields(entries: Seq<FlatIndexEntrySource>, i: int)
    requires
        0 <= i < entries.len(),
    ensures
        all_fields(entries).len() == entries.len(),
        entries[i].metadata matches Some(metadata) ==> (entries[i].is_put ==> all_fields(entries)[i]
            == json_object_fields(metadata@)),
        !entries[i].is_put || entries[i].metadata is None ==> all_fields(entries)[i] == Seq::<
            FieldModel,
        >::empty(),
{
}

} // verus!
