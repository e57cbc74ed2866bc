//! Building a whole HNSW sidecar.

use crate::index::construction::{
    covers, inserted, insert_hnsw_entry, law_insert_keeps_graph_sound, lone_node, rows_model,
    uniform, HnswIndexEntrySource,
};
use crate::index::error::{
    invalid_data, invalid_data_error, ErrorModel, IndexError, IndexErrorKind,
};
use crate::index::graph::{HnswBuildParams, HnswIndexSidecar, IndexKind, RecordModel, SidecarModel};
use crate::index::validity::{levels_capped, sound_graph};
use crate::text::{decimal, decimal_text};
use crate::types::DistanceMetric;
use std::hash::{DefaultHasher, Hash, Hasher};
use vstd::prelude::*;
use vstd::std_specs::hash::DefaultHasherAdditionalSpecFns;
use vstd::string::*;

verus! {

/// Version written into new sidecars.
pub const HNSW_VERSION: u16 = 1;

/// Highest level that a node can have.
pub const MAX_HNSW_LEVEL: u8 = 4;

/// How often `value` can be halved without a remainder, `limit` times at most.
pub open spec fn halvings(value: nat, limit: nat) -> nat
    decreases limit,
{
    if limit == 0 || value % 2 != 0 {
        0
    } else {
        1 + halvings(value / 2, (limit - 1) as nat)
    }
}

/// The level of a record with the given hash.
pub open spec fn level_of_hash(hash: u64) -> u8 {
    halvings(hash as nat, MAX_HNSW_LEVEL as nat) as u8
}

proof fn lemma_halvings_bound(value: nat, limit: nat)
    ensures
        halvings(value, limit) <= limit,
    decreases limit,
{
    if limit > 0 && value % 2 == 0 {
        lemma_halvings_bound(value / 2, (limit - 1) as nat);
    }
}

/// The level of a record with the given hash.
pub fn deterministic_level(hash: u64) -> (level: u8)
    ensures
        level == level_of_hash(hash),
        level <= MAX_HNSW_LEVEL,
{
    let mut value: u64 = hash;
    let mut level: u8 = 0;
    proof {
        lemma_halvings_bound(hash as nat, MAX_HNSW_LEVEL as nat);
    }
    while level < MAX_HNSW_LEVEL && value % 2 == 0
        invariant
            level <= MAX_HNSW_LEVEL,
            halvings(hash as nat, MAX_HNSW_LEVEL as nat) == level + halvings(
                value as nat,
                (MAX_HNSW_LEVEL - level) as nat,
            ),
        decreases MAX_HNSW_LEVEL - level,
    {
        level = level + 1;
        value = value / 2;
    }
    level
}

/// Whether feeding a text by `str`'s `Hash` can take a hasher that has been fed `before` to one
/// that has been fed `after`, on whatever machine and with whatever release of std.
pub uninterp spec fn text_feeds(
    text: Seq<char>,
    before: Seq<Seq<u8>>,
    after: Seq<Seq<u8>>,
) -> bool;

/// Whether feeding a number by `u64`'s `Hash` can take a hasher that has been fed `before` to one
/// that has been fed `after`, on whatever machine and with whatever release of std.
pub uninterp spec fn number_feeds(
    number: u64,
    before: Seq<Seq<u8>>,
    after: Seq<Seq<u8>>,
) -> bool;

/// Feed a text to a hasher, by `str`'s `Hash`. All that is claimed is that what has been fed then
/// is what this text can leave behind what was fed before: std does not say which bytes these are,
/// and that they are the same ones everywhere is left unsaid.
#[verifier::external_body]
fn hash_text(hasher: &mut DefaultHasher, text: &str)
    ensures
        text_feeds(text@, old(hasher)@, final(hasher)@),
{
    text.hash(hasher)
}

/// Feed a number to a hasher, by `u64`'s `Hash`. All that is claimed is that what has been fed then
/// is what this number can leave behind what was fed before: the number is fed in the byte order of
/// the machine, so that the bytes are left unsaid.
#[verifier::external_body]
fn hash_number(hasher: &mut DefaultHasher, number: u64)
    ensures
        number_feeds(number, old(hasher)@, final(hasher)@),
{
    number.hash(hasher)
}

/// Whether a number is a hash of a record: what a fresh hasher gives once it has been fed the
/// identifier and then the sequence number.
pub open spec fn is_entry_hash(record_id: Seq<char>, seq_no: u64, hash: u64) -> bool {
    exists|named: Seq<Seq<u8>>, numbered: Seq<Seq<u8>>|
        #[trigger] text_feeds(record_id, Seq::empty(), named) && #[trigger] number_feeds(
            seq_no,
            named,
            numbered,
        ) && hash == DefaultHasher::spec_finish(numbered)
}

/// Whether each record has one of its own hashes.
pub open spec fn are_entry_hashes(entries: Seq<RecordModel>, hashes: Seq<u64>) -> bool {
    &&& hashes.len() == entries.len()
    &&& forall|i: int|
        0 <= i < entries.len() ==> is_entry_hash(
            entries[i].record_id,
            entries[i].seq_no,
            #[trigger] hashes[i],
        )
}

/// Hash of a record identifier and a sequence number.
fn entry_hash(record_id: &str, seq_no: u64) -> (hash: u64)
    ensures
        is_entry_hash(record_id@, seq_no, hash),
{
    let mut hasher = DefaultHasher::new();
    hash_text(&mut hasher, record_id);
    hash_number(&mut hasher, seq_no);
    hasher.finish()
}

/// Models of builder inputs.
pub open spec fn entries_model(entries: Seq<HnswIndexEntrySource>) -> Seq<RecordModel> {
    Seq::new(entries.len(), |i: int| entries[i]@)
}

/// Dimensionality of a sidecar: that of its first entry.
pub open spec fn first_dimensions(entries: Seq<RecordModel>) -> nat {
    if entries.len() == 0 {
        0
    } else {
        entries[0].vector.len()
    }
}

/// The fault of the earliest of the first `count` entries whose vector does not
/// have `dimensions` components.
pub open spec fn dimension_fault(
    entries: Seq<RecordModel>,
    dimensions: nat,
    count: nat,
) -> Option<ErrorModel>
    decreases count,
{
    if count == 0 {
        None
    } else {
        match dimension_fault(entries, dimensions, (count - 1) as nat) {
            Some(fault) => Some(fault),
            None => {
                let entry = entries[count - 1];
                if entry.vector.len() != dimensions {
                    Some(
                        invalid_data(
                            "hnsw entry '"@ + entry.record_id + "' expected "@ + decimal(dimensions)
                                + " dimensions but found "@ + decimal(entry.vector.len()),
                        ),
                    )
                } else {
                    None
                }
            },
        }
    }
}

/// A sidecar without nodes.
pub open spec fn empty_sidecar(
    segment_id: Seq<char>,
    metric: DistanceMetric,
    params: HnswBuildParams,
    dimensions: nat,
) -> SidecarModel {
    SidecarModel {
        version: HNSW_VERSION,
        segment_id,
        index_kind: IndexKind::Hnsw,
        metric,
        dimensions: dimensions as usize,
        params,
        entry_point: None,
        max_level: 0,
        nodes: Seq::empty(),
    }
}

/// `empty` with the first `count` entries inserted in turn, each on the level of
/// its hash.
pub open spec fn filled(
    empty: SidecarModel,
    entries: Seq<RecordModel>,
    hashes: Seq<u64>,
    rows: Seq<Seq<u32>>,
    count: nat,
) -> SidecarModel
    decreases count,
{
    if count == 0 {
        empty
    } else {
        inserted(
            filled(empty, entries, hashes, rows, (count - 1) as nat),
            entries[count - 1],
            level_of_hash(hashes[count - 1]),
            rows,
        )
    }
}

/// The sidecar built from entries with the given hashes, where `rows` holds the
/// metric value of every two of them.
pub open spec fn hnsw_build(
    segment_id: Seq<char>,
    metric: DistanceMetric,
    params: HnswBuildParams,
    entries: Seq<RecordModel>,
    hashes: Seq<u64>,
    rows: Seq<Seq<u32>>,
) -> Result<SidecarModel, ErrorModel> {
    let dimensions = first_dimensions(entries);
    match dimension_fault(entries, dimensions, entries.len()) {
        Some(fault) => Err(fault),
        None => Ok(
            filled(
                empty_sidecar(segment_id, metric, params, dimensions),
                entries,
                hashes,
                rows,
                entries.len(),
            ),
        ),
    }
}

/// The outcome of an executable operation that yields a sidecar, as its model
/// gives it.
pub open spec fn same_sidecar(
    outcome: Result<HnswIndexSidecar, IndexError>,
    expected: Result<SidecarModel, ErrorModel>,
) -> bool {
    match (outcome, expected) {
        (Ok(sidecar), Ok(model)) => sidecar@ == model,
        (Err(error), Err(model)) => error@ == model,
        _ => false,
    }
}

proof fn lemma_dimension_fault_stays(
    entries: Seq<RecordModel>,
    dimensions: nat,
    early: nat,
    late: nat,
)
    requires
        early <= late,
        dimension_fault(entries, dimensions, early) is Some,
    ensures
        dimension_fault(entries, dimensions, late) == dimension_fault(entries, dimensions, early),
    decreases late,
{
    if early < late {
        lemma_dimension_fault_stays(entries, dimensions, early, (late - 1) as nat);
    }
}

pub proof fn lemma_no_dimension_fault(entries: Seq<RecordModel>, dimensions: nat, count: nat)
    requires
        dimension_fault(entries, dimensions, count) is None,
    ensures
        forall|i: int| 0 <= i < count ==> (#[trigger] entries[i]).vector.len() == dimensions,
    decreases count,
{
    if count > 0 {
        lemma_no_dimension_fault(entries, dimensions, (count - 1) as nat);
    }
}

/// Filling a sidecar gives a sound graph with one node per entry, in the order
/// of the entries.
pub proof fn lemma_filled(
    empty: SidecarModel,
    entries: Seq<RecordModel>,
    hashes: Seq<u64>,
    rows: Seq<Seq<u32>>,
    count: nat,
)
    requires
        empty.nodes.len() == 0,
        empty.entry_point is None,
        forall|i: int|
            0 <= i < count ==> (#[trigger] entries[i]).vector.len() == empty.dimensions,
        count <= entries.len(),
        count <= 0x1_0000_0000,
        count <= usize::MAX,
    ensures
        ({
            let sidecar = filled(empty, entries, hashes, rows, count);
            &&& sound_graph(sidecar)
            &&& levels_capped(sidecar)
            &&& uniform(sidecar.nodes, empty.dimensions as nat)
            &&& sidecar.nodes.len() == count
            &&& forall|i: int|
                0 <= i < count ==> (#[trigger] sidecar.nodes[i]).record == entries[i]
                    && sidecar.nodes[i].level == level_of_hash(hashes[i])
            &&& sidecar.version == empty.version
            &&& sidecar.segment_id == empty.segment_id
            &&& sidecar.index_kind == empty.index_kind
            &&& sidecar.metric == empty.metric
            &&& sidecar.dimensions == empty.dimensions
            &&& sidecar.params == empty.params
        }),
    decreases count,
{
    if count > 0 {
        lemma_filled(empty, entries, hashes, rows, (count - 1) as nat);
        let before = filled(empty, entries, hashes, rows, (count - 1) as nat);
        let level = level_of_hash(hashes[count - 1]);
        let after = filled(empty, entries, hashes, rows, count);
        assert(entries[count - 1].vector.len() == empty.dimensions);
        law_insert_keeps_graph_sound(before, entries[count - 1], level, rows);
        let grown = before.nodes.push(lone_node(entries[count - 1], level));
        assert forall|i: int| 0 <= i < count implies (#[trigger] after.nodes[i]).record
            == entries[i] && after.nodes[i].level == level_of_hash(hashes[i]) by {
            assert(after.nodes[i].record == grown[i].record);
            if i < count - 1 {
                assert(grown[i] == before.nodes[i]);
            }
        }
        assert forall|i: int| 0 <= i < count implies (#[trigger] after.nodes[i]).level
            <= after.max_level by {
            assert(after.nodes[i].level == grown[i].level);
            if i < count - 1 {
                assert(before.nodes[i].level <= before.max_level);
            }
        }
    }
}

/// Build a sidecar from entries whose hashes are given.
///
/// `pair_values` holds, in row `i` and column `j`, the bit pattern of the metric
/// value of entry `j` for the vector of entry `i`.
pub fn build_hnsw_from_hashes(
    segment_id: &str,
    metric: DistanceMetric,
    params: HnswBuildParams,
    entries: &[HnswIndexEntrySource],
    hashes: &Vec<u64>,
    pair_values: &Vec<Vec<u32>>,
) -> (outcome: Result<HnswIndexSidecar, IndexError>)
    requires
        entries@.len() <= 0x1_0000_0000,
        hashes@.len() == entries@.len(),
        dimension_fault(
            entries_model(entries@),
            first_dimensions(entries_model(entries@)),
            entries@.len(),
        ) is None ==> covers(rows_model(pair_values@), entries@.len()),
    ensures
        same_sidecar(
            outcome,
            hnsw_build(
                segment_id@,
                metric,
                params,
                entries_model(entries@),
                hashes@,
                rows_model(pair_values@),
            ),
        ),
{
    let ghost records = entries_model(entries@);
    let ghost table = rows_model(pair_values@);
    let dimensions: usize = if entries.len() == 0 {
        0
    } else {
        entries[0].vector.len()
    };
    let mut index: usize = 0;
    while index < entries.len()
        invariant
            records == entries_model(entries@),
            dimensions == first_dimensions(records),
            index <= entries@.len(),
            dimension_fault(records, dimensions as nat, index as nat) is None,
        decreases entries@.len() - index,
    {
        let entry = &entries[index];
        let found: usize = entry.vector.len();
        assert(records[index as int] == entry@);
        if found != dimensions {
            let mut message = "hnsw entry '".to_owned();
            message.append(&entry.record_id);
            message.append("' expected ");
            message.append(&decimal_text(dimensions as u64));
            message.append(" dimensions but found ");
            message.append(&decimal_text(found as u64));
            proof {
                lemma_dimension_fault_stays(
                    records,
                    dimensions as nat,
                    (index + 1) as nat,
                    records.len(),
                );
            }
            return Err(invalid_data_error(message));
        }
        index = index + 1;
    }

    let mut sidecar = HnswIndexSidecar {
        version: HNSW_VERSION,
        segment_id: segment_id.to_owned(),
        index_kind: IndexKind::Hnsw,
        metric,
        dimensions,
        params,
        entry_point: None,
        max_level: 0,
        nodes: Vec::new(),
    };
    let ghost empty = empty_sidecar(segment_id@, metric, params, dimensions as nat);
    assert(sidecar@.nodes =~= Seq::empty());
    proof {
        lemma_no_dimension_fault(records, dimensions as nat, records.len());
    }
    let mut next: usize = 0;
    while next < entries.len()
        invariant
            records == entries_model(entries@),
            table == rows_model(pair_values@),
            entries@.len() <= 0x1_0000_0000,
            hashes@.len() == entries@.len(),
            covers(table, entries@.len()),
            empty == empty_sidecar(segment_id@, metric, params, dimensions as nat),
            forall|i: int|
                0 <= i < records.len() ==> (#[trigger] records[i]).vector.len() == dimensions,
            next <= entries@.len(),
            sidecar@ == filled(empty, records, hashes@, table, next as nat),
        decreases entries@.len() - next,
    {
        proof {
            lemma_filled(empty, records, hashes@, table, next as nat);
            assert(records[next as int] == entries@[next as int]@);
            assert(covers(table, (next + 1) as nat)) by {
                assert forall|i: int| 0 <= i < next + 1 implies (#[trigger] table[i]).len() >= next
                    + 1 by {
                    assert(table[i].len() >= entries@.len());
                }
            }
        }
        let level: u8 = deterministic_level(hashes[next]);
        insert_hnsw_entry(&mut sidecar, &entries[next], level, pair_values);
        next = next + 1;
    }
    Ok(sidecar)
}

/// Build a deterministic HNSW sidecar from immutable visible put entries.
///
/// `pair_values` holds, in row `i` and column `j`, the bit pattern of the metric
/// value of entry `j` for the vector of entry `i`.
pub fn build_hnsw_index(
    segment_id: &str,
    metric: DistanceMetric,
    params: HnswBuildParams,
    entries: &[HnswIndexEntrySource],
    pair_values: &Vec<Vec<u32>>,
) -> (outcome: Result<HnswIndexSidecar, IndexError>)
    requires
        entries@.len() <= 0x1_0000_0000,
        dimension_fault(
            entries_model(entries@),
            first_dimensions(entries_model(entries@)),
            entries@.len(),
        ) is None ==> covers(rows_model(pair_values@), entries@.len()),
    ensures
        exists|hashes: Seq<u64>|
            are_entry_hashes(entries_model(entries@), hashes) && #[trigger] same_sidecar(
                outcome,
                hnsw_build(
                    segment_id@,
                    metric,
                    params,
                    entries_model(entries@),
                    hashes,
                    rows_model(pair_values@),
                ),
            ),
{
    let mut hashes: Vec<u64> = Vec::new();
    let mut index: usize = 0;
    while index < entries.len()
        invariant
            index <= entries@.len(),
            are_entry_hashes(entries_model(entries@).take(index as int), hashes@),
        decreases entries@.len() - index,
    {
        let entry = &entries[index];
        hashes.push(entry_hash(&entry.record_id, entry.seq_no));
        index = index + 1;
    }
    assert(entries_model(entries@).take(entries@.len() as int) =~= entries_model(entries@));
    build_hnsw_from_hashes(segment_id, metric, params, entries, &hashes, pair_values)
}

/// Whatever the hashes are, a built sidecar is a sound graph of level at most
/// `MAX_HNSW_LEVEL` that holds exactly the entries, in their order. Its highest level
/// is the highest one present, that of its entry point.
pub proof fn law_build_is_sound(
    segment_id: Seq<char>,
    metric: DistanceMetric,
    params: HnswBuildParams,
    entries: Seq<RecordModel>,
    hashes: Seq<u64>,
    rows: Seq<Seq<u32>>,
)
    requires
        entries.len() <= 0x1_0000_0000,
        entries.len() <= usize::MAX,
        first_dimensions(entries) <= usize::MAX,
    ensures
        hnsw_build(segment_id, metric, params, entries, hashes, rows) matches Ok(sidecar) ==> {
            &&& sound_graph(sidecar)
            &&& levels_capped(sidecar)
            &&& entries.len() > 0 ==> (sidecar.entry_point matches Some(entry) && entry
                < entries.len() && sidecar.nodes[entry as int].level == sidecar.max_level)
            &&& uniform(sidecar.nodes, sidecar.dimensions as nat)
            &&& sidecar.nodes.len() == entries.len()
            &&& forall|i: int|
                0 <= i < entries.len() ==> (#[trigger] sidecar.nodes[i]).record == entries[i]
                    && sidecar.nodes[i].level <= MAX_HNSW_LEVEL
        },
{
    let dimensions = first_dimensions(entries);
    if dimension_fault(entries, dimensions, entries.len()) is None {
        lemma_no_dimension_fault(entries, dimensions, entries.len());
        lemma_filled(
            empty_sidecar(segment_id, metric, params, dimensions),
            entries,
            hashes,
            rows,
            entries.len(),
        );
        assert forall|i: int| 0 <= i < entries.len() implies #[trigger] level_of_hash(hashes[i])
            <= MAX_HNSW_LEVEL by {
            lemma_halvings_bound(hashes[i] as nat, MAX_HNSW_LEVEL as nat);
        }
    }
}

/// The level of a record is the number of times that two divides its hash, four at most: half of
/// all hashes are on level zero, a quarter on level one, and so on.
pub proof fn law_levels_follow_hashes(hash: u64)
    ensures
        level_of_hash(hash) == 0 <==> hash % 2 == 1,
        level_of_hash(hash) == 1 <==> hash % 4 == 2,
        level_of_hash(hash) == 2 <==> hash % 8 == 4,
        level_of_hash(hash) == 3 <==> hash % 16 == 8,
        level_of_hash(hash) == 4 <==> hash % 16 == 0,
{
    reveal_with_fuel(halvings, 5);
}

proof fn lemma_dimension_fault_iff(entries: Seq<RecordModel>, dimensions: nat, count: nat)
    requires
        count <= entries.len(),
    ensures
        dimension_fault(entries, dimensions, count) is None <==> forall|i: int|
            0 <= i < count ==> (#[trigger] entries[i]).vector.len() == dimensions,
        dimension_fault(entries, dimensions, count) matches Some(fault) ==> fault.kind
            == IndexErrorKind::InvalidData,
    decreases count,
{
    if count > 0 {
        lemma_dimension_fault_iff(entries, dimensions, (count - 1) as nat);
        if dimension_fault(entries, dimensions, (count - 1) as nat) is None
            && entries[count - 1].vector.len() == dimensions {
            assert forall|i: int| 0 <= i < count implies (#[trigger] entries[i]).vector.len()
                == dimensions by {
                if i < count - 1 {
                    assert(entries[i].vector.len() == dimensions);
                }
            }
        }
    }
}

/// Entries make a sidecar exactly when all their vectors have as many components as the first.
/// Those that do not are malformed data.
pub proof fn law_builds_need_uniform_vectors(
    segment_id: Seq<char>,
    metric: DistanceMetric,
    params: HnswBuildParams,
    entries: Seq<RecordModel>,
    hashes: Seq<u64>,
    rows: Seq<Seq<u32>>,
)
    ensures
        hnsw_build(segment_id, metric, params, entries, hashes, rows) is Ok <==> forall|i: int|
            0 <= i < entries.len() ==> (#[trigger] entries[i]).vector.len()
                == entries[0].vector.len(),
        hnsw_build(segment_id, metric, params, entries, hashes, rows) matches Err(error)
            ==> error.kind == IndexErrorKind::InvalidData,
{
    lemma_dimension_fault_iff(entries, first_dimensions(entries), entries.len());
}

proof fn lemma_entry_is_first(
    empty: SidecarModel,
    entries: Seq<RecordModel>,
    hashes: Seq<u64>,
    rows: Seq<Seq<u32>>,
    count: nat,
)
    requires
        empty.nodes.len() == 0,
        empty.entry_point is None,
        forall|i: int|
            0 <= i < count ==> (#[trigger] entries[i]).vector.len() == empty.dimensions,
        count <= entries.len(),
        count <= 0x1_0000_0000,
        count <= usize::MAX,
    ensures
        ({
            let sidecar = filled(empty, entries, hashes, rows, count);
            count > 0 ==> (sidecar.entry_point matches Some(entry) && forall|i: int|
                0 <= i < entry ==> (#[trigger] sidecar.nodes[i]).level < sidecar.max_level)
        }),
    decreases count,
{
    if count > 0 {
        let before = filled(empty, entries, hashes, rows, (count - 1) as nat);
        let after = filled(empty, entries, hashes, rows, count);
        lemma_entry_is_first(empty, entries, hashes, rows, (count - 1) as nat);
        lemma_filled(empty, entries, hashes, rows, (count - 1) as nat);
        lemma_filled(empty, entries, hashes, rows, count);
        assert forall|i: int| 0 <= i < count - 1 implies (#[trigger] after.nodes[i]).level
            == before.nodes[i].level by {
            assert(before.nodes[i].level == level_of_hash(hashes[i]));
        }
        assert(after.nodes[count - 1].level == level_of_hash(hashes[count - 1]));
        if count > 1 {
            assert(before.entry_point is Some);
            assert forall|i: int| 0 <= i < after.entry_point->0 implies (
            #[trigger] after.nodes[i]).level < after.max_level by {
                assert(before.nodes[i].level <= before.max_level);
            }
        }
    }
}

/// A built sidecar says what it was made of: the segment, the metric, the parameters and the
/// dimensions given, and one node per entry, in order, each with a list for every layer up to the
/// level of its hash. It is entered at the earliest node of the highest level.
pub proof fn law_builds_say_what_they_hold(
    segment_id: Seq<char>,
    metric: DistanceMetric,
    params: HnswBuildParams,
    entries: Seq<RecordModel>,
    hashes: Seq<u64>,
    rows: Seq<Seq<u32>>,
)
    requires
        entries.len() <= 0x1_0000_0000,
        entries.len() <= usize::MAX,
        first_dimensions(entries) <= usize::MAX,
    ensures
        hnsw_build(segment_id, metric, params, entries, hashes, rows) matches Ok(sidecar) ==> {
            &&& sidecar.version == 1
            &&& sidecar.index_kind == IndexKind::Hnsw
            &&& sidecar.segment_id == segment_id
            &&& sidecar.metric == metric
            &&& sidecar.params == params
            &&& sidecar.dimensions == (if entries.len() == 0 {
                0
            } else {
                entries[0].vector.len()
            })
            &&& sidecar.nodes.len() == entries.len()
            &&& forall|i: int|
                0 <= i < entries.len() ==> (#[trigger] sidecar.nodes[i]).record == entries[i]
                    && sidecar.nodes[i].level == level_of_hash(hashes[i])
                    && sidecar.nodes[i].neighbors.len() == sidecar.nodes[i].level + 1
                    && sidecar.nodes[i].level <= sidecar.max_level
            &&& sidecar.entry_point is None <==> entries.len() == 0
            &&& entries.len() == 0 ==> sidecar.max_level == 0
            &&& sidecar.entry_point matches Some(entry) ==> entry < entries.len()
                && sidecar.nodes[entry as int].level == sidecar.max_level && forall|i: int|
                0 <= i < entry ==> (#[trigger] sidecar.nodes[i]).level < sidecar.max_level
        },
{
    let dimensions = first_dimensions(entries);
    if dimension_fault(entries, dimensions, entries.len()) is None {
        let empty = empty_sidecar(segment_id, metric, params, dimensions);
        lemma_no_dimension_fault(entries, dimensions, entries.len());
        lemma_filled(empty, entries, hashes, rows, entries.len());
        lemma_entry_is_first(empty, entries, hashes, rows, entries.len());
    }
}

/// The first vector of another length than the first of all is named.
pub proof fn law_unfit_vectors_are_named(
    segment_id: Seq<char>,
    metric: DistanceMetric,
    params: HnswBuildParams,
    entries: Seq<RecordModel>,
    hashes: Seq<u64>,
    rows: Seq<Seq<u32>>,
    index: int,
)
    requires
        0 <= index < entries.len(),
        entries[index].vector.len() != entries[0].vector.len(),
        forall|i: int|
            0 <= i < index ==> (#[trigger] entries[i]).vector.len() == entries[0].vector.len(),
    ensures
        hnsw_build(segment_id, metric, params, entries, hashes, rows) == Err::<
            SidecarModel,
            ErrorModel,
        >(
            (ErrorModel {
                kind: IndexErrorKind::InvalidData,
                message: "hnsw entry '"@ + entries[index].record_id + "' expected "@ + decimal(
                    entries[0].vector.len(),
                ) + " dimensions but found "@ + decimal(entries[index].vector.len()),
            }),
        ),
{
    let dimensions = entries[0].vector.len();
    lemma_first_unfit(entries, dimensions, index, entries.len());
    lemma_first_unfit(entries, dimensions, index, index as nat);
}

proof fn lemma_first_unfit(entries: Seq<RecordModel>, dimensions: nat, index: int, count: nat)
    requires
        0 <= index < entries.len(),
        count <= entries.len(),
        entries[index].vector.len() != dimensions,
        forall|i: int| 0 <= i < index ==> (#[trigger] entries[i]).vector.len() == dimensions,
    ensures
        count <= index ==> dimension_fault(entries, dimensions, count) is None,
        count > index ==> dimension_fault(entries, dimensions, count) == dimension_fault(
            entries,
            dimensions,
            (index + 1) as nat,
        ),
        count > index ==> dimension_fault(entries, dimensions, count) is Some,
    decreases count,
{
    if count > 0 {
        lemma_first_unfit(entries, dimensions, index, (count - 1) as nat);
        if count <= index {
            assert(entries[count - 1].vector.len() == dimensions);
        }
    }
}

} // verus!
