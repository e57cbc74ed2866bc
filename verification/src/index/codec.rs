//! Binary format of HNSW sidecars.

use crate::index::builder::same_sidecar;
use crate::index::bytes::{
    bytes_at, le_bytes, number_at, optional_at, optional_bytes, read_bytes, read_optional_u32,
    read_string, read_u16, read_u32, read_u64, read_u8, read_words, text_at, text_bytes, text_fits,
    too_large, word_list_at, word_list_bytes, write_optional_u32, write_string, write_u16,
    write_u32, write_u64, write_words, Parsed,
};
use crate::index::error::{invalid_data, invalid_data_error, ErrorModel, IndexError};
use crate::index::graph::{
    lists_model, nodes_model, HnswBuildParams, HnswIndexSidecar, HnswNode, HnswStoredRecord,
    IndexKind, NodeModel, RecordModel, SidecarModel,
};
use crate::index::validity::{graph_fault, reports_fault, validate_hnsw_index};
use crate::json::{json_notation, json_rewritten, normalize_json, rewrite_json};
use crate::text::{decimal, decimal_text};
use crate::types::DistanceMetric;
use vstd::prelude::*;
use vstd::string::*;

verus! {

/// The bytes that a sidecar file starts with.
pub open spec fn magic() -> Seq<u8> {
    seq![0x4cu8, 0x50u8, 0x48u8, 0x31u8]
}

/// Tag of an index family.
pub open spec fn kind_tag(kind: IndexKind) -> nat {
    match kind {
        IndexKind::Hnsw => 1,
        IndexKind::IvfPq => 2,
        IndexKind::Flat => 3,
    }
}

/// Tag of a distance metric.
pub open spec fn metric_tag(metric: DistanceMetric) -> nat {
    match metric {
        DistanceMetric::Cosine => 1,
        DistanceMetric::Dot => 2,
        DistanceMetric::L2 => 3,
    }
}

/// The bytes of neighbor lists, without their count.
pub open spec fn lists_bytes(lists: Seq<Seq<u32>>) -> Seq<u8>
    decreases lists.len(),
{
    if lists.len() == 0 {
        Seq::empty()
    } else {
        lists_bytes(lists.drop_last()) + word_list_bytes(lists.last())
    }
}

/// The bytes of a node, its metadata in the notation that `serde_json` writes.
pub open spec fn node_bytes(node: NodeModel) -> Seq<u8> {
    le_bytes(node.level as nat, 1) + le_bytes(node.record.entry_offset_index as nat, 4) + le_bytes(
        node.record.seq_no as nat,
        8,
    ) + text_bytes(node.record.record_id) + word_list_bytes(node.record.vector) + text_bytes(
        json_rewritten(node.record.metadata),
    ) + le_bytes(node.neighbors.len(), 4) + lists_bytes(node.neighbors)
}

/// The bytes of nodes, without their count.
pub open spec fn nodes_bytes(nodes: Seq<NodeModel>) -> Seq<u8>
    decreases nodes.len(),
{
    if nodes.len() == 0 {
        Seq::empty()
    } else {
        nodes_bytes(nodes.drop_last()) + node_bytes(nodes.last())
    }
}

/// The bytes of all that precedes the nodes.
pub open spec fn header_bytes(sidecar: SidecarModel) -> Seq<u8> {
    magic() + le_bytes(sidecar.version as nat, 2) + text_bytes(sidecar.segment_id) + le_bytes(
        kind_tag(sidecar.index_kind),
        1,
    ) + le_bytes(metric_tag(sidecar.metric), 1) + le_bytes(sidecar.dimensions as nat, 4) + le_bytes(
        sidecar.params.max_neighbors as nat,
        4,
    ) + le_bytes(sidecar.params.ef_construction as nat, 4) + le_bytes(
        sidecar.params.ef_search as nat,
        4,
    ) + le_bytes(sidecar.max_level as nat, 1) + optional_bytes(sidecar.entry_point) + le_bytes(
        sidecar.nodes.len(),
        4,
    )
}

/// The bytes of a sidecar.
pub open spec fn sidecar_bytes(sidecar: SidecarModel) -> Seq<u8> {
    header_bytes(sidecar) + nodes_bytes(sidecar.nodes)
}

/// Whether every number of a node fits the format.
pub open spec fn node_fits(node: NodeModel) -> bool {
    &&& node.record.entry_offset_index <= u32::MAX
    &&& text_fits(node.record.record_id)
    &&& node.record.vector.len() <= u32::MAX
    &&& text_fits(json_rewritten(node.record.metadata))
    &&& node.neighbors.len() <= u32::MAX
    &&& forall|i: int|
        0 <= i < node.neighbors.len() ==> (#[trigger] node.neighbors[i]).len() <= u32::MAX
}

/// Whether every number of a sidecar fits the format.
pub open spec fn sidecar_fits(sidecar: SidecarModel) -> bool {
    &&& text_fits(sidecar.segment_id)
    &&& sidecar.dimensions <= u32::MAX
    &&& sidecar.params.max_neighbors <= u32::MAX
    &&& sidecar.params.ef_construction <= u32::MAX
    &&& sidecar.params.ef_search <= u32::MAX
    &&& sidecar.nodes.len() <= u32::MAX
    &&& forall|i: int| 0 <= i < sidecar.nodes.len() ==> node_fits(#[trigger] sidecar.nodes[i])
}

/// What appending something to a file gives: its bytes where it fits, and an
/// error where it does not.
pub open spec fn appended(
    outcome: Result<(), IndexError>,
    before: Seq<u8>,
    after: Seq<u8>,
    fits: bool,
    added: Seq<u8>,
) -> bool {
    match outcome {
        Ok(_) => fits && after == before + added,
        Err(error) => !fits && error@ == too_large(),
    }
}

fn write_lists(bytes: &mut Vec<u8>, lists: &Vec<Vec<u32>>) -> (outcome: Result<(), IndexError>)
    ensures
        appended(
            outcome,
            old(bytes)@,
            final(bytes)@,
            forall|i: int|
                0 <= i < lists@.len() ==> (#[trigger] lists_model(lists@)[i]).len() <= u32::MAX,
            lists_bytes(lists_model(lists@)),
        ),
{
    let ghost model = lists_model(lists@);
    let ghost start = bytes@;
    let mut index: usize = 0;
    assert(start + lists_bytes(model.take(0)) =~= start);
    while index < lists.len()
        invariant
            model == lists_model(lists@),
            start == old(bytes)@,
            index <= lists@.len(),
            bytes@ == start + lists_bytes(model.take(index as int)),
            forall|i: int| 0 <= i < index ==> (#[trigger] model[i]).len() <= u32::MAX,
        decreases lists@.len() - index,
    {
        assert(model[index as int] == lists@[index as int]@);
        match write_words(bytes, &lists[index]) {
            Ok(_) => {},
            Err(error) => {
                return Err(error);
            },
        }
        proof {
            let longer = model.take(index + 1);
            assert(longer.drop_last() =~= model.take(index as int));
            assert(longer.last() == model[index as int]);
            assert(bytes@ =~= start + lists_bytes(longer));
        }
        index = index + 1;
    }
    assert(model.take(index as int) =~= model);
    Ok(())
}

fn write_node(bytes: &mut Vec<u8>, node: &HnswNode) -> (outcome: Result<(), IndexError>)
    ensures
        appended(outcome, old(bytes)@, final(bytes)@, node_fits(node@), node_bytes(node@)),
{
    bytes.push(node.level);
    proof {
        assert(le_bytes(node.level as nat, 1) =~= seq![node.level]) by {
            reveal_with_fuel(le_bytes, 2);
        }
        assert(bytes@ =~= old(bytes)@ + le_bytes(node.level as nat, 1));
    }
    match write_u32(bytes, node.record.entry_offset_index) {
        Ok(_) => {},
        Err(error) => {
            return Err(error);
        },
    }
    write_u64(bytes, node.record.seq_no);
    match write_string(bytes, &node.record.record_id) {
        Ok(_) => {},
        Err(error) => {
            return Err(error);
        },
    }
    match write_words(bytes, &node.record.vector) {
        Ok(_) => {},
        Err(error) => {
            return Err(error);
        },
    }
    match write_string(bytes, &rewrite_json(node.record.metadata.clone())) {
        Ok(_) => {},
        Err(error) => {
            return Err(error);
        },
    }
    match write_u32(bytes, node.neighbors_by_level.len()) {
        Ok(_) => {},
        Err(error) => {
            return Err(error);
        },
    }
    match write_lists(bytes, &node.neighbors_by_level) {
        Ok(_) => {},
        Err(error) => {
            return Err(error);
        },
    }
    assert(bytes@ =~= old(bytes)@ + node_bytes(node@));
    Ok(())
}

fn write_header(bytes: &mut Vec<u8>, sidecar: &HnswIndexSidecar) -> (outcome: Result<
    (),
    IndexError,
>)
    requires
        old(bytes)@.len() == 0,
    ensures
        match outcome {
            Ok(_) => final(bytes)@ == header_bytes(sidecar@) && (sidecar_fits(sidecar@)
                <==> forall|i: int|
                0 <= i < sidecar@.nodes.len() ==> node_fits(#[trigger] sidecar@.nodes[i])),
            Err(error) => !sidecar_fits(sidecar@) && error@ == too_large(),
        },
{
    bytes.push(0x4c);
    bytes.push(0x50);
    bytes.push(0x48);
    bytes.push(0x31);
    assert(bytes@ =~= magic());
    write_u16(bytes, sidecar.version);
    match write_string(bytes, &sidecar.segment_id) {
        Ok(_) => {},
        Err(error) => {
            return Err(error);
        },
    }
    proof {
        reveal_with_fuel(le_bytes, 2);
        assert(le_bytes(kind_tag(sidecar.index_kind), 1) =~= seq![
            kind_tag(sidecar.index_kind) as u8,
        ]);
        assert(le_bytes(metric_tag(sidecar.metric), 1) =~= seq![metric_tag(sidecar.metric) as u8]);
        assert(le_bytes(sidecar.max_level as nat, 1) =~= seq![sidecar.max_level]);
    }
    let ghost before_tags = bytes@;
    bytes.push(
        match sidecar.index_kind {
            IndexKind::Hnsw => 1,
            IndexKind::IvfPq => 2,
            IndexKind::Flat => 3,
        },
    );
    bytes.push(
        match sidecar.metric {
            DistanceMetric::Cosine => 1,
            DistanceMetric::Dot => 2,
            DistanceMetric::L2 => 3,
        },
    );
    assert(bytes@ =~= before_tags + le_bytes(kind_tag(sidecar.index_kind), 1) + le_bytes(
        metric_tag(sidecar.metric),
        1,
    ));
    match write_u32(bytes, sidecar.dimensions) {
        Ok(_) => {},
        Err(error) => {
            return Err(error);
        },
    }
    match write_u32(bytes, sidecar.params.max_neighbors) {
        Ok(_) => {},
        Err(error) => {
            return Err(error);
        },
    }
    match write_u32(bytes, sidecar.params.ef_construction) {
        Ok(_) => {},
        Err(error) => {
            return Err(error);
        },
    }
    match write_u32(bytes, sidecar.params.ef_search) {
        Ok(_) => {},
        Err(error) => {
            return Err(error);
        },
    }
    let ghost before_level = bytes@;
    bytes.push(sidecar.max_level);
    assert(bytes@ =~= before_level + le_bytes(sidecar.max_level as nat, 1));
    write_optional_u32(bytes, sidecar.entry_point);
    match write_u32(bytes, sidecar.nodes.len()) {
        Ok(_) => {},
        Err(error) => {
            return Err(error);
        },
    }
    assert(bytes@ == header_bytes(sidecar@));
    Ok(())
}

/// Encode an HNSW sidecar as a binary artifact.
pub fn write_hnsw_index(sidecar: &HnswIndexSidecar) -> (outcome: Result<Vec<u8>, IndexError>)
    ensures
        match outcome {
            Ok(bytes) => sidecar_fits(sidecar@) && bytes@ == sidecar_bytes(sidecar@),
            Err(error) => !sidecar_fits(sidecar@) && error@ == too_large(),
        },
{
    let mut bytes: Vec<u8> = Vec::new();
    match write_header(&mut bytes, sidecar) {
        Ok(_) => {},
        Err(error) => {
            return Err(error);
        },
    }
    let ghost model = sidecar@.nodes;
    let ghost start = bytes@;
    let mut index: usize = 0;
    assert(start + nodes_bytes(model.take(0)) =~= start);
    while index < sidecar.nodes.len()
        invariant
            model == sidecar@.nodes,
            start == header_bytes(sidecar@),
            sidecar_fits(sidecar@) <==> forall|i: int|
                0 <= i < model.len() ==> node_fits(#[trigger] model[i]),
            index <= sidecar.nodes@.len(),
            bytes@ == start + nodes_bytes(model.take(index as int)),
            forall|i: int| 0 <= i < index ==> node_fits(#[trigger] model[i]),
        decreases sidecar.nodes@.len() - index,
    {
        assert(model[index as int] == sidecar.nodes@[index as int]@);
        match write_node(&mut bytes, &sidecar.nodes[index]) {
            Ok(_) => {},
            Err(error) => {
                return Err(error);
            },
        }
        proof {
            let longer = model.take(index + 1);
            assert(longer.drop_last() =~= model.take(index as int));
            assert(longer.last() == model[index as int]);
            assert(bytes@ =~= start + nodes_bytes(longer));
        }
        index = index + 1;
    }
    assert(model.take(index as int) =~= model);
    Ok(bytes)
}

/// Version and segment identifier, behind the bytes that a file starts with.
pub open spec fn prefix_at(bytes: Seq<u8>, label: Seq<char>) -> Parsed<(u16, Seq<char>)> {
    match bytes_at(bytes, 0, 4) {
        Err(error) => Err(error),
        Ok((start, after_magic)) => if start != magic() {
            Err(invalid_data("invalid hnsw magic in '"@ + label + "'"@))
        } else {
            match number_at(bytes, after_magic, 2) {
                Err(error) => Err(error),
                Ok((version, after_version)) => match text_at(bytes, after_version) {
                    Err(error) => Err(error),
                    Ok((segment_id, end)) => Ok(((version as u16, segment_id), end)),
                },
            }
        },
    }
}

/// The index family that a tag stands for.
pub open spec fn kind_of_tag(tag: nat) -> Result<IndexKind, ErrorModel> {
    if tag == 1 {
        Ok(IndexKind::Hnsw)
    } else if tag == 2 {
        Ok(IndexKind::IvfPq)
    } else if tag == 3 {
        Ok(IndexKind::Flat)
    } else {
        Err(invalid_data("unknown index kind tag "@ + decimal(tag)))
    }
}

/// The distance metric that a tag stands for.
pub open spec fn metric_of_tag(tag: nat) -> Result<DistanceMetric, ErrorModel> {
    if tag == 1 {
        Ok(DistanceMetric::Cosine)
    } else if tag == 2 {
        Ok(DistanceMetric::Dot)
    } else if tag == 3 {
        Ok(DistanceMetric::L2)
    } else {
        Err(invalid_data("unknown metric tag "@ + decimal(tag)))
    }
}

/// Index family and metric at a position.
pub open spec fn tags_at(bytes: Seq<u8>, at: nat) -> Parsed<(IndexKind, DistanceMetric)> {
    match number_at(bytes, at, 1) {
        Err(error) => Err(error),
        Ok((first, after_kind)) => match kind_of_tag(first) {
            Err(error) => Err(error),
            Ok(kind) => match number_at(bytes, after_kind, 1) {
                Err(error) => Err(error),
                Ok((second, end)) => match metric_of_tag(second) {
                    Err(error) => Err(error),
                    Ok(metric) => Ok(((kind, metric), end)),
                },
            },
        },
    }
}

/// Dimensions and build parameters at a position.
pub open spec fn sizes_at(bytes: Seq<u8>, at: nat) -> Parsed<(usize, HnswBuildParams)> {
    match number_at(bytes, at, 4) {
        Err(error) => Err(error),
        Ok((dimensions, second)) => match number_at(bytes, second, 4) {
            Err(error) => Err(error),
            Ok((max_neighbors, third)) => match number_at(bytes, third, 4) {
                Err(error) => Err(error),
                Ok((ef_construction, fourth)) => match number_at(bytes, fourth, 4) {
                    Err(error) => Err(error),
                    Ok((ef_search, end)) => Ok(
                        (
                            (
                                dimensions as usize,
                                HnswBuildParams {
                                    max_neighbors: max_neighbors as usize,
                                    ef_construction: ef_construction as usize,
                                    ef_search: ef_search as usize,
                                },
                            ),
                            end,
                        ),
                    ),
                },
            },
        },
    }
}

/// Highest level and entry point at a position.
pub open spec fn entry_at(bytes: Seq<u8>, at: nat) -> Parsed<(u8, Option<u32>)> {
    match number_at(bytes, at, 1) {
        Err(error) => Err(error),
        Ok((max_level, next)) => match optional_at(bytes, next) {
            Err(error) => Err(error),
            Ok((entry_point, end)) => Ok(((max_level as u8, entry_point), end)),
        },
    }
}

/// All that precedes the nodes, and the number of nodes.
pub open spec fn header_at(bytes: Seq<u8>, label: Seq<char>) -> Parsed<(SidecarModel, nat)> {
    match prefix_at(bytes, label) {
        Err(error) => Err(error),
        Ok((prefix, after_prefix)) => match tags_at(bytes, after_prefix) {
            Err(error) => Err(error),
            Ok((tags, after_tags)) => match sizes_at(bytes, after_tags) {
                Err(error) => Err(error),
                Ok((sizes, after_sizes)) => match entry_at(bytes, after_sizes) {
                    Err(error) => Err(error),
                    Ok((entry, after_entry)) => match number_at(bytes, after_entry, 4) {
                        Err(error) => Err(error),
                        Ok((count, end)) => Ok(
                            (
                                (
                                    SidecarModel {
                                        version: prefix.0,
                                        segment_id: prefix.1,
                                        index_kind: tags.0,
                                        metric: tags.1,
                                        dimensions: sizes.0,
                                        params: sizes.1,
                                        entry_point: entry.1,
                                        max_level: entry.0,
                                        nodes: Seq::empty(),
                                    },
                                    count,
                                ),
                                end,
                            ),
                        ),
                    },
                },
            },
        },
    }
}

/// `count` neighbor lists from a position on.
pub open spec fn lists_at(bytes: Seq<u8>, at: nat, count: nat) -> Parsed<Seq<Seq<u32>>>
    decreases count,
{
    if count == 0 {
        Ok((Seq::empty(), at))
    } else {
        match lists_at(bytes, at, (count - 1) as nat) {
            Err(error) => Err(error),
            Ok((lists, next)) => match word_list_at(bytes, next) {
                Err(error) => Err(error),
                Ok((list, end)) => Ok((lists.push(list), end)),
            },
        }
    }
}

/// What is wrong with a stored record, if anything: its vector has to have the
/// dimensions of the sidecar.
pub open spec fn record_fault(record: RecordModel, dimensions: nat) -> Option<ErrorModel> {
    if record.vector.len() != dimensions {
        Some(
            invalid_data(
                "stored vector '"@ + record.record_id + "' expected "@ + decimal(dimensions)
                    + " dimensions but found "@ + decimal(record.vector.len()),
            ),
        )
    } else {
        None
    }
}

/// Level and record at a position. The metadata has to be JSON, and is kept in the
/// notation that `serde_json` writes.
pub open spec fn record_at(bytes: Seq<u8>, at: nat, dimensions: nat) -> Parsed<(u8, RecordModel)> {
    match number_at(bytes, at, 1) {
        Err(error) => Err(error),
        Ok((level, second)) => match number_at(bytes, second, 4) {
            Err(error) => Err(error),
            Ok((entry_offset_index, third)) => match number_at(bytes, third, 8) {
                Err(error) => Err(error),
                Ok((seq_no, fourth)) => match text_at(bytes, fourth) {
                    Err(error) => Err(error),
                    Ok((record_id, fifth)) => match word_list_at(bytes, fifth) {
                        Err(error) => Err(error),
                        Ok((vector, sixth)) => match text_at(bytes, sixth) {
                            Err(error) => Err(error),
                            Ok((text, end)) => match json_notation(text) {
                                Err(message) => Err(invalid_data(message)),
                                Ok(metadata) => {
                                    let record = RecordModel {
                                        entry_offset_index: entry_offset_index as usize,
                                        record_id,
                                        seq_no: seq_no as u64,
                                        vector,
                                        metadata,
                                    };
                                    match record_fault(record, dimensions) {
                                        Some(fault) => Err(fault),
                                        None => Ok(((level as u8, record), end)),
                                    }
                                },
                            },
                        },
                    },
                },
            },
        },
    }
}

/// A node at a position.
pub open spec fn node_at(bytes: Seq<u8>, at: nat, dimensions: nat) -> Parsed<NodeModel> {
    match record_at(bytes, at, dimensions) {
        Err(error) => Err(error),
        Ok((start, next)) => match number_at(bytes, next, 4) {
            Err(error) => Err(error),
            Ok((count, after_count)) => match lists_at(bytes, after_count, count) {
                Err(error) => Err(error),
                Ok((neighbors, end)) => Ok(
                    (NodeModel { record: start.1, level: start.0, neighbors }, end),
                ),
            },
        },
    }
}

/// `count` nodes from a position on.
pub open spec fn nodes_at(bytes: Seq<u8>, at: nat, count: nat, dimensions: nat) -> Parsed<
    Seq<NodeModel>,
>
    decreases count,
{
    if count == 0 {
        Ok((Seq::empty(), at))
    } else {
        match nodes_at(bytes, at, (count - 1) as nat, dimensions) {
            Err(error) => Err(error),
            Ok((nodes, next)) => match node_at(bytes, next, dimensions) {
                Err(error) => Err(error),
                Ok((node, end)) => Ok((nodes.push(node), end)),
            },
        }
    }
}

/// The sidecar that a file starts with, whether or not its graph is sound.
pub open spec fn raw_sidecar(bytes: Seq<u8>, label: Seq<char>) -> Parsed<SidecarModel> {
    match header_at(bytes, label) {
        Err(error) => Err(error),
        Ok((header, next)) => match nodes_at(bytes, next, header.1, header.0.dimensions as nat) {
            Err(error) => Err(error),
            Ok((nodes, end)) => Ok((SidecarModel { nodes, ..header.0 }, end)),
        },
    }
}

/// What is wrong with the levels of the first `count` nodes, if anything: none may
/// exceed the highest level.
pub open spec fn levels_fault(nodes: Seq<NodeModel>, max_level: u8, count: nat) -> Option<
    ErrorModel,
>
    decreases count,
{
    if count == 0 {
        None
    } else {
        match levels_fault(nodes, max_level, (count - 1) as nat) {
            Some(fault) => Some(fault),
            None => if nodes[count - 1].level > max_level {
                Some(
                    invalid_data(
                        "node "@ + decimal((count - 1) as nat) + " level "@ + decimal(
                            nodes[count - 1].level as nat,
                        ) + " exceeds max level "@ + decimal(max_level as nat),
                    ),
                )
            } else {
                None
            },
        }
    }
}

/// The sidecar that a file holds; `label` names the file in what is said of a
/// file of another kind.
pub open spec fn decoded(bytes: Seq<u8>, label: Seq<char>) -> Result<SidecarModel, ErrorModel> {
    match raw_sidecar(bytes, label) {
        Err(error) => Err(error),
        Ok((sidecar, _)) => match graph_fault(sidecar) {
            Some(fault) => Err(fault),
            None => match levels_fault(sidecar.nodes, sidecar.max_level, sidecar.nodes.len()) {
                Some(fault) => Err(fault),
                None => Ok(sidecar),
            },
        },
    }
}

fn read_prefix(bytes: &[u8], cursor: &mut usize, label: &str) -> (outcome: Result<
    (u16, String),
    IndexError,
>)
    requires
        *old(cursor) == 0,
    ensures
        match (outcome, prefix_at(bytes@, label@)) {
            (Ok(value), Ok((expected, end))) => value.0 == expected.0 && value.1@ == expected.1
                && *final(cursor) == end,
            (Err(error), Err(expected)) => error@ == expected,
            _ => false,
        },
{
    let start = match read_bytes(bytes, cursor, 4) {
        Ok(start) => start,
        Err(error) => {
            return Err(error);
        },
    };
    if !(start[0] == 0x4c && start[1] == 0x50 && start[2] == 0x48 && start[3] == 0x31) {
        let mut message = "invalid hnsw magic in '".to_owned();
        message.append(label);
        message.append("'");
        return Err(invalid_data_error(message));
    }
    assert(start@ =~= magic());
    let version: u16 = match read_u16(bytes, cursor) {
        Ok(version) => version,
        Err(error) => {
            return Err(error);
        },
    };
    match read_string(bytes, cursor) {
        Ok(segment_id) => Ok((version, segment_id)),
        Err(error) => Err(error),
    }
}

fn read_tags(bytes: &[u8], cursor: &mut usize) -> (outcome: Result<
    (IndexKind, DistanceMetric),
    IndexError,
>)
    ensures
        match (outcome, tags_at(bytes@, *old(cursor) as nat)) {
            (Ok(value), Ok((expected, end))) => value == expected && *final(cursor) == end,
            (Err(error), Err(expected)) => error@ == expected,
            _ => false,
        },
{
    let first: u8 = match read_u8(bytes, cursor) {
        Ok(tag) => tag,
        Err(error) => {
            return Err(error);
        },
    };
    let index_kind = if first == 1 {
        IndexKind::Hnsw
    } else if first == 2 {
        IndexKind::IvfPq
    } else if first == 3 {
        IndexKind::Flat
    } else {
        let mut message = "unknown index kind tag ".to_owned();
        message.append(&decimal_text(first as u64));
        return Err(invalid_data_error(message));
    };
    let second: u8 = match read_u8(bytes, cursor) {
        Ok(tag) => tag,
        Err(error) => {
            return Err(error);
        },
    };
    let metric = if second == 1 {
        DistanceMetric::Cosine
    } else if second == 2 {
        DistanceMetric::Dot
    } else if second == 3 {
        DistanceMetric::L2
    } else {
        let mut message = "unknown metric tag ".to_owned();
        message.append(&decimal_text(second as u64));
        return Err(invalid_data_error(message));
    };
    Ok((index_kind, metric))
}

fn read_sizes(bytes: &[u8], cursor: &mut usize) -> (outcome: Result<
    (usize, HnswBuildParams),
    IndexError,
>)
    ensures
        match (outcome, sizes_at(bytes@, *old(cursor) as nat)) {
            (Ok(value), Ok((expected, end))) => value == expected && *final(cursor) == end,
            (Err(error), Err(expected)) => error@ == expected,
            _ => false,
        },
{
    let dimensions: usize = match read_u32(bytes, cursor) {
        Ok(value) => value as usize,
        Err(error) => {
            return Err(error);
        },
    };
    let max_neighbors: usize = match read_u32(bytes, cursor) {
        Ok(value) => value as usize,
        Err(error) => {
            return Err(error);
        },
    };
    let ef_construction: usize = match read_u32(bytes, cursor) {
        Ok(value) => value as usize,
        Err(error) => {
            return Err(error);
        },
    };
    let ef_search: usize = match read_u32(bytes, cursor) {
        Ok(value) => value as usize,
        Err(error) => {
            return Err(error);
        },
    };
    Ok((dimensions, HnswBuildParams { max_neighbors, ef_construction, ef_search }))
}

proof fn lemma_lists_error_stays(bytes: Seq<u8>, at: nat, early: nat, late: nat)
    requires
        early <= late,
        lists_at(bytes, at, early) is Err,
    ensures
        lists_at(bytes, at, late) == lists_at(bytes, at, early),
    decreases late,
{
    if early < late {
        lemma_lists_error_stays(bytes, at, early, (late - 1) as nat);
    }
}

fn read_lists(bytes: &[u8], cursor: &mut usize, count: u32) -> (outcome: Result<
    Vec<Vec<u32>>,
    IndexError,
>)
    ensures
        match (outcome, lists_at(bytes@, *old(cursor) as nat, count as nat)) {
            (Ok(value), Ok((expected, end))) => lists_model(value@) == expected && *final(cursor)
                == end,
            (Err(error), Err(expected)) => error@ == expected,
            _ => false,
        },
{
    let ghost start = *cursor as nat;
    let mut lists: Vec<Vec<u32>> = Vec::new();
    let mut index: u32 = 0;
    assert(lists_model(lists@) =~= Seq::empty());
    while index < count
        invariant
            index <= count,
            start == *old(cursor),
            lists_at(bytes@, start, index as nat) == Ok::<(Seq<Seq<u32>>, nat), ErrorModel>(
                (lists_model(lists@), *cursor as nat),
            ),
        decreases count - index,
    {
        let ghost before = lists_model(lists@);
        match read_words(bytes, cursor) {
            Ok(list) => {
                let ghost words = list@;
                lists.push(list);
                assert(lists_model(lists@) =~= before.push(words));
            },
            Err(error) => {
                proof {
                    lemma_lists_error_stays(bytes@, start, (index + 1) as nat, count as nat);
                }
                return Err(error);
            },
        }
        index = index + 1;
    }
    Ok(lists)
}

fn read_record(bytes: &[u8], cursor: &mut usize, dimensions: usize) -> (outcome: Result<
    (u8, HnswStoredRecord),
    IndexError,
>)
    ensures
        match (outcome, record_at(bytes@, *old(cursor) as nat, dimensions as nat)) {
            (Ok(value), Ok((expected, end))) => value.0 == expected.0 && value.1@ == expected.1
                && *final(cursor) == end,
            (Err(error), Err(expected)) => error@ == expected,
            _ => false,
        },
{
    let level: u8 = match read_u8(bytes, cursor) {
        Ok(value) => value,
        Err(error) => {
            return Err(error);
        },
    };
    let entry_offset_index: usize = match read_u32(bytes, cursor) {
        Ok(value) => value as usize,
        Err(error) => {
            return Err(error);
        },
    };
    let seq_no: u64 = match read_u64(bytes, cursor) {
        Ok(value) => value,
        Err(error) => {
            return Err(error);
        },
    };
    let record_id = match read_string(bytes, cursor) {
        Ok(value) => value,
        Err(error) => {
            return Err(error);
        },
    };
    let vector = match read_words(bytes, cursor) {
        Ok(value) => value,
        Err(error) => {
            return Err(error);
        },
    };
    let text = match read_string(bytes, cursor) {
        Ok(value) => value,
        Err(error) => {
            return Err(error);
        },
    };
    let metadata = match normalize_json(&text) {
        Ok(notation) => notation,
        Err(message) => {
            return Err(invalid_data_error(message));
        },
    };
    if vector.len() != dimensions {
        let mut message = "stored vector '".to_owned();
        message.append(&record_id);
        message.append("' expected ");
        message.append(&decimal_text(dimensions as u64));
        message.append(" dimensions but found ");
        message.append(&decimal_text(vector.len() as u64));
        return Err(invalid_data_error(message));
    }
    Ok(
        (
            level,
            HnswStoredRecord { entry_offset_index, record_id, seq_no, vector, metadata },
        ),
    )
}

fn read_node(bytes: &[u8], cursor: &mut usize, dimensions: usize) -> (outcome: Result<
    HnswNode,
    IndexError,
>)
    ensures
        match (outcome, node_at(bytes@, *old(cursor) as nat, dimensions as nat)) {
            (Ok(value), Ok((expected, end))) => value@ == expected && *final(cursor) == end,
            (Err(error), Err(expected)) => error@ == expected,
            _ => false,
        },
{
    let (level, record) = match read_record(bytes, cursor, dimensions) {
        Ok(start) => start,
        Err(error) => {
            return Err(error);
        },
    };
    let level_count: u32 = match read_u32(bytes, cursor) {
        Ok(count) => count,
        Err(error) => {
            return Err(error);
        },
    };
    match read_lists(bytes, cursor, level_count) {
        Ok(neighbors_by_level) => Ok(HnswNode { record, level, neighbors_by_level }),
        Err(error) => Err(error),
    }
}

proof fn lemma_nodes_error_stays(
    bytes: Seq<u8>,
    at: nat,
    early: nat,
    late: nat,
    dimensions: nat,
)
    requires
        early <= late,
        nodes_at(bytes, at, early, dimensions) is Err,
    ensures
        nodes_at(bytes, at, late, dimensions) == nodes_at(bytes, at, early, dimensions),
    decreases late,
{
    if early < late {
        lemma_nodes_error_stays(bytes, at, early, (late - 1) as nat, dimensions);
    }
}

fn read_nodes(bytes: &[u8], cursor: &mut usize, count: u32, dimensions: usize) -> (outcome: Result<
    Vec<HnswNode>,
    IndexError,
>)
    ensures
        match (outcome, nodes_at(bytes@, *old(cursor) as nat, count as nat, dimensions as nat)) {
            (Ok(value), Ok((expected, end))) => nodes_model(value@) == expected && *final(cursor)
                == end,
            (Err(error), Err(expected)) => error@ == expected,
            _ => false,
        },
{
    let ghost start = *cursor as nat;
    let mut nodes: Vec<HnswNode> = Vec::new();
    let mut index: u32 = 0;
    assert(nodes_model(nodes@) =~= Seq::empty());
    while index < count
        invariant
            index <= count,
            start == *old(cursor),
            nodes_at(bytes@, start, index as nat, dimensions as nat) == Ok::<
                (Seq<NodeModel>, nat),
                ErrorModel,
            >((nodes_model(nodes@), *cursor as nat)),
        decreases count - index,
    {
        let ghost before = nodes_model(nodes@);
        match read_node(bytes, cursor, dimensions) {
            Ok(node) => {
                let ghost model = node@;
                nodes.push(node);
                assert(nodes_model(nodes@) =~= before.push(model));
            },
            Err(error) => {
                proof {
                    lemma_nodes_error_stays(
                        bytes@,
                        start,
                        (index + 1) as nat,
                        count as nat,
                        dimensions as nat,
                    );
                }
                return Err(error);
            },
        }
        index = index + 1;
    }
    Ok(nodes)
}

proof fn lemma_levels_fault_stays(nodes: Seq<NodeModel>, max_level: u8, early: nat, late: nat)
    requires
        early <= late,
        levels_fault(nodes, max_level, early) is Some,
    ensures
        levels_fault(nodes, max_level, late) == levels_fault(nodes, max_level, early),
    decreases late,
{
    if early < late {
        lemma_levels_fault_stays(nodes, max_level, early, (late - 1) as nat);
    }
}

fn check_levels(sidecar: &HnswIndexSidecar) -> (outcome: Result<(), IndexError>)
    ensures
        reports_fault(
            outcome,
            levels_fault(sidecar@.nodes, sidecar@.max_level, sidecar@.nodes.len()),
        ),
{
    let ghost nodes = sidecar@.nodes;
    let mut index: usize = 0;
    while index < sidecar.nodes.len()
        invariant
            nodes == sidecar@.nodes,
            index <= sidecar.nodes@.len(),
            levels_fault(nodes, sidecar.max_level, index as nat) is None,
        decreases sidecar.nodes@.len() - index,
    {
        let level: u8 = sidecar.nodes[index].level;
        assert(nodes[index as int] == sidecar.nodes@[index as int]@);
        if level > sidecar.max_level {
            let mut message = "node ".to_owned();
            message.append(&decimal_text(index as u64));
            message.append(" level ");
            message.append(&decimal_text(level as u64));
            message.append(" exceeds max level ");
            message.append(&decimal_text(sidecar.max_level as u64));
            proof {
                lemma_levels_fault_stays(
                    nodes,
                    sidecar.max_level,
                    (index + 1) as nat,
                    nodes.len(),
                );
            }
            return Err(invalid_data_error(message));
        }
        index = index + 1;
    }
    Ok(())
}

/// Decode an HNSW sidecar from its binary artifact. `label` names the artifact
/// in what is said of data of another kind.
pub fn read_hnsw_index(label: &str, bytes: &[u8]) -> (outcome: Result<HnswIndexSidecar, IndexError>)
    ensures
        same_sidecar(outcome, decoded(bytes@, label@)),
{
    let mut cursor: usize = 0;
    let (version, segment_id) = match read_prefix(bytes, &mut cursor, label) {
        Ok(prefix) => prefix,
        Err(error) => {
            return Err(error);
        },
    };
    let (index_kind, metric) = match read_tags(bytes, &mut cursor) {
        Ok(tags) => tags,
        Err(error) => {
            return Err(error);
        },
    };
    let (dimensions, params) = match read_sizes(bytes, &mut cursor) {
        Ok(sizes) => sizes,
        Err(error) => {
            return Err(error);
        },
    };
    let max_level: u8 = match read_u8(bytes, &mut cursor) {
        Ok(level) => level,
        Err(error) => {
            return Err(error);
        },
    };
    let entry_point = match read_optional_u32(bytes, &mut cursor) {
        Ok(entry) => entry,
        Err(error) => {
            return Err(error);
        },
    };
    let node_count: u32 = match read_u32(bytes, &mut cursor) {
        Ok(count) => count,
        Err(error) => {
            return Err(error);
        },
    };
    let nodes = match read_nodes(bytes, &mut cursor, node_count, dimensions) {
        Ok(nodes) => nodes,
        Err(error) => {
            return Err(error);
        },
    };
    let sidecar = HnswIndexSidecar {
        version,
        segment_id,
        index_kind,
        metric,
        dimensions,
        params,
        entry_point,
        max_level,
        nodes,
    };
    match validate_hnsw_index(&sidecar) {
        Ok(_) => {},
        Err(error) => {
            return Err(error);
        },
    }
    match check_levels(&sidecar) {
        Ok(_) => Ok(sidecar),
        Err(error) => Err(error),
    }
}

} // verus!
