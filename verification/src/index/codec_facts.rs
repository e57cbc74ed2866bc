//! What the binary format guarantees.

use crate::index::bytes::{
    bytes_at, le_bytes, lemma_le_bytes_len, lemma_le_round_trip, lemma_le_value_bound,
    lemma_pow256_small, number_at, optional_at, optional_bytes, pow256, text_at, text_bytes,
    text_fits, truncated, word_list_at, word_list_bytes, words_at, words_bytes, Parsed,
};
use crate::index::codec::{
    decoded, entry_at, header_at, header_bytes, kind_tag, levels_fault, lists_at, lists_bytes,
    magic, metric_tag, node_at, node_bytes, node_fits, nodes_at, nodes_bytes, prefix_at,
    raw_sidecar, record_at, record_fault, sidecar_bytes, sidecar_fits, sizes_at, tags_at,
};
use crate::index::construction::uniform;
use crate::index::error::ErrorModel;
use crate::index::graph::{NodeModel, RecordModel, SidecarModel};
use crate::index::search::searchable;
use crate::index::validity::{
    law_no_fault_iff_sound, lemma_sound_links_in_range, levels_capped, sound_graph,
};
use crate::json::{in_json_notation, json_rewritten};
use vstd::prelude::*;
use vstd::utf8::{decode_utf8, decode_utf8_encode_utf8, encode_utf8, valid_utf8};

verus! {

/// Whether data holds some bytes at a position.
pub open spec fn holds_at(bytes: Seq<u8>, at: nat, piece: Seq<u8>) -> bool {
    &&& at + piece.len() <= bytes.len()
    &&& bytes.subrange(at as int, (at + piece.len()) as int) == piece
}

pub proof fn lemma_split(bytes: Seq<u8>, at: nat, front: Seq<u8>, back: Seq<u8>)
    requires
        holds_at(bytes, at, front + back),
    ensures
        holds_at(bytes, at, front),
        holds_at(bytes, at + front.len(), back),
{
    let whole = front + back;
    let slice = bytes.subrange(at as int, (at + whole.len()) as int);
    assert(bytes.subrange(at as int, (at + front.len()) as int) =~= slice.take(
        front.len() as int,
    ));
    assert(whole.take(front.len() as int) =~= front);
    assert(bytes.subrange((at + front.len()) as int, (at + whole.len()) as int) =~= slice.skip(
        front.len() as int,
    ));
    assert(whole.skip(front.len() as int) =~= back);
}

proof fn lemma_number(bytes: Seq<u8>, at: nat, value: nat, width: nat)
    requires
        holds_at(bytes, at, le_bytes(value, width)),
        value < pow256(width),
    ensures
        number_at(bytes, at, width) == Ok::<(nat, nat), ErrorModel>((value, at + width)),
{
    lemma_le_bytes_len(value, width);
    lemma_le_round_trip(value, width);
}

proof fn lemma_optional(bytes: Seq<u8>, at: nat, value: Option<u32>)
    requires
        holds_at(bytes, at, optional_bytes(value)),
    ensures
        optional_at(bytes, at) == Ok::<(Option<u32>, nat), ErrorModel>(
            (value, at + optional_bytes(value).len()),
        ),
{
    lemma_pow256_small();
    match value {
        None => {
            lemma_le_bytes_len(0, 1);
            lemma_number(bytes, at, 0, 1);
        },
        Some(number) => {
            lemma_le_bytes_len(1, 1);
            lemma_le_bytes_len(number as nat, 4);
            lemma_split(bytes, at, le_bytes(1, 1), le_bytes(number as nat, 4));
            lemma_number(bytes, at, 1, 1);
            lemma_number(bytes, at + 1, number as nat, 4);
        },
    }
}

proof fn lemma_text(bytes: Seq<u8>, at: nat, text: Seq<char>)
    requires
        holds_at(bytes, at, text_bytes(text)),
        text_fits(text),
    ensures
        text_at(bytes, at) == Ok::<(Seq<char>, nat), ErrorModel>(
            (text, at + text_bytes(text).len()),
        ),
{
    broadcast use {vstd::utf8::encode_utf8_decode_utf8, vstd::utf8::encode_utf8_valid_utf8};

    let encoded = encode_utf8(text);
    lemma_pow256_small();
    lemma_le_bytes_len(encoded.len(), 4);
    lemma_split(bytes, at, le_bytes(encoded.len(), 4), encoded);
    lemma_number(bytes, at, encoded.len(), 4);
    assert(valid_utf8(encoded));
    assert(decode_utf8(encoded) == text);
}

proof fn lemma_words(bytes: Seq<u8>, at: nat, words: Seq<u32>)
    requires
        holds_at(bytes, at, words_bytes(words)),
    ensures
        words_at(bytes, at, words.len()) == Ok::<(Seq<u32>, nat), ErrorModel>(
            (words, at + words_bytes(words).len()),
        ),
    decreases words.len(),
{
    if words.len() > 0 {
        let shorter = words.drop_last();
        lemma_pow256_small();
        lemma_le_bytes_len(words.last() as nat, 4);
        lemma_split(bytes, at, words_bytes(shorter), le_bytes(words.last() as nat, 4));
        lemma_words(bytes, at, shorter);
        lemma_number(bytes, at + words_bytes(shorter).len(), words.last() as nat, 4);
        assert(shorter.push(words.last()) =~= words);
    } else {
        assert(words =~= Seq::empty());
    }
}

proof fn lemma_word_list(bytes: Seq<u8>, at: nat, words: Seq<u32>)
    requires
        holds_at(bytes, at, word_list_bytes(words)),
        words.len() <= u32::MAX,
    ensures
        word_list_at(bytes, at) == Ok::<(Seq<u32>, nat), ErrorModel>(
            (words, at + word_list_bytes(words).len()),
        ),
{
    lemma_pow256_small();
    lemma_le_bytes_len(words.len(), 4);
    lemma_split(bytes, at, le_bytes(words.len(), 4), words_bytes(words));
    lemma_number(bytes, at, words.len(), 4);
    lemma_words(bytes, at + 4, words);
}

proof fn lemma_lists(bytes: Seq<u8>, at: nat, lists: Seq<Seq<u32>>)
    requires
        holds_at(bytes, at, lists_bytes(lists)),
        forall|i: int| 0 <= i < lists.len() ==> (#[trigger] lists[i]).len() <= u32::MAX,
    ensures
        lists_at(bytes, at, lists.len()) == Ok::<(Seq<Seq<u32>>, nat), ErrorModel>(
            (lists, at + lists_bytes(lists).len()),
        ),
    decreases lists.len(),
{
    if lists.len() > 0 {
        let shorter = lists.drop_last();
        assert forall|i: int| 0 <= i < shorter.len() implies (#[trigger] shorter[i]).len()
            <= u32::MAX by {
            assert(shorter[i] == lists[i]);
        }
        assert(lists[lists.len() - 1].len() <= u32::MAX);
        lemma_split(bytes, at, lists_bytes(shorter), word_list_bytes(lists.last()));
        lemma_lists(bytes, at, shorter);
        lemma_word_list(bytes, at + lists_bytes(shorter).len(), lists.last());
        assert(shorter.push(lists.last()) =~= lists);
    } else {
        assert(lists =~= Seq::empty());
    }
}

/// Whether a stored record can be read back: its metadata, once `serde_json` has
/// written it, is read as what was written, and its vector has the dimensions of
/// the sidecar.
pub open spec fn record_readable(record: RecordModel, dimensions: nat) -> bool {
    &&& in_json_notation(json_rewritten(record.metadata))
    &&& record_fault(record, dimensions) is None
}

/// A node with its metadata in the notation that `serde_json` writes.
pub open spec fn rewritten_node(node: NodeModel) -> NodeModel {
    NodeModel {
        record: RecordModel { metadata: json_rewritten(node.record.metadata), ..node.record },
        ..node
    }
}

/// Nodes with their metadata in the notation that `serde_json` writes.
pub open spec fn rewritten_nodes(nodes: Seq<NodeModel>) -> Seq<NodeModel> {
    Seq::new(nodes.len(), |i: int| rewritten_node(nodes[i]))
}

/// A sidecar with its metadata in the notation that `serde_json` writes.
pub open spec fn rewritten_sidecar(sidecar: SidecarModel) -> SidecarModel {
    SidecarModel { nodes: rewritten_nodes(sidecar.nodes), ..sidecar }
}

proof fn lemma_node_parts(bytes: Seq<u8>, at: nat, node: NodeModel)
    requires
        holds_at(bytes, at, node_bytes(node)),
        node_fits(node),
    ensures
        ({
            let record = node.record;
            let metadata = json_rewritten(record.metadata);
            let fifth = at + 13 + text_bytes(record.record_id).len();
            let sixth = fifth + word_list_bytes(record.vector).len();
            let seventh = sixth + text_bytes(metadata).len();
            let end = seventh + 4 + lists_bytes(node.neighbors).len();
            &&& number_at(bytes, at, 1) == Ok::<(nat, nat), ErrorModel>(
                (node.level as nat, at + 1),
            )
            &&& number_at(bytes, at + 1, 4) == Ok::<(nat, nat), ErrorModel>(
                (record.entry_offset_index as nat, at + 5),
            )
            &&& number_at(bytes, at + 5, 8) == Ok::<(nat, nat), ErrorModel>(
                (record.seq_no as nat, at + 13),
            )
            &&& text_at(bytes, at + 13) == Ok::<(Seq<char>, nat), ErrorModel>(
                (record.record_id, fifth),
            )
            &&& word_list_at(bytes, fifth) == Ok::<(Seq<u32>, nat), ErrorModel>(
                (record.vector, sixth),
            )
            &&& text_at(bytes, sixth) == Ok::<(Seq<char>, nat), ErrorModel>((metadata, seventh))
            &&& number_at(bytes, seventh, 4) == Ok::<(nat, nat), ErrorModel>(
                (node.neighbors.len(), seventh + 4),
            )
            &&& lists_at(bytes, seventh + 4, node.neighbors.len()) == Ok::<
                (Seq<Seq<u32>>, nat),
                ErrorModel,
            >((node.neighbors, end))
            &&& end == at + node_bytes(node).len()
        }),
{
    let level = le_bytes(node.level as nat, 1);
    let offset = le_bytes(node.record.entry_offset_index as nat, 4);
    let seq_no = le_bytes(node.record.seq_no as nat, 8);
    let id = text_bytes(node.record.record_id);
    let vector = word_list_bytes(node.record.vector);
    let metadata = text_bytes(json_rewritten(node.record.metadata));
    let count = le_bytes(node.neighbors.len(), 4);
    let lists = lists_bytes(node.neighbors);
    lemma_pow256_small();
    lemma_le_bytes_len(node.level as nat, 1);
    lemma_le_bytes_len(node.record.entry_offset_index as nat, 4);
    lemma_le_bytes_len(node.record.seq_no as nat, 8);
    lemma_le_bytes_len(node.neighbors.len(), 4);
    lemma_split(
        bytes,
        at,
        level + offset + seq_no + id + vector + metadata + count,
        lists,
    );
    lemma_split(bytes, at, level + offset + seq_no + id + vector + metadata, count);
    lemma_split(bytes, at, level + offset + seq_no + id + vector, metadata);
    lemma_split(bytes, at, level + offset + seq_no + id, vector);
    lemma_split(bytes, at, level + offset + seq_no, id);
    lemma_split(bytes, at, level + offset, seq_no);
    lemma_split(bytes, at, level, offset);
    let second = at + 1;
    let third = second + 4;
    let fourth = third + 8;
    let fifth = fourth + id.len();
    let sixth = fifth + vector.len();
    let seventh = sixth + metadata.len();
    let eighth = seventh + 4;
    lemma_number(bytes, at, node.level as nat, 1);
    lemma_number(bytes, second, node.record.entry_offset_index as nat, 4);
    lemma_number(bytes, third, node.record.seq_no as nat, 8);
    lemma_text(bytes, fourth, node.record.record_id);
    lemma_word_list(bytes, fifth, node.record.vector);
    lemma_text(bytes, sixth, json_rewritten(node.record.metadata));
    lemma_number(bytes, seventh, node.neighbors.len(), 4);
    lemma_lists(bytes, eighth, node.neighbors);
}

proof fn lemma_node(bytes: Seq<u8>, at: nat, node: NodeModel, dimensions: nat)
    requires
        holds_at(bytes, at, node_bytes(node)),
        node_fits(node),
    ensures
        node_at(bytes, at, dimensions) matches Ok((_, end)) ==> end == at + node_bytes(node).len(),
        record_readable(node.record, dimensions) ==> node_at(bytes, at, dimensions) == Ok::<
            (NodeModel, nat),
            ErrorModel,
        >((rewritten_node(node), at + node_bytes(node).len())),
{
    lemma_node_parts(bytes, at, node);
}

/// Two nodes whose bytes stand at one place are the same, but for the notation of their
/// metadata.
proof fn lemma_same_node(bytes: Seq<u8>, at: nat, left: NodeModel, right: NodeModel)
    requires
        holds_at(bytes, at, node_bytes(left)),
        holds_at(bytes, at, node_bytes(right)),
        node_fits(left),
        node_fits(right),
    ensures
        rewritten_node(left) == rewritten_node(right),
        node_bytes(left).len() == node_bytes(right).len(),
{
    lemma_node_parts(bytes, at, left);
    lemma_node_parts(bytes, at, right);
}

proof fn lemma_nodes(bytes: Seq<u8>, at: nat, nodes: Seq<NodeModel>, dimensions: nat)
    requires
        holds_at(bytes, at, nodes_bytes(nodes)),
        forall|i: int|
            0 <= i < nodes.len() ==> node_fits(#[trigger] nodes[i]) && record_readable(
                nodes[i].record,
                dimensions,
            ),
    ensures
        nodes_at(bytes, at, nodes.len(), dimensions) == Ok::<(Seq<NodeModel>, nat), ErrorModel>(
            (rewritten_nodes(nodes), at + nodes_bytes(nodes).len()),
        ),
    decreases nodes.len(),
{
    if nodes.len() > 0 {
        let shorter = nodes.drop_last();
        assert forall|i: int| 0 <= i < shorter.len() implies node_fits(#[trigger] shorter[i])
            && record_readable(shorter[i].record, dimensions) by {
            assert(shorter[i] == nodes[i]);
        }
        assert(node_fits(nodes[nodes.len() - 1]));
        lemma_split(bytes, at, nodes_bytes(shorter), node_bytes(nodes.last()));
        lemma_nodes(bytes, at, shorter, dimensions);
        lemma_node(bytes, at + nodes_bytes(shorter).len(), nodes.last(), dimensions);
        assert(rewritten_nodes(shorter).push(rewritten_node(nodes.last())) =~= rewritten_nodes(
            nodes,
        ));
    } else {
        assert(rewritten_nodes(nodes) =~= Seq::empty());
    }
}

proof fn lemma_nodes_end(bytes: Seq<u8>, at: nat, nodes: Seq<NodeModel>, dimensions: nat)
    requires
        holds_at(bytes, at, nodes_bytes(nodes)),
        forall|i: int| 0 <= i < nodes.len() ==> node_fits(#[trigger] nodes[i]),
    ensures
        nodes_at(bytes, at, nodes.len(), dimensions) matches Ok((_, end)) ==> end == at
            + nodes_bytes(nodes).len(),
    decreases nodes.len(),
{
    if nodes.len() > 0 {
        let shorter = nodes.drop_last();
        assert forall|i: int| 0 <= i < shorter.len() implies node_fits(#[trigger] shorter[i]) by {
            assert(shorter[i] == nodes[i]);
        }
        assert(node_fits(nodes[nodes.len() - 1]));
        lemma_split(bytes, at, nodes_bytes(shorter), node_bytes(nodes.last()));
        lemma_nodes_end(bytes, at, shorter, dimensions);
        lemma_node(bytes, at + nodes_bytes(shorter).len(), nodes.last(), dimensions);
    }
}

proof fn lemma_same_nodes(bytes: Seq<u8>, at: nat, left: Seq<NodeModel>, right: Seq<NodeModel>)
    requires
        left.len() == right.len(),
        holds_at(bytes, at, nodes_bytes(left)),
        holds_at(bytes, at, nodes_bytes(right)),
        forall|i: int| 0 <= i < left.len() ==> node_fits(#[trigger] left[i]),
        forall|i: int| 0 <= i < right.len() ==> node_fits(#[trigger] right[i]),
    ensures
        rewritten_nodes(left) == rewritten_nodes(right),
        nodes_bytes(left).len() == nodes_bytes(right).len(),
    decreases left.len(),
{
    if left.len() > 0 {
        let one = left.drop_last();
        let other = right.drop_last();
        assert forall|i: int| 0 <= i < one.len() implies node_fits(#[trigger] one[i]) by {
            assert(one[i] == left[i]);
        }
        assert forall|i: int| 0 <= i < other.len() implies node_fits(#[trigger] other[i]) by {
            assert(other[i] == right[i]);
        }
        assert(node_fits(left[left.len() - 1]));
        assert(node_fits(right[right.len() - 1]));
        lemma_split(bytes, at, nodes_bytes(one), node_bytes(left.last()));
        lemma_split(bytes, at, nodes_bytes(other), node_bytes(right.last()));
        lemma_same_nodes(bytes, at, one, other);
        lemma_same_node(bytes, at + nodes_bytes(one).len(), left.last(), right.last());
        assert(rewritten_nodes(left) =~= rewritten_nodes(one).push(rewritten_node(left.last())));
        assert(rewritten_nodes(right) =~= rewritten_nodes(other).push(
            rewritten_node(right.last()),
        ));
    } else {
        assert(rewritten_nodes(left) =~= rewritten_nodes(right));
    }
}

proof fn lemma_header(bytes: Seq<u8>, label: Seq<char>, sidecar: SidecarModel)
    requires
        holds_at(bytes, 0, header_bytes(sidecar)),
        sidecar_fits(sidecar),
    ensures
        header_at(bytes, label) == Ok::<((SidecarModel, nat), nat), ErrorModel>(
            (
                (SidecarModel { nodes: Seq::empty(), ..sidecar }, sidecar.nodes.len()),
                header_bytes(sidecar).len(),
            ),
        ),
{
    let version = le_bytes(sidecar.version as nat, 2);
    let segment = text_bytes(sidecar.segment_id);
    let kind = le_bytes(kind_tag(sidecar.index_kind), 1);
    let metric = le_bytes(metric_tag(sidecar.metric), 1);
    let dimensions = le_bytes(sidecar.dimensions as nat, 4);
    let neighbors = le_bytes(sidecar.params.max_neighbors as nat, 4);
    let construction = le_bytes(sidecar.params.ef_construction as nat, 4);
    let search = le_bytes(sidecar.params.ef_search as nat, 4);
    let level = le_bytes(sidecar.max_level as nat, 1);
    let entry = optional_bytes(sidecar.entry_point);
    let count = le_bytes(sidecar.nodes.len(), 4);
    lemma_pow256_small();
    lemma_le_bytes_len(sidecar.version as nat, 2);
    lemma_le_bytes_len(kind_tag(sidecar.index_kind), 1);
    lemma_le_bytes_len(metric_tag(sidecar.metric), 1);
    lemma_le_bytes_len(sidecar.dimensions as nat, 4);
    lemma_le_bytes_len(sidecar.params.max_neighbors as nat, 4);
    lemma_le_bytes_len(sidecar.params.ef_construction as nat, 4);
    lemma_le_bytes_len(sidecar.params.ef_search as nat, 4);
    lemma_le_bytes_len(sidecar.max_level as nat, 1);
    lemma_le_bytes_len(sidecar.nodes.len(), 4);
    let p2 = magic() + version;
    let p3 = p2 + segment;
    let p4 = p3 + kind;
    let p5 = p4 + metric;
    let p6 = p5 + dimensions;
    let p7 = p6 + neighbors;
    let p8 = p7 + construction;
    let p9 = p8 + search;
    let p10 = p9 + level;
    let p11 = p10 + entry;
    lemma_split(bytes, 0, p11, count);
    lemma_split(bytes, 0, p10, entry);
    lemma_split(bytes, 0, p9, level);
    lemma_split(bytes, 0, p8, search);
    lemma_split(bytes, 0, p7, construction);
    lemma_split(bytes, 0, p6, neighbors);
    lemma_split(bytes, 0, p5, dimensions);
    lemma_split(bytes, 0, p4, metric);
    lemma_split(bytes, 0, p3, kind);
    lemma_split(bytes, 0, p2, segment);
    lemma_split(bytes, 0, magic(), version);
    lemma_number(bytes, 4, sidecar.version as nat, 2);
    lemma_text(bytes, p2.len(), sidecar.segment_id);
    lemma_number(bytes, p3.len(), kind_tag(sidecar.index_kind), 1);
    lemma_number(bytes, p4.len(), metric_tag(sidecar.metric), 1);
    lemma_number(bytes, p5.len(), sidecar.dimensions as nat, 4);
    lemma_number(bytes, p6.len(), sidecar.params.max_neighbors as nat, 4);
    lemma_number(bytes, p7.len(), sidecar.params.ef_construction as nat, 4);
    lemma_number(bytes, p8.len(), sidecar.params.ef_search as nat, 4);
    lemma_number(bytes, p9.len(), sidecar.max_level as nat, 1);
    lemma_optional(bytes, p10.len(), sidecar.entry_point);
    lemma_number(bytes, p11.len(), sidecar.nodes.len(), 4);
    assert(prefix_at(bytes, label) == Ok::<((u16, Seq<char>), nat), ErrorModel>(
        ((sidecar.version, sidecar.segment_id), p3.len()),
    ));
    assert(tags_at(bytes, p3.len()) matches Ok((tags, end)) && tags == (
        sidecar.index_kind,
        sidecar.metric,
    ) && end == p5.len());
    assert(sizes_at(bytes, p5.len()) matches Ok((sizes, end)) && sizes == (
        sidecar.dimensions,
        sidecar.params,
    ) && end == p9.len());
    assert(entry_at(bytes, p9.len()) matches Ok((found, end)) && found == (
        sidecar.max_level,
        sidecar.entry_point,
    ) && end == p11.len());
}

/// Whether every stored record can be read back.
pub open spec fn records_readable(sidecar: SidecarModel) -> bool {
    forall|i: int|
        0 <= i < sidecar.nodes.len() ==> record_readable(
            (#[trigger] sidecar.nodes[i]).record,
            sidecar.dimensions as nat,
        )
}

proof fn lemma_levels_fault_iff(nodes: Seq<NodeModel>, max_level: u8, count: nat)
    ensures
        levels_fault(nodes, max_level, count) is None <==> forall|i: int|
            0 <= i < count ==> (#[trigger] nodes[i]).level <= max_level,
    decreases count,
{
    if count > 0 {
        lemma_levels_fault_iff(nodes, max_level, (count - 1) as nat);
    }
}

proof fn lemma_raw_round_trip(sidecar: SidecarModel, rest: Seq<u8>, label: Seq<char>)
    requires
        sidecar_fits(sidecar),
        records_readable(sidecar),
    ensures
        raw_sidecar(sidecar_bytes(sidecar) + rest, label) == Ok::<(SidecarModel, nat), ErrorModel>(
            (rewritten_sidecar(sidecar), sidecar_bytes(sidecar).len()),
        ),
{
    let bytes = sidecar_bytes(sidecar) + rest;
    let header = header_bytes(sidecar);
    assert(bytes.subrange(0, sidecar_bytes(sidecar).len() as int) =~= sidecar_bytes(sidecar));
    assert(holds_at(bytes, 0, sidecar_bytes(sidecar)));
    lemma_split(bytes, 0, header, nodes_bytes(sidecar.nodes));
    lemma_header(bytes, label, sidecar);
    lemma_nodes(bytes, header.len(), sidecar.nodes, sidecar.dimensions as nat);
}

proof fn lemma_rewritten_sound(sidecar: SidecarModel)
    requires
        sound_graph(sidecar),
        levels_capped(sidecar),
    ensures
        sound_graph(rewritten_sidecar(sidecar)),
        levels_capped(rewritten_sidecar(sidecar)),
{
    let nodes = sidecar.nodes;
    let after = rewritten_nodes(nodes);
    assert forall|node: int, layer: int, k: int|
        #![trigger after[node].neighbors[layer][k]]
        0 <= node < after.len() && 0 <= layer < after[node].neighbors.len() && 0 <= k
            < after[node].neighbors[layer].len() implies {
        &&& after[node].neighbors[layer][k] < after.len()
        &&& layer <= after[after[node].neighbors[layer][k] as int].level
    } by {
        assert(after[node].neighbors[layer][k] == nodes[node].neighbors[layer][k]);
    }
}

/// What has been written is read back unchanged, whatever follows it: a sidecar
/// whose numbers fit the format, whose records can be read, whose graph is sound and
/// none of whose nodes is above the highest level decodes from its own bytes, with
/// its metadata in the notation that `serde_json` writes.
pub proof fn law_round_trip(sidecar: SidecarModel, rest: Seq<u8>, label: Seq<char>)
    requires
        sidecar_fits(sidecar),
        records_readable(sidecar),
        sound_graph(sidecar),
        levels_capped(sidecar),
    ensures
        decoded(sidecar_bytes(sidecar) + rest, label) == Ok::<SidecarModel, ErrorModel>(
            rewritten_sidecar(sidecar),
        ),
{
    lemma_raw_round_trip(sidecar, rest, label);
    lemma_rewritten_sound(sidecar);
    let after = rewritten_sidecar(sidecar);
    law_no_fault_iff_sound(after);
    lemma_levels_fault_iff(after.nodes, after.max_level, after.nodes.len());
}

/// A sidecar whose metadata is in the notation that `serde_json` writes is left
/// alone by writing it in that notation.
pub proof fn law_notation_is_kept(sidecar: SidecarModel)
    requires
        forall|i: int|
            0 <= i < sidecar.nodes.len() ==> in_json_notation(
                (#[trigger] sidecar.nodes[i]).record.metadata,
            ),
    ensures
        rewritten_sidecar(sidecar) == sidecar,
{
    assert(rewritten_nodes(sidecar.nodes) =~= sidecar.nodes);
}

/// Two sidecars with the same bytes are the same, but for the notation of their
/// metadata.
pub proof fn law_bytes_tell_sidecars_apart(left: SidecarModel, right: SidecarModel)
    requires
        sidecar_fits(left),
        sidecar_fits(right),
        sidecar_bytes(left) == sidecar_bytes(right),
    ensures
        rewritten_sidecar(left) == rewritten_sidecar(right),
{
    let bytes = sidecar_bytes(left);
    assert(bytes.subrange(0, bytes.len() as int) =~= bytes);
    assert(holds_at(bytes, 0, bytes));
    lemma_split(bytes, 0, header_bytes(left), nodes_bytes(left.nodes));
    lemma_split(bytes, 0, header_bytes(right), nodes_bytes(right.nodes));
    lemma_header(bytes, Seq::empty(), left);
    lemma_header(bytes, Seq::empty(), right);
    lemma_same_nodes(bytes, header_bytes(left).len(), left.nodes, right.nodes);
    assert(SidecarModel { nodes: Seq::empty(), ..left } == SidecarModel {
        nodes: Seq::empty(),
        ..right
    });
}

/// What has been read is a sound graph, and can be searched: every vector has the
/// dimensions of the sidecar, and no node is above the highest level.
pub proof fn law_read_is_sound(bytes: Seq<u8>, label: Seq<char>)
    ensures
        decoded(bytes, label) matches Ok(sidecar) ==> {
            &&& sound_graph(sidecar)
            &&& searchable(sidecar)
            &&& uniform(sidecar.nodes, sidecar.dimensions as nat)
            &&& levels_capped(sidecar)
        },
{
    match decoded(bytes, label) {
        Err(_) => {},
        Ok(sidecar) => {
            law_no_fault_iff_sound(sidecar);
            lemma_sound_links_in_range(sidecar.nodes);
            lemma_levels_fault_iff(sidecar.nodes, sidecar.max_level, sidecar.nodes.len());
            let (header, next) = header_at(bytes, label)->Ok_0;
            lemma_read_nodes_fit(bytes, next, header.1, header.0.dimensions as nat);
        },
    }
}

/// Whether reading from cut data gives what reading from all of it gives, from
/// within the cut data, or says that the data ends too early.
pub open spec fn cut_agrees<T>(cut: Parsed<T>, whole: Parsed<T>, kept: nat) -> bool {
    ||| cut == Err::<(T, nat), ErrorModel>(truncated())
    ||| cut == whole && (cut matches Ok((_, end)) ==> end <= kept)
}

proof fn lemma_number_bound(bytes: Seq<u8>, at: nat, width: nat)
    ensures
        number_at(bytes, at, width) matches Ok((value, _)) ==> value < pow256(width),
{
    if at + width <= bytes.len() {
        lemma_le_value_bound(bytes.subrange(at as int, (at + width) as int));
    }
}

proof fn lemma_read_text_fits(bytes: Seq<u8>, at: nat)
    ensures
        text_at(bytes, at) matches Ok((text, _)) ==> text_fits(text),
{
    lemma_number_bound(bytes, at, 4);
    lemma_pow256_small();
    match number_at(bytes, at, 4) {
        Err(_) => {},
        Ok((len, next)) => {
            if next + len <= bytes.len() {
                let slice = bytes.subrange(next as int, (next + len) as int);
                if valid_utf8(slice) {
                    decode_utf8_encode_utf8(slice);
                }
            }
        },
    }
}

proof fn lemma_read_words_count(bytes: Seq<u8>, at: nat, count: nat)
    ensures
        words_at(bytes, at, count) matches Ok((words, _)) ==> words.len() == count,
    decreases count,
{
    if count > 0 {
        lemma_read_words_count(bytes, at, (count - 1) as nat);
    }
}

proof fn lemma_read_word_list_fits(bytes: Seq<u8>, at: nat)
    ensures
        word_list_at(bytes, at) matches Ok((words, _)) ==> words.len() <= u32::MAX,
{
    lemma_number_bound(bytes, at, 4);
    lemma_pow256_small();
    match number_at(bytes, at, 4) {
        Err(_) => {},
        Ok((count, next)) => {
            lemma_read_words_count(bytes, next, count);
        },
    }
}

proof fn lemma_read_lists_fit(bytes: Seq<u8>, at: nat, count: nat)
    ensures
        lists_at(bytes, at, count) matches Ok((lists, _)) ==> {
            &&& lists.len() == count
            &&& forall|i: int| 0 <= i < count ==> (#[trigger] lists[i]).len() <= u32::MAX
        },
    decreases count,
{
    if count > 0 {
        lemma_read_lists_fit(bytes, at, (count - 1) as nat);
        match lists_at(bytes, at, (count - 1) as nat) {
            Err(_) => {},
            Ok((lists, next)) => {
                lemma_read_word_list_fits(bytes, next);
            },
        }
    }
}

proof fn lemma_read_record_fits(bytes: Seq<u8>, at: nat, dimensions: nat)
    ensures
        record_at(bytes, at, dimensions) matches Ok((start, _)) ==> {
            &&& start.1.entry_offset_index <= u32::MAX
            &&& text_fits(start.1.record_id)
            &&& start.1.vector.len() <= u32::MAX
            &&& record_fault(start.1, dimensions) is None
        },
{
    lemma_pow256_small();
    match record_at(bytes, at, dimensions) {
        Err(_) => {},
        Ok(_) => {
            let second = number_at(bytes, at, 1)->Ok_0.1;
            let third = number_at(bytes, second, 4)->Ok_0.1;
            let fourth = number_at(bytes, third, 8)->Ok_0.1;
            let fifth = text_at(bytes, fourth)->Ok_0.1;
            lemma_number_bound(bytes, second, 4);
            lemma_read_text_fits(bytes, fourth);
            lemma_read_word_list_fits(bytes, fifth);
        },
    }
}

/// Whether every number of a node fits the format, but for the length of its
/// metadata.
pub open spec fn numbers_fit(node: NodeModel) -> bool {
    &&& node.record.entry_offset_index <= u32::MAX
    &&& text_fits(node.record.record_id)
    &&& node.record.vector.len() <= u32::MAX
    &&& node.neighbors.len() <= u32::MAX
    &&& forall|i: int|
        0 <= i < node.neighbors.len() ==> (#[trigger] node.neighbors[i]).len() <= u32::MAX
}

proof fn lemma_read_nodes_fit(bytes: Seq<u8>, at: nat, count: nat, dimensions: nat)
    ensures
        nodes_at(bytes, at, count, dimensions) matches Ok((nodes, _)) ==> {
            &&& nodes.len() == count
            &&& forall|i: int|
                0 <= i < count ==> numbers_fit(#[trigger] nodes[i]) && record_fault(
                    nodes[i].record,
                    dimensions,
                ) is None
        },
    decreases count,
{
    if count > 0 {
        lemma_read_nodes_fit(bytes, at, (count - 1) as nat, dimensions);
        match nodes_at(bytes, at, (count - 1) as nat, dimensions) {
            Err(_) => {},
            Ok((nodes, next)) => {
                lemma_read_record_fits(bytes, next, dimensions);
                match record_at(bytes, next, dimensions) {
                    Err(_) => {},
                    Ok((start, after_record)) => {
                        lemma_number_bound(bytes, after_record, 4);
                        lemma_pow256_small();
                        match number_at(bytes, after_record, 4) {
                            Err(_) => {},
                            Ok((lists, after_count)) => {
                                lemma_read_lists_fit(bytes, after_count, lists);
                            },
                        }
                    },
                }
            },
        }
    }
}

proof fn lemma_read_header_fits(bytes: Seq<u8>, label: Seq<char>)
    ensures
        header_at(bytes, label) matches Ok((header, _)) ==> {
            &&& text_fits(header.0.segment_id)
            &&& header.0.dimensions <= u32::MAX
            &&& header.0.params.max_neighbors <= u32::MAX
            &&& header.0.params.ef_construction <= u32::MAX
            &&& header.0.params.ef_search <= u32::MAX
            &&& header.1 <= u32::MAX
        },
{
    lemma_pow256_small();
    match header_at(bytes, label) {
        Err(_) => {},
        Ok(_) => {
            let after_magic = bytes_at(bytes, 0, 4)->Ok_0.1;
            let after_version = number_at(bytes, after_magic, 2)->Ok_0.1;
            lemma_read_text_fits(bytes, after_version);
            let after_prefix = prefix_at(bytes, label)->Ok_0.1;
            let first = tags_at(bytes, after_prefix)->Ok_0.1;
            let second = number_at(bytes, first, 4)->Ok_0.1;
            let third = number_at(bytes, second, 4)->Ok_0.1;
            let fourth = number_at(bytes, third, 4)->Ok_0.1;
            lemma_number_bound(bytes, first, 4);
            lemma_number_bound(bytes, second, 4);
            lemma_number_bound(bytes, third, 4);
            lemma_number_bound(bytes, fourth, 4);
            let after_sizes = sizes_at(bytes, first)->Ok_0.1;
            let after_entry = entry_at(bytes, after_sizes)->Ok_0.1;
            lemma_number_bound(bytes, after_entry, 4);
        },
    }
}

/// Whether the metadata of a sidecar is in the notation that `serde_json` writes, and
/// fits the format in it.
pub open spec fn metadata_settled(sidecar: SidecarModel) -> bool {
    forall|i: int|
        0 <= i < sidecar.nodes.len() ==> {
            let metadata = (#[trigger] sidecar.nodes[i]).record.metadata;
            in_json_notation(metadata) && text_fits(metadata)
        }
}

/// Whatever has been read can be written, and reads back as the same, where its
/// metadata does: `serde_json` may write a floating-point number in digits that it
/// reads as its neighbor, and a number in more digits than it was read from.
pub proof fn law_read_can_be_written(bytes: Seq<u8>, label: Seq<char>, rest: Seq<u8>)
    ensures
        decoded(bytes, label) matches Ok(sidecar) ==> (metadata_settled(sidecar) ==> {
            &&& sidecar_fits(sidecar)
            &&& decoded(sidecar_bytes(sidecar) + rest, label) == Ok::<SidecarModel, ErrorModel>(
                sidecar,
            )
        }),
{
    match decoded(bytes, label) {
        Err(_) => {},
        Ok(sidecar) => {
            if metadata_settled(sidecar) {
                lemma_read_header_fits(bytes, label);
                let (header, next) = header_at(bytes, label)->Ok_0;
                lemma_read_nodes_fit(bytes, next, header.1, header.0.dimensions as nat);
                law_read_is_sound(bytes, label);
                law_round_trip(sidecar, rest, label);
                law_notation_is_kept(sidecar);
            }
        },
    }
}

proof fn lemma_cut_bytes(bytes: Seq<u8>, kept: nat, at: nat, len: nat)
    requires
        kept <= bytes.len(),
    ensures
        cut_agrees(bytes_at(bytes.take(kept as int), at, len), bytes_at(bytes, at, len), kept),
{
    if at + len <= kept {
        assert(bytes.take(kept as int).subrange(at as int, (at + len) as int) =~= bytes.subrange(
            at as int,
            (at + len) as int,
        ));
    }
}

proof fn lemma_cut_number(bytes: Seq<u8>, kept: nat, at: nat, width: nat)
    requires
        kept <= bytes.len(),
    ensures
        cut_agrees(
            number_at(bytes.take(kept as int), at, width),
            number_at(bytes, at, width),
            kept,
        ),
{
    lemma_cut_bytes(bytes, kept, at, width);
}

proof fn lemma_cut_optional(bytes: Seq<u8>, kept: nat, at: nat)
    requires
        kept <= bytes.len(),
    ensures
        cut_agrees(optional_at(bytes.take(kept as int), at), optional_at(bytes, at), kept),
{
    lemma_cut_number(bytes, kept, at, 1);
    match number_at(bytes, at, 1) {
        Err(_) => {},
        Ok((_, next)) => {
            lemma_cut_number(bytes, kept, next, 4);
        },
    }
}

proof fn lemma_cut_text(bytes: Seq<u8>, kept: nat, at: nat)
    requires
        kept <= bytes.len(),
    ensures
        cut_agrees(text_at(bytes.take(kept as int), at), text_at(bytes, at), kept),
{
    lemma_cut_number(bytes, kept, at, 4);
    match number_at(bytes, at, 4) {
        Err(_) => {},
        Ok((len, next)) => {
            lemma_cut_bytes(bytes, kept, next, len);
        },
    }
}

proof fn lemma_cut_words(bytes: Seq<u8>, kept: nat, at: nat, count: nat)
    requires
        at <= kept <= bytes.len(),
    ensures
        cut_agrees(
            words_at(bytes.take(kept as int), at, count),
            words_at(bytes, at, count),
            kept,
        ),
    decreases count,
{
    if count > 0 {
        lemma_cut_words(bytes, kept, at, (count - 1) as nat);
        match words_at(bytes, at, (count - 1) as nat) {
            Err(_) => {},
            Ok((_, next)) => {
                lemma_cut_number(bytes, kept, next, 4);
            },
        }
    }
}

proof fn lemma_cut_word_list(bytes: Seq<u8>, kept: nat, at: nat)
    requires
        kept <= bytes.len(),
    ensures
        cut_agrees(word_list_at(bytes.take(kept as int), at), word_list_at(bytes, at), kept),
{
    lemma_cut_number(bytes, kept, at, 4);
    match number_at(bytes.take(kept as int), at, 4) {
        Err(_) => {},
        Ok((count, next)) => {
            lemma_cut_words(bytes, kept, next, count);
        },
    }
}

proof fn lemma_cut_lists(bytes: Seq<u8>, kept: nat, at: nat, count: nat)
    requires
        at <= kept <= bytes.len(),
    ensures
        cut_agrees(
            lists_at(bytes.take(kept as int), at, count),
            lists_at(bytes, at, count),
            kept,
        ),
    decreases count,
{
    if count > 0 {
        lemma_cut_lists(bytes, kept, at, (count - 1) as nat);
        match lists_at(bytes, at, (count - 1) as nat) {
            Err(_) => {},
            Ok((_, next)) => {
                lemma_cut_word_list(bytes, kept, next);
            },
        }
    }
}

proof fn lemma_cut_record(bytes: Seq<u8>, kept: nat, at: nat, dimensions: nat)
    requires
        kept <= bytes.len(),
    ensures
        cut_agrees(
            record_at(bytes.take(kept as int), at, dimensions),
            record_at(bytes, at, dimensions),
            kept,
        ),
{
    lemma_cut_number(bytes, kept, at, 1);
    if let Ok((_, second)) = number_at(bytes, at, 1) {
        lemma_cut_number(bytes, kept, second, 4);
        if let Ok((_, third)) = number_at(bytes, second, 4) {
            lemma_cut_number(bytes, kept, third, 8);
            if let Ok((_, fourth)) = number_at(bytes, third, 8) {
                lemma_cut_text(bytes, kept, fourth);
                if let Ok((_, fifth)) = text_at(bytes, fourth) {
                    lemma_cut_word_list(bytes, kept, fifth);
                    if let Ok((_, sixth)) = word_list_at(bytes, fifth) {
                        lemma_cut_text(bytes, kept, sixth);
                    }
                }
            }
        }
    }
}

proof fn lemma_cut_node(bytes: Seq<u8>, kept: nat, at: nat, dimensions: nat)
    requires
        kept <= bytes.len(),
    ensures
        cut_agrees(
            node_at(bytes.take(kept as int), at, dimensions),
            node_at(bytes, at, dimensions),
            kept,
        ),
{
    lemma_cut_record(bytes, kept, at, dimensions);
    if let Ok((_, next)) = record_at(bytes, at, dimensions) {
        lemma_cut_number(bytes, kept, next, 4);
        if let Ok((count, after)) = number_at(bytes.take(kept as int), next, 4) {
            lemma_cut_lists(bytes, kept, after, count);
        }
    }
}

proof fn lemma_cut_nodes(bytes: Seq<u8>, kept: nat, at: nat, count: nat, dimensions: nat)
    requires
        at <= kept <= bytes.len(),
    ensures
        cut_agrees(
            nodes_at(bytes.take(kept as int), at, count, dimensions),
            nodes_at(bytes, at, count, dimensions),
            kept,
        ),
    decreases count,
{
    if count > 0 {
        lemma_cut_nodes(bytes, kept, at, (count - 1) as nat, dimensions);
        match nodes_at(bytes, at, (count - 1) as nat, dimensions) {
            Err(_) => {},
            Ok((_, next)) => {
                lemma_cut_node(bytes, kept, next, dimensions);
            },
        }
    }
}

proof fn lemma_cut_prefix(bytes: Seq<u8>, kept: nat, label: Seq<char>)
    requires
        kept <= bytes.len(),
    ensures
        cut_agrees(prefix_at(bytes.take(kept as int), label), prefix_at(bytes, label), kept),
{
    lemma_cut_bytes(bytes, kept, 0, 4);
    lemma_cut_number(bytes, kept, 4, 2);
    lemma_cut_text(bytes, kept, 6);
}

proof fn lemma_cut_tags(bytes: Seq<u8>, kept: nat, at: nat)
    requires
        kept <= bytes.len(),
    ensures
        cut_agrees(tags_at(bytes.take(kept as int), at), tags_at(bytes, at), kept),
{
    lemma_cut_number(bytes, kept, at, 1);
    lemma_cut_number(bytes, kept, at + 1, 1);
}

proof fn lemma_cut_sizes(bytes: Seq<u8>, kept: nat, at: nat)
    requires
        kept <= bytes.len(),
    ensures
        cut_agrees(sizes_at(bytes.take(kept as int), at), sizes_at(bytes, at), kept),
{
    lemma_cut_number(bytes, kept, at, 4);
    lemma_cut_number(bytes, kept, at + 4, 4);
    lemma_cut_number(bytes, kept, at + 8, 4);
    lemma_cut_number(bytes, kept, at + 12, 4);
}

proof fn lemma_cut_entry(bytes: Seq<u8>, kept: nat, at: nat)
    requires
        kept <= bytes.len(),
    ensures
        cut_agrees(entry_at(bytes.take(kept as int), at), entry_at(bytes, at), kept),
{
    lemma_cut_number(bytes, kept, at, 1);
    lemma_cut_optional(bytes, kept, at + 1);
}

proof fn lemma_cut_header(bytes: Seq<u8>, kept: nat, label: Seq<char>)
    requires
        kept <= bytes.len(),
    ensures
        cut_agrees(header_at(bytes.take(kept as int), label), header_at(bytes, label), kept),
{
    lemma_cut_prefix(bytes, kept, label);
    if let Ok((_, after_prefix)) = prefix_at(bytes, label) {
        lemma_cut_tags(bytes, kept, after_prefix);
        if let Ok((_, after_tags)) = tags_at(bytes, after_prefix) {
            lemma_cut_sizes(bytes, kept, after_tags);
            if let Ok((_, after_sizes)) = sizes_at(bytes, after_tags) {
                lemma_cut_entry(bytes, kept, after_sizes);
                if let Ok((_, after_entry)) = entry_at(bytes, after_sizes) {
                    lemma_cut_number(bytes, kept, after_entry, 4);
                }
            }
        }
    }
}

/// Reading what has been written, but cut short anywhere, always says that the
/// data ends too early: of every written file whose header and nodes can be read, so
/// of every one that is accepted.
pub proof fn law_truncated_is_rejected(sidecar: SidecarModel, kept: nat, label: Seq<char>)
    requires
        sidecar_fits(sidecar),
        raw_sidecar(sidecar_bytes(sidecar), label) is Ok,
        kept < sidecar_bytes(sidecar).len(),
    ensures
        decoded(sidecar_bytes(sidecar).take(kept as int), label) == Err::<SidecarModel, ErrorModel>(
            truncated(),
        ),
{
    let bytes = sidecar_bytes(sidecar);
    let cut = bytes.take(kept as int);
    let start = header_bytes(sidecar);
    assert(bytes.subrange(0, bytes.len() as int) =~= bytes);
    assert(holds_at(bytes, 0, bytes));
    lemma_split(bytes, 0, start, nodes_bytes(sidecar.nodes));
    lemma_header(bytes, label, sidecar);
    lemma_nodes_end(bytes, start.len(), sidecar.nodes, sidecar.dimensions as nat);
    lemma_cut_header(bytes, kept, label);
    if let Ok((header, next)) = header_at(cut, label) {
        lemma_cut_nodes(bytes, kept, next, header.1, header.0.dimensions as nat);
    }
}

} // verus!
