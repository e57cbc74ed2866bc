//! Bounds on the neighbor lists of a built graph.

use crate::index::builder::{
    dimension_fault, empty_sidecar, filled, first_dimensions, hnsw_build, lemma_filled,
    lemma_no_dimension_fault, level_of_hash,
};
use crate::index::construction::{
    connected, entry_above, inserted, lemma_connected, lemma_entry_above, lemma_grown_sound,
    lemma_linked, lemma_one_link, lemma_selected, lemma_trimmed, linkable, linked, linked_down,
    lone_node, selected_at, trimmed, uniform, with_link, with_list,
};
use crate::index::graph::{HnswBuildParams, NodeModel, RecordModel, SidecarModel};
use crate::index::layer::node_values;
use crate::index::search_facts::all_valued;
use crate::index::validity::{sound_graph, sound_links};
use crate::types::DistanceMetric;
use vstd::prelude::*;

verus! {

/// Whether a neighbor list is short enough and names no node twice, nor the node
/// that it belongs to.
pub open spec fn tidy_list(list: Seq<u32>, node: int, limit: nat) -> bool {
    &&& list.len() <= limit
    &&& list.no_duplicates()
    &&& forall|k: int| 0 <= k < list.len() ==> #[trigger] list[k] != node
}

/// Whether all neighbor lists but one are tidy.
pub open spec fn tidy_but(nodes: Seq<NodeModel>, limit: nat, node: int, layer: int) -> bool {
    forall|a: int, l: int|
        #![trigger nodes[a].neighbors[l]]
        0 <= a < nodes.len() && 0 <= l < nodes[a].neighbors.len() && !(a == node && l == layer)
            ==> tidy_list(nodes[a].neighbors[l], a, limit)
}

/// Whether all neighbor lists are tidy.
pub open spec fn tidy(nodes: Seq<NodeModel>, limit: nat) -> bool {
    forall|a: int, l: int|
        #![trigger nodes[a].neighbors[l]]
        0 <= a < nodes.len() && 0 <= l < nodes[a].neighbors.len() ==> tidy_list(
            nodes[a].neighbors[l],
            a,
            limit,
        )
}

pub proof fn lemma_tidy_linked(
    nodes: Seq<NodeModel>,
    metric: DistanceMetric,
    rows: Seq<Seq<u32>>,
    limit: nat,
    node: int,
    layer: int,
    selected: Seq<usize>,
    count: nat,
)
    requires
        tidy_but(nodes, limit, node, layer),
        sound_links(nodes),
        nodes.len() <= 0x1_0000_0000,
        0 <= node < nodes.len(),
        0 <= layer <= nodes[node].level,
        linkable(nodes, node, layer, selected),
        count <= selected.len(),
    ensures
        tidy_but(
            linked(nodes, metric, rows, limit, node, layer, selected, count),
            limit,
            node,
            layer,
        ),
    decreases count,
{
    if count > 0 {
        let earlier = (count - 1) as nat;
        lemma_tidy_linked(nodes, metric, rows, limit, node, layer, selected, earlier);
        lemma_linked(nodes, metric, rows, limit, node, layer, selected, earlier);
        let before = linked(nodes, metric, rows, limit, node, layer, selected, earlier);
        assert(selected[count - 1] < nodes.len());
        let neighbor = selected[count - 1] as int;
        assert(before[neighbor].level == nodes[neighbor].level);
        assert(before[node].level == nodes[node].level);
        lemma_one_link(before, metric, rows, limit, node, layer, neighbor);
        let forth = with_link(before, node, layer, neighbor as u32);
        let both = with_link(forth, neighbor, layer, node as u32);
        let list = both[neighbor].neighbors[layer];
        let kept = trimmed(metric, list, rows[neighbor], neighbor, limit);
        let after = with_list(both, neighbor, layer, kept);
        lemma_trimmed(metric, list, rows[neighbor], neighbor, limit);
        assert(linked(nodes, metric, rows, limit, node, layer, selected, count) == after);
        assert forall|a: int, l: int|
            #![trigger after[a].neighbors[l]]
            0 <= a < after.len() && 0 <= l < after[a].neighbors.len() && !(a == node && l
                == layer) implies tidy_list(after[a].neighbors[l], a, limit) by {
            if a == neighbor && l == layer {
                assert(after[a].neighbors[l] == kept);
            } else {
                assert(after[a].neighbors[l] == before[a].neighbors[l]);
            }
        }
    }
}

pub proof fn lemma_tidy_connected(
    nodes: Seq<NodeModel>,
    metric: DistanceMetric,
    rows: Seq<Seq<u32>>,
    limit: nat,
    node: int,
    layer: int,
    selected: Seq<usize>,
)
    requires
        tidy(nodes, limit),
        sound_links(nodes),
        nodes.len() <= 0x1_0000_0000,
        0 <= node < nodes.len(),
        0 <= layer <= nodes[node].level,
        linkable(nodes, node, layer, selected),
    ensures
        tidy(connected(nodes, metric, rows, limit, node, layer, selected), limit),
{
    lemma_tidy_linked(nodes, metric, rows, limit, node, layer, selected, selected.len());
    lemma_linked(nodes, metric, rows, limit, node, layer, selected, selected.len());
    let all = linked(nodes, metric, rows, limit, node, layer, selected, selected.len());
    let list = all[node].neighbors[layer];
    let kept = trimmed(metric, list, rows[node], node, limit);
    lemma_trimmed(metric, list, rows[node], node, limit);
    let after = with_list(all, node, layer, kept);
    assert forall|a: int, l: int|
        #![trigger after[a].neighbors[l]]
        0 <= a < after.len() && 0 <= l < after[a].neighbors.len() implies tidy_list(
        after[a].neighbors[l],
        a,
        limit,
    ) by {
        if a == node && l == layer {
            assert(after[a].neighbors[l] == kept);
        } else {
            assert(after[a].neighbors[l] == all[a].neighbors[l]);
        }
    }
}

proof fn lemma_tidy_linked_down(
    nodes: Seq<NodeModel>,
    metric: DistanceMetric,
    rows: Seq<Seq<u32>>,
    params: HnswBuildParams,
    node: int,
    layers: nat,
    entry: usize,
    dimensions: nat,
)
    requires
        tidy(nodes, params.max_neighbors as nat),
        sound_links(nodes),
        uniform(nodes, dimensions),
        nodes.len() <= 0x1_0000_0000,
        0 <= node < nodes.len() <= usize::MAX,
        layers <= nodes[node].level + 1,
        entry < nodes.len(),
        layers > 0 ==> layers - 1 <= nodes[entry as int].level,
    ensures
        tidy(
            linked_down(nodes, metric, rows, params, node, layers, entry),
            params.max_neighbors as nat,
        ),
    decreases layers,
{
    if layers > 0 {
        let limit = params.max_neighbors as nat;
        let layer = (layers - 1) as nat;
        let selected = selected_at(nodes, metric, rows, params, node, layer, entry);
        lemma_selected(nodes, metric, rows, params, node, layer, entry, dimensions);
        lemma_connected(nodes, metric, rows, limit, node, layer as int, selected);
        lemma_tidy_connected(nodes, metric, rows, limit, node, layer as int, selected);
        let next = connected(nodes, metric, rows, limit, node, layer as int, selected);
        let next_entry = if selected.len() > 0 {
            selected[0]
        } else {
            entry
        };
        assert(uniform(next, dimensions)) by {
            assert forall|i: int| 0 <= i < next.len() implies (
            #[trigger] next[i]).record.vector.len() == dimensions by {
                assert(nodes[i].record.vector.len() == dimensions);
            }
        }
        if selected.len() > 0 {
            assert(selected[0] < nodes.len());
        }
        assert(next[next_entry as int].level == nodes[next_entry as int].level);
        assert(next[node].level == nodes[node].level);
        lemma_tidy_linked_down(next, metric, rows, params, node, layer, next_entry, dimensions);
    }
}

/// Inserting a record keeps the neighbor lists tidy.
pub proof fn law_insert_keeps_lists_tidy(
    sidecar: SidecarModel,
    record: RecordModel,
    level: u8,
    rows: Seq<Seq<u32>>,
)
    requires
        sound_graph(sidecar),
        tidy(sidecar.nodes, sidecar.params.max_neighbors as nat),
        uniform(sidecar.nodes, sidecar.dimensions as nat),
        record.vector.len() == sidecar.dimensions,
        sidecar.nodes.len() < 0x1_0000_0000,
        sidecar.nodes.len() < usize::MAX,
    ensures
        tidy(
            inserted(sidecar, record, level, rows).nodes,
            sidecar.params.max_neighbors as nat,
        ),
{
    let limit = sidecar.params.max_neighbors as nat;
    let node = sidecar.nodes.len() as int;
    let grown = sidecar.nodes.push(lone_node(record, level));
    lemma_grown_sound(sidecar.nodes, record, level);
    assert(uniform(grown, sidecar.dimensions as nat));
    assert(tidy(grown, limit)) by {
        assert forall|a: int, l: int|
            #![trigger grown[a].neighbors[l]]
            0 <= a < grown.len() && 0 <= l < grown[a].neighbors.len() implies tidy_list(
            grown[a].neighbors[l],
            a,
            limit,
        ) by {
            if a < node {
                assert(grown[a] == sidecar.nodes[a]);
                assert(tidy_list(sidecar.nodes[a].neighbors[l], a, limit));
            }
        }
    }
    match sidecar.entry_point {
        None => {},
        Some(entry) => {
            let values = node_values(grown, record.vector.len(), rows[node]);
            assert(all_valued(values)) by {
                assert forall|i: int| 0 <= i < values.len() implies (
                #[trigger] values[i]) is Ok by {
                    assert(grown[i].record.vector.len() == sidecar.dimensions);
                }
            }
            assert(grown[entry as int] == sidecar.nodes[entry as int]);
            lemma_entry_above(
                grown,
                sidecar.metric,
                values,
                sidecar.max_level as nat,
                level as nat,
                entry as int,
            );
            let start = entry_above(
                grown,
                sidecar.metric,
                values,
                sidecar.max_level as nat,
                level as nat,
                entry as int,
            )->Ok_0;
            let layers = if sidecar.max_level < level {
                sidecar.max_level + 1
            } else {
                level + 1
            };
            lemma_tidy_linked_down(
                grown,
                sidecar.metric,
                rows,
                sidecar.params,
                node,
                layers as nat,
                start as usize,
                sidecar.dimensions as nat,
            );
        },
    }
}

pub proof fn lemma_tidy_filled(
    empty: SidecarModel,
    entries: Seq<RecordModel>,
    hashes: Seq<u64>,
    rows: Seq<Seq<u32>>,
    count: nat,
)
    requires
        empty.nodes.len() == 0,
        empty.entry_point is None,
        forall|i: int|
            0 <= i < count ==> (#[trigger] entries[i]).vector.len() == empty.dimensions,
        count <= entries.len(),
        count <= 0x1_0000_0000,
        count <= usize::MAX,
    ensures
        tidy(
            filled(empty, entries, hashes, rows, count).nodes,
            empty.params.max_neighbors as nat,
        ),
    decreases count,
{
    if count > 0 {
        lemma_tidy_filled(empty, entries, hashes, rows, (count - 1) as nat);
        lemma_filled(empty, entries, hashes, rows, (count - 1) as nat);
        assert(entries[count - 1].vector.len() == empty.dimensions);
        law_insert_keeps_lists_tidy(
            filled(empty, entries, hashes, rows, (count - 1) as nat),
            entries[count - 1],
            level_of_hash(hashes[count - 1]),
            rows,
        );
    }
}

/// Whatever the hashes are, each node of a built sidecar keeps at most
/// `max_neighbors` neighbors per layer, all different and none of them itself.
pub proof fn law_build_keeps_lists_tidy(
    segment_id: Seq<char>,
    metric: DistanceMetric,
    params: HnswBuildParams,
    entries: Seq<RecordModel>,
    hashes: Seq<u64>,
    rows: Seq<Seq<u32>>,
)
    requires
        entries.len() <= 0x1_0000_0000,
        entries.len() <= usize::MAX,
        first_dimensions(entries) <= usize::MAX,
    ensures
        hnsw_build(segment_id, metric, params, entries, hashes, rows) matches Ok(sidecar) ==> tidy(
            sidecar.nodes,
            params.max_neighbors as nat,
        ),
{
    let dimensions = first_dimensions(entries);
    if dimension_fault(entries, dimensions, entries.len()) is None {
        lemma_no_dimension_fault(entries, dimensions, entries.len());
        lemma_tidy_filled(
            empty_sidecar(segment_id, metric, params, dimensions),
            entries,
            hashes,
            rows,
            entries.len(),
        );
    }
}

} // verus!
