//! How a new node finds its place, layer by layer.

use crate::index::construction::{
    connected, entry_above, indices_of, inserted, lemma_selected, linked_down, lone_node, nearest,
    selected_at, uniform,
};
use crate::index::graph::{HnswBuildParams, NodeModel, RecordModel, SidecarModel};
use crate::index::layer::{layer_search, node_values, LayerGoal};
use crate::index::layer_facts::{closed_under_links, law_layer_search};
use crate::index::ranking::law_nearest_leaves_out_nothing_nearer;
use crate::index::retention::as_near;
use crate::index::search::{entry_for_base, larger};
use crate::index::validity::{lemma_sound_links_in_range, sound_links};
use crate::types::DistanceMetric;
use vstd::prelude::*;

verus! {

/// A descent that ends above a layer is the start of the descent to the base layer: what is left
/// of it leads to the same node. Nothing is descended where the layer is at the top.
pub proof fn law_descents_are_parts_of_searches(
    nodes: Seq<NodeModel>,
    metric: DistanceMetric,
    values: Seq<Result<u32, nat>>,
    from: nat,
    to: nat,
    entry: int,
)
    ensures
        from <= to ==> entry_above(nodes, metric, values, from, to, entry) == Ok::<int, nat>(entry),
        entry_above(nodes, metric, values, from, 0, entry) == entry_for_base(
            nodes,
            metric,
            values,
            from,
            entry,
        ),
        from >= to ==> entry_for_base(nodes, metric, values, from, entry) == (match entry_above(
            nodes,
            metric,
            values,
            from,
            to,
            entry,
        ) {
            Ok(next) => entry_for_base(nodes, metric, values, to, next),
            Err(found) => Err(found),
        }),
    decreases from,
{
    if from > 0 {
        match crate::index::layer::descended(nodes, metric, values, from, entry) {
            Ok(next) => {
                law_descents_are_parts_of_searches(
                    nodes,
                    metric,
                    values,
                    (from - 1) as nat,
                    to,
                    next,
                );
            },
            Err(_) => {},
        }
    }
}

/// The nodes that a new node is linked with come nearest first.
pub proof fn law_selected_nodes_come_nearest_first(
    nodes: Seq<NodeModel>,
    metric: DistanceMetric,
    rows: Seq<Seq<u32>>,
    params: HnswBuildParams,
    node: int,
    layer: nat,
    dimensions: nat,
    entry: usize,
)
    requires
        sound_links(nodes),
        uniform(nodes, dimensions),
        nodes.len() <= 0x1_0000_0000,
        0 <= node < nodes.len() <= usize::MAX,
        entry < nodes.len(),
        layer <= nodes[entry as int].level,
        forall|i: int|
            0 <= i < nodes.len() ==> (#[trigger] rows[node][i]) % 0x8000_0000 <= 0x7f80_0000,
    ensures
        ({
            let selected = selected_at(nodes, metric, rows, params, node, layer, entry);
            forall|j: int, k: int|
                0 <= j < k < selected.len() ==> as_near(
                    metric,
                    rows[node][#[trigger] selected[j] as int],
                    rows[node][#[trigger] selected[k] as int],
                )
        }),
{
    let limit = params.max_neighbors as nat;
    let goal = LayerGoal {
        metric,
        ef: larger(params.ef_construction as nat, limit),
        exclude: Some(node as usize),
    };
    let values = node_values(nodes, nodes[node].record.vector.len(), rows[node]);
    let anywhere = |one: usize| true;
    lemma_selected(nodes, metric, rows, params, node, layer, entry, dimensions);
    lemma_sound_links_in_range(nodes);
    assert(closed_under_links(nodes, layer, anywhere));
    law_layer_search(nodes, layer, goal, values, entry, anywhere);
    let scored = layer_search(nodes, layer, goal, values, entry)->Ok_0.0;
    let best = nearest(metric, scored, limit);
    let selected = selected_at(nodes, metric, rows, params, node, layer, entry);
    assert(selected == indices_of(best));
    assert forall|i: int| 0 <= i < scored.len() implies (#[trigger] scored[i]).value
        == rows[node][scored[i].index as int] && scored[i].value % 0x8000_0000 <= 0x7f80_0000 by {
        let at = scored[i].index as int;
        assert(nodes[at].record.vector.len() == dimensions);
        assert(values[at] == Ok::<u32, nat>(rows[node][at]));
        assert(rows[node][at] % 0x8000_0000 <= 0x7f80_0000);
    }
    assert(scored.no_duplicates()) by {
        assert forall|i: int, j: int|
            0 <= i < scored.len() && 0 <= j < scored.len() && i != j implies scored[i]
            != scored[j] by {
            if i < j {
                assert(scored[i].index != scored[j].index);
            } else {
                assert(scored[j].index != scored[i].index);
            }
        }
    }
    law_nearest_leaves_out_nothing_nearer(metric, scored, limit);
    assert forall|j: int, k: int| 0 <= j < k < selected.len() implies as_near(
        metric,
        rows[node][#[trigger] selected[j] as int],
        rows[node][#[trigger] selected[k] as int],
    ) by {
        assert(scored.contains(best[j]));
        assert(scored.contains(best[k]));
        let a = choose|a: int| 0 <= a < scored.len() && scored[a] == best[j];
        let b = choose|b: int| 0 <= b < scored.len() && scored[b] == best[k];
        assert(scored[a].value == rows[node][selected[j] as int]);
        assert(scored[b].value == rows[node][selected[k] as int]);
    }
}

/// A new node is linked from its highest layer down. On each layer the search starts at the nearest
/// of the nodes that it was linked with on the layer above, or where that search started if there
/// were none.
pub proof fn law_layers_hand_on_the_nearest(
    nodes: Seq<NodeModel>,
    metric: DistanceMetric,
    rows: Seq<Seq<u32>>,
    params: HnswBuildParams,
    node: int,
    layers: nat,
    dimensions: nat,
    entry: usize,
) -> (next: usize)
    requires
        layers > 0,
        sound_links(nodes),
        uniform(nodes, dimensions),
        nodes.len() <= 0x1_0000_0000,
        0 <= node < nodes.len() <= usize::MAX,
        entry < nodes.len(),
        layers - 1 <= nodes[entry as int].level,
        forall|i: int|
            0 <= i < nodes.len() ==> (#[trigger] rows[node][i]) % 0x8000_0000 <= 0x7f80_0000,
    ensures
        ({
            let top = (layers - 1) as nat;
            let selected = selected_at(nodes, metric, rows, params, node, top, entry);
            &&& selected.len() == 0 ==> next == entry
            &&& selected.len() > 0 ==> selected.contains(next) && forall|k: int|
                0 <= k < selected.len() ==> as_near(
                    metric,
                    rows[node][next as int],
                    rows[node][#[trigger] selected[k] as int],
                )
            &&& linked_down(nodes, metric, rows, params, node, layers, entry) == linked_down(
                connected(
                    nodes,
                    metric,
                    rows,
                    params.max_neighbors as nat,
                    node,
                    layers - 1,
                    selected,
                ),
                metric,
                rows,
                params,
                node,
                top,
                next,
            )
        }),
{
    let top = (layers - 1) as nat;
    let selected = selected_at(nodes, metric, rows, params, node, top, entry);
    law_selected_nodes_come_nearest_first(
        nodes,
        metric,
        rows,
        params,
        node,
        top,
        dimensions,
        entry,
    );
    if selected.len() > 0 {
        assert(selected.contains(selected[0]));
        assert forall|k: int| 0 <= k < selected.len() implies as_near(
            metric,
            rows[node][selected[0] as int],
            rows[node][#[trigger] selected[k] as int],
        ) by {
            if k > 0 {
                assert(as_near(
                    metric,
                    rows[node][selected[0] as int],
                    rows[node][selected[k] as int],
                ));
            }
        }
        selected[0]
    } else {
        entry
    }
}

/// A record that is put into an index becomes its last node. The first one of an index is its entry
/// point. A later one is linked on each layer that both it and the index reach, from the highest
/// down, starting where a search for its vector has come to when it has passed the layers above; it
/// becomes the entry point where it is higher than all before it.
pub proof fn law_records_are_put_in_from_above(
    sidecar: SidecarModel,
    record: RecordModel,
    level: u8,
    rows: Seq<Seq<u32>>,
)
    requires
        sidecar.nodes.len() <= u32::MAX,
    ensures
        ({
            let grown = inserted(sidecar, record, level, rows);
            let node = sidecar.nodes.len() as int;
            let nodes = sidecar.nodes.push(lone_node(record, level));
            &&& sidecar.entry_point is None ==> grown.nodes == nodes && grown.entry_point == Some(
                node as u32,
            ) && grown.max_level == level
            &&& sidecar.entry_point matches Some(entry) ==> {
                &&& level <= sidecar.max_level ==> grown.entry_point == Some(entry)
                    && grown.max_level == sidecar.max_level
                &&& level > sidecar.max_level ==> grown.entry_point == Some(node as u32)
                    && grown.max_level == level
                &&& level > sidecar.max_level ==> grown.nodes == linked_down(
                    nodes,
                    sidecar.metric,
                    rows,
                    sidecar.params,
                    node,
                    (sidecar.max_level + 1) as nat,
                    entry as usize,
                )
                &&& level <= sidecar.max_level ==> (entry_above(
                    nodes,
                    sidecar.metric,
                    node_values(nodes, record.vector.len(), rows[node]),
                    sidecar.max_level as nat,
                    level as nat,
                    entry as int,
                ) matches Ok(start) ==> grown.nodes == linked_down(
                    nodes,
                    sidecar.metric,
                    rows,
                    sidecar.params,
                    node,
                    (level + 1) as nat,
                    start as usize,
                ))
            }
        }),
{
}

/// A node starts without neighbors, with one list for each layer up to its own.
pub proof fn law_new_nodes_have_no_neighbors(record: RecordModel, level: u8)
    ensures
        lone_node(record, level).record == record,
        lone_node(record, level).level == level,
        lone_node(record, level).neighbors.len() == level + 1,
        forall|layer: int|
            0 <= layer <= level ==> (#[trigger] lone_node(record, level).neighbors[layer]).len()
                == 0,
{
}

} // verus!
