//! Graphs small enough that each node is linked to every other one.

use crate::index::builder::{
    dimension_fault, empty_sidecar, filled, first_dimensions, hnsw_build, lemma_filled,
    lemma_no_dimension_fault, level_of_hash,
};
use crate::index::construction::{
    ascending_unique, connected, entry_above, indices_of, inserted, lemma_ascending_unique,
    lemma_connected, lemma_grown_sound, lemma_linked, lemma_one_link, lemma_selected, linkable,
    linked, linked_down, lone_node, nearest, scored_neighbors, selected_at, trimmed, uniform,
    with_link, with_list,
};
use crate::index::graph::{neighbors_at, HnswBuildParams, NodeModel, RecordModel, SidecarModel};
use crate::index::layer::{descended, layer_search, node_values, LayerGoal};
use crate::index::layer_facts::{closed_under_links, law_layer_search};
use crate::index::reach::{
    is_walk, law_layer_search_misses_nothing, lemma_full_result_holds_all, links_to,
};
use crate::index::score::{law_sort_keeps_nodes, lemma_sort_members, sorted_best_first, ScoredNode};
use crate::index::search::larger;
use crate::index::search_facts::{all_valued, lemma_descent_succeeds};
use crate::index::validity::{
    lemma_sound_links_in_range, levels_capped, sound_graph, sound_links,
};
use crate::types::DistanceMetric;
use vstd::prelude::*;

verus! {

/// Whether a layer links one node to another.
pub open spec fn link_on(nodes: Seq<NodeModel>, layer: int, from: int, to: int) -> bool {
    nodes[from].neighbors[layer].contains(to as u32)
}

/// Whether a layer links each of the first `count` nodes that reach it to every other one of
/// them.
pub open spec fn complete_on(nodes: Seq<NodeModel>, layer: int, count: nat) -> bool {
    forall|a: int, b: int|
        0 <= a < count && 0 <= b < count && a != b && layer <= nodes[a].level && layer
            <= nodes[b].level ==> #[trigger] link_on(nodes, layer, a, b)
}

/// Whether the base layer links one node to another.
pub open spec fn base_link(nodes: Seq<NodeModel>, from: int, to: int) -> bool {
    link_on(nodes, 0, from, to)
}

/// Whether the base layer links each of the first `count` nodes to every other one of
/// them.
pub open spec fn complete(nodes: Seq<NodeModel>, count: nat) -> bool {
    forall|a: int, b: int|
        0 <= a < count && 0 <= b < count && a != b ==> #[trigger] base_link(nodes, a, b)
}

/// Different numbers below a limit are no more than the limit.
pub proof fn lemma_distinct_below(values: Seq<int>, count: nat)
    requires
        values.no_duplicates(),
        forall|i: int| 0 <= i < values.len() ==> 0 <= #[trigger] values[i] < count,
    ensures
        values.len() <= count,
{
    values.unique_seq_to_set();
    vstd::set_lib::lemma_int_range(0, count as int);
    let all = vstd::set_lib::set_int_range(0, count as int);
    let found = values.to_set();
    assert(found.subset_of(all)) by {
        assert forall|value: int| found.contains(value) implies all.contains(value) by {
            let i = choose|i: int| 0 <= i < values.len() && values[i] == value;
            assert(0 <= values[i] < count);
        }
    }
    vstd::set_lib::lemma_len_subset(found, all);
}

/// Where there is room for every other node, the best neighbors are all of them.
proof fn lemma_trimmed_keeps(
    metric: DistanceMetric,
    neighbors: Seq<u32>,
    row: Seq<u32>,
    node: int,
    limit: nat,
    count: nat,
    kept: u32,
)
    requires
        forall|k: int| 0 <= k < neighbors.len() ==> #[trigger] neighbors[k] < count,
        0 <= node < count <= limit + 1,
        neighbors.contains(kept),
        kept != node,
    ensures
        trimmed(metric, neighbors, row, node, limit).contains(kept),
{
    let unique = ascending_unique(neighbors, node);
    lemma_ascending_unique(neighbors, node);
    let with_node = unique.map_values(|value: u32| value as int).push(node);
    assert forall|i: int| 0 <= i < unique.len() implies #[trigger] unique[i] < count && unique[i]
        != node by {
        assert(unique.contains(unique[i]));
        assert(neighbors.contains(unique[i]));
        let k = choose|k: int| 0 <= k < neighbors.len() && neighbors[k] == unique[i];
        assert(neighbors[k] < count);
    }
    assert(with_node.no_duplicates()) by {
        assert forall|i: int, j: int|
            0 <= i < with_node.len() && 0 <= j < with_node.len() && i != j implies with_node[i]
            != with_node[j] by {
            if i < unique.len() && j < unique.len() {
                if i < j {
                    assert(unique[i] < unique[j]);
                } else {
                    assert(unique[j] < unique[i]);
                }
            } else if i < unique.len() {
                assert(unique[i] != node);
            } else {
                assert(unique[j] != node);
            }
        }
    }
    assert forall|i: int| 0 <= i < with_node.len() implies 0 <= #[trigger] with_node[i]
        < count by {
        if i < unique.len() {
            assert(unique[i] < count);
        }
    }
    lemma_distinct_below(with_node, count);
    let scored = scored_neighbors(unique, row);
    let sorted = sorted_best_first(metric, scored);
    law_sort_keeps_nodes(metric, scored);
    lemma_sort_members(metric, scored);
    assert(unique.contains(kept));
    let i = choose|i: int| 0 <= i < unique.len() && unique[i] == kept;
    assert(scored.contains(scored[i]));
    assert(sorted.contains(scored[i]));
    let j = choose|j: int| 0 <= j < sorted.len() && sorted[j] == scored[i];
    assert(trimmed(metric, neighbors, row, node, limit)[j] == kept);
}

/// A search for the neighbors of a new node finds every other node on a
/// complete layer.
proof fn lemma_selects_all(
    nodes: Seq<NodeModel>,
    metric: DistanceMetric,
    rows: Seq<Seq<u32>>,
    params: HnswBuildParams,
    node: int,
    layer: nat,
    entry: usize,
    dimensions: nat,
    other: usize,
)
    requires
        sound_links(nodes),
        uniform(nodes, dimensions),
        nodes.len() <= 0x1_0000_0000,
        nodes.len() <= usize::MAX,
        0 <= node == nodes.len() - 1,
        complete_on(nodes, layer as int, node as nat),
        node <= params.max_neighbors,
        entry < node,
        other < node,
        layer <= nodes[entry as int].level,
        layer <= nodes[other as int].level,
    ensures
        selected_at(nodes, metric, rows, params, node, layer, entry).contains(other),
{
    let goal = LayerGoal {
        metric,
        ef: larger(params.ef_construction as nat, params.max_neighbors as nat),
        exclude: Some(node as usize),
    };
    let values = node_values(nodes, nodes[node].record.vector.len(), rows[node]);
    let limit = params.max_neighbors as nat;
    lemma_selected(nodes, metric, rows, params, node, layer, entry, dimensions);
    lemma_sound_links_in_range(nodes);
    let scored = layer_search(nodes, layer, goal, values, entry)->Ok_0.0;
    let anywhere = |index: usize| true;
    assert(closed_under_links(nodes, layer, anywhere));
    law_layer_search(nodes, layer, goal, values, entry, anywhere);
    assert forall|i: int| 0 <= i < scored.len() implies (#[trigger] scored[i]).index < node by {
        assert(goal.exclude != Some(scored[i].index));
    }
    let indices = scored.map_values(|one: ScoredNode| one.index as int);
    assert(indices.no_duplicates()) by {
        assert forall|i: int, j: int|
            0 <= i < indices.len() && 0 <= j < indices.len() && i != j implies indices[i]
            != indices[j] by {
            if i < j {
                assert(scored[i].index != scored[j].index);
            } else {
                assert(scored[j].index != scored[i].index);
            }
        }
    }
    lemma_distinct_below(indices, node as nat);
    if scored.len() >= goal.ef {
        lemma_full_result_holds_all(scored, node as nat, other);
    } else {
        let walk = if other == entry {
            seq![entry]
        } else {
            seq![entry, other]
        };
        if other != entry {
            assert(link_on(nodes, layer as int, entry as int, other as int));
            let list = nodes[entry as int].neighbors[layer as int];
            let k = choose|k: int| 0 <= k < list.len() && list[k] == other as u32;
            assert(neighbors_at(nodes, entry as int, layer)[k] == other);
            assert(links_to(nodes, layer, entry, other));
        }
        assert(is_walk(nodes, layer, goal.exclude, walk));
        law_layer_search_misses_nothing(nodes, layer, goal, values, walk);
    }
    let at = choose|at: int| 0 <= at < scored.len() && (#[trigger] scored[at]).index == other;
    let sorted = sorted_best_first(metric, scored);
    law_sort_keeps_nodes(metric, scored);
    lemma_sort_members(metric, scored);
    assert(scored.contains(scored[at]));
    assert(sorted.contains(scored[at]));
    let j = choose|j: int| 0 <= j < sorted.len() && sorted[j] == scored[at];
    assert(indices_of(nearest(metric, scored, limit))[j] == other);
}

/// Whether the first `count` selected nodes are linked with a node on a layer, in both
/// directions.
pub open spec fn linked_on(
    nodes: Seq<NodeModel>,
    layer: int,
    node: int,
    selected: Seq<usize>,
    count: nat,
) -> bool {
    forall|i: int|
        0 <= i < count ==> {
            &&& link_on(nodes, layer, node, #[trigger] selected[i] as int)
            &&& link_on(nodes, layer, selected[i] as int, node)
        }
}

/// Whether the first `count` selected nodes are linked with a node on the base layer,
/// in both directions.
pub open spec fn base_linked(
    nodes: Seq<NodeModel>,
    node: int,
    selected: Seq<usize>,
    count: nat,
) -> bool {
    linked_on(nodes, 0, node, selected, count)
}

proof fn lemma_links_all(
    nodes: Seq<NodeModel>,
    metric: DistanceMetric,
    rows: Seq<Seq<u32>>,
    limit: nat,
    node: int,
    layer: int,
    selected: Seq<usize>,
    count: nat,
)
    requires
        sound_links(nodes),
        nodes.len() <= 0x1_0000_0000,
        0 <= node == nodes.len() - 1,
        complete_on(nodes, layer, node as nat),
        node <= limit,
        0 <= layer <= nodes[node].level,
        linkable(nodes, node, layer, selected),
        count <= selected.len(),
    ensures
        ({
            let after = linked(nodes, metric, rows, limit, node, layer, selected, count);
            &&& complete_on(after, layer, node as nat)
            &&& linked_on(after, layer, node, selected, count)
        }),
    decreases count,
{
    if count > 0 {
        let earlier = (count - 1) as nat;
        lemma_links_all(nodes, metric, rows, limit, node, layer, selected, earlier);
        lemma_linked(nodes, metric, rows, limit, node, layer, selected, earlier);
        let before = linked(nodes, metric, rows, limit, node, layer, selected, earlier);
        assert(selected[count - 1] < nodes.len());
        let neighbor = selected[count - 1] as int;
        assert(before[neighbor].level == nodes[neighbor].level);
        assert(before[node].level == nodes[node].level);
        lemma_one_link(before, metric, rows, limit, node, layer, neighbor);
        let forth = with_link(before, node, layer, neighbor as u32);
        let both = with_link(forth, neighbor, layer, node as u32);
        let list = both[neighbor].neighbors[layer];
        let kept = trimmed(metric, list, rows[neighbor], neighbor, limit);
        let after = with_list(both, neighbor, layer, kept);
        assert(linked(nodes, metric, rows, limit, node, layer, selected, count) == after);
        let old_list = before[neighbor].neighbors[layer];
        assert(list == old_list.push(node as u32));
        assert forall|x: u32| #[trigger] old_list.contains(x) && x != neighbor implies kept.contains(
            x,
        ) by {
            let k = choose|k: int| 0 <= k < old_list.len() && old_list[k] == x;
            assert(list[k] == x);
            lemma_trimmed_keeps(
                metric,
                list,
                rows[neighbor],
                neighbor,
                limit,
                nodes.len(),
                x,
            );
        }
        assert(kept.contains(node as u32)) by {
            assert(list[old_list.len() as int] == node as u32);
            lemma_trimmed_keeps(
                metric,
                list,
                rows[neighbor],
                neighbor,
                limit,
                nodes.len(),
                node as u32,
            );
        }
        assert(after[neighbor].neighbors[layer] == kept);
        let own = before[node].neighbors[layer];
        let own_after = after[node].neighbors[layer];
        assert(own_after == own.push(neighbor as u32));
        assert forall|a: int, b: int|
            0 <= a < node && 0 <= b < node && a != b && layer <= after[a].level && layer
                <= after[b].level implies #[trigger] link_on(after, layer, a, b) by {
            assert(after[a].level == before[a].level);
            assert(after[b].level == before[b].level);
            assert(link_on(before, layer, a, b));
            if a != neighbor {
                assert(after[a].neighbors[layer] == before[a].neighbors[layer]);
            }
        }
        assert forall|i: int| 0 <= i < count implies {
            &&& link_on(after, layer, node, #[trigger] selected[i] as int)
            &&& link_on(after, layer, selected[i] as int, node)
        } by {
            assert(selected[i] < nodes.len() && selected[i] != node);
            if i < earlier {
                assert(link_on(before, layer, node, selected[i] as int));
                let k = choose|k: int| 0 <= k < own.len() && own[k] == selected[i] as u32;
                assert(own_after[k] == selected[i] as u32);
                assert(link_on(before, layer, selected[i] as int, node));
                if selected[i] != neighbor {
                    assert(after[selected[i] as int].neighbors[layer] == before[selected[i] as int].neighbors[layer]);
                }
            } else {
                assert(own_after[own.len() as int] == neighbor as u32);
            }
        }
    }
}

/// Linking a new node with every other one on a layer keeps the layer complete.
proof fn lemma_connected_completes(
    nodes: Seq<NodeModel>,
    metric: DistanceMetric,
    rows: Seq<Seq<u32>>,
    limit: nat,
    node: int,
    layer: int,
    selected: Seq<usize>,
)
    requires
        sound_links(nodes),
        nodes.len() <= 0x1_0000_0000,
        0 <= node == nodes.len() - 1,
        complete_on(nodes, layer, node as nat),
        node <= limit,
        0 <= layer <= nodes[node].level,
        linkable(nodes, node, layer, selected),
        forall|other: usize|
            other < node && layer <= nodes[other as int].level ==> #[trigger] selected.contains(
                other,
            ),
    ensures
        complete_on(
            connected(nodes, metric, rows, limit, node, layer, selected),
            layer,
            nodes.len(),
        ),
{
    lemma_links_all(nodes, metric, rows, limit, node, layer, selected, selected.len());
    lemma_linked(nodes, metric, rows, limit, node, layer, selected, selected.len());
    let all = linked(nodes, metric, rows, limit, node, layer, selected, selected.len());
    let list = all[node].neighbors[layer];
    let kept = trimmed(metric, list, rows[node], node, limit);
    let after = with_list(all, node, layer, kept);
    assert(all[node].level == nodes[node].level);
    assert(after[node].neighbors[layer] == kept);
    assert forall|k: int| 0 <= k < list.len() implies #[trigger] list[k] < nodes.len() by {
        assert(all[node].neighbors[layer][k] < all.len());
    }
    assert forall|a: int, b: int|
        0 <= a < nodes.len() && 0 <= b < nodes.len() && a != b && layer <= after[a].level && layer
            <= after[b].level implies #[trigger] link_on(after, layer, a, b) by {
        assert(after[a].level == nodes[a].level);
        assert(after[b].level == nodes[b].level);
        if a == node {
            assert(selected.contains(b as usize));
            let i = choose|i: int| 0 <= i < selected.len() && selected[i] == b as usize;
            assert(link_on(all, layer, node, selected[i] as int));
            lemma_trimmed_keeps(metric, list, rows[node], node, limit, nodes.len(), b as u32);
        } else {
            assert(after[a].neighbors[layer] == all[a].neighbors[layer]);
            if b == node {
                assert(selected.contains(a as usize));
                let i = choose|i: int| 0 <= i < selected.len() && selected[i] == a as usize;
                assert(link_on(all, layer, selected[i] as int, node));
            } else {
                assert(link_on(all, layer, a, b));
            }
        }
    }
}

/// Whether two graphs agree on a layer.
pub open spec fn same_on(before: Seq<NodeModel>, after: Seq<NodeModel>, layer: int) -> bool {
    &&& before.len() == after.len()
    &&& forall|i: int|
        0 <= i < before.len() ==> (#[trigger] after[i]).level == before[i].level && (layer
            <= before[i].level ==> after[i].neighbors[layer] == before[i].neighbors[layer])
}

/// Whether two graphs have the same base layer.
pub open spec fn same_base(before: Seq<NodeModel>, after: Seq<NodeModel>) -> bool {
    same_on(before, after, 0)
}

/// Linking a node on one layer leaves the other layers alone.
pub proof fn lemma_linked_elsewhere(
    nodes: Seq<NodeModel>,
    metric: DistanceMetric,
    rows: Seq<Seq<u32>>,
    limit: nat,
    node: int,
    layer: int,
    selected: Seq<usize>,
    count: nat,
    other: int,
)
    requires
        sound_links(nodes),
        nodes.len() <= 0x1_0000_0000,
        0 <= node < nodes.len(),
        0 <= layer <= nodes[node].level,
        0 <= other,
        other != layer,
        linkable(nodes, node, layer, selected),
        count <= selected.len(),
    ensures
        same_on(nodes, linked(nodes, metric, rows, limit, node, layer, selected, count), other),
    decreases count,
{
    if count > 0 {
        let earlier = (count - 1) as nat;
        lemma_linked_elsewhere(nodes, metric, rows, limit, node, layer, selected, earlier, other);
        lemma_linked(nodes, metric, rows, limit, node, layer, selected, earlier);
        let before = linked(nodes, metric, rows, limit, node, layer, selected, earlier);
        assert(selected[count - 1] < nodes.len());
        let neighbor = selected[count - 1] as int;
        assert(before[neighbor].level == nodes[neighbor].level);
        assert(before[node].level == nodes[node].level);
        lemma_one_link(before, metric, rows, limit, node, layer, neighbor);
        let after = linked(nodes, metric, rows, limit, node, layer, selected, count);
        assert forall|i: int| 0 <= i < nodes.len() implies (#[trigger] after[i]).level
            == nodes[i].level && (other <= nodes[i].level ==> after[i].neighbors[other]
            == nodes[i].neighbors[other]) by {
            assert(before[i].level == nodes[i].level);
            assert(before[i].neighbors.len() == before[i].level + 1);
        }
    }
}

/// Linking a node above the base layer leaves the base layer alone.
pub proof fn lemma_linked_above(
    nodes: Seq<NodeModel>,
    metric: DistanceMetric,
    rows: Seq<Seq<u32>>,
    limit: nat,
    node: int,
    layer: int,
    selected: Seq<usize>,
    count: nat,
)
    requires
        sound_links(nodes),
        nodes.len() <= 0x1_0000_0000,
        0 <= node < nodes.len(),
        0 < layer <= nodes[node].level,
        linkable(nodes, node, layer, selected),
        count <= selected.len(),
    ensures
        same_base(nodes, linked(nodes, metric, rows, limit, node, layer, selected, count)),
{
    lemma_linked_elsewhere(nodes, metric, rows, limit, node, layer, selected, count, 0);
}

/// Connecting a node on one layer leaves the other layers alone.
pub proof fn lemma_connected_elsewhere(
    nodes: Seq<NodeModel>,
    metric: DistanceMetric,
    rows: Seq<Seq<u32>>,
    limit: nat,
    node: int,
    layer: int,
    selected: Seq<usize>,
    other: int,
)
    requires
        sound_links(nodes),
        nodes.len() <= 0x1_0000_0000,
        0 <= node < nodes.len(),
        0 <= layer <= nodes[node].level,
        0 <= other,
        other != layer,
        linkable(nodes, node, layer, selected),
    ensures
        same_on(nodes, connected(nodes, metric, rows, limit, node, layer, selected), other),
{
    lemma_linked_elsewhere(
        nodes,
        metric,
        rows,
        limit,
        node,
        layer,
        selected,
        selected.len(),
        other,
    );
    lemma_linked(nodes, metric, rows, limit, node, layer, selected, selected.len());
    let all = linked(nodes, metric, rows, limit, node, layer, selected, selected.len());
    let after = connected(nodes, metric, rows, limit, node, layer, selected);
    assert forall|i: int| 0 <= i < nodes.len() implies (#[trigger] after[i]).level
        == nodes[i].level && (other <= nodes[i].level ==> after[i].neighbors[other]
        == nodes[i].neighbors[other]) by {
        assert(all[i].level == nodes[i].level);
        assert(all[i].neighbors.len() == all[i].level + 1);
    }
}

/// A layer that two graphs agree on is complete in both.
proof fn lemma_same_complete(
    before: Seq<NodeModel>,
    after: Seq<NodeModel>,
    layer: int,
    count: nat,
)
    requires
        same_on(before, after, layer),
        complete_on(before, layer, count),
        count <= before.len(),
    ensures
        complete_on(after, layer, count),
{
    assert forall|a: int, b: int|
        0 <= a < count && 0 <= b < count && a != b && layer <= after[a].level && layer
            <= after[b].level implies #[trigger] link_on(after, layer, a, b) by {
        assert(after[a].level == before[a].level);
        assert(after[b].level == before[b].level);
        assert(link_on(before, layer, a, b));
    }
}

/// A layer that is complete among some nodes is complete among fewer.
proof fn lemma_fewer_complete(nodes: Seq<NodeModel>, layer: int, count: nat, fewer: nat)
    requires
        complete_on(nodes, layer, count),
        fewer <= count,
    ensures
        complete_on(nodes, layer, fewer),
{
    assert forall|a: int, b: int|
        0 <= a < fewer && 0 <= b < fewer && a != b && layer <= nodes[a].level && layer
            <= nodes[b].level implies #[trigger] link_on(nodes, layer, a, b) by {
    }
}

/// Whether every layer of a graph is complete among the nodes before a new one, and from some
/// layer up among all of them.
pub open spec fn complete_above(nodes: Seq<NodeModel>, node: nat, layers: nat) -> bool {
    &&& forall|layer: int| 0 <= layer ==> #[trigger] complete_on(nodes, layer, node)
    &&& forall|layer: int| layers <= layer ==> #[trigger] complete_on(nodes, layer, nodes.len())
}

proof fn lemma_linked_down_completes(
    nodes: Seq<NodeModel>,
    metric: DistanceMetric,
    rows: Seq<Seq<u32>>,
    params: HnswBuildParams,
    node: int,
    layers: nat,
    entry: usize,
    dimensions: nat,
)
    requires
        sound_links(nodes),
        uniform(nodes, dimensions),
        nodes.len() <= 0x1_0000_0000,
        nodes.len() <= usize::MAX,
        0 <= node == nodes.len() - 1,
        complete_above(nodes, node as nat, layers),
        node <= params.max_neighbors,
        layers <= nodes[node].level + 1,
        entry < node,
        layers > 0 ==> layers - 1 <= nodes[entry as int].level,
    ensures
        complete_above(
            linked_down(nodes, metric, rows, params, node, layers, entry),
            node as nat,
            0,
        ),
        linked_down(nodes, metric, rows, params, node, layers, entry).len() == nodes.len(),
    decreases layers,
{
    if layers > 0 {
        let limit = params.max_neighbors as nat;
        let layer = (layers - 1) as nat;
        let selected = selected_at(nodes, metric, rows, params, node, layer, entry);
        lemma_selected(nodes, metric, rows, params, node, layer, entry, dimensions);
        lemma_connected(nodes, metric, rows, limit, node, layer as int, selected);
        let next = connected(nodes, metric, rows, limit, node, layer as int, selected);
        let next_entry = if selected.len() > 0 {
            selected[0]
        } else {
            entry
        };
        assert(complete_on(nodes, layer as int, node as nat));
        assert forall|other: usize|
            other < node && layer <= nodes[other as int].level implies #[trigger] selected.contains(
            other,
        ) by {
            lemma_selects_all(nodes, metric, rows, params, node, layer, entry, dimensions, other);
        }
        lemma_connected_completes(nodes, metric, rows, limit, node, layer as int, selected);
        assert forall|l: int| 0 <= l implies #[trigger] complete_on(next, l, node as nat) by {
            assert(complete_on(nodes, l, node as nat));
            if l == layer {
                lemma_fewer_complete(next, l, next.len(), node as nat);
            } else {
                lemma_connected_elsewhere(
                    nodes,
                    metric,
                    rows,
                    limit,
                    node,
                    layer as int,
                    selected,
                    l,
                );
                lemma_same_complete(nodes, next, l, node as nat);
            }
        }
        assert forall|l: int| layer <= l implies #[trigger] complete_on(next, l, next.len()) by {
            if l != layer {
                assert(complete_on(nodes, l, nodes.len()));
                lemma_connected_elsewhere(
                    nodes,
                    metric,
                    rows,
                    limit,
                    node,
                    layer as int,
                    selected,
                    l,
                );
                lemma_same_complete(nodes, next, l, nodes.len());
            }
        }
        assert(uniform(next, dimensions)) by {
            assert forall|i: int| 0 <= i < next.len() implies (
            #[trigger] next[i]).record.vector.len() == dimensions by {
                assert(nodes[i].record.vector.len() == dimensions);
            }
        }
        if selected.len() > 0 {
            assert(selected[0] < nodes.len() && selected[0] != node);
        }
        assert(next[next_entry as int].level == nodes[next_entry as int].level);
        assert(next[node].level == nodes[node].level);
        lemma_linked_down_completes(
            next,
            metric,
            rows,
            params,
            node,
            layer,
            next_entry,
            dimensions,
        );
    }
}

/// The nodes among the first `count` that reach a layer.
pub open spec fn old_reaching(nodes: Seq<NodeModel>, layer: nat, count: nat) -> spec_fn(
    usize,
) -> bool {
    |node: usize| node < count && layer <= nodes[node as int].level
}

/// A descent in a graph with a new node that nothing leads to ends at an old one.
proof fn lemma_entry_is_old(
    nodes: Seq<NodeModel>,
    metric: DistanceMetric,
    values: Seq<Result<u32, nat>>,
    from: nat,
    to: nat,
    entry: int,
    old_count: nat,
)
    requires
        sound_links(nodes),
        nodes.len() == values.len() <= usize::MAX,
        all_valued(values),
        0 <= entry < old_count <= nodes.len(),
        from <= nodes[entry].level,
        forall|layer: nat| #[trigger]
            closed_under_links(nodes, layer, old_reaching(nodes, layer, old_count)),
    ensures
        entry_above(nodes, metric, values, from, to, entry) matches Ok(end) && 0 <= end
            < old_count && (if from < to {
            from
        } else {
            to
        }) <= nodes[end].level,
    decreases from,
{
    if from > to {
        lemma_sound_links_in_range(nodes);
        let allowed = old_reaching(nodes, from, old_count);
        assert(closed_under_links(nodes, from, allowed));
        lemma_descent_succeeds(nodes, metric, values, from, entry, allowed);
        let next = descended(nodes, metric, values, from, entry)->Ok_0;
        lemma_entry_is_old(nodes, metric, values, (from - 1) as nat, to, next, old_count);
    }
}

/// Inserting a record into a graph that is complete on every layer, and has room for it, keeps it
/// complete.
proof fn lemma_inserted_complete(
    sidecar: SidecarModel,
    record: RecordModel,
    level: u8,
    rows: Seq<Seq<u32>>,
)
    requires
        sound_graph(sidecar),
        levels_capped(sidecar),
        uniform(sidecar.nodes, sidecar.dimensions as nat),
        record.vector.len() == sidecar.dimensions,
        sidecar.nodes.len() < 0x1_0000_0000,
        sidecar.nodes.len() < usize::MAX,
        forall|layer: int| 0 <= layer ==> #[trigger] complete_on(
            sidecar.nodes,
            layer,
            sidecar.nodes.len(),
        ),
        sidecar.nodes.len() <= sidecar.params.max_neighbors,
    ensures
        forall|layer: int| 0 <= layer ==> #[trigger] complete_on(
            inserted(sidecar, record, level, rows).nodes,
            layer,
            sidecar.nodes.len() + 1,
        ),
{
    let node = sidecar.nodes.len() as int;
    let grown = sidecar.nodes.push(lone_node(record, level));
    lemma_grown_sound(sidecar.nodes, record, level);
    assert(uniform(grown, sidecar.dimensions as nat));
    match sidecar.entry_point {
        None => {},
        Some(entry) => {
            let layers = if sidecar.max_level < level {
                sidecar.max_level + 1
            } else {
                level + 1
            };
            assert forall|layer: int| 0 <= layer implies #[trigger] complete_on(
                grown,
                layer,
                node as nat,
            ) by {
                assert(complete_on(sidecar.nodes, layer, sidecar.nodes.len()));
                assert forall|a: int, b: int|
                    0 <= a < node && 0 <= b < node && a != b && layer <= grown[a].level && layer
                        <= grown[b].level implies #[trigger] link_on(grown, layer, a, b) by {
                    assert(grown[a] == sidecar.nodes[a]);
                    assert(grown[b] == sidecar.nodes[b]);
                    assert(link_on(sidecar.nodes, layer, a, b));
                }
            }
            assert forall|layer: int| layers <= layer implies #[trigger] complete_on(
                grown,
                layer,
                grown.len(),
            ) by {
                assert(complete_on(grown, layer, node as nat));
                assert forall|a: int, b: int|
                    0 <= a < grown.len() && 0 <= b < grown.len() && a != b && layer
                        <= grown[a].level && layer <= grown[b].level implies #[trigger] link_on(
                    grown,
                    layer,
                    a,
                    b,
                ) by {
                    if a == node || b == node {
                        let old_one = if a == node {
                            b
                        } else {
                            a
                        };
                        assert(grown[old_one] == sidecar.nodes[old_one]);
                        assert(sidecar.nodes[old_one].level <= sidecar.max_level);
                        assert(grown[node].level == level);
                    }
                }
            }
            let values = node_values(grown, record.vector.len(), rows[node]);
            assert(all_valued(values)) by {
                assert forall|i: int| 0 <= i < values.len() implies (
                #[trigger] values[i]) is Ok by {
                    assert(grown[i].record.vector.len() == sidecar.dimensions);
                }
            }
            lemma_old_links_stay(sidecar.nodes, record, level);
            assert(grown[entry as int] == sidecar.nodes[entry as int]);
            lemma_entry_is_old(
                grown,
                sidecar.metric,
                values,
                sidecar.max_level as nat,
                level as nat,
                entry as int,
                node as nat,
            );
            let start = entry_above(
                grown,
                sidecar.metric,
                values,
                sidecar.max_level as nat,
                level as nat,
                entry as int,
            )->Ok_0;
            lemma_linked_down_completes(
                grown,
                sidecar.metric,
                rows,
                sidecar.params,
                node,
                layers as nat,
                start as usize,
                sidecar.dimensions as nat,
            );
            let after = inserted(sidecar, record, level, rows).nodes;
            assert forall|layer: int| 0 <= layer implies #[trigger] complete_on(
                after,
                layer,
                sidecar.nodes.len() + 1,
            ) by {
                assert(after.len() == sidecar.nodes.len() + 1);
                let whole = complete_on(after, layer, after.len());
            }
        },
    }
}

/// The links of the old nodes lead to old nodes that reach the layer.
pub proof fn lemma_old_links_stay(nodes: Seq<NodeModel>, record: RecordModel, level: u8)
    requires
        sound_links(nodes),
    ensures
        forall|layer: nat| #[trigger]
            closed_under_links(
                nodes.push(lone_node(record, level)),
                layer,
                old_reaching(nodes.push(lone_node(record, level)), layer, nodes.len()),
            ),
{
    let grown = nodes.push(lone_node(record, level));
    assert forall|layer: nat| #[trigger]
        closed_under_links(grown, layer, old_reaching(grown, layer, nodes.len())) by {
        let allowed = old_reaching(grown, layer, nodes.len());
        assert forall|index: usize, k: int|
            #![trigger neighbors_at(grown, index as int, layer)[k]]
            index < grown.len() && allowed(index) && 0 <= k < neighbors_at(
                grown,
                index as int,
                layer,
            ).len() implies allowed(neighbors_at(grown, index as int, layer)[k] as usize) by {
            assert(grown[index as int] == nodes[index as int]);
            assert(nodes[index as int].neighbors[layer as int][k] < nodes.len());
            let target = neighbors_at(grown, index as int, layer)[k] as int;
            assert(grown[target] == nodes[target]);
        }
    }
}

/// A sidecar filled with no more entries than a node can have neighbors, and one, links on every
/// layer each of them that reaches it to every other one that does.
pub proof fn lemma_filled_complete(
    empty: SidecarModel,
    entries: Seq<RecordModel>,
    hashes: Seq<u64>,
    rows: Seq<Seq<u32>>,
    count: nat,
)
    requires
        empty.nodes.len() == 0,
        empty.entry_point is None,
        forall|i: int|
            0 <= i < count ==> (#[trigger] entries[i]).vector.len() == empty.dimensions,
        count <= entries.len(),
        count <= 0x1_0000_0000,
        count <= usize::MAX,
        count <= empty.params.max_neighbors + 1,
    ensures
        complete(filled(empty, entries, hashes, rows, count).nodes, count),
        forall|layer: int| 0 <= layer ==> #[trigger] complete_on(
            filled(empty, entries, hashes, rows, count).nodes,
            layer,
            count,
        ),
    decreases count,
{
    if count > 0 {
        lemma_filled_complete(empty, entries, hashes, rows, (count - 1) as nat);
        lemma_filled(empty, entries, hashes, rows, (count - 1) as nat);
        assert(entries[count - 1].vector.len() == empty.dimensions);
        lemma_inserted_complete(
            filled(empty, entries, hashes, rows, (count - 1) as nat),
            entries[count - 1],
            level_of_hash(hashes[count - 1]),
            rows,
        );
    }
    let nodes = filled(empty, entries, hashes, rows, count).nodes;
    assert forall|a: int, b: int|
        0 <= a < count && 0 <= b < count && a != b implies #[trigger] base_link(nodes, a, b) by {
        assert(complete_on(nodes, 0, count));
        assert(link_on(nodes, 0, a, b));
    }
}

/// Whatever the hashes are, a sidecar built from no more entries than a node can have neighbors,
/// and one, links on every layer each node that reaches it to every other one that does.
pub proof fn law_small_indexes_are_fully_linked(
    segment_id: Seq<char>,
    metric: DistanceMetric,
    params: HnswBuildParams,
    entries: Seq<RecordModel>,
    hashes: Seq<u64>,
    rows: Seq<Seq<u32>>,
)
    requires
        entries.len() <= params.max_neighbors + 1,
        entries.len() <= 0x1_0000_0000,
        entries.len() <= usize::MAX,
        first_dimensions(entries) <= usize::MAX,
    ensures
        hnsw_build(segment_id, metric, params, entries, hashes, rows) matches Ok(sidecar) ==> forall|
            from: int,
            to: int,
            layer: int,
        |
            #![trigger sidecar.nodes[from].neighbors[layer], sidecar.nodes[to]]
            0 <= from < entries.len() && 0 <= to < entries.len() && from != to && 0 <= layer
                && layer <= sidecar.nodes[from].level && layer <= sidecar.nodes[to].level
                ==> sidecar.nodes[from].neighbors[layer].contains(to as u32),
{
    let dimensions = first_dimensions(entries);
    if dimension_fault(entries, dimensions, entries.len()) is None {
        let empty = empty_sidecar(segment_id, metric, params, dimensions);
        lemma_no_dimension_fault(entries, dimensions, entries.len());
        lemma_filled_complete(empty, entries, hashes, rows, entries.len());
        let nodes = filled(empty, entries, hashes, rows, entries.len()).nodes;
        assert forall|from: int, to: int, layer: int|
            #![trigger nodes[from].neighbors[layer], nodes[to]]
            0 <= from < entries.len() && 0 <= to < entries.len() && from != to && 0 <= layer
                && layer <= nodes[from].level && layer <= nodes[to].level implies nodes[from].neighbors[layer].contains(
            to as u32,
        ) by {
            assert(complete_on(nodes, layer, entries.len()));
            assert(link_on(nodes, layer, from, to));
        }
    }
}

} // verus!
