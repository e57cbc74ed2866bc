//! Construction of an HNSW graph.

use crate::index::graph::{
    nodes_model, HnswBuildParams, HnswIndexSidecar, HnswNode, HnswStoredRecord, NodeModel,
    RecordModel, SidecarModel,
};
use crate::index::layer::{
    descended, greedy_descent, layer_search, node_values, search_layer, LayerGoal,
};
use crate::index::layer_facts::{closed_under_links, law_layer_search};
use crate::index::score::{
    law_sort_keeps_nodes, lemma_sort_members, sort_scored_best_first, sorted_best_first,
    ScoredNode,
};
use crate::index::search::larger;
use crate::index::search_facts::{all_valued, lemma_descent_succeeds, lemma_layer_search_succeeds};
use crate::index::validity::{lemma_sound_links_in_range, sound_graph, sound_links};
use crate::types::DistanceMetric;
use vstd::prelude::*;
use vstd::string::*;

verus! {

/// The graph with `target` appended to the neighbors of `node` on `layer`.
pub open spec fn with_link(nodes: Seq<NodeModel>, node: int, layer: int, target: u32) -> Seq<
    NodeModel,
> {
    with_list(nodes, node, layer, nodes[node].neighbors[layer].push(target))
}

/// The graph with the neighbors of `node` on `layer` replaced by `list`.
pub open spec fn with_list(nodes: Seq<NodeModel>, node: int, layer: int, list: Seq<u32>) -> Seq<
    NodeModel,
> {
    nodes.update(
        node,
        NodeModel { neighbors: nodes[node].neighbors.update(layer, list), ..nodes[node] },
    )
}

fn push_link(nodes: &mut Vec<HnswNode>, node: usize, layer: usize, target: u32)
    requires
        node < old(nodes)@.len(),
        layer < old(nodes)@[node as int].neighbors_by_level@.len(),
    ensures
        nodes_model(final(nodes)@) == with_link(
            nodes_model(old(nodes)@),
            node as int,
            layer as int,
            target,
        ),
{
    nodes[node].neighbors_by_level[layer].push(target);
    assert(nodes_model(nodes@) =~~= with_link(
        nodes_model(old(nodes)@),
        node as int,
        layer as int,
        target,
    ));
}

fn set_list(nodes: &mut Vec<HnswNode>, node: usize, layer: usize, list: Vec<u32>)
    requires
        node < old(nodes)@.len(),
        layer < old(nodes)@[node as int].neighbors_by_level@.len(),
    ensures
        nodes_model(final(nodes)@) == with_list(
            nodes_model(old(nodes)@),
            node as int,
            layer as int,
            list@,
        ),
{
    nodes[node].neighbors_by_level[layer] = list;
    assert(nodes_model(nodes@) =~~= with_list(
        nodes_model(old(nodes)@),
        node as int,
        layer as int,
        list@,
    ));
}

/// `sorted` with `value` placed in ascending order, unless it is there already.
pub open spec fn placed_ascending(sorted: Seq<u32>, value: u32) -> Seq<u32>
    decreases sorted.len(),
{
    if sorted.len() == 0 || sorted.last() < value {
        sorted.push(value)
    } else if sorted.last() == value {
        sorted
    } else {
        placed_ascending(sorted.drop_last(), value).push(sorted.last())
    }
}

/// The neighbors other than `node`, ascending and each of them once.
pub open spec fn ascending_unique(neighbors: Seq<u32>, node: int) -> Seq<u32>
    decreases neighbors.len(),
{
    if neighbors.len() == 0 {
        Seq::empty()
    } else {
        let before = ascending_unique(neighbors.drop_last(), node);
        if neighbors.last() == node {
            before
        } else {
            placed_ascending(before, neighbors.last())
        }
    }
}

/// Neighbors together with their metric values in `row`.
pub open spec fn scored_neighbors(neighbors: Seq<u32>, row: Seq<u32>) -> Seq<ScoredNode> {
    Seq::new(
        neighbors.len(),
        |i: int| ScoredNode { index: neighbors[i] as usize, value: row[neighbors[i] as int] },
    )
}

/// The best `limit` of some nodes, best first.
pub open spec fn nearest(metric: DistanceMetric, scored: Seq<ScoredNode>, limit: nat) -> Seq<
    ScoredNode,
> {
    let sorted = sorted_best_first(metric, scored);
    if sorted.len() <= limit {
        sorted
    } else {
        sorted.take(limit as int)
    }
}

/// The nodes that scored nodes stand for.
pub open spec fn indices_of(scored: Seq<ScoredNode>) -> Seq<usize> {
    Seq::new(scored.len(), |i: int| scored[i].index)
}

/// The `limit` best neighbors of `node`, each of them once, where `row` holds
/// the metric value of every node for the vector of `node`.
pub open spec fn trimmed(
    metric: DistanceMetric,
    neighbors: Seq<u32>,
    row: Seq<u32>,
    node: int,
    limit: nat,
) -> Seq<u32> {
    let best = nearest(metric, scored_neighbors(ascending_unique(neighbors, node), row), limit);
    Seq::new(best.len(), |i: int| best[i].index as u32)
}

proof fn lemma_placed_ascending_by_position(sorted: Seq<u32>, value: u32, position: int)
    requires
        0 <= position <= sorted.len(),
        forall|i: int| position <= i < sorted.len() ==> #[trigger] sorted[i] > value,
        position > 0 ==> sorted[position - 1] <= value,
    ensures
        placed_ascending(sorted, value) == (if position > 0 && sorted[position - 1] == value {
            sorted
        } else {
            sorted.insert(position, value)
        }),
    decreases sorted.len(),
{
    if position == sorted.len() {
        assert(sorted.insert(position, value) =~= sorted.push(value));
    } else {
        let shorter = sorted.drop_last();
        assert(sorted[sorted.len() - 1] > value);
        assert forall|i: int| position <= i < shorter.len() implies #[trigger] shorter[i]
            > value by {
            assert(shorter[i] == sorted[i]);
        }
        lemma_placed_ascending_by_position(shorter, value, position);
        assert(sorted.insert(position, value) =~= shorter.insert(position, value).push(
            sorted.last(),
        ));
        assert(shorter.push(sorted.last()) =~= sorted);
    }
}

fn place_ascending(sorted: &mut Vec<u32>, value: u32)
    ensures
        final(sorted)@ == placed_ascending(old(sorted)@, value),
{
    let mut position: usize = sorted.len();
    while position > 0 && sorted[position - 1] > value
        invariant
            position <= sorted@.len(),
            sorted@ == old(sorted)@,
            forall|i: int| position <= i < sorted@.len() ==> #[trigger] sorted@[i] > value,
        decreases position,
    {
        position = position - 1;
    }
    proof {
        lemma_placed_ascending_by_position(sorted@, value, position as int);
    }
    if position > 0 && sorted[position - 1] == value {
        return;
    }
    sorted.insert(position, value);
}

/// The best `limit` nodes, best first.
pub fn select_best_neighbors(
    metric: DistanceMetric,
    candidates: &Vec<ScoredNode>,
    limit: usize,
) -> (selected: Vec<usize>)
    ensures
        selected@ == indices_of(nearest(metric, candidates@, limit as nat)),
{
    let sorted = sort_scored_best_first(metric, candidates);
    let mut selected: Vec<usize> = Vec::new();
    let mut index: usize = 0;
    while index < sorted.len() && index < limit
        invariant
            index <= sorted@.len(),
            index <= limit,
            selected@.len() == index,
            forall|i: int| 0 <= i < index ==> #[trigger] selected@[i] == sorted@[i].index,
        decreases sorted@.len() - index,
    {
        selected.push(sorted[index].index);
        index = index + 1;
    }
    assert(selected@ =~= indices_of(nearest(metric, candidates@, limit as nat)));
    selected
}

proof fn lemma_placed_ascending_members(sorted: Seq<u32>, value: u32)
    ensures
        forall|x: u32| #[trigger]
            placed_ascending(sorted, value).contains(x) <==> sorted.contains(x) || x == value,
    decreases sorted.len(),
{
    let placed = placed_ascending(sorted, value);
    if sorted.len() == 0 || sorted.last() < value {
        assert forall|x: u32| #[trigger] placed.contains(x) <==> sorted.contains(x) || x
            == value by {
            if sorted.contains(x) {
                let i = choose|i: int| 0 <= i < sorted.len() && sorted[i] == x;
                assert(placed[i] == x);
            }
            assert(placed[placed.len() - 1] == value);
            if placed.contains(x) {
                let i = choose|i: int| 0 <= i < placed.len() && placed[i] == x;
                if i < sorted.len() {
                    assert(sorted[i] == x);
                }
            }
        }
    } else if sorted.last() == value {
        assert(sorted.contains(sorted.last()));
    } else {
        let shorter = sorted.drop_last();
        let inner = placed_ascending(shorter, value);
        lemma_placed_ascending_members(shorter, value);
        assert forall|x: u32| #[trigger] placed.contains(x) <==> sorted.contains(x) || x
            == value by {
            if placed.contains(x) {
                let i = choose|i: int| 0 <= i < placed.len() && placed[i] == x;
                if i < inner.len() {
                    assert(inner[i] == x);
                    assert(inner.contains(x));
                    if shorter.contains(x) {
                        let j = choose|j: int| 0 <= j < shorter.len() && shorter[j] == x;
                        assert(sorted[j] == x);
                    }
                } else {
                    assert(sorted[sorted.len() - 1] == x);
                }
            }
            if sorted.contains(x) {
                let i = choose|i: int| 0 <= i < sorted.len() && sorted[i] == x;
                if i < shorter.len() {
                    assert(shorter[i] == x);
                    assert(shorter.contains(x));
                    assert(inner.contains(x));
                    let j = choose|j: int| 0 <= j < inner.len() && inner[j] == x;
                    assert(placed[j] == x);
                } else {
                    assert(placed[placed.len() - 1] == x);
                }
            }
            if x == value {
                assert(inner.contains(x));
                let j = choose|j: int| 0 <= j < inner.len() && inner[j] == x;
                assert(placed[j] == x);
            }
        }
    }
}

/// Whether a sequence ascends strictly.
pub open spec fn ascends(values: Seq<u32>) -> bool {
    forall|i: int, j: int|
        0 <= i < j < values.len() ==> #[trigger] values[i] < #[trigger] values[j]
}

proof fn lemma_placed_ascends(sorted: Seq<u32>, value: u32)
    requires
        ascends(sorted),
    ensures
        ascends(placed_ascending(sorted, value)),
    decreases sorted.len(),
{
    if sorted.len() > 0 && sorted.last() > value {
        let shorter = sorted.drop_last();
        lemma_placed_ascends(shorter, value);
        lemma_placed_ascending_members(shorter, value);
        let inner = placed_ascending(shorter, value);
        let placed = inner.push(sorted.last());
        assert forall|i: int, j: int| 0 <= i < j < placed.len() implies #[trigger] placed[i]
            < #[trigger] placed[j] by {
            assert(placed[i] == inner[i]);
            if j == inner.len() {
                assert(inner.contains(inner[i]));
                if shorter.contains(inner[i]) {
                    let k = choose|k: int| 0 <= k < shorter.len() && shorter[k] == inner[i];
                    assert(sorted[k] < sorted[sorted.len() - 1]);
                }
            }
        }
    }
}

/// The neighbors other than the node itself are all there, ascending, each once.
pub proof fn lemma_ascending_unique(neighbors: Seq<u32>, node: int)
    ensures
        ascends(ascending_unique(neighbors, node)),
        forall|x: u32| #[trigger]
            ascending_unique(neighbors, node).contains(x) <==> neighbors.contains(x) && x != node,
    decreases neighbors.len(),
{
    if neighbors.len() > 0 {
        let shorter = neighbors.drop_last();
        let before = ascending_unique(shorter, node);
        let unique = ascending_unique(neighbors, node);
        lemma_ascending_unique(shorter, node);
        lemma_placed_ascends(before, neighbors.last());
        lemma_placed_ascending_members(before, neighbors.last());
        assert forall|x: u32| #[trigger] unique.contains(x) <==> neighbors.contains(x) && x
            != node by {
            assert(shorter.contains(x) ==> neighbors.contains(x)) by {
                if shorter.contains(x) {
                    let i = choose|i: int| 0 <= i < shorter.len() && shorter[i] == x;
                    assert(neighbors[i] == x);
                }
            }
            assert(neighbors.contains(x) ==> shorter.contains(x) || x == neighbors.last()) by {
                if neighbors.contains(x) {
                    let i = choose|i: int| 0 <= i < neighbors.len() && neighbors[i] == x;
                    if i < shorter.len() {
                        assert(shorter[i] == x);
                    }
                }
            }
            assert(neighbors.contains(neighbors.last()));
            assert(before.contains(x) <==> shorter.contains(x) && x != node);
        }
    }
}

/// The best neighbors are distinct neighbors other than the node, and no more
/// than `limit`.
pub proof fn lemma_trimmed(
    metric: DistanceMetric,
    neighbors: Seq<u32>,
    row: Seq<u32>,
    node: int,
    limit: nat,
)
    ensures
        ({
            let kept = trimmed(metric, neighbors, row, node, limit);
            &&& kept.len() <= limit
            &&& kept.no_duplicates()
            &&& forall|i: int|
                0 <= i < kept.len() ==> neighbors.contains(#[trigger] kept[i]) && kept[i] != node
        }),
{
    let unique = ascending_unique(neighbors, node);
    let scored = scored_neighbors(unique, row);
    let sorted = sorted_best_first(metric, scored);
    let kept = trimmed(metric, neighbors, row, node, limit);
    lemma_ascending_unique(neighbors, node);
    law_sort_keeps_nodes(metric, scored);
    lemma_sort_members(metric, scored);
    assert(scored.no_duplicates()) by {
        assert forall|i: int, j: int|
            0 <= i < scored.len() && 0 <= j < scored.len() && i != j implies scored[i]
            != scored[j] by {
            if i < j {
                assert(unique[i] < unique[j]);
            } else {
                assert(unique[j] < unique[i]);
            }
        }
    }
    assert forall|i: int| 0 <= i < sorted.len() implies exists|j: int|
        0 <= j < unique.len() && #[trigger] scored[j] == #[trigger] sorted[i] by {
        assert(sorted.contains(sorted[i]));
        assert(scored.contains(sorted[i]));
        let j = choose|j: int| 0 <= j < scored.len() && scored[j] == sorted[i];
        assert(scored[j] == sorted[i]);
    }
    assert forall|i: int| 0 <= i < kept.len() implies neighbors.contains(#[trigger] kept[i])
        && kept[i] != node by {
        let j = choose|j: int| 0 <= j < unique.len() && scored[j] == sorted[i];
        assert(unique.contains(unique[j]));
        assert(kept[i] == unique[j]);
    }
    assert forall|a: int, b: int|
        0 <= a < kept.len() && 0 <= b < kept.len() && a != b implies kept[a] != kept[b] by {
        let i = choose|j: int| 0 <= j < unique.len() && scored[j] == sorted[a];
        let j = choose|j: int| 0 <= j < unique.len() && scored[j] == sorted[b];
        assert(sorted[a] != sorted[b]);
        assert(kept[a] == unique[i] && kept[b] == unique[j]);
        assert(i != j);
        if i < j {
            assert(unique[i] < unique[j]);
        } else {
            assert(unique[j] < unique[i]);
        }
    }
}

/// Keep the best neighbors of a node, each of them once.
pub fn trimmed_neighbors(
    metric: DistanceMetric,
    neighbors: &Vec<u32>,
    row: &Vec<u32>,
    node_index: usize,
    limit: usize,
) -> (kept: Vec<u32>)
    requires
        forall|k: int| 0 <= k < neighbors@.len() ==> #[trigger] neighbors@[k] < row@.len(),
    ensures
        kept@ == trimmed(metric, neighbors@, row@, node_index as int, limit as nat),
{
    let mut unique: Vec<u32> = Vec::new();
    let mut index: usize = 0;
    while index < neighbors.len()
        invariant
            index <= neighbors@.len(),
            unique@ == ascending_unique(neighbors@.take(index as int), node_index as int),
        decreases neighbors@.len() - index,
    {
        let neighbor: u32 = neighbors[index];
        proof {
            let longer = neighbors@.take(index + 1);
            assert(longer.drop_last() =~= neighbors@.take(index as int));
            assert(longer.last() == neighbor);
        }
        if neighbor as usize != node_index {
            place_ascending(&mut unique, neighbor);
        }
        index = index + 1;
    }
    assert(neighbors@.take(index as int) =~= neighbors@);
    proof {
        lemma_ascending_unique(neighbors@, node_index as int);
    }
    let mut scored: Vec<ScoredNode> = Vec::new();
    let mut position: usize = 0;
    while position < unique.len()
        invariant
            forall|k: int| 0 <= k < neighbors@.len() ==> #[trigger] neighbors@[k] < row@.len(),
            unique@ == ascending_unique(neighbors@, node_index as int),
            forall|x: u32| #[trigger]
                unique@.contains(x) <==> neighbors@.contains(x) && x != node_index,
            position <= unique@.len(),
            scored@ =~= scored_neighbors(unique@, row@).take(position as int),
        decreases unique@.len() - position,
    {
        let neighbor: u32 = unique[position];
        assert(unique@.contains(neighbor));
        scored.push(ScoredNode { index: neighbor as usize, value: row[neighbor as usize] });
        position = position + 1;
    }
    assert(scored@ =~= scored_neighbors(unique@, row@));
    let best = select_best_neighbors(metric, &scored, limit);
    let mut kept: Vec<u32> = Vec::new();
    let mut at: usize = 0;
    while at < best.len()
        invariant
            at <= best@.len(),
            best@ == indices_of(nearest(metric, scored@, limit as nat)),
            kept@.len() == at,
            forall|i: int| 0 <= i < at ==> #[trigger] kept@[i] == best@[i] as u32,
        decreases best@.len() - at,
    {
        kept.push(best[at] as u32);
        at = at + 1;
    }
    assert(kept@ =~= trimmed(metric, neighbors@, row@, node_index as int, limit as nat));
    kept
}

/// The graph once `node` has been linked with the first `count` of `selected`
/// on `layer`, in both directions.
pub open spec fn linked(
    nodes: Seq<NodeModel>,
    metric: DistanceMetric,
    rows: Seq<Seq<u32>>,
    limit: nat,
    node: int,
    layer: int,
    selected: Seq<usize>,
    count: nat,
) -> Seq<NodeModel>
    decreases count,
{
    if count == 0 {
        nodes
    } else {
        let before = linked(
            nodes,
            metric,
            rows,
            limit,
            node,
            layer,
            selected,
            (count - 1) as nat,
        );
        let neighbor = selected[count - 1] as int;
        let forth = with_link(before, node, layer, neighbor as u32);
        if forth[neighbor].neighbors.len() <= layer {
            forth
        } else {
            let both = with_link(forth, neighbor, layer, node as u32);
            with_list(
                both,
                neighbor,
                layer,
                trimmed(
                    metric,
                    both[neighbor].neighbors[layer],
                    rows[neighbor],
                    neighbor,
                    limit,
                ),
            )
        }
    }
}

/// The graph once `node` has been linked with `selected` on `layer` and has
/// kept its own best neighbors.
pub open spec fn connected(
    nodes: Seq<NodeModel>,
    metric: DistanceMetric,
    rows: Seq<Seq<u32>>,
    limit: nat,
    node: int,
    layer: int,
    selected: Seq<usize>,
) -> Seq<NodeModel> {
    let all = linked(nodes, metric, rows, limit, node, layer, selected, selected.len());
    with_list(
        all,
        node,
        layer,
        trimmed(metric, all[node].neighbors[layer], rows[node], node, limit),
    )
}

/// Model of a table of metric values.
pub open spec fn rows_model(rows: Seq<Vec<u32>>) -> Seq<Seq<u32>> {
    Seq::new(rows.len(), |i: int| rows[i]@)
}

/// Whether a table holds a metric value for every two of `count` nodes.
pub open spec fn covers(rows: Seq<Seq<u32>>, count: nat) -> bool {
    &&& rows.len() >= count
    &&& forall|i: int| 0 <= i < count ==> (#[trigger] rows[i]).len() >= count
}

/// Whether nodes may become neighbors of `node` on `layer`.
pub open spec fn linkable(
    nodes: Seq<NodeModel>,
    node: int,
    layer: int,
    selected: Seq<usize>,
) -> bool {
    forall|i: int|
        0 <= i < selected.len() ==> {
            &&& #[trigger] selected[i] < nodes.len()
            &&& selected[i] != node
            &&& layer <= nodes[selected[i] as int].level
        }
}

/// Whether two graphs hold the same records on the same levels.
pub open spec fn same_records(before: Seq<NodeModel>, after: Seq<NodeModel>) -> bool {
    &&& before.len() == after.len()
    &&& forall|i: int|
        0 <= i < before.len() ==> (#[trigger] after[i]).record == before[i].record
            && after[i].level == before[i].level && after[i].neighbors.len()
            == before[i].neighbors.len()
}

/// Replacing one list by references that may stand there keeps a graph sound.
pub proof fn lemma_with_list_sound(
    nodes: Seq<NodeModel>,
    node: int,
    layer: int,
    list: Seq<u32>,
)
    requires
        sound_links(nodes),
        0 <= node < nodes.len(),
        0 <= layer < nodes[node].neighbors.len(),
        forall|k: int|
            0 <= k < list.len() ==> #[trigger] list[k] < nodes.len() && layer
                <= nodes[list[k] as int].level,
    ensures
        sound_links(with_list(nodes, node, layer, list)),
        same_records(nodes, with_list(nodes, node, layer, list)),
{
    let after = with_list(nodes, node, layer, list);
    assert forall|a: int, l: int, k: int|
        #![trigger after[a].neighbors[l][k]]
        0 <= a < after.len() && 0 <= l < after[a].neighbors.len() && 0 <= k
            < after[a].neighbors[l].len() implies {
        &&& after[a].neighbors[l][k] < after.len()
        &&& l <= after[after[a].neighbors[l][k] as int].level
    } by {
        if a == node && l == layer {
            assert(after[a].neighbors[l] == list);
            assert(list[k] < nodes.len());
        } else {
            assert(after[a].neighbors[l] == nodes[a].neighbors[l]);
            assert(nodes[a].neighbors[l][k] < nodes.len());
        }
    }
}

pub proof fn lemma_linked(
    nodes: Seq<NodeModel>,
    metric: DistanceMetric,
    rows: Seq<Seq<u32>>,
    limit: nat,
    node: int,
    layer: int,
    selected: Seq<usize>,
    count: nat,
)
    requires
        sound_links(nodes),
        nodes.len() <= 0x1_0000_0000,
        0 <= node < nodes.len(),
        0 <= layer <= nodes[node].level,
        linkable(nodes, node, layer, selected),
        count <= selected.len(),
    ensures
        sound_links(linked(nodes, metric, rows, limit, node, layer, selected, count)),
        same_records(nodes, linked(nodes, metric, rows, limit, node, layer, selected, count)),
    decreases count,
{
    if count > 0 {
        lemma_linked(nodes, metric, rows, limit, node, layer, selected, (count - 1) as nat);
        let before = linked(
            nodes,
            metric,
            rows,
            limit,
            node,
            layer,
            selected,
            (count - 1) as nat,
        );
        assert(selected[count - 1] < nodes.len());
        let neighbor = selected[count - 1] as int;
        lemma_one_link(before, metric, rows, limit, node, layer, neighbor);
    }
}

/// One link in both directions keeps a graph sound.
pub proof fn lemma_one_link(
    before: Seq<NodeModel>,
    metric: DistanceMetric,
    rows: Seq<Seq<u32>>,
    limit: nat,
    node: int,
    layer: int,
    neighbor: int,
)
    requires
        sound_links(before),
        before.len() <= 0x1_0000_0000,
        0 <= node < before.len(),
        0 <= neighbor < before.len(),
        node != neighbor,
        0 <= layer <= before[node].level,
        layer <= before[neighbor].level,
    ensures
        ({
            let forth = with_link(before, node, layer, neighbor as u32);
            let both = with_link(forth, neighbor, layer, node as u32);
            let list = both[neighbor].neighbors[layer];
            let after = with_list(
                both,
                neighbor,
                layer,
                trimmed(metric, list, rows[neighbor], neighbor, limit),
            );
            &&& sound_links(forth)
            &&& sound_links(both)
            &&& sound_links(after)
            &&& same_records(before, after)
            &&& forth[neighbor].neighbors.len() > layer
            &&& forall|k: int| 0 <= k < list.len() ==> #[trigger] list[k] < before.len()
        }),
{
    let old_list = before[node].neighbors[layer];
    let forth_list = old_list.push(neighbor as u32);
    assert forall|k: int| 0 <= k < forth_list.len() implies #[trigger] forth_list[k] < before.len()
        && layer <= before[forth_list[k] as int].level by {
        if k < old_list.len() {
            assert(before[node].neighbors[layer][k] == forth_list[k]);
        }
    }
    lemma_with_list_sound(before, node, layer, forth_list);
    let forth = with_link(before, node, layer, neighbor as u32);
    let back = forth[neighbor].neighbors[layer];
    let back_list = back.push(node as u32);
    assert forall|k: int| 0 <= k < back_list.len() implies #[trigger] back_list[k] < forth.len()
        && layer <= forth[back_list[k] as int].level by {
        if k < back.len() {
            assert(forth[neighbor].neighbors[layer][k] == back_list[k]);
        }
    }
    lemma_with_list_sound(forth, neighbor, layer, back_list);
    let both = with_link(forth, neighbor, layer, node as u32);
    let list = both[neighbor].neighbors[layer];
    assert(list == back_list);
    let kept = trimmed(metric, list, rows[neighbor], neighbor, limit);
    lemma_trimmed(metric, list, rows[neighbor], neighbor, limit);
    assert forall|k: int| 0 <= k < kept.len() implies #[trigger] kept[k] < both.len() && layer
        <= both[kept[k] as int].level by {
        assert(list.contains(kept[k]));
        let j = choose|j: int| 0 <= j < list.len() && list[j] == kept[k];
        assert(back_list[j] == kept[k]);
    }
    lemma_with_list_sound(both, neighbor, layer, kept);
}

/// Linking a node on a layer keeps a graph sound, and keeps every record.
pub proof fn lemma_connected(
    nodes: Seq<NodeModel>,
    metric: DistanceMetric,
    rows: Seq<Seq<u32>>,
    limit: nat,
    node: int,
    layer: int,
    selected: Seq<usize>,
)
    requires
        sound_links(nodes),
        nodes.len() <= 0x1_0000_0000,
        0 <= node < nodes.len(),
        0 <= layer <= nodes[node].level,
        linkable(nodes, node, layer, selected),
    ensures
        sound_links(connected(nodes, metric, rows, limit, node, layer, selected)),
        same_records(nodes, connected(nodes, metric, rows, limit, node, layer, selected)),
{
    lemma_linked(nodes, metric, rows, limit, node, layer, selected, selected.len());
    let all = linked(nodes, metric, rows, limit, node, layer, selected, selected.len());
    let list = all[node].neighbors[layer];
    let kept = trimmed(metric, list, rows[node], node, limit);
    lemma_trimmed(metric, list, rows[node], node, limit);
    assert forall|k: int| 0 <= k < kept.len() implies #[trigger] kept[k] < all.len() && layer
        <= all[kept[k] as int].level by {
        assert(list.contains(kept[k]));
        let j = choose|j: int| 0 <= j < list.len() && list[j] == kept[k];
        assert(all[node].neighbors[layer][j] == kept[k]);
    }
    lemma_with_list_sound(all, node, layer, kept);
}

/// Link a node with its selected neighbors on one layer.
fn connect_node(
    nodes: &mut Vec<HnswNode>,
    metric: DistanceMetric,
    rows: &Vec<Vec<u32>>,
    limit: usize,
    node_index: usize,
    layer: usize,
    selected: &Vec<usize>,
)
    requires
        sound_links(nodes_model(old(nodes)@)),
        old(nodes)@.len() <= 0x1_0000_0000,
        node_index < old(nodes)@.len(),
        layer <= old(nodes)@[node_index as int].level,
        linkable(nodes_model(old(nodes)@), node_index as int, layer as int, selected@),
        covers(rows_model(rows@), old(nodes)@.len()),
    ensures
        nodes_model(final(nodes)@) == connected(
            nodes_model(old(nodes)@),
            metric,
            rows_model(rows@),
            limit as nat,
            node_index as int,
            layer as int,
            selected@,
        ),
{
    let ghost start = nodes_model(nodes@);
    let ghost table = rows_model(rows@);
    let mut index: usize = 0;
    while index < selected.len()
        invariant
            start == nodes_model(old(nodes)@),
            table == rows_model(rows@),
            sound_links(start),
            start.len() <= 0x1_0000_0000,
            node_index < start.len(),
            layer <= start[node_index as int].level,
            linkable(start, node_index as int, layer as int, selected@),
            covers(table, start.len()),
            index <= selected@.len(),
            nodes_model(nodes@) == linked(
                start,
                metric,
                table,
                limit as nat,
                node_index as int,
                layer as int,
                selected@,
                index as nat,
            ),
        decreases selected@.len() - index,
    {
        let neighbor: usize = selected[index];
        proof {
            let before = nodes_model(nodes@);
            lemma_linked(
                start,
                metric,
                table,
                limit as nat,
                node_index as int,
                layer as int,
                selected@,
                index as nat,
            );
            assert(before[node_index as int].level == start[node_index as int].level);
            assert(before[neighbor as int].level == start[neighbor as int].level);
            lemma_one_link(
                before,
                metric,
                table,
                limit as nat,
                node_index as int,
                layer as int,
                neighbor as int,
            );
            assert(table[neighbor as int] == rows@[neighbor as int]@);
        }
        assert(nodes_model(nodes@)[node_index as int].neighbors.len() > layer);
        push_link(nodes, node_index, layer, neighbor as u32);
        assert(nodes_model(nodes@)[neighbor as int].neighbors.len() > layer);
        push_link(nodes, neighbor, layer, node_index as u32);
        assert(nodes_model(nodes@)[neighbor as int].neighbors[layer as int]
            == nodes@[neighbor as int].neighbors_by_level@[layer as int]@);
        let kept = trimmed_neighbors(
            metric,
            &nodes[neighbor].neighbors_by_level[layer],
            &rows[neighbor],
            neighbor,
            limit,
        );
        set_list(nodes, neighbor, layer, kept);
        index = index + 1;
    }
    proof {
        lemma_linked(
            start,
            metric,
            table,
            limit as nat,
            node_index as int,
            layer as int,
            selected@,
            selected@.len(),
        );
        let all = nodes_model(nodes@);
        assert(all[node_index as int].level == start[node_index as int].level);
        assert(table[node_index as int] == rows@[node_index as int]@);
        let list = all[node_index as int].neighbors[layer as int];
        assert(list == nodes@[node_index as int].neighbors_by_level@[layer as int]@);
        assert forall|k: int| 0 <= k < list.len() implies #[trigger] list[k]
            < rows@[node_index as int]@.len() by {
            assert(all[node_index as int].neighbors[layer as int][k] < all.len());
        }
    }
    let kept = trimmed_neighbors(
        metric,
        &nodes[node_index].neighbors_by_level[layer],
        &rows[node_index],
        node_index,
        limit,
    );
    set_list(nodes, node_index, layer, kept);
}

/// Whether a node reaches a layer.
pub open spec fn reaches(nodes: Seq<NodeModel>, layer: nat) -> spec_fn(usize) -> bool {
    |node: usize| node < nodes.len() && layer <= nodes[node as int].level
}

/// The links of a layer lead only to nodes that reach it.
pub proof fn lemma_links_stay_on_layer(nodes: Seq<NodeModel>, layer: nat)
    requires
        sound_links(nodes),
    ensures
        closed_under_links(nodes, layer, reaches(nodes, layer)),
{
    let allowed = reaches(nodes, layer);
    assert forall|node: usize, k: int|
        #![trigger crate::index::graph::neighbors_at(nodes, node as int, layer)[k]]
        node < nodes.len() && allowed(node) && 0 <= k < crate::index::graph::neighbors_at(
            nodes,
            node as int,
            layer,
        ).len() implies allowed(
        crate::index::graph::neighbors_at(nodes, node as int, layer)[k] as usize,
    ) by {
        assert(nodes[node as int].neighbors[layer as int][k]
            == crate::index::graph::neighbors_at(nodes, node as int, layer)[k]);
    }
}

/// The nodes that `node` is linked with on `layer`, for a search that starts at
/// `entry`.
pub open spec fn selected_at(
    nodes: Seq<NodeModel>,
    metric: DistanceMetric,
    rows: Seq<Seq<u32>>,
    params: HnswBuildParams,
    node: int,
    layer: nat,
    entry: usize,
) -> Seq<usize> {
    let goal = LayerGoal {
        metric,
        ef: larger(params.ef_construction as nat, params.max_neighbors as nat),
        exclude: Some(node as usize),
    };
    let values = node_values(nodes, nodes[node].record.vector.len(), rows[node]);
    match layer_search(nodes, layer, goal, values, entry) {
        Ok((scored, _)) => indices_of(nearest(metric, scored, params.max_neighbors as nat)),
        Err(_) => Seq::empty(),
    }
}

/// The graph once `node` has been linked on the `layers` lowest layers, from the
/// top one of these down, each search starting at the best node of the one before.
pub open spec fn linked_down(
    nodes: Seq<NodeModel>,
    metric: DistanceMetric,
    rows: Seq<Seq<u32>>,
    params: HnswBuildParams,
    node: int,
    layers: nat,
    entry: usize,
) -> Seq<NodeModel>
    decreases layers,
{
    if layers == 0 {
        nodes
    } else {
        let layer = (layers - 1) as nat;
        let selected = selected_at(nodes, metric, rows, params, node, layer, entry);
        linked_down(
            connected(
                nodes,
                metric,
                rows,
                params.max_neighbors as nat,
                node,
                layer as int,
                selected,
            ),
            metric,
            rows,
            params,
            node,
            layer,
            if selected.len() > 0 {
                selected[0]
            } else {
                entry
            },
        )
    }
}

/// The node that the descent from layer `from` to just above layer `to` leads to.
pub open spec fn entry_above(
    nodes: Seq<NodeModel>,
    metric: DistanceMetric,
    values: Seq<Result<u32, nat>>,
    from: nat,
    to: nat,
    entry: int,
) -> Result<int, nat>
    decreases from,
{
    if from <= to {
        Ok(entry)
    } else {
        match descended(nodes, metric, values, from, entry) {
            Err(found) => Err(found),
            Ok(next) => entry_above(nodes, metric, values, (from - 1) as nat, to, next),
        }
    }
}

/// A node without neighbors.
pub open spec fn lone_node(record: RecordModel, level: u8) -> NodeModel {
    NodeModel { record, level, neighbors: Seq::new((level + 1) as nat, |i: int| Seq::empty()) }
}

/// The sidecar once a record has been inserted on `level`, where `rows` holds
/// the metric value of every two nodes.
pub open spec fn inserted(
    sidecar: SidecarModel,
    record: RecordModel,
    level: u8,
    rows: Seq<Seq<u32>>,
) -> SidecarModel {
    let node = sidecar.nodes.len() as int;
    let grown = sidecar.nodes.push(lone_node(record, level));
    match sidecar.entry_point {
        None => SidecarModel {
            nodes: grown,
            entry_point: Some(node as u32),
            max_level: level,
            ..sidecar
        },
        Some(entry) => {
            let values = node_values(grown, record.vector.len(), rows[node]);
            let start = match entry_above(
                grown,
                sidecar.metric,
                values,
                sidecar.max_level as nat,
                level as nat,
                entry as int,
            ) {
                Ok(start) => start,
                Err(_) => 0,
            };
            let layers = if sidecar.max_level < level {
                sidecar.max_level + 1
            } else {
                level + 1
            };
            SidecarModel {
                nodes: linked_down(
                    grown,
                    sidecar.metric,
                    rows,
                    sidecar.params,
                    node,
                    layers as nat,
                    start as usize,
                ),
                entry_point: if level > sidecar.max_level {
                    Some(node as u32)
                } else {
                    Some(entry)
                },
                max_level: if level > sidecar.max_level {
                    level
                } else {
                    sidecar.max_level
                },
                ..sidecar
            }
        },
    }
}

/// Whether every vector of a graph has `dimensions` components.
pub open spec fn uniform(nodes: Seq<NodeModel>, dimensions: nat) -> bool {
    forall|i: int|
        0 <= i < nodes.len() ==> (#[trigger] nodes[i]).record.vector.len() == dimensions
}

/// What a search for the neighbors of a node selects: nodes that may become its
/// neighbors on the layer.
pub proof fn lemma_selected(
    nodes: Seq<NodeModel>,
    metric: DistanceMetric,
    rows: Seq<Seq<u32>>,
    params: HnswBuildParams,
    node: int,
    layer: nat,
    entry: usize,
    dimensions: nat,
)
    requires
        sound_links(nodes),
        uniform(nodes, dimensions),
        nodes.len() <= 0x1_0000_0000,
        0 <= node < nodes.len() <= usize::MAX,
        entry < nodes.len(),
        layer <= nodes[entry as int].level,
    ensures
        ({
            let goal = LayerGoal {
                metric,
                ef: larger(params.ef_construction as nat, params.max_neighbors as nat),
                exclude: Some(node as usize),
            };
            let values = node_values(nodes, nodes[node].record.vector.len(), rows[node]);
            let selected = selected_at(nodes, metric, rows, params, node, layer, entry);
            &&& layer_search(nodes, layer, goal, values, entry) is Ok
            &&& linkable(nodes, node, layer as int, selected)
        }),
{
    let goal = LayerGoal {
        metric,
        ef: larger(params.ef_construction as nat, params.max_neighbors as nat),
        exclude: Some(node as usize),
    };
    let values = node_values(nodes, nodes[node].record.vector.len(), rows[node]);
    lemma_sound_links_in_range(nodes);
    lemma_links_stay_on_layer(nodes, layer);
    assert(all_valued(values)) by {
        assert forall|i: int| 0 <= i < values.len() implies (#[trigger] values[i]) is Ok by {
            assert(nodes[i].record.vector.len() == dimensions);
            assert(nodes[node].record.vector.len() == dimensions);
        }
    }
    lemma_layer_search_succeeds(nodes, layer, goal, values, entry);
    law_layer_search(nodes, layer, goal, values, entry, reaches(nodes, layer));
    let scored = layer_search(nodes, layer, goal, values, entry)->Ok_0.0;
    let best = nearest(metric, scored, params.max_neighbors as nat);
    let selected = indices_of(best);
    lemma_sort_members(metric, scored);
    law_sort_keeps_nodes(metric, scored);
    let sorted = sorted_best_first(metric, scored);
    assert forall|i: int| 0 <= i < selected.len() implies {
        &&& #[trigger] selected[i] < nodes.len()
        &&& selected[i] != node
        &&& layer <= nodes[selected[i] as int].level
    } by {
        assert(best[i] == sorted[i]);
        assert(sorted.contains(sorted[i]));
        assert(scored.contains(sorted[i]));
        let j = choose|j: int| 0 <= j < scored.len() && scored[j] == sorted[i];
        assert(scored[j].index < nodes.len());
        assert(reaches(nodes, layer)(scored[j].index));
    }
}

/// Builder input for one HNSW-visible immutable put entry.
#[derive(Debug)]
pub struct HnswIndexEntrySource {
    /// Stable offset index into the flat sidecar entry table.
    pub entry_offset_index: usize,
    /// External record identifier.
    pub record_id: String,
    /// Sequence number represented by the immutable put.
    pub seq_no: u64,
    /// Raw vector payload duplicated for ANN traversal, as binary32 bit patterns.
    pub vector: Vec<u32>,
    /// Metadata payload as JSON text, used for filtered traversal and rerank fetches.
    pub metadata: String,
}

impl View for HnswIndexEntrySource {
    type V = RecordModel;

    open spec fn view(&self) -> RecordModel {
        RecordModel {
            entry_offset_index: self.entry_offset_index,
            record_id: self.record_id@,
            seq_no: self.seq_no,
            vector: self.vector@,
            metadata: self.metadata@,
        }
    }
}

/// A node without neighbors keeps a graph sound.
pub proof fn lemma_grown_sound(nodes: Seq<NodeModel>, record: RecordModel, level: u8)
    requires
        sound_links(nodes),
    ensures
        sound_links(nodes.push(lone_node(record, level))),
{
    let grown = nodes.push(lone_node(record, level));
    assert forall|node: int, layer: int, k: int|
        #![trigger grown[node].neighbors[layer][k]]
        0 <= node < grown.len() && 0 <= layer < grown[node].neighbors.len() && 0 <= k
            < grown[node].neighbors[layer].len() implies {
        &&& grown[node].neighbors[layer][k] < grown.len()
        &&& layer <= grown[grown[node].neighbors[layer][k] as int].level
    } by {
        assert(node < nodes.len());
        assert(grown[node] == nodes[node]);
        assert(nodes[node].neighbors[layer][k] < nodes.len());
    }
    assert forall|node: int| 0 <= node < grown.len() implies (
    #[trigger] grown[node]).neighbors.len() == grown[node].level + 1 by {
        if node < nodes.len() {
            assert(grown[node] == nodes[node]);
        }
    }
}

/// Linking a node on all its layers keeps a graph sound, and keeps every record.
pub proof fn lemma_linked_down(
    nodes: Seq<NodeModel>,
    metric: DistanceMetric,
    rows: Seq<Seq<u32>>,
    params: HnswBuildParams,
    node: int,
    layers: nat,
    entry: usize,
    dimensions: nat,
)
    requires
        sound_links(nodes),
        uniform(nodes, dimensions),
        nodes.len() <= 0x1_0000_0000,
        0 <= node < nodes.len() <= usize::MAX,
        layers <= nodes[node].level + 1,
        entry < nodes.len(),
        layers > 0 ==> layers - 1 <= nodes[entry as int].level,
    ensures
        sound_links(linked_down(nodes, metric, rows, params, node, layers, entry)),
        same_records(nodes, linked_down(nodes, metric, rows, params, node, layers, entry)),
    decreases layers,
{
    if layers > 0 {
        let layer = (layers - 1) as nat;
        let selected = selected_at(nodes, metric, rows, params, node, layer, entry);
        lemma_selected(nodes, metric, rows, params, node, layer, entry, dimensions);
        lemma_connected(
            nodes,
            metric,
            rows,
            params.max_neighbors as nat,
            node,
            layer as int,
            selected,
        );
        let next = connected(
            nodes,
            metric,
            rows,
            params.max_neighbors as nat,
            node,
            layer as int,
            selected,
        );
        let next_entry = if selected.len() > 0 {
            selected[0]
        } else {
            entry
        };
        assert(uniform(next, dimensions)) by {
            assert forall|i: int| 0 <= i < next.len() implies (
            #[trigger] next[i]).record.vector.len() == dimensions by {
                assert(nodes[i].record.vector.len() == dimensions);
            }
        }
        if selected.len() > 0 {
            assert(selected[0] < nodes.len());
        }
        assert(next[next_entry as int].level == nodes[next_entry as int].level);
        assert(next[node].level == nodes[node].level);
        lemma_linked_down(next, metric, rows, params, node, layer, next_entry, dimensions);
        let end = linked_down(next, metric, rows, params, node, layer, next_entry);
        assert forall|i: int| 0 <= i < nodes.len() implies (#[trigger] end[i]).record
            == nodes[i].record && end[i].level == nodes[i].level && end[i].neighbors.len()
            == nodes[i].neighbors.len() by {
            assert(next[i].record == nodes[i].record);
        }
    }
}

/// The descent above a layer ends at a node that reaches the layer.
pub proof fn lemma_entry_above(
    nodes: Seq<NodeModel>,
    metric: DistanceMetric,
    values: Seq<Result<u32, nat>>,
    from: nat,
    to: nat,
    entry: int,
)
    requires
        sound_links(nodes),
        nodes.len() == values.len() <= usize::MAX,
        all_valued(values),
        0 <= entry < nodes.len(),
        from <= nodes[entry].level,
    ensures
        entry_above(nodes, metric, values, from, to, entry) matches Ok(end) && 0 <= end
            < nodes.len() && (if from < to {
            from
        } else {
            to
        }) <= nodes[end].level,
    decreases from,
{
    if from > to {
        lemma_sound_links_in_range(nodes);
        lemma_links_stay_on_layer(nodes, from);
        lemma_descent_succeeds(nodes, metric, values, from, entry, reaches(nodes, from));
        let next = descended(nodes, metric, values, from, entry)->Ok_0;
        assert(reaches(nodes, from)(next as usize));
        lemma_entry_above(nodes, metric, values, (from - 1) as nat, to, next);
    }
}

/// Inserting a record keeps a graph sound and keeps every earlier record; the
/// new one comes last, on its level.
pub proof fn law_insert_keeps_graph_sound(
    sidecar: SidecarModel,
    record: RecordModel,
    level: u8,
    rows: Seq<Seq<u32>>,
)
    requires
        sound_graph(sidecar),
        uniform(sidecar.nodes, sidecar.dimensions as nat),
        record.vector.len() == sidecar.dimensions,
        sidecar.nodes.len() < 0x1_0000_0000,
        sidecar.nodes.len() < usize::MAX,
    ensures
        sound_graph(inserted(sidecar, record, level, rows)),
        uniform(inserted(sidecar, record, level, rows).nodes, sidecar.dimensions as nat),
        same_records(
            sidecar.nodes.push(lone_node(record, level)),
            inserted(sidecar, record, level, rows).nodes,
        ),
{
    let node = sidecar.nodes.len() as int;
    let grown = sidecar.nodes.push(lone_node(record, level));
    let after = inserted(sidecar, record, level, rows);
    lemma_grown_sound(sidecar.nodes, record, level);
    assert(uniform(grown, sidecar.dimensions as nat));
    match sidecar.entry_point {
        None => {},
        Some(entry) => {
            let values = node_values(grown, record.vector.len(), rows[node]);
            assert(all_valued(values)) by {
                assert forall|i: int| 0 <= i < values.len() implies (
                #[trigger] values[i]) is Ok by {
                    assert(grown[i].record.vector.len() == sidecar.dimensions);
                }
            }
            assert(grown[entry as int] == sidecar.nodes[entry as int]);
            lemma_entry_above(
                grown,
                sidecar.metric,
                values,
                sidecar.max_level as nat,
                level as nat,
                entry as int,
            );
            let start = entry_above(
                grown,
                sidecar.metric,
                values,
                sidecar.max_level as nat,
                level as nat,
                entry as int,
            )->Ok_0;
            let layers = if sidecar.max_level < level {
                sidecar.max_level + 1
            } else {
                level + 1
            };
            lemma_linked_down(
                grown,
                sidecar.metric,
                rows,
                sidecar.params,
                node,
                layers as nat,
                start as usize,
                sidecar.dimensions as nat,
            );
            assert(after.nodes[entry as int].level == grown[entry as int].level);
            assert(after.nodes[node].level == grown[node].level);
            assert forall|i: int| 0 <= i < after.nodes.len() implies (
            #[trigger] after.nodes[i]).record.vector.len() == sidecar.dimensions by {
                assert(grown[i].record.vector.len() == sidecar.dimensions);
            }
        },
    }
}

fn lone(entry: &HnswIndexEntrySource, level: u8) -> (node: HnswNode)
    ensures
        node@ == lone_node(entry@, level),
{
    let mut lists: Vec<Vec<u32>> = Vec::new();
    let count: usize = level as usize + 1;
    let mut index: usize = 0;
    while index < count
        invariant
            index <= count,
            count == level + 1,
            lists@.len() == index,
            forall|i: int| 0 <= i < index ==> (#[trigger] lists@[i])@ == Seq::<u32>::empty(),
        decreases count - index,
    {
        lists.push(Vec::new());
        index = index + 1;
    }
    let vector = entry.vector.clone();
    assert(vector@ =~= entry.vector@);
    let node = HnswNode {
        record: HnswStoredRecord {
            entry_offset_index: entry.entry_offset_index,
            record_id: entry.record_id.clone(),
            seq_no: entry.seq_no,
            vector,
            metadata: entry.metadata.clone(),
        },
        level,
        neighbors_by_level: lists,
    };
    assert(node@.neighbors =~= lone_node(entry@, level).neighbors);
    node
}

/// Descend to just above the level of a new node.
fn descend_above(
    nodes: &Vec<HnswNode>,
    metric: DistanceMetric,
    query_len: usize,
    values: &Vec<u32>,
    from: u8,
    to: u8,
    entry: usize,
) -> (end: usize)
    requires
        sound_links(nodes_model(nodes@)),
        uniform(nodes_model(nodes@), query_len as nat),
        values@.len() >= nodes@.len(),
        entry < nodes@.len(),
        from <= nodes@[entry as int].level,
    ensures
        entry_above(
            nodes_model(nodes@),
            metric,
            node_values(nodes_model(nodes@), query_len as nat, values@),
            from as nat,
            to as nat,
            entry as int,
        ) == Ok::<int, nat>(end as int),
        end < nodes@.len(),
{
    let ghost model = nodes_model(nodes@);
    let ghost table = node_values(model, query_len as nat, values@);
    let count: usize = nodes.len();
    proof {
        assert(model.len() == count);
        lemma_sound_links_in_range(model);
        assert forall|i: int| 0 <= i < table.len() implies (#[trigger] table[i]) is Ok by {
            assert(model[i].record.vector.len() == query_len);
        }
        lemma_entry_above(model, metric, table, from as nat, to as nat, entry as int);
    }
    let mut current: usize = entry;
    let mut layer: u8 = from;
    while layer > to
        invariant
            model == nodes_model(nodes@),
            table == node_values(model, query_len as nat, values@),
            crate::index::graph::links_in_range(model),
            values@.len() >= nodes@.len(),
            current < nodes@.len(),
            entry_above(model, metric, table, from as nat, to as nat, entry as int) is Ok,
            entry_above(model, metric, table, from as nat, to as nat, entry as int) == entry_above(
                model,
                metric,
                table,
                layer as nat,
                to as nat,
                current as int,
            ),
        decreases layer,
    {
        match greedy_descent(nodes, metric, query_len, values.as_slice(), layer, current) {
            Ok(next) => {
                current = next;
            },
            Err(_) => {
                assert(false);
            },
        }
        layer = layer - 1;
    }
    current
}

/// Insert one record into the graph on a given level.
pub fn insert_hnsw_entry(
    sidecar: &mut HnswIndexSidecar,
    entry: &HnswIndexEntrySource,
    level: u8,
    rows: &Vec<Vec<u32>>,
)
    requires
        sound_graph(old(sidecar)@),
        uniform(old(sidecar)@.nodes, old(sidecar)@.dimensions as nat),
        entry@.vector.len() == old(sidecar)@.dimensions,
        old(sidecar)@.nodes.len() < 0x1_0000_0000,
        old(sidecar)@.nodes.len() < usize::MAX,
        covers(rows_model(rows@), old(sidecar)@.nodes.len() + 1),
    ensures
        final(sidecar)@ == inserted(old(sidecar)@, entry@, level, rows_model(rows@)),
{
    let ghost before = sidecar@;
    let ghost table = rows_model(rows@);
    let new_index: usize = sidecar.nodes.len();
    let metric = sidecar.metric;
    let params = sidecar.params;
    let query_len: usize = entry.vector.len();
    sidecar.nodes.push(lone(entry, level));
    let ghost grown = before.nodes.push(lone_node(entry@, level));
    assert(nodes_model(sidecar.nodes@) =~= grown);
    proof {
        lemma_grown_sound(before.nodes, entry@, level);
        assert(table[new_index as int] == rows@[new_index as int]@);
    }
    let first: u32 = match sidecar.entry_point {
        None => {
            sidecar.entry_point = Some(new_index as u32);
            sidecar.max_level = level;
            assert(sidecar@ == inserted(before, entry@, level, table));
            return;
        },
        Some(first) => first,
    };
    assert(grown[first as int] == before.nodes[first as int]);
    let mut current_entry: usize = descend_above(
        &sidecar.nodes,
        metric,
        query_len,
        &rows[new_index],
        sidecar.max_level,
        level,
        first as usize,
    );
    let ghost start = current_entry;
    let upper_layer: u8 = if sidecar.max_level < level {
        sidecar.max_level
    } else {
        level
    };
    let ef: usize = if params.ef_construction < params.max_neighbors {
        params.max_neighbors
    } else {
        params.ef_construction
    };
    let mut layers: usize = upper_layer as usize + 1;
    proof {
        let values = node_values(grown, query_len as nat, table[new_index as int]);
        assert forall|i: int| 0 <= i < values.len() implies (#[trigger] values[i]) is Ok by {
            assert(grown[i].record.vector.len() == before.dimensions);
        }
        lemma_entry_above(
            grown,
            metric,
            values,
            before.max_level as nat,
            level as nat,
            first as int,
        );
    }
    while layers > 0
        invariant
            table == rows_model(rows@),
            before == old(sidecar)@,
            new_index == before.nodes.len(),
            new_index < usize::MAX,
            grown == before.nodes.push(lone_node(entry@, level)),
            metric == before.metric,
            params == before.params,
            query_len == before.dimensions,
            ef == larger(params.ef_construction as nat, params.max_neighbors as nat),
            sidecar@ == (SidecarModel { nodes: sidecar@.nodes, ..before }),
            sidecar.nodes@.len() == new_index + 1,
            sidecar.nodes@.len() <= 0x1_0000_0000,
            covers(table, sidecar.nodes@.len()),
            sound_links(sidecar@.nodes),
            uniform(sidecar@.nodes, query_len as nat),
            same_records(grown, sidecar@.nodes),
            layers <= level + 1,
            current_entry < sidecar.nodes@.len(),
            layers > 0 ==> layers - 1 <= sidecar@.nodes[current_entry as int].level,
            layers <= before.max_level + 1,
            linked_down(
                grown,
                metric,
                table,
                params,
                new_index as int,
                (upper_layer + 1) as nat,
                start,
            ) == linked_down(
                sidecar@.nodes,
                metric,
                table,
                params,
                new_index as int,
                layers as nat,
                current_entry,
            ),
        decreases layers,
    {
        let layer: usize = layers - 1;
        let ghost nodes = sidecar@.nodes;
        proof {
            assert(nodes[new_index as int].level == grown[new_index as int].level);
            lemma_sound_links_in_range(nodes);
            lemma_selected(
                nodes,
                metric,
                table,
                params,
                new_index as int,
                layer as nat,
                current_entry,
                query_len as nat,
            );
            assert(table[new_index as int] == rows@[new_index as int]@);
            assert(nodes[new_index as int].record.vector.len() == query_len);
        }
        let selected = match search_layer(
            &sidecar.nodes,
            metric,
            query_len,
            rows[new_index].as_slice(),
            layer as u8,
            &[current_entry],
            ef,
            Some(new_index),
        ) {
            Ok((candidates, _)) => select_best_neighbors(metric, &candidates, params.max_neighbors),
            Err(_) => {
                assert(false);
                Vec::new()
            },
        };
        assert(selected@ == selected_at(
            nodes,
            metric,
            table,
            params,
            new_index as int,
            layer as nat,
            current_entry,
        ));
        proof {
            lemma_connected(
                nodes,
                metric,
                table,
                params.max_neighbors as nat,
                new_index as int,
                layer as int,
                selected@,
            );
        }
        if selected.len() > 0 {
            current_entry = selected[0];
        }
        connect_node(
            &mut sidecar.nodes,
            metric,
            rows,
            params.max_neighbors,
            new_index,
            layer,
            &selected,
        );
        layers = layer;
        proof {
            let next = sidecar@.nodes;
            assert(next == nodes_model(sidecar.nodes@));
            assert forall|i: int| 0 <= i < next.len() implies (
            #[trigger] next[i]).record.vector.len() == query_len by {
                assert(nodes[i].record.vector.len() == query_len);
            }
            assert forall|i: int| 0 <= i < grown.len() implies (#[trigger] next[i]).record
                == grown[i].record && next[i].level == grown[i].level && next[i].neighbors.len()
                == grown[i].neighbors.len() by {
                assert(nodes[i].record == grown[i].record);
            }
            assert(next[current_entry as int].level == nodes[current_entry as int].level);
        }
    }

    if level > sidecar.max_level {
        sidecar.max_level = level;
        sidecar.entry_point = Some(new_index as u32);
    }
    assert(sidecar@ == inserted(before, entry@, level, table));
}

} // verus!
