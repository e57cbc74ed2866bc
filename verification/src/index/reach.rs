//! What a search cannot miss.

use crate::index::graph::{
    lemma_neighbors_in_range, links_in_range, neighbors_at, NodeModel, SidecarModel,
};
use crate::index::layer::{
    after_neighbor, after_neighbors, after_round, after_rounds, is_settled, layer_search,
    lemma_after_neighbors, lemma_set_below, lemma_without_candidate, next_candidate, node_values,
    rounds_left, settled, started, state_in_range, LayerGoal, LayerState,
};
use crate::index::layer_facts::{
    closed_under_links, distinct_nodes, law_layer_search, lemma_sound_after_round, state_sound,
};
use crate::index::score::{
    all_numbers, better, is_nan, law_sort_is_best_first, law_sort_keeps_nodes,
    lemma_sort_members, lemma_worst_position_in_range, sorted_best_first, swap_removed, ScoredNode,
};
use crate::index::search::{
    base_search, entry_for_base, hnsw_search, larger, passes, picked, search_entry, searchable,
    wider, widening_search, CandidateModel,
};
use crate::index::search_facts::{lemma_picked_order, lemma_unfiltered, lemma_widening_search};
use crate::types::DistanceMetric;
use vstd::prelude::*;

verus! {

/// Whether a layer links one node to another.
pub open spec fn links_to(nodes: Seq<NodeModel>, layer: nat, from: usize, to: usize) -> bool {
    exists|k: int|
        0 <= k < neighbors_at(nodes, from as int, layer).len() && #[trigger] neighbors_at(
            nodes,
            from as int,
            layer,
        )[k] == to
}

/// Whether nodes are a walk along the links of a layer that keeps off the node left out.
pub open spec fn is_walk(
    nodes: Seq<NodeModel>,
    layer: nat,
    exclude: Option<usize>,
    walk: Seq<usize>,
) -> bool {
    &&& walk.len() > 0
    &&& walk[0] < nodes.len()
    &&& forall|i: int| 0 <= i < walk.len() ==> exclude != Some(#[trigger] walk[i])
    &&& forall|i: int|
        0 < i < walk.len() ==> links_to(nodes, layer, walk[i - 1], #[trigger] walk[i])
}

/// Whether scored nodes hold a node.
pub open spec fn holds(scored: Seq<ScoredNode>, node: usize) -> bool {
    exists|i: int| 0 <= i < scored.len() && (#[trigger] scored[i]).index == node
}

/// Whether a search that has not filled its result has kept every node that it looked at, and
/// has looked at every neighbor of each, but of those in `open`.
pub open spec fn explored(
    nodes: Seq<NodeModel>,
    layer: nat,
    goal: LayerGoal,
    state: LayerState,
    open: spec_fn(usize) -> bool,
) -> bool {
    state.results.len() < goal.ef ==> {
        &&& forall|node: usize| #[trigger]
            state.visited.contains(node) ==> holds(state.results, node)
        &&& forall|node: usize, next: usize|
            state.visited.contains(node) && !open(node) && #[trigger] links_to(
                nodes,
                layer,
                node,
                next,
            ) && goal.exclude != Some(next) ==> state.visited.contains(next)
    }
}

/// The nodes whose neighbors are still to be looked at.
pub open spec fn waiting(state: LayerState) -> spec_fn(usize) -> bool {
    |node: usize| holds(state.candidates, node)
}

/// The nodes whose neighbors are still to be looked at, and one more.
pub open spec fn waiting_or(state: LayerState, chosen: usize) -> spec_fn(usize) -> bool {
    |node: usize| node == chosen || holds(state.candidates, node)
}

proof fn lemma_holds_longer(scored: Seq<ScoredNode>, added: ScoredNode)
    ensures
        forall|node: usize| holds(scored, node) ==> #[trigger] holds(scored.push(added), node),
        holds(scored.push(added), added.index),
{
    let longer = scored.push(added);
    assert forall|node: usize| holds(scored, node) implies #[trigger] holds(longer, node) by {
        let i = choose|i: int| 0 <= i < scored.len() && (#[trigger] scored[i]).index == node;
        assert(longer[i].index == node);
    }
    assert(longer[scored.len() as int].index == added.index);
}

/// What looking at one neighbor leaves to be looked at.
proof fn lemma_explored_after_neighbor(
    nodes: Seq<NodeModel>,
    layer: nat,
    goal: LayerGoal,
    values: Seq<Result<u32, nat>>,
    state: LayerState,
    neighbor: usize,
    chosen: usize,
)
    requires
        explored(nodes, layer, goal, state, waiting_or(state, chosen)),
    ensures
        after_neighbor(goal, values, state, neighbor) matches Ok(next) ==> {
            &&& explored(nodes, layer, goal, next, waiting_or(next, chosen))
            &&& next.results.len() >= state.results.len()
            &&& forall|node: usize| #[trigger]
                state.visited.contains(node) ==> next.visited.contains(node)
            &&& goal.exclude == Some(neighbor) || next.visited.contains(neighbor)
        },
{
    match after_neighbor(goal, values, state, neighbor) {
        Err(_) => {},
        Ok(next) => {
            if goal.exclude != Some(neighbor) && !state.visited.contains(neighbor) {
                let added = ScoredNode { index: neighbor, value: values[neighbor as int]->Ok_0 };
                let longer = state.results.push(added);
                lemma_worst_position_in_range(goal.metric, longer, longer.len());
                lemma_holds_longer(state.results, added);
                lemma_holds_longer(state.candidates, added);
                if next.results.len() < goal.ef {
                    assert(next.results == state.results.push(added));
                    assert(next.candidates == state.candidates.push(added));
                    assert forall|node: usize, other: usize|
                        next.visited.contains(node) && !waiting_or(next, chosen)(node)
                            && #[trigger] links_to(nodes, layer, node, other) && goal.exclude
                            != Some(other) implies next.visited.contains(other) by {
                        if holds(state.candidates, node) {
                            assert(holds(next.candidates, node));
                        }
                        assert(state.visited.contains(node));
                        assert(!waiting_or(state, chosen)(node));
                    }
                }
            }
        },
    }
}

proof fn lemma_explored_after_neighbors(
    nodes: Seq<NodeModel>,
    layer: nat,
    goal: LayerGoal,
    values: Seq<Result<u32, nat>>,
    state: LayerState,
    neighbors: Seq<u32>,
    count: nat,
    chosen: usize,
)
    requires
        count <= neighbors.len(),
        explored(nodes, layer, goal, state, waiting_or(state, chosen)),
    ensures
        after_neighbors(goal, values, state, neighbors, count) matches Ok(next) ==> {
            &&& explored(nodes, layer, goal, next, waiting_or(next, chosen))
            &&& next.results.len() >= state.results.len()
            &&& forall|node: usize| #[trigger]
                state.visited.contains(node) ==> next.visited.contains(node)
            &&& forall|k: int|
                0 <= k < count ==> goal.exclude == Some(#[trigger] neighbors[k] as usize)
                    || next.visited.contains(neighbors[k] as usize)
        },
    decreases count,
{
    if count > 0 {
        lemma_explored_after_neighbors(
            nodes,
            layer,
            goal,
            values,
            state,
            neighbors,
            (count - 1) as nat,
            chosen,
        );
        match after_neighbors(goal, values, state, neighbors, (count - 1) as nat) {
            Err(_) => {},
            Ok(next) => {
                lemma_explored_after_neighbor(
                    nodes,
                    layer,
                    goal,
                    values,
                    next,
                    neighbors[count - 1] as usize,
                    chosen,
                );
            },
        }
    }
}

proof fn lemma_explored_after_round(
    nodes: Seq<NodeModel>,
    layer: nat,
    goal: LayerGoal,
    values: Seq<Result<u32, nat>>,
    state: LayerState,
)
    requires
        state_in_range(state, nodes.len()),
        explored(nodes, layer, goal, state, waiting(state)),
        !is_settled(goal, state),
    ensures
        after_round(nodes, layer, goal, values, state) matches Ok(next) ==> explored(
            nodes,
            layer,
            goal,
            next,
            waiting(next),
        ),
{
    let position = next_candidate(goal, state);
    lemma_without_candidate(goal, state, nodes.len());
    let chosen = state.candidates[position].index;
    let rest = LayerState { candidates: swap_removed(state.candidates, position), ..state };
    assert forall|node: usize| #[trigger]
        holds(state.candidates, node) && node != chosen implies holds(rest.candidates, node) by {
        let i = choose|i: int|
            0 <= i < state.candidates.len() && (#[trigger] state.candidates[i]).index == node;
        let at = if i == state.candidates.len() - 1 {
            position
        } else {
            i
        };
        assert(rest.candidates[at].index == node);
    }
    assert(explored(nodes, layer, goal, rest, waiting_or(rest, chosen)));
    let neighbors = neighbors_at(nodes, chosen as int, layer);
    lemma_explored_after_neighbors(
        nodes,
        layer,
        goal,
        values,
        rest,
        neighbors,
        neighbors.len(),
        chosen,
    );
    match after_round(nodes, layer, goal, values, state) {
        Err(_) => {},
        Ok(next) => {
            if next.results.len() < goal.ef {
                assert forall|node: usize, other: usize|
                    next.visited.contains(node) && !waiting(next)(node) && #[trigger] links_to(
                        nodes,
                        layer,
                        node,
                        other,
                    ) && goal.exclude != Some(other) implies next.visited.contains(other) by {
                    if node == chosen {
                        let k = choose|k: int|
                            0 <= k < neighbors.len() && #[trigger] neighbors_at(
                                nodes,
                                chosen as int,
                                layer,
                            )[k] == other;
                        assert(neighbors[k] as usize == other);
                    } else {
                        assert(!waiting_or(next, chosen)(node));
                    }
                }
            }
        },
    }
}

/// A search that has enough rounds ends settled, and has then explored what it looked at.
proof fn lemma_explored_after_rounds(
    nodes: Seq<NodeModel>,
    layer: nat,
    goal: LayerGoal,
    values: Seq<Result<u32, nat>>,
    state: LayerState,
    rounds: nat,
)
    requires
        links_in_range(nodes),
        nodes.len() == values.len(),
        state_sound(goal, values, |node: usize| true, state),
        explored(nodes, layer, goal, state, waiting(state)),
        rounds_left(state, nodes.len()) <= rounds,
    ensures
        after_rounds(nodes, layer, goal, values, state, rounds) matches Ok(end) ==> {
            &&& is_settled(goal, end)
            &&& explored(nodes, layer, goal, end, waiting(end))
            &&& forall|node: usize| #[trigger]
                state.visited.contains(node) ==> end.visited.contains(node)
        },
    decreases rounds,
{
    let anywhere = |node: usize| true;
    assert(closed_under_links(nodes, layer, anywhere));
    assert(state_in_range(state, nodes.len()));
    lemma_set_below(state.visited, nodes.len());
    if rounds > 0 && !is_settled(goal, state) {
        lemma_sound_after_round(nodes, layer, goal, values, anywhere, state);
        lemma_explored_after_round(nodes, layer, goal, values, state);
        let position = next_candidate(goal, state);
        lemma_without_candidate(goal, state, nodes.len());
        let chosen = state.candidates[position].index;
        let rest = LayerState { candidates: swap_removed(state.candidates, position), ..state };
        let neighbors = neighbors_at(nodes, chosen as int, layer);
        lemma_neighbors_in_range(nodes, chosen as int, layer);
        lemma_after_neighbors(goal, values, rest, neighbors, neighbors.len());
        lemma_visited_stays(goal, values, rest, neighbors, neighbors.len());
        match after_round(nodes, layer, goal, values, state) {
            Err(_) => {},
            Ok(next) => {
                lemma_explored_after_rounds(
                    nodes,
                    layer,
                    goal,
                    values,
                    next,
                    (rounds - 1) as nat,
                );
            },
        }
    }
}

pub proof fn lemma_visited_stays(
    goal: LayerGoal,
    values: Seq<Result<u32, nat>>,
    state: LayerState,
    neighbors: Seq<u32>,
    count: nat,
)
    ensures
        after_neighbors(goal, values, state, neighbors, count) matches Ok(next) ==> forall|
            node: usize,
        | #[trigger]
            state.visited.contains(node) ==> next.visited.contains(node),
    decreases count,
{
    if count > 0 {
        lemma_visited_stays(goal, values, state, neighbors, (count - 1) as nat);
    }
}

pub proof fn lemma_full_result_holds_all(scored: Seq<ScoredNode>, count: nat, node: usize)
    requires
        distinct_nodes(scored),
        forall|i: int| 0 <= i < scored.len() ==> (#[trigger] scored[i]).index < count,
        scored.len() >= count,
        node < count,
    ensures
        holds(scored, node),
{
    let indices = scored.map_values(|entry: ScoredNode| entry.index as int);
    assert(indices.no_duplicates()) by {
        assert forall|i: int, j: int|
            0 <= i < indices.len() && 0 <= j < indices.len() && i != j implies indices[i]
            != indices[j] by {
            if i < j {
                assert(scored[i].index != scored[j].index);
            } else {
                assert(scored[j].index != scored[i].index);
            }
        }
    }
    indices.unique_seq_to_set();
    vstd::set_lib::lemma_int_range(0, count as int);
    let all = vstd::set_lib::set_int_range(0, count as int);
    let found = indices.to_set();
    assert(found.subset_of(all)) by {
        assert forall|value: int| found.contains(value) implies all.contains(value) by {
            let i = choose|i: int| 0 <= i < indices.len() && indices[i] == value;
            assert(scored[i].index < count);
        }
    }
    vstd::set_lib::lemma_len_subset(found, all);
    vstd::set_lib::lemma_subset_equality(found, all);
    assert(found.contains(node as int));
    let i = choose|i: int| 0 <= i < indices.len() && indices[i] == node as int;
    assert(scored[i].index == node);
}

/// A search on one layer that comes back with fewer nodes than its breadth, or with as many as
/// there are, has found every node that a walk from its entry leads to.
pub proof fn law_layer_search_misses_nothing(
    nodes: Seq<NodeModel>,
    layer: nat,
    goal: LayerGoal,
    values: Seq<Result<u32, nat>>,
    walk: Seq<usize>,
)
    requires
        links_in_range(nodes),
        nodes.len() == values.len(),
        is_walk(nodes, layer, goal.exclude, walk),
    ensures
        layer_search(nodes, layer, goal, values, walk[0]) matches Ok((scored, visited)) ==> (
        scored.len() < goal.ef || scored.len() >= nodes.len() ==> holds(scored, walk.last())),
{
    let entry = walk[0];
    let anywhere = |node: usize| true;
    assert(closed_under_links(nodes, layer, anywhere));
    law_layer_search(nodes, layer, goal, values, entry, anywhere);
    match layer_search(nodes, layer, goal, values, entry) {
        Err(_) => {},
        Ok((scored, visited)) => {
            lemma_walk_stays(nodes, layer, goal.exclude, walk, walk.len() - 1);
            if scored.len() >= nodes.len() {
                lemma_full_result_holds_all(scored, nodes.len(), walk.last());
            } else if scored.len() < goal.ef {
                let start = started(goal, values, entry)->Ok_0;
                assert(start.results[0].index == entry);
                assert(start.candidates[0].index == entry);
                assert(state_sound(goal, values, anywhere, start));
                assert(explored(nodes, layer, goal, start, waiting(start)));
                lemma_explored_after_rounds(nodes, layer, goal, values, start, nodes.len());
                let end = settled(nodes, layer, goal, values, entry)->Ok_0;
                law_sort_keeps_nodes(goal.metric, end.results);
                assert(end.candidates.len() == 0);
                lemma_walk_visited(nodes, layer, goal, end, walk, walk.len() - 1);
                lemma_sort_members(goal.metric, end.results);
                let i = choose|i: int|
                    0 <= i < end.results.len() && (#[trigger] end.results[i]).index
                        == walk.last();
                assert(end.results.contains(end.results[i]));
                assert(sorted_best_first(goal.metric, end.results).contains(end.results[i]));
                let j = choose|j: int| 0 <= j < scored.len() && scored[j] == end.results[i];
                assert(scored[j].index == walk.last());
            }
        },
    }
}

proof fn lemma_walk_stays(
    nodes: Seq<NodeModel>,
    layer: nat,
    exclude: Option<usize>,
    walk: Seq<usize>,
    at: int,
)
    requires
        links_in_range(nodes),
        is_walk(nodes, layer, exclude, walk),
        0 <= at < walk.len(),
    ensures
        walk[at] < nodes.len(),
    decreases at,
{
    if at > 0 {
        lemma_walk_stays(nodes, layer, exclude, walk, at - 1);
        assert(links_to(nodes, layer, walk[at - 1], walk[at]));
        lemma_neighbors_in_range(nodes, walk[at - 1] as int, layer);
    }
}

proof fn lemma_walk_visited(
    nodes: Seq<NodeModel>,
    layer: nat,
    goal: LayerGoal,
    end: LayerState,
    walk: Seq<usize>,
    at: int,
)
    requires
        is_walk(nodes, layer, goal.exclude, walk),
        explored(nodes, layer, goal, end, waiting(end)),
        end.results.len() < goal.ef,
        end.candidates.len() == 0,
        end.visited.contains(walk[0]),
        0 <= at < walk.len(),
    ensures
        end.visited.contains(walk[at]),
    decreases at,
{
    if at > 0 {
        lemma_walk_visited(nodes, layer, goal, end, walk, at - 1);
        assert(links_to(nodes, layer, walk[at - 1], walk[at]));
        assert(!waiting(end)(walk[at - 1]));
        assert(goal.exclude != Some(walk[at]));
    }
}

/// Whether a node is one of the first `count`.
pub open spec fn is_among(scored: Seq<ScoredNode>, count: int, node: ScoredNode) -> bool {
    exists|i: int| 0 <= i < count && #[trigger] scored[i] == node
}

/// A node that passes is picked, unless there are enough before it.
pub proof fn lemma_picked_first(
    metric: DistanceMetric,
    scored: Seq<ScoredNode>,
    filter: Option<Seq<bool>>,
    top_k: nat,
    count: nat,
    at: int,
)
    requires
        0 <= at < count <= scored.len(),
        passes(filter, scored[at].index as int),
    ensures
        ({
            let kept = picked(scored, filter, top_k, count).0;
            ||| kept.contains(scored[at])
            ||| kept.len() == top_k && forall|i: int|
                0 <= i < kept.len() ==> is_among(scored, at, #[trigger] kept[i])
        }),
    decreases count,
{
    let before = picked(scored, filter, top_k, (count - 1) as nat).0;
    let kept = picked(scored, filter, top_k, count).0;
    if at < count - 1 {
        lemma_picked_first(metric, scored, filter, top_k, (count - 1) as nat, at);
        if before.contains(scored[at]) {
            let i = choose|i: int| 0 <= i < before.len() && before[i] == scored[at];
            assert(kept[i] == scored[at]);
        }
    } else if before.len() == top_k {
        lemma_picked_order(metric, scored, filter, top_k, (count - 1) as nat);
        assert forall|i: int| 0 <= i < kept.len() implies is_among(
            scored,
            at,
            #[trigger] kept[i],
        ) by {
            let earlier = choose|earlier: int|
                0 <= earlier < count - 1 && #[trigger] scored[earlier] == before[i];
            assert(scored[earlier] == kept[i]);
        }
    } else {
        assert(kept[before.len() as int] == scored[at]);
    }
}

proof fn lemma_widening_misses_nothing(
    nodes: Seq<NodeModel>,
    metric: DistanceMetric,
    values: Seq<Result<u32, nat>>,
    ef: nat,
    top_k: nat,
    filter: Option<Seq<bool>>,
    walk: Seq<usize>,
)
    requires
        links_in_range(nodes),
        nodes.len() == values.len(),
        ef >= top_k > 0,
        is_walk(nodes, 0, None, walk),
        passes(filter, walk.last() as int),
    ensures
        widening_search(nodes, metric, values, walk[0] as int, ef, top_k, filter) matches Ok(
            (kept, stats),
        ) ==> (kept.len() < top_k ==> holds(kept, walk.last())),
    decreases nodes.len() - ef,
{
    let entry = walk[0] as int;
    let goal = LayerGoal { metric, ef, exclude: None };
    match base_search(nodes, metric, values, entry, ef, top_k, filter) {
        Err(_) => {},
        Ok((kept, stats)) => {
            if !(filter is None || kept.len() == top_k || ef >= nodes.len() || ef == 0) {
                let next = wider(ef, nodes.len());
                lemma_widening_misses_nothing(nodes, metric, values, next, top_k, filter, walk);
            } else if kept.len() < top_k {
                let scored = layer_search(nodes, 0, goal, values, walk[0])->Ok_0.0;
                if filter is None {
                    lemma_unfiltered(scored, top_k, scored.len());
                }
                law_layer_search_misses_nothing(nodes, 0, goal, values, walk);
                let at = choose|at: int|
                    0 <= at < scored.len() && (#[trigger] scored[at]).index == walk.last();
                lemma_picked_first(metric, scored, filter, top_k, scored.len(), at);
                let i = choose|i: int| 0 <= i < kept.len() && kept[i] == scored[at];
                assert(kept[i].index == walk.last());
            }
        },
    }
}

/// Where a search of a sidecar enters the base layer, if it gets there.
pub open spec fn base_entry(sidecar: SidecarModel, query_len: nat, values: Seq<u32>) -> Result<
    int,
    nat,
> {
    entry_for_base(
        sidecar.nodes,
        sidecar.metric,
        node_values(sidecar.nodes, query_len, values),
        sidecar.max_level as nat,
        search_entry(sidecar),
    )
}

/// The candidate that stands for a node.
pub open spec fn candidate_for(nodes: Seq<NodeModel>, values: Seq<u32>, node: int) -> CandidateModel {
    CandidateModel { record: nodes[node].record, value: values[node] }
}

/// A search that comes back with fewer than `top_k` candidates has missed nothing: each record
/// that passes the filter is among them, if a walk on the base layer leads to it from where the
/// search enters.
pub proof fn law_short_results_miss_nothing(
    sidecar: SidecarModel,
    query_len: nat,
    values: Seq<u32>,
    top_k: nat,
    filter: Option<Seq<bool>>,
    walk: Seq<usize>,
)
    requires
        searchable(sidecar),
        sidecar.nodes.len() == values.len(),
        is_walk(sidecar.nodes, 0, None, walk),
        base_entry(sidecar, query_len, values) == Ok::<int, nat>(walk[0] as int),
        passes(filter, walk.last() as int),
    ensures
        hnsw_search(sidecar, query_len, values, top_k, filter) matches Ok(found) ==> (
        found.candidates.len() < top_k ==> found.candidates.contains(
            candidate_for(sidecar.nodes, values, walk.last() as int),
        )),
{
    let table = node_values(sidecar.nodes, query_len, values);
    match hnsw_search(sidecar, query_len, values, top_k, filter) {
        Err(_) => {},
        Ok(found) => {
            if found.candidates.len() < top_k {
                let ef = larger(sidecar.params.ef_search as nat, top_k);
                lemma_widening_misses_nothing(
                    sidecar.nodes,
                    sidecar.metric,
                    table,
                    ef,
                    top_k,
                    filter,
                    walk,
                );
                lemma_widening_search(
                    sidecar.nodes,
                    sidecar.metric,
                    table,
                    walk[0] as int,
                    ef,
                    top_k,
                    filter,
                );
                let kept = widening_search(
                    sidecar.nodes,
                    sidecar.metric,
                    table,
                    walk[0] as int,
                    ef,
                    top_k,
                    filter,
                )->Ok_0.0;
                let i = choose|i: int|
                    0 <= i < kept.len() && (#[trigger] kept[i]).index == walk.last();
                assert(table[kept[i].index as int] == Ok::<u32, nat>(kept[i].value));
                assert(found.candidates[i] == candidate_for(
                    sidecar.nodes,
                    values,
                    walk.last() as int,
                ));
            }
        },
    }
}

/// A graph with no more nodes than the breadth of the search is searched exactly, where no value
/// is a NaN: each record that passes the filter and that a walk on the base layer leads to from
/// where the search enters is among the candidates, or there are `top_k` candidates and it is
/// better than none of them.
pub proof fn law_small_graphs_are_searched_exactly(
    sidecar: SidecarModel,
    query_len: nat,
    values: Seq<u32>,
    top_k: nat,
    filter: Option<Seq<bool>>,
    walk: Seq<usize>,
)
    requires
        searchable(sidecar),
        sidecar.nodes.len() == values.len(),
        sidecar.nodes.len() <= larger(sidecar.params.ef_search as nat, top_k),
        forall|i: int| 0 <= i < values.len() ==> !is_nan(#[trigger] values[i]),
        is_walk(sidecar.nodes, 0, None, walk),
        base_entry(sidecar, query_len, values) == Ok::<int, nat>(walk[0] as int),
        passes(filter, walk.last() as int),
    ensures
        hnsw_search(sidecar, query_len, values, top_k, filter) matches Ok(found) ==> {
            ||| found.candidates.contains(
                candidate_for(sidecar.nodes, values, walk.last() as int),
            )
            ||| found.candidates.len() == top_k && forall|i: int|
                0 <= i < found.candidates.len() ==> !better(
                    sidecar.metric,
                    values[walk.last() as int],
                    (#[trigger] found.candidates[i]).value,
                )
        },
{
    let nodes = sidecar.nodes;
    let table = node_values(nodes, query_len, values);
    match hnsw_search(sidecar, query_len, values, top_k, filter) {
        Err(_) => {},
        Ok(found) => {
            if top_k > 0 {
                let ef = larger(sidecar.params.ef_search as nat, top_k);
                let goal = LayerGoal { metric: sidecar.metric, ef, exclude: None };
                let anywhere = |node: usize| true;
                assert(closed_under_links(nodes, 0, anywhere));
                law_layer_search(nodes, 0, goal, table, walk[0], anywhere);
                law_layer_search_misses_nothing(nodes, 0, goal, table, walk);
                let scored = layer_search(nodes, 0, goal, table, walk[0])->Ok_0.0;
                let kept = picked(scored, filter, top_k, scored.len()).0;
                let at = choose|at: int|
                    0 <= at < scored.len() && (#[trigger] scored[at]).index == walk.last();
                assert(table[scored[at].index as int] == Ok::<u32, nat>(scored[at].value));
                lemma_picked_first(sidecar.metric, scored, filter, top_k, scored.len(), at);
                if kept.contains(scored[at]) {
                    let i = choose|i: int| 0 <= i < kept.len() && kept[i] == scored[at];
                    assert(found.candidates[i] == candidate_for(
                        nodes,
                        values,
                        walk.last() as int,
                    ));
                } else {
                    let end = settled(nodes, 0, goal, table, walk[0])->Ok_0;
                    assert(all_numbers(end.results)) by {
                        lemma_sort_members(sidecar.metric, end.results);
                        assert forall|i: int| 0 <= i < end.results.len() implies !is_nan(
                            #[trigger] end.results[i].value,
                        ) by {
                            assert(end.results.contains(end.results[i]));
                            assert(scored.contains(end.results[i]));
                            let j = choose|j: int|
                                0 <= j < scored.len() && scored[j] == end.results[i];
                            assert(table[scored[j].index as int] == Ok::<u32, nat>(
                                scored[j].value,
                            ));
                            assert(!is_nan(values[scored[j].index as int]));
                        }
                    }
                    law_sort_is_best_first(sidecar.metric, end.results);
                    assert forall|i: int| 0 <= i < found.candidates.len() implies !better(
                        sidecar.metric,
                        values[walk.last() as int],
                        (#[trigger] found.candidates[i]).value,
                    ) by {
                        assert(is_among(scored, at, kept[i]));
                        let before = choose|before: int|
                            0 <= before < at && #[trigger] scored[before] == kept[i];
                        assert(!better(
                            sidecar.metric,
                            scored[at].value,
                            scored[before].value,
                        ));
                    }
                }
            }
        },
    }
}

} // verus!
