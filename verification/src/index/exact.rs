//! Exact search of small built sidecars.

use crate::index::builder::{
    dimension_fault, empty_sidecar, filled, first_dimensions, hnsw_build, lemma_filled,
    lemma_no_dimension_fault,
};
use crate::index::complete::{base_link, complete, lemma_filled_complete};
use crate::index::graph::{
    lemma_neighbors_in_range, links_in_range, neighbors_at, HnswBuildParams, NodeModel,
    RecordModel,
};
use crate::index::layer::{
    after_neighbor, after_neighbors, after_round, after_rounds, descended, is_promising,
    is_settled, layer_search, lemma_after_neighbors, lemma_without_candidate, next_candidate, node_values, settled, started,
    state_in_range, with_result, worst_of, LayerGoal, LayerState,
};
use crate::index::layer_facts::{closed_under_links, law_layer_search};
use crate::index::reach::{
    candidate_for, holds, is_among, lemma_full_result_holds_all, lemma_picked_first,
    lemma_visited_stays,
};
use crate::index::score::{
    all_numbers, better, is_best_first, is_nan, law_sort_is_best_first, law_sort_keeps_nodes,
    lemma_sort_members, lemma_worst_position_in_range, sorted_best_first, swap_removed,
    worst_position, ScoredNode,
};
use crate::index::search::{
    base_search, candidates_of, entry_for_base, hnsw_search, larger, passes, picked, search_entry,
    wider, widening_search,
};
use crate::index::search_facts::{
    all_valued, law_descent_ends_at_a_peak, law_search_succeeds, lemma_picked_order,
    lemma_unfiltered, lemma_widening_search, no_nan, returnable,
};
use crate::index::validity::lemma_sound_links_in_range;
use crate::types::DistanceMetric;
use vstd::prelude::*;

verus! {

/// Where no value is a NaN, none of the first `count` nodes is worse than the worst.
proof fn lemma_worst_is_worst(metric: DistanceMetric, scored: Seq<ScoredNode>, count: nat)
    requires
        0 < count <= scored.len(),
        all_numbers(scored),
    ensures
        forall|i: int|
            0 <= i < count ==> !better(
                metric,
                scored[worst_position(metric, scored, count)].value,
                (#[trigger] scored[i]).value,
            ),
    decreases count,
{
    if count > 1 {
        let earlier = (count - 1) as nat;
        lemma_worst_is_worst(metric, scored, earlier);
        lemma_worst_position_in_range(metric, scored, earlier);
        let before = worst_position(metric, scored, earlier);
        assert(!is_nan(scored[before].value));
        assert(!is_nan(scored[count - 1].value));
        assert forall|i: int| 0 <= i < count implies !better(
            metric,
            scored[worst_position(metric, scored, count)].value,
            (#[trigger] scored[i]).value,
        ) by {
            assert(!is_nan(scored[i].value));
            if i < earlier {
                assert(!better(metric, scored[before].value, scored[i].value));
            }
        }
    }
}

/// Whether a value improves on none of some nodes.
pub open spec fn improves_none(
    metric: DistanceMetric,
    value: u32,
    scored: Seq<ScoredNode>,
) -> bool {
    forall|i: int| 0 <= i < scored.len() ==> !better(metric, value, (#[trigger] scored[i]).value)
}

/// Whether a node is among the results, or the results are full and it improves on none
/// of them.
pub open spec fn accounted(
    goal: LayerGoal,
    values: Seq<Result<u32, nat>>,
    results: Seq<ScoredNode>,
    node: usize,
) -> bool {
    ||| holds(results, node)
    ||| results.len() >= goal.ef && improves_none(
        goal.metric,
        values[node as int]->Ok_0,
        results,
    )
}

/// Whether a search has kept the best of the nodes that it looked at.
pub open spec fn keeps_best(
    goal: LayerGoal,
    values: Seq<Result<u32, nat>>,
    state: LayerState,
) -> bool {
    &&& state.results.len() > 0
    &&& forall|i: int|
        0 <= i < state.results.len() ==> (#[trigger] state.results[i]).index < values.len()
            && values[state.results[i].index as int] == Ok::<u32, nat>(state.results[i].value)
    &&& forall|node: usize| #[trigger]
        state.visited.contains(node) ==> node < values.len() && accounted(
            goal,
            values,
            state.results,
            node,
        )
}

proof fn lemma_numbers(values: Seq<Result<u32, nat>>, scored: Seq<ScoredNode>)
    requires
        no_nan(values),
        forall|i: int|
            0 <= i < scored.len() ==> (#[trigger] scored[i]).index < values.len()
                && values[scored[i].index as int] == Ok::<u32, nat>(scored[i].value),
    ensures
        all_numbers(scored),
{
    assert forall|i: int| 0 <= i < scored.len() implies !is_nan(#[trigger] scored[i].value) by {
        assert(scored[i].index < values.len());
        assert(values[scored[i].index as int] is Ok);
    }
}

/// Adding a node to full results drops the worst, which improves on none of the others.
proof fn lemma_dropped_worst(
    goal: LayerGoal,
    values: Seq<Result<u32, nat>>,
    results: Seq<ScoredNode>,
    added: ScoredNode,
    node: usize,
)
    requires
        no_nan(values),
        all_numbers(results.push(added)),
        results.len() > 0,
        results.len() + 1 > goal.ef,
        better(goal.metric, added.value, worst_of(goal.metric, results).value),
        node < values.len(),
        values[node as int] is Ok,
        forall|i: int|
            0 <= i < results.push(added).len() ==> values[(#[trigger] results.push(
                added,
            )[i]).index as int] == Ok::<u32, nat>(results.push(added)[i].value),
        accounted(goal, values, results, node) || node == added.index,
    ensures
        accounted(goal, values, with_result(goal, results, added), node),
{
    let longer = results.push(added);
    let worst = worst_position(goal.metric, longer, longer.len());
    let next = with_result(goal, results, added);
    lemma_worst_position_in_range(goal.metric, longer, longer.len());
    lemma_worst_is_worst(goal.metric, longer, longer.len());
    assert(next == swap_removed(longer, worst));
    assert(next.len() == results.len());
    assert forall|i: int| 0 <= i < next.len() implies exists|j: int|
        0 <= j < longer.len() && j != worst && #[trigger] longer[j] == #[trigger] next[i] by {
        let j = if i == worst {
            longer.len() - 1
        } else {
            i
        };
        assert(longer[j] == next[i]);
    }
    if holds(longer, node) {
        let j = choose|j: int| 0 <= j < longer.len() && (#[trigger] longer[j]).index == node;
        if j == worst {
            assert forall|i: int| 0 <= i < next.len() implies !better(
                goal.metric,
                values[node as int]->Ok_0,
                (#[trigger] next[i]).value,
            ) by {
                let k = choose|k: int|
                    0 <= k < longer.len() && k != worst && #[trigger] longer[k] == next[i];
                assert(!better(goal.metric, longer[worst].value, longer[k].value));
            }
        } else {
            let at = if j == longer.len() - 1 {
                worst
            } else {
                j
            };
            assert(next[at].index == node);
        }
    } else {
        assert(node != added.index) by {
            assert(longer[results.len() as int].index == added.index);
        }
        assert(!holds(results, node)) by {
            if holds(results, node) {
                let i = choose|i: int|
                    0 <= i < results.len() && (#[trigger] results[i]).index == node;
                assert(longer[i].index == node);
            }
        }
        let value = values[node as int]->Ok_0;
        lemma_worst_position_in_range(goal.metric, results, results.len());
        let last = worst_position(goal.metric, results, results.len());
        assert(!better(goal.metric, value, results[last].value));
        assert(!is_nan(longer[last].value));
        assert(!is_nan(longer[results.len() as int].value));
        assert(!is_nan(value));
        assert forall|i: int| 0 <= i < next.len() implies !better(
            goal.metric,
            value,
            (#[trigger] next[i]).value,
        ) by {
            let k = choose|k: int|
                0 <= k < longer.len() && k != worst && #[trigger] longer[k] == next[i];
            if k < results.len() {
                assert(results[k] == next[i]);
            }
        }
    }
}

proof fn lemma_keeps_best_neighbor(
    goal: LayerGoal,
    values: Seq<Result<u32, nat>>,
    state: LayerState,
    neighbor: usize,
)
    requires
        all_valued(values),
        no_nan(values),
        neighbor < values.len(),
        goal.exclude is None,
        keeps_best(goal, values, state),
    ensures
        after_neighbor(goal, values, state, neighbor) matches Ok(next) && keeps_best(
            goal,
            values,
            next,
        ) && next.visited.contains(neighbor),
{
    assert(values[neighbor as int] is Ok);
    if !state.visited.contains(neighbor) {
        let value = values[neighbor as int]->Ok_0;
        let added = ScoredNode { index: neighbor, value };
        let next = after_neighbor(goal, values, state, neighbor)->Ok_0;
        let results = state.results;
        let longer = results.push(added);
        lemma_numbers(values, results);
        lemma_numbers(values, longer);
        assert(longer[results.len() as int] == added);
        lemma_worst_position_in_range(goal.metric, longer, longer.len());
        lemma_worst_position_in_range(goal.metric, results, results.len());
        if is_promising(goal, results, value) {
            if longer.len() > goal.ef {
                let worst = worst_position(goal.metric, longer, longer.len());
                assert(next.results == swap_removed(longer, worst));
                assert forall|i: int| 0 <= i < next.results.len() implies (
                #[trigger] next.results[i]).index < values.len()
                    && values[next.results[i].index as int] == Ok::<u32, nat>(
                    next.results[i].value,
                ) by {
                    let j = if i == worst {
                        longer.len() - 1
                    } else {
                        i
                    };
                    assert(longer[j] == next.results[i]);
                    if j < results.len() {
                        assert(results[j] == longer[j]);
                    }
                }
                assert forall|i: int| 0 <= i < longer.len() implies values[(
                #[trigger] longer[i]).index as int] == Ok::<u32, nat>(longer[i].value) by {
                    if i < results.len() {
                        assert(results[i] == longer[i]);
                    }
                }
                assert forall|node: usize| #[trigger]
                    next.visited.contains(node) implies node < values.len() && accounted(
                    goal,
                    values,
                    next.results,
                    node,
                ) by {
                    if node != neighbor {
                        assert(state.visited.contains(node));
                    }
                    assert(values[node as int] is Ok);
                    lemma_dropped_worst(goal, values, results, added, node);
                }
            } else {
                assert(next.results == longer);
                assert forall|node: usize| #[trigger]
                    next.visited.contains(node) implies node < values.len() && accounted(
                    goal,
                    values,
                    next.results,
                    node,
                ) by {
                    if node != neighbor {
                        assert(state.visited.contains(node));
                        let i = choose|i: int|
                            0 <= i < results.len() && (#[trigger] results[i]).index == node;
                        assert(longer[i].index == node);
                    }
                }
            }
        } else {
            lemma_worst_is_worst(goal.metric, results, results.len());
            let worst = worst_position(goal.metric, results, results.len());
            assert(!is_nan(results[worst].value));
            assert(!is_nan(value));
            assert(improves_none(goal.metric, value, results)) by {
                assert forall|i: int| 0 <= i < results.len() implies !better(
                    goal.metric,
                    value,
                    (#[trigger] results[i]).value,
                ) by {
                    assert(!is_nan(results[i].value));
                    assert(!better(goal.metric, results[worst].value, results[i].value));
                }
            }
        }
    }
}

proof fn lemma_keeps_best_neighbors(
    goal: LayerGoal,
    values: Seq<Result<u32, nat>>,
    state: LayerState,
    neighbors: Seq<u32>,
    count: nat,
)
    requires
        all_valued(values),
        no_nan(values),
        forall|k: int| 0 <= k < neighbors.len() ==> #[trigger] neighbors[k] < values.len(),
        count <= neighbors.len(),
        goal.exclude is None,
        keeps_best(goal, values, state),
    ensures
        after_neighbors(goal, values, state, neighbors, count) matches Ok(next) && keeps_best(
            goal,
            values,
            next,
        ) && (forall|k: int|
            0 <= k < count ==> next.visited.contains(#[trigger] neighbors[k] as usize)),
    decreases count,
{
    if count > 0 {
        lemma_keeps_best_neighbors(goal, values, state, neighbors, (count - 1) as nat);
        let before = after_neighbors(goal, values, state, neighbors, (count - 1) as nat)->Ok_0;
        assert(neighbors[count - 1] < values.len());
        lemma_keeps_best_neighbor(goal, values, before, neighbors[count - 1] as usize);
        let next = after_neighbors(goal, values, state, neighbors, count)->Ok_0;
        assert forall|k: int| 0 <= k < count implies next.visited.contains(
            #[trigger] neighbors[k] as usize,
        ) by {
            if k < count - 1 {
                assert(before.visited.contains(neighbors[k] as usize));
            }
        }
    }
}

/// Looking at neighbors that have been looked at changes nothing.
proof fn lemma_known_neighbors(
    goal: LayerGoal,
    values: Seq<Result<u32, nat>>,
    state: LayerState,
    neighbors: Seq<u32>,
    count: nat,
)
    requires
        count <= neighbors.len(),
        forall|k: int|
            0 <= k < neighbors.len() ==> state.visited.contains(#[trigger] neighbors[k] as usize),
    ensures
        after_neighbors(goal, values, state, neighbors, count) == Ok::<LayerState, nat>(state),
    decreases count,
{
    if count > 0 {
        lemma_known_neighbors(goal, values, state, neighbors, (count - 1) as nat);
        assert(state.visited.contains(neighbors[count - 1] as usize));
    }
}

/// Once every node has been looked at, the results stay.
proof fn lemma_idle_rounds(
    nodes: Seq<NodeModel>,
    layer: nat,
    goal: LayerGoal,
    values: Seq<Result<u32, nat>>,
    state: LayerState,
    rounds: nat,
)
    requires
        links_in_range(nodes),
        state_in_range(state, nodes.len()),
        forall|node: usize| node < nodes.len() ==> #[trigger] state.visited.contains(node),
    ensures
        after_rounds(nodes, layer, goal, values, state, rounds) matches Ok(end) && end.results
            == state.results,
    decreases rounds,
{
    if rounds > 0 && !is_settled(goal, state) {
        lemma_without_candidate(goal, state, nodes.len());
        let position = next_candidate(goal, state);
        let rest = LayerState { candidates: swap_removed(state.candidates, position), ..state };
        let chosen = state.candidates[position].index;
        let neighbors = neighbors_at(nodes, chosen as int, layer);
        lemma_neighbors_in_range(nodes, chosen as int, layer);
        assert forall|k: int| 0 <= k < neighbors.len() implies rest.visited.contains(
            #[trigger] neighbors[k] as usize,
        ) by {
            assert(neighbors[k] < nodes.len());
        }
        lemma_known_neighbors(goal, values, rest, neighbors, neighbors.len());
        lemma_idle_rounds(nodes, layer, goal, values, rest, (rounds - 1) as nat);
    }
}

/// A search of a complete base layer accounts for every node.
proof fn lemma_complete_search(
    nodes: Seq<NodeModel>,
    goal: LayerGoal,
    values: Seq<Result<u32, nat>>,
    entry: usize,
)
    requires
        links_in_range(nodes),
        nodes.len() == values.len() <= 0x1_0000_0000,
        all_valued(values),
        no_nan(values),
        complete(nodes, nodes.len()),
        forall|i: int| 0 <= i < nodes.len() ==> (#[trigger] nodes[i]).neighbors.len() > 0,
        entry < nodes.len(),
        goal.ef >= 2,
        goal.exclude is None,
    ensures
        layer_search(nodes, 0, goal, values, entry) matches Ok((scored, visited)) && {
            &&& is_best_first(goal.metric, scored)
            &&& forall|node: usize|
                node < nodes.len() ==> #[trigger] accounted(goal, values, scored, node)
        },
{
    assert(values[entry as int] is Ok);
    let start = started(goal, values, entry)->Ok_0;
    assert(start.results[0].index == entry);
    assert(start.visited.contains(entry));
    assert(keeps_best(goal, values, start)) by {
        assert forall|node: usize| #[trigger] start.visited.contains(node) implies node
            < values.len() && accounted(goal, values, start.results, node) by {
            assert(node == entry);
        }
    }
    assert(state_in_range(start, nodes.len()));
    lemma_without_candidate(goal, start, nodes.len());
    let position = next_candidate(goal, start);
    assert(position == 0);
    let rest = LayerState { candidates: swap_removed(start.candidates, position), ..start };
    let neighbors = neighbors_at(nodes, entry as int, 0);
    lemma_neighbors_in_range(nodes, entry as int, 0);
    lemma_keeps_best_neighbors(goal, values, rest, neighbors, neighbors.len());
    lemma_visited_stays(goal, values, rest, neighbors, neighbors.len());
    lemma_after_neighbors(goal, values, rest, neighbors, neighbors.len());
    let next = after_round(nodes, 0, goal, values, start)->Ok_0;
    assert(nodes[entry as int].neighbors.len() > 0);
    assert forall|node: usize| node < nodes.len() implies #[trigger] next.visited.contains(
        node,
    ) by {
        if node != entry {
            assert(base_link(nodes, entry as int, node as int));
            let k = choose|k: int|
                0 <= k < nodes[entry as int].neighbors[0].len()
                    && nodes[entry as int].neighbors[0][k] == node as u32;
            assert(neighbors[k] as usize == node);
        } else {
            assert(rest.visited.contains(node));
        }
    }
    assert(!is_settled(goal, start));
    lemma_idle_rounds(nodes, 0, goal, values, next, (nodes.len() - 1) as nat);
    let end = settled(nodes, 0, goal, values, entry)->Ok_0;
    assert(end.results == next.results);
    lemma_numbers(values, end.results);
    law_sort_is_best_first(goal.metric, end.results);
    law_sort_keeps_nodes(goal.metric, end.results);
    lemma_sort_members(goal.metric, end.results);
    let scored = sorted_best_first(goal.metric, end.results);
    assert forall|node: usize| node < nodes.len() implies #[trigger] accounted(
        goal,
        values,
        scored,
        node,
    ) by {
        assert(next.visited.contains(node));
        assert(accounted(goal, values, end.results, node));
        if holds(end.results, node) {
            let i = choose|i: int|
                0 <= i < end.results.len() && (#[trigger] end.results[i]).index == node;
            assert(end.results.contains(end.results[i]));
            assert(scored.contains(end.results[i]));
            let j = choose|j: int| 0 <= j < scored.len() && scored[j] == end.results[i];
            assert(scored[j].index == node);
        } else {
            assert forall|i: int| 0 <= i < scored.len() implies !better(
                goal.metric,
                values[node as int]->Ok_0,
                (#[trigger] scored[i]).value,
            ) by {
                assert(scored.contains(scored[i]));
                assert(end.results.contains(scored[i]));
                let j = choose|j: int| 0 <= j < end.results.len() && end.results[j] == scored[i];
                assert(end.results[j].value == scored[i].value);
            }
        }
    }
}

/// Whether what was kept leaves out no better node that passes the filter.
pub open spec fn keeps_best_passing(
    metric: DistanceMetric,
    values: Seq<Result<u32, nat>>,
    filter: Option<Seq<bool>>,
    top_k: nat,
    kept: Seq<ScoredNode>,
    node: usize,
) -> bool {
    passes(filter, node as int) ==> {
        ||| holds(kept, node)
        ||| kept.len() == top_k && improves_none(metric, values[node as int]->Ok_0, kept)
    }
}

proof fn lemma_complete_widening(
    nodes: Seq<NodeModel>,
    metric: DistanceMetric,
    values: Seq<Result<u32, nat>>,
    entry: usize,
    ef: nat,
    top_k: nat,
    filter: Option<Seq<bool>>,
)
    requires
        links_in_range(nodes),
        nodes.len() == values.len() <= 0x1_0000_0000,
        all_valued(values),
        no_nan(values),
        complete(nodes, nodes.len()),
        forall|i: int| 0 <= i < nodes.len() ==> (#[trigger] nodes[i]).neighbors.len() > 0,
        entry < nodes.len(),
        ef >= top_k > 0,
        ef >= 2,
    ensures
        widening_search(nodes, metric, values, entry as int, ef, top_k, filter) matches Ok(
            (kept, stats),
        ) ==> forall|node: usize|
            node < nodes.len() ==> #[trigger] keeps_best_passing(
                metric,
                values,
                filter,
                top_k,
                kept,
                node,
            ),
    decreases nodes.len() - ef,
{
    let goal = LayerGoal { metric, ef, exclude: None };
    match base_search(nodes, metric, values, entry as int, ef, top_k, filter) {
        Err(_) => {},
        Ok((kept, stats)) => {
            if !(filter is None || kept.len() == top_k || ef >= nodes.len() || ef == 0) {
                let next = wider(ef, nodes.len());
                lemma_complete_widening(nodes, metric, values, entry, next, top_k, filter);
            } else {
                let anywhere = |node: usize| true;
                assert(closed_under_links(nodes, 0, anywhere));
                law_layer_search(nodes, 0, goal, values, entry, anywhere);
                let scored = layer_search(nodes, 0, goal, values, entry)->Ok_0.0;
                lemma_complete_search(nodes, goal, values, entry);
                lemma_widening_search(nodes, metric, values, entry as int, ef, top_k, filter);
                lemma_picked_order(metric, scored, filter, top_k, scored.len());
                assert forall|node: usize|
                    node < nodes.len() implies #[trigger] keeps_best_passing(
                    metric,
                    values,
                    filter,
                    top_k,
                    kept,
                    node,
                ) by {
                    if passes(filter, node as int) {
                        assert(accounted(goal, values, scored, node));
                        if !holds(scored, node) && kept.len() < top_k {
                            if filter is None {
                                lemma_unfiltered(scored, top_k, scored.len());
                            }
                            lemma_full_result_holds_all(scored, nodes.len(), node);
                        }
                        if holds(scored, node) {
                            lemma_kept_or_enough(nodes, metric, values, scored, top_k, filter, node);
                        } else {
                            assert forall|i: int| 0 <= i < kept.len() implies !better(
                                metric,
                                values[node as int]->Ok_0,
                                (#[trigger] kept[i]).value,
                            ) by {
                                let a = choose|a: int|
                                    0 <= a < scored.len() && #[trigger] scored[a] == kept[i];
                                assert(!better(
                                    metric,
                                    values[node as int]->Ok_0,
                                    scored[a].value,
                                ));
                            }
                        }
                    }
                }
            }
        },
    }
}

proof fn lemma_kept_or_enough(
    nodes: Seq<NodeModel>,
    metric: DistanceMetric,
    values: Seq<Result<u32, nat>>,
    scored: Seq<ScoredNode>,
    top_k: nat,
    filter: Option<Seq<bool>>,
    node: usize,
)
    requires
        is_best_first(metric, scored),
        forall|i: int|
            0 <= i < scored.len() ==> values[(#[trigger] scored[i]).index as int] == Ok::<u32, nat>(
                scored[i].value,
            ),
        holds(scored, node),
        passes(filter, node as int),
    ensures
        keeps_best_passing(
            metric,
            values,
            filter,
            top_k,
            picked(scored, filter, top_k, scored.len()).0,
            node,
        ),
{
    let kept = picked(scored, filter, top_k, scored.len()).0;
    let at = choose|at: int| 0 <= at < scored.len() && (#[trigger] scored[at]).index == node;
    lemma_picked_first(metric, scored, filter, top_k, scored.len(), at);
    if kept.contains(scored[at]) {
        let i = choose|i: int| 0 <= i < kept.len() && kept[i] == scored[at];
        assert(kept[i].index == node);
    } else {
        assert forall|i: int| 0 <= i < kept.len() implies !better(
            metric,
            values[node as int]->Ok_0,
            (#[trigger] kept[i]).value,
        ) by {
            assert(is_among(scored, at, kept[i]));
            let before = choose|before: int|
                0 <= before < at && #[trigger] scored[before] == kept[i];
            assert(!better(metric, scored[at].value, scored[before].value));
        }
    }
}

proof fn lemma_entry_in_range(
    nodes: Seq<NodeModel>,
    metric: DistanceMetric,
    values: Seq<Result<u32, nat>>,
    layer: nat,
    entry: int,
)
    requires
        links_in_range(nodes),
        nodes.len() == values.len(),
        0 <= entry < nodes.len(),
    ensures
        entry_for_base(nodes, metric, values, layer, entry) matches Ok(end) ==> 0 <= end
            < nodes.len(),
    decreases layer,
{
    if layer > 0 {
        law_descent_ends_at_a_peak(nodes, metric, values, layer, entry);
        if let Ok(next) = descended(nodes, metric, values, layer, entry) {
            lemma_entry_in_range(nodes, metric, values, (layer - 1) as nat, next);
        }
    }
}

/// The nodes among the first `count` that pass a filter.
pub open spec fn passing(filter: Option<Seq<bool>>, count: nat) -> Set<int> {
    Set::new(|node: int| 0 <= node < count && passes(filter, node))
}

/// What was kept is as many nodes as pass the filter, or as were asked for.
proof fn lemma_kept_count(
    metric: DistanceMetric,
    values: Seq<Result<u32, nat>>,
    filter: Option<Seq<bool>>,
    top_k: nat,
    kept: Seq<ScoredNode>,
)
    requires
        values.len() <= usize::MAX,
        returnable(metric, values, filter, kept),
        kept.len() <= top_k,
        forall|node: usize|
            node < values.len() ==> #[trigger] keeps_best_passing(
                metric,
                values,
                filter,
                top_k,
                kept,
                node,
            ),
    ensures
        kept.len() == (if passing(filter, values.len()).len() < top_k {
            passing(filter, values.len()).len()
        } else {
            top_k
        }),
{
    let all = passing(filter, values.len());
    let indices = kept.map_values(|one: ScoredNode| one.index as int);
    assert(indices.no_duplicates()) by {
        assert forall|i: int, j: int|
            0 <= i < indices.len() && 0 <= j < indices.len() && i != j implies indices[i]
            != indices[j] by {
            if i < j {
                assert(kept[i].index != kept[j].index);
            } else {
                assert(kept[j].index != kept[i].index);
            }
        }
    }
    indices.unique_seq_to_set();
    let found = indices.to_set();
    let range = vstd::set_lib::set_int_range(0, values.len() as int);
    vstd::set_lib::lemma_int_range(0, values.len() as int);
    assert(all.subset_of(range));
    vstd::set_lib::lemma_len_subset(all, range);
    assert(found.subset_of(all)) by {
        assert forall|value: int| found.contains(value) implies all.contains(value) by {
            let i = choose|i: int| 0 <= i < indices.len() && indices[i] == value;
            assert(kept[i].index < values.len());
        }
    }
    vstd::set_lib::lemma_len_subset(found, all);
    if kept.len() < top_k {
        assert(all.subset_of(found)) by {
            assert forall|value: int| all.contains(value) implies found.contains(value) by {
                assert(keeps_best_passing(metric, values, filter, top_k, kept, value as usize));
                let i = choose|i: int|
                    0 <= i < kept.len() && (#[trigger] kept[i]).index == value as usize;
                assert(indices[i] == value);
            }
        }
        vstd::set_lib::lemma_len_subset(all, found);
    }
}

/// A sidecar built from no more entries than a node can have neighbors, and one, is
/// searched exactly, where the breadth of the search is at least two and no value is a NaN:
/// there are as many candidates as entries pass the filter, or as were asked for, and no
/// entry that passes and is left out is better than any of them.
pub proof fn law_small_indexes_are_searched_exactly(
    segment_id: Seq<char>,
    metric: DistanceMetric,
    params: HnswBuildParams,
    entries: Seq<RecordModel>,
    hashes: Seq<u64>,
    rows: Seq<Seq<u32>>,
    values: Seq<u32>,
    top_k: nat,
    filter: Option<Seq<bool>>,
)
    requires
        entries.len() <= params.max_neighbors + 1,
        entries.len() <= 0x1_0000_0000,
        entries.len() <= usize::MAX,
        first_dimensions(entries) <= usize::MAX,
        top_k > 0,
        larger(params.ef_search as nat, top_k) >= 2,
        values.len() == entries.len(),
        forall|i: int| 0 <= i < values.len() ==> !is_nan(#[trigger] values[i]),
    ensures
        hnsw_build(segment_id, metric, params, entries, hashes, rows) matches Ok(sidecar) ==> {
            &&& hnsw_search(sidecar, first_dimensions(entries), values, top_k, filter) matches Ok(
                found,
            )
            &&& found.candidates.len() == (if passing(filter, entries.len()).len() < top_k {
                passing(filter, entries.len()).len()
            } else {
                top_k
            })
            &&& forall|node: int|
                0 <= node < entries.len() && #[trigger] passes(filter, node) ==> {
                    ||| found.candidates.contains(candidate_for(sidecar.nodes, values, node))
                    ||| forall|i: int|
                        0 <= i < found.candidates.len() ==> !better(
                            metric,
                            values[node],
                            (#[trigger] found.candidates[i]).value,
                        )
                }
        },
{
    let dimensions = first_dimensions(entries);
    if dimension_fault(entries, dimensions, entries.len()) is None {
        let empty = empty_sidecar(segment_id, metric, params, dimensions);
        lemma_no_dimension_fault(entries, dimensions, entries.len());
        lemma_filled(empty, entries, hashes, rows, entries.len());
        lemma_filled_complete(empty, entries, hashes, rows, entries.len());
        let sidecar = filled(empty, entries, hashes, rows, entries.len());
        let nodes = sidecar.nodes;
        lemma_sound_links_in_range(nodes);
        law_search_succeeds(sidecar, values, top_k, filter);
        let found = hnsw_search(sidecar, dimensions, values, top_k, filter)->Ok_0;
        if entries.len() == 0 {
            assert(passing(filter, 0) =~= Set::empty());
        } else {
            let table = node_values(nodes, dimensions, values);
            assert forall|i: int| 0 <= i < table.len() implies #[trigger] table[i] == Ok::<
                u32,
                nat,
            >(values[i]) by {
                assert(nodes[i].record.vector.len() == dimensions);
            }
            assert(all_valued(table));
            assert(no_nan(table)) by {
                assert forall|i: int|
                    0 <= i < table.len() && (#[trigger] table[i]) is Ok implies !is_nan(
                    table[i]->Ok_0,
                ) by {
                    assert(!is_nan(values[i]));
                }
            }
            let ef = larger(params.ef_search as nat, top_k);
            lemma_entry_in_range(
                nodes,
                metric,
                table,
                sidecar.max_level as nat,
                search_entry(sidecar),
            );
            let entry = entry_for_base(
                nodes,
                metric,
                table,
                sidecar.max_level as nat,
                search_entry(sidecar),
            )->Ok_0;
            lemma_complete_widening(nodes, metric, table, entry as usize, ef, top_k, filter);
            lemma_widening_search(nodes, metric, table, entry, ef, top_k, filter);
            let kept = widening_search(nodes, metric, table, entry, ef, top_k, filter)->Ok_0.0;
            assert(found.candidates == candidates_of(nodes, kept));
            lemma_kept_count(metric, table, filter, top_k, kept);
            assert forall|node: int|
                0 <= node < entries.len() && #[trigger] passes(filter, node) implies {
                ||| found.candidates.contains(candidate_for(nodes, values, node))
                ||| forall|i: int|
                    0 <= i < found.candidates.len() ==> !better(
                        metric,
                        values[node],
                        (#[trigger] found.candidates[i]).value,
                    )
            } by {
                assert(keeps_best_passing(metric, table, filter, top_k, kept, node as usize));
                assert(table[node] == Ok::<u32, nat>(values[node]));
                if holds(kept, node as usize) {
                    let i = choose|i: int|
                        0 <= i < kept.len() && (#[trigger] kept[i]).index == node as usize;
                    assert(table[kept[i].index as int] == Ok::<u32, nat>(kept[i].value));
                    assert(found.candidates[i] == candidate_for(nodes, values, node));
                } else {
                    assert forall|i: int| 0 <= i < found.candidates.len() implies !better(
                        metric,
                        values[node],
                        (#[trigger] found.candidates[i]).value,
                    ) by {
                        assert(!better(metric, table[node]->Ok_0, kept[i].value));
                    }
                }
            }
        }
    }
}

} // verus!
