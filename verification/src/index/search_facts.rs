//! What a search of a whole graph guarantees.

use crate::index::graph::{
    lemma_neighbors_in_range, links_in_range, neighbors_at, NodeModel, SidecarModel,
};
use crate::index::layer::{
    after_neighbors, after_round, after_rounds, all_below, descended, greedy_step, is_settled,
    layer_search, lemma_greedy_step, next_candidate, node_values, room_above, settled, started,
    LayerGoal, LayerState,
};
use crate::index::layer_facts::{
    closed_under_links, distinct_nodes, law_layer_search, lemma_sound_after_round, state_sound,
};
use crate::index::score::{
    all_numbers, better, is_best_first, is_nan, law_sort_is_best_first, lemma_sort_members,
    ScoredNode,
};
use crate::index::search::{
    base_search, entry_for_base, hnsw_search, larger, lemma_picked_members, passes, picked,
    search_entry, searchable, wider, widening_search, CandidateModel, StatsModel,
};
use crate::types::DistanceMetric;
use vstd::prelude::*;

verus! {

/// Whether every node has a metric value.
pub open spec fn all_valued(values: Seq<Result<u32, nat>>) -> bool {
    forall|i: int| 0 <= i < values.len() ==> (#[trigger] values[i]) is Ok
}

/// Whether no metric value is a NaN.
pub open spec fn no_nan(values: Seq<Result<u32, nat>>) -> bool {
    forall|i: int|
        0 <= i < values.len() && (#[trigger] values[i]) is Ok ==> !is_nan(values[i]->Ok_0)
}

proof fn lemma_step_succeeds(
    metric: DistanceMetric,
    values: Seq<Result<u32, nat>>,
    neighbors: Seq<u32>,
    count: nat,
    start: int,
)
    requires
        all_valued(values),
        count <= neighbors.len(),
        all_below(neighbors, values.len()),
    ensures
        greedy_step(metric, values, neighbors, count, start) is Ok,
    decreases count,
{
    if count > 0 {
        lemma_step_succeeds(metric, values, neighbors, (count - 1) as nat, start);
        assert(neighbors[count - 1] < values.len());
        assert(values[neighbors[count - 1] as int] is Ok);
    }
}

/// Where every node has a value, a descent on a layer ends at a node, reached
/// from `start` by links of that layer.
pub proof fn lemma_descent_succeeds(
    nodes: Seq<NodeModel>,
    metric: DistanceMetric,
    values: Seq<Result<u32, nat>>,
    layer: nat,
    start: int,
    allowed: spec_fn(usize) -> bool,
)
    requires
        links_in_range(nodes),
        nodes.len() == values.len(),
        all_valued(values),
        closed_under_links(nodes, layer, allowed),
        0 <= start < nodes.len() <= usize::MAX,
        allowed(start as usize),
    ensures
        descended(nodes, metric, values, layer, start) matches Ok(end) && 0 <= end < nodes.len()
            && allowed(end as usize),
    decreases
            (match values[start] {
                Ok(value) => room_above(metric, value),
                Err(_) => 0,
            }),
{
    let neighbors = neighbors_at(nodes, start, layer);
    lemma_neighbors_in_range(nodes, start, layer);
    assert(values[start] is Ok);
    lemma_step_succeeds(metric, values, neighbors, neighbors.len(), start);
    lemma_greedy_step(metric, values, neighbors, neighbors.len(), start);
    let next = greedy_step(metric, values, neighbors, neighbors.len(), start)->Ok_0;
    if next != start {
        let k = choose|k: int| 0 <= k < neighbors.len() && neighbors[k] == next as u32;
        assert(neighbors.contains(next as u32));
        assert(neighbors_at(nodes, (start as usize) as int, layer)[k] == next as u32);
        assert(neighbors[k] < nodes.len());
        assert(next as u32 == next) by {
            lemma_step_is_neighbor(metric, values, neighbors, neighbors.len(), start);
        }
        lemma_descent_succeeds(nodes, metric, values, layer, next, allowed);
    }
}

proof fn lemma_step_is_neighbor(
    metric: DistanceMetric,
    values: Seq<Result<u32, nat>>,
    neighbors: Seq<u32>,
    count: nat,
    start: int,
)
    requires
        count <= neighbors.len(),
    ensures
        greedy_step(metric, values, neighbors, count, start) matches Ok(best) ==> best == start
            || exists|k: int| 0 <= k < count && #[trigger] neighbors[k] as int == best,
    decreases count,
{
    if count > 0 {
        lemma_step_is_neighbor(metric, values, neighbors, (count - 1) as nat, start);
        assert(neighbors[count - 1] as int == neighbors[count - 1] as int);
    }
}

proof fn lemma_step_that_stays(
    metric: DistanceMetric,
    values: Seq<Result<u32, nat>>,
    neighbors: Seq<u32>,
    count: nat,
    start: int,
)
    requires
        count <= neighbors.len(),
        all_below(neighbors, values.len()),
        0 <= start < values.len(),
        values[start] is Ok,
        greedy_step(metric, values, neighbors, count, start) == Ok::<int, nat>(start),
    ensures
        forall|k: int|
            0 <= k < count ==> !better(
                metric,
                values[#[trigger] neighbors[k] as int]->Ok_0,
                values[start]->Ok_0,
            ),
    decreases count,
{
    if count > 0 {
        lemma_greedy_step(metric, values, neighbors, (count - 1) as nat, start);
        lemma_step_that_stays(metric, values, neighbors, (count - 1) as nat, start);
    }
}

/// A descent on a layer ends at a node that none of its neighbors improves on, and that is the
/// node it started from or a better one.
pub proof fn law_descent_ends_at_a_peak(
    nodes: Seq<NodeModel>,
    metric: DistanceMetric,
    values: Seq<Result<u32, nat>>,
    layer: nat,
    start: int,
)
    requires
        links_in_range(nodes),
        nodes.len() == values.len(),
        0 <= start < nodes.len(),
    ensures
        descended(nodes, metric, values, layer, start) matches Ok(end) ==> {
            let neighbors = neighbors_at(nodes, end, layer);
            &&& 0 <= end < nodes.len()
            &&& values[end] is Ok
            &&& end == start || better(metric, values[end]->Ok_0, values[start]->Ok_0)
            &&& forall|k: int|
                0 <= k < neighbors.len() ==> !better(
                    metric,
                    values[#[trigger] neighbors[k] as int]->Ok_0,
                    values[end]->Ok_0,
                )
        },
    decreases
            (match values[start] {
                Ok(value) => room_above(metric, value),
                Err(_) => 0,
            }),
{
    if values[start] is Ok {
        let neighbors = neighbors_at(nodes, start, layer);
        lemma_neighbors_in_range(nodes, start, layer);
        match greedy_step(metric, values, neighbors, neighbors.len(), start) {
            Err(_) => {},
            Ok(next) => {
                lemma_greedy_step(metric, values, neighbors, neighbors.len(), start);
                if next == start {
                    lemma_step_that_stays(metric, values, neighbors, neighbors.len(), start);
                } else {
                    law_descent_ends_at_a_peak(nodes, metric, values, layer, next);
                }
            },
        }
    }
}

proof fn lemma_neighbors_succeed(
    goal: LayerGoal,
    values: Seq<Result<u32, nat>>,
    state: LayerState,
    neighbors: Seq<u32>,
    count: nat,
)
    requires
        all_valued(values),
        count <= neighbors.len(),
        all_below(neighbors, values.len()),
    ensures
        after_neighbors(goal, values, state, neighbors, count) is Ok,
    decreases count,
{
    if count > 0 {
        lemma_neighbors_succeed(goal, values, state, neighbors, (count - 1) as nat);
        assert(neighbors[count - 1] < values.len());
        assert(values[neighbors[count - 1] as int] is Ok);
    }
}

proof fn lemma_rounds_succeed(
    nodes: Seq<NodeModel>,
    layer: nat,
    goal: LayerGoal,
    values: Seq<Result<u32, nat>>,
    state: LayerState,
    rounds: nat,
)
    requires
        links_in_range(nodes),
        nodes.len() == values.len(),
        all_valued(values),
        state_sound(goal, values, |node: usize| true, state),
    ensures
        after_rounds(nodes, layer, goal, values, state, rounds) is Ok,
    decreases rounds,
{
    if rounds > 0 && !is_settled(goal, state) {
        let anywhere = |node: usize| true;
        let position = next_candidate(goal, state);
        crate::index::score::lemma_best_position_in_range(
            goal.metric,
            state.candidates,
            state.candidates.len(),
        );
        let chosen = state.candidates[position];
        assert(chosen.index < nodes.len());
        let neighbors = neighbors_at(nodes, chosen.index as int, layer);
        lemma_neighbors_in_range(nodes, chosen.index as int, layer);
        let rest = LayerState {
            candidates: crate::index::score::swap_removed(state.candidates, position),
            ..state
        };
        lemma_neighbors_succeed(goal, values, rest, neighbors, neighbors.len());
        assert(closed_under_links(nodes, layer, anywhere));
        lemma_sound_after_round(nodes, layer, goal, values, anywhere, state);
        lemma_rounds_succeed(
            nodes,
            layer,
            goal,
            values,
            after_round(nodes, layer, goal, values, state)->Ok_0,
            (rounds - 1) as nat,
        );
    }
}

/// Where every node has a value, a search on a layer succeeds.
pub proof fn lemma_layer_search_succeeds(
    nodes: Seq<NodeModel>,
    layer: nat,
    goal: LayerGoal,
    values: Seq<Result<u32, nat>>,
    entry: usize,
)
    requires
        links_in_range(nodes),
        nodes.len() == values.len(),
        all_valued(values),
    ensures
        layer_search(nodes, layer, goal, values, entry) is Ok,
{
    if entry < values.len() {
        assert(values[entry as int] is Ok);
    }
    let start = started(goal, values, entry)->Ok_0;
    assert(state_sound(goal, values, |node: usize| true, start));
    lemma_rounds_succeed(nodes, layer, goal, values, start, nodes.len());
}

proof fn lemma_entry_succeeds(
    nodes: Seq<NodeModel>,
    metric: DistanceMetric,
    values: Seq<Result<u32, nat>>,
    layer: nat,
    entry: int,
)
    requires
        links_in_range(nodes),
        nodes.len() == values.len() <= usize::MAX,
        all_valued(values),
        layer > 0 ==> 0 <= entry < nodes.len(),
    ensures
        entry_for_base(nodes, metric, values, layer, entry) is Ok,
    decreases layer,
{
    if layer > 0 {
        let anywhere = |node: usize| true;
        assert(closed_under_links(nodes, layer, anywhere));
        lemma_descent_succeeds(nodes, metric, values, layer, entry, anywhere);
        let next = descended(nodes, metric, values, layer, entry)->Ok_0;
        lemma_entry_succeeds(nodes, metric, values, (layer - 1) as nat, next);
    }
}

proof fn lemma_widening_succeeds(
    nodes: Seq<NodeModel>,
    metric: DistanceMetric,
    values: Seq<Result<u32, nat>>,
    entry: int,
    ef: nat,
    top_k: nat,
    filter: Option<Seq<bool>>,
)
    requires
        links_in_range(nodes),
        nodes.len() == values.len(),
        all_valued(values),
    ensures
        widening_search(nodes, metric, values, entry, ef, top_k, filter) is Ok,
    decreases nodes.len() - ef,
{
    lemma_layer_search_succeeds(
        nodes,
        0,
        LayerGoal { metric, ef, exclude: None },
        values,
        entry as usize,
    );
    let kept = base_search(nodes, metric, values, entry, ef, top_k, filter)->Ok_0.0;
    if !(filter is None || kept.len() == top_k || ef >= nodes.len() || ef == 0) {
        lemma_widening_succeeds(
            nodes,
            metric,
            values,
            entry,
            wider(ef, nodes.len()),
            top_k,
            filter,
        );
    }
}

/// A search succeeds on every graph whose vectors all have as many components
/// as the query.
pub proof fn law_search_succeeds(
    sidecar: SidecarModel,
    values: Seq<u32>,
    top_k: nat,
    filter: Option<Seq<bool>>,
)
    requires
        searchable(sidecar),
        sidecar.nodes.len() == values.len() <= usize::MAX,
        forall|i: int|
            0 <= i < sidecar.nodes.len() ==> (#[trigger] sidecar.nodes[i]).record.vector.len()
                == sidecar.dimensions,
    ensures
        hnsw_search(sidecar, sidecar.dimensions as nat, values, top_k, filter) is Ok,
{
    let table = node_values(sidecar.nodes, sidecar.dimensions as nat, values);
    assert(all_valued(table));
    if top_k > 0 && sidecar.nodes.len() > 0 {
        lemma_entry_succeeds(
            sidecar.nodes,
            sidecar.metric,
            table,
            sidecar.max_level as nat,
            search_entry(sidecar),
        );
        let entry = entry_for_base(
            sidecar.nodes,
            sidecar.metric,
            table,
            sidecar.max_level as nat,
            search_entry(sidecar),
        )->Ok_0;
        lemma_widening_succeeds(
            sidecar.nodes,
            sidecar.metric,
            table,
            entry,
            larger(sidecar.params.ef_search as nat, top_k),
            top_k,
            filter,
        );
    }
}

/// Whether nodes and accounting are those of a search that looked at all it
/// could reach, or found as much as was asked for.
pub open spec fn found_enough(kept: Seq<ScoredNode>, stats: StatsModel, top_k: nat) -> bool {
    &&& kept.len() <= top_k
    &&& kept.len() < top_k ==> {
        &&& stats.candidate_count == stats.visited_nodes
        &&& kept.len() + stats.filtered_out_count == stats.candidate_count
    }
}

/// Whether scored nodes are what a search may return.
pub open spec fn returnable(
    metric: DistanceMetric,
    values: Seq<Result<u32, nat>>,
    filter: Option<Seq<bool>>,
    kept: Seq<ScoredNode>,
) -> bool {
    &&& forall|i: int|
        0 <= i < kept.len() ==> {
            &&& (#[trigger] kept[i]).index < values.len()
            &&& values[kept[i].index as int] == Ok::<u32, nat>(kept[i].value)
            &&& passes(filter, kept[i].index as int)
        }
    &&& distinct_nodes(kept)
    &&& no_nan(values) ==> is_best_first(metric, kept)
}

pub proof fn lemma_picked_order(
    metric: DistanceMetric,
    scored: Seq<ScoredNode>,
    filter: Option<Seq<bool>>,
    top_k: nat,
    count: nat,
)
    requires
        count <= scored.len(),
    ensures
        ({
            let kept = picked(scored, filter, top_k, count).0;
            &&& kept.len() <= count
            &&& forall|i: int, j: int|
                0 <= i < j < kept.len() ==> exists|a: int, b: int|
                    0 <= a < b < count && #[trigger] scored[a] == #[trigger] kept[i]
                        && #[trigger] scored[b] == #[trigger] kept[j]
            &&& forall|i: int|
                0 <= i < kept.len() ==> exists|a: int|
                    0 <= a < count && #[trigger] scored[a] == #[trigger] kept[i]
        }),
    decreases count,
{
    if count > 0 {
        lemma_picked_order(metric, scored, filter, top_k, (count - 1) as nat);
        let before = picked(scored, filter, top_k, (count - 1) as nat).0;
        let kept = picked(scored, filter, top_k, count).0;
        assert forall|i: int| 0 <= i < kept.len() implies exists|a: int|
            0 <= a < count && #[trigger] scored[a] == #[trigger] kept[i] by {
            if i < before.len() {
                assert(kept[i] == before[i]);
                let a = choose|a: int| 0 <= a < count - 1 && scored[a] == before[i];
                assert(scored[a] == kept[i]);
            } else {
                assert(scored[count - 1] == kept[i]);
            }
        }
        assert forall|i: int, j: int| 0 <= i < j < kept.len() implies exists|a: int, b: int|
            0 <= a < b < count && #[trigger] scored[a] == #[trigger] kept[i]
                && #[trigger] scored[b] == #[trigger] kept[j] by {
            assert(kept[i] == before[i]);
            if j < before.len() {
                assert(kept[j] == before[j]);
                let (a, b) = choose|a: int, b: int|
                    0 <= a < b < count - 1 && scored[a] == before[i] && scored[b] == before[j];
                assert(scored[a] == kept[i] && scored[b] == kept[j]);
            } else {
                let a = choose|a: int| 0 <= a < count - 1 && scored[a] == before[i];
                assert(scored[a] == kept[i] && scored[count - 1] == kept[j]);
            }
        }
    }
}

proof fn lemma_base_search(
    nodes: Seq<NodeModel>,
    metric: DistanceMetric,
    values: Seq<Result<u32, nat>>,
    entry: int,
    ef: nat,
    top_k: nat,
    filter: Option<Seq<bool>>,
)
    requires
        links_in_range(nodes),
        nodes.len() == values.len(),
        ef >= top_k > 0,
    ensures
        base_search(nodes, metric, values, entry, ef, top_k, filter) matches Ok((kept, stats))
            ==> {
            &&& returnable(metric, values, filter, kept)
            &&& kept.len() <= top_k
            &&& filter is None || ef >= nodes.len() ==> found_enough(kept, stats, top_k)
        },
{
    let goal = LayerGoal { metric, ef, exclude: None };
    let anywhere = |node: usize| true;
    assert(closed_under_links(nodes, 0, anywhere));
    law_layer_search(nodes, 0, goal, values, entry as usize, anywhere);
    match layer_search(nodes, 0, goal, values, entry as usize) {
        Err(_) => {},
        Ok((scored, visited)) => {
            let kept = picked(scored, filter, top_k, scored.len());
            lemma_picked_members(scored, filter, top_k, scored.len());
            lemma_picked_order(metric, scored, filter, top_k, scored.len());
            assert forall|i: int| 0 <= i < kept.0.len() implies {
                &&& (#[trigger] kept.0[i]).index < values.len()
                &&& values[kept.0[i].index as int] == Ok::<u32, nat>(kept.0[i].value)
                &&& passes(filter, kept.0[i].index as int)
            } by {
                let a = choose|a: int| 0 <= a < scored.len() && scored[a] == kept.0[i];
                assert(scored[a].index < nodes.len());
            }
            assert forall|i: int, j: int| 0 <= i < j < kept.0.len() implies (
            #[trigger] kept.0[i]).index != (#[trigger] kept.0[j]).index by {
                let (a, b) = choose|a: int, b: int|
                    0 <= a < b < scored.len() && scored[a] == kept.0[i] && scored[b] == kept.0[j];
                assert(scored[a].index != scored[b].index);
            }
            if no_nan(values) {
                let end = settled(nodes, 0, goal, values, entry as usize)->Ok_0;
                assert(all_numbers(end.results)) by {
                    lemma_sort_members(metric, end.results);
                    assert forall|i: int| 0 <= i < end.results.len() implies !is_nan(
                        #[trigger] end.results[i].value,
                    ) by {
                        assert(end.results.contains(end.results[i]));
                        assert(scored.contains(end.results[i]));
                        let a = choose|a: int|
                            0 <= a < scored.len() && scored[a] == end.results[i];
                        assert(scored[a].index < nodes.len());
                        assert(values[scored[a].index as int] is Ok);
                    }
                }
                law_sort_is_best_first(metric, end.results);
                assert forall|i: int, j: int| 0 <= i < j < kept.0.len() implies !better(
                    metric,
                    #[trigger] kept.0[j].value,
                    #[trigger] kept.0[i].value,
                ) by {
                    let (a, b) = choose|a: int, b: int|
                        0 <= a < b < scored.len() && scored[a] == kept.0[i] && scored[b]
                            == kept.0[j];
                    assert(!better(metric, scored[b].value, scored[a].value));
                }
            }
            if filter is None && kept.0.len() < top_k {
                lemma_unfiltered(scored, top_k, scored.len());
            }
        },
    }
}

pub proof fn lemma_unfiltered(scored: Seq<ScoredNode>, top_k: nat, count: nat)
    requires
        count <= scored.len(),
        picked(scored, None, top_k, count).0.len() < top_k,
    ensures
        picked(scored, None, top_k, count).0.len() == count,
        picked(scored, None, top_k, count).1 == 0,
    decreases count,
{
    if count > 0 {
        lemma_unfiltered(scored, top_k, (count - 1) as nat);
    }
}

pub proof fn lemma_widening_search(
    nodes: Seq<NodeModel>,
    metric: DistanceMetric,
    values: Seq<Result<u32, nat>>,
    entry: int,
    ef: nat,
    top_k: nat,
    filter: Option<Seq<bool>>,
)
    requires
        links_in_range(nodes),
        nodes.len() == values.len(),
        ef >= top_k > 0,
    ensures
        widening_search(nodes, metric, values, entry, ef, top_k, filter) matches Ok((kept, stats))
            ==> {
            &&& returnable(metric, values, filter, kept)
            &&& found_enough(kept, stats, top_k)
        },
    decreases nodes.len() - ef,
{
    lemma_base_search(nodes, metric, values, entry, ef, top_k, filter);
    match base_search(nodes, metric, values, entry, ef, top_k, filter) {
        Err(_) => {},
        Ok((kept, stats)) => {
            if !(filter is None || kept.len() == top_k || ef >= nodes.len() || ef == 0) {
                let next = wider(ef, nodes.len());
                lemma_widening_search(nodes, metric, values, entry, next, top_k, filter);
            }
        },
    }
}

/// Whether candidates are the records of distinct nodes that pass the filter,
/// each with its own metric value.
pub open spec fn stand_for(
    candidates: Seq<CandidateModel>,
    nodes: Seq<NodeModel>,
    values: Seq<u32>,
    filter: Option<Seq<bool>>,
    at: Seq<int>,
) -> bool {
    &&& at.len() == candidates.len()
    &&& at.no_duplicates()
    &&& forall|i: int|
        0 <= i < at.len() ==> {
            &&& 0 <= #[trigger] at[i] < nodes.len()
            &&& candidates[i] == CandidateModel { record: nodes[at[i]].record, value: values[at[i]] }
            &&& passes(filter, at[i])
        }
}

/// What a search returns: at most `top_k` candidates, for distinct nodes that
/// all pass the filter, each with its own value and, where no value is a NaN,
/// best first. Where there are fewer, every node that was looked at is either
/// among them or was turned away by the filter.
pub proof fn law_search_result(
    sidecar: SidecarModel,
    query_len: nat,
    values: Seq<u32>,
    top_k: nat,
    filter: Option<Seq<bool>>,
)
    requires
        searchable(sidecar),
        sidecar.nodes.len() == values.len(),
    ensures
        hnsw_search(sidecar, query_len, values, top_k, filter) matches Ok(found) ==> {
            &&& found.candidates.len() <= top_k
            &&& exists|at: Seq<int>| stand_for(found.candidates, sidecar.nodes, values, filter, at)
            &&& (forall|i: int| 0 <= i < values.len() ==> !is_nan(#[trigger] values[i]))
                ==> forall|i: int, j: int|
                0 <= i < j < found.candidates.len() ==> !better(
                    sidecar.metric,
                    #[trigger] found.candidates[j].value,
                    #[trigger] found.candidates[i].value,
                )
            &&& found.candidates.len() < top_k && sidecar.nodes.len() > 0 ==> {
                &&& found.stats.candidate_count == found.stats.visited_nodes
                &&& found.candidates.len() + found.stats.filtered_out_count
                    == found.stats.candidate_count
            }
        },
{
    let table = node_values(sidecar.nodes, query_len, values);
    match hnsw_search(sidecar, query_len, values, top_k, filter) {
        Err(_) => {},
        Ok(found) => {
            if top_k == 0 || sidecar.nodes.len() == 0 {
                assert(stand_for(found.candidates, sidecar.nodes, values, filter, Seq::empty()));
            } else {
                let entry = entry_for_base(
                    sidecar.nodes,
                    sidecar.metric,
                    table,
                    sidecar.max_level as nat,
                    search_entry(sidecar),
                )->Ok_0;
                let ef = larger(sidecar.params.ef_search as nat, top_k);
                lemma_widening_search(
                    sidecar.nodes,
                    sidecar.metric,
                    table,
                    entry,
                    ef,
                    top_k,
                    filter,
                );
                let kept = widening_search(
                    sidecar.nodes,
                    sidecar.metric,
                    table,
                    entry,
                    ef,
                    top_k,
                    filter,
                )->Ok_0.0;
                let at = Seq::new(kept.len(), |i: int| kept[i].index as int);
                assert forall|i: int| 0 <= i < at.len() implies {
                    &&& 0 <= #[trigger] at[i] < sidecar.nodes.len()
                    &&& found.candidates[i] == (CandidateModel {
                        record: sidecar.nodes[at[i]].record,
                        value: values[at[i]],
                    })
                    &&& passes(filter, at[i])
                } by {
                    assert(kept[i].index < table.len());
                }
                assert(at.no_duplicates());
                assert(stand_for(found.candidates, sidecar.nodes, values, filter, at));
                if forall|i: int| 0 <= i < values.len() ==> !is_nan(#[trigger] values[i]) {
                    assert(no_nan(table)) by {
                        assert forall|i: int|
                            0 <= i < table.len() && (#[trigger] table[i]) is Ok implies !is_nan(
                            table[i]->Ok_0,
                        ) by {
                            assert(!is_nan(values[i]));
                        }
                    }
                    assert forall|i: int, j: int|
                        0 <= i < j < found.candidates.len() implies !better(
                        sidecar.metric,
                        #[trigger] found.candidates[j].value,
                        #[trigger] found.candidates[i].value,
                    ) by {
                        assert(!better(sidecar.metric, kept[j].value, kept[i].value));
                    }
                }
            }
        },
    }
}

} // verus!
