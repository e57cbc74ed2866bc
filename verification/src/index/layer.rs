//! Traversal of one layer of the graph.

use crate::index::graph::{
    lemma_neighbors_in_range, links_in_range, neighbor_indices, neighbors_at, nodes_model,
    HnswNode, NodeModel,
};
use crate::index::score::{
    best_position, better, drop_worst_scored, is_better, is_nan, is_worse_or_equal,
    lemma_best_position_in_range, lemma_worst_position_in_range, metric_rank, pop_best_scored,
    sort_scored_best_first, sorted_best_first, swap_removed, worst_position, worst_scored,
    ScoredNode,
};
use crate::types::DistanceMetric;
use std::collections::HashSet;
use vstd::prelude::*;

verus! {

/// Metric value of every node for a query of `query_len` components: the value
/// itself where the node's vector has as many components, and otherwise the
/// number of components found instead.
pub open spec fn node_values(
    nodes: Seq<NodeModel>,
    query_len: nat,
    values: Seq<u32>,
) -> Seq<Result<u32, nat>> {
    Seq::new(
        nodes.len(),
        |i: int|
            if nodes[i].record.vector.len() == query_len {
                Ok(values[i])
            } else {
                Err(nodes[i].record.vector.len())
            },
    )
}

/// The metric value of a node, or the number of components of its vector where
/// that is not the number of components of the query.
pub fn node_value(nodes: &Vec<HnswNode>, query_len: usize, values: &[u32], index: usize) -> (result:
    Result<u32, usize>)
    requires
        index < nodes@.len(),
        values@.len() >= nodes@.len(),
    ensures
        (match result {
            Ok(value) => Ok(value),
            Err(found) => Err::<u32, nat>(found as nat),
        }) == node_values(nodes_model(nodes@), query_len as nat, values@)[index as int],
{
    let found: usize = nodes[index].record.vector.len();
    if found == query_len {
        Ok(values[index])
    } else {
        Err(found)
    }
}

/// Where a greedy step from `start` leads when only the first `count` neighbors
/// are looked at: to the best of them if it improves on `start`.
pub open spec fn greedy_step(
    metric: DistanceMetric,
    values: Seq<Result<u32, nat>>,
    neighbors: Seq<u32>,
    count: nat,
    start: int,
) -> Result<int, nat>
    decreases count,
{
    if count == 0 {
        Ok(start)
    } else {
        match greedy_step(metric, values, neighbors, (count - 1) as nat, start) {
            Err(found) => Err(found),
            Ok(best) => {
                let neighbor = neighbors[count - 1] as int;
                match values[neighbor] {
                    Err(found) => Err(found),
                    Ok(value) => if better(metric, value, values[best]->Ok_0) {
                        Ok(neighbor)
                    } else {
                        Ok(best)
                    },
                }
            },
        }
    }
}

/// How far a value is from the best possible one.
pub open spec fn room_above(metric: DistanceMetric, value: u32) -> nat {
    if is_nan(value) {
        0
    } else {
        (0x8000_0000 - metric_rank(metric, value)) as nat
    }
}

/// The node that repeated greedy steps on `layer` end at.
pub open spec fn descended(
    nodes: Seq<NodeModel>,
    metric: DistanceMetric,
    values: Seq<Result<u32, nat>>,
    layer: nat,
    current: int,
) -> Result<int, nat>
    decreases
            (match values[current] {
                Ok(value) => room_above(metric, value),
                Err(_) => 0,
            }),
{
    match values[current] {
        Err(found) => Err(found),
        Ok(value) => {
            let neighbors = neighbors_at(nodes, current, layer);
            match greedy_step(metric, values, neighbors, neighbors.len(), current) {
                Err(found) => Err(found),
                Ok(next) => if next != current && values[next] is Ok && better(
                    metric,
                    values[next]->Ok_0,
                    value,
                ) {
                    descended(nodes, metric, values, layer, next)
                } else {
                    Ok(current)
                },
            }
        },
    }
}

/// Whether every listed neighbor names one of `count` nodes.
pub open spec fn all_below(neighbors: Seq<u32>, count: nat) -> bool {
    forall|k: int| 0 <= k < neighbors.len() ==> #[trigger] neighbors[k] < count
}

pub proof fn lemma_greedy_step(
    metric: DistanceMetric,
    values: Seq<Result<u32, nat>>,
    neighbors: Seq<u32>,
    count: nat,
    start: int,
)
    requires
        count <= neighbors.len(),
        all_below(neighbors, values.len()),
        0 <= start < values.len(),
        values[start] is Ok,
    ensures
        greedy_step(metric, values, neighbors, count, start) matches Ok(best) ==> {
            &&& 0 <= best < values.len()
            &&& values[best] is Ok
            &&& best != start ==> better(metric, values[best]->Ok_0, values[start]->Ok_0)
            &&& best != start ==> neighbors.contains(best as u32)
        },
    decreases count,
{
    if count > 0 {
        lemma_greedy_step(metric, values, neighbors, (count - 1) as nat, start);
        assert(neighbors[count - 1] < values.len());
    }
}

proof fn lemma_greedy_step_error_stays(
    metric: DistanceMetric,
    values: Seq<Result<u32, nat>>,
    neighbors: Seq<u32>,
    early: nat,
    late: nat,
    start: int,
)
    requires
        early <= late,
        greedy_step(metric, values, neighbors, early, start) is Err,
    ensures
        greedy_step(metric, values, neighbors, late, start) == greedy_step(
            metric,
            values,
            neighbors,
            early,
            start,
        ),
    decreases late,
{
    if early < late {
        lemma_greedy_step_error_stays(metric, values, neighbors, early, (late - 1) as nat, start);
    }
}

/// The result of an executable traversal step as the traversal's model gives it.
pub open spec fn same_node(outcome: Result<usize, usize>, expected: Result<int, nat>) -> bool {
    match (outcome, expected) {
        (Ok(index), Ok(node)) => index == node,
        (Err(found), Err(length)) => found == length,
        _ => false,
    }
}

/// Follow greedy steps on one layer until no neighbor improves on the node.
pub fn greedy_descent(
    nodes: &Vec<HnswNode>,
    metric: DistanceMetric,
    query_len: usize,
    values: &[u32],
    layer: u8,
    start: usize,
) -> (outcome: Result<usize, usize>)
    requires
        values@.len() >= nodes@.len(),
        links_in_range(nodes_model(nodes@)),
        start < nodes@.len(),
    ensures
        same_node(
            outcome,
            descended(
                nodes_model(nodes@),
                metric,
                node_values(nodes_model(nodes@), query_len as nat, values@),
                layer as nat,
                start as int,
            ),
        ),
        outcome matches Ok(node) ==> node < nodes@.len(),
{
    let ghost model = nodes_model(nodes@);
    let ghost table = node_values(model, query_len as nat, values@);
    let mut current: usize = start;
    loop
        invariant
            values@.len() >= nodes@.len(),
            model == nodes_model(nodes@),
            table == node_values(model, query_len as nat, values@),
            links_in_range(model),
            current < nodes@.len(),
            descended(model, metric, table, layer as nat, current as int) == descended(
                model,
                metric,
                table,
                layer as nat,
                start as int,
            ),
        decreases
                (match table[current as int] {
                    Ok(value) => room_above(metric, value),
                    Err(_) => 0,
                }),
    {
        let current_value: u32 = match node_value(nodes, query_len, values, current) {
            Ok(value) => value,
            Err(found) => {
                return Err(found);
            },
        };
        let neighbors = neighbor_indices(nodes, current, layer);
        proof {
            lemma_neighbors_in_range(model, current as int, layer as nat);
        }
        let mut best_index: usize = current;
        let mut best_value: u32 = current_value;
        let mut k: usize = 0;
        while k < neighbors.len()
            invariant
                k <= neighbors@.len(),
                values@.len() >= nodes@.len(),
                model == nodes_model(nodes@),
                table == node_values(model, query_len as nat, values@),
                neighbors@ == neighbors_at(model, current as int, layer as nat),
                all_below(neighbors@, nodes@.len()),
                current < nodes@.len(),
                best_index < nodes@.len(),
                table[current as int] == Ok::<u32, nat>(current_value),
                table[best_index as int] == Ok::<u32, nat>(best_value),
                greedy_step(metric, table, neighbors@, k as nat, current as int) == Ok::<int, nat>(
                    best_index as int,
                ),
                descended(model, metric, table, layer as nat, current as int) == descended(
                    model,
                    metric,
                    table,
                    layer as nat,
                    start as int,
                ),
            decreases neighbors@.len() - k,
        {
            let neighbor: usize = neighbors[k] as usize;
            match node_value(nodes, query_len, values, neighbor) {
                Ok(value) => {
                    if is_better(metric, value, best_value) {
                        best_index = neighbor;
                        best_value = value;
                    }
                },
                Err(found) => {
                    proof {
                        lemma_greedy_step_error_stays(
                            metric,
                            table,
                            neighbors@,
                            (k + 1) as nat,
                            neighbors@.len(),
                            current as int,
                        );
                    }
                    return Err(found);
                },
            }
            k = k + 1;
        }
        proof {
            lemma_greedy_step(metric, table, neighbors@, neighbors@.len(), current as int);
        }
        if best_index == current {
            return Ok(current);
        }
        current = best_index;
    }
}

/// State of a best-first search on one layer.
#[verifier::ext_equal]
pub struct LayerState {
    /// Nodes looked at so far.
    pub visited: Set<usize>,
    /// Nodes whose neighbors are still to be looked at.
    pub candidates: Seq<ScoredNode>,
    /// Best nodes found so far.
    pub results: Seq<ScoredNode>,
}

/// What a best-first search looks for: the metric, the breadth `ef` of the
/// result, and a node that is left out.
#[verifier::ext_equal]
pub struct LayerGoal {
    pub metric: DistanceMetric,
    pub ef: nat,
    pub exclude: Option<usize>,
}

/// The worst of some nodes.
pub open spec fn worst_of(metric: DistanceMetric, scored: Seq<ScoredNode>) -> ScoredNode {
    scored[worst_position(metric, scored, scored.len())]
}

/// The best nodes once `node` has been added: the worst one leaves where there
/// are more than `ef`.
pub open spec fn with_result(goal: LayerGoal, results: Seq<ScoredNode>, node: ScoredNode) -> Seq<
    ScoredNode,
> {
    let longer = results.push(node);
    if longer.len() > goal.ef {
        swap_removed(longer, worst_position(goal.metric, longer, longer.len()))
    } else {
        longer
    }
}

/// Whether a value is good enough to enter the result.
pub open spec fn is_promising(goal: LayerGoal, results: Seq<ScoredNode>, value: u32) -> bool {
    results.len() < goal.ef || (results.len() > 0 && better(
        goal.metric,
        value,
        worst_of(goal.metric, results).value,
    ))
}

/// State after `neighbor` has been looked at.
pub open spec fn after_neighbor(
    goal: LayerGoal,
    values: Seq<Result<u32, nat>>,
    state: LayerState,
    neighbor: usize,
) -> Result<LayerState, nat> {
    if goal.exclude == Some(neighbor) || state.visited.contains(neighbor) {
        Ok(state)
    } else {
        match values[neighbor as int] {
            Err(found) => Err(found),
            Ok(value) => {
                let node = ScoredNode { index: neighbor, value };
                let visited = state.visited.insert(neighbor);
                if is_promising(goal, state.results, value) {
                    Ok(
                        LayerState {
                            visited,
                            candidates: state.candidates.push(node),
                            results: with_result(goal, state.results, node),
                        },
                    )
                } else {
                    Ok(LayerState { visited, ..state })
                }
            },
        }
    }
}

/// State after the first `count` neighbors have been looked at in turn.
pub open spec fn after_neighbors(
    goal: LayerGoal,
    values: Seq<Result<u32, nat>>,
    state: LayerState,
    neighbors: Seq<u32>,
    count: nat,
) -> Result<LayerState, nat>
    decreases count,
{
    if count == 0 {
        Ok(state)
    } else {
        match after_neighbors(goal, values, state, neighbors, (count - 1) as nat) {
            Err(found) => Err(found),
            Ok(next) => after_neighbor(goal, values, next, neighbors[count - 1] as usize),
        }
    }
}

/// The candidate whose neighbors are looked at next.
pub open spec fn next_candidate(goal: LayerGoal, state: LayerState) -> int {
    best_position(goal.metric, state.candidates, state.candidates.len())
}

/// Whether the search is over: no candidate is left, or the best one left can
/// no longer improve a full result.
pub open spec fn is_settled(goal: LayerGoal, state: LayerState) -> bool {
    ||| state.candidates.len() == 0
    ||| state.results.len() == 0
    ||| state.results.len() >= goal.ef && !better(
        goal.metric,
        state.candidates[next_candidate(goal, state)].value,
        worst_of(goal.metric, state.results).value,
    )
}

/// State after the best candidate has been expanded.
pub open spec fn after_round(
    nodes: Seq<NodeModel>,
    layer: nat,
    goal: LayerGoal,
    values: Seq<Result<u32, nat>>,
    state: LayerState,
) -> Result<LayerState, nat> {
    let position = next_candidate(goal, state);
    let neighbors = neighbors_at(nodes, state.candidates[position].index as int, layer);
    after_neighbors(
        goal,
        values,
        LayerState { candidates: swap_removed(state.candidates, position), ..state },
        neighbors,
        neighbors.len(),
    )
}

/// State after at most `rounds` candidates have been expanded.
pub open spec fn after_rounds(
    nodes: Seq<NodeModel>,
    layer: nat,
    goal: LayerGoal,
    values: Seq<Result<u32, nat>>,
    state: LayerState,
    rounds: nat,
) -> Result<LayerState, nat>
    decreases rounds,
{
    if rounds == 0 || is_settled(goal, state) {
        Ok(state)
    } else {
        match after_round(nodes, layer, goal, values, state) {
            Err(found) => Err(found),
            Ok(next) => after_rounds(nodes, layer, goal, values, next, (rounds - 1) as nat),
        }
    }
}

/// State in which a search from `entry` starts.
pub open spec fn started(
    goal: LayerGoal,
    values: Seq<Result<u32, nat>>,
    entry: usize,
) -> Result<LayerState, nat> {
    if goal.exclude == Some(entry) || entry >= values.len() {
        Ok(
            LayerState {
                visited: Set::empty(),
                candidates: Seq::empty(),
                results: Seq::empty(),
            },
        )
    } else {
        match values[entry as int] {
            Err(found) => Err(found),
            Ok(value) => {
                let node = ScoredNode { index: entry, value };
                Ok(
                    LayerState {
                        visited: Set::empty().insert(entry),
                        candidates: seq![node],
                        results: seq![node],
                    },
                )
            },
        }
    }
}

/// State in which a search from the first `count` of some entries starts: each of them is
/// taken once, but for the node left out and what is no node.
pub open spec fn started_from(
    goal: LayerGoal,
    values: Seq<Result<u32, nat>>,
    entries: Seq<usize>,
    count: nat,
) -> Result<LayerState, nat>
    decreases count,
{
    if count == 0 {
        Ok(
            LayerState {
                visited: Set::empty(),
                candidates: Seq::empty(),
                results: Seq::empty(),
            },
        )
    } else {
        match started_from(goal, values, entries, (count - 1) as nat) {
            Err(found) => Err(found),
            Ok(state) => {
                let entry = entries[count - 1];
                if goal.exclude == Some(entry) || entry >= values.len() || state.visited.contains(
                    entry,
                ) {
                    Ok(state)
                } else {
                    match values[entry as int] {
                        Err(found) => Err(found),
                        Ok(value) => {
                            let node = ScoredNode { index: entry, value };
                            Ok(
                                LayerState {
                                    visited: state.visited.insert(entry),
                                    candidates: state.candidates.push(node),
                                    results: state.results.push(node),
                                },
                            )
                        },
                    }
                }
            },
        }
    }
}

proof fn lemma_one_entry(goal: LayerGoal, values: Seq<Result<u32, nat>>, entries: Seq<usize>)
    requires
        entries.len() == 1,
    ensures
        started_from(goal, values, entries, 1) == started(goal, values, entries[0]),
{
    let none = started_from(goal, values, entries, 0);
    assert(none is Ok);
    match (started_from(goal, values, entries, 1), started(goal, values, entries[0])) {
        (Ok(left), Ok(right)) => {
            assert(left =~= right);
        },
        _ => {},
    }
}

proof fn lemma_entry_fault_stays(
    goal: LayerGoal,
    values: Seq<Result<u32, nat>>,
    entries: Seq<usize>,
    early: nat,
    late: nat,
)
    requires
        early <= late,
        started_from(goal, values, entries, early) is Err,
    ensures
        started_from(goal, values, entries, late) == started_from(goal, values, entries, early),
    decreases late,
{
    if early < late {
        lemma_entry_fault_stays(goal, values, entries, early, (late - 1) as nat);
    }
}

/// State in which a search from `entry` ends. Each node becomes a candidate at
/// most once, so that there are no more rounds than nodes.
pub open spec fn settled(
    nodes: Seq<NodeModel>,
    layer: nat,
    goal: LayerGoal,
    values: Seq<Result<u32, nat>>,
    entry: usize,
) -> Result<LayerState, nat> {
    match started(goal, values, entry) {
        Err(found) => Err(found),
        Ok(state) => after_rounds(nodes, layer, goal, values, state, nodes.len()),
    }
}

/// The nodes that a search on one layer finds, best first, and the number of
/// nodes that it looked at.
pub open spec fn layer_search(
    nodes: Seq<NodeModel>,
    layer: nat,
    goal: LayerGoal,
    values: Seq<Result<u32, nat>>,
    entry: usize,
) -> Result<(Seq<ScoredNode>, nat), nat> {
    match settled(nodes, layer, goal, values, entry) {
        Err(found) => Err(found),
        Ok(state) => Ok((sorted_best_first(goal.metric, state.results), state.visited.len())),
    }
}

/// The nodes that a search on one layer from some entries finds, best first, and the
/// number of nodes that it looked at.
pub open spec fn layer_search_from(
    nodes: Seq<NodeModel>,
    layer: nat,
    goal: LayerGoal,
    values: Seq<Result<u32, nat>>,
    entries: Seq<usize>,
) -> Result<(Seq<ScoredNode>, nat), nat> {
    match started_from(goal, values, entries, entries.len()) {
        Err(found) => Err(found),
        Ok(start) => match after_rounds(nodes, layer, goal, values, start, nodes.len()) {
            Err(found) => Err(found),
            Ok(state) => Ok(
                (sorted_best_first(goal.metric, state.results), state.visited.len()),
            ),
        },
    }
}

/// Whether a state only speaks of nodes of a graph with `count` nodes.
pub open spec fn state_in_range(state: LayerState, count: nat) -> bool {
    &&& state.visited.finite()
    &&& forall|node: usize| state.visited.contains(node) ==> node < count
    &&& forall|i: int| 0 <= i < state.candidates.len() ==> (#[trigger] state.candidates[i]).index < count
    &&& forall|i: int| 0 <= i < state.results.len() ==> (#[trigger] state.results[i]).index < count
}

/// Rounds that a state may still need in a graph with `count` nodes.
pub open spec fn rounds_left(state: LayerState, count: nat) -> int {
    count - state.visited.len() + state.candidates.len()
}

pub proof fn lemma_set_below(nodes: Set<usize>, count: nat)
    requires
        nodes.finite(),
        forall|node: usize| nodes.contains(node) ==> node < count,
    ensures
        nodes.len() <= count,
    decreases count,
{
    if count == 0 {
        assert(nodes =~= Set::empty());
    } else if count - 1 > usize::MAX {
        assert forall|node: usize| nodes.contains(node) implies node < count - 1 by {}
        lemma_set_below(nodes, (count - 1) as nat);
    } else {
        let top = (count - 1) as usize;
        let rest = nodes.remove(top);
        assert forall|node: usize| rest.contains(node) implies node < count - 1 by {
            assert(nodes.contains(node));
        }
        lemma_set_below(rest, (count - 1) as nat);
    }
}

proof fn lemma_after_neighbor(
    goal: LayerGoal,
    values: Seq<Result<u32, nat>>,
    state: LayerState,
    neighbor: usize,
)
    requires
        state_in_range(state, values.len()),
        neighbor < values.len(),
    ensures
        after_neighbor(goal, values, state, neighbor) matches Ok(next) ==> {
            &&& state_in_range(next, values.len())
            &&& rounds_left(next, values.len()) <= rounds_left(state, values.len())
        },
{
    let count = values.len();
    match after_neighbor(goal, values, state, neighbor) {
        Err(_) => {},
        Ok(next) => {
            if next.results != state.results {
                let node = next.candidates.last();
                let longer = state.results.push(node);
                lemma_worst_position_in_range(goal.metric, longer, longer.len());
                assert forall|i: int| 0 <= i < next.results.len() implies (
                #[trigger] next.results[i]).index < count by {
                    let worst = worst_position(goal.metric, longer, longer.len());
                    if longer.len() > goal.ef {
                        if i == worst {
                            assert(next.results[i] == longer.last());
                        } else {
                            assert(next.results[i] == longer[i]);
                        }
                    }
                }
            }
            assert forall|i: int| 0 <= i < next.candidates.len() implies (
            #[trigger] next.candidates[i]).index < count by {
                if i < state.candidates.len() {
                    assert(next.candidates[i] == state.candidates[i]);
                }
            }
            assert(state_in_range(next, count));
        },
    }
}

pub proof fn lemma_after_neighbors(
    goal: LayerGoal,
    values: Seq<Result<u32, nat>>,
    state: LayerState,
    neighbors: Seq<u32>,
    count: nat,
)
    requires
        state_in_range(state, values.len()),
        all_below(neighbors, values.len()),
        count <= neighbors.len(),
    ensures
        after_neighbors(goal, values, state, neighbors, count) matches Ok(next) ==> {
            &&& state_in_range(next, values.len())
            &&& rounds_left(next, values.len()) <= rounds_left(state, values.len())
        },
    decreases count,
{
    if count > 0 {
        lemma_after_neighbors(goal, values, state, neighbors, (count - 1) as nat);
        match after_neighbors(goal, values, state, neighbors, (count - 1) as nat) {
            Err(_) => {},
            Ok(next) => {
                assert(neighbors[count - 1] < values.len());
                lemma_after_neighbor(goal, values, next, neighbors[count - 1] as usize);
            },
        }
    }
}

proof fn lemma_after_neighbors_error_stays(
    goal: LayerGoal,
    values: Seq<Result<u32, nat>>,
    state: LayerState,
    neighbors: Seq<u32>,
    early: nat,
    late: nat,
)
    requires
        early <= late,
        after_neighbors(goal, values, state, neighbors, early) is Err,
    ensures
        after_neighbors(goal, values, state, neighbors, late) == after_neighbors(
            goal,
            values,
            state,
            neighbors,
            early,
        ),
    decreases late,
{
    if early < late {
        lemma_after_neighbors_error_stays(goal, values, state, neighbors, early, (late - 1) as nat);
    }
}

pub proof fn lemma_without_candidate(goal: LayerGoal, state: LayerState, count: nat)
    requires
        state_in_range(state, count),
        state.candidates.len() > 0,
    ensures
        ({
            let position = next_candidate(goal, state);
            let rest = LayerState {
                candidates: swap_removed(state.candidates, position),
                ..state
            };
            &&& 0 <= position < state.candidates.len()
            &&& state_in_range(rest, count)
            &&& rounds_left(rest, count) == rounds_left(state, count) - 1
        }),
{
    lemma_best_position_in_range(goal.metric, state.candidates, state.candidates.len());
    let position = next_candidate(goal, state);
    let rest = swap_removed(state.candidates, position);
    assert forall|i: int| 0 <= i < rest.len() implies (#[trigger] rest[i]).index < count by {
        if i == position {
            assert(rest[i] == state.candidates.last());
        } else {
            assert(rest[i] == state.candidates[i]);
        }
    }
}

/// The outcome of an executable layer search as its model gives it.
pub open spec fn same_search(
    outcome: Result<(Vec<ScoredNode>, usize), usize>,
    expected: Result<(Seq<ScoredNode>, nat), nat>,
) -> bool {
    match (outcome, expected) {
        (Ok(found), Ok(nodes)) => found.0@ == nodes.0 && found.1 == nodes.1,
        (Err(found), Err(length)) => found == length,
        _ => false,
    }
}

/// Look at the neighbors of one candidate.
fn look_at_neighbors(
    nodes: &Vec<HnswNode>,
    metric: DistanceMetric,
    query_len: usize,
    values: &[u32],
    neighbors: &Vec<u32>,
    ef: usize,
    exclude_index: Option<usize>,
    visited: &mut HashSet<usize>,
    candidates: &mut Vec<ScoredNode>,
    results: &mut Vec<ScoredNode>,
) -> (outcome: Result<(), usize>)
    requires
        values@.len() >= nodes@.len(),
        all_below(neighbors@, nodes@.len()),
        state_in_range(
            (LayerState {
                visited: old(visited)@,
                candidates: old(candidates)@,
                results: old(results)@,
            }),
            nodes@.len(),
        ),
    ensures
        ({
            let goal = LayerGoal { metric, ef: ef as nat, exclude: exclude_index };
            let table = node_values(nodes_model(nodes@), query_len as nat, values@);
            let before = LayerState {
                visited: old(visited)@,
                candidates: old(candidates)@,
                results: old(results)@,
            };
            let after = LayerState {
                visited: final(visited)@,
                candidates: final(candidates)@,
                results: final(results)@,
            };
            match (outcome, after_neighbors(goal, table, before, neighbors@, neighbors@.len())) {
                (Ok(_), Ok(state)) => after == state,
                (Err(found), Err(length)) => found == length,
                _ => false,
            }
        }),
{
    broadcast use vstd::std_specs::hash::group_hash_axioms;

    let ghost goal = LayerGoal { metric, ef: ef as nat, exclude: exclude_index };
    let ghost table = node_values(nodes_model(nodes@), query_len as nat, values@);
    let ghost before = LayerState {
        visited: visited@,
        candidates: candidates@,
        results: results@,
    };
    let mut k: usize = 0;
    while k < neighbors.len()
        invariant
            k <= neighbors@.len(),
            values@.len() >= nodes@.len(),
            all_below(neighbors@, nodes@.len()),
            goal == (LayerGoal { metric, ef: ef as nat, exclude: exclude_index }),
            table == node_values(nodes_model(nodes@), query_len as nat, values@),
            before == (LayerState {
                visited: old(visited)@,
                candidates: old(candidates)@,
                results: old(results)@,
            }),
            after_neighbors(goal, table, before, neighbors@, k as nat) == Ok::<LayerState, nat>(
                LayerState { visited: visited@, candidates: candidates@, results: results@ },
            ),
        decreases neighbors@.len() - k,
    {
        let neighbor: usize = neighbors[k] as usize;
        let ghost state = LayerState {
            visited: visited@,
            candidates: candidates@,
            results: results@,
        };
        assert(after_neighbors(goal, table, before, neighbors@, (k + 1) as nat) == after_neighbor(
            goal,
            table,
            state,
            neighbor,
        ));
        let excluded = match exclude_index {
            Some(index) => index == neighbor,
            None => false,
        };
        if !excluded && !visited.contains(&neighbor) {
            let value: u32 = match node_value(nodes, query_len, values, neighbor) {
                Ok(value) => value,
                Err(found) => {
                    proof {
                        lemma_after_neighbors_error_stays(
                            goal,
                            table,
                            before,
                            neighbors@,
                            (k + 1) as nat,
                            neighbors@.len(),
                        );
                    }
                    return Err(found);
                },
            };
            visited.insert(neighbor);
            let scored = ScoredNode { index: neighbor, value };
            let promising = results.len() < ef || match worst_scored(metric, results) {
                Some(worst) => is_better(metric, value, worst.value),
                None => false,
            };
            if promising {
                candidates.push(scored);
                results.push(scored);
                if results.len() > ef {
                    drop_worst_scored(metric, results);
                }
            }
        }
        k = k + 1;
    }
    Ok(())
}

/// Look at the entries of a search.
fn take_entries(
    nodes: &Vec<HnswNode>,
    query_len: usize,
    values: &[u32],
    entry_points: &[usize],
    exclude_index: Option<usize>,
    visited: &mut HashSet<usize>,
    candidates: &mut Vec<ScoredNode>,
    results: &mut Vec<ScoredNode>,
    Ghost(goal): Ghost<LayerGoal>,
) -> (outcome: Result<(), usize>)
    requires
        values@.len() >= nodes@.len(),
        goal.exclude == exclude_index,
        old(visited)@ == Set::<usize>::empty(),
        old(candidates)@.len() == 0,
        old(results)@.len() == 0,
    ensures
        ({
            let table = node_values(nodes_model(nodes@), query_len as nat, values@);
            let start = LayerState {
                visited: final(visited)@,
                candidates: final(candidates)@,
                results: final(results)@,
            };
            match (outcome, started_from(goal, table, entry_points@, entry_points@.len())) {
                (Ok(_), Ok(expected)) => start == expected && state_in_range(start, nodes@.len())
                    && rounds_left(start, nodes@.len()) <= nodes@.len(),
                (Err(found), Err(length)) => found == length,
                _ => false,
            }
        }),
{
    broadcast use vstd::std_specs::hash::group_hash_axioms;

    let ghost table = node_values(nodes_model(nodes@), query_len as nat, values@);
    let mut index: usize = 0;
    proof {
        let start = LayerState {
            visited: visited@,
            candidates: candidates@,
            results: results@,
        };
        assert(start =~= started_from(goal, table, entry_points@, 0)->Ok_0);
    }
    while index < entry_points.len()
        invariant
            values@.len() >= nodes@.len(),
            goal.exclude == exclude_index,
            table == node_values(nodes_model(nodes@), query_len as nat, values@),
            index <= entry_points@.len(),
            started_from(goal, table, entry_points@, index as nat) == Ok::<LayerState, nat>(
                (LayerState { visited: visited@, candidates: candidates@, results: results@ }),
            ),
            state_in_range(
                (LayerState { visited: visited@, candidates: candidates@, results: results@ }),
                nodes@.len(),
            ),
            visited@.len() == candidates@.len(),
        decreases entry_points@.len() - index,
    {
        let entry: usize = entry_points[index];
        let excluded = match exclude_index {
            Some(left_out) => left_out == entry,
            None => false,
        };
        if !excluded && entry < nodes.len() && !visited.contains(&entry) {
            let value: u32 = match node_value(nodes, query_len, values, entry) {
                Ok(value) => value,
                Err(found) => {
                    proof {
                        lemma_entry_fault_stays(
                            goal,
                            table,
                            entry_points@,
                            (index + 1) as nat,
                            entry_points@.len(),
                        );
                    }
                    return Err(found);
                },
            };
            visited.insert(entry);
            candidates.push(ScoredNode { index: entry, value });
            results.push(ScoredNode { index: entry, value });
        }
        index = index + 1;
    }
    Ok(())
}

/// Search one layer for the `ef` best nodes, starting from `entry_points`.
pub fn search_layer(
    nodes: &Vec<HnswNode>,
    metric: DistanceMetric,
    query_len: usize,
    values: &[u32],
    layer: u8,
    entry_points: &[usize],
    ef: usize,
    exclude_index: Option<usize>,
) -> (outcome: Result<(Vec<ScoredNode>, usize), usize>)
    requires
        values@.len() >= nodes@.len(),
        links_in_range(nodes_model(nodes@)),
    ensures
        same_search(
            outcome,
            layer_search_from(
                nodes_model(nodes@),
                layer as nat,
                (LayerGoal { metric, ef: ef as nat, exclude: exclude_index }),
                node_values(nodes_model(nodes@), query_len as nat, values@),
                entry_points@,
            ),
        ),
        entry_points@.len() == 1 ==> same_search(
            outcome,
            layer_search(
                nodes_model(nodes@),
                layer as nat,
                (LayerGoal { metric, ef: ef as nat, exclude: exclude_index }),
                node_values(nodes_model(nodes@), query_len as nat, values@),
                entry_points@[0],
            ),
        ),
{
    broadcast use vstd::std_specs::hash::group_hash_axioms;

    let ghost model = nodes_model(nodes@);
    let ghost goal = LayerGoal { metric, ef: ef as nat, exclude: exclude_index };
    let ghost table = node_values(model, query_len as nat, values@);
    proof {
        if entry_points@.len() == 1 {
            lemma_one_entry(goal, table, entry_points@);
        }
    }
    let mut visited: HashSet<usize> = HashSet::new();
    let mut candidates: Vec<ScoredNode> = Vec::new();
    let mut results: Vec<ScoredNode> = Vec::new();
    match take_entries(
        nodes,
        query_len,
        values,
        entry_points,
        exclude_index,
        &mut visited,
        &mut candidates,
        &mut results,
        Ghost(goal),
    ) {
        Ok(_) => {},
        Err(found) => {
            return Err(found);
        },
    }
    let ghost start = LayerState { visited: visited@, candidates: candidates@, results: results@ };
    let ghost mut rounds: nat = model.len();

    while candidates.len() > 0
        invariant_except_break
            state_in_range(
                (LayerState { visited: visited@, candidates: candidates@, results: results@ }),
                model.len(),
            ),
            rounds_left(
                (LayerState { visited: visited@, candidates: candidates@, results: results@ }),
                model.len(),
            ) <= rounds,
            after_rounds(model, layer as nat, goal, table, start, model.len()) == after_rounds(
                model,
                layer as nat,
                goal,
                table,
                (LayerState { visited: visited@, candidates: candidates@, results: results@ }),
                rounds,
            ),
        invariant
            values@.len() >= nodes@.len(),
            model == nodes_model(nodes@),
            goal == (LayerGoal { metric, ef: ef as nat, exclude: exclude_index }),
            table == node_values(model, query_len as nat, values@),
            links_in_range(model),
            started_from(goal, table, entry_points@, entry_points@.len()) == Ok::<
                LayerState,
                nat,
            >(start),
            entry_points@.len() == 1 ==> started(goal, table, entry_points@[0]) == Ok::<
                LayerState,
                nat,
            >(start),
        ensures
            after_rounds(model, layer as nat, goal, table, start, model.len()) matches Ok(state)
                && state.visited == visited@ && state.results == results@,
        decreases rounds,
    {
        let ghost state = LayerState {
            visited: visited@,
            candidates: candidates@,
            results: results@,
        };
        proof {
            lemma_set_below(visited@, model.len());
            lemma_without_candidate(goal, state, model.len());
        }
        let candidate = pop_best_scored(metric, &mut candidates);
        let worst_result = match worst_scored(metric, &results) {
            Some(worst) => worst,
            None => {
                break;
            },
        };
        if results.len() >= ef && is_worse_or_equal(metric, candidate.value, worst_result.value) {
            break;
        }
        let neighbors = neighbor_indices(nodes, candidate.index, layer);
        proof {
            lemma_neighbors_in_range(model, candidate.index as int, layer as nat);
            lemma_after_neighbors(
                goal,
                table,
                (LayerState { visited: visited@, candidates: candidates@, results: results@ }),
                neighbors@,
                neighbors@.len(),
            );
        }
        match look_at_neighbors(
            nodes,
            metric,
            query_len,
            values,
            &neighbors,
            ef,
            exclude_index,
            &mut visited,
            &mut candidates,
            &mut results,
        ) {
            Ok(_) => {},
            Err(found) => {
                return Err(found);
            },
        }
        proof {
            rounds = (rounds - 1) as nat;
        }
    }

    let sorted = sort_scored_best_first(metric, &results);
    Ok((sorted, visited.len()))
}

} // verus!
