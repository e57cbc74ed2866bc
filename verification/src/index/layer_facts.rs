//! What a search on one layer guarantees.

use crate::index::graph::{lemma_neighbors_in_range, links_in_range, neighbors_at, NodeModel};
use crate::index::layer::{
    after_neighbor, after_neighbors, after_round, after_rounds, all_below, is_promising,
    is_settled, layer_search, next_candidate, started, with_result, LayerGoal, LayerState,
};
use crate::index::score::{
    law_sort_keeps_nodes, lemma_best_position_in_range, lemma_sort_members,
    lemma_worst_position_in_range, sorted_best_first, swap_removed, worst_position, ScoredNode,
};
use vstd::prelude::*;

verus! {

/// Whether a scored node carries the value of its node, may be reached, has been
/// looked at and is not the one left out.
pub open spec fn scored_rightly(
    goal: LayerGoal,
    values: Seq<Result<u32, nat>>,
    allowed: spec_fn(usize) -> bool,
    visited: Set<usize>,
    node: ScoredNode,
) -> bool {
    &&& node.index < values.len()
    &&& values[node.index as int] == Ok::<u32, nat>(node.value)
    &&& allowed(node.index)
    &&& visited.contains(node.index)
    &&& goal.exclude != Some(node.index)
}

/// Whether no two scored nodes stand for the same node.
pub open spec fn distinct_nodes(scored: Seq<ScoredNode>) -> bool {
    forall|i: int, j: int|
        0 <= i < j < scored.len() ==> (#[trigger] scored[i]).index != (#[trigger] scored[j]).index
}

/// What holds of every state of a search.
pub open spec fn state_sound(
    goal: LayerGoal,
    values: Seq<Result<u32, nat>>,
    allowed: spec_fn(usize) -> bool,
    state: LayerState,
) -> bool {
    &&& state.visited.finite()
    &&& forall|node: usize| #[trigger]
        state.visited.contains(node) ==> node < values.len() && allowed(node)
    &&& forall|i: int|
        0 <= i < state.candidates.len() ==> scored_rightly(
            goal,
            values,
            allowed,
            state.visited,
            #[trigger] state.candidates[i],
        )
    &&& forall|i: int|
        0 <= i < state.results.len() ==> scored_rightly(
            goal,
            values,
            allowed,
            state.visited,
            #[trigger] state.results[i],
        )
    &&& distinct_nodes(state.results)
    &&& state.results.len() <= goal.ef || state.results.len() <= 1
    &&& state.results.len() <= state.visited.len()
    &&& state.results.len() < goal.ef ==> state.results.len() == state.visited.len()
}

/// Whether the nodes that may be reached are closed under the links of a layer.
pub open spec fn closed_under_links(
    nodes: Seq<NodeModel>,
    layer: nat,
    allowed: spec_fn(usize) -> bool,
) -> bool {
    forall|node: usize, k: int|
        #![trigger neighbors_at(nodes, node as int, layer)[k]]
        node < nodes.len() && allowed(node) && 0 <= k < neighbors_at(
            nodes,
            node as int,
            layer,
        ).len() ==> allowed(neighbors_at(nodes, node as int, layer)[k] as usize)
}

proof fn lemma_with_result(
    goal: LayerGoal,
    values: Seq<Result<u32, nat>>,
    allowed: spec_fn(usize) -> bool,
    state: LayerState,
    node: ScoredNode,
)
    requires
        state_sound(goal, values, allowed, state),
        state.results.len() > 0,
        !state.visited.contains(node.index),
        scored_rightly(goal, values, allowed, state.visited.insert(node.index), node),
    ensures
        ({
            let results = with_result(goal, state.results, node);
            let visited = state.visited.insert(node.index);
            &&& forall|i: int|
                0 <= i < results.len() ==> scored_rightly(
                    goal,
                    values,
                    allowed,
                    visited,
                    #[trigger] results[i],
                )
            &&& distinct_nodes(results)
            &&& results.len() <= goal.ef || results.len() <= 1
            &&& results.len() <= visited.len()
            &&& results.len() < goal.ef ==> results.len() == visited.len()
            &&& results.len() > 0
        }),
{
    let longer = state.results.push(node);
    let results = with_result(goal, state.results, node);
    let visited = state.visited.insert(node.index);
    assert forall|i: int| 0 <= i < longer.len() implies scored_rightly(
        goal,
        values,
        allowed,
        visited,
        #[trigger] longer[i],
    ) by {
        if i < state.results.len() {
            assert(longer[i] == state.results[i]);
        }
    }
    assert(distinct_nodes(longer)) by {
        assert forall|i: int, j: int| 0 <= i < j < longer.len() implies (
        #[trigger] longer[i]).index != (#[trigger] longer[j]).index by {
            assert(longer[i] == state.results[i]);
            if j < state.results.len() {
                assert(longer[j] == state.results[j]);
            } else {
                assert(state.visited.contains(state.results[i].index));
            }
        }
    }
    if longer.len() > goal.ef {
        let worst = worst_position(goal.metric, longer, longer.len());
        lemma_worst_position_in_range(goal.metric, longer, longer.len());
        assert forall|i: int| 0 <= i < results.len() implies #[trigger] results[i] == (if i
            == worst {
            longer.last()
        } else {
            longer[i]
        }) by {}
        assert forall|i: int| 0 <= i < results.len() implies scored_rightly(
            goal,
            values,
            allowed,
            visited,
            #[trigger] results[i],
        ) by {
            let from = if i == worst {
                longer.len() - 1
            } else {
                i
            };
            assert(results[i] == longer[from]);
        }
        assert forall|i: int, j: int| 0 <= i < j < results.len() implies (
        #[trigger] results[i]).index != (#[trigger] results[j]).index by {
            let a = if i == worst {
                longer.len() - 1
            } else {
                i
            };
            let b = if j == worst {
                longer.len() - 1
            } else {
                j
            };
            assert(results[i] == longer[a]);
            assert(results[j] == longer[b]);
        }
    }
}

proof fn lemma_sound_after_neighbor(
    goal: LayerGoal,
    values: Seq<Result<u32, nat>>,
    allowed: spec_fn(usize) -> bool,
    state: LayerState,
    neighbor: usize,
)
    requires
        state_sound(goal, values, allowed, state),
        state.results.len() > 0,
        neighbor < values.len(),
        allowed(neighbor),
    ensures
        after_neighbor(goal, values, state, neighbor) matches Ok(next) ==> {
            &&& state_sound(goal, values, allowed, next)
            &&& next.results.len() > 0
        },
{
    match after_neighbor(goal, values, state, neighbor) {
        Err(_) => {},
        Ok(next) => {
            if goal.exclude != Some(neighbor) && !state.visited.contains(neighbor) {
                let node = ScoredNode { index: neighbor, value: values[neighbor as int]->Ok_0 };
                assert(scored_rightly(goal, values, allowed, next.visited, node));
                lemma_with_result(goal, values, allowed, state, node);
                assert forall|i: int| 0 <= i < next.candidates.len() implies scored_rightly(
                    goal,
                    values,
                    allowed,
                    next.visited,
                    #[trigger] next.candidates[i],
                ) by {
                    if i < state.candidates.len() {
                        assert(next.candidates[i] == state.candidates[i]);
                    }
                }
                if !is_promising(goal, state.results, node.value) {
                    assert forall|i: int| 0 <= i < next.results.len() implies scored_rightly(
                        goal,
                        values,
                        allowed,
                        next.visited,
                        #[trigger] next.results[i],
                    ) by {
                        assert(next.results[i] == state.results[i]);
                    }
                }
            }
        },
    }
}

proof fn lemma_sound_after_neighbors(
    goal: LayerGoal,
    values: Seq<Result<u32, nat>>,
    allowed: spec_fn(usize) -> bool,
    state: LayerState,
    neighbors: Seq<u32>,
    count: nat,
)
    requires
        state_sound(goal, values, allowed, state),
        state.results.len() > 0,
        count <= neighbors.len(),
        all_below(neighbors, values.len()),
        forall|k: int| 0 <= k < neighbors.len() ==> allowed(#[trigger] neighbors[k] as usize),
    ensures
        after_neighbors(goal, values, state, neighbors, count) matches Ok(next) ==> {
            &&& state_sound(goal, values, allowed, next)
            &&& next.results.len() > 0
        },
    decreases count,
{
    if count > 0 {
        lemma_sound_after_neighbors(goal, values, allowed, state, neighbors, (count - 1) as nat);
        match after_neighbors(goal, values, state, neighbors, (count - 1) as nat) {
            Err(_) => {},
            Ok(next) => {
                assert(neighbors[count - 1] < values.len());
                assert(allowed(neighbors[count - 1] as usize));
                lemma_sound_after_neighbor(
                    goal,
                    values,
                    allowed,
                    next,
                    neighbors[count - 1] as usize,
                );
            },
        }
    }
}

pub proof fn lemma_sound_after_round(
    nodes: Seq<NodeModel>,
    layer: nat,
    goal: LayerGoal,
    values: Seq<Result<u32, nat>>,
    allowed: spec_fn(usize) -> bool,
    state: LayerState,
)
    requires
        links_in_range(nodes),
        nodes.len() == values.len(),
        closed_under_links(nodes, layer, allowed),
        state_sound(goal, values, allowed, state),
        !is_settled(goal, state),
    ensures
        after_round(nodes, layer, goal, values, state) matches Ok(next) ==> {
            &&& state_sound(goal, values, allowed, next)
            &&& next.results.len() > 0
        },
{
    let position = next_candidate(goal, state);
    lemma_best_position_in_range(goal.metric, state.candidates, state.candidates.len());
    let chosen = state.candidates[position].index;
    assert(scored_rightly(goal, values, allowed, state.visited, state.candidates[position]));
    let rest = LayerState { candidates: swap_removed(state.candidates, position), ..state };
    assert forall|i: int| 0 <= i < rest.candidates.len() implies scored_rightly(
        goal,
        values,
        allowed,
        state.visited,
        #[trigger] rest.candidates[i],
    ) by {
        let from = if i == position {
            state.candidates.len() - 1
        } else {
            i
        };
        assert(rest.candidates[i] == state.candidates[from]);
    }
    assert(state_sound(goal, values, allowed, rest));
    let neighbors = neighbors_at(nodes, chosen as int, layer);
    lemma_neighbors_in_range(nodes, chosen as int, layer);
    assert forall|k: int| 0 <= k < neighbors.len() implies allowed(
        #[trigger] neighbors[k] as usize,
    ) by {
        assert(neighbors_at(nodes, chosen as int, layer)[k] == neighbors[k]);
    }
    lemma_sound_after_neighbors(goal, values, allowed, rest, neighbors, neighbors.len());
}

proof fn lemma_sound_after_rounds(
    nodes: Seq<NodeModel>,
    layer: nat,
    goal: LayerGoal,
    values: Seq<Result<u32, nat>>,
    allowed: spec_fn(usize) -> bool,
    state: LayerState,
    rounds: nat,
)
    requires
        links_in_range(nodes),
        nodes.len() == values.len(),
        closed_under_links(nodes, layer, allowed),
        state_sound(goal, values, allowed, state),
    ensures
        after_rounds(nodes, layer, goal, values, state, rounds) matches Ok(end) ==> {
            &&& state_sound(goal, values, allowed, end)
            &&& state.results.len() > 0 ==> end.results.len() > 0
        },
    decreases rounds,
{
    if rounds > 0 && !is_settled(goal, state) {
        lemma_sound_after_round(nodes, layer, goal, values, allowed, state);
        match after_round(nodes, layer, goal, values, state) {
            Err(_) => {},
            Ok(next) => {
                lemma_sound_after_rounds(
                    nodes,
                    layer,
                    goal,
                    values,
                    allowed,
                    next,
                    (rounds - 1) as nat,
                );
            },
        }
    }
}

/// What a search on one layer returns: distinct nodes with their own values, none
/// of them the one left out, no more than `ef` (or the entry alone), and every
/// node that it looked at where there are fewer.
pub proof fn law_layer_search(
    nodes: Seq<NodeModel>,
    layer: nat,
    goal: LayerGoal,
    values: Seq<Result<u32, nat>>,
    entry: usize,
    allowed: spec_fn(usize) -> bool,
)
    requires
        links_in_range(nodes),
        nodes.len() == values.len(),
        closed_under_links(nodes, layer, allowed),
        entry < nodes.len() ==> allowed(entry),
    ensures
        layer_search(nodes, layer, goal, values, entry) matches Ok((scored, visited)) ==> {
            &&& forall|i: int|
                0 <= i < scored.len() ==> {
                    &&& (#[trigger] scored[i]).index < nodes.len()
                    &&& values[scored[i].index as int] == Ok::<u32, nat>(scored[i].value)
                    &&& allowed(scored[i].index)
                    &&& goal.exclude != Some(scored[i].index)
                }
            &&& distinct_nodes(scored)
            &&& scored.len() <= goal.ef || scored.len() <= 1
            &&& scored.len() <= visited <= nodes.len()
            &&& scored.len() < goal.ef ==> scored.len() == visited
            &&& entry < nodes.len() && goal.exclude != Some(entry) ==> scored.len() > 0
        },
{
    match started(goal, values, entry) {
        Err(_) => {},
        Ok(start) => {
            assert(state_sound(goal, values, allowed, start));
            lemma_sound_after_rounds(nodes, layer, goal, values, allowed, start, nodes.len());
            match after_rounds(nodes, layer, goal, values, start, nodes.len()) {
                Err(_) => {},
                Ok(end) => {
                    let scored = sorted_best_first(goal.metric, end.results);
                    law_sort_keeps_nodes(goal.metric, end.results);
                    lemma_sort_members(goal.metric, end.results);
                    assert(end.results.no_duplicates());
                    assert forall|i: int| 0 <= i < scored.len() implies scored_rightly(
                        goal,
                        values,
                        allowed,
                        end.visited,
                        #[trigger] scored[i],
                    ) by {
                        assert(scored.contains(scored[i]));
                        assert(end.results.contains(scored[i]));
                        let j = choose|j: int|
                            0 <= j < end.results.len() && end.results[j] == scored[i];
                        assert(scored_rightly(
                            goal,
                            values,
                            allowed,
                            end.visited,
                            end.results[j],
                        ));
                    }
                    assert(distinct_nodes(scored)) by {
                        assert forall|i: int, j: int| 0 <= i < j < scored.len() implies (
                        #[trigger] scored[i]).index != (#[trigger] scored[j]).index by {
                            assert(scored[i] != scored[j]);
                            assert(scored_rightly(
                                goal,
                                values,
                                allowed,
                                end.visited,
                                scored[i],
                            ));
                            assert(scored_rightly(
                                goal,
                                values,
                                allowed,
                                end.visited,
                                scored[j],
                            ));
                        }
                    }
                    lemma_visited_bound(end.visited, nodes.len());
                },
            }
        },
    }
}

proof fn lemma_visited_bound(nodes: Set<usize>, count: nat)
    requires
        nodes.finite(),
        forall|node: usize| #[trigger] nodes.contains(node) ==> node < count,
    ensures
        nodes.len() <= count,
    decreases count,
{
    if count == 0 {
        assert(nodes =~= Set::empty());
    } else if count - 1 > usize::MAX {
        lemma_visited_bound(nodes, (count - 1) as nat);
    } else {
        let rest = nodes.remove((count - 1) as usize);
        assert forall|node: usize| #[trigger] rest.contains(node) implies node < count - 1 by {
            assert(nodes.contains(node));
        }
        lemma_visited_bound(rest, (count - 1) as nat);
    }
}

} // verus!
