//! What the steps of a search do, in numbers.

use crate::float::single_units;
use crate::index::error::{ErrorModel, IndexErrorKind};
use crate::index::graph::SidecarModel;
use crate::index::layer::{
    greedy_step, is_promising, is_settled, next_candidate, node_values, with_result, LayerGoal,
    LayerState,
};
use crate::index::ranking::{
    law_best_is_the_first_of_the_nearest, law_removal_moves_the_last,
    law_worst_is_the_last_of_the_farthest,
};
use crate::index::score::{
    law_values_compare_as_numbers, swap_removed, worst_position, ScoredNode,
};
use crate::index::search::{hnsw_search, picked, wider, SearchModel};
use crate::text::decimal;
use crate::types::DistanceMetric;
use vstd::prelude::*;

verus! {

/// Whether one value is nearer than another: larger under cosine similarity and the dot product,
/// and smaller under distance.
pub open spec fn nearer(metric: DistanceMetric, left: u32, right: u32) -> bool {
    match metric {
        DistanceMetric::Cosine => single_units(left) > single_units(right),
        DistanceMetric::Dot => single_units(left) > single_units(right),
        DistanceMetric::L2 => single_units(left) < single_units(right),
    }
}

/// Whether the values of some nodes are numbers.
pub open spec fn numbers(scored: Seq<ScoredNode>) -> bool {
    forall|i: int|
        0 <= i < scored.len() ==> (#[trigger] scored[i]).value % 0x8000_0000 <= 0x7f80_0000
}

/// A greedy step leads to the nearest of the neighbors, to the first of them where several are
/// as near, and stays where none is nearer.
pub proof fn law_greedy_steps_lead_to_the_nearest(
    metric: DistanceMetric,
    values: Seq<Result<u32, nat>>,
    neighbors: Seq<u32>,
    count: nat,
    start: int,
)
    requires
        0 <= start < values.len(),
        count <= neighbors.len(),
        forall|k: int| 0 <= k < count ==> #[trigger] neighbors[k] < values.len(),
        forall|i: int|
            0 <= i < values.len() ==> (#[trigger] values[i]) is Ok && values[i]->Ok_0 % 0x8000_0000
                <= 0x7f80_0000,
    ensures
        greedy_step(metric, values, neighbors, count, start) matches Ok(end) && {
            &&& 0 <= end < values.len()
            &&& forall|k: int|
                0 <= k < count ==> !nearer(
                    metric,
                    values[#[trigger] neighbors[k] as int]->Ok_0,
                    values[end]->Ok_0,
                )
            &&& !nearer(metric, values[start]->Ok_0, values[end]->Ok_0)
            &&& end != start ==> {
                &&& nearer(metric, values[end]->Ok_0, values[start]->Ok_0)
                &&& exists|k: int|
                    0 <= k < count && #[trigger] neighbors[k] == end && forall|j: int|
                        0 <= j < k ==> nearer(
                            metric,
                            values[end]->Ok_0,
                            values[#[trigger] neighbors[j] as int]->Ok_0,
                        )
            }
        },
    decreases count,
{
    if count > 0 {
        law_greedy_steps_lead_to_the_nearest(metric, values, neighbors, (count - 1) as nat, start);
        let before = greedy_step(metric, values, neighbors, (count - 1) as nat, start)->Ok_0;
        let neighbor = neighbors[count - 1] as int;
        assert(values[neighbor] is Ok && values[before] is Ok && values[start] is Ok);
        law_values_compare_as_numbers(values[neighbor]->Ok_0, values[before]->Ok_0);
        let end = greedy_step(metric, values, neighbors, count, start)->Ok_0;
        if nearer(metric, values[neighbor]->Ok_0, values[before]->Ok_0) {
            assert(end == neighbor);
            if end != start {
                assert(neighbors[count - 1] == end);
                assert forall|j: int| 0 <= j < count - 1 implies nearer(
                    metric,
                    values[end]->Ok_0,
                    values[#[trigger] neighbors[j] as int]->Ok_0,
                ) by {
                    assert(!nearer(metric, values[neighbors[j] as int]->Ok_0, values[before]->Ok_0));
                }
            }
        } else {
            assert(end == before);
            if end != start {
                let k = choose|k: int|
                    0 <= k < count - 1 && #[trigger] neighbors[k] == end && forall|j: int|
                        0 <= j < k ==> nearer(
                            metric,
                            values[end]->Ok_0,
                            values[#[trigger] neighbors[j] as int]->Ok_0,
                        );
                assert(neighbors[k] == end);
            }
        }
    }
}

/// A value enters a result that is not full, and a full one exactly when it is nearer than the
/// farthest there.
pub proof fn law_nearer_values_enter_a_result(
    goal: LayerGoal,
    results: Seq<ScoredNode>,
    value: u32,
)
    requires
        value % 0x8000_0000 <= 0x7f80_0000,
        numbers(results),
    ensures
        results.len() < goal.ef ==> is_promising(goal, results, value),
        results.len() >= goal.ef ==> (is_promising(goal, results, value) <==> exists|i: int|
            0 <= i < results.len() && nearer(goal.metric, value, (#[trigger] results[i]).value)),
{
    if results.len() > 0 && results.len() >= goal.ef {
        law_worst_is_the_last_of_the_farthest(goal.metric, results, results.len());
        let worst = worst_position(goal.metric, results, results.len());
        assert(results[worst].value % 0x8000_0000 <= 0x7f80_0000);
        law_values_compare_as_numbers(value, results[worst].value);
        assert(is_promising(goal, results, value) <==> nearer(
            goal.metric,
            value,
            results[worst].value,
        ));
    }
}

/// A result holds no more than it may. Where a node is added to a full one, a farthest node
/// leaves, the latest of those, and the last one takes its place.
pub proof fn law_full_results_lose_the_farthest(
    goal: LayerGoal,
    results: Seq<ScoredNode>,
    node: ScoredNode,
)
    requires
        numbers(results),
        node.value % 0x8000_0000 <= 0x7f80_0000,
    ensures
        results.len() < goal.ef ==> with_result(goal, results, node) == results.push(node),
        results.len() >= goal.ef ==> exists|gone: int| #[trigger]
            leaves(goal.metric, results.push(node), gone) && with_result(goal, results, node)
                == results.push(node).update(gone, node).drop_last(),
{
    let longer = results.push(node);
    if results.len() >= goal.ef {
        assert(numbers(longer));
        let gone = worst_position(goal.metric, longer, longer.len());
        law_worst_is_the_last_of_the_farthest(goal.metric, longer, longer.len());
        law_removal_moves_the_last(longer, gone);
        assert(leaves(goal.metric, longer, gone));
        assert(swap_removed(longer, gone) =~= longer.update(gone, node).drop_last());
    }
}

/// Whether a node is the last of the farthest.
pub open spec fn leaves(metric: DistanceMetric, scored: Seq<ScoredNode>, gone: int) -> bool {
    &&& 0 <= gone < scored.len()
    &&& forall|i: int|
        0 <= i < scored.len() ==> !nearer(
            metric,
            scored[gone].value,
            (#[trigger] scored[i]).value,
        )
    &&& forall|i: int|
        gone < i < scored.len() ==> nearer(
            metric,
            (#[trigger] scored[i]).value,
            scored[gone].value,
        )
}

/// A search ends when there is nothing left to expand, or when its result is full and no
/// candidate is nearer than the farthest node of the result.
pub proof fn law_searches_end_when_nothing_is_nearer(goal: LayerGoal, state: LayerState)
    requires
        numbers(state.candidates),
        numbers(state.results),
        state.results.len() > 0,
    ensures
        is_settled(goal, state) <==> {
            ||| state.candidates.len() == 0
            ||| state.results.len() >= goal.ef && forall|i: int, j: int|
                #![trigger state.candidates[i], state.results[j]]
                0 <= i < state.candidates.len() && (0 <= j < state.results.len() && forall|k: int|
                    0 <= k < state.results.len() ==> !nearer(
                        goal.metric,
                        state.results[j].value,
                        (#[trigger] state.results[k]).value,
                    )) ==> !nearer(
                    goal.metric,
                    state.candidates[i].value,
                    state.results[j].value,
                )
        },
{
    if state.candidates.len() > 0 {
        let best = next_candidate(goal, state);
        let worst = worst_position(goal.metric, state.results, state.results.len());
        law_best_is_the_first_of_the_nearest(
            goal.metric,
            state.candidates,
            state.candidates.len(),
        );
        law_worst_is_the_last_of_the_farthest(goal.metric, state.results, state.results.len());
        assert(state.candidates[best].value % 0x8000_0000 <= 0x7f80_0000);
        assert(state.results[worst].value % 0x8000_0000 <= 0x7f80_0000);
        law_values_compare_as_numbers(state.candidates[best].value, state.results[worst].value);
        if nearer(goal.metric, state.candidates[best].value, state.results[worst].value) {
            assert(!is_settled(goal, state) || state.results.len() < goal.ef);
        }
    }
}

/// A filtered search keeps, in order, the nodes that pass, until it has as many as were asked for,
/// and counts those that it turned away on the way.
pub proof fn law_passing_nodes_are_kept_in_order(
    scored: Seq<ScoredNode>,
    verdicts: Seq<bool>,
    top_k: nat,
) -> (seen: int)
    requires
        top_k > 0,
    ensures
        0 <= seen <= scored.len(),
        picked(scored, Some(verdicts), top_k, scored.len()).0 == scored.take(seen).filter(
            |node: ScoredNode| verdicts[node.index as int],
        ),
        picked(scored, Some(verdicts), top_k, scored.len()).1 == seen - picked(
            scored,
            Some(verdicts),
            top_k,
            scored.len(),
        ).0.len(),
        picked(scored, Some(verdicts), top_k, scored.len()).0.len() <= top_k,
        seen < scored.len() ==> picked(scored, Some(verdicts), top_k, scored.len()).0.len()
            == top_k,
        seen > 0 && picked(scored, Some(verdicts), top_k, scored.len()).0.len() == top_k
            ==> verdicts[scored[seen - 1].index as int],
{
    lemma_picked(scored, verdicts, top_k, scored.len())
}

proof fn lemma_picked(
    scored: Seq<ScoredNode>,
    verdicts: Seq<bool>,
    top_k: nat,
    count: nat,
) -> (seen: int)
    requires
        top_k > 0,
        count <= scored.len(),
    ensures
        0 <= seen <= count,
        picked(scored, Some(verdicts), top_k, count).0 == scored.take(seen).filter(
            |node: ScoredNode| verdicts[node.index as int],
        ),
        picked(scored, Some(verdicts), top_k, count).1 == seen - picked(
            scored,
            Some(verdicts),
            top_k,
            count,
        ).0.len(),
        picked(scored, Some(verdicts), top_k, count).0.len() <= top_k,
        seen < count ==> picked(scored, Some(verdicts), top_k, count).0.len() == top_k,
        seen > 0 && picked(scored, Some(verdicts), top_k, count).0.len() == top_k
            ==> verdicts[scored[seen - 1].index as int],
    decreases count,
{
    reveal(Seq::filter);
    let test = |node: ScoredNode| verdicts[node.index as int];
    if count == 0 {
        assert(scored.take(0).filter(test) =~= Seq::empty());
        0
    } else {
        let before = lemma_picked(scored, verdicts, top_k, (count - 1) as nat);
        let kept = picked(scored, Some(verdicts), top_k, (count - 1) as nat);
        if kept.0.len() == top_k {
            before
        } else {
            assert(before == count - 1);
            let longer = scored.take(count as int);
            assert(longer.drop_last() =~= scored.take(before));
            assert(longer.last() == scored[count - 1]);
            count as int
        }
    }
}

/// Without a filter, a search keeps the first nodes, as many as were asked for.
pub proof fn law_unfiltered_nodes_are_kept_in_order(scored: Seq<ScoredNode>, top_k: nat)
    ensures
        scored.len() <= top_k ==> picked(scored, None, top_k, scored.len()) == (scored, 0nat),
        scored.len() > top_k ==> picked(scored, None, top_k, scored.len()) == (
            scored.take(top_k as int),
            0nat,
        ),
{
    lemma_unfiltered(scored, top_k, scored.len());
    assert(scored.take(scored.len() as int) =~= scored);
}

proof fn lemma_unfiltered(scored: Seq<ScoredNode>, top_k: nat, count: nat)
    requires
        count <= scored.len(),
    ensures
        count <= top_k ==> picked(scored, None, top_k, count) == (scored.take(count as int), 0nat),
        count > top_k ==> picked(scored, None, top_k, count) == (scored.take(top_k as int), 0nat),
    decreases count,
{
    if count > 0 {
        lemma_unfiltered(scored, top_k, (count - 1) as nat);
        assert(scored.take(count - 1).push(scored[count - 1]) =~= scored.take(count as int));
    } else {
        assert(scored.take(0) =~= Seq::empty());
    }
}

/// A search that has found too little is repeated with twice the breadth, though with no more than
/// all nodes.
pub proof fn law_searches_widen_twofold(ef: nat, count: nat)
    ensures
        2 * ef <= count ==> wider(ef, count) == 2 * ef,
        2 * ef >= count ==> wider(ef, count) == count,
{
}

/// A query of another length than the dimensions of the index is refused, and both lengths are named.
pub proof fn law_misfit_queries_are_named(
    sidecar: SidecarModel,
    query_len: nat,
    values: Seq<u32>,
    top_k: nat,
    filter: Option<Seq<bool>>,
)
    requires
        top_k > 0,
        sidecar.nodes.len() > 0,
        query_len != sidecar.dimensions,
    ensures
        hnsw_search(sidecar, query_len, values, top_k, filter) == Err::<SearchModel, ErrorModel>(
            (ErrorModel {
                kind: IndexErrorKind::InvalidInput,
                message: "query expected "@ + decimal(sidecar.dimensions as nat)
                    + " dimensions but found "@ + decimal(query_len),
            }),
        ),
{
}

/// Where the vector at the entry point has another length than the query, the search is refused, and
/// both lengths are named.
pub proof fn law_misfit_entry_points_are_named(
    sidecar: SidecarModel,
    values: Seq<u32>,
    top_k: nat,
    filter: Option<Seq<bool>>,
)
    requires
        top_k > 0,
        sidecar.nodes.len() == values.len(),
        sidecar.entry_point matches Some(entry) && entry < sidecar.nodes.len()
            && sidecar.nodes[entry as int].record.vector.len() != sidecar.dimensions,
    ensures
        hnsw_search(sidecar, sidecar.dimensions as nat, values, top_k, filter) == Err::<
            SearchModel,
            ErrorModel,
        >(
            (ErrorModel {
                kind: IndexErrorKind::InvalidInput,
                message: "vector expected "@ + decimal(sidecar.dimensions as nat)
                    + " dimensions but found "@ + decimal(
                    sidecar.nodes[sidecar.entry_point->0 as int].record.vector.len(),
                ),
            }),
        ),
{
    let table = node_values(sidecar.nodes, sidecar.dimensions as nat, values);
    let entry = sidecar.entry_point->0 as int;
    assert(table[entry] == Err::<u32, nat>(sidecar.nodes[entry].record.vector.len()));
}

} // verus!
