//! What a search of a sidecar returns, in numbers.

use crate::float::single_units;
use crate::index::builder::{first_dimensions, hnsw_build, law_build_is_sound};
use crate::index::error::IndexErrorKind;
use crate::index::exact::{law_small_indexes_are_searched_exactly, passing};
use crate::index::graph::{
    links_in_range, neighbors_at, HnswBuildParams, NodeModel, RecordModel, SidecarModel,
};
use crate::index::layer::{descended, layer_search, node_values, LayerGoal};
use crate::index::layer_facts::{closed_under_links, law_layer_search};
use crate::index::reach::{base_entry, candidate_for};
use crate::index::score::{better, is_nan, law_values_compare_as_numbers, ScoredNode};
use crate::index::search::{
    entry_for_base, hnsw_search, larger, passes, picked, searchable, wider, widening_search,
};
use crate::index::search_facts::{
    law_descent_ends_at_a_peak, law_search_result, law_search_succeeds, stand_for,
};
use crate::types::DistanceMetric;
use vstd::prelude::*;

verus! {

/// What does not improve on a number is no nearer: no larger under cosine similarity and the dot
/// product, and no smaller under distance.
proof fn lemma_no_nearer(metric: DistanceMetric, left: u32, right: u32)
    requires
        left % 0x8000_0000 <= 0x7f80_0000,
        right % 0x8000_0000 <= 0x7f80_0000,
        !better(metric, left, right),
    ensures
        metric != DistanceMetric::L2 ==> single_units(left) <= single_units(right),
        metric == DistanceMetric::L2 ==> single_units(left) >= single_units(right),
{
    law_values_compare_as_numbers(left, right);
}

/// A search returns no more candidates than were asked for. Each stands for another node that the
/// filter lets through, with the record and the value of that node; and where no value is a NaN,
/// none has a smaller similarity or dot product, or a larger distance, than a later one.
pub proof fn law_results_come_nearest_first(
    sidecar: SidecarModel,
    query_len: nat,
    values: Seq<u32>,
    top_k: nat,
    filter: Option<Seq<bool>>,
)
    requires
        searchable(sidecar),
        sidecar.nodes.len() == values.len(),
        forall|i: int|
            0 <= i < values.len() ==> (#[trigger] values[i]) % 0x8000_0000 <= 0x7f80_0000,
    ensures
        hnsw_search(sidecar, query_len, values, top_k, filter) matches Ok(found) ==> {
            &&& found.candidates.len() <= top_k
            &&& exists|at: Seq<int>|
                at.len() == found.candidates.len() && at.no_duplicates() && forall|i: int|
                    0 <= i < at.len() ==> 0 <= #[trigger] at[i] < sidecar.nodes.len()
                        && found.candidates[i].record == sidecar.nodes[at[i]].record
                        && found.candidates[i].value == values[at[i]] && (filter matches Some(
                        verdicts,
                    ) ==> verdicts[at[i]])
            &&& forall|i: int, j: int|
                0 <= i < j < found.candidates.len() && sidecar.metric != DistanceMetric::L2
                    ==> single_units((#[trigger] found.candidates[i]).value) >= single_units(
                    (#[trigger] found.candidates[j]).value,
                )
            &&& forall|i: int, j: int|
                0 <= i < j < found.candidates.len() && sidecar.metric == DistanceMetric::L2
                    ==> single_units((#[trigger] found.candidates[i]).value) <= single_units(
                    (#[trigger] found.candidates[j]).value,
                )
        },
{
    law_search_result(sidecar, query_len, values, top_k, filter);
    assert forall|i: int| 0 <= i < values.len() implies !is_nan(#[trigger] values[i]) by {
        assert(values[i] % 0x8000_0000 <= 0x7f80_0000);
    }
    match hnsw_search(sidecar, query_len, values, top_k, filter) {
        Err(_) => {},
        Ok(found) => {
            let at = choose|at: Seq<int>|
                stand_for(found.candidates, sidecar.nodes, values, filter, at);
            assert forall|i: int| 0 <= i < at.len() implies 0 <= #[trigger] at[i]
                < sidecar.nodes.len() && found.candidates[i].record
                == sidecar.nodes[at[i]].record && found.candidates[i].value == values[at[i]] && (
            filter matches Some(verdicts) ==> verdicts[at[i]]) by {
                assert(passes(filter, at[i]));
            }
            assert forall|i: int| 0 <= i < found.candidates.len() implies (
            #[trigger] found.candidates[i]).value % 0x8000_0000 <= 0x7f80_0000 by {
                assert(values[at[i]] % 0x8000_0000 <= 0x7f80_0000);
            }
            assert forall|i: int, j: int| 0 <= i < j < found.candidates.len() implies (
            sidecar.metric != DistanceMetric::L2 ==> single_units(
                (#[trigger] found.candidates[i]).value,
            ) >= single_units((#[trigger] found.candidates[j]).value)) && (sidecar.metric
                == DistanceMetric::L2 ==> single_units(found.candidates[i].value) <= single_units(
                found.candidates[j].value,
            )) by {
                lemma_no_nearer(
                    sidecar.metric,
                    found.candidates[j].value,
                    found.candidates[i].value,
                );
            }
        },
    }
}

/// A sidecar built from no more entries than a node can have neighbors, and one, is searched
/// exactly, where the breadth of the search is at least two and no value is a NaN: there are as
/// many candidates as entries pass the filter, or as were asked for; and an entry that passes and
/// is left out has no larger similarity or dot product, and no smaller distance, than any of them.
pub proof fn law_small_indexes_return_the_nearest(
    segment_id: Seq<char>,
    metric: DistanceMetric,
    params: HnswBuildParams,
    entries: Seq<RecordModel>,
    hashes: Seq<u64>,
    rows: Seq<Seq<u32>>,
    values: Seq<u32>,
    top_k: nat,
    filter: Option<Seq<bool>>,
)
    requires
        entries.len() <= params.max_neighbors + 1,
        entries.len() <= 0x1_0000_0000,
        entries.len() <= usize::MAX,
        first_dimensions(entries) <= usize::MAX,
        top_k > 0,
        params.ef_search >= 2 || top_k >= 2,
        values.len() == entries.len(),
        forall|i: int|
            0 <= i < values.len() ==> (#[trigger] values[i]) % 0x8000_0000 <= 0x7f80_0000,
    ensures
        hnsw_build(segment_id, metric, params, entries, hashes, rows) matches Ok(sidecar) ==> {
            let passing_entries = Set::new(
                |node: int|
                    0 <= node < entries.len() && (filter matches Some(verdicts) ==> verdicts[node]),
            );
            &&& hnsw_search(sidecar, first_dimensions(entries), values, top_k, filter) matches Ok(
                found,
            )
            &&& found.candidates.len() == (if passing_entries.len() < top_k {
                passing_entries.len()
            } else {
                top_k
            })
            &&& forall|node: int|
                #![trigger values[node]]
                0 <= node < entries.len() && (filter matches Some(verdicts) ==> verdicts[node]) ==> {
                    ||| exists|i: int|
                        0 <= i < found.candidates.len() && (
                        #[trigger] found.candidates[i]).record == entries[node]
                            && found.candidates[i].value == values[node]
                    ||| metric != DistanceMetric::L2 && forall|i: int|
                        0 <= i < found.candidates.len() ==> single_units(values[node])
                            <= single_units((#[trigger] found.candidates[i]).value)
                    ||| metric == DistanceMetric::L2 && forall|i: int|
                        0 <= i < found.candidates.len() ==> single_units(values[node])
                            >= single_units((#[trigger] found.candidates[i]).value)
                }
        },
{
    assert forall|i: int| 0 <= i < values.len() implies !is_nan(#[trigger] values[i]) by {
        assert(values[i] % 0x8000_0000 <= 0x7f80_0000);
    }
    law_small_indexes_are_searched_exactly(
        segment_id,
        metric,
        params,
        entries,
        hashes,
        rows,
        values,
        top_k,
        filter,
    );
    law_build_is_sound(segment_id, metric, params, entries, hashes, rows);
    match hnsw_build(segment_id, metric, params, entries, hashes, rows) {
        Err(_) => {},
        Ok(sidecar) => {
            let found = hnsw_search(sidecar, first_dimensions(entries), values, top_k, filter)->Ok_0;
            let passing_entries = Set::new(
                |node: int|
                    0 <= node < entries.len() && (filter matches Some(verdicts) ==> verdicts[node]),
            );
            assert(passing(filter, entries.len()) =~= passing_entries);
            crate::index::validity::lemma_sound_links_in_range(sidecar.nodes);
            assert(searchable(sidecar));
            law_search_result(sidecar, first_dimensions(entries), values, top_k, filter);
            let at = choose|at: Seq<int>|
                stand_for(found.candidates, sidecar.nodes, values, filter, at);
            assert forall|i: int| 0 <= i < found.candidates.len() implies (
            #[trigger] found.candidates[i]).value % 0x8000_0000 <= 0x7f80_0000 by {
                assert(0 <= at[i] < sidecar.nodes.len());
                assert(values[at[i]] % 0x8000_0000 <= 0x7f80_0000);
            }
            assert forall|node: int|
                #![trigger values[node]]
                0 <= node < entries.len() && (filter matches Some(verdicts)
                    ==> verdicts[node]) implies {
                ||| exists|i: int|
                    0 <= i < found.candidates.len() && (#[trigger] found.candidates[i]).record
                        == entries[node] && found.candidates[i].value == values[node]
                ||| metric != DistanceMetric::L2 && forall|i: int|
                    0 <= i < found.candidates.len() ==> single_units(values[node]) <= single_units(
                        (#[trigger] found.candidates[i]).value,
                    )
                ||| metric == DistanceMetric::L2 && forall|i: int|
                    0 <= i < found.candidates.len() ==> single_units(values[node]) >= single_units(
                        (#[trigger] found.candidates[i]).value,
                    )
            } by {
                assert(passes(filter, node));
                let wanted = candidate_for(sidecar.nodes, values, node);
                if found.candidates.contains(wanted) {
                    let i = choose|i: int|
                        0 <= i < found.candidates.len() && found.candidates[i] == wanted;
                    assert(found.candidates[i].record == entries[node]);
                } else {
                    assert forall|i: int| 0 <= i < found.candidates.len() implies (metric
                        != DistanceMetric::L2 ==> single_units(values[node]) <= single_units(
                        (#[trigger] found.candidates[i]).value,
                    )) && (metric == DistanceMetric::L2 ==> single_units(values[node])
                        >= single_units(found.candidates[i].value)) by {
                        assert(values[node] % 0x8000_0000 <= 0x7f80_0000);
                        lemma_no_nearer(metric, values[node], found.candidates[i].value);
                    }
                }
            }
        },
    }
}

/// A search that asks for nothing, or of a sidecar without nodes, finds nothing and looks at
/// nothing; any other whose query does not have the dimensions of the sidecar is refused as invalid
/// input; and one that has them succeeds where every vector does too.
pub proof fn law_when_searches_succeed(
    sidecar: SidecarModel,
    query_len: nat,
    values: Seq<u32>,
    top_k: nat,
    filter: Option<Seq<bool>>,
)
    requires
        searchable(sidecar),
        sidecar.nodes.len() == values.len(),
        sidecar.nodes.len() <= usize::MAX,
    ensures
        top_k == 0 || sidecar.nodes.len() == 0 ==> (hnsw_search(
            sidecar,
            query_len,
            values,
            top_k,
            filter,
        ) matches Ok(found) && found.candidates.len() == 0 && found.stats.visited_nodes == 0
            && found.stats.candidate_count == 0 && found.stats.filtered_out_count == 0),
        top_k > 0 && sidecar.nodes.len() > 0 && query_len != sidecar.dimensions ==> (hnsw_search(
            sidecar,
            query_len,
            values,
            top_k,
            filter,
        ) matches Err(error) && error.kind == IndexErrorKind::InvalidInput),
        query_len == sidecar.dimensions && (forall|i: int|
            0 <= i < sidecar.nodes.len() ==> (#[trigger] sidecar.nodes[i]).record.vector.len()
                == query_len) ==> hnsw_search(sidecar, query_len, values, top_k, filter) is Ok,
{
    if query_len == sidecar.dimensions && (forall|i: int|
        0 <= i < sidecar.nodes.len() ==> (#[trigger] sidecar.nodes[i]).record.vector.len()
            == query_len) && top_k > 0 && sidecar.nodes.len() > 0 {
        law_search_succeeds(sidecar, values, top_k, filter);
    }
}

proof fn lemma_picked_counts(
    scored: Seq<ScoredNode>,
    filter: Option<Seq<bool>>,
    top_k: nat,
    count: nat,
)
    ensures
        picked(scored, filter, top_k, count).0.len() <= top_k,
        picked(scored, filter, top_k, count).0.len() + picked(scored, filter, top_k, count).1
            <= count,
        filter is None ==> picked(scored, filter, top_k, count).1 == 0 && picked(
            scored,
            filter,
            top_k,
            count,
        ).0.len() == (if count < top_k {
            count
        } else {
            top_k
        }),
    decreases count,
{
    if count > 0 {
        lemma_picked_counts(scored, filter, top_k, (count - 1) as nat);
    }
}

proof fn lemma_widening_breadth(
    nodes: Seq<NodeModel>,
    metric: DistanceMetric,
    values: Seq<Result<u32, nat>>,
    entry: int,
    ef: nat,
    top_k: nat,
    filter: Option<Seq<bool>>,
)
    requires
        links_in_range(nodes),
        nodes.len() == values.len(),
        ef > 0,
    ensures
        widening_search(nodes, metric, values, entry, ef, top_k, filter) matches Ok((kept, stats))
            ==> {
            &&& stats.candidate_count <= stats.visited_nodes <= nodes.len()
            &&& stats.candidate_count < ef ==> stats.candidate_count == stats.visited_nodes
            &&& kept.len() + stats.filtered_out_count <= stats.candidate_count
            &&& filter is None ==> {
                &&& stats.candidate_count <= ef
                &&& stats.filtered_out_count == 0
                &&& kept.len() == (if stats.candidate_count < top_k {
                    stats.candidate_count
                } else {
                    top_k
                })
            }
        },
    decreases nodes.len() - ef,
{
    let goal = LayerGoal { metric, ef, exclude: None };
    let anywhere = |node: usize| true;
    assert(closed_under_links(nodes, 0, anywhere));
    law_layer_search(nodes, 0, goal, values, entry as usize, anywhere);
    match layer_search(nodes, 0, goal, values, entry as usize) {
        Err(_) => {},
        Ok((scored, visited)) => {
            lemma_picked_counts(scored, filter, top_k, scored.len());
            let kept = picked(scored, filter, top_k, scored.len()).0;
            if !(filter is None || kept.len() == top_k || ef >= nodes.len() || ef == 0) {
                lemma_widening_breadth(
                    nodes,
                    metric,
                    values,
                    entry,
                    wider(ef, nodes.len()),
                    top_k,
                    filter,
                );
            }
        },
    }
}

/// A search is as broad as the sidecar's own breadth or the number of candidates asked for,
/// whichever is more: it weighs that many nodes, or all that it looks at. Without a filter it
/// weighs no more, turns none away, and returns as many as it weighs, or as were asked for.
pub proof fn law_searches_are_broad(
    sidecar: SidecarModel,
    query_len: nat,
    values: Seq<u32>,
    top_k: nat,
    filter: Option<Seq<bool>>,
)
    requires
        searchable(sidecar),
        sidecar.nodes.len() == values.len(),
        top_k > 0,
    ensures
        hnsw_search(sidecar, query_len, values, top_k, filter) matches Ok(found) ==> {
            &&& found.stats.candidate_count <= found.stats.visited_nodes <= sidecar.nodes.len()
            &&& found.stats.candidate_count < sidecar.params.ef_search
                || found.stats.candidate_count < top_k ==> found.stats.candidate_count
                == found.stats.visited_nodes
            &&& found.candidates.len() + found.stats.filtered_out_count
                <= found.stats.candidate_count
            &&& filter is None ==> {
                &&& found.stats.candidate_count <= sidecar.params.ef_search
                    || found.stats.candidate_count <= top_k
                &&& found.stats.filtered_out_count == 0
                &&& found.candidates.len() == (if found.stats.candidate_count < top_k {
                    found.stats.candidate_count
                } else {
                    top_k
                })
            }
        },
{
    let table = node_values(sidecar.nodes, query_len, values);
    match hnsw_search(sidecar, query_len, values, top_k, filter) {
        Err(_) => {},
        Ok(_) => {
            if sidecar.nodes.len() > 0 {
                lemma_widening_breadth(
                    sidecar.nodes,
                    sidecar.metric,
                    table,
                    base_entry(sidecar, query_len, values)->Ok_0,
                    larger(sidecar.params.ef_search as nat, top_k),
                    top_k,
                    filter,
                );
            }
        },
    }
}

/// Whether a node is one that no neighbor on a layer is nearer than.
pub open spec fn is_peak(
    nodes: Seq<NodeModel>,
    metric: DistanceMetric,
    values: Seq<u32>,
    layer: nat,
    node: int,
) -> bool {
    forall|k: int|
        0 <= k < neighbors_at(nodes, node, layer).len() ==> {
            let neighbor = values[(#[trigger] neighbors_at(nodes, node, layer)[k]) as int];
            if metric == DistanceMetric::L2 {
                single_units(neighbor) >= single_units(values[node])
            } else {
                single_units(neighbor) <= single_units(values[node])
            }
        }
}

/// Whether nodes are the stops of a descent: one for each layer above the base, from the lowest up,
/// each a peak on its layer and at least as near as the one above.
pub open spec fn are_stops(
    nodes: Seq<NodeModel>,
    metric: DistanceMetric,
    values: Seq<u32>,
    stops: Seq<int>,
    start: int,
) -> bool {
    forall|i: int|
        0 <= i < stops.len() ==> {
            let above = if i + 1 < stops.len() {
                stops[i + 1]
            } else {
                start
            };
            &&& 0 <= #[trigger] stops[i] < nodes.len()
            &&& is_peak(nodes, metric, values, (i + 1) as nat, stops[i])
            &&& if metric == DistanceMetric::L2 {
                single_units(values[stops[i]]) <= single_units(values[above])
            } else {
                single_units(values[stops[i]]) >= single_units(values[above])
            }
        }
}

proof fn lemma_nearer(metric: DistanceMetric, left: u32, right: u32)
    requires
        left % 0x8000_0000 <= 0x7f80_0000,
        right % 0x8000_0000 <= 0x7f80_0000,
        better(metric, left, right),
    ensures
        metric != DistanceMetric::L2 ==> single_units(left) > single_units(right),
        metric == DistanceMetric::L2 ==> single_units(left) < single_units(right),
{
    law_values_compare_as_numbers(left, right);
}

proof fn lemma_stops(
    nodes: Seq<NodeModel>,
    metric: DistanceMetric,
    query_len: nat,
    values: Seq<u32>,
    layer: nat,
    start: int,
) -> (stops: Seq<int>)
    requires
        links_in_range(nodes),
        nodes.len() == values.len(),
        0 <= start < nodes.len(),
        forall|i: int| 0 <= i < nodes.len() ==> (#[trigger] nodes[i]).record.vector.len()
            == query_len,
        forall|i: int|
            0 <= i < values.len() ==> (#[trigger] values[i]) % 0x8000_0000 <= 0x7f80_0000,
    ensures
        entry_for_base(
            nodes,
            metric,
            node_values(nodes, query_len, values),
            layer,
            start,
        ) matches Ok(end) ==> {
            &&& stops.len() == layer
            &&& are_stops(nodes, metric, values, stops, start)
            &&& end == (if layer > 0 {
                stops[0]
            } else {
                start
            })
        },
    decreases layer,
{
    let table = node_values(nodes, query_len, values);
    if layer == 0 {
        Seq::empty()
    } else {
        law_descent_ends_at_a_peak(nodes, metric, table, layer, start);
        match descended(nodes, metric, table, layer, start) {
            Err(_) => Seq::empty(),
            Ok(next) => {
                let lower = lemma_stops(
                    nodes,
                    metric,
                    query_len,
                    values,
                    (layer - 1) as nat,
                    next,
                );
                let stops = lower.push(next);
                if entry_for_base(nodes, metric, table, layer, start) is Ok {
                    assert(table[next] == Ok::<u32, nat>(values[next]));
                    assert(nodes[start].record.vector.len() == query_len);
                    assert(table[start] == Ok::<u32, nat>(values[start]));
                    assert(values[next] % 0x8000_0000 <= 0x7f80_0000);
                    assert(values[start] % 0x8000_0000 <= 0x7f80_0000);
                    assert(is_peak(nodes, metric, values, layer, next)) by {
                        let neighbors = neighbors_at(nodes, next, layer);
                        crate::index::graph::lemma_neighbors_in_range(nodes, next, layer);
                        assert forall|k: int| 0 <= k < neighbors.len() implies ({
                            let neighbor = values[(#[trigger] neighbors[k]) as int];
                            if metric == DistanceMetric::L2 {
                                single_units(neighbor) >= single_units(values[next])
                            } else {
                                single_units(neighbor) <= single_units(values[next])
                            }
                        }) by {
                            let at = neighbors[k] as int;
                            assert(nodes[at].record.vector.len() == query_len);
                            assert(table[at] == Ok::<u32, nat>(values[at]));
                            assert(values[at] % 0x8000_0000 <= 0x7f80_0000);
                            lemma_no_nearer(metric, values[at], values[next]);
                        }
                    }
                    if next != start {
                        lemma_nearer(metric, values[next], values[start]);
                    }
                    assert forall|i: int| 0 <= i < stops.len() implies ({
                        let above = if i + 1 < stops.len() {
                            stops[i + 1]
                        } else {
                            start
                        };
                        &&& 0 <= #[trigger] stops[i] < nodes.len()
                        &&& is_peak(nodes, metric, values, (i + 1) as nat, stops[i])
                        &&& if metric == DistanceMetric::L2 {
                            single_units(values[stops[i]]) <= single_units(values[above])
                        } else {
                            single_units(values[stops[i]]) >= single_units(values[above])
                        }
                    }) by {
                        if i < lower.len() {
                            assert(stops[i] == lower[i]);
                            assert(0 <= lower[i] < nodes.len());
                        }
                    }
                }
                stops
            },
        }
    }
}

/// A search goes down from the entry point layer by layer, and on each above the base stops at a
/// node that is at least as near as where it came from and that no neighbor there is nearer than;
/// the last stop is where it enters the base layer.
pub proof fn law_searches_descend_layer_by_layer(
    sidecar: SidecarModel,
    values: Seq<u32>,
)
    requires
        links_in_range(sidecar.nodes),
        sidecar.nodes.len() == values.len(),
        sidecar.entry_point matches Some(entry) && entry < sidecar.nodes.len(),
        forall|i: int|
            0 <= i < sidecar.nodes.len() ==> (#[trigger] sidecar.nodes[i]).record.vector.len()
                == sidecar.dimensions,
        forall|i: int|
            0 <= i < values.len() ==> (#[trigger] values[i]) % 0x8000_0000 <= 0x7f80_0000,
    ensures
        base_entry(sidecar, sidecar.dimensions as nat, values) matches Ok(end) ==> exists|
            stops: Seq<int>,
        |
            stops.len() == sidecar.max_level && #[trigger] are_stops(
                sidecar.nodes,
                sidecar.metric,
                values,
                stops,
                sidecar.entry_point->0 as int,
            ) && end == (if sidecar.max_level > 0 {
                stops[0]
            } else {
                sidecar.entry_point->0 as int
            }),
{
    let stops = lemma_stops(
        sidecar.nodes,
        sidecar.metric,
        sidecar.dimensions as nat,
        values,
        sidecar.max_level as nat,
        sidecar.entry_point->0 as int,
    );
    if base_entry(sidecar, sidecar.dimensions as nat, values) is Ok {
        assert(are_stops(
            sidecar.nodes,
            sidecar.metric,
            values,
            stops,
            sidecar.entry_point->0 as int,
        ));
    }
}

} // verus!
