//! Which neighbors a node keeps while a graph grows, in numbers.

use crate::float::single_units;
use crate::index::builder::{
    dimension_fault, empty_sidecar, filled, first_dimensions, lemma_filled,
    lemma_no_dimension_fault, level_of_hash,
};
use crate::index::construction::{
    connected, entry_above, inserted, lemma_connected, lemma_entry_above, lemma_grown_sound,
    lemma_linked, lemma_one_link, lemma_selected, linkable, linked, linked_down, lone_node, nearest,
    selected_at, trimmed, uniform, with_link, with_list,
};
use crate::index::graph::{HnswBuildParams, NodeModel, RecordModel, SidecarModel};
use crate::index::layer::{layer_search, node_values, LayerGoal};
use crate::index::layer_facts::{closed_under_links, law_layer_search};
use crate::index::ranking::{
    law_nearest_leaves_out_nothing_nearer, law_trimmed_lists_keep_the_nearest,
};
use crate::index::reach::{holds, is_walk, law_layer_search_misses_nothing};
use crate::index::score::{law_sort_keeps_nodes, lemma_sort_members};
use crate::index::search::larger;
use crate::index::search_facts::all_valued;
use crate::index::tidiness::{
    lemma_tidy_connected, lemma_tidy_filled, lemma_tidy_linked, tidy, tidy_but, tidy_list,
};
use crate::index::validity::{lemma_sound_links_in_range, sound_graph, sound_links};
use crate::types::DistanceMetric;
use vstd::prelude::*;

verus! {

/// Whether a value stands for a vector at least as near as another: no smaller under cosine
/// similarity and the dot product, no larger under distance.
pub open spec fn as_near(metric: DistanceMetric, left: u32, right: u32) -> bool {
    if metric == DistanceMetric::L2 {
        single_units(left) <= single_units(right)
    } else {
        single_units(left) >= single_units(right)
    }
}

/// Whether a neighbor list loses no reference of an earlier one but to nearer ones: a reference
/// that is no longer there has made room in a full list whose references are all at least as near.
pub open spec fn retained(
    metric: DistanceMetric,
    row: Seq<u32>,
    earlier: Seq<u32>,
    later: Seq<u32>,
    limit: nat,
) -> bool {
    forall|reference: u32| #[trigger]
        earlier.contains(reference) ==> later.contains(reference) || later.len() == limit && forall|
            k: int,
        |
            0 <= k < later.len() ==> as_near(
                metric,
                row[(#[trigger] later[k]) as int],
                row[reference as int],
            )
}

/// Whether no value of a table is a NaN.
pub open spec fn rows_are_numbers(rows: Seq<Seq<u32>>, count: nat) -> bool {
    forall|a: int, b: int|
        0 <= a < count && 0 <= b < count ==> (#[trigger] rows[a][b]) % 0x8000_0000 <= 0x7f80_0000
}

/// Whether the lists of the first `count` nodes lose no reference but to nearer ones.
pub open spec fn lists_retained(
    metric: DistanceMetric,
    rows: Seq<Seq<u32>>,
    earlier: Seq<NodeModel>,
    later: Seq<NodeModel>,
    count: nat,
    limit: nat,
) -> bool {
    forall|a: int, layer: int|
        #![trigger earlier[a].neighbors[layer]]
        #![trigger later[a].neighbors[layer]]
        0 <= a < count && 0 <= layer < earlier[a].neighbors.len() ==> retained(
            metric,
            rows[a],
            earlier[a].neighbors[layer],
            later[a].neighbors[layer],
            limit,
        )
}

/// A full list that is part of a list that is not longer has every reference of it.
proof fn lemma_full_part(part: Seq<u32>, whole: Seq<u32>)
    requires
        part.no_duplicates(),
        whole.no_duplicates(),
        whole.len() <= part.len(),
        forall|reference: u32| #[trigger] part.contains(reference) ==> whole.contains(reference),
    ensures
        whole.len() == part.len(),
        forall|reference: u32| #[trigger] whole.contains(reference) ==> part.contains(reference),
{
    part.unique_seq_to_set();
    whole.unique_seq_to_set();
    let few = part.to_set();
    let many = whole.to_set();
    assert(few.subset_of(many)) by {
        assert forall|reference: u32| few.contains(reference) implies many.contains(reference) by {
            assert(part.contains(reference));
        }
    }
    vstd::set_lib::lemma_len_subset(few, many);
    vstd::set_lib::lemma_subset_equality(few, many);
    assert forall|reference: u32| #[trigger] whole.contains(reference) implies part.contains(
        reference,
    ) by {
        assert(many.contains(reference));
        assert(few.contains(reference));
    }
}

proof fn lemma_retained_transitive(
    metric: DistanceMetric,
    row: Seq<u32>,
    first: Seq<u32>,
    second: Seq<u32>,
    third: Seq<u32>,
    node: int,
    limit: nat,
)
    requires
        retained(metric, row, first, second, limit),
        retained(metric, row, second, third, limit),
        tidy_list(second, node, limit),
        tidy_list(third, node, limit),
    ensures
        retained(metric, row, first, third, limit),
{
    assert forall|reference: u32| #[trigger] first.contains(reference) implies third.contains(
        reference,
    ) || third.len() == limit && forall|k: int|
        0 <= k < third.len() ==> as_near(
            metric,
            row[(#[trigger] third[k]) as int],
            row[reference as int],
        ) by {
        if !second.contains(reference) && !third.contains(reference) {
            if exists|middle: u32| #[trigger] second.contains(middle) && !third.contains(middle) {
                let middle = choose|middle: u32| #[trigger]
                    second.contains(middle) && !third.contains(middle);
                let j = choose|j: int| 0 <= j < second.len() && second[j] == middle;
                assert(as_near(metric, row[second[j] as int], row[reference as int]));
                assert forall|k: int| 0 <= k < third.len() implies as_near(
                    metric,
                    row[(#[trigger] third[k]) as int],
                    row[reference as int],
                ) by {
                    assert(as_near(metric, row[third[k] as int], row[middle as int]));
                }
            } else {
                lemma_full_part(second, third);
                assert forall|k: int| 0 <= k < third.len() implies as_near(
                    metric,
                    row[(#[trigger] third[k]) as int],
                    row[reference as int],
                ) by {
                    assert(third.contains(third[k]));
                    assert(second.contains(third[k]));
                    let j = choose|j: int| 0 <= j < second.len() && second[j] == third[k];
                    assert(as_near(metric, row[second[j] as int], row[reference as int]));
                }
            }
        }
    }
}

proof fn lemma_retained_itself(metric: DistanceMetric, row: Seq<u32>, list: Seq<u32>, limit: nat)
    ensures
        retained(metric, row, list, list, limit),
{
}

/// A list that is trimmed once a reference has been added to it loses none but to nearer ones.
proof fn lemma_trimmed_retains(
    metric: DistanceMetric,
    row: Seq<u32>,
    list: Seq<u32>,
    added: u32,
    node: int,
    limit: nat,
)
    requires
        tidy_list(list, node, limit),
        forall|k: int|
            0 <= k < list.push(added).len() ==> row[(#[trigger] list.push(added)[k]) as int]
                % 0x8000_0000 <= 0x7f80_0000,
    ensures
        retained(metric, row, list, trimmed(metric, list.push(added), row, node, limit), limit),
{
    let longer = list.push(added);
    let kept = trimmed(metric, longer, row, node, limit);
    law_trimmed_lists_keep_the_nearest(metric, longer, row, node, limit);
    assert forall|reference: u32| #[trigger] list.contains(reference) implies kept.contains(
        reference,
    ) || kept.len() == limit && forall|k: int|
        0 <= k < kept.len() ==> as_near(
            metric,
            row[(#[trigger] kept[k]) as int],
            row[reference as int],
        ) by {
        if !kept.contains(reference) {
            let i = choose|i: int| 0 <= i < list.len() && list[i] == reference;
            assert(longer[i] == reference);
            assert(reference != node);
        }
    }
}

proof fn lemma_linked_retains(
    nodes: Seq<NodeModel>,
    metric: DistanceMetric,
    rows: Seq<Seq<u32>>,
    limit: nat,
    node: int,
    layer: int,
    selected: Seq<usize>,
    count: nat,
)
    requires
        tidy_but(nodes, limit, node, layer),
        sound_links(nodes),
        nodes.len() <= 0x1_0000_0000,
        0 <= node == nodes.len() - 1,
        0 <= layer <= nodes[node].level,
        linkable(nodes, node, layer, selected),
        count <= selected.len(),
        rows_are_numbers(rows, nodes.len()),
    ensures
        lists_retained(
            metric,
            rows,
            nodes,
            linked(nodes, metric, rows, limit, node, layer, selected, count),
            node as nat,
            limit,
        ),
    decreases count,
{
    if count > 0 {
        let earlier = (count - 1) as nat;
        lemma_linked_retains(nodes, metric, rows, limit, node, layer, selected, earlier);
        lemma_tidy_linked(nodes, metric, rows, limit, node, layer, selected, earlier);
        lemma_tidy_linked(nodes, metric, rows, limit, node, layer, selected, count);
        lemma_linked(nodes, metric, rows, limit, node, layer, selected, earlier);
        lemma_linked(nodes, metric, rows, limit, node, layer, selected, count);
        let before = linked(nodes, metric, rows, limit, node, layer, selected, earlier);
        assert(selected[count - 1] < nodes.len());
        let neighbor = selected[count - 1] as int;
        assert(before[neighbor].level == nodes[neighbor].level);
        assert(before[node].level == nodes[node].level);
        lemma_one_link(before, metric, rows, limit, node, layer, neighbor);
        let forth = with_link(before, node, layer, neighbor as u32);
        let both = with_link(forth, neighbor, layer, node as u32);
        let old_list = before[neighbor].neighbors[layer];
        let list = both[neighbor].neighbors[layer];
        let kept = trimmed(metric, list, rows[neighbor], neighbor, limit);
        let after = with_list(both, neighbor, layer, kept);
        assert(linked(nodes, metric, rows, limit, node, layer, selected, count) == after);
        assert(list == old_list.push(node as u32));
        assert forall|k: int| 0 <= k < list.len() implies rows[neighbor][(
        #[trigger] list[k]) as int] % 0x8000_0000 <= 0x7f80_0000 by {
            assert(list[k] < before.len());
        }
        assert(tidy_list(old_list, neighbor, limit));
        lemma_trimmed_retains(metric, rows[neighbor], old_list, node as u32, neighbor, limit);
        assert forall|a: int, l: int|
            #![trigger nodes[a].neighbors[l]]
            #![trigger after[a].neighbors[l]]
            0 <= a < node && 0 <= l < nodes[a].neighbors.len() implies retained(
            metric,
            rows[a],
            nodes[a].neighbors[l],
            after[a].neighbors[l],
            limit,
        ) by {
            assert(before[a].neighbors.len() == nodes[a].neighbors.len());
            assert(retained(
                metric,
                rows[a],
                nodes[a].neighbors[l],
                before[a].neighbors[l],
                limit,
            ));
            if a == neighbor && l == layer {
                assert(after[a].neighbors[l] == kept);
                assert(tidy_list(before[a].neighbors[l], a, limit));
                assert(tidy_list(after[a].neighbors[l], a, limit));
                lemma_retained_transitive(
                    metric,
                    rows[a],
                    nodes[a].neighbors[l],
                    before[a].neighbors[l],
                    after[a].neighbors[l],
                    a,
                    limit,
                );
            } else {
                assert(after[a].neighbors[l] == before[a].neighbors[l]);
            }
        }
    } else {
        assert forall|a: int, l: int|
            #![trigger nodes[a].neighbors[l]]
            0 <= a < node && 0 <= l < nodes[a].neighbors.len() implies retained(
            metric,
            rows[a],
            nodes[a].neighbors[l],
            nodes[a].neighbors[l],
            limit,
        ) by {
            lemma_retained_itself(metric, rows[a], nodes[a].neighbors[l], limit);
        }
    }
}

/// The lists of the old nodes lose no reference but to nearer ones when a new node is connected
/// on a layer.
pub proof fn law_connecting_retains_the_nearest(
    nodes: Seq<NodeModel>,
    metric: DistanceMetric,
    rows: Seq<Seq<u32>>,
    limit: nat,
    node: int,
    layer: int,
    selected: Seq<usize>,
)
    requires
        tidy(nodes, limit),
        sound_links(nodes),
        nodes.len() <= 0x1_0000_0000,
        0 <= node == nodes.len() - 1,
        0 <= layer <= nodes[node].level,
        linkable(nodes, node, layer, selected),
        rows_are_numbers(rows, nodes.len()),
    ensures
        lists_retained(
            metric,
            rows,
            nodes,
            connected(nodes, metric, rows, limit, node, layer, selected),
            node as nat,
            limit,
        ),
{
    lemma_linked_retains(nodes, metric, rows, limit, node, layer, selected, selected.len());
    lemma_linked(nodes, metric, rows, limit, node, layer, selected, selected.len());
    let all = linked(nodes, metric, rows, limit, node, layer, selected, selected.len());
    let after = connected(nodes, metric, rows, limit, node, layer, selected);
    assert forall|a: int, l: int|
        #![trigger nodes[a].neighbors[l]]
        #![trigger after[a].neighbors[l]]
        0 <= a < node && 0 <= l < nodes[a].neighbors.len() implies retained(
        metric,
        rows[a],
        nodes[a].neighbors[l],
        after[a].neighbors[l],
        limit,
    ) by {
        assert(after[a] == all[a]);
        assert(retained(metric, rows[a], nodes[a].neighbors[l], all[a].neighbors[l], limit));
    }
}

proof fn lemma_lists_retained_transitive(
    metric: DistanceMetric,
    rows: Seq<Seq<u32>>,
    first: Seq<NodeModel>,
    second: Seq<NodeModel>,
    third: Seq<NodeModel>,
    few: nat,
    many: nat,
    limit: nat,
)
    requires
        few <= many <= second.len() <= third.len(),
        lists_retained(metric, rows, first, second, few, limit),
        lists_retained(metric, rows, second, third, many, limit),
        forall|a: int|
            0 <= a < few ==> (#[trigger] second[a]).neighbors.len() == first[a].neighbors.len(),
        forall|a: int|
            0 <= a < many ==> (#[trigger] third[a]).neighbors.len() == second[a].neighbors.len(),
        tidy(second, limit),
        tidy(third, limit),
    ensures
        lists_retained(metric, rows, first, third, few, limit),
{
    assert forall|a: int, l: int|
        #![trigger first[a].neighbors[l]]
        #![trigger third[a].neighbors[l]]
        0 <= a < few && 0 <= l < first[a].neighbors.len() implies retained(
        metric,
        rows[a],
        first[a].neighbors[l],
        third[a].neighbors[l],
        limit,
    ) by {
        assert(second[a].neighbors.len() == first[a].neighbors.len());
        assert(third[a].neighbors.len() == second[a].neighbors.len());
        assert(tidy_list(second[a].neighbors[l], a, limit));
        assert(tidy_list(third[a].neighbors[l], a, limit));
        lemma_retained_transitive(
            metric,
            rows[a],
            first[a].neighbors[l],
            second[a].neighbors[l],
            third[a].neighbors[l],
            a,
            limit,
        );
    }
}

proof fn lemma_linked_down_retains(
    nodes: Seq<NodeModel>,
    metric: DistanceMetric,
    rows: Seq<Seq<u32>>,
    params: HnswBuildParams,
    node: int,
    layers: nat,
    entry: usize,
    dimensions: nat,
)
    requires
        tidy(nodes, params.max_neighbors as nat),
        sound_links(nodes),
        uniform(nodes, dimensions),
        nodes.len() <= 0x1_0000_0000,
        nodes.len() <= usize::MAX,
        0 <= node == nodes.len() - 1,
        layers <= nodes[node].level + 1,
        entry < nodes.len(),
        layers > 0 ==> layers - 1 <= nodes[entry as int].level,
        rows_are_numbers(rows, nodes.len()),
    ensures
        lists_retained(
            metric,
            rows,
            nodes,
            linked_down(nodes, metric, rows, params, node, layers, entry),
            node as nat,
            params.max_neighbors as nat,
        ),
        tidy(
            linked_down(nodes, metric, rows, params, node, layers, entry),
            params.max_neighbors as nat,
        ),
        linked_down(nodes, metric, rows, params, node, layers, entry).len() == nodes.len(),
        forall|a: int|
            0 <= a < nodes.len() ==> (#[trigger] linked_down(
                nodes,
                metric,
                rows,
                params,
                node,
                layers,
                entry,
            )[a]).neighbors.len() == nodes[a].neighbors.len(),
    decreases layers,
{
    let limit = params.max_neighbors as nat;
    if layers > 0 {
        let layer = (layers - 1) as nat;
        let selected = selected_at(nodes, metric, rows, params, node, layer, entry);
        lemma_selected(nodes, metric, rows, params, node, layer, entry, dimensions);
        lemma_connected(nodes, metric, rows, limit, node, layer as int, selected);
        lemma_tidy_connected(nodes, metric, rows, limit, node, layer as int, selected);
        law_connecting_retains_the_nearest(
            nodes,
            metric,
            rows,
            limit,
            node,
            layer as int,
            selected,
        );
        let next = connected(nodes, metric, rows, limit, node, layer as int, selected);
        let next_entry = if selected.len() > 0 {
            selected[0]
        } else {
            entry
        };
        assert(uniform(next, dimensions)) by {
            assert forall|i: int| 0 <= i < next.len() implies (
            #[trigger] next[i]).record.vector.len() == dimensions by {
                assert(nodes[i].record.vector.len() == dimensions);
            }
        }
        if selected.len() > 0 {
            assert(selected[0] < nodes.len());
        }
        assert(next[next_entry as int].level == nodes[next_entry as int].level);
        assert(next[node].level == nodes[node].level);
        lemma_linked_down_retains(next, metric, rows, params, node, layer, next_entry, dimensions);
        let end = linked_down(next, metric, rows, params, node, layer, next_entry);
        assert forall|a: int| 0 <= a < nodes.len() implies (#[trigger] end[a]).neighbors.len()
            == nodes[a].neighbors.len() by {
            assert(next[a].neighbors.len() == nodes[a].neighbors.len());
        }
        lemma_lists_retained_transitive(
            metric,
            rows,
            nodes,
            next,
            end,
            node as nat,
            node as nat,
            limit,
        );
    } else {
        assert forall|a: int, l: int|
            #![trigger nodes[a].neighbors[l]]
            0 <= a < node && 0 <= l < nodes[a].neighbors.len() implies retained(
            metric,
            rows[a],
            nodes[a].neighbors[l],
            nodes[a].neighbors[l],
            limit,
        ) by {
            lemma_retained_itself(metric, rows[a], nodes[a].neighbors[l], limit);
        }
    }
}

/// Inserting a record makes no neighbor list lose a reference but to nearer ones.
pub proof fn law_insert_retains_the_nearest(
    sidecar: SidecarModel,
    record: RecordModel,
    level: u8,
    rows: Seq<Seq<u32>>,
)
    requires
        sound_graph(sidecar),
        tidy(sidecar.nodes, sidecar.params.max_neighbors as nat),
        uniform(sidecar.nodes, sidecar.dimensions as nat),
        record.vector.len() == sidecar.dimensions,
        sidecar.nodes.len() < 0x1_0000_0000,
        sidecar.nodes.len() < usize::MAX,
        rows_are_numbers(rows, sidecar.nodes.len() + 1),
    ensures
        lists_retained(
            sidecar.metric,
            rows,
            sidecar.nodes,
            inserted(sidecar, record, level, rows).nodes,
            sidecar.nodes.len(),
            sidecar.params.max_neighbors as nat,
        ),
        inserted(sidecar, record, level, rows).nodes.len() == sidecar.nodes.len() + 1,
        forall|a: int|
            0 <= a < sidecar.nodes.len() ==> (#[trigger] inserted(
                sidecar,
                record,
                level,
                rows,
            ).nodes[a]).neighbors.len() == sidecar.nodes[a].neighbors.len(),
{
    let limit = sidecar.params.max_neighbors as nat;
    let node = sidecar.nodes.len() as int;
    let grown = sidecar.nodes.push(lone_node(record, level));
    let after = inserted(sidecar, record, level, rows).nodes;
    lemma_grown_sound(sidecar.nodes, record, level);
    assert(uniform(grown, sidecar.dimensions as nat));
    assert(tidy(grown, limit)) by {
        assert forall|a: int, l: int|
            #![trigger grown[a].neighbors[l]]
            0 <= a < grown.len() && 0 <= l < grown[a].neighbors.len() implies tidy_list(
            grown[a].neighbors[l],
            a,
            limit,
        ) by {
            if a < node {
                assert(grown[a] == sidecar.nodes[a]);
                assert(tidy_list(sidecar.nodes[a].neighbors[l], a, limit));
            }
        }
    }
    match sidecar.entry_point {
        None => {
            assert forall|a: int, l: int|
                #![trigger sidecar.nodes[a].neighbors[l]]
                #![trigger after[a].neighbors[l]]
                0 <= a < node && 0 <= l < sidecar.nodes[a].neighbors.len() implies retained(
                sidecar.metric,
                rows[a],
                sidecar.nodes[a].neighbors[l],
                after[a].neighbors[l],
                limit,
            ) by {
                assert(after[a] == sidecar.nodes[a]);
                lemma_retained_itself(sidecar.metric, rows[a], after[a].neighbors[l], limit);
            }
        },
        Some(entry) => {
            let values = node_values(grown, record.vector.len(), rows[node]);
            assert(all_valued(values)) by {
                assert forall|i: int| 0 <= i < values.len() implies (
                #[trigger] values[i]) is Ok by {
                    assert(grown[i].record.vector.len() == sidecar.dimensions);
                }
            }
            assert(grown[entry as int] == sidecar.nodes[entry as int]);
            lemma_entry_above(
                grown,
                sidecar.metric,
                values,
                sidecar.max_level as nat,
                level as nat,
                entry as int,
            );
            let start = entry_above(
                grown,
                sidecar.metric,
                values,
                sidecar.max_level as nat,
                level as nat,
                entry as int,
            )->Ok_0;
            let layers = if sidecar.max_level < level {
                sidecar.max_level + 1
            } else {
                level + 1
            };
            lemma_linked_down_retains(
                grown,
                sidecar.metric,
                rows,
                sidecar.params,
                node,
                layers as nat,
                start as usize,
                sidecar.dimensions as nat,
            );
            assert forall|a: int, l: int|
                #![trigger sidecar.nodes[a].neighbors[l]]
                #![trigger after[a].neighbors[l]]
                0 <= a < node && 0 <= l < sidecar.nodes[a].neighbors.len() implies retained(
                sidecar.metric,
                rows[a],
                sidecar.nodes[a].neighbors[l],
                after[a].neighbors[l],
                limit,
            ) by {
                assert(grown[a] == sidecar.nodes[a]);
                assert(retained(
                    sidecar.metric,
                    rows[a],
                    grown[a].neighbors[l],
                    after[a].neighbors[l],
                    limit,
                ));
            }
            assert forall|a: int| 0 <= a < node implies (#[trigger] after[a]).neighbors.len()
                == sidecar.nodes[a].neighbors.len() by {
                assert(grown[a] == sidecar.nodes[a]);
            }
        },
    }
}

proof fn lemma_filling_retains(
    empty: SidecarModel,
    entries: Seq<RecordModel>,
    hashes: Seq<u64>,
    rows: Seq<Seq<u32>>,
    early: nat,
    late: nat,
)
    requires
        empty.nodes.len() == 0,
        empty.entry_point is None,
        forall|i: int|
            0 <= i < late ==> (#[trigger] entries[i]).vector.len() == empty.dimensions,
        early <= late <= entries.len(),
        late <= 0x1_0000_0000,
        late <= usize::MAX,
        rows_are_numbers(rows, late),
    ensures
        lists_retained(
            empty.metric,
            rows,
            filled(empty, entries, hashes, rows, early).nodes,
            filled(empty, entries, hashes, rows, late).nodes,
            early,
            empty.params.max_neighbors as nat,
        ),
        forall|a: int|
            0 <= a < early ==> (#[trigger] filled(
                empty,
                entries,
                hashes,
                rows,
                late,
            ).nodes[a]).neighbors.len() == filled(
                empty,
                entries,
                hashes,
                rows,
                early,
            ).nodes[a].neighbors.len(),
    decreases late,
{
    let limit = empty.params.max_neighbors as nat;
    let first = filled(empty, entries, hashes, rows, early).nodes;
    if early < late {
        let middle = (late - 1) as nat;
        let before = filled(empty, entries, hashes, rows, middle);
        lemma_filling_retains(empty, entries, hashes, rows, early, middle);
        lemma_filled(empty, entries, hashes, rows, early);
        lemma_filled(empty, entries, hashes, rows, middle);
        lemma_filled(empty, entries, hashes, rows, late);
        lemma_tidy_filled(empty, entries, hashes, rows, middle);
        lemma_tidy_filled(empty, entries, hashes, rows, late);
        assert(entries[late - 1].vector.len() == empty.dimensions);
        law_insert_retains_the_nearest(
            before,
            entries[late - 1],
            level_of_hash(hashes[late - 1]),
            rows,
        );
        let after = filled(empty, entries, hashes, rows, late).nodes;
        assert forall|a: int| 0 <= a < early implies (#[trigger] after[a]).neighbors.len()
            == first[a].neighbors.len() by {
            assert(before.nodes[a].neighbors.len() == first[a].neighbors.len());
        }
        lemma_lists_retained_transitive(
            empty.metric,
            rows,
            first,
            before.nodes,
            after,
            early,
            middle,
            limit,
        );
    } else {
        assert forall|a: int, l: int|
            #![trigger first[a].neighbors[l]]
            0 <= a < early && 0 <= l < first[a].neighbors.len() implies retained(
            empty.metric,
            rows[a],
            first[a].neighbors[l],
            first[a].neighbors[l],
            limit,
        ) by {
            lemma_retained_itself(empty.metric, rows[a], first[a].neighbors[l], limit);
        }
    }
}

/// However many entries follow, a node that is linked to another on a layer once some entries have
/// been inserted is still linked to it at the end, or has as many neighbors there as it may, none
/// of them farther from it than that one.
pub proof fn law_building_retains_the_nearest(
    segment_id: Seq<char>,
    metric: DistanceMetric,
    params: HnswBuildParams,
    entries: Seq<RecordModel>,
    hashes: Seq<u64>,
    rows: Seq<Seq<u32>>,
    early: nat,
    node: int,
    layer: int,
    reference: u32,
)
    requires
        entries.len() <= 0x1_0000_0000,
        entries.len() <= usize::MAX,
        first_dimensions(entries) <= usize::MAX,
        dimension_fault(entries, first_dimensions(entries), entries.len()) is None,
        forall|a: int, b: int|
            0 <= a < entries.len() && 0 <= b < entries.len() ==> (#[trigger] rows[a][b])
                % 0x8000_0000 <= 0x7f80_0000,
        early <= entries.len(),
        0 <= node < early,
    ensures
        ({
            let empty = empty_sidecar(segment_id, metric, params, first_dimensions(entries));
            let once = filled(empty, entries, hashes, rows, early).nodes[node];
            let end = filled(empty, entries, hashes, rows, entries.len()).nodes[node];
            0 <= layer <= once.level && once.neighbors[layer].contains(reference) ==> {
                ||| end.neighbors[layer].contains(reference)
                ||| end.neighbors[layer].len() == params.max_neighbors && forall|k: int|
                    0 <= k < end.neighbors[layer].len() ==> {
                        let kept = rows[node][(#[trigger] end.neighbors[layer][k]) as int];
                        let lost = rows[node][reference as int];
                        if metric == DistanceMetric::L2 {
                            single_units(kept) <= single_units(lost)
                        } else {
                            single_units(kept) >= single_units(lost)
                        }
                    }
            }
        }),
{
    let empty = empty_sidecar(segment_id, metric, params, first_dimensions(entries));
    lemma_no_dimension_fault(entries, first_dimensions(entries), entries.len());
    lemma_filled(empty, entries, hashes, rows, early);
    lemma_filling_retains(empty, entries, hashes, rows, early, entries.len());
    let once = filled(empty, entries, hashes, rows, early).nodes[node];
    let end = filled(empty, entries, hashes, rows, entries.len()).nodes[node];
    if 0 <= layer <= once.level && once.neighbors[layer].contains(reference) {
        assert(once.neighbors.len() == once.level + 1);
        assert(retained(
            metric,
            rows[node],
            once.neighbors[layer],
            end.neighbors[layer],
            params.max_neighbors as nat,
        ));
        if !end.neighbors[layer].contains(reference) {
            assert forall|k: int| 0 <= k < end.neighbors[layer].len() implies ({
                let kept = rows[node][(#[trigger] end.neighbors[layer][k]) as int];
                let lost = rows[node][reference as int];
                if metric == DistanceMetric::L2 {
                    single_units(kept) <= single_units(lost)
                } else {
                    single_units(kept) >= single_units(lost)
                }
            }) by {
                assert(as_near(
                    metric,
                    rows[node][end.neighbors[layer][k] as int],
                    rows[node][reference as int],
                ));
            }
        }
    }
}

/// Where the breadth of construction covers a graph, a node that is put into it is linked on a layer
/// to every node that a walk from where the search starts leads to, or to as many as it may be, and
/// none of those is farther from it than one that is left out.
pub proof fn law_new_nodes_select_the_nearest(
    nodes: Seq<NodeModel>,
    metric: DistanceMetric,
    rows: Seq<Seq<u32>>,
    params: HnswBuildParams,
    node: int,
    layer: nat,
    dimensions: nat,
    walk: Seq<usize>,
)
    requires
        sound_links(nodes),
        uniform(nodes, dimensions),
        nodes.len() <= 0x1_0000_0000,
        0 <= node < nodes.len() <= usize::MAX,
        nodes.len() <= params.ef_construction || nodes.len() <= params.max_neighbors,
        is_walk(nodes, layer, Some(node as usize), walk),
        layer <= nodes[walk[0] as int].level,
        forall|i: int|
            0 <= i < nodes.len() ==> (#[trigger] rows[node][i]) % 0x8000_0000 <= 0x7f80_0000,
    ensures
        ({
            let selected = selected_at(nodes, metric, rows, params, node, layer, walk[0]);
            &&& selected.len() <= params.max_neighbors
            &&& selected.no_duplicates()
            &&& !selected.contains(node as usize)
            &&& selected.contains(walk.last()) || selected.len() == params.max_neighbors && forall|
                k: int,
            |
                0 <= k < selected.len() ==> as_near(
                    metric,
                    rows[node][(#[trigger] selected[k]) as int],
                    rows[node][walk.last() as int],
                )
        }),
{
    let entry = walk[0];
    let limit = params.max_neighbors as nat;
    let goal = LayerGoal {
        metric,
        ef: larger(params.ef_construction as nat, limit),
        exclude: Some(node as usize),
    };
    let values = node_values(nodes, nodes[node].record.vector.len(), rows[node]);
    let anywhere = |one: usize| true;
    lemma_selected(nodes, metric, rows, params, node, layer, entry, dimensions);
    lemma_sound_links_in_range(nodes);
    assert(closed_under_links(nodes, layer, anywhere));
    law_layer_search(nodes, layer, goal, values, entry, anywhere);
    law_layer_search_misses_nothing(nodes, layer, goal, values, walk);
    let scored = layer_search(nodes, layer, goal, values, entry)->Ok_0.0;
    let best = nearest(metric, scored, limit);
    let selected = selected_at(nodes, metric, rows, params, node, layer, entry);
    assert forall|i: int| 0 <= i < scored.len() implies (#[trigger] scored[i]).value
        == rows[node][scored[i].index as int] && scored[i].value % 0x8000_0000 <= 0x7f80_0000 by {
        let at = scored[i].index as int;
        assert(nodes[at].record.vector.len() == dimensions);
        assert(values[at] == Ok::<u32, nat>(rows[node][at]));
        assert(rows[node][at] % 0x8000_0000 <= 0x7f80_0000);
    }
    assert(scored.no_duplicates()) by {
        assert forall|i: int, j: int|
            0 <= i < scored.len() && 0 <= j < scored.len() && i != j implies scored[i]
            != scored[j] by {
            if i < j {
                assert(scored[i].index != scored[j].index);
            } else {
                assert(scored[j].index != scored[i].index);
            }
        }
    }
    law_nearest_leaves_out_nothing_nearer(metric, scored, limit);
    assert forall|k: int| 0 <= k < selected.len() implies exists|i: int|
        0 <= i < scored.len() && #[trigger] scored[i] == best[k] && scored[i].index
            == #[trigger] selected[k] by {
        assert(scored.contains(best[k]));
        let i = choose|i: int| 0 <= i < scored.len() && scored[i] == best[k];
        assert(scored[i].index == selected[k]);
    }
    assert(selected.no_duplicates()) by {
        assert forall|j: int, k: int|
            0 <= j < selected.len() && 0 <= k < selected.len() && j != k implies selected[j]
            != selected[k] by {
            let a = choose|a: int|
                0 <= a < scored.len() && scored[a] == best[j] && scored[a].index == selected[j];
            let b = choose|b: int|
                0 <= b < scored.len() && scored[b] == best[k] && scored[b].index == selected[k];
            assert(best[j] != best[k]);
            if a < b {
                assert(scored[a].index != scored[b].index);
            } else {
                assert(scored[b].index != scored[a].index);
            }
        }
    }
    if selected.contains(node as usize) {
        let k = choose|k: int| 0 <= k < selected.len() && selected[k] == node as usize;
        let i = choose|i: int|
            0 <= i < scored.len() && scored[i] == best[k] && scored[i].index == selected[k];
        assert(goal.exclude != Some(scored[i].index));
    }
    assert(holds(scored, walk.last()));
    let at = choose|at: int| 0 <= at < scored.len() && (#[trigger] scored[at]).index == walk.last();
    if best.contains(scored[at]) {
        let k = choose|k: int| 0 <= k < best.len() && best[k] == scored[at];
        assert(selected[k] == walk.last());
    } else if !selected.contains(walk.last()) {
        if scored.len() <= limit {
            law_sort_keeps_nodes(metric, scored);
            lemma_sort_members(metric, scored);
            assert(scored.contains(scored[at]));
        }
        assert forall|k: int| 0 <= k < selected.len() implies as_near(
            metric,
            rows[node][(#[trigger] selected[k]) as int],
            rows[node][walk.last() as int],
        ) by {
            let i = choose|i: int|
                0 <= i < scored.len() && scored[i] == best[k] && scored[i].index == selected[k];
            assert(scored[i].value == rows[node][selected[k] as int]);
            assert(scored[at].value == rows[node][walk.last() as int]);
            assert(!best.contains(scored[at]));
        }
    }
}

} // verus!
