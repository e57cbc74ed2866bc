//! What the order of metric values means for neighbors and results, in numbers.

use crate::float::single_units;
use crate::index::construction::{
    ascending_unique, lemma_ascending_unique, lemma_trimmed, nearest, scored_neighbors, trimmed,
};
use crate::index::score::{
    all_numbers, best_position, law_sort_is_best_first, law_sort_is_stable, law_sort_keeps_nodes,
    law_values_compare_as_numbers, lemma_sort_members, metric_order, metric_rank,
    sorted_best_first, swap_removed, worst_position, ScoredNode,
};
use crate::text::Comparison;
use crate::types::DistanceMetric;
use vstd::prelude::*;

verus! {

/// Where no value is a NaN, a node that does not improve on another is no larger than it under
/// cosine similarity and the dot product, and no smaller under distance.
proof fn lemma_not_better(metric: DistanceMetric, left: u32, right: u32)
    requires
        left % 0x8000_0000 <= 0x7f80_0000,
        right % 0x8000_0000 <= 0x7f80_0000,
        metric_order(metric, left, right) != Comparison::Greater,
    ensures
        metric != DistanceMetric::L2 ==> single_units(left) <= single_units(right),
        metric == DistanceMetric::L2 ==> single_units(left) >= single_units(right),
{
    law_values_compare_as_numbers(left, right);
}

/// Sorting puts the nodes of the largest values first under cosine similarity and the dot
/// product, and those of the smallest values under distance.
pub proof fn law_sort_goes_by_the_numbers(metric: DistanceMetric, scored: Seq<ScoredNode>)
    requires
        forall|i: int|
            0 <= i < scored.len() ==> (#[trigger] scored[i]).value % 0x8000_0000 <= 0x7f80_0000,
    ensures
        ({
            let sorted = sorted_best_first(metric, scored);
            &&& sorted.to_multiset() == scored.to_multiset()
            &&& forall|i: int, j: int|
                0 <= i < j < sorted.len() && metric != DistanceMetric::L2 ==> single_units(
                    (#[trigger] sorted[i]).value,
                ) >= single_units((#[trigger] sorted[j]).value)
            &&& forall|i: int, j: int|
                0 <= i < j < sorted.len() && metric == DistanceMetric::L2 ==> single_units(
                    (#[trigger] sorted[i]).value,
                ) <= single_units((#[trigger] sorted[j]).value)
        }),
{
    let sorted = sorted_best_first(metric, scored);
    assert(all_numbers(scored)) by {
        assert forall|i: int| 0 <= i < scored.len() implies !crate::index::score::is_nan(
            #[trigger] scored[i].value,
        ) by {
            assert(scored[i].value % 0x8000_0000 <= 0x7f80_0000);
        }
    }
    law_sort_is_best_first(metric, scored);
    law_sort_keeps_nodes(metric, scored);
    lemma_sort_members(metric, scored);
    assert forall|i: int| 0 <= i < sorted.len() implies (#[trigger] sorted[i]).value % 0x8000_0000
        <= 0x7f80_0000 by {
        assert(sorted.contains(sorted[i]));
        assert(scored.contains(sorted[i]));
        let j = choose|j: int| 0 <= j < scored.len() && scored[j] == sorted[i];
        assert(scored[j].value % 0x8000_0000 <= 0x7f80_0000);
    }
    assert forall|i: int, j: int| 0 <= i < j < sorted.len() implies (metric != DistanceMetric::L2
        ==> single_units((#[trigger] sorted[i]).value) >= single_units(
        (#[trigger] sorted[j]).value,
    )) && (metric == DistanceMetric::L2 ==> single_units(sorted[i].value) <= single_units(
        sorted[j].value,
    )) by {
        assert(!crate::index::score::better(metric, sorted[j].value, sorted[i].value));
        lemma_not_better(metric, sorted[j].value, sorted[i].value);
    }
}

/// The best nodes are as many as there are, or as are asked for, and no node that is left out is
/// nearer than one that is kept: no larger under cosine similarity and the dot product, and no
/// smaller under distance.
pub proof fn law_nearest_leaves_out_nothing_nearer(
    metric: DistanceMetric,
    scored: Seq<ScoredNode>,
    limit: nat,
)
    requires
        scored.no_duplicates(),
        forall|i: int|
            0 <= i < scored.len() ==> (#[trigger] scored[i]).value % 0x8000_0000 <= 0x7f80_0000,
    ensures
        ({
            let kept = nearest(metric, scored, limit);
            &&& kept.len() == (if scored.len() < limit {
                scored.len()
            } else {
                limit
            })
            &&& kept.no_duplicates()
            &&& forall|k: int| 0 <= k < kept.len() ==> scored.contains(#[trigger] kept[k])
            &&& forall|i: int, k: int|
                0 <= i < scored.len() && 0 <= k < kept.len() && !kept.contains(
                    #[trigger] scored[i],
                ) && metric != DistanceMetric::L2 ==> single_units(scored[i].value)
                    <= single_units((#[trigger] kept[k]).value)
            &&& forall|i: int, k: int|
                0 <= i < scored.len() && 0 <= k < kept.len() && !kept.contains(
                    #[trigger] scored[i],
                ) && metric == DistanceMetric::L2 ==> single_units(scored[i].value)
                    >= single_units((#[trigger] kept[k]).value)
            &&& forall|j: int, k: int|
                0 <= j < k < kept.len() && metric != DistanceMetric::L2 ==> single_units(
                    (#[trigger] kept[j]).value,
                ) >= single_units((#[trigger] kept[k]).value)
            &&& forall|j: int, k: int|
                0 <= j < k < kept.len() && metric == DistanceMetric::L2 ==> single_units(
                    (#[trigger] kept[j]).value,
                ) <= single_units((#[trigger] kept[k]).value)
        }),
{
    let sorted = sorted_best_first(metric, scored);
    let kept = nearest(metric, scored, limit);
    law_sort_goes_by_the_numbers(metric, scored);
    law_sort_keeps_nodes(metric, scored);
    lemma_sort_members(metric, scored);
    assert forall|k: int| 0 <= k < kept.len() implies #[trigger] kept[k] == sorted[k] && scored.contains(kept[k]) by {
        assert(sorted.contains(sorted[k]));
    }
    assert forall|i: int, k: int|
        0 <= i < scored.len() && 0 <= k < kept.len() && !kept.contains(
            #[trigger] scored[i],
        ) implies (metric != DistanceMetric::L2 ==> single_units(scored[i].value) <= single_units(
        (#[trigger] kept[k]).value,
    )) && (metric == DistanceMetric::L2 ==> single_units(scored[i].value) >= single_units(
        kept[k].value,
    )) by {
        assert(scored.contains(scored[i]));
        assert(sorted.contains(scored[i]));
        let j = choose|j: int| 0 <= j < sorted.len() && sorted[j] == scored[i];
        if j < kept.len() {
            assert(kept[j] == scored[i]);
        }
        assert(kept[k] == sorted[k]);
    }
}

/// A trimmed neighbor list names different neighbors other than the node, as many as there are
/// or as are allowed, and leaves out none that is nearer to the node than one that it keeps.
pub proof fn law_trimmed_lists_keep_the_nearest(
    metric: DistanceMetric,
    neighbors: Seq<u32>,
    row: Seq<u32>,
    node: int,
    limit: nat,
)
    requires
        forall|k: int|
            0 <= k < neighbors.len() ==> row[(#[trigger] neighbors[k]) as int] % 0x8000_0000
                <= 0x7f80_0000,
    ensures
        ({
            let kept = trimmed(metric, neighbors, row, node, limit);
            &&& kept.len() <= limit
            &&& kept.no_duplicates()
            &&& forall|k: int|
                0 <= k < kept.len() ==> neighbors.contains(#[trigger] kept[k]) && kept[k] != node
            &&& forall|i: int|
                0 <= i < neighbors.len() && neighbors[i] != node && !kept.contains(
                    #[trigger] neighbors[i],
                ) ==> kept.len() == limit
            &&& forall|i: int, k: int|
                0 <= i < neighbors.len() && neighbors[i] != node && !kept.contains(
                    #[trigger] neighbors[i],
                ) && 0 <= k < kept.len() && metric != DistanceMetric::L2 ==> single_units(
                    row[neighbors[i] as int],
                ) <= single_units(row[(#[trigger] kept[k]) as int])
            &&& forall|i: int, k: int|
                0 <= i < neighbors.len() && neighbors[i] != node && !kept.contains(
                    #[trigger] neighbors[i],
                ) && 0 <= k < kept.len() && metric == DistanceMetric::L2 ==> single_units(
                    row[neighbors[i] as int],
                ) >= single_units(row[(#[trigger] kept[k]) as int])
        }),
{
    let unique = ascending_unique(neighbors, node);
    let scored = scored_neighbors(unique, row);
    let best = nearest(metric, scored, limit);
    let kept = trimmed(metric, neighbors, row, node, limit);
    lemma_ascending_unique(neighbors, node);
    lemma_trimmed(metric, neighbors, row, node, limit);
    assert(scored.no_duplicates()) by {
        assert forall|i: int, j: int|
            0 <= i < scored.len() && 0 <= j < scored.len() && i != j implies scored[i]
            != scored[j] by {
            if i < j {
                assert(unique[i] < unique[j]);
            } else {
                assert(unique[j] < unique[i]);
            }
        }
    }
    assert forall|i: int| 0 <= i < scored.len() implies (#[trigger] scored[i]).value % 0x8000_0000
        <= 0x7f80_0000 by {
        assert(unique.contains(unique[i]));
        assert(neighbors.contains(unique[i]));
        let k = choose|k: int| 0 <= k < neighbors.len() && neighbors[k] == unique[i];
        assert(row[neighbors[k] as int] % 0x8000_0000 <= 0x7f80_0000);
    }
    law_nearest_leaves_out_nothing_nearer(metric, scored, limit);
    assert forall|i: int|
        0 <= i < neighbors.len() && neighbors[i] != node && !kept.contains(
            #[trigger] neighbors[i],
        ) implies exists|j: int|
        0 <= j < scored.len() && !best.contains(#[trigger] scored[j]) && scored[j].value
            == row[neighbors[i] as int] by {
        assert(neighbors.contains(neighbors[i]));
        assert(unique.contains(neighbors[i]));
        let j = choose|j: int| 0 <= j < unique.len() && unique[j] == neighbors[i];
        if best.contains(scored[j]) {
            let k = choose|k: int| 0 <= k < best.len() && best[k] == scored[j];
            assert(kept[k] == neighbors[i]);
        }
        assert(scored[j].value == row[neighbors[i] as int]);
    }
    assert forall|k: int| 0 <= k < kept.len() implies best[k].value == row[(
    #[trigger] kept[k]) as int] by {
        assert(scored.contains(best[k]));
        let j = choose|j: int| 0 <= j < scored.len() && scored[j] == best[k];
        assert(best[k].index == unique[j] as usize);
    }
    assert forall|i: int|
        0 <= i < neighbors.len() && neighbors[i] != node && !kept.contains(
            #[trigger] neighbors[i],
        ) implies kept.len() == limit by {
        let j = choose|j: int|
            0 <= j < scored.len() && !best.contains(#[trigger] scored[j]) && scored[j].value
                == row[neighbors[i] as int];
        if scored.len() <= limit {
            lemma_sort_members(metric, scored);
            law_sort_keeps_nodes(metric, scored);
            assert(best == sorted_best_first(metric, scored));
            assert(scored.contains(scored[j]));
        }
    }
    assert forall|i: int, k: int|
        0 <= i < neighbors.len() && neighbors[i] != node && !kept.contains(
            #[trigger] neighbors[i],
        ) && 0 <= k < kept.len() implies (metric != DistanceMetric::L2 ==> single_units(
        row[neighbors[i] as int],
    ) <= single_units(row[(#[trigger] kept[k]) as int])) && (metric == DistanceMetric::L2
        ==> single_units(row[neighbors[i] as int]) >= single_units(row[kept[k] as int])) by {
        let j = choose|j: int|
            0 <= j < scored.len() && !best.contains(#[trigger] scored[j]) && scored[j].value
                == row[neighbors[i] as int];
        assert(best[k].value == row[kept[k] as int]);
        assert(!best.contains(scored[j]));
    }
}

/// Among nodes of which no value is a NaN, the best is the earliest of those with the largest value
/// under cosine similarity and the dot product, and of those with the smallest under distance.
pub proof fn law_best_is_the_first_of_the_nearest(
    metric: DistanceMetric,
    scored: Seq<ScoredNode>,
    count: nat,
)
    requires
        0 < count <= scored.len(),
        forall|i: int|
            0 <= i < count ==> (#[trigger] scored[i]).value % 0x8000_0000 <= 0x7f80_0000,
    ensures
        ({
            let best = best_position(metric, scored, count);
            &&& 0 <= best < count
            &&& forall|i: int|
                0 <= i < count && metric != DistanceMetric::L2 ==> single_units(
                    (#[trigger] scored[i]).value,
                ) <= single_units(scored[best].value)
            &&& forall|i: int|
                0 <= i < best && metric != DistanceMetric::L2 ==> single_units(
                    (#[trigger] scored[i]).value,
                ) < single_units(scored[best].value)
            &&& forall|i: int|
                0 <= i < count && metric == DistanceMetric::L2 ==> single_units(
                    (#[trigger] scored[i]).value,
                ) >= single_units(scored[best].value)
            &&& forall|i: int|
                0 <= i < best && metric == DistanceMetric::L2 ==> single_units(
                    (#[trigger] scored[i]).value,
                ) > single_units(scored[best].value)
        }),
    decreases count,
{
    if count > 1 {
        law_best_is_the_first_of_the_nearest(metric, scored, (count - 1) as nat);
        let before = best_position(metric, scored, (count - 1) as nat);
        assert(scored[before].value % 0x8000_0000 <= 0x7f80_0000);
        assert(scored[count - 1].value % 0x8000_0000 <= 0x7f80_0000);
        law_values_compare_as_numbers(scored[count - 1].value, scored[before].value);
    }
}

/// Among nodes of which no value is a NaN, the worst is the latest of those with the smallest value
/// under cosine similarity and the dot product, and of those with the largest under distance.
pub proof fn law_worst_is_the_last_of_the_farthest(
    metric: DistanceMetric,
    scored: Seq<ScoredNode>,
    count: nat,
)
    requires
        0 < count <= scored.len(),
        forall|i: int|
            0 <= i < count ==> (#[trigger] scored[i]).value % 0x8000_0000 <= 0x7f80_0000,
    ensures
        ({
            let worst = worst_position(metric, scored, count);
            &&& 0 <= worst < count
            &&& forall|i: int|
                0 <= i < count && metric != DistanceMetric::L2 ==> single_units(
                    (#[trigger] scored[i]).value,
                ) >= single_units(scored[worst].value)
            &&& forall|i: int|
                worst < i < count && metric != DistanceMetric::L2 ==> single_units(
                    (#[trigger] scored[i]).value,
                ) > single_units(scored[worst].value)
            &&& forall|i: int|
                0 <= i < count && metric == DistanceMetric::L2 ==> single_units(
                    (#[trigger] scored[i]).value,
                ) <= single_units(scored[worst].value)
            &&& forall|i: int|
                worst < i < count && metric == DistanceMetric::L2 ==> single_units(
                    (#[trigger] scored[i]).value,
                ) < single_units(scored[worst].value)
        }),
    decreases count,
{
    if count > 1 {
        law_worst_is_the_last_of_the_farthest(metric, scored, (count - 1) as nat);
        let before = worst_position(metric, scored, (count - 1) as nat);
        assert(scored[before].value % 0x8000_0000 <= 0x7f80_0000);
        assert(scored[count - 1].value % 0x8000_0000 <= 0x7f80_0000);
        law_values_compare_as_numbers(scored[count - 1].value, scored[before].value);
    }
}

/// A node that is removed makes room for the last one; the others stay where they are.
pub proof fn law_removal_moves_the_last(scored: Seq<ScoredNode>, position: int)
    requires
        0 <= position < scored.len(),
    ensures
        swap_removed(scored, position).len() == scored.len() - 1,
        forall|i: int|
            0 <= i < scored.len() - 1 ==> #[trigger] swap_removed(scored, position)[i] == (if i
                == position {
                scored[scored.len() - 1]
            } else {
                scored[i]
            }),
{
}

/// Sorting keeps nodes whose values are the same number in their order.
pub proof fn law_equal_numbers_keep_their_order(
    metric: DistanceMetric,
    scored: Seq<ScoredNode>,
    units: int,
)
    requires
        forall|i: int|
            0 <= i < scored.len() ==> (#[trigger] scored[i]).value % 0x8000_0000 <= 0x7f80_0000,
    ensures
        sorted_best_first(metric, scored).filter(
            |node: ScoredNode| single_units(node.value) == units,
        ) == scored.filter(|node: ScoredNode| single_units(node.value) == units),
{
    let sorted = sorted_best_first(metric, scored);
    let same = |node: ScoredNode| single_units(node.value) == units;
    assert(all_numbers(scored)) by {
        assert forall|i: int| 0 <= i < scored.len() implies !crate::index::score::is_nan(
            #[trigger] scored[i].value,
        ) by {
            assert(scored[i].value % 0x8000_0000 <= 0x7f80_0000);
        }
    }
    lemma_sort_members(metric, scored);
    if exists|i: int| 0 <= i < scored.len() && same(#[trigger] scored[i]) {
        let i = choose|i: int| 0 <= i < scored.len() && same(#[trigger] scored[i]);
        let rank = metric_rank(metric, scored[i].value);
        let ranked = |node: ScoredNode| metric_rank(metric, node.value) == rank;
        law_sort_is_stable(metric, scored, rank);
        assert forall|j: int| 0 <= j < scored.len() implies same(#[trigger] scored[j]) == ranked(
            scored[j],
        ) by {
            assert(scored[i].value % 0x8000_0000 <= 0x7f80_0000);
            assert(scored[j].value % 0x8000_0000 <= 0x7f80_0000);
            law_values_compare_as_numbers(scored[i].value, scored[j].value);
        }
        assert forall|j: int| 0 <= j < sorted.len() implies same(#[trigger] sorted[j]) == ranked(
            sorted[j],
        ) by {
            assert(sorted.contains(sorted[j]));
            assert(scored.contains(sorted[j]));
            let k = choose|k: int| 0 <= k < scored.len() && scored[k] == sorted[j];
            assert(same(scored[k]) == ranked(scored[k]));
        }
        lemma_filters_agree(scored, same, ranked);
        lemma_filters_agree(sorted, same, ranked);
    } else {
        assert forall|j: int| 0 <= j < scored.len() implies !same(#[trigger] scored[j]) by {}
        assert forall|j: int| 0 <= j < sorted.len() implies !same(#[trigger] sorted[j]) by {
            assert(sorted.contains(sorted[j]));
            assert(scored.contains(sorted[j]));
            let k = choose|k: int| 0 <= k < scored.len() && scored[k] == sorted[j];
            assert(!same(scored[k]));
        }
        scored.lemma_all_neg_filter_empty(same);
        sorted.lemma_all_neg_filter_empty(same);
        assert(sorted.filter(same) =~= scored.filter(same));
    }
}

proof fn lemma_filters_agree(
    scored: Seq<ScoredNode>,
    left: spec_fn(ScoredNode) -> bool,
    right: spec_fn(ScoredNode) -> bool,
)
    requires
        forall|i: int| 0 <= i < scored.len() ==> left(#[trigger] scored[i]) == right(scored[i]),
    ensures
        scored.filter(left) == scored.filter(right),
    decreases scored.len(),
{
    reveal(Seq::filter);
    if scored.len() > 0 {
        let shorter = scored.drop_last();
        assert forall|i: int| 0 <= i < shorter.len() implies left(#[trigger] shorter[i]) == right(
            shorter[i],
        ) by {
            assert(shorter[i] == scored[i]);
        }
        lemma_filters_agree(shorter, left, right);
        assert(left(scored[scored.len() - 1]) == right(scored[scored.len() - 1]));
    }
}

} // verus!
