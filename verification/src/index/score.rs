//! Order of metric values and of scored nodes.
//!
//! A metric value is held as the bit pattern of an IEEE 754 binary32 number.

use crate::float::{law_single_patterns_order, single_units};
use crate::text::Comparison;
use crate::types::DistanceMetric;
use vstd::prelude::*;

verus! {

/// A graph node together with its metric value for some query.
#[derive(Clone, Copy, Debug, PartialEq, Eq, Structural)]
pub struct ScoredNode {
    /// Index of the node in the graph.
    pub index: usize,
    /// Bit pattern of the metric value.
    pub value: u32,
}

/// Distance of a bit pattern from the pattern of zero of the same sign.
pub open spec fn float_magnitude(bits: u32) -> int {
    if bits >= 0x8000_0000 {
        bits - 0x8000_0000
    } else {
        bits as int
    }
}

/// Whether the bit pattern is that of a NaN.
pub open spec fn is_nan(bits: u32) -> bool {
    float_magnitude(bits) > 0x7f80_0000
}

/// Position of a number that is not a NaN among all of them; both zeros share one.
pub open spec fn float_rank(bits: u32) -> int {
    if bits >= 0x8000_0000 {
        -float_magnitude(bits)
    } else {
        float_magnitude(bits)
    }
}

/// Position of a metric value, larger for a better value.
pub open spec fn metric_rank(metric: DistanceMetric, bits: u32) -> int {
    match metric {
        DistanceMetric::Cosine | DistanceMetric::Dot => float_rank(bits),
        DistanceMetric::L2 => -float_rank(bits),
    }
}

/// How `left` compares to `right`: `Greater` when it is the better value. A NaN
/// compares as equal to everything.
pub open spec fn metric_order(metric: DistanceMetric, left: u32, right: u32) -> Comparison {
    if is_nan(left) || is_nan(right) || metric_rank(metric, left) == metric_rank(metric, right) {
        Comparison::Equal
    } else if metric_rank(metric, left) < metric_rank(metric, right) {
        Comparison::Less
    } else {
        Comparison::Greater
    }
}

/// Whether `left` is strictly better than `right`.
pub open spec fn better(metric: DistanceMetric, left: u32, right: u32) -> bool {
    metric_order(metric, left, right) == Comparison::Greater
}

/// Position of the best of the first `count` nodes, the earliest one that no
/// later one improves on.
pub open spec fn best_position(metric: DistanceMetric, scored: Seq<ScoredNode>, count: nat) -> int
    decreases count,
{
    if count <= 1 {
        0
    } else {
        let best = best_position(metric, scored, (count - 1) as nat);
        if better(metric, scored[count - 1].value, scored[best].value) {
            count - 1
        } else {
            best
        }
    }
}

/// Position of the worst of the first `count` nodes, the latest one that does
/// not improve on the worst before it.
pub open spec fn worst_position(metric: DistanceMetric, scored: Seq<ScoredNode>, count: nat) -> int
    decreases count,
{
    if count <= 1 {
        0
    } else {
        let worst = worst_position(metric, scored, (count - 1) as nat);
        if better(metric, scored[count - 1].value, scored[worst].value) {
            worst
        } else {
            count - 1
        }
    }
}

/// `scored` without the element at `position`, whose place the last one takes.
pub open spec fn swap_removed(scored: Seq<ScoredNode>, position: int) -> Seq<ScoredNode> {
    scored.update(position, scored.last()).drop_last()
}

/// `sorted` with `node` placed behind everything that it does not improve on,
/// looking from the end.
pub open spec fn placed_best_first(
    metric: DistanceMetric,
    sorted: Seq<ScoredNode>,
    node: ScoredNode,
) -> Seq<ScoredNode>
    decreases sorted.len(),
{
    if sorted.len() == 0 || !better(metric, node.value, sorted.last().value) {
        sorted.push(node)
    } else {
        placed_best_first(metric, sorted.drop_last(), node).push(sorted.last())
    }
}

/// `scored` in order from the best value to the worst, equal values in their
/// old order.
pub open spec fn sorted_best_first(metric: DistanceMetric, scored: Seq<ScoredNode>) -> Seq<
    ScoredNode,
>
    decreases scored.len(),
{
    if scored.len() == 0 {
        Seq::empty()
    } else {
        placed_best_first(metric, sorted_best_first(metric, scored.drop_last()), scored.last())
    }
}

/// Whether no value of the sequence is a NaN.
pub open spec fn all_numbers(scored: Seq<ScoredNode>) -> bool {
    forall|i: int| 0 <= i < scored.len() ==> !is_nan(#[trigger] scored[i].value)
}

/// Whether no element is better than one before it.
pub open spec fn is_best_first(metric: DistanceMetric, scored: Seq<ScoredNode>) -> bool {
    forall|i: int, j: int|
        0 <= i < j < scored.len() ==> !better(
            metric,
            #[trigger] scored[j].value,
            #[trigger] scored[i].value,
        )
}

fn rank_of(bits: u32) -> (rank: i64)
    ensures
        rank == float_rank(bits),
{
    if bits >= 0x8000_0000 {
        -((bits - 0x8000_0000) as i64)
    } else {
        bits as i64
    }
}

fn nan_test(bits: u32) -> (nan: bool)
    ensures
        nan == is_nan(bits),
{
    if bits >= 0x8000_0000 {
        bits - 0x8000_0000 > 0x7f80_0000
    } else {
        bits > 0x7f80_0000
    }
}

/// Compare two metric values, `Greater` when `left` is the better one.
pub fn metric_compare(metric: DistanceMetric, left: u32, right: u32) -> (order: Comparison)
    ensures
        order == metric_order(metric, left, right),
        left % 0x8000_0000 <= 0x7f80_0000 && right % 0x8000_0000 <= 0x7f80_0000 ==> {
            &&& metric != DistanceMetric::L2 ==> (order == Comparison::Greater <==> single_units(
                left,
            ) > single_units(right))
            &&& metric == DistanceMetric::L2 ==> (order == Comparison::Greater <==> single_units(
                left,
            ) < single_units(right))
        },
{
    proof {
        if left % 0x8000_0000 <= 0x7f80_0000 && right % 0x8000_0000 <= 0x7f80_0000 {
            law_values_compare_as_numbers(left, right);
        }
    }
    if nan_test(left) || nan_test(right) {
        return Comparison::Equal;
    }
    let left_rank: i64 = rank_of(left);
    let right_rank: i64 = rank_of(right);
    if left_rank == right_rank {
        return Comparison::Equal;
    }
    let left_is_larger = left_rank > right_rank;
    match metric {
        DistanceMetric::Cosine | DistanceMetric::Dot => if left_is_larger {
            Comparison::Greater
        } else {
            Comparison::Less
        },
        DistanceMetric::L2 => if left_is_larger {
            Comparison::Less
        } else {
            Comparison::Greater
        },
    }
}

/// Whether `left` is strictly better than `right`.
pub fn is_better(metric: DistanceMetric, left: u32, right: u32) -> (result: bool)
    ensures
        result == better(metric, left, right),
{
    match metric_compare(metric, left, right) {
        Comparison::Greater => true,
        _ => false,
    }
}

/// Whether `left` does not improve on `right`.
pub fn is_worse_or_equal(metric: DistanceMetric, left: u32, right: u32) -> (result: bool)
    ensures
        result == !better(metric, left, right),
{
    match metric_compare(metric, left, right) {
        Comparison::Less => true,
        Comparison::Equal => true,
        Comparison::Greater => false,
    }
}

pub proof fn lemma_best_position_in_range(
    metric: DistanceMetric,
    scored: Seq<ScoredNode>,
    count: nat,
)
    requires
        0 < count,
    ensures
        0 <= best_position(metric, scored, count) < count,
    decreases count,
{
    if count > 1 {
        lemma_best_position_in_range(metric, scored, (count - 1) as nat);
    }
}

pub proof fn lemma_worst_position_in_range(
    metric: DistanceMetric,
    scored: Seq<ScoredNode>,
    count: nat,
)
    requires
        0 < count,
    ensures
        0 <= worst_position(metric, scored, count) < count,
    decreases count,
{
    if count > 1 {
        lemma_worst_position_in_range(metric, scored, (count - 1) as nat);
    }
}

/// Remove and return the best node.
pub fn pop_best_scored(metric: DistanceMetric, scored: &mut Vec<ScoredNode>) -> (best: ScoredNode)
    requires
        old(scored)@.len() > 0,
    ensures
        best == old(scored)@[best_position(metric, old(scored)@, old(scored)@.len())],
        final(scored)@ == swap_removed(
            old(scored)@,
            best_position(metric, old(scored)@, old(scored)@.len()),
        ),
{
    let mut best_index: usize = 0;
    let mut index: usize = 1;
    let count: usize = scored.len();
    while index < count
        invariant
            1 <= index <= count,
            count == scored@.len(),
            scored@ == old(scored)@,
            best_index == best_position(metric, scored@, index as nat),
            best_index < index,
        decreases count - index,
    {
        if is_better(metric, scored[index].value, scored[best_index].value) {
            best_index = index;
        }
        index = index + 1;
    }
    let best = scored.swap_remove(best_index);
    assert(scored@ =~= swap_removed(old(scored)@, best_index as int));
    best
}

/// The worst node, if there is any node.
pub fn worst_scored(metric: DistanceMetric, scored: &Vec<ScoredNode>) -> (worst: Option<ScoredNode>)
    ensures
        worst == (if scored@.len() == 0 {
            None::<ScoredNode>
        } else {
            Some(scored@[worst_position(metric, scored@, scored@.len())])
        }),
{
    if scored.len() == 0 {
        return None;
    }
    let mut worst_index: usize = 0;
    let mut index: usize = 1;
    while index < scored.len()
        invariant
            1 <= index <= scored@.len(),
            worst_index == worst_position(metric, scored@, index as nat),
            worst_index < index,
        decreases scored@.len() - index,
    {
        if is_worse_or_equal(metric, scored[index].value, scored[worst_index].value) {
            worst_index = index;
        }
        index = index + 1;
    }
    Some(scored[worst_index])
}

/// Remove the worst node, if there is any node.
pub fn drop_worst_scored(metric: DistanceMetric, scored: &mut Vec<ScoredNode>)
    ensures
        final(scored)@ == (if old(scored)@.len() == 0 {
            old(scored)@
        } else {
            swap_removed(
                old(scored)@,
                worst_position(metric, old(scored)@, old(scored)@.len()),
            )
        }),
{
    if scored.len() == 0 {
        return;
    }
    let mut worst_index: usize = 0;
    let mut index: usize = 1;
    let count: usize = scored.len();
    while index < count
        invariant
            1 <= index <= count,
            count == scored@.len(),
            scored@ == old(scored)@,
            worst_index == worst_position(metric, scored@, index as nat),
            worst_index < index,
        decreases count - index,
    {
        if is_worse_or_equal(metric, scored[index].value, scored[worst_index].value) {
            worst_index = index;
        }
        index = index + 1;
    }
    let _dropped = scored.swap_remove(worst_index);
    assert(scored@ =~= swap_removed(old(scored)@, worst_index as int));
}

proof fn lemma_placed_by_position(
    metric: DistanceMetric,
    sorted: Seq<ScoredNode>,
    node: ScoredNode,
    position: int,
)
    requires
        0 <= position <= sorted.len(),
        forall|i: int|
            position <= i < sorted.len() ==> better(metric, node.value, #[trigger] sorted[i].value),
        position > 0 ==> !better(metric, node.value, sorted[position - 1].value),
    ensures
        placed_best_first(metric, sorted, node) == sorted.insert(position, node),
    decreases sorted.len(),
{
    if position == sorted.len() {
        assert(sorted.insert(position, node) =~= sorted.push(node));
    } else {
        let shorter = sorted.drop_last();
        assert(better(metric, node.value, sorted[sorted.len() - 1].value));
        assert forall|i: int| position <= i < shorter.len() implies better(
            metric,
            node.value,
            #[trigger] shorter[i].value,
        ) by {
            assert(shorter[i] == sorted[i]);
        }
        lemma_placed_by_position(metric, shorter, node, position);
        assert(sorted.insert(position, node) =~= shorter.insert(position, node).push(
            sorted.last(),
        ));
    }
}

fn place_best_first(metric: DistanceMetric, sorted: &mut Vec<ScoredNode>, node: ScoredNode)
    ensures
        final(sorted)@ == placed_best_first(metric, old(sorted)@, node),
{
    let mut position: usize = sorted.len();
    while position > 0 && is_better(metric, node.value, sorted[position - 1].value)
        invariant
            position <= sorted@.len(),
            sorted@ == old(sorted)@,
            forall|i: int|
                position <= i < sorted@.len() ==> better(
                    metric,
                    node.value,
                    #[trigger] sorted@[i].value,
                ),
        decreases position,
    {
        position = position - 1;
    }
    proof {
        lemma_placed_by_position(metric, sorted@, node, position as int);
    }
    sorted.insert(position, node);
}

/// Order nodes from the best value to the worst.
pub fn sort_scored_best_first(metric: DistanceMetric, scored: &Vec<ScoredNode>) -> (sorted: Vec<
    ScoredNode,
>)
    ensures
        sorted@ == sorted_best_first(metric, scored@),
{
    let mut sorted: Vec<ScoredNode> = Vec::new();
    let mut index: usize = 0;
    while index < scored.len()
        invariant
            index <= scored@.len(),
            sorted@ == sorted_best_first(metric, scored@.take(index as int)),
        decreases scored@.len() - index,
    {
        proof {
            let longer = scored@.take(index + 1);
            assert(longer.drop_last() =~= scored@.take(index as int));
            assert(longer.last() == scored@[index as int]);
        }
        place_best_first(metric, &mut sorted, scored[index]);
        index = index + 1;
    }
    assert(scored@.take(index as int) =~= scored@);
    sorted
}

/// Where `placed_best_first` puts a node.
spec fn place_position(metric: DistanceMetric, sorted: Seq<ScoredNode>, node: ScoredNode) -> int
    decreases sorted.len(),
{
    if sorted.len() == 0 || !better(metric, node.value, sorted.last().value) {
        sorted.len() as int
    } else {
        place_position(metric, sorted.drop_last(), node)
    }
}

proof fn lemma_place_position(metric: DistanceMetric, sorted: Seq<ScoredNode>, node: ScoredNode)
    ensures
        ({
            let position = place_position(metric, sorted, node);
            &&& 0 <= position <= sorted.len()
            &&& placed_best_first(metric, sorted, node) == sorted.insert(position, node)
            &&& forall|i: int|
                position <= i < sorted.len() ==> better(
                    metric,
                    node.value,
                    #[trigger] sorted[i].value,
                )
            &&& position > 0 ==> !better(metric, node.value, sorted[position - 1].value)
        }),
    decreases sorted.len(),
{
    let position = place_position(metric, sorted, node);
    if sorted.len() > 0 && better(metric, node.value, sorted.last().value) {
        let shorter = sorted.drop_last();
        lemma_place_position(metric, shorter, node);
        assert forall|i: int| position <= i < sorted.len() implies better(
            metric,
            node.value,
            #[trigger] sorted[i].value,
        ) by {
            if i < shorter.len() {
                assert(shorter[i] == sorted[i]);
            }
        }
    }
    lemma_placed_by_position(metric, sorted, node, position);
}

/// Metric values compare as the numbers that they stand for: under cosine similarity and under
/// the dot product the larger number is the better one, and under distance the smaller one.
pub proof fn law_values_compare_as_numbers(left: u32, right: u32)
    requires
        left % 0x8000_0000 <= 0x7f80_0000,
        right % 0x8000_0000 <= 0x7f80_0000,
    ensures
        metric_order(DistanceMetric::Cosine, left, right) == Comparison::Greater <==> single_units(
            left,
        ) > single_units(right),
        metric_order(DistanceMetric::Cosine, left, right) == Comparison::Less <==> single_units(
            left,
        ) < single_units(right),
        metric_order(DistanceMetric::Dot, left, right) == Comparison::Greater <==> single_units(
            left,
        ) > single_units(right),
        metric_order(DistanceMetric::Dot, left, right) == Comparison::Less <==> single_units(left)
            < single_units(right),
        metric_order(DistanceMetric::L2, left, right) == Comparison::Greater <==> single_units(left)
            < single_units(right),
        metric_order(DistanceMetric::L2, left, right) == Comparison::Less <==> single_units(left)
            > single_units(right),
{
    law_single_patterns_order(left, right);
    law_single_patterns_order(right, left);
}

/// Metric values compare by their patterns: under cosine similarity and under the dot product a
/// larger pattern without a sign is better, one without a sign is better than one with, and of
/// two with a sign the smaller pattern is; under distance it is the other way round. Both zeros
/// are the same.
pub proof fn law_values_compare_by_pattern(metric: DistanceMetric, left: u32, right: u32)
    requires
        left % 0x8000_0000 <= 0x7f80_0000,
        right % 0x8000_0000 <= 0x7f80_0000,
    ensures
        left < right < 0x8000_0000 ==> metric_order(metric, left, right) == (if metric
            == DistanceMetric::L2 {
            Comparison::Greater
        } else {
            Comparison::Less
        }),
        right < left < 0x8000_0000 ==> metric_order(metric, left, right) == (if metric
            == DistanceMetric::L2 {
            Comparison::Less
        } else {
            Comparison::Greater
        }),
        0x8000_0000 <= left < right ==> metric_order(metric, left, right) == (if metric
            == DistanceMetric::L2 {
            Comparison::Less
        } else {
            Comparison::Greater
        }),
        0x8000_0000 <= right < left ==> metric_order(metric, left, right) == (if metric
            == DistanceMetric::L2 {
            Comparison::Greater
        } else {
            Comparison::Less
        }),
        left < 0x8000_0000 < right ==> metric_order(metric, left, right) == (if metric
            == DistanceMetric::L2 {
            Comparison::Less
        } else {
            Comparison::Greater
        }),
        right < 0x8000_0000 < left ==> metric_order(metric, left, right) == (if metric
            == DistanceMetric::L2 {
            Comparison::Greater
        } else {
            Comparison::Less
        }),
        left == right || left % 0x8000_0000 == 0 && right % 0x8000_0000 == 0 ==> metric_order(
            metric,
            left,
            right,
        ) == Comparison::Equal,
{
}

/// A value that is no number compares as equal to every value.
pub proof fn law_nans_compare_as_equal(metric: DistanceMetric, left: u32, right: u32)
    requires
        left % 0x8000_0000 > 0x7f80_0000 || right % 0x8000_0000 > 0x7f80_0000,
    ensures
        metric_order(metric, left, right) == Comparison::Equal,
{
}

/// Sorting neither adds nor loses a node.
pub proof fn law_sort_keeps_nodes(metric: DistanceMetric, scored: Seq<ScoredNode>)
    ensures
        sorted_best_first(metric, scored).to_multiset() == scored.to_multiset(),
        sorted_best_first(metric, scored).len() == scored.len(),
    decreases scored.len(),
{
    if scored.len() > 0 {
        let shorter = scored.drop_last();
        let sorted = sorted_best_first(metric, shorter);
        law_sort_keeps_nodes(metric, shorter);
        lemma_place_position(metric, sorted, scored.last());
        let position = place_position(metric, sorted, scored.last());
        vstd::seq_lib::to_multiset_insert(sorted, position, scored.last());
        vstd::seq_lib::to_multiset_build(shorter, scored.last());
        assert(shorter.push(scored.last()) =~= scored);
    } else {
        assert(scored =~= Seq::empty());
    }
}

proof fn lemma_sort_orders(metric: DistanceMetric, scored: Seq<ScoredNode>)
    requires
        all_numbers(scored),
    ensures
        all_numbers(sorted_best_first(metric, scored)),
        is_best_first(metric, sorted_best_first(metric, scored)),
    decreases scored.len(),
{
    if scored.len() > 0 {
        let shorter = scored.drop_last();
        let node = scored.last();
        let sorted = sorted_best_first(metric, shorter);
        assert forall|i: int| 0 <= i < shorter.len() implies !is_nan(
            #[trigger] shorter[i].value,
        ) by {
            assert(shorter[i] == scored[i]);
        }
        lemma_sort_orders(metric, shorter);
        lemma_place_position(metric, sorted, node);
        let position = place_position(metric, sorted, node);
        let result = sorted.insert(position, node);
        assert(!is_nan(scored[scored.len() - 1].value));
        assert forall|i: int| 0 <= i < result.len() implies !is_nan(
            #[trigger] result[i].value,
        ) by {
            if i < position {
                assert(result[i] == sorted[i]);
            } else if i > position {
                assert(result[i] == sorted[i - 1]);
            }
        }
        assert forall|i: int, j: int| 0 <= i < j < result.len() implies !better(
            metric,
            #[trigger] result[j].value,
            #[trigger] result[i].value,
        ) by {
            if j == position {
                assert(result[i] == sorted[i]);
                assert(!better(metric, node.value, sorted[position - 1].value));
                if i < position - 1 {
                    assert(!better(metric, sorted[position - 1].value, sorted[i].value));
                }
            } else if i == position {
                assert(result[j] == sorted[j - 1]);
                assert(better(metric, node.value, sorted[j - 1].value));
            } else {
                let a = if i < position {
                    i
                } else {
                    i - 1
                };
                let b = if j < position {
                    j
                } else {
                    j - 1
                };
                assert(result[i] == sorted[a]);
                assert(result[j] == sorted[b]);
                assert(!better(metric, sorted[b].value, sorted[a].value));
            }
        }
    }
}

/// Where no value is a NaN, sorting leaves no node behind a worse one.
pub proof fn law_sort_is_best_first(metric: DistanceMetric, scored: Seq<ScoredNode>)
    requires
        all_numbers(scored),
    ensures
        is_best_first(metric, sorted_best_first(metric, scored)),
{
    lemma_sort_orders(metric, scored);
}

/// Where no value is a NaN, sorting keeps nodes of one value in their order.
pub proof fn law_sort_is_stable(metric: DistanceMetric, scored: Seq<ScoredNode>, rank: int)
    requires
        all_numbers(scored),
    ensures
        sorted_best_first(metric, scored).filter(
            |node: ScoredNode| metric_rank(metric, node.value) == rank,
        ) == scored.filter(|node: ScoredNode| metric_rank(metric, node.value) == rank),
    decreases scored.len(),
{
    let same = |node: ScoredNode| metric_rank(metric, node.value) == rank;
    if scored.len() > 0 {
        let shorter = scored.drop_last();
        let node = scored.last();
        let sorted = sorted_best_first(metric, shorter);
        assert forall|i: int| 0 <= i < shorter.len() implies !is_nan(
            #[trigger] shorter[i].value,
        ) by {
            assert(shorter[i] == scored[i]);
        }
        law_sort_is_stable(metric, shorter, rank);
        lemma_sort_orders(metric, shorter);
        lemma_place_position(metric, sorted, node);
        let position = place_position(metric, sorted, node);
        let front = sorted.take(position);
        let back = sorted.skip(position);
        assert(sorted =~= front + back);
        assert(sorted.insert(position, node) =~= front.push(node) + back);
        Seq::filter_distributes_over_add(front, back, same);
        Seq::filter_distributes_over_add(front.push(node), back, same);
        front.lemma_filter_push(node, same);
        shorter.lemma_filter_push(node, same);
        assert(shorter.push(node) =~= scored);
        if same(node) {
            assert forall|i: int| 0 <= i < back.len() implies !same(#[trigger] back[i]) by {
                assert(better(metric, node.value, sorted[position + i].value));
            }
            back.lemma_all_neg_filter_empty(same);
            assert(back.filter(same) =~= Seq::empty());
        }
        assert(sorted_best_first(metric, scored).filter(same) =~= scored.filter(same));
    } else {
        assert(sorted_best_first(metric, scored) =~= scored);
    }
}

/// Sorting keeps the nodes apart where they were apart, and keeps whatever
/// holds of each of them.
pub proof fn lemma_sort_members(metric: DistanceMetric, scored: Seq<ScoredNode>)
    ensures
        forall|node: ScoredNode|
            #[trigger] sorted_best_first(metric, scored).contains(node) <==> scored.contains(node),
        scored.no_duplicates() ==> sorted_best_first(metric, scored).no_duplicates(),
{
    law_sort_keeps_nodes(metric, scored);
    let sorted = sorted_best_first(metric, scored);
    assert forall|node: ScoredNode| sorted.contains(node) <==> scored.contains(node) by {
        vstd::seq_lib::to_multiset_contains(sorted, node);
        vstd::seq_lib::to_multiset_contains(scored, node);
    }
    if scored.no_duplicates() {
        scored.lemma_multiset_has_no_duplicates();
        sorted.lemma_multiset_has_no_duplicates_conv();
    }
}

} // verus!
