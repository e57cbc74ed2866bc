//! Search of a whole HNSW graph.

use crate::index::error::{invalid_input, invalid_input_error, ErrorModel, IndexError};
use crate::index::graph::{
    links_in_range, nodes_model, HnswIndexSidecar, HnswNode, NodeModel, RecordModel, SidecarModel,
};
use crate::index::layer::{
    descended, greedy_descent, layer_search, node_values, same_node, search_layer, LayerGoal,
};
use crate::index::layer_facts::{closed_under_links, law_layer_search};
use crate::index::score::ScoredNode;
use crate::text::{decimal, decimal_text};
use crate::types::DistanceMetric;
use vstd::prelude::*;
use vstd::string::*;

verus! {

/// Final candidate returned by HNSW search.
#[derive(Debug)]
pub struct HnswSearchCandidate {
    /// Stable offset index into the flat sidecar entry table.
    pub entry_offset_index: usize,
    /// External record identifier.
    pub record_id: String,
    /// Sequence number represented by the immutable put.
    pub seq_no: u64,
    /// Raw vector payload duplicated for ANN traversal, as binary32 bit patterns.
    pub vector: Vec<u32>,
    /// Metadata payload associated with the candidate, as JSON text.
    pub metadata: String,
    /// Bit pattern of the metric value for the candidate.
    pub value: u32,
}

/// Internal search accounting for ANN explain and verification surfaces.
#[derive(Clone, Copy, Debug, PartialEq, Eq, Structural)]
pub struct HnswSearchStats {
    /// Distinct nodes visited while traversing the graph.
    pub visited_nodes: usize,
    /// Candidate count before any metadata filter is applied.
    pub candidate_count: usize,
    /// Candidate count rejected by the metadata filter hook.
    pub filtered_out_count: usize,
}

impl Default for HnswSearchStats {
    fn default() -> (stats: Self)
        ensures
            stats == (HnswSearchStats {
                visited_nodes: 0,
                candidate_count: 0,
                filtered_out_count: 0,
            }),
    {
        HnswSearchStats { visited_nodes: 0, candidate_count: 0, filtered_out_count: 0 }
    }
}

/// Search output returned from an HNSW sidecar query.
#[derive(Debug)]
pub struct HnswSearchResult {
    /// Final ranked candidates after optional filtering.
    pub candidates: Vec<HnswSearchCandidate>,
    /// Traversal and filter accounting.
    pub stats: HnswSearchStats,
}

/// Model of a search candidate.
#[verifier::ext_equal]
pub struct CandidateModel {
    pub record: RecordModel,
    pub value: u32,
}

/// Model of search accounting.
#[verifier::ext_equal]
pub struct StatsModel {
    pub visited_nodes: nat,
    pub candidate_count: nat,
    pub filtered_out_count: nat,
}

/// Model of a search result.
#[verifier::ext_equal]
pub struct SearchModel {
    pub candidates: Seq<CandidateModel>,
    pub stats: StatsModel,
}

impl View for HnswSearchCandidate {
    type V = CandidateModel;

    open spec fn view(&self) -> CandidateModel {
        CandidateModel {
            record: RecordModel {
                entry_offset_index: self.entry_offset_index,
                record_id: self.record_id@,
                seq_no: self.seq_no,
                vector: self.vector@,
                metadata: self.metadata@,
            },
            value: self.value,
        }
    }
}

impl View for HnswSearchStats {
    type V = StatsModel;

    open spec fn view(&self) -> StatsModel {
        StatsModel {
            visited_nodes: self.visited_nodes as nat,
            candidate_count: self.candidate_count as nat,
            filtered_out_count: self.filtered_out_count as nat,
        }
    }
}

impl View for HnswSearchResult {
    type V = SearchModel;

    open spec fn view(&self) -> SearchModel {
        SearchModel {
            candidates: Seq::new(self.candidates@.len(), |i: int| self.candidates@[i]@),
            stats: self.stats@,
        }
    }
}

/// Whether a node may be returned: without a filter every node may.
pub open spec fn passes(filter: Option<Seq<bool>>, node: int) -> bool {
    match filter {
        None => true,
        Some(verdicts) => verdicts[node],
    }
}

/// The nodes kept of the first `count`, until there are `top_k` of them, and the
/// number of nodes that the filter turned away on the way.
pub open spec fn picked(
    scored: Seq<ScoredNode>,
    filter: Option<Seq<bool>>,
    top_k: nat,
    count: nat,
) -> (Seq<ScoredNode>, nat)
    decreases count,
{
    if count == 0 {
        (Seq::empty(), 0)
    } else {
        let before = picked(scored, filter, top_k, (count - 1) as nat);
        if before.0.len() == top_k {
            before
        } else if passes(filter, scored[count - 1].index as int) {
            (before.0.push(scored[count - 1]), before.1)
        } else {
            (before.0, before.1 + 1)
        }
    }
}

/// The node that the descent from `layer` down to the base layer leads to.
pub open spec fn entry_for_base(
    nodes: Seq<NodeModel>,
    metric: DistanceMetric,
    values: Seq<Result<u32, nat>>,
    layer: nat,
    entry: int,
) -> Result<int, nat>
    decreases layer,
{
    if layer == 0 {
        Ok(entry)
    } else {
        match descended(nodes, metric, values, layer, entry) {
            Err(found) => Err(found),
            Ok(next) => entry_for_base(nodes, metric, values, (layer - 1) as nat, next),
        }
    }
}

/// Nodes and accounting of one search of the base layer with breadth `ef`.
pub open spec fn base_search(
    nodes: Seq<NodeModel>,
    metric: DistanceMetric,
    values: Seq<Result<u32, nat>>,
    entry: int,
    ef: nat,
    top_k: nat,
    filter: Option<Seq<bool>>,
) -> Result<(Seq<ScoredNode>, StatsModel), nat> {
    match layer_search(
        nodes,
        0,
        LayerGoal { metric, ef, exclude: None },
        values,
        entry as usize,
    ) {
        Err(found) => Err(found),
        Ok((scored, visited)) => {
            let kept = picked(scored, filter, top_k, scored.len());
            Ok(
                (
                    kept.0,
                    StatsModel {
                        visited_nodes: visited,
                        candidate_count: scored.len(),
                        filtered_out_count: kept.1,
                    },
                ),
            )
        },
    }
}

/// The breadth tried after `ef`: twice as much, and never more than all nodes.
pub open spec fn wider(ef: nat, count: nat) -> nat {
    if 2 * ef < count {
        2 * ef
    } else {
        count
    }
}

/// Search of the base layer with growing breadth, until a filtered search has
/// found `top_k` nodes or has covered the graph.
pub open spec fn widening_search(
    nodes: Seq<NodeModel>,
    metric: DistanceMetric,
    values: Seq<Result<u32, nat>>,
    entry: int,
    ef: nat,
    top_k: nat,
    filter: Option<Seq<bool>>,
) -> Result<(Seq<ScoredNode>, StatsModel), nat>
    decreases nodes.len() - ef,
{
    match base_search(nodes, metric, values, entry, ef, top_k, filter) {
        Err(found) => Err(found),
        Ok((kept, stats)) => if filter is None || kept.len() == top_k || ef >= nodes.len() || ef
            == 0 {
            Ok((kept, stats))
        } else {
            widening_search(
                nodes,
                metric,
                values,
                entry,
                wider(ef, nodes.len()),
                top_k,
                filter,
            )
        },
    }
}

/// The candidates that scored nodes stand for.
pub open spec fn candidates_of(nodes: Seq<NodeModel>, kept: Seq<ScoredNode>) -> Seq<
    CandidateModel,
> {
    Seq::new(
        kept.len(),
        |i: int| CandidateModel { record: nodes[kept[i].index as int].record, value: kept[i].value },
    )
}

/// The larger of two numbers.
pub open spec fn larger(left: nat, right: nat) -> nat {
    if left < right {
        right
    } else {
        left
    }
}

/// Why a vector cannot be compared with a query.
pub open spec fn length_mismatch(expected: nat, found: nat) -> ErrorModel {
    invalid_input(
        "vector expected "@ + decimal(expected) + " dimensions but found "@ + decimal(found),
    )
}

/// Where a search enters the graph.
pub open spec fn search_entry(sidecar: SidecarModel) -> int {
    match sidecar.entry_point {
        Some(entry) => entry as int,
        None => 0,
    }
}

/// The result of searching a sidecar for the `top_k` best nodes that pass the
/// filter, where `values` holds the metric value of every node for the query.
pub open spec fn hnsw_search(
    sidecar: SidecarModel,
    query_len: nat,
    values: Seq<u32>,
    top_k: nat,
    filter: Option<Seq<bool>>,
) -> Result<SearchModel, ErrorModel> {
    let table = node_values(sidecar.nodes, query_len, values);
    if top_k == 0 || sidecar.nodes.len() == 0 {
        Ok(
            SearchModel {
                candidates: Seq::empty(),
                stats: StatsModel { visited_nodes: 0, candidate_count: 0, filtered_out_count: 0 },
            },
        )
    } else if query_len != sidecar.dimensions {
        Err(
            invalid_input(
                "query expected "@ + decimal(sidecar.dimensions as nat)
                    + " dimensions but found "@ + decimal(query_len),
            ),
        )
    } else {
        match entry_for_base(
            sidecar.nodes,
            sidecar.metric,
            table,
            sidecar.max_level as nat,
            search_entry(sidecar),
        ) {
            Err(found) => Err(length_mismatch(query_len, found)),
            Ok(entry) => match widening_search(
                sidecar.nodes,
                sidecar.metric,
                table,
                entry,
                larger(sidecar.params.ef_search as nat, top_k),
                top_k,
                filter,
            ) {
                Err(found) => Err(length_mismatch(query_len, found)),
                Ok((kept, stats)) => Ok(
                    SearchModel { candidates: candidates_of(sidecar.nodes, kept), stats },
                ),
            },
        }
    }
}

/// Whether a search looks at the graph at all: something is asked for, there is something,
/// and the query has the dimensions of the sidecar.
pub open spec fn enters_graph(sidecar: SidecarModel, query_len: nat, top_k: nat) -> bool {
    top_k > 0 && sidecar.nodes.len() > 0 && query_len == sidecar.dimensions
}

/// Whether a search stays within the graph: every reference names a node, and so
/// does the entry point where there are layers to descend.
pub open spec fn searchable(sidecar: SidecarModel) -> bool {
    &&& links_in_range(sidecar.nodes)
    &&& sidecar.max_level > 0 && sidecar.nodes.len() > 0 ==> search_entry(sidecar)
        < sidecar.nodes.len()
}

/// Whether every neighbor reference of a node names one of `count` nodes.
pub open spec fn node_links_in_range(node: NodeModel, count: nat) -> bool {
    forall|layer: int, k: int|
        #![trigger node.neighbors[layer][k]]
        0 <= layer < node.neighbors.len() && 0 <= k < node.neighbors[layer].len()
            ==> node.neighbors[layer][k] < count
}

fn has_links_in_range(node: &HnswNode, count: usize) -> (result: bool)
    ensures
        result == node_links_in_range(node@, count as nat),
{
    let lists = &node.neighbors_by_level;
    let mut layer: usize = 0;
    while layer < lists.len()
        invariant
            layer <= lists@.len(),
            lists@ == node.neighbors_by_level@,
            forall|l: int, k: int|
                #![trigger node@.neighbors[l][k]]
                0 <= l < layer && 0 <= k < node@.neighbors[l].len() ==> node@.neighbors[l][k]
                    < count,
        decreases lists@.len() - layer,
    {
        let list = &lists[layer];
        assert(list@ == node@.neighbors[layer as int]);
        let mut index: usize = 0;
        while index < list.len()
            invariant
                layer < lists@.len(),
                lists@ == node.neighbors_by_level@,
                list@ == node@.neighbors[layer as int],
                index <= list@.len(),
                forall|k: int| 0 <= k < index ==> #[trigger] list@[k] < count,
            decreases list@.len() - index,
        {
            if list[index] as usize >= count {
                assert(node@.neighbors[layer as int][index as int] >= count);
                return false;
            }
            index = index + 1;
        }
        layer = layer + 1;
    }
    true
}

/// Whether a sidecar can be searched.
pub fn is_searchable(sidecar: &HnswIndexSidecar) -> (result: bool)
    ensures
        result == searchable(sidecar@),
{
    let nodes = &sidecar.nodes;
    let mut index: usize = 0;
    while index < nodes.len()
        invariant
            index <= nodes@.len(),
            nodes@ == sidecar.nodes@,
            forall|i: int|
                0 <= i < index ==> node_links_in_range(#[trigger] nodes@[i]@, nodes@.len()),
        decreases nodes@.len() - index,
    {
        if !has_links_in_range(&nodes[index], nodes.len()) {
            proof {
                let node = sidecar@.nodes[index as int];
                let (layer, k) = choose|layer: int, k: int|
                    #![trigger node.neighbors[layer][k]]
                    0 <= layer < node.neighbors.len() && 0 <= k < node.neighbors[layer].len()
                        && node.neighbors[layer][k] >= nodes@.len();
                assert(sidecar@.nodes[index as int].neighbors[layer][k] >= sidecar@.nodes.len());
            }
            return false;
        }
        index = index + 1;
    }
    assert(links_in_range(sidecar@.nodes)) by {
        assert forall|node: int, layer: int, k: int|
            #![trigger sidecar@.nodes[node].neighbors[layer][k]]
            0 <= node < sidecar@.nodes.len() && 0 <= layer < sidecar@.nodes[node].neighbors.len()
                && 0 <= k
                < sidecar@.nodes[node].neighbors[layer].len() implies sidecar@.nodes[node].neighbors[layer][k]
            < sidecar@.nodes.len() by {
            assert(node_links_in_range(nodes@[node]@, nodes@.len()));
        }
    }
    let entry: usize = match sidecar.entry_point {
        Some(entry) => entry as usize,
        None => 0,
    };
    sidecar.max_level == 0 || nodes.len() == 0 || entry < nodes.len()
}

/// Verdicts of a filter, as its model has them.
pub open spec fn filter_model(filter: Option<&[bool]>) -> Option<Seq<bool>> {
    match filter {
        None => None,
        Some(verdicts) => Some(verdicts@),
    }
}

/// The outcome of an executable search as its model gives it.
pub open spec fn same_result(
    outcome: Result<HnswSearchResult, IndexError>,
    expected: Result<SearchModel, ErrorModel>,
) -> bool {
    match (outcome, expected) {
        (Ok(result), Ok(model)) => result@ == model,
        (Err(error), Err(model)) => error@ == model,
        _ => false,
    }
}

fn length_mismatch_error(expected: usize, found: usize) -> (error: IndexError)
    ensures
        error@ == length_mismatch(expected as nat, found as nat),
{
    let mut message = "vector expected ".to_owned();
    message.append(&decimal_text(expected as u64));
    message.append(" dimensions but found ");
    message.append(&decimal_text(found as u64));
    invalid_input_error(message)
}

fn candidate_of(node: &HnswNode, value: u32) -> (candidate: HnswSearchCandidate)
    ensures
        candidate@ == (CandidateModel { record: node@.record, value }),
{
    let vector = node.record.vector.clone();
    assert(vector@ =~= node.record.vector@);
    HnswSearchCandidate {
        entry_offset_index: node.record.entry_offset_index,
        record_id: node.record.record_id.clone(),
        seq_no: node.record.seq_no,
        vector,
        metadata: node.record.metadata.clone(),
        value,
    }
}

proof fn lemma_picked_stays(
    scored: Seq<ScoredNode>,
    filter: Option<Seq<bool>>,
    top_k: nat,
    early: nat,
    late: nat,
)
    requires
        early <= late,
        picked(scored, filter, top_k, early).0.len() == top_k,
    ensures
        picked(scored, filter, top_k, late) == picked(scored, filter, top_k, early),
    decreases late,
{
    if early < late {
        lemma_picked_stays(scored, filter, top_k, early, (late - 1) as nat);
    }
}

/// Keep the best nodes that pass the filter.
fn pick(scored: &Vec<ScoredNode>, filter: Option<&[bool]>, top_k: usize) -> (kept: (
    Vec<ScoredNode>,
    usize,
))
    requires
        top_k > 0,
        filter matches Some(verdicts) ==> forall|i: int|
            0 <= i < scored@.len() ==> (#[trigger] scored@[i]).index < verdicts@.len(),
    ensures
        kept.0@ == picked(scored@, filter_model(filter), top_k as nat, scored@.len()).0,
        kept.1 == picked(scored@, filter_model(filter), top_k as nat, scored@.len()).1,
{
    let mut kept: Vec<ScoredNode> = Vec::new();
    let mut filtered_out: usize = 0;
    let mut index: usize = 0;
    while index < scored.len()
        invariant
            top_k > 0,
            filter matches Some(verdicts) ==> forall|i: int|
                0 <= i < scored@.len() ==> (#[trigger] scored@[i]).index < verdicts@.len(),
            index <= scored@.len(),
            filtered_out <= index,
            kept@.len() < top_k,
            kept@ == picked(scored@, filter_model(filter), top_k as nat, index as nat).0,
            filtered_out == picked(scored@, filter_model(filter), top_k as nat, index as nat).1,
        decreases scored@.len() - index,
    {
        let scored_node = scored[index];
        let keep = match filter {
            None => true,
            Some(verdicts) => verdicts[scored_node.index],
        };
        if keep {
            kept.push(scored_node);
        } else {
            filtered_out = filtered_out + 1;
        }
        index = index + 1;
        if kept.len() == top_k {
            proof {
                lemma_picked_stays(
                    scored@,
                    filter_model(filter),
                    top_k as nat,
                    index as nat,
                    scored@.len(),
                );
            }
            return (kept, filtered_out);
        }
    }
    (kept, filtered_out)
}

/// Descend from the top layer to the base layer.
fn descend_to_base(
    nodes: &Vec<HnswNode>,
    metric: DistanceMetric,
    query_len: usize,
    values: &[u32],
    max_level: u8,
    start: usize,
) -> (outcome: Result<usize, usize>)
    requires
        values@.len() == nodes@.len(),
        links_in_range(nodes_model(nodes@)),
        max_level > 0 ==> start < nodes@.len(),
    ensures
        same_node(
            outcome,
            entry_for_base(
                nodes_model(nodes@),
                metric,
                node_values(nodes_model(nodes@), query_len as nat, values@),
                max_level as nat,
                start as int,
            ),
        ),
{
    let ghost model = nodes_model(nodes@);
    let ghost table = node_values(model, query_len as nat, values@);
    let mut entry: usize = start;
    let mut layer: u8 = max_level;
    while layer > 0
        invariant
            values@.len() == nodes@.len(),
            model == nodes_model(nodes@),
            table == node_values(model, query_len as nat, values@),
            links_in_range(model),
            layer > 0 ==> entry < nodes@.len(),
            entry_for_base(model, metric, table, max_level as nat, start as int) == entry_for_base(
                model,
                metric,
                table,
                layer as nat,
                entry as int,
            ),
        decreases layer,
    {
        match greedy_descent(nodes, metric, query_len, values, layer, entry) {
            Ok(next) => {
                entry = next;
            },
            Err(found) => {
                return Err(found);
            },
        }
        layer = layer - 1;
    }
    Ok(entry)
}

/// Search the persisted HNSW graph for the `top_k` best nodes.
///
/// `values` holds, for every node, the bit pattern of its metric value for
/// `query`; it is not looked at where the lengths of the two vectors differ.
/// `filter` holds, for every node, whether its metadata is accepted. None of this
/// matters where the search does not enter the graph.
pub fn search_hnsw(
    sidecar: &HnswIndexSidecar,
    query: &[u32],
    values: &[u32],
    top_k: usize,
    filter: Option<&[bool]>,
) -> (outcome: Result<HnswSearchResult, IndexError>)
    requires
        enters_graph(sidecar@, query@.len(), top_k as nat) ==> {
            &&& searchable(sidecar@)
            &&& values@.len() == sidecar@.nodes.len()
            &&& filter matches Some(verdicts) ==> verdicts@.len() == sidecar@.nodes.len()
        },
    ensures
        same_result(
            outcome,
            hnsw_search(
                sidecar@,
                query@.len(),
                values@,
                top_k as nat,
                filter_model(filter),
            ),
        ),
{
    let nodes = &sidecar.nodes;
    if top_k == 0 || nodes.len() == 0 {
        let result = HnswSearchResult {
            candidates: Vec::new(),
            stats: HnswSearchStats::default(),
        };
        assert(result@.candidates =~= Seq::empty());
        return Ok(result);
    }
    if query.len() != sidecar.dimensions {
        let mut message = "query expected ".to_owned();
        message.append(&decimal_text(sidecar.dimensions as u64));
        message.append(" dimensions but found ");
        message.append(&decimal_text(query.len() as u64));
        return Err(invalid_input_error(message));
    }
    let ghost model = sidecar@.nodes;
    let ghost table = node_values(model, query@.len(), values@);
    let start: usize = match sidecar.entry_point {
        Some(entry) => entry as usize,
        None => 0,
    };
    let entry: usize = match descend_to_base(
        nodes,
        sidecar.metric,
        query.len(),
        values,
        sidecar.max_level,
        start,
    ) {
        Ok(entry) => entry,
        Err(found) => {
            return Err(length_mismatch_error(query.len(), found));
        },
    };
    let first_ef: usize = if sidecar.params.ef_search < top_k {
        top_k
    } else {
        sidecar.params.ef_search
    };
    let mut ef: usize = first_ef;
    loop
        invariant
            nodes@ == sidecar.nodes@,
            model == nodes_model(nodes@),
            table == node_values(model, query@.len(), values@),
            links_in_range(model),
            values@.len() == nodes@.len(),
            filter matches Some(verdicts) ==> verdicts@.len() == nodes@.len(),
            top_k > 0,
            ef >= top_k,
            nodes@.len() > 0,
            query@.len() == sidecar.dimensions,
            entry_for_base(
                model,
                sidecar.metric,
                table,
                sidecar.max_level as nat,
                search_entry(sidecar@),
            ) == Ok::<int, nat>(entry as int),
            first_ef == larger(sidecar.params.ef_search as nat, top_k as nat),
            widening_search(
                model,
                sidecar.metric,
                table,
                entry as int,
                first_ef as nat,
                top_k as nat,
                filter_model(filter),
            ) == widening_search(
                model,
                sidecar.metric,
                table,
                entry as int,
                ef as nat,
                top_k as nat,
                filter_model(filter),
            ),
        decreases nodes@.len() - ef,
    {
        let (scored, visited_nodes) = match search_layer(
            nodes,
            sidecar.metric,
            query.len(),
            values,
            0,
            &[entry],
            ef,
            None,
        ) {
            Ok(found) => found,
            Err(found) => {
                return Err(length_mismatch_error(query.len(), found));
            },
        };
        proof {
            let anywhere = |node: usize| true;
            assert(closed_under_links(model, 0, anywhere));
            law_layer_search(
                model,
                0,
                LayerGoal { metric: sidecar.metric, ef: ef as nat, exclude: None },
                table,
                entry,
                anywhere,
            );
        }
        let (kept, filtered_out_count) = pick(&scored, filter, top_k);
        if filter.is_none() || kept.len() == top_k || ef >= nodes.len() {
            proof {
                lemma_picked_members(scored@, filter_model(filter), top_k as nat, scored@.len());
            }
            let mut candidates: Vec<HnswSearchCandidate> = Vec::new();
            let mut index: usize = 0;
            while index < kept.len()
                invariant
                    nodes@ == sidecar.nodes@,
                    model == nodes_model(nodes@),
                    index <= kept@.len(),
                    forall|i: int|
                        0 <= i < kept@.len() ==> (#[trigger] kept@[i]).index < nodes@.len(),
                    candidates@.len() == index,
                    forall|i: int|
                        0 <= i < index ==> (#[trigger] candidates@[i])@ == candidates_of(
                            model,
                            kept@,
                        )[i],
                decreases kept@.len() - index,
            {
                let scored_node = kept[index];
                candidates.push(candidate_of(&nodes[scored_node.index], scored_node.value));
                index = index + 1;
            }
            let result = HnswSearchResult {
                candidates,
                stats: HnswSearchStats {
                    visited_nodes,
                    candidate_count: scored.len(),
                    filtered_out_count,
                },
            };
            assert(result@.candidates =~= candidates_of(model, kept@));
            return Ok(result);
        }
        ef = if ef <= (nodes.len() - 1) / 2 {
            2 * ef
        } else {
            nodes.len()
        };
    }
}

/// What is kept are the earliest nodes that pass, as many as asked for at most,
/// and fewer only where all have been looked at.
pub proof fn lemma_picked_members(
    scored: Seq<ScoredNode>,
    filter: Option<Seq<bool>>,
    top_k: nat,
    count: nat,
)
    requires
        count <= scored.len(),
    ensures
        ({
            let kept = picked(scored, filter, top_k, count);
            &&& forall|i: int|
                0 <= i < kept.0.len() ==> scored.contains(#[trigger] kept.0[i]) && passes(
                    filter,
                    kept.0[i].index as int,
                )
            &&& kept.0.len() <= top_k
            &&& kept.0.len() < top_k ==> kept.0.len() + kept.1 == count
        }),
    decreases count,
{
    if count > 0 {
        lemma_picked_members(scored, filter, top_k, (count - 1) as nat);
        let before = picked(scored, filter, top_k, (count - 1) as nat);
        let kept = picked(scored, filter, top_k, count);
        assert(scored.contains(scored[count - 1]));
        assert forall|i: int| 0 <= i < kept.0.len() implies scored.contains(#[trigger] kept.0[i])
            && passes(filter, kept.0[i].index as int) by {
            if i < before.0.len() {
                assert(kept.0[i] == before.0[i]);
            }
        }
    }
}

} // verus!
