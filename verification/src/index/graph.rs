//! The persisted HNSW graph and its mathematical model.

use crate::types::DistanceMetric;
use vstd::prelude::*;

verus! {

/// Index family available for a queryable unit.
#[derive(Clone, Copy, Debug, PartialEq, Eq, Structural)]
pub enum IndexKind {
    /// Hierarchical navigable small world graph.
    Hnsw,
    /// Inverted file with product quantization.
    IvfPq,
    /// Brute-force exact search path.
    Flat,
}

impl IndexKind {
    /// Render the index kind as a stable string.
    pub fn as_str(&self) -> (text: &'static str)
        ensures
            text@ == (match *self {
                IndexKind::Hnsw => "hnsw"@,
                IndexKind::IvfPq => "ivf_pq"@,
                IndexKind::Flat => "flat"@,
            }),
    {
        match self {
            IndexKind::Hnsw => "hnsw",
            IndexKind::IvfPq => "ivf_pq",
            IndexKind::Flat => "flat",
        }
    }
}

/// Deterministic build parameters for the persisted HNSW sidecar.
#[derive(Clone, Copy, Debug, PartialEq, Eq, Structural)]
pub struct HnswBuildParams {
    /// Maximum bidirectional neighbors kept per layer.
    pub max_neighbors: usize,
    /// Search breadth used while linking new nodes.
    pub ef_construction: usize,
    /// Default search breadth used at query time.
    pub ef_search: usize,
}

impl Default for HnswBuildParams {
    fn default() -> (params: Self)
        ensures
            params == (HnswBuildParams { max_neighbors: 8, ef_construction: 32, ef_search: 32 }),
    {
        HnswBuildParams { max_neighbors: 8, ef_construction: 32, ef_search: 32 }
    }
}

/// Persisted record payload for one HNSW node.
#[derive(Debug)]
pub struct HnswStoredRecord {
    /// Stable offset index into the flat sidecar entry table.
    pub entry_offset_index: usize,
    /// External record identifier.
    pub record_id: String,
    /// Sequence number represented by the immutable put.
    pub seq_no: u64,
    /// Raw vector payload duplicated for ANN traversal, as binary32 bit patterns.
    pub vector: Vec<u32>,
    /// Metadata payload as JSON text, used for filtered traversal and rerank fetches.
    pub metadata: String,
}

/// One HNSW node persisted inside the sidecar.
#[derive(Debug)]
pub struct HnswNode {
    /// Stored record carried by this node.
    pub record: HnswStoredRecord,
    /// Highest layer reachable by the node.
    pub level: u8,
    /// Neighbor lists for every layer from 0..=level.
    pub neighbors_by_level: Vec<Vec<u32>>,
}

/// Binary HNSW sidecar persisted for immutable ANN search.
#[derive(Debug)]
pub struct HnswIndexSidecar {
    /// Sidecar version.
    pub version: u16,
    /// Segment identifier this sidecar belongs to.
    pub segment_id: String,
    /// Index family represented by the sidecar.
    pub index_kind: IndexKind,
    /// Distance metric this graph was built for.
    pub metric: DistanceMetric,
    /// Vector dimensionality for every node.
    pub dimensions: usize,
    /// Build parameters that produced the graph.
    pub params: HnswBuildParams,
    /// Current graph entry point, if any nodes exist.
    pub entry_point: Option<u32>,
    /// Highest level present in the graph.
    pub max_level: u8,
    /// Persisted nodes in insertion order.
    pub nodes: Vec<HnswNode>,
}

/// Model of a stored record.
#[verifier::ext_equal]
pub struct RecordModel {
    pub entry_offset_index: usize,
    pub record_id: Seq<char>,
    pub seq_no: u64,
    pub vector: Seq<u32>,
    pub metadata: Seq<char>,
}

/// Model of a graph node.
#[verifier::ext_equal]
pub struct NodeModel {
    pub record: RecordModel,
    pub level: u8,
    pub neighbors: Seq<Seq<u32>>,
}

/// Model of a whole sidecar.
#[verifier::ext_equal]
pub struct SidecarModel {
    pub version: u16,
    pub segment_id: Seq<char>,
    pub index_kind: IndexKind,
    pub metric: DistanceMetric,
    pub dimensions: usize,
    pub params: HnswBuildParams,
    pub entry_point: Option<u32>,
    pub max_level: u8,
    pub nodes: Seq<NodeModel>,
}

impl View for HnswStoredRecord {
    type V = RecordModel;

    open spec fn view(&self) -> RecordModel {
        RecordModel {
            entry_offset_index: self.entry_offset_index,
            record_id: self.record_id@,
            seq_no: self.seq_no,
            vector: self.vector@,
            metadata: self.metadata@,
        }
    }
}

/// Model of neighbor lists.
pub open spec fn lists_model(lists: Seq<Vec<u32>>) -> Seq<Seq<u32>> {
    Seq::new(lists.len(), |i: int| lists[i]@)
}

/// Model of a list of nodes.
pub open spec fn nodes_model(nodes: Seq<HnswNode>) -> Seq<NodeModel> {
    Seq::new(nodes.len(), |i: int| nodes[i]@)
}

impl View for HnswNode {
    type V = NodeModel;

    open spec fn view(&self) -> NodeModel {
        NodeModel {
            record: self.record@,
            level: self.level,
            neighbors: lists_model(self.neighbors_by_level@),
        }
    }
}

impl View for HnswIndexSidecar {
    type V = SidecarModel;

    open spec fn view(&self) -> SidecarModel {
        SidecarModel {
            version: self.version,
            segment_id: self.segment_id@,
            index_kind: self.index_kind,
            metric: self.metric,
            dimensions: self.dimensions,
            params: self.params,
            entry_point: self.entry_point,
            max_level: self.max_level,
            nodes: nodes_model(self.nodes@),
        }
    }
}

/// Neighbors of `node` on `layer`; none where the node has no such layer.
pub open spec fn neighbors_at(nodes: Seq<NodeModel>, node: int, layer: nat) -> Seq<u32> {
    if layer < nodes[node].neighbors.len() {
        nodes[node].neighbors[layer as int]
    } else {
        Seq::empty()
    }
}

/// Whether every neighbor reference names a node.
pub open spec fn links_in_range(nodes: Seq<NodeModel>) -> bool {
    forall|node: int, layer: int, k: int|
        #![trigger nodes[node].neighbors[layer][k]]
        0 <= node < nodes.len() && 0 <= layer < nodes[node].neighbors.len() && 0 <= k
            < nodes[node].neighbors[layer].len() ==> nodes[node].neighbors[layer][k] < nodes.len()
}

pub proof fn lemma_neighbors_in_range(nodes: Seq<NodeModel>, node: int, layer: nat)
    requires
        links_in_range(nodes),
        0 <= node < nodes.len(),
    ensures
        forall|k: int|
            0 <= k < neighbors_at(nodes, node, layer).len() ==> #[trigger] neighbors_at(
                nodes,
                node,
                layer,
            )[k] < nodes.len(),
{
    let list = neighbors_at(nodes, node, layer);
    assert forall|k: int| 0 <= k < list.len() implies #[trigger] list[k] < nodes.len() by {
        assert(nodes[node].neighbors[layer as int][k] == list[k]);
    }
}

/// Neighbors of a node on a layer; none where the node has no such layer.
pub fn neighbor_indices(nodes: &Vec<HnswNode>, node_index: usize, layer: u8) -> (list: Vec<u32>)
    requires
        node_index < nodes@.len(),
    ensures
        list@ == neighbors_at(nodes_model(nodes@), node_index as int, layer as nat),
{
    let lists = &nodes[node_index].neighbors_by_level;
    let position: usize = layer as usize;
    if position < lists.len() {
        let list = lists[position].clone();
        assert(list@ =~= lists@[position as int]@);
        list
    } else {
        Vec::new()
    }
}

} // verus!
