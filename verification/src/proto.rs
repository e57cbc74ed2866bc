//! Messages of the gRPC interface, as the surfaces of both ends see them.
//!
//! A field that holds an enumeration is decoded: a number without a meaning is kept as it is.
//! A field that holds an identifier is parsed: a text that is none is kept with the reason.
//! A field that holds a map is a list of its entries, in any order.

use crate::domain::OperationModel;
use crate::query::MatchModel;
use vstd::prelude::*;

verus! {

/// An identifier.
#[derive(Debug, PartialEq, Eq)]
pub enum WireId {
    /// An identifier.
    Parsed(String),
    /// A text that is no identifier.
    Unparsed {
        /// The text.
        text: String,
        /// Why it is none.
        error: String,
    },
}

/// Distance metric.
#[derive(Clone, Copy, Debug, PartialEq, Eq, Structural)]
pub enum DistanceMetric {
    /// No choice.
    Unspecified,
    /// Cosine similarity.
    Cosine,
    /// Dot product.
    Dot,
    /// Euclidean distance.
    L2,
    /// A number without a meaning.
    Unknown(i32),
}

/// Role of a node.
#[derive(Clone, Copy, Debug, PartialEq, Eq, Structural)]
pub enum NodeRole {
    /// No choice.
    Unspecified,
    /// Both planes.
    Combined,
    /// Control plane only.
    Control,
    /// Data plane only.
    Data,
    /// A number without a meaning.
    Unknown(i32),
}

/// Authentication mode of a policy.
#[derive(Clone, Copy, Debug, PartialEq, Eq, Structural)]
pub enum AuthenticationMode {
    /// No choice.
    Unspecified,
    /// No authentication.
    Disabled,
    /// Username and password.
    Password,
    /// Mutual TLS.
    MutualTls,
    /// External token.
    ExternalToken,
    /// A number without a meaning.
    Unknown(i32),
}

/// Role in a database.
#[derive(Clone, Copy, Debug, PartialEq, Eq, Structural)]
pub enum DatabaseRole {
    /// No choice.
    Unspecified,
    /// Owner.
    Owner,
    /// Reader and writer.
    ReadWrite,
    /// Reader.
    ReadOnly,
    /// A number without a meaning.
    Unknown(i32),
}

/// How a comparison tests a field.
#[derive(Clone, Copy, Debug, PartialEq, Eq, Structural)]
pub enum PredicateOperator {
    /// No choice.
    Unspecified,
    /// Equal.
    Eq,
    /// Not equal.
    Ne,
    /// Less.
    Lt,
    /// At most.
    Lte,
    /// Greater.
    Gt,
    /// At least.
    Gte,
    /// Present.
    Exists,
    /// Null.
    IsNull,
    /// A number without a meaning.
    Unknown(i32),
}

/// How much of its plan a query explains.
#[derive(Clone, Copy, Debug, PartialEq, Eq, Structural)]
pub enum ExplainMode {
    /// Nothing.
    Off,
    /// The plan.
    Plan,
    /// The plan and its timings.
    Profile,
    /// A number without a meaning.
    Unknown(i32),
}

/// How a query was planned.
#[derive(Clone, Copy, Debug, PartialEq, Eq, Structural)]
pub enum QueryPlanKind {
    /// No choice.
    Unspecified,
    /// Every record is scored.
    UnfilteredExactScan,
    /// Tested, then scored.
    PredicateFirstExact,
    /// Scored, then tested.
    VectorFirstExact,
    /// Too few records.
    TinyPopulationExactFallback,
    /// Index proposals.
    VectorFirstAnn,
    /// Tested index proposals.
    CooperativeFilteredAnn,
    /// Scans and proposals.
    HybridExactAnnMerge,
    /// A number without a meaning.
    Unknown(i32),
}

/// Which storage state is looked at.
#[derive(Clone, Copy, Debug, PartialEq, Eq, Structural)]
pub enum InspectTarget {
    /// The manifest.
    Manifest,
    /// The write-ahead log.
    Wal,
    /// One segment.
    Segment,
    /// The state of maintenance.
    Maintenance,
    /// A number without a meaning.
    Unknown(i32),
}

/// A state of a collection.
#[derive(Clone, Copy, Debug, PartialEq, Eq, Structural)]
pub struct Snapshot {
    /// Generation of the manifest.
    pub manifest_generation: u64,
    /// Last visible sequence number.
    pub visible_seq_no: u64,
}

/// A state of a named collection.
#[derive(Debug, PartialEq, Eq)]
pub struct SnapshotReply {
    /// Generation of the manifest.
    pub manifest_generation: u64,
    /// Last visible sequence number.
    pub visible_seq_no: u64,
    /// Name of the database.
    pub database_name: String,
    /// Name of the collection.
    pub collection_name: String,
}

/// Acknowledgement of a write batch.
#[derive(Debug, PartialEq, Eq)]
pub struct CommitAckReply {
    /// Sequence number of the last operation.
    pub last_seq_no: u64,
    /// Number of operations.
    pub applied_ops: u64,
    /// Name of the database.
    pub database_name: String,
    /// Name of the collection.
    pub collection_name: String,
    /// State that shows the batch.
    pub snapshot: Option<Snapshot>,
}

/// What a scalar value is.
#[derive(Debug, PartialEq, Eq)]
pub enum ScalarKind {
    /// A text.
    StringValue(String),
    /// A signed integer.
    Int64Value(i64),
    /// An unsigned integer.
    Uint64Value(u64),
    /// The bit pattern of a double-precision number.
    DoubleValue(u64),
    /// A truth value.
    BoolValue(bool),
    /// The absence of a value.
    NullValue(bool),
}

/// A scalar value.
#[derive(Debug, PartialEq, Eq)]
pub struct ScalarValue {
    /// What it is.
    pub kind: Option<ScalarKind>,
}

/// A field that has to equal a value.
#[derive(Debug, PartialEq, Eq)]
pub struct MetadataFilter {
    /// Name of the field.
    pub field: String,
    /// The value.
    pub value: Option<ScalarValue>,
}

/// A test of one metadata field.
#[derive(Debug, PartialEq, Eq)]
pub struct PredicateComparison {
    /// Name of the field.
    pub field: String,
    /// How it is tested.
    pub operator: PredicateOperator,
    /// What it is tested against.
    pub value: Option<ScalarValue>,
}

/// A condition on the metadata of records.
#[derive(Debug, PartialEq, Eq)]
pub struct Predicate {
    /// What the condition is.
    pub node: Option<PredicateNode>,
}

/// What a condition is.
#[derive(Debug, PartialEq, Eq)]
pub enum PredicateNode {
    /// Every condition holds.
    And(Vec<Predicate>),
    /// Some condition holds.
    Or(Vec<Predicate>),
    /// A condition does not hold.
    Not(Option<Box<Predicate>>),
    /// A field passes a test.
    Comparison(PredicateComparison),
}

/// A record to be stored.
#[derive(Debug, PartialEq, Eq)]
pub struct PutRecord {
    /// Identifier of the record.
    pub id: String,
    /// Bit patterns of the components.
    pub vector: Vec<u32>,
    /// Metadata, as JSON text.
    pub metadata_json: String,
}

/// A record to be removed.
#[derive(Debug, PartialEq, Eq)]
pub struct DeleteRecord {
    /// Identifier of the record.
    pub id: String,
}

/// What an operation does.
#[derive(Debug, PartialEq, Eq)]
pub enum Operation {
    /// Store a record.
    Put(PutRecord),
    /// Remove a record.
    Delete(DeleteRecord),
}

/// One operation of a write batch.
#[derive(Debug, PartialEq, Eq)]
pub struct WriteOperation {
    /// What it does.
    pub operation: Option<Operation>,
}

impl View for WriteOperation {
    type V = Option<OperationModel>;

    open spec fn view(&self) -> Option<OperationModel> {
        match self.operation {
            Some(Operation::Put(record)) => Some(
                OperationModel::Put {
                    id: record.id@,
                    vector: record.vector@,
                    metadata: record.metadata_json@,
                },
            ),
            Some(Operation::Delete(record)) => Some(OperationModel::Delete { id: record.id@ }),
            None => None,
        }
    }
}

/// Models of operations.
pub open spec fn operations_model(operations: Seq<WriteOperation>) -> Seq<Option<OperationModel>> {
    Seq::new(operations.len(), |i: int| operations[i]@)
}

/// A write batch.
#[derive(Debug, PartialEq, Eq)]
pub struct WriteCollectionRequest {
    /// Name of the collection.
    pub collection_name: String,
    /// The operations.
    pub operations: Vec<WriteOperation>,
    /// Name of the database.
    pub database_name: String,
}

/// A search for the nearest records.
#[derive(Debug, PartialEq, Eq)]
pub struct QueryCollectionRequest {
    /// Name of the collection.
    pub collection_name: String,
    /// Bit patterns of the components.
    pub vector: Vec<u32>,
    /// How many records are wanted.
    pub top_k: u64,
    /// The state to read.
    pub snapshot: Option<Snapshot>,
    /// Fields that have to equal values.
    pub filters: Vec<MetadataFilter>,
    /// Condition on the metadata.
    pub predicate: Option<Predicate>,
    /// How much of the plan is explained.
    pub explain: ExplainMode,
    /// Name of the database.
    pub database_name: String,
}

/// One record that a query found.
#[derive(Debug, PartialEq, Eq)]
pub struct QueryMatch {
    /// Identifier of the record.
    pub id: String,
    /// Bit pattern of the value of the metric.
    pub value: u32,
    /// Metadata, as JSON text.
    pub metadata_json: String,
}

impl View for QueryMatch {
    type V = MatchModel;

    open spec fn view(&self) -> MatchModel {
        MatchModel { id: self.id@, value: self.value, metadata: self.metadata_json@ }
    }
}

/// Models of the records that a query found.
pub open spec fn matches_model(found: Seq<QueryMatch>) -> Seq<MatchModel> {
    Seq::new(found.len(), |i: int| found[i]@)
}

/// Time spent in each stage of a query.
#[derive(Clone, Copy, Debug, PartialEq, Eq, Structural)]
pub struct QueryStageTimings {
    /// Planning.
    pub planning_micros: u64,
    /// Testing before candidates are generated.
    pub prefilter_micros: u64,
    /// Generating candidates.
    pub candidate_generation_micros: u64,
    /// Testing after candidates are generated.
    pub postfilter_micros: u64,
    /// Scoring candidates again.
    pub rerank_micros: u64,
    /// Merging candidates.
    pub merge_micros: u64,
}

/// A count under a name.
#[derive(Debug, PartialEq, Eq)]
pub struct NamedCount {
    /// The name.
    pub name: String,
    /// The count.
    pub count: u64,
}

/// How a query was answered.
#[derive(Debug, PartialEq, Eq)]
pub struct QueryDiagnostics {
    /// The plan.
    pub chosen_plan: QueryPlanKind,
    /// Why it was chosen.
    pub planner_reason: String,
    /// Bit pattern of the estimated share of records that pass.
    pub estimated_selectivity: u32,
    /// Units that could hold matches.
    pub units_considered: u64,
    /// Units that were ruled out.
    pub units_pruned: u64,
    /// Units that were read.
    pub units_scanned: u64,
    /// Candidates before they were tested.
    pub candidates_before_filter: u64,
    /// Candidates after they were tested.
    pub candidates_after_filter: u64,
    /// Candidates that were scored again.
    pub candidates_reranked: u64,
    /// Candidates that were merged.
    pub candidates_merged: u64,
    /// Number of rerankings.
    pub rerank_count: u64,
    /// Why the plan was given up.
    pub fallback_reason: Option<String>,
    /// Units read in each way.
    pub unit_scan_mix: Vec<NamedCount>,
    /// Time spent in each stage.
    pub stage_timings: Option<QueryStageTimings>,
}

/// What a query gives.
#[derive(Debug, PartialEq, Eq)]
pub struct QueryCollectionReply {
    /// Metric of the collection.
    pub metric: DistanceMetric,
    /// How many records were wanted.
    pub top_k: u64,
    /// How many records were found.
    pub returned: u64,
    /// The state that was read.
    pub snapshot: Option<Snapshot>,
    /// The records, best first.
    pub matches: Vec<QueryMatch>,
    /// How the query was answered.
    pub diagnostics: Option<QueryDiagnostics>,
    /// Name of the database.
    pub database_name: String,
    /// Name of the collection.
    pub collection_name: String,
}

/// Identity of a node and of its build.
#[derive(Debug, PartialEq, Eq)]
pub struct GetMetadataReply {
    /// Name of the product.
    pub product: String,
    /// Name of the node.
    pub node_name: String,
    /// Version of the build.
    pub version: String,
    /// Commit of the build.
    pub git_sha: String,
    /// Profile of the build.
    pub profile: String,
}

/// Where a collection is served.
#[derive(Debug, PartialEq, Eq)]
pub struct CollectionPlacementReply {
    /// Identifier of the collection.
    pub collection_id: WireId,
    /// Name of the collection.
    pub collection_name: String,
    /// Node that the collection is assigned to.
    pub assigned_node: String,
    /// Role of that node.
    pub assigned_role: NodeRole,
    /// Node that owns the collection.
    pub owner_node: Option<String>,
    /// Epoch of the ownership.
    pub ownership_epoch: Option<u64>,
    /// How requests reach the collection.
    pub route_kind: String,
    /// Why they do so.
    pub route_reason: String,
    /// Name of the database.
    pub database_name: String,
}

/// Membership and leadership of a node in its cluster.
#[derive(Debug, PartialEq, Eq)]
pub struct CoordinationStatusReply {
    /// Name of the cluster.
    pub cluster_name: String,
    /// Whether the node is a member.
    pub membership_registered: bool,
    /// Lease of the membership.
    pub membership_lease_id: Option<i64>,
    /// Every registered member.
    pub registered_members: Vec<String>,
    /// The leader.
    pub leader_node: Option<String>,
    /// Whether the node is the leader.
    pub is_local_leader: bool,
    /// Lease of the leadership.
    pub leadership_lease_id: Option<i64>,
    /// The last failure.
    pub last_error: Option<String>,
}

/// Maintenance of every collection of a node.
#[derive(Clone, Copy, Debug, PartialEq, Eq, Structural)]
pub struct MaintenanceBacklogReply {
    /// Collections with waiting work.
    pub collections_with_pending: u64,
    /// Waiting operations.
    pub pending_operations: u64,
    /// Collections with work going on.
    pub collections_in_progress: u64,
    /// Collections with a failure.
    pub collections_with_errors: u64,
}

/// Status of a node.
#[derive(Debug, PartialEq, Eq)]
pub struct GetRuntimeStatusReply {
    /// Identity of the node.
    pub metadata: Option<GetMetadataReply>,
    /// Role of the node.
    pub role: NodeRole,
    /// REST endpoint.
    pub rest_endpoint: String,
    /// gRPC endpoint.
    pub grpc_endpoint: String,
    /// Name of the storage engine.
    pub storage_engine: String,
    /// Whether the control plane is ready.
    pub control_plane_ready: bool,
    /// Whether the data plane is ready.
    pub data_plane_ready: bool,
    /// Number of collections.
    pub collection_count: u64,
    /// Placement of every collection.
    pub collections: Vec<CollectionPlacementReply>,
    /// Coordination.
    pub coordination: Option<CoordinationStatusReply>,
    /// Maintenance of every collection.
    pub maintenance: Option<MaintenanceBacklogReply>,
}

/// Maintenance of one collection.
#[derive(Debug, PartialEq, Eq)]
pub struct MaintenanceStatus {
    /// Whether work is waiting.
    pub pending: bool,
    /// Whether work is going on.
    pub in_progress: bool,
    /// The last failure.
    pub last_error: Option<String>,
    /// Number of completed runs.
    pub completed_runs: u64,
}

/// Statistics of one scalar field.
#[derive(Debug, PartialEq, Eq)]
pub struct ScalarFieldStats {
    /// Records that have the field.
    pub present_count: u64,
    /// Records in which it is null.
    pub null_count: u64,
    /// Occurrences of each value.
    pub value_counts: Vec<NamedCount>,
    /// The least value.
    pub min: Option<ScalarValue>,
    /// The greatest value.
    pub max: Option<ScalarValue>,
    /// Number of different values.
    pub distinct_count: u64,
}

/// Statistics of one scalar field under its name.
#[derive(Debug, PartialEq, Eq)]
pub struct NamedFieldStats {
    /// Name of the field.
    pub name: String,
    /// Its statistics.
    pub stats: ScalarFieldStats,
}

/// One file of a query unit.
#[derive(Debug, PartialEq, Eq)]
pub struct QueryUnitArtifactStats {
    /// What the file holds.
    pub kind: String,
    /// Name of the file.
    pub file_name: String,
    /// Approximate size of the file.
    pub approx_bytes: u64,
}

/// Statistics of one query unit.
#[derive(Debug, PartialEq, Eq)]
pub struct QueryUnitStats {
    /// Identifier of the unit.
    pub unit_id: String,
    /// Tier of the unit.
    pub tier: String,
    /// Kind of index of the unit.
    pub index_kind: String,
    /// First sequence number.
    pub min_seq_no: u64,
    /// Last sequence number.
    pub max_seq_no: u64,
    /// Number of stored records.
    pub put_count: u64,
    /// Number of removals.
    pub delete_count: u64,
    /// Approximate size.
    pub approx_bytes: u64,
    /// Statistics of each scalar field.
    pub scalar_fields: Vec<NamedFieldStats>,
    /// Files of the unit.
    pub artifact_stats: Vec<QueryUnitArtifactStats>,
    /// Size of each component.
    pub component_bytes: Vec<NamedCount>,
}

/// Statistics of one collection.
#[derive(Debug, PartialEq, Eq)]
pub struct CollectionStatsReply {
    /// Identifier of the collection.
    pub collection_id: WireId,
    /// Name of the collection.
    pub collection_name: String,
    /// Generation of the manifest.
    pub manifest_generation: u64,
    /// Last visible sequence number.
    pub visible_seq_no: u64,
    /// Number of operations not yet flushed.
    pub mutable_op_count: u64,
    /// Number of immutable segments.
    pub segment_count: u64,
    /// Number of live records.
    pub live_record_count: u64,
    /// Number of deleted records.
    pub deleted_record_count: u64,
    /// State of maintenance.
    pub maintenance: Option<MaintenanceStatus>,
    /// Statistics of every query unit.
    pub query_units: Vec<QueryUnitStats>,
    /// Name of the database.
    pub database_name: String,
}

/// Descriptor of a database.
#[derive(Debug, PartialEq, Eq)]
pub struct DatabaseDescriptorReply {
    /// Identifier of the database.
    pub database_id: WireId,
    /// Name of the database.
    pub name: String,
    /// Whether it is the default database.
    pub is_default: bool,
}

/// Remote store of immutable artifacts.
#[derive(Debug, PartialEq, Eq)]
pub struct RemoteBlobConfig {
    /// Endpoint of the store.
    pub endpoint: String,
    /// Bucket inside the store.
    pub bucket: String,
    /// Prefix inside the bucket.
    pub prefix: String,
}

/// Descriptor of a collection.
#[derive(Debug, PartialEq, Eq)]
pub struct CollectionDescriptorReply {
    /// Identifier of the collection.
    pub collection_id: WireId,
    /// Name of the collection.
    pub name: String,
    /// Dimensions of its vectors.
    pub dimensions: u64,
    /// Its distance metric.
    pub metric: DistanceMetric,
    /// Its local path.
    pub root_path: String,
    /// Operations before a flush.
    pub flush_threshold_ops: u64,
    /// Bytes before a flush.
    pub flush_threshold_bytes: u64,
    /// Segments before compaction.
    pub compaction_threshold_segments: u64,
    /// Remote store of its artifacts.
    pub remote_blob: Option<RemoteBlobConfig>,
    /// Name of the database.
    pub database_name: String,
}

/// Binding between a principal and a role.
#[derive(Debug, PartialEq, Eq)]
pub struct DatabaseRoleBindingReply {
    /// Name of the database.
    pub database_name: String,
    /// Name of the principal.
    pub principal_name: String,
    /// The role.
    pub role: DatabaseRole,
}

/// Policy of a database.
#[derive(Debug, PartialEq, Eq)]
pub struct DatabaseAccessPolicyReply {
    /// Name of the database.
    pub database_name: String,
    /// Authentication mode.
    pub authentication_mode: AuthenticationMode,
    /// Bindings of the policy.
    pub role_bindings: Vec<DatabaseRoleBindingReply>,
}

/// A collection to be created.
#[derive(Debug, PartialEq, Eq)]
pub struct CreateCollectionRequest {
    /// Name of the collection.
    pub name: String,
    /// Dimensions of its vectors.
    pub dimensions: u64,
    /// Its distance metric.
    pub metric: DistanceMetric,
    /// Name of the database.
    pub database_name: String,
}

/// A request for statistics.
#[derive(Debug, PartialEq, Eq)]
pub struct GetCollectionStatsRequest {
    /// Name of the collection.
    pub collection_name: String,
    /// Name of the database.
    pub database_name: String,
    /// The state to read.
    pub snapshot: Option<Snapshot>,
}

/// A look at storage state.
#[derive(Debug, PartialEq, Eq)]
pub struct InspectCollectionRequest {
    /// Name of the collection.
    pub collection_name: String,
    /// Which state is looked at.
    pub target: InspectTarget,
    /// Identifier of the segment.
    pub segment_id: String,
    /// Name of the database.
    pub database_name: String,
}

/// What a look at storage state gives.
#[derive(Debug, PartialEq, Eq)]
pub struct InspectCollectionReply {
    /// Which state was looked at.
    pub target: String,
    /// The state, as JSON text.
    pub payload_json: String,
    /// Name of the database.
    pub database_name: String,
    /// Name of the collection.
    pub collection_name: String,
}

} // verus!
