//! What the nodes of a cluster hold and report: snapshots, writes, placements, statuses and
//! statistics.

use crate::scalar::{Named, ScalarField};
use crate::text::{decimal, decimal_text};
use crate::types::{reports_message, DistanceMetric, LogPoseError, NodeRole};
use vstd::prelude::*;
use vstd::string::*;

verus! {

/// A state of a collection that reads can name.
#[derive(Clone, Copy, Debug, PartialEq, Eq, Structural)]
pub struct Snapshot {
    /// Generation of the manifest.
    pub manifest_generation: u64,
    /// Last visible sequence number.
    pub visible_seq_no: u64,
}

/// Acknowledgement of a write batch.
#[derive(Clone, Copy, Debug, PartialEq, Eq, Structural)]
pub struct CommitAck {
    /// Sequence number of the last operation.
    pub last_seq_no: u64,
    /// Number of operations applied.
    pub applied_ops: usize,
    /// State that shows the batch.
    pub snapshot: Snapshot,
}

/// A record to be stored.
#[derive(Debug, PartialEq, Eq)]
pub struct PutRecord {
    /// Identifier of the record.
    pub id: String,
    /// Components of the vector, as bit patterns of single-precision numbers.
    pub vector: Vec<u32>,
    /// Metadata of the record, as JSON text.
    pub metadata_json: String,
}

/// A record to be removed.
#[derive(Debug, PartialEq, Eq)]
pub struct DeleteRecord {
    /// Identifier of the record.
    pub id: String,
}

/// One operation of a write batch.
#[derive(Debug, PartialEq, Eq)]
pub enum WriteOperation {
    /// Store a record.
    Put(PutRecord),
    /// Remove a record.
    Delete(DeleteRecord),
}

/// Model of an operation.
#[verifier::ext_equal]
pub enum OperationModel {
    Put { id: Seq<char>, vector: Seq<u32>, metadata: Seq<char> },
    Delete { id: Seq<char> },
}

impl View for WriteOperation {
    type V = OperationModel;

    open spec fn view(&self) -> OperationModel {
        match self {
            WriteOperation::Put(record) => OperationModel::Put {
                id: record.id@,
                vector: record.vector@,
                metadata: record.metadata_json@,
            },
            WriteOperation::Delete(record) => OperationModel::Delete { id: record.id@ },
        }
    }
}

/// Models of operations.
pub open spec fn operations_model(operations: Seq<WriteOperation>) -> Seq<OperationModel> {
    Seq::new(operations.len(), |i: int| operations[i]@)
}

impl WriteOperation {
    /// Identifier of the record, as its model.
    pub open spec fn record_id(self) -> Seq<char> {
        match self {
            WriteOperation::Put(record) => record.id@,
            WriteOperation::Delete(record) => record.id@,
        }
    }

    /// What is wrong with the operation on vectors of the given dimensions, if anything.
    pub open spec fn dimensions_fault(self, dimensions: usize) -> Option<Seq<char>> {
        match self {
            WriteOperation::Put(record) => if record.vector@.len() != dimensions {
                Some(
                    "record '"@ + record.id@ + "' has "@ + decimal(record.vector@.len())
                        + " dimensions but the collection expects "@ + decimal(dimensions as nat),
                )
            } else {
                None
            },
            WriteOperation::Delete(_) => None,
        }
    }

    /// Identifier of the record.
    pub fn id(&self) -> (id: &str)
        ensures
            id@ == self.record_id(),
    {
        match self {
            WriteOperation::Put(record) => record.id.as_str(),
            WriteOperation::Delete(record) => record.id.as_str(),
        }
    }

    /// Validate the operation against the dimensions of a collection.
    pub fn validate_dimensions(&self, dimensions: usize) -> (outcome: Result<(), LogPoseError>)
        ensures
            reports_message(outcome, self.dimensions_fault(dimensions)),
    {
        match self {
            WriteOperation::Put(record) => {
                let found: usize = record.vector.len();
                if found != dimensions {
                    let mut message = "record '".to_owned();
                    message.append(&record.id);
                    message.append("' has ");
                    message.append(&decimal_text(found as u64));
                    message.append(" dimensions but the collection expects ");
                    message.append(&decimal_text(dimensions as u64));
                    return Err(LogPoseError::Message(message));
                }
            },
            WriteOperation::Delete(_) => {},
        }
        Ok(())
    }
}

/// A collection to be created.
#[derive(Debug, PartialEq, Eq)]
pub struct CreateCollectionRequest {
    /// Database containing the collection.
    pub database_name: String,
    /// Name of the collection.
    pub name: String,
    /// Dimensions of its vectors.
    pub dimensions: usize,
    /// Its distance metric.
    pub metric: DistanceMetric,
}

impl CreateCollectionRequest {
    /// Ask for a collection in a database.
    pub fn in_database(
        database_name: String,
        name: String,
        dimensions: usize,
        metric: DistanceMetric,
    ) -> (request: Self)
        ensures
            request == (CreateCollectionRequest { database_name, name, dimensions, metric }),
    {
        CreateCollectionRequest { database_name, name, dimensions, metric }
    }
}

/// What a look at storage state gives.
#[derive(Debug, PartialEq, Eq)]
pub struct InspectReport {
    /// Which state was looked at.
    pub target: String,
    /// The state, as JSON text.
    pub payload_json: String,
}

/// Remote store of immutable artifacts.
#[derive(Debug, PartialEq, Eq)]
pub struct RemoteBlobConfig {
    /// Endpoint of the store.
    pub endpoint: String,
    /// Bucket inside the store.
    pub bucket: String,
    /// Prefix inside the bucket.
    pub prefix: String,
}

impl Clone for RemoteBlobConfig {
    fn clone(&self) -> (copy: Self)
        ensures
            copy == *self,
    {
        RemoteBlobConfig {
            endpoint: self.endpoint.clone(),
            bucket: self.bucket.clone(),
            prefix: self.prefix.clone(),
        }
    }
}

/// Which storage state an operator looks at.
#[derive(Debug, PartialEq, Eq)]
pub enum InspectTarget {
    /// The manifest.
    Manifest,
    /// The write-ahead log.
    Wal,
    /// One immutable segment.
    Segment(String),
    /// The state of maintenance.
    Maintenance,
}

/// Identity of a node and of its build.
#[derive(Debug, PartialEq, Eq)]
pub struct NodeMetadata {
    /// Name of the product.
    pub product: String,
    /// Name of the node.
    pub node_name: String,
    /// Version of the build.
    pub version: String,
    /// Commit of the build.
    pub git_sha: String,
    /// Profile of the build.
    pub profile: String,
}

/// Where a collection is served.
#[derive(Debug, PartialEq, Eq)]
pub struct CollectionPlacement {
    /// Identifier of the collection.
    pub collection_id: String,
    /// Database containing the collection.
    pub database_name: String,
    /// Name of the collection.
    pub collection_name: String,
    /// Node that the collection is assigned to.
    pub assigned_node: String,
    /// Role of that node.
    pub assigned_role: NodeRole,
    /// Node that owns the collection, where ownership is recorded.
    pub owner_node: Option<String>,
    /// Epoch of the ownership, where it is recorded.
    pub ownership_epoch: Option<u64>,
    /// How requests reach the collection.
    pub route_kind: String,
    /// Why they do so.
    pub route_reason: String,
}

/// Membership and leadership of a node in its cluster.
#[derive(Debug, PartialEq, Eq)]
pub struct CoordinationStatus {
    /// Name of the cluster.
    pub cluster_name: String,
    /// Whether the node is a member.
    pub membership_registered: bool,
    /// Lease of the membership.
    pub membership_lease_id: Option<i64>,
    /// Every registered member.
    pub registered_members: Vec<String>,
    /// The leader, if there is one.
    pub leader_node: Option<String>,
    /// Whether the node is the leader.
    pub is_local_leader: bool,
    /// Lease of the leadership.
    pub leadership_lease_id: Option<i64>,
    /// The last failure.
    pub last_error: Option<String>,
}

/// Maintenance of one collection.
#[derive(Debug, PartialEq, Eq)]
pub struct MaintenanceStatus {
    /// Whether work is waiting.
    pub pending: bool,
    /// Whether work is going on.
    pub in_progress: bool,
    /// The last failure.
    pub last_error: Option<String>,
    /// Number of completed runs.
    pub completed_runs: usize,
}

impl Default for MaintenanceStatus {
    fn default() -> (status: Self)
        ensures
            status == (MaintenanceStatus {
                pending: false,
                in_progress: false,
                last_error: None,
                completed_runs: 0,
            }),
    {
        MaintenanceStatus { pending: false, in_progress: false, last_error: None, completed_runs: 0 }
    }
}

/// Maintenance of every collection of a node.
#[derive(Clone, Copy, Debug, PartialEq, Eq, Structural)]
pub struct MaintenanceBacklog {
    /// Collections with waiting work.
    pub collections_with_pending: usize,
    /// Waiting operations.
    pub pending_operations: usize,
    /// Collections with work going on.
    pub collections_in_progress: usize,
    /// Collections with a failure.
    pub collections_with_errors: usize,
}

impl Default for MaintenanceBacklog {
    fn default() -> (backlog: Self)
        ensures
            backlog == (MaintenanceBacklog {
                collections_with_pending: 0,
                pending_operations: 0,
                collections_in_progress: 0,
                collections_with_errors: 0,
            }),
    {
        MaintenanceBacklog {
            collections_with_pending: 0,
            pending_operations: 0,
            collections_in_progress: 0,
            collections_with_errors: 0,
        }
    }
}

/// Status of a node.
#[derive(Debug, PartialEq, Eq)]
pub struct NodeRuntimeStatus {
    /// Identity of the node.
    pub metadata: NodeMetadata,
    /// Role of the node.
    pub role: NodeRole,
    /// REST endpoint.
    pub rest_endpoint: String,
    /// gRPC endpoint.
    pub grpc_endpoint: String,
    /// Name of the storage engine.
    pub storage_engine: String,
    /// Whether the control plane is ready.
    pub control_plane_ready: bool,
    /// Whether the data plane is ready.
    pub data_plane_ready: bool,
    /// Number of collections.
    pub collection_count: usize,
    /// Placement of every collection.
    pub collections: Vec<CollectionPlacement>,
    /// Coordination, where the node is part of a cluster.
    pub coordination: Option<CoordinationStatus>,
    /// Maintenance of every collection.
    pub maintenance: MaintenanceBacklog,
}

/// A size under a name.
#[derive(Debug, PartialEq, Eq)]
pub struct NamedSize {
    /// The name.
    pub name: String,
    /// The size.
    pub size: usize,
}

impl Named for NamedSize {
    open spec fn name_model(&self) -> Seq<char> {
        self.name@
    }

    fn name(&self) -> (text: &str) {
        self.name.as_str()
    }
}

/// One file of a query unit.
#[derive(Debug, PartialEq, Eq)]
pub struct QueryUnitArtifactStats {
    /// What the file holds.
    pub kind: String,
    /// Name of the file.
    pub file_name: String,
    /// Approximate size of the file.
    pub approx_bytes: usize,
}

/// Statistics of one query unit.
#[derive(Debug, PartialEq)]
pub struct QueryUnitStats {
    /// Identifier of the unit.
    pub unit_id: String,
    /// Tier of the unit.
    pub tier: String,
    /// Kind of index of the unit.
    pub index_kind: String,
    /// First sequence number.
    pub min_seq_no: u64,
    /// Last sequence number.
    pub max_seq_no: u64,
    /// Number of stored records.
    pub put_count: usize,
    /// Number of removals.
    pub delete_count: usize,
    /// Approximate size.
    pub approx_bytes: usize,
    /// Statistics of each scalar field, ordered by name.
    pub scalar_fields: Vec<ScalarField>,
    /// Files of the unit.
    pub artifact_stats: Vec<QueryUnitArtifactStats>,
    /// Size of each component, ordered by name.
    pub component_bytes: Vec<NamedSize>,
}

/// Statistics of one collection.
#[derive(Debug, PartialEq)]
pub struct CollectionStats {
    /// Identifier of the collection.
    pub collection_id: String,
    /// Database containing the collection.
    pub database_name: String,
    /// Name of the collection.
    pub collection_name: String,
    /// Generation of the manifest.
    pub manifest_generation: u64,
    /// Last visible sequence number.
    pub visible_seq_no: u64,
    /// Number of operations not yet flushed.
    pub mutable_op_count: usize,
    /// Number of immutable segments.
    pub segment_count: usize,
    /// Number of live records.
    pub live_record_count: usize,
    /// Number of deleted records.
    pub deleted_record_count: usize,
    /// State of maintenance.
    pub maintenance: MaintenanceStatus,
    /// Statistics of every query unit.
    pub query_units: Vec<QueryUnitStats>,
}

/// A put fits a collection exactly when its vector has as many components as the collection has
/// dimensions; a delete always fits. Either is about the record that it names.
pub proof fn law_operations_fit(put: PutRecord, delete: DeleteRecord, dimensions: usize)
    ensures
        WriteOperation::Put(put).dimensions_fault(dimensions) is None <==> put.vector@.len()
            == dimensions,
        WriteOperation::Delete(delete).dimensions_fault(dimensions) is None,
        WriteOperation::Put(put).record_id() == put.id@,
        WriteOperation::Delete(delete).record_id() == delete.id@,
{
}

/// A put that does not fit is named, with the size of its vector and the dimensions of the
/// collection.
pub proof fn law_unfit_operations_are_named(put: PutRecord, dimensions: usize)
    requires
        put.vector@.len() != dimensions,
    ensures
        WriteOperation::Put(put).dimensions_fault(dimensions) == Some(
            "record '"@ + put.id@ + "' has "@ + decimal(put.vector@.len())
                + " dimensions but the collection expects "@ + decimal(dimensions as nat),
        ),
{
}

} // verus!
