//! What gRPC replies mean.

use super::codes::{
    authentication_mode_from_proto, database_role_from_proto, metric_from_proto,
    node_role_from_proto, query_plan_kind_from_proto, reply_database_role, reply_metric,
    reply_mode, reply_node_role, reply_plan,
};
use super::error::{client_outcome, invalid_response, unusable, ClientError, ClientErrorModel};
use crate::auth::{
    AuthenticationMode, DatabaseAccessPolicy, DatabaseRole, DatabaseRoleBinding,
    ScopedAccessPolicy,
};
use crate::catalog::{CollectionDescriptor, DatabaseDescriptor};
use crate::domain::{
    CollectionPlacement, CommitAck, CoordinationStatus, InspectReport, MaintenanceBacklog,
    NodeMetadata, NodeRuntimeStatus, RemoteBlobConfig, Snapshot,
};
use crate::grpc::replies::{
    ack_reply, collection_message, database_message, diagnostics_sent, match_message,
    match_messages, placement_message, placement_messages, policy_sent, report_sent,
    response_sent, snapshot_reply, status_sent,
};
use crate::json::{in_json_notation, json_notation, json_rewritten, normalize_json, text_outcome};
use crate::namespace::{name_or, name_or_fallback, CollectionRef};
use crate::proto;
use crate::query::{
    matches_model, MatchModel, QueryDiagnostics, QueryMatch, QueryPlanKind, QueryResponse,
    QueryStageTimings,
};
use crate::scalar::{names_ascend, names_of};
use crate::text::is_blank;
use crate::types::{DistanceMetric, NodeRole};
use crate::wire::{
    binding_message, binding_messages, law_sizes_come_through, message_sizes, message_snapshot,
    message_timings, query_stage_timings_from_proto, sizes_from_proto, snapshot_from_proto,
};
use vstd::prelude::*;
use vstd::string::*;

verus! {

/// The identifier of a collection that a reply holds.
pub open spec fn reply_collection_id(id: proto::WireId) -> Result<String, ClientErrorModel> {
    match id {
        proto::WireId::Parsed(text) => Ok(text),
        proto::WireId::Unparsed { text, error } => Err(
            unusable("invalid collection id '"@ + text@ + "': "@ + error@),
        ),
    }
}

/// Read the identifier of a collection from a reply.
pub fn parse_collection_id(id: proto::WireId) -> (outcome: Result<String, ClientError>)
    ensures
        client_outcome(outcome) == reply_collection_id(id),
{
    match id {
        proto::WireId::Parsed(text) => Ok(text),
        proto::WireId::Unparsed { text, error } => {
            let mut message = "invalid collection id '".to_owned();
            message.append(&text);
            message.append("': ");
            message.append(&error);
            Err(ClientError::InvalidResponse(message))
        },
    }
}

/// Namespace-aware response wrapper for operations whose payload omits collection identity.
#[derive(Debug, PartialEq, Eq)]
pub struct ScopedCollectionResponse<T> {
    /// Database containing the collection.
    pub database_name: String,
    /// Collection name inside the database.
    pub collection_name: String,
    /// Operation payload.
    pub response: T,
}

impl<T> ScopedCollectionResponse<T> {
    /// Recover the collection reference attached to this response.
    pub fn collection(&self) -> (reference: CollectionRef)
        ensures
            reference.database_name == self.database_name,
            reference.collection_name == self.collection_name,
    {
        CollectionRef::new(self.database_name.clone(), self.collection_name.clone())
    }
}

impl<T> std::ops::Deref for ScopedCollectionResponse<T> {
    type Target = T;

    fn deref(&self) -> (response: &T)
        ensures
            *response == self.response,
    {
        &self.response
    }
}

/// Wrap a payload with the names that the reply gives, or the ones that were asked for where it
/// gives none.
pub fn scoped_collection_response<T>(
    database_name: String,
    collection_name: String,
    fallback_database: &str,
    fallback_collection: &str,
    response: T,
) -> (scoped: ScopedCollectionResponse<T>)
    ensures
        scoped.database_name@ == name_or(database_name@, fallback_database@),
        scoped.collection_name@ == name_or(collection_name@, fallback_collection@),
        scoped.response == response,
{
    ScopedCollectionResponse {
        database_name: name_or_fallback(database_name, fallback_database),
        collection_name: name_or_fallback(collection_name, fallback_collection),
        response,
    }
}

/// The identity of a node that a reply holds.
pub open spec fn message_metadata(reply: proto::GetMetadataReply) -> NodeMetadata {
    NodeMetadata {
        product: reply.product,
        node_name: reply.node_name,
        version: reply.version,
        git_sha: reply.git_sha,
        profile: reply.profile,
    }
}

/// Read the identity of a node from a reply.
pub fn metadata_from_proto(reply: proto::GetMetadataReply) -> (metadata: NodeMetadata)
    ensures
        metadata == message_metadata(reply),
{
    NodeMetadata {
        product: reply.product,
        node_name: reply.node_name,
        version: reply.version,
        git_sha: reply.git_sha,
        profile: reply.profile,
    }
}

/// The descriptor of a database that a reply holds.
pub open spec fn reply_database(reply: proto::DatabaseDescriptorReply) -> Result<
    DatabaseDescriptor,
    ClientErrorModel,
> {
    match reply.database_id {
        proto::WireId::Unparsed { text, error } => Err(unusable(error@)),
        proto::WireId::Parsed(database_id) => Ok(
            DatabaseDescriptor { database_id, name: reply.name, is_default: reply.is_default },
        ),
    }
}

/// Read the descriptor of a database from a reply.
pub fn database_descriptor_from_proto(reply: proto::DatabaseDescriptorReply) -> (outcome: Result<
    DatabaseDescriptor,
    ClientError,
>)
    ensures
        client_outcome(outcome) == reply_database(reply),
{
    match reply.database_id {
        proto::WireId::Unparsed { text: _, error } => Err(ClientError::InvalidResponse(error)),
        proto::WireId::Parsed(database_id) => Ok(
            DatabaseDescriptor { database_id, name: reply.name, is_default: reply.is_default },
        ),
    }
}

/// The first `count` descriptors of databases that a reply holds, or what is wrong with the
/// earliest faulty one.
pub open spec fn reply_databases(replies: Seq<proto::DatabaseDescriptorReply>, count: nat) -> Result<
    Seq<DatabaseDescriptor>,
    ClientErrorModel,
>
    decreases count,
{
    if count == 0 {
        Ok(Seq::empty())
    } else {
        match reply_databases(replies, (count - 1) as nat) {
            Err(error) => Err(error),
            Ok(earlier) => match reply_database(replies[count - 1]) {
                Err(error) => Err(error),
                Ok(descriptor) => Ok(earlier.push(descriptor)),
            },
        }
    }
}

proof fn lemma_database_fault_stays(
    replies: Seq<proto::DatabaseDescriptorReply>,
    early: nat,
    late: nat,
)
    requires
        early <= late,
        reply_databases(replies, early) is Err,
    ensures
        reply_databases(replies, late) == reply_databases(replies, early),
    decreases late,
{
    if early < late {
        lemma_database_fault_stays(replies, early, (late - 1) as nat);
    }
}

/// A list of values, with its error as a model.
pub open spec fn client_list<T>(outcome: Result<Vec<T>, ClientError>) -> Result<
    Seq<T>,
    ClientErrorModel,
> {
    match outcome {
        Ok(values) => Ok(values@),
        Err(error) => Err(error@),
    }
}

/// Read descriptors of databases from a reply.
pub fn database_list_from_proto(replies: Vec<proto::DatabaseDescriptorReply>) -> (outcome: Result<
    Vec<DatabaseDescriptor>,
    ClientError,
>)
    ensures
        client_list(outcome) == reply_databases(replies@, replies@.len()),
{
    let mut read: Vec<DatabaseDescriptor> = Vec::new();
    for reply in iter: replies
        invariant
            iter.seq() == replies@,
            reply_databases(replies@, iter.index() as nat) == Ok::<
                Seq<DatabaseDescriptor>,
                ClientErrorModel,
            >(read@),
    {
        let ghost index = iter.index();
        match database_descriptor_from_proto(reply) {
            Err(error) => {
                proof {
                    lemma_database_fault_stays(replies@, (index + 1) as nat, replies@.len());
                }
                return Err(error);
            },
            Ok(descriptor) => {
                read.push(descriptor);
            },
        }
    }
    Ok(read)
}

/// The remote store that a reply holds.
pub open spec fn message_remote(remote: Option<proto::RemoteBlobConfig>) -> Option<
    RemoteBlobConfig,
> {
    match remote {
        Some(held) => Some(
            RemoteBlobConfig { endpoint: held.endpoint, bucket: held.bucket, prefix: held.prefix },
        ),
        None => None,
    }
}

/// The descriptor of a collection that a reply holds.
pub open spec fn reply_collection(reply: proto::CollectionDescriptorReply) -> Result<
    CollectionDescriptor,
    ClientErrorModel,
> {
    match reply_collection_id(reply.collection_id) {
        Err(error) => Err(error),
        Ok(collection_id) => match reply_metric(reply.metric) {
            Err(error) => Err(error),
            Ok(metric) => Ok(
                CollectionDescriptor {
                    collection_id,
                    database_name: reply.database_name,
                    name: reply.name,
                    dimensions: reply.dimensions as usize,
                    metric,
                    root_path: reply.root_path,
                    remote_blob: message_remote(reply.remote_blob),
                    flush_threshold_ops: reply.flush_threshold_ops as usize,
                    flush_threshold_bytes: reply.flush_threshold_bytes as usize,
                    compaction_threshold_segments: reply.compaction_threshold_segments as usize,
                },
            ),
        },
    }
}

/// Read the descriptor of a collection from a reply.
pub fn collection_descriptor_from_proto(reply: proto::CollectionDescriptorReply) -> (outcome:
    Result<CollectionDescriptor, ClientError>)
    ensures
        client_outcome(outcome) == reply_collection(reply),
{
    let collection_id = match parse_collection_id(reply.collection_id) {
        Err(error) => {
            return Err(error);
        },
        Ok(collection_id) => collection_id,
    };
    let metric = match metric_from_proto(reply.metric) {
        Err(error) => {
            return Err(error);
        },
        Ok(metric) => metric,
    };
    let remote_blob = match reply.remote_blob {
        Some(held) => Some(
            RemoteBlobConfig { endpoint: held.endpoint, bucket: held.bucket, prefix: held.prefix },
        ),
        None => None,
    };
    Ok(
        CollectionDescriptor {
            collection_id,
            database_name: reply.database_name,
            name: reply.name,
            dimensions: reply.dimensions as usize,
            metric,
            root_path: reply.root_path,
            remote_blob,
            flush_threshold_ops: reply.flush_threshold_ops as usize,
            flush_threshold_bytes: reply.flush_threshold_bytes as usize,
            compaction_threshold_segments: reply.compaction_threshold_segments as usize,
        },
    )
}

/// Whether a binding is what a reply holds.
pub open spec fn binding_received(
    message: proto::DatabaseRoleBindingReply,
    fallback: Seq<char>,
    binding: DatabaseRoleBinding,
) -> bool {
    &&& binding.database_name@ == name_or(message.database_name@, fallback)
    &&& binding.principal_name == message.principal_name
    &&& reply_database_role(message.role) == Ok::<DatabaseRole, ClientErrorModel>(binding.role)
}

/// Read a binding from a reply.
pub fn database_role_binding_from_proto(
    binding: proto::DatabaseRoleBindingReply,
    fallback_database: &str,
) -> (outcome: Result<DatabaseRoleBinding, ClientError>)
    ensures
        match reply_database_role(binding.role) {
            Err(fault) => outcome matches Err(error) && error@ == fault,
            Ok(_) => outcome matches Ok(read) && binding_received(
                binding,
                fallback_database@,
                read,
            ),
        },
{
    match database_role_from_proto(binding.role) {
        Err(error) => Err(error),
        Ok(role) => Ok(
            DatabaseRoleBinding {
                database_name: name_or_fallback(binding.database_name, fallback_database),
                principal_name: binding.principal_name,
                role,
            },
        ),
    }
}

/// What is wrong with the earliest faulty binding among the first `count`.
pub open spec fn bindings_fault(
    bindings: Seq<proto::DatabaseRoleBindingReply>,
    count: nat,
) -> Option<ClientErrorModel>
    decreases count,
{
    if count == 0 {
        None
    } else {
        match bindings_fault(bindings, (count - 1) as nat) {
            Some(fault) => Some(fault),
            None => match reply_database_role(bindings[count - 1].role) {
                Err(fault) => Some(fault),
                Ok(_) => None,
            },
        }
    }
}

proof fn lemma_bindings_fault_stays(
    bindings: Seq<proto::DatabaseRoleBindingReply>,
    early: nat,
    late: nat,
)
    requires
        early <= late,
        bindings_fault(bindings, early) is Some,
    ensures
        bindings_fault(bindings, late) == bindings_fault(bindings, early),
    decreases late,
{
    if early < late {
        lemma_bindings_fault_stays(bindings, early, (late - 1) as nat);
    }
}

/// Whether bindings are what a reply holds.
pub open spec fn bindings_received(
    messages: Seq<proto::DatabaseRoleBindingReply>,
    fallback: Seq<char>,
    bindings: Seq<DatabaseRoleBinding>,
) -> bool {
    &&& bindings.len() == messages.len()
    &&& forall|i: int|
        0 <= i < bindings.len() ==> binding_received(messages[i], fallback, #[trigger] bindings[i])
}

fn bindings_from_proto(
    bindings: Vec<proto::DatabaseRoleBindingReply>,
    fallback_database: &str,
) -> (outcome: Result<Vec<DatabaseRoleBinding>, ClientError>)
    ensures
        match bindings_fault(bindings@, bindings@.len()) {
            Some(fault) => outcome matches Err(error) && error@ == fault,
            None => outcome matches Ok(read) && bindings_received(
                bindings@,
                fallback_database@,
                read@,
            ),
        },
{
    let mut read: Vec<DatabaseRoleBinding> = Vec::new();
    for binding in iter: bindings
        invariant
            iter.seq() == bindings@,
            bindings_fault(bindings@, iter.index() as nat) is None,
            read@.len() == iter.index(),
            forall|i: int|
                0 <= i < read@.len() ==> binding_received(
                    bindings@[i],
                    fallback_database@,
                    #[trigger] read@[i],
                ),
    {
        let ghost index = iter.index();
        match database_role_binding_from_proto(binding, fallback_database) {
            Err(error) => {
                proof {
                    lemma_bindings_fault_stays(bindings@, (index + 1) as nat, bindings@.len());
                }
                return Err(error);
            },
            Ok(value) => {
                read.push(value);
            },
        }
    }
    Ok(read)
}

/// What is wrong with a policy that a reply holds, if anything.
pub open spec fn policy_fault(reply: proto::DatabaseAccessPolicyReply) -> Option<ClientErrorModel> {
    match reply_mode(reply.authentication_mode) {
        Err(fault) => Some(fault),
        Ok(_) => bindings_fault(reply.role_bindings@, reply.role_bindings@.len()),
    }
}

/// Whether a policy is what a reply holds.
pub open spec fn policy_received(
    reply: proto::DatabaseAccessPolicyReply,
    fallback: Seq<char>,
    scoped: ScopedAccessPolicy,
) -> bool {
    &&& scoped.database_name@ == name_or(reply.database_name@, fallback)
    &&& reply_mode(reply.authentication_mode) == Ok::<AuthenticationMode, ClientErrorModel>(
        scoped.policy.authentication_mode,
    )
    &&& bindings_received(
        reply.role_bindings@,
        scoped.database_name@,
        scoped.policy.role_bindings@,
    )
}

/// Read a policy from a reply: names that it leaves out are those of the database asked for.
pub fn database_policy_from_proto(
    reply: proto::DatabaseAccessPolicyReply,
    fallback_database: &str,
) -> (outcome: Result<ScopedAccessPolicy, ClientError>)
    ensures
        match policy_fault(reply) {
            Some(fault) => outcome matches Err(error) && error@ == fault,
            None => outcome matches Ok(scoped) && policy_received(
                reply,
                fallback_database@,
                scoped,
            ),
        },
{
    let database_name = name_or_fallback(reply.database_name, fallback_database);
    let authentication_mode = match authentication_mode_from_proto(reply.authentication_mode) {
        Err(error) => {
            return Err(error);
        },
        Ok(mode) => mode,
    };
    match bindings_from_proto(reply.role_bindings, &database_name) {
        Err(error) => Err(error),
        Ok(role_bindings) => Ok(
            ScopedAccessPolicy {
                database_name,
                policy: DatabaseAccessPolicy { authentication_mode, role_bindings },
            },
        ),
    }
}

/// The placement that a reply holds.
pub open spec fn reply_placement(reply: proto::CollectionPlacementReply) -> Result<
    CollectionPlacement,
    ClientErrorModel,
> {
    match reply_collection_id(reply.collection_id) {
        Err(error) => Err(error),
        Ok(collection_id) => match reply_node_role(reply.assigned_role) {
            Err(error) => Err(error),
            Ok(assigned_role) => Ok(
                CollectionPlacement {
                    collection_id,
                    database_name: reply.database_name,
                    collection_name: reply.collection_name,
                    assigned_node: reply.assigned_node,
                    assigned_role,
                    owner_node: reply.owner_node,
                    ownership_epoch: reply.ownership_epoch,
                    route_kind: reply.route_kind,
                    route_reason: reply.route_reason,
                },
            ),
        },
    }
}

/// Read a placement from a reply.
pub fn collection_placement_from_proto(reply: proto::CollectionPlacementReply) -> (outcome: Result<
    CollectionPlacement,
    ClientError,
>)
    ensures
        client_outcome(outcome) == reply_placement(reply),
{
    let collection_id = match parse_collection_id(reply.collection_id) {
        Err(error) => {
            return Err(error);
        },
        Ok(collection_id) => collection_id,
    };
    let assigned_role = match node_role_from_proto(reply.assigned_role) {
        Err(error) => {
            return Err(error);
        },
        Ok(role) => role,
    };
    Ok(
        CollectionPlacement {
            collection_id,
            database_name: reply.database_name,
            collection_name: reply.collection_name,
            assigned_node: reply.assigned_node,
            assigned_role,
            owner_node: reply.owner_node,
            ownership_epoch: reply.ownership_epoch,
            route_kind: reply.route_kind,
            route_reason: reply.route_reason,
        },
    )
}

/// The first `count` placements that a reply holds, or what is wrong with the earliest faulty one.
pub open spec fn reply_placements(
    replies: Seq<proto::CollectionPlacementReply>,
    count: nat,
) -> Result<Seq<CollectionPlacement>, ClientErrorModel>
    decreases count,
{
    if count == 0 {
        Ok(Seq::empty())
    } else {
        match reply_placements(replies, (count - 1) as nat) {
            Err(error) => Err(error),
            Ok(earlier) => match reply_placement(replies[count - 1]) {
                Err(error) => Err(error),
                Ok(placement) => Ok(earlier.push(placement)),
            },
        }
    }
}

proof fn lemma_placement_fault_stays(
    replies: Seq<proto::CollectionPlacementReply>,
    early: nat,
    late: nat,
)
    requires
        early <= late,
        reply_placements(replies, early) is Err,
    ensures
        reply_placements(replies, late) == reply_placements(replies, early),
    decreases late,
{
    if early < late {
        lemma_placement_fault_stays(replies, early, (late - 1) as nat);
    }
}

fn placements_from_proto(replies: Vec<proto::CollectionPlacementReply>) -> (outcome: Result<
    Vec<CollectionPlacement>,
    ClientError,
>)
    ensures
        client_list(outcome) == reply_placements(replies@, replies@.len()),
{
    let mut read: Vec<CollectionPlacement> = Vec::new();
    for reply in iter: replies
        invariant
            iter.seq() == replies@,
            reply_placements(replies@, iter.index() as nat) == Ok::<
                Seq<CollectionPlacement>,
                ClientErrorModel,
            >(read@),
    {
        let ghost index = iter.index();
        match collection_placement_from_proto(reply) {
            Err(error) => {
                proof {
                    lemma_placement_fault_stays(replies@, (index + 1) as nat, replies@.len());
                }
                return Err(error);
            },
            Ok(placement) => {
                read.push(placement);
            },
        }
    }
    Ok(read)
}

/// The coordination of a node that a reply holds.
pub open spec fn message_coordination(reply: proto::CoordinationStatusReply) -> CoordinationStatus {
    CoordinationStatus {
        cluster_name: reply.cluster_name,
        membership_registered: reply.membership_registered,
        membership_lease_id: reply.membership_lease_id,
        registered_members: reply.registered_members,
        leader_node: reply.leader_node,
        is_local_leader: reply.is_local_leader,
        leadership_lease_id: reply.leadership_lease_id,
        last_error: reply.last_error,
    }
}

/// Read the coordination of a node from a reply.
pub fn coordination_status_from_proto(reply: proto::CoordinationStatusReply) -> (outcome: Result<
    CoordinationStatus,
    ClientError,
>)
    ensures
        outcome == Ok::<CoordinationStatus, ClientError>(message_coordination(reply)),
{
    Ok(
        CoordinationStatus {
            cluster_name: reply.cluster_name,
            membership_registered: reply.membership_registered,
            membership_lease_id: reply.membership_lease_id,
            registered_members: reply.registered_members,
            leader_node: reply.leader_node,
            is_local_leader: reply.is_local_leader,
            leadership_lease_id: reply.leadership_lease_id,
            last_error: reply.last_error,
        },
    )
}

/// The maintenance of every collection that a reply holds.
pub open spec fn message_backlog(reply: proto::MaintenanceBacklogReply) -> MaintenanceBacklog {
    MaintenanceBacklog {
        collections_with_pending: reply.collections_with_pending as usize,
        pending_operations: reply.pending_operations as usize,
        collections_in_progress: reply.collections_in_progress as usize,
        collections_with_errors: reply.collections_with_errors as usize,
    }
}

/// Read the maintenance of every collection from a reply.
pub fn maintenance_backlog_from_proto(maintenance: proto::MaintenanceBacklogReply) -> (backlog:
    MaintenanceBacklog)
    ensures
        backlog == message_backlog(maintenance),
{
    MaintenanceBacklog {
        collections_with_pending: maintenance.collections_with_pending as usize,
        pending_operations: maintenance.pending_operations as usize,
        collections_in_progress: maintenance.collections_in_progress as usize,
        collections_with_errors: maintenance.collections_with_errors as usize,
    }
}

/// What is wrong with the status of a node, if anything: its identity, its role, its placements
/// and its maintenance are looked at in that order.
pub open spec fn status_fault(reply: proto::GetRuntimeStatusReply) -> Option<ClientErrorModel> {
    if reply.metadata is None {
        Some(unusable("runtime status missing metadata"@))
    } else {
        match reply_node_role(reply.role) {
            Err(error) => Some(error),
            Ok(_) => match reply_placements(reply.collections@, reply.collections@.len()) {
                Err(error) => Some(error),
                Ok(_) => if reply.maintenance is None {
                    Some(unusable("runtime status missing maintenance"@))
                } else {
                    None
                },
            },
        }
    }
}

/// The optional coordination of a node that a reply holds.
pub open spec fn optional_message_coordination(
    reply: Option<proto::CoordinationStatusReply>,
) -> Option<CoordinationStatus> {
    match reply {
        Some(held) => Some(message_coordination(held)),
        None => None,
    }
}

/// Whether the status of a node is what a reply holds.
pub open spec fn status_received(
    reply: proto::GetRuntimeStatusReply,
    status: NodeRuntimeStatus,
) -> bool {
    &&& reply.metadata matches Some(metadata) && status.metadata == message_metadata(metadata)
    &&& reply_node_role(reply.role) == Ok::<NodeRole, ClientErrorModel>(status.role)
    &&& status.rest_endpoint == reply.rest_endpoint
    &&& status.grpc_endpoint == reply.grpc_endpoint
    &&& status.storage_engine == reply.storage_engine
    &&& status.control_plane_ready == reply.control_plane_ready
    &&& status.data_plane_ready == reply.data_plane_ready
    &&& status.collection_count == reply.collection_count as usize
    &&& reply_placements(reply.collections@, reply.collections@.len()) == Ok::<
        Seq<CollectionPlacement>,
        ClientErrorModel,
    >(status.collections@)
    &&& status.coordination == optional_message_coordination(reply.coordination)
    &&& reply.maintenance matches Some(maintenance) && status.maintenance == message_backlog(
        maintenance,
    )
}

/// Read the status of a node from a reply.
pub fn runtime_status_from_proto(reply: proto::GetRuntimeStatusReply) -> (outcome: Result<
    NodeRuntimeStatus,
    ClientError,
>)
    ensures
        match status_fault(reply) {
            Some(fault) => outcome matches Err(error) && error@ == fault,
            None => outcome matches Ok(status) && status_received(reply, status),
        },
{
    let metadata = match reply.metadata {
        None => {
            return Err(invalid_response("runtime status missing metadata"));
        },
        Some(held) => metadata_from_proto(held),
    };
    let role = match node_role_from_proto(reply.role) {
        Err(error) => {
            return Err(error);
        },
        Ok(role) => role,
    };
    let collections = match placements_from_proto(reply.collections) {
        Err(error) => {
            return Err(error);
        },
        Ok(collections) => collections,
    };
    let coordination = match reply.coordination {
        None => None,
        Some(held) => match coordination_status_from_proto(held) {
            Err(error) => {
                return Err(error);
            },
            Ok(status) => Some(status),
        },
    };
    let maintenance = match reply.maintenance {
        None => {
            return Err(invalid_response("runtime status missing maintenance"));
        },
        Some(held) => maintenance_backlog_from_proto(held),
    };
    Ok(
        NodeRuntimeStatus {
            metadata,
            role,
            rest_endpoint: reply.rest_endpoint,
            grpc_endpoint: reply.grpc_endpoint,
            storage_engine: reply.storage_engine,
            control_plane_ready: reply.control_plane_ready,
            data_plane_ready: reply.data_plane_ready,
            collection_count: reply.collection_count as usize,
            collections,
            coordination,
            maintenance,
        },
    )
}

/// The snapshot that a reply holds.
pub fn snapshot_reply_from_proto(reply: &proto::SnapshotReply) -> (snapshot: Snapshot)
    ensures
        snapshot == (Snapshot {
            manifest_generation: reply.manifest_generation,
            visible_seq_no: reply.visible_seq_no,
        }),
{
    Snapshot {
        manifest_generation: reply.manifest_generation,
        visible_seq_no: reply.visible_seq_no,
    }
}

/// Whether a response is scoped by the names that a reply gives, or by the ones that were asked
/// for where it gives none.
pub open spec fn scoped_by<T>(
    scoped: ScopedCollectionResponse<T>,
    reply_database: Seq<char>,
    reply_collection: Seq<char>,
    asked_database: Seq<char>,
    asked_collection: Seq<char>,
) -> bool {
    &&& scoped.database_name@ == name_or(reply_database, asked_database)
    &&& scoped.collection_name@ == name_or(reply_collection, asked_collection)
}

/// Whether a response is the outcome of a flush or a compaction that a reply holds.
pub open spec fn snapshot_received(
    reply: proto::SnapshotReply,
    database_name: Seq<char>,
    collection_name: Seq<char>,
    scoped: ScopedCollectionResponse<Snapshot>,
) -> bool {
    &&& scoped_by(
        scoped,
        reply.database_name@,
        reply.collection_name@,
        database_name,
        collection_name,
    )
    &&& scoped.response == (Snapshot {
        manifest_generation: reply.manifest_generation,
        visible_seq_no: reply.visible_seq_no,
    })
}

/// Read the outcome of a flush or a compaction from a reply.
pub fn snapshot_response_from_proto(
    reply: proto::SnapshotReply,
    database_name: &str,
    collection_name: &str,
) -> (scoped: ScopedCollectionResponse<Snapshot>)
    ensures
        snapshot_received(reply, database_name@, collection_name@, scoped),
{
    let snapshot = snapshot_reply_from_proto(&reply);
    scoped_collection_response(
        reply.database_name,
        reply.collection_name,
        database_name,
        collection_name,
        snapshot,
    )
}

/// Whether a response is the acknowledgement that a reply holds.
pub open spec fn ack_received(
    reply: proto::CommitAckReply,
    database_name: Seq<char>,
    collection_name: Seq<char>,
    scoped: ScopedCollectionResponse<CommitAck>,
) -> bool {
    &&& scoped_by(
        scoped,
        reply.database_name@,
        reply.collection_name@,
        database_name,
        collection_name,
    )
    &&& scoped.response.last_seq_no == reply.last_seq_no
    &&& scoped.response.applied_ops == reply.applied_ops as usize
    &&& reply.snapshot matches Some(snapshot) && scoped.response.snapshot == message_snapshot(
        snapshot,
    )
}

/// Read the acknowledgement of a write batch from a reply.
pub fn commit_ack_from_proto(
    reply: proto::CommitAckReply,
    database_name: &str,
    collection_name: &str,
) -> (outcome: Result<ScopedCollectionResponse<CommitAck>, ClientError>)
    ensures
        match reply.snapshot {
            None => outcome matches Err(error) && error@ == unusable(
                "write response missing write snapshot"@,
            ),
            Some(_) => outcome matches Ok(scoped) && ack_received(
                reply,
                database_name@,
                collection_name@,
                scoped,
            ),
        },
{
    match reply.snapshot {
        None => Err(invalid_response("write response missing write snapshot")),
        Some(snapshot) => Ok(
            scoped_collection_response(
                reply.database_name,
                reply.collection_name,
                database_name,
                collection_name,
                CommitAck {
                    last_seq_no: reply.last_seq_no,
                    applied_ops: reply.applied_ops as usize,
                    snapshot: snapshot_from_proto(snapshot),
                },
            ),
        ),
    }
}

/// Whether diagnostics are what a reply holds.
pub open spec fn diagnostics_received(
    message: proto::QueryDiagnostics,
    diagnostics: QueryDiagnostics,
) -> bool {
    &&& reply_plan(message.chosen_plan) == Ok::<QueryPlanKind, ClientErrorModel>(
        diagnostics.chosen_plan,
    )
    &&& diagnostics.planner_reason == message.planner_reason
    &&& diagnostics.estimated_selectivity == message.estimated_selectivity
    &&& diagnostics.units_considered == message.units_considered as usize
    &&& diagnostics.units_pruned == message.units_pruned as usize
    &&& diagnostics.units_scanned == message.units_scanned as usize
    &&& diagnostics.candidates_before_filter == message.candidates_before_filter as usize
    &&& diagnostics.candidates_after_filter == message.candidates_after_filter as usize
    &&& diagnostics.candidates_reranked == message.candidates_reranked as usize
    &&& diagnostics.candidates_merged == message.candidates_merged as usize
    &&& diagnostics.rerank_count == message.rerank_count as usize
    &&& diagnostics.fallback_reason == message.fallback_reason
    &&& diagnostics.unit_scan_mix@ == message_sizes(message.unit_scan_mix@)
    &&& diagnostics.stage_timings == optional_message_timings(message.stage_timings)
}

/// The optional timings that a reply holds.
pub open spec fn optional_message_timings(message: Option<proto::QueryStageTimings>) -> Option<
    QueryStageTimings,
> {
    match message {
        Some(held) => Some(message_timings(held)),
        None => None,
    }
}

/// Read how a query was answered from a reply.
pub fn query_diagnostics_from_proto(diagnostics: proto::QueryDiagnostics) -> (outcome: Result<
    QueryDiagnostics,
    ClientError,
>)
    ensures
        match reply_plan(diagnostics.chosen_plan) {
            Err(fault) => outcome matches Err(error) && error@ == fault,
            Ok(_) => outcome matches Ok(read) && diagnostics_received(diagnostics, read),
        },
{
    let chosen_plan = match query_plan_kind_from_proto(diagnostics.chosen_plan) {
        Err(error) => {
            return Err(error);
        },
        Ok(plan) => plan,
    };
    let stage_timings = match diagnostics.stage_timings {
        Some(held) => Some(query_stage_timings_from_proto(held)),
        None => None,
    };
    Ok(
        QueryDiagnostics {
            chosen_plan,
            planner_reason: diagnostics.planner_reason,
            estimated_selectivity: diagnostics.estimated_selectivity,
            units_considered: diagnostics.units_considered as usize,
            units_pruned: diagnostics.units_pruned as usize,
            units_scanned: diagnostics.units_scanned as usize,
            candidates_before_filter: diagnostics.candidates_before_filter as usize,
            candidates_after_filter: diagnostics.candidates_after_filter as usize,
            candidates_reranked: diagnostics.candidates_reranked as usize,
            candidates_merged: diagnostics.candidates_merged as usize,
            rerank_count: diagnostics.rerank_count as usize,
            fallback_reason: diagnostics.fallback_reason,
            unit_scan_mix: sizes_from_proto(diagnostics.unit_scan_mix),
            stage_timings,
        },
    )
}

/// The match that a reply holds, where `metadata` is what `serde_json` makes of its metadata.
pub open spec fn match_found(
    candidate: MatchModel,
    metadata: Result<Seq<char>, Seq<char>>,
) -> Result<MatchModel, ClientErrorModel> {
    match metadata {
        Err(error) => Err(ClientErrorModel::Json(error)),
        Ok(metadata) => Ok(MatchModel { metadata, ..candidate }),
    }
}

/// The match that a reply holds.
pub open spec fn reply_match(candidate: MatchModel) -> Result<MatchModel, ClientErrorModel> {
    match_found(candidate, json_notation(candidate.metadata))
}

/// An outcome of reading a match, by its models.
pub open spec fn match_outcome(outcome: Result<QueryMatch, ClientError>) -> Result<
    MatchModel,
    ClientErrorModel,
> {
    match outcome {
        Ok(found) => Ok(found@),
        Err(error) => Err(error@),
    }
}

/// Read a match from a reply, where `metadata` is what `serde_json` makes of its metadata.
pub fn match_with_metadata(candidate: proto::QueryMatch, metadata: Result<String, String>) -> (
outcome: Result<QueryMatch, ClientError>)
    ensures
        match_outcome(outcome) == match_found(candidate@, text_outcome(metadata)),
{
    match metadata {
        Err(error) => Err(ClientError::Json(error)),
        Ok(metadata_json) => Ok(
            QueryMatch { id: candidate.id, value: candidate.value, metadata_json },
        ),
    }
}

/// Read a match from a reply.
pub fn query_match_from_proto(candidate: proto::QueryMatch) -> (outcome: Result<
    QueryMatch,
    ClientError,
>)
    ensures
        match_outcome(outcome) == reply_match(candidate@),
{
    let metadata = normalize_json(&candidate.metadata_json);
    match_with_metadata(candidate, metadata)
}

/// The first `count` matches that a reply holds, or what is wrong with the earliest faulty one.
pub open spec fn reply_matches(candidates: Seq<MatchModel>, count: nat) -> Result<
    Seq<MatchModel>,
    ClientErrorModel,
>
    decreases count,
{
    if count == 0 {
        Ok(Seq::empty())
    } else {
        match reply_matches(candidates, (count - 1) as nat) {
            Err(error) => Err(error),
            Ok(earlier) => match reply_match(candidates[count - 1]) {
                Err(error) => Err(error),
                Ok(found) => Ok(earlier.push(found)),
            },
        }
    }
}

proof fn lemma_match_fault_stays(candidates: Seq<MatchModel>, early: nat, late: nat)
    requires
        early <= late,
        reply_matches(candidates, early) is Err,
    ensures
        reply_matches(candidates, late) == reply_matches(candidates, early),
    decreases late,
{
    if early < late {
        lemma_match_fault_stays(candidates, early, (late - 1) as nat);
    }
}

fn matches_from_proto(candidates: Vec<proto::QueryMatch>) -> (outcome: Result<
    Vec<QueryMatch>,
    ClientError,
>)
    ensures
        match outcome {
            Ok(found) => reply_matches(proto::matches_model(candidates@), candidates@.len())
                == Ok::<Seq<MatchModel>, ClientErrorModel>(matches_model(found@)),
            Err(error) => reply_matches(proto::matches_model(candidates@), candidates@.len())
                == Err::<Seq<MatchModel>, ClientErrorModel>(error@),
        },
{
    let mut read: Vec<QueryMatch> = Vec::new();
    let ghost held = proto::matches_model(candidates@);
    assert(matches_model(read@) =~= Seq::empty());
    for candidate in iter: candidates
        invariant
            iter.seq() == candidates@,
            held == proto::matches_model(candidates@),
            reply_matches(held, iter.index() as nat) == Ok::<Seq<MatchModel>, ClientErrorModel>(
                matches_model(read@),
            ),
    {
        let ghost index = iter.index();
        let ghost before = read@;
        assert(held[index] == candidate@);
        match query_match_from_proto(candidate) {
            Err(error) => {
                proof {
                    lemma_match_fault_stays(held, (index + 1) as nat, candidates@.len());
                }
                return Err(error);
            },
            Ok(found) => {
                read.push(found);
                assert(matches_model(read@) =~= matches_model(before).push(found@));
            },
        }
    }
    Ok(read)
}

/// What is wrong with what a query gave, if anything: its metric, its snapshot, its matches and
/// its diagnostics are looked at in that order.
pub open spec fn response_fault(reply: proto::QueryCollectionReply) -> Option<ClientErrorModel> {
    match reply_metric(reply.metric) {
        Err(error) => Some(error),
        Ok(_) => if reply.snapshot is None {
            Some(unusable("query response missing snapshot"@))
        } else {
            match reply_matches(proto::matches_model(reply.matches@), reply.matches@.len()) {
                Err(error) => Some(error),
                Ok(_) => match reply.diagnostics {
                    None => None,
                    Some(message) => match reply_plan(message.chosen_plan) {
                        Err(error) => Some(error),
                        Ok(_) => None,
                    },
                },
            }
        },
    }
}

/// Whether what a query gave is what a reply holds.
pub open spec fn response_received(
    reply: proto::QueryCollectionReply,
    response: QueryResponse,
) -> bool {
    &&& reply_metric(reply.metric) == Ok::<DistanceMetric, ClientErrorModel>(response.metric)
    &&& response.top_k == reply.top_k as usize
    &&& response.returned == reply.returned as usize
    &&& reply.snapshot matches Some(snapshot) && response.snapshot == message_snapshot(snapshot)
    &&& reply_matches(proto::matches_model(reply.matches@), reply.matches@.len()) == Ok::<
        Seq<MatchModel>,
        ClientErrorModel,
    >(matches_model(response.matches@))
    &&& match (reply.diagnostics, response.diagnostics) {
        (Some(message), Some(diagnostics)) => diagnostics_received(message, diagnostics),
        (None, None) => true,
        _ => false,
    }
}

/// Read what a query gave from a reply.
pub fn query_response_from_proto(
    reply: proto::QueryCollectionReply,
    database_name: &str,
    collection_name: &str,
) -> (outcome: Result<ScopedCollectionResponse<QueryResponse>, ClientError>)
    ensures
        match response_fault(reply) {
            Some(fault) => outcome matches Err(error) && error@ == fault,
            None => outcome matches Ok(scoped) && scoped.database_name@ == name_or(
                reply.database_name@,
                database_name@,
            ) && scoped.collection_name@ == name_or(reply.collection_name@, collection_name@)
                && response_received(reply, scoped.response),
        },
{
    let metric = match metric_from_proto(reply.metric) {
        Err(error) => {
            return Err(error);
        },
        Ok(metric) => metric,
    };
    let snapshot = match reply.snapshot {
        None => {
            return Err(invalid_response("query response missing snapshot"));
        },
        Some(held) => snapshot_from_proto(held),
    };
    let found = match matches_from_proto(reply.matches) {
        Err(error) => {
            return Err(error);
        },
        Ok(found) => found,
    };
    let diagnostics = match reply.diagnostics {
        None => None,
        Some(held) => match query_diagnostics_from_proto(held) {
            Err(error) => {
                return Err(error);
            },
            Ok(diagnostics) => Some(diagnostics),
        },
    };
    Ok(
        scoped_collection_response(
            reply.database_name,
            reply.collection_name,
            database_name,
            collection_name,
            QueryResponse {
                metric,
                top_k: reply.top_k as usize,
                returned: reply.returned as usize,
                snapshot,
                matches: found,
                diagnostics,
            },
        ),
    )
}

/// Whether a response is the look at storage state that a reply holds, where `payload` is what
/// `serde_json` makes of the state.
pub open spec fn report_received(
    reply: proto::InspectCollectionReply,
    database_name: Seq<char>,
    collection_name: Seq<char>,
    payload: Seq<char>,
    scoped: ScopedCollectionResponse<InspectReport>,
) -> bool {
    &&& scoped_by(
        scoped,
        reply.database_name@,
        reply.collection_name@,
        database_name,
        collection_name,
    )
    &&& scoped.response.target == reply.target
    &&& scoped.response.payload_json@ == payload
}

/// Read a look at storage state from a reply, where `payload` is what `serde_json` makes of the
/// state.
pub fn report_with_payload(
    reply: proto::InspectCollectionReply,
    database_name: &str,
    collection_name: &str,
    payload: Result<String, String>,
) -> (outcome: Result<ScopedCollectionResponse<InspectReport>, ClientError>)
    ensures
        match payload {
            Err(fault) => outcome matches Err(error) && error@ == ClientErrorModel::Json(fault@),
            Ok(text) => outcome matches Ok(scoped) && report_received(
                reply,
                database_name@,
                collection_name@,
                text@,
                scoped,
            ),
        },
{
    match payload {
        Err(fault) => Err(ClientError::Json(fault)),
        Ok(payload_json) => Ok(
            scoped_collection_response(
                reply.database_name,
                reply.collection_name,
                database_name,
                collection_name,
                InspectReport { target: reply.target, payload_json },
            ),
        ),
    }
}

/// Read a look at storage state from a reply.
pub fn inspect_report_from_proto(
    reply: proto::InspectCollectionReply,
    database_name: &str,
    collection_name: &str,
) -> (outcome: Result<ScopedCollectionResponse<InspectReport>, ClientError>)
    ensures
        match json_notation(reply.payload_json@) {
            Err(fault) => outcome matches Err(error) && error@ == ClientErrorModel::Json(fault),
            Ok(text) => outcome matches Ok(scoped) && report_received(
                reply,
                database_name@,
                collection_name@,
                text,
                scoped,
            ),
        },
{
    let payload = normalize_json(&reply.payload_json);
    report_with_payload(reply, database_name, collection_name, payload)
}

/// What a client reads from the reply on a database is what the server wrote into it.
pub proof fn law_databases_come_through(descriptor: DatabaseDescriptor)
    ensures
        reply_database(database_message(descriptor)) == Ok::<DatabaseDescriptor, ClientErrorModel>(
            descriptor,
        ),
{
}

/// What a client reads from the reply on a collection is what the server wrote into it.
pub proof fn law_collections_come_through(descriptor: CollectionDescriptor)
    ensures
        reply_collection(collection_message(descriptor)) == Ok::<
            CollectionDescriptor,
            ClientErrorModel,
        >(descriptor),
{
}

/// What a client reads from the reply on a placement is what the server wrote into it.
pub proof fn law_placements_come_through(placement: CollectionPlacement)
    ensures
        reply_placement(placement_message(placement)) == Ok::<CollectionPlacement, ClientErrorModel>(
            placement,
        ),
{
}

proof fn lemma_placements_come_through(placements: Seq<CollectionPlacement>, count: nat)
    requires
        count <= placements.len(),
    ensures
        reply_placements(placement_messages(placements), count) == Ok::<
            Seq<CollectionPlacement>,
            ClientErrorModel,
        >(placements.take(count as int)),
    decreases count,
{
    if count == 0 {
        assert(placements.take(0) =~= Seq::empty());
    } else {
        lemma_placements_come_through(placements, (count - 1) as nat);
        law_placements_come_through(placements[count - 1]);
        assert(placement_messages(placements)[count - 1] == placement_message(
            placements[count - 1],
        ));
        assert(placements.take(count as int) =~= placements.take(count - 1).push(
            placements[count - 1],
        ));
    }
}

/// Whether two node statuses are the same.
pub open spec fn same_status(left: NodeRuntimeStatus, right: NodeRuntimeStatus) -> bool {
    &&& left.metadata == right.metadata
    &&& left.role == right.role
    &&& left.rest_endpoint == right.rest_endpoint
    &&& left.grpc_endpoint == right.grpc_endpoint
    &&& left.storage_engine == right.storage_engine
    &&& left.control_plane_ready == right.control_plane_ready
    &&& left.data_plane_ready == right.data_plane_ready
    &&& left.collection_count == right.collection_count
    &&& left.collections@ == right.collections@
    &&& left.coordination == right.coordination
    &&& left.maintenance == right.maintenance
}

/// A client can use every status that a server sends, and reads it as it was written.
pub proof fn law_statuses_come_through(
    status: NodeRuntimeStatus,
    reply: proto::GetRuntimeStatusReply,
    read: NodeRuntimeStatus,
)
    requires
        status_sent(status, reply),
    ensures
        status_fault(reply) is None,
        status_received(reply, read) ==> same_status(status, read),
{
    let placements = status.collections@;
    lemma_placements_come_through(placements, placements.len());
    assert(placements.take(placements.len() as int) =~= placements);
}

/// Whether two diagnostics are the same.
pub open spec fn same_diagnostics(left: QueryDiagnostics, right: QueryDiagnostics) -> bool {
    &&& left.chosen_plan == right.chosen_plan
    &&& left.planner_reason == right.planner_reason
    &&& left.estimated_selectivity == right.estimated_selectivity
    &&& left.units_considered == right.units_considered
    &&& left.units_pruned == right.units_pruned
    &&& left.units_scanned == right.units_scanned
    &&& left.candidates_before_filter == right.candidates_before_filter
    &&& left.candidates_after_filter == right.candidates_after_filter
    &&& left.candidates_reranked == right.candidates_reranked
    &&& left.candidates_merged == right.candidates_merged
    &&& left.rerank_count == right.rerank_count
    &&& left.fallback_reason == right.fallback_reason
    &&& left.unit_scan_mix@ == right.unit_scan_mix@
    &&& left.stage_timings == right.stage_timings
}

/// A client can use all diagnostics that a server sends, and reads them as they were written,
/// where their sizes are ordered by name.
pub proof fn law_diagnostics_come_through(
    diagnostics: QueryDiagnostics,
    message: proto::QueryDiagnostics,
    read: QueryDiagnostics,
)
    requires
        diagnostics_sent(diagnostics, message),
        names_ascend(names_of(diagnostics.unit_scan_mix@)),
    ensures
        reply_plan(message.chosen_plan) is Ok,
        diagnostics_received(message, read) ==> same_diagnostics(diagnostics, read),
{
    law_sizes_come_through(diagnostics.unit_scan_mix@);
}

proof fn lemma_matches_come_through(found: Seq<MatchModel>, count: nat)
    requires
        count <= found.len(),
        forall|i: int|
            0 <= i < found.len() ==> in_json_notation(
                json_rewritten((#[trigger] found[i]).metadata),
            ),
    ensures
        reply_matches(match_messages(found), count) == Ok::<Seq<MatchModel>, ClientErrorModel>(
            match_messages(found).take(count as int),
        ),
    decreases count,
{
    let messages = match_messages(found);
    if count == 0 {
        assert(messages.take(0) =~= Seq::empty());
    } else {
        lemma_matches_come_through(found, (count - 1) as nat);
        assert(messages[count - 1] == match_message(found[count - 1]));
        assert(messages.take(count as int) =~= messages.take(count - 1).push(messages[count - 1]));
    }
}

/// Whether a query response is another one with its metadata in the notation that `serde_json`
/// writes.
pub open spec fn same_response(left: QueryResponse, right: QueryResponse) -> bool {
    &&& left.metric == right.metric
    &&& left.top_k == right.top_k
    &&& left.returned == right.returned
    &&& left.snapshot == right.snapshot
    &&& match_messages(matches_model(left.matches@)) == matches_model(right.matches@)
    &&& match (left.diagnostics, right.diagnostics) {
        (Some(first), Some(second)) => same_diagnostics(first, second),
        (None, None) => true,
        _ => false,
    }
}

/// What a client reads from the reply on a flush or a compaction is what the server wrote into it,
/// on the collection that the server names.
pub proof fn law_snapshot_replies_come_through(
    snapshot: Snapshot,
    database_name: String,
    collection_name: String,
    asked_database: Seq<char>,
    asked_collection: Seq<char>,
    read: ScopedCollectionResponse<Snapshot>,
)
    requires
        snapshot_received(
            snapshot_reply(snapshot, database_name, collection_name),
            asked_database,
            asked_collection,
            read,
        ),
    ensures
        read.response == snapshot,
        !is_blank(database_name@) ==> read.database_name@ == database_name@,
        !is_blank(collection_name@) ==> read.collection_name@ == collection_name@,
{
}

/// A client can use every acknowledgement that a server sends, and reads it as it was written, on
/// the collection that the server names.
pub proof fn law_acks_come_through(
    ack: CommitAck,
    database_name: String,
    collection_name: String,
    asked_database: Seq<char>,
    asked_collection: Seq<char>,
    read: ScopedCollectionResponse<CommitAck>,
)
    ensures
        ack_reply(ack, database_name, collection_name).snapshot is Some,
        ack_received(
            ack_reply(ack, database_name, collection_name),
            asked_database,
            asked_collection,
            read,
        ) ==> {
            &&& read.response == ack
            &&& !is_blank(database_name@) ==> read.database_name@ == database_name@
            &&& !is_blank(collection_name@) ==> read.collection_name@ == collection_name@
        },
{
}

/// A client can use every look at storage state that a server sends, and reads it as it was
/// written, on the collection that the server names, where `serde_json` reads the state that it
/// wrote as what it wrote.
pub proof fn law_reports_come_through(
    report: InspectReport,
    database_name: String,
    collection_name: String,
    reply: proto::InspectCollectionReply,
    asked_database: Seq<char>,
    asked_collection: Seq<char>,
    payload: Seq<char>,
    read: ScopedCollectionResponse<InspectReport>,
)
    requires
        report_sent(report, database_name, collection_name, reply),
        in_json_notation(json_rewritten(report.payload_json@)),
    ensures
        json_notation(reply.payload_json@) is Ok,
        json_notation(reply.payload_json@) == Ok::<Seq<char>, Seq<char>>(payload)
            && report_received(reply, asked_database, asked_collection, payload, read) ==> {
            &&& read.response.target == report.target
            &&& read.response.payload_json@ == json_rewritten(report.payload_json@)
            &&& !is_blank(database_name@) ==> read.database_name@ == database_name@
            &&& !is_blank(collection_name@) ==> read.collection_name@ == collection_name@
        },
{
}

/// A client can use every query response that a server sends, and reads it as it was written,
/// where the sizes in it are ordered by name and `serde_json` reads the metadata that it wrote as
/// what it wrote.
pub proof fn law_responses_come_through(
    response: QueryResponse,
    database_name: String,
    collection_name: String,
    reply: proto::QueryCollectionReply,
    read: QueryResponse,
)
    requires
        response_sent(response, database_name, collection_name, reply),
        response.diagnostics matches Some(diagnostics) ==> names_ascend(
            names_of(diagnostics.unit_scan_mix@),
        ),
        forall|i: int|
            0 <= i < response.matches@.len() ==> in_json_notation(
                json_rewritten((#[trigger] response.matches@[i]).metadata_json@),
            ),
    ensures
        response_fault(reply) is None,
        response_received(reply, read) ==> same_response(response, read),
{
    let found = matches_model(response.matches@);
    let messages = match_messages(found);
    assert forall|i: int| 0 <= i < found.len() implies in_json_notation(
        json_rewritten((#[trigger] found[i]).metadata),
    ) by {
        assert(found[i] == response.matches@[i]@);
    }
    lemma_matches_come_through(found, found.len());
    assert(messages.take(messages.len() as int) =~= messages);
    if response.diagnostics is Some && read.diagnostics is Some {
        law_diagnostics_come_through(
            response.diagnostics->0,
            reply.diagnostics->0,
            read.diagnostics->0,
        );
    } else if response.diagnostics is Some {
        law_diagnostics_come_through(
            response.diagnostics->0,
            reply.diagnostics->0,
            response.diagnostics->0,
        );
    }
}

/// A client can use every policy that a server sends; where the server names the databases, it
/// reads the policy as it was written.
pub proof fn law_policies_come_through(
    scoped: ScopedAccessPolicy,
    message: proto::DatabaseAccessPolicyReply,
    fallback: Seq<char>,
    read: ScopedAccessPolicy,
)
    requires
        policy_sent(scoped, message),
        !is_blank(scoped.database_name@),
        forall|i: int|
            0 <= i < scoped.policy.role_bindings@.len() ==> !is_blank(
                (#[trigger] scoped.policy.role_bindings@[i]).database_name@,
            ),
    ensures
        policy_fault(message) is None,
        policy_received(message, fallback, read) ==> {
            &&& read.database_name@ == scoped.database_name@
            &&& read.policy.authentication_mode == scoped.policy.authentication_mode
            &&& read.policy.role_bindings@.len() == scoped.policy.role_bindings@.len()
            &&& forall|i: int|
                0 <= i < read.policy.role_bindings@.len() ==> {
                    let sent = scoped.policy.role_bindings@[i];
                    let received = #[trigger] read.policy.role_bindings@[i];
                    &&& received.database_name@ == sent.database_name@
                    &&& received.principal_name == sent.principal_name
                    &&& received.role == sent.role
                }
        },
{
    let bindings = scoped.policy.role_bindings@;
    lemma_bindings_have_no_fault(bindings, bindings.len());
    if policy_received(message, fallback, read) {
        assert forall|i: int| 0 <= i < read.policy.role_bindings@.len() implies {
            let sent = scoped.policy.role_bindings@[i];
            let received = #[trigger] read.policy.role_bindings@[i];
            &&& received.database_name@ == sent.database_name@
            &&& received.principal_name == sent.principal_name
            &&& received.role == sent.role
        } by {
            assert(message.role_bindings@[i] == binding_message(bindings[i]));
            assert(!is_blank(bindings[i].database_name@));
        }
    }
}

proof fn lemma_bindings_have_no_fault(bindings: Seq<DatabaseRoleBinding>, count: nat)
    requires
        count <= bindings.len(),
    ensures
        bindings_fault(binding_messages(bindings), count) is None,
    decreases count,
{
    if count > 0 {
        lemma_bindings_have_no_fault(bindings, (count - 1) as nat);
        assert(binding_messages(bindings)[count - 1] == binding_message(bindings[count - 1]));
    }
}

/// The identity of a node that a reply holds, part by part: each under its own name.
pub proof fn law_message_metadata_by_part(reply: proto::GetMetadataReply)
    ensures
        message_metadata(reply).product == reply.product,
        message_metadata(reply).node_name == reply.node_name,
        message_metadata(reply).version == reply.version,
        message_metadata(reply).git_sha == reply.git_sha,
        message_metadata(reply).profile == reply.profile,
{
}

/// Where a binding is what a reply holds, each part of it stands under its own name.
pub proof fn law_binding_received_by_part(
    message: proto::DatabaseRoleBindingReply,
    fallback: Seq<char>,
    binding: DatabaseRoleBinding,
)
    ensures
        binding_received(message, fallback, binding) ==> {
            &&& binding.database_name@ == name_or(message.database_name@, fallback)
            &&& binding.principal_name == message.principal_name
            &&& reply_database_role(message.role) == Ok::<DatabaseRole, ClientErrorModel>(binding.role)
        },
{
}

/// Where a policy is what a reply holds, each part of it stands under its own name.
pub proof fn law_policy_received_by_part(
    reply: proto::DatabaseAccessPolicyReply,
    fallback: Seq<char>,
    scoped: ScopedAccessPolicy,
)
    ensures
        policy_received(reply, fallback, scoped) ==> {
            &&& scoped.database_name@ == name_or(reply.database_name@, fallback)
            &&& reply_mode(reply.authentication_mode) == Ok::<AuthenticationMode, ClientErrorModel>(
        scoped.policy.authentication_mode,
    )
            &&& bindings_received(
        reply.role_bindings@,
        scoped.database_name@,
        scoped.policy.role_bindings@,
    )
        },
{
}

/// The coordination of a node that a reply holds, part by part: each under its own name.
pub proof fn law_message_coordination_by_part(reply: proto::CoordinationStatusReply)
    ensures
        message_coordination(reply).cluster_name == reply.cluster_name,
        message_coordination(reply).membership_registered == reply.membership_registered,
        message_coordination(reply).membership_lease_id == reply.membership_lease_id,
        message_coordination(reply).registered_members == reply.registered_members,
        message_coordination(reply).leader_node == reply.leader_node,
        message_coordination(reply).is_local_leader == reply.is_local_leader,
        message_coordination(reply).leadership_lease_id == reply.leadership_lease_id,
        message_coordination(reply).last_error == reply.last_error,
{
}

/// The maintenance of every collection that a reply holds, part by part: each under its own name.
pub proof fn law_message_backlog_by_part(reply: proto::MaintenanceBacklogReply)
    ensures
        message_backlog(reply).collections_with_pending == reply.collections_with_pending as usize,
        message_backlog(reply).pending_operations == reply.pending_operations as usize,
        message_backlog(reply).collections_in_progress == reply.collections_in_progress as usize,
        message_backlog(reply).collections_with_errors == reply.collections_with_errors as usize,
{
}

/// Where the status of a node is what a reply holds, each part of it stands under its own name.
pub proof fn law_status_received_by_part(
    reply: proto::GetRuntimeStatusReply,
    status: NodeRuntimeStatus,
)
    ensures
        status_received(reply, status) ==> {
            &&& reply.metadata matches Some(metadata) && status.metadata == message_metadata(metadata)
            &&& reply_node_role(reply.role) == Ok::<NodeRole, ClientErrorModel>(status.role)
            &&& status.rest_endpoint == reply.rest_endpoint
            &&& status.grpc_endpoint == reply.grpc_endpoint
            &&& status.storage_engine == reply.storage_engine
            &&& status.control_plane_ready == reply.control_plane_ready
            &&& status.data_plane_ready == reply.data_plane_ready
            &&& status.collection_count == reply.collection_count as usize
            &&& reply_placements(reply.collections@, reply.collections@.len()) == Ok::<
        Seq<CollectionPlacement>,
        ClientErrorModel,
    >(status.collections@)
            &&& status.coordination == optional_message_coordination(reply.coordination)
            &&& reply.maintenance matches Some(maintenance) && status.maintenance == message_backlog(
        maintenance,
    )
        },
{
}

/// Where a response is the outcome of a flush or a compaction that a reply holds, each part of it
/// stands under its own name.
pub proof fn law_snapshot_received_by_part(
    reply: proto::SnapshotReply,
    database_name: Seq<char>,
    collection_name: Seq<char>,
    scoped: ScopedCollectionResponse<Snapshot>,
)
    ensures
        snapshot_received(reply, database_name, collection_name, scoped) ==> {
            &&& scoped_by(
        scoped,
        reply.database_name@,
        reply.collection_name@,
        database_name,
        collection_name,
    )
            &&& scoped.response == (Snapshot {
        manifest_generation: reply.manifest_generation,
        visible_seq_no: reply.visible_seq_no,
    })
        },
{
}

/// Where a response is the acknowledgement that a reply holds, each part of it stands under its
/// own name.
pub proof fn law_ack_received_by_part(
    reply: proto::CommitAckReply,
    database_name: Seq<char>,
    collection_name: Seq<char>,
    scoped: ScopedCollectionResponse<CommitAck>,
)
    ensures
        ack_received(reply, database_name, collection_name, scoped) ==> {
            &&& scoped_by(
        scoped,
        reply.database_name@,
        reply.collection_name@,
        database_name,
        collection_name,
    )
            &&& scoped.response.last_seq_no == reply.last_seq_no
            &&& scoped.response.applied_ops == reply.applied_ops as usize
            &&& reply.snapshot matches Some(snapshot) && scoped.response.snapshot == message_snapshot(
        snapshot,
    )
        },
{
}

/// Where diagnostics are what a reply holds, each part of it stands under its own name.
pub proof fn law_diagnostics_received_by_part(
    message: proto::QueryDiagnostics,
    diagnostics: QueryDiagnostics,
)
    ensures
        diagnostics_received(message, diagnostics) ==> {
            &&& reply_plan(message.chosen_plan) == Ok::<QueryPlanKind, ClientErrorModel>(
        diagnostics.chosen_plan,
    )
            &&& diagnostics.planner_reason == message.planner_reason
            &&& diagnostics.estimated_selectivity == message.estimated_selectivity
            &&& diagnostics.units_considered == message.units_considered as usize
            &&& diagnostics.units_pruned == message.units_pruned as usize
            &&& diagnostics.units_scanned == message.units_scanned as usize
            &&& diagnostics.candidates_before_filter == message.candidates_before_filter as usize
            &&& diagnostics.candidates_after_filter == message.candidates_after_filter as usize
            &&& diagnostics.candidates_reranked == message.candidates_reranked as usize
            &&& diagnostics.candidates_merged == message.candidates_merged as usize
            &&& diagnostics.rerank_count == message.rerank_count as usize
            &&& diagnostics.fallback_reason == message.fallback_reason
            &&& diagnostics.unit_scan_mix@ == message_sizes(message.unit_scan_mix@)
            &&& diagnostics.stage_timings == optional_message_timings(message.stage_timings)
        },
{
}

/// Where what a query gave is what a reply holds, each part of it stands under its own name.
pub proof fn law_response_received_by_part(
    reply: proto::QueryCollectionReply,
    response: QueryResponse,
)
    ensures
        response_received(reply, response) ==> {
            &&& reply_metric(reply.metric) == Ok::<DistanceMetric, ClientErrorModel>(response.metric)
            &&& response.top_k == reply.top_k as usize
            &&& response.returned == reply.returned as usize
            &&& reply.snapshot matches Some(snapshot) && response.snapshot == message_snapshot(snapshot)
            &&& reply_matches(proto::matches_model(reply.matches@), reply.matches@.len()) == Ok::<
        Seq<MatchModel>,
        ClientErrorModel,
    >(matches_model(response.matches@))
            &&& match (reply.diagnostics, response.diagnostics) {
        (Some(message), Some(diagnostics)) => diagnostics_received(message, diagnostics),
        (None, None) => true,
        _ => false,
    }
        },
{
}

/// Where a response is the look at storage state that a reply holds, where `payload` is what
/// `serde_json` makes of the state, each part of it stands under its own name.
pub proof fn law_report_received_by_part(
    reply: proto::InspectCollectionReply,
    database_name: Seq<char>,
    collection_name: Seq<char>,
    payload: Seq<char>,
    scoped: ScopedCollectionResponse<InspectReport>,
)
    ensures
        report_received(reply, database_name, collection_name, payload, scoped) ==> {
            &&& scoped_by(
        scoped,
        reply.database_name@,
        reply.collection_name@,
        database_name,
        collection_name,
    )
            &&& scoped.response.target == reply.target
            &&& scoped.response.payload_json@ == payload
        },
{
}

/// The descriptors of a database and of a collection and a placement are read from replies part by
/// part, each under its own name; they are refused exactly where the identifier does not parse or
/// the metric or the role is not set or not known.
pub proof fn law_descriptors_are_read(
    database: proto::DatabaseDescriptorReply,
    collection: proto::CollectionDescriptorReply,
    placement: proto::CollectionPlacementReply,
)
    ensures
        reply_database(database) is Ok <==> database.database_id is Parsed,
        reply_database(database) matches Ok(read) ==> {
            &&& database.database_id == proto::WireId::Parsed(read.database_id)
            &&& read.name == database.name
            &&& read.is_default == database.is_default
        },
        reply_collection(collection) is Ok <==> collection.collection_id is Parsed
            && collection.metric !is Unspecified && collection.metric !is Unknown,
        reply_collection(collection) matches Ok(read) ==> {
            &&& collection.collection_id == proto::WireId::Parsed(read.collection_id)
            &&& read.database_name == collection.database_name
            &&& read.name == collection.name
            &&& read.dimensions == collection.dimensions as usize
            &&& read.metric == DistanceMetric::Cosine <==> collection.metric
                == proto::DistanceMetric::Cosine
            &&& read.metric == DistanceMetric::Dot <==> collection.metric
                == proto::DistanceMetric::Dot
            &&& read.metric == DistanceMetric::L2 <==> collection.metric
                == proto::DistanceMetric::L2
            &&& read.root_path == collection.root_path
            &&& read.flush_threshold_ops == collection.flush_threshold_ops as usize
            &&& read.flush_threshold_bytes == collection.flush_threshold_bytes as usize
            &&& read.compaction_threshold_segments
                == collection.compaction_threshold_segments as usize
            &&& read.remote_blob is Some <==> collection.remote_blob is Some
            &&& collection.remote_blob matches Some(sent) ==> (read.remote_blob matches Some(remote)
                && remote.endpoint == sent.endpoint && remote.bucket == sent.bucket && remote.prefix
                == sent.prefix)
        },
        reply_placement(placement) is Ok <==> placement.collection_id is Parsed
            && placement.assigned_role !is Unspecified && placement.assigned_role !is Unknown,
        reply_placement(placement) matches Ok(read) ==> {
            &&& placement.collection_id == proto::WireId::Parsed(read.collection_id)
            &&& read.database_name == placement.database_name
            &&& read.collection_name == placement.collection_name
            &&& read.assigned_node == placement.assigned_node
            &&& read.assigned_role == NodeRole::Combined <==> placement.assigned_role
                == proto::NodeRole::Combined
            &&& read.assigned_role == NodeRole::Control <==> placement.assigned_role
                == proto::NodeRole::Control
            &&& read.assigned_role == NodeRole::Data <==> placement.assigned_role
                == proto::NodeRole::Data
            &&& read.owner_node == placement.owner_node
            &&& read.ownership_epoch == placement.ownership_epoch
            &&& read.route_kind == placement.route_kind
            &&& read.route_reason == placement.route_reason
        },
{
}

/// Databases, placements and matches are read from replies one for one, in their order, and are
/// refused together where one of them is.
pub proof fn law_lists_are_read_in_order(
    databases: Seq<proto::DatabaseDescriptorReply>,
    placements: Seq<proto::CollectionPlacementReply>,
    candidates: Seq<MatchModel>,
    count: nat,
)
    ensures
        count <= databases.len() ==> match reply_databases(databases, count) {
            Ok(read) => read.len() == count && forall|i: int|
                0 <= i < count ==> reply_database(databases[i]) == Ok::<
                    DatabaseDescriptor,
                    ClientErrorModel,
                >(#[trigger] read[i]),
            Err(error) => exists|i: int|
                0 <= i < count && #[trigger] reply_database(databases[i]) == Err::<
                    DatabaseDescriptor,
                    ClientErrorModel,
                >(error),
        },
        count <= placements.len() ==> match reply_placements(placements, count) {
            Ok(read) => read.len() == count && forall|i: int|
                0 <= i < count ==> reply_placement(placements[i]) == Ok::<
                    CollectionPlacement,
                    ClientErrorModel,
                >(#[trigger] read[i]),
            Err(error) => exists|i: int|
                0 <= i < count && #[trigger] reply_placement(placements[i]) == Err::<
                    CollectionPlacement,
                    ClientErrorModel,
                >(error),
        },
        count <= candidates.len() ==> match reply_matches(candidates, count) {
            Ok(read) => read.len() == count && forall|i: int|
                0 <= i < count ==> reply_match(candidates[i]) == Ok::<MatchModel, ClientErrorModel>(
                    #[trigger] read[i],
                ),
            Err(error) => exists|i: int|
                0 <= i < count && #[trigger] reply_match(candidates[i]) == Err::<
                    MatchModel,
                    ClientErrorModel,
                >(error),
        },
    decreases count,
{
    if count > 0 {
        law_lists_are_read_in_order(databases, placements, candidates, (count - 1) as nat);
        if count <= databases.len() {
            assert(reply_database(databases[count - 1]) == reply_database(databases[count - 1]));
        }
        if count <= placements.len() {
            let last = reply_placement(placements[count - 1]);
        }
        if count <= candidates.len() {
            let last = reply_match(candidates[count - 1]);
        }
    }
}

/// A match is read with its own identifier and value, and with its metadata as `serde_json` writes
/// it; metadata that is no document makes it unreadable.
pub proof fn law_matches_are_read(
    candidate: MatchModel,
    notation: Seq<char>,
    fault: Seq<char>,
)
    ensures
        match_found(candidate, Ok::<Seq<char>, Seq<char>>(notation)) matches Ok(found) && found.id
            == candidate.id && found.value == candidate.value && found.metadata == notation,
        match_found(candidate, Err::<Seq<char>, Seq<char>>(fault)) == Err::<
            MatchModel,
            ClientErrorModel,
        >(ClientErrorModel::Json(fault)),
{
}

/// A status without an identity or without maintenance, and a query response without a snapshot,
/// cannot be used.
pub proof fn law_incomplete_replies_are_refused(
    status: proto::GetRuntimeStatusReply,
    response: proto::QueryCollectionReply,
)
    ensures
        status.metadata is None || status.maintenance is None ==> status_fault(status) is Some,
        response.snapshot is None ==> response_fault(response) is Some,
        response.metric is Unspecified || response.metric is Unknown
            ==> response_fault(response) is Some,
        response.diagnostics matches Some(held) ==> (held.chosen_plan is Unspecified
            || held.chosen_plan is Unknown ==> response_fault(response) is Some),
{
}

/// A response is about the collection that the reply names, or where it names none, or a blank one,
/// about the one that was asked for.
pub proof fn law_responses_are_scoped<T>(
    scoped: ScopedCollectionResponse<T>,
    reply_database: Seq<char>,
    reply_collection: Seq<char>,
    asked_database: Seq<char>,
    asked_collection: Seq<char>,
)
    requires
        scoped_by(
            scoped,
            reply_database,
            reply_collection,
            asked_database,
            asked_collection,
        ),
    ensures
        scoped.database_name@ == (if is_blank(reply_database) {
            asked_database
        } else {
            reply_database
        }),
        scoped.collection_name@ == (if is_blank(reply_collection) {
            asked_collection
        } else {
            reply_collection
        }),
{
}

} // verus!
