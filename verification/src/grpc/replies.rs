//! What gRPC replies say.

use super::status::{rpc_outcome, RpcCode, RpcStatus, RpcStatusModel};
use crate::auth::ScopedAccessPolicy;
use crate::catalog::{CollectionDescriptor, DatabaseDescriptor};
use crate::domain::{
    CollectionPlacement, CollectionStats, CommitAck, CoordinationStatus, InspectReport,
    MaintenanceBacklog, MaintenanceStatus, NodeMetadata, NodeRuntimeStatus, QueryUnitArtifactStats,
    QueryUnitStats, RemoteBlobConfig, Snapshot,
};
use crate::json::{json_rewritten, rewrite_json};
use crate::proto;
use crate::query::{
    matches_model, MatchModel, QueryDiagnostics, QueryMatch, QueryResponse, QueryStageTimings,
};
use crate::scalar::{ScalarField, ScalarFieldStats, ScalarMetadataValue, ValueCount};
use crate::wire::{
    authentication_mode_code, authentication_mode_to_proto, binding_messages, bindings_to_proto,
    metric_code, node_role_code, node_role_to_proto, plan_code, proto_metric,
    query_plan_kind_to_proto, query_stage_timings_to_proto, scalar_message, scalar_to_wire,
    size_messages, sizes_to_proto, snapshot_message, snapshot_to_proto, timings_message,
};
use vstd::prelude::*;

verus! {

/// The identity of a node, as a reply says it.
pub open spec fn metadata_message(metadata: NodeMetadata) -> proto::GetMetadataReply {
    proto::GetMetadataReply {
        product: metadata.product,
        node_name: metadata.node_name,
        version: metadata.version,
        git_sha: metadata.git_sha,
        profile: metadata.profile,
    }
}

/// Write the identity of a node into a reply.
pub fn metadata_reply_from_domain(metadata: NodeMetadata) -> (reply: proto::GetMetadataReply)
    ensures
        reply == metadata_message(metadata),
{
    proto::GetMetadataReply {
        product: metadata.product,
        node_name: metadata.node_name,
        version: metadata.version,
        git_sha: metadata.git_sha,
        profile: metadata.profile,
    }
}

/// The descriptor of a database, as a reply says it.
pub open spec fn database_message(descriptor: DatabaseDescriptor) -> proto::DatabaseDescriptorReply {
    proto::DatabaseDescriptorReply {
        database_id: proto::WireId::Parsed(descriptor.database_id),
        name: descriptor.name,
        is_default: descriptor.is_default,
    }
}

/// Write the descriptor of a database into a reply.
pub fn database_descriptor_to_proto(descriptor: DatabaseDescriptor) -> (reply:
    proto::DatabaseDescriptorReply)
    ensures
        reply == database_message(descriptor),
{
    proto::DatabaseDescriptorReply {
        database_id: proto::WireId::Parsed(descriptor.database_id),
        name: descriptor.name,
        is_default: descriptor.is_default,
    }
}

/// Descriptors of databases, as a reply says them.
pub open spec fn database_messages(descriptors: Seq<DatabaseDescriptor>) -> Seq<
    proto::DatabaseDescriptorReply,
> {
    descriptors.map_values(|descriptor: DatabaseDescriptor| database_message(descriptor))
}

/// Write descriptors of databases into a reply.
pub fn database_list_to_proto(descriptors: Vec<DatabaseDescriptor>) -> (replies: Vec<
    proto::DatabaseDescriptorReply,
>)
    ensures
        replies@ == database_messages(descriptors@),
{
    let mut replies: Vec<proto::DatabaseDescriptorReply> = Vec::new();
    for descriptor in iter: descriptors
        invariant
            iter.seq() == descriptors@,
            replies@ == database_messages(descriptors@.take(iter.index())),
    {
        replies.push(database_descriptor_to_proto(descriptor));
        assert(replies@ =~= database_messages(descriptors@.take(iter.index() + 1)));
    }
    assert(descriptors@.take(descriptors@.len() as int) =~= descriptors@);
    replies
}

/// A remote store, as a reply says it.
pub open spec fn remote_message(remote: Option<RemoteBlobConfig>) -> Option<
    proto::RemoteBlobConfig,
> {
    match remote {
        Some(held) => Some(
            proto::RemoteBlobConfig {
                endpoint: held.endpoint,
                bucket: held.bucket,
                prefix: held.prefix,
            },
        ),
        None => None,
    }
}

/// The descriptor of a collection, as a reply says it.
pub open spec fn collection_message(
    descriptor: CollectionDescriptor,
) -> proto::CollectionDescriptorReply {
    proto::CollectionDescriptorReply {
        collection_id: proto::WireId::Parsed(descriptor.collection_id),
        name: descriptor.name,
        dimensions: descriptor.dimensions as u64,
        metric: metric_code(descriptor.metric),
        root_path: descriptor.root_path,
        flush_threshold_ops: descriptor.flush_threshold_ops as u64,
        flush_threshold_bytes: descriptor.flush_threshold_bytes as u64,
        compaction_threshold_segments: descriptor.compaction_threshold_segments as u64,
        remote_blob: remote_message(descriptor.remote_blob),
        database_name: descriptor.database_name,
    }
}

/// Write the descriptor of a collection into a reply.
pub fn collection_descriptor_reply(descriptor: CollectionDescriptor) -> (reply:
    proto::CollectionDescriptorReply)
    ensures
        reply == collection_message(descriptor),
{
    let remote_blob = match descriptor.remote_blob {
        Some(held) => Some(
            proto::RemoteBlobConfig {
                endpoint: held.endpoint,
                bucket: held.bucket,
                prefix: held.prefix,
            },
        ),
        None => None,
    };
    proto::CollectionDescriptorReply {
        collection_id: proto::WireId::Parsed(descriptor.collection_id),
        name: descriptor.name,
        dimensions: descriptor.dimensions as u64,
        metric: proto_metric(descriptor.metric),
        root_path: descriptor.root_path,
        flush_threshold_ops: descriptor.flush_threshold_ops as u64,
        flush_threshold_bytes: descriptor.flush_threshold_bytes as u64,
        compaction_threshold_segments: descriptor.compaction_threshold_segments as u64,
        remote_blob,
        database_name: descriptor.database_name,
    }
}

/// A placement, as a reply says it.
pub open spec fn placement_message(
    placement: CollectionPlacement,
) -> proto::CollectionPlacementReply {
    proto::CollectionPlacementReply {
        collection_id: proto::WireId::Parsed(placement.collection_id),
        collection_name: placement.collection_name,
        assigned_node: placement.assigned_node,
        assigned_role: node_role_code(placement.assigned_role),
        owner_node: placement.owner_node,
        ownership_epoch: placement.ownership_epoch,
        route_kind: placement.route_kind,
        route_reason: placement.route_reason,
        database_name: placement.database_name,
    }
}

/// Write a placement into a reply.
pub fn collection_placement_reply_from_domain(placement: CollectionPlacement) -> (reply:
    proto::CollectionPlacementReply)
    ensures
        reply == placement_message(placement),
{
    proto::CollectionPlacementReply {
        collection_id: proto::WireId::Parsed(placement.collection_id),
        collection_name: placement.collection_name,
        assigned_node: placement.assigned_node,
        assigned_role: node_role_to_proto(placement.assigned_role),
        owner_node: placement.owner_node,
        ownership_epoch: placement.ownership_epoch,
        route_kind: placement.route_kind,
        route_reason: placement.route_reason,
        database_name: placement.database_name,
    }
}

/// Placements, as a reply says them.
pub open spec fn placement_messages(placements: Seq<CollectionPlacement>) -> Seq<
    proto::CollectionPlacementReply,
> {
    placements.map_values(|placement: CollectionPlacement| placement_message(placement))
}

fn placements_to_proto(placements: Vec<CollectionPlacement>) -> (replies: Vec<
    proto::CollectionPlacementReply,
>)
    ensures
        replies@ == placement_messages(placements@),
{
    let mut replies: Vec<proto::CollectionPlacementReply> = Vec::new();
    for placement in iter: placements
        invariant
            iter.seq() == placements@,
            replies@ == placement_messages(placements@.take(iter.index())),
    {
        replies.push(collection_placement_reply_from_domain(placement));
        assert(replies@ =~= placement_messages(placements@.take(iter.index() + 1)));
    }
    assert(placements@.take(placements@.len() as int) =~= placements@);
    replies
}

/// The maintenance of every collection, as a reply says it.
pub open spec fn backlog_message(backlog: MaintenanceBacklog) -> proto::MaintenanceBacklogReply {
    proto::MaintenanceBacklogReply {
        collections_with_pending: backlog.collections_with_pending as u64,
        pending_operations: backlog.pending_operations as u64,
        collections_in_progress: backlog.collections_in_progress as u64,
        collections_with_errors: backlog.collections_with_errors as u64,
    }
}

/// Write the maintenance of every collection into a reply.
pub fn maintenance_backlog_to_proto(maintenance: MaintenanceBacklog) -> (reply:
    proto::MaintenanceBacklogReply)
    ensures
        reply == backlog_message(maintenance),
{
    proto::MaintenanceBacklogReply {
        collections_with_pending: maintenance.collections_with_pending as u64,
        pending_operations: maintenance.pending_operations as u64,
        collections_in_progress: maintenance.collections_in_progress as u64,
        collections_with_errors: maintenance.collections_with_errors as u64,
    }
}

/// The coordination of a node, as a reply says it.
pub open spec fn coordination_message(
    status: CoordinationStatus,
) -> proto::CoordinationStatusReply {
    proto::CoordinationStatusReply {
        cluster_name: status.cluster_name,
        membership_registered: status.membership_registered,
        membership_lease_id: status.membership_lease_id,
        registered_members: status.registered_members,
        leader_node: status.leader_node,
        is_local_leader: status.is_local_leader,
        leadership_lease_id: status.leadership_lease_id,
        last_error: status.last_error,
    }
}

/// Write the coordination of a node into a reply.
pub fn coordination_status_to_proto(status: CoordinationStatus) -> (reply:
    proto::CoordinationStatusReply)
    ensures
        reply == coordination_message(status),
{
    proto::CoordinationStatusReply {
        cluster_name: status.cluster_name,
        membership_registered: status.membership_registered,
        membership_lease_id: status.membership_lease_id,
        registered_members: status.registered_members,
        leader_node: status.leader_node,
        is_local_leader: status.is_local_leader,
        leadership_lease_id: status.leadership_lease_id,
        last_error: status.last_error,
    }
}

/// The optional coordination of a node, as a reply says it.
pub open spec fn optional_coordination_message(status: Option<CoordinationStatus>) -> Option<
    proto::CoordinationStatusReply,
> {
    match status {
        Some(held) => Some(coordination_message(held)),
        None => None,
    }
}

/// Whether a reply says the status of a node.
pub open spec fn status_sent(
    status: NodeRuntimeStatus,
    reply: proto::GetRuntimeStatusReply,
) -> bool {
    &&& reply.metadata == Some(metadata_message(status.metadata))
    &&& reply.role == node_role_code(status.role)
    &&& reply.rest_endpoint == status.rest_endpoint
    &&& reply.grpc_endpoint == status.grpc_endpoint
    &&& reply.storage_engine == status.storage_engine
    &&& reply.control_plane_ready == status.control_plane_ready
    &&& reply.data_plane_ready == status.data_plane_ready
    &&& reply.collection_count == status.collection_count
    &&& reply.collections@ == placement_messages(status.collections@)
    &&& reply.coordination == optional_coordination_message(status.coordination)
    &&& reply.maintenance == Some(backlog_message(status.maintenance))
}

/// Write the status of a node into a reply.
pub fn runtime_status_reply_from_domain(status: NodeRuntimeStatus) -> (reply:
    proto::GetRuntimeStatusReply)
    ensures
        status_sent(status, reply),
{
    let coordination = match status.coordination {
        Some(held) => Some(coordination_status_to_proto(held)),
        None => None,
    };
    proto::GetRuntimeStatusReply {
        metadata: Some(metadata_reply_from_domain(status.metadata)),
        role: node_role_to_proto(status.role),
        rest_endpoint: status.rest_endpoint,
        grpc_endpoint: status.grpc_endpoint,
        storage_engine: status.storage_engine,
        control_plane_ready: status.control_plane_ready,
        data_plane_ready: status.data_plane_ready,
        collection_count: status.collection_count as u64,
        collections: placements_to_proto(status.collections),
        coordination,
        maintenance: Some(maintenance_backlog_to_proto(status.maintenance)),
    }
}

/// The maintenance of a collection, as a reply says it.
pub open spec fn maintenance_message(status: MaintenanceStatus) -> proto::MaintenanceStatus {
    proto::MaintenanceStatus {
        pending: status.pending,
        in_progress: status.in_progress,
        last_error: status.last_error,
        completed_runs: status.completed_runs as u64,
    }
}

/// Write the maintenance of a collection into a reply.
pub fn maintenance_status_to_proto(status: MaintenanceStatus) -> (reply: proto::MaintenanceStatus)
    ensures
        reply == maintenance_message(status),
{
    proto::MaintenanceStatus {
        pending: status.pending,
        in_progress: status.in_progress,
        last_error: status.last_error,
        completed_runs: status.completed_runs as u64,
    }
}

/// How a scalar without a message is reported.
pub open spec fn scalar_failure() -> RpcStatusModel {
    RpcStatusModel { code: RpcCode::Internal, message: "numeric scalar value must be finite"@ }
}

/// Write a scalar into a reply.
pub fn scalar_value_to_proto(value: ScalarMetadataValue) -> (outcome: Result<
    proto::ScalarValue,
    RpcStatus,
>)
    ensures
        rpc_outcome(outcome) == (match scalar_message(value) {
            Some(message) => Ok::<proto::ScalarValue, RpcStatusModel>(message),
            None => Err(scalar_failure()),
        }),
{
    match scalar_to_wire(value) {
        Some(message) => Ok(message),
        None => Err(
            RpcStatus {
                code: RpcCode::Internal,
                message: "numeric scalar value must be finite".to_owned(),
            },
        ),
    }
}

/// Whether an optional scalar has a message.
pub open spec fn is_sendable(value: Option<ScalarMetadataValue>) -> bool {
    value matches Some(held) ==> scalar_message(held) is Some
}

/// An optional scalar that has a message, as a reply says it.
pub open spec fn optional_scalar_message(value: Option<ScalarMetadataValue>) -> Option<
    proto::ScalarValue,
> {
    match value {
        Some(held) => scalar_message(held),
        None => None,
    }
}

fn optional_scalar_to_proto(value: Option<ScalarMetadataValue>) -> (outcome: Result<
    Option<proto::ScalarValue>,
    RpcStatus,
>)
    ensures
        rpc_outcome(outcome) == (if is_sendable(value) {
            Ok::<Option<proto::ScalarValue>, RpcStatusModel>(optional_scalar_message(value))
        } else {
            Err(scalar_failure())
        }),
{
    match value {
        None => Ok(None),
        Some(held) => match scalar_value_to_proto(held) {
            Ok(message) => Ok(Some(message)),
            Err(status) => Err(status),
        },
    }
}

/// Occurrences of a value, as a reply says them.
pub open spec fn value_message(count: ValueCount) -> proto::NamedCount {
    proto::NamedCount { name: count.value, count: count.count as u64 }
}

/// Occurrences of values, as a reply says them.
pub open spec fn value_messages(counts: Seq<ValueCount>) -> Seq<proto::NamedCount> {
    counts.map_values(|count: ValueCount| value_message(count))
}

fn values_to_proto(counts: Vec<ValueCount>) -> (messages: Vec<proto::NamedCount>)
    ensures
        messages@ == value_messages(counts@),
{
    let mut messages: Vec<proto::NamedCount> = Vec::new();
    for count in iter: counts
        invariant
            iter.seq() == counts@,
            messages@ == value_messages(counts@.take(iter.index())),
    {
        messages.push(proto::NamedCount { name: count.value, count: count.count as u64 });
        assert(messages@ =~= value_messages(counts@.take(iter.index() + 1)));
    }
    assert(counts@.take(counts@.len() as int) =~= counts@);
    messages
}

/// Whether the bounds of a field have messages.
pub open spec fn field_sendable(stats: ScalarFieldStats) -> bool {
    is_sendable(stats.min) && is_sendable(stats.max)
}

/// Whether a reply says the statistics of a field.
pub open spec fn field_sent(stats: ScalarFieldStats, message: proto::ScalarFieldStats) -> bool {
    &&& message.present_count == stats.present_count
    &&& message.null_count == stats.null_count
    &&& message.value_counts@ == value_messages(stats.value_counts@)
    &&& message.min == optional_scalar_message(stats.min)
    &&& message.max == optional_scalar_message(stats.max)
    &&& message.distinct_count == stats.distinct_count
}

/// Write the statistics of a field into a reply.
pub fn scalar_field_stats_to_proto(stats: ScalarFieldStats) -> (outcome: Result<
    proto::ScalarFieldStats,
    RpcStatus,
>)
    ensures
        if field_sendable(stats) {
            outcome matches Ok(message) && field_sent(stats, message)
        } else {
            outcome matches Err(status) && status@ == scalar_failure()
        },
{
    let min = match optional_scalar_to_proto(stats.min) {
        Err(status) => {
            return Err(status);
        },
        Ok(min) => min,
    };
    let max = match optional_scalar_to_proto(stats.max) {
        Err(status) => {
            return Err(status);
        },
        Ok(max) => max,
    };
    Ok(
        proto::ScalarFieldStats {
            present_count: stats.present_count as u64,
            null_count: stats.null_count as u64,
            value_counts: values_to_proto(stats.value_counts),
            min,
            max,
            distinct_count: stats.distinct_count as u64,
        },
    )
}

/// Whether the bounds of every field have messages.
pub open spec fn fields_sendable(fields: Seq<ScalarField>) -> bool {
    forall|i: int| 0 <= i < fields.len() ==> field_sendable((#[trigger] fields[i]).stats)
}

/// Whether a reply says the statistics of fields.
pub open spec fn fields_sent(
    fields: Seq<ScalarField>,
    messages: Seq<proto::NamedFieldStats>,
) -> bool {
    &&& messages.len() == fields.len()
    &&& forall|i: int|
        #![trigger fields[i]]
        #![trigger messages[i]]
        0 <= i < fields.len() ==> messages[i].name == fields[i].name && field_sent(
            fields[i].stats,
            messages[i].stats,
        )
}

fn fields_to_proto(fields: Vec<ScalarField>) -> (outcome: Result<
    Vec<proto::NamedFieldStats>,
    RpcStatus,
>)
    ensures
        if fields_sendable(fields@) {
            outcome matches Ok(messages) && fields_sent(fields@, messages@)
        } else {
            outcome matches Err(status) && status@ == scalar_failure()
        },
{
    let mut messages: Vec<proto::NamedFieldStats> = Vec::new();
    for field in iter: fields
        invariant
            iter.seq() == fields@,
            messages@.len() == iter.index(),
            forall|i: int|
                0 <= i < iter.index() ==> field_sendable((#[trigger] fields@[i]).stats),
            forall|i: int|
                0 <= i < iter.index() ==> (#[trigger] messages@[i]).name == fields@[i].name
                    && field_sent(fields@[i].stats, messages@[i].stats),
    {
        let ghost index = iter.index();
        match scalar_field_stats_to_proto(field.stats) {
            Err(status) => {
                assert(!field_sendable(fields@[index].stats));
                return Err(status);
            },
            Ok(stats) => {
                messages.push(proto::NamedFieldStats { name: field.name, stats });
            },
        }
    }
    Ok(messages)
}

/// A file of a query unit, as a reply says it.
pub open spec fn artifact_message(
    artifact: QueryUnitArtifactStats,
) -> proto::QueryUnitArtifactStats {
    proto::QueryUnitArtifactStats {
        kind: artifact.kind,
        file_name: artifact.file_name,
        approx_bytes: artifact.approx_bytes as u64,
    }
}

/// Files of a query unit, as a reply says them.
pub open spec fn artifact_messages(artifacts: Seq<QueryUnitArtifactStats>) -> Seq<
    proto::QueryUnitArtifactStats,
> {
    artifacts.map_values(|artifact: QueryUnitArtifactStats| artifact_message(artifact))
}

fn artifacts_to_proto(artifacts: Vec<QueryUnitArtifactStats>) -> (messages: Vec<
    proto::QueryUnitArtifactStats,
>)
    ensures
        messages@ == artifact_messages(artifacts@),
{
    let mut messages: Vec<proto::QueryUnitArtifactStats> = Vec::new();
    for artifact in iter: artifacts
        invariant
            iter.seq() == artifacts@,
            messages@ == artifact_messages(artifacts@.take(iter.index())),
    {
        messages.push(
            proto::QueryUnitArtifactStats {
                kind: artifact.kind,
                file_name: artifact.file_name,
                approx_bytes: artifact.approx_bytes as u64,
            },
        );
        assert(messages@ =~= artifact_messages(artifacts@.take(iter.index() + 1)));
    }
    assert(artifacts@.take(artifacts@.len() as int) =~= artifacts@);
    messages
}

/// Whether a reply says the statistics of a query unit.
pub open spec fn unit_sent(stats: QueryUnitStats, message: proto::QueryUnitStats) -> bool {
    &&& message.unit_id == stats.unit_id
    &&& message.tier == stats.tier
    &&& message.index_kind == stats.index_kind
    &&& message.min_seq_no == stats.min_seq_no
    &&& message.max_seq_no == stats.max_seq_no
    &&& message.put_count == stats.put_count
    &&& message.delete_count == stats.delete_count
    &&& message.approx_bytes == stats.approx_bytes
    &&& fields_sent(stats.scalar_fields@, message.scalar_fields@)
    &&& message.artifact_stats@ == artifact_messages(stats.artifact_stats@)
    &&& message.component_bytes@ == size_messages(stats.component_bytes@)
}

/// Write the statistics of a query unit into a reply.
pub fn query_unit_stats_to_proto(stats: QueryUnitStats) -> (outcome: Result<
    proto::QueryUnitStats,
    RpcStatus,
>)
    ensures
        if fields_sendable(stats.scalar_fields@) {
            outcome matches Ok(message) && unit_sent(stats, message)
        } else {
            outcome matches Err(status) && status@ == scalar_failure()
        },
{
    match fields_to_proto(stats.scalar_fields) {
        Err(status) => Err(status),
        Ok(scalar_fields) => Ok(
            proto::QueryUnitStats {
                unit_id: stats.unit_id,
                tier: stats.tier,
                index_kind: stats.index_kind,
                min_seq_no: stats.min_seq_no,
                max_seq_no: stats.max_seq_no,
                put_count: stats.put_count as u64,
                delete_count: stats.delete_count as u64,
                approx_bytes: stats.approx_bytes as u64,
                scalar_fields,
                artifact_stats: artifacts_to_proto(stats.artifact_stats),
                component_bytes: sizes_to_proto(stats.component_bytes),
            },
        ),
    }
}

/// Whether the statistics of query units have messages.
pub open spec fn units_sendable(units: Seq<QueryUnitStats>) -> bool {
    forall|i: int| 0 <= i < units.len() ==> fields_sendable((#[trigger] units[i]).scalar_fields@)
}

/// Whether a reply says the statistics of query units.
pub open spec fn units_sent(
    units: Seq<QueryUnitStats>,
    messages: Seq<proto::QueryUnitStats>,
) -> bool {
    &&& messages.len() == units.len()
    &&& forall|i: int|
        #![trigger units[i]]
        #![trigger messages[i]]
        0 <= i < units.len() ==> unit_sent(units[i], messages[i])
}

fn units_to_proto(units: Vec<QueryUnitStats>) -> (outcome: Result<
    Vec<proto::QueryUnitStats>,
    RpcStatus,
>)
    ensures
        if units_sendable(units@) {
            outcome matches Ok(messages) && units_sent(units@, messages@)
        } else {
            outcome matches Err(status) && status@ == scalar_failure()
        },
{
    let mut messages: Vec<proto::QueryUnitStats> = Vec::new();
    for unit in iter: units
        invariant
            iter.seq() == units@,
            messages@.len() == iter.index(),
            forall|i: int|
                0 <= i < iter.index() ==> fields_sendable((#[trigger] units@[i]).scalar_fields@),
            forall|i: int| 0 <= i < iter.index() ==> unit_sent(units@[i], #[trigger] messages@[i]),
    {
        let ghost index = iter.index();
        match query_unit_stats_to_proto(unit) {
            Err(status) => {
                assert(!fields_sendable(units@[index].scalar_fields@));
                return Err(status);
            },
            Ok(message) => {
                messages.push(message);
            },
        }
    }
    Ok(messages)
}

/// Whether a reply says the statistics of a collection.
pub open spec fn stats_sent(stats: CollectionStats, reply: proto::CollectionStatsReply) -> bool {
    &&& reply.collection_id == proto::WireId::Parsed(stats.collection_id)
    &&& reply.collection_name == stats.collection_name
    &&& reply.manifest_generation == stats.manifest_generation
    &&& reply.visible_seq_no == stats.visible_seq_no
    &&& reply.mutable_op_count == stats.mutable_op_count
    &&& reply.segment_count == stats.segment_count
    &&& reply.live_record_count == stats.live_record_count
    &&& reply.deleted_record_count == stats.deleted_record_count
    &&& reply.maintenance == Some(maintenance_message(stats.maintenance))
    &&& units_sent(stats.query_units@, reply.query_units@)
    &&& reply.database_name == stats.database_name
}

/// Write the statistics of a collection into a reply.
pub fn collection_stats_reply_from_domain(stats: CollectionStats) -> (outcome: Result<
    proto::CollectionStatsReply,
    RpcStatus,
>)
    ensures
        if units_sendable(stats.query_units@) {
            outcome matches Ok(reply) && stats_sent(stats, reply)
        } else {
            outcome matches Err(status) && status@ == scalar_failure()
        },
{
    match units_to_proto(stats.query_units) {
        Err(status) => Err(status),
        Ok(query_units) => Ok(
            proto::CollectionStatsReply {
                collection_id: proto::WireId::Parsed(stats.collection_id),
                collection_name: stats.collection_name,
                manifest_generation: stats.manifest_generation,
                visible_seq_no: stats.visible_seq_no,
                mutable_op_count: stats.mutable_op_count as u64,
                segment_count: stats.segment_count as u64,
                live_record_count: stats.live_record_count as u64,
                deleted_record_count: stats.deleted_record_count as u64,
                maintenance: Some(maintenance_status_to_proto(stats.maintenance)),
                query_units,
                database_name: stats.database_name,
            },
        ),
    }
}

/// Whether a message says a policy.
pub open spec fn policy_sent(
    scoped: ScopedAccessPolicy,
    message: proto::DatabaseAccessPolicyReply,
) -> bool {
    &&& message.database_name == scoped.database_name
    &&& message.authentication_mode == authentication_mode_code(scoped.policy.authentication_mode)
    &&& message.role_bindings@ == binding_messages(scoped.policy.role_bindings@)
}

/// Write a policy into a reply.
pub fn database_access_policy_to_proto(scoped: ScopedAccessPolicy) -> (message:
    proto::DatabaseAccessPolicyReply)
    ensures
        policy_sent(scoped, message),
{
    proto::DatabaseAccessPolicyReply {
        database_name: scoped.database_name,
        authentication_mode: authentication_mode_to_proto(scoped.policy.authentication_mode),
        role_bindings: bindings_to_proto(scoped.policy.role_bindings),
    }
}

/// Optional timings, as a reply says them.
pub open spec fn optional_timings_message(timings: Option<QueryStageTimings>) -> Option<
    proto::QueryStageTimings,
> {
    match timings {
        Some(held) => Some(timings_message(held)),
        None => None,
    }
}

/// Whether a reply says how a query was answered.
pub open spec fn diagnostics_sent(
    diagnostics: QueryDiagnostics,
    message: proto::QueryDiagnostics,
) -> bool {
    &&& message.chosen_plan == plan_code(diagnostics.chosen_plan)
    &&& message.planner_reason == diagnostics.planner_reason
    &&& message.estimated_selectivity == diagnostics.estimated_selectivity
    &&& message.units_considered == diagnostics.units_considered
    &&& message.units_pruned == diagnostics.units_pruned
    &&& message.units_scanned == diagnostics.units_scanned
    &&& message.candidates_before_filter == diagnostics.candidates_before_filter
    &&& message.candidates_after_filter == diagnostics.candidates_after_filter
    &&& message.candidates_reranked == diagnostics.candidates_reranked
    &&& message.candidates_merged == diagnostics.candidates_merged
    &&& message.rerank_count == diagnostics.rerank_count
    &&& message.fallback_reason == diagnostics.fallback_reason
    &&& message.unit_scan_mix@ == size_messages(diagnostics.unit_scan_mix@)
    &&& message.stage_timings == optional_timings_message(diagnostics.stage_timings)
}

/// Write how a query was answered into a reply.
pub fn query_diagnostics_to_proto(diagnostics: QueryDiagnostics) -> (outcome: Result<
    proto::QueryDiagnostics,
    RpcStatus,
>)
    ensures
        outcome matches Ok(message) && diagnostics_sent(diagnostics, message),
{
    let stage_timings = match diagnostics.stage_timings {
        Some(held) => Some(query_stage_timings_to_proto(held)),
        None => None,
    };
    Ok(
        proto::QueryDiagnostics {
            chosen_plan: query_plan_kind_to_proto(diagnostics.chosen_plan),
            planner_reason: diagnostics.planner_reason,
            estimated_selectivity: diagnostics.estimated_selectivity,
            units_considered: diagnostics.units_considered as u64,
            units_pruned: diagnostics.units_pruned as u64,
            units_scanned: diagnostics.units_scanned as u64,
            candidates_before_filter: diagnostics.candidates_before_filter as u64,
            candidates_after_filter: diagnostics.candidates_after_filter as u64,
            candidates_reranked: diagnostics.candidates_reranked as u64,
            candidates_merged: diagnostics.candidates_merged as u64,
            rerank_count: diagnostics.rerank_count as u64,
            fallback_reason: diagnostics.fallback_reason,
            unit_scan_mix: sizes_to_proto(diagnostics.unit_scan_mix),
            stage_timings,
        },
    )
}

/// A match, as a reply says it: with its metadata in the notation that `serde_json` writes.
pub open spec fn match_message(found: MatchModel) -> MatchModel {
    MatchModel { metadata: json_rewritten(found.metadata), ..found }
}

/// Matches, as a reply says them.
pub open spec fn match_messages(found: Seq<MatchModel>) -> Seq<MatchModel> {
    Seq::new(found.len(), |i: int| match_message(found[i]))
}

fn matches_to_proto(found: Vec<QueryMatch>) -> (messages: Vec<proto::QueryMatch>)
    ensures
        proto::matches_model(messages@) == match_messages(matches_model(found@)),
{
    let mut messages: Vec<proto::QueryMatch> = Vec::new();
    for one in iter: found
        invariant
            iter.seq() == found@,
            proto::matches_model(messages@) =~= match_messages(matches_model(found@)).take(
                iter.index(),
            ),
    {
        let ghost index = iter.index();
        let ghost before = messages@;
        let message = proto::QueryMatch {
            id: one.id,
            value: one.value,
            metadata_json: rewrite_json(one.metadata_json),
        };
        messages.push(message);
        proof {
            let all = match_messages(matches_model(found@));
            assert(all[index] == message@);
            assert(proto::matches_model(messages@) =~= proto::matches_model(before).push(
                message@,
            ));
            assert(all.take(index + 1) =~= all.take(index).push(all[index]));
        }
    }
    assert(proto::matches_model(messages@) =~= match_messages(matches_model(found@)));
    messages
}

/// Whether a reply says what a query gave.
pub open spec fn response_sent(
    response: QueryResponse,
    database_name: String,
    collection_name: String,
    reply: proto::QueryCollectionReply,
) -> bool {
    &&& reply.metric == metric_code(response.metric)
    &&& reply.top_k == response.top_k
    &&& reply.returned == response.returned
    &&& reply.snapshot == Some(snapshot_message(response.snapshot))
    &&& proto::matches_model(reply.matches@) == match_messages(matches_model(response.matches@))
    &&& match (response.diagnostics, reply.diagnostics) {
        (Some(diagnostics), Some(message)) => diagnostics_sent(diagnostics, message),
        (None, None) => true,
        _ => false,
    }
    &&& reply.database_name == database_name
    &&& reply.collection_name == collection_name
}

/// Write what a query gave into a reply.
pub fn query_reply_from_domain(
    response: QueryResponse,
    database_name: String,
    collection_name: String,
) -> (outcome: Result<proto::QueryCollectionReply, RpcStatus>)
    ensures
        outcome matches Ok(reply) && response_sent(response, database_name, collection_name, reply),
{
    let diagnostics = match response.diagnostics {
        None => None,
        Some(held) => match query_diagnostics_to_proto(held) {
            Err(status) => {
                return Err(status);
            },
            Ok(message) => Some(message),
        },
    };
    Ok(
        proto::QueryCollectionReply {
            metric: proto_metric(response.metric),
            top_k: response.top_k as u64,
            returned: response.returned as u64,
            snapshot: Some(snapshot_to_proto(response.snapshot)),
            matches: matches_to_proto(response.matches),
            diagnostics,
            database_name,
            collection_name,
        },
    )
}

/// The reply on a flush or a compaction.
pub open spec fn snapshot_reply(
    snapshot: Snapshot,
    database_name: String,
    collection_name: String,
) -> proto::SnapshotReply {
    proto::SnapshotReply {
        manifest_generation: snapshot.manifest_generation,
        visible_seq_no: snapshot.visible_seq_no,
        database_name,
        collection_name,
    }
}

/// Write the state of a collection into a reply.
pub fn snapshot_reply_from_domain(
    snapshot: Snapshot,
    database_name: String,
    collection_name: String,
) -> (reply: proto::SnapshotReply)
    ensures
        reply == snapshot_reply(snapshot, database_name, collection_name),
{
    proto::SnapshotReply {
        manifest_generation: snapshot.manifest_generation,
        visible_seq_no: snapshot.visible_seq_no,
        database_name,
        collection_name,
    }
}

/// The reply on a write batch.
pub open spec fn ack_reply(
    ack: CommitAck,
    database_name: String,
    collection_name: String,
) -> proto::CommitAckReply {
    proto::CommitAckReply {
        last_seq_no: ack.last_seq_no,
        applied_ops: ack.applied_ops as u64,
        database_name,
        collection_name,
        snapshot: Some(snapshot_message(ack.snapshot)),
    }
}

/// Write the acknowledgement of a write batch into a reply.
pub fn commit_ack_reply_from_domain(
    ack: CommitAck,
    database_name: String,
    collection_name: String,
) -> (reply: proto::CommitAckReply)
    ensures
        reply == ack_reply(ack, database_name, collection_name),
{
    proto::CommitAckReply {
        last_seq_no: ack.last_seq_no,
        applied_ops: ack.applied_ops as u64,
        database_name,
        collection_name,
        snapshot: Some(snapshot_to_proto(ack.snapshot)),
    }
}

/// Whether a reply says what a look at storage state gave, with the state in the notation that
/// `serde_json` writes.
pub open spec fn report_sent(
    report: InspectReport,
    database_name: String,
    collection_name: String,
    reply: proto::InspectCollectionReply,
) -> bool {
    &&& reply.target == report.target
    &&& reply.payload_json@ == json_rewritten(report.payload_json@)
    &&& reply.database_name == database_name
    &&& reply.collection_name == collection_name
}

/// Write a look at storage state into a reply.
pub fn inspect_reply_from_domain(
    report: InspectReport,
    database_name: String,
    collection_name: String,
) -> (reply: proto::InspectCollectionReply)
    ensures
        report_sent(report, database_name, collection_name, reply),
{
    proto::InspectCollectionReply {
        target: report.target,
        payload_json: rewrite_json(report.payload_json),
        database_name,
        collection_name,
    }
}

/// The identity of a node, as a reply says it, part by part: each under its own name.
pub proof fn law_metadata_message_by_part(metadata: NodeMetadata)
    ensures
        metadata_message(metadata).product == metadata.product,
        metadata_message(metadata).node_name == metadata.node_name,
        metadata_message(metadata).version == metadata.version,
        metadata_message(metadata).git_sha == metadata.git_sha,
        metadata_message(metadata).profile == metadata.profile,
{
}

/// The descriptor of a database, as a reply says it, part by part: each under its own name.
pub proof fn law_database_message_by_part(descriptor: DatabaseDescriptor)
    ensures
        database_message(descriptor).database_id == proto::WireId::Parsed(descriptor.database_id),
        database_message(descriptor).name == descriptor.name,
        database_message(descriptor).is_default == descriptor.is_default,
{
}

/// The descriptor of a collection, as a reply says it, part by part: each under its own name.
pub proof fn law_collection_message_by_part(descriptor: CollectionDescriptor)
    ensures
        collection_message(descriptor).collection_id == proto::WireId::Parsed(descriptor.collection_id),
        collection_message(descriptor).name == descriptor.name,
        collection_message(descriptor).dimensions == descriptor.dimensions as u64,
        collection_message(descriptor).metric == metric_code(descriptor.metric),
        collection_message(descriptor).root_path == descriptor.root_path,
        collection_message(descriptor).flush_threshold_ops == descriptor.flush_threshold_ops as u64,
        collection_message(descriptor).flush_threshold_bytes == descriptor.flush_threshold_bytes as u64,
        collection_message(descriptor).compaction_threshold_segments == descriptor.compaction_threshold_segments as u64,
        collection_message(descriptor).remote_blob == remote_message(descriptor.remote_blob),
        collection_message(descriptor).database_name == descriptor.database_name,
{
}

/// A placement, as a reply says it, part by part: each under its own name.
pub proof fn law_placement_message_by_part(placement: CollectionPlacement)
    ensures
        placement_message(placement).collection_id == proto::WireId::Parsed(placement.collection_id),
        placement_message(placement).collection_name == placement.collection_name,
        placement_message(placement).assigned_node == placement.assigned_node,
        placement_message(placement).assigned_role == node_role_code(placement.assigned_role),
        placement_message(placement).owner_node == placement.owner_node,
        placement_message(placement).ownership_epoch == placement.ownership_epoch,
        placement_message(placement).route_kind == placement.route_kind,
        placement_message(placement).route_reason == placement.route_reason,
        placement_message(placement).database_name == placement.database_name,
{
}

/// The maintenance of every collection, as a reply says it, part by part: each under its own name.
pub proof fn law_backlog_message_by_part(backlog: MaintenanceBacklog)
    ensures
        backlog_message(backlog).collections_with_pending == backlog.collections_with_pending as u64,
        backlog_message(backlog).pending_operations == backlog.pending_operations as u64,
        backlog_message(backlog).collections_in_progress == backlog.collections_in_progress as u64,
        backlog_message(backlog).collections_with_errors == backlog.collections_with_errors as u64,
{
}

/// The coordination of a node, as a reply says it, part by part: each under its own name.
pub proof fn law_coordination_message_by_part(status: CoordinationStatus)
    ensures
        coordination_message(status).cluster_name == status.cluster_name,
        coordination_message(status).membership_registered == status.membership_registered,
        coordination_message(status).membership_lease_id == status.membership_lease_id,
        coordination_message(status).registered_members == status.registered_members,
        coordination_message(status).leader_node == status.leader_node,
        coordination_message(status).is_local_leader == status.is_local_leader,
        coordination_message(status).leadership_lease_id == status.leadership_lease_id,
        coordination_message(status).last_error == status.last_error,
{
}

/// Where a reply says the status of a node, each part of it stands under its own name.
pub proof fn law_status_sent_by_part(status: NodeRuntimeStatus, reply: proto::GetRuntimeStatusReply)
    ensures
        status_sent(status, reply) ==> {
            &&& reply.metadata == Some(metadata_message(status.metadata))
            &&& reply.role == node_role_code(status.role)
            &&& reply.rest_endpoint == status.rest_endpoint
            &&& reply.grpc_endpoint == status.grpc_endpoint
            &&& reply.storage_engine == status.storage_engine
            &&& reply.control_plane_ready == status.control_plane_ready
            &&& reply.data_plane_ready == status.data_plane_ready
            &&& reply.collection_count == status.collection_count
            &&& reply.collections@ == placement_messages(status.collections@)
            &&& reply.coordination == optional_coordination_message(status.coordination)
            &&& reply.maintenance == Some(backlog_message(status.maintenance))
        },
{
}

/// The maintenance of a collection, as a reply says it, part by part: each under its own name.
pub proof fn law_maintenance_message_by_part(status: MaintenanceStatus)
    ensures
        maintenance_message(status).pending == status.pending,
        maintenance_message(status).in_progress == status.in_progress,
        maintenance_message(status).last_error == status.last_error,
        maintenance_message(status).completed_runs == status.completed_runs as u64,
{
}

/// Occurrences of a value, as a reply says them, part by part: each under its own name.
pub proof fn law_value_message_by_part(count: ValueCount)
    ensures
        value_message(count).name == count.value,
        value_message(count).count == count.count as u64,
{
}

/// Where a reply says the statistics of a field, each part of it stands under its own name.
pub proof fn law_field_sent_by_part(stats: ScalarFieldStats, message: proto::ScalarFieldStats)
    ensures
        field_sent(stats, message) ==> {
            &&& message.present_count == stats.present_count
            &&& message.null_count == stats.null_count
            &&& message.value_counts@ == value_messages(stats.value_counts@)
            &&& message.min == optional_scalar_message(stats.min)
            &&& message.max == optional_scalar_message(stats.max)
            &&& message.distinct_count == stats.distinct_count
        },
{
}

/// A file of a query unit, as a reply says it, part by part: each under its own name.
pub proof fn law_artifact_message_by_part(artifact: QueryUnitArtifactStats)
    ensures
        artifact_message(artifact).kind == artifact.kind,
        artifact_message(artifact).file_name == artifact.file_name,
        artifact_message(artifact).approx_bytes == artifact.approx_bytes as u64,
{
}

/// Where a reply says the statistics of a query unit, each part of it stands under its own name.
pub proof fn law_unit_sent_by_part(stats: QueryUnitStats, message: proto::QueryUnitStats)
    ensures
        unit_sent(stats, message) ==> {
            &&& message.unit_id == stats.unit_id
            &&& message.tier == stats.tier
            &&& message.index_kind == stats.index_kind
            &&& message.min_seq_no == stats.min_seq_no
            &&& message.max_seq_no == stats.max_seq_no
            &&& message.put_count == stats.put_count
            &&& message.delete_count == stats.delete_count
            &&& message.approx_bytes == stats.approx_bytes
            &&& fields_sent(stats.scalar_fields@, message.scalar_fields@)
            &&& message.artifact_stats@ == artifact_messages(stats.artifact_stats@)
            &&& message.component_bytes@ == size_messages(stats.component_bytes@)
        },
{
}

/// Where a reply says the statistics of a collection, each part of it stands under its own name.
pub proof fn law_stats_sent_by_part(stats: CollectionStats, reply: proto::CollectionStatsReply)
    ensures
        stats_sent(stats, reply) ==> {
            &&& reply.collection_id == proto::WireId::Parsed(stats.collection_id)
            &&& reply.collection_name == stats.collection_name
            &&& reply.manifest_generation == stats.manifest_generation
            &&& reply.visible_seq_no == stats.visible_seq_no
            &&& reply.mutable_op_count == stats.mutable_op_count
            &&& reply.segment_count == stats.segment_count
            &&& reply.live_record_count == stats.live_record_count
            &&& reply.deleted_record_count == stats.deleted_record_count
            &&& reply.maintenance == Some(maintenance_message(stats.maintenance))
            &&& units_sent(stats.query_units@, reply.query_units@)
            &&& reply.database_name == stats.database_name
        },
{
}

/// Where a message says a policy, each part of it stands under its own name.
pub proof fn law_policy_sent_by_part(
    scoped: ScopedAccessPolicy,
    message: proto::DatabaseAccessPolicyReply,
)
    ensures
        policy_sent(scoped, message) ==> {
            &&& message.database_name == scoped.database_name
            &&& message.authentication_mode == authentication_mode_code(scoped.policy.authentication_mode)
            &&& message.role_bindings@ == binding_messages(scoped.policy.role_bindings@)
        },
{
}

/// Where a reply says how a query was answered, each part of it stands under its own name.
pub proof fn law_diagnostics_sent_by_part(
    diagnostics: QueryDiagnostics,
    message: proto::QueryDiagnostics,
)
    ensures
        diagnostics_sent(diagnostics, message) ==> {
            &&& message.chosen_plan == plan_code(diagnostics.chosen_plan)
            &&& message.planner_reason == diagnostics.planner_reason
            &&& message.estimated_selectivity == diagnostics.estimated_selectivity
            &&& message.units_considered == diagnostics.units_considered
            &&& message.units_pruned == diagnostics.units_pruned
            &&& message.units_scanned == diagnostics.units_scanned
            &&& message.candidates_before_filter == diagnostics.candidates_before_filter
            &&& message.candidates_after_filter == diagnostics.candidates_after_filter
            &&& message.candidates_reranked == diagnostics.candidates_reranked
            &&& message.candidates_merged == diagnostics.candidates_merged
            &&& message.rerank_count == diagnostics.rerank_count
            &&& message.fallback_reason == diagnostics.fallback_reason
            &&& message.unit_scan_mix@ == size_messages(diagnostics.unit_scan_mix@)
            &&& message.stage_timings == optional_timings_message(diagnostics.stage_timings)
        },
{
}

/// Where a reply says what a query gave, each part of it stands under its own name.
pub proof fn law_response_sent_by_part(
    response: QueryResponse,
    database_name: String,
    collection_name: String,
    reply: proto::QueryCollectionReply,
)
    ensures
        response_sent(response, database_name, collection_name, reply) ==> {
            &&& reply.metric == metric_code(response.metric)
            &&& reply.top_k == response.top_k
            &&& reply.returned == response.returned
            &&& reply.snapshot == Some(snapshot_message(response.snapshot))
            &&& proto::matches_model(reply.matches@) == match_messages(matches_model(response.matches@))
            &&& match (response.diagnostics, reply.diagnostics) {
        (Some(diagnostics), Some(message)) => diagnostics_sent(diagnostics, message),
        (None, None) => true,
        _ => false,
    }
            &&& reply.database_name == database_name
            &&& reply.collection_name == collection_name
        },
{
}

/// The reply on a flush or a compaction, part by part: each under its own name.
pub proof fn law_snapshot_reply_by_part(
    snapshot: Snapshot,
    database_name: String,
    collection_name: String,
)
    ensures
        snapshot_reply(snapshot, database_name, collection_name).manifest_generation == snapshot.manifest_generation,
        snapshot_reply(snapshot, database_name, collection_name).visible_seq_no == snapshot.visible_seq_no,
        snapshot_reply(snapshot, database_name, collection_name).database_name == database_name,
        snapshot_reply(snapshot, database_name, collection_name).collection_name == collection_name,
{
}

/// The reply on a write batch, part by part: each under its own name.
pub proof fn law_ack_reply_by_part(ack: CommitAck, database_name: String, collection_name: String)
    ensures
        ack_reply(ack, database_name, collection_name).last_seq_no == ack.last_seq_no,
        ack_reply(ack, database_name, collection_name).applied_ops == ack.applied_ops as u64,
        ack_reply(ack, database_name, collection_name).database_name == database_name,
        ack_reply(ack, database_name, collection_name).collection_name == collection_name,
        ack_reply(ack, database_name, collection_name).snapshot == Some(snapshot_message(ack.snapshot)),
{
}

/// Where a reply says what a look at storage state gave, with the state in the notation that
/// `serde_json` writes, each part of it stands under its own name.
pub proof fn law_report_sent_by_part(
    report: InspectReport,
    database_name: String,
    collection_name: String,
    reply: proto::InspectCollectionReply,
)
    ensures
        report_sent(report, database_name, collection_name, reply) ==> {
            &&& reply.target == report.target
            &&& reply.payload_json@ == json_rewritten(report.payload_json@)
            &&& reply.database_name == database_name
            &&& reply.collection_name == collection_name
        },
{
}

/// Descriptors, placements, occurrence counts, files and matches stand in replies one for one, in
/// their order.
pub proof fn law_lists_are_sent_in_order(
    descriptors: Seq<DatabaseDescriptor>,
    placements: Seq<CollectionPlacement>,
    counts: Seq<ValueCount>,
    artifacts: Seq<QueryUnitArtifactStats>,
    found: Seq<MatchModel>,
    i: int,
)
    ensures
        database_messages(descriptors).len() == descriptors.len(),
        0 <= i < descriptors.len() ==> database_messages(descriptors)[i] == database_message(
            descriptors[i],
        ),
        placement_messages(placements).len() == placements.len(),
        0 <= i < placements.len() ==> placement_messages(placements)[i] == placement_message(
            placements[i],
        ),
        value_messages(counts).len() == counts.len(),
        0 <= i < counts.len() ==> value_messages(counts)[i] == value_message(counts[i]),
        artifact_messages(artifacts).len() == artifacts.len(),
        0 <= i < artifacts.len() ==> artifact_messages(artifacts)[i] == artifact_message(
            artifacts[i],
        ),
        match_messages(found).len() == found.len(),
        0 <= i < found.len() ==> match_messages(found)[i].id == found[i].id && match_messages(
            found,
        )[i].value == found[i].value && match_messages(found)[i].metadata == json_rewritten(
            found[i].metadata,
        ),
{
}

/// What may be missing is missing from a reply exactly where it is missing; a remote store stands
/// there part by part, and a scalar that has no message is a failure of the service.
pub proof fn law_missing_parts_stay_missing(
    remote: RemoteBlobConfig,
    status: CoordinationStatus,
    timings: QueryStageTimings,
    value: ScalarMetadataValue,
)
    ensures
        remote_message(None) is None,
        remote_message(Some(remote)) matches Some(sent) && sent.endpoint == remote.endpoint
            && sent.bucket == remote.bucket && sent.prefix == remote.prefix,
        optional_coordination_message(None) is None,
        optional_coordination_message(Some(status)) == Some(coordination_message(status)),
        optional_timings_message(None) is None,
        optional_timings_message(Some(timings)) == Some(timings_message(timings)),
        optional_scalar_message(None) is None,
        optional_scalar_message(Some(value)) == scalar_message(value),
        is_sendable(None),
        is_sendable(Some(value)) <==> scalar_message(value) is Some,
        scalar_failure().code == RpcCode::Internal,
{
}

/// Statistics can be sent exactly when the bounds of each field have messages.
pub proof fn law_what_can_be_sent(fields: Seq<ScalarField>, units: Seq<QueryUnitStats>)
    ensures
        fields_sendable(fields) <==> forall|i: int|
            0 <= i < fields.len() ==> ((#[trigger] fields[i]).stats.min matches Some(least)
                ==> scalar_message(least) is Some) && (fields[i].stats.max matches Some(greatest)
                ==> scalar_message(greatest) is Some),
        units_sendable(units) <==> forall|i: int|
            0 <= i < units.len() ==> fields_sendable((#[trigger] units[i]).scalar_fields@),
{
    if fields_sendable(fields) {
        assert forall|i: int| 0 <= i < fields.len() implies ((
        #[trigger] fields[i]).stats.min matches Some(least) ==> scalar_message(least) is Some) && (
        fields[i].stats.max matches Some(greatest) ==> scalar_message(greatest) is Some) by {
            assert(field_sendable(fields[i].stats));
        }
    }
}

} // verus!
