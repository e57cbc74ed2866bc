//! What both ends of the gRPC interface write into messages, and read from them without fault.

use crate::auth::{AuthenticationMode, DatabaseRole, DatabaseRoleBinding};
use crate::domain::{InspectTarget, NamedSize, Snapshot};
use crate::json::{
    double_number, is_json_number, number_from_double, number_from_signed, number_from_unsigned,
    signed_number, unsigned_number,
};
use crate::proto;
use crate::query::{ExplainMode, PredicateOperator, QueryPlanKind, QueryStageTimings};
use crate::scalar::{
    by_name, law_ordered_entries_stay, names_ascend, names_of, place_by_name, ScalarMetadataValue,
};
use crate::types::{DistanceMetric, NodeRole};
use vstd::prelude::*;

verus! {

/// A metric, as messages hold it.
pub open spec fn metric_code(metric: DistanceMetric) -> proto::DistanceMetric {
    match metric {
        DistanceMetric::Cosine => proto::DistanceMetric::Cosine,
        DistanceMetric::Dot => proto::DistanceMetric::Dot,
        DistanceMetric::L2 => proto::DistanceMetric::L2,
    }
}

/// Write a metric into a message.
pub fn proto_metric(metric: DistanceMetric) -> (code: proto::DistanceMetric)
    ensures
        code == metric_code(metric),
{
    match metric {
        DistanceMetric::Cosine => proto::DistanceMetric::Cosine,
        DistanceMetric::Dot => proto::DistanceMetric::Dot,
        DistanceMetric::L2 => proto::DistanceMetric::L2,
    }
}

/// A role of a node, as messages hold it.
pub open spec fn node_role_code(role: NodeRole) -> proto::NodeRole {
    match role {
        NodeRole::Combined => proto::NodeRole::Combined,
        NodeRole::Control => proto::NodeRole::Control,
        NodeRole::Data => proto::NodeRole::Data,
    }
}

/// Write a role of a node into a message.
pub fn node_role_to_proto(role: NodeRole) -> (code: proto::NodeRole)
    ensures
        code == node_role_code(role),
{
    match role {
        NodeRole::Combined => proto::NodeRole::Combined,
        NodeRole::Control => proto::NodeRole::Control,
        NodeRole::Data => proto::NodeRole::Data,
    }
}

/// An authentication mode, as messages hold it.
pub open spec fn authentication_mode_code(mode: AuthenticationMode) -> proto::AuthenticationMode {
    match mode {
        AuthenticationMode::Disabled => proto::AuthenticationMode::Disabled,
        AuthenticationMode::Password => proto::AuthenticationMode::Password,
        AuthenticationMode::MutualTls => proto::AuthenticationMode::MutualTls,
        AuthenticationMode::ExternalToken => proto::AuthenticationMode::ExternalToken,
    }
}

/// Write an authentication mode into a message.
pub fn authentication_mode_to_proto(mode: AuthenticationMode) -> (code: proto::AuthenticationMode)
    ensures
        code == authentication_mode_code(mode),
{
    match mode {
        AuthenticationMode::Disabled => proto::AuthenticationMode::Disabled,
        AuthenticationMode::Password => proto::AuthenticationMode::Password,
        AuthenticationMode::MutualTls => proto::AuthenticationMode::MutualTls,
        AuthenticationMode::ExternalToken => proto::AuthenticationMode::ExternalToken,
    }
}

/// A role in a database, as messages hold it.
pub open spec fn database_role_code(role: DatabaseRole) -> proto::DatabaseRole {
    match role {
        DatabaseRole::Owner => proto::DatabaseRole::Owner,
        DatabaseRole::ReadWrite => proto::DatabaseRole::ReadWrite,
        DatabaseRole::ReadOnly => proto::DatabaseRole::ReadOnly,
    }
}

/// Write a role in a database into a message.
pub fn database_role_to_proto(role: DatabaseRole) -> (code: proto::DatabaseRole)
    ensures
        code == database_role_code(role),
{
    match role {
        DatabaseRole::Owner => proto::DatabaseRole::Owner,
        DatabaseRole::ReadWrite => proto::DatabaseRole::ReadWrite,
        DatabaseRole::ReadOnly => proto::DatabaseRole::ReadOnly,
    }
}

/// An operator, as messages hold it.
pub open spec fn operator_code(operator: PredicateOperator) -> proto::PredicateOperator {
    match operator {
        PredicateOperator::Eq => proto::PredicateOperator::Eq,
        PredicateOperator::Ne => proto::PredicateOperator::Ne,
        PredicateOperator::Lt => proto::PredicateOperator::Lt,
        PredicateOperator::Lte => proto::PredicateOperator::Lte,
        PredicateOperator::Gt => proto::PredicateOperator::Gt,
        PredicateOperator::Gte => proto::PredicateOperator::Gte,
        PredicateOperator::Exists => proto::PredicateOperator::Exists,
        PredicateOperator::IsNull => proto::PredicateOperator::IsNull,
    }
}

/// Write an operator into a message.
pub fn predicate_operator_to_proto(operator: PredicateOperator) -> (code: proto::PredicateOperator)
    ensures
        code == operator_code(operator),
{
    match operator {
        PredicateOperator::Eq => proto::PredicateOperator::Eq,
        PredicateOperator::Ne => proto::PredicateOperator::Ne,
        PredicateOperator::Lt => proto::PredicateOperator::Lt,
        PredicateOperator::Lte => proto::PredicateOperator::Lte,
        PredicateOperator::Gt => proto::PredicateOperator::Gt,
        PredicateOperator::Gte => proto::PredicateOperator::Gte,
        PredicateOperator::Exists => proto::PredicateOperator::Exists,
        PredicateOperator::IsNull => proto::PredicateOperator::IsNull,
    }
}

/// An explain mode, as messages hold it.
pub open spec fn explain_code(mode: ExplainMode) -> proto::ExplainMode {
    match mode {
        ExplainMode::Off => proto::ExplainMode::Off,
        ExplainMode::Plan => proto::ExplainMode::Plan,
        ExplainMode::Profile => proto::ExplainMode::Profile,
    }
}

/// Write an explain mode into a message.
pub fn explain_mode_to_proto(mode: ExplainMode) -> (code: proto::ExplainMode)
    ensures
        code == explain_code(mode),
{
    match mode {
        ExplainMode::Off => proto::ExplainMode::Off,
        ExplainMode::Plan => proto::ExplainMode::Plan,
        ExplainMode::Profile => proto::ExplainMode::Profile,
    }
}

/// A query plan, as messages hold it.
pub open spec fn plan_code(plan: QueryPlanKind) -> proto::QueryPlanKind {
    match plan {
        QueryPlanKind::UnfilteredExactScan => proto::QueryPlanKind::UnfilteredExactScan,
        QueryPlanKind::PredicateFirstExact => proto::QueryPlanKind::PredicateFirstExact,
        QueryPlanKind::VectorFirstExact => proto::QueryPlanKind::VectorFirstExact,
        QueryPlanKind::TinyPopulationExactFallback => {
            proto::QueryPlanKind::TinyPopulationExactFallback
        },
        QueryPlanKind::VectorFirstAnn => proto::QueryPlanKind::VectorFirstAnn,
        QueryPlanKind::CooperativeFilteredAnn => proto::QueryPlanKind::CooperativeFilteredAnn,
        QueryPlanKind::HybridExactAnnMerge => proto::QueryPlanKind::HybridExactAnnMerge,
    }
}

/// Write a query plan into a message.
pub fn query_plan_kind_to_proto(plan: QueryPlanKind) -> (code: proto::QueryPlanKind)
    ensures
        code == plan_code(plan),
{
    match plan {
        QueryPlanKind::UnfilteredExactScan => proto::QueryPlanKind::UnfilteredExactScan,
        QueryPlanKind::PredicateFirstExact => proto::QueryPlanKind::PredicateFirstExact,
        QueryPlanKind::VectorFirstExact => proto::QueryPlanKind::VectorFirstExact,
        QueryPlanKind::TinyPopulationExactFallback => {
            proto::QueryPlanKind::TinyPopulationExactFallback
        },
        QueryPlanKind::VectorFirstAnn => proto::QueryPlanKind::VectorFirstAnn,
        QueryPlanKind::CooperativeFilteredAnn => proto::QueryPlanKind::CooperativeFilteredAnn,
        QueryPlanKind::HybridExactAnnMerge => proto::QueryPlanKind::HybridExactAnnMerge,
    }
}

/// An inspection target, as messages hold it.
pub open spec fn target_code(target: InspectTarget) -> proto::InspectTarget {
    match target {
        InspectTarget::Manifest => proto::InspectTarget::Manifest,
        InspectTarget::Wal => proto::InspectTarget::Wal,
        InspectTarget::Segment(_) => proto::InspectTarget::Segment,
        InspectTarget::Maintenance => proto::InspectTarget::Maintenance,
    }
}

/// Write an inspection target into a message.
pub fn inspect_target_to_proto(target: &InspectTarget) -> (code: proto::InspectTarget)
    ensures
        code == target_code(*target),
{
    match target {
        InspectTarget::Manifest => proto::InspectTarget::Manifest,
        InspectTarget::Wal => proto::InspectTarget::Wal,
        InspectTarget::Segment(_) => proto::InspectTarget::Segment,
        InspectTarget::Maintenance => proto::InspectTarget::Maintenance,
    }
}

/// The segment that an inspection target names, as messages hold it.
pub open spec fn target_segment(target: InspectTarget) -> Seq<char> {
    match target {
        InspectTarget::Segment(segment_id) => segment_id@,
        _ => Seq::empty(),
    }
}

/// Write the segment that an inspection target names into a message.
pub fn inspect_segment_id(target: &InspectTarget) -> (segment_id: String)
    ensures
        segment_id@ == target_segment(*target),
{
    match target {
        InspectTarget::Segment(segment_id) => segment_id.clone(),
        InspectTarget::Manifest => String::new(),
        InspectTarget::Wal => String::new(),
        InspectTarget::Maintenance => String::new(),
    }
}

/// A snapshot, as messages hold it.
pub open spec fn snapshot_message(snapshot: Snapshot) -> proto::Snapshot {
    proto::Snapshot {
        manifest_generation: snapshot.manifest_generation,
        visible_seq_no: snapshot.visible_seq_no,
    }
}

/// The snapshot that a message holds.
pub open spec fn message_snapshot(message: proto::Snapshot) -> Snapshot {
    Snapshot {
        manifest_generation: message.manifest_generation,
        visible_seq_no: message.visible_seq_no,
    }
}

/// An optional snapshot, as messages hold it.
pub open spec fn optional_snapshot_message(snapshot: Option<Snapshot>) -> Option<proto::Snapshot> {
    match snapshot {
        Some(held) => Some(snapshot_message(held)),
        None => None,
    }
}

/// The optional snapshot that a message holds.
pub open spec fn optional_message_snapshot(message: Option<proto::Snapshot>) -> Option<Snapshot> {
    match message {
        Some(held) => Some(message_snapshot(held)),
        None => None,
    }
}

/// Write a snapshot into a message.
pub fn snapshot_to_proto(snapshot: Snapshot) -> (message: proto::Snapshot)
    ensures
        message == snapshot_message(snapshot),
{
    proto::Snapshot {
        manifest_generation: snapshot.manifest_generation,
        visible_seq_no: snapshot.visible_seq_no,
    }
}

/// Read a snapshot from a message.
pub fn snapshot_from_proto(message: proto::Snapshot) -> (snapshot: Snapshot)
    ensures
        snapshot == message_snapshot(message),
{
    Snapshot {
        manifest_generation: message.manifest_generation,
        visible_seq_no: message.visible_seq_no,
    }
}

/// Write an optional snapshot into a message.
pub fn optional_snapshot_to_proto(snapshot: Option<Snapshot>) -> (message: Option<proto::Snapshot>)
    ensures
        message == optional_snapshot_message(snapshot),
{
    match snapshot {
        Some(held) => Some(snapshot_to_proto(held)),
        None => None,
    }
}

/// Read an optional snapshot from a message.
pub fn optional_snapshot_from_proto(message: Option<proto::Snapshot>) -> (snapshot: Option<
    Snapshot,
>)
    ensures
        snapshot == optional_message_snapshot(message),
{
    match message {
        Some(held) => Some(snapshot_from_proto(held)),
        None => None,
    }
}

/// Timings, as messages hold them.
pub open spec fn timings_message(timings: QueryStageTimings) -> proto::QueryStageTimings {
    proto::QueryStageTimings {
        planning_micros: timings.planning_micros,
        prefilter_micros: timings.prefilter_micros,
        candidate_generation_micros: timings.candidate_generation_micros,
        postfilter_micros: timings.postfilter_micros,
        rerank_micros: timings.rerank_micros,
        merge_micros: timings.merge_micros,
    }
}

/// The timings that a message holds.
pub open spec fn message_timings(message: proto::QueryStageTimings) -> QueryStageTimings {
    QueryStageTimings {
        planning_micros: message.planning_micros,
        prefilter_micros: message.prefilter_micros,
        candidate_generation_micros: message.candidate_generation_micros,
        postfilter_micros: message.postfilter_micros,
        rerank_micros: message.rerank_micros,
        merge_micros: message.merge_micros,
    }
}

/// Write timings into a message.
pub fn query_stage_timings_to_proto(timings: QueryStageTimings) -> (message:
    proto::QueryStageTimings)
    ensures
        message == timings_message(timings),
{
    proto::QueryStageTimings {
        planning_micros: timings.planning_micros,
        prefilter_micros: timings.prefilter_micros,
        candidate_generation_micros: timings.candidate_generation_micros,
        postfilter_micros: timings.postfilter_micros,
        rerank_micros: timings.rerank_micros,
        merge_micros: timings.merge_micros,
    }
}

/// Read timings from a message.
pub fn query_stage_timings_from_proto(message: proto::QueryStageTimings) -> (timings:
    QueryStageTimings)
    ensures
        timings == message_timings(message),
{
    QueryStageTimings {
        planning_micros: message.planning_micros,
        prefilter_micros: message.prefilter_micros,
        candidate_generation_micros: message.candidate_generation_micros,
        postfilter_micros: message.postfilter_micros,
        rerank_micros: message.rerank_micros,
        merge_micros: message.merge_micros,
    }
}

/// A named size, as messages hold it.
pub open spec fn size_message(size: NamedSize) -> proto::NamedCount {
    proto::NamedCount { name: size.name, count: size.size as u64 }
}

/// The named size that a message holds.
pub open spec fn message_size(message: proto::NamedCount) -> NamedSize {
    NamedSize { name: message.name, size: message.count as usize }
}

/// Named sizes, as messages hold them.
pub open spec fn size_messages(sizes: Seq<NamedSize>) -> Seq<proto::NamedCount> {
    sizes.map_values(|size: NamedSize| size_message(size))
}

/// The named sizes that the entries of a message hold, one for each.
pub open spec fn entry_sizes(messages: Seq<proto::NamedCount>) -> Seq<NamedSize> {
    messages.map_values(|message: proto::NamedCount| message_size(message))
}

/// The named sizes that a message holds: ordered by name, each name once.
pub open spec fn message_sizes(messages: Seq<proto::NamedCount>) -> Seq<NamedSize> {
    by_name(entry_sizes(messages))
}

/// Write named sizes into a message.
pub fn sizes_to_proto(sizes: Vec<NamedSize>) -> (messages: Vec<proto::NamedCount>)
    ensures
        messages@ == size_messages(sizes@),
{
    let mut messages: Vec<proto::NamedCount> = Vec::new();
    for size in iter: sizes
        invariant
            iter.seq() == sizes@,
            messages@ == size_messages(sizes@.take(iter.index())),
    {
        messages.push(proto::NamedCount { name: size.name, count: size.size as u64 });
        assert(messages@ =~= size_messages(sizes@.take(iter.index() + 1)));
    }
    assert(sizes@.take(sizes@.len() as int) =~= sizes@);
    messages
}

/// Read named sizes from a message.
pub fn sizes_from_proto(messages: Vec<proto::NamedCount>) -> (sizes: Vec<NamedSize>)
    ensures
        sizes@ == message_sizes(messages@),
{
    let mut sizes: Vec<NamedSize> = Vec::new();
    for message in iter: messages
        invariant
            iter.seq() == messages@,
            sizes@ == message_sizes(messages@.take(iter.index())),
    {
        let size = NamedSize { name: message.name, size: message.count as usize };
        proof {
            let longer = messages@.take(iter.index() + 1);
            assert(longer.last() == message);
            assert(entry_sizes(longer).drop_last() =~= entry_sizes(
                messages@.take(iter.index()),
            ));
        }
        place_by_name(&mut sizes, size);
    }
    assert(messages@.take(messages@.len() as int) =~= messages@);
    sizes
}

/// A scalar, as messages hold it; a number that is nothing at all has no message.
pub open spec fn scalar_message(value: ScalarMetadataValue) -> Option<proto::ScalarValue> {
    let kind = match value {
        ScalarMetadataValue::String(held) => Some(proto::ScalarKind::StringValue(held)),
        ScalarMetadataValue::Number(number) => match (
            number.signed,
            number.unsigned,
            number.double_bits,
        ) {
            (Some(held), _, _) => Some(proto::ScalarKind::Int64Value(held)),
            (None, Some(held), _) => Some(proto::ScalarKind::Uint64Value(held)),
            (None, None, Some(bits)) => Some(proto::ScalarKind::DoubleValue(bits)),
            (None, None, None) => None,
        },
        ScalarMetadataValue::Bool(held) => Some(proto::ScalarKind::BoolValue(held)),
        ScalarMetadataValue::Null => Some(proto::ScalarKind::NullValue(true)),
    };
    match kind {
        Some(held) => Some(proto::ScalarValue { kind: Some(held) }),
        None => None,
    }
}

/// Write a scalar into a message, where there is one for it.
pub fn scalar_to_wire(value: ScalarMetadataValue) -> (message: Option<proto::ScalarValue>)
    ensures
        message == scalar_message(value),
{
    let kind = match value {
        ScalarMetadataValue::String(held) => proto::ScalarKind::StringValue(held),
        ScalarMetadataValue::Number(number) => {
            if let Some(held) = number.signed {
                proto::ScalarKind::Int64Value(held)
            } else if let Some(held) = number.unsigned {
                proto::ScalarKind::Uint64Value(held)
            } else if let Some(bits) = number.double_bits {
                proto::ScalarKind::DoubleValue(bits)
            } else {
                return None;
            }
        },
        ScalarMetadataValue::Bool(held) => proto::ScalarKind::BoolValue(held),
        ScalarMetadataValue::Null => proto::ScalarKind::NullValue(true),
    };
    Some(proto::ScalarValue { kind: Some(kind) })
}

/// The scalar that a message holds; an infinite number is none.
pub open spec fn kind_scalar(kind: proto::ScalarKind) -> Option<ScalarMetadataValue> {
    match kind {
        proto::ScalarKind::StringValue(held) => Some(ScalarMetadataValue::String(held)),
        proto::ScalarKind::Int64Value(held) => Some(
            ScalarMetadataValue::Number(signed_number(held)),
        ),
        proto::ScalarKind::Uint64Value(held) => Some(
            ScalarMetadataValue::Number(unsigned_number(held)),
        ),
        proto::ScalarKind::DoubleValue(bits) => match double_number(bits) {
            Some(number) => Some(ScalarMetadataValue::Number(number)),
            None => None,
        },
        proto::ScalarKind::BoolValue(held) => Some(ScalarMetadataValue::Bool(held)),
        proto::ScalarKind::NullValue(_) => Some(ScalarMetadataValue::Null),
    }
}

/// Read a scalar from a message, where it holds one.
pub fn scalar_from_wire(kind: proto::ScalarKind) -> (value: Option<ScalarMetadataValue>)
    ensures
        value == kind_scalar(kind),
{
    match kind {
        proto::ScalarKind::StringValue(held) => Some(ScalarMetadataValue::String(held)),
        proto::ScalarKind::Int64Value(held) => Some(
            ScalarMetadataValue::Number(number_from_signed(held)),
        ),
        proto::ScalarKind::Uint64Value(held) => Some(
            ScalarMetadataValue::Number(number_from_unsigned(held)),
        ),
        proto::ScalarKind::DoubleValue(bits) => match number_from_double(bits) {
            Some(number) => Some(ScalarMetadataValue::Number(number)),
            None => None,
        },
        proto::ScalarKind::BoolValue(held) => Some(ScalarMetadataValue::Bool(held)),
        proto::ScalarKind::NullValue(_) => Some(ScalarMetadataValue::Null),
    }
}

/// A binding, as messages hold it.
pub open spec fn binding_message(binding: DatabaseRoleBinding) -> proto::DatabaseRoleBindingReply {
    proto::DatabaseRoleBindingReply {
        database_name: binding.database_name,
        principal_name: binding.principal_name,
        role: database_role_code(binding.role),
    }
}

/// Bindings, as messages hold them.
pub open spec fn binding_messages(bindings: Seq<DatabaseRoleBinding>) -> Seq<
    proto::DatabaseRoleBindingReply,
> {
    bindings.map_values(|binding: DatabaseRoleBinding| binding_message(binding))
}

/// Write a binding into a message.
pub fn database_role_binding_to_proto(binding: DatabaseRoleBinding) -> (message:
    proto::DatabaseRoleBindingReply)
    ensures
        message == binding_message(binding),
{
    proto::DatabaseRoleBindingReply {
        database_name: binding.database_name,
        principal_name: binding.principal_name,
        role: database_role_to_proto(binding.role),
    }
}

/// Write bindings into a message.
pub fn bindings_to_proto(bindings: Vec<DatabaseRoleBinding>) -> (messages: Vec<
    proto::DatabaseRoleBindingReply,
>)
    ensures
        messages@ == binding_messages(bindings@),
{
    let mut messages: Vec<proto::DatabaseRoleBindingReply> = Vec::new();
    for binding in iter: bindings
        invariant
            iter.seq() == bindings@,
            messages@ == binding_messages(bindings@.take(iter.index())),
    {
        messages.push(database_role_binding_to_proto(binding));
        assert(messages@ =~= binding_messages(bindings@.take(iter.index() + 1)));
    }
    assert(bindings@.take(bindings@.len() as int) =~= bindings@);
    messages
}

/// A snapshot comes through a message unchanged.
pub proof fn law_snapshots_come_through(snapshot: Snapshot)
    ensures
        message_snapshot(snapshot_message(snapshot)) == snapshot,
{
}

/// Timings come through a message unchanged.
pub proof fn law_timings_come_through(timings: QueryStageTimings)
    ensures
        message_timings(timings_message(timings)) == timings,
{
}

/// Named sizes that are ordered by name come through a message unchanged.
pub proof fn law_sizes_come_through(sizes: Seq<NamedSize>)
    requires
        names_ascend(names_of(sizes)),
    ensures
        message_sizes(size_messages(sizes)) == sizes,
{
    assert(entry_sizes(size_messages(sizes)) =~= sizes);
    law_ordered_entries_stay(sizes);
}

/// A scalar that a JSON document can hold has a message, and comes through it unchanged.
pub proof fn law_scalars_come_through(value: ScalarMetadataValue)
    requires
        value matches ScalarMetadataValue::Number(number) ==> is_json_number(number),
    ensures
        scalar_message(value) matches Some(message) && message.kind matches Some(kind)
            && kind_scalar(kind) == Some(value),
{
}

/// Each metric, node role, authentication mode and database role is written into a message as the
/// one of the same name.
pub proof fn law_names_are_written()
    ensures
        metric_code(DistanceMetric::Cosine) == proto::DistanceMetric::Cosine,
        metric_code(DistanceMetric::Dot) == proto::DistanceMetric::Dot,
        metric_code(DistanceMetric::L2) == proto::DistanceMetric::L2,
        node_role_code(NodeRole::Combined) == proto::NodeRole::Combined,
        node_role_code(NodeRole::Control) == proto::NodeRole::Control,
        node_role_code(NodeRole::Data) == proto::NodeRole::Data,
        authentication_mode_code(AuthenticationMode::Disabled) == proto::AuthenticationMode::Disabled,
        authentication_mode_code(AuthenticationMode::Password) == proto::AuthenticationMode::Password,
        authentication_mode_code(AuthenticationMode::MutualTls) == proto::AuthenticationMode::MutualTls,
        authentication_mode_code(AuthenticationMode::ExternalToken) == proto::AuthenticationMode::ExternalToken,
        database_role_code(DatabaseRole::Owner) == proto::DatabaseRole::Owner,
        database_role_code(DatabaseRole::ReadWrite) == proto::DatabaseRole::ReadWrite,
        database_role_code(DatabaseRole::ReadOnly) == proto::DatabaseRole::ReadOnly,
{
}

/// Each operator, explain mode and query plan is written into a message as the one of the same name.
pub proof fn law_query_names_are_written()
    ensures
        operator_code(PredicateOperator::Eq) == proto::PredicateOperator::Eq,
        operator_code(PredicateOperator::Ne) == proto::PredicateOperator::Ne,
        operator_code(PredicateOperator::Lt) == proto::PredicateOperator::Lt,
        operator_code(PredicateOperator::Lte) == proto::PredicateOperator::Lte,
        operator_code(PredicateOperator::Gt) == proto::PredicateOperator::Gt,
        operator_code(PredicateOperator::Gte) == proto::PredicateOperator::Gte,
        operator_code(PredicateOperator::Exists) == proto::PredicateOperator::Exists,
        operator_code(PredicateOperator::IsNull) == proto::PredicateOperator::IsNull,
        explain_code(ExplainMode::Off) == proto::ExplainMode::Off,
        explain_code(ExplainMode::Plan) == proto::ExplainMode::Plan,
        explain_code(ExplainMode::Profile) == proto::ExplainMode::Profile,
        plan_code(QueryPlanKind::UnfilteredExactScan) == proto::QueryPlanKind::UnfilteredExactScan,
        plan_code(QueryPlanKind::PredicateFirstExact) == proto::QueryPlanKind::PredicateFirstExact,
        plan_code(QueryPlanKind::VectorFirstExact) == proto::QueryPlanKind::VectorFirstExact,
        plan_code(QueryPlanKind::TinyPopulationExactFallback) == proto::QueryPlanKind::TinyPopulationExactFallback,
        plan_code(QueryPlanKind::VectorFirstAnn) == proto::QueryPlanKind::VectorFirstAnn,
        plan_code(QueryPlanKind::CooperativeFilteredAnn) == proto::QueryPlanKind::CooperativeFilteredAnn,
        plan_code(QueryPlanKind::HybridExactAnnMerge) == proto::QueryPlanKind::HybridExactAnnMerge,
{
}

/// Each inspection target is written into a message as the one of the same name, with the segment
/// that it names and no other.
pub proof fn law_targets_are_written(segment_id: String)
    ensures
        target_code(InspectTarget::Manifest) == proto::InspectTarget::Manifest,
        target_code(InspectTarget::Wal) == proto::InspectTarget::Wal,
        target_code(InspectTarget::Segment(segment_id)) == proto::InspectTarget::Segment,
        target_code(InspectTarget::Maintenance) == proto::InspectTarget::Maintenance,
        target_segment(InspectTarget::Manifest) == Seq::<char>::empty(),
        target_segment(InspectTarget::Wal) == Seq::<char>::empty(),
        target_segment(InspectTarget::Segment(segment_id)) == segment_id@,
        target_segment(InspectTarget::Maintenance) == Seq::<char>::empty(),
{
}

/// Each part of a snapshot and each stage of a query's timings stands in a message, and is read from
/// it, under its own name.
pub proof fn law_parts_keep_their_names(
    snapshot: Snapshot,
    held: proto::Snapshot,
    timings: QueryStageTimings,
    measured: proto::QueryStageTimings,
)
    ensures
        snapshot_message(snapshot).manifest_generation == snapshot.manifest_generation,
        snapshot_message(snapshot).visible_seq_no == snapshot.visible_seq_no,
        message_snapshot(held).manifest_generation == held.manifest_generation,
        message_snapshot(held).visible_seq_no == held.visible_seq_no,
        optional_snapshot_message(None) is None,
        optional_snapshot_message(Some(snapshot)) == Some(snapshot_message(snapshot)),
        optional_message_snapshot(None) is None,
        optional_message_snapshot(Some(held)) == Some(message_snapshot(held)),
        timings_message(timings).planning_micros == timings.planning_micros,
        timings_message(timings).prefilter_micros == timings.prefilter_micros,
        timings_message(timings).candidate_generation_micros
            == timings.candidate_generation_micros,
        timings_message(timings).postfilter_micros == timings.postfilter_micros,
        timings_message(timings).rerank_micros == timings.rerank_micros,
        timings_message(timings).merge_micros == timings.merge_micros,
        message_timings(measured).planning_micros == measured.planning_micros,
        message_timings(measured).prefilter_micros == measured.prefilter_micros,
        message_timings(measured).candidate_generation_micros
            == measured.candidate_generation_micros,
        message_timings(measured).postfilter_micros == measured.postfilter_micros,
        message_timings(measured).rerank_micros == measured.rerank_micros,
        message_timings(measured).merge_micros == measured.merge_micros,
{
}

/// A scalar is written into a message as what it is: a text as a text, a number as a signed integer
/// where it is one, else as an unsigned one where it is one, else as a double, and so on.
pub proof fn law_scalars_are_written(text: String, truth: bool, number: crate::json::JsonNumber)
    ensures
        scalar_message(ScalarMetadataValue::String(text)) == Some(
            (proto::ScalarValue { kind: Some(proto::ScalarKind::StringValue(text)) }),
        ),
        scalar_message(ScalarMetadataValue::Bool(truth)) == Some(
            (proto::ScalarValue { kind: Some(proto::ScalarKind::BoolValue(truth)) }),
        ),
        scalar_message(ScalarMetadataValue::Null) == Some(
            (proto::ScalarValue { kind: Some(proto::ScalarKind::NullValue(true)) }),
        ),
        number.signed matches Some(held) ==> scalar_message(ScalarMetadataValue::Number(number))
            == Some((proto::ScalarValue { kind: Some(proto::ScalarKind::Int64Value(held)) })),
        number.signed is None ==> (number.unsigned matches Some(held) ==> scalar_message(
            ScalarMetadataValue::Number(number),
        ) == Some((proto::ScalarValue { kind: Some(proto::ScalarKind::Uint64Value(held)) }))),
        number.signed is None && number.unsigned is None ==> (number.double_bits matches Some(bits)
            ==> scalar_message(ScalarMetadataValue::Number(number)) == Some(
            (proto::ScalarValue { kind: Some(proto::ScalarKind::DoubleValue(bits)) }),
        )),
        number.signed is None && number.unsigned is None && number.double_bits is None
            ==> scalar_message(ScalarMetadataValue::Number(number)) is None,
{
}

/// A scalar is read from a message as what it is there.
pub proof fn law_scalars_are_read(
    text: String,
    truth: bool,
    signed: i64,
    unsigned: u64,
    bits: u64,
)
    ensures
        kind_scalar(proto::ScalarKind::StringValue(text)) == Some(
            ScalarMetadataValue::String(text),
        ),
        kind_scalar(proto::ScalarKind::BoolValue(truth)) == Some(ScalarMetadataValue::Bool(truth)),
        kind_scalar(proto::ScalarKind::NullValue(truth)) == Some(ScalarMetadataValue::Null),
        kind_scalar(proto::ScalarKind::Int64Value(signed)) matches Some(
            ScalarMetadataValue::Number(number),
        ) && number.signed == Some(signed) && number.unsigned == (if signed >= 0 {
            Some(signed as u64)
        } else {
            None
        }),
        kind_scalar(proto::ScalarKind::Uint64Value(unsigned)) matches Some(
            ScalarMetadataValue::Number(number),
        ) && number.unsigned == Some(unsigned) && number.signed == (if unsigned <= i64::MAX {
            Some(unsigned as i64)
        } else {
            None
        }),
        match kind_scalar(proto::ScalarKind::DoubleValue(bits)) {
            Some(ScalarMetadataValue::Number(number)) => bits % 0x8000_0000_0000_0000
                < 0x7ff0_0000_0000_0000 && number.double_bits == Some(bits) && number.signed is None
                && number.unsigned is None,
            Some(_) => false,
            None => bits % 0x8000_0000_0000_0000 >= 0x7ff0_0000_0000_0000,
        },
{
}

/// A named size and a role binding stand in a message as they are, and the entries of a list one for
/// one, in their order.
pub proof fn law_entries_stand_as_they_are(
    sizes: Seq<NamedSize>,
    counts: Seq<proto::NamedCount>,
    bindings: Seq<DatabaseRoleBinding>,
    i: int,
)
    ensures
        size_messages(sizes).len() == sizes.len(),
        0 <= i < sizes.len() ==> size_messages(sizes)[i].name == sizes[i].name
            && size_messages(sizes)[i].count == sizes[i].size as u64,
        entry_sizes(counts).len() == counts.len(),
        0 <= i < counts.len() ==> entry_sizes(counts)[i].name == counts[i].name
            && entry_sizes(counts)[i].size == counts[i].count as usize,
        binding_messages(bindings).len() == bindings.len(),
        0 <= i < bindings.len() ==> {
            let message = binding_messages(bindings)[i];
            let binding = bindings[i];
            &&& message.database_name == binding.database_name
            &&& message.principal_name == binding.principal_name
            &&& message.role == proto::DatabaseRole::Owner <==> binding.role == DatabaseRole::Owner
            &&& message.role == proto::DatabaseRole::ReadWrite <==> binding.role
                == DatabaseRole::ReadWrite
            &&& message.role == proto::DatabaseRole::ReadOnly <==> binding.role
                == DatabaseRole::ReadOnly
        },
{
}

} // verus!
