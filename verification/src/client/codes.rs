//! Enumerations and scalars as replies hold them.

use super::error::{
    client_outcome, invalid_response, unknown_code, unknown_number, unusable, ClientError,
    ClientErrorModel,
};
use crate::auth::{AuthenticationMode, DatabaseRole};
use crate::proto;
use crate::query::QueryPlanKind;
use crate::scalar::ScalarMetadataValue;
use crate::types::{DistanceMetric, NodeRole};
use crate::wire::{
    authentication_mode_code, database_role_code, kind_scalar, metric_code, node_role_code,
    plan_code, scalar_from_wire,
};
use vstd::prelude::*;

verus! {

/// The role of a node that a reply holds.
pub open spec fn reply_node_role(role: proto::NodeRole) -> Result<NodeRole, ClientErrorModel> {
    match role {
        proto::NodeRole::Unspecified => Err(unusable("node role must be set"@)),
        proto::NodeRole::Combined => Ok(NodeRole::Combined),
        proto::NodeRole::Control => Ok(NodeRole::Control),
        proto::NodeRole::Data => Ok(NodeRole::Data),
        proto::NodeRole::Unknown(number) => Err(unknown_number("node role"@, number)),
    }
}

/// Read the role of a node from a reply.
pub fn node_role_from_proto(role: proto::NodeRole) -> (outcome: Result<NodeRole, ClientError>)
    ensures
        client_outcome(outcome) == reply_node_role(role),
{
    match role {
        proto::NodeRole::Unspecified => Err(invalid_response("node role must be set")),
        proto::NodeRole::Combined => Ok(NodeRole::Combined),
        proto::NodeRole::Control => Ok(NodeRole::Control),
        proto::NodeRole::Data => Ok(NodeRole::Data),
        proto::NodeRole::Unknown(number) => Err(unknown_code("node role", number)),
    }
}

/// The authentication mode that a reply holds.
pub open spec fn reply_mode(mode: proto::AuthenticationMode) -> Result<
    AuthenticationMode,
    ClientErrorModel,
> {
    match mode {
        proto::AuthenticationMode::Disabled => Ok(AuthenticationMode::Disabled),
        proto::AuthenticationMode::Password => Ok(AuthenticationMode::Password),
        proto::AuthenticationMode::MutualTls => Ok(AuthenticationMode::MutualTls),
        proto::AuthenticationMode::ExternalToken => Ok(AuthenticationMode::ExternalToken),
        proto::AuthenticationMode::Unspecified => Err(
            unusable("authentication mode must be set"@),
        ),
        proto::AuthenticationMode::Unknown(number) => Err(
            unknown_number("authentication mode"@, number),
        ),
    }
}

/// Read an authentication mode from a reply.
pub fn authentication_mode_from_proto(mode: proto::AuthenticationMode) -> (outcome: Result<
    AuthenticationMode,
    ClientError,
>)
    ensures
        client_outcome(outcome) == reply_mode(mode),
{
    match mode {
        proto::AuthenticationMode::Disabled => Ok(AuthenticationMode::Disabled),
        proto::AuthenticationMode::Password => Ok(AuthenticationMode::Password),
        proto::AuthenticationMode::MutualTls => Ok(AuthenticationMode::MutualTls),
        proto::AuthenticationMode::ExternalToken => Ok(AuthenticationMode::ExternalToken),
        proto::AuthenticationMode::Unspecified => Err(
            invalid_response("authentication mode must be set"),
        ),
        proto::AuthenticationMode::Unknown(number) => Err(
            unknown_code("authentication mode", number),
        ),
    }
}

/// The role in a database that a reply holds.
pub open spec fn reply_database_role(role: proto::DatabaseRole) -> Result<
    DatabaseRole,
    ClientErrorModel,
> {
    match role {
        proto::DatabaseRole::Owner => Ok(DatabaseRole::Owner),
        proto::DatabaseRole::ReadWrite => Ok(DatabaseRole::ReadWrite),
        proto::DatabaseRole::ReadOnly => Ok(DatabaseRole::ReadOnly),
        proto::DatabaseRole::Unspecified => Err(unusable("database role must be set"@)),
        proto::DatabaseRole::Unknown(number) => Err(unknown_number("database role"@, number)),
    }
}

/// Read a role in a database from a reply.
pub fn database_role_from_proto(role: proto::DatabaseRole) -> (outcome: Result<
    DatabaseRole,
    ClientError,
>)
    ensures
        client_outcome(outcome) == reply_database_role(role),
{
    match role {
        proto::DatabaseRole::Owner => Ok(DatabaseRole::Owner),
        proto::DatabaseRole::ReadWrite => Ok(DatabaseRole::ReadWrite),
        proto::DatabaseRole::ReadOnly => Ok(DatabaseRole::ReadOnly),
        proto::DatabaseRole::Unspecified => Err(invalid_response("database role must be set")),
        proto::DatabaseRole::Unknown(number) => Err(unknown_code("database role", number)),
    }
}

/// The metric that a reply holds.
pub open spec fn reply_metric(metric: proto::DistanceMetric) -> Result<
    DistanceMetric,
    ClientErrorModel,
> {
    match metric {
        proto::DistanceMetric::Cosine => Ok(DistanceMetric::Cosine),
        proto::DistanceMetric::Dot => Ok(DistanceMetric::Dot),
        proto::DistanceMetric::L2 => Ok(DistanceMetric::L2),
        proto::DistanceMetric::Unspecified => Err(unusable("distance metric must be set"@)),
        proto::DistanceMetric::Unknown(number) => Err(unknown_number("distance metric"@, number)),
    }
}

/// Read a metric from a reply.
pub fn metric_from_proto(metric: proto::DistanceMetric) -> (outcome: Result<
    DistanceMetric,
    ClientError,
>)
    ensures
        client_outcome(outcome) == reply_metric(metric),
{
    match metric {
        proto::DistanceMetric::Cosine => Ok(DistanceMetric::Cosine),
        proto::DistanceMetric::Dot => Ok(DistanceMetric::Dot),
        proto::DistanceMetric::L2 => Ok(DistanceMetric::L2),
        proto::DistanceMetric::Unspecified => Err(invalid_response("distance metric must be set")),
        proto::DistanceMetric::Unknown(number) => Err(unknown_code("distance metric", number)),
    }
}

/// The query plan that a reply holds.
pub open spec fn reply_plan(kind: proto::QueryPlanKind) -> Result<QueryPlanKind, ClientErrorModel> {
    match kind {
        proto::QueryPlanKind::Unspecified => Err(unusable("query plan kind must be set"@)),
        proto::QueryPlanKind::UnfilteredExactScan => Ok(QueryPlanKind::UnfilteredExactScan),
        proto::QueryPlanKind::PredicateFirstExact => Ok(QueryPlanKind::PredicateFirstExact),
        proto::QueryPlanKind::VectorFirstExact => Ok(QueryPlanKind::VectorFirstExact),
        proto::QueryPlanKind::TinyPopulationExactFallback => Ok(
            QueryPlanKind::TinyPopulationExactFallback,
        ),
        proto::QueryPlanKind::VectorFirstAnn => Ok(QueryPlanKind::VectorFirstAnn),
        proto::QueryPlanKind::CooperativeFilteredAnn => Ok(QueryPlanKind::CooperativeFilteredAnn),
        proto::QueryPlanKind::HybridExactAnnMerge => Ok(QueryPlanKind::HybridExactAnnMerge),
        proto::QueryPlanKind::Unknown(number) => Err(unknown_number("query plan kind"@, number)),
    }
}

/// Read a query plan from a reply.
pub fn query_plan_kind_from_proto(kind: proto::QueryPlanKind) -> (outcome: Result<
    QueryPlanKind,
    ClientError,
>)
    ensures
        client_outcome(outcome) == reply_plan(kind),
{
    match kind {
        proto::QueryPlanKind::Unspecified => Err(invalid_response("query plan kind must be set")),
        proto::QueryPlanKind::UnfilteredExactScan => Ok(QueryPlanKind::UnfilteredExactScan),
        proto::QueryPlanKind::PredicateFirstExact => Ok(QueryPlanKind::PredicateFirstExact),
        proto::QueryPlanKind::VectorFirstExact => Ok(QueryPlanKind::VectorFirstExact),
        proto::QueryPlanKind::TinyPopulationExactFallback => Ok(
            QueryPlanKind::TinyPopulationExactFallback,
        ),
        proto::QueryPlanKind::VectorFirstAnn => Ok(QueryPlanKind::VectorFirstAnn),
        proto::QueryPlanKind::CooperativeFilteredAnn => Ok(QueryPlanKind::CooperativeFilteredAnn),
        proto::QueryPlanKind::HybridExactAnnMerge => Ok(QueryPlanKind::HybridExactAnnMerge),
        proto::QueryPlanKind::Unknown(number) => Err(unknown_code("query plan kind", number)),
    }
}

/// The scalar that a reply holds.
pub open spec fn reply_scalar(value: proto::ScalarValue) -> Result<
    ScalarMetadataValue,
    ClientErrorModel,
> {
    match value.kind {
        None => Err(unusable("scalar value kind is required"@)),
        Some(kind) => match kind_scalar(kind) {
            Some(scalar) => Ok(scalar),
            None => Err(unusable("numeric scalar value must be finite"@)),
        },
    }
}

/// Read a scalar from a reply.
pub fn scalar_value_from_proto(value: proto::ScalarValue) -> (outcome: Result<
    ScalarMetadataValue,
    ClientError,
>)
    ensures
        client_outcome(outcome) == reply_scalar(value),
{
    match value.kind {
        None => Err(invalid_response("scalar value kind is required")),
        Some(kind) => match scalar_from_wire(kind) {
            Some(scalar) => Ok(scalar),
            None => Err(invalid_response("numeric scalar value must be finite")),
        },
    }
}

/// The optional scalar that a reply holds.
pub open spec fn reply_optional_scalar(value: Option<proto::ScalarValue>) -> Result<
    Option<ScalarMetadataValue>,
    ClientErrorModel,
> {
    match value {
        None => Ok(None),
        Some(held) => match reply_scalar(held) {
            Ok(scalar) => Ok(Some(scalar)),
            Err(error) => Err(error),
        },
    }
}

pub(crate) fn optional_scalar_from_proto(value: Option<proto::ScalarValue>) -> (outcome: Result<
    Option<ScalarMetadataValue>,
    ClientError,
>)
    ensures
        client_outcome(outcome) == reply_optional_scalar(value),
{
    match value {
        None => Ok(None),
        Some(held) => match scalar_value_from_proto(held) {
            Ok(scalar) => Ok(Some(scalar)),
            Err(error) => Err(error),
        },
    }
}

/// Every enumeration is read from a reply as it was written.
pub proof fn law_reply_codes_come_through(
    metric: DistanceMetric,
    node_role: NodeRole,
    mode: AuthenticationMode,
    database_role: DatabaseRole,
    plan: QueryPlanKind,
)
    ensures
        reply_metric(metric_code(metric)) == Ok::<DistanceMetric, ClientErrorModel>(metric),
        reply_node_role(node_role_code(node_role)) == Ok::<NodeRole, ClientErrorModel>(node_role),
        reply_mode(authentication_mode_code(mode)) == Ok::<AuthenticationMode, ClientErrorModel>(
            mode,
        ),
        reply_database_role(database_role_code(database_role)) == Ok::<
            DatabaseRole,
            ClientErrorModel,
        >(database_role),
        reply_plan(plan_code(plan)) == Ok::<QueryPlanKind, ClientErrorModel>(plan),
{
}

/// Each metric, node role, authentication mode and database role of a reply is read as the one of
/// the same name.
pub proof fn law_reply_names_are_read()
    ensures
        reply_metric(proto::DistanceMetric::Cosine) == Ok::<DistanceMetric, ClientErrorModel>(DistanceMetric::Cosine),
        reply_metric(proto::DistanceMetric::Dot) == Ok::<DistanceMetric, ClientErrorModel>(DistanceMetric::Dot),
        reply_metric(proto::DistanceMetric::L2) == Ok::<DistanceMetric, ClientErrorModel>(DistanceMetric::L2),
        reply_node_role(proto::NodeRole::Combined) == Ok::<NodeRole, ClientErrorModel>(NodeRole::Combined),
        reply_node_role(proto::NodeRole::Control) == Ok::<NodeRole, ClientErrorModel>(NodeRole::Control),
        reply_node_role(proto::NodeRole::Data) == Ok::<NodeRole, ClientErrorModel>(NodeRole::Data),
        reply_mode(proto::AuthenticationMode::Disabled) == Ok::<AuthenticationMode, ClientErrorModel>(AuthenticationMode::Disabled),
        reply_mode(proto::AuthenticationMode::Password) == Ok::<AuthenticationMode, ClientErrorModel>(AuthenticationMode::Password),
        reply_mode(proto::AuthenticationMode::MutualTls) == Ok::<AuthenticationMode, ClientErrorModel>(AuthenticationMode::MutualTls),
        reply_mode(proto::AuthenticationMode::ExternalToken) == Ok::<AuthenticationMode, ClientErrorModel>(AuthenticationMode::ExternalToken),
        reply_database_role(proto::DatabaseRole::Owner) == Ok::<DatabaseRole, ClientErrorModel>(DatabaseRole::Owner),
        reply_database_role(proto::DatabaseRole::ReadWrite) == Ok::<DatabaseRole, ClientErrorModel>(DatabaseRole::ReadWrite),
        reply_database_role(proto::DatabaseRole::ReadOnly) == Ok::<DatabaseRole, ClientErrorModel>(DatabaseRole::ReadOnly),
{
}

/// Each query plan of a reply is read as the one of the same name.
pub proof fn law_reply_plans_are_read()
    ensures
        reply_plan(proto::QueryPlanKind::UnfilteredExactScan) == Ok::<QueryPlanKind, ClientErrorModel>(QueryPlanKind::UnfilteredExactScan),
        reply_plan(proto::QueryPlanKind::PredicateFirstExact) == Ok::<QueryPlanKind, ClientErrorModel>(QueryPlanKind::PredicateFirstExact),
        reply_plan(proto::QueryPlanKind::VectorFirstExact) == Ok::<QueryPlanKind, ClientErrorModel>(QueryPlanKind::VectorFirstExact),
        reply_plan(proto::QueryPlanKind::TinyPopulationExactFallback) == Ok::<QueryPlanKind, ClientErrorModel>(QueryPlanKind::TinyPopulationExactFallback),
        reply_plan(proto::QueryPlanKind::VectorFirstAnn) == Ok::<QueryPlanKind, ClientErrorModel>(QueryPlanKind::VectorFirstAnn),
        reply_plan(proto::QueryPlanKind::CooperativeFilteredAnn) == Ok::<QueryPlanKind, ClientErrorModel>(QueryPlanKind::CooperativeFilteredAnn),
        reply_plan(proto::QueryPlanKind::HybridExactAnnMerge) == Ok::<QueryPlanKind, ClientErrorModel>(QueryPlanKind::HybridExactAnnMerge),
{
}

/// A reply whose metric, node role, authentication mode, database role or query plan is not set, or
/// not known, is not taken.
pub proof fn law_unset_replies_are_refused(number: i32)
    ensures
        reply_metric(proto::DistanceMetric::Unspecified) is Err,
        reply_metric(proto::DistanceMetric::Unknown(number)) is Err,
        reply_node_role(proto::NodeRole::Unspecified) is Err,
        reply_node_role(proto::NodeRole::Unknown(number)) is Err,
        reply_mode(proto::AuthenticationMode::Unspecified) is Err,
        reply_mode(proto::AuthenticationMode::Unknown(number)) is Err,
        reply_database_role(proto::DatabaseRole::Unspecified) is Err,
        reply_database_role(proto::DatabaseRole::Unknown(number)) is Err,
        reply_plan(proto::QueryPlanKind::Unspecified) is Err,
        reply_plan(proto::QueryPlanKind::Unknown(number)) is Err,
{
}

} // verus!
