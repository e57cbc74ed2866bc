//! What gRPC requests ask for.

use super::predicates::{
    filters_from_proto, predicate_from_proto, request_filters, request_predicate,
};
use super::status::{bad_request, invalid_argument, rpc_outcome, RpcCode, RpcStatus, RpcStatusModel};
use crate::auth::{
    AuthenticationMode, DatabaseAccessPolicy, DatabaseRole, DatabaseRoleBinding,
    ScopedAccessPolicy,
};
use crate::catalog::DatabaseDescriptor;
use crate::domain::{
    operations_model, CreateCollectionRequest, DeleteRecord, InspectTarget, OperationModel,
    PutRecord, WriteOperation,
};
use crate::json::{json_notation, normalize_json, text_outcome};
use crate::namespace::{database_or_default, default_database_if_blank};
use crate::proto;
use crate::query::{ExplainMode, MetadataFilter, Predicate, PredicateModel, QueryRequest};
use crate::text::{is_empty_text, signed_decimal, signed_text};
use crate::types::DistanceMetric;
use crate::wire::{
    database_role_code, metric_code, optional_message_snapshot, optional_snapshot_from_proto,
};
use vstd::prelude::*;
use vstd::string::*;

verus! {

/// The database that a request speaks of: the default one where it names none.
pub fn normalize_database_name(database_name: &str) -> (name: String)
    ensures
        name@ == database_or_default(database_name@),
{
    default_database_if_blank(database_name.to_owned())
}

/// The key of the collection that a request speaks of.
pub open spec fn lookup_key(database_name: Seq<char>, collection_name: Seq<char>) -> Seq<char> {
    database_or_default(database_name) + "/"@ + collection_name
}

/// The key of the collection that a request speaks of.
pub fn collection_lookup_key(database_name: &str, collection_name: &str) -> (key: String)
    ensures
        key@ == lookup_key(database_name@, collection_name@),
{
    let mut key = normalize_database_name(database_name);
    key.append("/");
    key.append(collection_name);
    key
}

/// The metric that a request holds.
pub open spec fn request_metric(metric: proto::DistanceMetric) -> Result<
    DistanceMetric,
    RpcStatusModel,
> {
    match metric {
        proto::DistanceMetric::Cosine => Ok(DistanceMetric::Cosine),
        proto::DistanceMetric::Dot => Ok(DistanceMetric::Dot),
        proto::DistanceMetric::L2 => Ok(DistanceMetric::L2),
        _ => Err(bad_request("distance metric must be set"@)),
    }
}

/// Read a metric from a request.
pub fn metric_from_proto(metric: proto::DistanceMetric) -> (outcome: Result<
    DistanceMetric,
    RpcStatus,
>)
    ensures
        rpc_outcome(outcome) == request_metric(metric),
{
    match metric {
        proto::DistanceMetric::Cosine => Ok(DistanceMetric::Cosine),
        proto::DistanceMetric::Dot => Ok(DistanceMetric::Dot),
        proto::DistanceMetric::L2 => Ok(DistanceMetric::L2),
        proto::DistanceMetric::Unspecified => Err(invalid_argument("distance metric must be set")),
        proto::DistanceMetric::Unknown(_) => Err(invalid_argument("distance metric must be set")),
    }
}

/// Whether a collection that is to be created is the one that a request asks for.
pub open spec fn creation_asked(
    request: proto::CreateCollectionRequest,
    created: CreateCollectionRequest,
) -> bool {
    &&& created.database_name@ == database_or_default(request.database_name@)
    &&& created.name == request.name
    &&& created.dimensions == request.dimensions as usize
    &&& request_metric(request.metric) == Ok::<DistanceMetric, RpcStatusModel>(created.metric)
}

/// Read the collection that is to be created from a request.
pub fn create_request_from_proto(request: proto::CreateCollectionRequest) -> (outcome: Result<
    CreateCollectionRequest,
    RpcStatus,
>)
    ensures
        match request_metric(request.metric) {
            Err(fault) => outcome matches Err(status) && status@ == fault,
            Ok(_) => outcome matches Ok(created) && creation_asked(request, created),
        },
{
    match metric_from_proto(request.metric) {
        Err(status) => Err(status),
        Ok(metric) => Ok(
            CreateCollectionRequest::in_database(
                normalize_database_name(&request.database_name),
                request.name,
                request.dimensions as usize,
                metric,
            ),
        ),
    }
}

/// The operation that a request holds, or why it holds none, where `metadata` is what
/// `serde_json` makes of the metadata of a put.
pub open spec fn operation_asked(
    operation: Option<OperationModel>,
    metadata: Result<Seq<char>, Seq<char>>,
) -> Result<OperationModel, RpcStatusModel> {
    match operation {
        Some(OperationModel::Put { id, vector, .. }) => if id.len() == 0 {
            Err(bad_request("put operation record id must not be empty"@))
        } else {
            match metadata {
                Err(error) => Err(bad_request("invalid metadata_json: "@ + error)),
                Ok(metadata) => Ok(OperationModel::Put { id, vector, metadata }),
            }
        },
        Some(OperationModel::Delete { id }) => if id.len() == 0 {
            Err(bad_request("delete operation record id must not be empty"@))
        } else {
            Ok(OperationModel::Delete { id })
        },
        None => Err(bad_request("write operation must include put or delete"@)),
    }
}

/// What `serde_json` makes of the metadata of an operation; that of a put alone matters.
pub open spec fn operation_metadata(operation: Option<OperationModel>) -> Result<
    Seq<char>,
    Seq<char>,
> {
    match operation {
        Some(OperationModel::Put { metadata, .. }) => json_notation(metadata),
        _ => Ok(Seq::empty()),
    }
}

/// The operation that a request holds.
pub open spec fn request_operation(operation: Option<OperationModel>) -> Result<
    OperationModel,
    RpcStatusModel,
> {
    operation_asked(operation, operation_metadata(operation))
}

/// An outcome of reading an operation, by its models.
pub open spec fn operation_outcome(outcome: Result<WriteOperation, RpcStatus>) -> Result<
    OperationModel,
    RpcStatusModel,
> {
    match outcome {
        Ok(operation) => Ok(operation@),
        Err(status) => Err(status@),
    }
}

/// Read an operation from a request, where `metadata` is what `serde_json` makes of the metadata
/// of a put.
pub fn operation_with_metadata(
    operation: proto::WriteOperation,
    metadata: Result<String, String>,
) -> (outcome: Result<WriteOperation, RpcStatus>)
    ensures
        operation_outcome(outcome) == operation_asked(operation@, text_outcome(metadata)),
{
    match operation.operation {
        Some(proto::Operation::Put(put)) => {
            if is_empty_text(&put.id) {
                return Err(invalid_argument("put operation record id must not be empty"));
            }
            match metadata {
                Err(error) => {
                    let mut message = "invalid metadata_json: ".to_owned();
                    message.append(&error);
                    Err(RpcStatus { code: RpcCode::InvalidArgument, message })
                },
                Ok(metadata_json) => Ok(
                    WriteOperation::Put(
                        PutRecord { id: put.id, vector: put.vector, metadata_json },
                    ),
                ),
            }
        },
        Some(proto::Operation::Delete(delete)) => {
            if is_empty_text(&delete.id) {
                return Err(invalid_argument("delete operation record id must not be empty"));
            }
            Ok(WriteOperation::Delete(DeleteRecord { id: delete.id }))
        },
        None => Err(invalid_argument("write operation must include put or delete")),
    }
}

/// Read an operation from a request.
pub fn write_operation_from_proto(operation: proto::WriteOperation) -> (outcome: Result<
    WriteOperation,
    RpcStatus,
>)
    ensures
        operation_outcome(outcome) == request_operation(operation@),
{
    let metadata = match &operation.operation {
        Some(proto::Operation::Put(put)) => normalize_json(&put.metadata_json),
        _ => Ok(String::new()),
    };
    operation_with_metadata(operation, metadata)
}

/// The first `count` operations of a request, or what is wrong with the earliest faulty one.
pub open spec fn request_operations(
    operations: Seq<Option<OperationModel>>,
    count: nat,
) -> Result<Seq<OperationModel>, RpcStatusModel>
    decreases count,
{
    if count == 0 {
        Ok(Seq::empty())
    } else {
        match request_operations(operations, (count - 1) as nat) {
            Err(status) => Err(status),
            Ok(earlier) => match request_operation(operations[count - 1]) {
                Err(status) => Err(status),
                Ok(operation) => Ok(earlier.push(operation)),
            },
        }
    }
}

proof fn lemma_operation_fault_stays(
    operations: Seq<Option<OperationModel>>,
    early: nat,
    late: nat,
)
    requires
        early <= late,
        request_operations(operations, early) is Err,
    ensures
        request_operations(operations, late) == request_operations(operations, early),
    decreases late,
{
    if early < late {
        lemma_operation_fault_stays(operations, early, (late - 1) as nat);
    }
}

/// Read a write batch from a request.
pub fn write_operations_from_proto(operations: Vec<proto::WriteOperation>) -> (outcome: Result<
    Vec<WriteOperation>,
    RpcStatus,
>)
    ensures
        match outcome {
            Ok(read) => request_operations(
                proto::operations_model(operations@),
                operations@.len(),
            ) == Ok::<Seq<OperationModel>, RpcStatusModel>(operations_model(read@)),
            Err(status) => request_operations(
                proto::operations_model(operations@),
                operations@.len(),
            ) == Err::<Seq<OperationModel>, RpcStatusModel>(status@),
        },
{
    let mut read: Vec<WriteOperation> = Vec::new();
    let ghost asked = proto::operations_model(operations@);
    assert(operations_model(read@) =~= Seq::empty());
    for operation in iter: operations
        invariant
            iter.seq() == operations@,
            asked == proto::operations_model(operations@),
            request_operations(asked, iter.index() as nat) == Ok::<
                Seq<OperationModel>,
                RpcStatusModel,
            >(operations_model(read@)),
    {
        let ghost index = iter.index();
        let ghost before = read@;
        assert(asked[index] == operation@);
        match write_operation_from_proto(operation) {
            Err(status) => {
                proof {
                    lemma_operation_fault_stays(asked, (index + 1) as nat, operations@.len());
                }
                return Err(status);
            },
            Ok(value) => {
                read.push(value);
                assert(operations_model(read@) =~= operations_model(before).push(value@));
            },
        }
    }
    Ok(read)
}

/// The explain mode that a request holds.
pub open spec fn request_explain(mode: proto::ExplainMode) -> Result<ExplainMode, RpcStatusModel> {
    match mode {
        proto::ExplainMode::Off => Ok(ExplainMode::Off),
        proto::ExplainMode::Plan => Ok(ExplainMode::Plan),
        proto::ExplainMode::Profile => Ok(ExplainMode::Profile),
        proto::ExplainMode::Unknown(_) => Err(
            bad_request("explain mode must be a valid enum value"@),
        ),
    }
}

/// Read an explain mode from a request.
pub fn explain_mode_from_proto(mode: proto::ExplainMode) -> (outcome: Result<ExplainMode, RpcStatus>)
    ensures
        rpc_outcome(outcome) == request_explain(mode),
{
    match mode {
        proto::ExplainMode::Off => Ok(ExplainMode::Off),
        proto::ExplainMode::Plan => Ok(ExplainMode::Plan),
        proto::ExplainMode::Profile => Ok(ExplainMode::Profile),
        proto::ExplainMode::Unknown(_) => Err(
            invalid_argument("explain mode must be a valid enum value"),
        ),
    }
}

/// The optional condition that a request holds.
pub open spec fn request_optional_predicate(predicate: Option<proto::Predicate>) -> Result<
    Option<PredicateModel>,
    RpcStatusModel,
> {
    match predicate {
        None => Ok(None),
        Some(held) => match request_predicate(held) {
            Ok(read) => Ok(Some(read)),
            Err(status) => Err(status),
        },
    }
}

/// What is wrong with a query, if anything: its size, its filters, its condition and its explain
/// mode are looked at in that order.
pub open spec fn query_fault(request: proto::QueryCollectionRequest) -> Option<RpcStatusModel> {
    if request.top_k == 0 {
        Some(bad_request("top_k must be greater than 0"@))
    } else {
        match request_filters(request.filters@, request.filters@.len()) {
            Err(status) => Some(status),
            Ok(_) => match request_optional_predicate(request.predicate) {
                Err(status) => Some(status),
                Ok(_) => match request_explain(request.explain) {
                    Err(status) => Some(status),
                    Ok(_) => None,
                },
            },
        }
    }
}

/// An optional condition, as its model.
pub open spec fn optional_predicate(predicate: Option<Predicate>) -> Option<PredicateModel> {
    match predicate {
        Some(held) => Some(held@),
        None => None,
    }
}

/// Whether a query is what a request asks for.
pub open spec fn query_asked(
    request: proto::QueryCollectionRequest,
    query: QueryRequest,
) -> bool {
    &&& query.collection_name@ == lookup_key(request.database_name@, request.collection_name@)
    &&& query.vector == request.vector
    &&& query.top_k == request.top_k as usize
    &&& query.snapshot == optional_message_snapshot(request.snapshot)
    &&& query.read_barrier is None
    &&& request_filters(request.filters@, request.filters@.len()) == Ok::<
        Seq<MetadataFilter>,
        RpcStatusModel,
    >(query.filters@)
    &&& request_optional_predicate(request.predicate) == Ok::<
        Option<PredicateModel>,
        RpcStatusModel,
    >(optional_predicate(query.predicate))
    &&& request_explain(request.explain) == Ok::<ExplainMode, RpcStatusModel>(query.explain)
}

/// Read a query from a request.
pub fn query_request_from_proto(request: proto::QueryCollectionRequest) -> (outcome: Result<
    QueryRequest,
    RpcStatus,
>)
    ensures
        match query_fault(request) {
            Some(fault) => outcome matches Err(status) && status@ == fault,
            None => outcome matches Ok(query) && query_asked(request, query),
        },
{
    let collection_name = collection_lookup_key(&request.database_name, &request.collection_name);
    if request.top_k == 0 {
        return Err(invalid_argument("top_k must be greater than 0"));
    }
    let filters = match filters_from_proto(request.filters) {
        Err(status) => {
            return Err(status);
        },
        Ok(filters) => filters,
    };
    let predicate = match request.predicate {
        None => None,
        Some(held) => match predicate_from_proto(held) {
            Err(status) => {
                return Err(status);
            },
            Ok(predicate) => Some(predicate),
        },
    };
    let explain = match explain_mode_from_proto(request.explain) {
        Err(status) => {
            return Err(status);
        },
        Ok(explain) => explain,
    };
    Ok(
        QueryRequest {
            collection_name,
            vector: request.vector,
            top_k: request.top_k as usize,
            snapshot: optional_snapshot_from_proto(request.snapshot),
            read_barrier: None,
            filters,
            predicate,
            explain,
        },
    )
}

/// The inspection target that a request holds.
pub open spec fn request_target(target: proto::InspectTarget, segment_id: String) -> Result<
    InspectTarget,
    RpcStatusModel,
> {
    match target {
        proto::InspectTarget::Manifest => Ok(InspectTarget::Manifest),
        proto::InspectTarget::Wal => Ok(InspectTarget::Wal),
        proto::InspectTarget::Segment => if segment_id@.len() == 0 {
            Err(bad_request("segment_id is required when inspect target is SEGMENT"@))
        } else {
            Ok(InspectTarget::Segment(segment_id))
        },
        proto::InspectTarget::Maintenance => Ok(InspectTarget::Maintenance),
        proto::InspectTarget::Unknown(number) => Err(
            bad_request("unsupported inspect target '"@ + signed_decimal(number as int) + "'"@),
        ),
    }
}

fn unsupported(what: &str, number: i32) -> (status: RpcStatus)
    ensures
        status@ == bad_request(what@ + signed_decimal(number as int) + "'"@),
{
    let mut message = what.to_owned();
    message.append(&signed_text(number));
    message.append("'");
    RpcStatus { code: RpcCode::InvalidArgument, message }
}

/// Read an inspection target from a request.
pub fn inspect_target_from_proto(target: proto::InspectTarget, segment_id: String) -> (outcome:
    Result<InspectTarget, RpcStatus>)
    ensures
        rpc_outcome(outcome) == request_target(target, segment_id),
{
    match target {
        proto::InspectTarget::Manifest => Ok(InspectTarget::Manifest),
        proto::InspectTarget::Wal => Ok(InspectTarget::Wal),
        proto::InspectTarget::Segment => if is_empty_text(&segment_id) {
            Err(invalid_argument("segment_id is required when inspect target is SEGMENT"))
        } else {
            Ok(InspectTarget::Segment(segment_id))
        },
        proto::InspectTarget::Maintenance => Ok(InspectTarget::Maintenance),
        proto::InspectTarget::Unknown(number) => Err(
            unsupported("unsupported inspect target '", number),
        ),
    }
}

/// The descriptor of a database that a request holds.
pub open spec fn request_database(descriptor: Option<proto::DatabaseDescriptorReply>) -> Result<
    DatabaseDescriptor,
    RpcStatusModel,
> {
    match descriptor {
        None => Err(bad_request("database descriptor payload is required"@)),
        Some(held) => match held.database_id {
            proto::WireId::Unparsed { text, error } => Err(
                bad_request("invalid database_id: "@ + error@),
            ),
            proto::WireId::Parsed(database_id) => Ok(
                DatabaseDescriptor { database_id, name: held.name, is_default: held.is_default },
            ),
        },
    }
}

/// Read the descriptor of a database from a request.
pub fn database_descriptor_from_proto(descriptor: Option<proto::DatabaseDescriptorReply>) -> (
outcome: Result<DatabaseDescriptor, RpcStatus>)
    ensures
        rpc_outcome(outcome) == request_database(descriptor),
{
    match descriptor {
        None => Err(invalid_argument("database descriptor payload is required")),
        Some(held) => match held.database_id {
            proto::WireId::Unparsed { text: _, error } => {
                let mut message = "invalid database_id: ".to_owned();
                message.append(&error);
                Err(RpcStatus { code: RpcCode::InvalidArgument, message })
            },
            proto::WireId::Parsed(database_id) => Ok(
                DatabaseDescriptor { database_id, name: held.name, is_default: held.is_default },
            ),
        },
    }
}

/// The authentication mode that a request holds.
pub open spec fn request_mode(mode: proto::AuthenticationMode) -> Result<
    AuthenticationMode,
    RpcStatusModel,
> {
    match mode {
        proto::AuthenticationMode::Disabled => Ok(AuthenticationMode::Disabled),
        proto::AuthenticationMode::Password => Ok(AuthenticationMode::Password),
        proto::AuthenticationMode::MutualTls => Ok(AuthenticationMode::MutualTls),
        proto::AuthenticationMode::ExternalToken => Ok(AuthenticationMode::ExternalToken),
        proto::AuthenticationMode::Unspecified => Err(
            bad_request("authentication mode is required"@),
        ),
        proto::AuthenticationMode::Unknown(number) => Err(
            bad_request("unsupported authentication mode '"@ + signed_decimal(number as int) + "'"@),
        ),
    }
}

/// Read an authentication mode from a request.
pub fn authentication_mode_from_proto(mode: proto::AuthenticationMode) -> (outcome: Result<
    AuthenticationMode,
    RpcStatus,
>)
    ensures
        rpc_outcome(outcome) == request_mode(mode),
{
    match mode {
        proto::AuthenticationMode::Disabled => Ok(AuthenticationMode::Disabled),
        proto::AuthenticationMode::Password => Ok(AuthenticationMode::Password),
        proto::AuthenticationMode::MutualTls => Ok(AuthenticationMode::MutualTls),
        proto::AuthenticationMode::ExternalToken => Ok(AuthenticationMode::ExternalToken),
        proto::AuthenticationMode::Unspecified => Err(
            invalid_argument("authentication mode is required"),
        ),
        proto::AuthenticationMode::Unknown(number) => Err(
            unsupported("unsupported authentication mode '", number),
        ),
    }
}

/// The role in a database that a request holds.
pub open spec fn request_role(role: proto::DatabaseRole) -> Result<DatabaseRole, RpcStatusModel> {
    match role {
        proto::DatabaseRole::Owner => Ok(DatabaseRole::Owner),
        proto::DatabaseRole::ReadWrite => Ok(DatabaseRole::ReadWrite),
        proto::DatabaseRole::ReadOnly => Ok(DatabaseRole::ReadOnly),
        proto::DatabaseRole::Unspecified => Err(bad_request("database role is required"@)),
        proto::DatabaseRole::Unknown(number) => Err(
            bad_request("unsupported database role '"@ + signed_decimal(number as int) + "'"@),
        ),
    }
}

/// Read a role in a database from a request.
pub fn database_role_from_proto(role: proto::DatabaseRole) -> (outcome: Result<
    DatabaseRole,
    RpcStatus,
>)
    ensures
        rpc_outcome(outcome) == request_role(role),
{
    match role {
        proto::DatabaseRole::Owner => Ok(DatabaseRole::Owner),
        proto::DatabaseRole::ReadWrite => Ok(DatabaseRole::ReadWrite),
        proto::DatabaseRole::ReadOnly => Ok(DatabaseRole::ReadOnly),
        proto::DatabaseRole::Unspecified => Err(invalid_argument("database role is required")),
        proto::DatabaseRole::Unknown(number) => Err(
            unsupported("unsupported database role '", number),
        ),
    }
}

/// Whether a binding is what a request holds.
pub open spec fn binding_asked(
    message: proto::DatabaseRoleBindingReply,
    binding: DatabaseRoleBinding,
) -> bool {
    &&& binding.database_name@ == database_or_default(message.database_name@)
    &&& binding.principal_name == message.principal_name
    &&& request_role(message.role) == Ok::<DatabaseRole, RpcStatusModel>(binding.role)
}

/// Read a binding from a request.
pub fn database_role_binding_from_proto(binding: proto::DatabaseRoleBindingReply) -> (outcome:
    Result<DatabaseRoleBinding, RpcStatus>)
    ensures
        match request_role(binding.role) {
            Err(fault) => outcome matches Err(status) && status@ == fault,
            Ok(_) => outcome matches Ok(read) && binding_asked(binding, read),
        },
{
    match database_role_from_proto(binding.role) {
        Err(status) => Err(status),
        Ok(role) => Ok(
            DatabaseRoleBinding {
                database_name: normalize_database_name(&binding.database_name),
                principal_name: binding.principal_name,
                role,
            },
        ),
    }
}

/// What is wrong with the earliest faulty binding among the first `count`.
pub open spec fn bindings_fault(
    bindings: Seq<proto::DatabaseRoleBindingReply>,
    count: nat,
) -> Option<RpcStatusModel>
    decreases count,
{
    if count == 0 {
        None
    } else {
        match bindings_fault(bindings, (count - 1) as nat) {
            Some(fault) => Some(fault),
            None => match request_role(bindings[count - 1].role) {
                Err(fault) => Some(fault),
                Ok(_) => None,
            },
        }
    }
}

proof fn lemma_bindings_fault_stays(
    bindings: Seq<proto::DatabaseRoleBindingReply>,
    early: nat,
    late: nat,
)
    requires
        early <= late,
        bindings_fault(bindings, early) is Some,
    ensures
        bindings_fault(bindings, late) == bindings_fault(bindings, early),
    decreases late,
{
    if early < late {
        lemma_bindings_fault_stays(bindings, early, (late - 1) as nat);
    }
}

/// Whether bindings are what a request holds.
pub open spec fn bindings_asked(
    messages: Seq<proto::DatabaseRoleBindingReply>,
    bindings: Seq<DatabaseRoleBinding>,
) -> bool {
    &&& bindings.len() == messages.len()
    &&& forall|i: int|
        0 <= i < bindings.len() ==> binding_asked(messages[i], #[trigger] bindings[i])
}

fn bindings_from_proto(bindings: Vec<proto::DatabaseRoleBindingReply>) -> (outcome: Result<
    Vec<DatabaseRoleBinding>,
    RpcStatus,
>)
    ensures
        match bindings_fault(bindings@, bindings@.len()) {
            Some(fault) => outcome matches Err(status) && status@ == fault,
            None => outcome matches Ok(read) && bindings_asked(bindings@, read@),
        },
{
    let mut read: Vec<DatabaseRoleBinding> = Vec::new();
    for binding in iter: bindings
        invariant
            iter.seq() == bindings@,
            bindings_fault(bindings@, iter.index() as nat) is None,
            read@.len() == iter.index(),
            forall|i: int| 0 <= i < read@.len() ==> binding_asked(bindings@[i], #[trigger] read@[i]),
    {
        let ghost index = iter.index();
        match database_role_binding_from_proto(binding) {
            Err(status) => {
                proof {
                    lemma_bindings_fault_stays(bindings@, (index + 1) as nat, bindings@.len());
                }
                return Err(status);
            },
            Ok(value) => {
                read.push(value);
            },
        }
    }
    Ok(read)
}

/// What is wrong with a policy that a request holds, if anything.
pub open spec fn policy_fault(policy: Option<proto::DatabaseAccessPolicyReply>) -> Option<
    RpcStatusModel,
> {
    match policy {
        None => Some(bad_request("database policy payload is required"@)),
        Some(held) => match request_mode(held.authentication_mode) {
            Err(fault) => Some(fault),
            Ok(_) => bindings_fault(held.role_bindings@, held.role_bindings@.len()),
        },
    }
}

/// Whether a policy is what a request holds.
pub open spec fn policy_asked(
    message: proto::DatabaseAccessPolicyReply,
    scoped: ScopedAccessPolicy,
) -> bool {
    &&& scoped.database_name@ == database_or_default(message.database_name@)
    &&& request_mode(message.authentication_mode) == Ok::<AuthenticationMode, RpcStatusModel>(
        scoped.policy.authentication_mode,
    )
    &&& bindings_asked(message.role_bindings@, scoped.policy.role_bindings@)
}

/// Read a policy from a request.
pub fn database_access_policy_from_proto(policy: Option<proto::DatabaseAccessPolicyReply>) -> (
outcome: Result<ScopedAccessPolicy, RpcStatus>)
    ensures
        match policy_fault(policy) {
            Some(fault) => outcome matches Err(status) && status@ == fault,
            None => policy matches Some(held) && outcome matches Ok(scoped) && policy_asked(
                held,
                scoped,
            ),
        },
{
    let held = match policy {
        None => {
            return Err(invalid_argument("database policy payload is required"));
        },
        Some(held) => held,
    };
    let database_name = normalize_database_name(&held.database_name);
    let authentication_mode = match authentication_mode_from_proto(held.authentication_mode) {
        Err(status) => {
            return Err(status);
        },
        Ok(mode) => mode,
    };
    match bindings_from_proto(held.role_bindings) {
        Err(status) => Err(status),
        Ok(role_bindings) => Ok(
            ScopedAccessPolicy {
                database_name,
                policy: DatabaseAccessPolicy { authentication_mode, role_bindings },
            },
        ),
    }
}

/// The lookup key of a request names a database even where the request does not, and asking again
/// with the database filled in gives the same key.
pub proof fn law_lookup_keys_settle(database_name: Seq<char>, collection_name: Seq<char>)
    ensures
        lookup_key(database_or_default(database_name), collection_name) == lookup_key(
            database_name,
            collection_name,
        ),
{
    crate::namespace::law_default_database_settles(database_name);
}

/// Every metric and every database role is read from a request as it was written.
pub proof fn law_request_codes_come_through(metric: DistanceMetric, role: DatabaseRole)
    ensures
        request_metric(metric_code(metric)) == Ok::<DistanceMetric, RpcStatusModel>(metric),
        request_role(database_role_code(role)) == Ok::<DatabaseRole, RpcStatusModel>(role),
{
}

/// Each metric, authentication mode, database role and explain mode of a request is read as the one
/// of the same name.
pub proof fn law_request_names_are_read()
    ensures
        request_metric(proto::DistanceMetric::Cosine) == Ok::<DistanceMetric, RpcStatusModel>(DistanceMetric::Cosine),
        request_metric(proto::DistanceMetric::Dot) == Ok::<DistanceMetric, RpcStatusModel>(DistanceMetric::Dot),
        request_metric(proto::DistanceMetric::L2) == Ok::<DistanceMetric, RpcStatusModel>(DistanceMetric::L2),
        request_mode(proto::AuthenticationMode::Disabled) == Ok::<AuthenticationMode, RpcStatusModel>(AuthenticationMode::Disabled),
        request_mode(proto::AuthenticationMode::Password) == Ok::<AuthenticationMode, RpcStatusModel>(AuthenticationMode::Password),
        request_mode(proto::AuthenticationMode::MutualTls) == Ok::<AuthenticationMode, RpcStatusModel>(AuthenticationMode::MutualTls),
        request_mode(proto::AuthenticationMode::ExternalToken) == Ok::<AuthenticationMode, RpcStatusModel>(AuthenticationMode::ExternalToken),
        request_role(proto::DatabaseRole::Owner) == Ok::<DatabaseRole, RpcStatusModel>(DatabaseRole::Owner),
        request_role(proto::DatabaseRole::ReadWrite) == Ok::<DatabaseRole, RpcStatusModel>(DatabaseRole::ReadWrite),
        request_role(proto::DatabaseRole::ReadOnly) == Ok::<DatabaseRole, RpcStatusModel>(DatabaseRole::ReadOnly),
        request_explain(proto::ExplainMode::Off) == Ok::<ExplainMode, RpcStatusModel>(ExplainMode::Off),
        request_explain(proto::ExplainMode::Plan) == Ok::<ExplainMode, RpcStatusModel>(ExplainMode::Plan),
        request_explain(proto::ExplainMode::Profile) == Ok::<ExplainMode, RpcStatusModel>(ExplainMode::Profile),
{
}

/// A request whose metric, authentication mode, database role or explain mode is not set, or not
/// known, is refused as a bad one; an explain mode has no unset form.
pub proof fn law_unset_names_are_refused(number: i32)
    ensures
        request_metric(proto::DistanceMetric::Unspecified) == Err::<DistanceMetric, RpcStatusModel>(
            RpcStatusModel {
                code: RpcCode::InvalidArgument,
                message: "distance metric must be set"@,
            },
        ),
        request_metric(proto::DistanceMetric::Unknown(number)) is Err,
        request_mode(proto::AuthenticationMode::Unspecified) == Err::<
            AuthenticationMode,
            RpcStatusModel,
        >(
            RpcStatusModel {
                code: RpcCode::InvalidArgument,
                message: "authentication mode is required"@,
            },
        ),
        request_mode(proto::AuthenticationMode::Unknown(number)) is Err,
        request_role(proto::DatabaseRole::Unspecified) == Err::<DatabaseRole, RpcStatusModel>(
            RpcStatusModel {
                code: RpcCode::InvalidArgument,
                message: "database role is required"@,
            },
        ),
        request_role(proto::DatabaseRole::Unknown(number)) is Err,
        request_explain(proto::ExplainMode::Unknown(number)) is Err,
{
}

/// Each inspection target of a request is read as the one of the same name; one of a segment has to
/// name it.
pub proof fn law_targets_are_read(segment_id: String, number: i32)
    ensures
        request_target(proto::InspectTarget::Manifest, segment_id) == Ok::<
            InspectTarget,
            RpcStatusModel,
        >(InspectTarget::Manifest),
        request_target(proto::InspectTarget::Wal, segment_id) == Ok::<InspectTarget, RpcStatusModel>(
            InspectTarget::Wal,
        ),
        request_target(proto::InspectTarget::Maintenance, segment_id) == Ok::<
            InspectTarget,
            RpcStatusModel,
        >(InspectTarget::Maintenance),
        segment_id@.len() > 0 ==> request_target(proto::InspectTarget::Segment, segment_id) == Ok::<
            InspectTarget,
            RpcStatusModel,
        >(InspectTarget::Segment(segment_id)),
        segment_id@.len() == 0 ==> request_target(proto::InspectTarget::Segment, segment_id) is Err,
        request_target(proto::InspectTarget::Unknown(number), segment_id) is Err,
{
}

/// Where a collection that is to be created is the one that a request asks for, each part of it
/// stands under its own name.
pub proof fn law_creation_asked_by_part(
    request: proto::CreateCollectionRequest,
    created: CreateCollectionRequest,
)
    ensures
        creation_asked(request, created) ==> {
            &&& created.database_name@ == database_or_default(request.database_name@)
            &&& created.name == request.name
            &&& created.dimensions == request.dimensions as usize
            &&& request_metric(request.metric) == Ok::<DistanceMetric, RpcStatusModel>(created.metric)
        },
{
}

/// Where a query is what a request asks for, each part of it stands under its own name.
pub proof fn law_query_asked_by_part(request: proto::QueryCollectionRequest, query: QueryRequest)
    ensures
        query_asked(request, query) ==> {
            &&& query.collection_name@ == lookup_key(request.database_name@, request.collection_name@)
            &&& query.vector == request.vector
            &&& query.top_k == request.top_k as usize
            &&& query.snapshot == optional_message_snapshot(request.snapshot)
            &&& query.read_barrier is None
            &&& request_filters(request.filters@, request.filters@.len()) == Ok::<
        Seq<MetadataFilter>,
        RpcStatusModel,
    >(query.filters@)
            &&& request_optional_predicate(request.predicate) == Ok::<
        Option<PredicateModel>,
        RpcStatusModel,
    >(optional_predicate(query.predicate))
            &&& request_explain(request.explain) == Ok::<ExplainMode, RpcStatusModel>(query.explain)
        },
{
}

/// Where a binding is what a request holds, each part of it stands under its own name.
pub proof fn law_binding_asked_by_part(
    message: proto::DatabaseRoleBindingReply,
    binding: DatabaseRoleBinding,
)
    ensures
        binding_asked(message, binding) ==> {
            &&& binding.database_name@ == database_or_default(message.database_name@)
            &&& binding.principal_name == message.principal_name
            &&& request_role(message.role) == Ok::<DatabaseRole, RpcStatusModel>(binding.role)
        },
{
}

/// Where a policy is what a request holds, each part of it stands under its own name.
pub proof fn law_policy_asked_by_part(
    message: proto::DatabaseAccessPolicyReply,
    scoped: ScopedAccessPolicy,
)
    ensures
        policy_asked(message, scoped) ==> {
            &&& scoped.database_name@ == database_or_default(message.database_name@)
            &&& request_mode(message.authentication_mode) == Ok::<AuthenticationMode, RpcStatusModel>(
        scoped.policy.authentication_mode,
    )
            &&& bindings_asked(message.role_bindings@, scoped.policy.role_bindings@)
        },
{
}

/// A put is read as a put and a delete as a delete, each of the record and with the vector that it
/// names; what names no record, or is neither, is refused.
pub proof fn law_operations_are_read(
    id: Seq<char>,
    vector: Seq<u32>,
    metadata: Seq<char>,
    notation: Seq<char>,
)
    ensures
        id.len() > 0 ==> operation_asked(
            Some(OperationModel::Put { id, vector, metadata }),
            Ok::<Seq<char>, Seq<char>>(notation),
        ) == Ok::<OperationModel, RpcStatusModel>(
            OperationModel::Put { id, vector, metadata: notation },
        ),
        id.len() > 0 ==> operation_asked(
            Some(OperationModel::Delete { id }),
            Ok::<Seq<char>, Seq<char>>(notation),
        ) == Ok::<OperationModel, RpcStatusModel>(OperationModel::Delete { id }),
        id.len() == 0 ==> operation_asked(
            Some(OperationModel::Put { id, vector, metadata }),
            Ok::<Seq<char>, Seq<char>>(notation),
        ) is Err,
        id.len() == 0 ==> operation_asked(
            Some(OperationModel::Delete { id }),
            Ok::<Seq<char>, Seq<char>>(notation),
        ) is Err,
        operation_asked(None, Ok::<Seq<char>, Seq<char>>(notation)) is Err,
        operation_asked(
            Some(OperationModel::Put { id, vector, metadata }),
            Err::<Seq<char>, Seq<char>>(notation),
        ) is Err,
        operation_metadata(Some(OperationModel::Put { id, vector, metadata })) == json_notation(
            metadata,
        ),
{
}

/// Operations are read one for one, in their order, and are refused together where one of them is.
pub proof fn law_operation_lists_are_read_in_order(
    operations: Seq<Option<OperationModel>>,
    count: nat,
)
    requires
        count <= operations.len(),
    ensures
        match request_operations(operations, count) {
            Ok(read) => read.len() == count && forall|i: int|
                0 <= i < count ==> request_operation(operations[i]) == Ok::<
                    OperationModel,
                    RpcStatusModel,
                >(#[trigger] read[i]),
            Err(status) => exists|i: int|
                0 <= i < count && #[trigger] request_operation(operations[i]) == Err::<
                    OperationModel,
                    RpcStatusModel,
                >(status),
        },
    decreases count,
{
    if count > 0 {
        law_operation_lists_are_read_in_order(operations, (count - 1) as nat);
        let last = request_operation(operations[count - 1]);
    }
}

/// A query is accepted exactly when it asks for a record at least and its filters, its condition and
/// its explain mode can be read.
pub proof fn law_queries_are_accepted(request: proto::QueryCollectionRequest)
    ensures
        query_fault(request) is None <==> request.top_k > 0 && request_filters(
            request.filters@,
            request.filters@.len(),
        ) is Ok && (request.predicate matches Some(held) ==> request_predicate(held) is Ok)
            && request.explain !is Unknown,
{
}

proof fn lemma_bindings_fault_iff(bindings: Seq<proto::DatabaseRoleBindingReply>, count: nat)
    requires
        count <= bindings.len(),
    ensures
        bindings_fault(bindings, count) is None <==> forall|i: int|
            0 <= i < count ==> (#[trigger] bindings[i]).role !is Unspecified
                && bindings[i].role !is Unknown,
    decreases count,
{
    if count > 0 {
        lemma_bindings_fault_iff(bindings, (count - 1) as nat);
        if bindings_fault(bindings, count) is None {
            assert forall|i: int| 0 <= i < count implies (#[trigger] bindings[i]).role !is Unspecified
                && bindings[i].role !is Unknown by {
                if i < count - 1 {
                    assert(bindings[i].role !is Unspecified);
                }
            }
        }
    }
}

/// A policy is accepted exactly when it is there, its authentication mode is set and known, and so is
/// the role of each of its bindings.
pub proof fn law_policies_are_accepted(policy: Option<proto::DatabaseAccessPolicyReply>)
    ensures
        policy_fault(policy) is None <==> policy is Some
            && policy->0.authentication_mode !is Unspecified
            && policy->0.authentication_mode !is Unknown && forall|i: int|
            0 <= i < policy->0.role_bindings@.len() ==> (
            #[trigger] policy->0.role_bindings@[i]).role !is Unspecified
                && policy->0.role_bindings@[i].role !is Unknown,
{
    if let Some(held) = policy {
        lemma_bindings_fault_iff(held.role_bindings@, held.role_bindings@.len());
    }
}

/// The descriptor of a database is accepted exactly when it is there and its identifier parses, and
/// is then read part by part.
pub proof fn law_databases_are_accepted(descriptor: Option<proto::DatabaseDescriptorReply>)
    ensures
        request_database(descriptor) is Ok <==> descriptor is Some
            && descriptor->0.database_id is Parsed,
        request_database(descriptor) matches Ok(read) ==> descriptor->0.database_id
            == proto::WireId::Parsed(read.database_id) && read.name == descriptor->0.name
            && read.is_default == descriptor->0.is_default,
{
}

/// The key of a collection is the name of the database, or of the default one where that is blank,
/// one slash, and the name of the collection.
pub proof fn law_lookup_keys_join_names_by_a_slash(
    database_name: Seq<char>,
    collection_name: Seq<char>,
)
    ensures
        ({
            let database = if crate::text::is_blank(database_name) {
                "default"@
            } else {
                database_name
            };
            let key = lookup_key(database_name, collection_name);
            &&& key.len() == database.len() + 1 + collection_name.len()
            &&& key.take(database.len() as int) == database
            &&& key[database.len() as int] == '/'
            &&& key.skip((database.len() + 1) as int) == collection_name
        }),
{
    reveal_strlit("/");
    let database = database_or_default(database_name);
    let key = lookup_key(database_name, collection_name);
    assert(key.take(database.len() as int) =~= database);
    assert(key.skip((database.len() + 1) as int) =~= collection_name);
}

/// A query for nothing is refused before anything else is looked at.
pub proof fn law_empty_queries_are_named(request: proto::QueryCollectionRequest)
    requires
        request.top_k == 0,
    ensures
        query_fault(request) == Some(
            (RpcStatusModel {
                code: RpcCode::InvalidArgument,
                message: "top_k must be greater than 0"@,
            }),
        ),
{
}

} // verus!
