//! REST surface of the server: what requests ask for, and how failures are reported.

use crate::access::{outcome_model, RequestAuth};
use crate::auth::ScopedAccessPolicy;
use crate::catalog::DatabaseDescriptor;
use crate::domain::{CreateCollectionRequest, InspectTarget, Snapshot, WriteOperation};
use crate::headers::{authorization, authorization_auth, optional_bytes, AuthorizationFault};
use crate::json::{JsonField, JsonModel};
use crate::namespace::{
    database_or_default, default_database_if_blank, CollectionRef, CollectionRefModel,
};
use crate::query::{ExplainMode, MetadataFilter, Predicate, QueryRequest};
use crate::scalar::{scalar_of_json, ScalarMetadataValue, ScalarModel};
use crate::text::{is_empty_text, same_text};
use crate::types::{
    default_database, default_database_name, DistanceMetric, ServiceError, ServiceErrorKind,
    ServiceErrorModel,
};
use crate::workflow::invalid;
use vstd::prelude::*;
use vstd::string::*;

verus! {

/// The HTTP status that a class of service failures is reported with.
pub open spec fn status_code(kind: ServiceErrorKind) -> u16 {
    match kind {
        ServiceErrorKind::AlreadyExists => 409,
        ServiceErrorKind::NotFound => 404,
        ServiceErrorKind::InvalidArgument => 400,
        ServiceErrorKind::Unauthenticated => 401,
        ServiceErrorKind::PermissionDenied => 403,
        ServiceErrorKind::FailedPrecondition => 412,
        ServiceErrorKind::Internal => 500,
    }
}

/// A failed REST call: its HTTP status and what its body says.
#[derive(Debug, PartialEq, Eq)]
pub struct ApiFailure {
    /// HTTP status.
    pub status: u16,
    /// What went wrong.
    pub error: String,
}

/// Report a service failure: its message stands as it is.
pub fn failure_from_service_error(error: ServiceError) -> (failure: ApiFailure)
    ensures
        failure.status == status_code(error@.kind),
        failure.error@ == error@.message,
{
    let (kind, message) = error.into_parts();
    let status: u16 = match kind {
        ServiceErrorKind::AlreadyExists => 409,
        ServiceErrorKind::NotFound => 404,
        ServiceErrorKind::InvalidArgument => 400,
        ServiceErrorKind::Unauthenticated => 401,
        ServiceErrorKind::PermissionDenied => 403,
        ServiceErrorKind::FailedPrecondition => 412,
        ServiceErrorKind::Internal => 500,
    };
    ApiFailure { status, error: message }
}

/// Service failures of different classes are reported with different statuses.
pub proof fn law_statuses_tell_failures_apart(left: ServiceErrorKind, right: ServiceErrorKind)
    ensures
        status_code(left) == status_code(right) <==> left == right,
{
}

/// How a REST request with an unusable authorization is refused.
pub open spec fn authorization_refusal(fault: AuthorizationFault) -> ServiceErrorModel {
    ServiceErrorModel {
        kind: ServiceErrorKind::Unauthenticated,
        message: match fault {
            AuthorizationFault::NotAscii => "authorization header must be valid ASCII"@,
            AuthorizationFault::NotBearer => "authorization header must use the Bearer scheme"@,
        },
    }
}

/// Read who makes a REST request from the value of its `authorization` header.
pub fn request_auth_from_headers(raw: Option<&[u8]>) -> (outcome: Result<RequestAuth, ServiceError>)
    ensures
        match authorization(optional_bytes(raw)) {
            Ok(token) => outcome matches Ok(auth) && auth@ == token,
            Err(fault) => outcome matches Err(error) && error@ == authorization_refusal(fault),
        },
{
    match authorization_auth(raw) {
        Ok(auth) => Ok(auth),
        Err(fault) => {
            let message = match fault {
                AuthorizationFault::NotAscii => "authorization header must be valid ASCII",
                AuthorizationFault::NotBearer => "authorization header must use the Bearer scheme",
            };
            Err(ServiceError::Unauthenticated(message.to_owned()))
        },
    }
}

/// Whether what a request holds is for the database that it is addressed to.
pub open spec fn scope_check(what: Seq<char>, named: Seq<char>, addressed: Seq<char>) -> Result<
    (),
    ServiceErrorModel,
> {
    if named == addressed {
        Ok(())
    } else {
        Err(
            invalid(
                what + " '"@ + named + "' does not match request database '"@ + addressed + "'"@,
            ),
        )
    }
}

fn check_scope(what: &str, named: &str, addressed: &str) -> (outcome: Result<(), ServiceError>)
    ensures
        outcome_model(outcome) == scope_check(what@, named@, addressed@),
{
    if same_text(named, addressed) {
        return Ok(());
    }
    let mut message = what.to_owned();
    message.append(" '");
    message.append(named);
    message.append("' does not match request database '");
    message.append(addressed);
    message.append("'");
    Err(ServiceError::InvalidArgument(message))
}

/// Refuse a policy that is for another database than the one that is addressed.
pub fn validate_policy_scope(scoped: &ScopedAccessPolicy, database_name: &str) -> (outcome: Result<
    (),
    ServiceError,
>)
    ensures
        outcome_model(outcome) == scope_check(
            "database policy database_name"@,
            scoped.database_name@,
            database_name@,
        ),
{
    check_scope("database policy database_name", &scoped.database_name, database_name)
}

/// Refuse a descriptor that is for another database than the one that is addressed.
pub fn validate_database_scope(descriptor: &DatabaseDescriptor, database_name: &str) -> (outcome:
    Result<(), ServiceError>)
    ensures
        outcome_model(outcome) == scope_check(
            "database descriptor name"@,
            descriptor.name@,
            database_name@,
        ),
{
    check_scope("database descriptor name", &descriptor.name, database_name)
}

/// The collection that a request is addressed to.
pub open spec fn addressed(database: Seq<char>, name: Seq<char>) -> CollectionRefModel {
    CollectionRefModel { database_name: database_or_default(database), collection_name: name }
}

fn address(database: &str, name: String) -> (collection: CollectionRef)
    ensures
        collection@ == addressed(database@, name@),
{
    CollectionRef::new(default_database_if_blank(database.to_owned()), name)
}

/// The key of the collection that a request is addressed to.
pub fn collection_lookup_key(collection: &CollectionRef) -> (key: String)
    ensures
        key@ == collection@.key(),
{
    collection.lookup_name()
}

/// Which database a request speaks of.
#[derive(Debug, PartialEq, Eq)]
pub struct NamespaceQuery {
    /// Name of the database.
    pub database: String,
}

impl Default for NamespaceQuery {
    fn default() -> (namespace: Self)
        ensures
            namespace.database@ == default_database(),
    {
        NamespaceQuery { database: default_database_name().to_owned() }
    }
}

impl NamespaceQuery {
    /// The collection of this name in the database.
    pub fn collection(&self, name: String) -> (collection: CollectionRef)
        ensures
            collection@ == addressed(self.database@, name@),
    {
        address(&self.database, name)
    }
}

/// Body of a request that creates a collection.
#[derive(Debug, PartialEq, Eq)]
pub struct CreateCollectionBody {
    /// Name of the database.
    pub database_name: String,
    /// Name of the collection.
    pub name: String,
    /// Dimensions of its vectors.
    pub dimensions: usize,
    /// Its distance metric.
    pub metric: DistanceMetric,
}

impl CreateCollectionBody {
    /// The collection that is to be created.
    pub fn into_request(self) -> (request: CreateCollectionRequest)
        ensures
            request.database_name@ == database_or_default(self.database_name@),
            request.name == self.name,
            request.dimensions == self.dimensions,
            request.metric == self.metric,
    {
        CreateCollectionRequest::in_database(
            default_database_if_blank(self.database_name),
            self.name,
            self.dimensions,
            self.metric,
        )
    }
}

/// Body of a write request.
#[derive(Debug, PartialEq, Eq)]
pub struct WriteCollectionBody {
    /// Name of the database.
    pub database_name: String,
    /// The operations.
    pub operations: Vec<WriteOperation>,
}

/// Whether every operation names a record.
pub open spec fn records_named(operations: Seq<WriteOperation>) -> bool {
    forall|i: int| 0 <= i < operations.len() ==> (#[trigger] operations[i]).record_id().len() > 0
}

impl WriteCollectionBody {
    /// The collection of this name in the database.
    pub fn collection(&self, name: String) -> (collection: CollectionRef)
        ensures
            collection@ == addressed(self.database_name@, name@),
    {
        address(&self.database_name, name)
    }

    /// Refuse operations that name no record.
    pub fn validate(&self) -> (outcome: Result<(), ServiceError>)
        ensures
            outcome_model(outcome) == (if records_named(self.operations@) {
                Ok::<(), ServiceErrorModel>(())
            } else {
                Err(invalid("write operation record id must not be empty"@))
            }),
    {
        let operations = &self.operations;
        let mut index: usize = 0;
        while index < operations.len()
            invariant
                index <= operations@.len(),
                operations@ == self.operations@,
                forall|i: int|
                    0 <= i < index ==> (#[trigger] self.operations@[i]).record_id().len() > 0,
            decreases operations@.len() - index,
        {
            if is_empty_text(operations[index].id()) {
                assert(self.operations@[index as int].record_id().len() == 0);
                return Err(
                    ServiceError::InvalidArgument(
                        "write operation record id must not be empty".to_owned(),
                    ),
                );
            }
            index = index + 1;
        }
        Ok(())
    }
}

/// Body of a query request.
#[derive(Debug, PartialEq)]
pub struct QueryCollectionBody {
    /// Name of the database.
    pub database_name: String,
    /// Components of the query vector, as bit patterns of single-precision numbers.
    pub vector: Vec<u32>,
    /// How many records are wanted.
    pub top_k: usize,
    /// The state to read.
    pub snapshot: Option<Snapshot>,
    /// Fields that have to equal values.
    pub filters: Vec<JsonField>,
    /// Condition on the metadata.
    pub predicate: Option<Predicate>,
    /// How much of the plan is explained.
    pub explain: ExplainMode,
}

/// Whether a JSON value is a scalar.
pub open spec fn is_scalar(value: JsonModel) -> bool {
    scalar_of_json(value) is Some
}

/// Whether a filter is what a field of a request asks for.
pub open spec fn filter_asked(field: JsonField, filter: MetadataFilter) -> bool {
    &&& filter.field == field.name
    &&& scalar_of_json(field.value@) == Some(filter.value@)
}

/// Whether filters are what the fields of a request ask for.
pub open spec fn filters_asked(fields: Seq<JsonField>, filters: Seq<MetadataFilter>) -> bool {
    &&& filters.len() == fields.len()
    &&& forall|i: int| 0 <= i < filters.len() ==> filter_asked(fields[i], #[trigger] filters[i])
}

/// Whether every filter of a request is a scalar.
pub open spec fn filters_scalar(fields: Seq<JsonField>) -> bool {
    forall|i: int| 0 <= i < fields.len() ==> is_scalar((#[trigger] fields[i]).value@)
}

fn filters_from_fields(fields: Vec<JsonField>) -> (outcome: Result<Vec<MetadataFilter>, ServiceError>)
    ensures
        if filters_scalar(fields@) {
            outcome matches Ok(filters) && filters_asked(fields@, filters@)
        } else {
            outcome matches Err(error) && error@ == invalid(
                "query filters must contain only scalar JSON values"@,
            )
        },
{
    let mut filters: Vec<MetadataFilter> = Vec::new();
    for field in iter: fields
        invariant
            iter.seq() == fields@,
            filters@.len() == iter.index(),
            forall|i: int| 0 <= i < iter.index() ==> is_scalar((#[trigger] fields@[i]).value@),
            forall|i: int|
                0 <= i < filters@.len() ==> filter_asked(fields@[i], #[trigger] filters@[i]),
    {
        let ghost index = iter.index();
        match ScalarMetadataValue::from_json(&field.value) {
            None => {
                assert(!is_scalar(fields@[index].value@));
                return Err(
                    ServiceError::InvalidArgument(
                        "query filters must contain only scalar JSON values".to_owned(),
                    ),
                );
            },
            Some(value) => {
                filters.push(MetadataFilter { field: field.name, value });
            },
        }
    }
    Ok(filters)
}

/// What is wrong with a query request, if anything: its size is looked at before its filters.
pub open spec fn query_fault(body: QueryCollectionBody) -> Option<ServiceErrorModel> {
    if body.top_k == 0 {
        Some(invalid("top_k must be greater than 0"@))
    } else if !filters_scalar(body.filters@) {
        Some(invalid("query filters must contain only scalar JSON values"@))
    } else {
        None
    }
}

impl QueryCollectionBody {
    /// The collection of this name in the database.
    pub fn collection(&self, name: String) -> (collection: CollectionRef)
        ensures
            collection@ == addressed(self.database_name@, name@),
    {
        address(&self.database_name, name)
    }

    /// The query that the request asks for.
    pub fn into_request(self, collection: &CollectionRef) -> (outcome: Result<
        QueryRequest,
        ServiceError,
    >)
        ensures
            match query_fault(self) {
                Some(fault) => outcome matches Err(error) && error@ == fault,
                None => outcome matches Ok(query) && query.collection_name@ == collection@.key()
                    && query.vector == self.vector && query.top_k == self.top_k && query.snapshot
                    == self.snapshot && query.read_barrier is None && filters_asked(
                    self.filters@,
                    query.filters@,
                ) && query.predicate == self.predicate && query.explain == self.explain,
            },
    {
        if self.top_k == 0 {
            return Err(ServiceError::InvalidArgument("top_k must be greater than 0".to_owned()));
        }
        match filters_from_fields(self.filters) {
            Err(error) => Err(error),
            Ok(filters) => Ok(
                QueryRequest {
                    collection_name: collection_lookup_key(collection),
                    vector: self.vector,
                    top_k: self.top_k,
                    snapshot: self.snapshot,
                    read_barrier: None,
                    filters,
                    predicate: self.predicate,
                    explain: self.explain,
                },
            ),
        }
    }
}

/// Parameters of a request for a look at storage state.
#[derive(Debug, PartialEq, Eq)]
pub struct InspectCollectionParams {
    /// Name of the database.
    pub database: String,
    /// Which state is looked at.
    pub target: Option<String>,
    /// Identifier of the segment.
    pub segment_id: Option<String>,
}

/// The target that a request names; the manifest where it names none.
pub open spec fn target_name(target: Option<String>) -> Seq<char> {
    match target {
        Some(name) => name@,
        None => "manifest"@,
    }
}

/// The inspection target that a request asks for.
pub open spec fn params_target(params: InspectCollectionParams) -> Result<
    InspectTarget,
    ServiceErrorModel,
> {
    let name = target_name(params.target);
    if name == "manifest"@ {
        Ok(InspectTarget::Manifest)
    } else if name == "wal"@ {
        Ok(InspectTarget::Wal)
    } else if name == "segment"@ {
        match params.segment_id {
            Some(segment_id) => if segment_id@.len() > 0 {
                Ok(InspectTarget::Segment(segment_id))
            } else {
                Err(invalid("inspect target 'segment' requires segment_id"@))
            },
            None => Err(invalid("inspect target 'segment' requires segment_id"@)),
        }
    } else if name == "maintenance"@ {
        Ok(InspectTarget::Maintenance)
    } else {
        Err(invalid("unsupported inspect target '"@ + name + "'"@))
    }
}

/// Read which storage state a request wants to look at, and in which database.
pub fn inspect_target_from_params(params: InspectCollectionParams) -> (outcome: Result<
    (InspectTarget, NamespaceQuery),
    ServiceError,
>)
    ensures
        match params_target(params) {
            Err(fault) => outcome matches Err(error) && error@ == fault,
            Ok(target) => outcome matches Ok(read) && read.0 == target && read.1.database@
                == database_or_default(params.database@),
        },
{
    let namespace = NamespaceQuery { database: default_database_if_blank(params.database) };
    let name: &str = match &params.target {
        Some(name) => name.as_str(),
        None => "manifest",
    };
    let target = if same_text(name, "manifest") {
        InspectTarget::Manifest
    } else if same_text(name, "wal") {
        InspectTarget::Wal
    } else if same_text(name, "segment") {
        match params.segment_id {
            Some(segment_id) => if !is_empty_text(&segment_id) {
                InspectTarget::Segment(segment_id)
            } else {
                return Err(
                    ServiceError::InvalidArgument(
                        "inspect target 'segment' requires segment_id".to_owned(),
                    ),
                );
            },
            None => {
                return Err(
                    ServiceError::InvalidArgument(
                        "inspect target 'segment' requires segment_id".to_owned(),
                    ),
                );
            },
        }
    } else if same_text(name, "maintenance") {
        InspectTarget::Maintenance
    } else {
        let mut message = "unsupported inspect target '".to_owned();
        message.append(name);
        message.append("'");
        return Err(ServiceError::InvalidArgument(message));
    };
    Ok((target, namespace))
}

/// A payload together with the collection that it is about.
#[derive(Debug, PartialEq, Eq)]
pub struct CollectionScopedResponse<T> {
    /// Name of the database.
    pub database_name: String,
    /// Name of the collection.
    pub collection_name: String,
    /// The payload.
    pub response: T,
}

impl<T> CollectionScopedResponse<T> {
    /// Attach a payload to a collection.
    pub fn new(collection: CollectionRef, response: T) -> (scoped: Self)
        ensures
            scoped == (CollectionScopedResponse {
                database_name: collection.database_name,
                collection_name: collection.collection_name,
                response,
            }),
    {
        CollectionScopedResponse {
            database_name: collection.database_name,
            collection_name: collection.collection_name,
            response,
        }
    }
}

/// A request that names no database, or a blank one, is addressed to the default database.
pub proof fn law_blank_databases_address_the_default(database: Seq<char>, name: Seq<char>)
    requires
        crate::text::is_blank(database),
    ensures
        addressed(database, name) == addressed(default_database(), name),
        addressed(database, name).database_name == default_database(),
{
    crate::namespace::law_default_database_settles(database);
}

/// Each class of service failures is reported with its own HTTP status.
pub proof fn law_failures_have_statuses()
    ensures
        status_code(ServiceErrorKind::InvalidArgument) == 400,
        status_code(ServiceErrorKind::Unauthenticated) == 401,
        status_code(ServiceErrorKind::PermissionDenied) == 403,
        status_code(ServiceErrorKind::NotFound) == 404,
        status_code(ServiceErrorKind::AlreadyExists) == 409,
        status_code(ServiceErrorKind::FailedPrecondition) == 412,
        status_code(ServiceErrorKind::Internal) == 500,
{
}

/// What a request holds is accepted exactly when it is for the database that is addressed; else the
/// request is malformed. Who cannot be read from a request is not known.
pub proof fn law_scopes_match(
    what: Seq<char>,
    named: Seq<char>,
    addressed: Seq<char>,
    fault: AuthorizationFault,
)
    ensures
        scope_check(what, named, addressed) is Ok <==> named == addressed,
        scope_check(what, named, addressed) matches Err(error) ==> error.kind
            == ServiceErrorKind::InvalidArgument,
        authorization_refusal(fault).kind == ServiceErrorKind::Unauthenticated,
{
}

/// A request is addressed to the collection of the name that it gives, in the database that it names.
pub proof fn law_requests_are_addressed(database: Seq<char>, name: Seq<char>)
    ensures
        addressed(database, name).collection_name == name,
        !crate::text::is_blank(database) ==> addressed(database, name).database_name == database,
        crate::text::is_blank(database) ==> addressed(database, name).database_name == "default"@,
{
}

/// A query is accepted exactly when it asks for a record at least and each filter is a scalar: no
/// array and no object. Else the request is malformed.
pub proof fn law_queries_are_accepted(body: QueryCollectionBody)
    ensures
        query_fault(body) is None <==> body.top_k > 0 && forall|i: int|
            0 <= i < body.filters@.len() ==> (#[trigger] body.filters@[i]).value@
                != JsonModel::Array && body.filters@[i].value@ != JsonModel::Object,
        query_fault(body) matches Some(fault) ==> fault.kind == ServiceErrorKind::InvalidArgument,
{
    let fields = body.filters@;
    if filters_scalar(fields) {
        assert forall|i: int| 0 <= i < fields.len() implies (#[trigger] fields[i]).value@
            != JsonModel::Array && fields[i].value@ != JsonModel::Object by {
            assert(is_scalar(fields[i].value@));
        }
    }
}

/// The storage state that a request names is the one that is looked at: the manifest, the write-ahead
/// log, the maintenance state, or the segment whose identifier it gives. Where it names none it is
/// the manifest, and any other name is malformed.
pub proof fn law_inspection_targets(params: InspectCollectionParams)
    ensures
        params.target is None ==> params_target(params) == Ok::<InspectTarget, ServiceErrorModel>(
            InspectTarget::Manifest,
        ),
        params.target matches Some(name) ==> {
            &&& name@ == "manifest"@ ==> params_target(params) == Ok::<
                InspectTarget,
                ServiceErrorModel,
            >(InspectTarget::Manifest)
            &&& name@ == "wal"@ ==> params_target(params) == Ok::<InspectTarget, ServiceErrorModel>(
                InspectTarget::Wal,
            )
            &&& name@ == "maintenance"@ ==> params_target(params) == Ok::<
                InspectTarget,
                ServiceErrorModel,
            >(InspectTarget::Maintenance)
            &&& name@ == "segment"@ ==> (params_target(params) is Ok <==> params.segment_id is Some
                && params.segment_id->0@.len() > 0)
            &&& name@ == "segment"@ && params_target(params) is Ok ==> params_target(params) == Ok::<
                InspectTarget,
                ServiceErrorModel,
            >(InspectTarget::Segment(params.segment_id->0))
            &&& name@ != "manifest"@ && name@ != "wal"@ && name@ != "maintenance"@ && name@
                != "segment"@ ==> params_target(params) is Err
        },
        params_target(params) matches Err(error) ==> error.kind
            == ServiceErrorKind::InvalidArgument,
{
    reveal_strlit("manifest");
    reveal_strlit("wal");
    reveal_strlit("segment");
    reveal_strlit("maintenance");
    assert("manifest"@.len() == 8 && "wal"@.len() == 3 && "segment"@.len() == 7
        && "maintenance"@.len() == 11);
}

/// A query for nothing is refused before its filters are looked at.
pub proof fn law_unusable_queries_are_named(body: QueryCollectionBody)
    ensures
        body.top_k == 0 ==> query_fault(body) == Some(
            (ServiceErrorModel {
                kind: ServiceErrorKind::InvalidArgument,
                message: "top_k must be greater than 0"@,
            }),
        ),
        body.top_k > 0 && (exists|i: int|
            0 <= i < body.filters@.len() && ((#[trigger] body.filters@[i]).value@
                == JsonModel::Array || body.filters@[i].value@ == JsonModel::Object))
            ==> query_fault(body) == Some(
            (ServiceErrorModel {
                kind: ServiceErrorKind::InvalidArgument,
                message: "query filters must contain only scalar JSON values"@,
            }),
        ),
{
    law_queries_are_accepted(body);
}

/// An authorization that cannot be used is refused as that of nobody, and the reason is named.
pub proof fn law_unusable_authorizations_are_named()
    ensures
        authorization_refusal(AuthorizationFault::NotAscii) == (ServiceErrorModel {
            kind: ServiceErrorKind::Unauthenticated,
            message: "authorization header must be valid ASCII"@,
        }),
        authorization_refusal(AuthorizationFault::NotBearer) == (ServiceErrorModel {
            kind: ServiceErrorKind::Unauthenticated,
            message: "authorization header must use the Bearer scheme"@,
        }),
{
}

/// Filters stand in the order of the fields of a request, each with the name and the value of its
/// field.
pub proof fn law_filters_are_what_was_asked(fields: Seq<JsonField>, filters: Seq<MetadataFilter>)
    requires
        filters_asked(fields, filters),
    ensures
        filters.len() == fields.len(),
        forall|i: int|
            0 <= i < fields.len() ==> (#[trigger] filters[i]).field == fields[i].name
                && match filters[i].value@ {
                ScalarModel::Null => fields[i].value@ == JsonModel::Null,
                ScalarModel::Bool(held) => fields[i].value@ == JsonModel::Bool(held),
                ScalarModel::Number(held) => fields[i].value@ == JsonModel::Number(held),
                ScalarModel::String(held) => fields[i].value@ == JsonModel::Text(held),
            },
{
    assert forall|i: int| 0 <= i < fields.len() implies (#[trigger] filters[i]).field
        == fields[i].name && match filters[i].value@ {
        ScalarModel::Null => fields[i].value@ == JsonModel::Null,
        ScalarModel::Bool(held) => fields[i].value@ == JsonModel::Bool(held),
        ScalarModel::Number(held) => fields[i].value@ == JsonModel::Number(held),
        ScalarModel::String(held) => fields[i].value@ == JsonModel::Text(held),
    } by {
        assert(filter_asked(fields[i], filters[i]));
    }
}

/// A batch names its records exactly when each of its puts and deletes has an identifier of one
/// character at the least.
pub proof fn law_batches_name_their_records(operations: Seq<WriteOperation>)
    ensures
        records_named(operations) <==> forall|i: int|
            0 <= i < operations.len() ==> match #[trigger] operations[i] {
                WriteOperation::Put(record) => record.id@.len() > 0,
                WriteOperation::Delete(record) => record.id@.len() > 0,
            },
{
    if records_named(operations) {
        assert forall|i: int| 0 <= i < operations.len() implies match #[trigger] operations[i] {
            WriteOperation::Put(record) => record.id@.len() > 0,
            WriteOperation::Delete(record) => record.id@.len() > 0,
        } by {
            assert(operations[i].record_id().len() > 0);
        }
    }
}

} // verus!
