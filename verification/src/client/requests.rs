//! What gRPC requests say.

use super::error::{client_outcome, invalid_response, unusable, ClientError, ClientErrorModel};
use super::statistics::is_json_scalar;
use crate::domain::{
    operations_model, CreateCollectionRequest, InspectTarget, OperationModel, Snapshot,
    WriteOperation,
};
use crate::grpc::predicates::{
    request_comparison, request_filters, request_predicate, request_predicates,
};
use crate::grpc::replies::{is_sendable, optional_scalar_message};
use crate::grpc::requests::{
    creation_asked, query_asked, query_fault, request_metric, request_operation, request_target,
};
use crate::grpc::status::RpcStatusModel;
use crate::json::{in_json_notation, json_rewritten, rewrite_json};
use crate::namespace::database_or_default;
use crate::proto;
use crate::query::{
    lemma_list_model, predicate_models, MetadataFilter, Predicate, PredicateComparison,
    PredicateModel, QueryRequest,
};
use crate::scalar::ScalarMetadataValue;
use crate::wire::{
    explain_code, explain_mode_to_proto, inspect_segment_id, inspect_target_to_proto,
    law_scalars_come_through, metric_code, operator_code, optional_snapshot_message,
    optional_snapshot_to_proto, predicate_operator_to_proto, proto_metric, scalar_message,
    scalar_to_wire, target_code, target_segment,
};
use vstd::prelude::*;
use vstd::string::*;

verus! {

/// How a scalar without a message is reported.
pub open spec fn scalar_failure() -> ClientErrorModel {
    unusable("numeric scalar value must be finite"@)
}

/// Write a scalar into a request.
pub fn scalar_value_to_proto(value: ScalarMetadataValue) -> (outcome: Result<
    proto::ScalarValue,
    ClientError,
>)
    ensures
        client_outcome(outcome) == (match scalar_message(value) {
            Some(message) => Ok::<proto::ScalarValue, ClientErrorModel>(message),
            None => Err(scalar_failure()),
        }),
{
    match scalar_to_wire(value) {
        Some(message) => Ok(message),
        None => Err(invalid_response("numeric scalar value must be finite")),
    }
}

/// An operation, as a request says it: with the metadata of a put in the notation that
/// `serde_json` writes.
pub open spec fn operation_message(operation: OperationModel) -> OperationModel {
    match operation {
        OperationModel::Put { id, vector, metadata } => OperationModel::Put {
            id,
            vector,
            metadata: json_rewritten(metadata),
        },
        OperationModel::Delete { id } => OperationModel::Delete { id },
    }
}

/// Write an operation into a request.
pub fn write_operation_to_proto(operation: WriteOperation) -> (message: proto::WriteOperation)
    ensures
        message@ == Some(operation_message(operation@)),
{
    match operation {
        WriteOperation::Put(record) => proto::WriteOperation {
            operation: Some(
                proto::Operation::Put(
                    proto::PutRecord {
                        id: record.id,
                        vector: record.vector,
                        metadata_json: rewrite_json(record.metadata_json),
                    },
                ),
            ),
        },
        WriteOperation::Delete(record) => proto::WriteOperation {
            operation: Some(proto::Operation::Delete(proto::DeleteRecord { id: record.id })),
        },
    }
}

/// Operations, as a request says them.
pub open spec fn operation_messages(operations: Seq<OperationModel>) -> Seq<
    Option<OperationModel>,
> {
    Seq::new(operations.len(), |i: int| Some(operation_message(operations[i])))
}

/// Write a batch of operations on a collection into a request.
pub fn write_request_to_proto(
    database_name: &str,
    collection_name: &str,
    operations: Vec<WriteOperation>,
) -> (request: proto::WriteCollectionRequest)
    ensures
        request.database_name@ == database_name@,
        request.collection_name@ == collection_name@,
        proto::operations_model(request.operations@) == operation_messages(
            operations_model(operations@),
        ),
{
    let mut messages: Vec<proto::WriteOperation> = Vec::new();
    for operation in iter: operations
        invariant
            iter.seq() == operations@,
            proto::operations_model(messages@) =~= operation_messages(
                operations_model(operations@),
            ).take(iter.index()),
    {
        let ghost index = iter.index();
        let ghost before = messages@;
        let message = write_operation_to_proto(operation);
        messages.push(message);
        proof {
            let all = operation_messages(operations_model(operations@));
            assert(all[index] == message@);
            assert(proto::operations_model(messages@) =~= proto::operations_model(before).push(
                message@,
            ));
            assert(all.take(index + 1) =~= all.take(index).push(all[index]));
        }
    }
    assert(proto::operations_model(messages@) =~= operation_messages(
        operations_model(operations@),
    ));
    proto::WriteCollectionRequest {
        collection_name: collection_name.to_owned(),
        operations: messages,
        database_name: database_name.to_owned(),
    }
}

/// Whether a filter has a message.
pub open spec fn filter_sendable(filter: MetadataFilter) -> bool {
    scalar_message(filter.value) is Some
}

/// A filter that has a message, as a request says it.
pub open spec fn filter_message(filter: MetadataFilter) -> proto::MetadataFilter {
    proto::MetadataFilter { field: filter.field, value: scalar_message(filter.value) }
}

/// Write a filter into a request.
pub fn metadata_filter_to_proto(filter: MetadataFilter) -> (outcome: Result<
    proto::MetadataFilter,
    ClientError,
>)
    ensures
        client_outcome(outcome) == (if filter_sendable(filter) {
            Ok::<proto::MetadataFilter, ClientErrorModel>(filter_message(filter))
        } else {
            Err(scalar_failure())
        }),
{
    match scalar_value_to_proto(filter.value) {
        Err(error) => Err(error),
        Ok(value) => Ok(proto::MetadataFilter { field: filter.field, value: Some(value) }),
    }
}

/// Filters that have messages, as a request says them.
pub open spec fn filter_messages(filters: Seq<MetadataFilter>) -> Seq<proto::MetadataFilter> {
    filters.map_values(|filter: MetadataFilter| filter_message(filter))
}

/// Whether every filter has a message.
pub open spec fn filters_sendable(filters: Seq<MetadataFilter>) -> bool {
    forall|i: int| 0 <= i < filters.len() ==> filter_sendable(#[trigger] filters[i])
}

fn filters_to_proto(filters: Vec<MetadataFilter>) -> (outcome: Result<
    Vec<proto::MetadataFilter>,
    ClientError,
>)
    ensures
        if filters_sendable(filters@) {
            outcome matches Ok(messages) && messages@ == filter_messages(filters@)
        } else {
            outcome matches Err(error) && error@ == scalar_failure()
        },
{
    let mut messages: Vec<proto::MetadataFilter> = Vec::new();
    for filter in iter: filters
        invariant
            iter.seq() == filters@,
            messages@ == filter_messages(filters@.take(iter.index())),
            forall|i: int| 0 <= i < iter.index() ==> filter_sendable(#[trigger] filters@[i]),
    {
        let ghost index = iter.index();
        match metadata_filter_to_proto(filter) {
            Err(error) => {
                assert(!filter_sendable(filters@[index]));
                return Err(error);
            },
            Ok(message) => {
                messages.push(message);
                assert(messages@ =~= filter_messages(filters@.take(iter.index() + 1)));
            },
        }
    }
    assert(filters@.take(filters@.len() as int) =~= filters@);
    Ok(messages)
}

/// Whether a comparison has a message.
pub open spec fn comparison_sendable(comparison: PredicateComparison) -> bool {
    is_sendable(comparison.value)
}

/// A comparison that has a message, as a request says it.
pub open spec fn comparison_message(comparison: PredicateComparison) -> proto::PredicateComparison {
    proto::PredicateComparison {
        field: comparison.field,
        operator: operator_code(comparison.operator),
        value: optional_scalar_message(comparison.value),
    }
}

/// Write a comparison into a request.
pub fn predicate_comparison_to_proto(comparison: PredicateComparison) -> (outcome: Result<
    proto::PredicateComparison,
    ClientError,
>)
    ensures
        client_outcome(outcome) == (if comparison_sendable(comparison) {
            Ok::<proto::PredicateComparison, ClientErrorModel>(comparison_message(comparison))
        } else {
            Err(scalar_failure())
        }),
{
    let value = match comparison.value {
        None => None,
        Some(held) => match scalar_value_to_proto(held) {
            Err(error) => {
                return Err(error);
            },
            Ok(message) => Some(message),
        },
    };
    Ok(
        proto::PredicateComparison {
            field: comparison.field,
            operator: predicate_operator_to_proto(comparison.operator),
            value,
        },
    )
}

/// Whether a condition has a message.
pub open spec fn predicate_sendable(predicate: Predicate) -> bool
    decreases predicate,
{
    match predicate {
        Predicate::And { children } => forall|i: int|
            0 <= i < children@.len() ==> predicate_sendable(#[trigger] children@[i]),
        Predicate::Or { children } => forall|i: int|
            0 <= i < children@.len() ==> predicate_sendable(#[trigger] children@[i]),
        Predicate::Not { child } => predicate_sendable(*child),
        Predicate::Comparison(comparison) => comparison_sendable(comparison),
    }
}

/// Whether a request says a condition.
pub open spec fn predicate_sent(predicate: Predicate, message: proto::Predicate) -> bool
    decreases predicate,
{
    match (predicate, message.node) {
        (Predicate::And { children }, Some(proto::PredicateNode::And(list))) => {
            &&& list@.len() == children@.len()
            &&& forall|i: int|
                0 <= i < children@.len() ==> predicate_sent(#[trigger] children@[i], list@[i])
        },
        (Predicate::Or { children }, Some(proto::PredicateNode::Or(list))) => {
            &&& list@.len() == children@.len()
            &&& forall|i: int|
                0 <= i < children@.len() ==> predicate_sent(#[trigger] children@[i], list@[i])
        },
        (Predicate::Not { child }, Some(proto::PredicateNode::Not(Some(inner)))) => {
            predicate_sent(*child, *inner)
        },
        (Predicate::Comparison(comparison), Some(proto::PredicateNode::Comparison(sent))) => {
            sent == comparison_message(comparison)
        },
        _ => false,
    }
}

fn predicates_to_proto(children: Vec<Predicate>) -> (outcome: Result<
    Vec<proto::Predicate>,
    ClientError,
>)
    ensures
        if forall|i: int|
            0 <= i < children@.len() ==> predicate_sendable(#[trigger] children@[i]) {
            outcome matches Ok(list) && list@.len() == children@.len() && forall|i: int|
                0 <= i < children@.len() ==> predicate_sent(#[trigger] children@[i], list@[i])
        } else {
            outcome matches Err(error) && error@ == scalar_failure()
        },
    decreases children,
{
    let mut list: Vec<proto::Predicate> = Vec::new();
    for child in iter: children
        invariant
            iter.seq() == children@,
            list@.len() == iter.index(),
            forall|i: int| 0 <= i < iter.index() ==> predicate_sendable(#[trigger] children@[i]),
            forall|i: int|
                0 <= i < iter.index() ==> predicate_sent(#[trigger] children@[i], list@[i]),
    {
        let ghost index = iter.index();
        assert(decreases_to!(children => children@[index]));
        match predicate_to_proto(child) {
            Err(error) => {
                assert(!predicate_sendable(children@[index]));
                return Err(error);
            },
            Ok(message) => {
                list.push(message);
            },
        }
    }
    Ok(list)
}

/// Write a condition into a request.
pub fn predicate_to_proto(predicate: Predicate) -> (outcome: Result<proto::Predicate, ClientError>)
    ensures
        if predicate_sendable(predicate) {
            outcome matches Ok(message) && predicate_sent(predicate, message)
        } else {
            outcome matches Err(error) && error@ == scalar_failure()
        },
    decreases predicate,
{
    let node = match predicate {
        Predicate::And { children } => match predicates_to_proto(children) {
            Err(error) => {
                return Err(error);
            },
            Ok(list) => proto::PredicateNode::And(list),
        },
        Predicate::Or { children } => match predicates_to_proto(children) {
            Err(error) => {
                return Err(error);
            },
            Ok(list) => proto::PredicateNode::Or(list),
        },
        Predicate::Not { child } => match predicate_to_proto(*child) {
            Err(error) => {
                return Err(error);
            },
            Ok(inner) => proto::PredicateNode::Not(Some(Box::new(inner))),
        },
        Predicate::Comparison(comparison) => match predicate_comparison_to_proto(comparison) {
            Err(error) => {
                return Err(error);
            },
            Ok(sent) => proto::PredicateNode::Comparison(sent),
        },
    };
    Ok(proto::Predicate { node: Some(node) })
}

/// Whether a query has a message.
pub open spec fn query_sendable(query: QueryRequest) -> bool {
    &&& filters_sendable(query.filters@)
    &&& query.predicate matches Some(predicate) ==> predicate_sendable(predicate)
}

/// Whether a request says a query on a collection of a database.
pub open spec fn query_sent(
    query: QueryRequest,
    database_name: Seq<char>,
    request: proto::QueryCollectionRequest,
) -> bool {
    &&& request.collection_name == query.collection_name
    &&& request.database_name@ == database_name
    &&& request.vector == query.vector
    &&& request.top_k == query.top_k
    &&& request.snapshot == optional_snapshot_message(query.snapshot)
    &&& request.filters@ == filter_messages(query.filters@)
    &&& match (query.predicate, request.predicate) {
        (Some(predicate), Some(message)) => predicate_sent(predicate, message),
        (None, None) => true,
        _ => false,
    }
    &&& request.explain == explain_code(query.explain)
}

/// Write a query on a collection of a database into a request.
pub fn query_request_to_proto(database_name: &str, query: QueryRequest) -> (outcome: Result<
    proto::QueryCollectionRequest,
    ClientError,
>)
    ensures
        if query_sendable(query) {
            outcome matches Ok(request) && query_sent(query, database_name@, request)
        } else {
            outcome matches Err(error) && error@ == scalar_failure()
        },
{
    let filters = match filters_to_proto(query.filters) {
        Err(error) => {
            return Err(error);
        },
        Ok(filters) => filters,
    };
    let predicate = match query.predicate {
        None => None,
        Some(held) => match predicate_to_proto(held) {
            Err(error) => {
                return Err(error);
            },
            Ok(message) => Some(message),
        },
    };
    Ok(
        proto::QueryCollectionRequest {
            collection_name: query.collection_name,
            vector: query.vector,
            top_k: query.top_k as u64,
            snapshot: optional_snapshot_to_proto(query.snapshot),
            filters,
            predicate,
            explain: explain_mode_to_proto(query.explain),
            database_name: database_name.to_owned(),
        },
    )
}

/// The request for a collection that is to be created.
pub open spec fn creation_message(request: CreateCollectionRequest) -> proto::CreateCollectionRequest {
    proto::CreateCollectionRequest {
        name: request.name,
        dimensions: request.dimensions as u64,
        metric: metric_code(request.metric),
        database_name: request.database_name,
    }
}

/// Write the collection that is to be created into a request.
pub fn create_request_to_proto(request: CreateCollectionRequest) -> (message:
    proto::CreateCollectionRequest)
    ensures
        message == creation_message(request),
{
    proto::CreateCollectionRequest {
        name: request.name,
        dimensions: request.dimensions as u64,
        metric: proto_metric(request.metric),
        database_name: request.database_name,
    }
}

/// Write a request for statistics.
pub fn stats_request_to_proto(
    database_name: &str,
    collection_name: &str,
    snapshot: Option<Snapshot>,
) -> (message: proto::GetCollectionStatsRequest)
    ensures
        message.database_name@ == database_name@,
        message.collection_name@ == collection_name@,
        message.snapshot == optional_snapshot_message(snapshot),
{
    proto::GetCollectionStatsRequest {
        collection_name: collection_name.to_owned(),
        database_name: database_name.to_owned(),
        snapshot: optional_snapshot_to_proto(snapshot),
    }
}

/// Write a request for a look at storage state.
pub fn inspect_request_to_proto(
    database_name: &str,
    collection_name: &str,
    target: &InspectTarget,
) -> (message: proto::InspectCollectionRequest)
    ensures
        message.database_name@ == database_name@,
        message.collection_name@ == collection_name@,
        message.target == target_code(*target),
        message.segment_id@ == target_segment(*target),
{
    proto::InspectCollectionRequest {
        collection_name: collection_name.to_owned(),
        target: inspect_target_to_proto(target),
        segment_id: inspect_segment_id(target),
        database_name: database_name.to_owned(),
    }
}

/// A server accepts every creation that a client asks for, and reads it as it was written, but for
/// a blank database, in place of which it reads the default one.
pub proof fn law_creations_come_through(
    request: CreateCollectionRequest,
    read: CreateCollectionRequest,
)
    ensures
        request_metric(creation_message(request).metric) is Ok,
        creation_asked(creation_message(request), read) ==> {
            &&& read.database_name@ == database_or_default(request.database_name@)
            &&& read.name == request.name
            &&& read.dimensions == request.dimensions
            &&& read.metric == request.metric
        },
{
}

/// A server accepts every operation on a named record that a client sends, and reads it as it was
/// written, where `serde_json` reads the metadata that it wrote as what it wrote.
pub proof fn law_operations_come_through(operation: OperationModel)
    requires
        match operation {
            OperationModel::Put { id, metadata, .. } => id.len() > 0 && in_json_notation(
                json_rewritten(metadata),
            ),
            OperationModel::Delete { id } => id.len() > 0,
        },
    ensures
        request_operation(Some(operation_message(operation))) == Ok::<
            OperationModel,
            RpcStatusModel,
        >(operation_message(operation)),
        operation matches OperationModel::Put { metadata, .. } ==> (in_json_notation(metadata)
            ==> operation_message(operation) == operation),
{
}

/// Whether every comparison of a condition is with a scalar that a JSON document can hold.
pub open spec fn predicate_holds_json(predicate: Predicate) -> bool
    decreases predicate,
{
    match predicate {
        Predicate::And { children } => forall|i: int|
            0 <= i < children@.len() ==> predicate_holds_json(#[trigger] children@[i]),
        Predicate::Or { children } => forall|i: int|
            0 <= i < children@.len() ==> predicate_holds_json(#[trigger] children@[i]),
        Predicate::Not { child } => predicate_holds_json(*child),
        Predicate::Comparison(comparison) => is_json_scalar(comparison.value),
    }
}

proof fn lemma_comparison_comes_through(comparison: PredicateComparison)
    requires
        is_json_scalar(comparison.value),
    ensures
        comparison_sendable(comparison),
        request_comparison(comparison_message(comparison)) == Ok::<
            PredicateComparison,
            RpcStatusModel,
        >(comparison),
{
    if comparison.value is Some {
        law_scalars_come_through(comparison.value->0);
    }
}

proof fn lemma_children_come_through(
    children: Vec<Predicate>,
    list: Seq<proto::Predicate>,
    count: nat,
)
    requires
        list.len() == children@.len(),
        count <= list.len(),
        forall|i: int|
            0 <= i < children@.len() ==> predicate_holds_json(#[trigger] children@[i]),
        forall|i: int|
            0 <= i < children@.len() ==> predicate_sent(#[trigger] children@[i], list[i]),
    ensures
        request_predicates(list, count) == Ok::<Seq<PredicateModel>, RpcStatusModel>(
            predicate_models(children@).take(count as int),
        ),
    decreases children, count,
{
    let models = predicate_models(children@);
    if count == 0 {
        assert(models.take(0) =~= Seq::empty());
    } else {
        lemma_children_come_through(children, list, (count - 1) as nat);
        assert(predicate_holds_json(children@[count - 1]));
        assert(decreases_to!(children => children@[count - 1]));
        law_predicates_come_through(children@[count - 1], list[count - 1]);
        assert(models.take(count as int) =~= models.take(count - 1).push(models[count - 1]));
    }
}

/// A server accepts every condition on scalars of JSON documents that a client sends, and reads
/// it as it was written.
pub proof fn law_predicates_come_through(predicate: Predicate, message: proto::Predicate)
    requires
        predicate_holds_json(predicate),
        predicate_sent(predicate, message),
    ensures
        request_predicate(message) == Ok::<PredicateModel, RpcStatusModel>(predicate@),
    decreases predicate, 0nat,
{
    match predicate {
        Predicate::And { children } => {
            let list = message.node->0->And_0@;
            lemma_children_come_through(children, list, list.len());
            lemma_list_model(children);
            assert(predicate_models(children@).take(list.len() as int) =~= predicate_models(
                children@,
            ));
        },
        Predicate::Or { children } => {
            let list = message.node->0->Or_0@;
            lemma_children_come_through(children, list, list.len());
            lemma_list_model(children);
            assert(predicate_models(children@).take(list.len() as int) =~= predicate_models(
                children@,
            ));
        },
        Predicate::Not { child } => {
            let inner = message.node->0->Not_0->0;
            law_predicates_come_through(*child, *inner);
        },
        Predicate::Comparison(comparison) => {
            lemma_comparison_comes_through(comparison);
        },
    }
}

proof fn lemma_filters_come_through(filters: Seq<MetadataFilter>, count: nat)
    requires
        count <= filters.len(),
        forall|i: int|
            0 <= i < filters.len() ==> is_json_scalar(Some((#[trigger] filters[i]).value)),
    ensures
        request_filters(filter_messages(filters), count) == Ok::<
            Seq<MetadataFilter>,
            RpcStatusModel,
        >(filters.take(count as int)),
    decreases count,
{
    if count == 0 {
        assert(filters.take(0) =~= Seq::empty());
    } else {
        lemma_filters_come_through(filters, (count - 1) as nat);
        let filter = filters[count - 1];
        assert(is_json_scalar(Some(filter.value)));
        law_scalars_come_through(filter.value);
        assert(filter_messages(filters)[count - 1] == filter_message(filter));
        assert(filters.take(count as int) =~= filters.take(count - 1).push(filter));
    }
}

/// A server accepts every query for at least one record, on scalars of JSON documents, that a
/// client sends, and what it is asked for is what the client wants: the same vector, size,
/// snapshot, filters, condition and explain mode, on the collection under its key.
pub proof fn law_queries_come_through(
    query: QueryRequest,
    database_name: Seq<char>,
    request: proto::QueryCollectionRequest,
    read: QueryRequest,
)
    requires
        query.top_k > 0,
        query_sent(query, database_name, request),
        forall|i: int|
            0 <= i < query.filters@.len() ==> is_json_scalar(
                Some((#[trigger] query.filters@[i]).value),
            ),
        query.predicate matches Some(predicate) ==> predicate_holds_json(predicate),
    ensures
        query_fault(request) is None,
        query_asked(request, read) ==> {
            &&& read.collection_name@ == database_or_default(database_name) + "/"@
                + query.collection_name@
            &&& read.vector == query.vector
            &&& read.top_k == query.top_k
            &&& read.snapshot == query.snapshot
            &&& read.filters@ == query.filters@
            &&& match (read.predicate, query.predicate) {
                (Some(left), Some(right)) => left@ == right@,
                (None, None) => true,
                _ => false,
            }
            &&& read.explain == query.explain
        },
{
    let filters = query.filters@;
    lemma_filters_come_through(filters, filters.len());
    assert(filters.take(filters.len() as int) =~= filters);
    if query.predicate is Some {
        law_predicates_come_through(query.predicate->0, request.predicate->0);
    }
}

/// A server reads every inspection target, but that of a segment without a name, as the client
/// wrote it.
pub proof fn law_targets_come_through(target: InspectTarget, segment_id: String)
    requires
        segment_id@ == target_segment(target),
        target matches InspectTarget::Segment(name) ==> name@.len() > 0,
    ensures
        request_target(target_code(target), segment_id) matches Ok(read) && match (target, read) {
            (InspectTarget::Segment(sent), InspectTarget::Segment(received)) => sent@ == received@,
            (InspectTarget::Segment(_), _) => false,
            (_, InspectTarget::Segment(_)) => false,
            _ => read == target,
        },
{
}

/// A filter that has a message, as a request says it, part by part: each under its own name.
pub proof fn law_filter_message_by_part(filter: MetadataFilter)
    ensures
        filter_message(filter).field == filter.field,
        filter_message(filter).value == scalar_message(filter.value),
{
}

/// A comparison that has a message, as a request says it, part by part: each under its own name.
pub proof fn law_comparison_message_by_part(comparison: PredicateComparison)
    ensures
        comparison_message(comparison).field == comparison.field,
        comparison_message(comparison).operator == operator_code(comparison.operator),
        comparison_message(comparison).value == optional_scalar_message(comparison.value),
{
}

/// Where a request says a query on a collection of a database, each part of it stands under its
/// own name.
pub proof fn law_query_sent_by_part(
    query: QueryRequest,
    database_name: Seq<char>,
    request: proto::QueryCollectionRequest,
)
    ensures
        query_sent(query, database_name, request) ==> {
            &&& request.collection_name == query.collection_name
            &&& request.database_name@ == database_name
            &&& request.vector == query.vector
            &&& request.top_k == query.top_k
            &&& request.snapshot == optional_snapshot_message(query.snapshot)
            &&& request.filters@ == filter_messages(query.filters@)
            &&& match (query.predicate, request.predicate) {
        (Some(predicate), Some(message)) => predicate_sent(predicate, message),
        (None, None) => true,
        _ => false,
    }
            &&& request.explain == explain_code(query.explain)
        },
{
}

/// The request for a collection that is to be created, part by part: each under its own name.
pub proof fn law_creation_message_by_part(request: CreateCollectionRequest)
    ensures
        creation_message(request).name == request.name,
        creation_message(request).dimensions == request.dimensions as u64,
        creation_message(request).metric == metric_code(request.metric),
        creation_message(request).database_name == request.database_name,
{
}

/// A conjunction is sent as one, a disjunction as one, a negation as one and a comparison as one,
/// with its conditions one for one, in their order.
pub proof fn law_predicates_are_sent(
    children: Vec<Predicate>,
    child: Box<Predicate>,
    comparison: PredicateComparison,
    message: proto::Predicate,
)
    ensures
        predicate_sent(Predicate::And { children }, message) ==> (message.node matches Some(
            proto::PredicateNode::And(list),
        ) && list@.len() == children@.len() && forall|i: int|
            0 <= i < children@.len() ==> predicate_sent(#[trigger] children@[i], list@[i])),
        predicate_sent(Predicate::Or { children }, message) ==> (message.node matches Some(
            proto::PredicateNode::Or(list),
        ) && list@.len() == children@.len() && forall|i: int|
            0 <= i < children@.len() ==> predicate_sent(#[trigger] children@[i], list@[i])),
        predicate_sent(Predicate::Not { child }, message) ==> (message.node matches Some(
            proto::PredicateNode::Not(Some(inner)),
        ) && predicate_sent(*child, *inner)),
        predicate_sent(Predicate::Comparison(comparison), message) ==> (message.node matches Some(
            proto::PredicateNode::Comparison(sent),
        ) && sent.field == comparison.field && sent.operator == operator_code(comparison.operator)
            && (comparison.value matches Some(value) ==> sent.value == scalar_message(value)) && (
        comparison.value is None ==> sent.value is None)),
{
}

/// A put is sent as a put of the same record and vector, with its metadata as `serde_json` writes it,
/// and a delete as a delete of the same record; a batch one for one, in its order.
pub proof fn law_operations_are_sent(
    id: Seq<char>,
    vector: Seq<u32>,
    metadata: Seq<char>,
    operations: Seq<OperationModel>,
    i: int,
)
    ensures
        operation_message(OperationModel::Put { id, vector, metadata }) == (OperationModel::Put {
            id,
            vector,
            metadata: json_rewritten(metadata),
        }),
        operation_message(OperationModel::Delete { id }) == (OperationModel::Delete { id }),
        operation_messages(operations).len() == operations.len(),
        0 <= i < operations.len() ==> operation_messages(operations)[i] == Some(
            operation_message(operations[i]),
        ),
{
}

/// Filters are sent one for one, in their order, each with its own field and value; a query can be
/// sent exactly when each of its scalars has a message.
pub proof fn law_filters_are_sent(filters: Seq<MetadataFilter>, i: int)
    ensures
        filter_messages(filters).len() == filters.len(),
        0 <= i < filters.len() ==> filter_messages(filters)[i].field == filters[i].field
            && filter_messages(filters)[i].value == scalar_message(filters[i].value),
        filters_sendable(filters) <==> forall|j: int|
            0 <= j < filters.len() ==> scalar_message((#[trigger] filters[j]).value) is Some,
{
    if filters_sendable(filters) {
        assert forall|j: int| 0 <= j < filters.len() implies scalar_message(
            (#[trigger] filters[j]).value,
        ) is Some by {
            assert(filter_sendable(filters[j]));
        }
    }
}

} // verus!
