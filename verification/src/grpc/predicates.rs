//! Conditions, filters and scalars as requests hold them.

use super::status::{bad_request, invalid_argument, rpc_outcome, RpcStatus, RpcStatusModel};
use crate::proto;
use crate::query::{
    lemma_list_model, predicate_models, MetadataFilter, Predicate, PredicateComparison,
    PredicateModel, PredicateOperator,
};
use crate::scalar::ScalarMetadataValue;
use crate::wire::{kind_scalar, scalar_from_wire};
use vstd::prelude::*;

verus! {

/// The scalar that a request holds.
pub open spec fn request_scalar(value: proto::ScalarValue) -> Result<
    ScalarMetadataValue,
    RpcStatusModel,
> {
    match value.kind {
        None => Err(bad_request("scalar value kind is required"@)),
        Some(kind) => match kind_scalar(kind) {
            Some(scalar) => Ok(scalar),
            None => Err(bad_request("double scalar value must be finite"@)),
        },
    }
}

/// Read a scalar from a request.
pub fn scalar_value_from_proto(value: proto::ScalarValue) -> (outcome: Result<
    ScalarMetadataValue,
    RpcStatus,
>)
    ensures
        rpc_outcome(outcome) == request_scalar(value),
{
    match value.kind {
        None => Err(invalid_argument("scalar value kind is required")),
        Some(kind) => match scalar_from_wire(kind) {
            Some(scalar) => Ok(scalar),
            None => Err(invalid_argument("double scalar value must be finite")),
        },
    }
}

/// The optional scalar that a request holds.
pub open spec fn request_optional_scalar(value: Option<proto::ScalarValue>) -> Result<
    Option<ScalarMetadataValue>,
    RpcStatusModel,
> {
    match value {
        None => Ok(None),
        Some(held) => match request_scalar(held) {
            Ok(scalar) => Ok(Some(scalar)),
            Err(status) => Err(status),
        },
    }
}

/// The filter that a request holds.
pub open spec fn request_filter(filter: proto::MetadataFilter) -> Result<
    MetadataFilter,
    RpcStatusModel,
> {
    match filter.value {
        None => Err(bad_request("metadata filter value is required"@)),
        Some(held) => match request_scalar(held) {
            Ok(value) => Ok(MetadataFilter { field: filter.field, value }),
            Err(status) => Err(status),
        },
    }
}

/// Read a filter from a request.
pub fn metadata_filter_from_proto(filter: proto::MetadataFilter) -> (outcome: Result<
    MetadataFilter,
    RpcStatus,
>)
    ensures
        rpc_outcome(outcome) == request_filter(filter),
{
    match filter.value {
        None => Err(invalid_argument("metadata filter value is required")),
        Some(held) => match scalar_value_from_proto(held) {
            Ok(value) => Ok(MetadataFilter { field: filter.field, value }),
            Err(status) => Err(status),
        },
    }
}

/// The first `count` filters that a request holds, or what is wrong with the earliest faulty one.
pub open spec fn request_filters(filters: Seq<proto::MetadataFilter>, count: nat) -> Result<
    Seq<MetadataFilter>,
    RpcStatusModel,
>
    decreases count,
{
    if count == 0 {
        Ok(Seq::empty())
    } else {
        match request_filters(filters, (count - 1) as nat) {
            Err(status) => Err(status),
            Ok(earlier) => match request_filter(filters[count - 1]) {
                Err(status) => Err(status),
                Ok(filter) => Ok(earlier.push(filter)),
            },
        }
    }
}

proof fn lemma_filter_fault_stays(filters: Seq<proto::MetadataFilter>, early: nat, late: nat)
    requires
        early <= late,
        request_filters(filters, early) is Err,
    ensures
        request_filters(filters, late) == request_filters(filters, early),
    decreases late,
{
    if early < late {
        lemma_filter_fault_stays(filters, early, (late - 1) as nat);
    }
}

/// A list of values, with its status as a model.
pub open spec fn list_outcome<T>(outcome: Result<Vec<T>, RpcStatus>) -> Result<
    Seq<T>,
    RpcStatusModel,
> {
    match outcome {
        Ok(values) => Ok(values@),
        Err(status) => Err(status@),
    }
}

/// Read filters from a request.
pub fn filters_from_proto(filters: Vec<proto::MetadataFilter>) -> (outcome: Result<
    Vec<MetadataFilter>,
    RpcStatus,
>)
    ensures
        list_outcome(outcome) == request_filters(filters@, filters@.len()),
{
    let mut read: Vec<MetadataFilter> = Vec::new();
    for filter in iter: filters
        invariant
            iter.seq() == filters@,
            request_filters(filters@, iter.index() as nat) == Ok::<
                Seq<MetadataFilter>,
                RpcStatusModel,
            >(read@),
    {
        let ghost index = iter.index();
        match metadata_filter_from_proto(filter) {
            Err(status) => {
                proof {
                    lemma_filter_fault_stays(filters@, (index + 1) as nat, filters@.len());
                }
                return Err(status);
            },
            Ok(value) => {
                read.push(value);
            },
        }
    }
    Ok(read)
}

/// The operator that a request holds.
pub open spec fn request_operator(operator: proto::PredicateOperator) -> Result<
    PredicateOperator,
    RpcStatusModel,
> {
    match operator {
        proto::PredicateOperator::Eq => Ok(PredicateOperator::Eq),
        proto::PredicateOperator::Ne => Ok(PredicateOperator::Ne),
        proto::PredicateOperator::Lt => Ok(PredicateOperator::Lt),
        proto::PredicateOperator::Lte => Ok(PredicateOperator::Lte),
        proto::PredicateOperator::Gt => Ok(PredicateOperator::Gt),
        proto::PredicateOperator::Gte => Ok(PredicateOperator::Gte),
        proto::PredicateOperator::Exists => Ok(PredicateOperator::Exists),
        proto::PredicateOperator::IsNull => Ok(PredicateOperator::IsNull),
        proto::PredicateOperator::Unspecified => Err(
            bad_request("predicate comparison operator must be set"@),
        ),
        proto::PredicateOperator::Unknown(_) => Err(
            bad_request("predicate comparison operator must be set"@),
        ),
    }
}

/// Read an operator from a request.
pub fn predicate_operator_from_proto(operator: proto::PredicateOperator) -> (outcome: Result<
    PredicateOperator,
    RpcStatus,
>)
    ensures
        rpc_outcome(outcome) == request_operator(operator),
{
    match operator {
        proto::PredicateOperator::Eq => Ok(PredicateOperator::Eq),
        proto::PredicateOperator::Ne => Ok(PredicateOperator::Ne),
        proto::PredicateOperator::Lt => Ok(PredicateOperator::Lt),
        proto::PredicateOperator::Lte => Ok(PredicateOperator::Lte),
        proto::PredicateOperator::Gt => Ok(PredicateOperator::Gt),
        proto::PredicateOperator::Gte => Ok(PredicateOperator::Gte),
        proto::PredicateOperator::Exists => Ok(PredicateOperator::Exists),
        proto::PredicateOperator::IsNull => Ok(PredicateOperator::IsNull),
        proto::PredicateOperator::Unspecified => Err(
            invalid_argument("predicate comparison operator must be set"),
        ),
        proto::PredicateOperator::Unknown(_) => Err(
            invalid_argument("predicate comparison operator must be set"),
        ),
    }
}

/// The comparison that a request holds.
pub open spec fn request_comparison(comparison: proto::PredicateComparison) -> Result<
    PredicateComparison,
    RpcStatusModel,
> {
    match request_operator(comparison.operator) {
        Err(status) => Err(status),
        Ok(operator) => match request_optional_scalar(comparison.value) {
            Err(status) => Err(status),
            Ok(value) => Ok(PredicateComparison { field: comparison.field, operator, value }),
        },
    }
}

/// Read a comparison from a request.
pub fn predicate_comparison_from_proto(comparison: proto::PredicateComparison) -> (outcome: Result<
    PredicateComparison,
    RpcStatus,
>)
    ensures
        rpc_outcome(outcome) == request_comparison(comparison),
{
    let operator = match predicate_operator_from_proto(comparison.operator) {
        Err(status) => {
            return Err(status);
        },
        Ok(operator) => operator,
    };
    let value = match comparison.value {
        None => None,
        Some(held) => match scalar_value_from_proto(held) {
            Err(status) => {
                return Err(status);
            },
            Ok(value) => Some(value),
        },
    };
    Ok(PredicateComparison { field: comparison.field, operator, value })
}

/// The condition that a request holds.
pub open spec fn request_predicate(predicate: proto::Predicate) -> Result<
    PredicateModel,
    RpcStatusModel,
>
    decreases predicate, 0nat,
{
    match predicate.node {
        None => Err(bad_request("predicate node is required"@)),
        Some(proto::PredicateNode::And(list)) => match request_predicates(list@, list@.len()) {
            Err(status) => Err(status),
            Ok(children) => Ok(PredicateModel::And(children)),
        },
        Some(proto::PredicateNode::Or(list)) => match request_predicates(list@, list@.len()) {
            Err(status) => Err(status),
            Ok(children) => Ok(PredicateModel::Or(children)),
        },
        Some(proto::PredicateNode::Not(None)) => Err(
            bad_request("not predicate child is required"@),
        ),
        Some(proto::PredicateNode::Not(Some(child))) => match request_predicate(*child) {
            Err(status) => Err(status),
            Ok(inner) => Ok(PredicateModel::Not(Box::new(inner))),
        },
        Some(proto::PredicateNode::Comparison(comparison)) => match request_comparison(comparison) {
            Err(status) => Err(status),
            Ok(read) => Ok(PredicateModel::Comparison(read)),
        },
    }
}

/// The first `count` conditions of a list, or what is wrong with the earliest faulty one.
pub open spec fn request_predicates(list: Seq<proto::Predicate>, count: nat) -> Result<
    Seq<PredicateModel>,
    RpcStatusModel,
>
    decreases list, count,
{
    if count == 0 || count > list.len() {
        Ok(Seq::empty())
    } else {
        match request_predicates(list, (count - 1) as nat) {
            Err(status) => Err(status),
            Ok(earlier) => match request_predicate(list[count - 1]) {
                Err(status) => Err(status),
                Ok(predicate) => Ok(earlier.push(predicate)),
            },
        }
    }
}

proof fn lemma_predicate_fault_stays(list: Seq<proto::Predicate>, early: nat, late: nat)
    requires
        early <= late <= list.len(),
        request_predicates(list, early) is Err,
    ensures
        request_predicates(list, late) == request_predicates(list, early),
    decreases late,
{
    if early < late {
        lemma_predicate_fault_stays(list, early, (late - 1) as nat);
    }
}

/// The outcome of reading a condition, as its model.
pub open spec fn predicate_outcome(outcome: Result<Predicate, RpcStatus>) -> Result<
    PredicateModel,
    RpcStatusModel,
> {
    match outcome {
        Ok(predicate) => Ok(predicate@),
        Err(status) => Err(status@),
    }
}

/// The outcome of reading conditions, as its model.
pub open spec fn predicates_outcome(outcome: Result<Vec<Predicate>, RpcStatus>) -> Result<
    Seq<PredicateModel>,
    RpcStatusModel,
> {
    match outcome {
        Ok(predicates) => Ok(predicate_models(predicates@)),
        Err(status) => Err(status@),
    }
}

fn predicates_from_proto(list: Vec<proto::Predicate>) -> (outcome: Result<Vec<Predicate>, RpcStatus>)
    ensures
        predicates_outcome(outcome) == request_predicates(list@, list@.len()),
    decreases list,
{
    let mut read: Vec<Predicate> = Vec::new();
    assert(predicate_models(read@) =~= Seq::empty());
    for child in iter: list
        invariant
            iter.seq() == list@,
            request_predicates(list@, iter.index() as nat) == Ok::<
                Seq<PredicateModel>,
                RpcStatusModel,
            >(predicate_models(read@)),
    {
        let ghost index = iter.index();
        let ghost before = read@;
        assert(decreases_to!(list => list@[index]));
        match predicate_from_proto(child) {
            Err(status) => {
                proof {
                    lemma_predicate_fault_stays(list@, (index + 1) as nat, list@.len());
                }
                return Err(status);
            },
            Ok(predicate) => {
                read.push(predicate);
                assert(predicate_models(read@) =~= predicate_models(before).push(predicate@));
            },
        }
    }
    Ok(read)
}

/// Read a condition from a request.
pub fn predicate_from_proto(predicate: proto::Predicate) -> (outcome: Result<Predicate, RpcStatus>)
    ensures
        predicate_outcome(outcome) == request_predicate(predicate),
    decreases predicate,
{
    let node = match predicate.node {
        None => {
            return Err(invalid_argument("predicate node is required"));
        },
        Some(node) => node,
    };
    match node {
        proto::PredicateNode::And(list) => match predicates_from_proto(list) {
            Err(status) => Err(status),
            Ok(children) => {
                proof {
                    lemma_list_model(children);
                }
                Ok(Predicate::And { children })
            },
        },
        proto::PredicateNode::Or(list) => match predicates_from_proto(list) {
            Err(status) => Err(status),
            Ok(children) => {
                proof {
                    lemma_list_model(children);
                }
                Ok(Predicate::Or { children })
            },
        },
        proto::PredicateNode::Not(child) => match child {
            None => Err(invalid_argument("not predicate child is required")),
            Some(child) => match predicate_from_proto(*child) {
                Err(status) => Err(status),
                Ok(inner) => Ok(Predicate::Not { child: Box::new(inner) }),
            },
        },
        proto::PredicateNode::Comparison(comparison) => match predicate_comparison_from_proto(
            comparison,
        ) {
            Err(status) => Err(status),
            Ok(read) => Ok(Predicate::Comparison(read)),
        },
    }
}

/// Each operator of a message is read as the operator of the same name; one that is not set, or not
/// known, is refused.
pub proof fn law_operators_are_read(number: i32)
    ensures
        request_operator(proto::PredicateOperator::Eq) == Ok::<PredicateOperator, RpcStatusModel>(PredicateOperator::Eq),
        request_operator(proto::PredicateOperator::Ne) == Ok::<PredicateOperator, RpcStatusModel>(PredicateOperator::Ne),
        request_operator(proto::PredicateOperator::Lt) == Ok::<PredicateOperator, RpcStatusModel>(PredicateOperator::Lt),
        request_operator(proto::PredicateOperator::Lte) == Ok::<PredicateOperator, RpcStatusModel>(PredicateOperator::Lte),
        request_operator(proto::PredicateOperator::Gt) == Ok::<PredicateOperator, RpcStatusModel>(PredicateOperator::Gt),
        request_operator(proto::PredicateOperator::Gte) == Ok::<PredicateOperator, RpcStatusModel>(PredicateOperator::Gte),
        request_operator(proto::PredicateOperator::Exists) == Ok::<PredicateOperator, RpcStatusModel>(PredicateOperator::Exists),
        request_operator(proto::PredicateOperator::IsNull) == Ok::<PredicateOperator, RpcStatusModel>(PredicateOperator::IsNull),
        request_operator(proto::PredicateOperator::Unspecified) is Err,
        request_operator(proto::PredicateOperator::Unknown(number)) is Err,
{
}

/// Reading an operator undoes writing it.
pub proof fn law_operators_come_through(operator: PredicateOperator)
    ensures
        request_operator(crate::wire::operator_code(operator)) == Ok::<
            PredicateOperator,
            RpcStatusModel,
        >(operator),
{
}

/// A conjunction is read as one, a disjunction as one, a negation as one and a comparison as one;
/// what lacks its node or the condition that it negates is refused.
pub proof fn law_predicates_are_read(
    list: Vec<proto::Predicate>,
    child: Box<proto::Predicate>,
    comparison: proto::PredicateComparison,
)
    ensures
        request_predicate((proto::Predicate { node: None })) is Err,
        request_predicate(
            (proto::Predicate { node: Some(proto::PredicateNode::And(list)) }),
        ) matches Ok(read) ==> read is And && request_predicates(list@, list@.len()) == Ok::<
            Seq<PredicateModel>,
            RpcStatusModel,
        >(read->And_0),
        request_predicate(
            (proto::Predicate { node: Some(proto::PredicateNode::Or(list)) }),
        ) matches Ok(read) ==> read is Or && request_predicates(list@, list@.len()) == Ok::<
            Seq<PredicateModel>,
            RpcStatusModel,
        >(read->Or_0),
        request_predicate(
            (proto::Predicate { node: Some(proto::PredicateNode::Not(None)) }),
        ) is Err,
        request_predicate(
            (proto::Predicate { node: Some(proto::PredicateNode::Not(Some(child))) }),
        ) matches Ok(read) ==> read is Not && request_predicate(*child) == Ok::<
            PredicateModel,
            RpcStatusModel,
        >(*read->Not_0),
        request_predicate(
            (proto::Predicate { node: Some(proto::PredicateNode::Comparison(comparison)) }),
        ) matches Ok(read) ==> read is Comparison && read->Comparison_0.field == comparison.field
            && request_operator(comparison.operator) == Ok::<PredicateOperator, RpcStatusModel>(
            read->Comparison_0.operator,
        ) && (read->Comparison_0.value is Some <==> comparison.value is Some),
{
}

/// Conditions and filters are read one for one, in their order, and are refused together where one
/// of them is.
pub proof fn law_lists_are_read_in_order(
    list: Seq<proto::Predicate>,
    filters: Seq<proto::MetadataFilter>,
    count: nat,
)
    ensures
        count <= list.len() ==> match request_predicates(list, count) {
            Ok(read) => read.len() == count && forall|i: int|
                0 <= i < count ==> request_predicate(list[i]) == Ok::<
                    PredicateModel,
                    RpcStatusModel,
                >(#[trigger] read[i]),
            Err(status) => exists|i: int|
                0 <= i < count && #[trigger] request_predicate(list[i]) == Err::<
                    PredicateModel,
                    RpcStatusModel,
                >(status),
        },
        count <= filters.len() ==> match request_filters(filters, count) {
            Ok(read) => read.len() == count && forall|i: int|
                0 <= i < count ==> request_filter(filters[i]) == Ok::<
                    MetadataFilter,
                    RpcStatusModel,
                >(#[trigger] read[i]),
            Err(status) => exists|i: int|
                0 <= i < count && #[trigger] request_filter(filters[i]) == Err::<
                    MetadataFilter,
                    RpcStatusModel,
                >(status),
        },
    decreases count,
{
    if count > 0 {
        law_lists_are_read_in_order(list, filters, (count - 1) as nat);
        if count <= list.len() {
            let last = request_predicate(list[count - 1]);
        }
        if count <= filters.len() {
            let last = request_filter(filters[count - 1]);
        }
    }
}

/// A filter is read with its own field and value; without a value it is refused.
pub proof fn law_filters_are_read(filter: proto::MetadataFilter)
    ensures
        filter.value is None ==> request_filter(filter) is Err,
        request_filter(filter) matches Ok(read) ==> read.field == filter.field && (
        filter.value matches Some(value) && request_scalar(value) == Ok::<
            ScalarMetadataValue,
            RpcStatusModel,
        >(read.value)),
{
}

} // verus!
