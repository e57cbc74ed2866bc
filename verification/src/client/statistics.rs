//! Statistics as replies hold them.

use super::codes::{optional_scalar_from_proto, reply_optional_scalar};
use super::error::{ClientError, ClientErrorModel};
use super::replies::{parse_collection_id, reply_collection_id};
use crate::domain::{CollectionStats, MaintenanceStatus, QueryUnitArtifactStats, QueryUnitStats};
use crate::grpc::replies::{
    artifact_messages, field_sent, field_sendable, fields_sendable, fields_sent, is_sendable,
    optional_scalar_message, stats_sent, unit_sent, units_sendable, units_sent, value_messages,
};
use crate::json::is_json_number;
use crate::proto;
use crate::scalar::{
    by_name, law_ordered_entries_stay, names_ascend, names_of, place_by_name, ScalarField,
    ScalarFieldStats, ScalarMetadataValue, ValueCount,
};
use crate::wire::{
    law_scalars_come_through, law_sizes_come_through, message_sizes, sizes_from_proto,
};
use vstd::prelude::*;

verus! {

/// The maintenance of a collection that a reply holds.
pub open spec fn message_maintenance(status: proto::MaintenanceStatus) -> MaintenanceStatus {
    MaintenanceStatus {
        pending: status.pending,
        in_progress: status.in_progress,
        last_error: status.last_error,
        completed_runs: status.completed_runs as usize,
    }
}

/// Read the maintenance of a collection from a reply.
pub fn maintenance_status_from_proto(status: proto::MaintenanceStatus) -> (outcome: Result<
    MaintenanceStatus,
    ClientError,
>)
    ensures
        outcome == Ok::<MaintenanceStatus, ClientError>(message_maintenance(status)),
{
    Ok(
        MaintenanceStatus {
            pending: status.pending,
            in_progress: status.in_progress,
            last_error: status.last_error,
            completed_runs: status.completed_runs as usize,
        },
    )
}

/// Occurrences of a value that a reply holds.
pub open spec fn message_value(message: proto::NamedCount) -> ValueCount {
    ValueCount { value: message.name, count: message.count as usize }
}

/// Occurrences of values that the entries of a reply hold, one for each.
pub open spec fn entry_values(messages: Seq<proto::NamedCount>) -> Seq<ValueCount> {
    messages.map_values(|message: proto::NamedCount| message_value(message))
}

/// Occurrences of values that a reply holds: ordered by value, each value once.
pub open spec fn message_values(messages: Seq<proto::NamedCount>) -> Seq<ValueCount> {
    by_name(entry_values(messages))
}

fn values_from_proto(messages: Vec<proto::NamedCount>) -> (counts: Vec<ValueCount>)
    ensures
        counts@ == message_values(messages@),
{
    let mut counts: Vec<ValueCount> = Vec::new();
    for message in iter: messages
        invariant
            iter.seq() == messages@,
            counts@ == message_values(messages@.take(iter.index())),
    {
        let count = ValueCount { value: message.name, count: message.count as usize };
        proof {
            let longer = messages@.take(iter.index() + 1);
            assert(longer.last() == message);
            assert(entry_values(longer).drop_last() =~= entry_values(
                messages@.take(iter.index()),
            ));
        }
        place_by_name(&mut counts, count);
    }
    assert(messages@.take(messages@.len() as int) =~= messages@);
    counts
}

/// What is wrong with the statistics of a field, if anything: the least value is looked at first.
pub open spec fn field_fault(message: proto::ScalarFieldStats) -> Option<ClientErrorModel> {
    match reply_optional_scalar(message.min) {
        Err(error) => Some(error),
        Ok(_) => match reply_optional_scalar(message.max) {
            Err(error) => Some(error),
            Ok(_) => None,
        },
    }
}

/// Whether statistics of a field are what a reply holds.
pub open spec fn field_received(message: proto::ScalarFieldStats, stats: ScalarFieldStats) -> bool {
    &&& stats.present_count == message.present_count as usize
    &&& stats.null_count == message.null_count as usize
    &&& stats.value_counts@ == message_values(message.value_counts@)
    &&& reply_optional_scalar(message.min) == Ok::<Option<ScalarMetadataValue>, ClientErrorModel>(
        stats.min,
    )
    &&& reply_optional_scalar(message.max) == Ok::<Option<ScalarMetadataValue>, ClientErrorModel>(
        stats.max,
    )
    &&& stats.distinct_count == message.distinct_count as usize
}

/// Read the statistics of a field from a reply.
pub fn scalar_field_stats_from_proto(stats: proto::ScalarFieldStats) -> (outcome: Result<
    ScalarFieldStats,
    ClientError,
>)
    ensures
        match field_fault(stats) {
            Some(fault) => outcome matches Err(error) && error@ == fault,
            None => outcome matches Ok(read) && field_received(stats, read),
        },
{
    let min = match optional_scalar_from_proto(stats.min) {
        Err(error) => {
            return Err(error);
        },
        Ok(min) => min,
    };
    let max = match optional_scalar_from_proto(stats.max) {
        Err(error) => {
            return Err(error);
        },
        Ok(max) => max,
    };
    Ok(
        ScalarFieldStats {
            present_count: stats.present_count as usize,
            null_count: stats.null_count as usize,
            distinct_count: stats.distinct_count as usize,
            min,
            max,
            value_counts: values_from_proto(stats.value_counts),
        },
    )
}

/// What is wrong with the earliest faulty field among the first `count`.
pub open spec fn fields_fault(messages: Seq<proto::NamedFieldStats>, count: nat) -> Option<
    ClientErrorModel,
>
    decreases count,
{
    if count == 0 {
        None
    } else {
        match fields_fault(messages, (count - 1) as nat) {
            Some(fault) => Some(fault),
            None => field_fault(messages[count - 1].stats),
        }
    }
}

proof fn lemma_fields_fault_stays(messages: Seq<proto::NamedFieldStats>, early: nat, late: nat)
    requires
        early <= late,
        fields_fault(messages, early) is Some,
    ensures
        fields_fault(messages, late) == fields_fault(messages, early),
    decreases late,
{
    if early < late {
        lemma_fields_fault_stays(messages, early, (late - 1) as nat);
    }
}

/// Whether statistics of fields are what the entries of a reply hold, one for each.
pub open spec fn entries_received(
    messages: Seq<proto::NamedFieldStats>,
    fields: Seq<ScalarField>,
) -> bool {
    &&& fields.len() == messages.len()
    &&& forall|i: int|
        #![trigger messages[i]]
        #![trigger fields[i]]
        0 <= i < fields.len() ==> fields[i].name == messages[i].name && field_received(
            messages[i].stats,
            fields[i].stats,
        )
}

/// Whether statistics of fields are what a reply holds: ordered by name, each name once.
pub open spec fn fields_received(
    messages: Seq<proto::NamedFieldStats>,
    fields: Seq<ScalarField>,
) -> bool {
    exists|entries: Seq<ScalarField>| #[trigger]
        entries_received(messages, entries) && fields == by_name(entries)
}

fn fields_from_proto(messages: Vec<proto::NamedFieldStats>) -> (outcome: Result<
    Vec<ScalarField>,
    ClientError,
>)
    ensures
        match fields_fault(messages@, messages@.len()) {
            Some(fault) => outcome matches Err(error) && error@ == fault,
            None => outcome matches Ok(fields) && fields_received(messages@, fields@),
        },
{
    let mut fields: Vec<ScalarField> = Vec::new();
    let ghost mut entries: Seq<ScalarField> = Seq::empty();
    for message in iter: messages
        invariant
            iter.seq() == messages@,
            entries.len() == iter.index(),
            fields_fault(messages@, iter.index() as nat) is None,
            forall|i: int|
                0 <= i < entries.len() ==> (#[trigger] entries[i]).name == messages@[i].name
                    && field_received(messages@[i].stats, entries[i].stats),
            fields@ == by_name(entries),
    {
        let ghost index = iter.index();
        match scalar_field_stats_from_proto(message.stats) {
            Err(error) => {
                proof {
                    lemma_fields_fault_stays(messages@, (index + 1) as nat, messages@.len());
                }
                return Err(error);
            },
            Ok(stats) => {
                let field = ScalarField { name: message.name, stats };
                proof {
                    assert(entries.push(field).drop_last() =~= entries);
                    entries = entries.push(field);
                }
                place_by_name(&mut fields, field);
            },
        }
    }
    assert(entries_received(messages@, entries));
    Ok(fields)
}

/// A file of a query unit that a reply holds.
pub open spec fn message_artifact(message: proto::QueryUnitArtifactStats) -> QueryUnitArtifactStats {
    QueryUnitArtifactStats {
        kind: message.kind,
        file_name: message.file_name,
        approx_bytes: message.approx_bytes as usize,
    }
}

/// Files of a query unit that a reply holds.
pub open spec fn message_artifacts(messages: Seq<proto::QueryUnitArtifactStats>) -> Seq<
    QueryUnitArtifactStats,
> {
    messages.map_values(|message: proto::QueryUnitArtifactStats| message_artifact(message))
}

fn artifacts_from_proto(messages: Vec<proto::QueryUnitArtifactStats>) -> (artifacts: Vec<
    QueryUnitArtifactStats,
>)
    ensures
        artifacts@ == message_artifacts(messages@),
{
    let mut artifacts: Vec<QueryUnitArtifactStats> = Vec::new();
    for message in iter: messages
        invariant
            iter.seq() == messages@,
            artifacts@ == message_artifacts(messages@.take(iter.index())),
    {
        artifacts.push(
            QueryUnitArtifactStats {
                kind: message.kind,
                file_name: message.file_name,
                approx_bytes: message.approx_bytes as usize,
            },
        );
        assert(artifacts@ =~= message_artifacts(messages@.take(iter.index() + 1)));
    }
    assert(messages@.take(messages@.len() as int) =~= messages@);
    artifacts
}

/// What is wrong with the statistics of a query unit, if anything.
pub open spec fn unit_fault(message: proto::QueryUnitStats) -> Option<ClientErrorModel> {
    fields_fault(message.scalar_fields@, message.scalar_fields@.len())
}

/// Whether statistics of a query unit are what a reply holds.
pub open spec fn unit_received(message: proto::QueryUnitStats, stats: QueryUnitStats) -> bool {
    &&& stats.unit_id == message.unit_id
    &&& stats.tier == message.tier
    &&& stats.index_kind == message.index_kind
    &&& stats.min_seq_no == message.min_seq_no
    &&& stats.max_seq_no == message.max_seq_no
    &&& stats.put_count == message.put_count as usize
    &&& stats.delete_count == message.delete_count as usize
    &&& stats.approx_bytes == message.approx_bytes as usize
    &&& fields_received(message.scalar_fields@, stats.scalar_fields@)
    &&& stats.artifact_stats@ == message_artifacts(message.artifact_stats@)
    &&& stats.component_bytes@ == message_sizes(message.component_bytes@)
}

/// Read the statistics of a query unit from a reply.
pub fn query_unit_stats_from_proto(stats: proto::QueryUnitStats) -> (outcome: Result<
    QueryUnitStats,
    ClientError,
>)
    ensures
        match unit_fault(stats) {
            Some(fault) => outcome matches Err(error) && error@ == fault,
            None => outcome matches Ok(read) && unit_received(stats, read),
        },
{
    match fields_from_proto(stats.scalar_fields) {
        Err(error) => Err(error),
        Ok(scalar_fields) => Ok(
            QueryUnitStats {
                unit_id: stats.unit_id,
                tier: stats.tier,
                index_kind: stats.index_kind,
                min_seq_no: stats.min_seq_no,
                max_seq_no: stats.max_seq_no,
                put_count: stats.put_count as usize,
                delete_count: stats.delete_count as usize,
                approx_bytes: stats.approx_bytes as usize,
                scalar_fields,
                artifact_stats: artifacts_from_proto(stats.artifact_stats),
                component_bytes: sizes_from_proto(stats.component_bytes),
            },
        ),
    }
}

/// What is wrong with the earliest faulty query unit among the first `count`.
pub open spec fn units_fault(messages: Seq<proto::QueryUnitStats>, count: nat) -> Option<
    ClientErrorModel,
>
    decreases count,
{
    if count == 0 {
        None
    } else {
        match units_fault(messages, (count - 1) as nat) {
            Some(fault) => Some(fault),
            None => unit_fault(messages[count - 1]),
        }
    }
}

proof fn lemma_units_fault_stays(messages: Seq<proto::QueryUnitStats>, early: nat, late: nat)
    requires
        early <= late,
        units_fault(messages, early) is Some,
    ensures
        units_fault(messages, late) == units_fault(messages, early),
    decreases late,
{
    if early < late {
        lemma_units_fault_stays(messages, early, (late - 1) as nat);
    }
}

/// Whether statistics of query units are what a reply holds.
pub open spec fn units_received(
    messages: Seq<proto::QueryUnitStats>,
    units: Seq<QueryUnitStats>,
) -> bool {
    &&& units.len() == messages.len()
    &&& forall|i: int|
        #![trigger messages[i]]
        #![trigger units[i]]
        0 <= i < units.len() ==> unit_received(messages[i], units[i])
}

fn units_from_proto(messages: Vec<proto::QueryUnitStats>) -> (outcome: Result<
    Vec<QueryUnitStats>,
    ClientError,
>)
    ensures
        match units_fault(messages@, messages@.len()) {
            Some(fault) => outcome matches Err(error) && error@ == fault,
            None => outcome matches Ok(units) && units_received(messages@, units@),
        },
{
    let mut units: Vec<QueryUnitStats> = Vec::new();
    for message in iter: messages
        invariant
            iter.seq() == messages@,
            units@.len() == iter.index(),
            units_fault(messages@, iter.index() as nat) is None,
            forall|i: int| 0 <= i < units@.len() ==> unit_received(messages@[i], #[trigger] units@[i]),
    {
        let ghost index = iter.index();
        match query_unit_stats_from_proto(message) {
            Err(error) => {
                proof {
                    lemma_units_fault_stays(messages@, (index + 1) as nat, messages@.len());
                }
                return Err(error);
            },
            Ok(unit) => {
                units.push(unit);
            },
        }
    }
    Ok(units)
}

/// What is wrong with the statistics of a collection, if anything.
pub open spec fn stats_fault(reply: proto::CollectionStatsReply) -> Option<ClientErrorModel> {
    match reply_collection_id(reply.collection_id) {
        Err(error) => Some(error),
        Ok(_) => units_fault(reply.query_units@, reply.query_units@.len()),
    }
}

/// The optional maintenance of a collection that a reply holds; none is no maintenance at all.
pub open spec fn optional_maintenance(status: Option<proto::MaintenanceStatus>) -> MaintenanceStatus {
    match status {
        Some(held) => message_maintenance(held),
        None => MaintenanceStatus {
            pending: false,
            in_progress: false,
            last_error: None,
            completed_runs: 0,
        },
    }
}

/// Whether statistics of a collection are what a reply holds.
pub open spec fn stats_received(reply: proto::CollectionStatsReply, stats: CollectionStats) -> bool {
    &&& reply_collection_id(reply.collection_id) == Ok::<String, ClientErrorModel>(
        stats.collection_id,
    )
    &&& stats.database_name == reply.database_name
    &&& stats.collection_name == reply.collection_name
    &&& stats.manifest_generation == reply.manifest_generation
    &&& stats.visible_seq_no == reply.visible_seq_no
    &&& stats.mutable_op_count == reply.mutable_op_count as usize
    &&& stats.segment_count == reply.segment_count as usize
    &&& stats.live_record_count == reply.live_record_count as usize
    &&& stats.deleted_record_count == reply.deleted_record_count as usize
    &&& stats.maintenance == optional_maintenance(reply.maintenance)
    &&& units_received(reply.query_units@, stats.query_units@)
}

/// Read the statistics of a collection from a reply.
pub fn collection_stats_from_proto(reply: proto::CollectionStatsReply) -> (outcome: Result<
    CollectionStats,
    ClientError,
>)
    ensures
        match stats_fault(reply) {
            Some(fault) => outcome matches Err(error) && error@ == fault,
            None => outcome matches Ok(stats) && stats_received(reply, stats),
        },
{
    let collection_id = match parse_collection_id(reply.collection_id) {
        Err(error) => {
            return Err(error);
        },
        Ok(collection_id) => collection_id,
    };
    let maintenance = match reply.maintenance {
        Some(held) => match maintenance_status_from_proto(held) {
            Err(error) => {
                return Err(error);
            },
            Ok(status) => status,
        },
        None => MaintenanceStatus::default(),
    };
    match units_from_proto(reply.query_units) {
        Err(error) => Err(error),
        Ok(query_units) => Ok(
            CollectionStats {
                collection_id,
                database_name: reply.database_name,
                collection_name: reply.collection_name,
                manifest_generation: reply.manifest_generation,
                visible_seq_no: reply.visible_seq_no,
                mutable_op_count: reply.mutable_op_count as usize,
                segment_count: reply.segment_count as usize,
                live_record_count: reply.live_record_count as usize,
                deleted_record_count: reply.deleted_record_count as usize,
                maintenance,
                query_units,
            },
        ),
    }
}

/// Whether an optional scalar is one that a JSON document can hold.
pub open spec fn is_json_scalar(value: Option<ScalarMetadataValue>) -> bool {
    value matches Some(ScalarMetadataValue::Number(number)) ==> is_json_number(number)
}

/// Whether the bounds of every field of every query unit are scalars of JSON documents.
pub open spec fn units_hold_json(units: Seq<QueryUnitStats>) -> bool {
    forall|i: int, j: int|
        0 <= i < units.len() && 0 <= j < units[i].scalar_fields@.len() ==> is_json_scalar(
            (#[trigger] units[i].scalar_fields@[j]).stats.min,
        ) && is_json_scalar(units[i].scalar_fields@[j].stats.max)
}

/// Whether the occurrences of a field's values are ordered.
pub open spec fn field_ordered(field: ScalarField) -> bool {
    names_ascend(names_of(field.stats.value_counts@))
}

/// Whether everything in the statistics of a query unit that is ordered by name is.
pub open spec fn unit_ordered(unit: QueryUnitStats) -> bool {
    &&& names_ascend(names_of(unit.scalar_fields@))
    &&& names_ascend(names_of(unit.component_bytes@))
    &&& forall|i: int|
        0 <= i < unit.scalar_fields@.len() ==> field_ordered(#[trigger] unit.scalar_fields@[i])
}

/// Whether everything in the statistics of query units that is ordered by name is.
pub open spec fn units_ordered(units: Seq<QueryUnitStats>) -> bool {
    forall|i: int| 0 <= i < units.len() ==> unit_ordered(#[trigger] units[i])
}

/// Whether two lists of fields hold the same statistics.
pub open spec fn same_fields(left: Seq<ScalarField>, right: Seq<ScalarField>) -> bool {
    &&& left.len() == right.len()
    &&& forall|i: int|
        #![trigger left[i]]
        #![trigger right[i]]
        0 <= i < left.len() ==> {
            &&& left[i].name == right[i].name
            &&& left[i].stats.present_count == right[i].stats.present_count
            &&& left[i].stats.null_count == right[i].stats.null_count
            &&& left[i].stats.distinct_count == right[i].stats.distinct_count
            &&& left[i].stats.min == right[i].stats.min
            &&& left[i].stats.max == right[i].stats.max
            &&& left[i].stats.value_counts@ == right[i].stats.value_counts@
        }
}

/// Whether the statistics of two query units are the same.
pub open spec fn same_unit(left: QueryUnitStats, right: QueryUnitStats) -> bool {
    &&& left.unit_id == right.unit_id
    &&& left.tier == right.tier
    &&& left.index_kind == right.index_kind
    &&& left.min_seq_no == right.min_seq_no
    &&& left.max_seq_no == right.max_seq_no
    &&& left.put_count == right.put_count
    &&& left.delete_count == right.delete_count
    &&& left.approx_bytes == right.approx_bytes
    &&& same_fields(left.scalar_fields@, right.scalar_fields@)
    &&& left.artifact_stats@ == right.artifact_stats@
    &&& left.component_bytes@ == right.component_bytes@
}

/// Whether the statistics of two collections are the same.
pub open spec fn same_stats(left: CollectionStats, right: CollectionStats) -> bool {
    &&& left.collection_id == right.collection_id
    &&& left.database_name == right.database_name
    &&& left.collection_name == right.collection_name
    &&& left.manifest_generation == right.manifest_generation
    &&& left.visible_seq_no == right.visible_seq_no
    &&& left.mutable_op_count == right.mutable_op_count
    &&& left.segment_count == right.segment_count
    &&& left.live_record_count == right.live_record_count
    &&& left.deleted_record_count == right.deleted_record_count
    &&& left.maintenance == right.maintenance
    &&& left.query_units@.len() == right.query_units@.len()
    &&& forall|i: int|
        #![trigger left.query_units@[i]]
        #![trigger right.query_units@[i]]
        0 <= i < left.query_units@.len() ==> same_unit(left.query_units@[i], right.query_units@[i])
}

proof fn lemma_optional_scalars_come_through(value: Option<ScalarMetadataValue>)
    requires
        is_json_scalar(value),
    ensures
        is_sendable(value),
        reply_optional_scalar(optional_scalar_message(value)) == Ok::<
            Option<ScalarMetadataValue>,
            ClientErrorModel,
        >(value),
{
    if value is Some {
        law_scalars_come_through(value->0);
    }
}

proof fn lemma_field_comes_through(
    stats: ScalarFieldStats,
    message: proto::ScalarFieldStats,
)
    requires
        is_json_scalar(stats.min),
        is_json_scalar(stats.max),
        field_sent(stats, message),
        names_ascend(names_of(stats.value_counts@)),
    ensures
        field_fault(message) is None,
        forall|read: ScalarFieldStats| #[trigger]
            field_received(message, read) ==> read.present_count == stats.present_count
                && read.null_count == stats.null_count && read.distinct_count
                == stats.distinct_count && read.min == stats.min && read.max == stats.max
                && read.value_counts@ == stats.value_counts@,
{
    lemma_optional_scalars_come_through(stats.min);
    lemma_optional_scalars_come_through(stats.max);
    assert(entry_values(value_messages(stats.value_counts@)) =~= stats.value_counts@);
    law_ordered_entries_stay(stats.value_counts@);
}

proof fn lemma_fields_come_through(
    fields: Seq<ScalarField>,
    messages: Seq<proto::NamedFieldStats>,
    count: nat,
)
    requires
        fields_sent(fields, messages),
        count <= fields.len(),
        forall|j: int|
            0 <= j < fields.len() ==> is_json_scalar((#[trigger] fields[j]).stats.min)
                && is_json_scalar(fields[j].stats.max) && field_ordered(fields[j]),
    ensures
        fields_fault(messages, count) is None,
    decreases count,
{
    if count > 0 {
        lemma_fields_come_through(fields, messages, (count - 1) as nat);
        assert(is_json_scalar(fields[count - 1].stats.min));
        lemma_field_comes_through(fields[count - 1].stats, messages[count - 1].stats);
    }
}

proof fn lemma_unit_comes_through(
    unit: QueryUnitStats,
    message: proto::QueryUnitStats,
)
    requires
        unit_sent(unit, message),
        forall|j: int|
            0 <= j < unit.scalar_fields@.len() ==> is_json_scalar(
                (#[trigger] unit.scalar_fields@[j]).stats.min,
            ) && is_json_scalar(unit.scalar_fields@[j].stats.max),
        unit_ordered(unit),
    ensures
        unit_fault(message) is None,
        forall|read: QueryUnitStats| #[trigger]
            unit_received(message, read) ==> same_unit(unit, read),
{
    lemma_fields_come_through(
        unit.scalar_fields@,
        message.scalar_fields@,
        unit.scalar_fields@.len(),
    );
    law_sizes_come_through(unit.component_bytes@);
    assert(message_artifacts(artifact_messages(unit.artifact_stats@)) =~= unit.artifact_stats@);
    assert forall|read: QueryUnitStats| #[trigger] unit_received(message, read) implies same_unit(
        unit,
        read,
    ) by {
        let entries = choose|entries: Seq<ScalarField>| #[trigger]
            entries_received(message.scalar_fields@, entries) && read.scalar_fields@ == by_name(
                entries,
            );
        assert(names_of(entries) =~= names_of(unit.scalar_fields@)) by {
            assert forall|i: int| 0 <= i < entries.len() implies (
            #[trigger] entries[i]).name == unit.scalar_fields@[i].name by {
                assert(message.scalar_fields@[i].name == entries[i].name);
            }
        }
        law_ordered_entries_stay(entries);
        assert forall|i: int|
            #![trigger unit.scalar_fields@[i]]
            #![trigger read.scalar_fields@[i]]
            0 <= i < unit.scalar_fields@.len() implies {
            &&& unit.scalar_fields@[i].name == read.scalar_fields@[i].name
            &&& unit.scalar_fields@[i].stats.present_count
                == read.scalar_fields@[i].stats.present_count
            &&& unit.scalar_fields@[i].stats.null_count == read.scalar_fields@[i].stats.null_count
            &&& unit.scalar_fields@[i].stats.distinct_count
                == read.scalar_fields@[i].stats.distinct_count
            &&& unit.scalar_fields@[i].stats.min == read.scalar_fields@[i].stats.min
            &&& unit.scalar_fields@[i].stats.max == read.scalar_fields@[i].stats.max
            &&& unit.scalar_fields@[i].stats.value_counts@
                == read.scalar_fields@[i].stats.value_counts@
        } by {
            assert(is_json_scalar(unit.scalar_fields@[i].stats.min));
            assert(field_ordered(unit.scalar_fields@[i]));
            lemma_field_comes_through(
                unit.scalar_fields@[i].stats,
                message.scalar_fields@[i].stats,
            );
            assert(field_received(
                message.scalar_fields@[i].stats,
                read.scalar_fields@[i].stats,
            ));
        }
    }
}

proof fn lemma_units_come_through(
    units: Seq<QueryUnitStats>,
    messages: Seq<proto::QueryUnitStats>,
    count: nat,
)
    requires
        units_sent(units, messages),
        units_hold_json(units),
        units_ordered(units),
        count <= units.len(),
    ensures
        units_fault(messages, count) is None,
    decreases count,
{
    if count > 0 {
        lemma_units_come_through(units, messages, (count - 1) as nat);
        lemma_unit_comes_through(units[count - 1], messages[count - 1]);
    }
}

/// Statistics whose scalars come from JSON documents can always be sent, and what a client reads
/// from the reply is what the server wrote into it, where what is to be ordered by name is.
pub proof fn law_statistics_come_through(
    stats: CollectionStats,
    reply: proto::CollectionStatsReply,
    read: CollectionStats,
)
    requires
        units_hold_json(stats.query_units@),
        units_ordered(stats.query_units@),
    ensures
        units_sendable(stats.query_units@),
        stats_sent(stats, reply) ==> stats_fault(reply) is None,
        stats_sent(stats, reply) && stats_received(reply, read) ==> same_stats(stats, read),
{
    let units = stats.query_units@;
    assert forall|i: int| 0 <= i < units.len() implies fields_sendable(
        (#[trigger] units[i]).scalar_fields@,
    ) by {
        assert forall|j: int| 0 <= j < units[i].scalar_fields@.len() implies field_sendable(
            (#[trigger] units[i].scalar_fields@[j]).stats,
        ) by {
            lemma_optional_scalars_come_through(units[i].scalar_fields@[j].stats.min);
            lemma_optional_scalars_come_through(units[i].scalar_fields@[j].stats.max);
        }
    }
    if stats_sent(stats, reply) {
        lemma_units_come_through(units, reply.query_units@, units.len());
        if stats_received(reply, read) {
            assert forall|i: int|
                #![trigger units[i]]
                #![trigger read.query_units@[i]]
                0 <= i < units.len() implies same_unit(units[i], read.query_units@[i]) by {
                lemma_unit_comes_through(units[i], reply.query_units@[i]);
                assert(unit_received(reply.query_units@[i], read.query_units@[i]));
            }
        }
    }
}

/// The maintenance of a collection that a reply holds, part by part: each under its own name.
pub proof fn law_message_maintenance_by_part(status: proto::MaintenanceStatus)
    ensures
        message_maintenance(status).pending == status.pending,
        message_maintenance(status).in_progress == status.in_progress,
        message_maintenance(status).last_error == status.last_error,
        message_maintenance(status).completed_runs == status.completed_runs as usize,
{
}

/// Occurrences of a value that a reply holds, part by part: each under its own name.
pub proof fn law_message_value_by_part(message: proto::NamedCount)
    ensures
        message_value(message).value == message.name,
        message_value(message).count == message.count as usize,
{
}

/// Where statistics of a field are what a reply holds, each part of it stands under its own name.
pub proof fn law_field_received_by_part(message: proto::ScalarFieldStats, stats: ScalarFieldStats)
    ensures
        field_received(message, stats) ==> {
            &&& stats.present_count == message.present_count as usize
            &&& stats.null_count == message.null_count as usize
            &&& stats.value_counts@ == message_values(message.value_counts@)
            &&& reply_optional_scalar(message.min) == Ok::<Option<ScalarMetadataValue>, ClientErrorModel>(
        stats.min,
    )
            &&& reply_optional_scalar(message.max) == Ok::<Option<ScalarMetadataValue>, ClientErrorModel>(
        stats.max,
    )
            &&& stats.distinct_count == message.distinct_count as usize
        },
{
}

/// A file of a query unit that a reply holds, part by part: each under its own name.
pub proof fn law_message_artifact_by_part(message: proto::QueryUnitArtifactStats)
    ensures
        message_artifact(message).kind == message.kind,
        message_artifact(message).file_name == message.file_name,
        message_artifact(message).approx_bytes == message.approx_bytes as usize,
{
}

/// Where statistics of a query unit are what a reply holds, each part of it stands under its own
/// name.
pub proof fn law_unit_received_by_part(message: proto::QueryUnitStats, stats: QueryUnitStats)
    ensures
        unit_received(message, stats) ==> {
            &&& stats.unit_id == message.unit_id
            &&& stats.tier == message.tier
            &&& stats.index_kind == message.index_kind
            &&& stats.min_seq_no == message.min_seq_no
            &&& stats.max_seq_no == message.max_seq_no
            &&& stats.put_count == message.put_count as usize
            &&& stats.delete_count == message.delete_count as usize
            &&& stats.approx_bytes == message.approx_bytes as usize
            &&& fields_received(message.scalar_fields@, stats.scalar_fields@)
            &&& stats.artifact_stats@ == message_artifacts(message.artifact_stats@)
            &&& stats.component_bytes@ == message_sizes(message.component_bytes@)
        },
{
}

/// Where statistics of a collection are what a reply holds, each part of it stands under its own
/// name.
pub proof fn law_stats_received_by_part(reply: proto::CollectionStatsReply, stats: CollectionStats)
    ensures
        stats_received(reply, stats) ==> {
            &&& reply_collection_id(reply.collection_id) == Ok::<String, ClientErrorModel>(
        stats.collection_id,
    )
            &&& stats.database_name == reply.database_name
            &&& stats.collection_name == reply.collection_name
            &&& stats.manifest_generation == reply.manifest_generation
            &&& stats.visible_seq_no == reply.visible_seq_no
            &&& stats.mutable_op_count == reply.mutable_op_count as usize
            &&& stats.segment_count == reply.segment_count as usize
            &&& stats.live_record_count == reply.live_record_count as usize
            &&& stats.deleted_record_count == reply.deleted_record_count as usize
            &&& stats.maintenance == optional_maintenance(reply.maintenance)
            &&& units_received(reply.query_units@, stats.query_units@)
        },
{
}

/// The files and the occurrence counts of a reply are read one for one, the files in their order; no
/// maintenance in a reply is none at all.
pub proof fn law_statistics_lists_are_read(
    artifacts: Seq<proto::QueryUnitArtifactStats>,
    counts: Seq<proto::NamedCount>,
    status: proto::MaintenanceStatus,
    i: int,
)
    ensures
        message_artifacts(artifacts).len() == artifacts.len(),
        0 <= i < artifacts.len() ==> message_artifacts(artifacts)[i] == message_artifact(
            artifacts[i],
        ),
        entry_values(counts).len() == counts.len(),
        0 <= i < counts.len() ==> entry_values(counts)[i].value == counts[i].name && entry_values(
            counts,
        )[i].count == counts[i].count as usize,
        optional_maintenance(Some(status)) == message_maintenance(status),
        !optional_maintenance(None).pending,
        !optional_maintenance(None).in_progress,
        optional_maintenance(None).last_error is None,
        optional_maintenance(None).completed_runs == 0,
{
}

/// The statistics of a field can be used exactly when both its bounds can be read, and those of a
/// collection only where its identifier parses.
pub proof fn law_usable_statistics(
    message: proto::ScalarFieldStats,
    reply: proto::CollectionStatsReply,
)
    ensures
        field_fault(message) is None <==> reply_optional_scalar(message.min) is Ok
            && reply_optional_scalar(message.max) is Ok,
        reply.collection_id !is Parsed ==> stats_fault(reply) is Some,
        reply.collection_id is Parsed ==> stats_fault(reply) == units_fault(
            reply.query_units@,
            reply.query_units@.len(),
        ),
{
}

} // verus!
