use logpose::auth::{
    AuthenticationMode, DatabaseAccessPolicy, DatabaseRole, DatabaseRoleBinding, ScopedAccessPolicy,
};
use logpose::catalog::{CollectionDescriptor, DatabaseDescriptor};
use logpose::client::codes::{
    authentication_mode_from_proto, database_role_from_proto, metric_from_proto,
    node_role_from_proto, query_plan_kind_from_proto, scalar_value_from_proto,
};
use logpose::client::config::{authorization_metadata, bearer_metadata_value, ClientConfig};
use logpose::client::error::ClientError;
use logpose::client::replies::{
    collection_descriptor_from_proto, collection_placement_from_proto, commit_ack_from_proto,
    database_descriptor_from_proto, database_list_from_proto, database_policy_from_proto,
    inspect_report_from_proto, match_with_metadata, query_diagnostics_from_proto,
    query_match_from_proto, query_response_from_proto, report_with_payload,
    runtime_status_from_proto, scoped_collection_response,
    snapshot_response_from_proto,
};
use logpose::client::requests::{
    create_request_to_proto, inspect_request_to_proto, predicate_to_proto, query_request_to_proto,
    stats_request_to_proto, write_operation_to_proto, write_request_to_proto,
};
use logpose::client::statistics::{collection_stats_from_proto, query_unit_stats_from_proto};
use logpose::domain::{
    CollectionPlacement, CollectionStats, CommitAck, CreateCollectionRequest, DeleteRecord,
    InspectReport, InspectTarget, MaintenanceStatus, NamedSize, PutRecord, QueryUnitArtifactStats, QueryUnitStats,
    RemoteBlobConfig, Snapshot, WriteOperation,
};
use logpose::grpc::headers::request_auth_from_metadata;
use logpose::grpc::predicates::predicate_from_proto;
use logpose::grpc::replies::{
    collection_descriptor_reply, collection_placement_reply_from_domain,
    collection_stats_reply_from_domain, commit_ack_reply_from_domain,
    database_access_policy_to_proto, database_list_to_proto, inspect_reply_from_domain,
    query_reply_from_domain, snapshot_reply_from_domain,
};
use logpose::grpc::requests::{query_request_from_proto, write_operation_from_proto};
use logpose::json::JsonNumber;
use logpose::namespace::split_collection_lookup_key;
use logpose::proto;
use logpose::query::{
    ExplainMode, MetadataFilter, Predicate, PredicateComparison, PredicateOperator,
    QueryDiagnostics, QueryMatch, QueryPlanKind, QueryRequest, QueryResponse, QueryStageTimings,
};
use logpose::scalar::{ScalarField, ScalarFieldStats, ScalarMetadataValue, ValueCount};
use logpose::types::{DistanceMetric, LogPoseError, NodeRole};

fn unusable<T>(message: &str) -> Result<T, ClientError> {
    Err(ClientError::InvalidResponse(message.to_owned()))
}

fn sized(name: &str, size: usize) -> NamedSize {
    NamedSize {
        name: name.to_owned(),
        size,
    }
}

fn counted(name: &str, count: u64) -> proto::NamedCount {
    proto::NamedCount {
        name: name.to_owned(),
        count,
    }
}

fn diagnostics_message() -> proto::QueryDiagnostics {
    proto::QueryDiagnostics {
        chosen_plan: proto::QueryPlanKind::CooperativeFilteredAnn,
        planner_reason: "filtered ann traversal is cheaper than exact scan for this selectivity"
            .to_owned(),
        estimated_selectivity: 0.25f32.to_bits(),
        units_considered: 2,
        units_pruned: 1,
        units_scanned: 1,
        candidates_before_filter: 17,
        candidates_after_filter: 13,
        candidates_reranked: 7,
        candidates_merged: 5,
        rerank_count: 1,
        fallback_reason: Some("fallback".to_owned()),
        unit_scan_mix: vec![counted("immutable_ann", 1), counted("mutable_exact", 2)],
        stage_timings: Some(proto::QueryStageTimings {
            planning_micros: 11,
            prefilter_micros: 22,
            candidate_generation_micros: 33,
            postfilter_micros: 44,
            rerank_micros: 55,
            merge_micros: 66,
        }),
    }
}

fn status_message() -> proto::GetRuntimeStatusReply {
    proto::GetRuntimeStatusReply {
        metadata: Some(proto::GetMetadataReply {
            product: "LogPose".to_owned(),
            node_name: "client-node".to_owned(),
            version: "test".to_owned(),
            git_sha: "sha".to_owned(),
            profile: "debug".to_owned(),
        }),
        role: proto::NodeRole::Combined,
        rest_endpoint: "http://127.0.0.1:8080".to_owned(),
        grpc_endpoint: "http://127.0.0.1:50051".to_owned(),
        storage_engine: "local+etcd-metadata".to_owned(),
        control_plane_ready: true,
        data_plane_ready: true,
        collection_count: 0,
        collections: Vec::new(),
        coordination: Some(proto::CoordinationStatusReply {
            cluster_name: "prod-cluster".to_owned(),
            membership_registered: true,
            membership_lease_id: Some(17),
            registered_members: vec!["client-node".to_owned(), "client-peer".to_owned()],
            leader_node: Some("client-node".to_owned()),
            is_local_leader: true,
            leadership_lease_id: Some(23),
            last_error: Some("warn".to_owned()),
        }),
        maintenance: Some(proto::MaintenanceBacklogReply {
            collections_with_pending: 0,
            pending_operations: 0,
            collections_in_progress: 0,
            collections_with_errors: 0,
        }),
    }
}

fn placement(name: &str) -> CollectionPlacement {
    CollectionPlacement {
        collection_id: "collection-1".to_owned(),
        database_name: "analytics".to_owned(),
        collection_name: name.to_owned(),
        assigned_node: "owner-a".to_owned(),
        assigned_role: NodeRole::Data,
        owner_node: Some("owner-b".to_owned()),
        ownership_epoch: Some(2),
        route_kind: "recorded".to_owned(),
        route_reason: "moved".to_owned(),
    }
}

fn integer(value: i64) -> ScalarMetadataValue {
    ScalarMetadataValue::Number(JsonNumber {
        signed: Some(value),
        unsigned: if value >= 0 { Some(value as u64) } else { None },
        double_bits: Some((value as f64).to_bits()),
    })
}

fn nothing() -> ScalarMetadataValue {
    ScalarMetadataValue::Number(JsonNumber {
        signed: None,
        unsigned: None,
        double_bits: None,
    })
}

fn comparison(value: ScalarMetadataValue) -> Predicate {
    Predicate::Comparison(PredicateComparison {
        field: "rank".to_owned(),
        operator: PredicateOperator::Lt,
        value: Some(value),
    })
}

#[test]
fn split_collection_lookup_key_parses_explicit_database_scope() {
    let (database_name, collection_name) = split_collection_lookup_key("analytics/documents");

    assert_eq!(database_name, "analytics");
    assert_eq!(collection_name, "documents");
}

#[test]
fn scoped_collection_response_falls_back_to_requested_database_scope() {
    let response = scoped_collection_response(
        String::new(),
        String::new(),
        "analytics",
        "documents",
        CommitAck {
            last_seq_no: 7,
            applied_ops: 2,
            snapshot: Snapshot {
                manifest_generation: 3,
                visible_seq_no: 7,
            },
        },
    );

    assert_eq!(response.database_name, "analytics");
    assert_eq!(response.collection_name, "documents");
    assert_eq!(response.last_seq_no, 7);
    assert_eq!(response.snapshot.visible_seq_no, 7);
    assert_eq!(response.collection().lookup_name(), "analytics/documents");
}

#[test]
fn query_diagnostics_from_proto_preserves_ann_fields() {
    let diagnostics =
        query_diagnostics_from_proto(diagnostics_message()).expect("conversion should succeed");

    assert_eq!(
        diagnostics,
        QueryDiagnostics {
            chosen_plan: QueryPlanKind::CooperativeFilteredAnn,
            planner_reason:
                "filtered ann traversal is cheaper than exact scan for this selectivity".to_owned(),
            estimated_selectivity: 0.25f32.to_bits(),
            units_considered: 2,
            units_pruned: 1,
            units_scanned: 1,
            candidates_before_filter: 17,
            candidates_after_filter: 13,
            candidates_reranked: 7,
            candidates_merged: 5,
            rerank_count: 1,
            fallback_reason: Some("fallback".to_owned()),
            unit_scan_mix: vec![sized("immutable_ann", 1), sized("mutable_exact", 2)],
            stage_timings: Some(QueryStageTimings {
                planning_micros: 11,
                prefilter_micros: 22,
                candidate_generation_micros: 33,
                postfilter_micros: 44,
                rerank_micros: 55,
                merge_micros: 66,
            }),
        }
    );
}

#[test]
fn runtime_status_from_proto_reads_coordination_fields() {
    let status = runtime_status_from_proto(status_message()).expect("runtime status should decode");

    let coordination = status
        .coordination
        .expect("coordination should be populated");
    assert_eq!(coordination.cluster_name, "prod-cluster");
    assert_eq!(coordination.membership_lease_id, Some(17));
    assert_eq!(coordination.leadership_lease_id, Some(23));
    assert_eq!(coordination.leader_node.as_deref(), Some("client-node"));
    assert_eq!(
        coordination.registered_members,
        vec!["client-node".to_owned(), "client-peer".to_owned()]
    );
    assert!(coordination.is_local_leader);
    assert_eq!(coordination.last_error.as_deref(), Some("warn"));
}

#[test]
fn incomplete_statuses_are_refused() {
    let mut reply = status_message();
    reply.metadata = None;
    reply.maintenance = None;
    assert_eq!(runtime_status_from_proto(reply), unusable("runtime status missing metadata"));

    let mut reply = status_message();
    reply.role = proto::NodeRole::Unspecified;
    assert_eq!(runtime_status_from_proto(reply), unusable("node role must be set"));

    let mut reply = status_message();
    let mut broken = collection_placement_reply_from_domain(placement("documents"));
    broken.collection_id = proto::WireId::Unparsed {
        text: "x".to_owned(),
        error: "bad length".to_owned(),
    };
    reply.collections = vec![broken];
    assert_eq!(
        runtime_status_from_proto(reply),
        unusable("invalid collection id 'x': bad length")
    );

    let mut reply = status_message();
    reply.maintenance = None;
    assert_eq!(runtime_status_from_proto(reply), unusable("runtime status missing maintenance"));
}

#[test]
fn codes_without_a_meaning_are_named() {
    assert_eq!(
        node_role_from_proto(proto::NodeRole::Unknown(9)),
        unusable("unknown node role '9'")
    );
    assert_eq!(
        authentication_mode_from_proto(proto::AuthenticationMode::Unknown(-1)),
        unusable("unknown authentication mode '-1'")
    );
    assert_eq!(
        authentication_mode_from_proto(proto::AuthenticationMode::Unspecified),
        unusable("authentication mode must be set")
    );
    assert_eq!(
        database_role_from_proto(proto::DatabaseRole::Unknown(12)),
        unusable("unknown database role '12'")
    );
    assert_eq!(
        database_role_from_proto(proto::DatabaseRole::Unspecified),
        unusable("database role must be set")
    );
    assert_eq!(
        metric_from_proto(proto::DistanceMetric::Unknown(100)),
        unusable("unknown distance metric '100'")
    );
    assert_eq!(
        metric_from_proto(proto::DistanceMetric::Unspecified),
        unusable("distance metric must be set")
    );
    assert_eq!(
        query_plan_kind_from_proto(proto::QueryPlanKind::Unknown(8)),
        unusable("unknown query plan kind '8'")
    );
    assert_eq!(
        query_plan_kind_from_proto(proto::QueryPlanKind::Unspecified),
        unusable("query plan kind must be set")
    );
    assert_eq!(
        scalar_value_from_proto(proto::ScalarValue { kind: None }),
        unusable("scalar value kind is required")
    );
    assert_eq!(
        scalar_value_from_proto(proto::ScalarValue {
            kind: Some(proto::ScalarKind::DoubleValue(f64::NAN.to_bits()))
        }),
        unusable("numeric scalar value must be finite")
    );
}

#[test]
fn descriptors_come_through() {
    let descriptor = || {
        let mut descriptor = CollectionDescriptor::new_in_database(
            "analytics",
            "documents",
            3,
            DistanceMetric::Cosine,
            "/data",
            "collection-1",
        );
        descriptor.remote_blob = Some(RemoteBlobConfig {
            endpoint: "http://blobs".to_owned(),
            bucket: "b".to_owned(),
            prefix: "p".to_owned(),
        });
        descriptor
    };
    let reply = collection_descriptor_reply(descriptor());
    assert_eq!(collection_descriptor_from_proto(reply), Ok(descriptor()));

    let databases = || vec![
        DatabaseDescriptor::new("default", "d", "f"),
        DatabaseDescriptor::new("analytics", "d", "f"),
    ];
    let replies = database_list_to_proto(databases());
    assert_eq!(database_list_from_proto(replies), Ok(databases()));
    assert_eq!(
        database_descriptor_from_proto(proto::DatabaseDescriptorReply {
            database_id: proto::WireId::Unparsed {
                text: "x".to_owned(),
                error: "bad length".to_owned(),
            },
            name: "analytics".to_owned(),
            is_default: false,
        }),
        unusable("bad length")
    );

    let reply = collection_placement_reply_from_domain(placement("documents"));
    assert_eq!(collection_placement_from_proto(reply), Ok(placement("documents")));
}

#[test]
fn policies_come_through_and_fill_in_names() {
    let scoped = |database: &str| ScopedAccessPolicy {
        database_name: database.to_owned(),
        policy: DatabaseAccessPolicy {
            authentication_mode: AuthenticationMode::MutualTls,
            role_bindings: vec![DatabaseRoleBinding {
                database_name: database.to_owned(),
                principal_name: "reader".to_owned(),
                role: DatabaseRole::ReadOnly,
            }],
        },
    };
    let reply = database_access_policy_to_proto(scoped("analytics"));
    assert_eq!(database_policy_from_proto(reply, "other"), Ok(scoped("analytics")));
    let reply = database_access_policy_to_proto(scoped(""));
    assert_eq!(database_policy_from_proto(reply, "other"), Ok(scoped("other")));
}

#[test]
fn statistics_come_through() {
    let stats = || CollectionStats {
        collection_id: "collection-1".to_owned(),
        database_name: "analytics".to_owned(),
        collection_name: "documents".to_owned(),
        manifest_generation: 4,
        visible_seq_no: 9,
        mutable_op_count: 1,
        segment_count: 2,
        live_record_count: 3,
        deleted_record_count: 4,
        maintenance: MaintenanceStatus {
            pending: true,
            in_progress: false,
            last_error: Some("warn".to_owned()),
            completed_runs: 5,
        },
        query_units: vec![QueryUnitStats {
            unit_id: "seg-1".to_owned(),
            tier: "immutable".to_owned(),
            index_kind: "hnsw".to_owned(),
            min_seq_no: 1,
            max_seq_no: 9,
            put_count: 3,
            delete_count: 4,
            approx_bytes: 512,
            scalar_fields: vec![ScalarField {
                name: "rank".to_owned(),
                stats: ScalarFieldStats {
                    present_count: 3,
                    null_count: 0,
                    distinct_count: 2,
                    min: Some(integer(-1)),
                    max: Some(integer(8)),
                    value_counts: vec![ValueCount {
                        value: "8".to_owned(),
                        count: 2,
                    }],
                },
            }],
            artifact_stats: vec![QueryUnitArtifactStats {
                kind: "vectors".to_owned(),
                file_name: "seg-1.vec".to_owned(),
                approx_bytes: 256,
            }],
            component_bytes: vec![sized("vectors", 256)],
        }],
    };
    let reply = collection_stats_reply_from_domain(stats()).expect("statistics should be written");
    assert_eq!(collection_stats_from_proto(reply), Ok(stats()));

    let mut reply = collection_stats_reply_from_domain(stats()).expect("written");
    reply.maintenance = None;
    reply.query_units = Vec::new();
    let read = collection_stats_from_proto(reply).expect("statistics should be read");
    assert_eq!(read.maintenance, MaintenanceStatus::default());

    let mut reply = collection_stats_reply_from_domain(stats()).expect("written");
    reply.query_units[0].scalar_fields[0].stats.max = Some(proto::ScalarValue { kind: None });
    assert_eq!(
        collection_stats_from_proto(reply),
        unusable("scalar value kind is required")
    );

    let mut broken = stats();
    broken.query_units[0].scalar_fields[0].stats.min = Some(nothing());
    assert!(collection_stats_reply_from_domain(broken).is_err());
}

#[test]
fn maps_are_read_in_the_order_of_their_names() {
    let mut message = diagnostics_message();
    message.unit_scan_mix = vec![counted("b", 1), counted("a", 2), counted("b", 3), counted("", 4)];
    let read = query_diagnostics_from_proto(message).expect("diagnostics should decode");
    assert_eq!(read.unit_scan_mix, vec![sized("", 4), sized("a", 2), sized("b", 3)]);

    let field = |name: &str, present_count: u64| proto::NamedFieldStats {
        name: name.to_owned(),
        stats: proto::ScalarFieldStats {
            present_count,
            null_count: 0,
            value_counts: vec![counted("7", 2), counted("\"x\"", 1)],
            min: None,
            max: None,
            distinct_count: 2,
        },
    };
    let unit = |scalar_fields: Vec<proto::NamedFieldStats>| proto::QueryUnitStats {
        unit_id: "seg-1".to_owned(),
        tier: "immutable".to_owned(),
        index_kind: "flat".to_owned(),
        min_seq_no: 1,
        max_seq_no: 9,
        put_count: 3,
        delete_count: 4,
        approx_bytes: 512,
        scalar_fields,
        artifact_stats: Vec::new(),
        component_bytes: vec![counted("vectors", 2), counted("metadata", 1)],
    };
    let read = query_unit_stats_from_proto(unit(vec![
        field("tag", 1),
        field("rank", 2),
        field("tag", 3),
    ]))
    .expect("statistics should be read");
    assert_eq!(read.component_bytes, vec![sized("metadata", 1), sized("vectors", 2)]);
    let fields: Vec<(&str, usize)> = read
        .scalar_fields
        .iter()
        .map(|field| (field.name.as_str(), field.stats.present_count))
        .collect();
    assert_eq!(fields, vec![("rank", 2), ("tag", 3)]);
    let values: Vec<(&str, usize)> = read.scalar_fields[0]
        .stats
        .value_counts
        .iter()
        .map(|count| (count.value.as_str(), count.count))
        .collect();
    assert_eq!(values, vec![("\"x\"", 1), ("7", 2)]);

    let mut broken = field("tag", 1);
    broken.stats.max = Some(proto::ScalarValue { kind: None });
    assert_eq!(
        query_unit_stats_from_proto(unit(vec![broken, field("tag", 3)])),
        unusable("scalar value kind is required")
    );
}

#[test]
fn query_responses_come_through() {
    let response = || QueryResponse {
        metric: DistanceMetric::Dot,
        top_k: 3,
        returned: 1,
        snapshot: Snapshot {
            manifest_generation: 3,
            visible_seq_no: 7,
        },
        matches: vec![QueryMatch {
            id: "alpha".to_owned(),
            value: 0.5f32.to_bits(),
            metadata_json: "{}".to_owned(),
        }],
        diagnostics: Some(
            query_diagnostics_from_proto(diagnostics_message()).expect("diagnostics should decode"),
        ),
    };
    let written = || {
        query_reply_from_domain(response(), "analytics".to_owned(), "documents".to_owned())
            .expect("response should be written")
    };
    let scoped = query_response_from_proto(written(), "other", "other").expect("should be read");
    assert_eq!(scoped.database_name, "analytics");
    assert_eq!(scoped.response, response());

    let mut reply = written();
    reply.snapshot = None;
    assert_eq!(
        query_response_from_proto(reply, "a", "b").map(|scoped| scoped.response),
        unusable("query response missing snapshot")
    );
    let mut reply = written();
    reply.matches[0].metadata_json = "{".to_owned();
    assert!(matches!(
        query_response_from_proto(reply, "a", "b"),
        Err(ClientError::Json(message)) if message.contains("EOF")
    ));
    assert!(query_match_from_proto(proto::QueryMatch {
        id: "alpha".to_owned(),
        value: 1,
        metadata_json: "[]".to_owned(),
    })
    .is_ok());
}

#[test]
fn documents_are_sent_and_read_in_one_notation() {
    let spaced = r#"{ "b" : 1 , "a" : "x" }"#;
    let plain = r#"{"a":"x","b":1}"#;
    let put = write_operation_to_proto(WriteOperation::Put(PutRecord {
        id: "alpha".to_owned(),
        vector: vec![1],
        metadata_json: spaced.to_owned(),
    }));
    assert!(matches!(
        put.operation,
        Some(proto::Operation::Put(record)) if record.metadata_json == plain
    ));

    let found = |metadata_json: &str| proto::QueryMatch {
        id: "alpha".to_owned(),
        value: 1,
        metadata_json: metadata_json.to_owned(),
    };
    assert_eq!(
        query_match_from_proto(found(spaced)).map(|one| one.metadata_json),
        Ok(plain.to_owned())
    );
    assert_eq!(
        match_with_metadata(found("{"), Ok("[]".to_owned())).map(|one| one.metadata_json),
        Ok("[]".to_owned())
    );
    assert_eq!(
        match_with_metadata(found("{}"), Err("no".to_owned())),
        Err(ClientError::Json("no".to_owned()))
    );

    let reply = query_reply_from_domain(
        QueryResponse {
            metric: DistanceMetric::Dot,
            top_k: 1,
            returned: 1,
            snapshot: Snapshot {
                manifest_generation: 3,
                visible_seq_no: 7,
            },
            matches: vec![QueryMatch {
                id: "alpha".to_owned(),
                value: 1,
                metadata_json: spaced.to_owned(),
            }],
            diagnostics: None,
        },
        "analytics".to_owned(),
        "documents".to_owned(),
    )
    .expect("response should be written");
    assert_eq!(reply.matches[0].metadata_json, plain);

    let report = || InspectReport {
        target: "manifest".to_owned(),
        payload_json: spaced.to_owned(),
    };
    let reply = inspect_reply_from_domain(report(), String::new(), String::new());
    assert_eq!(reply.payload_json, plain);
    let reply = |payload_json: &str| proto::InspectCollectionReply {
        target: "manifest".to_owned(),
        payload_json: payload_json.to_owned(),
        database_name: String::new(),
        collection_name: String::new(),
    };
    let scoped = inspect_report_from_proto(reply(spaced), "a", "b").expect("report should be read");
    assert_eq!(scoped.response.payload_json, plain);
    let scoped = report_with_payload(reply(""), "a", "b", Ok("7".to_owned()))
        .expect("report should be read");
    assert_eq!(scoped.response.payload_json, "7");
    assert!(matches!(
        report_with_payload(reply("{}"), "a", "b", Err("no".to_owned())),
        Err(ClientError::Json(message)) if message == "no"
    ));
}

#[test]
fn small_replies_are_scoped() {
    let snapshot = Snapshot {
        manifest_generation: 3,
        visible_seq_no: 7,
    };
    let reply = snapshot_reply_from_domain(snapshot, String::new(), "documents".to_owned());
    let scoped = snapshot_response_from_proto(reply, "analytics", "other");
    assert_eq!(scoped.database_name, "analytics");
    assert_eq!(scoped.collection_name, "documents");
    assert_eq!(scoped.response, snapshot);

    let ack = CommitAck {
        last_seq_no: 7,
        applied_ops: 2,
        snapshot,
    };
    let reply = commit_ack_reply_from_domain(ack, "analytics".to_owned(), "documents".to_owned());
    let scoped = commit_ack_from_proto(reply, "other", "other").expect("ack should be read");
    assert_eq!(scoped.response, ack);
    let mut reply = commit_ack_reply_from_domain(ack, String::new(), String::new());
    reply.snapshot = None;
    assert_eq!(
        commit_ack_from_proto(reply, "a", "b").map(|scoped| scoped.response),
        unusable("write response missing write snapshot")
    );

    let reply = |payload_json: &str| proto::InspectCollectionReply {
        target: "manifest".to_owned(),
        payload_json: payload_json.to_owned(),
        database_name: String::new(),
        collection_name: String::new(),
    };
    let scoped = inspect_report_from_proto(reply("{}"), "a", "b").expect("report should be read");
    assert_eq!(scoped.response.target, "manifest");
    assert!(matches!(
        inspect_report_from_proto(reply(""), "a", "b"),
        Err(ClientError::Json(_))
    ));
}

#[test]
fn operations_and_requests_come_through() {
    let put = || WriteOperation::Put(PutRecord {
        id: "alpha".to_owned(),
        vector: vec![1, 2],
        metadata_json: r#"{"kind":"keep"}"#.to_owned(),
    });
    let delete = || WriteOperation::Delete(DeleteRecord {
        id: "beta".to_owned(),
    });
    assert_eq!(write_operation_from_proto(write_operation_to_proto(put())), Ok(put()));
    assert_eq!(write_operation_from_proto(write_operation_to_proto(delete())), Ok(delete()));

    let request = write_request_to_proto("analytics", "documents", vec![put(), delete()]);
    assert_eq!(request.database_name, "analytics");
    assert_eq!(request.collection_name, "documents");
    assert_eq!(request.operations.len(), 2);

    let request = create_request_to_proto(CreateCollectionRequest::in_database(
        "analytics".to_owned(),
        "documents".to_owned(),
        2,
        DistanceMetric::L2,
    ));
    assert_eq!(request.metric, proto::DistanceMetric::L2);
    assert_eq!(request.dimensions, 2);

    let request = stats_request_to_proto("analytics", "documents", None);
    assert_eq!(request.snapshot, None);
    let request = inspect_request_to_proto(
        "analytics",
        "documents",
        &InspectTarget::Segment("seg-1".to_owned()),
    );
    assert_eq!(request.target, proto::InspectTarget::Segment);
    assert_eq!(request.segment_id, "seg-1");
}

#[test]
fn predicates_come_through() {
    let predicate = || Predicate::And {
        children: vec![
            comparison(integer(3)),
            Predicate::Not {
                child: Box::new(Predicate::Or {
                    children: vec![comparison(ScalarMetadataValue::Null)],
                }),
            },
        ],
    };
    let message = predicate_to_proto(predicate()).expect("condition should be written");
    assert_eq!(predicate_from_proto(message), Ok(predicate()));

    assert_eq!(
        predicate_to_proto(Predicate::Not {
            child: Box::new(comparison(nothing())),
        }),
        unusable("numeric scalar value must be finite")
    );
}

#[test]
fn queries_come_through() {
    let query = |collection: &str| QueryRequest {
        collection_name: collection.to_owned(),
        vector: vec![1, 2],
        top_k: 3,
        snapshot: Some(Snapshot {
            manifest_generation: 3,
            visible_seq_no: 7,
        }),
        read_barrier: None,
        filters: vec![MetadataFilter {
            field: "kind".to_owned(),
            value: ScalarMetadataValue::String("keep".to_owned()),
        }],
        predicate: Some(comparison(integer(3))),
        explain: ExplainMode::Profile,
    };
    let request =
        query_request_to_proto("analytics", query("documents")).expect("query should be written");
    assert_eq!(
        query_request_from_proto(request),
        Ok(query("analytics/documents"))
    );

    let mut broken = query("documents");
    broken.filters[0].value = nothing();
    assert_eq!(
        query_request_to_proto("analytics", broken),
        unusable("numeric scalar value must be finite")
    );
}

#[test]
fn bearer_tokens_come_through() {
    let bytes = bearer_metadata_value("  secret\t").expect("token should be encoded");
    assert_eq!(bytes, b"Bearer secret".to_vec());
    let auth = request_auth_from_metadata(Some(&bytes)).expect("token should be read");
    assert_eq!(auth.bearer_token_str(), Some("secret"));

    assert_eq!(
        bearer_metadata_value("  "),
        Err(ClientError::InvalidAuthToken(
            "client auth token must not be empty".to_owned()
        ))
    );
    assert_eq!(
        bearer_metadata_value("a\nb"),
        Err(ClientError::InvalidAuthToken(
            "client auth token could not be encoded as authorization metadata: failed to parse metadata value"
                .to_owned()
        ))
    );
    let wide = bearer_metadata_value("caf\u{e9}").expect("opaque bytes should be encoded");
    assert_eq!(wide, "Bearer caf\u{e9}".as_bytes().to_vec());
    assert!(request_auth_from_metadata(Some(&wide)).is_err());
    assert_eq!(authorization_metadata(None), Ok(None));
    assert_eq!(
        authorization_metadata(Some("secret")),
        Ok(Some(b"Bearer secret".to_vec()))
    );
}

#[test]
fn client_defaults_and_errors() {
    let config = ClientConfig::default();
    assert_eq!(config.grpc_endpoint, "http://127.0.0.1:50051");
    assert_eq!(config.auth_token, None);

    let error = ClientError::from_domain(LogPoseError::Message("bad id".to_owned()));
    assert_eq!(error.to_text(), "bad id");
}
