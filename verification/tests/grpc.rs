use logpose::auth::{
    AuthenticationMode, DatabaseAccessPolicy, DatabaseRole, DatabaseRoleBinding, ScopedAccessPolicy,
};
use logpose::domain::{
    CollectionPlacement, CoordinationStatus, DeleteRecord, InspectTarget, MaintenanceBacklog,
    NamedSize, NodeMetadata, NodeRuntimeStatus, WriteOperation,
};
use logpose::grpc::headers::request_auth_from_metadata;
use logpose::grpc::predicates::{predicate_from_proto, scalar_value_from_proto};
use logpose::grpc::replies::{
    collection_placement_reply_from_domain, database_access_policy_to_proto,
    query_diagnostics_to_proto, runtime_status_reply_from_domain, scalar_value_to_proto,
};
use logpose::grpc::requests::{
    authentication_mode_from_proto, collection_lookup_key, create_request_from_proto,
    database_access_policy_from_proto, database_descriptor_from_proto, database_role_from_proto,
    explain_mode_from_proto, inspect_target_from_proto, metric_from_proto, operation_with_metadata,
    query_request_from_proto, write_operation_from_proto, write_operations_from_proto,
};
use logpose::grpc::status::{status_from_service_error, RpcCode, RpcStatus};
use logpose::json::JsonNumber;
use logpose::proto;
use logpose::query::{
    ExplainMode, Predicate, PredicateComparison, PredicateOperator, QueryDiagnostics,
    QueryPlanKind, QueryStageTimings,
};
use logpose::scalar::ScalarMetadataValue;
use logpose::types::{DistanceMetric, NodeRole, ServiceError};

fn bad_request(message: &str) -> RpcStatus {
    RpcStatus {
        code: RpcCode::InvalidArgument,
        message: message.to_owned(),
    }
}

fn scalar(kind: proto::ScalarKind) -> proto::ScalarValue {
    proto::ScalarValue { kind: Some(kind) }
}

fn put(id: &str, metadata_json: &str) -> proto::WriteOperation {
    proto::WriteOperation {
        operation: Some(proto::Operation::Put(proto::PutRecord {
            id: id.to_owned(),
            vector: vec![1, 2],
            metadata_json: metadata_json.to_owned(),
        })),
    }
}

fn delete(id: &str) -> proto::WriteOperation {
    proto::WriteOperation {
        operation: Some(proto::Operation::Delete(proto::DeleteRecord {
            id: id.to_owned(),
        })),
    }
}

fn query(top_k: u64) -> proto::QueryCollectionRequest {
    proto::QueryCollectionRequest {
        collection_name: "documents".to_owned(),
        vector: vec![1, 2],
        top_k,
        snapshot: None,
        filters: Vec::new(),
        predicate: None,
        explain: proto::ExplainMode::Off,
        database_name: String::new(),
    }
}

#[test]
fn query_diagnostics_to_proto_preserves_ann_fields() {
    let diagnostics = QueryDiagnostics {
        chosen_plan: QueryPlanKind::CooperativeFilteredAnn,
        planner_reason: "filtered ann traversal is cheaper than exact scan for this selectivity"
            .to_owned(),
        estimated_selectivity: 0.25f32.to_bits(),
        units_considered: 2,
        units_pruned: 1,
        units_scanned: 1,
        candidates_before_filter: 17,
        candidates_after_filter: 13,
        candidates_reranked: 7,
        candidates_merged: 5,
        rerank_count: 1,
        fallback_reason: Some("fallback".to_owned()),
        unit_scan_mix: vec![
            NamedSize {
                name: "immutable_ann".to_owned(),
                size: 1,
            },
            NamedSize {
                name: "mutable_exact".to_owned(),
                size: 2,
            },
        ],
        stage_timings: Some(QueryStageTimings {
            planning_micros: 11,
            prefilter_micros: 22,
            candidate_generation_micros: 33,
            postfilter_micros: 44,
            rerank_micros: 55,
            merge_micros: 66,
        }),
    };

    let proto = query_diagnostics_to_proto(diagnostics).expect("conversion should succeed");
    let mixed = |name: &str| {
        proto
            .unit_scan_mix
            .iter()
            .find(|entry| entry.name == name)
            .map(|entry| entry.count)
    };
    assert_eq!(proto.chosen_plan, proto::QueryPlanKind::CooperativeFilteredAnn);
    assert_eq!(
        proto.planner_reason,
        "filtered ann traversal is cheaper than exact scan for this selectivity"
    );
    assert!((f32::from_bits(proto.estimated_selectivity) - 0.25).abs() <= f32::EPSILON);
    assert_eq!(proto.units_considered, 2);
    assert_eq!(proto.units_pruned, 1);
    assert_eq!(proto.units_scanned, 1);
    assert_eq!(proto.candidates_before_filter, 17);
    assert_eq!(proto.candidates_after_filter, 13);
    assert_eq!(proto.candidates_reranked, 7);
    assert_eq!(proto.candidates_merged, 5);
    assert_eq!(proto.rerank_count, 1);
    assert_eq!(proto.fallback_reason.as_deref(), Some("fallback"));
    assert_eq!(mixed("immutable_ann"), Some(1));
    assert_eq!(mixed("mutable_exact"), Some(2));
    let timings = proto.stage_timings.expect("timings should be present");
    assert_eq!(timings.planning_micros, 11);
    assert_eq!(timings.prefilter_micros, 22);
    assert_eq!(timings.candidate_generation_micros, 33);
    assert_eq!(timings.postfilter_micros, 44);
    assert_eq!(timings.rerank_micros, 55);
    assert_eq!(timings.merge_micros, 66);
}

#[test]
fn grpc_runtime_status_reply_includes_coordination_when_present() {
    let reply = runtime_status_reply_from_domain(NodeRuntimeStatus {
        metadata: NodeMetadata {
            product: "LogPose".to_owned(),
            node_name: "grpc-node".to_owned(),
            version: "test".to_owned(),
            git_sha: "sha".to_owned(),
            profile: "debug".to_owned(),
        },
        role: NodeRole::Combined,
        rest_endpoint: "http://127.0.0.1:8080".to_owned(),
        grpc_endpoint: "http://127.0.0.1:50051".to_owned(),
        storage_engine: "local+etcd-metadata".to_owned(),
        control_plane_ready: true,
        data_plane_ready: true,
        collection_count: 0,
        collections: Vec::new(),
        coordination: Some(CoordinationStatus {
            cluster_name: "prod-cluster".to_owned(),
            membership_registered: true,
            membership_lease_id: Some(17),
            registered_members: vec!["grpc-node".to_owned(), "grpc-peer".to_owned()],
            leader_node: Some("grpc-node".to_owned()),
            is_local_leader: true,
            leadership_lease_id: Some(23),
            last_error: Some("warn".to_owned()),
        }),
        maintenance: MaintenanceBacklog::default(),
    });

    let coordination = reply
        .coordination
        .expect("coordination should be serialized");
    assert_eq!(coordination.cluster_name, "prod-cluster");
    assert_eq!(coordination.membership_lease_id, Some(17));
    assert_eq!(coordination.leadership_lease_id, Some(23));
    assert_eq!(
        coordination.registered_members,
        vec!["grpc-node".to_owned(), "grpc-peer".to_owned()]
    );
    assert_eq!(coordination.leader_node.as_deref(), Some("grpc-node"));
    assert!(coordination.is_local_leader);
    assert_eq!(coordination.last_error.as_deref(), Some("warn"));
}

#[test]
fn collection_placement_reply_serializes_owner_fields_when_present() {
    let reply = collection_placement_reply_from_domain(CollectionPlacement {
        collection_id: "collection-1".to_owned(),
        database_name: "analytics".to_owned(),
        collection_name: "documents".to_owned(),
        assigned_node: "owner-a".to_owned(),
        assigned_role: NodeRole::Data,
        owner_node: Some("owner-b".to_owned()),
        ownership_epoch: Some(2),
        route_kind: "recorded".to_owned(),
        route_reason: "ownership epoch 2 is assigned to node 'owner-b'".to_owned(),
    });

    assert_eq!(reply.owner_node.as_deref(), Some("owner-b"));
    assert_eq!(reply.ownership_epoch, Some(2));
}

#[test]
fn service_failures_keep_class_and_message() {
    let code = |error: ServiceError| {
        let status = status_from_service_error(error);
        assert_eq!(status.message, "why");
        status.code
    };
    let message = || "why".to_owned();

    assert_eq!(code(ServiceError::AlreadyExists(message())), RpcCode::AlreadyExists);
    assert_eq!(code(ServiceError::NotFound(message())), RpcCode::NotFound);
    assert_eq!(code(ServiceError::InvalidArgument(message())), RpcCode::InvalidArgument);
    assert_eq!(code(ServiceError::Unauthenticated(message())), RpcCode::Unauthenticated);
    assert_eq!(code(ServiceError::PermissionDenied(message())), RpcCode::PermissionDenied);
    assert_eq!(code(ServiceError::FailedPrecondition(message())), RpcCode::FailedPrecondition);
    assert_eq!(code(ServiceError::Internal(message())), RpcCode::Internal);
}

#[test]
fn authorization_metadata_is_read() {
    let auth = request_auth_from_metadata(Some(b"Bearer secret")).expect("token should be read");
    assert_eq!(auth.bearer_token_str(), Some("secret"));
    let auth = request_auth_from_metadata(None).expect("no metadata is no token");
    assert_eq!(auth.bearer_token_str(), None);

    let status = request_auth_from_metadata(Some(b"secret")).expect_err("no scheme");
    assert_eq!(status.code, RpcCode::Unauthenticated);
    assert_eq!(status.message, "authorization metadata must use the Bearer scheme");
    let status = request_auth_from_metadata(Some(b"Bearer \x7f")).expect_err("not printable");
    assert_eq!(status.message, "authorization metadata must be valid ASCII");
}

#[test]
fn requests_without_a_database_use_the_default_one() {
    assert_eq!(collection_lookup_key(" ", "documents"), "default/documents");
    assert_eq!(collection_lookup_key("analytics", "documents"), "analytics/documents");

    let request = create_request_from_proto(proto::CreateCollectionRequest {
        name: "documents".to_owned(),
        dimensions: 2,
        metric: proto::DistanceMetric::L2,
        database_name: String::new(),
    })
    .expect("request should be read");
    assert_eq!(request.database_name, "default");
    assert_eq!(request.metric, DistanceMetric::L2);
    assert_eq!(request.dimensions, 2);
}

#[test]
fn operations_need_an_id_and_json() {
    assert_eq!(
        write_operation_from_proto(delete("alpha")),
        Ok(WriteOperation::Delete(DeleteRecord {
            id: "alpha".to_owned()
        }))
    );
    assert!(matches!(
        write_operation_from_proto(put("alpha", r#"{"kind":"keep"}"#)),
        Ok(WriteOperation::Put(record)) if record.metadata_json == r#"{"kind":"keep"}"#
    ));
    assert_eq!(
        write_operation_from_proto(put("", "{}")),
        Err(bad_request("put operation record id must not be empty"))
    );
    assert_eq!(
        write_operation_from_proto(delete("")),
        Err(bad_request("delete operation record id must not be empty"))
    );
    assert_eq!(
        write_operation_from_proto(proto::WriteOperation { operation: None }),
        Err(bad_request("write operation must include put or delete"))
    );
    let status = write_operation_from_proto(put("alpha", "{")).expect_err("no JSON");
    assert!(status.message.starts_with("invalid metadata_json: EOF while parsing"));

    assert_eq!(
        write_operations_from_proto(vec![delete("alpha"), put("", "{}"), delete("")]),
        Err(bad_request("put operation record id must not be empty"))
    );
    assert_eq!(
        write_operations_from_proto(vec![delete("alpha"), delete("beta")]).map(|found| found.len()),
        Ok(2)
    );
}

#[test]
fn metadata_is_read_in_one_notation() {
    let read = |text: &str| match write_operation_from_proto(put("alpha", text)) {
        Ok(WriteOperation::Put(record)) => record.metadata_json,
        other => panic!("unexpected operation {other:?}"),
    };
    assert_eq!(read(r#"{ "b" : 1 , "a" : [ 2 , 3E1 ] }"#), r#"{"a":[2,30.0],"b":1}"#);
    assert_eq!(read(" null "), "null");

    assert!(matches!(
        operation_with_metadata(put("alpha", "{"), Ok("[]".to_owned())),
        Ok(WriteOperation::Put(record)) if record.metadata_json == "[]"
    ));
    assert_eq!(
        operation_with_metadata(put("alpha", "{}"), Err("no".to_owned())),
        Err(bad_request("invalid metadata_json: no"))
    );
}

#[test]
fn scalars_are_read_and_written() {
    let number = |value: &proto::ScalarValue| match &value.kind {
        Some(proto::ScalarKind::Int64Value(value)) => *value,
        other => panic!("unexpected scalar {other:?}"),
    };
    let read = scalar_value_from_proto(scalar(proto::ScalarKind::Int64Value(-3)))
        .expect("integer should be read");
    assert_eq!(
        read,
        ScalarMetadataValue::Number(JsonNumber {
            signed: Some(-3),
            unsigned: None,
            double_bits: Some((-3f64).to_bits()),
        })
    );
    let written = scalar_value_to_proto(read).expect("integer should be written");
    assert_eq!(number(&written), -3);

    let large = u64::MAX;
    assert_eq!(
        scalar_value_from_proto(scalar(proto::ScalarKind::Uint64Value(large))),
        Ok(ScalarMetadataValue::Number(JsonNumber {
            signed: None,
            unsigned: Some(large),
            double_bits: Some((large as f64).to_bits()),
        }))
    );
    assert_eq!(
        scalar_value_from_proto(scalar(proto::ScalarKind::DoubleValue(0.5f64.to_bits()))),
        Ok(ScalarMetadataValue::Number(JsonNumber {
            signed: None,
            unsigned: None,
            double_bits: Some(0.5f64.to_bits()),
        }))
    );
    for broken in [f64::NAN, f64::INFINITY, f64::NEG_INFINITY] {
        assert_eq!(
            scalar_value_from_proto(scalar(proto::ScalarKind::DoubleValue(broken.to_bits()))),
            Err(bad_request("double scalar value must be finite"))
        );
    }
    assert_eq!(
        scalar_value_from_proto(scalar(proto::ScalarKind::NullValue(false))),
        Ok(ScalarMetadataValue::Null)
    );
    assert_eq!(
        scalar_value_from_proto(proto::ScalarValue { kind: None }),
        Err(bad_request("scalar value kind is required"))
    );
    let status = scalar_value_to_proto(ScalarMetadataValue::Number(JsonNumber {
        signed: None,
        unsigned: None,
        double_bits: None,
    }))
    .expect_err("a number that is nothing has no message");
    assert_eq!(status.code, RpcCode::Internal);
    assert_eq!(status.message, "numeric scalar value must be finite");
}

#[test]
fn predicates_are_read_in_depth() {
    let comparison = |operator: proto::PredicateOperator| proto::Predicate {
        node: Some(proto::PredicateNode::Comparison(proto::PredicateComparison {
            field: "kind".to_owned(),
            operator,
            value: Some(scalar(proto::ScalarKind::BoolValue(true))),
        })),
    };
    let read = Predicate::Comparison(PredicateComparison {
        field: "kind".to_owned(),
        operator: PredicateOperator::Gte,
        value: Some(ScalarMetadataValue::Bool(true)),
    });
    let message = proto::Predicate {
        node: Some(proto::PredicateNode::Or(vec![proto::Predicate {
            node: Some(proto::PredicateNode::Not(Some(Box::new(comparison(
                proto::PredicateOperator::Gte,
            ))))),
        }])),
    };
    assert_eq!(
        predicate_from_proto(message),
        Ok(Predicate::Or {
            children: vec![Predicate::Not {
                child: Box::new(read)
            }]
        })
    );

    assert_eq!(
        predicate_from_proto(proto::Predicate { node: None }),
        Err(bad_request("predicate node is required"))
    );
    assert_eq!(
        predicate_from_proto(proto::Predicate {
            node: Some(proto::PredicateNode::Not(None))
        }),
        Err(bad_request("not predicate child is required"))
    );
    for operator in [
        proto::PredicateOperator::Unspecified,
        proto::PredicateOperator::Unknown(77),
    ] {
        assert_eq!(
            predicate_from_proto(proto::Predicate {
                node: Some(proto::PredicateNode::And(vec![
                    comparison(proto::PredicateOperator::Eq),
                    comparison(operator),
                    proto::Predicate { node: None },
                ]))
            }),
            Err(bad_request("predicate comparison operator must be set"))
        );
    }
}

#[test]
fn queries_are_read_in_order() {
    let request = query_request_from_proto(query(3)).expect("query should be read");
    assert_eq!(request.collection_name, "default/documents");
    assert_eq!(request.top_k, 3);
    assert_eq!(request.explain, ExplainMode::Off);
    assert_eq!(request.read_barrier, None);

    let mut broken = query(0);
    broken.explain = proto::ExplainMode::Unknown(9);
    assert_eq!(
        query_request_from_proto(broken),
        Err(bad_request("top_k must be greater than 0"))
    );
    let mut broken = query(1);
    broken.filters = vec![proto::MetadataFilter {
        field: "kind".to_owned(),
        value: None,
    }];
    broken.predicate = Some(proto::Predicate { node: None });
    assert_eq!(
        query_request_from_proto(broken),
        Err(bad_request("metadata filter value is required"))
    );
    let mut broken = query(1);
    broken.predicate = Some(proto::Predicate { node: None });
    broken.explain = proto::ExplainMode::Unknown(9);
    assert_eq!(
        query_request_from_proto(broken),
        Err(bad_request("predicate node is required"))
    );
    assert_eq!(
        explain_mode_from_proto(proto::ExplainMode::Unknown(9)),
        Err(bad_request("explain mode must be a valid enum value"))
    );
}

#[test]
fn enumerations_without_a_meaning_are_refused() {
    assert_eq!(
        metric_from_proto(proto::DistanceMetric::Unknown(9)),
        Err(bad_request("distance metric must be set"))
    );
    assert_eq!(
        inspect_target_from_proto(proto::InspectTarget::Unknown(-7), String::new()),
        Err(bad_request("unsupported inspect target '-7'"))
    );
    assert_eq!(
        inspect_target_from_proto(proto::InspectTarget::Segment, String::new()),
        Err(bad_request("segment_id is required when inspect target is SEGMENT"))
    );
    assert_eq!(
        inspect_target_from_proto(proto::InspectTarget::Segment, "seg-1".to_owned()),
        Ok(InspectTarget::Segment("seg-1".to_owned()))
    );
    assert_eq!(
        authentication_mode_from_proto(proto::AuthenticationMode::Unspecified),
        Err(bad_request("authentication mode is required"))
    );
    assert_eq!(
        authentication_mode_from_proto(proto::AuthenticationMode::Unknown(i32::MIN)),
        Err(bad_request("unsupported authentication mode '-2147483648'"))
    );
    assert_eq!(
        database_role_from_proto(proto::DatabaseRole::Unspecified),
        Err(bad_request("database role is required"))
    );
    assert_eq!(
        database_role_from_proto(proto::DatabaseRole::Unknown(40)),
        Err(bad_request("unsupported database role '40'"))
    );
}

#[test]
fn policies_and_databases_are_read_and_written() {
    let binding = |database: &str| DatabaseRoleBinding {
        database_name: database.to_owned(),
        principal_name: "writer-service".to_owned(),
        role: DatabaseRole::ReadWrite,
    };
    let scoped = |database: &str| ScopedAccessPolicy {
        database_name: database.to_owned(),
        policy: DatabaseAccessPolicy {
            authentication_mode: AuthenticationMode::ExternalToken,
            role_bindings: vec![binding(database)],
        },
    };
    let message = database_access_policy_to_proto(scoped("analytics"));
    assert_eq!(
        database_access_policy_from_proto(Some(message)),
        Ok(scoped("analytics"))
    );
    let message = database_access_policy_to_proto(scoped(" "));
    assert_eq!(
        database_access_policy_from_proto(Some(message)),
        Ok(scoped("default"))
    );
    assert_eq!(
        database_access_policy_from_proto(None),
        Err(bad_request("database policy payload is required"))
    );

    assert_eq!(
        database_descriptor_from_proto(None),
        Err(bad_request("database descriptor payload is required"))
    );
    assert_eq!(
        database_descriptor_from_proto(Some(proto::DatabaseDescriptorReply {
            database_id: proto::WireId::Unparsed {
                text: "x".to_owned(),
                error: "bad length".to_owned(),
            },
            name: "analytics".to_owned(),
            is_default: false,
        })),
        Err(bad_request("invalid database_id: bad length"))
    );
}
