use logpose::access::RequestAuth;
use logpose::auth::{AuthenticationMode, DatabaseAccessPolicy, ScopedAccessPolicy};
use logpose::catalog::DatabaseDescriptor;
use logpose::domain::{DeleteRecord, InspectTarget, Snapshot, WriteOperation};
use logpose::json::{object_fields, JsonField};
use logpose::query::ExplainMode;
use logpose::rest::{
    collection_lookup_key, failure_from_service_error, inspect_target_from_params,
    request_auth_from_headers, validate_database_scope, validate_policy_scope,
    CollectionScopedResponse, CreateCollectionBody, InspectCollectionParams, NamespaceQuery,
    QueryCollectionBody, WriteCollectionBody,
};
use logpose::scalar::ScalarMetadataValue;
use logpose::types::{DistanceMetric, ServiceError};

fn token(auth: &RequestAuth) -> Option<&str> {
    auth.bearer_token_str()
}

fn query(top_k: usize, filters: Vec<JsonField>) -> QueryCollectionBody {
    QueryCollectionBody {
        database_name: " ".to_owned(),
        vector: vec![1, 2],
        top_k,
        snapshot: Some(Snapshot {
            manifest_generation: 1,
            visible_seq_no: 2,
        }),
        filters,
        predicate: None,
        explain: ExplainMode::Plan,
    }
}

#[test]
fn authorization_headers_carry_bearer_tokens() {
    let auth = request_auth_from_headers(None).expect("no header is no token");
    assert_eq!(token(&auth), None);

    let auth = request_auth_from_headers(Some(b"bEARER  secret\t")).expect("token should be read");
    assert_eq!(token(&auth), Some("secret"));
}

#[test]
fn unusable_authorization_headers_are_refused() {
    let scheme = ServiceError::Unauthenticated(
        "authorization header must use the Bearer scheme".to_owned(),
    );
    for raw in [&b"Bearer"[..], &b"Basic abc"[..], &b"Bearer   "[..]] {
        let error = request_auth_from_headers(Some(raw)).expect_err("header should be refused");
        assert_eq!(error, scheme);
    }
    let error = request_auth_from_headers(Some(b"Bearer \xff")).expect_err("not ASCII");
    assert_eq!(
        error,
        ServiceError::Unauthenticated("authorization header must be valid ASCII".to_owned())
    );
}

#[test]
fn failures_keep_their_message() {
    let failure = |error: ServiceError| {
        let failure = failure_from_service_error(error);
        (failure.status, failure.error)
    };
    let message = || "why".to_owned();

    assert_eq!(failure(ServiceError::AlreadyExists(message())), (409, message()));
    assert_eq!(failure(ServiceError::NotFound(message())), (404, message()));
    assert_eq!(failure(ServiceError::InvalidArgument(message())), (400, message()));
    assert_eq!(failure(ServiceError::Unauthenticated(message())), (401, message()));
    assert_eq!(failure(ServiceError::PermissionDenied(message())), (403, message()));
    assert_eq!(failure(ServiceError::FailedPrecondition(message())), (412, message()));
    assert_eq!(failure(ServiceError::Internal(message())), (500, message()));
}

#[test]
fn bodies_have_to_match_the_addressed_database() {
    let policy = ScopedAccessPolicy {
        database_name: "analytics".to_owned(),
        policy: DatabaseAccessPolicy::new(AuthenticationMode::Password),
    };
    assert!(validate_policy_scope(&policy, "analytics").is_ok());
    assert_eq!(
        validate_policy_scope(&policy, "other"),
        Err(ServiceError::InvalidArgument(
            "database policy database_name 'analytics' does not match request database 'other'"
                .to_owned()
        ))
    );
    let descriptor = DatabaseDescriptor::new("analytics", "d", "f");
    assert!(validate_database_scope(&descriptor, "analytics").is_ok());
    assert_eq!(
        validate_database_scope(&descriptor, "other"),
        Err(ServiceError::InvalidArgument(
            "database descriptor name 'analytics' does not match request database 'other'"
                .to_owned()
        ))
    );
}

#[test]
fn blank_databases_are_the_default_one() {
    let namespace = NamespaceQuery {
        database: "  ".to_owned(),
    };
    let collection = namespace.collection("documents".to_owned());
    assert_eq!(collection_lookup_key(&collection), "default/documents");
    assert_eq!(NamespaceQuery::default().database, "default");

    let request = CreateCollectionBody {
        database_name: String::new(),
        name: "documents".to_owned(),
        dimensions: 2,
        metric: DistanceMetric::Cosine,
    }
    .into_request();
    assert_eq!(request.database_name, "default");
    assert_eq!(request.name, "documents");
    assert_eq!(request.dimensions, 2);
    assert_eq!(request.metric, DistanceMetric::Cosine);

    let scoped = CollectionScopedResponse::new(collection, 7);
    assert_eq!(scoped.database_name, "default");
    assert_eq!(scoped.collection_name, "documents");
    assert_eq!(scoped.response, 7);
}

#[test]
fn writes_have_to_name_records() {
    let body = |id: &str| WriteCollectionBody {
        database_name: "analytics".to_owned(),
        operations: vec![
            WriteOperation::Delete(DeleteRecord {
                id: "alpha".to_owned(),
            }),
            WriteOperation::Delete(DeleteRecord { id: id.to_owned() }),
        ],
    };

    assert!(body("beta").validate().is_ok());
    assert_eq!(
        body("").validate(),
        Err(ServiceError::InvalidArgument(
            "write operation record id must not be empty".to_owned()
        ))
    );
    assert_eq!(
        body("beta").collection("documents".to_owned()).lookup_name(),
        "analytics/documents"
    );
}

#[test]
fn queries_take_scalar_filters_only() {
    let body = query(3, object_fields(r#"{"kind":"keep","rank":2,"gone":null}"#));
    let collection = body.collection("documents".to_owned());
    let request = body.into_request(&collection).expect("query should be shaped");

    assert_eq!(request.collection_name, "default/documents");
    assert_eq!(request.vector, vec![1, 2]);
    assert_eq!(request.top_k, 3);
    assert_eq!(request.snapshot.map(|found| found.visible_seq_no), Some(2));
    assert_eq!(request.read_barrier, None);
    assert_eq!(request.explain, ExplainMode::Plan);
    let kind = request
        .filters
        .iter()
        .find(|filter| filter.field == "kind")
        .expect("filter should be kept");
    assert_eq!(kind.value, ScalarMetadataValue::String("keep".to_owned()));
    assert_eq!(request.filters.len(), 3);

    let body = query(3, object_fields(r#"{"kind":["keep"]}"#));
    assert_eq!(
        body.into_request(&collection),
        Err(ServiceError::InvalidArgument(
            "query filters must contain only scalar JSON values".to_owned()
        ))
    );
    let body = query(0, object_fields(r#"{"kind":["keep"]}"#));
    assert_eq!(
        body.into_request(&collection),
        Err(ServiceError::InvalidArgument(
            "top_k must be greater than 0".to_owned()
        ))
    );
}

#[test]
fn inspection_targets_are_named() {
    let read = |target: Option<&str>, segment_id: Option<&str>| {
        inspect_target_from_params(InspectCollectionParams {
            database: String::new(),
            target: target.map(str::to_owned),
            segment_id: segment_id.map(str::to_owned),
        })
        .map(|(target, namespace)| {
            assert_eq!(namespace.database, "default");
            target
        })
    };

    assert_eq!(read(None, None), Ok(InspectTarget::Manifest));
    assert_eq!(read(Some("wal"), None), Ok(InspectTarget::Wal));
    assert_eq!(read(Some("maintenance"), None), Ok(InspectTarget::Maintenance));
    assert_eq!(
        read(Some("segment"), Some("seg-1")),
        Ok(InspectTarget::Segment("seg-1".to_owned()))
    );
    for segment_id in [None, Some("")] {
        assert_eq!(
            read(Some("segment"), segment_id),
            Err(ServiceError::InvalidArgument(
                "inspect target 'segment' requires segment_id".to_owned()
            ))
        );
    }
    assert_eq!(
        read(Some("Wal"), None),
        Err(ServiceError::InvalidArgument(
            "unsupported inspect target 'Wal'".to_owned()
        ))
    );
}
