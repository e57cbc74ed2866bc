use logpose::catalog::{
    join_path, CollectionDescriptor, DatabaseDescriptor, DEFAULT_COMPACTION_THRESHOLD_SEGMENTS,
    DEFAULT_FLUSH_THRESHOLD_BYTES, DEFAULT_FLUSH_THRESHOLD_OPS,
};
use logpose::domain::{DeleteRecord, PutRecord, RemoteBlobConfig, WriteOperation};
use logpose::namespace::{
    parse_collection_reference, split_collection_lookup_key, CollectionRef,
};
use logpose::types::{default_database_name, DistanceMetric, ServiceError};

const ROOT: &str = "/tmp/catalog-validation";

fn database(name: &str) -> DatabaseDescriptor {
    DatabaseDescriptor::new(name, "database-default", "database-fresh")
}

fn collection(name: &str, dimensions: usize) -> CollectionDescriptor {
    CollectionDescriptor::new(name, dimensions, DistanceMetric::Dot, ROOT, "collection-1")
}

fn collection_in(database_name: &str, name: &str) -> CollectionDescriptor {
    CollectionDescriptor::new_in_database(
        database_name,
        name,
        2,
        DistanceMetric::Dot,
        ROOT,
        "collection-1",
    )
}

#[test]
fn database_descriptor_lookup_name_is_database_only() {
    let descriptor = database("analytics");

    assert_eq!(descriptor.lookup_name(), "analytics");
    assert_eq!(descriptor.database_id, "database-fresh");
    assert_eq!(descriptor.name, "analytics");
    assert!(!descriptor.is_default);
}

#[test]
fn database_descriptor_rejects_empty_name() {
    let error = database("   ")
        .validate()
        .expect_err("blank database name should fail");

    assert!(error.to_text().contains("database name"));
}

#[test]
fn database_descriptor_rejects_inconsistent_default_flag() {
    let error = DatabaseDescriptor {
        database_id: "database-1".to_owned(),
        name: "analytics".to_owned(),
        is_default: true,
    }
    .validate()
    .expect_err("non-default databases must not be flagged as default");

    assert!(error.to_text().contains("is_default"));
}

#[test]
fn collection_descriptor_defaults_to_default_database() {
    let descriptor = collection("events", 2);

    assert_eq!(descriptor.database_name, default_database_name());
    assert_eq!(descriptor.collection_id, "collection-1");
    assert_eq!(descriptor.name, "events");
    assert_eq!(descriptor.dimensions, 2);
    assert_eq!(descriptor.metric, DistanceMetric::Dot);
    assert_eq!(descriptor.root_path, "/tmp/catalog-validation/collection-1");
    assert_eq!(descriptor.remote_blob, None);
    assert_eq!(descriptor.flush_threshold_ops, DEFAULT_FLUSH_THRESHOLD_OPS);
    assert_eq!(descriptor.flush_threshold_bytes, DEFAULT_FLUSH_THRESHOLD_BYTES);
    assert_eq!(
        descriptor.compaction_threshold_segments,
        DEFAULT_COMPACTION_THRESHOLD_SEGMENTS
    );
}

#[test]
fn namespace_descriptors_reject_reserved_separator() {
    let database_error = database("analytics/v2")
        .validate()
        .expect_err("slash-containing database name should fail");
    assert!(database_error.to_text().contains("database name"));

    let collection_error = collection_in("analytics", "docs/v2")
        .validate()
        .expect_err("slash-containing collection name should fail");
    assert!(collection_error.to_text().contains("collection_name"));
}

#[test]
fn namespace_descriptors_reject_relative_path_components() {
    let database_error = database("..")
        .validate()
        .expect_err("relative database names should fail");
    assert!(database_error.to_text().contains("relative path"));

    let collection_error = collection_in(".", "events")
        .validate()
        .expect_err("relative database path components should fail");
    assert!(collection_error.to_text().contains("relative path"));
}

#[test]
fn collection_descriptor_lookup_name_is_database_and_collection_only() {
    let descriptor = collection_in("analytics", "events");

    assert_eq!(descriptor.lookup_name(), "analytics/events");
}

#[test]
fn rejects_non_positive_maintenance_thresholds() {
    let mut descriptor = collection("events", 2);
    descriptor.flush_threshold_ops = 0;
    assert!(descriptor
        .validate()
        .expect_err("zero flush ops should fail")
        .to_text()
        .contains("flush_threshold_ops"));

    let mut descriptor = collection("events", 2);
    descriptor.flush_threshold_bytes = 0;
    assert!(descriptor
        .validate()
        .expect_err("zero flush bytes should fail")
        .to_text()
        .contains("flush_threshold_bytes"));

    let mut descriptor = collection("events", 2);
    descriptor.compaction_threshold_segments = 1;
    assert!(descriptor
        .validate()
        .expect_err("compaction threshold of one should fail")
        .to_text()
        .contains("compaction_threshold_segments"));
}

#[test]
fn rejects_zero_dimensions() {
    let descriptor = collection("events", 0);

    assert!(descriptor
        .validate()
        .expect_err("zero dimensions should fail")
        .to_text()
        .contains("dimensions"));
}

#[test]
fn serving_identity_ignores_runtime_root_path() {
    let descriptor = collection("events", 2);
    let stripped = descriptor.without_root_path();

    assert!(descriptor.matches_serving_identity(&stripped));
    assert_eq!(stripped.root_path, "");
}

#[test]
fn serving_identity_notices_every_other_field() {
    let base = collection("events", 2);

    let mut other = collection("events", 2);
    other.collection_id = "collection-2".to_owned();
    assert!(!base.matches_serving_identity(&other));

    let mut other = collection("events", 2);
    other.database_name = "analytics".to_owned();
    assert!(!base.matches_serving_identity(&other));

    assert!(!base.matches_serving_identity(&collection("event", 2)));
    assert!(!base.matches_serving_identity(&collection("events", 3)));

    let mut other = collection("events", 2);
    other.metric = DistanceMetric::L2;
    assert!(!base.matches_serving_identity(&other));

    let mut other = collection("events", 2);
    other.remote_blob = Some(RemoteBlobConfig {
        endpoint: "http://blobs".to_owned(),
        bucket: "b".to_owned(),
        prefix: "p".to_owned(),
    });
    assert!(!base.matches_serving_identity(&other));
    assert!(other.matches_serving_identity(&other.without_root_path()));

    let mut other = collection("events", 2);
    other.compaction_threshold_segments = 5;
    assert!(!base.matches_serving_identity(&other));
}

#[test]
fn default_database_has_an_identifier_of_its_own() {
    let descriptor = database("default");

    assert!(descriptor.is_default);
    assert_eq!(descriptor.database_id, "database-default");
    assert!(descriptor.validate().is_ok());
    assert_eq!(descriptor.database_ref().lookup_name(), "default");

    let unflagged = DatabaseDescriptor {
        database_id: "database-1".to_owned(),
        name: "default".to_owned(),
        is_default: false,
    };
    assert_eq!(
        unflagged
            .validate()
            .expect_err("unflagged default should fail")
            .to_text(),
        "database descriptor is_default must be true for database 'default'"
    );
}

#[test]
fn operations_have_to_fit_the_dimensions() {
    let descriptor = collection("events", 2);
    let put = |vector: Vec<u32>| {
        WriteOperation::Put(PutRecord {
            id: "alpha".to_owned(),
            vector,
            metadata_json: "{}".to_owned(),
        })
    };

    assert!(descriptor.validate_operation(&put(vec![1, 2])).is_ok());
    assert_eq!(
        descriptor
            .validate_operation(&put(vec![1]))
            .expect_err("short vector should fail")
            .to_text(),
        "record 'alpha' has 1 dimensions but the collection expects 2"
    );
    assert!(descriptor
        .validate_operation(&WriteOperation::Delete(DeleteRecord {
            id: "alpha".to_owned(),
        }))
        .is_ok());
    assert_eq!(
        collection("events", 0)
            .validate_operation(&put(vec![1]))
            .expect_err("invalid collection should fail")
            .to_text(),
        "dimensions must be greater than 0"
    );
}

#[test]
fn paths_join_like_paths() {
    assert_eq!(join_path("/data", "a"), "/data/a");
    assert_eq!(join_path("/data/", "a"), "/data/a");
    assert_eq!(join_path("", "a"), "a");
    assert_eq!(join_path("/data", "/a"), "/a");
}

#[test]
fn parse_collection_reference_accepts_database_collection() {
    let reference = parse_collection_reference("analytics/documents")
        .expect("database-qualified collection name should parse");

    assert_eq!(reference.database_name, "analytics");
    assert_eq!(reference.collection_name, "documents");
}

#[test]
fn collection_references_default_to_the_default_database() {
    let reference = parse_collection_reference("  documents ").expect("name should parse");

    assert_eq!(reference.database_name, "default");
    assert_eq!(reference.collection_name, "documents");
    assert_eq!(reference.lookup_name(), "default/documents");
}

#[test]
fn malformed_collection_references_are_refused() {
    assert_eq!(
        parse_collection_reference("a/b/c"),
        Err(ServiceError::InvalidArgument(
            "unsupported collection reference 'a/b/c': expected 'collection' or 'database/collection'"
                .to_owned()
        ))
    );
    assert_eq!(
        parse_collection_reference("/b"),
        Err(ServiceError::InvalidArgument(
            "database_name must not be empty".to_owned()
        ))
    );
    assert_eq!(
        parse_collection_reference("a/.."),
        Err(ServiceError::InvalidArgument(
            "collection_name must not be a relative path component".to_owned()
        ))
    );
}

#[test]
fn keys_of_valid_names_split_again() {
    let reference = CollectionRef::new("analytics".to_owned(), " docs".to_owned());
    let key = reference.lookup_name();

    assert_eq!(key, "analytics/ docs");
    assert_eq!(
        split_collection_lookup_key(&key),
        ("analytics".to_owned(), " docs".to_owned())
    );
    assert_eq!(parse_collection_reference("analytics/docs").map(|found| found.lookup_name()),
        Ok("analytics/docs".to_owned()));
    assert_eq!(
        split_collection_lookup_key("a/b/c"),
        ("default".to_owned(), "a/b/c".to_owned())
    );
    assert_eq!(
        split_collection_lookup_key(" /b"),
        ("default".to_owned(), " /b".to_owned())
    );
}
