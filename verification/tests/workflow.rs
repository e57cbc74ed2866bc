use logpose::catalog::{CollectionDescriptor, DatabaseDescriptor};
use logpose::domain::{CollectionPlacement, CommitAck, Snapshot};
use logpose::types::{DistanceMetric, NodeRole, ServiceError};
use logpose::workflow::{
    begin_create, collection_created, database_put, leadership_checked, placement_read,
    reject_promoted_read_barriers, require_control_plane_collection_mutation,
    require_control_plane_database_mutation, require_data_plane, CatalogTarget, CreateStep,
    LeadershipFence, SharedCatalog, UpdateOperation, UpdateOutcome, UpdateRequest, UpdateStep,
};

const SNAPSHOT: Snapshot = Snapshot {
    manifest_generation: 3,
    visible_seq_no: 7,
};

fn placement(route_kind: &str, epoch: Option<u64>) -> CollectionPlacement {
    CollectionPlacement {
        collection_id: "collection-1".to_owned(),
        database_name: "analytics".to_owned(),
        collection_name: "documents".to_owned(),
        assigned_node: "owner-a".to_owned(),
        assigned_role: NodeRole::Data,
        owner_node: Some("owner-b".to_owned()),
        ownership_epoch: epoch,
        route_kind: route_kind.to_owned(),
        route_reason: "recorded".to_owned(),
    }
}

fn internal<T>(message: &str) -> Result<T, ServiceError> {
    Err(ServiceError::Internal(message.to_owned()))
}

struct Replies {
    ownership: Result<(), ServiceError>,
    prepared: Result<bool, ServiceError>,
    mutated: Result<UpdateOutcome, ServiceError>,
    restored: Result<(), ServiceError>,
    acknowledged: Result<(), ServiceError>,
}

fn run(replies: Replies) -> (Vec<&'static str>, Result<UpdateOutcome, ServiceError>) {
    let mut calls = Vec::new();
    let mut ownership = Some(replies.ownership);
    let mut prepared = Some(replies.prepared);
    let mut mutated = Some(replies.mutated);
    let mut restored = Some(replies.restored);
    let mut acknowledged = Some(replies.acknowledged);
    let mut step = UpdateRequest::begin(UpdateOperation::Flush, "analytics/documents");
    loop {
        step = match step {
            UpdateStep::RequireOwnership(request) => {
                calls.push("ownership");
                request.ownership_checked(ownership.take().expect("asked once"))
            }
            UpdateStep::Prepare(request) => {
                calls.push("prepare");
                request.prepared(prepared.take().expect("asked once"))
            }
            UpdateStep::Mutate(pending) => {
                calls.push("mutate");
                pending.mutated(mutated.take().expect("asked once"))
            }
            UpdateStep::Restore(pending) => {
                calls.push("restore");
                pending.restored(restored.take().expect("asked once"))
            }
            UpdateStep::Acknowledge(pending) => {
                calls.push("acknowledge");
                assert_eq!(pending.snapshot, SNAPSHOT);
                assert!(pending.stale_report_already_cleared);
                pending.acknowledged(acknowledged.take().expect("asked once"))
            }
            UpdateStep::Finish(result) => return (calls, result),
        };
    }
}

fn good() -> Replies {
    Replies {
        ownership: Ok(()),
        prepared: Ok(true),
        mutated: Ok(UpdateOutcome::Rearranged(SNAPSHOT)),
        restored: Ok(()),
        acknowledged: Ok(()),
    }
}

#[test]
fn changes_are_acknowledged() {
    let (calls, result) = run(good());

    assert_eq!(calls, vec!["ownership", "prepare", "mutate", "acknowledge"]);
    assert_eq!(result, Ok(UpdateOutcome::Rearranged(SNAPSHOT)));
}

#[test]
fn failed_changes_restore_the_report_once() {
    let (calls, result) = run(Replies {
        mutated: internal("disk full"),
        ..good()
    });

    assert_eq!(calls, vec!["ownership", "prepare", "mutate", "restore"]);
    assert_eq!(result, internal("disk full"));

    let (calls, result) = run(Replies {
        mutated: Err(ServiceError::NotFound("no collection".to_owned())),
        restored: internal("etcd down"),
        ..good()
    });

    assert_eq!(calls, vec!["ownership", "prepare", "mutate", "restore"]);
    assert_eq!(
        result,
        internal(
            "flush for collection 'analytics/documents' failed with 'no collection', and restoring authoritative replica metadata also failed with 'etcd down'"
        )
    );
}

#[test]
fn nothing_changes_without_ownership_and_preparation() {
    let (calls, result) = run(Replies {
        ownership: internal("not the owner"),
        ..good()
    });
    assert_eq!(calls, vec!["ownership"]);
    assert_eq!(result, internal("not the owner"));

    let (calls, result) = run(Replies {
        prepared: internal("no report"),
        ..good()
    });
    assert_eq!(calls, vec!["ownership", "prepare"]);
    assert_eq!(result, internal("no report"));

    let (calls, result) = run(Replies {
        acknowledged: internal("no acknowledgement"),
        ..good()
    });
    assert_eq!(calls, vec!["ownership", "prepare", "mutate", "acknowledge"]);
    assert_eq!(result, internal("no acknowledgement"));
}

#[test]
fn commits_are_shown_by_their_snapshot() {
    let ack = CommitAck {
        last_seq_no: 7,
        applied_ops: 2,
        snapshot: SNAPSHOT,
    };

    assert_eq!(UpdateOutcome::Committed(ack).snapshot(), SNAPSHOT);
    assert_eq!(UpdateOperation::Write.as_str(), "write");
    assert_eq!(UpdateOperation::Compact.as_str(), "compact");
}

#[test]
fn planes_accept_what_they_serve() {
    assert!(require_data_plane(NodeRole::Data, "edge-a").is_ok());
    assert_eq!(
        require_data_plane(NodeRole::Control, "edge-a"),
        Err(ServiceError::InvalidArgument(
            "node 'edge-a' is running as 'control' and cannot accept data-plane operations"
                .to_owned()
        ))
    );
    assert_eq!(
        require_control_plane_database_mutation(NodeRole::Data),
        Err(ServiceError::InvalidArgument(
            "data-only nodes cannot accept control-plane database mutations".to_owned()
        ))
    );
    assert!(require_control_plane_database_mutation(NodeRole::Control).is_ok());
    assert!(require_control_plane_collection_mutation(NodeRole::Control).is_err());
    assert!(require_control_plane_collection_mutation(NodeRole::Data).is_err());
    assert!(require_control_plane_collection_mutation(NodeRole::Combined).is_ok());
}

#[test]
fn reads_stay_on_the_serving_node() {
    assert_eq!(
        placement_read(NodeRole::Combined, "edge-a", Ok(placement("local", Some(1))), None),
        Ok(())
    );
    assert_eq!(
        placement_read(NodeRole::Combined, "edge-a", Ok(placement("recorded", None)), None),
        Err(ServiceError::InvalidArgument(
            "collection 'analytics/documents' is assigned to node 'owner-b' with role 'data' and is not locally served by node 'edge-a'"
                .to_owned()
        ))
    );
    assert_eq!(
        placement_read(NodeRole::Data, "edge-a", internal("no placement"), None),
        internal("no placement")
    );
}

#[test]
fn promoted_collections_refuse_read_barriers() {
    assert!(reject_promoted_read_barriers(&placement("local", Some(2)), None).is_ok());
    assert!(reject_promoted_read_barriers(&placement("local", Some(1)), Some(&SNAPSHOT)).is_ok());
    assert_eq!(
        reject_promoted_read_barriers(&placement("local", Some(2)), Some(&SNAPSHOT)),
        Err(ServiceError::FailedPrecondition(
            "collection 'analytics/documents' is serving at ownership epoch 2 and cannot safely satisfy read barriers after promotion until replica freshness metadata is implemented"
                .to_owned()
        ))
    );
}

fn fence() -> LeadershipFence {
    LeadershipFence {
        node_id: "edge-a".to_owned(),
        lease_id: 23,
    }
}

#[test]
fn shared_writes_need_a_fence() {
    assert_eq!(
        leadership_checked(NodeRole::Combined, SharedCatalog::Local, Ok(None)),
        Ok(CatalogTarget::Local)
    );
    assert_eq!(
        leadership_checked(NodeRole::Combined, SharedCatalog::Etcd, Ok(Some(fence()))),
        Ok(CatalogTarget::Shared(fence()))
    );
    assert_eq!(
        leadership_checked(NodeRole::Combined, SharedCatalog::Etcd, Ok(None)),
        internal("etcd-backed control-plane mutations require a local leadership fence")
    );
    assert!(leadership_checked(NodeRole::Data, SharedCatalog::Local, Ok(None)).is_err());
}

fn descriptor() -> CollectionDescriptor {
    CollectionDescriptor::new_in_database(
        "analytics",
        "documents",
        2,
        DistanceMetric::Dot,
        "/data",
        "collection-1",
    )
}

#[test]
fn missing_databases_are_stored_before_a_collection_is_created() {
    let step = begin_create(NodeRole::Combined, SharedCatalog::Etcd, "analytics".to_owned());
    let pending = match step {
        CreateStep::ReadDatabase(pending) => pending,
        _ => panic!("the database is read first"),
    };
    assert_eq!(pending.database_name, "analytics");
    let missing = Err(ServiceError::NotFound("no database".to_owned()));
    let pending = match pending.database_read(missing, "database-default", "database-fresh") {
        CreateStep::RequireLeadership(pending) => pending,
        _ => panic!("leadership is checked before a database is stored"),
    };
    assert_eq!(pending.descriptor.database_id, "database-fresh");
    let pending = match pending.leadership_checked(Ok(Some(fence()))) {
        CreateStep::PutDatabase(pending) => pending,
        _ => panic!("the database is stored under the fence"),
    };
    assert_eq!(pending.fence, fence());
    assert!(matches!(
        database_put(Ok(DatabaseDescriptor::new("analytics", "d", "f"))),
        CreateStep::Create
    ));
    let pending = match collection_created(Ok(descriptor())) {
        CreateStep::Acknowledge(pending) => pending,
        _ => panic!("a new collection is reported"),
    };
    assert_eq!(pending.lookup_name, "analytics/documents");
    assert!(matches!(
        pending.acknowledged(Ok(())),
        CreateStep::Finish(Ok(found)) if found == descriptor()
    ));
}

#[test]
fn local_catalogs_create_at_once_and_other_roles_never() {
    assert!(matches!(
        begin_create(NodeRole::Combined, SharedCatalog::Local, String::new()),
        CreateStep::Create
    ));
    assert!(matches!(
        begin_create(NodeRole::Control, SharedCatalog::Local, String::new()),
        CreateStep::Finish(Err(ServiceError::InvalidArgument(_)))
    ));
    assert!(matches!(
        collection_created(internal("disk full")),
        CreateStep::Finish(Err(ServiceError::Internal(_)))
    ));
}
