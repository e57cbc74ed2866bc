//! Descriptors of databases and collections.

use crate::access::AuthenticatedPrincipal;
use crate::auth::ScopedAccessPolicy;
use crate::domain::{RemoteBlobConfig, WriteOperation};
use crate::namespace::{
    segment_fault, validate_namespace_segment, CollectionRef, CollectionRefModel, DatabaseRef,
};
use crate::text::same_text;
use crate::types::{
    default_database, default_database_name, first_fault, reports_message, DistanceMetric,
    LogPoseError,
};
use vstd::prelude::*;
use vstd::string::*;

verus! {

/// Default mutable-op threshold before the engine should flush.
pub const DEFAULT_FLUSH_THRESHOLD_OPS: usize = 10_000;

/// Default approximate byte threshold before the engine should flush.
pub const DEFAULT_FLUSH_THRESHOLD_BYTES: usize = 67_108_864;

/// Default number of immutable segments before compaction is recommended.
pub const DEFAULT_COMPACTION_THRESHOLD_SEGMENTS: usize = 4;

/// Logical database metadata scaffold for policy and isolation.
#[derive(Debug, PartialEq, Eq)]
pub struct DatabaseDescriptor {
    /// Stable database identifier.
    pub database_id: String,
    /// Human-readable database name.
    pub name: String,
    /// Whether this descriptor is the operator-provisioned default database.
    pub is_default: bool,
}

/// How a truth value reads in a message.
pub open spec fn truth_text(value: bool) -> Seq<char> {
    if value {
        "true"@
    } else {
        "false"@
    }
}

impl DatabaseDescriptor {
    /// What is wrong with the descriptor, if anything.
    pub open spec fn fault(self) -> Option<Seq<char>> {
        let expected = self.name@ == default_database();
        match segment_fault("database name"@, self.name@) {
            Some(fault) => Some(fault),
            None => if self.is_default != expected {
                Some(
                    "database descriptor is_default must be "@ + truth_text(expected)
                        + " for database '"@ + self.name@ + "'"@,
                )
            } else {
                None
            },
        }
    }

    /// Construct one database descriptor: the default database has an identifier of its own, any
    /// other gets a fresh one.
    pub fn new(name: &str, default_id: &str, fresh_id: &str) -> (descriptor: Self)
        ensures
            descriptor.name@ == name@,
            descriptor.is_default == (name@ == default_database()),
            descriptor.database_id@ == (if name@ == default_database() {
                default_id@
            } else {
                fresh_id@
            }),
    {
        let is_default = same_text(name, default_database_name());
        DatabaseDescriptor {
            database_id: if is_default {
                default_id.to_owned()
            } else {
                fresh_id.to_owned()
            },
            name: name.to_owned(),
            is_default,
        }
    }

    /// Validate database-level configuration.
    pub fn validate(&self) -> (outcome: Result<(), LogPoseError>)
        ensures
            reports_message(outcome, self.fault()),
    {
        match validate_namespace_segment("database name", &self.name) {
            Err(error) => {
                return Err(error);
            },
            Ok(_) => {},
        }
        let expected_is_default = same_text(&self.name, default_database_name());
        if self.is_default != expected_is_default {
            let mut message = "database descriptor is_default must be ".to_owned();
            if expected_is_default {
                message.append("true");
            } else {
                message.append("false");
            }
            message.append(" for database '");
            message.append(&self.name);
            message.append("'");
            return Err(LogPoseError::Message(message));
        }
        Ok(())
    }

    /// Return the canonical database reference for this descriptor.
    pub fn database_ref(&self) -> (reference: DatabaseRef)
        ensures
            reference.database_name@ == self.name@,
    {
        DatabaseRef::new(self.name.clone())
    }

    /// Return the canonical database lookup key for this descriptor.
    pub fn lookup_name(&self) -> (key: String)
        ensures
            key@ == self.name@,
    {
        self.database_ref().lookup_name()
    }
}

/// Logical collection metadata scaffold.
#[derive(Debug, PartialEq, Eq)]
pub struct CollectionDescriptor {
    /// Stable collection identifier.
    pub collection_id: String,
    /// Database containing the collection.
    pub database_name: String,
    /// Human-readable collection name.
    pub name: String,
    /// Embedding dimensions expected for the collection.
    pub dimensions: usize,
    /// Distance metric configured for the collection.
    pub metric: DistanceMetric,
    /// Local filesystem root for this collection.
    pub root_path: String,
    /// Optional remote blob-store configuration for immutable artifacts.
    pub remote_blob: Option<RemoteBlobConfig>,
    /// Mutable operation threshold before a flush should occur.
    pub flush_threshold_ops: usize,
    /// Mutable byte threshold before a flush should occur.
    pub flush_threshold_bytes: usize,
    /// Immutable segment threshold before compaction is recommended.
    pub compaction_threshold_segments: usize,
}

/// A remote store, as its model.
#[verifier::ext_equal]
pub struct RemoteBlobModel {
    pub endpoint: Seq<char>,
    pub bucket: Seq<char>,
    pub prefix: Seq<char>,
}

/// A remote store, as its model.
pub open spec fn remote_blob_model(remote: Option<RemoteBlobConfig>) -> Option<RemoteBlobModel> {
    match remote {
        Some(config) => Some(
            RemoteBlobModel {
                endpoint: config.endpoint@,
                bucket: config.bucket@,
                prefix: config.prefix@,
            },
        ),
        None => None,
    }
}

/// All of a collection descriptor that nodes have to agree on.
#[verifier::ext_equal]
pub struct ServingIdentity {
    pub collection_id: Seq<char>,
    pub database_name: Seq<char>,
    pub name: Seq<char>,
    pub dimensions: usize,
    pub metric: DistanceMetric,
    pub remote_blob: Option<RemoteBlobModel>,
    pub flush_threshold_ops: usize,
    pub flush_threshold_bytes: usize,
    pub compaction_threshold_segments: usize,
}

/// A path with one more component.
pub open spec fn joined_path(root: Seq<char>, component: Seq<char>) -> Seq<char> {
    if component.len() > 0 && component[0] == '/' {
        component
    } else if root.len() == 0 || root.last() == '/' {
        root + component
    } else {
        root + "/"@ + component
    }
}

/// A path with one more component.
pub fn join_path(root: &str, component: &str) -> (path: String)
    ensures
        path@ == joined_path(root@, component@),
{
    let component_chars = crate::text::chars_of(component);
    if component_chars.len() > 0 && component_chars[0] == '/' {
        return component.to_owned();
    }
    let root_chars = crate::text::chars_of(root);
    let mut path = root.to_owned();
    if root_chars.len() > 0 && root_chars[root_chars.len() - 1] != '/' {
        path.append("/");
    }
    path.append(component);
    path
}

fn same_remote_blob(left: &Option<RemoteBlobConfig>, right: &Option<RemoteBlobConfig>) -> (same:
    bool)
    ensures
        same == (remote_blob_model(*left) == remote_blob_model(*right)),
{
    match (left, right) {
        (Some(left), Some(right)) => {
            same_text(&left.endpoint, &right.endpoint) && same_text(&left.bucket, &right.bucket)
                && same_text(&left.prefix, &right.prefix)
        },
        (None, None) => true,
        _ => false,
    }
}

impl CollectionDescriptor {
    /// The collection, by its database and its name, as a model.
    pub open spec fn reference(self) -> CollectionRefModel {
        CollectionRefModel { database_name: self.database_name@, collection_name: self.name@ }
    }

    /// All that nodes have to agree on.
    pub open spec fn serving_identity(self) -> ServingIdentity {
        ServingIdentity {
            collection_id: self.collection_id@,
            database_name: self.database_name@,
            name: self.name@,
            dimensions: self.dimensions,
            metric: self.metric,
            remote_blob: remote_blob_model(self.remote_blob),
            flush_threshold_ops: self.flush_threshold_ops,
            flush_threshold_bytes: self.flush_threshold_bytes,
            compaction_threshold_segments: self.compaction_threshold_segments,
        }
    }

    /// What is wrong with the numbers of the descriptor, if anything.
    pub open spec fn limits_fault(self) -> Option<Seq<char>> {
        if self.dimensions == 0 {
            Some("dimensions must be greater than 0"@)
        } else if self.flush_threshold_ops == 0 {
            Some("flush_threshold_ops must be greater than 0"@)
        } else if self.flush_threshold_bytes == 0 {
            Some("flush_threshold_bytes must be greater than 0"@)
        } else if self.compaction_threshold_segments <= 1 {
            Some("compaction_threshold_segments must be greater than 1"@)
        } else {
            None
        }
    }

    /// What is wrong with the descriptor, if anything.
    pub open spec fn fault(self) -> Option<Seq<char>> {
        first_fault(self.reference().fault(), self.limits_fault())
    }

    /// Construct a collection descriptor rooted under the provided collections directory.
    pub fn new(
        name: &str,
        dimensions: usize,
        metric: DistanceMetric,
        collections_root: &str,
        collection_id: &str,
    ) -> (descriptor: Self)
        ensures
            descriptor.database_name@ == default_database(),
            descriptor.collection_id@ == collection_id@,
            descriptor.name@ == name@,
            descriptor.dimensions == dimensions,
            descriptor.metric == metric,
            descriptor.root_path@ == joined_path(collections_root@, collection_id@),
            descriptor.remote_blob is None,
            descriptor.flush_threshold_ops == DEFAULT_FLUSH_THRESHOLD_OPS,
            descriptor.flush_threshold_bytes == DEFAULT_FLUSH_THRESHOLD_BYTES,
            descriptor.compaction_threshold_segments == DEFAULT_COMPACTION_THRESHOLD_SEGMENTS,
    {
        Self::new_in_database(
            default_database_name(),
            name,
            dimensions,
            metric,
            collections_root,
            collection_id,
        )
    }

    /// Construct a collection descriptor inside one database.
    pub fn new_in_database(
        database_name: &str,
        name: &str,
        dimensions: usize,
        metric: DistanceMetric,
        collections_root: &str,
        collection_id: &str,
    ) -> (descriptor: Self)
        ensures
            descriptor.database_name@ == database_name@,
            descriptor.collection_id@ == collection_id@,
            descriptor.name@ == name@,
            descriptor.dimensions == dimensions,
            descriptor.metric == metric,
            descriptor.root_path@ == joined_path(collections_root@, collection_id@),
            descriptor.remote_blob is None,
            descriptor.flush_threshold_ops == DEFAULT_FLUSH_THRESHOLD_OPS,
            descriptor.flush_threshold_bytes == DEFAULT_FLUSH_THRESHOLD_BYTES,
            descriptor.compaction_threshold_segments == DEFAULT_COMPACTION_THRESHOLD_SEGMENTS,
    {
        CollectionDescriptor {
            collection_id: collection_id.to_owned(),
            database_name: database_name.to_owned(),
            name: name.to_owned(),
            dimensions,
            metric,
            root_path: join_path(collections_root, collection_id),
            remote_blob: None,
            flush_threshold_ops: DEFAULT_FLUSH_THRESHOLD_OPS,
            flush_threshold_bytes: DEFAULT_FLUSH_THRESHOLD_BYTES,
            compaction_threshold_segments: DEFAULT_COMPACTION_THRESHOLD_SEGMENTS,
        }
    }

    /// Return the canonical database/collection reference for this descriptor.
    pub fn collection_ref(&self) -> (reference: CollectionRef)
        ensures
            reference@ == self.reference(),
    {
        CollectionRef::new(self.database_name.clone(), self.name.clone())
    }

    /// Return the canonical database/collection lookup key for this descriptor.
    pub fn lookup_name(&self) -> (key: String)
        ensures
            key@ == self.reference().key(),
    {
        self.collection_ref().lookup_name()
    }

    /// Return a copy of the descriptor without any node-local filesystem path.
    pub fn without_root_path(&self) -> (descriptor: Self)
        ensures
            descriptor.root_path@ == Seq::<char>::empty(),
            descriptor == (CollectionDescriptor { root_path: descriptor.root_path, ..*self }),
    {
        CollectionDescriptor {
            collection_id: self.collection_id.clone(),
            database_name: self.database_name.clone(),
            name: self.name.clone(),
            dimensions: self.dimensions,
            metric: self.metric,
            root_path: String::new(),
            remote_blob: match &self.remote_blob {
                Some(remote) => Some(remote.clone()),
                None => None,
            },
            flush_threshold_ops: self.flush_threshold_ops,
            flush_threshold_bytes: self.flush_threshold_bytes,
            compaction_threshold_segments: self.compaction_threshold_segments,
        }
    }

    /// Return whether two descriptors refer to the same serveable collection identity.
    pub fn matches_serving_identity(&self, other: &Self) -> (same: bool)
        ensures
            same == (self.serving_identity() == other.serving_identity()),
    {
        same_text(&self.collection_id, &other.collection_id) && same_text(
            &self.database_name,
            &other.database_name,
        ) && same_text(&self.name, &other.name) && self.dimensions == other.dimensions
            && self.metric == other.metric && same_remote_blob(
            &self.remote_blob,
            &other.remote_blob,
        ) && self.flush_threshold_ops == other.flush_threshold_ops && self.flush_threshold_bytes
            == other.flush_threshold_bytes && self.compaction_threshold_segments
            == other.compaction_threshold_segments
    }

    /// Validate collection-level configuration values.
    pub fn validate(&self) -> (outcome: Result<(), LogPoseError>)
        ensures
            reports_message(outcome, self.fault()),
    {
        match self.collection_ref().validate() {
            Err(error) => {
                return Err(error);
            },
            Ok(_) => {},
        }
        if self.dimensions == 0 {
            return Err(LogPoseError::Message("dimensions must be greater than 0".to_owned()));
        }
        if self.flush_threshold_ops == 0 {
            return Err(
                LogPoseError::Message("flush_threshold_ops must be greater than 0".to_owned()),
            );
        }
        if self.flush_threshold_bytes == 0 {
            return Err(
                LogPoseError::Message("flush_threshold_bytes must be greater than 0".to_owned()),
            );
        }
        if self.compaction_threshold_segments <= 1 {
            return Err(
                LogPoseError::Message(
                    "compaction_threshold_segments must be greater than 1".to_owned(),
                ),
            );
        }
        Ok(())
    }

    /// Validate whether an operation matches this collection's configured dimensions.
    pub fn validate_operation(&self, operation: &WriteOperation) -> (outcome: Result<
        (),
        LogPoseError,
    >)
        ensures
            reports_message(
                outcome,
                first_fault(self.fault(), operation.dimensions_fault(self.dimensions)),
            ),
    {
        match self.validate() {
            Err(error) => Err(error),
            Ok(_) => operation.validate_dimensions(self.dimensions),
        }
    }
}

/// Catalog metadata surface for databases, principals, and policies.
pub trait CatalogStore: Send + Sync {
    /// Create or replace a database descriptor.
    fn put_database(&self, descriptor: DatabaseDescriptor) -> Result<
        DatabaseDescriptor,
        LogPoseError,
    >;

    /// Read one database descriptor by database name.
    fn get_database(&self, database_name: &str) -> Result<DatabaseDescriptor, LogPoseError>;

    /// List every database descriptor.
    fn list_databases(&self) -> Result<Vec<DatabaseDescriptor>, LogPoseError>;

    /// Create or replace a principal descriptor.
    fn put_principal(&self, principal: AuthenticatedPrincipal) -> Result<
        AuthenticatedPrincipal,
        LogPoseError,
    >;

    /// Read one principal descriptor by name.
    fn get_principal(&self, principal_name: &str) -> Result<AuthenticatedPrincipal, LogPoseError>;

    /// List every stored principal descriptor.
    fn list_principals(&self) -> Result<Vec<AuthenticatedPrincipal>, LogPoseError>;

    /// Create or replace one database access policy.
    fn put_database_access_policy(&self, policy: ScopedAccessPolicy) -> Result<
        ScopedAccessPolicy,
        LogPoseError,
    >;

    /// Read one database access policy.
    fn get_database_access_policy(&self, database_name: &str) -> Result<
        ScopedAccessPolicy,
        LogPoseError,
    >;
}

/// Two descriptors that differ in nothing but their local path name the same serving identity.
pub proof fn law_serving_identity_ignores_root_path(
    descriptor: CollectionDescriptor,
    root_path: String,
)
    ensures
        (CollectionDescriptor { root_path, ..descriptor }).serving_identity()
            == descriptor.serving_identity(),
{
}

/// Descriptors with one serving identity are valid together, and have one lookup key.
pub proof fn law_serving_identity_settles_validity(
    left: CollectionDescriptor,
    right: CollectionDescriptor,
)
    requires
        left.serving_identity() == right.serving_identity(),
    ensures
        left.fault() == right.fault(),
        left.reference().key() == right.reference().key(),
{
    assert(left.reference() == right.reference());
}

/// A new collection descriptor is valid exactly when its names are and it has dimensions.
pub proof fn law_default_limits_are_valid(descriptor: CollectionDescriptor)
    requires
        descriptor.flush_threshold_ops == DEFAULT_FLUSH_THRESHOLD_OPS,
        descriptor.flush_threshold_bytes == DEFAULT_FLUSH_THRESHOLD_BYTES,
        descriptor.compaction_threshold_segments == DEFAULT_COMPACTION_THRESHOLD_SEGMENTS,
    ensures
        descriptor.fault() is None <==> descriptor.reference().fault() is None
            && descriptor.dimensions > 0,
{
}

/// At most one database name is valid for a descriptor that is flagged as the default.
pub proof fn law_one_default_database(left: DatabaseDescriptor, right: DatabaseDescriptor)
    requires
        left.fault() is None,
        right.fault() is None,
        left.is_default,
        right.is_default,
    ensures
        left.name@ == right.name@,
{
}

/// A collection descriptor is valid exactly when both its names are, it has dimensions and
/// thresholds, and it is compacted at two segments at the least.
pub proof fn law_collections_are_valid(descriptor: CollectionDescriptor)
    ensures
        descriptor.fault() is None <==> segment_fault(
            "database_name"@,
            descriptor.database_name@,
        ) is None && segment_fault("collection_name"@, descriptor.name@) is None
            && descriptor.dimensions > 0 && descriptor.flush_threshold_ops > 0
            && descriptor.flush_threshold_bytes > 0 && descriptor.compaction_threshold_segments >= 2,
        DEFAULT_FLUSH_THRESHOLD_OPS == 10_000,
        DEFAULT_FLUSH_THRESHOLD_BYTES == 64 * 1024 * 1024,
        DEFAULT_COMPACTION_THRESHOLD_SEGMENTS == 4,
{
}

/// A database descriptor is valid exactly when its name is and it says of itself that it is the
/// default one exactly when it has that name.
pub proof fn law_databases_are_valid(descriptor: DatabaseDescriptor)
    ensures
        descriptor.fault() is None <==> segment_fault("database name"@, descriptor.name@) is None
            && (descriptor.is_default <==> descriptor.name@ == "default"@),
{
}

/// Two descriptors have one serving identity exactly when they agree in everything but the path.
pub proof fn law_serving_identities(left: CollectionDescriptor, right: CollectionDescriptor)
    ensures
        left.serving_identity() == right.serving_identity() <==> {
            &&& left.collection_id@ == right.collection_id@
            &&& left.database_name@ == right.database_name@
            &&& left.name@ == right.name@
            &&& left.dimensions == right.dimensions
            &&& left.metric == right.metric
            &&& left.flush_threshold_ops == right.flush_threshold_ops
            &&& left.flush_threshold_bytes == right.flush_threshold_bytes
            &&& left.compaction_threshold_segments == right.compaction_threshold_segments
            &&& match (left.remote_blob, right.remote_blob) {
                (Some(first), Some(second)) => first.endpoint@ == second.endpoint@ && first.bucket@
                    == second.bucket@ && first.prefix@ == second.prefix@,
                (None, None) => true,
                _ => false,
            }
        },
{
}

/// A component is put behind a path with one slash between them, which a path that ends in one, or
/// is empty, does not need; a component that starts with one stands alone.
pub proof fn law_paths_are_joined(root: Seq<char>, component: Seq<char>)
    ensures
        component.len() > 0 && component[0] == '/' ==> joined_path(root, component) == component,
        !(component.len() > 0 && component[0] == '/') ==> {
            let path = joined_path(root, component);
            let slashes: int = if root.len() == 0 || root.last() == '/' {
                0
            } else {
                1
            };
            &&& path.len() == root.len() + slashes + component.len()
            &&& path.take(root.len() as int) == root
            &&& slashes == 1 ==> path[root.len() as int] == '/'
            &&& path.skip(root.len() + slashes) == component
        },
{
    reveal_strlit("/");
    if !(component.len() > 0 && component[0] == '/') {
        let path = joined_path(root, component);
        let slashes: int = if root.len() == 0 || root.last() == '/' {
            0
        } else {
            1
        };
        assert(path.take(root.len() as int) =~= root);
        assert(path.skip(root.len() + slashes) =~= component);
    }
}

/// What keeps a collection descriptor from being valid is said of the names first, and then of the
/// numbers in their order.
pub proof fn law_collection_faults_are_named(descriptor: CollectionDescriptor)
    ensures
        segment_fault("database_name"@, descriptor.database_name@) is Some ==> descriptor.fault()
            == segment_fault("database_name"@, descriptor.database_name@),
        segment_fault("database_name"@, descriptor.database_name@) is None && segment_fault(
            "collection_name"@,
            descriptor.name@,
        ) is Some ==> descriptor.fault() == segment_fault("collection_name"@, descriptor.name@),
        segment_fault("database_name"@, descriptor.database_name@) is None && segment_fault(
            "collection_name"@,
            descriptor.name@,
        ) is None ==> {
            &&& descriptor.dimensions == 0 ==> descriptor.fault() == Some(
                "dimensions must be greater than 0"@,
            )
            &&& descriptor.dimensions > 0 && descriptor.flush_threshold_ops == 0
                ==> descriptor.fault() == Some("flush_threshold_ops must be greater than 0"@)
            &&& descriptor.dimensions > 0 && descriptor.flush_threshold_ops > 0
                && descriptor.flush_threshold_bytes == 0 ==> descriptor.fault() == Some(
                "flush_threshold_bytes must be greater than 0"@,
            )
            &&& descriptor.dimensions > 0 && descriptor.flush_threshold_ops > 0
                && descriptor.flush_threshold_bytes > 0 && descriptor.compaction_threshold_segments
                < 2 ==> descriptor.fault() == Some(
                "compaction_threshold_segments must be greater than 1"@,
            )
        },
{
}

/// What keeps a database descriptor from being valid is said of its name first.
pub proof fn law_database_faults_are_named(descriptor: DatabaseDescriptor)
    ensures
        segment_fault("database name"@, descriptor.name@) is Some ==> descriptor.fault()
            == segment_fault("database name"@, descriptor.name@),
        segment_fault("database name"@, descriptor.name@) is None && descriptor.name@ == "default"@
            && !descriptor.is_default ==> descriptor.fault() == Some(
            "database descriptor is_default must be "@ + "true"@ + " for database '"@
                + descriptor.name@ + "'"@,
        ),
        segment_fault("database name"@, descriptor.name@) is None && descriptor.name@ != "default"@
            && descriptor.is_default ==> descriptor.fault() == Some(
            "database descriptor is_default must be "@ + "false"@ + " for database '"@
                + descriptor.name@ + "'"@,
        ),
{
}

} // verus!
