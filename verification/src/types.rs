//! Domain types shared by the catalog, the index and the service surfaces.

use crate::text::{blank, is_blank, is_space};
use vstd::prelude::*;
use vstd::string::*;

verus! {

/// Distance metric of a collection.
#[derive(Clone, Copy, Debug, PartialEq, Eq, Structural)]
pub enum DistanceMetric {
    /// Cosine similarity, larger is better.
    Cosine,
    /// Dot product, larger is better.
    Dot,
    /// Euclidean distance, smaller is better.
    L2,
}

/// Name of the database that requests without one speak of.
pub open spec fn default_database() -> Seq<char> {
    "default"@
}

/// Name of the database that requests without one speak of.
pub fn default_database_name() -> (name: &'static str)
    ensures
        name@ == default_database(),
{
    "default"
}

/// Failure of an operation on domain types.
#[derive(Debug, PartialEq, Eq)]
pub enum LogPoseError {
    /// What went wrong.
    Message(String),
}

impl LogPoseError {
    /// What went wrong, as its model.
    pub open spec fn message(self) -> Seq<char> {
        match self {
            LogPoseError::Message(message) => message@,
        }
    }

    /// What went wrong.
    pub fn to_text(&self) -> (text: String)
        ensures
            text@ == self.message(),
    {
        match self {
            LogPoseError::Message(message) => message.clone(),
        }
    }
}

/// Whether a validation outcome reports exactly the given fault.
pub open spec fn reports_message(outcome: Result<(), LogPoseError>, fault: Option<Seq<char>>) -> bool {
    match (outcome, fault) {
        (Ok(_), None) => true,
        (Err(error), Some(expected)) => error.message() == expected,
        _ => false,
    }
}

/// The earlier of two faults.
pub open spec fn first_fault(first: Option<Seq<char>>, second: Option<Seq<char>>) -> Option<
    Seq<char>,
> {
    match first {
        Some(fault) => Some(fault),
        None => second,
    }
}

/// What went wrong in a service call.
#[derive(Debug, PartialEq, Eq)]
pub enum ServiceError {
    /// What was to be made is there already.
    AlreadyExists(String),
    /// What was asked for is not there.
    NotFound(String),
    /// The request is malformed.
    InvalidArgument(String),
    /// The caller is not known.
    Unauthenticated(String),
    /// The caller may not do this.
    PermissionDenied(String),
    /// The system is in no state to do this.
    FailedPrecondition(String),
    /// The service failed.
    Internal(String),
}

/// Class of a failure of a service call.
#[derive(Clone, Copy, Debug, PartialEq, Eq, Structural)]
pub enum ServiceErrorKind {
    /// What was to be made is there already.
    AlreadyExists,
    /// What was asked for is not there.
    NotFound,
    /// The request is malformed.
    InvalidArgument,
    /// The caller is not known.
    Unauthenticated,
    /// The caller may not do this.
    PermissionDenied,
    /// The system is in no state to do this.
    FailedPrecondition,
    /// The service failed.
    Internal,
}

/// What went wrong in a service call, as its model.
#[verifier::ext_equal]
pub struct ServiceErrorModel {
    pub kind: ServiceErrorKind,
    pub message: Seq<char>,
}

impl View for ServiceError {
    type V = ServiceErrorModel;

    open spec fn view(&self) -> ServiceErrorModel {
        match self {
            ServiceError::AlreadyExists(message) => ServiceErrorModel {
                kind: ServiceErrorKind::AlreadyExists,
                message: message@,
            },
            ServiceError::NotFound(message) => ServiceErrorModel {
                kind: ServiceErrorKind::NotFound,
                message: message@,
            },
            ServiceError::InvalidArgument(message) => ServiceErrorModel {
                kind: ServiceErrorKind::InvalidArgument,
                message: message@,
            },
            ServiceError::Unauthenticated(message) => ServiceErrorModel {
                kind: ServiceErrorKind::Unauthenticated,
                message: message@,
            },
            ServiceError::PermissionDenied(message) => ServiceErrorModel {
                kind: ServiceErrorKind::PermissionDenied,
                message: message@,
            },
            ServiceError::FailedPrecondition(message) => ServiceErrorModel {
                kind: ServiceErrorKind::FailedPrecondition,
                message: message@,
            },
            ServiceError::Internal(message) => ServiceErrorModel {
                kind: ServiceErrorKind::Internal,
                message: message@,
            },
        }
    }
}

impl ServiceError {
    /// The class and the message of the failure.
    pub fn into_parts(self) -> (parts: (ServiceErrorKind, String))
        ensures
            parts.0 == self@.kind,
            parts.1@ == self@.message,
    {
        match self {
            ServiceError::AlreadyExists(message) => (ServiceErrorKind::AlreadyExists, message),
            ServiceError::NotFound(message) => (ServiceErrorKind::NotFound, message),
            ServiceError::InvalidArgument(message) => (ServiceErrorKind::InvalidArgument, message),
            ServiceError::Unauthenticated(message) => (ServiceErrorKind::Unauthenticated, message),
            ServiceError::PermissionDenied(message) => (ServiceErrorKind::PermissionDenied, message),
            ServiceError::FailedPrecondition(message) => (
                ServiceErrorKind::FailedPrecondition,
                message,
            ),
            ServiceError::Internal(message) => (ServiceErrorKind::Internal, message),
        }
    }
}

/// Runtime role of a node.
#[derive(Clone, Copy, Debug, PartialEq, Eq, Structural)]
pub enum NodeRole {
    /// Control plane only.
    Control,
    /// Data plane only.
    Data,
    /// Both planes.
    Combined,
}

impl NodeRole {
    /// Stable text of the role, as its model.
    pub open spec fn text(self) -> Seq<char> {
        match self {
            NodeRole::Control => "control"@,
            NodeRole::Data => "data"@,
            NodeRole::Combined => "combined"@,
        }
    }

    /// Whether the role serves data.
    pub open spec fn serves_data(self) -> bool {
        self == NodeRole::Combined || self == NodeRole::Data
    }

    /// Stable text of the role.
    pub fn as_str(&self) -> (text: &'static str)
        ensures
            text@ == self.text(),
    {
        match self {
            NodeRole::Control => "control",
            NodeRole::Data => "data",
            NodeRole::Combined => "combined",
        }
    }

    /// Whether the role serves data.
    pub fn is_data_serving(&self) -> (result: bool)
        ensures
            result == self.serves_data(),
    {
        match self {
            NodeRole::Combined => true,
            NodeRole::Data => true,
            NodeRole::Control => false,
        }
    }
}

/// Where control-plane metadata is kept.
#[derive(Clone, Copy, Debug, PartialEq, Eq, Structural)]
pub enum MetadataBackend {
    /// In local files.
    Local,
    /// In an etcd cluster.
    Etcd,
}

impl MetadataBackend {
    /// Stable text of the backend.
    pub fn as_str(&self) -> (text: &'static str)
        ensures
            text@ == (match *self {
                MetadataBackend::Local => "local"@,
                MetadataBackend::Etcd => "etcd"@,
            }),
    {
        match self {
            MetadataBackend::Local => "local",
            MetadataBackend::Etcd => "etcd",
        }
    }
}

/// Settings of the etcd metadata backend.
#[derive(Debug, PartialEq, Eq)]
pub struct EtcdMetadataConfig {
    /// Endpoints of the cluster.
    pub endpoints: Vec<String>,
    /// Prefix of every key.
    pub key_prefix: String,
    /// Timeout of one request.
    pub timeout_ms: u64,
    /// Lifetime of a membership lease.
    pub membership_ttl_secs: i64,
    /// Lifetime of a leadership lease.
    pub leadership_ttl_secs: i64,
    /// Name of the LogPose cluster.
    pub cluster_name: String,
}

impl EtcdMetadataConfig {
    /// What is wrong with the settings, if anything.
    pub open spec fn fault(self) -> Option<Seq<char>> {
        if self.endpoints@.len() == 0 {
            Some("metadata.etcd.endpoints must not be empty"@)
        } else if is_blank(self.cluster_name@) {
            Some("metadata.etcd.cluster_name must not be empty"@)
        } else if self.timeout_ms == 0 {
            Some("metadata.etcd.timeout_ms must be greater than zero"@)
        } else if self.membership_ttl_secs <= 0 {
            Some("metadata.etcd.membership_ttl_secs must be greater than zero"@)
        } else if self.leadership_ttl_secs <= 0 {
            Some("metadata.etcd.leadership_ttl_secs must be greater than zero"@)
        } else {
            None
        }
    }

    /// Validate the settings.
    pub fn validate(&self) -> (outcome: Result<(), LogPoseError>)
        ensures
            reports_message(outcome, self.fault()),
    {
        if self.endpoints.len() == 0 {
            return Err(
                LogPoseError::Message("metadata.etcd.endpoints must not be empty".to_owned()),
            );
        }
        if blank(&self.cluster_name) {
            return Err(
                LogPoseError::Message("metadata.etcd.cluster_name must not be empty".to_owned()),
            );
        }
        if self.timeout_ms == 0 {
            return Err(
                LogPoseError::Message(
                    "metadata.etcd.timeout_ms must be greater than zero".to_owned(),
                ),
            );
        }
        if self.membership_ttl_secs <= 0 {
            return Err(
                LogPoseError::Message(
                    "metadata.etcd.membership_ttl_secs must be greater than zero".to_owned(),
                ),
            );
        }
        if self.leadership_ttl_secs <= 0 {
            return Err(
                LogPoseError::Message(
                    "metadata.etcd.leadership_ttl_secs must be greater than zero".to_owned(),
                ),
            );
        }
        Ok(())
    }
}

/// Metadata control-plane backend and its settings.
#[derive(Debug, PartialEq, Eq)]
pub struct MetadataConfig {
    /// Where metadata is kept.
    pub backend: MetadataBackend,
    /// Settings of the etcd backend.
    pub etcd: EtcdMetadataConfig,
}

impl Default for MetadataConfig {
    fn default() -> (config: Self)
        ensures
            config.backend == MetadataBackend::Local,
            config.etcd.endpoints@.len() == 0,
            config.etcd.key_prefix@ == "/logpose"@,
            config.etcd.timeout_ms == 1_500,
            config.etcd.membership_ttl_secs == 15,
            config.etcd.leadership_ttl_secs == 10,
            config.etcd.cluster_name@ == "logpose"@,
    {
        MetadataConfig {
            backend: MetadataBackend::Local,
            etcd: EtcdMetadataConfig {
                endpoints: Vec::new(),
                key_prefix: "/logpose".to_owned(),
                timeout_ms: 1_500,
                membership_ttl_secs: 15,
                leadership_ttl_secs: 10,
                cluster_name: "logpose".to_owned(),
            },
        }
    }
}

/// Nodes that run both planes, or the data plane alone, serve data; those that run the control plane
/// alone do not. Each role has its own text.
pub proof fn law_roles_serve()
    ensures
        NodeRole::Combined.serves_data(),
        NodeRole::Data.serves_data(),
        !NodeRole::Control.serves_data(),
        NodeRole::Combined.text() == "combined"@,
        NodeRole::Data.text() == "data"@,
        NodeRole::Control.text() == "control"@,
        default_database() == "default"@,
{
}

/// The settings of the etcd backend are valid exactly when there is an endpoint, the cluster has a
/// name that is not blank, and every time is positive.
pub proof fn law_etcd_settings_are_valid(config: EtcdMetadataConfig)
    ensures
        config.fault() is None <==> config.endpoints@.len() > 0 && config.timeout_ms > 0
            && config.membership_ttl_secs > 0 && config.leadership_ttl_secs > 0 && exists|i: int|
            0 <= i < config.cluster_name@.len() && !is_space(#[trigger] config.cluster_name@[i]),
{
}

/// The earlier of two faults is the first one where there is one, and none exactly where there is
/// neither.
pub proof fn law_earlier_faults_come_first(first: Seq<char>, second: Option<Seq<char>>)
    ensures
        first_fault(Some(first), second) == Some(first),
        first_fault(None, second) == second,
{
}

/// Each failure is of the class of its own name and has its own message.
pub proof fn law_failures_have_classes(message: String)
    ensures
        ServiceError::AlreadyExists(message)@.kind == ServiceErrorKind::AlreadyExists,
        ServiceError::NotFound(message)@.kind == ServiceErrorKind::NotFound,
        ServiceError::InvalidArgument(message)@.kind == ServiceErrorKind::InvalidArgument,
        ServiceError::Unauthenticated(message)@.kind == ServiceErrorKind::Unauthenticated,
        ServiceError::PermissionDenied(message)@.kind == ServiceErrorKind::PermissionDenied,
        ServiceError::FailedPrecondition(message)@.kind == ServiceErrorKind::FailedPrecondition,
        ServiceError::Internal(message)@.kind == ServiceErrorKind::Internal,
        ServiceError::AlreadyExists(message)@.message == message@,
        ServiceError::NotFound(message)@.message == message@,
        ServiceError::InvalidArgument(message)@.message == message@,
        ServiceError::Unauthenticated(message)@.message == message@,
        ServiceError::PermissionDenied(message)@.message == message@,
        ServiceError::FailedPrecondition(message)@.message == message@,
        ServiceError::Internal(message)@.message == message@,
{
}

/// What keeps the settings of the metadata store from being valid is said in the order of the
/// settings.
pub proof fn law_etcd_faults_are_named(config: EtcdMetadataConfig)
    ensures
        config.endpoints@.len() == 0 ==> config.fault() == Some(
            "metadata.etcd.endpoints must not be empty"@,
        ),
        config.endpoints@.len() > 0 && is_blank(config.cluster_name@) ==> config.fault() == Some(
            "metadata.etcd.cluster_name must not be empty"@,
        ),
        config.endpoints@.len() > 0 && !is_blank(config.cluster_name@) ==> {
            &&& config.timeout_ms == 0 ==> config.fault() == Some(
                "metadata.etcd.timeout_ms must be greater than zero"@,
            )
            &&& config.timeout_ms > 0 && config.membership_ttl_secs < 1 ==> config.fault() == Some(
                "metadata.etcd.membership_ttl_secs must be greater than zero"@,
            )
            &&& config.timeout_ms > 0 && config.membership_ttl_secs >= 1
                && config.leadership_ttl_secs < 1 ==> config.fault() == Some(
                "metadata.etcd.leadership_ttl_secs must be greater than zero"@,
            )
        },
{
}

} // verus!
