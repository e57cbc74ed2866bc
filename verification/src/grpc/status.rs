//! How a gRPC call fails.

use crate::types::{ServiceError, ServiceErrorKind};
use vstd::prelude::*;

verus! {

/// Code of a failed gRPC call.
#[derive(Clone, Copy, Debug, PartialEq, Eq, Structural)]
pub enum RpcCode {
    /// What was to be made is there already.
    AlreadyExists,
    /// What was asked for is not there.
    NotFound,
    /// The request is malformed.
    InvalidArgument,
    /// The caller is not known.
    Unauthenticated,
    /// The caller may not do this.
    PermissionDenied,
    /// The system is in no state to do this.
    FailedPrecondition,
    /// The service failed.
    Internal,
}

/// How a gRPC call failed.
#[derive(Debug, PartialEq, Eq)]
pub struct RpcStatus {
    /// Code of the failure.
    pub code: RpcCode,
    /// What went wrong.
    pub message: String,
}

/// How a gRPC call failed, as its model.
#[verifier::ext_equal]
pub struct RpcStatusModel {
    pub code: RpcCode,
    pub message: Seq<char>,
}

impl View for RpcStatus {
    type V = RpcStatusModel;

    open spec fn view(&self) -> RpcStatusModel {
        RpcStatusModel { code: self.code, message: self.message@ }
    }
}

/// An outcome with its status as a model.
pub open spec fn rpc_outcome<T>(outcome: Result<T, RpcStatus>) -> Result<T, RpcStatusModel> {
    match outcome {
        Ok(value) => Ok(value),
        Err(status) => Err(status@),
    }
}

/// A refusal of a malformed request.
pub open spec fn bad_request(message: Seq<char>) -> RpcStatusModel {
    RpcStatusModel { code: RpcCode::InvalidArgument, message }
}

/// Refuse a malformed request.
pub(crate) fn invalid_argument(message: &str) -> (status: RpcStatus)
    ensures
        status@ == bad_request(message@),
{
    RpcStatus { code: RpcCode::InvalidArgument, message: message.to_owned() }
}

/// The code that a class of service failures is reported with.
pub open spec fn service_code(kind: ServiceErrorKind) -> RpcCode {
    match kind {
        ServiceErrorKind::AlreadyExists => RpcCode::AlreadyExists,
        ServiceErrorKind::NotFound => RpcCode::NotFound,
        ServiceErrorKind::InvalidArgument => RpcCode::InvalidArgument,
        ServiceErrorKind::Unauthenticated => RpcCode::Unauthenticated,
        ServiceErrorKind::PermissionDenied => RpcCode::PermissionDenied,
        ServiceErrorKind::FailedPrecondition => RpcCode::FailedPrecondition,
        ServiceErrorKind::Internal => RpcCode::Internal,
    }
}

/// Report a service failure: its message stands as it is.
pub fn status_from_service_error(error: ServiceError) -> (status: RpcStatus)
    ensures
        status.code == service_code(error@.kind),
        status.message@ == error@.message,
{
    let (kind, message) = error.into_parts();
    let code = match kind {
        ServiceErrorKind::AlreadyExists => RpcCode::AlreadyExists,
        ServiceErrorKind::NotFound => RpcCode::NotFound,
        ServiceErrorKind::InvalidArgument => RpcCode::InvalidArgument,
        ServiceErrorKind::Unauthenticated => RpcCode::Unauthenticated,
        ServiceErrorKind::PermissionDenied => RpcCode::PermissionDenied,
        ServiceErrorKind::FailedPrecondition => RpcCode::FailedPrecondition,
        ServiceErrorKind::Internal => RpcCode::Internal,
    };
    RpcStatus { code, message }
}

/// Service failures of different classes are reported with different codes.
pub proof fn law_codes_tell_failures_apart(left: ServiceErrorKind, right: ServiceErrorKind)
    ensures
        service_code(left) == service_code(right) <==> left == right,
{
}

/// Each class of service failures is reported with the code of the same name, and a malformed
/// request as such.
pub proof fn law_failures_are_reported(message: Seq<char>)
    ensures
        service_code(ServiceErrorKind::AlreadyExists) == RpcCode::AlreadyExists,
        service_code(ServiceErrorKind::NotFound) == RpcCode::NotFound,
        service_code(ServiceErrorKind::InvalidArgument) == RpcCode::InvalidArgument,
        service_code(ServiceErrorKind::Unauthenticated) == RpcCode::Unauthenticated,
        service_code(ServiceErrorKind::PermissionDenied) == RpcCode::PermissionDenied,
        service_code(ServiceErrorKind::FailedPrecondition) == RpcCode::FailedPrecondition,
        service_code(ServiceErrorKind::Internal) == RpcCode::Internal,
        bad_request(message).code == RpcCode::InvalidArgument,
        bad_request(message).message == message,
{
}

} // verus!
