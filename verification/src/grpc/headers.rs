//! Authentication of gRPC requests.

use super::status::{RpcCode, RpcStatus, RpcStatusModel};
use crate::access::RequestAuth;
use crate::headers::{authorization, authorization_auth, optional_bytes, AuthorizationFault};
use vstd::prelude::*;

verus! {

/// How a gRPC request with an unusable authorization is refused.
pub open spec fn authorization_refusal(fault: AuthorizationFault) -> RpcStatusModel {
    RpcStatusModel {
        code: RpcCode::Unauthenticated,
        message: match fault {
            AuthorizationFault::NotAscii => "authorization metadata must be valid ASCII"@,
            AuthorizationFault::NotBearer => "authorization metadata must use the Bearer scheme"@,
        },
    }
}

/// Read who makes a gRPC request from the value of its `authorization` metadata.
pub fn request_auth_from_metadata(raw: Option<&[u8]>) -> (outcome: Result<RequestAuth, RpcStatus>)
    ensures
        match authorization(optional_bytes(raw)) {
            Ok(token) => outcome matches Ok(auth) && auth@ == token,
            Err(fault) => outcome matches Err(status) && status@ == authorization_refusal(fault),
        },
{
    match authorization_auth(raw) {
        Ok(auth) => Ok(auth),
        Err(fault) => {
            let message = match fault {
                AuthorizationFault::NotAscii => "authorization metadata must be valid ASCII",
                AuthorizationFault::NotBearer => {
                    "authorization metadata must use the Bearer scheme"
                },
            };
            Err(RpcStatus { code: RpcCode::Unauthenticated, message: message.to_owned() })
        },
    }
}

/// A request with an unusable authorization comes from somebody who is not known.
pub proof fn law_unusable_authorizations_are_refused(fault: AuthorizationFault)
    ensures
        authorization_refusal(fault).code == RpcCode::Unauthenticated,
{
}

} // verus!
