//! How a client call fails on this side of the connection.

use crate::text::{signed_decimal, signed_text};
use crate::types::LogPoseError;
use vstd::prelude::*;
use vstd::string::*;

verus! {

/// What a client finds wrong with a reply, or with its own settings.
#[derive(Debug, PartialEq, Eq)]
pub enum ClientError {
    /// The server returned an invalid or incomplete payload.
    InvalidResponse(String),
    /// The caller supplied an invalid bearer token for client transport metadata.
    InvalidAuthToken(String),
    /// The server returned malformed JSON payloads.
    Json(String),
}

/// What a client finds wrong, as its model.
#[verifier::ext_equal]
pub enum ClientErrorModel {
    InvalidResponse(Seq<char>),
    InvalidAuthToken(Seq<char>),
    Json(Seq<char>),
}

impl View for ClientError {
    type V = ClientErrorModel;

    open spec fn view(&self) -> ClientErrorModel {
        match self {
            ClientError::InvalidResponse(message) => ClientErrorModel::InvalidResponse(message@),
            ClientError::InvalidAuthToken(message) => ClientErrorModel::InvalidAuthToken(message@),
            ClientError::Json(message) => ClientErrorModel::Json(message@),
        }
    }
}

impl ClientError {
    /// What went wrong, as its model.
    pub open spec fn message(self) -> Seq<char> {
        match self {
            ClientError::InvalidResponse(message) => message@,
            ClientError::InvalidAuthToken(message) => message@,
            ClientError::Json(message) => message@,
        }
    }

    /// What went wrong.
    pub fn to_text(&self) -> (text: String)
        ensures
            text@ == self.message(),
    {
        match self {
            ClientError::InvalidResponse(message) => message.clone(),
            ClientError::InvalidAuthToken(message) => message.clone(),
            ClientError::Json(message) => message.clone(),
        }
    }

    /// What a failure on domain types means for a reply that holds them.
    pub fn from_domain(error: LogPoseError) -> (converted: Self)
        ensures
            converted@ == ClientErrorModel::InvalidResponse(error.message()),
    {
        ClientError::InvalidResponse(error.to_text())
    }
}

/// An outcome with its error as a model.
pub open spec fn client_outcome<T>(outcome: Result<T, ClientError>) -> Result<T, ClientErrorModel> {
    match outcome {
        Ok(value) => Ok(value),
        Err(error) => Err(error@),
    }
}

/// A reply that cannot be used.
pub open spec fn unusable(message: Seq<char>) -> ClientErrorModel {
    ClientErrorModel::InvalidResponse(message)
}

pub(crate) fn invalid_response(message: &str) -> (error: ClientError)
    ensures
        error@ == unusable(message@),
{
    ClientError::InvalidResponse(message.to_owned())
}

/// A reply with a number that has no meaning.
pub open spec fn unknown_number(what: Seq<char>, number: i32) -> ClientErrorModel {
    unusable("unknown "@ + what + " '"@ + signed_decimal(number as int) + "'"@)
}

pub(crate) fn unknown_code(what: &str, number: i32) -> (error: ClientError)
    ensures
        error@ == unknown_number(what@, number),
{
    let mut message = "unknown ".to_owned();
    message.append(what);
    message.append(" '");
    message.append(&signed_text(number));
    message.append("'");
    ClientError::InvalidResponse(message)
}

/// A number without a meaning is reported as a reply that cannot be used, with what it was to stand
/// for.
pub proof fn law_unknown_numbers_are_named(what: Seq<char>, number: i32)
    ensures
        unknown_number(what, number) == ClientErrorModel::InvalidResponse(
            "unknown "@ + what + " '"@ + signed_decimal(number as int) + "'"@,
        ),
{
}

} // verus!
