//! Failures of index operations.

use vstd::prelude::*;

verus! {

/// Broad class of an index failure.
#[derive(Clone, Copy, Debug, PartialEq, Eq, Structural)]
pub enum IndexErrorKind {
    /// The data itself is malformed.
    InvalidData,
    /// An argument does not fit the data.
    InvalidInput,
    /// The data ends too early.
    UnexpectedEof,
}

/// A failed index operation.
#[derive(Debug)]
pub struct IndexError {
    /// Broad class of the failure.
    pub kind: IndexErrorKind,
    /// What went wrong.
    pub message: String,
}

/// Model of a failed index operation.
#[verifier::ext_equal]
pub struct ErrorModel {
    pub kind: IndexErrorKind,
    pub message: Seq<char>,
}

impl View for IndexError {
    type V = ErrorModel;

    open spec fn view(&self) -> ErrorModel {
        ErrorModel { kind: self.kind, message: self.message@ }
    }
}

impl IndexError {
    /// What went wrong, as text.
    pub fn to_text(&self) -> (text: String)
        ensures
            text@ == self@.message,
    {
        self.message.clone()
    }
}

/// Malformed data, described by `message`.
pub open spec fn invalid_data(message: Seq<char>) -> ErrorModel {
    ErrorModel { kind: IndexErrorKind::InvalidData, message }
}

/// An argument that does not fit, described by `message`.
pub open spec fn invalid_input(message: Seq<char>) -> ErrorModel {
    ErrorModel { kind: IndexErrorKind::InvalidInput, message }
}

/// An error about stored or given data.
pub fn invalid_data_error(message: String) -> (error: IndexError)
    ensures
        error@ == invalid_data(message@),
{
    IndexError { kind: IndexErrorKind::InvalidData, message }
}

/// An error about what a caller asks for.
pub fn invalid_input_error(message: String) -> (error: IndexError)
    ensures
        error@ == invalid_input(message@),
{
    IndexError { kind: IndexErrorKind::InvalidInput, message }
}

} // verus!
