//! gRPC surface of the server: what requests ask for, and what replies say.

pub mod headers;
pub mod predicates;
pub mod replies;
pub mod requests;
pub mod status;
