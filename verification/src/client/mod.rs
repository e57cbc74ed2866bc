//! Client side of the gRPC interface: what requests say, and what replies mean.

pub mod codes;
pub mod config;
pub mod error;
pub mod replies;
pub mod requests;
pub mod statistics;
