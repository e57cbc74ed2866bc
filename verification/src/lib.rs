//! Building blocks of the LogPose vector database: catalog and access rules,
//! request shaping for its REST and gRPC surfaces, and the index sidecars of
//! immutable units.

pub mod access;
pub mod auth;
pub mod catalog;
pub mod client;
pub mod config;
pub mod domain;
pub mod float;
pub mod grpc;
pub mod headers;
pub mod index;
pub mod json;
pub mod namespace;
pub mod proto;
pub mod query;
pub mod rest;
pub mod scalar;
pub mod text;
pub mod types;
pub mod wire;
pub mod workflow;
