//! Core of a federated full-text search service: an index catalog that
//! tracks local handles and remote peers, a fan-out query executor that
//! merges partial results under a commutative, associative sum, the
//! peer-facing reply rules, and the path and error rules of the gateway.

pub mod catalog;
pub mod error;
pub mod executor;
pub mod handle;
pub mod handlers;
pub mod paths;
pub mod query;
pub mod results;
pub mod rpc;
