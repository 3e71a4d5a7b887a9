//! Execution core of a federated GraphQL gateway: canonicalization of
//! selection sets (merging, fragment expansion, containment), projection of
//! fragments onto subgraph schemas, and the pure parts of fetch-node
//! execution (representation batching, response stitching, error
//! relocation).

pub mod ast;
pub mod body;
pub mod canon;
pub mod containment;
pub mod federation;
pub mod fetch;
pub mod fragments;
pub mod json;
pub mod normalize;
pub mod rebase;
pub mod representations;
pub mod response;
pub mod rewrites;
pub mod schema;
pub mod serialize;
pub mod subscription;

pub use containment::Containment;
pub use containment::ContainmentOptions;
