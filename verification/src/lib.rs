//! Core logic of a package-registry backend: listing, searching and ranking
//! published flake releases.
//!
//! The library holds everything that computes on plain values: assembling and
//! ordering release listings, validating search-engine hits, and building the
//! identifier list for relational hydration. Network I/O (the relational
//! store, the search engine, the HTTP surface) lives outside, in the binary
//! that wraps this crate.

pub mod api;
pub mod model;
pub mod rank;
pub mod search;
pub mod sql;

pub use model::AppError;
pub use model::FlakeRelease;
