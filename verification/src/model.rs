//! Data model: release records, search hits, and the request-level error
//! type shared by the storage and search accessors.

use vstd::prelude::*;

verus! {

/// A published release of a flake, in the compact shape used by listings.
///
/// The identifier is the internal relational key; it is never serialized
/// towards a consumer. `owner`, `repo` and `version` form the externally
/// meaningful key of a release.
pub struct FlakeRelease {
    pub id: i32,
    pub owner: String,
    pub repo: String,
    pub version: String,
    pub description: String,
    /// Creation instant, as microseconds relative to the Unix epoch.
    pub created_at: i64,
}

/// A release in the extended shape of the per-repository detail view: the
/// compact fields plus the source-control commit reference and the readme
/// text blob.
pub struct FlakeReleaseDetail {
    pub id: i32,
    pub owner: String,
    pub repo: String,
    pub version: String,
    pub description: String,
    /// Creation instant, as microseconds relative to the Unix epoch.
    pub created_at: i64,
    pub commit: String,
    pub readme: String,
}

/// One search-engine match: a release identifier together with its relevance.
///
/// The engine reports relevance as a floating-point score; the caller that
/// talks to the engine hands it to this library as an order-preserving
/// integer key (a larger key means a more relevant hit), so that every
/// ordering decision made here is about plain integers.
#[derive(Clone, Copy, Debug, PartialEq, Eq, Structural)]
pub struct SearchHit {
    pub id: i32,
    pub score: u64,
}

/// A search-engine hit as it reaches the library from the wire, before any
/// shape validation: the identifier arrives as a decimal string, and either
/// field may be missing from a malformed response.
pub struct RawSearchHit {
    pub id: Option<String>,
    pub score: Option<u64>,
}

/// A terminal failure of the current request. Both kinds map uniformly to an
/// HTTP 500 response carrying the textual description; neither is retried.
#[derive(Debug)]
pub enum AppError {
    /// The relational store was unreachable, the query malformed, or the
    /// connection pool exhausted.
    Storage(String),
    /// The search engine was unreachable or returned an unparseable response.
    ExternalService(String),
}

impl AppError {
    /// The textual description of the failure, for the error response body.
    pub open spec fn message_spec(&self) -> Seq<char> {
        match self {
            AppError::Storage(m) => m@,
            AppError::ExternalService(m) => m@,
        }
    }

    /// The human-readable description carried by this error.
    pub fn message(&self) -> (m: &String)
        ensures
            m@ == self.message_spec(),
    {
        match self {
            AppError::Storage(m) => m,
            AppError::ExternalService(m) => m,
        }
    }

    /// Every error of this type is terminal for its request and surfaces as
    /// an HTTP 500, whichever accessor failed.
    pub fn status_code(&self) -> (s: u16)
        ensures
            s == 500,
    {
        500
    }
}

} // verus!
