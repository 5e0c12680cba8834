//! The request flows behind the HTTP surface: the search/list orchestrator
//! and the per-repository listing, together with their response shapes.
//!
//! The outside calls of a request — the search round-trip and the relational
//! queries — run in the binary that wraps this crate; the functions here
//! take those results as plain values, make every decision and produce the
//! response, so that the whole decision path is verified.

use vstd::prelude::*;
use vstd::seq_lib::group_to_multiset_ensures;
use crate::model::FlakeRelease;
use crate::model::FlakeReleaseDetail;
use crate::model::SearchHit;
use crate::rank::rank_releases;
use crate::rank::sort_by_version_desc;
use crate::rank::sorted_by_score_desc;
use crate::rank::sorted_by_version_desc;

verus! {

/// The unfiltered listing returns at most this many releases.
pub const RECENT_LISTING_LIMIT: usize = 100;

/// The response of the listing/search endpoint: the ordered releases, their
/// count, and an echo of the query string (absent when none was given).
pub struct GetFlakeResponse {
    pub releases: Vec<FlakeRelease>,
    pub count: usize,
    pub query: Option<String>,
}

/// The response of the per-repository detail endpoint.
pub struct RepoResponse {
    pub releases: Vec<FlakeReleaseDetail>,
}

/// The body of a "not found" outcome.
pub struct NotFoundResponse {
    pub detail: String,
}

impl NotFoundResponse {
    pub fn build() -> (r: Self)
        ensures
            r.detail@ == "Not Found"@,
    {
        NotFoundResponse { detail: "Not Found".to_owned() }
    }
}

/// What the listing orchestrator works on once the outside calls of the
/// request have completed.
pub enum ListingInput {
    /// No query string was given: the recent releases, in the creation-time
    /// descending order the store listed them in.
    Recent(Vec<FlakeRelease>),
    /// A query string was given: the echo of that string, the search hits,
    /// and the records hydrated for the hit identifiers.
    Searched(String, Vec<SearchHit>, Vec<FlakeRelease>),
}

/// The identifiers to hydrate for a hit set: each hit's release identifier,
/// in hit order.
pub fn hydration_ids(hits: &Vec<SearchHit>) -> (ids: Vec<i32>)
    ensures
        ids@ == hits@.map_values(|h: SearchHit| h.id),
{
    let mut ids: Vec<i32> = Vec::new();
    let mut i: usize = 0;
    proof {
        assert(ids@ =~= hits@.take(0).map_values(|h: SearchHit| h.id));
    }
    while i < hits.len()
        invariant
            i <= hits@.len(),
            ids@ == hits@.take(i as int).map_values(|h: SearchHit| h.id),
        decreases hits@.len() - i,
    {
        ids.push(hits[i].id);
        proof {
            assert(hits@.take(i + 1).map_values(|h: SearchHit| h.id) =~= hits@.take(
                i as int,
            ).map_values(|h: SearchHit| h.id).push(hits@[i as int].id));
        }
        i += 1;
    }
    proof {
        assert(hits@.take(hits@.len() as int) =~= hits@);
    }
    ids
}

/// Builds the listing response.
///
/// Without a query the recent listing is passed through in the order given,
/// capped at [`RECENT_LISTING_LIMIT`] releases, and the echoed query is
/// absent. With a query the hydrated records are reordered by descending
/// relevance score — the hydrated set is authoritative: exactly those
/// records appear, however the hit set relates to them — and the query
/// string is echoed back. The count always equals the number of releases
/// returned.
pub fn get_flake(input: ListingInput) -> (r: GetFlakeResponse)
    ensures
        r.count == r.releases@.len(),
        input matches ListingInput::Recent(rs) ==> {
            &&& r.query is None
            &&& r.releases@ == if rs@.len() <= RECENT_LISTING_LIMIT {
                rs@
            } else {
                rs@.take(RECENT_LISTING_LIMIT as int)
            }
            &&& r.releases@.len() <= RECENT_LISTING_LIMIT
        },
        input matches ListingInput::Searched(q, hits, hydrated) ==> {
            &&& r.query == Some(q)
            &&& r.releases@.to_multiset() == hydrated@.to_multiset()
            &&& r.releases@.len() == hydrated@.len()
            &&& sorted_by_score_desc(hits@, r.releases@)
        },
{
    match input {
        ListingInput::Recent(mut rs) => {
            if rs.len() > RECENT_LISTING_LIMIT {
                rs.truncate(RECENT_LISTING_LIMIT);
            }
            let count = rs.len();
            GetFlakeResponse { releases: rs, count, query: None }
        },
        ListingInput::Searched(q, hits, hydrated) => {
            let ranked = rank_releases(&hits, hydrated);
            let count = ranked.len();
            GetFlakeResponse { releases: ranked, count, query: Some(q) }
        },
    }
}

/// The outcome of the per-repository detail read.
pub enum RepoPage {
    Found(RepoResponse),
    Missing(NotFoundResponse),
}

impl RepoPage {
    /// A resolved repository answers 200; an unknown owner/repo pair is a
    /// first-class "not found" outcome, 404 — not an error.
    pub fn status_code(&self) -> (s: u16)
        ensures
            self matches RepoPage::Found(_) ==> s == 200,
            self matches RepoPage::Missing(_) ==> s == 404,
    {
        match self {
            RepoPage::Found(_) => 200,
            RepoPage::Missing(_) => 404,
        }
    }
}

/// Builds the per-repository detail page.
///
/// `found` is absent when the owner/repo pair resolved to no repository —
/// the page is then the "not found" outcome, and no release query was run.
/// For a resolved repository the page holds exactly the fetched releases,
/// ordered by version string descending under plain lexicographic
/// comparison (deliberately not semantic-version order).
pub fn read_repo(found: Option<Vec<FlakeReleaseDetail>>) -> (r: RepoPage)
    ensures
        found is None <==> r matches RepoPage::Missing(_),
        r matches RepoPage::Missing(nf) ==> nf.detail@ == "Not Found"@,
        found matches Some(rs) ==> (r matches RepoPage::Found(page)
            && page.releases@.to_multiset() == rs@.to_multiset()
            && page.releases@.len() == rs@.len()
            && sorted_by_version_desc(page.releases@)),
{
    match found {
        None => RepoPage::Missing(NotFoundResponse::build()),
        Some(rs) => {
            let sorted = sort_by_version_desc(rs);
            RepoPage::Found(RepoResponse { releases: sorted })
        },
    }
}

/// Zero search hits short-circuit the rest of the request: the identifier
/// set handed to hydration is empty — so no `IN (...)` query is ever built
/// — and any hydrated set a store could legitimately answer for it is
/// empty, so the response built from it has no releases and count zero.
pub proof fn lemma_zero_hits_short_circuit(hits: Seq<SearchHit>, hydrated: Seq<FlakeRelease>)
    requires
        hits.len() == 0,
        hydrated.to_multiset() == Seq::<FlakeRelease>::empty().to_multiset(),
    ensures
        hits.map_values(|h: SearchHit| h.id).len() == 0,
        hydrated =~= Seq::<FlakeRelease>::empty(),
        hydrated.len() == 0,
{
    broadcast use group_to_multiset_ensures;

    assert(hydrated.len() == hydrated.to_multiset().len());
    assert(Seq::<FlakeRelease>::empty().to_multiset().len() == 0);
}

} // verus!
