//! Ordering of release listings: re-ranking hydrated search results by
//! descending relevance, and ordering a repository's releases by version
//! string descending.
//!
//! Version strings are compared by plain bytewise lexicographic order — the
//! order `String` comparison gives — and deliberately not by semantic-version
//! rules: `"2.0.0"` sorts above `"10.0.0"`. Consumers may depend on this.

use vstd::prelude::*;
use vstd::seq_lib::group_to_multiset_ensures;
use vstd::seq_lib::to_multiset_insert;
use vstd::utf8::encode_utf8;
use vstd::string::StringSliceAdditionalSpecFns;
use crate::model::FlakeRelease;
use crate::model::FlakeReleaseDetail;
use crate::model::SearchHit;

verus! {

/// The relevance score a sequence of search hits assigns to a release
/// identifier: the score of the last hit carrying that identifier, or zero
/// when no hit carries it. Later hits win, as a last-write store of the hit
/// set would have it.
pub open spec fn score_of(hits: Seq<SearchHit>, id: i32) -> u64
    decreases hits.len(),
{
    if hits.len() == 0 {
        0
    } else if hits.last().id == id {
        hits.last().score
    } else {
        score_of(hits.drop_last(), id)
    }
}

/// A release sequence is ordered by descending relevance under the given
/// hit set: no release ranks below an earlier one with a smaller score.
/// Releases with equal scores may stand in either order.
pub open spec fn sorted_by_score_desc(hits: Seq<SearchHit>, rs: Seq<FlakeRelease>) -> bool {
    forall|a: int, b: int|
        #![trigger rs[a], rs[b]]
        0 <= a < b < rs.len() ==> score_of(hits, rs[b].id) <= score_of(hits, rs[a].id)
}

/// Bytewise lexicographic "less than or equal" on byte sequences: the order
/// that `String` comparison induces on the UTF-8 bytes of two strings.
pub open spec fn lex_le(a: Seq<u8>, b: Seq<u8>) -> bool
    decreases a.len(),
{
    if a.len() == 0 {
        true
    } else if b.len() == 0 {
        false
    } else if a[0] < b[0] {
        true
    } else if a[0] > b[0] {
        false
    } else {
        lex_le(a.drop_first(), b.drop_first())
    }
}

/// The UTF-8 bytes of a release's version string, the sort key of the
/// per-repository listing.
pub open spec fn version_bytes(r: FlakeReleaseDetail) -> Seq<u8> {
    encode_utf8(r.version@)
}

/// A detail-release sequence is ordered by version string descending, under
/// bytewise lexicographic comparison.
pub open spec fn sorted_by_version_desc(rs: Seq<FlakeReleaseDetail>) -> bool {
    forall|a: int, b: int|
        #![trigger rs[a], rs[b]]
        0 <= a < b < rs.len() ==> lex_le(version_bytes(rs[b]), version_bytes(rs[a]))
}

/// Lexicographic order is total: of any two byte sequences, one is `lex_le`
/// the other.
pub proof fn lemma_lex_le_total(a: Seq<u8>, b: Seq<u8>)
    ensures
        lex_le(a, b) || lex_le(b, a),
    decreases a.len(),
{
    if a.len() > 0 && b.len() > 0 && a[0] == b[0] {
        lemma_lex_le_total(a.drop_first(), b.drop_first());
    }
}

/// Lexicographic order is transitive.
pub proof fn lemma_lex_le_trans(a: Seq<u8>, b: Seq<u8>, c: Seq<u8>)
    requires
        lex_le(a, b),
        lex_le(b, c),
    ensures
        lex_le(a, c),
    decreases a.len(),
{
    if a.len() > 0 && b.len() > 0 && c.len() > 0 && a[0] == b[0] && b[0] == c[0] {
        lemma_lex_le_trans(a.drop_first(), b.drop_first(), c.drop_first());
    }
}

/// Dropping an equal prefix of both sequences does not change how they
/// compare.
proof fn lemma_lex_le_skip(a: Seq<u8>, b: Seq<u8>, i: int)
    requires
        0 <= i <= a.len(),
        i <= b.len(),
        forall|k: int| 0 <= k < i ==> a[k] == b[k],
    ensures
        lex_le(a, b) == lex_le(a.skip(i), b.skip(i)),
    decreases i,
{
    if i > 0 {
        lemma_lex_le_skip(a.drop_first(), b.drop_first(), i - 1);
        assert(a.drop_first().skip(i - 1) =~= a.skip(i));
        assert(b.drop_first().skip(i - 1) =~= b.skip(i));
    } else {
        assert(a.skip(0) =~= a);
        assert(b.skip(0) =~= b);
    }
}

/// Compares two strings by bytewise lexicographic order, as `String`
/// comparison does.
pub fn str_lex_le(a: &str, b: &str) -> (r: bool)
    ensures
        r == lex_le(a.spec_bytes(), b.spec_bytes()),
{
    let ab = a.as_bytes();
    let bb = b.as_bytes();
    let mut i: usize = 0;
    while i < ab.len() && i < bb.len()
        invariant
            i <= ab@.len(),
            i <= bb@.len(),
            ab@ == a.spec_bytes(),
            bb@ == b.spec_bytes(),
            forall|k: int| 0 <= k < i ==> ab@[k] == bb@[k],
        decreases ab@.len() - i,
    {
        let x = ab[i];
        let y = bb[i];
        if x < y {
            proof {
                lemma_lex_le_skip(ab@, bb@, i as int);
            }
            return true;
        }
        if x > y {
            proof {
                lemma_lex_le_skip(ab@, bb@, i as int);
            }
            return false;
        }
        i += 1;
    }
    proof {
        lemma_lex_le_skip(ab@, bb@, i as int);
    }
    i == ab.len()
}

/// Looks up the relevance score the hit set assigns to a release identifier.
pub fn lookup_score(hits: &Vec<SearchHit>, id: i32) -> (s: u64)
    ensures
        s == score_of(hits@, id),
{
    let mut j: usize = hits.len();
    proof {
        assert(hits@.take(j as int) =~= hits@);
    }
    while j > 0
        invariant
            j <= hits@.len(),
            score_of(hits@, id) == score_of(hits@.take(j as int), id),
        decreases j,
    {
        let h = hits[j - 1];
        proof {
            assert(hits@.take(j as int).last() == hits@[j - 1]);
            assert(hits@.take(j as int).drop_last() =~= hits@.take(j as int - 1));
        }
        if h.id == id {
            return h.score;
        }
        j -= 1;
    }
    0
}

/// Reorders hydrated releases by descending relevance score, the score
/// mapping of the search step being the sort key. The result holds exactly
/// the given releases; releases with equal scores may come out in either
/// order.
pub fn rank_releases(hits: &Vec<SearchHit>, releases: Vec<FlakeRelease>) -> (r: Vec<FlakeRelease>)
    ensures
        r@.to_multiset() == releases@.to_multiset(),
        r@.len() == releases@.len(),
        sorted_by_score_desc(hits@, r@),
{
    let mut v = releases;
    if v.len() <= 1 {
        return v;
    }
    let ghost orig = v@;
    let mut i: usize = 1;
    while i < v.len()
        invariant
            1 <= i <= v@.len(),
            v@.len() == orig.len(),
            v@.to_multiset() == orig.to_multiset(),
            sorted_by_score_desc(hits@, v@.take(i as int)),
        decreases v@.len() - i,
    {
        let ghost before = v@;
        let x = v.remove(i);
        let key_x = lookup_score(hits, x.id);
        let ghost mid = v@;
        let mut j: usize = 0;
        while j < i && key_x <= lookup_score(hits, v[j].id)
            invariant
                j <= i,
                i < before.len(),
                v@ == mid,
                mid == before.remove(i as int),
                key_x == score_of(hits@, x.id),
                forall|k: int| #![trigger mid[k]] 0 <= k < j ==> key_x <= score_of(hits@, mid[k].id),
            decreases i - j,
        {
            j += 1;
        }
        v.insert(j, x);
        proof {
            broadcast use group_to_multiset_ensures, to_multiset_insert;

            assert(before[i as int] == x);
            assert(v@.to_multiset() =~= before.to_multiset()) by {
                broadcast use vstd::multiset::group_multiset_axioms;

                assert(mid.to_multiset() == before.to_multiset().remove(x));
                assert(v@.to_multiset() == mid.to_multiset().insert(x));
                assert(before.to_multiset().count(x) > 0);
            }
            // The prefix of length i was untouched by the removal at i and is
            // sorted; the insertion at j keeps it sorted.
            assert(forall|k: int| #![trigger mid[k]] 0 <= k < i ==> mid[k] == before[k]);
            assert(forall|p: int, q: int|
                #![trigger mid[p], mid[q]]
                0 <= p < q < i ==> score_of(hits@, mid[q].id) <= score_of(hits@, mid[p].id)) by {
                assert(forall|k: int|
                    #![trigger before.take(i as int)[k]]
                    0 <= k < i ==> before.take(i as int)[k] == before[k]);
            }
            assert forall|a: int, b: int|
                0 <= a < b < i + 1 implies score_of(hits@, #[trigger] v@[b].id) <= score_of(
                hits@,
                #[trigger] v@[a].id,
            ) by {
                let ji = j as int;
                assert(v@[ji] == x);
                assert(forall|k: int| #![trigger v@[k]] 0 <= k < ji ==> v@[k] == mid[k]);
                assert(forall|k: int| #![trigger v@[k]] ji < k <= i ==> v@[k] == mid[k - 1]);
                if b > ji {
                    // Everything shifted up past j sits at or below v[j] = x.
                    assert(score_of(hits@, mid[ji].id) < key_x);
                    assert(score_of(hits@, v@[b].id) <= key_x);
                }
            }
            assert(sorted_by_score_desc(hits@, v@.take(i + 1))) by {
                assert(forall|k: int| #![trigger v@.take(i + 1)[k]]
                    0 <= k < i + 1 ==> v@.take(i + 1)[k] == v@[k]);
            }
        }
        i += 1;
    }
    proof {
        assert(v@.take(v@.len() as int) =~= v@);
    }
    v
}

/// Orders a repository's releases by version string descending, under plain
/// bytewise lexicographic comparison (not semantic-version order). The
/// result holds exactly the given releases; equal versions may come out in
/// either order.
pub fn sort_by_version_desc(releases: Vec<FlakeReleaseDetail>) -> (r: Vec<FlakeReleaseDetail>)
    ensures
        r@.to_multiset() == releases@.to_multiset(),
        r@.len() == releases@.len(),
        sorted_by_version_desc(r@),
{
    let mut v = releases;
    if v.len() <= 1 {
        return v;
    }
    let ghost orig = v@;
    let mut i: usize = 1;
    while i < v.len()
        invariant
            1 <= i <= v@.len(),
            v@.len() == orig.len(),
            v@.to_multiset() == orig.to_multiset(),
            sorted_by_version_desc(v@.take(i as int)),
        decreases v@.len() - i,
    {
        let ghost before = v@;
        let x = v.remove(i);
        let ghost mid = v@;
        let mut j: usize = 0;
        while j < i && str_lex_le(x.version.as_str(), v[j].version.as_str())
            invariant
                j <= i,
                i < before.len(),
                v@ == mid,
                mid == before.remove(i as int),
                forall|k: int|
                    #![trigger mid[k]]
                    0 <= k < j ==> lex_le(version_bytes(x), version_bytes(mid[k])),
            decreases i - j,
        {
            j += 1;
        }
        v.insert(j, x);
        proof {
            broadcast use group_to_multiset_ensures, to_multiset_insert;

            assert(before[i as int] == x);
            assert(v@.to_multiset() =~= before.to_multiset()) by {
                broadcast use vstd::multiset::group_multiset_axioms;

                assert(mid.to_multiset() == before.to_multiset().remove(x));
                assert(v@.to_multiset() == mid.to_multiset().insert(x));
                assert(before.to_multiset().count(x) > 0);
            }
            assert(forall|k: int| #![trigger mid[k]] 0 <= k < i ==> mid[k] == before[k]);
            assert(forall|p: int, q: int|
                #![trigger mid[p], mid[q]]
                0 <= p < q < i ==> lex_le(version_bytes(mid[q]), version_bytes(mid[p]))) by {
                assert(forall|k: int|
                    #![trigger before.take(i as int)[k]]
                    0 <= k < i ==> before.take(i as int)[k] == before[k]);
            }
            assert forall|a: int, b: int|
                0 <= a < b < i + 1 implies lex_le(
                version_bytes(v@[b]),
                version_bytes(v@[a]),
            ) by {
                let ji = j as int;
                assert(v@[ji] == x);
                assert(forall|k: int| #![trigger v@[k]] 0 <= k < ji ==> v@[k] == mid[k]);
                assert(forall|k: int| #![trigger v@[k]] ji < k <= i ==> v@[k] == mid[k - 1]);
                if b > ji {
                    // The scan stopped early: v[j] is not at or above x, so
                    // by totality x is above it, and everything shifted up
                    // past j sits at or below x.
                    lemma_lex_le_total(version_bytes(x), version_bytes(mid[ji]));
                    assert(lex_le(version_bytes(mid[ji]), version_bytes(x)));
                    if b - 1 > ji {
                        lemma_lex_le_trans(
                            version_bytes(mid[b - 1]),
                            version_bytes(mid[ji]),
                            version_bytes(x),
                        );
                    }
                    assert(lex_le(version_bytes(v@[b]), version_bytes(x)));
                    if a < ji {
                        lemma_lex_le_trans(
                            version_bytes(v@[b]),
                            version_bytes(x),
                            version_bytes(mid[a]),
                        );
                    }
                }
            }
            assert(sorted_by_version_desc(v@.take(i + 1))) by {
                assert(forall|k: int| #![trigger v@.take(i + 1)[k]]
                    0 <= k < i + 1 ==> v@.take(i + 1)[k] == v@[k]);
            }
        }
        i += 1;
    }
    proof {
        assert(v@.take(v@.len() as int) =~= v@);
    }
    v
}

} // verus!
