use flake_registry::api::get_flake;
use flake_registry::api::hydration_ids;
use flake_registry::api::ListingInput;
use flake_registry::api::RECENT_LISTING_LIMIT;
use flake_registry::model::FlakeRelease;
use flake_registry::model::SearchHit;
use flake_registry::sql::in_clause;

fn rel(id: i32, owner: &str, repo: &str, version: &str) -> FlakeRelease {
    FlakeRelease {
        id,
        owner: owner.to_string(),
        repo: repo.to_string(),
        version: version.to_string(),
        description: String::new(),
        created_at: 0,
    }
}

#[test]
fn rank_orders_by_descending_score() {
    let hits = vec![
        SearchHit { id: 1, score: 12 },
        SearchHit { id: 2, score: 34 },
        SearchHit { id: 3, score: 5 },
    ];
    let releases = vec![rel(1, "a", "r", "1"), rel(2, "b", "s", "1"), rel(3, "c", "t", "1")];
    let resp = get_flake(ListingInput::Searched("widget".to_string(), hits, releases));
    assert_eq!(resp.count, 3);
    assert_eq!(resp.query.as_deref(), Some("widget"));
    let ids: Vec<i32> = resp.releases.iter().map(|r| r.id).collect();
    assert_eq!(ids, vec![2, 1, 3]);
}

#[test]
fn rank_orders_by_engine_float_scores() {
    // Scores as the engine reports them: non-negative floats, carried as
    // their order-preserving bit patterns.
    let hits = vec![
        SearchHit { id: 10, score: 1.25f64.to_bits() },
        SearchHit { id: 20, score: 7.5f64.to_bits() },
        SearchHit { id: 30, score: 0.5f64.to_bits() },
    ];
    let releases = vec![rel(30, "c", "t", "1"), rel(10, "a", "r", "1"), rel(20, "b", "s", "1")];
    let resp = get_flake(ListingInput::Searched("q".to_string(), hits, releases));
    let ids: Vec<i32> = resp.releases.iter().map(|r| r.id).collect();
    assert_eq!(ids, vec![20, 10, 30]);
}

#[test]
fn equal_scores_keep_both_in_either_order() {
    let hits = vec![SearchHit { id: 1, score: 9 }, SearchHit { id: 2, score: 9 }];
    let releases = vec![rel(1, "a", "r", "1"), rel(2, "b", "s", "1")];
    let resp = get_flake(ListingInput::Searched("q".to_string(), hits, releases));
    assert_eq!(resp.count, 2);
    let mut ids: Vec<i32> = resp.releases.iter().map(|r| r.id).collect();
    ids.sort();
    assert_eq!(ids, vec![1, 2]);
}

#[test]
fn zero_hits_give_empty_response() {
    let resp = get_flake(ListingInput::Searched("nothing".to_string(), vec![], vec![]));
    assert_eq!(resp.count, 0);
    assert!(resp.releases.is_empty());
    assert_eq!(resp.query.as_deref(), Some("nothing"));
    // ... and the hydration step would not even build a query for it.
    assert!(hydration_ids(&vec![]).is_empty());
    assert!(in_clause(&vec![]).is_none());
}

#[test]
fn hydrated_set_is_authoritative_over_hits() {
    // A hit whose record is gone from the store is silently dropped; a
    // record without a hit ranks last with score zero.
    let hits = vec![SearchHit { id: 7, score: 50 }, SearchHit { id: 1, score: 10 }];
    let releases = vec![rel(9, "x", "y", "1"), rel(1, "a", "r", "1")];
    let resp = get_flake(ListingInput::Searched("q".to_string(), hits, releases));
    let ids: Vec<i32> = resp.releases.iter().map(|r| r.id).collect();
    assert_eq!(ids, vec![1, 9]);
}

#[test]
fn recent_listing_is_capped_at_one_hundred() {
    let mut releases = Vec::new();
    for i in 0..150 {
        releases.push(rel(i, "o", "r", "1"));
    }
    let resp = get_flake(ListingInput::Recent(releases));
    assert_eq!(resp.count, RECENT_LISTING_LIMIT);
    assert_eq!(resp.releases.len(), 100);
    // Creation-time order as given by the store is preserved.
    for (i, r) in resp.releases.iter().enumerate() {
        assert_eq!(r.id, i as i32);
    }
    assert!(resp.query.is_none());
}

#[test]
fn recent_listing_passes_small_sets_through() {
    let releases = vec![rel(5, "o", "r", "3"), rel(4, "o", "r", "2"), rel(3, "o", "r", "1")];
    let resp = get_flake(ListingInput::Recent(releases));
    assert_eq!(resp.count, 3);
    let ids: Vec<i32> = resp.releases.iter().map(|r| r.id).collect();
    assert_eq!(ids, vec![5, 4, 3]);
    assert!(resp.query.is_none());
}

#[test]
fn hydration_ids_follow_hit_order() {
    let hits = vec![
        SearchHit { id: 8, score: 1 },
        SearchHit { id: 3, score: 2 },
        SearchHit { id: 8, score: 3 },
    ];
    assert_eq!(hydration_ids(&hits), vec![8, 3, 8]);
}
