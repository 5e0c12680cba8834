use flake_registry::model::AppError;
use flake_registry::model::RawSearchHit;
use flake_registry::search::index_needs_creation;
use flake_registry::search::parse_release_id;
use flake_registry::search::parse_search_hits;
use flake_registry::search::SEARCH_HIT_LIMIT;

fn raw(id: Option<&str>, score: Option<f64>) -> RawSearchHit {
    RawSearchHit { id: id.map(|s| s.to_string()), score: score.map(f64::to_bits) }
}

#[test]
fn well_formed_hits_parse() {
    let hits = parse_search_hits(Some(vec![raw(Some("1"), Some(3.5)), raw(Some("42"), Some(0.5))]))
        .expect("well-formed hits must parse");
    assert_eq!(hits.len(), 2);
    assert_eq!(hits[0].id, 1);
    assert_eq!(hits[0].score, 3.5f64.to_bits());
    assert_eq!(hits[1].id, 42);
    assert_eq!(hits[1].score, 0.5f64.to_bits());
}

#[test]
fn empty_hit_array_is_fine() {
    let hits = parse_search_hits(Some(vec![])).expect("an empty hit array is a valid response");
    assert!(hits.is_empty());
}

#[test]
fn missing_hit_array_is_a_hard_failure() {
    let err = parse_search_hits(None).expect_err("a response without hits must fail");
    match &err {
        AppError::ExternalService(m) => {
            assert_eq!(m, "failed to extract hits from open search response")
        },
        AppError::Storage(_) => panic!("a malformed search response is not a storage fault"),
    }
    assert_eq!(err.status_code(), 500);
    assert!(!err.message().is_empty());
}

#[test]
fn hit_without_id_is_a_hard_failure() {
    let err = parse_search_hits(Some(vec![raw(Some("1"), Some(1.0)), raw(None, Some(2.0))]))
        .expect_err("a hit without an identifier must fail the request");
    match err {
        AppError::ExternalService(m) => {
            assert_eq!(m, "failed to read id as string from open search hit")
        },
        AppError::Storage(_) => panic!("a malformed search response is not a storage fault"),
    }
}

#[test]
fn non_numeric_id_is_a_hard_failure() {
    let err = parse_search_hits(Some(vec![raw(Some("abc"), Some(1.0))]))
        .expect_err("a non-numeric identifier must fail the request");
    match err {
        AppError::ExternalService(m) => assert_eq!(m, "failed to parse id from open search hit"),
        AppError::Storage(_) => panic!("a malformed search response is not a storage fault"),
    }
}

#[test]
fn out_of_range_id_is_a_hard_failure() {
    let err = parse_search_hits(Some(vec![raw(Some("2147483648"), Some(1.0))]))
        .expect_err("an identifier beyond the 32-bit range must fail");
    match err {
        AppError::ExternalService(m) => assert_eq!(m, "failed to parse id from open search hit"),
        AppError::Storage(_) => panic!("a malformed search response is not a storage fault"),
    }
}

#[test]
fn hit_without_score_is_a_hard_failure() {
    let err = parse_search_hits(Some(vec![raw(Some("1"), None)]))
        .expect_err("a hit without a score must fail the request");
    match err {
        AppError::ExternalService(m) => assert_eq!(m, "failed to parse score from open search hit"),
        AppError::Storage(_) => panic!("a malformed search response is not a storage fault"),
    }
}

#[test]
fn release_id_parsing_follows_decimal_integer_rules() {
    assert_eq!(parse_release_id("0"), Some(0));
    assert_eq!(parse_release_id("12"), Some(12));
    assert_eq!(parse_release_id("007"), Some(7));
    assert_eq!(parse_release_id("+5"), Some(5));
    assert_eq!(parse_release_id("-5"), Some(-5));
    assert_eq!(parse_release_id("-0"), Some(0));
    assert_eq!(parse_release_id("2147483647"), Some(i32::MAX));
    assert_eq!(parse_release_id("-2147483648"), Some(i32::MIN));
    assert_eq!(parse_release_id("2147483648"), None);
    assert_eq!(parse_release_id("-2147483649"), None);
    assert_eq!(parse_release_id("99999999999999999999"), None);
    assert_eq!(parse_release_id(""), None);
    assert_eq!(parse_release_id("+"), None);
    assert_eq!(parse_release_id("-"), None);
    assert_eq!(parse_release_id("12a"), None);
    assert_eq!(parse_release_id(" 12"), None);
    assert_eq!(parse_release_id("1 2"), None);
}

#[test]
fn release_id_parsing_matches_std() {
    for s in ["0", "12", "007", "+5", "-5", "2147483647", "-2147483648", "2147483648", "", "+",
        "12a", "--3", "+-1"] {
        assert_eq!(parse_release_id(s), s.parse::<i32>().ok(), "disagreement on {s:?}");
    }
}

#[test]
fn storage_errors_also_map_to_500() {
    let err = AppError::Storage("Failed to fetch flakes from database".to_string());
    assert_eq!(err.status_code(), 500);
    assert_eq!(err.message(), "Failed to fetch flakes from database");
}

#[test]
fn index_is_created_only_when_absent() {
    assert!(index_needs_creation(404));
    assert!(!index_needs_creation(200));
    assert!(!index_needs_creation(500));
}

#[test]
fn search_page_size_is_ten() {
    assert_eq!(SEARCH_HIT_LIMIT, 10);
}
