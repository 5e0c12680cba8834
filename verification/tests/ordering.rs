use flake_registry::api::NotFoundResponse;
use flake_registry::model::SearchHit;
use flake_registry::rank::lookup_score;
use flake_registry::rank::str_lex_le;

#[test]
fn not_found_body_detail() {
    let nf = NotFoundResponse::build();
    assert_eq!(nf.detail, "Not Found");
}

#[test]
fn lexicographic_order_matches_string_comparison() {
    let cases = [
        ("2.0.0", "10.0.0"),
        ("10.0.0", "2.0.0"),
        ("1.0", "1.0.1"),
        ("1.0.1", "1.0"),
        ("", "a"),
        ("a", ""),
        ("same", "same"),
        ("alpha", "beta"),
        ("nix\u{e9}", "nixz"),
    ];
    for (a, b) in cases {
        assert_eq!(str_lex_le(a, b), a <= b, "comparison of {a:?} and {b:?}");
    }
}

#[test]
fn score_lookup_takes_the_last_hit_and_defaults_to_zero() {
    let hits = vec![
        SearchHit { id: 1, score: 3 },
        SearchHit { id: 2, score: 8 },
        SearchHit { id: 1, score: 5 },
    ];
    assert_eq!(lookup_score(&hits, 1), 5);
    assert_eq!(lookup_score(&hits, 2), 8);
    assert_eq!(lookup_score(&hits, 9), 0);
}
