//! The text-search pipeline end to end: query preparation, scoring,
//! per-shard ranking, federation, bias and truncation.

use geocoder_core::calculate_boosted_score;
use geocoder_core::scoring::UNIT_FP;
use geocoder_core::{
    apply_location_bias, federate_results, fetch_size, merge_results, prepare_fts_query,
    rank_rows, DivisionRow, GeocoderQuery, GeocoderResult, LocationBias,
};

fn mk_row(
    id: &str,
    name: &str,
    country: Option<&str>,
    region: Option<&str>,
    population: Option<i64>,
    raw_score: i64,
) -> DivisionRow {
    DivisionRow {
        rowid: 0,
        gers_id: id.to_string(),
        division_type: "locality".to_string(),
        primary_name: name.to_string(),
        lat: 0,
        lon: 0,
        bbox_xmin: 0,
        bbox_ymin: 0,
        bbox_xmax: 0,
        bbox_ymax: 0,
        population,
        country: country.map(|c| c.to_string()),
        region: region.map(|r| r.to_string()),
        raw_score,
    }
}

#[test]
fn test_fetch_size_policy() {
    assert_eq!(fetch_size(10), 100);
    assert_eq!(fetch_size(1), 100);
    assert_eq!(fetch_size(20), 200);
    for limit in [1usize, 5, 10, 50, 1000] {
        assert!(fetch_size(limit) >= limit);
        assert!(fetch_size(limit) >= 100);
    }
}

#[test]
fn test_prepare_two_tokens() {
    assert_eq!(prepare_fts_query("new york", false), "\"new\" \"york\"");
}

#[test]
fn test_prepare_autocomplete_last_token_only() {
    assert_eq!(prepare_fts_query("bost", true), "\"bost\"*");
    assert_eq!(prepare_fts_query("new yo", true), "\"new\" \"yo\"*");
}

#[test]
fn test_prepare_empty_and_punctuation() {
    assert_eq!(prepare_fts_query("", false), "");
    assert_eq!(prepare_fts_query("  ,.!  ", true), "");
    assert_eq!(prepare_fts_query("a-b", false), "\"a\" \"b\"");
}

#[test]
fn test_scoring_flat_penalty() {
    assert_eq!(calculate_boosted_score(0, None), -2_000_000 * UNIT_FP);
    assert_eq!(calculate_boosted_score(0, Some(0)), -2_000_000 * UNIT_FP);
    assert_eq!(
        calculate_boosted_score(500_000, None),
        500_000 * UNIT_FP - 2_000_000 * UNIT_FP
    );
}

#[test]
fn test_scoring_population_boost_exact() {
    // population 1: log2(2) is exactly one, so the boost is 2*ln(2) units
    assert_eq!(calculate_boosted_score(0, Some(1)), -1_386_294 * UNIT_FP);
    // population 3: log2(4) is exactly two
    assert_eq!(calculate_boosted_score(0, Some(3)), -2_772_588 * UNIT_FP);
    // population 7: log2(8) is exactly three
    assert_eq!(calculate_boosted_score(0, Some(7)), -4_158_882 * UNIT_FP);
}

#[test]
fn test_scoring_monotonic() {
    // more population, same raw score: strictly lower (better) boosted score
    assert!(calculate_boosted_score(0, Some(2000)) < calculate_boosted_score(0, Some(1000)));
    assert!(
        calculate_boosted_score(0, Some(1_000_001)) < calculate_boosted_score(0, Some(1_000_000))
    );
    // lower raw score, same population: strictly lower boosted score
    assert!(
        calculate_boosted_score(-100, Some(5)) < calculate_boosted_score(100, Some(5))
    );
}

#[test]
fn test_search_new_york() {
    let rows = vec![
        mk_row("q1", "York", Some("GB"), None, Some(200_000), -2_000_000),
        mk_row(
            "q2",
            "City of New York",
            Some("US"),
            Some("US-NY"),
            Some(8_400_000),
            -4_000_000,
        ),
        mk_row(
            "q3",
            "New York Mills",
            Some("US"),
            Some("US-MN"),
            Some(3_000),
            -4_500_000,
        ),
    ];
    let results = rank_rows(rows, 10);
    assert!(!results.is_empty(), "Should return results for 'new york'");
    let first = &results[0];
    assert!(
        first.primary_name.contains("New York"),
        "First result should contain 'New York', got: {}",
        first.primary_name
    );
    assert_eq!(first.country.as_deref(), Some("US"), "First result should be in US");
    // importance above 0.7 whole units on the fixed-point scale
    assert!(
        first.importance > 700_000 * UNIT_FP,
        "NYC should have high importance, got: {}",
        first.importance
    );
}

#[test]
fn test_autocomplete_finds_boston() {
    assert_eq!(prepare_fts_query("bost", true), "\"bost\"*");
    // rows the engine would return for the prefix query
    let rows = vec![
        mk_row("b2", "Bostonia", Some("US"), Some("US-CA"), Some(10_000), -3_200_000),
        mk_row("b1", "Boston", Some("US"), Some("US-MA"), Some(650_000), -3_000_000),
    ];
    let results = rank_rows(rows, 10);
    assert!(!results.is_empty());
    let has_boston = results.iter().any(|r| r.primary_name.contains("Boston"));
    assert!(has_boston, "Autocomplete should find Boston for 'bost'");
    assert_eq!(results[0].primary_name, "Boston");
}

#[test]
fn test_limit_never_exceeded() {
    let mut rows = Vec::new();
    for i in 0..12 {
        rows.push(mk_row(
            &format!("id{}", i),
            &format!("Place {}", i),
            Some("US"),
            None,
            Some(1000 + i),
            -1_000_000,
        ));
    }
    let results = rank_rows(rows, 5);
    assert_eq!(results.len(), 5);
}

#[test]
fn test_dedup_keeps_highest_importance() {
    // the same place appears in both shards; the country shard's row has a
    // better (lower) raw score, so its instance must win
    let head = vec![
        mk_row("dup1", "Springfield", Some("US"), None, None, -1_000_000),
        mk_row("h2", "Springville", Some("US"), None, None, -500_000),
    ];
    let country = vec![mk_row("dup1", "Springfield", Some("US"), None, None, -2_000_000)];
    let head_results = rank_rows(head, 100);
    let country_results = rank_rows(country, 100);
    let query = GeocoderQuery::new("springfield");
    let merged = federate_results(head_results, Some(country_results), &query);
    let dups: Vec<&GeocoderResult> = merged.iter().filter(|r| r.gers_id == "dup1").collect();
    assert_eq!(dups.len(), 1, "Deduplication should leave one instance");
    // flat penalty 2.0 units minus raw -2.0 units: importance 4.0 units
    assert_eq!(dups[0].importance, 4_000_000 * UNIT_FP);
    // no two results share an identifier
    for i in 0..merged.len() {
        for j in (i + 1)..merged.len() {
            assert_ne!(merged[i].gers_id, merged[j].gers_id);
        }
    }
}

#[test]
fn test_repeated_search_is_deterministic() {
    let build = || {
        let head = vec![
            mk_row("a", "Paris", Some("FR"), None, Some(2_100_000), -3_000_000),
            mk_row("b", "Paris", Some("US"), Some("US-TX"), Some(25_000), -3_000_000),
            mk_row("c", "Parisot", Some("FR"), None, None, -1_000_000),
        ];
        rank_rows(head, 100)
    };
    let query = GeocoderQuery::new("paris").with_limit(2);
    let r1 = federate_results(build(), None, &query);
    let r2 = federate_results(build(), None, &query);
    assert_eq!(r1.len(), r2.len());
    for (x, y) in r1.iter().zip(r2.iter()) {
        assert_eq!(x.gers_id, y.gers_id);
        assert_eq!(x.importance, y.importance);
    }
}

#[test]
fn test_location_bias_us_elevates_us_results() {
    // springfields across countries; the non-US ones rank higher unbiased,
    // but by less than the bias bonus, so US rows move up
    let mut rows = Vec::new();
    for i in 0..5 {
        rows.push(mk_row(
            &format!("us{}", i),
            "Springfield",
            Some("US"),
            None,
            None,
            -1_000_000 - i,
        ));
    }
    for i in 0..5 {
        rows.push(mk_row(
            &format!("xx{}", i),
            "Springfield",
            Some("CA"),
            None,
            None,
            -3_000_000 - i,
        ));
    }
    let ranked = rank_rows(rows, 100);
    // unbiased, the non-US rows lead
    assert_eq!(ranked[0].country.as_deref(), Some("CA"));
    let query = GeocoderQuery::new("springfield")
        .with_limit(10)
        .with_bias(LocationBias::Country("US".to_string()));
    let results = federate_results(ranked, None, &query);
    let us_in_top_5 = results
        .iter()
        .take(5)
        .filter(|r| r.country.as_deref() == Some("US"))
        .count();
    assert!(
        us_in_top_5 >= 3,
        "With US bias, at least 3 of top 5 should be US results, got {}",
        us_in_top_5
    );
    // bias reorders without discarding: every non-matching result survives
    assert_eq!(results.len(), 10);
    assert!(results.iter().any(|r| r.country.as_deref() == Some("CA")));
}

#[test]
fn test_country_shard_unreachable_degrades_to_head() {
    let head = vec![
        mk_row("h1", "Berlin", Some("DE"), None, Some(3_600_000), -4_000_000),
        mk_row("h2", "Berlin", Some("US"), Some("US-NH"), Some(10_000), -4_000_000),
    ];
    let head_results = rank_rows(head, 100);
    let query = GeocoderQuery::new("berlin");
    // the optional country shard failed: federation sees None and proceeds
    let results = federate_results(head_results, None, &query);
    assert!(!results.is_empty(), "HEAD results must survive a country-shard failure");
    assert_eq!(results[0].primary_name, "Berlin");
    assert_eq!(results[0].country.as_deref(), Some("DE"));
}

#[test]
fn test_merge_results_multiple_sets() {
    let set_a = rank_rows(
        vec![
            mk_row("m1", "Alpha", Some("US"), None, None, -3_000_000),
            mk_row("m2", "Beta", Some("US"), None, None, -1_000_000),
        ],
        100,
    );
    let set_b = rank_rows(
        vec![
            mk_row("m3", "Gamma", Some("FR"), None, None, -2_000_000),
            mk_row("m1", "Alpha", Some("US"), None, None, -500_000),
        ],
        100,
    );
    let merged = merge_results(vec![set_a, set_b], 2);
    // limit respected, identifiers unique, order by importance descending
    assert_eq!(merged.len(), 2);
    assert_eq!(merged[0].gers_id, "m1");
    assert_eq!(merged[0].importance, 5_000_000 * UNIT_FP);
    assert_eq!(merged[1].gers_id, "m3");
    assert!(merged[0].importance >= merged[1].importance);
}

#[test]
fn test_apply_location_bias_noop_and_bounded() {
    let build = || {
        rank_rows(
            vec![
                mk_row("x1", "Far Ahead", Some("FR"), None, None, -8_000_000),
                mk_row("x2", "Slightly Ahead", Some("FR"), None, None, -3_000_000),
                mk_row("x3", "Local", Some("US"), None, None, -1_000_000),
            ],
            100,
        )
    };
    // no bias: the order stays exactly as ranked
    let mut unbiased = build();
    apply_location_bias(&mut unbiased, &LocationBias::Unbiased);
    let expected = build();
    for (a, b) in unbiased.iter().zip(expected.iter()) {
        assert_eq!(a.gers_id, b.gers_id);
    }
    // US bias: the US result overtakes a 2-unit lead but not a 7-unit lead,
    // and nothing is dropped
    let mut biased = build();
    apply_location_bias(&mut biased, &LocationBias::Country("US".to_string()));
    assert_eq!(biased.len(), 3);
    assert_eq!(biased[0].gers_id, "x1");
    assert_eq!(biased[1].gers_id, "x3");
    assert_eq!(biased[2].gers_id, "x2");
}
