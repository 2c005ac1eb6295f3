use graphql_http::media::{
    content_type_essence, media_range_matches, negotiate, parse_accept, quality_texts,
    MediaRange, Negotiated, APPLICATION_GRAPHQL_RESPONSE_JSON, APPLICATION_JSON, DEFAULT_Q,
};

/// The order key of a quality text read as an `f32`; `None` when it cannot
/// be read or is NaN.
fn key(text: &str) -> Option<i64> {
    let x: f32 = text.parse().ok()?;
    if x.is_nan() {
        return None;
    }
    let bits = x.to_bits();
    Some(if bits >> 31 == 0 {
        bits as i64
    } else {
        -((bits & 0x7fff_ffff) as i64)
    })
}

/// The quality whose order key is `k`.
fn q_of(k: i64) -> f32 {
    if k >= 0 {
        f32::from_bits(k as u32)
    } else {
        -f32::from_bits((-k) as u32)
    }
}

fn keys(header: &str) -> Vec<Option<i64>> {
    quality_texts(header).iter().map(|t| key(t)).collect()
}

fn accept(header: &str) -> Vec<MediaRange> {
    parse_accept(header, &keys(header))
}

fn nego(header: Option<&str>) -> Negotiated {
    let ks = match header {
        Some(h) => keys(h.trim()),
        None => Vec::new(),
    };
    negotiate(header, &ks)
}

#[test]
fn media_types_sec_media_types_officially_recognized_constants() {
    assert_eq!(APPLICATION_JSON, "application/json");
    assert_eq!(
        APPLICATION_GRAPHQL_RESPONSE_JSON,
        "application/graphql-response+json"
    );
}

#[test]
fn accept_sec_accept_missing_header_defaults_to_graphql_response_json() {
    assert_eq!(nego(None), Negotiated::GraphqlResponseJson);
}

#[test]
fn accept_sec_accept_recommended_header_prefers_graphql_response_json() {
    let accept = "application/graphql-response+json, application/json;q=0.9";
    assert_eq!(nego(Some(accept)), Negotiated::GraphqlResponseJson);
}

#[test]
fn body_sec_body_legacy_client_json_only_negotiates_legacy_json() {
    assert_eq!(nego(Some("application/json")), Negotiated::LegacyJson);
}

#[test]
fn body_sec_body_unsupported_accept_header_is_not_acceptable() {
    assert_eq!(nego(Some("text/plain")), Negotiated::NotAcceptable);
}

#[test]
fn body_sec_body_wildcard_accept_matches_graphql_response_json() {
    assert_eq!(nego(Some("*/*")), Negotiated::GraphqlResponseJson);
}

#[test]
fn media_types_sec_media_types_content_type_essence_strips_charset() {
    assert_eq!(
        content_type_essence("application/json; charset=utf-8"),
        "application/json"
    );
}

#[test]
fn media_types_sec_media_types_content_type_without_charset_assumes_utf8() {
    assert_eq!(
        content_type_essence("application/graphql-response+json"),
        APPLICATION_GRAPHQL_RESPONSE_JSON
    );
    assert_eq!(content_type_essence("application/json"), APPLICATION_JSON);
}

#[test]
fn accept_sec_accept_q_value_ordering_prefers_higher_quality_json() {
    let accept = "application/json;q=0.9, application/graphql-response+json;q=0.8";
    assert_eq!(nego(Some(accept)), Negotiated::LegacyJson);
}

#[test]
fn accept_sec_accept_q_value_ordering_ignores_listed_order() {
    let accept = "application/graphql-response+json;q=0.5, application/json;q=0.9";
    assert_eq!(nego(Some(accept)), Negotiated::LegacyJson);
}

#[test]
fn body_sec_body_wildcard_with_lower_q_loses_to_explicit_type() {
    let accept = "application/json;q=1.0, */*;q=0.1";
    assert_eq!(nego(Some(accept)), Negotiated::LegacyJson);
}

#[test]
fn body_sec_body_wildcard_with_higher_q_wins_over_explicit_json() {
    let accept = "application/json;q=0.5, */*;q=0.9";
    assert_eq!(nego(Some(accept)), Negotiated::GraphqlResponseJson);
}

#[test]
fn accept_sec_accept_whitespace_only_header_defaults_to_graphql_response_json() {
    assert_eq!(nego(Some("   ")), Negotiated::GraphqlResponseJson);
}

#[test]
fn body_sec_body_multiple_unsupported_types_yields_not_acceptable() {
    let accept = "text/plain, text/html;q=0.9, image/png;q=0.1";
    assert_eq!(nego(Some(accept)), Negotiated::NotAcceptable);
}

#[test]
fn accept_sec_accept_unparsable_q_value_defaults_to_one() {
    let ranges = accept("application/json;q=bogus");
    assert_eq!(ranges.len(), 1);
    assert_eq!(q_of(ranges[0].q), 1.0);
}

#[test]
fn body_sec_body_zero_q_value_excludes_media_type_from_negotiation() {
    let accept = "application/graphql-response+json;q=0, application/json;q=0.5";
    assert_eq!(nego(Some(accept)), Negotiated::LegacyJson);
}

// ---------------------------------------------------------------------
// Further cases
// ---------------------------------------------------------------------

#[test]
fn quality_keys_order_as_the_qualities() {
    assert_eq!(key("1"), Some(DEFAULT_Q));
    assert_eq!(key("0"), Some(0));
    assert_eq!(key("-0"), Some(0));
    assert!(key("0.0001").unwrap() < key("0.0002").unwrap());
    assert!(key("-0.5").unwrap() < 0);
    assert!(key("-0.5").unwrap() < key("-0.25").unwrap());
    assert!(key("1e30").unwrap() < key("inf").unwrap());
    assert_eq!(key("1e-50"), Some(0));
    assert_eq!(key("nan"), None);
    assert_eq!(key("bogus"), None);
}

#[test]
fn quality_texts_lists_q_values_in_order() {
    assert_eq!(
        quality_texts("a/b;q=0.5;level=1, c/d, ;q=0.7, e/f; q= 2 ;Q=3;q=x"),
        vec!["0.5".to_string(), "2".to_string(), "x".to_string()]
    );
    assert!(quality_texts("").is_empty());
    // "q =" is not the `q=` parameter.
    assert!(quality_texts("a/b; q = 0.75").is_empty());
}

#[test]
fn parse_accept_holds_the_key_of_the_quality() {
    assert_eq!(q_of(accept("a/b;q=0.5")[0].q), 0.5);
    assert_eq!(q_of(accept("a/b;q=1")[0].q), 1.0);
    assert_eq!(q_of(accept("a/b;q=.25")[0].q), 0.25);
    assert_eq!(q_of(accept("a/b;q=-0.5")[0].q), -0.5);
    assert_eq!(q_of(accept("a/b; q= 0.75 ")[0].q), 0.75);
    assert_eq!(q_of(accept("a/b;q=5e-1")[0].q), 0.5);
    assert_eq!(q_of(accept("a/b;q=inf")[0].q), f32::INFINITY);
    assert_eq!(accept("a/b; q = 0.75")[0].q, DEFAULT_Q);
}

#[test]
fn parse_accept_unreadable_quality_keeps_default() {
    for value in ["", ".", "abc", "+", "0x1", "e3", "1e", "nan", "NaN"] {
        let header = format!("a/b;q={}", value);
        assert_eq!(accept(&header)[0].q, DEFAULT_Q, "value {:?}", value);
    }
}

#[test]
fn parse_accept_uses_the_keys_it_is_given() {
    let header = "a/1;q=x, a/2;q=y;q=z, a/3";
    assert_eq!(quality_texts(header).len(), 3);
    let ranges = parse_accept(header, &vec![Some(5), Some(7), None]);
    let got: Vec<(&str, i64)> = ranges.iter().map(|r| (r.essence.as_str(), r.q)).collect();
    assert_eq!(got, vec![("a/3", DEFAULT_Q), ("a/2", 7), ("a/1", 5)]);
}

#[test]
fn negotiate_tiny_quality_reads_as_zero() {
    assert_eq!(nego(Some("application/json;q=1e-50")), Negotiated::NotAcceptable);
    assert_eq!(
        nego(Some("application/json;q=0.0001, application/graphql-response+json;q=0.0002")),
        Negotiated::GraphqlResponseJson
    );
    assert_eq!(
        nego(Some("application/graphql-response+json;q=1e30, application/json;q=inf")),
        Negotiated::LegacyJson
    );
}

#[test]
fn negotiate_with_exponent_qualities() {
    assert_eq!(
        nego(Some("application/graphql-response+json;q=5e-1, application/json;q=0.6")),
        Negotiated::LegacyJson
    );
    assert_eq!(
        nego(Some("application/graphql-response+json;q=0e0, application/json;q=1e-9")),
        Negotiated::LegacyJson
    );
}

#[test]
fn parse_accept_last_readable_quality_wins() {
    assert_eq!(q_of(accept("a/b;q=0.2;q=0.3")[0].q), 0.3);
    assert_eq!(q_of(accept("a/b;q=0.2;q=x")[0].q), 0.2);
    assert_eq!(accept("a/b;Q=0.2")[0].q, DEFAULT_Q);
}

#[test]
fn parse_accept_lowercases_and_skips_empty_entries() {
    let ranges = accept(" , Text/HTML ;level=1, ;q=0.5,,APPLICATION/*");
    let essences: Vec<&str> = ranges.iter().map(|r| r.essence.as_str()).collect();
    assert_eq!(essences, vec!["text/html", "application/*"]);
}

#[test]
fn parse_accept_orders_by_quality_stably() {
    let ranges = accept("a/1;q=0.5, a/2, a/3;q=0.5, a/4;q=0.9, a/5");
    let essences: Vec<&str> = ranges.iter().map(|r| r.essence.as_str()).collect();
    assert_eq!(essences, vec!["a/2", "a/5", "a/4", "a/1", "a/3"]);
    let qs: Vec<f32> = ranges.iter().map(|r| q_of(r.q)).collect();
    assert_eq!(qs, vec![1.0, 1.0, 0.9, 0.5, 0.5]);
}

#[test]
fn parse_accept_empty_header_has_no_ranges() {
    assert!(accept("").is_empty());
    assert!(accept(" , ,").is_empty());
}

#[test]
fn media_range_matches_wildcards_and_exact_types() {
    assert!(media_range_matches("*/*", "application/json"));
    assert!(media_range_matches("*/*", "anything"));
    assert!(media_range_matches("application/*", "application/json"));
    assert!(!media_range_matches("text/*", "application/json"));
    assert!(media_range_matches("application/json", "application/json"));
    assert!(!media_range_matches("application/json", "application/xml"));
    assert!(!media_range_matches("application/*", "application"));
    assert!(media_range_matches("application", "application"));
}

#[test]
fn negotiate_type_wildcard_accepts_both_types() {
    assert_eq!(
        nego(Some("application/*")),
        Negotiated::GraphqlResponseJson
    );
}

#[test]
fn negotiate_equal_quality_goes_to_first_listed() {
    assert_eq!(
        nego(Some("application/json;q=0.5, application/graphql-response+json;q=0.5")),
        Negotiated::LegacyJson
    );
    assert_eq!(
        nego(Some("application/graphql-response+json;q=0.5, application/json;q=0.5")),
        Negotiated::GraphqlResponseJson
    );
    assert_eq!(
        nego(Some("application/json, application/graphql-response+json")),
        Negotiated::LegacyJson
    );
    // A lower-quality earlier entry does not count as the first best one.
    assert_eq!(
        nego(Some(
            "application/graphql-response+json;q=0.1, application/json, application/graphql-response+json"
        )),
        Negotiated::LegacyJson
    );
}

#[test]
fn negotiate_shared_wildcard_entry_prefers_graphql_response_json() {
    assert_eq!(
        nego(Some("application/*;q=0.5, application/json;q=0.5")),
        Negotiated::GraphqlResponseJson
    );
    assert_eq!(
        nego(Some("application/json;q=0.5, */*;q=0.5")),
        Negotiated::LegacyJson
    );
}

#[test]
fn negotiate_only_zero_quality_is_not_acceptable() {
    assert_eq!(
        nego(Some("application/json;q=0, */*;q=0")),
        Negotiated::NotAcceptable
    );
}

#[test]
fn negotiate_negative_quality_is_not_acceptable() {
    assert_eq!(
        nego(Some("application/json;q=-1")),
        Negotiated::NotAcceptable
    );
}

#[test]
fn negotiate_reordered_header_gives_same_outcome() {
    let a = "application/json;q=0.7, application/graphql-response+json;q=0.6, text/html";
    let b = "text/html, application/graphql-response+json;q=0.6, application/json;q=0.7";
    assert_eq!(nego(Some(a)), nego(Some(b)));
    assert_eq!(nego(Some(a)), Negotiated::LegacyJson);
}

#[test]
fn negotiate_media_types_are_case_insensitive() {
    assert_eq!(
        nego(Some("  APPLICATION/JSON  ")),
        Negotiated::LegacyJson
    );
}

#[test]
fn content_type_essence_trims_and_lowercases() {
    assert_eq!(
        content_type_essence("  Application/JSON ;charset=UTF-8"),
        "application/json"
    );
    assert_eq!(content_type_essence(""), "");
    assert_eq!(content_type_essence(";x"), "");
}

#[test]
fn content_type_essence_is_idempotent_and_ignores_parameters() {
    let e = content_type_essence(" Text/Plain ; a=b; c=d");
    assert_eq!(content_type_essence(&e), e);
    assert_eq!(content_type_essence("text/plain"), e);
}
