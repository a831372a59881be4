use cradio::model::SearchParams;
use cradio::query::{build_search_query, search_url, station_url, u32_to_string};
use cradio::strutil::{lowercase, str_eq, str_lex_le, trim_str, truncate, uppercase};

#[test]
fn numbers_format_in_plain_decimal() {
    assert_eq!(u32_to_string(0), "0");
    assert_eq!(u32_to_string(7), "7");
    assert_eq!(u32_to_string(50), "50");
    assert_eq!(u32_to_string(12345), "12345");
    assert_eq!(u32_to_string(u32::MAX), "4294967295");
}

#[test]
fn default_params_send_only_the_fixed_pairs() {
    let params = SearchParams::default();
    let query = build_search_query(&params);
    let pairs: Vec<(&str, &str)> = query.iter().map(|p| (p.0.as_str(), p.1.as_str())).collect();
    assert_eq!(
        pairs,
        vec![
            ("limit", "50"),
            ("offset", "0"),
            ("hidebroken", "true"),
            ("order", "clickcount"),
            ("reverse", "true"),
        ]
    );
}

#[test]
fn non_empty_filters_are_sent_and_case_normalized() {
    let params = SearchParams {
        name: "jazz".to_string(),
        tags: "smooth".to_string(),
        country: "de".to_string(),
        language: "GERMAN".to_string(),
        limit: 25,
        offset: 75,
    };
    let query = build_search_query(&params);
    let pairs: Vec<(&str, &str)> = query.iter().map(|p| (p.0.as_str(), p.1.as_str())).collect();
    assert_eq!(
        pairs,
        vec![
            ("limit", "25"),
            ("offset", "75"),
            ("hidebroken", "true"),
            ("order", "clickcount"),
            ("reverse", "true"),
            ("name", "jazz"),
            ("tagList", "smooth"),
            ("countrycode", "DE"),
            ("language", "german"),
        ]
    );
}

#[test]
fn request_paths_name_the_server_and_endpoint() {
    assert_eq!(
        search_url("all.api.radio-browser.info"),
        "https://all.api.radio-browser.info/json/stations/search"
    );
    assert_eq!(
        station_url("all.api.radio-browser.info", "u-42"),
        "https://all.api.radio-browser.info/json/stations/byuuid/u-42"
    );
}

#[test]
fn truncate_cuts_long_text_with_an_ellipsis() {
    assert_eq!(truncate("short", 10), "short");
    assert_eq!(truncate("exactly", 7), "exactly");
    assert_eq!(truncate("a longer name", 7), "a long…");
    assert_eq!(truncate("abc", 0), "…");
    assert_eq!(truncate("🎵🎵🎵🎵", 3), "🎵🎵…");
}

#[test]
fn string_helpers_fold_trim_and_compare() {
    assert_eq!(lowercase("Mixed CASE ÄÖÜ"), "mixed case äöü");
    assert_eq!(uppercase("gb"), "GB");
    assert_eq!(trim_str("  padded \t"), "padded");
    assert!(str_eq("same", "same"));
    assert!(!str_eq("same", "sama"));
    assert!(str_lex_le("abc", "abd"));
    assert!(str_lex_le("abc", "abc"));
    assert!(str_lex_le("ab", "abc"));
    assert!(!str_lex_le("abd", "abc"));
    assert!(!str_lex_le("b", "ab"));
}
