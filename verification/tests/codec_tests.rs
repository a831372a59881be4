use cradio::codec::{encode_favorites, parse_favorites};
use cradio::model::FavoriteEntry;

fn fav(id: &str, name: &str, url: &str) -> FavoriteEntry {
    FavoriteEntry {
        stationuuid: id.to_string(),
        name: name.to_string(),
        url: url.to_string(),
    }
}

fn text_of(entries: &[FavoriteEntry]) -> String {
    encode_favorites(entries).into_iter().collect()
}

#[test]
fn encoding_one_entry_gives_the_canonical_document() {
    let text = text_of(&[fav("u1", "One", "https://one")]);
    assert_eq!(
        text,
        "[{\"stationuuid\":\"u1\",\"name\":\"One\",\"url\":\"https://one\"}]"
    );
}

#[test]
fn encoding_escapes_quotes_backslashes_and_controls() {
    let text = text_of(&[fav("u1", "Say \"hi\" \\ there", "https://one\n")]);
    assert_eq!(
        text,
        "[{\"stationuuid\":\"u1\",\"name\":\"Say \\\"hi\\\" \\\\ there\",\"url\":\"https://one\\u000a\"}]"
    );
}

#[test]
fn special_characters_survive_the_round_trip() {
    let entries = vec![
        fav("u-1", "Quote \" and \\ and tab\t", "https://a?q=1&r=2"),
        fav("u-2", "Ünïcödé — 🎵", "https://b/ü"),
    ];
    let text = text_of(&entries);
    let parsed = parse_favorites(&text).expect("canonical text must parse");
    assert_eq!(parsed.len(), 2);
    assert_eq!(parsed[0].name, "Quote \" and \\ and tab\t");
    assert_eq!(parsed[0].url, "https://a?q=1&r=2");
    assert_eq!(parsed[1].name, "Ünïcödé — 🎵");
    assert_eq!(parsed[1].url, "https://b/ü");
}

#[test]
fn named_escapes_and_hex_escapes_are_decoded() {
    let text = "[{\"stationuuid\":\"u1\",\"name\":\"a\\tb\\nc\\u0041\\/d\",\"url\":\"x\"}]";
    let parsed = parse_favorites(text).expect("escapes must parse");
    assert_eq!(parsed[0].name, "a\tb\ncA/d");
}

#[test]
fn malformed_documents_are_rejected() {
    assert!(parse_favorites("").is_none());
    assert!(parse_favorites("{not-json]").is_none());
    assert!(parse_favorites("[{\"stationuuid\":\"u1\"}]").is_none());
    assert!(parse_favorites("[{\"stationuuid\":\"u1\",\"name\":\"n\",\"url\":\"u\"}").is_none());
    assert!(parse_favorites("[{\"stationuuid\":\"u1\",\"name\":\"n\",\"url\":\"u\"}] x").is_none());
    assert!(parse_favorites("[{\"name\":\"n\",\"stationuuid\":\"u1\",\"url\":\"u\"}]").is_none());
    assert!(parse_favorites("[{\"stationuuid\":\"u1\",\"name\":\"n\",\"url\":\"u\\uD800\"}]").is_none());
    assert!(parse_favorites("[{\"stationuuid\":\"u1\",\"name\":\"n\",\"url\":\"u\\q\"}]").is_none());
}

#[test]
fn empty_array_parses_to_no_entries() {
    let parsed = parse_favorites(" [ ] ").expect("empty array is fine");
    assert!(parsed.is_empty());
}
