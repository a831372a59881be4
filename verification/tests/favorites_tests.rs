use cradio::favorites::{load_favorites_from_content, normalize_favorites, save_favorites_content};
use cradio::model::{FavoriteEntry, PersistError};

fn fav(id: &str, name: &str, url: &str) -> FavoriteEntry {
    FavoriteEntry {
        stationuuid: id.to_string(),
        name: name.to_string(),
        url: url.to_string(),
    }
}

#[test]
fn load_missing_file_returns_empty_vec() {
    let favorites = load_favorites_from_content(None).expect("load should succeed");
    assert!(favorites.is_empty());
}

#[test]
fn load_invalid_json_returns_error() {
    let err = load_favorites_from_content(Some("{not-json]")).expect_err("expected parse error");
    assert!(matches!(err, PersistError::Malformed));
}

#[test]
fn save_and_load_roundtrip_object_entries() {
    let favorites = vec![
        fav("uuid-b", "Beta", "https://b"),
        fav("uuid-a", "Alpha", "https://a"),
    ];

    let content = save_favorites_content(&favorites);
    let loaded = load_favorites_from_content(Some(content.as_str())).expect("load should work");

    assert_eq!(loaded.len(), 2);
    assert_eq!(loaded[0].stationuuid, "uuid-a");
    assert_eq!(loaded[1].stationuuid, "uuid-b");
}

#[test]
fn save_and_load_dedups_same_uuid_with_latest_data() {
    let favorites = vec![
        fav("uuid-a", "Old Name", "https://old"),
        fav("uuid-a", "New Name", "https://new"),
        fav("uuid-b", "Beta", "https://b"),
    ];

    let content = save_favorites_content(&favorites);
    let loaded = load_favorites_from_content(Some(content.as_str())).expect("load should work");

    assert_eq!(loaded.len(), 2);
    let updated = loaded
        .iter()
        .find(|entry| entry.stationuuid == "uuid-a")
        .expect("uuid-a must exist");
    assert_eq!(updated.name, "New Name");
    assert_eq!(updated.url, "https://new");
}

#[test]
fn normalize_sorts_case_insensitively_with_identifier_tie_break() {
    let entries = vec![
        fav("u3", "delta", "https://3"),
        fav("u1", "Alpha", "https://1"),
        fav("u2", "BETA", "https://2"),
        fav("u5", "beta", "https://5"),
        fav("u4", "alpha", "https://4"),
    ];
    let normal = normalize_favorites(&entries);
    let ids: Vec<&str> = normal.iter().map(|e| e.stationuuid.as_str()).collect();
    assert_eq!(ids, vec!["u1", "u4", "u2", "u5", "u3"]);
}

#[test]
fn normalize_drops_blank_identifiers() {
    let entries = vec![
        fav("  ", "Blank", "https://blank"),
        fav("", "Empty", "https://empty"),
        fav("u1", "Kept", "https://kept"),
    ];
    let normal = normalize_favorites(&entries);
    assert_eq!(normal.len(), 1);
    assert_eq!(normal[0].stationuuid, "u1");
}

#[test]
fn normalize_keeps_first_position_data_of_last_write() {
    let entries = vec![
        fav("u2", "Bravo", "https://b1"),
        fav("u1", "Alpha", "https://a"),
        fav("u2", "Zulu", "https://b2"),
    ];
    let normal = normalize_favorites(&entries);
    assert_eq!(normal.len(), 2);
    assert_eq!(normal[0].stationuuid, "u1");
    assert_eq!(normal[1].stationuuid, "u2");
    assert_eq!(normal[1].name, "Zulu");
    assert_eq!(normal[1].url, "https://b2");
}

#[test]
fn loading_tolerates_whitespace_between_tokens() {
    let text = " [ {\"stationuuid\" : \"u1\" , \"name\" : \"One\" , \"url\" : \"https://one\"} ] ";
    let loaded = load_favorites_from_content(Some(text)).expect("load should work");
    assert_eq!(loaded.len(), 1);
    assert_eq!(loaded[0].stationuuid, "u1");
    assert_eq!(loaded[0].name, "One");
    assert_eq!(loaded[0].url, "https://one");
}

#[test]
fn loading_an_empty_array_yields_no_favorites() {
    let loaded = load_favorites_from_content(Some("[]")).expect("load should work");
    assert!(loaded.is_empty());
    let saved = save_favorites_content(&[]);
    assert_eq!(saved, "[]");
}
