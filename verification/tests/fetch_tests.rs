use cradio::fetch::{
    collect_outcomes, contains_id, contains_station_id, fallback_stations_from_cached,
    first_station, is_success_status, merge_favorite_stations, FetchOutcome, Limiter,
};
use cradio::model::{FavoriteEntry, FetchError, Station};
use cradio::MAX_CONCURRENT_FETCHES;

fn station(uuid: &str, name: &str, url: &str) -> Station {
    Station {
        stationuuid: uuid.to_string(),
        name: name.to_string(),
        url: url.to_string(),
        url_resolved: "".to_string(),
        tags: "".to_string(),
        country_code: "".to_string(),
        language: "".to_string(),
        bitrate: 0,
    }
}

fn fav(id: &str, name: &str, url: &str) -> FavoriteEntry {
    FavoriteEntry {
        stationuuid: id.to_string(),
        name: name.to_string(),
        url: url.to_string(),
    }
}

#[test]
fn outcomes_partition_into_resolved_and_failed() {
    let outcomes = vec![
        ("u1".to_string(), FetchOutcome::Resolved(station("u1", "One", "https://one"))),
        ("u2".to_string(), FetchOutcome::Absent),
        ("u3".to_string(), FetchOutcome::Failed(FetchError::Transport)),
        ("u4".to_string(), FetchOutcome::Resolved(station("u4", "Four", "https://four"))),
        ("u5".to_string(), FetchOutcome::Failed(FetchError::BadStatus(503))),
        ("u6".to_string(), FetchOutcome::Failed(FetchError::Decode)),
    ];
    let (resolved, failed) = collect_outcomes(outcomes);
    let resolved_ids: Vec<&str> = resolved.iter().map(|s| s.stationuuid.as_str()).collect();
    assert_eq!(resolved_ids, vec!["u1", "u4"]);
    assert_eq!(failed, vec!["u2", "u3", "u5", "u6"]);
    assert_eq!(resolved.len() + failed.len(), 6);
    for id in ["u1", "u2", "u3", "u4", "u5", "u6"] {
        let in_resolved = resolved.iter().any(|s| s.stationuuid == id);
        let in_failed = failed.iter().any(|f| f == id);
        assert!(in_resolved != in_failed);
    }
}

#[test]
fn empty_input_partitions_into_two_empty_lists() {
    let (resolved, failed) = collect_outcomes(Vec::new());
    assert!(resolved.is_empty());
    assert!(failed.is_empty());
}

#[test]
fn limiter_never_admits_more_than_its_capacity() {
    let mut limiter = Limiter::new(MAX_CONCURRENT_FETCHES);
    let mut admitted: usize = 0;
    let mut peak: usize = 0;
    for round in 0..100usize {
        if limiter.try_acquire() {
            admitted += 1;
        }
        assert!(limiter.in_flight <= limiter.capacity);
        if limiter.in_flight > peak {
            peak = limiter.in_flight;
        }
        if round % 3 == 2 {
            limiter.release();
        }
        assert!(limiter.in_flight <= limiter.capacity);
    }
    assert_eq!(peak, 8);
    assert!(admitted < 100);
    for _ in 0..200usize {
        limiter.release();
    }
    assert_eq!(limiter.in_flight, 0);
    assert!(limiter.try_acquire());
    assert_eq!(limiter.in_flight, 1);
}

#[test]
fn fallbacks_stand_in_for_failed_favorites_only() {
    let favorites = vec![
        fav("u1", "One", "https://one"),
        fav("u2", "Two", "https://two"),
        fav("u3", "Three", "https://three"),
    ];
    let failed = vec!["u3".to_string(), "u1".to_string()];
    let fallbacks = fallback_stations_from_cached(&favorites, &failed);
    let ids: Vec<&str> = fallbacks.iter().map(|s| s.stationuuid.as_str()).collect();
    assert_eq!(ids, vec!["u1", "u3"]);
    assert_eq!(fallbacks[0].name, "One");
    assert_eq!(fallbacks[0].url, "https://one");
    assert_eq!(fallbacks[0].url_resolved, "");
    assert_eq!(fallbacks[0].bitrate, 0);
}

#[test]
fn merge_keeps_resolved_adds_fallbacks_and_sorts_case_insensitively() {
    let resolved = vec![
        station("u2", "zulu", "https://z"),
        station("u1", "Alpha", "https://a"),
    ];
    let favorites = vec![
        fav("u1", "Alpha", "https://a"),
        fav("u2", "zulu", "https://z"),
        fav("u3", "Bravo", "https://b"),
        fav("u4", "echo", "https://e"),
    ];
    let failed = vec!["u3".to_string(), "u4".to_string(), "u2".to_string()];
    let merged = merge_favorite_stations(resolved, &favorites, &failed);
    let names: Vec<&str> = merged.iter().map(|s| s.name.as_str()).collect();
    assert_eq!(names, vec!["Alpha", "Bravo", "echo", "zulu"]);
    // u2 was resolved, so its fallback was not added a second time
    assert_eq!(merged.iter().filter(|s| s.stationuuid == "u2").count(), 1);
    // the failed favorites appear as cached stand-ins
    assert!(merged.iter().any(|s| s.stationuuid == "u3" && s.url == "https://b"));
    assert!(merged.iter().any(|s| s.stationuuid == "u4"));
}

#[test]
fn first_station_takes_the_single_record() {
    assert!(first_station(Vec::new()).is_none());
    let one = first_station(vec![station("u1", "One", "https://one")]).unwrap();
    assert_eq!(one.stationuuid, "u1");
}

#[test]
fn success_statuses_are_the_2xx_range() {
    assert!(is_success_status(200));
    assert!(is_success_status(204));
    assert!(is_success_status(299));
    assert!(!is_success_status(199));
    assert!(!is_success_status(300));
    assert!(!is_success_status(404));
    assert!(!is_success_status(503));
}

#[test]
fn membership_helpers_compare_by_text() {
    let ids = vec!["a".to_string(), "b".to_string()];
    assert!(contains_id(&ids, "a"));
    assert!(!contains_id(&ids, "c"));
    let sts = vec![station("u1", "One", "https://one")];
    assert!(contains_station_id(&sts, "u1"));
    assert!(!contains_station_id(&sts, "u2"));
}
