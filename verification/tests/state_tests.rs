use cradio::model::Station;
use cradio::state::{App, AppMode, InputField, StationViewMode};

fn station(uuid: &str, name: &str, url: &str) -> Station {
    Station {
        stationuuid: uuid.to_string(),
        name: name.to_string(),
        url: url.to_string(),
        url_resolved: "".to_string(),
        tags: "".to_string(),
        country_code: "".to_string(),
        language: "".to_string(),
        bitrate: 0,
    }
}

#[test]
fn toggle_favorite_adds_and_removes_selected_station() {
    let mut app = App::new();
    app.stations = vec![station("id-1", "One", "https://one")];

    let added = app.toggle_favorite_for_selected();
    assert_eq!(added, Some(true));
    assert!(app.is_favorite("id-1"));
    assert_eq!(app.favorites.len(), 1);
    assert_eq!(app.favorites[0].name, "One");
    assert_eq!(app.favorites[0].url, "https://one");

    let removed = app.toggle_favorite_for_selected();
    assert_eq!(removed, Some(false));
    assert!(!app.is_favorite("id-1"));
    assert!(app.favorites.is_empty());
}

#[test]
fn re_favorite_updates_stored_name_and_url() {
    let mut app = App::new();
    app.stations = vec![station("id-1", "Old", "https://old")];
    let _ = app.toggle_favorite_for_selected();
    let _ = app.toggle_favorite_for_selected();

    app.stations = vec![station("id-1", "New", "https://new")];
    let added = app.toggle_favorite_for_selected();

    assert_eq!(added, Some(true));
    assert_eq!(app.favorites.len(), 1);
    assert_eq!(app.favorites[0].name, "New");
    assert_eq!(app.favorites[0].url, "https://new");
}

#[test]
fn set_view_mode_switches_between_all_and_favorites() {
    let mut app = App::new();
    app.set_view_mode(StationViewMode::Favorites);
    assert_eq!(app.view_mode, StationViewMode::Favorites);

    app.set_view_mode(StationViewMode::AllStations);
    assert_eq!(app.view_mode, StationViewMode::AllStations);
}

#[test]
fn full_page_advances_total_pages_and_short_page_pins_it() {
    let mut app = App::new();
    assert_eq!(app.params.limit, 50);
    let full: Vec<Station> = (0..50)
        .map(|i| station(&format!("id-{}", i), &format!("Station {}", i), "https://s"))
        .collect();
    app.set_stations(full);
    assert_eq!(app.page, 1);
    assert_eq!(app.total_pages, 2);

    let short: Vec<Station> = (0..12)
        .map(|i| station(&format!("id-{}", i), &format!("Station {}", i), "https://s"))
        .collect();
    app.page = 7;
    app.total_pages = 9;
    app.set_stations(short);
    assert_eq!(app.total_pages, 7);
    assert_eq!(app.selected, 0);
    assert_eq!(app.scroll_offset, 0);
    assert!(!app.loading);
    assert!(app.error.is_none());
}

#[test]
fn search_scenario_pages_forward_and_back() {
    let mut app = App::new();
    app.draft_name = "jazz".to_string();
    app.update_params_from_drafts();
    assert_eq!(app.params.name, "jazz");
    assert_eq!(app.params.limit, 50);
    assert_eq!(app.params.offset, 0);

    let fifty: Vec<Station> = (0..50)
        .map(|i| station(&format!("id-{}", i), &format!("Station {}", i), "https://s"))
        .collect();
    app.set_stations(fifty);
    assert_eq!(app.page, 1);
    assert_eq!(app.total_pages, 2);

    app.next_page();
    assert_eq!(app.page, 2);
    assert_eq!(app.params.offset, 50);
    assert!(app.loading);

    let twelve: Vec<Station> = (0..12)
        .map(|i| station(&format!("id-{}", i), &format!("Station {}", i), "https://s"))
        .collect();
    app.set_stations(twelve);
    assert_eq!(app.page, 2);
    assert_eq!(app.total_pages, 2);

    app.prev_page();
    assert_eq!(app.page, 1);
    assert_eq!(app.params.offset, 0);
    assert!(app.loading);
    assert_eq!(app.stations.len(), 12);
}

#[test]
fn paging_is_a_no_op_outside_all_stations_or_at_boundaries() {
    let mut app = App::new();
    app.prev_page();
    assert_eq!(app.page, 1);
    assert!(!app.loading);

    app.total_pages = 3;
    app.set_view_mode(StationViewMode::Favorites);
    app.next_page();
    assert_eq!(app.page, 1);
    assert!(!app.loading);
}

#[test]
fn selection_moves_within_bounds_and_scrolls() {
    let mut app = App::new();
    app.select_next(5);
    assert_eq!(app.selected, 0);

    app.stations = (0..8)
        .map(|i| station(&format!("id-{}", i), &format!("Station {}", i), "https://s"))
        .collect();
    for _ in 0..3 {
        app.select_next(3);
    }
    assert_eq!(app.selected, 3);
    assert_eq!(app.scroll_offset, 1);

    for _ in 0..10 {
        app.select_next(3);
    }
    assert_eq!(app.selected, 7);
    assert_eq!(app.scroll_offset, 5);

    for _ in 0..10 {
        app.select_prev();
    }
    assert_eq!(app.selected, 0);
    assert_eq!(app.scroll_offset, 0);
}

#[test]
fn unfavoriting_in_favorites_view_clamps_the_cursor() {
    let mut app = App::new();
    app.stations = vec![
        station("id-1", "One", "https://one"),
        station("id-2", "Two", "https://two"),
    ];
    let _ = app.toggle_favorite_for_selected();
    app.select_next(5);
    let _ = app.toggle_favorite_for_selected();

    app.set_view_mode(StationViewMode::Favorites);
    app.favorite_stations = vec![
        station("id-1", "One", "https://one"),
        station("id-2", "Two", "https://two"),
    ];
    app.select_next(5);
    assert_eq!(app.selected, 1);

    let removed = app.toggle_favorite_for_selected();
    assert_eq!(removed, Some(false));
    assert_eq!(app.favorite_stations.len(), 1);
    assert_eq!(app.selected, 0);
    assert_eq!(app.scroll_offset, 0);
    assert!(app.is_favorite("id-1"));
    assert!(!app.is_favorite("id-2"));
}

#[test]
fn update_params_trims_and_normalizes_case() {
    let mut app = App::new();
    app.draft_name = "  Smooth Jazz  ".to_string();
    app.draft_tags = " chill ".to_string();
    app.draft_country = " de ".to_string();
    app.draft_language = " GERMAN ".to_string();
    app.page = 4;
    app.params.offset = 150;
    app.update_params_from_drafts();
    assert_eq!(app.params.name, "Smooth Jazz");
    assert_eq!(app.params.tags, "chill");
    assert_eq!(app.params.country, "DE");
    assert_eq!(app.params.language, "german");
    assert_eq!(app.page, 1);
    assert_eq!(app.params.offset, 0);
}

#[test]
fn next_field_cycles_through_the_filter_fields() {
    let mut app = App::new();
    app.next_field();
    assert_eq!(app.mode, AppMode::Normal);

    app.mode = AppMode::Filtering(InputField::Name);
    app.next_field();
    assert_eq!(app.mode, AppMode::Filtering(InputField::Tags));
    app.next_field();
    assert_eq!(app.mode, AppMode::Filtering(InputField::Country));
    app.next_field();
    assert_eq!(app.mode, AppMode::Filtering(InputField::Language));
    app.next_field();
    assert_eq!(app.mode, AppMode::Filtering(InputField::Name));
}

#[test]
fn active_field_edits_the_selected_draft() {
    let mut app = App::new();
    assert!(app.active_field_mut().is_none());

    app.mode = AppMode::Filtering(InputField::Country);
    if let Some(field) = app.active_field_mut() {
        field.push('d');
        field.push('e');
    }
    assert_eq!(app.draft_country, "de");
}

#[test]
fn errors_land_in_the_right_slots() {
    let mut app = App::new();
    app.loading = true;
    app.set_error("boom".to_string());
    assert_eq!(app.error.as_deref(), Some("boom"));
    assert!(!app.loading);

    let mut app2 = App::new();
    app2.favorites_loading = true;
    app2.set_favorites_error("favs down".to_string());
    assert_eq!(app2.favorites_error.as_deref(), Some("favs down"));
    assert_eq!(app2.error.as_deref(), Some("favs down"));
    assert!(!app2.favorites_loading);
}

#[test]
fn selected_station_and_volume_display() {
    let mut app = App::new();
    assert!(app.selected_station().is_none());
    app.stations = vec![station("id-1", "One", "https://one")];
    assert_eq!(app.selected_station().unwrap().stationuuid, "id-1");
    assert_eq!(app.volume_display(), 50);
    assert_eq!(cradio::state::player_volume_scale(50), 128);
    assert_eq!(cradio::state::player_volume_scale(100), 256);
    assert_eq!(cradio::state::player_volume_scale(0), 0);
}
