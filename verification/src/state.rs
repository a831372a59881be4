//! The application state and its reconciler: the single mutable aggregate
//! that the event loop owns, with pure mutation operations applied one at a
//! time in response to completed fetches and keystrokes. No operation here
//! performs I/O; callers trigger fetches themselves after a mutation asks
//! for one by raising a loading flag.

use vstd::prelude::*;

use crate::model::{FavoriteEntry, SearchParams, Station};
use crate::strutil::{lower_of, lowercase, trim_str, trimmed, upper_of, uppercase, str_eq};

verus! {

/// Which draft filter field is being edited.
#[derive(Debug, Clone, PartialEq, Eq, Structural)]
pub enum InputField {
    Name,
    Tags,
    Country,
    Language,
}

/// Key routing mode: plain navigation, or editing one filter field.
#[derive(Debug, Clone, PartialEq, Eq, Structural)]
pub enum AppMode {
    Normal,
    Filtering(InputField),
}

/// Which station list is active for selection and paging.
#[derive(Debug, Clone, PartialEq, Eq, Structural)]
pub enum StationViewMode {
    AllStations,
    Favorites,
}

/// The canonical view of the client: station lists, favorites, pagination,
/// cursors, input mode, per-view loading flags and errors, and the player
/// display. Mutated exclusively through the methods below.
#[derive(Debug)]
pub struct App {
    pub stations: Vec<Station>,
    pub favorite_stations: Vec<Station>,
    pub selected: usize,
    pub scroll_offset: usize,
    pub mode: AppMode,
    pub view_mode: StationViewMode,
    pub params: SearchParams,
    pub page: u32,
    pub total_pages: u32,
    pub loading: bool,
    pub favorites_loading: bool,
    pub error: Option<String>,
    pub favorites_error: Option<String>,
    pub current_station: Option<Station>,
    pub volume: u8,
    pub favorite_ids: Vec<String>,
    pub favorites: Vec<FavoriteEntry>,
    pub draft_name: String,
    pub draft_tags: String,
    pub draft_country: String,
    pub draft_language: String,
}

/// Mathematical image of an [`App`]: the vectors become sequences, every
/// other field is carried as is.
pub struct AppView {
    pub stations: Seq<Station>,
    pub favorite_stations: Seq<Station>,
    pub selected: usize,
    pub scroll_offset: usize,
    pub mode: AppMode,
    pub view_mode: StationViewMode,
    pub params: SearchParams,
    pub page: u32,
    pub total_pages: u32,
    pub loading: bool,
    pub favorites_loading: bool,
    pub error: Option<String>,
    pub favorites_error: Option<String>,
    pub current_station: Option<Station>,
    pub volume: u8,
    pub favorite_ids: Seq<String>,
    pub favorites: Seq<FavoriteEntry>,
    pub draft_name: String,
    pub draft_tags: String,
    pub draft_country: String,
    pub draft_language: String,
}

impl View for App {
    type V = AppView;

    open spec fn view(&self) -> AppView {
        AppView {
            stations: self.stations@,
            favorite_stations: self.favorite_stations@,
            selected: self.selected,
            scroll_offset: self.scroll_offset,
            mode: self.mode,
            view_mode: self.view_mode,
            params: self.params,
            page: self.page,
            total_pages: self.total_pages,
            loading: self.loading,
            favorites_loading: self.favorites_loading,
            error: self.error,
            favorites_error: self.favorites_error,
            current_station: self.current_station,
            volume: self.volume,
            favorite_ids: self.favorite_ids@,
            favorites: self.favorites@,
            draft_name: self.draft_name,
            draft_tags: self.draft_tags,
            draft_country: self.draft_country,
            draft_language: self.draft_language,
        }
    }
}

/// The durable record that favoriting a station writes for it.
pub open spec fn entry_for(st: Station) -> FavoriteEntry {
    FavoriteEntry { stationuuid: st.stationuuid, name: st.name, url: st.url }
}

/// Identifiers are pairwise distinct across the entries.
pub open spec fn unique_ids(favs: Seq<FavoriteEntry>) -> bool {
    forall|i: int, j: int|
        0 <= i < j < favs.len() ==> favs[i].stationuuid@ != favs[j].stationuuid@
}

impl AppView {
    /// The station list that selection and paging currently act on.
    pub open spec fn active_list(self) -> Seq<Station> {
        match self.view_mode {
            StationViewMode::AllStations => self.stations,
            StationViewMode::Favorites => self.favorite_stations,
        }
    }

    /// `favorite_ids` is exactly the identifier projection of `favorites`.
    pub open spec fn ids_match(self) -> bool {
        &&& self.favorite_ids.len() == self.favorites.len()
        &&& forall|i: int|
            0 <= i < self.favorites.len() ==> self.favorite_ids[i]@
                == self.favorites[i].stationuuid@
    }

    /// The cursor points into the active list (or sits at 0 of an empty
    /// list), and the scroll window never starts past it.
    pub open spec fn cursor_ok(self) -> bool {
        &&& (if self.active_list().len() == 0 {
            self.selected == 0
        } else {
            self.selected < self.active_list().len()
        })
        &&& self.scroll_offset <= self.selected
    }

    /// Well-formedness: every invariant the reconciler maintains.
    pub open spec fn wf(self) -> bool {
        &&& self.ids_match()
        &&& unique_ids(self.favorites)
        &&& self.cursor_ok()
    }

    /// Whether some favorite entry carries this identifier.
    pub open spec fn is_favorite_id(self, id: Seq<char>) -> bool {
        exists|i: int| 0 <= i < self.favorites.len() && self.favorites[i].stationuuid@ == id
    }
}

impl App {
    /// A fresh client: empty lists, default search parameters, page 1 of 1,
    /// normal mode over all stations, volume at 50.
    pub fn new() -> (r: Self)
        ensures
            r@.stations == Seq::<Station>::empty(),
            r@.favorite_stations == Seq::<Station>::empty(),
            r@.selected == 0,
            r@.scroll_offset == 0,
            r@.mode == AppMode::Normal,
            r@.view_mode == StationViewMode::AllStations,
            r@.params.name@ == Seq::<char>::empty(),
            r@.params.tags@ == Seq::<char>::empty(),
            r@.params.country@ == Seq::<char>::empty(),
            r@.params.language@ == Seq::<char>::empty(),
            r@.params.limit == 50,
            r@.params.offset == 0,
            r@.page == 1,
            r@.total_pages == 1,
            !r@.loading,
            !r@.favorites_loading,
            r@.error is None,
            r@.favorites_error is None,
            r@.current_station is None,
            r@.volume == 50,
            r@.favorite_ids == Seq::<String>::empty(),
            r@.favorites == Seq::<FavoriteEntry>::empty(),
            r@.draft_name@ == Seq::<char>::empty(),
            r@.draft_tags@ == Seq::<char>::empty(),
            r@.draft_country@ == Seq::<char>::empty(),
            r@.draft_language@ == Seq::<char>::empty(),
            r@.wf(),
    {
        App {
            stations: Vec::new(),
            favorite_stations: Vec::new(),
            selected: 0,
            scroll_offset: 0,
            mode: AppMode::Normal,
            view_mode: StationViewMode::AllStations,
            params: SearchParams::default(),
            page: 1,
            total_pages: 1,
            loading: false,
            favorites_loading: false,
            error: None,
            favorites_error: None,
            current_station: None,
            volume: 50,
            favorite_ids: Vec::new(),
            favorites: Vec::new(),
            draft_name: String::new(),
            draft_tags: String::new(),
            draft_country: String::new(),
            draft_language: String::new(),
        }
    }

    /// Replaces the favorites store and rebuilds the identifier mirror
    /// from it. Everything else is untouched.
    pub fn set_favorites(&mut self, favorites: Vec<FavoriteEntry>)
        requires
            old(self)@.wf(),
            unique_ids(favorites@),
        ensures
            final(self)@ == (AppView {
                favorites: favorites@,
                favorite_ids: favorites@.map_values(|f: FavoriteEntry| f.stationuuid),
                ..old(self)@
            }),
            final(self)@.wf(),
    {
        let mut ids: Vec<String> = Vec::new();
        let mut i: usize = 0;
        while i < favorites.len()
            invariant
                i <= favorites@.len(),
                ids@ =~= favorites@.subrange(0, i as int).map_values(
                    |f: FavoriteEntry| f.stationuuid,
                ),
            decreases favorites@.len() - i,
        {
            ids.push(favorites[i].stationuuid.clone());
            i = i + 1;
            assert(ids@ =~= favorites@.subrange(0, i as int).map_values(
                |f: FavoriteEntry| f.stationuuid,
            ));
        }
        assert(favorites@.subrange(0, favorites@.len() as int) =~= favorites@);
        self.favorite_ids = ids;
        self.favorites = favorites;
    }

    /// Commits the draft filter text: trims every field, upper-cases the
    /// country code, lower-cases the language code, and restarts paging at
    /// page 1, offset 0.
    pub fn update_params_from_drafts(&mut self)
        requires
            old(self)@.wf(),
        ensures
            final(self)@ == (AppView { params: final(self)@.params, page: 1u32, ..old(self)@ }),
            final(self)@.params.name@ == trimmed(old(self)@.draft_name@),
            final(self)@.params.tags@ == trimmed(old(self)@.draft_tags@),
            final(self)@.params.country@ == upper_of(trimmed(old(self)@.draft_country@)),
            final(self)@.params.language@ == lower_of(trimmed(old(self)@.draft_language@)),
            final(self)@.params.limit == old(self)@.params.limit,
            final(self)@.params.offset == 0,
            final(self)@.wf(),
    {
        self.params.name = trim_str(&self.draft_name).to_owned();
        self.params.tags = trim_str(&self.draft_tags).to_owned();
        self.params.country = uppercase(trim_str(&self.draft_country));
        self.params.language = lowercase(trim_str(&self.draft_language));
        self.page = 1;
        self.params.offset = 0;
    }

    /// Replaces the search result page, resets the cursor, clears the
    /// general loading flag and error, and recomputes `total_pages`: a page
    /// holding exactly `limit` stations means there may be more (`page + 1`),
    /// any shorter page pins the estimate down to the current page.
    pub fn set_stations(&mut self, stations: Vec<Station>)
        requires
            old(self)@.wf(),
            stations@.len() == old(self)@.params.limit ==> old(self)@.page < u32::MAX,
        ensures
            final(self)@ == (AppView {
                stations: stations@,
                selected: 0usize,
                scroll_offset: 0usize,
                loading: false,
                error: None::<String>,
                total_pages: if stations@.len() == old(self)@.params.limit {
                    (old(self)@.page + 1) as u32
                } else {
                    old(self)@.page
                },
                ..old(self)@
            }),
            final(self)@.wf(),
    {
        let full = stations.len() as u64 == self.params.limit as u64;
        self.stations = stations;
        self.selected = 0;
        self.scroll_offset = 0;
        self.loading = false;
        self.error = None;
        if full {
            self.total_pages = self.page + 1;
        } else {
            self.total_pages = self.page;
        }
    }

    /// Replaces the resolved favorites view, resets the cursor, and clears
    /// the favorites loading flag and both error slots.
    pub fn set_favorite_stations(&mut self, stations: Vec<Station>)
        requires
            old(self)@.wf(),
        ensures
            final(self)@ == (AppView {
                favorite_stations: stations@,
                favorites_loading: false,
                favorites_error: None::<String>,
                error: None::<String>,
                selected: 0usize,
                scroll_offset: 0usize,
                ..old(self)@
            }),
            final(self)@.wf(),
    {
        self.favorite_stations = stations;
        self.favorites_loading = false;
        self.favorites_error = None;
        self.error = None;
        self.selected = 0;
        self.scroll_offset = 0;
    }

    /// Records a user-visible message for the general view and drops both
    /// loading flags.
    pub fn set_error(&mut self, err: String)
        requires
            old(self)@.wf(),
        ensures
            final(self)@ == (AppView {
                error: Some(err),
                loading: false,
                favorites_loading: false,
                ..old(self)@
            }),
            final(self)@.wf(),
    {
        self.error = Some(err);
        self.loading = false;
        self.favorites_loading = false;
    }

    /// Records a favorites-specific message, mirrored into the general
    /// error slot so one overlay renderer suffices.
    pub fn set_favorites_error(&mut self, err: String)
        requires
            old(self)@.wf(),
        ensures
            final(self)@ == (AppView {
                favorites_error: Some(err),
                error: Some(err),
                favorites_loading: false,
                ..old(self)@
            }),
            final(self)@.wf(),
    {
        self.favorites_error = Some(err.clone());
        self.error = Some(err);
        self.favorites_loading = false;
    }

    /// The active view's station list.
    pub fn current_station_list(&self) -> (r: &[Station])
        ensures
            r@ == self@.active_list(),
    {
        match self.view_mode {
            StationViewMode::AllStations => self.stations.as_slice(),
            StationViewMode::Favorites => self.favorite_stations.as_slice(),
        }
    }

    /// The station under the cursor, if the active list has one there.
    pub fn selected_station(&self) -> (r: Option<&Station>)
        ensures
            match r {
                Some(st) => self.selected < self@.active_list().len() && *st
                    == self@.active_list()[self.selected as int],
                None => self.selected >= self@.active_list().len(),
            },
    {
        let list = self.current_station_list();
        if self.selected < list.len() {
            Some(&list[self.selected])
        } else {
            None
        }
    }

    /// Whether the identifier is currently favorited.
    pub fn is_favorite(&self, stationuuid: &str) -> (r: bool)
        requires
            self@.wf(),
        ensures
            r == self@.is_favorite_id(stationuuid@),
    {
        let mut i: usize = 0;
        while i < self.favorite_ids.len()
            invariant
                self@.wf(),
                i <= self@.favorite_ids.len(),
                forall|j: int| 0 <= j < i ==> self@.favorite_ids[j]@ != stationuuid@,
            decreases self@.favorite_ids.len() - i,
        {
            if str_eq(self.favorite_ids[i].as_str(), stationuuid) {
                assert(self@.favorites[i as int].stationuuid@ == stationuuid@);
                return true;
            }
            i = i + 1;
        }
        assert forall|k: int|
            0 <= k < self@.favorites.len() implies self@.favorites[k].stationuuid@
            != stationuuid@ by {
            assert(self@.favorite_ids[k]@ == self@.favorites[k].stationuuid@);
        }
        false
    }

    /// Toggles the favorite status of the selected station, the single
    /// synchronization point between live directory data and the durable
    /// favorites store. Returns whether the station is now favorited, or
    /// nothing if no station is selected. Repeated toggling of one
    /// identifier never creates duplicate entries.
    pub fn toggle_favorite_for_selected(&mut self) -> (r: Option<bool>)
        requires
            old(self)@.wf(),
        ensures
            final(self)@ == old(self)@.toggle_spec(),
            r == old(self)@.toggle_result_spec(),
            final(self)@.wf(),
    {
        let count = match self.view_mode {
            StationViewMode::AllStations => self.stations.len(),
            StationViewMode::Favorites => self.favorite_stations.len(),
        };
        if self.selected >= count {
            assert(self@.active_list().len() == 0);
            return None;
        }
        let (id, name, url) = match self.view_mode {
            StationViewMode::AllStations => {
                let st = &self.stations[self.selected];
                (st.stationuuid.clone(), st.name.clone(), st.url.clone())
            },
            StationViewMode::Favorites => {
                let st = &self.favorite_stations[self.selected];
                (st.stationuuid.clone(), st.name.clone(), st.url.clone())
            },
        };
        let ghost stg: Station = old(self)@.active_list()[old(self)@.selected as int];
        assert(id == stg.stationuuid && name == stg.name && url == stg.url);
        let was_favorite = self.is_favorite(id.as_str());
        let now_favorite = if was_favorite {
            let mut new_ids: Vec<String> = Vec::new();
            let mut i: usize = 0;
            while i < self.favorite_ids.len()
                invariant
                    *self == *old(self),
                    i <= self.favorite_ids@.len(),
                    id@ == stg.stationuuid@,
                    new_ids@ == remove_ids(self.favorite_ids@.subrange(0, i as int), id@),
                decreases self.favorite_ids@.len() - i,
            {
                let keep = !str_eq(self.favorite_ids[i].as_str(), id.as_str());
                if keep {
                    new_ids.push(self.favorite_ids[i].clone());
                }
                i = i + 1;
                proof {
                    let pre = self.favorite_ids@.subrange(0, i as int);
                    assert(pre.drop_last() =~= self.favorite_ids@.subrange(0, i as int - 1));
                    assert(pre.last() == self.favorite_ids@[i as int - 1]);
                    assert(new_ids@ == remove_ids(pre, id@));
                }
            }
            assert(self.favorite_ids@.subrange(0, self.favorite_ids@.len() as int)
                =~= self.favorite_ids@);
            let mut new_favs: Vec<FavoriteEntry> = Vec::new();
            let mut j: usize = 0;
            while j < self.favorites.len()
                invariant
                    *self == *old(self),
                    j <= self.favorites@.len(),
                    id@ == stg.stationuuid@,
                    new_favs@ == remove_fav(self.favorites@.subrange(0, j as int), id@),
                decreases self.favorites@.len() - j,
            {
                let keep = !str_eq(self.favorites[j].stationuuid.as_str(), id.as_str());
                if keep {
                    new_favs.push(self.favorites[j].clone());
                }
                j = j + 1;
                proof {
                    let pre = self.favorites@.subrange(0, j as int);
                    assert(pre.drop_last() =~= self.favorites@.subrange(0, j as int - 1));
                    assert(pre.last() == self.favorites@[j as int - 1]);
                    assert(new_favs@ == remove_fav(pre, id@));
                }
            }
            assert(self.favorites@.subrange(0, self.favorites@.len() as int) =~= self.favorites@);
            self.favorite_ids = new_ids;
            self.favorites = new_favs;
            proof {
                lemma_remove_parallel(old(self)@.favorites, old(self)@.favorite_ids, id@);
                lemma_remove_fav_unique(old(self)@.favorites, id@);
            }
            false
        } else {
            self.favorite_ids.push(id.clone());
            self.favorites.push(FavoriteEntry {
                stationuuid: id.clone(),
                name,
                url,
            });
            true
        };
        if matches!(self.view_mode, StationViewMode::Favorites) && !now_favorite {
            let mut new_fs: Vec<Station> = Vec::new();
            let mut k: usize = 0;
            while k < self.favorite_stations.len()
                invariant
                    self.favorite_stations == old(self).favorite_stations,
                    k <= self.favorite_stations@.len(),
                    id@ == stg.stationuuid@,
                    new_fs@ == remove_stations(self.favorite_stations@.subrange(0, k as int), id@),
                decreases self.favorite_stations@.len() - k,
            {
                let keep = !str_eq(self.favorite_stations[k].stationuuid.as_str(), id.as_str());
                if keep {
                    new_fs.push(self.favorite_stations[k].clone());
                }
                k = k + 1;
                proof {
                    let pre = self.favorite_stations@.subrange(0, k as int);
                    assert(pre.drop_last() =~= self.favorite_stations@.subrange(0, k as int - 1));
                    assert(pre.last() == self.favorite_stations@[k as int - 1]);
                    assert(new_fs@ == remove_stations(pre, id@));
                }
            }
            assert(self.favorite_stations@.subrange(0, self.favorite_stations@.len() as int)
                =~= self.favorite_stations@);
            self.favorite_stations = new_fs;
            if self.selected >= self.favorite_stations.len() {
                self.selected = if self.favorite_stations.len() == 0 {
                    0
                } else {
                    self.favorite_stations.len() - 1
                };
            }
            if self.scroll_offset > self.selected {
                self.scroll_offset = self.selected;
            }
        }
        assert(self@ == old(self)@.toggle_spec());
        Some(now_favorite)
    }

    /// Switches the active list and puts the cursor back at the top.
    pub fn set_view_mode(&mut self, mode: StationViewMode)
        requires
            old(self)@.wf(),
        ensures
            final(self)@ == (AppView {
                view_mode: mode,
                selected: 0usize,
                scroll_offset: 0usize,
                ..old(self)@
            }),
            final(self)@.wf(),
    {
        self.view_mode = mode;
        self.selected = 0;
        self.scroll_offset = 0;
    }

    /// Moves the cursor down one station; the scroll window follows only
    /// when the cursor would leave its bottom edge.
    pub fn select_next(&mut self, visible_height: usize)
        requires
            old(self)@.wf(),
        ensures
            final(self)@ == old(self)@.select_next_spec(visible_height),
            final(self)@.wf(),
    {
        let station_count = match self.view_mode {
            StationViewMode::AllStations => self.stations.len(),
            StationViewMode::Favorites => self.favorite_stations.len(),
        };
        if station_count == 0 {
            return;
        }
        if self.selected + 1 < station_count {
            self.selected = self.selected + 1;
            if self.selected - self.scroll_offset >= visible_height {
                self.scroll_offset = self.scroll_offset + 1;
            }
        }
    }

    /// Moves the cursor up one station; the scroll window never lags behind
    /// an upward move past its top edge.
    pub fn select_prev(&mut self)
        requires
            old(self)@.wf(),
        ensures
            final(self)@ == old(self)@.select_prev_spec(),
            final(self)@.wf(),
    {
        let station_count = match self.view_mode {
            StationViewMode::AllStations => self.stations.len(),
            StationViewMode::Favorites => self.favorite_stations.len(),
        };
        if station_count == 0 {
            return;
        }
        if self.selected > 0 {
            self.selected = self.selected - 1;
            if self.selected < self.scroll_offset {
                self.scroll_offset = self.selected;
            }
        }
    }

    /// Advances one page within the all-stations view, deriving the offset
    /// and asking the caller (via the loading flag) to fetch; a no-op in the
    /// favorites view or on the last known page.
    pub fn next_page(&mut self)
        requires
            old(self)@.wf(),
            old(self)@.view_mode == StationViewMode::AllStations && old(self)@.page < old(
                self,
            )@.total_pages ==> old(self)@.page * old(self)@.params.limit <= u32::MAX,
        ensures
            final(self)@ == old(self)@.next_page_spec(),
            final(self)@.wf(),
    {
        if !matches!(self.view_mode, StationViewMode::AllStations) {
            return;
        }
        if self.page < self.total_pages {
            self.page = self.page + 1;
            self.params.offset = (self.page - 1) * self.params.limit;
            self.loading = true;
        }
    }

    /// Steps one page back within the all-stations view; a no-op in the
    /// favorites view or on page 1.
    pub fn prev_page(&mut self)
        requires
            old(self)@.wf(),
            old(self)@.view_mode == StationViewMode::AllStations && old(self)@.page > 1 ==> (old(
                self,
            )@.page - 2) * old(self)@.params.limit <= u32::MAX,
        ensures
            final(self)@ == old(self)@.prev_page_spec(),
            final(self)@.wf(),
    {
        if !matches!(self.view_mode, StationViewMode::AllStations) {
            return;
        }
        if self.page > 1 {
            self.page = self.page - 1;
            self.params.offset = (self.page - 1) * self.params.limit;
            self.loading = true;
        }
    }

    /// Cycles the edited filter field: name, tags, country, language, and
    /// around again; does nothing in normal mode.
    pub fn next_field(&mut self)
        requires
            old(self)@.wf(),
        ensures
            final(self)@ == (AppView { mode: next_field_mode(old(self)@.mode), ..old(self)@ }),
            final(self)@.wf(),
    {
        self.mode = match &self.mode {
            AppMode::Filtering(InputField::Name) => AppMode::Filtering(InputField::Tags),
            AppMode::Filtering(InputField::Tags) => AppMode::Filtering(InputField::Country),
            AppMode::Filtering(InputField::Country) => AppMode::Filtering(InputField::Language),
            AppMode::Filtering(InputField::Language) => AppMode::Filtering(InputField::Name),
            AppMode::Normal => AppMode::Normal,
        };
    }

    /// A mutable handle on the draft text of the field being edited, or
    /// nothing in normal mode.
    pub fn active_field_mut(&mut self) -> (r: Option<&mut String>)
        ensures
            old(self).mode == AppMode::Normal ==> r is None && *final(self) == *old(self),
            old(self).mode == AppMode::Filtering(InputField::Name) ==> (r matches Some(f)
                && *f == old(self).draft_name && final(self)@ == (AppView {
                draft_name: *final(f),
                ..old(self)@
            })),
            old(self).mode == AppMode::Filtering(InputField::Tags) ==> (r matches Some(f)
                && *f == old(self).draft_tags && final(self)@ == (AppView {
                draft_tags: *final(f),
                ..old(self)@
            })),
            old(self).mode == AppMode::Filtering(InputField::Country) ==> (r matches Some(f)
                && *f == old(self).draft_country && final(self)@ == (AppView {
                draft_country: *final(f),
                ..old(self)@
            })),
            old(self).mode == AppMode::Filtering(InputField::Language) ==> (r matches Some(f)
                && *f == old(self).draft_language && final(self)@ == (AppView {
                draft_language: *final(f),
                ..old(self)@
            })),
    {
        match &self.mode {
            AppMode::Filtering(InputField::Name) => Some(&mut self.draft_name),
            AppMode::Filtering(InputField::Tags) => Some(&mut self.draft_tags),
            AppMode::Filtering(InputField::Country) => Some(&mut self.draft_country),
            AppMode::Filtering(InputField::Language) => Some(&mut self.draft_language),
            AppMode::Normal => None,
        }
    }

    /// The displayed volume percentage.
    pub fn volume_display(&self) -> (r: u8)
        ensures
            r == self.volume,
    {
        self.volume
    }
}

/// The favorite entries that do not carry `id`, in order.
pub open spec fn remove_fav(favs: Seq<FavoriteEntry>, id: Seq<char>) -> Seq<FavoriteEntry>
    decreases favs.len(),
{
    if favs.len() == 0 {
        Seq::empty()
    } else {
        let rest = remove_fav(favs.drop_last(), id);
        if favs.last().stationuuid@ == id {
            rest
        } else {
            rest.push(favs.last())
        }
    }
}

/// The identifiers other than `id`, in order.
pub open spec fn remove_ids(ids: Seq<String>, id: Seq<char>) -> Seq<String>
    decreases ids.len(),
{
    if ids.len() == 0 {
        Seq::empty()
    } else {
        let rest = remove_ids(ids.drop_last(), id);
        if ids.last()@ == id {
            rest
        } else {
            rest.push(ids.last())
        }
    }
}

/// The stations whose identifier is not `id`, in order.
pub open spec fn remove_stations(sts: Seq<Station>, id: Seq<char>) -> Seq<Station>
    decreases sts.len(),
{
    if sts.len() == 0 {
        Seq::empty()
    } else {
        let rest = remove_stations(sts.drop_last(), id);
        if sts.last().stationuuid@ == id {
            rest
        } else {
            rest.push(sts.last())
        }
    }
}

/// The favorite entries that carry `id`, in order.
pub open spec fn entries_with(favs: Seq<FavoriteEntry>, id: Seq<char>) -> Seq<FavoriteEntry>
    decreases favs.len(),
{
    if favs.len() == 0 {
        Seq::empty()
    } else {
        let rest = entries_with(favs.drop_last(), id);
        if favs.last().stationuuid@ == id {
            rest.push(favs.last())
        } else {
            rest
        }
    }
}

/// Whether some entry of `favs` carries `id`.
pub open spec fn has_id(favs: Seq<FavoriteEntry>, id: Seq<char>) -> bool {
    exists|i: int| 0 <= i < favs.len() && favs[i].stationuuid@ == id
}

/// The external player's volume argument for a displayed percentage: its
/// 0–256 scale, by integer arithmetic.
pub fn player_volume_scale(volume: u8) -> (r: u32)
    ensures
        r == volume as u32 * 256 / 100,
{
    (volume as u32 * 256) / 100
}

/// Successor of each filter field in the editing cycle.
pub open spec fn next_field_mode(mode: AppMode) -> AppMode {
    match mode {
        AppMode::Filtering(InputField::Name) => AppMode::Filtering(InputField::Tags),
        AppMode::Filtering(InputField::Tags) => AppMode::Filtering(InputField::Country),
        AppMode::Filtering(InputField::Country) => AppMode::Filtering(InputField::Language),
        AppMode::Filtering(InputField::Language) => AppMode::Filtering(InputField::Name),
        AppMode::Normal => AppMode::Normal,
    }
}

impl AppView {
    /// Cursor move one station down: the selection advances while there is
    /// a station below it, and the scroll offset follows when the selection
    /// reaches past the bottom of the visible window.
    pub open spec fn select_next_spec(self, visible_height: usize) -> AppView {
        if self.active_list().len() == 0 || self.selected + 1 >= self.active_list().len() {
            self
        } else {
            let sel = (self.selected + 1) as usize;
            let sc = if sel - self.scroll_offset >= visible_height {
                (self.scroll_offset + 1) as usize
            } else {
                self.scroll_offset
            };
            AppView { selected: sel, scroll_offset: sc, ..self }
        }
    }

    /// Cursor move one station up: the selection retreats while it is not
    /// at the top, and the scroll offset is pulled up to it when it would
    /// pass the top of the visible window.
    pub open spec fn select_prev_spec(self) -> AppView {
        if self.active_list().len() == 0 || self.selected == 0 {
            self
        } else {
            let sel = (self.selected - 1) as usize;
            let sc = if sel < self.scroll_offset {
                sel
            } else {
                self.scroll_offset
            };
            AppView { selected: sel, scroll_offset: sc, ..self }
        }
    }

    /// Favorite toggle on the selected station. With nothing selected the
    /// state is unchanged. An already-favorited identifier is removed from
    /// the store and its mirror (and, in the favorites view, from the
    /// resolved list, with the cursor clamped back into range); a new
    /// identifier is appended with the station's current name and URL.
    pub open spec fn toggle_spec(self) -> AppView {
        if self.active_list().len() == 0 {
            self
        } else {
            let st = self.active_list()[self.selected as int];
            let id = st.stationuuid@;
            if self.is_favorite_id(id) {
                let v1 = AppView {
                    favorites: remove_fav(self.favorites, id),
                    favorite_ids: remove_ids(self.favorite_ids, id),
                    ..self
                };
                if self.view_mode == StationViewMode::Favorites {
                    let fs = remove_stations(self.favorite_stations, id);
                    let sel = if self.selected < fs.len() {
                        self.selected
                    } else if fs.len() == 0 {
                        0usize
                    } else {
                        (fs.len() - 1) as usize
                    };
                    let sc = if self.scroll_offset > sel {
                        sel
                    } else {
                        self.scroll_offset
                    };
                    AppView { favorite_stations: fs, selected: sel, scroll_offset: sc, ..v1 }
                } else {
                    v1
                }
            } else {
                AppView {
                    favorites: self.favorites.push(entry_for(st)),
                    favorite_ids: self.favorite_ids.push(st.stationuuid),
                    ..self
                }
            }
        }
    }

    /// What the toggle reports: nothing selected, or whether the station
    /// is a favorite afterwards.
    pub open spec fn toggle_result_spec(self) -> Option<bool> {
        if self.active_list().len() == 0 {
            None
        } else {
            Some(!self.is_favorite_id(self.active_list()[self.selected as int].stationuuid@))
        }
    }

    /// Forward paging: within the all-stations view and below the page
    /// estimate, the page advances, the offset is derived as
    /// `(page - 1) * limit`, and a fetch is requested via the loading flag.
    pub open spec fn next_page_spec(self) -> AppView {
        if self.view_mode != StationViewMode::AllStations || self.page >= self.total_pages {
            self
        } else {
            let page = (self.page + 1) as u32;
            AppView {
                page,
                params: SearchParams {
                    offset: ((page - 1) * self.params.limit) as u32,
                    ..self.params
                },
                loading: true,
                ..self
            }
        }
    }

    /// Backward paging: within the all-stations view and past page 1, the
    /// page retreats, the offset is derived, and a fetch is requested.
    pub open spec fn prev_page_spec(self) -> AppView {
        if self.view_mode != StationViewMode::AllStations || self.page <= 1 {
            self
        } else {
            let page = (self.page - 1) as u32;
            AppView {
                page,
                params: SearchParams {
                    offset: ((page - 1) * self.params.limit) as u32,
                    ..self.params
                },
                loading: true,
                ..self
            }
        }
    }
}

/// Removal keeps only entries with other identifiers, and keeps them from
/// the original sequence.
proof fn lemma_remove_fav_elems(favs: Seq<FavoriteEntry>, id: Seq<char>)
    ensures
        remove_fav(favs, id).len() <= favs.len(),
        forall|i: int|
            0 <= i < remove_fav(favs, id).len() ==> #[trigger] remove_fav(favs, id)[i].stationuuid@
                != id,
        forall|i: int|
            0 <= i < remove_fav(favs, id).len() ==> favs.contains(
                #[trigger] remove_fav(favs, id)[i],
            ),
    decreases favs.len(),
{
    if favs.len() > 0 {
        lemma_remove_fav_elems(favs.drop_last(), id);
        assert forall|i: int|
            0 <= i < remove_fav(favs.drop_last(), id).len() implies favs.contains(
            remove_fav(favs.drop_last(), id)[i],
        ) by {
            let e = remove_fav(favs.drop_last(), id)[i];
            let j = choose|j: int| 0 <= j < favs.drop_last().len() && favs.drop_last()[j] == e;
            assert(favs[j] == e);
        }
        if favs.last().stationuuid@ != id {
            assert(favs.contains(favs.last()));
        }
    }
}

/// Removal from a store with pairwise distinct identifiers leaves the
/// identifiers pairwise distinct.
proof fn lemma_remove_fav_unique(favs: Seq<FavoriteEntry>, id: Seq<char>)
    requires
        unique_ids(favs),
    ensures
        unique_ids(remove_fav(favs, id)),
    decreases favs.len(),
{
    if favs.len() > 0 {
        assert(unique_ids(favs.drop_last()));
        lemma_remove_fav_unique(favs.drop_last(), id);
        lemma_remove_fav_elems(favs.drop_last(), id);
        if favs.last().stationuuid@ != id {
            let rest = remove_fav(favs.drop_last(), id);
            assert forall|i: int, j: int|
                0 <= i < j < rest.push(favs.last()).len() implies rest.push(favs.last())[
                i
            ].stationuuid@ != rest.push(favs.last())[j].stationuuid@ by {
                if j < rest.len() {
                    assert(rest[i].stationuuid@ != rest[j].stationuuid@);
                } else {
                    let e = rest[i];
                    let k = choose|k: int|
                        0 <= k < favs.drop_last().len() && favs.drop_last()[k] == e;
                    assert(favs[k] == e);
                    assert(favs[k].stationuuid@ != favs.last().stationuuid@);
                }
            }
        }
    }
}

/// Removing an identifier that no entry carries changes nothing.
proof fn lemma_remove_fav_absent(favs: Seq<FavoriteEntry>, id: Seq<char>)
    requires
        !has_id(favs, id),
    ensures
        remove_fav(favs, id) == favs,
    decreases favs.len(),
{
    if favs.len() > 0 {
        assert(favs.last().stationuuid@ != id);
        assert(!has_id(favs.drop_last(), id)) by {
            if has_id(favs.drop_last(), id) {
                let i = choose|i: int|
                    0 <= i < favs.drop_last().len() && favs.drop_last()[i].stationuuid@ == id;
                assert(favs[i].stationuuid@ == id);
            }
        }
        lemma_remove_fav_absent(favs.drop_last(), id);
        assert(remove_fav(favs, id) =~= favs);
    }
}

/// Removing an identifier that no element holds changes nothing.
proof fn lemma_remove_ids_absent(ids: Seq<String>, id: Seq<char>)
    requires
        forall|i: int| 0 <= i < ids.len() ==> ids[i]@ != id,
    ensures
        remove_ids(ids, id) == ids,
    decreases ids.len(),
{
    if ids.len() > 0 {
        lemma_remove_ids_absent(ids.drop_last(), id);
        assert(remove_ids(ids, id) =~= ids);
    }
}

/// With pairwise distinct identifiers, removing the one carried by the
/// entry at `k` removes exactly that entry.
proof fn lemma_remove_fav_at(favs: Seq<FavoriteEntry>, id: Seq<char>, k: int)
    requires
        unique_ids(favs),
        0 <= k < favs.len(),
        favs[k].stationuuid@ == id,
    ensures
        remove_fav(favs, id) == favs.remove(k),
    decreases favs.len(),
{
    if k == favs.len() - 1 {
        assert(!has_id(favs.drop_last(), id)) by {
            if has_id(favs.drop_last(), id) {
                let i = choose|i: int|
                    0 <= i < favs.drop_last().len() && favs.drop_last()[i].stationuuid@ == id;
                assert(favs[i].stationuuid@ == favs[k].stationuuid@);
            }
        }
        lemma_remove_fav_absent(favs.drop_last(), id);
        assert(remove_fav(favs, id) =~= favs.remove(k));
    } else {
        assert(favs.last().stationuuid@ != id) by {
            assert(favs[k].stationuuid@ != favs[favs.len() - 1].stationuuid@);
        }
        assert(unique_ids(favs.drop_last()));
        assert(favs.drop_last()[k] == favs[k]);
        lemma_remove_fav_at(favs.drop_last(), id, k);
        assert(remove_fav(favs, id) =~= favs.remove(k));
    }
}

/// The matching entries of a store with no matching entry form the empty
/// sequence.
proof fn lemma_entries_with_absent(favs: Seq<FavoriteEntry>, id: Seq<char>)
    requires
        !has_id(favs, id),
    ensures
        entries_with(favs, id) == Seq::<FavoriteEntry>::empty(),
    decreases favs.len(),
{
    if favs.len() > 0 {
        assert(favs.last().stationuuid@ != id);
        assert(!has_id(favs.drop_last(), id)) by {
            if has_id(favs.drop_last(), id) {
                let i = choose|i: int|
                    0 <= i < favs.drop_last().len() && favs.drop_last()[i].stationuuid@ == id;
                assert(favs[i].stationuuid@ == id);
            }
        }
        lemma_entries_with_absent(favs.drop_last(), id);
    }
}

/// Removing one identifier from the store and from its mirror keeps the
/// two aligned.
proof fn lemma_remove_parallel(favs: Seq<FavoriteEntry>, ids: Seq<String>, id: Seq<char>)
    requires
        ids.len() == favs.len(),
        forall|i: int| 0 <= i < favs.len() ==> ids[i]@ == favs[i].stationuuid@,
    ensures
        remove_ids(ids, id).len() == remove_fav(favs, id).len(),
        forall|i: int|
            0 <= i < remove_fav(favs, id).len() ==> #[trigger] remove_ids(ids, id)[i]@
                == remove_fav(favs, id)[i].stationuuid@,
    decreases favs.len(),
{
    if favs.len() > 0 {
        assert(ids.last()@ == favs.last().stationuuid@);
        assert forall|i: int|
            0 <= i < favs.drop_last().len() implies ids.drop_last()[i]@ == favs.drop_last()[
            i
        ].stationuuid@ by {
            assert(ids[i]@ == favs[i].stationuuid@);
        }
        lemma_remove_parallel(favs.drop_last(), ids.drop_last(), id);
    }
}

/// Law: the favorite toggle is its own inverse. Toggling the selected
/// station twice in the all-stations view, with the station and the cursor
/// unchanged in between and with the stored entry (if any) carrying the
/// station's current name and URL, leaves the favorites store with the same
/// entries up to ordering and every identifier with its original favorite
/// status.
pub proof fn lemma_toggle_twice_restores(v: AppView)
    requires
        v.wf(),
        v.view_mode == StationViewMode::AllStations,
        v.active_list().len() > 0,
        forall|k: int|
            0 <= k < v.favorites.len() && v.favorites[k].stationuuid@ == v.active_list()[v.selected as int].stationuuid@
                ==> v.favorites[k] == entry_for(v.active_list()[v.selected as int]),
    ensures
        v.toggle_spec().toggle_spec().favorites.to_multiset() == v.favorites.to_multiset(),
        forall|id2: Seq<char>|
            has_id(#[trigger] v.toggle_spec().toggle_spec().favorites, id2) == has_id(
                v.favorites,
                id2,
            ),
{
    broadcast use vstd::seq_lib::group_to_multiset_ensures;

    let st = v.active_list()[v.selected as int];
    let id = st.stationuuid@;
    let v1 = v.toggle_spec();
    let v2 = v1.toggle_spec();
    assert(v1.active_list() == v.active_list());
    if v.is_favorite_id(id) {
        let k = choose|k: int| 0 <= k < v.favorites.len() && v.favorites[k].stationuuid@ == id;
        lemma_remove_fav_at(v.favorites, id, k);
        lemma_remove_fav_elems(v.favorites, id);
        assert(v1.favorites == v.favorites.remove(k));
        assert(!v1.is_favorite_id(id)) by {
            if v1.is_favorite_id(id) {
                let i = choose|i: int|
                    0 <= i < v1.favorites.len() && v1.favorites[i].stationuuid@ == id;
                assert(remove_fav(v.favorites, id)[i].stationuuid@ != id);
            }
        }
        assert(v2.favorites == v1.favorites.push(entry_for(st)));
        assert(v.favorites[k] == entry_for(st));
        assert(v.favorites.remove(k).to_multiset() =~= v.favorites.to_multiset().remove(
            v.favorites[k],
        ));
        assert(v2.favorites.to_multiset() =~= v.favorites.to_multiset().remove(
            v.favorites[k],
        ).insert(v.favorites[k]));
        assert(v.favorites.contains(v.favorites[k]));
        assert(v.favorites.to_multiset().count(v.favorites[k]) > 0);
        assert(v2.favorites.to_multiset() =~= v.favorites.to_multiset());
    } else {
        assert(!has_id(v.favorites, id));
        assert(v1.favorites == v.favorites.push(entry_for(st)));
        assert(v1.is_favorite_id(id)) by {
            assert(v1.favorites[v.favorites.len() as int].stationuuid@ == id);
        }
        assert(v2.favorites == remove_fav(v1.favorites, id));
        assert(v1.favorites.drop_last() =~= v.favorites);
        assert(v1.favorites.last() == entry_for(st));
        lemma_remove_fav_absent(v.favorites, id);
        assert(v2.favorites == v.favorites);
    }
    assert forall|id2: Seq<char>|
        has_id(#[trigger] v2.favorites, id2) == has_id(v.favorites, id2) by {
        if has_id(v2.favorites, id2) {
            let i = choose|i: int|
                0 <= i < v2.favorites.len() && v2.favorites[i].stationuuid@ == id2;
            let e = v2.favorites[i];
            assert(v2.favorites.contains(e));
            assert(v2.favorites.to_multiset().count(e) > 0);
            assert(v.favorites.to_multiset().count(e) > 0);
            assert(v.favorites.contains(e));
            let j = choose|j: int| 0 <= j < v.favorites.len() && v.favorites[j] == e;
            assert(v.favorites[j].stationuuid@ == id2);
        }
        if has_id(v.favorites, id2) {
            let i = choose|i: int|
                0 <= i < v.favorites.len() && v.favorites[i].stationuuid@ == id2;
            let e = v.favorites[i];
            assert(v.favorites.contains(e));
            assert(v.favorites.to_multiset().count(e) > 0);
            assert(v2.favorites.to_multiset().count(e) > 0);
            assert(v2.favorites.contains(e));
            let j = choose|j: int| 0 <= j < v2.favorites.len() && v2.favorites[j] == e;
            assert(v2.favorites[j].stationuuid@ == id2);
        }
    }
}

/// Law: re-favoriting an already-favorited station (an unfavorite followed
/// by a favorite of the same selection, in the all-stations view) leaves
/// exactly one entry for its identifier, carrying the station's current
/// name and URL, and the store no larger than before: stale data is
/// refreshed, never duplicated.
pub proof fn lemma_refavorite_updates_entry(v: AppView)
    requires
        v.wf(),
        v.view_mode == StationViewMode::AllStations,
        v.active_list().len() > 0,
        v.is_favorite_id(v.active_list()[v.selected as int].stationuuid@),
    ensures
        v.toggle_spec().toggle_spec().favorites.len() == v.favorites.len(),
        entries_with(
            v.toggle_spec().toggle_spec().favorites,
            v.active_list()[v.selected as int].stationuuid@,
        ) == seq![entry_for(v.active_list()[v.selected as int])],
{
    let st = v.active_list()[v.selected as int];
    let id = st.stationuuid@;
    let v1 = v.toggle_spec();
    let v2 = v1.toggle_spec();
    assert(v1.active_list() == v.active_list());
    let k = choose|k: int| 0 <= k < v.favorites.len() && v.favorites[k].stationuuid@ == id;
    lemma_remove_fav_at(v.favorites, id, k);
    lemma_remove_fav_elems(v.favorites, id);
    assert(v1.favorites == v.favorites.remove(k));
    assert(!v1.is_favorite_id(id)) by {
        if v1.is_favorite_id(id) {
            let i = choose|i: int|
                0 <= i < v1.favorites.len() && v1.favorites[i].stationuuid@ == id;
            assert(remove_fav(v.favorites, id)[i].stationuuid@ != id);
        }
    }
    assert(v2.favorites == v1.favorites.push(entry_for(st)));
    assert(!has_id(v1.favorites, id)) by {
        if has_id(v1.favorites, id) {
            let i = choose|i: int|
                0 <= i < v1.favorites.len() && v1.favorites[i].stationuuid@ == id;
            assert(remove_fav(v.favorites, id)[i].stationuuid@ != id);
        }
    }
    lemma_entries_with_absent(v1.favorites, id);
    assert(v2.favorites.drop_last() =~= v1.favorites);
    assert(v2.favorites.last() == entry_for(st));
    assert(entries_with(v2.favorites, id) =~= seq![entry_for(st)]);
}

} // verus!
