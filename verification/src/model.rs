//! Plain data carried through the client: directory records, search
//! parameters, persisted favorites, and the error taxonomy.

use vstd::prelude::*;

verus! {

/// One record of the remote directory. Identity is `stationuuid`; the other
/// fields are display metadata. `url_resolved` is preferred over `url` when
/// non-empty; `bitrate` is 0 when unknown.
#[derive(Debug)]
pub struct Station {
    pub stationuuid: String,
    pub name: String,
    pub url: String,
    pub url_resolved: String,
    pub tags: String,
    pub country_code: String,
    pub language: String,
    pub bitrate: u32,
}

impl Clone for Station {
    fn clone(&self) -> (r: Self)
        ensures
            r == *self,
    {
        Station {
            stationuuid: self.stationuuid.clone(),
            name: self.name.clone(),
            url: self.url.clone(),
            url_resolved: self.url_resolved.clone(),
            tags: self.tags.clone(),
            country_code: self.country_code.clone(),
            language: self.language.clone(),
            bitrate: self.bitrate,
        }
    }
}

/// Filter and paging shape of a directory search. `offset` is always derived
/// as `(page - 1) * limit` by the paging operations, never set independently.
#[derive(Debug)]
pub struct SearchParams {
    pub name: String,
    pub tags: String,
    pub country: String,
    pub language: String,
    pub limit: u32,
    pub offset: u32,
}

impl Clone for SearchParams {
    fn clone(&self) -> (r: Self)
        ensures
            r == *self,
    {
        SearchParams {
            name: self.name.clone(),
            tags: self.tags.clone(),
            country: self.country.clone(),
            language: self.language.clone(),
            limit: self.limit,
            offset: self.offset,
        }
    }
}

impl Default for SearchParams {
    /// Empty filters, page size 50, offset 0.
    fn default() -> (r: Self)
        ensures
            r.name@ == Seq::<char>::empty(),
            r.tags@ == Seq::<char>::empty(),
            r.country@ == Seq::<char>::empty(),
            r.language@ == Seq::<char>::empty(),
            r.limit == 50u32,
            r.offset == 0u32,
    {
        SearchParams {
            name: String::new(),
            tags: String::new(),
            country: String::new(),
            language: String::new(),
            limit: 50,
            offset: 0,
        }
    }
}

/// Durable trace of "this station was favorited": identifier plus the
/// last-known name and URL, independent of whether the directory still
/// serves the station.
#[derive(Debug)]
pub struct FavoriteEntry {
    pub stationuuid: String,
    pub name: String,
    pub url: String,
}

impl Clone for FavoriteEntry {
    fn clone(&self) -> (r: Self)
        ensures
            r == *self,
    {
        FavoriteEntry {
            stationuuid: self.stationuuid.clone(),
            name: self.name.clone(),
            url: self.url.clone(),
        }
    }
}

/// Failure taxonomy of a single directory request: connection or timeout
/// trouble, a non-2xx answer, or a malformed response body.
#[derive(Debug)]
pub enum FetchError {
    Transport,
    BadStatus(u16),
    Decode,
}

impl Clone for FetchError {
    fn clone(&self) -> (r: Self)
        ensures
            r == *self,
    {
        match self {
            FetchError::Transport => FetchError::Transport,
            FetchError::BadStatus(code) => FetchError::BadStatus(*code),
            FetchError::Decode => FetchError::Decode,
        }
    }
}

/// Failure of the favorites store: the persisted text does not parse as a
/// favorites document.
#[derive(Debug)]
pub enum PersistError {
    Malformed,
}

} // verus!
