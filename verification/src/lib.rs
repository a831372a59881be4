//! Core of a terminal client for a public directory of streaming audio
//! stations: the data model, the search-query construction, the favorites
//! store with its on-disk format, the bounded-concurrency fetch partition,
//! and the single-threaded state reconciler that the event loop drives.
//!
//! Everything here is pure computation over plain values; network, terminal
//! and filesystem work lives in the surrounding application, which feeds
//! results back into these functions.

pub mod codec;
pub mod favorites;
pub mod fetch;
pub mod model;
pub mod query;
pub mod seqext;
pub mod state;
pub mod strutil;

use vstd::prelude::*;

verus! {

/// Ceiling on simultaneously in-flight station lookups during a bulk fetch.
pub const MAX_CONCURRENT_FETCHES: usize = 8;

} // verus!
