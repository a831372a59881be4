//! Decision logic of the catalog client's bulk fetch: the admission limiter
//! that caps concurrent lookups, the classification of per-identifier
//! outcomes into a partition of resolved stations and failed identifiers,
//! and the fallback merge that keeps the favorites view populated from
//! cached entries when the directory cannot serve an identifier.
//!
//! The surrounding application runs the actual concurrent tasks; it hands
//! every task's tagged outcome back to [`collect_outcomes`], which never
//! fails as a whole and never depends on completion order beyond the order
//! in which outcomes are recorded.

use vstd::prelude::*;

use crate::model::{FavoriteEntry, FetchError, Station};
use crate::strutil::{lemma_lex_total, lemma_lex_trans, lex_le, lower_of, lowercase, str_lex_le};

verus! {

/// How one fetch-by-identifier task ended: a station, a confirmed absence,
/// or a transport or decode failure.
#[derive(Debug)]
pub enum FetchOutcome {
    Resolved(Station),
    Absent,
    Failed(FetchError),
}

/// The stations of the resolved outcomes, in recording order.
pub open spec fn resolved_of(outcomes: Seq<(String, FetchOutcome)>) -> Seq<Station>
    decreases outcomes.len(),
{
    if outcomes.len() == 0 {
        Seq::empty()
    } else {
        let rest = resolved_of(outcomes.drop_last());
        match outcomes.last().1 {
            FetchOutcome::Resolved(st) => rest.push(st),
            _ => rest,
        }
    }
}

/// The identifiers of the absent and failed outcomes, in recording order.
pub open spec fn failed_of(outcomes: Seq<(String, FetchOutcome)>) -> Seq<String>
    decreases outcomes.len(),
{
    if outcomes.len() == 0 {
        Seq::empty()
    } else {
        let rest = failed_of(outcomes.drop_last());
        match outcomes.last().1 {
            FetchOutcome::Resolved(_) => rest,
            _ => rest.push(outcomes.last().0),
        }
    }
}

/// Whether some station of `sts` carries `id`.
pub open spec fn has_station_id(sts: Seq<Station>, id: Seq<char>) -> bool {
    exists|i: int| 0 <= i < sts.len() && sts[i].stationuuid@ == id
}

/// Whether `id` occurs among the strings of `ids`.
pub open spec fn in_ids(ids: Seq<String>, id: Seq<char>) -> bool {
    exists|i: int| 0 <= i < ids.len() && ids[i]@ == id
}

/// Whether `id` was recorded as a requested identifier.
pub open spec fn has_outcome_id(outcomes: Seq<(String, FetchOutcome)>, id: Seq<char>) -> bool {
    exists|i: int| 0 <= i < outcomes.len() && outcomes[i].0@ == id
}

/// Partitions recorded outcomes into resolved stations and failed
/// identifiers: every resolved station lands in the first list, every
/// absent or failed identifier in the second, in recording order. The
/// operation always returns a usable partition; no single failure aborts
/// it.
pub fn collect_outcomes(outcomes: Vec<(String, FetchOutcome)>) -> (r: (Vec<Station>, Vec<String>))
    ensures
        r.0@ == resolved_of(outcomes@),
        r.1@ == failed_of(outcomes@),
{
    let mut resolved: Vec<Station> = Vec::new();
    let mut failed: Vec<String> = Vec::new();
    let mut i: usize = 0;
    while i < outcomes.len()
        invariant
            i <= outcomes@.len(),
            resolved@ == resolved_of(outcomes@.subrange(0, i as int)),
            failed@ == failed_of(outcomes@.subrange(0, i as int)),
        decreases outcomes@.len() - i,
    {
        match &outcomes[i].1 {
            FetchOutcome::Resolved(st) => resolved.push(st.clone()),
            FetchOutcome::Absent => failed.push(outcomes[i].0.clone()),
            FetchOutcome::Failed(_) => failed.push(outcomes[i].0.clone()),
        }
        i = i + 1;
        proof {
            let pre = outcomes@.subrange(0, i as int);
            assert(pre.drop_last() =~= outcomes@.subrange(0, i as int - 1));
            assert(pre.last() == outcomes@[i as int - 1]);
            assert(resolved@ == resolved_of(pre));
            assert(failed@ == failed_of(pre));
        }
    }
    assert(outcomes@.subrange(0, outcomes@.len() as int) =~= outcomes@);
    (resolved, failed)
}

/// Every partition member stems from a recorded identifier.
proof fn lemma_partition_ids_from(outcomes: Seq<(String, FetchOutcome)>)
    requires
        forall|i: int|
            0 <= i < outcomes.len() ==> match #[trigger] outcomes[i].1 {
                FetchOutcome::Resolved(st) => st.stationuuid@ == outcomes[i].0@,
                _ => true,
            },
    ensures
        resolved_of(outcomes).len() + failed_of(outcomes).len() == outcomes.len(),
        forall|id: Seq<char>|
            #[trigger] has_station_id(resolved_of(outcomes), id) ==> has_outcome_id(outcomes, id),
        forall|id: Seq<char>|
            #[trigger] in_ids(failed_of(outcomes), id) ==> has_outcome_id(outcomes, id),
    decreases outcomes.len(),
{
    if outcomes.len() > 0 {
        let rest = outcomes.drop_last();
        lemma_partition_ids_from(rest);
        assert forall|id: Seq<char>|
            #[trigger] has_station_id(resolved_of(outcomes), id) implies has_outcome_id(
            outcomes,
            id,
        ) by {
            let i = choose|i: int|
                0 <= i < resolved_of(outcomes).len() && resolved_of(outcomes)[i].stationuuid@
                    == id;
            if i < resolved_of(rest).len() {
                assert(has_station_id(resolved_of(rest), id));
                let j = choose|j: int| 0 <= j < rest.len() && rest[j].0@ == id;
                assert(outcomes[j].0@ == id);
            } else {
                assert(outcomes[outcomes.len() - 1].0@ == id);
            }
        }
        assert forall|id: Seq<char>|
            #[trigger] in_ids(failed_of(outcomes), id) implies has_outcome_id(outcomes, id) by {
            let i = choose|i: int|
                0 <= i < failed_of(outcomes).len() && failed_of(outcomes)[i]@ == id;
            if i < failed_of(rest).len() {
                assert(in_ids(failed_of(rest), id));
                let j = choose|j: int| 0 <= j < rest.len() && rest[j].0@ == id;
                assert(outcomes[j].0@ == id);
            } else {
                assert(outcomes[outcomes.len() - 1].0@ == id);
            }
        }
    }
}

/// Law: for distinct requested identifiers whose resolved stations answer
/// under the identifier they were requested for, the partition covers
/// every recorded identifier — each lands among the resolved stations or
/// among the failed identifiers — the two sides share no identifier, and
/// together they account for every recorded outcome.
pub proof fn lemma_fetch_partition(outcomes: Seq<(String, FetchOutcome)>)
    requires
        forall|i: int, j: int|
            0 <= i < j < outcomes.len() ==> outcomes[i].0@ != outcomes[j].0@,
        forall|i: int|
            0 <= i < outcomes.len() ==> match #[trigger] outcomes[i].1 {
                FetchOutcome::Resolved(st) => st.stationuuid@ == outcomes[i].0@,
                _ => true,
            },
    ensures
        resolved_of(outcomes).len() + failed_of(outcomes).len() == outcomes.len(),
        forall|i: int|
            0 <= i < outcomes.len() ==> has_station_id(
                resolved_of(outcomes),
                #[trigger] outcomes[i].0@,
            ) || in_ids(failed_of(outcomes), outcomes[i].0@),
        forall|id: Seq<char>|
            !(#[trigger] has_station_id(resolved_of(outcomes), id) && in_ids(
                failed_of(outcomes),
                id,
            )),
    decreases outcomes.len(),
{
    lemma_partition_ids_from(outcomes);
    if outcomes.len() > 0 {
        let rest = outcomes.drop_last();
        let last = outcomes.last();
        lemma_fetch_partition(rest);
        lemma_partition_ids_from(rest);
        // the last identifier is new to both sides
        assert(!has_outcome_id(rest, last.0@)) by {
            if has_outcome_id(rest, last.0@) {
                let j = choose|j: int| 0 <= j < rest.len() && rest[j].0@ == last.0@;
                assert(outcomes[j].0@ == outcomes[outcomes.len() - 1].0@);
            }
        }
        // cover
        assert forall|i: int|
            0 <= i < outcomes.len() implies has_station_id(
            resolved_of(outcomes),
            #[trigger] outcomes[i].0@,
        ) || in_ids(failed_of(outcomes), outcomes[i].0@) by {
            if i < rest.len() {
                assert(outcomes[i].0@ == rest[i].0@);
                if has_station_id(resolved_of(rest), rest[i].0@) {
                    let k = choose|k: int|
                        0 <= k < resolved_of(rest).len() && resolved_of(rest)[k].stationuuid@
                            == rest[i].0@;
                    assert(resolved_of(outcomes)[k].stationuuid@ == rest[i].0@);
                } else {
                    assert(in_ids(failed_of(rest), rest[i].0@));
                    let k = choose|k: int|
                        0 <= k < failed_of(rest).len() && failed_of(rest)[k]@ == rest[i].0@;
                    assert(failed_of(outcomes)[k]@ == rest[i].0@);
                }
            } else {
                match last.1 {
                    FetchOutcome::Resolved(st) => {
                        assert(resolved_of(outcomes).last() == st);
                    },
                    _ => {
                        assert(failed_of(outcomes).last() == last.0);
                    },
                }
            }
        }
        // disjointness
        assert forall|id: Seq<char>|
            !(#[trigger] has_station_id(resolved_of(outcomes), id) && in_ids(
                failed_of(outcomes),
                id,
            )) by {
            if has_station_id(resolved_of(outcomes), id) && in_ids(failed_of(outcomes), id) {
                match last.1 {
                    FetchOutcome::Resolved(st) => {
                        assert(failed_of(outcomes) == failed_of(rest));
                        assert(has_outcome_id(rest, id));
                        let i = choose|i: int|
                            0 <= i < resolved_of(outcomes).len() && resolved_of(outcomes)[
                                i
                            ].stationuuid@ == id;
                        if i < resolved_of(rest).len() {
                            assert(has_station_id(resolved_of(rest), id));
                        } else {
                            assert(id == last.0@);
                        }
                    },
                    _ => {
                        assert(resolved_of(outcomes) == resolved_of(rest));
                        assert(has_outcome_id(rest, id));
                        let i = choose|i: int|
                            0 <= i < failed_of(outcomes).len() && failed_of(outcomes)[i]@ == id;
                        if i < failed_of(rest).len() {
                            assert(in_ids(failed_of(rest), id));
                        } else {
                            assert(id == last.0@);
                        }
                    },
                }
            }
        }
    }
}

/// The first station of a directory answer, if it holds one: a lookup by
/// identifier returns an array of zero or one records.
pub fn first_station(list: Vec<Station>) -> (r: Option<Station>)
    ensures
        match r {
            Some(st) => list@.len() > 0 && st == list@[0],
            None => list@.len() == 0,
        },
{
    if list.len() > 0 {
        Some(list[0].clone())
    } else {
        None
    }
}

/// Whether an HTTP status code reports success.
pub fn is_success_status(code: u16) -> (r: bool)
    ensures
        r == (200 <= code < 300),
{
    200 <= code && code < 300
}

/// A fallback station standing in for a cached favorite entry: the cached
/// identifier, name and URL, with every other field blank.
pub open spec fn is_fallback_of(st: Station, e: FavoriteEntry) -> bool {
    &&& st.stationuuid@ == e.stationuuid@
    &&& st.name@ == e.name@
    &&& st.url@ == e.url@
    &&& st.url_resolved@ == Seq::<char>::empty()
    &&& st.tags@ == Seq::<char>::empty()
    &&& st.country_code@ == Seq::<char>::empty()
    &&& st.language@ == Seq::<char>::empty()
    &&& st.bitrate == 0
}

/// The favorite entries whose identifier is among the failed ones, in
/// order.
pub open spec fn failed_entries(favs: Seq<FavoriteEntry>, failed: Seq<String>) -> Seq<
    FavoriteEntry,
>
    decreases favs.len(),
{
    if favs.len() == 0 {
        Seq::empty()
    } else {
        let rest = failed_entries(favs.drop_last(), failed);
        if in_ids(failed, favs.last().stationuuid@) {
            rest.push(favs.last())
        } else {
            rest
        }
    }
}

/// Every favorite with a failed identifier appears among the failed
/// entries.
proof fn lemma_failed_entries_complete(favs: Seq<FavoriteEntry>, failed: Seq<String>)
    ensures
        forall|j: int|
            0 <= j < favs.len() && in_ids(failed, #[trigger] favs[j].stationuuid@) ==> exists|
                p: int,
            |
                0 <= p < failed_entries(favs, failed).len() && failed_entries(favs, failed)[p]
                    == favs[j],
    decreases favs.len(),
{
    if favs.len() > 0 {
        lemma_failed_entries_complete(favs.drop_last(), failed);
        assert forall|j: int|
            0 <= j < favs.len() && in_ids(failed, #[trigger] favs[j].stationuuid@) implies exists|
            p: int,
        |
            0 <= p < failed_entries(favs, failed).len() && failed_entries(favs, failed)[p]
                == favs[j] by {
            if j < favs.len() - 1 {
                assert(favs.drop_last()[j] == favs[j]);
                assert(in_ids(failed, favs.drop_last()[j].stationuuid@));
                let p = choose|p: int|
                    0 <= p < failed_entries(favs.drop_last(), failed).len() && failed_entries(
                        favs.drop_last(),
                        failed,
                    )[p] == favs.drop_last()[j];
                assert(failed_entries(favs, failed)[p] == failed_entries(
                    favs.drop_last(),
                    failed,
                )[p]);
                assert(failed_entries(favs, failed)[p] == favs[j]);
            } else {
                assert(failed_entries(favs, failed).last() == favs[j]);
            }
        }
    }
}

/// Every failed entry is one of the favorites, and its identifier failed.
proof fn lemma_failed_entries_sound(favs: Seq<FavoriteEntry>, failed: Seq<String>)
    ensures
        failed_entries(favs, failed).len() <= favs.len(),
        forall|p: int|
            0 <= p < failed_entries(favs, failed).len() ==> favs.contains(
                #[trigger] failed_entries(favs, failed)[p],
            ) && in_ids(failed, failed_entries(favs, failed)[p].stationuuid@),
    decreases favs.len(),
{
    if favs.len() > 0 {
        lemma_failed_entries_sound(favs.drop_last(), failed);
        assert forall|p: int|
            0 <= p < failed_entries(favs, failed).len() implies favs.contains(
            #[trigger] failed_entries(favs, failed)[p],
        ) && in_ids(failed, failed_entries(favs, failed)[p].stationuuid@) by {
            let e = failed_entries(favs, failed)[p];
            if p < failed_entries(favs.drop_last(), failed).len() {
                assert(favs.drop_last().contains(e));
                let q = choose|q: int|
                    0 <= q < favs.drop_last().len() && favs.drop_last()[q] == e;
                assert(favs[q] == e);
            } else {
                assert(e == favs.last());
                assert(favs.contains(favs.last()));
            }
        }
    }
}

/// Whether the identifier occurs among the given ones.
pub fn contains_id(ids: &[String], id: &str) -> (r: bool)
    ensures
        r == in_ids(ids@, id@),
{
    let mut i: usize = 0;
    while i < ids.len()
        invariant
            i <= ids@.len(),
            forall|j: int| 0 <= j < i ==> ids@[j]@ != id@,
        decreases ids@.len() - i,
    {
        if crate::strutil::str_eq(ids[i].as_str(), id) {
            return true;
        }
        i = i + 1;
    }
    false
}

/// Whether some station of the slice carries the identifier.
pub fn contains_station_id(sts: &[Station], id: &str) -> (r: bool)
    ensures
        r == has_station_id(sts@, id@),
{
    let mut i: usize = 0;
    while i < sts.len()
        invariant
            i <= sts@.len(),
            forall|j: int| 0 <= j < i ==> sts@[j].stationuuid@ != id@,
        decreases sts@.len() - i,
    {
        if crate::strutil::str_eq(sts[i].stationuuid.as_str(), id) {
            return true;
        }
        i = i + 1;
    }
    false
}

/// Cached stand-ins for the favorites the directory could not serve: one
/// blank-metadata station per favorite entry whose identifier failed, in
/// store order.
pub fn fallback_stations_from_cached(favorites: &[FavoriteEntry], failed_uuids: &[String]) -> (r:
    Vec<Station>)
    ensures
        r@.len() == failed_entries(favorites@, failed_uuids@).len(),
        forall|i: int|
            0 <= i < r@.len() ==> is_fallback_of(
                #[trigger] r@[i],
                failed_entries(favorites@, failed_uuids@)[i],
            ),
{
    let mut r: Vec<Station> = Vec::new();
    let mut i: usize = 0;
    while i < favorites.len()
        invariant
            i <= favorites@.len(),
            r@.len() == failed_entries(favorites@.subrange(0, i as int), failed_uuids@).len(),
            forall|k: int|
                0 <= k < r@.len() ==> is_fallback_of(
                    #[trigger] r@[k],
                    failed_entries(favorites@.subrange(0, i as int), failed_uuids@)[k],
                ),
        decreases favorites@.len() - i,
    {
        if contains_id(failed_uuids, favorites[i].stationuuid.as_str()) {
            r.push(Station {
                stationuuid: favorites[i].stationuuid.clone(),
                name: favorites[i].name.clone(),
                url: favorites[i].url.clone(),
                url_resolved: String::new(),
                tags: String::new(),
                country_code: String::new(),
                language: String::new(),
                bitrate: 0,
            });
        }
        i = i + 1;
        proof {
            let pre = favorites@.subrange(0, i as int);
            assert(pre.drop_last() =~= favorites@.subrange(0, i as int - 1));
            assert(pre.last() == favorites@[i as int - 1]);
        }
    }
    assert(favorites@.subrange(0, favorites@.len() as int) =~= favorites@);
    r
}

/// Sorted ascending by case-folded station name.
pub open spec fn sorted_by_name(sts: Seq<Station>) -> bool {
    forall|i: int, j: int|
        0 <= i < j < sts.len() ==> lex_le(
            lower_of(#[trigger] sts[i].name@),
            lower_of(#[trigger] sts[j].name@),
        )
}

/// The stations reordered ascending by case-folded name.
pub fn sort_stations_by_name(sts: Vec<Station>) -> (r: Vec<Station>)
    ensures
        r@.to_multiset() == sts@.to_multiset(),
        sorted_by_name(r@),
        r@.len() == sts@.len(),
{
    broadcast use vstd::seq_lib::group_to_multiset_ensures;

    let mut out: Vec<Station> = Vec::new();
    let mut i: usize = 0;
    while i < sts.len()
        invariant
            i <= sts@.len(),
            out@.to_multiset() == sts@.subrange(0, i as int).to_multiset(),
            out@.len() == i,
            sorted_by_name(out@),
        decreases sts@.len() - i,
    {
        let s = sts[i].clone();
        let key = lowercase(s.name.as_str());
        let mut k: usize = 0;
        while k < out.len() && str_lex_le(lowercase(out[k].name.as_str()).as_str(), key.as_str())
            invariant
                k <= out@.len(),
                key@ == lower_of(s.name@),
                forall|m: int| 0 <= m < k ==> lex_le(lower_of(#[trigger] out@[m].name@), key@),
            decreases out@.len() - k,
        {
            k = k + 1;
        }
        proof {
            if k < out@.len() {
                lemma_lex_total(lower_of(out@[k as int].name@), key@);
            }
        }
        let ghost old_out = out@;
        out.insert(k, s);
        i = i + 1;
        proof {
            old_out.insert_ensures(k as int, s);
            crate::seqext::lemma_insert_multiset(old_out, k as int, s);
            let pre = sts@.subrange(0, i as int);
            assert(pre.drop_last() =~= sts@.subrange(0, i as int - 1));
            assert(pre =~= sts@.subrange(0, i as int - 1).push(sts@[i as int - 1]));
            sts@.subrange(0, i as int - 1).to_multiset_ensures();
            assert(sts@.subrange(0, i as int - 1).push(sts@[i as int - 1]).to_multiset()
                =~= sts@.subrange(0, i as int - 1).to_multiset().insert(sts@[i as int - 1]));
            assert(pre.to_multiset() == sts@.subrange(0, i as int - 1).to_multiset().insert(
                sts@[i as int - 1],
            ));
            assert(out@.to_multiset() == pre.to_multiset());
            assert forall|a: int, b: int|
                0 <= a < b < out@.len() implies lex_le(
                lower_of(#[trigger] out@[a].name@),
                lower_of(#[trigger] out@[b].name@),
            ) by {
                if b < k {
                    assert(out@[a] == old_out[a] && out@[b] == old_out[b]);
                } else if a < k && b == k {
                    assert(out@[a] == old_out[a]);
                    assert(lex_le(lower_of(old_out[a].name@), key@));
                } else if a < k && b > k {
                    assert(out@[a] == old_out[a] && out@[b] == old_out[b - 1]);
                } else if a == k {
                    assert(out@[b] == old_out[b - 1]);
                    assert(b - 1 >= k);
                    assert(lex_le(key@, lower_of(old_out[k as int].name@)));
                    if b - 1 > k {
                        lemma_lex_trans(
                            key@,
                            lower_of(old_out[k as int].name@),
                            lower_of(old_out[b - 1].name@),
                        );
                    }
                } else {
                    assert(out@[a] == old_out[a - 1] && out@[b] == old_out[b - 1]);
                }
            }
        }
    }
    assert(sts@.subrange(0, sts@.len() as int) =~= sts@);
    out
}

/// Completion handling for a favorites fetch: keeps every resolved
/// station, adds a cached stand-in for each failed favorite identifier not
/// already present, and hands the whole list back sorted by case-folded
/// name, so the favorites view shows something for every favorited
/// identifier even when the directory could not serve it.
pub fn merge_favorite_stations(
    stations: Vec<Station>,
    favorites: &[FavoriteEntry],
    failed_uuids: &[String],
) -> (r: Vec<Station>)
    ensures
        sorted_by_name(r@),
        stations@.len() <= r@.len() <= stations@.len() + favorites@.len(),
        forall|id: Seq<char>|
            #[trigger] has_station_id(stations@, id) ==> has_station_id(r@, id),
        forall|j: int|
            0 <= j < favorites@.len() && in_ids(failed_uuids@, #[trigger] favorites@[j].stationuuid@)
                ==> has_station_id(r@, favorites@[j].stationuuid@),
        forall|i: int|
            0 <= i < r@.len() ==> stations@.contains(#[trigger] r@[i]) || (exists|j: int|
                0 <= j < favorites@.len() && is_fallback_of(r@[i], favorites@[j])),
{
    broadcast use vstd::seq_lib::group_to_multiset_ensures;

    let fallbacks = fallback_stations_from_cached(favorites, failed_uuids);
    let ghost fbs = failed_entries(favorites@, failed_uuids@);
    let mut out = stations;
    let mut i: usize = 0;
    while i < fallbacks.len()
        invariant
            i <= fallbacks@.len(),
            fallbacks@.len() == fbs.len(),
            forall|p: int| 0 <= p < fbs.len() ==> is_fallback_of(#[trigger] fallbacks@[p], fbs[p]),
            out@.len() <= stations@.len() + i,
            stations@.len() <= out@.len(),
            forall|id: Seq<char>|
                #[trigger] has_station_id(out@, id) <==> has_station_id(stations@, id) || (
                exists|p: int| 0 <= p < i && fallbacks@[p].stationuuid@ == id),
            forall|k: int|
                0 <= k < out@.len() ==> stations@.contains(#[trigger] out@[k]) || (exists|p: int|
                    0 <= p < i && fallbacks@[p] == out@[k]),
        decreases fallbacks@.len() - i,
    {
        let ghost old_out = out@;
        let present = contains_station_id(out.as_slice(), fallbacks[i].stationuuid.as_str());
        if !present {
            out.push(fallbacks[i].clone());
        }
        i = i + 1;
        proof {
            let fid = fallbacks@[i as int - 1].stationuuid@;
            assert forall|id: Seq<char>|
                #[trigger] has_station_id(out@, id) implies has_station_id(stations@, id) || (
            exists|p: int| 0 <= p < i && fallbacks@[p].stationuuid@ == id) by {
                let k = choose|k: int| 0 <= k < out@.len() && out@[k].stationuuid@ == id;
                if k < old_out.len() {
                    assert(old_out[k].stationuuid@ == id);
                    assert(has_station_id(old_out, id));
                } else {
                    assert(out@[k] == fallbacks@[i as int - 1]);
                    assert(fallbacks@[i as int - 1].stationuuid@ == id);
                }
            }
            assert forall|id: Seq<char>|
                (has_station_id(stations@, id) || (exists|p: int|
                    0 <= p < i && fallbacks@[p].stationuuid@ == id)) implies #[trigger]
            has_station_id(out@, id) by {
                if has_station_id(old_out, id) {
                    let k = choose|k: int|
                        0 <= k < old_out.len() && old_out[k].stationuuid@ == id;
                    assert(out@[k].stationuuid@ == id);
                } else {
                    let p = choose|p: int| 0 <= p < i && fallbacks@[p].stationuuid@ == id;
                    assert(p == i - 1);
                    assert(!present);
                    assert(out@[out@.len() - 1] == fallbacks@[i as int - 1]);
                }
            }
            assert forall|k: int|
                0 <= k < out@.len() implies stations@.contains(#[trigger] out@[k]) || (exists|
            p: int,
            |
                0 <= p < i && fallbacks@[p] == out@[k]) by {
                if k >= old_out.len() {
                    assert(out@[k] == fallbacks@[i as int - 1]);
                }
            }
        }
    }
    proof {
        lemma_failed_entries_complete(favorites@, failed_uuids@);
        lemma_failed_entries_sound(favorites@, failed_uuids@);
    }
    let sorted = sort_stations_by_name(out);
    proof {
        assert forall|id: Seq<char>|
            #[trigger] has_station_id(out@, id) implies has_station_id(sorted@, id) by {
            let k = choose|k: int| 0 <= k < out@.len() && out@[k].stationuuid@ == id;
            assert(out@.contains(out@[k]));
            assert(out@.to_multiset().count(out@[k]) > 0);
            assert(sorted@.to_multiset().count(out@[k]) > 0);
            assert(sorted@.contains(out@[k]));
            let m = choose|m: int| 0 <= m < sorted@.len() && sorted@[m] == out@[k];
            assert(sorted@[m].stationuuid@ == id);
        }
        assert forall|m: int|
            0 <= m < sorted@.len() implies stations@.contains(#[trigger] sorted@[m]) || (exists|
            j: int,
        |
            0 <= j < favorites@.len() && is_fallback_of(sorted@[m], favorites@[j])) by {
            assert(sorted@.contains(sorted@[m]));
            assert(sorted@.to_multiset().count(sorted@[m]) > 0);
            assert(out@.to_multiset().count(sorted@[m]) > 0);
            assert(out@.contains(sorted@[m]));
            let k = choose|k: int| 0 <= k < out@.len() && out@[k] == sorted@[m];
            if !stations@.contains(out@[k]) {
                let p = choose|p: int|
                    0 <= p < fallbacks@.len() && fallbacks@[p] == out@[k];
                assert(is_fallback_of(fallbacks@[p], fbs[p]));
                assert(favorites@.contains(fbs[p]));
                let j = choose|j: int|
                    0 <= j < favorites@.len() && favorites@[j] == fbs[p];
                assert(is_fallback_of(sorted@[m], favorites@[j]));
            }
        }
        assert forall|id: Seq<char>|
            #[trigger] has_station_id(stations@, id) implies has_station_id(sorted@, id) by {
            assert(has_station_id(out@, id));
        }
        assert forall|j: int|
            0 <= j < favorites@.len() && in_ids(
                failed_uuids@,
                #[trigger] favorites@[j].stationuuid@,
            ) implies has_station_id(sorted@, favorites@[j].stationuuid@) by {
            let p = choose|p: int| 0 <= p < fbs.len() && fbs[p] == favorites@[j];
            assert(is_fallback_of(fallbacks@[p], fbs[p]));
            assert(fallbacks@[p].stationuuid@ == favorites@[j].stationuuid@);
            assert(has_station_id(out@, favorites@[j].stationuuid@));
        }
    }
    sorted
}

/// A fixed-capacity admission limiter: at most `capacity` permits are out
/// at any time. The event loop's bulk fetch lets each task acquire one
/// permit before its network call and release it unconditionally afterwards.
#[derive(Debug)]
pub struct Limiter {
    pub capacity: usize,
    pub in_flight: usize,
}

/// One interaction with the admission limiter.
#[derive(Debug, Clone, PartialEq, Eq, Structural)]
pub enum LimiterOp {
    Acquire,
    Release,
}

/// The limiter after one interaction: an acquisition is admitted only
/// below capacity; a release never drops below zero.
pub open spec fn step_op(l: Limiter, op: LimiterOp) -> Limiter {
    match op {
        LimiterOp::Acquire => if l.in_flight < l.capacity {
            Limiter { in_flight: (l.in_flight + 1) as usize, ..l }
        } else {
            l
        },
        LimiterOp::Release => if l.in_flight > 0 {
            Limiter { in_flight: (l.in_flight - 1) as usize, ..l }
        } else {
            l
        },
    }
}

/// The limiter after a whole sequence of interactions, first to last.
pub open spec fn run_ops(l: Limiter, ops: Seq<LimiterOp>) -> Limiter
    decreases ops.len(),
{
    if ops.len() == 0 {
        l
    } else {
        run_ops(step_op(l, ops.first()), ops.drop_first())
    }
}

impl Limiter {
    /// No more permits out than the limiter's capacity.
    pub open spec fn wf(self) -> bool {
        self.in_flight <= self.capacity
    }

    /// A fresh limiter with every permit available.
    pub fn new(capacity: usize) -> (r: Self)
        ensures
            r.capacity == capacity,
            r.in_flight == 0,
            r.wf(),
    {
        Limiter { capacity, in_flight: 0 }
    }

    /// Takes a permit if one is free; reports whether it was admitted.
    pub fn try_acquire(&mut self) -> (r: bool)
        requires
            old(self).wf(),
        ensures
            *final(self) == step_op(*old(self), LimiterOp::Acquire),
            r == (old(self).in_flight < old(self).capacity),
            final(self).wf(),
    {
        if self.in_flight < self.capacity {
            self.in_flight = self.in_flight + 1;
            true
        } else {
            false
        }
    }

    /// Returns a permit; harmless when none is out.
    pub fn release(&mut self)
        requires
            old(self).wf(),
        ensures
            *final(self) == step_op(*old(self), LimiterOp::Release),
            final(self).wf(),
    {
        if self.in_flight > 0 {
            self.in_flight = self.in_flight - 1;
        }
    }
}

/// Law: however acquisitions and releases interleave, the number of
/// permits out never exceeds the limiter's capacity, and the capacity
/// itself never changes.
pub proof fn lemma_limiter_bounded(l: Limiter, ops: Seq<LimiterOp>)
    requires
        l.wf(),
    ensures
        run_ops(l, ops).wf(),
        run_ops(l, ops).capacity == l.capacity,
    decreases ops.len(),
{
    if ops.len() > 0 {
        lemma_limiter_bounded(step_op(l, ops.first()), ops.drop_first());
    }
}

} // verus!
