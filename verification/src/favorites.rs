//! The favorites store's normal form. The persisted set is unique by
//! identifier — on conflict the most recently written name and URL win —
//! and always sorted by case-insensitive name, tie-broken by identifier,
//! so a written file diffs deterministically. Entries with a blank
//! identifier are dropped.

use vstd::prelude::*;

use crate::codec::{
    encode_favorites, entry_views, favorites_json, parse_favorites, sp_favorites,
};
use crate::model::{FavoriteEntry, PersistError};
use crate::state::{has_id, unique_ids};
use crate::strutil::{
    lemma_lex_antisym, lemma_lex_total, lemma_lex_trans, lex_le, lower_of, lowercase, str_eq,
    str_lex_le, trim_str, trimmed,
};

verus! {

/// Index of the first entry carrying `id`, or a negative number.
pub open spec fn find_id(s: Seq<FavoriteEntry>, id: Seq<char>) -> int
    decreases s.len(),
{
    if s.len() == 0 {
        -1
    } else if s[0].stationuuid@ == id {
        0
    } else {
        let r = find_id(s.drop_first(), id);
        if r < 0 {
            -1
        } else {
            r + 1
        }
    }
}

/// Whether the entry's identifier is blank once trimmed.
pub open spec fn blank_id(e: FavoriteEntry) -> bool {
    trimmed(e.stationuuid@).len() == 0
}

/// One entry folded into the deduplicated accumulator: blank identifiers
/// are dropped, a known identifier refreshes the stored name and URL in
/// place, a new identifier is appended.
pub open spec fn dedup_step(acc: Seq<FavoriteEntry>, e: FavoriteEntry) -> Seq<FavoriteEntry> {
    if blank_id(e) {
        acc
    } else {
        let k = find_id(acc, e.stationuuid@);
        if k >= 0 {
            acc.update(
                k,
                FavoriteEntry { stationuuid: acc[k].stationuuid, name: e.name, url: e.url },
            )
        } else {
            acc.push(e)
        }
    }
}

/// The entries deduplicated by identifier, first occurrence keeping its
/// position, last occurrence providing name and URL.
pub open spec fn dedup_favs(entries: Seq<FavoriteEntry>) -> Seq<FavoriteEntry>
    decreases entries.len(),
{
    if entries.len() == 0 {
        Seq::empty()
    } else {
        dedup_step(dedup_favs(entries.drop_last()), entries.last())
    }
}

/// Persisted order: by case-folded name, ties broken by identifier.
pub open spec fn entry_le(a: FavoriteEntry, b: FavoriteEntry) -> bool {
    if lower_of(a.name@) == lower_of(b.name@) {
        lex_le(a.stationuuid@, b.stationuuid@)
    } else {
        lex_le(lower_of(a.name@), lower_of(b.name@))
    }
}

/// Sorted ascending in the persisted order.
pub open spec fn sorted_entries(s: Seq<FavoriteEntry>) -> bool {
    forall|i: int, j: int| 0 <= i < j < s.len() ==> entry_le(#[trigger] s[i], #[trigger] s[j])
}

/// `e` placed before the first entry that does not precede it.
pub open spec fn insert_entry(s: Seq<FavoriteEntry>, e: FavoriteEntry) -> Seq<FavoriteEntry>
    decreases s.len(),
{
    if s.len() == 0 {
        seq![e]
    } else if !entry_le(s[0], e) {
        seq![e] + s
    } else {
        seq![s[0]] + insert_entry(s.drop_first(), e)
    }
}

/// The entries in persisted order, by repeated insertion.
pub open spec fn sort_entries(s: Seq<FavoriteEntry>) -> Seq<FavoriteEntry>
    decreases s.len(),
{
    if s.len() == 0 {
        Seq::empty()
    } else {
        insert_entry(sort_entries(s.drop_last()), s.last())
    }
}

/// The persisted normal form: deduplicated, then sorted.
pub open spec fn normal_form(entries: Seq<FavoriteEntry>) -> Seq<FavoriteEntry> {
    sort_entries(dedup_favs(entries))
}

/// The persisted order relates every pair of entries one way or the other.
pub proof fn lemma_entry_le_total(a: FavoriteEntry, b: FavoriteEntry)
    ensures
        entry_le(a, b) || entry_le(b, a),
{
    lemma_lex_total(lower_of(a.name@), lower_of(b.name@));
    lemma_lex_total(a.stationuuid@, b.stationuuid@);
}

/// The persisted order is transitive.
pub proof fn lemma_entry_le_trans(a: FavoriteEntry, b: FavoriteEntry, c: FavoriteEntry)
    requires
        entry_le(a, b),
        entry_le(b, c),
    ensures
        entry_le(a, c),
{
    let la = lower_of(a.name@);
    let lb = lower_of(b.name@);
    let lc = lower_of(c.name@);
    if la == lb && lb == lc {
        lemma_lex_trans(a.stationuuid@, b.stationuuid@, c.stationuuid@);
    } else if la == lb {
        assert(lex_le(lb, lc));
    } else if lb == lc {
        assert(lex_le(la, lb));
    } else {
        lemma_lex_trans(la, lb, lc);
        if la == lc {
            lemma_lex_antisym(la, lb);
        }
    }
}

/// A found index really carries the identifier, and a miss means no entry
/// does.
proof fn lemma_find_id_props(s: Seq<FavoriteEntry>, id: Seq<char>)
    ensures
        find_id(s, id) >= 0 ==> 0 <= find_id(s, id) < s.len() && s[find_id(s, id)].stationuuid@
            == id,
        find_id(s, id) < 0 ==> !has_id(s, id),
    decreases s.len(),
{
    if s.len() > 0 && s[0].stationuuid@ != id {
        lemma_find_id_props(s.drop_first(), id);
        if find_id(s, id) < 0 {
            assert forall|i: int| 0 <= i < s.len() implies s[i].stationuuid@ != id by {
                if i > 0 {
                    assert(s.drop_first()[i - 1] == s[i]);
                    assert(!has_id(s.drop_first(), id));
                }
            }
        } else {
            assert(s.drop_first()[find_id(s.drop_first(), id)] == s[find_id(s, id)]);
        }
    }
}

/// The first match the scan saw is the first match there is.
proof fn lemma_find_id_at(s: Seq<FavoriteEntry>, id: Seq<char>, i: int)
    requires
        0 <= i < s.len(),
        s[i].stationuuid@ == id,
        forall|m: int| 0 <= m < i ==> s[m].stationuuid@ != id,
    ensures
        find_id(s, id) == i,
    decreases i,
{
    if i > 0 {
        assert(s.drop_first()[i - 1] == s[i]);
        assert forall|m: int| 0 <= m < i - 1 implies s.drop_first()[m].stationuuid@ != id by {
            assert(s.drop_first()[m] == s[m + 1]);
        }
        lemma_find_id_at(s.drop_first(), id, i - 1);
    }
}

/// A scan that saw no match means there is none.
proof fn lemma_find_id_none(s: Seq<FavoriteEntry>, id: Seq<char>)
    requires
        forall|m: int| 0 <= m < s.len() ==> s[m].stationuuid@ != id,
    ensures
        find_id(s, id) < 0,
    decreases s.len(),
{
    if s.len() > 0 {
        assert forall|m: int| 0 <= m < s.drop_first().len() implies s.drop_first()[m].stationuuid@
            != id by {
            assert(s.drop_first()[m] == s[m + 1]);
        }
        lemma_find_id_none(s.drop_first(), id);
    }
}

/// Inserting at the scan position is what `insert_entry` computes.
proof fn lemma_insert_entry_at(s: Seq<FavoriteEntry>, e: FavoriteEntry, k: int)
    requires
        0 <= k <= s.len(),
        forall|m: int| 0 <= m < k ==> entry_le(#[trigger] s[m], e),
        k < s.len() ==> !entry_le(s[k], e),
    ensures
        insert_entry(s, e) == s.insert(k, e),
    decreases k,
{
    if k == 0 {
        assert(insert_entry(s, e) =~= s.insert(0, e));
    } else {
        assert(entry_le(s[0], e));
        assert forall|m: int| 0 <= m < k - 1 implies entry_le(#[trigger] s.drop_first()[m], e) by {
            assert(s.drop_first()[m] == s[m + 1]);
        }
        if k - 1 < s.drop_first().len() {
            assert(s.drop_first()[k - 1] == s[k]);
        }
        lemma_insert_entry_at(s.drop_first(), e, k - 1);
        assert(insert_entry(s, e) =~= s.insert(k, e));
    }
}

/// Inserting into a sorted sequence keeps it sorted and adds exactly the
/// new entry to its multiset.
proof fn lemma_insert_entry_sorted(s: Seq<FavoriteEntry>, e: FavoriteEntry)
    requires
        sorted_entries(s),
    ensures
        sorted_entries(insert_entry(s, e)),
        insert_entry(s, e).to_multiset() == s.to_multiset().insert(e),
        insert_entry(s, e).len() == s.len() + 1,
    decreases s.len(),
{
    broadcast use vstd::seq_lib::group_to_multiset_ensures;
    broadcast use vstd::multiset::group_multiset_axioms;

    let out = insert_entry(s, e);
    if s.len() == 0 {
        assert(out =~= Seq::empty().push(e));
        assert(Seq::<FavoriteEntry>::empty().push(e).to_multiset() =~= Seq::<
            FavoriteEntry,
        >::empty().to_multiset().insert(e));
    } else if !entry_le(s[0], e) {
        assert(out == seq![e] + s);
        lemma_entry_le_total(s[0], e);
        assert forall|i: int, j: int|
            0 <= i < j < out.len() implies entry_le(#[trigger] out[i], #[trigger] out[j]) by {
            if i == 0 {
                assert(out[j] == s[j - 1]);
                if j - 1 > 0 {
                    assert(entry_le(s[0], s[j - 1]));
                    lemma_entry_le_trans(e, s[0], s[j - 1]);
                }
            } else {
                assert(out[i] == s[i - 1] && out[j] == s[j - 1]);
            }
        }
        vstd::seq_lib::lemma_multiset_commutative(seq![e], s);
        assert(seq![e].to_multiset() =~= Seq::<FavoriteEntry>::empty().to_multiset().insert(e))
            by {
            assert(seq![e] =~= Seq::empty().push(e));
            assert(Seq::<FavoriteEntry>::empty().push(e).to_multiset() =~= Seq::<
                FavoriteEntry,
            >::empty().to_multiset().insert(e));
        }
        assert(out.to_multiset() =~= s.to_multiset().insert(e));
    } else {
        assert(sorted_entries(s.drop_first())) by {
            assert forall|i: int, j: int|
                0 <= i < j < s.drop_first().len() implies entry_le(
                #[trigger] s.drop_first()[i],
                #[trigger] s.drop_first()[j],
            ) by {
                assert(s.drop_first()[i] == s[i + 1] && s.drop_first()[j] == s[j + 1]);
                assert(entry_le(s[i + 1], s[j + 1]));
            }
        }
        lemma_insert_entry_sorted(s.drop_first(), e);
        let tail = insert_entry(s.drop_first(), e);
        assert(out == seq![s[0]] + tail);
        assert forall|j: int| 0 <= j < tail.len() implies entry_le(s[0], #[trigger] tail[j]) by {
            assert(tail.contains(tail[j]));
            assert(tail.to_multiset().count(tail[j]) > 0);
            if tail[j] == e {
                assert(entry_le(s[0], e));
            } else {
                assert(s.drop_first().to_multiset().count(tail[j]) > 0);
                assert(s.drop_first().contains(tail[j]));
                let m = choose|m: int|
                    0 <= m < s.drop_first().len() && s.drop_first()[m] == tail[j];
                assert(s[m + 1] == tail[j]);
                assert(entry_le(s[0], s[m + 1]));
            }
        }
        assert forall|i: int, j: int|
            0 <= i < j < out.len() implies entry_le(#[trigger] out[i], #[trigger] out[j]) by {
            if i == 0 {
                assert(out[j] == tail[j - 1]);
            } else {
                assert(out[i] == tail[i - 1] && out[j] == tail[j - 1]);
                assert(entry_le(tail[i - 1], tail[j - 1]));
            }
        }
        vstd::seq_lib::lemma_multiset_commutative(seq![s[0]], tail);
        vstd::seq_lib::lemma_multiset_commutative(seq![s[0]], s.drop_first());
        assert(seq![s[0]] + s.drop_first() =~= s);
        assert(out.to_multiset() =~= s.to_multiset().insert(e));
    }
}

/// Sorting keeps exactly the entries and orders them.
pub proof fn lemma_sort_entries_props(s: Seq<FavoriteEntry>)
    ensures
        sorted_entries(sort_entries(s)),
        sort_entries(s).to_multiset() == s.to_multiset(),
        sort_entries(s).len() == s.len(),
    decreases s.len(),
{
    broadcast use vstd::seq_lib::group_to_multiset_ensures;

    if s.len() > 0 {
        lemma_sort_entries_props(s.drop_last());
        lemma_insert_entry_sorted(sort_entries(s.drop_last()), s.last());
        assert(s.drop_last().push(s.last()) =~= s);
        assert(s.drop_last().push(s.last()).to_multiset() =~= s.drop_last().to_multiset().insert(
            s.last(),
        ));
    }
}

/// Whether some entry carries `id` and would survive the blank filter.
pub open spec fn has_live_id(s: Seq<FavoriteEntry>, id: Seq<char>) -> bool {
    exists|i: int| 0 <= i < s.len() && s[i].stationuuid@ == id && !blank_id(s[i])
}

/// The last entry carrying `id`.
pub open spec fn last_entry_for(s: Seq<FavoriteEntry>, id: Seq<char>) -> FavoriteEntry
    recommends
        has_id(s, id),
    decreases s.len(),
{
    if s.len() == 0 {
        arbitrary()
    } else if s.last().stationuuid@ == id {
        s.last()
    } else {
        last_entry_for(s.drop_last(), id)
    }
}

/// Law, deduplication half of the persisted round trip: the deduplicated
/// store has pairwise distinct, non-blank identifiers; it holds exactly
/// the identifiers that occur non-blank in the input; and each entry
/// carries the name and URL of the input's last occurrence of its
/// identifier.
pub proof fn lemma_dedup_props(entries: Seq<FavoriteEntry>)
    ensures
        unique_ids(dedup_favs(entries)),
        forall|j: int|
            0 <= j < dedup_favs(entries).len() ==> !blank_id(#[trigger] dedup_favs(entries)[j]),
        forall|id: Seq<char>| #[trigger] has_id(dedup_favs(entries), id) == has_live_id(
            entries,
            id,
        ),
        forall|j: int|
            0 <= j < dedup_favs(entries).len() ==> (#[trigger] dedup_favs(entries)[j]).name
                == last_entry_for(entries, dedup_favs(entries)[j].stationuuid@).name
                && dedup_favs(entries)[j].url == last_entry_for(
                entries,
                dedup_favs(entries)[j].stationuuid@,
            ).url,
    decreases entries.len(),
{
    if entries.len() > 0 {
        let rest = entries.drop_last();
        let last = entries.last();
        let d1 = dedup_favs(rest);
        let d = dedup_favs(entries);
        lemma_dedup_props(rest);
        lemma_find_id_props(d1, last.stationuuid@);
        if blank_id(last) {
            assert(d == d1);
            assert forall|id: Seq<char>| #[trigger] has_id(d, id) == has_live_id(entries, id) by {
                if has_live_id(entries, id) {
                    let i = choose|i: int|
                        0 <= i < entries.len() && entries[i].stationuuid@ == id && !blank_id(
                            entries[i],
                        );
                    assert(i < entries.len() - 1);
                    assert(rest[i] == entries[i]);
                    assert(has_live_id(rest, id));
                }
                if has_id(d, id) {
                    assert(has_live_id(rest, id));
                    let i = choose|i: int|
                        0 <= i < rest.len() && rest[i].stationuuid@ == id && !blank_id(rest[i]);
                    assert(entries[i] == rest[i]);
                }
            }
            assert forall|j: int|
                0 <= j < d.len() implies (#[trigger] d[j]).name == last_entry_for(
                entries,
                d[j].stationuuid@,
            ).name && d[j].url == last_entry_for(entries, d[j].stationuuid@).url by {
                assert(!blank_id(d[j]));
                assert(d[j].stationuuid@ != last.stationuuid@);
                assert(last_entry_for(entries, d[j].stationuuid@) == last_entry_for(
                    rest,
                    d[j].stationuuid@,
                ));
            }
        } else {
            let id0 = last.stationuuid@;
            let k = find_id(d1, id0);
            if k >= 0 {
                assert(d == d1.update(
                    k,
                    FavoriteEntry { stationuuid: d1[k].stationuuid, name: last.name, url: last.url },
                ));
                assert(d1[k].stationuuid@ == id0);
                assert forall|j: int|
                    0 <= j < d.len() implies #[trigger] d[j].stationuuid@ == d1[j].stationuuid@ by {
                }
                assert(unique_ids(d));
                assert forall|j: int| 0 <= j < d.len() implies !blank_id(#[trigger] d[j]) by {
                    assert(!blank_id(d1[j]));
                }
                assert forall|id: Seq<char>| #[trigger] has_id(d, id) == has_live_id(
                    entries,
                    id,
                ) by {
                    if has_id(d, id) {
                        let i = choose|i: int| 0 <= i < d.len() && d[i].stationuuid@ == id;
                        assert(d1[i].stationuuid@ == id);
                        assert(has_id(d1, id));
                        assert(has_live_id(rest, id));
                        let m = choose|m: int|
                            0 <= m < rest.len() && rest[m].stationuuid@ == id && !blank_id(rest[m]);
                        assert(entries[m] == rest[m]);
                    }
                    if has_live_id(entries, id) {
                        let i = choose|i: int|
                            0 <= i < entries.len() && entries[i].stationuuid@ == id && !blank_id(
                                entries[i],
                            );
                        if i < entries.len() - 1 {
                            assert(rest[i] == entries[i]);
                            assert(has_live_id(rest, id));
                            assert(has_id(d1, id));
                            let m = choose|m: int| 0 <= m < d1.len() && d1[m].stationuuid@ == id;
                            assert(d[m].stationuuid@ == id);
                        } else {
                            assert(id == id0);
                            assert(d[k].stationuuid@ == id0);
                        }
                    }
                }
                assert forall|j: int|
                    0 <= j < d.len() implies (#[trigger] d[j]).name == last_entry_for(
                    entries,
                    d[j].stationuuid@,
                ).name && d[j].url == last_entry_for(entries, d[j].stationuuid@).url by {
                    if j == k {
                        assert(d[j].stationuuid@ == id0);
                        assert(last_entry_for(entries, id0) == last);
                    } else {
                        assert(d[j] == d1[j]);
                        assert(d1[j].stationuuid@ != d1[k].stationuuid@);
                        assert(d[j].stationuuid@ != id0);
                        assert(last_entry_for(entries, d[j].stationuuid@) == last_entry_for(
                            rest,
                            d[j].stationuuid@,
                        ));
                    }
                }
            } else {
                assert(!has_id(d1, id0));
                assert(d == d1.push(last));
                assert forall|i: int, j: int|
                    0 <= i < j < d.len() implies d[i].stationuuid@ != d[j].stationuuid@ by {
                    if j < d1.len() {
                        assert(d[i] == d1[i] && d[j] == d1[j]);
                    } else {
                        assert(d[j] == last);
                        assert(d1[i].stationuuid@ != id0);
                    }
                }
                assert forall|id: Seq<char>| #[trigger] has_id(d, id) == has_live_id(
                    entries,
                    id,
                ) by {
                    if has_id(d, id) {
                        let i = choose|i: int| 0 <= i < d.len() && d[i].stationuuid@ == id;
                        if i < d1.len() {
                            assert(has_id(d1, id));
                            assert(has_live_id(rest, id));
                            let m = choose|m: int|
                                0 <= m < rest.len() && rest[m].stationuuid@ == id && !blank_id(
                                    rest[m],
                                );
                            assert(entries[m] == rest[m]);
                        } else {
                            assert(entries[entries.len() - 1].stationuuid@ == id && !blank_id(
                                entries[entries.len() - 1],
                            ));
                        }
                    }
                    if has_live_id(entries, id) {
                        let i = choose|i: int|
                            0 <= i < entries.len() && entries[i].stationuuid@ == id && !blank_id(
                                entries[i],
                            );
                        if i < entries.len() - 1 {
                            assert(rest[i] == entries[i]);
                            assert(has_live_id(rest, id));
                            assert(has_id(d1, id));
                            let m = choose|m: int| 0 <= m < d1.len() && d1[m].stationuuid@ == id;
                            assert(d[m].stationuuid@ == id);
                        } else {
                            assert(d[d.len() - 1].stationuuid@ == id);
                        }
                    }
                }
                assert forall|j: int|
                    0 <= j < d.len() implies (#[trigger] d[j]).name == last_entry_for(
                    entries,
                    d[j].stationuuid@,
                ).name && d[j].url == last_entry_for(entries, d[j].stationuuid@).url by {
                    if j < d1.len() {
                        assert(d[j] == d1[j]);
                        assert(d[j].stationuuid@ != id0);
                        assert(last_entry_for(entries, d[j].stationuuid@) == last_entry_for(
                            rest,
                            d[j].stationuuid@,
                        ));
                    } else {
                        assert(d[j] == last);
                        assert(last_entry_for(entries, id0) == last);
                    }
                }
            }
        }
    }
}

/// A store already in deduplicated shape passes through unchanged.
proof fn lemma_dedup_of_normal(s: Seq<FavoriteEntry>)
    requires
        unique_ids(s),
        forall|j: int| 0 <= j < s.len() ==> !blank_id(#[trigger] s[j]),
    ensures
        dedup_favs(s) == s,
    decreases s.len(),
{
    if s.len() > 0 {
        let rest = s.drop_last();
        lemma_dedup_of_normal(rest);
        assert(!blank_id(s.last()));
        assert forall|m: int| 0 <= m < rest.len() implies rest[m].stationuuid@
            != s.last().stationuuid@ by {
            assert(s[m].stationuuid@ != s[s.len() - 1].stationuuid@);
        }
        lemma_find_id_none(rest, s.last().stationuuid@);
        assert(dedup_favs(s) =~= s);
    }
}

/// A store already in persisted order passes through the sort unchanged.
proof fn lemma_sort_of_sorted(s: Seq<FavoriteEntry>)
    requires
        sorted_entries(s),
    ensures
        sort_entries(s) == s,
    decreases s.len(),
{
    if s.len() > 0 {
        let rest = s.drop_last();
        assert(sorted_entries(rest)) by {
            assert forall|i: int, j: int|
                0 <= i < j < rest.len() implies entry_le(#[trigger] rest[i], #[trigger] rest[j]) by {
                assert(entry_le(s[i], s[j]));
            }
        }
        lemma_sort_of_sorted(rest);
        assert forall|m: int| 0 <= m < rest.len() implies entry_le(#[trigger] rest[m], s.last()) by {
            assert(entry_le(s[m], s[s.len() - 1]));
        }
        lemma_insert_entry_at(rest, s.last(), rest.len() as int);
        assert(rest.insert(rest.len() as int, s.last()) =~= s);
    }
}

/// Sorting a store with pairwise distinct, non-blank identifiers keeps
/// them pairwise distinct and non-blank.
proof fn lemma_sort_keeps_shape(s: Seq<FavoriteEntry>)
    requires
        unique_ids(s),
        forall|j: int| 0 <= j < s.len() ==> !blank_id(#[trigger] s[j]),
    ensures
        unique_ids(sort_entries(s)),
        forall|j: int|
            0 <= j < sort_entries(s).len() ==> !blank_id(#[trigger] sort_entries(s)[j]),
{
    broadcast use vstd::seq_lib::group_to_multiset_ensures;

    lemma_sort_entries_props(s);
    let t = sort_entries(s);
    assert forall|j: int| 0 <= j < t.len() implies !blank_id(#[trigger] t[j]) by {
        assert(t.contains(t[j]));
        assert(t.to_multiset().count(t[j]) > 0);
        assert(s.to_multiset().count(t[j]) > 0);
        assert(s.contains(t[j]));
        let m = choose|m: int| 0 <= m < s.len() && s[m] == t[j];
        assert(!blank_id(s[m]));
    }
    assert forall|i: int, j: int|
        0 <= i < j < t.len() implies t[i].stationuuid@ != t[j].stationuuid@ by {
        if t[i].stationuuid@ == t[j].stationuuid@ {
            if t[i] == t[j] {
                let e = t[i];
                assert(t.remove(i).to_multiset() =~= t.to_multiset().remove(e));
                t.remove_ensures(i);
                assert(t.remove(i)[j - 1] == t[j]);
                assert(t.remove(i).contains(e));
                assert(t.remove(i).to_multiset().count(e) > 0);
                assert(t.to_multiset().count(e) >= 2);
                assert(s.to_multiset().count(e) >= 2);
                assert(s.to_multiset().count(e) > 0);
                assert(s.contains(e));
                let k1 = choose|k1: int| 0 <= k1 < s.len() && s[k1] == e;
                assert(s.remove(k1).to_multiset() =~= s.to_multiset().remove(e));
                assert(s.remove(k1).to_multiset().count(e) > 0);
                assert(s.remove(k1).contains(e));
                let k2 = choose|k2: int| 0 <= k2 < s.remove(k1).len() && s.remove(k1)[k2] == e;
                s.remove_ensures(k1);
                if k2 < k1 {
                    assert(s[k2] == e);
                    assert(s[k2].stationuuid@ != s[k1].stationuuid@);
                } else {
                    assert(s[k2 + 1] == e);
                    assert(s[k1].stationuuid@ != s[k2 + 1].stationuuid@);
                }
            } else {
                assert(t.contains(t[i]) && t.contains(t[j]));
                assert(t.to_multiset().count(t[i]) > 0 && t.to_multiset().count(t[j]) > 0);
                assert(s.to_multiset().count(t[i]) > 0 && s.to_multiset().count(t[j]) > 0);
                assert(s.contains(t[i]) && s.contains(t[j]));
                let k1 = choose|k1: int| 0 <= k1 < s.len() && s[k1] == t[i];
                let k2 = choose|k2: int| 0 <= k2 < s.len() && s[k2] == t[j];
                assert(k1 != k2);
                if k1 < k2 {
                    assert(s[k1].stationuuid@ != s[k2].stationuuid@);
                } else {
                    assert(s[k2].stationuuid@ != s[k1].stationuuid@);
                }
            }
        }
    }
}

/// Index of the first stored entry carrying the identifier, if any.
fn find_entry(s: &Vec<FavoriteEntry>, id: &str) -> (r: Option<usize>)
    ensures
        match r {
            Some(k) => k < s@.len() && find_id(s@, id@) == k,
            None => find_id(s@, id@) < 0,
        },
{
    let mut k: usize = 0;
    while k < s.len()
        invariant
            k <= s@.len(),
            forall|m: int| 0 <= m < k ==> s@[m].stationuuid@ != id@,
        decreases s@.len() - k,
    {
        if str_eq(s[k].stationuuid.as_str(), id) {
            proof {
                lemma_find_id_at(s@, id@, k as int);
            }
            return Some(k);
        }
        k = k + 1;
    }
    proof {
        lemma_find_id_none(s@, id@);
    }
    None
}

/// Whether `a` comes no later than `b` in the persisted order.
fn le_entries(a: &FavoriteEntry, b: &FavoriteEntry) -> (r: bool)
    ensures
        r == entry_le(*a, *b),
{
    let la = lowercase(a.name.as_str());
    let lb = lowercase(b.name.as_str());
    if str_eq(la.as_str(), lb.as_str()) {
        str_lex_le(a.stationuuid.as_str(), b.stationuuid.as_str())
    } else {
        str_lex_le(la.as_str(), lb.as_str())
    }
}

/// The entries brought into persisted shape: blank identifiers dropped,
/// duplicates collapsed with the last-provided name and URL winning, and
/// the result sorted by case-insensitive name, tie-broken by identifier.
pub fn normalize_favorites(entries: &[FavoriteEntry]) -> (r: Vec<FavoriteEntry>)
    ensures
        r@ == normal_form(entries@),
{
    let mut deduped: Vec<FavoriteEntry> = Vec::new();
    let mut i: usize = 0;
    while i < entries.len()
        invariant
            i <= entries@.len(),
            deduped@ == dedup_favs(entries@.subrange(0, i as int)),
        decreases entries@.len() - i,
    {
        if !trim_str(entries[i].stationuuid.as_str()).is_empty() {
            match find_entry(&deduped, entries[i].stationuuid.as_str()) {
                Some(k) => {
                    let el = &mut deduped[k];
                    el.name = entries[i].name.clone();
                    el.url = entries[i].url.clone();
                },
                None => {
                    deduped.push(entries[i].clone());
                },
            }
        }
        i = i + 1;
        proof {
            let pre = entries@.subrange(0, i as int);
            assert(pre.drop_last() =~= entries@.subrange(0, i as int - 1));
            assert(pre.last() == entries@[i as int - 1]);
            assert(deduped@ == dedup_favs(pre));
        }
    }
    assert(entries@.subrange(0, entries@.len() as int) =~= entries@);
    let mut out: Vec<FavoriteEntry> = Vec::new();
    let mut j: usize = 0;
    while j < deduped.len()
        invariant
            j <= deduped@.len(),
            out@ == sort_entries(deduped@.subrange(0, j as int)),
        decreases deduped@.len() - j,
    {
        let e = deduped[j].clone();
        let mut k: usize = 0;
        while k < out.len() && le_entries(&out[k], &e)
            invariant
                k <= out@.len(),
                forall|m: int| 0 <= m < k ==> entry_le(#[trigger] out@[m], e),
            decreases out@.len() - k,
        {
            k = k + 1;
        }
        proof {
            lemma_insert_entry_at(out@, e, k as int);
        }
        out.insert(k, e);
        j = j + 1;
        proof {
            let pre = deduped@.subrange(0, j as int);
            assert(pre.drop_last() =~= deduped@.subrange(0, j as int - 1));
            assert(pre.last() == deduped@[j as int - 1]);
            assert(out@ == sort_entries(pre));
        }
    }
    assert(deduped@.subrange(0, deduped@.len() as int) =~= deduped@);
    out
}

/// Law: the persisted normal form is idempotent — normalizing an already
/// normalized store changes nothing. Together with the codec round trip
/// this is what makes a saved file reload as exactly the list that was
/// saved.
pub proof fn lemma_normal_form_idempotent(entries: Seq<FavoriteEntry>)
    ensures
        normal_form(normal_form(entries)) == normal_form(entries),
{
    lemma_dedup_props(entries);
    let d = dedup_favs(entries);
    lemma_sort_entries_props(d);
    lemma_sort_keeps_shape(d);
    let n = sort_entries(d);
    lemma_dedup_of_normal(n);
    lemma_sort_of_sorted(n);
}

/// The views sequence indexes to the three fields of each entry.
proof fn lemma_entry_views_index(s: Seq<FavoriteEntry>)
    ensures
        entry_views(s).len() == s.len(),
        forall|i: int|
            0 <= i < s.len() ==> #[trigger] entry_views(s)[i] == (
                s[i].stationuuid@,
                s[i].name@,
                s[i].url@,
            ),
{
}

/// Finding an identifier looks only at the stored identifier text.
proof fn lemma_find_id_congruent(a: Seq<FavoriteEntry>, b: Seq<FavoriteEntry>, id: Seq<char>)
    requires
        a.len() == b.len(),
        forall|i: int| 0 <= i < a.len() ==> #[trigger] a[i].stationuuid@ == b[i].stationuuid@,
    ensures
        find_id(a, id) == find_id(b, id),
    decreases a.len(),
{
    if a.len() > 0 && a[0].stationuuid@ != id {
        assert forall|i: int|
            0 <= i < a.drop_first().len() implies #[trigger] a.drop_first()[i].stationuuid@
            == b.drop_first()[i].stationuuid@ by {
            assert(a[i + 1].stationuuid@ == b[i + 1].stationuuid@);
        }
        lemma_find_id_congruent(a.drop_first(), b.drop_first(), id);
    }
}

/// Two stores with the same views, shortened by one, still have the same
/// views.
proof fn lemma_views_drop_last(a: Seq<FavoriteEntry>, b: Seq<FavoriteEntry>)
    requires
        entry_views(a) == entry_views(b),
        a.len() > 0,
    ensures
        a.len() == b.len(),
        entry_views(a.drop_last()) == entry_views(b.drop_last()),
        a.last().stationuuid@ == b.last().stationuuid@,
        a.last().name@ == b.last().name@,
        a.last().url@ == b.last().url@,
{
    lemma_entry_views_index(a);
    lemma_entry_views_index(b);
    lemma_entry_views_index(a.drop_last());
    lemma_entry_views_index(b.drop_last());
    assert(entry_views(a)[a.len() - 1] == entry_views(b)[b.len() - 1]);
    assert forall|i: int|
        0 <= i < a.drop_last().len() implies #[trigger] entry_views(a.drop_last())[i]
        == entry_views(b.drop_last())[i] by {
        assert(entry_views(a)[i] == entry_views(b)[i]);
        assert(a.drop_last()[i] == a[i] && b.drop_last()[i] == b[i]);
    }
    assert(entry_views(a.drop_last()) =~= entry_views(b.drop_last()));
}

/// Deduplication looks only at the three fields' text.
proof fn lemma_dedup_congruent(a: Seq<FavoriteEntry>, b: Seq<FavoriteEntry>)
    requires
        entry_views(a) == entry_views(b),
    ensures
        entry_views(dedup_favs(a)) == entry_views(dedup_favs(b)),
    decreases a.len(),
{
    lemma_entry_views_index(a);
    lemma_entry_views_index(b);
    assert(a.len() == b.len());
    if a.len() > 0 {
        lemma_views_drop_last(a, b);
        lemma_dedup_congruent(a.drop_last(), b.drop_last());
        let da = dedup_favs(a.drop_last());
        let db = dedup_favs(b.drop_last());
        lemma_entry_views_index(da);
        lemma_entry_views_index(db);
        assert(da.len() == db.len());
        assert forall|i: int| 0 <= i < da.len() implies (#[trigger] da[i].stationuuid@ == db[
            i
        ].stationuuid@ && da[i].name@ == db[i].name@ && da[i].url@ == db[i].url@) by {
            assert(entry_views(da)[i] == entry_views(db)[i]);
        }
        lemma_find_id_congruent(da, db, a.last().stationuuid@);
        let ra = dedup_favs(a);
        let rb = dedup_favs(b);
        assert(ra == dedup_step(da, a.last()));
        assert(rb == dedup_step(db, b.last()));
        lemma_entry_views_index(ra);
        lemma_entry_views_index(rb);
        if blank_id(a.last()) {
            assert(!blank_id(b.last()) == !blank_id(a.last()));
            assert(entry_views(ra) == entry_views(da));
            assert(entry_views(rb) == entry_views(db));
        } else {
            let k = find_id(da, a.last().stationuuid@);
            if k >= 0 {
                lemma_find_id_props(da, a.last().stationuuid@);
                assert forall|i: int|
                    0 <= i < ra.len() implies #[trigger] entry_views(ra)[i] == entry_views(rb)[
                    i
                ] by {
                    if i == k {
                        assert(ra[i].stationuuid@ == da[k].stationuuid@);
                        assert(rb[i].stationuuid@ == db[k].stationuuid@);
                    } else {
                        assert(ra[i] == da[i] && rb[i] == db[i]);
                    }
                }
                assert(entry_views(ra) =~= entry_views(rb));
            } else {
                assert forall|i: int|
                    0 <= i < ra.len() implies #[trigger] entry_views(ra)[i] == entry_views(rb)[
                    i
                ] by {
                    if i < da.len() {
                        assert(ra[i] == da[i] && rb[i] == db[i]);
                    } else {
                        assert(ra[i] == a.last() && rb[i] == b.last());
                    }
                }
                assert(entry_views(ra) =~= entry_views(rb));
            }
        }
    } else {
        assert(entry_views(dedup_favs(a)) =~= entry_views(dedup_favs(b)));
    }
}

/// The persisted order looks only at the name and identifier text.
proof fn lemma_insert_congruent(
    a: Seq<FavoriteEntry>,
    b: Seq<FavoriteEntry>,
    ea: FavoriteEntry,
    eb: FavoriteEntry,
)
    requires
        entry_views(a) == entry_views(b),
        ea.stationuuid@ == eb.stationuuid@,
        ea.name@ == eb.name@,
        ea.url@ == eb.url@,
    ensures
        entry_views(insert_entry(a, ea)) == entry_views(insert_entry(b, eb)),
    decreases a.len(),
{
    lemma_entry_views_index(a);
    lemma_entry_views_index(b);
    assert(a.len() == b.len());
    lemma_entry_views_index(insert_entry(a, ea));
    lemma_entry_views_index(insert_entry(b, eb));
    if a.len() == 0 {
        assert(entry_views(insert_entry(a, ea)) =~= entry_views(insert_entry(b, eb)));
    } else {
        assert(entry_views(a)[0] == entry_views(b)[0]);
        assert(a[0].stationuuid@ == b[0].stationuuid@ && a[0].name@ == b[0].name@);
        assert(entry_le(a[0], ea) == entry_le(b[0], eb));
        if !entry_le(a[0], ea) {
            assert forall|i: int|
                0 <= i < insert_entry(a, ea).len() implies #[trigger] entry_views(
                insert_entry(a, ea),
            )[i] == entry_views(insert_entry(b, eb))[i] by {
                if i == 0 {
                } else {
                    assert(insert_entry(a, ea)[i] == a[i - 1]);
                    assert(insert_entry(b, eb)[i] == b[i - 1]);
                    assert(entry_views(a)[i - 1] == entry_views(b)[i - 1]);
                }
            }
            assert(entry_views(insert_entry(a, ea)) =~= entry_views(insert_entry(b, eb)));
        } else {
            assert(entry_views(a.drop_first()) =~= entry_views(b.drop_first())) by {
                lemma_entry_views_index(a.drop_first());
                lemma_entry_views_index(b.drop_first());
                assert forall|i: int|
                    0 <= i < a.drop_first().len() implies #[trigger] entry_views(a.drop_first())[
                    i
                ] == entry_views(b.drop_first())[i] by {
                    assert(entry_views(a)[i + 1] == entry_views(b)[i + 1]);
                    assert(a.drop_first()[i] == a[i + 1] && b.drop_first()[i] == b[i + 1]);
                }
            }
            lemma_insert_congruent(a.drop_first(), b.drop_first(), ea, eb);
            let ta = insert_entry(a.drop_first(), ea);
            let tb = insert_entry(b.drop_first(), eb);
            lemma_entry_views_index(ta);
            lemma_entry_views_index(tb);
            assert forall|i: int|
                0 <= i < insert_entry(a, ea).len() implies #[trigger] entry_views(
                insert_entry(a, ea),
            )[i] == entry_views(insert_entry(b, eb))[i] by {
                if i == 0 {
                } else {
                    assert(insert_entry(a, ea)[i] == ta[i - 1]);
                    assert(insert_entry(b, eb)[i] == tb[i - 1]);
                    assert(entry_views(ta)[i - 1] == entry_views(tb)[i - 1]);
                }
            }
            assert(entry_views(insert_entry(a, ea)) =~= entry_views(insert_entry(b, eb)));
        }
    }
}

/// Sorting looks only at the three fields' text.
proof fn lemma_sort_congruent(a: Seq<FavoriteEntry>, b: Seq<FavoriteEntry>)
    requires
        entry_views(a) == entry_views(b),
    ensures
        entry_views(sort_entries(a)) == entry_views(sort_entries(b)),
    decreases a.len(),
{
    lemma_entry_views_index(a);
    lemma_entry_views_index(b);
    assert(a.len() == b.len());
    if a.len() > 0 {
        lemma_views_drop_last(a, b);
        lemma_sort_congruent(a.drop_last(), b.drop_last());
        lemma_insert_congruent(
            sort_entries(a.drop_last()),
            sort_entries(b.drop_last()),
            a.last(),
            b.last(),
        );
    } else {
        assert(entry_views(sort_entries(a)) =~= entry_views(sort_entries(b)));
    }
}

/// Law: the normal form depends only on the entries' text — two stores
/// that agree field for field normalize to stores that agree field for
/// field.
pub proof fn lemma_normal_form_congruent(a: Seq<FavoriteEntry>, b: Seq<FavoriteEntry>)
    requires
        entry_views(a) == entry_views(b),
    ensures
        entry_views(normal_form(a)) == entry_views(normal_form(b)),
{
    lemma_dedup_congruent(a, b);
    lemma_sort_congruent(dedup_favs(a), dedup_favs(b));
}

/// The document that saving writes: the store in normal form, encoded.
pub fn save_favorites_content(favorites: &[FavoriteEntry]) -> (r: String)
    ensures
        r@ == favorites_json(normal_form(favorites@)),
{
    let normal = normalize_favorites(favorites);
    let chars = encode_favorites(normal.as_slice());
    crate::strutil::chars_to_string(&chars)
}

/// Favorites from the persisted text. A missing file is an empty list,
/// not an error; text that is not a well-formed favorites document is a
/// persistence error; whatever parses is brought into the persisted
/// normal form.
pub fn load_favorites_from_content(content: Option<&str>) -> (r: Result<
    Vec<FavoriteEntry>,
    PersistError,
>)
    ensures
        content is None ==> (r matches Ok(v) && v@ == Seq::<FavoriteEntry>::empty()),
        (match content {
            Some(text) => match r {
                Ok(v) => sp_favorites(text@) is Some && (exists|parsed: Seq<FavoriteEntry>|
                    sp_favorites(text@) == Some(entry_views(parsed)) && v@ == normal_form(parsed)),
                Err(e) => sp_favorites(text@) is None && e == PersistError::Malformed,
            },
            None => true,
        }),
        r matches Ok(v) ==> sorted_entries(v@) && unique_ids(v@),
{
    match content {
        None => Ok(Vec::new()),
        Some(text) => match parse_favorites(text) {
            None => Err(PersistError::Malformed),
            Some(parsed) => {
                let v = normalize_favorites(parsed.as_slice());
                proof {
                    lemma_dedup_props(parsed@);
                    lemma_sort_entries_props(dedup_favs(parsed@));
                    lemma_sort_keeps_shape(dedup_favs(parsed@));
                    assert(sp_favorites(text@) == Some(entry_views(parsed@)) && v@ == normal_form(
                        parsed@,
                    ));
                }
                Ok(v)
            },
        },
    }
}

/// Law: the persisted round trip. A saved store reads back as a
/// well-formed document holding exactly the normal form that was written
/// — sorted by case-insensitive name, tie-broken by identifier, blank
/// identifiers dropped and duplicates collapsed — and whatever store
/// reparses to those fields normalizes back to that same normal form,
/// field for field.
pub proof fn lemma_favorites_round_trip(entries: Seq<FavoriteEntry>, reparsed: Seq<FavoriteEntry>)
    requires
        entry_views(reparsed) == entry_views(normal_form(entries)),
    ensures
        sp_favorites(favorites_json(normal_form(entries))) == Some(
            entry_views(normal_form(entries)),
        ),
        entry_views(normal_form(reparsed)) == entry_views(normal_form(entries)),
        sorted_entries(normal_form(entries)),
        unique_ids(normal_form(entries)),
{
    crate::codec::lemma_codec_round_trip(normal_form(entries));
    lemma_normal_form_congruent(reparsed, normal_form(entries));
    lemma_normal_form_idempotent(entries);
    lemma_dedup_props(entries);
    lemma_sort_entries_props(dedup_favs(entries));
    lemma_sort_keeps_shape(dedup_favs(entries));
}

} // verus!
