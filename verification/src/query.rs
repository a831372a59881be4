//! Construction of directory requests: the search query from the current
//! parameters — empty filter fields are omitted entirely, never sent as
//! empty strings — and the request paths for search and single-station
//! lookup.

use vstd::prelude::*;

use crate::model::SearchParams;
use crate::strutil::{lower_of, lowercase, upper_of, uppercase};

verus! {

/// The decimal digit characters.
pub open spec fn dec_digit(d: int) -> char {
    if d == 0 {
        '0'
    } else if d == 1 {
        '1'
    } else if d == 2 {
        '2'
    } else if d == 3 {
        '3'
    } else if d == 4 {
        '4'
    } else if d == 5 {
        '5'
    } else if d == 6 {
        '6'
    } else if d == 7 {
        '7'
    } else if d == 8 {
        '8'
    } else {
        '9'
    }
}

/// The usual decimal notation of a non-negative number, most significant
/// digit first, no leading zeroes.
pub open spec fn dec_str(n: int) -> Seq<char>
    recommends
        n >= 0,
    decreases n,
{
    if n < 10 {
        seq![dec_digit(n)]
    } else {
        dec_str(n / 10).push(dec_digit(n % 10))
    }
}

/// The decimal digit character for a value below ten.
fn dec_digit_exec(d: u32) -> (r: char)
    requires
        d < 10,
    ensures
        r == dec_digit(d as int),
{
    match d {
        0 => '0',
        1 => '1',
        2 => '2',
        3 => '3',
        4 => '4',
        5 => '5',
        6 => '6',
        7 => '7',
        8 => '8',
        _ => '9',
    }
}

/// The number written in decimal.
pub fn u32_to_string(n: u32) -> (r: String)
    ensures
        r@ == dec_str(n as int),
{
    let mut digits: Vec<char> = Vec::new();
    let mut m = n;
    while m >= 10
        invariant
            dec_str(n as int) == dec_str(m as int) + digits@,
        decreases m,
    {
        let ghost old_digits = digits@;
        let d = dec_digit_exec(m % 10);
        digits.insert(0, d);
        proof {
            assert(digits@ =~= seq![d] + old_digits);
            assert(dec_str(m as int) == dec_str(m as int / 10).push(dec_digit(m as int % 10)));
            assert(dec_str(m as int / 10).push(dec_digit(m as int % 10)) =~= dec_str(
                m as int / 10,
            ) + seq![dec_digit(m as int % 10)]);
            assert(dec_str(n as int) =~= dec_str((m / 10) as int) + digits@);
        }
        m = m / 10;
    }
    let d = dec_digit_exec(m);
    let ghost old_digits = digits@;
    digits.insert(0, d);
    proof {
        assert(digits@ =~= seq![d] + old_digits);
        assert(dec_str(m as int) =~= seq![dec_digit(m as int)]);
        assert(digits@ =~= dec_str(n as int));
    }
    crate::strutil::chars_to_string(&digits)
}

/// The key-value pairs of a search request: paging, the fixed knobs —
/// broken stations hidden, ordered by popularity descending — and one
/// pair per non-empty filter field, the country code upper-cased and the
/// language lower-cased.
pub open spec fn query_pairs(p: SearchParams) -> Seq<(Seq<char>, Seq<char>)> {
    let q0 = seq![
        ("limit"@, dec_str(p.limit as int)),
        ("offset"@, dec_str(p.offset as int)),
        ("hidebroken"@, "true"@),
        ("order"@, "clickcount"@),
        ("reverse"@, "true"@),
    ];
    let q1 = if p.name@.len() > 0 {
        q0.push(("name"@, p.name@))
    } else {
        q0
    };
    let q2 = if p.tags@.len() > 0 {
        q1.push(("tagList"@, p.tags@))
    } else {
        q1
    };
    let q3 = if p.country@.len() > 0 {
        q2.push(("countrycode"@, upper_of(p.country@)))
    } else {
        q2
    };
    if p.language@.len() > 0 {
        q3.push(("language"@, lower_of(p.language@)))
    } else {
        q3
    }
}

/// The views of built key-value pairs.
pub open spec fn pair_views(q: Seq<(String, String)>) -> Seq<(Seq<char>, Seq<char>)> {
    q.map_values(|p: (String, String)| (p.0@, p.1@))
}

/// Builds the search query for the given parameters.
pub fn build_search_query(params: &SearchParams) -> (r: Vec<(String, String)>)
    ensures
        pair_views(r@) == query_pairs(*params),
{
    let mut q: Vec<(String, String)> = Vec::new();
    q.push(("limit".to_owned(), u32_to_string(params.limit)));
    q.push(("offset".to_owned(), u32_to_string(params.offset)));
    q.push(("hidebroken".to_owned(), "true".to_owned()));
    q.push(("order".to_owned(), "clickcount".to_owned()));
    q.push(("reverse".to_owned(), "true".to_owned()));
    let ghost q0 = query_pairs(*params);
    if !params.name.as_str().is_empty() {
        q.push(("name".to_owned(), params.name.clone()));
    }
    if !params.tags.as_str().is_empty() {
        q.push(("tagList".to_owned(), params.tags.clone()));
    }
    if !params.country.as_str().is_empty() {
        q.push(("countrycode".to_owned(), uppercase(params.country.as_str())));
    }
    if !params.language.as_str().is_empty() {
        q.push(("language".to_owned(), lowercase(params.language.as_str())));
    }
    assert(pair_views(q@) =~= query_pairs(*params));
    q
}

/// The request path of a station search on the given directory server.
pub fn search_url(server: &str) -> (r: String)
    ensures
        r@ == "https://"@ + server@ + "/json/stations/search"@,
{
    let mut url = "https://".to_owned();
    url.append(server);
    url.append("/json/stations/search");
    url
}

/// The request path of a single-station lookup by identifier.
pub fn station_url(server: &str, stationuuid: &str) -> (r: String)
    ensures
        r@ == "https://"@ + server@ + "/json/stations/byuuid/"@ + stationuuid@,
{
    let mut url = "https://".to_owned();
    url.append(server);
    url.append("/json/stations/byuuid/");
    url.append(stationuuid);
    url
}

} // verus!
