//! The on-disk favorites format: a JSON array of objects holding the
//! three string fields `stationuuid`, `name` and `url`, in that order.
//! The writer emits a compact canonical document. The reader accepts that
//! document with arbitrary blanks between tokens and the usual string
//! escapes (quote, backslash, slash, the named control characters, and
//! `\u00XX`), and rejects anything else: a malformed document is reported,
//! never guessed at.

use vstd::prelude::*;

use crate::model::FavoriteEntry;

verus! {

/// The hexadecimal digit characters, lower case.
pub open spec fn hex_char(d: int) -> char {
    if d == 0 {
        '0'
    } else if d == 1 {
        '1'
    } else if d == 2 {
        '2'
    } else if d == 3 {
        '3'
    } else if d == 4 {
        '4'
    } else if d == 5 {
        '5'
    } else if d == 6 {
        '6'
    } else if d == 7 {
        '7'
    } else if d == 8 {
        '8'
    } else if d == 9 {
        '9'
    } else if d == 10 {
        'a'
    } else if d == 11 {
        'b'
    } else if d == 12 {
        'c'
    } else if d == 13 {
        'd'
    } else if d == 14 {
        'e'
    } else {
        'f'
    }
}

/// The numeric value of a hexadecimal digit character, or a negative
/// number.
pub open spec fn hex_val(c: char) -> int {
    if c == '0' {
        0
    } else if c == '1' {
        1
    } else if c == '2' {
        2
    } else if c == '3' {
        3
    } else if c == '4' {
        4
    } else if c == '5' {
        5
    } else if c == '6' {
        6
    } else if c == '7' {
        7
    } else if c == '8' {
        8
    } else if c == '9' {
        9
    } else if c == 'a' || c == 'A' {
        10
    } else if c == 'b' || c == 'B' {
        11
    } else if c == 'c' || c == 'C' {
        12
    } else if c == 'd' || c == 'D' {
        13
    } else if c == 'e' || c == 'E' {
        14
    } else if c == 'f' || c == 'F' {
        15
    } else {
        -1
    }
}

/// How one character is written inside a JSON string: quote and backslash
/// escaped, control characters as `\u00XX`, everything else as itself.
pub open spec fn esc_char(c: char) -> Seq<char> {
    if c == '"' {
        seq!['\\', '"']
    } else if c == '\\' {
        seq!['\\', '\\']
    } else if (c as u32) < 32 {
        seq!['\\', 'u', '0', '0', hex_char((c as u32) as int / 16), hex_char((c as u32) as int % 16)]
    } else {
        seq![c]
    }
}

/// A whole string's characters written out.
pub open spec fn esc_string(s: Seq<char>) -> Seq<char>
    decreases s.len(),
{
    if s.len() == 0 {
        Seq::empty()
    } else {
        esc_string(s.drop_last()) + esc_char(s.last())
    }
}

/// A JSON string token: the escaped characters between quotes.
#[verifier::opaque]
pub open spec fn quoted(s: Seq<char>) -> Seq<char> {
    seq!['"'] + esc_string(s) + seq!['"']
}

/// The field names of a favorites object.
pub open spec fn key_stationuuid() -> Seq<char> {
    seq!['s', 't', 'a', 't', 'i', 'o', 'n', 'u', 'u', 'i', 'd']
}

pub open spec fn key_name() -> Seq<char> {
    seq!['n', 'a', 'm', 'e']
}

pub open spec fn key_url() -> Seq<char> {
    seq!['u', 'r', 'l']
}

/// One favorites object: the three fields, in canonical order.
#[verifier::opaque]
pub open spec fn entry_json(su: Seq<char>, nm: Seq<char>, ur: Seq<char>) -> Seq<char> {
    seq!['{'] + quoted(key_stationuuid()) + seq![':'] + quoted(su) + seq![','] + quoted(key_name())
        + seq![':'] + quoted(nm) + seq![','] + quoted(key_url()) + seq![':'] + quoted(ur)
        + seq!['}']
}

/// The objects of the array, comma-separated.
pub open spec fn entries_json(es: Seq<FavoriteEntry>) -> Seq<char>
    decreases es.len(),
{
    if es.len() == 0 {
        Seq::empty()
    } else if es.len() == 1 {
        entry_json(es[0].stationuuid@, es[0].name@, es[0].url@)
    } else {
        entries_json(es.drop_last()) + seq![','] + entry_json(
            es.last().stationuuid@,
            es.last().name@,
            es.last().url@,
        )
    }
}

/// A whole favorites document.
pub open spec fn favorites_json(es: Seq<FavoriteEntry>) -> Seq<char> {
    seq!['['] + entries_json(es) + seq![']']
}

/// Writes one character of string content, escaped.
fn encode_char(out: &mut Vec<char>, c: char)
    ensures
        final(out)@ == old(out)@ + esc_char(c),
{
    if c == '"' {
        out.push('\\');
        out.push('"');
        assert(out@ =~= old(out)@ + esc_char(c));
    } else if c == '\\' {
        out.push('\\');
        out.push('\\');
        assert(out@ =~= old(out)@ + esc_char(c));
    } else if (c as u32) < 32 {
        let v = c as u32;
        out.push('\\');
        out.push('u');
        out.push('0');
        out.push('0');
        out.push(hex_char_exec(v / 16));
        out.push(hex_char_exec(v % 16));
        assert(out@ =~= old(out)@ + esc_char(c));
    } else {
        out.push(c);
        assert(out@ =~= old(out)@ + esc_char(c));
    }
}

/// The hexadecimal digit character for a value below 16.
fn hex_char_exec(d: u32) -> (r: char)
    requires
        d < 16,
    ensures
        r == hex_char(d as int),
{
    match d {
        0 => '0',
        1 => '1',
        2 => '2',
        3 => '3',
        4 => '4',
        5 => '5',
        6 => '6',
        7 => '7',
        8 => '8',
        9 => '9',
        10 => 'a',
        11 => 'b',
        12 => 'c',
        13 => 'd',
        14 => 'e',
        _ => 'f',
    }
}

/// Writes a JSON string token for the given text.
fn encode_quoted(out: &mut Vec<char>, s: &str)
    ensures
        final(out)@ == old(out)@ + quoted(s@),
{
    out.push('"');
    let n = s.unicode_len();
    let mut i: usize = 0;
    while i < n
        invariant
            n == s@.len(),
            i <= n,
            out@ == old(out)@ + seq!['"'] + esc_string(s@.subrange(0, i as int)),
        decreases n - i,
    {
        encode_char(out, s.get_char(i));
        i = i + 1;
        proof {
            let pre = s@.subrange(0, i as int);
            assert(pre.drop_last() =~= s@.subrange(0, i as int - 1));
            assert(pre.last() == s@[i as int - 1]);
            assert(out@ =~= old(out)@ + seq!['"'] + esc_string(pre));
        }
    }
    out.push('"');
    proof {
        reveal(quoted);
        assert(s@.subrange(0, s@.len() as int) =~= s@);
        assert(out@ =~= old(out)@ + quoted(s@));
    }
}

/// Writes one favorites object.
fn encode_entry(out: &mut Vec<char>, e: &FavoriteEntry)
    ensures
        final(out)@ == old(out)@ + entry_json(e.stationuuid@, e.name@, e.url@),
{
    out.push('{');
    encode_quoted(out, "stationuuid");
    proof {
        reveal_strlit("stationuuid");
        assert("stationuuid"@ =~= key_stationuuid());
    }
    out.push(':');
    encode_quoted(out, e.stationuuid.as_str());
    out.push(',');
    encode_quoted(out, "name");
    proof {
        reveal_strlit("name");
        assert("name"@ =~= key_name());
    }
    out.push(':');
    encode_quoted(out, e.name.as_str());
    out.push(',');
    encode_quoted(out, "url");
    proof {
        reveal_strlit("url");
        assert("url"@ =~= key_url());
    }
    out.push(':');
    encode_quoted(out, e.url.as_str());
    out.push('}');
    proof {
        reveal(entry_json);
        assert(out@ =~= old(out)@ + entry_json(e.stationuuid@, e.name@, e.url@));
    }
}

/// The canonical document for the given entries, as characters.
pub fn encode_favorites(entries: &[FavoriteEntry]) -> (r: Vec<char>)
    ensures
        r@ == favorites_json(entries@),
{
    let mut out: Vec<char> = Vec::new();
    out.push('[');
    let mut i: usize = 0;
    while i < entries.len()
        invariant
            i <= entries@.len(),
            out@ == seq!['['] + entries_json(entries@.subrange(0, i as int)),
        decreases entries@.len() - i,
    {
        if i > 0 {
            out.push(',');
        }
        encode_entry(&mut out, &entries[i]);
        i = i + 1;
        proof {
            let pre = entries@.subrange(0, i as int);
            assert(pre.drop_last() =~= entries@.subrange(0, i as int - 1));
            assert(pre.last() == entries@[i as int - 1]);
            assert(out@ =~= seq!['['] + entries_json(pre));
        }
    }
    assert(entries@.subrange(0, entries@.len() as int) =~= entries@);
    out.push(']');
    assert(out@ =~= favorites_json(entries@));
    out
}

/// JSON blank space between tokens.
pub open spec fn is_ws_char(c: char) -> bool {
    c == ' ' || c == '\t' || c == '\n' || c == '\r'
}

/// First position at or after `i` that does not hold blank space.
pub open spec fn skip_ws(s: Seq<char>, i: int) -> int
    decreases s.len() - i,
{
    if 0 <= i < s.len() && is_ws_char(s[i]) {
        skip_ws(s, i + 1)
    } else {
        i
    }
}

/// What a backslash escape other than `\u` stands for.
pub open spec fn unescape_char(c: char) -> Option<char> {
    if c == '"' {
        Some('"')
    } else if c == '\\' {
        Some('\\')
    } else if c == '/' {
        Some('/')
    } else if c == 'n' {
        Some('\n')
    } else if c == 't' {
        Some('\t')
    } else if c == 'r' {
        Some('\r')
    } else if c == 'b' {
        Some('\u{8}')
    } else if c == 'f' {
        Some('\u{c}')
    } else {
        None
    }
}

/// String content from just after an opening quote to its closing quote:
/// the decoded characters and the position after the closing quote.
pub open spec fn sp_string_body(s: Seq<char>, i: int) -> Option<(Seq<char>, int)>
    decreases s.len() - i,
{
    if i < 0 || i >= s.len() {
        None
    } else if s[i] == '"' {
        Some((Seq::empty(), i + 1))
    } else if s[i] == '\\' {
        if i + 1 >= s.len() {
            None
        } else if s[i + 1] == 'u' {
            if i + 5 >= s.len() {
                None
            } else {
                let v = hex_val(s[i + 2]) * 4096 + hex_val(s[i + 3]) * 256 + hex_val(s[i + 4]) * 16
                    + hex_val(s[i + 5]);
                if hex_val(s[i + 2]) < 0 || hex_val(s[i + 3]) < 0 || hex_val(s[i + 4]) < 0
                    || hex_val(s[i + 5]) < 0 || v >= 256 {
                    None
                } else {
                    match sp_string_body(s, i + 6) {
                        None => None,
                        Some((rest, j)) => Some((seq![(v as u32) as char] + rest, j)),
                    }
                }
            }
        } else {
            match unescape_char(s[i + 1]) {
                None => None,
                Some(c) => match sp_string_body(s, i + 2) {
                    None => None,
                    Some((rest, j)) => Some((seq![c] + rest, j)),
                },
            }
        }
    } else {
        match sp_string_body(s, i + 1) {
            None => None,
            Some((rest, j)) => Some((seq![s[i]] + rest, j)),
        }
    }
}

/// A string token after optional blanks.
pub open spec fn sp_quoted(s: Seq<char>, i: int) -> Option<(Seq<char>, int)> {
    let j = skip_ws(s, i);
    if j < s.len() && s[j] == '"' {
        sp_string_body(s, j + 1)
    } else {
        None
    }
}

/// One expected punctuation character after optional blanks.
pub open spec fn sp_lit(s: Seq<char>, i: int, c: char) -> Option<int> {
    let j = skip_ws(s, i);
    if j < s.len() && s[j] == c {
        Some(j + 1)
    } else {
        None
    }
}

/// One `"key": "value"` pair with the given key.
pub open spec fn sp_kv(s: Seq<char>, i: int, key: Seq<char>) -> Option<(Seq<char>, int)> {
    match sp_quoted(s, i) {
        None => None,
        Some((k, i2)) => if k != key {
            None
        } else {
            match sp_lit(s, i2, ':') {
                None => None,
                Some(i3) => sp_quoted(s, i3),
            }
        },
    }
}

/// One favorites object: its three fields as character sequences.
pub open spec fn sp_entry(s: Seq<char>, i: int) -> Option<((Seq<char>, Seq<char>, Seq<char>), int)> {
    match sp_lit(s, i, '{') {
        None => None,
        Some(i1) => match sp_kv(s, i1, key_stationuuid()) {
            None => None,
            Some((su, i2)) => match sp_lit(s, i2, ',') {
                None => None,
                Some(i3) => match sp_kv(s, i3, key_name()) {
                    None => None,
                    Some((nm, i4)) => match sp_lit(s, i4, ',') {
                        None => None,
                        Some(i5) => match sp_kv(s, i5, key_url()) {
                            None => None,
                            Some((ur, i6)) => match sp_lit(s, i6, '}') {
                                None => None,
                                Some(i7) => Some(((su, nm, ur), i7)),
                            },
                        },
                    },
                },
            },
        },
    }
}

/// The objects after the first one: a comma and an object, repeated until
/// the closing bracket. `fuel` bounds the recursion and any value at least
/// the remaining length is enough.
pub open spec fn sp_rest(
    s: Seq<char>,
    i: int,
    acc: Seq<(Seq<char>, Seq<char>, Seq<char>)>,
    fuel: nat,
) -> Option<(Seq<(Seq<char>, Seq<char>, Seq<char>)>, int)>
    decreases fuel,
{
    if fuel == 0 {
        None
    } else {
        let j = skip_ws(s, i);
        if j < s.len() && s[j] == ']' {
            Some((acc, j + 1))
        } else if j < s.len() && s[j] == ',' {
            match sp_entry(s, j + 1) {
                None => None,
                Some((t, i2)) => sp_rest(s, i2, acc.push(t), (fuel - 1) as nat),
            }
        } else {
            None
        }
    }
}

/// A whole document: one array of favorites objects and nothing but
/// blanks after it.
pub open spec fn sp_favorites(s: Seq<char>) -> Option<Seq<(Seq<char>, Seq<char>, Seq<char>)>> {
    match sp_lit(s, 0, '[') {
        None => None,
        Some(i1) => {
            let j = skip_ws(s, i1);
            if j < s.len() && s[j] == ']' {
                if skip_ws(s, j + 1) == s.len() {
                    Some(Seq::empty())
                } else {
                    None
                }
            } else {
                match sp_entry(s, i1) {
                    None => None,
                    Some((t, i2)) => match sp_rest(s, i2, seq![t], s.len() + 1) {
                        None => None,
                        Some((ts, i3)) => if skip_ws(s, i3) == s.len() {
                            Some(ts)
                        } else {
                            None
                        },
                    },
                }
            }
        },
    }
}

/// First position at or after `i` without blank space.
fn ex_skip_ws(s: &Vec<char>, i: usize) -> (r: usize)
    requires
        i <= s@.len(),
    ensures
        r == skip_ws(s@, i as int),
        i <= r <= s@.len(),
{
    let mut k = i;
    while k < s.len() && (s[k] == ' ' || s[k] == '\t' || s[k] == '\n' || s[k] == '\r')
        invariant
            i <= k <= s@.len(),
            skip_ws(s@, i as int) == skip_ws(s@, k as int),
        decreases s@.len() - k,
    {
        k = k + 1;
    }
    k
}

/// The numeric value of a hexadecimal digit character, if it is one.
fn ex_hex_val(c: char) -> (r: Option<u8>)
    ensures
        match r {
            Some(v) => hex_val(c) == v as int,
            None => hex_val(c) < 0,
        },
{
    match c {
        '0' => Some(0),
        '1' => Some(1),
        '2' => Some(2),
        '3' => Some(3),
        '4' => Some(4),
        '5' => Some(5),
        '6' => Some(6),
        '7' => Some(7),
        '8' => Some(8),
        '9' => Some(9),
        'a' | 'A' => Some(10),
        'b' | 'B' => Some(11),
        'c' | 'C' => Some(12),
        'd' | 'D' => Some(13),
        'e' | 'E' => Some(14),
        'f' | 'F' => Some(15),
        _ => None,
    }
}

/// String content from just after an opening quote.
fn ex_string_body(s: &Vec<char>, i: usize) -> (r: Option<(Vec<char>, usize)>)
    requires
        i <= s@.len(),
    ensures
        match r {
            Some(p) => sp_string_body(s@, i as int) == Some((p.0@, p.1 as int)) && i < p.1
                <= s@.len(),
            None => sp_string_body(s@, i as int) is None,
        },
    decreases s@.len() - i,
{
    if i >= s.len() {
        return None;
    }
    let c = s[i];
    if c == '"' {
        return Some((Vec::new(), i + 1));
    }
    if c == '\\' {
        if i + 1 >= s.len() {
            return None;
        }
        let e = s[i + 1];
        if e == 'u' {
            if s.len() - i <= 5 {
                assert(i + 5 >= s@.len());
                return None;
            }
            assert(i + 5 < s@.len());
            let h1 = ex_hex_val(s[i + 2]);
            let h2 = ex_hex_val(s[i + 3]);
            let h3 = ex_hex_val(s[i + 4]);
            let h4 = ex_hex_val(s[i + 5]);
            match (h1, h2, h3, h4) {
                (Some(a), Some(b), Some(cc), Some(d)) => {
                    let v: u32 = (a as u32) * 4096 + (b as u32) * 256 + (cc as u32) * 16 + (
                    d as u32);
                    if v >= 256 {
                        return None;
                    }
                    let ch = (v as u8) as char;
                    assert(ch as u32 == v);
                    proof {
                        vstd::utf8::char_u32_cast(ch, v);
                    }
                    match ex_string_body(s, i + 6) {
                        None => None,
                        Some((rest, j)) => {
                            let mut out: Vec<char> = Vec::new();
                            out.push(ch);
                            let mut rest = rest;
                            out.append(&mut rest);
                            assert(out@ =~= seq![(v as u32) as char] + out@.skip(1));
                            Some((out, j))
                        },
                    }
                },
                _ => None,
            }
        } else {
            let dec: Option<char> = match e {
                '"' => Some('"'),
                '\\' => Some('\\'),
                '/' => Some('/'),
                'n' => Some('\n'),
                't' => Some('\t'),
                'r' => Some('\r'),
                'b' => Some('\u{8}'),
                'f' => Some('\u{c}'),
                _ => None,
            };
            assert(dec == unescape_char(e));
            match dec {
                None => None,
                Some(d) => match ex_string_body(s, i + 2) {
                    None => None,
                    Some((rest, j)) => {
                        let mut out: Vec<char> = Vec::new();
                        out.push(d);
                        let mut rest = rest;
                        out.append(&mut rest);
                        assert(out@ =~= seq![d] + out@.skip(1));
                        Some((out, j))
                    },
                },
            }
        }
    } else {
        match ex_string_body(s, i + 1) {
            None => None,
            Some((rest, j)) => {
                let mut out: Vec<char> = Vec::new();
                out.push(c);
                let mut rest = rest;
                out.append(&mut rest);
                assert(out@ =~= seq![c] + out@.skip(1));
                Some((out, j))
            },
        }
    }
}

/// A string token after optional blanks.
fn ex_quoted(s: &Vec<char>, i: usize) -> (r: Option<(Vec<char>, usize)>)
    requires
        i <= s@.len(),
    ensures
        match r {
            Some(p) => sp_quoted(s@, i as int) == Some((p.0@, p.1 as int)) && i < p.1 <= s@.len(),
            None => sp_quoted(s@, i as int) is None,
        },
{
    let j = ex_skip_ws(s, i);
    if j < s.len() && s[j] == '"' {
        ex_string_body(s, j + 1)
    } else {
        None
    }
}

/// One expected punctuation character after optional blanks.
fn ex_lit(s: &Vec<char>, i: usize, c: char) -> (r: Option<usize>)
    requires
        i <= s@.len(),
    ensures
        match r {
            Some(j) => sp_lit(s@, i as int, c) == Some(j as int) && i < j <= s@.len(),
            None => sp_lit(s@, i as int, c) is None,
        },
{
    let j = ex_skip_ws(s, i);
    if j < s.len() && s[j] == c {
        Some(j + 1)
    } else {
        None
    }
}

/// One `"key": "value"` pair with the given key.
fn ex_kv(s: &Vec<char>, i: usize, key: &str) -> (r: Option<(String, usize)>)
    requires
        i <= s@.len(),
    ensures
        match r {
            Some(p) => sp_kv(s@, i as int, key@) == Some((p.0@, p.1 as int)) && i < p.1
                <= s@.len(),
            None => sp_kv(s@, i as int, key@) is None,
        },
{
    match ex_quoted(s, i) {
        None => None,
        Some((k, i2)) => {
            let ks = crate::strutil::chars_to_string(&k);
            if !crate::strutil::str_eq(ks.as_str(), key) {
                return None;
            }
            match ex_lit(s, i2, ':') {
                None => None,
                Some(i3) => match ex_quoted(s, i3) {
                    None => None,
                    Some((v, i4)) => Some((crate::strutil::chars_to_string(&v), i4)),
                },
            }
        },
    }
}

/// One favorites object, rebuilt as an entry.
fn ex_entry(s: &Vec<char>, i: usize) -> (r: Option<(FavoriteEntry, usize)>)
    requires
        i <= s@.len(),
    ensures
        match r {
            Some(p) => sp_entry(s@, i as int) == Some(
                ((p.0.stationuuid@, p.0.name@, p.0.url@), p.1 as int),
            ) && i < p.1 <= s@.len(),
            None => sp_entry(s@, i as int) is None,
        },
{
    proof {
        reveal_strlit("stationuuid");
        reveal_strlit("name");
        reveal_strlit("url");
        assert("stationuuid"@ =~= key_stationuuid());
        assert("name"@ =~= key_name());
        assert("url"@ =~= key_url());
    }
    match ex_lit(s, i, '{') {
        None => None,
        Some(i1) => match ex_kv(s, i1, "stationuuid") {
            None => None,
            Some((su, i2)) => match ex_lit(s, i2, ',') {
                None => None,
                Some(i3) => match ex_kv(s, i3, "name") {
                    None => None,
                    Some((nm, i4)) => match ex_lit(s, i4, ',') {
                        None => None,
                        Some(i5) => match ex_kv(s, i5, "url") {
                            None => None,
                            Some((ur, i6)) => match ex_lit(s, i6, '}') {
                                None => None,
                                Some(i7) => Some(
                                    (FavoriteEntry { stationuuid: su, name: nm, url: ur }, i7),
                                ),
                            },
                        },
                    },
                },
            },
        },
    }
}

/// The objects after the first one, recursively, exactly as the
/// specification reads them.
fn ex_rest(s: &Vec<char>, i: usize, acc: Vec<FavoriteEntry>, Ghost(fuel): Ghost<nat>) -> (r:
    Option<(Vec<FavoriteEntry>, usize)>)
    requires
        i <= s@.len(),
        fuel > s@.len() - i,
    ensures
        match r {
            Some(p) => sp_rest(s@, i as int, entry_views(acc@), fuel) == Some(
                (entry_views(p.0@), p.1 as int),
            ) && p.1 <= s@.len(),
            None => sp_rest(s@, i as int, entry_views(acc@), fuel) is None,
        },
    decreases fuel,
{
    let j = ex_skip_ws(s, i);
    if j < s.len() && s[j] == ']' {
        Some((acc, j + 1))
    } else if j < s.len() && s[j] == ',' {
        match ex_entry(s, j + 1) {
            None => None,
            Some((t, i2)) => {
                let mut acc = acc;
                let ghost old_acc = acc@;
                acc.push(t);
                proof {
                    assert(entry_views(acc@) =~= entry_views(old_acc).push(
                        (t.stationuuid@, t.name@, t.url@),
                    ));
                }
                ex_rest(s, i2, acc, Ghost((fuel - 1) as nat))
            },
        }
    } else {
        None
    }
}

/// A whole document read back: the favorites array, or nothing when the
/// text is not a well-formed favorites document.
pub fn parse_favorites(text: &str) -> (r: Option<Vec<FavoriteEntry>>)
    ensures
        match r {
            Some(v) => sp_favorites(text@) == Some(entry_views(v@)),
            None => sp_favorites(text@) is None,
        },
{
    let s = crate::strutil::str_to_chars(text);
    match ex_lit(&s, 0, '[') {
        None => None,
        Some(i1) => {
            let j = ex_skip_ws(&s, i1);
            if j < s.len() && s[j] == ']' {
                if ex_skip_ws(&s, j + 1) == s.len() {
                    let out: Vec<FavoriteEntry> = Vec::new();
                    assert(entry_views(out@) =~= Seq::<(Seq<char>, Seq<char>, Seq<char>)>::empty());
                    Some(out)
                } else {
                    None
                }
            } else {
                match ex_entry(&s, i1) {
                    None => None,
                    Some((t, i2)) => {
                        let mut first: Vec<FavoriteEntry> = Vec::new();
                        first.push(t);
                        assert(entry_views(first@) =~= seq![
                            (first@[0].stationuuid@, first@[0].name@, first@[0].url@),
                        ]);
                        match ex_rest(&s, i2, first, Ghost((s@.len() + 1) as nat)) {
                            None => None,
                            Some((ts, i3)) => {
                                if ex_skip_ws(&s, i3) == s.len() {
                                    Some(ts)
                                } else {
                                    None
                                }
                            },
                        }
                    },
                }
            }
        },
    }
}

/// The three views of each entry, in order.
pub open spec fn entry_views(es: Seq<FavoriteEntry>) -> Seq<(Seq<char>, Seq<char>, Seq<char>)> {
    es.map_values(|e: FavoriteEntry| (e.stationuuid@, e.name@, e.url@))
}

/// An escaped string can also be peeled off the front.
proof fn lemma_esc_first(x: Seq<char>)
    requires
        x.len() > 0,
    ensures
        esc_string(x) == esc_char(x[0]) + esc_string(x.drop_first()),
    decreases x.len(),
{
    if x.len() == 1 {
        assert(x.drop_last() =~= Seq::<char>::empty());
        assert(x.drop_first() =~= Seq::<char>::empty());
        assert(esc_string(x) =~= esc_char(x[0]) + esc_string(x.drop_first()));
    } else {
        lemma_esc_first(x.drop_last());
        assert(x.drop_last()[0] == x[0]);
        assert(x.drop_last().drop_first() =~= x.drop_first().drop_last());
        assert(x.drop_first().last() == x.last());
        assert(esc_string(x) == esc_string(x.drop_last()) + esc_char(x.last()));
        assert(esc_string(x.drop_first()) == esc_string(x.drop_first().drop_last()) + esc_char(
            x.last(),
        ));
        assert(esc_string(x) =~= esc_char(x[0]) + esc_string(x.drop_first()));
    }
}

/// Reading string content back from its escaped form recovers exactly the
/// original characters and stops right after the closing quote.
proof fn lemma_string_body_rt(x: Seq<char>, pre: Seq<char>, suf: Seq<char>)
    ensures
        sp_string_body(pre + esc_string(x) + seq!['"'] + suf, pre.len() as int) == Some(
            (x, (pre.len() + esc_string(x).len() + 1) as int),
        ),
    decreases x.len(),
{
    let s = pre + esc_string(x) + seq!['"'] + suf;
    let i = pre.len() as int;
    if x.len() == 0 {
        assert(s[i] == '"');
        assert(x =~= Seq::<char>::empty());
    } else {
        let c = x[0];
        let x2 = x.drop_first();
        lemma_esc_first(x);
        let pre2 = pre + esc_char(c);
        lemma_string_body_rt(x2, pre2, suf);
        assert(s =~= pre2 + esc_string(x2) + seq!['"'] + suf);
        assert(esc_string(x).len() == esc_char(c).len() + esc_string(x2).len());
        let inner = sp_string_body(s, pre2.len() as int);
        assert(inner == Some((x2, (pre2.len() + esc_string(x2).len() + 1) as int)));
        if c == '"' {
            assert(s[i] == '\\' && s[i + 1] == '"');
            assert(pre2.len() == i + 2);
            assert(seq![c] + x2 =~= x);
        } else if c == '\\' {
            assert(s[i] == '\\' && s[i + 1] == '\\');
            assert(pre2.len() == i + 2);
            assert(seq![c] + x2 =~= x);
        } else if (c as u32) < 32 {
            assert(s[i] == '\\' && s[i + 1] == 'u');
            assert(s[i + 2] == '0' && s[i + 3] == '0');
            assert(s[i + 4] == hex_char((c as u32) as int / 16));
            assert(s[i + 5] == hex_char((c as u32) as int % 16));
            assert(hex_val(hex_char((c as u32) as int / 16)) == (c as u32) as int / 16);
            assert(hex_val(hex_char((c as u32) as int % 16)) == (c as u32) as int % 16);
            let v = hex_val(s[i + 2]) * 4096 + hex_val(s[i + 3]) * 256 + hex_val(s[i + 4]) * 16
                + hex_val(s[i + 5]);
            assert(v == (c as u32) as int);
            assert(v < 256);
            assert(pre2.len() == i + 6);
            vstd::utf8::char_u32_cast(c, c as u32);
            assert((v as u32) as char == c);
            assert(seq![c] + x2 =~= x);
        } else {
            assert(s[i] == c);
            assert(pre2.len() == i + 1);
            assert(seq![c] + x2 =~= x);
        }
    }
}

/// Reading a written string token back recovers the original text.
proof fn lemma_quoted_rt(x: Seq<char>, pre: Seq<char>, suf: Seq<char>)
    ensures
        sp_quoted(pre + quoted(x) + suf, pre.len() as int) == Some(
            (x, (pre.len() + quoted(x).len()) as int),
        ),
{
    reveal(quoted);
    let s = pre + quoted(x) + suf;
    let i = pre.len() as int;
    assert(s[i] == '"');
    assert(skip_ws(s, i) == i);
    let pre2 = pre + seq!['"'];
    assert(s =~= pre2 + esc_string(x) + seq!['"'] + suf);
    lemma_string_body_rt(x, pre2, suf);
    assert(sp_string_body(s, i + 1) == Some((x, (pre2.len() + esc_string(x).len() + 1) as int)));
    assert(quoted(x).len() == esc_string(x).len() + 2);
}

/// Reading a written punctuation character back consumes exactly it.
proof fn lemma_lit_rt(c: char, pre: Seq<char>, suf: Seq<char>)
    requires
        !is_ws_char(c),
    ensures
        sp_lit(pre + seq![c] + suf, pre.len() as int, c) == Some((pre.len() + 1) as int),
{
    let s = pre + seq![c] + suf;
    let i = pre.len() as int;
    assert(s[i] == c);
    assert(skip_ws(s, i) == i);
}

/// Reading a written key-value pair back recovers the value.
proof fn lemma_kv_rt(key: Seq<char>, val: Seq<char>, pre: Seq<char>, suf: Seq<char>)
    ensures
        sp_kv(pre + quoted(key) + seq![':'] + quoted(val) + suf, pre.len() as int, key) == Some(
            (val, (pre.len() + quoted(key).len() + 1 + quoted(val).len()) as int),
        ),
{
    let s = pre + quoted(key) + seq![':'] + quoted(val) + suf;
    assert(s =~= pre + quoted(key) + (seq![':'] + quoted(val) + suf));
    lemma_quoted_rt(key, pre, seq![':'] + quoted(val) + suf);
    let p1 = pre + quoted(key);
    assert(s =~= p1 + seq![':'] + (quoted(val) + suf));
    lemma_lit_rt(':', p1, quoted(val) + suf);
    let p2 = p1 + seq![':'];
    assert(s =~= p2 + quoted(val) + suf);
    lemma_quoted_rt(val, p2, suf);
}

/// Reading a written key-value pair and its trailing comma.
#[verifier::rlimit(100)]
#[verifier::spinoff_prover]
proof fn lemma_kv_comma_rt(key: Seq<char>, val: Seq<char>, pre: Seq<char>, suf: Seq<char>)
    ensures
        ({
            let s = pre + quoted(key) + seq![':'] + quoted(val) + seq![','] + suf;
            let p = (pre.len() + quoted(key).len() + 1 + quoted(val).len()) as int;
            sp_kv(s, pre.len() as int, key) == Some((val, p)) && sp_lit(s, p, ',') == Some(p + 1)
        }),
{
    let s = pre + quoted(key) + seq![':'] + quoted(val) + seq![','] + suf;
    assert(s =~= pre + quoted(key) + seq![':'] + quoted(val) + (seq![','] + suf));
    lemma_kv_rt(key, val, pre, seq![','] + suf);
    let p6 = pre + quoted(key) + seq![':'] + quoted(val);
    assert(s =~= p6 + seq![','] + suf);
    lemma_lit_rt(',', p6, suf);
}

/// The written object, regrouped for the opening brace.
#[verifier::rlimit(100)]
#[verifier::spinoff_prover]
proof fn lemma_entry_shape1(su: Seq<char>, nm: Seq<char>, ur: Seq<char>, pre: Seq<char>, suf: Seq<char>)
    ensures
        pre + entry_json(su, nm, ur) + suf == pre + seq!['{'] + ((quoted(key_stationuuid())
            + seq![':'] + quoted(su)) + seq![','] + (quoted(key_name()) + seq![':'] + quoted(nm))
            + seq![','] + (quoted(key_url()) + seq![':'] + quoted(ur)) + seq!['}'] + suf),
{
    reveal(entry_json);
    assert(pre + entry_json(su, nm, ur) + suf =~= pre + seq!['{'] + ((quoted(key_stationuuid())
        + seq![':'] + quoted(su)) + seq![','] + (quoted(key_name()) + seq![':'] + quoted(nm))
        + seq![','] + (quoted(key_url()) + seq![':'] + quoted(ur)) + seq!['}'] + suf));
}

/// The written object, regrouped for the first field.
#[verifier::rlimit(100)]
#[verifier::spinoff_prover]
proof fn lemma_entry_shape2(su: Seq<char>, nm: Seq<char>, ur: Seq<char>, pre: Seq<char>, suf: Seq<char>)
    ensures
        pre + entry_json(su, nm, ur) + suf == (pre + seq!['{']) + quoted(key_stationuuid())
            + seq![':'] + quoted(su) + seq![','] + ((quoted(key_name()) + seq![':'] + quoted(nm))
            + seq![','] + (quoted(key_url()) + seq![':'] + quoted(ur)) + seq!['}'] + suf),
{
    reveal(entry_json);
    assert(pre + entry_json(su, nm, ur) + suf =~= (pre + seq!['{']) + quoted(key_stationuuid())
        + seq![':'] + quoted(su) + seq![','] + ((quoted(key_name()) + seq![':'] + quoted(nm))
        + seq![','] + (quoted(key_url()) + seq![':'] + quoted(ur)) + seq!['}'] + suf));
}

/// The written object, regrouped for the second field.
#[verifier::rlimit(100)]
#[verifier::spinoff_prover]
proof fn lemma_entry_shape3(su: Seq<char>, nm: Seq<char>, ur: Seq<char>, pre: Seq<char>, suf: Seq<char>)
    ensures
        pre + entry_json(su, nm, ur) + suf == (pre + seq!['{'] + (quoted(key_stationuuid())
            + seq![':'] + quoted(su)) + seq![',']) + quoted(key_name()) + seq![':'] + quoted(nm)
            + seq![','] + ((quoted(key_url()) + seq![':'] + quoted(ur)) + seq!['}'] + suf),
{
    reveal(entry_json);
    assert(pre + entry_json(su, nm, ur) + suf =~= (pre + seq!['{'] + (quoted(key_stationuuid())
        + seq![':'] + quoted(su)) + seq![',']) + quoted(key_name()) + seq![':'] + quoted(nm)
        + seq![','] + ((quoted(key_url()) + seq![':'] + quoted(ur)) + seq!['}'] + suf));
}

/// The written object, regrouped for the third field.
#[verifier::rlimit(100)]
#[verifier::spinoff_prover]
proof fn lemma_entry_shape4(su: Seq<char>, nm: Seq<char>, ur: Seq<char>, pre: Seq<char>, suf: Seq<char>)
    ensures
        pre + entry_json(su, nm, ur) + suf == (pre + seq!['{'] + (quoted(key_stationuuid())
            + seq![':'] + quoted(su)) + seq![','] + (quoted(key_name()) + seq![':'] + quoted(nm))
            + seq![',']) + quoted(key_url()) + seq![':'] + quoted(ur) + (seq!['}'] + suf),
{
    reveal(entry_json);
    assert(pre + entry_json(su, nm, ur) + suf =~= (pre + seq!['{'] + (quoted(key_stationuuid())
        + seq![':'] + quoted(su)) + seq![','] + (quoted(key_name()) + seq![':'] + quoted(nm))
        + seq![',']) + quoted(key_url()) + seq![':'] + quoted(ur) + (seq!['}'] + suf));
}

/// The written object, regrouped for the closing brace.
#[verifier::rlimit(100)]
#[verifier::spinoff_prover]
proof fn lemma_entry_shape5(su: Seq<char>, nm: Seq<char>, ur: Seq<char>, pre: Seq<char>, suf: Seq<char>)
    ensures
        pre + entry_json(su, nm, ur) + suf == (pre + seq!['{'] + (quoted(key_stationuuid())
            + seq![':'] + quoted(su)) + seq![','] + (quoted(key_name()) + seq![':'] + quoted(nm))
            + seq![','] + (quoted(key_url()) + seq![':'] + quoted(ur))) + seq!['}'] + suf,
{
    reveal(entry_json);
    assert(pre + entry_json(su, nm, ur) + suf =~= (pre + seq!['{'] + (quoted(key_stationuuid())
        + seq![':'] + quoted(su)) + seq![','] + (quoted(key_name()) + seq![':'] + quoted(nm))
        + seq![','] + (quoted(key_url()) + seq![':'] + quoted(ur))) + seq!['}'] + suf);
}

/// The written object's length is the sum of its parts.
#[verifier::rlimit(100)]
#[verifier::spinoff_prover]
proof fn lemma_entry_json_len(su: Seq<char>, nm: Seq<char>, ur: Seq<char>)
    ensures
        entry_json(su, nm, ur).len() == 1 + (quoted(key_stationuuid()) + seq![':'] + quoted(
            su,
        )).len() + 1 + (quoted(key_name()) + seq![':'] + quoted(nm)).len() + 1 + (quoted(key_url())
            + seq![':'] + quoted(ur)).len() + 1,
{
    reveal(entry_json);
}

/// Reading a written favorites object back recovers its three fields.
#[verifier::rlimit(100)]
#[verifier::spinoff_prover]
proof fn lemma_entry_rt(su: Seq<char>, nm: Seq<char>, ur: Seq<char>, pre: Seq<char>, suf: Seq<
    char,
>)
    ensures
        sp_entry(pre + entry_json(su, nm, ur) + suf, pre.len() as int) == Some(
            ((su, nm, ur), (pre.len() + entry_json(su, nm, ur).len()) as int),
        ),
{
    let kv1 = quoted(key_stationuuid()) + seq![':'] + quoted(su);
    let kv2 = quoted(key_name()) + seq![':'] + quoted(nm);
    let kv3 = quoted(key_url()) + seq![':'] + quoted(ur);
    lemma_entry_shape1(su, nm, ur, pre, suf);
    lemma_lit_rt('{', pre, kv1 + seq![','] + kv2 + seq![','] + kv3 + seq!['}'] + suf);
    lemma_entry_shape2(su, nm, ur, pre, suf);
    lemma_kv_comma_rt(key_stationuuid(), su, pre + seq!['{'], kv2 + seq![','] + kv3 + seq!['}']
        + suf);
    lemma_entry_shape3(su, nm, ur, pre, suf);
    lemma_kv_comma_rt(key_name(), nm, pre + seq!['{'] + kv1 + seq![','], kv3 + seq!['}'] + suf);
    lemma_entry_shape4(su, nm, ur, pre, suf);
    lemma_kv_rt(key_url(), ur, pre + seq!['{'] + kv1 + seq![','] + kv2 + seq![','], seq!['}']
        + suf);
    lemma_entry_shape5(su, nm, ur, pre, suf);
    lemma_lit_rt('}', pre + seq!['{'] + kv1 + seq![','] + kv2 + seq![','] + kv3, suf);
    lemma_entry_json_len(su, nm, ur);
}

/// The objects after the first, written front to back.
pub open spec fn tail_json(es: Seq<FavoriteEntry>) -> Seq<char>
    decreases es.len(),
{
    if es.len() == 0 {
        Seq::empty()
    } else {
        seq![','] + entry_json(es[0].stationuuid@, es[0].name@, es[0].url@) + tail_json(
            es.drop_first(),
        )
    }
}

/// Appending one entry extends the written tail by a comma and that
/// object.
proof fn lemma_tail_snoc(es: Seq<FavoriteEntry>, e: FavoriteEntry)
    ensures
        tail_json(es.push(e)) == tail_json(es) + seq![','] + entry_json(
            e.stationuuid@,
            e.name@,
            e.url@,
        ),
    decreases es.len(),
{
    if es.len() == 0 {
        assert(es.push(e)[0] == e);
        assert(es.push(e).drop_first() =~= Seq::<FavoriteEntry>::empty());
        assert(tail_json(es.push(e).drop_first()) == Seq::<char>::empty());
        assert(tail_json(es.push(e)) == seq![','] + entry_json(e.stationuuid@, e.name@, e.url@)
            + tail_json(es.push(e).drop_first()));
        assert(tail_json(es) == Seq::<char>::empty());
        assert(tail_json(es.push(e)) =~= tail_json(es) + seq![','] + entry_json(
            e.stationuuid@,
            e.name@,
            e.url@,
        ));
    } else {
        assert(es.push(e).drop_first() =~= es.drop_first().push(e));
        lemma_tail_snoc(es.drop_first(), e);
        assert(es.push(e)[0] == es[0]);
        assert(tail_json(es.push(e)) =~= tail_json(es) + seq![','] + entry_json(
            e.stationuuid@,
            e.name@,
            e.url@,
        ));
    }
}

/// The written array body splits into its first object and the rest.
proof fn lemma_entries_split(es: Seq<FavoriteEntry>)
    requires
        es.len() > 0,
    ensures
        entries_json(es) == entry_json(es[0].stationuuid@, es[0].name@, es[0].url@) + tail_json(
            es.drop_first(),
        ),
    decreases es.len(),
{
    if es.len() == 1 {
        assert(es.drop_first() =~= Seq::<FavoriteEntry>::empty());
        assert(entries_json(es) =~= entry_json(es[0].stationuuid@, es[0].name@, es[0].url@)
            + tail_json(es.drop_first()));
    } else {
        let dl = es.drop_last();
        lemma_entries_split(dl);
        assert(dl[0] == es[0]);
        assert(es.drop_first() =~= dl.drop_first().push(es.last()));
        lemma_tail_snoc(dl.drop_first(), es.last());
        assert(entries_json(es) == entries_json(dl) + seq![','] + entry_json(
            es.last().stationuuid@,
            es.last().name@,
            es.last().url@,
        ));
        assert(entries_json(es) =~= entry_json(es[0].stationuuid@, es[0].name@, es[0].url@)
            + tail_json(es.drop_first()));
    }
}

/// Each written object takes at least one character.
proof fn lemma_entries_json_len(es: Seq<FavoriteEntry>)
    ensures
        entries_json(es).len() >= es.len(),
    decreases es.len(),
{
    reveal(entry_json);
    if es.len() > 1 {
        lemma_entries_json_len(es.drop_last());
    }
}

/// Reading the written tail back appends exactly the remaining entries.
#[verifier::rlimit(100)]
proof fn lemma_rest_rt(
    es: Seq<FavoriteEntry>,
    acc: Seq<(Seq<char>, Seq<char>, Seq<char>)>,
    pre: Seq<char>,
    fuel: nat,
)
    requires
        fuel > es.len(),
    ensures
        sp_rest(pre + tail_json(es) + seq![']'], pre.len() as int, acc, fuel) == Some(
            (acc + entry_views(es), (pre.len() + tail_json(es).len() + 1) as int),
        ),
    decreases es.len(),
{
    let s = pre + tail_json(es) + seq![']'];
    let i = pre.len() as int;
    if es.len() == 0 {
        assert(s[i] == ']');
        assert(skip_ws(s, i) == i);
        assert(acc + entry_views(es) =~= acc);
    } else {
        let e0 = es[0];
        let ej = entry_json(e0.stationuuid@, e0.name@, e0.url@);
        assert(tail_json(es) == seq![','] + ej + tail_json(es.drop_first()));
        assert(s =~= pre + seq![','] + (ej + tail_json(es.drop_first()) + seq![']']));
        assert(s[i] == ',');
        assert(skip_ws(s, i) == i);
        let p1 = pre + seq![','];
        assert(s =~= p1 + ej + (tail_json(es.drop_first()) + seq![']']));
        lemma_entry_rt(
            e0.stationuuid@,
            e0.name@,
            e0.url@,
            p1,
            tail_json(es.drop_first()) + seq![']'],
        );
        let p2 = p1 + ej;
        assert(s =~= p2 + tail_json(es.drop_first()) + seq![']']);
        lemma_rest_rt(
            es.drop_first(),
            acc.push((e0.stationuuid@, e0.name@, e0.url@)),
            p2,
            (fuel - 1) as nat,
        );
        assert(acc.push((e0.stationuuid@, e0.name@, e0.url@)) + entry_views(es.drop_first())
            =~= acc + entry_views(es)) by {
            assert(entry_views(es)[0] == (e0.stationuuid@, e0.name@, e0.url@));
            assert forall|k: int|
                0 <= k < es.drop_first().len() implies entry_views(es.drop_first())[k]
                == entry_views(es)[k + 1] by {
                assert(es.drop_first()[k] == es[k + 1]);
            }
        }
    }
}

/// Law, codec half of the persisted round trip: reading a written
/// favorites document back yields exactly the entries that were written,
/// field for field.
#[verifier::rlimit(100)]
pub proof fn lemma_codec_round_trip(es: Seq<FavoriteEntry>)
    ensures
        sp_favorites(favorites_json(es)) == Some(entry_views(es)),
{
    reveal(entry_json);
    let s = favorites_json(es);
    assert(s =~= Seq::<char>::empty() + seq!['['] + (entries_json(es) + seq![']']));
    lemma_lit_rt('[', Seq::empty(), entries_json(es) + seq![']']);
    assert(sp_lit(s, 0, '[') == Some(1int));
    if es.len() == 0 {
        assert(s =~= seq!['[', ']']);
        assert(s[1] == ']');
        assert(skip_ws(s, 1) == 1);
        assert(skip_ws(s, 2) == 2);
        assert(entry_views(es) =~= Seq::<(Seq<char>, Seq<char>, Seq<char>)>::empty());
    } else {
        let e0 = es[0];
        let ej = entry_json(e0.stationuuid@, e0.name@, e0.url@);
        lemma_entries_split(es);
        let p1 = seq!['['];
        assert(s =~= p1 + ej + (tail_json(es.drop_first()) + seq![']']));
        assert(s[1] == ej[0]);
        assert(ej[0] == '{');
        assert(skip_ws(s, 1) == 1);
        lemma_entry_rt(
            e0.stationuuid@,
            e0.name@,
            e0.url@,
            p1,
            tail_json(es.drop_first()) + seq![']'],
        );
        let p2 = p1 + ej;
        assert(s =~= p2 + tail_json(es.drop_first()) + seq![']']);
        lemma_entries_json_len(es);
        assert(s.len() + 1 > es.drop_first().len());
        lemma_rest_rt(
            es.drop_first(),
            seq![(e0.stationuuid@, e0.name@, e0.url@)],
            p2,
            s.len() + 1,
        );
        assert(p2.len() + tail_json(es.drop_first()).len() + 1 == s.len());
        assert(skip_ws(s, s.len() as int) == s.len());
        assert(seq![(e0.stationuuid@, e0.name@, e0.url@)] + entry_views(es.drop_first())
            =~= entry_views(es)) by {
            assert(entry_views(es)[0] == (e0.stationuuid@, e0.name@, e0.url@));
            assert forall|k: int|
                0 <= k < es.drop_first().len() implies entry_views(es.drop_first())[k]
                == entry_views(es)[k + 1] by {
                assert(es.drop_first()[k] == es[k + 1]);
            }
        }
    }
}

} // verus!
