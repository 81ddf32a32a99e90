//! Settings read at start-up and per response: the cache policy of a path,
//! the file a SQLite database address names, and the port to listen on.

use vstd::prelude::*;
use crate::text::{chars_of, spec_starts_with, starts_with, str_eq, string_of_range};

verus! {

pub const CACHE_IMMUTABLE: &'static str = "public, max-age=31536000, immutable";
pub const CACHE_NO_STORE: &'static str = "no-store";
pub const CACHE_NO_CACHE: &'static str = "no-cache";

/// The `Cache-Control` value for a request path: built assets are cached
/// for a year, the API and the health check are never stored, everything
/// else is revalidated.
pub open spec fn spec_cache_control(path: Seq<char>) -> Seq<char> {
    if spec_starts_with(path, "/assets/"@) {
        CACHE_IMMUTABLE@
    } else if spec_starts_with(path, "/api/"@) || path == "/health"@ {
        CACHE_NO_STORE@
    } else {
        CACHE_NO_CACHE@
    }
}

/// The `Cache-Control` value for a request path.
pub fn cache_control(path: &str) -> (value: &'static str)
    ensures
        value@ == spec_cache_control(path@),
{
    if starts_with(path, "/assets/") {
        CACHE_IMMUTABLE
    } else if starts_with(path, "/api/") || str_eq(path, "/health") {
        CACHE_NO_STORE
    } else {
        CACHE_NO_CACHE
    }
}

/// Every API path and the health check are never stored, built assets
/// are kept for a year, and every other path is revalidated: for any path,
/// one beginning with "/api/" gets "no-store", "/health" gets "no-store",
/// one beginning with "/assets/" gets the immutable one-year policy, and
/// any other gets "no-cache".
pub proof fn lemma_cache_policy(path: Seq<char>)
    ensures
        path.len() >= 5 && path.take(5) == "/api/"@ ==> spec_cache_control(path) == "no-store"@,
        path == "/health"@ ==> spec_cache_control(path) == "no-store"@,
        path.len() >= 8 && path.take(8) == "/assets/"@
            ==> spec_cache_control(path) == "public, max-age=31536000, immutable"@,
        !(path.len() >= 5 && path.take(5) == "/api/"@) && path != "/health"@
            && !(path.len() >= 8 && path.take(8) == "/assets/"@) ==> spec_cache_control(path) == "no-cache"@,
{
    reveal_strlit("/api/");
    reveal_strlit("/assets/");
    reveal_strlit("/health");
    if path.len() >= 5 && path.take(5) == "/api/"@ {
        assert(path[2] == path.take(5)[2]);
        if path.len() >= 8 {
            assert(path[2] == path.take(8)[2]);
        }
    }
}

/// `s` up to, not including, its first `c` (all of `s` when there is none).
pub open spec fn before_char(s: Seq<char>, c: char) -> Seq<char>
    decreases s.len(),
{
    if s.len() == 0 {
        s
    } else if s[0] == c {
        Seq::empty()
    } else {
        seq![s[0]] + before_char(s.drop_first(), c)
    }
}

/// What precedes a database file path in a SQLite address.
pub open spec fn sqlite_scheme() -> Seq<char> {
    seq!['s', 'q', 'l', 'i', 't', 'e', ':', '/', '/']
}

/// The file path a `sqlite://` database address names: the text after the
/// scheme, up to any `?` that starts the options.
pub open spec fn spec_sqlite_file_path(url: Seq<char>) -> Option<Seq<char>> {
    if spec_starts_with(url, sqlite_scheme()) {
        Some(before_char(url.skip(sqlite_scheme().len() as int), '?'))
    } else {
        None
    }
}

proof fn lemma_before_char_index(s: Seq<char>, c: char, k: int)
    requires
        0 <= k <= s.len(),
        forall|j: int| 0 <= j < k ==> s[j] != c,
        k == s.len() || s[k] == c,
    ensures
        before_char(s, c) == s.take(k),
    decreases s.len(),
{
    if s.len() > 0 && s[0] != c {
        assert forall|j: int| 0 <= j < k - 1 implies s.drop_first()[j] != c by {
            assert(s.drop_first()[j] == s[j + 1]);
        }
        lemma_before_char_index(s.drop_first(), c, k - 1);
        assert(seq![s[0]] + s.drop_first().take(k - 1) =~= s.take(k));
    }
}

/// The file path of a SQLite database address, or `None` when the address
/// is not a `sqlite://` one.
pub fn sqlite_file_path(url: &str) -> (path: Option<String>)
    ensures
        match path {
            Some(p) => spec_sqlite_file_path(url@) == Some(p@),
            None => spec_sqlite_file_path(url@) is None,
        },
{
    proof {
        reveal_strlit("sqlite://");
        assert("sqlite://"@ =~= sqlite_scheme());
    }
    if !starts_with(url, "sqlite://") {
        return None;
    }
    let chars = chars_of(url);
    let mut k: usize = 9;
    while k < chars.len() && chars[k] != '?'
        invariant
            9 <= k <= chars.len(),
            chars@ == url@,
            forall|j: int| 9 <= j < k ==> chars@[j] != '?',
        decreases chars.len() - k,
    {
        k = k + 1;
    }
    proof {
        let rest = url@.skip(9);
        assert forall|j: int| 0 <= j < k - 9 implies rest[j] != '?' by {
            assert(rest[j] == chars@[j + 9]);
        }
        lemma_before_char_index(rest, '?', k - 9);
        assert(rest.take(k - 9) =~= chars@.subrange(9, k as int));
    }
    Some(string_of_range(chars.as_slice(), 9, k))
}

/// The port used when none is configured.
pub const DEFAULT_PORT: u16 = 8080;

/// Whether `c` is an ASCII decimal digit.
pub open spec fn is_digit(c: char) -> bool {
    '0' <= c && c <= '9'
}

/// The value of a text of decimal digits.
pub open spec fn digits_value(s: Seq<char>) -> int
    decreases s.len(),
{
    if s.len() == 0 {
        0
    } else {
        10 * digits_value(s.drop_last()) + ((s.last() as int) - ('0' as int))
    }
}

/// A number's text without its leading `+`, if it has one.
pub open spec fn unsigned_digits(s: Seq<char>) -> Seq<char> {
    if s.len() > 0 && s[0] == '+' { s.skip(1) } else { s }
}

/// Whether every character of `s` is a decimal digit.
pub open spec fn all_digits(s: Seq<char>) -> bool {
    forall|i: int| 0 <= i < s.len() ==> is_digit(#[trigger] s[i])
}

/// What `str::parse::<u16>` makes of a text: an optional `+`, then one or
/// more decimal digits whose value fits in 16 bits.
pub open spec fn parse_u16(s: Seq<char>) -> Option<u16> {
    let body = unsigned_digits(s);
    if body.len() > 0 && all_digits(body) && digits_value(body) <= u16::MAX {
        Some(digits_value(body) as u16)
    } else {
        None
    }
}

/// The port to listen on: the configured value when it is a valid port
/// number, otherwise 8080.
pub open spec fn spec_listen_port(value: Option<Seq<char>>) -> u16 {
    match value {
        Some(v) => match parse_u16(v) {
            Some(p) => p,
            None => DEFAULT_PORT,
        },
        None => DEFAULT_PORT,
    }
}

proof fn lemma_digits_value_nonneg(s: Seq<char>)
    requires
        forall|i: int| 0 <= i < s.len() ==> is_digit(#[trigger] s[i]),
    ensures
        digits_value(s) >= 0,
    decreases s.len(),
{
    if s.len() > 0 {
        lemma_digits_value_nonneg(s.drop_last());
    }
}

/// Parses a port number as `str::parse::<u16>` does.
pub fn parse_port(s: &str) -> (port: Option<u16>)
    ensures
        port == parse_u16(s@),
{
    let chars = chars_of(s);
    let start: usize = if chars.len() > 0 && chars[0] == '+' { 1 } else { 0 };
    let ghost body = unsigned_digits(s@);
    assert(body =~= chars@.skip(start as int));
    if start == chars.len() {
        return None;
    }
    let mut acc: u32 = 0;
    let mut i: usize = start;
    while i < chars.len()
        invariant
            start <= i <= chars.len(),
            chars@ == s@,
            body == chars@.skip(start as int),
            body == unsigned_digits(s@),
            forall|j: int| start <= j < i ==> is_digit(#[trigger] chars@[j]),
            acc as int == if digits_value(chars@.subrange(start as int, i as int)) > 65536 { 65536 } else { digits_value(chars@.subrange(start as int, i as int)) },
        decreases chars.len() - i,
    {
        let c = chars[i];
        if !('0' <= c && c <= '9') {
            proof {
                assert(body[i - start] == c);
                assert(!is_digit(body[i - start]));
            }
            return None;
        }
        let d: u32 = (c as u32) - ('0' as u32);
        proof {
            let pre = chars@.subrange(start as int, i as int);
            let next = chars@.subrange(start as int, i + 1);
            assert(next.drop_last() =~= pre);
            assert forall|j: int| 0 <= j < pre.len() implies is_digit(#[trigger] pre[j]) by {
                assert(pre[j] == chars@[start + j]);
            }
            lemma_digits_value_nonneg(pre);
        }
        let grown = acc * 10 + d;
        acc = if grown > 65536 { 65536 } else { grown };
        i = i + 1;
    }
    proof {
        assert(chars@.subrange(start as int, chars.len() as int) =~= body);
        assert forall|j: int| 0 <= j < body.len() implies is_digit(#[trigger] body[j]) by {
            assert(body[j] == chars@[start + j]);
        }
    }
    if acc > 65535 {
        None
    } else {
        Some(acc as u16)
    }
}

/// The port to listen on, given the configured value, if any.
pub fn listen_port(value: Option<&str>) -> (port: u16)
    ensures
        port == spec_listen_port(match value { Some(v) => Some(v@), None => None }),
{
    match value {
        Some(v) => match parse_port(v) {
            Some(p) => p,
            None => DEFAULT_PORT,
        },
        None => DEFAULT_PORT,
    }
}

} // verus!
