//! Pure string helpers that add or remove separators and suffixes.
use std::borrow::Cow;
use vstd::prelude::*;

verus! {

/// `s` ends with `end`.
pub open spec fn has_suffix(s: Seq<char>, end: Seq<char>) -> bool {
    end.len() <= s.len() && s.subrange(s.len() - end.len(), s.len() as int) == end
}

/// `s` starts with `start`.
pub open spec fn has_prefix(s: Seq<char>, start: Seq<char>) -> bool {
    start.len() <= s.len() && s.subrange(0, start.len() as int) == start
}

/// `s` without one trailing `end`, or `s` itself where it does not end with `end`.
pub open spec fn trimmed_right(s: Seq<char>, end: Seq<char>) -> Seq<char> {
    if has_suffix(s, end) {
        s.subrange(0, s.len() - end.len())
    } else {
        s
    }
}

/// `s` without one leading `start`, or `s` itself where it does not start with `start`.
pub open spec fn trimmed_left(s: Seq<char>, start: Seq<char>) -> Seq<char> {
    if has_prefix(s, start) {
        s.subrange(start.len() as int, s.len() as int)
    } else {
        s
    }
}

/// `s` followed by `end`, unless `s` already ends with it.
pub open spec fn with_suffix(s: Seq<char>, end: Seq<char>) -> Seq<char> {
    if has_suffix(s, end) {
        s
    } else {
        s + end
    }
}

pub open spec fn https_scheme() -> Seq<char> {
    seq!['h', 't', 't', 'p', 's', ':', '/', '/']
}

pub open spec fn http_scheme() -> Seq<char> {
    seq!['h', 't', 't', 'p', ':', '/', '/']
}

/// `s` with `https://` in front, unless it already names `http://` or `https://`.
pub open spec fn with_scheme(s: Seq<char>) -> Seq<char> {
    if has_prefix(s, https_scheme()) || has_prefix(s, http_scheme()) {
        s
    } else {
        https_scheme() + s
    }
}

/// Whether the characters of `s` from `at` on are those of `part`.
fn matches_at(s: &str, at: usize, part: &str) -> (r: bool)
    requires
        at + part@.len() <= s@.len(),
        s@.len() <= usize::MAX,
    ensures
        r == (s@.subrange(at as int, at + part@.len()) == part@),
{
    let n = part.unicode_len();
    let mut i: usize = 0;
    while i < n
        invariant
            n == part@.len(),
            at + n <= s@.len(),
            s@.len() <= usize::MAX,
            0 <= i <= n,
            forall|j: int| 0 <= j < i ==> s@[at + j] == part@[j],
        decreases n - i,
    {
        if s.get_char(at + i) != part.get_char(i) {
            assert(s@.subrange(at as int, at + n)[i as int] != part@[i as int]);
            return false;
        }
        i = i + 1;
    }
    assert(s@.subrange(at as int, at + n) =~= part@);
    true
}

/// Whether `a` and `b` hold the same text.
pub fn same_text(a: &str, b: &str) -> (r: bool)
    ensures
        r == (a@ == b@),
{
    let n = a.unicode_len();
    let m = b.unicode_len();
    if n != m {
        return false;
    }
    let r = matches_at(a, 0, b);
    assert(a@.subrange(0, n as int) =~= a@);
    r
}

/// Whether `s` ends with `end`.
pub fn ends_with(s: &str, end: &str) -> (r: bool)
    ensures
        r == has_suffix(s@, end@),
{
    let n = s.unicode_len();
    let p = end.unicode_len();
    n >= p && matches_at(s, n - p, end)
}

/// Whether `s` starts with `start`.
pub fn starts_with(s: &str, start: &str) -> (r: bool)
    ensures
        r == has_prefix(s@, start@),
{
    let n = s.unicode_len();
    let p = start.unicode_len();
    n >= p && matches_at(s, 0, start)
}

/// Removes one trailing `end` from `uri`; returns `uri` itself where it does not end so.
pub fn trim_right<'a, 'b>(uri: &'a str, end: &'b str) -> (r: &'a str)
    ensures
        r@ == trimmed_right(uri@, end@),
{
    if ends_with(uri, end) {
        uri.substring_char(0, uri.unicode_len() - end.unicode_len())
    } else {
        uri
    }
}

/// Removes one leading `start` from `uri`; returns `uri` itself where it does not start so.
pub fn trim_left<'a, 'b>(uri: &'a str, start: &'b str) -> (r: &'a str)
    ensures
        r@ == trimmed_left(uri@, start@),
{
    if starts_with(uri, start) {
        uri.substring_char(start.unicode_len(), uri.unicode_len())
    } else {
        uri
    }
}

/// Appends `end` to `uri` unless it already ends with it; borrows `uri` when nothing is added.
pub fn add_right<'l>(uri: &'l str, end: &str) -> (r: Cow<'l, str>)
    ensures
        r@ == with_suffix(uri@, end@),
        has_suffix(uri@, end@) ==> r matches Cow::Borrowed(_),
{
    if ends_with(uri, end) {
        Cow::Borrowed(uri)
    } else {
        let owned = uri.to_owned();
        Cow::Owned(owned.concat(end))
    }
}

/// Puts `https://` in front of `uri` unless it starts with `http://` or `https://`.
pub fn add_https<'l>(uri: &'l str) -> (r: Cow<'l, str>)
    ensures
        r@ == with_scheme(uri@),
        (has_prefix(uri@, https_scheme()) || has_prefix(uri@, http_scheme())) ==> r matches Cow::Borrowed(_),
{
    let protocol = "https://";
    let other = "http://";
    proof {
        reveal_strlit("https://");
        reveal_strlit("http://");
        assert(protocol@ == https_scheme());
        assert(other@ == http_scheme());
    }
    if !starts_with(uri, protocol) && !starts_with(uri, other) {
        let owned = protocol.to_owned();
        Cow::Owned(owned.concat(uri))
    } else {
        Cow::Borrowed(uri)
    }
}

} // verus!
