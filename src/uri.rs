use vstd::prelude::*;

use crate::text::{chars_of, find_char, find_char_exec, string_of};

verus! {

/// A URI split into its raw parts; an absent part is empty.
#[derive(Debug, Clone, PartialEq, Eq)]
pub struct Uri {
    pub scheme: String,
    pub host: String,
    pub path: String,
    pub query: String,
}

/// What a `Uri` holds, as character sequences.
pub ghost struct UriView {
    pub scheme: Seq<char>,
    pub host: Seq<char>,
    pub path: Seq<char>,
    pub query: Seq<char>,
}

impl View for Uri {
    type V = UriView;

    open spec fn view(&self) -> UriView {
        UriView { scheme: self.scheme@, host: self.host@, path: self.path@, query: self.query@ }
    }
}

/// The Unicode `White_Space` property, which `char::is_whitespace` tests.
pub open spec fn white_space(c: char) -> bool {
    ('\u{9}' <= c && c <= '\u{d}') || c == ' ' || c == '\u{85}' || c == '\u{a0}' || c
        == '\u{1680}' || ('\u{2000}' <= c && c <= '\u{200a}') || c == '\u{2028}' || c
        == '\u{2029}' || c == '\u{202f}' || c == '\u{205f}' || c == '\u{3000}'
}

pub fn is_white_space(c: char) -> (r: bool)
    ensures
        r == white_space(c),
{
    ('\u{9}' <= c && c <= '\u{d}') || c == ' ' || c == '\u{85}' || c == '\u{a0}' || c
        == '\u{1680}' || ('\u{2000}' <= c && c <= '\u{200a}') || c == '\u{2028}' || c
        == '\u{2029}' || c == '\u{202f}' || c == '\u{205f}' || c == '\u{3000}'
}

/// The first index `j >= i` that holds white space, or `s.len()`.
pub open spec fn find_space(s: Seq<char>, i: int) -> int
    decreases s.len() - i,
{
    if i >= s.len() {
        s.len() as int
    } else if white_space(s[i]) {
        i
    } else {
        find_space(s, i + 1)
    }
}

pub fn find_space_exec(v: &Vec<char>, from: usize) -> (r: usize)
    requires
        from <= v@.len(),
    ensures
        from <= r <= v@.len(),
        r == find_space(v@, from as int),
{
    let mut j: usize = from;
    while j < v.len() && !is_white_space(v[j])
        invariant
            from <= j <= v@.len(),
            find_space(v@, from as int) == find_space(v@, j as int),
        decreases v@.len() - j,
    {
        j = j + 1;
    }
    j
}

pub open spec fn ascii_alphanumeric(c: char) -> bool {
    ('a' <= c && c <= 'z') || ('A' <= c && c <= 'Z') || ('0' <= c && c <= '9')
}

/// The first index `j >= i` that holds no ASCII letter or digit, or `s.len()`.
pub open spec fn ascii_alphanumeric_end(s: Seq<char>, i: int) -> int
    decreases s.len() - i,
{
    if i >= s.len() {
        s.len() as int
    } else if !ascii_alphanumeric(s[i]) {
        i
    } else {
        ascii_alphanumeric_end(s, i + 1)
    }
}

fn ascii_alphanumeric_end_exec(v: &Vec<char>) -> (r: usize)
    ensures
        r <= v@.len(),
        r == ascii_alphanumeric_end(v@, 0),
{
    let mut j: usize = 0;
    while j < v.len() && (('a' <= v[j] && v[j] <= 'z') || ('A' <= v[j] && v[j] <= 'Z') || (
    '0' <= v[j] && v[j] <= '9'))
        invariant
            j <= v@.len(),
            ascii_alphanumeric_end(v@, 0) == ascii_alphanumeric_end(v@, j as int),
        decreases v@.len() - j,
    {
        j = j + 1;
    }
    j
}

/// `s[i..]` begins with `://`.
pub open spec fn separator_at(s: Seq<char>, i: int) -> bool {
    0 <= i && i + 3 <= s.len() && s[i] == ':' && s[i + 1] == '/' && s[i + 2] == '/'
}

pub fn separator_at_exec(v: &Vec<char>, i: usize) -> (r: bool)
    ensures
        r == separator_at(v@, i as int),
{
    i < v.len() && v.len() - i >= 3 && v[i] == ':' && v[i + 1] == '/' && v[i + 2] == '/'
}

/// Length of the scheme: a non-empty run of ASCII letters and digits that
/// `://` follows; zero where `s` has none.
pub open spec fn scheme_len(s: Seq<char>) -> int {
    let k = ascii_alphanumeric_end(s, 0);
    if k > 0 && separator_at(s, k) {
        k
    } else {
        0
    }
}

/// Where the host begins: after `://`, or at the start.
pub open spec fn host_start(s: Seq<char>) -> int {
    if scheme_len(s) > 0 {
        scheme_len(s) + 3
    } else {
        0
    }
}

/// Where the host ends: at the first `/` after it begins.
pub open spec fn host_end(s: Seq<char>) -> int {
    find_char(s, host_start(s), '/')
}

/// Where the path ends: at the first `?` after the host.
pub open spec fn path_end(s: Seq<char>) -> int {
    find_char(s, host_end(s), '?')
}

/// Where the query, and so the URI, ends: at the first white space after the path.
pub open spec fn uri_end(s: Seq<char>) -> int {
    find_space(s, path_end(s))
}

/// The URI read from the start of `s`.
pub open spec fn uri_of(s: Seq<char>) -> UriView {
    UriView {
        scheme: s.subrange(0, scheme_len(s)),
        host: s.subrange(host_start(s), host_end(s)),
        path: s.subrange(host_end(s), path_end(s)),
        query: s.subrange(path_end(s), uri_end(s)),
    }
}

/// Reads a URI from the start of `v`; returns it and where it ends.
pub fn uri_prefix(v: &Vec<char>) -> (r: (Uri, usize))
    ensures
        r.0@ == uri_of(v@),
        r.1 == uri_end(v@),
{
    let k = ascii_alphanumeric_end_exec(v);
    let has_scheme = k > 0 && separator_at_exec(v, k);
    let scheme_end: usize = if has_scheme { k } else { 0 };
    let a: usize = if has_scheme {
        let n = v.len();
        assert(k + 3 <= n);
        k + 3
    } else {
        0
    };
    let h = find_char_exec(v, a, '/');
    proof {
        crate::text::lemma_find_char(v@, a as int, '/');
    }
    let p = find_char_exec(v, h, '?');
    proof {
        crate::text::lemma_find_char(v@, h as int, '?');
    }
    let q = find_space_exec(v, p);
    let uri = Uri {
        scheme: string_of(v, 0, scheme_end),
        host: string_of(v, a, h),
        path: string_of(v, h, p),
        query: string_of(v, p, q),
    };
    (uri, q)
}

/// Parses a URI: an optional `scheme://`, a host up to the first `/`, a path
/// up to the first `?`, and a query up to the first white space.
pub fn parse_uri(input: &str) -> (r: Uri)
    ensures
        r@ == uri_of(input@),
{
    let v = chars_of(input);
    uri_prefix(&v).0
}

} // verus!
