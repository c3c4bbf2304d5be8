//! Addresses: what the `url` crate makes of one, and the names the ops derive from it.
use vstd::prelude::*;

use crate::text::{
    chars_of, drop_space_end, is_alnum, is_ascii_alnum, lower_all, lowercase, same, skip_space, string_of,
    trim, trim_start,
};

verus! {

/// The parts of a parsed URL the ops read: scheme, host, and the serialised form.
#[derive(Debug)]
pub struct ParsedUrl {
    pub scheme: String,
    pub host: Option<String>,
    pub serialized: String,
}

pub open spec fn opt_view(o: Option<String>) -> Option<Seq<char>> {
    match o {
        Some(s) => Some(s@),
        None => None,
    }
}

/// What `url::Url::parse` makes of an input, as `(scheme, host, serialised)`; `None` where
/// it refuses the input.
pub uninterp spec fn url_parse(input: Seq<char>) -> Option<(Seq<char>, Option<Seq<char>>, Seq<char>)>;

/// `url::Url::parse`, read back through `scheme()`, `host_str()` and `to_string()`.
///
/// Trusted: the contract claims only that the result is a function of the input
/// (`url_parse`), and that a refusal is `None`. Nothing is claimed about which inputs the
/// WHATWG parser accepts or how it normalises them.
#[verifier::external_body]
pub(crate) fn parse_url(input: &str) -> (r: Option<ParsedUrl>)
    ensures
        match r {
            Some(u) => url_parse(input@) == Some((u.scheme@, opt_view(u.host), u.serialized@)),
            None => url_parse(input@) is None,
        },
{
    match url::Url::parse(input) {
        Ok(u) => Some(ParsedUrl {
            scheme: u.scheme().to_string(),
            host: match u.host_str() {
                Some(h) => Some(h.to_string()),
                None => None,
            },
            serialized: u.to_string(),
        }),
        Err(_) => None,
    }
}

pub open spec fn is_web_scheme(scheme: Seq<char>) -> bool {
    scheme == seq!['h', 't', 't', 'p'] || scheme == seq!['h', 't', 't', 'p', 's']
}

pub fn web_scheme(scheme: &str) -> (b: bool)
    ensures
        b == is_web_scheme(scheme@),
{
    let c = chars_of(scheme);
    let http: Vec<char> = vec!['h', 't', 't', 'p'];
    let https: Vec<char> = vec!['h', 't', 't', 'p', 's'];
    assert(http@ =~= seq!['h', 't', 't', 'p']);
    assert(https@ =~= seq!['h', 't', 't', 'p', 's']);
    same(c.as_slice(), http.as_slice()) || same(c.as_slice(), https.as_slice())
}

/// Whether the input parses as an `http`/`https` URL.
pub open spec fn is_web_address(input: Seq<char>) -> bool {
    url_parse(input) matches Some(p) && is_web_scheme(p.0)
}

/// The host of an address, lowercased, or `None` for one that does not name one.
pub open spec fn host_of_spec(address: Seq<char>) -> Option<Seq<char>> {
    match url_parse(address) {
        Some(p) => match p.1 {
            Some(h) => Some(lower_all(h)),
            None => None,
        },
        None => None,
    }
}

/// The host of an address, or `None` for one that does not name one.
pub fn host_of(address: &str) -> (h: Option<String>)
    ensures
        opt_view(h) == host_of_spec(address@),
{
    match parse_url(address) {
        Some(u) => match u.host {
            Some(h) => {
                let chars = chars_of(h.as_str());
                let low = lowercase(chars.as_slice());
                Some(string_of(low.as_slice()))
            },
            None => None,
        },
        None => None,
    }
}

/// A character a bare host may hold.
pub open spec fn host_char(c: char) -> bool {
    is_alnum(c) || c == '-' || c == '.' || c == '_'
}

/// Trailing `/` dropped.
pub open spec fn trim_end_slash(s: Seq<char>) -> Seq<char>
    decreases s.len(),
{
    if s.len() > 0 && s.last() == '/' { trim_end_slash(s.drop_last()) } else { s }
}

/// A bare host: trailing `/` dropped, lowercased, and refused unless every character
/// could be part of one.
pub open spec fn bare_host_spec(trimmed: Seq<char>) -> Option<Seq<char>> {
    let host = lower_all(trim_end_slash(trimmed));
    if host.len() > 0 && forall|i: int| 0 <= i < host.len() ==> host_char(#[trigger] host[i]) {
        Some(host)
    } else {
        None
    }
}

/// What `as_host` answers: the host of an `http(s)` URL, else the input itself when it
/// reads as a bare host.
pub open spec fn as_host_spec(input: Seq<char>) -> Option<Seq<char>> {
    let trimmed = trim(input);
    match url_parse(trimmed) {
        Some(p) => if is_web_scheme(p.0) && p.1 is Some {
            Some(lower_all(p.1->0))
        } else {
            bare_host_spec(trimmed)
        },
        None => bare_host_spec(trimmed),
    }
}

/// Where the trailing `/` of `s[..to]` begins.
fn drop_slash_end(s: &[char], to: usize) -> (j: usize)
    requires
        to <= s@.len(),
    ensures
        j <= to,
        trim_end_slash(s@.take(to as int)) == s@.take(j as int),
{
    let mut j = to;
    while j > 0 && s[j - 1] == '/'
        invariant
            j <= to <= s@.len(),
            trim_end_slash(s@.take(to as int)) == trim_end_slash(s@.take(j as int)),
        decreases j,
    {
        assert(s@.take(j as int).drop_last() =~= s@.take(j - 1));
        j = j - 1;
    }
    j
}

/// A host, from a host or from any URL on one. `None` for anything that is neither.
pub fn as_host(input: &str) -> (h: Option<String>)
    ensures
        opt_view(h) == as_host_spec(input@),
{
    let chars = chars_of(input);
    let start = skip_space(chars.as_slice(), 0);
    let tail = slice_from(chars.as_slice(), start);
    let end = drop_space_end(tail.as_slice(), tail.len());
    let trimmed = slice_to(tail.as_slice(), end);
    proof {
        assert(chars@.subrange(0, chars@.len() as int) =~= input@);
        assert(tail@ == input@.subrange(start as int, input@.len() as int));
        assert(tail@ == trim_start(input@));
        assert(tail@.take(tail@.len() as int) =~= tail@);
        assert(trimmed@ == trim(input@));
    }
    let trimmed_str = string_of(trimmed.as_slice());
    if let Some(u) = parse_url(trimmed_str.as_str()) {
        if let Some(host) = u.host {
            if web_scheme(u.scheme.as_str()) {
                let hc = chars_of(host.as_str());
                let low = lowercase(hc.as_slice());
                return Some(string_of(low.as_slice()));
            }
        }
    }
    let cut = drop_slash_end(trimmed.as_slice(), trimmed.len());
    let bare = slice_to(trimmed.as_slice(), cut);
    assert(trimmed@.take(trimmed@.len() as int) =~= trimmed@);
    let host = lowercase(bare.as_slice());
    if host.len() == 0 {
        return None;
    }
    if !all_host_chars(host.as_slice()) {
        return None;
    }
    Some(string_of(host.as_slice()))
}

fn all_host_chars(host: &[char]) -> (b: bool)
    ensures
        b == forall|i: int| 0 <= i < host@.len() ==> host_char(#[trigger] host@[i]),
{
    let mut i: usize = 0;
    while i < host.len()
        invariant
            i <= host@.len(),
            forall|j: int| 0 <= j < i ==> host_char(#[trigger] host@[j]),
        decreases host.len() - i,
    {
        let c = host[i];
        if !(is_ascii_alnum(c) || c == '-' || c == '.' || c == '_') {
            assert(!host_char(host@[i as int]));
            return false;
        }
        i = i + 1;
    }
    true
}

/// `s[from..]`.
pub fn slice_from(s: &[char], from: usize) -> (t: Vec<char>)
    requires
        from <= s@.len(),
    ensures
        t@ == s@.subrange(from as int, s@.len() as int),
{
    let mut t: Vec<char> = Vec::new();
    let mut i = from;
    while i < s.len()
        invariant
            from <= i <= s@.len(),
            t@ == s@.subrange(from as int, i as int),
        decreases s.len() - i,
    {
        t.push(s[i]);
        i = i + 1;
        assert(t@ =~= s@.subrange(from as int, i as int));
    }
    t
}

/// `s[..to]`.
pub fn slice_to(s: &[char], to: usize) -> (t: Vec<char>)
    requires
        to <= s@.len(),
    ensures
        t@ == s@.take(to as int),
{
    let mut t: Vec<char> = Vec::new();
    let mut i: usize = 0;
    while i < to
        invariant
            i <= to <= s@.len(),
            t@ == s@.take(i as int),
        decreases to - i,
    {
        t.push(s[i]);
        i = i + 1;
        assert(t@ =~= s@.take(i as int));
    }
    t
}

} // verus!
