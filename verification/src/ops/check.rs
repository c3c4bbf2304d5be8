//! `check` — what does extraction make of this?
//!
//! The fetch, the extractor and the files on disk are the host's business; what is decided
//! here is whether the target is an address or a path, and what the two files are called.
use vstd::prelude::*;

use crate::address::{is_web_address, parse_url, trim_end_slash, web_scheme};
use crate::domain::{Note, NoteMark};
use crate::ops::investigate::{evidence_lines, render_evidence};
use crate::ops::schedule::{joined, texts};
use crate::domain::{pad, pad_to};
use crate::ops::models::{human_bytes, human_bytes_of};
use crate::ops::run::{duration, duration_of};
use crate::page::{at, marked_at, note_text, title_text, Mark, Page};
use crate::text::{
    chars_of, decimal, flat_all, grouped, is_alnum, is_alpha, is_ascii_alnum, is_ascii_alpha, join_with, lines_of,
    is_space, is_white, one_line, owned, push_char, push_count, push_decimal, str_eq, string_of, text_lines,
};

verus! {

/// Lines of extracted text shown inline before the paths.
pub const DEFAULT_HEAD: usize = 20;

/// What the `TARGET` argument turned out to be.
#[derive(Debug)]
pub enum Target {
    Url(String),
    /// A path: as typed from [`Target::of`], with a leading `~` read against the home
    /// directory from [`Target::at_home`].
    File(String),
}

/// A URL if it parses as `http`/`https`, otherwise a path.
///
/// Scheme rather than "does this file exist": a mistyped path must report a missing
/// file, not be handed to a fetcher that will report a DNS failure about it.
pub fn target_of(target: &str) -> (t: Target)
    ensures
        match t {
            Target::Url(u) => is_web_address(target@) && u@ == target@,
            Target::File(p) => !is_web_address(target@) && p@ == target@,
        },
{
    match parse_url(target) {
        Some(u) => {
            if web_scheme(u.scheme.as_str()) {
                return Target::Url(owned(target));
            }
        },
        None => {},
    }
    Target::File(owned(target))
}

impl Target {
    /// The same as [`target_of`].
    pub fn of(target: &str) -> (t: Target)
        ensures
            match t {
                Target::Url(u) => is_web_address(target@) && u@ == target@,
                Target::File(p) => !is_web_address(target@) && p@ == target@,
            },
    {
        target_of(target)
    }
}

/// A path with a leading `~` read against the home directory: `~` alone is the home
/// directory and `~/rest` is `rest` inside it; any other path, or no known home, is the
/// path as typed.
pub open spec fn expanded(path: Seq<char>, home: Option<Seq<char>>) -> Seq<char> {
    match home {
        Some(h) => if path == seq!['~'] {
            h
        } else if path.len() >= 2 && path[0] == '~' && path[1] == '/' {
            if h.len() > 0 && h.last() == '/' { h + path.skip(2) } else { h + seq!['/'] + path.skip(2) }
        } else {
            path
        },
        None => path,
    }
}

/// Reads a leading `~` against `home`, as the shell would have.
pub fn expand_tilde(path: &str, home: Option<&str>) -> (p: String)
    ensures
        p@ == expanded(path@, match home {
            Some(h) => Some(h@),
            None => None,
        }),
{
    let h = match home {
        Some(h) => h,
        None => return owned(path),
    };
    let cs = chars_of(path);
    if cs.len() == 1 && cs[0] == '~' {
        assert(path@ =~= seq!['~']);
        return owned(h);
    }
    if cs.len() >= 2 && cs[0] == '~' && cs[1] == '/' {
        assert(path@ != seq!['~']);
        let hs = chars_of(h);
        let mut out = owned(h);
        if !(hs.len() > 0 && hs[hs.len() - 1] == '/') {
            push_char(&mut out, '/');
        }
        let mut i: usize = 2;
        let ghost base = out@;
        while i < cs.len()
            invariant
                cs@ == path@,
                2 <= i <= cs@.len(),
                out@ == base + cs@.subrange(2, i as int),
            decreases cs.len() - i,
        {
            push_char(&mut out, cs[i]);
            i = i + 1;
            assert(out@ =~= base + cs@.subrange(2, i as int));
        }
        assert(cs@.subrange(2, cs@.len() as int) =~= path@.skip(2));
        assert(seq!['/'] =~= "/"@) by {
            reveal_strlit("/");
        }
        return out;
    }
    if cs.len() == 1 {
        assert(path@ != seq!['~']) by {
            assert(path@[0] != '~');
        }
    }
    owned(path)
}

impl Target {
    /// What the argument is, a path read against `home` so that `~/x` names the file the
    /// shell would have.
    pub fn at_home(target: &str, home: Option<&str>) -> (t: Target)
        ensures
            match t {
                Target::Url(u) => is_web_address(target@) && u@ == target@,
                Target::File(p) => !is_web_address(target@) && p@ == expanded(target@, match home {
                    Some(h) => Some(h@),
                    None => None,
                }),
            },
    {
        match target_of(target) {
            Target::Url(u) => Target::Url(u),
            Target::File(_) => Target::File(expand_tilde(target, home)),
        }
    }
}

// ── naming the files ───────────────────────────────────────────────────────

pub open spec fn is_stop(c: char) -> bool {
    c == '?' || c == '#'
}

/// Everything before the first `?` or `#`: a query string is a viewer instruction, not
/// part of the name.
pub open spec fn before_query(s: Seq<char>) -> Seq<char>
    decreases s.len(),
{
    if s.len() == 0 || is_stop(s[0]) {
        Seq::empty()
    } else {
        seq![s[0]] + before_query(s.drop_first())
    }
}

proof fn lemma_before_query(s: Seq<char>, i: int)
    requires
        0 <= i <= s.len(),
        forall|j: int| 0 <= j < i ==> !is_stop(#[trigger] s[j]),
        i == s.len() || is_stop(s[i]),
    ensures
        before_query(s) == s.take(i),
    decreases i,
{
    if i == 0 {
        assert(s.take(0) =~= Seq::<char>::empty());
    } else {
        let t = s.drop_first();
        assert forall|j: int| 0 <= j < i - 1 implies !is_stop(#[trigger] t[j]) by {
            assert(t[j] == s[j + 1]);
        }
        lemma_before_query(t, i - 1);
        assert(!is_stop(s[0]));
        assert(seq![s[0]] + t.take(i - 1) =~= s.take(i));
    }
}

/// Where the first `?` or `#` is, or the length when there is none.
fn query_start(s: &[char]) -> (i: usize)
    ensures
        i <= s@.len(),
        before_query(s@) == s@.take(i as int),
{
    let mut i: usize = 0;
    while i < s.len() && !(s[i] == '?' || s[i] == '#')
        invariant
            i <= s@.len(),
            forall|j: int| 0 <= j < i ==> !is_stop(#[trigger] s@[j]),
        decreases s.len() - i,
    {
        i = i + 1;
    }
    proof {
        lemma_before_query(s@, i as int);
    }
    i
}

pub open spec fn is_sep(c: char) -> bool {
    c == '/' || c == '\\'
}

/// How many characters at the end of `s` hold no separator.
pub open spec fn run_at_end(s: Seq<char>) -> nat
    decreases s.len(),
{
    if s.len() > 0 && !is_sep(s.last()) {
        1 + run_at_end(s.drop_last())
    } else {
        0
    }
}

/// The last non-empty segment between separators, as `rsplit(['/', '\\']).find(..)` finds it.
pub open spec fn last_segment(s: Seq<char>) -> Option<Seq<char>>
    decreases s.len(),
{
    if run_at_end(s) > 0 {
        Some(s.subrange(s.len() - run_at_end(s), s.len() as int))
    } else if s.len() == 0 {
        None
    } else {
        last_segment(s.drop_last())
    }
}

proof fn lemma_run_at_end_bounded(s: Seq<char>)
    ensures
        run_at_end(s) <= s.len(),
    decreases s.len(),
{
    if s.len() > 0 && !is_sep(s.last()) {
        lemma_run_at_end_bounded(s.drop_last());
    }
}

/// Counts the run of non-separators that ends at `end`.
fn run_before(s: &[char], end: usize) -> (k: usize)
    requires
        end <= s@.len(),
    ensures
        k == run_at_end(s@.take(end as int)),
        k <= end,
{
    let mut k: usize = 0;
    while k < end && !(s[end - k - 1] == '/' || s[end - k - 1] == '\\')
        invariant
            k <= end <= s@.len(),
            run_at_end(s@.take(end as int)) == k + run_at_end(s@.take(end - k)),
        decreases end - k,
    {
        assert(s@.take(end - k).drop_last() =~= s@.take(end - k - 1));
        assert(s@.take(end - k).last() == s@[end - k - 1]);
        k = k + 1;
    }
    k
}

/// The last non-empty segment of `s`, as a range `(start, end)`.
fn last_segment_range(s: &[char]) -> (r: Option<(usize, usize)>)
    ensures
        match r {
            Some((a, b)) => a < b <= s@.len() && last_segment(s@) == Some(s@.subrange(a as int, b as int)),
            None => last_segment(s@) is None,
        },
{
    let mut end: usize = s.len();
    assert(s@.take(s@.len() as int) =~= s@);
    loop
        invariant
            end <= s@.len(),
            last_segment(s@) == last_segment(s@.take(end as int)),
        decreases end,
    {
        let k = run_before(s, end);
        if k > 0 {
            assert(s@.take(end as int).subrange(end - k, end as int) =~= s@.subrange(end - k, end as int));
            return Some((end - k, end));
        }
        if end == 0 {
            return None;
        }
        assert(s@.take(end as int).drop_last() =~= s@.take(end - 1));
        end = end - 1;
    }
}

/// Where the last `.` is.
pub open spec fn last_dot(s: Seq<char>) -> Option<int>
    decreases s.len(),
{
    if s.len() == 0 {
        None
    } else if s.last() == '.' {
        Some(s.len() - 1)
    } else {
        last_dot(s.drop_last())
    }
}

proof fn lemma_last_dot_bounded(s: Seq<char>)
    ensures
        last_dot(s) matches Some(i) ==> 0 <= i < s.len() && s[i] == '.',
    decreases s.len(),
{
    if s.len() > 0 && s.last() != '.' {
        lemma_last_dot_bounded(s.drop_last());
    }
}

/// A name with its extension dropped, as `Path::file_stem` drops it: everything before the
/// last `.`, unless that `.` is the first character.
pub open spec fn stem_of(name: Seq<char>) -> Seq<char> {
    match last_dot(name) {
        Some(i) => if i == 0 { name } else { name.take(i) },
        None => name,
    }
}

fn find_last_dot(s: &[char]) -> (r: Option<usize>)
    ensures
        match r {
            Some(i) => last_dot(s@) == Some(i as int),
            None => last_dot(s@) is None,
        },
{
    let mut end: usize = s.len();
    assert(s@.take(s@.len() as int) =~= s@);
    while end > 0 && s[end - 1] != '.'
        invariant
            end <= s@.len(),
            last_dot(s@) == last_dot(s@.take(end as int)),
        decreases end,
    {
        assert(s@.take(end as int).drop_last() =~= s@.take(end - 1));
        end = end - 1;
    }
    if end == 0 {
        None
    } else {
        assert(s@.take(end as int).last() == '.');
        Some(end - 1)
    }
}

pub open spec fn dash(c: char) -> char {
    if is_alnum(c) { c } else { '-' }
}

pub open spec fn trim_dashes_start(s: Seq<char>) -> Seq<char>
    decreases s.len(),
{
    if s.len() > 0 && s[0] == '-' { trim_dashes_start(s.drop_first()) } else { s }
}

pub open spec fn trim_dashes_end(s: Seq<char>) -> Seq<char>
    decreases s.len(),
{
    if s.len() > 0 && s.last() == '-' { trim_dashes_end(s.drop_last()) } else { s }
}

/// Characters a file name may keep; everything else is a dash.
pub open spec fn dashed(s: Seq<char>) -> Seq<char> {
    trim_dashes_end(trim_dashes_start(s.map_values(|c: char| dash(c))))
}

/// Long enough to recognise, short enough to type.
pub const SLUG_MAX: usize = 48;

/// The stem a file is named with, from its address.
pub open spec fn slug_spec(address: Seq<char>) -> Seq<char> {
    let tail = match last_segment(trim_end_slash(before_query(address))) {
        Some(seg) => seg,
        None => "document"@,
    };
    let trimmed = dashed(stem_of(tail));
    if trimmed.len() == 0 {
        "document"@
    } else if trimmed.len() > SLUG_MAX {
        trimmed.take(SLUG_MAX as int)
    } else {
        trimmed
    }
}

/// No character of `s` is a letter or a digit.
pub open spec fn no_alnum(s: Seq<char>) -> bool {
    forall|i: int| 0 <= i < s.len() ==> !is_alnum(#[trigger] s[i])
}

/// A file name stem as `slug` makes them: not empty, at most `SLUG_MAX` characters, only
/// letters, digits and dashes, and no dash first.
pub open spec fn slug_shaped(r: Seq<char>) -> bool {
    &&& 0 < r.len() <= SLUG_MAX
    &&& forall|i: int| 0 <= i < r.len() ==> is_alnum(#[trigger] r[i]) || r[i] == '-'
    &&& r[0] != '-'
}

proof fn lemma_trim_start_suffix(s: Seq<char>)
    ensures
        exists|k: int| 0 <= k <= s.len() && #[trigger] s.subrange(k, s.len() as int) == trim_dashes_start(s),
        trim_dashes_start(s).len() > 0 ==> trim_dashes_start(s)[0] != '-',
        (forall|i: int| 0 <= i < s.len() ==> #[trigger] s[i] == '-') ==> trim_dashes_start(s).len() == 0,
    decreases s.len(),
{
    if s.len() > 0 && s[0] == '-' {
        lemma_trim_start_suffix(s.drop_first());
        let k = choose|k: int| 0 <= k <= s.len() - 1 && #[trigger] s.drop_first().subrange(k, s.len() - 1)
            == trim_dashes_start(s.drop_first());
        assert(s.subrange(k + 1, s.len() as int) =~= s.drop_first().subrange(k, s.len() - 1));
        if forall|i: int| 0 <= i < s.len() ==> #[trigger] s[i] == '-' {
            assert forall|i: int| 0 <= i < s.len() - 1 implies #[trigger] s.drop_first()[i] == '-' by {
                assert(s.drop_first()[i] == s[i + 1]);
            }
        }
    } else {
        assert(s.subrange(0, s.len() as int) =~= s);
    }
}

proof fn lemma_trim_end_prefix(s: Seq<char>)
    ensures
        exists|m: int| 0 <= m <= s.len() && #[trigger] s.take(m) == trim_dashes_end(s),
        s.len() > 0 && s[0] != '-' ==> trim_dashes_end(s).len() > 0 && trim_dashes_end(s)[0] == s[0],
    decreases s.len(),
{
    if s.len() > 0 && s.last() == '-' {
        lemma_trim_end_prefix(s.drop_last());
        let m = choose|m: int| 0 <= m <= s.len() - 1 && #[trigger] s.drop_last().take(m) == trim_dashes_end(s.drop_last());
        assert(s.take(m) =~= s.drop_last().take(m));
        if s[0] != '-' {
            assert(s.len() > 1);
            assert(s.drop_last()[0] == s[0]);
        }
    } else {
        assert(s.take(s.len() as int) =~= s);
    }
}

proof fn lemma_dashed(s: Seq<char>)
    ensures
        forall|i: int| 0 <= i < dashed(s).len() ==> is_alnum(#[trigger] dashed(s)[i]) || dashed(s)[i] == '-',
        dashed(s).len() > 0 ==> dashed(s)[0] != '-',
        dashed(s).len() <= s.len(),
        no_alnum(s) ==> dashed(s).len() == 0,
{
    let d = s.map_values(|c: char| dash(c));
    lemma_trim_start_suffix(d);
    let t = trim_dashes_start(d);
    let k = choose|k: int| 0 <= k <= d.len() && #[trigger] d.subrange(k, d.len() as int) == t;
    lemma_trim_end_prefix(t);
    let m = choose|m: int| 0 <= m <= t.len() && #[trigger] t.take(m) == trim_dashes_end(t);
    assert forall|i: int| 0 <= i < dashed(s).len() implies is_alnum(#[trigger] dashed(s)[i]) || dashed(s)[i] == '-' by {
        assert(dashed(s)[i] == d[k + i]);
    }
    if no_alnum(s) {
        assert forall|i: int| 0 <= i < d.len() implies #[trigger] d[i] == '-' by {
            assert(!is_alnum(s[i]));
        }
    }
}

proof fn lemma_before_query_no_alnum(s: Seq<char>)
    requires
        no_alnum(s),
    ensures
        no_alnum(before_query(s)),
    decreases s.len(),
{
    if s.len() > 0 && !is_stop(s[0]) {
        assert(no_alnum(s.drop_first())) by {
            assert forall|i: int| 0 <= i < s.len() - 1 implies !is_alnum(#[trigger] s.drop_first()[i]) by {
                assert(s.drop_first()[i] == s[i + 1]);
            }
        }
        lemma_before_query_no_alnum(s.drop_first());
        let r = before_query(s.drop_first());
        assert forall|i: int| 0 <= i < 1 + r.len() implies !is_alnum(#[trigger] (seq![s[0]] + r)[i]) by {
            if i > 0 {
                assert((seq![s[0]] + r)[i] == r[i - 1]);
            }
        }
    }
}

proof fn lemma_trim_end_slash_no_alnum(s: Seq<char>)
    requires
        no_alnum(s),
    ensures
        no_alnum(trim_end_slash(s)),
    decreases s.len(),
{
    if s.len() > 0 && s.last() == '/' {
        lemma_trim_end_slash_no_alnum(s.drop_last());
    }
}

proof fn lemma_last_segment_no_alnum(s: Seq<char>)
    requires
        no_alnum(s),
    ensures
        last_segment(s) matches Some(seg) ==> no_alnum(seg),
    decreases s.len(),
{
    lemma_run_at_end_bounded(s);
    if run_at_end(s) > 0 {
        let seg = s.subrange(s.len() - run_at_end(s), s.len() as int);
        assert forall|i: int| 0 <= i < seg.len() implies !is_alnum(#[trigger] seg[i]) by {
            assert(seg[i] == s[s.len() - run_at_end(s) + i]);
        }
    } else if s.len() > 0 {
        lemma_last_segment_no_alnum(s.drop_last());
    }
}

proof fn lemma_stem_no_alnum(s: Seq<char>)
    requires
        no_alnum(s),
    ensures
        no_alnum(stem_of(s)),
{
    lemma_last_dot_bounded(s);
}

/// Whatever the address, `slug` gives a name a file system takes as it is: not empty, at
/// most `SLUG_MAX` characters, only ASCII letters, digits and dashes, never a dash first;
/// and an address with no letter or digit in it gives `document`.
pub proof fn law_slug_shape(address: Seq<char>)
    ensures
        slug_shaped(slug_spec(address)),
        no_alnum(address) ==> slug_spec(address) == "document"@,
{
    reveal_strlit("document");
    let doc = "document"@;
    assert(forall|i: int| 0 <= i < doc.len() ==> is_alnum(#[trigger] doc[i]));
    let tail = match last_segment(trim_end_slash(before_query(address))) {
        Some(seg) => seg,
        None => doc,
    };
    let trimmed = dashed(stem_of(tail));
    lemma_dashed(stem_of(tail));
    if trimmed.len() > SLUG_MAX {
        let r = trimmed.take(SLUG_MAX as int);
        assert forall|i: int| 0 <= i < r.len() implies is_alnum(#[trigger] r[i]) || r[i] == '-' by {
            assert(r[i] == trimmed[i]);
        }
    }
    if no_alnum(address) {
        lemma_before_query_no_alnum(address);
        lemma_trim_end_slash_no_alnum(before_query(address));
        lemma_last_segment_no_alnum(trim_end_slash(before_query(address)));
        if last_segment(trim_end_slash(before_query(address))) is Some {
            lemma_stem_no_alnum(tail);
        } else {
            // The fallback segment is `document` itself, which passes through unchanged.
            lemma_last_dot_bounded(doc);
            assert(stem_of(doc) == doc);
            let d = doc.map_values(|c: char| dash(c));
            assert(d =~= doc);
            assert(trim_dashes_start(d) == d);
            assert(trim_dashes_end(d) == d);
        }
    }
}

fn dash_all(s: &[char]) -> (out: Vec<char>)
    ensures
        out@ == s@.map_values(|c: char| dash(c)),
{
    let mut out: Vec<char> = Vec::new();
    let mut i: usize = 0;
    while i < s.len()
        invariant
            i <= s@.len(),
            out@ == s@.take(i as int).map_values(|c: char| dash(c)),
        decreases s.len() - i,
    {
        let c = s[i];
        out.push(if is_ascii_alnum(c) { c } else { '-' });
        i = i + 1;
        assert(out@ =~= s@.take(i as int).map_values(|c: char| dash(c)));
    }
    assert(s@.take(s@.len() as int) =~= s@);
    out
}

fn trim_dashes(s: &[char]) -> (out: Vec<char>)
    ensures
        out@ == trim_dashes_end(trim_dashes_start(s@)),
{
    let mut a: usize = 0;
    assert(s@.subrange(0, s@.len() as int) =~= s@);
    while a < s.len() && s[a] == '-'
        invariant
            a <= s@.len(),
            trim_dashes_start(s@) == trim_dashes_start(s@.subrange(a as int, s@.len() as int)),
        decreases s.len() - a,
    {
        assert(s@.subrange(a as int, s@.len() as int).drop_first() =~= s@.subrange(a + 1, s@.len() as int));
        a = a + 1;
    }
    let mut b: usize = s.len();
    let ghost mid = s@.subrange(a as int, s@.len() as int);
    assert(mid == trim_dashes_start(s@));
    assert(mid.take(mid.len() as int) =~= mid);
    while b > a && s[b - 1] == '-'
        invariant
            a <= b <= s@.len(),
            mid == s@.subrange(a as int, s@.len() as int),
            trim_dashes_end(mid) == trim_dashes_end(mid.take(b - a)),
        decreases b - a,
    {
        assert(mid.take(b - a).drop_last() =~= mid.take(b - a - 1));
        b = b - 1;
    }
    let mut out: Vec<char> = Vec::new();
    let mut i = a;
    while i < b
        invariant
            a <= i <= b <= s@.len(),
            out@ == s@.subrange(a as int, i as int),
        decreases b - i,
    {
        out.push(s[i]);
        i = i + 1;
        assert(out@ =~= s@.subrange(a as int, i as int));
    }
    assert(out@ =~= mid.take(b - a));
    out
}

/// A filename stem from an address: its last meaningful path segment.
///
/// Only ever cosmetic — the number in front of it is what makes a name unique — so an
/// address that yields nothing usable gets `document` rather than an error.
pub fn slug(address: &str) -> (s: String)
    ensures
        s@ == slug_spec(address@),
{
    let chars = chars_of(address);
    let q = query_start(chars.as_slice());
    let mut end = q;
    while end > 0 && chars[end - 1] == '/'
        invariant
            end <= q <= chars@.len(),
            trim_end_slash(chars@.take(q as int)) == trim_end_slash(chars@.take(end as int)),
        decreases end,
    {
        assert(chars@.take(end as int).drop_last() =~= chars@.take(end - 1));
        end = end - 1;
    }
    let mut path: Vec<char> = Vec::new();
    let mut i: usize = 0;
    while i < end
        invariant
            i <= end <= chars@.len(),
            path@ == chars@.take(i as int),
        decreases end - i,
    {
        path.push(chars[i]);
        i = i + 1;
        assert(path@ =~= chars@.take(i as int));
    }
    assert(path@ == trim_end_slash(before_query(address@)));
    let tail: Vec<char> = match last_segment_range(path.as_slice()) {
        Some((a, b)) => {
            let mut t: Vec<char> = Vec::new();
            let mut j = a;
            while j < b
                invariant
                    a <= j <= b <= path@.len(),
                    t@ == path@.subrange(a as int, j as int),
                decreases b - j,
            {
                t.push(path[j]);
                j = j + 1;
                assert(t@ =~= path@.subrange(a as int, j as int));
            }
            t
        },
        None => chars_of("document"),
    };
    let stem: Vec<char> = match find_last_dot(tail.as_slice()) {
        Some(d) => {
            if d == 0 {
                tail
            } else {
                proof {
                    lemma_last_dot_bounded(tail@);
                }
                let mut t: Vec<char> = Vec::new();
                let mut j: usize = 0;
                while j < d
                    invariant
                        j <= d < tail@.len(),
                        t@ == tail@.take(j as int),
                    decreases d - j,
                {
                    t.push(tail[j]);
                    j = j + 1;
                    assert(t@ =~= tail@.take(j as int));
                }
                t
            }
        },
        None => tail,
    };
    assert(stem@ == stem_of(tail@));
    let dashed_chars = dash_all(stem.as_slice());
    let trimmed = trim_dashes(dashed_chars.as_slice());
    if trimmed.len() == 0 {
        return owned("document");
    }
    if trimmed.len() > SLUG_MAX {
        let mut t: Vec<char> = Vec::new();
        let mut j: usize = 0;
        while j < SLUG_MAX
            invariant
                j <= SLUG_MAX < trimmed@.len(),
                t@ == trimmed@.take(j as int),
            decreases SLUG_MAX - j,
        {
            t.push(trimmed[j]);
            j = j + 1;
            assert(t@ =~= trimmed@.take(j as int));
        }
        return string_of(t.as_slice());
    }
    string_of(trimmed.as_slice())
}

// ── the address's own extension ─────────────────────────────────────────────

/// The last component of a path, as `Path::file_name` names it: trailing `/` ignored, a
/// `.` component skipped, and nothing for `..` or for a path of no components.
pub open spec fn file_name_of(s: Seq<char>) -> Option<Seq<char>>
    decreases s.len(),
{
    let t = trim_end_slash(s);
    let k = slash_run(t);
    let seg = t.subrange(t.len() - k, t.len() as int);
    if t.len() == 0 {
        None
    } else if seg == "."@ {
        if k >= t.len() || k == 0 {
            None
        } else {
            proof {
                lemma_trim_end_slash_len(s);
            }
            file_name_of(t.take(t.len() - k))
        }
    } else if seg == ".."@ {
        None
    } else {
        Some(seg)
    }
}

/// How many characters at the end of `s` hold no `/`.
pub open spec fn slash_run(s: Seq<char>) -> nat
    decreases s.len(),
{
    if s.len() > 0 && s.last() != '/' { 1 + slash_run(s.drop_last()) } else { 0 }
}

/// The extension `Path::extension` reads off a file name: after the last `.`, unless that
/// `.` is the first character.
pub open spec fn extension_of(name: Seq<char>) -> Option<Seq<char>> {
    match last_dot(name) {
        Some(i) => if i == 0 { None } else { Some(name.subrange(i + 1, name.len() as int)) },
        None => None,
    }
}

/// Short, alphanumeric and holding at least one letter: `pdf`, not `2026`.
pub open spec fn plausible_extension(ext: Seq<char>) -> bool {
    1 <= ext.len() <= 5
        && (forall|i: int| 0 <= i < ext.len() ==> is_alnum(#[trigger] ext[i]))
        && (exists|i: int| 0 <= i < ext.len() && is_alpha(#[trigger] ext[i]))
}

/// The address's own extension, when it has a plausible one.
pub open spec fn address_extension_spec(address: Seq<char>) -> Option<Seq<char>> {
    match file_name_of(before_query(address)) {
        Some(name) => match extension_of(name) {
            Some(ext) => if plausible_extension(ext) { Some(ext) } else { None },
            None => None,
        },
        None => None,
    }
}

pub proof fn lemma_trim_end_slash_len(s: Seq<char>)
    ensures
        trim_end_slash(s).len() <= s.len(),
        trim_end_slash(s) == s.take(trim_end_slash(s).len() as int),
    decreases s.len(),
{
    if s.len() > 0 && s.last() == '/' {
        lemma_trim_end_slash_len(s.drop_last());
        assert(s.drop_last().take(trim_end_slash(s).len() as int) =~= s.take(trim_end_slash(s).len() as int));
    } else {
        assert(s.take(s.len() as int) =~= s);
    }
}

proof fn lemma_slash_run_bounded(s: Seq<char>)
    ensures
        slash_run(s) <= s.len(),
    decreases s.len(),
{
    if s.len() > 0 && s.last() != '/' {
        lemma_slash_run_bounded(s.drop_last());
    }
}

fn slash_run_before(s: &[char], end: usize) -> (k: usize)
    requires
        end <= s@.len(),
    ensures
        k == slash_run(s@.take(end as int)),
        k <= end,
{
    let mut k: usize = 0;
    while k < end && s[end - k - 1] != '/'
        invariant
            k <= end <= s@.len(),
            slash_run(s@.take(end as int)) == k + slash_run(s@.take(end - k)),
        decreases end - k,
    {
        assert(s@.take(end - k).drop_last() =~= s@.take(end - k - 1));
        k = k + 1;
    }
    k
}

fn is_dots(s: &[char], a: usize, b: usize, n: usize) -> (r: bool)
    requires
        a <= b <= s@.len(),
        n == 1 || n == 2,
    ensures
        r == (s@.subrange(a as int, b as int) == (if n == 1 { "."@ } else { ".."@ })),
{
    proof {
        reveal_strlit(".");
        reveal_strlit("..");
        assert("."@ =~= seq!['.']);
        assert(".."@ =~= seq!['.', '.']);
    }
    if b - a != n {
        return false;
    }
    if n == 1 {
        let r = s[a] == '.';
        assert(r ==> s@.subrange(a as int, b as int) =~= "."@);
        assert(!r ==> s@.subrange(a as int, b as int)[0] != "."@[0]);
        r
    } else {
        let r = s[a] == '.' && s[a + 1] == '.';
        assert(r ==> s@.subrange(a as int, b as int) =~= ".."@);
        assert(!r ==> (s@.subrange(a as int, b as int)[0] != ".."@[0] || s@.subrange(a as int, b as int)[1] != ".."@[1]));
        r
    }
}

/// The file name of `s[..end]`, as a range.
fn file_name_range(s: &[char], end: usize) -> (r: Option<(usize, usize)>)
    requires
        end <= s@.len(),
    ensures
        match r {
            Some((a, b)) => a <= b <= end && file_name_of(s@.take(end as int)) == Some(s@.subrange(a as int, b as int)),
            None => file_name_of(s@.take(end as int)) is None,
        },
    decreases end,
{
    let mut t = end;
    while t > 0 && s[t - 1] == '/'
        invariant
            t <= end <= s@.len(),
            trim_end_slash(s@.take(end as int)) == trim_end_slash(s@.take(t as int)),
        decreases t,
    {
        assert(s@.take(t as int).drop_last() =~= s@.take(t - 1));
        t = t - 1;
    }
    proof {
        assert(trim_end_slash(s@.take(t as int)) == s@.take(t as int));
    }
    let k = slash_run_before(s, t);
    let ghost tt = s@.take(t as int);
    assert(tt.subrange(tt.len() - k, tt.len() as int) =~= s@.subrange(t - k, t as int));
    if t == 0 {
        return None;
    }
    if is_dots(s, t - k, t, 1) {
        if k >= t {
            return None;
        }
        assert(tt.take(tt.len() - k) =~= s@.take(t - k));
        return file_name_range(s, t - k);
    }
    if is_dots(s, t - k, t, 2) {
        return None;
    }
    Some((t - k, t))
}

/// The last component of a path, as `Path::file_name` names it.
pub fn file_name(path: &str) -> (n: Option<String>)
    ensures
        match n {
            Some(x) => file_name_of(path@) == Some(x@),
            None => file_name_of(path@) is None,
        },
{
    let chars = chars_of(path);
    assert(chars@.take(chars@.len() as int) =~= path@);
    match file_name_range(chars.as_slice(), chars.len()) {
        Some((a, b)) => {
            let mut name: Vec<char> = Vec::new();
            let mut i: usize = a;
            while i < b
                invariant
                    a <= i <= b <= chars@.len(),
                    name@ == chars@.subrange(a as int, i as int),
                decreases b - i,
            {
                name.push(chars[i]);
                i = i + 1;
                assert(name@ =~= chars@.subrange(a as int, i as int));
            }
            Some(string_of(name.as_slice()))
        },
        None => None,
    }
}

fn plausible(ext: &[char]) -> (b: bool)
    ensures
        b == plausible_extension(ext@),
{
    if ext.len() < 1 || ext.len() > 5 {
        return false;
    }
    let mut i: usize = 0;
    let mut letter = false;
    while i < ext.len()
        invariant
            i <= ext@.len(),
            forall|j: int| 0 <= j < i ==> is_alnum(#[trigger] ext@[j]),
            letter == exists|j: int| 0 <= j < i && is_alpha(#[trigger] ext@[j]),
        decreases ext.len() - i,
    {
        if !is_ascii_alnum(ext[i]) {
            assert(!is_alnum(ext@[i as int]));
            return false;
        }
        if is_ascii_alpha(ext[i]) {
            letter = true;
        }
        i = i + 1;
    }
    letter
}

/// The address's own extension, when it has a plausible one.
///
/// A URL path segment can hold a dot without an extension following it — `/agenda.2026`
/// is a date, and naming a file `agenda.2026` opens it in nothing.
pub fn address_extension(address: &str) -> (e: Option<String>)
    ensures
        match e {
            Some(x) => address_extension_spec(address@) == Some(x@),
            None => address_extension_spec(address@) is None,
        },
{
    let chars = chars_of(address);
    let q = query_start(chars.as_slice());
    match file_name_range(chars.as_slice(), q) {
        Some((a, b)) => {
            let mut name: Vec<char> = Vec::new();
            let mut i = a;
            while i < b
                invariant
                    a <= i <= b <= chars@.len(),
                    name@ == chars@.subrange(a as int, i as int),
                decreases b - i,
            {
                name.push(chars[i]);
                i = i + 1;
                assert(name@ =~= chars@.subrange(a as int, i as int));
            }
            match find_last_dot(name.as_slice()) {
                Some(d) => {
                    if d == 0 {
                        return None;
                    }
                    proof {
                        lemma_last_dot_bounded(name@);
                    }
                    let mut ext: Vec<char> = Vec::new();
                    let mut j = d + 1;
                    while j < name.len()
                        invariant
                            d + 1 <= j <= name@.len(),
                            ext@ == name@.subrange(d + 1, j as int),
                        decreases name.len() - j,
                    {
                        ext.push(name[j]);
                        j = j + 1;
                        assert(ext@ =~= name@.subrange(d + 1, j as int));
                    }
                    if plausible(ext.as_slice()) {
                        Some(string_of(ext.as_slice()))
                    } else {
                        None
                    }
                },
                None => None,
            }
        },
        None => None,
    }
}

// ── the request ────────────────────────────────────────────────────────────

pub struct CheckArgs {
    /// A URL to fetch, or the path of a local file to read.
    pub target: String,
    /// Do not fetch the documents the page carries at their own address.
    pub no_enclosures: bool,
    /// Write the files here instead of a fresh directory under `$TMPDIR`.
    pub out: Option<String>,
    /// Print the whole extracted text rather than its first lines.
    pub print: bool,
    /// Lines of extracted text to show inline.
    pub head: usize,
    pub user_agent: String,
    /// Per-request timeout in seconds.
    pub timeout_secs: u64,
    /// Also ask what enumeration would make of this address: `auto` to ask the registry,
    /// a name to force one.
    pub strategy: Option<String>,
}

pub fn default_head() -> (n: usize)
    ensures
        n == 20,
{
    DEFAULT_HEAD
}

/// `--strategy` with no name: ask the registry rather than naming one.
pub const AUTO: &'static str = "auto";

/// Requests one `check --strategy` may spend, and addresses it will keep: a probe, not a
/// run.
pub const PROBE_REQUESTS: usize = 25;

pub const PROBE_ADDRESSES: usize = 500;

/// Addresses printed before the list is cut off.
pub const SAMPLE: usize = 10;

/// The strategy a probe forces: none for `auto`, which asks the registry.
pub fn forced_strategy(name: &str) -> (s: Option<String>)
    ensures
        match s {
            Some(n) => name@ != AUTO@ && n@ == name@,
            None => name@ == AUTO@,
        },
{
    if str_eq(name, AUTO) {
        None
    } else {
        Some(owned(name))
    }
}

/// What `--strategy` asks of this target.
#[derive(Debug)]
pub enum Enumeration {
    /// Not asked for.
    Skip,
    /// Walk the address, with the strategy forced when one is named.
    Probe { url: String, forced: Option<String> },
}

/// Enumeration is a walk of a host, so a local file cannot have one: asking for it is
/// refused rather than answered with an empty result.
pub fn enumeration_for(strategy: &Option<String>, target: &Target) -> (r: Result<Enumeration, String>)
    ensures
        match (*strategy, *target) {
            (None, _) => r matches Ok(Enumeration::Skip),
            (Some(name), Target::Url(u)) => r matches Ok(Enumeration::Probe { url, forced }) && url@ == u@ && match forced {
                Some(n) => name@ != AUTO@ && n@ == name@,
                None => name@ == AUTO@,
            },
            (Some(_), Target::File(_)) => r matches Err(e) && e@ == "--strategy needs a URL: enumeration is a walk of a host"@,
        },
{
    match strategy {
        None => Ok(Enumeration::Skip),
        Some(name) => match target {
            Target::Url(u) => Ok(Enumeration::Probe { url: owned(u.as_str()), forced: forced_strategy(name.as_str()) }),
            Target::File(_) => Err(owned("--strategy needs a URL: enumeration is a walk of a host")),
        },
    }
}

/// The first `head` lines of extracted text, joined again: where a bad extraction shows.
pub open spec fn head_of(text: Seq<char>, head: nat) -> Seq<char> {
    let ls = text_lines(text);
    join_with(ls.take(if head < ls.len() { head as int } else { ls.len() as int }), "\n"@)
}

pub fn head_lines(text: &str, head: usize) -> (s: String)
    ensures
        s@ == head_of(text@, head as nat),
{
    let ls = lines_of(text);
    let n = if head < ls.len() { head } else { ls.len() };
    let mut out = String::new();
    let mut i: usize = 0;
    while i < n
        invariant
            n <= ls@.len(),
            texts(ls@) == text_lines(text@),
            n == (if head < ls@.len() { head as int } else { ls@.len() as int }),
            i <= n,
            out@ == join_with(texts(ls@).take(i as int), "\n"@),
        decreases n - i,
    {
        if i > 0 {
            out.append("\n");
        }
        out.append(ls[i].as_str());
        i = i + 1;
        assert(texts(ls@).take(i as int).drop_last() =~= texts(ls@).take(i - 1));
    }
    out
}

/// Where a redirect moved the bytes: the final address only when it differs from the one
/// asked for.
pub fn moved_to(final_url: Option<String>, address: &str) -> (m: Option<String>)
    ensures
        match final_url {
            Some(u) => if u@ == address@ { m is None } else { m == Some(u) },
            None => m is None,
        },
{
    match final_url {
        Some(u) => {
            if str_eq(u.as_str(), address) {
                None
            } else {
                Some(u)
            }
        },
        None => None,
    }
}

// ── enumeration, as a probe ────────────────────────────────────────────────

/// What enumeration made of the address, as a probe rather than a run.
#[derive(Debug)]
pub struct Enumerated {
    /// The strategy that ran.
    pub strategy: String,
    /// Whether the strategy that ran also recognised the address.
    pub recognised: bool,
    /// How many addresses came back.
    pub addresses: usize,
    /// The first few, to read.
    pub sample: Vec<String>,
    /// The strategy's own account of itself, the recognition evidence first.
    pub notes: Vec<Note>,
    /// Everything that would explain a wrong count.
    pub warnings: Vec<String>,
}

/// The first note labelled `strategy`, which enumeration writes exactly one of.
pub open spec fn strategy_note(ns: Seq<Note>) -> Option<Note>
    decreases ns.len(),
{
    if ns.len() == 0 {
        None
    } else if ns[0].label@ == "strategy"@ {
        Some(ns[0])
    } else {
        strategy_note(ns.drop_first())
    }
}

/// Recognised unless the strategy note is missing or marked `Warn`: reading the mark
/// back keeps one place deciding what recognised means.
pub open spec fn recognised_by(ns: Seq<Note>) -> bool {
    match strategy_note(ns) {
        Some(n) => n.mark != Some(NoteMark::Warn),
        None => false,
    }
}

pub fn recognised(notes: &Vec<Note>) -> (b: bool)
    ensures
        b == recognised_by(notes@),
{
    let mut i: usize = 0;
    assert(notes@.skip(0) =~= notes@);
    while i < notes.len()
        invariant
            i <= notes@.len(),
            strategy_note(notes@.skip(i as int)) == strategy_note(notes@),
        decreases notes.len() - i,
    {
        assert(notes@.skip(i as int).drop_first() =~= notes@.skip(i + 1));
        if str_eq(notes[i].label.as_str(), "strategy") {
            proof {
                reveal_strlit("strategy");
            }
            return match notes[i].mark {
                Some(NoteMark::Warn) => false,
                _ => true,
            };
        }
        i = i + 1;
    }
    assert(notes@.skip(i as int).len() == 0);
    false
}

impl Enumerated {
    /// What a walk found, reduced to what a probe reports: the count, a sample of the
    /// addresses, and whether the strategy recognised the address.
    pub fn of(strategy: String, found: &Vec<String>, notes: Vec<Note>, warnings: Vec<String>) -> (e: Enumerated)
        ensures
            e.strategy == strategy,
            e.recognised == recognised_by(notes@),
            e.addresses == found@.len(),
            texts(e.sample@) == texts(found@).take(if found@.len() < SAMPLE { found@.len() as int } else { SAMPLE as int }),
            e.notes == notes,
            e.warnings == warnings,
    {
        let n = if found.len() < SAMPLE { found.len() } else { SAMPLE };
        let mut sample: Vec<String> = Vec::new();
        let mut i: usize = 0;
        while i < n
            invariant
                n <= found@.len(),
                i <= n,
                sample@.len() == i,
                forall|j: int| 0 <= j < i ==> #[trigger] sample@[j]@ == found@[j]@,
            decreases n - i,
        {
            sample.push(owned(found[i].as_str()));
            i = i + 1;
        }
        assert(texts(sample@) =~= texts(found@).take(n as int));
        let recognised = recognised(&notes);
        Enumerated { strategy, recognised, addresses: found.len(), sample, notes, warnings }
    }
}

pub open spec fn warning_lines(depth: nat, ws: Seq<Seq<char>>) -> Seq<Seq<char>> {
    ws.map_values(|w: Seq<char>| marked_at(depth, Mark::Warn, flat_all(w)))
}

pub open spec fn address_lines(depth: nat, xs: Seq<Seq<char>>) -> Seq<Seq<char>> {
    xs.map_values(|x: Seq<char>| at(depth, x))
}

/// A sample that reads like a total is the same lie a silent cap tells.
pub open spec fn sample_lines(d: nat, e: Enumerated) -> Seq<Seq<char>> {
    if e.sample@.len() > 0 {
        seq![Seq::<char>::empty()] + address_lines(d, texts(e.sample@)) + (if e.addresses > e.sample@.len() {
            seq![at(d, "… and "@ + decimal((e.addresses - e.sample@.len()) as nat) + " more"@)]
        } else {
            Seq::empty()
        })
    } else {
        Seq::empty()
    }
}

pub open spec fn enumerated_lines(depth: nat, e: Enumerated) -> Seq<Seq<char>> {
    let d = depth + 1;
    seq![
        Seq::<char>::empty(),
        at(depth, "enumeration"@),
        marked_at(
            d,
            if e.recognised { Mark::Good } else { Mark::Warn },
            e.strategy@ + " — "@ + grouped(e.addresses as nat) + " address(es)"@,
        ),
    ] + evidence_lines(d, e.notes@) + warning_lines(d, texts(e.warnings@)) + sample_lines(d, e)
}

fn render_lines(p: &mut Page, xs: &Vec<String>, warn: bool)
    ensures
        final(p).text() == old(p).text() + (if warn {
            warning_lines(old(p).depth as nat, texts(xs@))
        } else {
            address_lines(old(p).depth as nat, texts(xs@))
        }),
        final(p).depth == old(p).depth,
{
    let ghost d = old(p).depth as nat;
    let mut i: usize = 0;
    while i < xs.len()
        invariant
            i <= xs@.len(),
            p.depth == d,
            p.text() == old(p).text() + (if warn {
                warning_lines(d, texts(xs@.take(i as int)))
            } else {
                address_lines(d, texts(xs@.take(i as int)))
            }),
        decreases xs.len() - i,
    {
        if warn {
            let w = one_line(xs[i].as_str());
            p.marked(Mark::Warn, w.as_str());
        } else {
            p.line(xs[i].as_str());
        }
        i = i + 1;
        assert(warning_lines(d, texts(xs@.take(i as int))) =~= warning_lines(d, texts(xs@.take(i - 1))).push(
            marked_at(d, Mark::Warn, flat_all(xs@[i - 1]@)),
        ));
        assert(address_lines(d, texts(xs@.take(i as int))) =~= address_lines(d, texts(xs@.take(i - 1))).push(
            at(d, xs@[i - 1]@),
        ));
    }
    assert(xs@.take(xs@.len() as int) =~= xs@);
}

impl Enumerated {
    pub fn render(&self, p: &mut Page)
        requires
            old(p).depth + 1 < usize::MAX,
        ensures
            final(p).text() == old(p).text() + enumerated_lines(old(p).depth as nat, *self),
            final(p).depth == old(p).depth,
    {
        let ghost d = old(p).depth as nat;
        p.section("enumeration");
        p.enter();
        let mut head = owned(self.strategy.as_str());
        head.append(" — ");
        push_count(&mut head, self.addresses as u64);
        head.append(" address(es)");
        p.marked(if self.recognised { Mark::Good } else { Mark::Warn }, head.as_str());
        render_evidence(p, &self.notes);
        render_lines(p, &self.warnings, true);
        let ghost t = p.text();
        if self.sample.len() > 0 {
            p.blank();
            render_lines(p, &self.sample, false);
            if self.addresses > self.sample.len() {
                let mut more = owned("… and ");
                push_decimal(&mut more, (self.addresses - self.sample.len()) as u64);
                more.append(" more");
                p.line(more.as_str());
            }
        }
        assert(p.text() =~= t + sample_lines(d + 1, *self));
        p.leave();
        assert(p.text() =~= old(p).text() + enumerated_lines(d, *self));
    }
}

// ── one document, as served and as extracted ────────────────────────────────

/// What the read measures made of a document's text, as far as the report says it.
#[derive(Debug)]
pub struct ReadVerdict {
    /// Links in the text.
    pub links: usize,
    /// The share of the text that is link text, as a whole percentage.
    pub link_percent: u64,
    pub poor: bool,
    pub findings: Vec<String>,
}

#[derive(Debug)]
pub struct Checked {
    pub address: String,
    /// True for a document the page carried rather than the address typed.
    pub enclosed: bool,
    pub bytes: usize,
    /// The `content-type` the server declared, or the one inferred from a file's name.
    pub declared_type: Option<String>,
    /// True when `declared_type` came from a filename rather than from a server.
    pub type_inferred: bool,
    pub kind: String,
    pub http_status: Option<String>,
    /// Where the bytes really came from, when a redirect moved it.
    pub final_url: Option<String>,
    /// The bytes as served, on disk.
    pub as_served: String,
    /// The extracted text, on disk. Absent when nothing could be extracted.
    pub extracted: Option<String>,
    /// Which reader spoke, with its version.
    pub tool: Option<String>,
    pub title: Option<String>,
    pub chars: usize,
    pub verdict: Option<ReadVerdict>,
    pub recovered_by_fallback: bool,
    pub pages_needing_ocr: usize,
    pub notes: Vec<String>,
    /// Why nothing came out.
    pub unextractable: Option<String>,
    /// The first `--head` lines of the extracted text.
    pub preview: String,
    /// The whole text, with `--print`.
    pub text: Option<String>,
}

/// The name both of a document's files start with: its place in the list, two digits at
/// least, then its slug, so the files of one document sort together and in order.
pub open spec fn stem_spec(n: nat, address: Seq<char>) -> Seq<char> {
    (if n < 10 { "0"@ + decimal(n) } else { decimal(n) }) + "-"@ + slug_spec(address)
}

/// The stem of the `i`th document's files, counting from one.
pub fn file_stem(i: usize, address: &str) -> (s: String)
    requires
        i < u64::MAX,
    ensures
        s@ == stem_spec((i + 1) as nat, address@),
{
    let n: u64 = (i as u64) + 1;
    let mut s = String::new();
    if n < 10 {
        s.append("0");
    }
    push_decimal(&mut s, n);
    s.append("-");
    let g = slug(address);
    s.append(g.as_str());
    s
}

impl Checked {
    /// A document as fetched, before anything reads it. A redirect is named only when it
    /// went somewhere other than the address asked for.
    pub fn as_fetched(
        address: String,
        enclosed: bool,
        bytes: usize,
        declared_type: Option<String>,
        type_inferred: bool,
        kind: String,
        http_status: Option<String>,
        final_url: Option<String>,
        as_served: String,
    ) -> (c: Checked)
        ensures
            c.address == address && c.enclosed == enclosed && c.bytes == bytes,
            c.declared_type == declared_type && c.type_inferred == type_inferred,
            c.kind == kind && c.http_status == http_status && c.as_served == as_served,
            c.final_url == (match final_url {
                Some(u) => if u@ == address@ { None } else { Some(u) },
                None => None,
            }),
            c.extracted is None && c.tool is None && c.title is None && c.verdict is None,
            c.chars == 0 && !c.recovered_by_fallback && c.pages_needing_ocr == 0,
            c.notes@.len() == 0 && c.unextractable is None && c.preview@.len() == 0 && c.text is None,
    {
        let final_url = match final_url {
            Some(u) => if str_eq(u.as_str(), address.as_str()) { None } else { Some(u) },
            None => None,
        };
        Checked {
            address,
            enclosed,
            bytes,
            declared_type,
            type_inferred,
            kind,
            http_status,
            final_url,
            as_served,
            extracted: None,
            tool: None,
            title: None,
            chars: 0,
            verdict: None,
            recovered_by_fallback: false,
            pages_needing_ocr: 0,
            notes: Vec::new(),
            unextractable: None,
            preview: String::new(),
            text: None,
        }
    }

    /// Nothing could be read out of it, and why.
    pub fn nothing_read(&mut self, reason: String, recovered_by_fallback: bool)
        ensures
            *final(self) == (Checked {
                unextractable: Some(reason),
                recovered_by_fallback,
                ..*old(self)
            }),
    {
        self.unextractable = Some(reason);
        self.recovered_by_fallback = recovered_by_fallback;
    }

    /// What the read gave: where the text was written, which reader and version, its
    /// length, the first `head` lines, and the whole text only when `--print` asked for it.
    pub fn read(
        &mut self,
        extracted: String,
        tool: &str,
        version: &str,
        title: Option<String>,
        text: &str,
        verdict: ReadVerdict,
        recovered_by_fallback: bool,
        pages_needing_ocr: usize,
        notes: Vec<String>,
        head: usize,
        print: bool,
    )
        ensures
            final(self).extracted == Some(extracted),
            final(self).tool matches Some(t) && t@ == tool@ + " "@ + version@,
            final(self).title == title,
            final(self).chars == text@.len(),
            final(self).verdict == Some(verdict),
            final(self).recovered_by_fallback == recovered_by_fallback,
            final(self).pages_needing_ocr == pages_needing_ocr,
            final(self).notes == notes,
            final(self).preview@ == head_of(text@, head as nat),
            (match final(self).text {
                Some(t) => print && t@ == text@,
                None => !print,
            }),
            final(self).address == old(self).address && final(self).as_served == old(self).as_served,
            final(self).kind == old(self).kind && final(self).bytes == old(self).bytes,
            final(self).unextractable == old(self).unextractable,
    {
        let mut t = owned(tool);
        t.append(" ");
        t.append(version);
        self.extracted = Some(extracted);
        self.tool = Some(t);
        self.title = title;
        self.chars = chars_of(text).len();
        self.verdict = Some(verdict);
        self.recovered_by_fallback = recovered_by_fallback;
        self.pages_needing_ocr = pages_needing_ocr;
        self.notes = notes;
        self.preview = head_lines(text, head);
        self.text = if print { Some(owned(text)) } else { None };
    }
}

pub open spec fn facts_of(c: Checked) -> Seq<Seq<char>> {
    seq![c.kind@, human_bytes_of(c.bytes as nat)] + (match c.http_status {
        Some(s) => seq!["HTTP "@ + s@],
        None => Seq::empty(),
    }) + match c.declared_type {
        Some(t) => seq![if c.type_inferred { t@ + " (from the filename)"@ } else { "served as "@ + t@ }],
        None => Seq::empty(),
    }
}

/// A share nobody can see is a measure nobody can calibrate, so it is stated whether or
/// not it is a problem.
pub open spec fn read_by(c: Checked) -> Seq<char> {
    (match c.tool {
        Some(t) => t@,
        None => "unknown"@,
    }) + "  ·  "@ + grouped(c.chars as nat) + " of text"@ + match c.verdict {
        Some(v) => if v.links > 0 { "  ·  "@ + decimal(v.link_percent as nat) + "% link text"@ } else { Seq::empty() },
        None => Seq::empty(),
    }
}

/// A read with a finding against it is not a tick.
pub open spec fn read_mark(c: Checked) -> Mark {
    match c.verdict {
        Some(v) => if v.poor { Mark::Warn } else { Mark::Good },
        None => Mark::Good,
    }
}

pub open spec fn warn_lines(depth: nat, xs: Seq<Seq<char>>) -> Seq<Seq<char>> {
    xs.map_values(|x: Seq<char>| marked_at(depth, Mark::Warn, x))
}

/// The findings, then whether it has a title — its absence is a finding, since the title
/// becomes every chunk's heading path — then the fallback, the scans, the reader's notes.
pub open spec fn detail_lines(d: nat, c: Checked) -> Seq<Seq<char>> {
    (match c.verdict {
        Some(v) => warn_lines(d, texts(v.findings@)),
        None => Seq::empty(),
    }) + seq![
        match c.title {
            Some(t) => at(d, "title  "@ + t@),
            None => marked_at(d, Mark::Warn, "no title found"@),
        },
    ] + (if c.recovered_by_fallback {
        seq![marked_at(d, Mark::Warn, "the primary reader found nothing; the fallback read it"@)]
    } else {
        Seq::empty()
    }) + (if c.pages_needing_ocr > 0 {
        seq![marked_at(d, Mark::Warn, grouped(c.pages_needing_ocr as nat) + " pages are scans no reader here can read"@)]
    } else {
        Seq::empty()
    }) + c.notes@.map_values(|n: String| at(d, note_text(flat_all(n@))))
}

/// Whether a text holds anything but whitespace.
pub open spec fn has_text(s: Seq<char>) -> bool {
    exists|i: int| 0 <= i < s.len() && !is_space(#[trigger] s[i])
}

/// The text itself: all of it with `--print`, else the head, where a bad extraction
/// shows; the ellipsis only when there is more.
pub open spec fn body_lines(d: nat, c: Checked) -> Seq<Seq<char>> {
    let body = match c.text {
        Some(t) => t@,
        None => c.preview@,
    };
    if has_text(body) {
        seq![Seq::<char>::empty()] + text_lines(body).map_values(|l: Seq<char>| at(d, l)) + (if c.text is None && c.chars
            > c.preview@.len() {
            seq![at(d, "…  (--print for all of it)"@)]
        } else {
            Seq::empty()
        })
    } else {
        Seq::empty()
    }
}

pub open spec fn checked_lines(depth: nat, c: Checked) -> Seq<Seq<char>> {
    let d = depth + 1;
    seq![at(depth, if c.enclosed { "enclosed "@ + c.address@ } else { c.address@ }), at(d, join_with(facts_of(c), "  ·  "@))]
        + (match c.final_url {
        Some(u) => seq![at(d, "redirected to "@ + u@)],
        None => Seq::empty(),
    }) + match c.unextractable {
        Some(r) => seq![marked_at(d, Mark::Bad, "no text came out"@), at(d + 1, flat_all(r@))],
        None => seq![marked_at(d, read_mark(c), read_by(c))] + detail_lines(d + 1, c) + body_lines(d, c),
    }
}

fn has_text_exec(s: &str) -> (b: bool)
    ensures
        b == has_text(s@),
{
    let chars = chars_of(s);
    let mut i: usize = 0;
    while i < chars.len()
        invariant
            i <= chars@.len(),
            chars@ == s@,
            forall|j: int| 0 <= j < i ==> is_space(#[trigger] s@[j]),
        decreases chars.len() - i,
    {
        if !is_white(chars[i]) {
            return true;
        }
        i = i + 1;
    }
    false
}

fn render_warns(p: &mut Page, xs: &Vec<String>)
    ensures
        final(p).text() == old(p).text() + warn_lines(old(p).depth as nat, texts(xs@)),
        final(p).depth == old(p).depth,
{
    let ghost d = old(p).depth as nat;
    let mut i: usize = 0;
    while i < xs.len()
        invariant
            i <= xs@.len(),
            p.depth == d,
            p.text() == old(p).text() + warn_lines(d, texts(xs@.take(i as int))),
        decreases xs.len() - i,
    {
        p.marked(Mark::Warn, xs[i].as_str());
        i = i + 1;
        assert(warn_lines(d, texts(xs@.take(i as int))) =~= warn_lines(d, texts(xs@.take(i - 1))).push(
            marked_at(d, Mark::Warn, xs@[i - 1]@),
        ));
    }
    assert(xs@.take(xs@.len() as int) =~= xs@);
}

impl Checked {
    fn facts(&self) -> (s: String)
        ensures
            s@ == join_with(facts_of(*self), "  ·  "@),
    {
        let mut parts: Vec<String> = Vec::new();
        parts.push(owned(self.kind.as_str()));
        parts.push(human_bytes(self.bytes as u64));
        match &self.http_status {
            Some(h) => {
                let mut t = owned("HTTP ");
                t.append(h.as_str());
                parts.push(t);
            },
            None => {},
        }
        match &self.declared_type {
            Some(t) => {
                if self.type_inferred {
                    let mut x = owned(t.as_str());
                    x.append(" (from the filename)");
                    parts.push(x);
                } else {
                    let mut x = owned("served as ");
                    x.append(t.as_str());
                    parts.push(x);
                }
            },
            None => {},
        }
        assert(texts(parts@) =~= facts_of(*self));
        joined(&parts, "  ·  ")
    }

    fn render_details(&self, p: &mut Page)
        ensures
            final(p).text() == old(p).text() + detail_lines(old(p).depth as nat, *self),
            final(p).depth == old(p).depth,
    {
        let ghost d = old(p).depth as nat;
        match &self.verdict {
            Some(v) => render_warns(p, &v.findings),
            None => {},
        }
        let ghost t0 = p.text();
        match &self.title {
            Some(t) => {
                let mut line = owned("title  ");
                line.append(t.as_str());
                p.line(line.as_str());
            },
            None => p.marked(Mark::Warn, "no title found"),
        }
        if self.recovered_by_fallback {
            p.marked(Mark::Warn, "the primary reader found nothing; the fallback read it");
        }
        if self.pages_needing_ocr > 0 {
            let mut line = String::new();
            push_count(&mut line, self.pages_needing_ocr as u64);
            line.append(" pages are scans no reader here can read");
            p.marked(Mark::Warn, line.as_str());
        }
        let ghost t1 = p.text();
        let mut i: usize = 0;
        while i < self.notes.len()
            invariant
                i <= self.notes@.len(),
                p.depth == d,
                p.text() == t1 + self.notes@.take(i as int).map_values(|n: String| at(d, note_text(flat_all(n@)))),
            decreases self.notes.len() - i,
        {
            let n = one_line(self.notes[i].as_str());
            p.note(n.as_str());
            i = i + 1;
            assert(self.notes@.take(i as int).map_values(|n: String| at(d, note_text(flat_all(n@)))) =~= self.notes@.take(
                i - 1,
            ).map_values(|n: String| at(d, note_text(flat_all(n@)))).push(at(d, note_text(flat_all(self.notes@[i - 1]@)))));
        }
        assert(self.notes@.take(self.notes@.len() as int) =~= self.notes@);
        assert(p.text() =~= old(p).text() + detail_lines(d, *self));
    }

    fn render_body(&self, p: &mut Page)
        ensures
            final(p).text() == old(p).text() + body_lines(old(p).depth as nat, *self),
            final(p).depth == old(p).depth,
    {
        let ghost d = old(p).depth as nat;
        let body: &str = match &self.text {
            Some(t) => t.as_str(),
            None => self.preview.as_str(),
        };
        if !has_text_exec(body) {
            assert(p.text() =~= old(p).text() + body_lines(d, *self));
            return;
        }
        p.blank();
        let ls = lines_of(body);
        let ghost top = p.text();
        let mut i: usize = 0;
        while i < ls.len()
            invariant
                i <= ls@.len(),
                p.depth == d,
                p.text() == top + texts(ls@).take(i as int).map_values(|l: Seq<char>| at(d, l)),
            decreases ls.len() - i,
        {
            p.line(ls[i].as_str());
            i = i + 1;
            assert(texts(ls@).take(i as int).map_values(|l: Seq<char>| at(d, l)) =~= texts(ls@).take(i - 1).map_values(
                |l: Seq<char>| at(d, l),
            ).push(at(d, ls@[i - 1]@)));
        }
        assert(texts(ls@).take(ls@.len() as int) =~= texts(ls@));
        let more = self.text.is_none() && self.chars > chars_of(self.preview.as_str()).len();
        if more {
            p.line("…  (--print for all of it)");
        }
        assert(p.text() =~= old(p).text() + body_lines(d, *self));
    }

    #[verifier::spinoff_prover]
    pub fn render(&self, p: &mut Page)
        requires
            old(p).depth + 2 < usize::MAX,
        ensures
            final(p).text() == old(p).text() + checked_lines(old(p).depth as nat, *self),
            final(p).depth == old(p).depth,
    {
        let ghost d = old(p).depth as nat;
        if self.enclosed {
            let mut head = owned("enclosed ");
            head.append(self.address.as_str());
            p.line(head.as_str());
        } else {
            p.line(self.address.as_str());
        }
        p.enter();
        let facts = self.facts();
        p.line(facts.as_str());
        match &self.final_url {
            Some(u) => {
                let mut line = owned("redirected to ");
                line.append(u.as_str());
                p.line(line.as_str());
            },
            None => {},
        }
        let ghost t0 = p.text();
        match &self.unextractable {
            Some(reason) => {
                p.marked(Mark::Bad, "no text came out");
                p.enter();
                let r = one_line(reason.as_str());
                p.line(r.as_str());
                p.leave();
            },
            None => {
                let mut line = match &self.tool {
                    Some(t) => owned(t.as_str()),
                    None => owned("unknown"),
                };
                line.append("  ·  ");
                push_count(&mut line, self.chars as u64);
                line.append(" of text");
                let mut poor = false;
                match &self.verdict {
                    Some(v) => {
                        if v.links > 0 {
                            line.append("  ·  ");
                            push_decimal(&mut line, v.link_percent);
                            line.append("% link text");
                        }
                        poor = v.poor;
                    },
                    None => {},
                }
                assert(line@ =~= read_by(*self));
                p.marked(if poor { Mark::Warn } else { Mark::Good }, line.as_str());
                p.enter();
                self.render_details(p);
                p.leave();
                self.render_body(p);
            },
        }
        p.leave();
        assert(p.text() =~= old(p).text() + checked_lines(d, *self));
    }
}

// ── the whole check ─────────────────────────────────────────────────────────

#[derive(Debug)]
pub struct CheckReport {
    /// What was typed.
    pub target: String,
    /// Where the files were written.
    pub dir: String,
    /// True when `dir` is a temporary directory this run created.
    pub temporary: bool,
    pub documents: Vec<Checked>,
    /// Documents the page named that this run did not fetch. A silent cap reads exactly
    /// like a page that carried nothing.
    pub not_fetched: Vec<String>,
    /// What `--strategy` found. Absent unless it was asked for.
    pub enumeration: Option<Enumerated>,
    /// The command this platform opens a file with.
    pub opener: String,
    pub elapsed_millis: u64,
}

/// The two commands, spelled out ready to paste: a command assembled from two places on
/// screen is one retyped wrong.
pub open spec fn command_lines(d: nat, opener: Seq<char>, c: Checked) -> Seq<Seq<char>> {
    seq![Seq::<char>::empty()] + (match c.extracted {
        Some(x) => seq![at(d, pad("read"@, 6) + "less "@ + x@)],
        None => Seq::empty(),
    }) + seq![at(d, pad("open"@, 6) + opener + " "@ + c.as_served@)]
}

pub open spec fn documents_lines(d: nat, opener: Seq<char>, cs: Seq<Checked>) -> Seq<Seq<char>>
    decreases cs.len(),
{
    if cs.len() == 0 {
        Seq::empty()
    } else {
        documents_lines(d, opener, cs.drop_last()) + (if cs.len() > 1 {
            seq![Seq::<char>::empty()]
        } else {
            Seq::empty()
        }) + checked_lines(d, cs.last()) + command_lines(d + 1, opener, cs.last())
    }
}

/// The text before the paths: most of the time the first lines answer the question and
/// nothing needs opening.
pub open spec fn check_lines(depth: nat, r: CheckReport) -> Seq<Seq<char>> {
    let d = depth + 1;
    seq![at(depth, title_text(r.target@, duration_of(r.elapsed_millis as nat)))] + documents_lines(d, r.opener@, r.documents@)
        + (if r.not_fetched@.len() > 0 {
        seq![Seq::<char>::empty(), at(d, "not fetched"@)] + warn_lines(d, texts(r.not_fetched@).map_values(|n: Seq<char>| flat_all(n)))
    } else {
        Seq::empty()
    }) + (match r.enumeration {
        Some(e) => seq![Seq::<char>::empty()] + enumerated_lines(d, e),
        None => Seq::empty(),
    }) + (if r.temporary {
        seq![Seq::<char>::empty(), at(d, "files are in "@ + r.dir@ + " — nothing was stored"@)]
    } else {
        Seq::empty()
    })
}

impl CheckReport {
    fn commands_for(&self, doc: &Checked, p: &mut Page)
        ensures
            final(p).text() == old(p).text() + command_lines(old(p).depth as nat, self.opener@, *doc),
            final(p).depth == old(p).depth,
    {
        p.blank();
        match &doc.extracted {
            Some(x) => {
                let mut line = pad_to("read", 6);
                line.append("less ");
                line.append(x.as_str());
                p.line(line.as_str());
            },
            None => {},
        }
        let mut line = pad_to("open", 6);
        line.append(self.opener.as_str());
        line.append(" ");
        line.append(doc.as_served.as_str());
        p.line(line.as_str());
        assert(p.text() =~= old(p).text() + command_lines(old(p).depth as nat, self.opener@, *doc));
    }

    fn render_documents(&self, p: &mut Page)
        requires
            old(p).depth + 3 < usize::MAX,
        ensures
            final(p).text() == old(p).text() + documents_lines(old(p).depth as nat, self.opener@, self.documents@),
            final(p).depth == old(p).depth,
    {
        let ghost d = old(p).depth as nat;
        let mut i: usize = 0;
        while i < self.documents.len()
            invariant
                i <= self.documents@.len(),
                p.depth == d,
                d + 3 < usize::MAX,
                p.text() == old(p).text() + documents_lines(d, self.opener@, self.documents@.take(i as int)),
            decreases self.documents.len() - i,
        {
            assert(self.documents@.take(i + 1).drop_last() =~= self.documents@.take(i as int));
            if i > 0 {
                p.blank();
            }
            self.documents[i].render(p);
            p.enter();
            self.commands_for(&self.documents[i], p);
            p.leave();
            i = i + 1;
            assert(p.text() =~= old(p).text() + documents_lines(d, self.opener@, self.documents@.take(i as int)));
        }
        assert(self.documents@.take(self.documents@.len() as int) =~= self.documents@);
    }

    fn render_rest(&self, p: &mut Page)
        requires
            old(p).depth + 3 < usize::MAX,
        ensures
            final(p).text() == old(p).text() + (if self.not_fetched@.len() > 0 {
                seq![Seq::<char>::empty(), at(old(p).depth as nat, "not fetched"@)] + warn_lines(
                    old(p).depth as nat,
                    texts(self.not_fetched@).map_values(|n: Seq<char>| flat_all(n)),
                )
            } else {
                Seq::empty()
            }) + (match self.enumeration {
                Some(e) => seq![Seq::<char>::empty()] + enumerated_lines(old(p).depth as nat, e),
                None => Seq::empty(),
            }) + (if self.temporary {
                seq![Seq::<char>::empty(), at(old(p).depth as nat, "files are in "@ + self.dir@ + " — nothing was stored"@)]
            } else {
                Seq::empty()
            }),
            final(p).depth == old(p).depth,
    {
        let ghost d = old(p).depth as nat;
        if self.not_fetched.len() > 0 {
            p.section("not fetched");
            let ghost top = p.text();
            let mut i: usize = 0;
            while i < self.not_fetched.len()
                invariant
                    i <= self.not_fetched@.len(),
                    p.depth == d,
                    p.text() == top + warn_lines(d, texts(self.not_fetched@.take(i as int)).map_values(|n: Seq<char>| flat_all(n))),
                decreases self.not_fetched.len() - i,
            {
                let n = one_line(self.not_fetched[i].as_str());
                p.marked(Mark::Warn, n.as_str());
                i = i + 1;
                assert(warn_lines(d, texts(self.not_fetched@.take(i as int)).map_values(|n: Seq<char>| flat_all(n))) =~= warn_lines(
                    d,
                    texts(self.not_fetched@.take(i - 1)).map_values(|n: Seq<char>| flat_all(n)),
                ).push(marked_at(d, Mark::Warn, flat_all(self.not_fetched@[i - 1]@))));
            }
            assert(self.not_fetched@.take(self.not_fetched@.len() as int) =~= self.not_fetched@);
        }
        let ghost t1 = p.text();
        match &self.enumeration {
            Some(e) => {
                p.blank();
                e.render(p);
            },
            None => {},
        }
        let ghost t2 = p.text();
        if self.temporary {
            p.blank();
            let mut line = owned("files are in ");
            line.append(self.dir.as_str());
            line.append(" — nothing was stored");
            p.line(line.as_str());
        }
        assert(p.text() =~= t2 + (if self.temporary {
            seq![Seq::<char>::empty(), at(d, "files are in "@ + self.dir@ + " — nothing was stored"@)]
        } else {
            Seq::empty()
        }));
    }

    pub fn render(&self, p: &mut Page)
        requires
            old(p).depth + 4 < usize::MAX,
        ensures
            final(p).text() == old(p).text() + check_lines(old(p).depth as nat, *self),
            final(p).depth == old(p).depth,
    {
        let took = duration(self.elapsed_millis);
        p.title(self.target.as_str(), took.as_str());
        p.enter();
        self.render_documents(p);
        self.render_rest(p);
        p.leave();
        assert(p.text() =~= old(p).text() + check_lines(old(p).depth as nat, *self));
    }
}

} // verus!
