//! `open` — read a collected document in a real application.
//!
//! Both halves of a document are reachable: the original bytes as served, and the
//! derived markdown. The original is the default, except for a caption track, whose only
//! human content is the text inside it. What is decided here is which half opens, how an
//! opener setting becomes a command, and how the confirmation reads; materialising the
//! blob and launching the application are the host's.
use vstd::prelude::*;

use crate::ops::models::{human_bytes, human_bytes_of, lemma_human_bytes_dashless};
use crate::page::{at, indent, lemma_indent_spaces, marked_at, says, Mark, Page};
use crate::text::{chars_of, grouped, holds, is_space, is_white, lemma_holds_across, lemma_holds_between, lemma_holds_within, owned, plural, plural_of, push_char, starts, string_of};

verus! {

#[derive(Debug)]
pub struct OpenArgs {
    /// A URL, a substring of one, or a blob hash.
    pub target: String,
    /// Open the extracted text rather than the original bytes.
    pub derived: bool,
    /// Open the bytes as served, even for a kind that defaults to its extracted text.
    pub original: bool,
    /// Application or `command {path}` template, overriding the config.
    pub with: Option<String>,
    /// Materialise and print the path without launching anything.
    pub print_path: bool,
    /// Restrict the search for `target` to one source.
    pub source: Option<String>,
}

#[derive(Debug)]
pub struct OpenReport {
    pub url: String,
    pub source: String,
    pub kind: String,
    /// The materialised path under `current/`.
    pub path: String,
    /// SHA-256 of the original bytes as served — the evidentiary anchor.
    pub blob_sha: String,
    /// The blob actually put on disk. Equal to `blob_sha` unless this is derived text.
    pub opened_sha: String,
    pub bytes: usize,
    /// Whether this is the original bytes or the extracted text.
    pub derived: bool,
    /// The command run, or none with `--print-path`.
    pub opened_with: Option<String>,
    /// Other matches, when `target` was ambiguous. The first was used.
    pub other_matches: Vec<String>,
}

// ── which half ──────────────────────────────────────────────────────────────

/// Whether the half to open is already decided without looking at the bytes: by a flag,
/// or by a target that named an extraction.
pub fn settled(derived: bool, original: bool, named_derived: bool) -> (b: bool)
    ensures
        b == (derived || original || named_derived),
{
    derived || original || named_derived
}

/// Whether the extracted text opens. `--original` is an instruction and beats every
/// inference, including a hash that named the extraction; a caption track opens as its
/// transcript unless told otherwise.
pub fn opens_derived(derived: bool, original: bool, named_derived: bool, captions: bool) -> (b: bool)
    ensures
        b == (!original && (derived || named_derived || captions)),
{
    !original && (derived || named_derived || captions)
}

pub open spec fn no_extraction_message(key: Seq<char>) -> Seq<char> {
    "no extracted text for "@ + key
        + " — run `centinel extract` first, or `--original` to open the bytes as served"@
}

/// The blob an open hands over. The original unless the extraction opens; then the one a
/// typed-back hash named, else the newest extraction; and when there is none, a refusal
/// that names both ways forward.
pub fn opened_blob(
    key: &str,
    blob_sha: &str,
    derived: bool,
    named: Option<String>,
    latest: Option<String>,
) -> (r: Result<String, String>)
    ensures
        !derived ==> (r matches Ok(s) && s@ == blob_sha@),
        derived && named is Some ==> (r matches Ok(s) && s == named->0),
        derived && named is None && latest is Some ==> (r matches Ok(s) && s == latest->0),
        derived && named is None && latest is None ==> (r matches Err(e) && e@ == no_extraction_message(key@)),
{
    if !derived {
        return Ok(crate::text::owned(blob_sha));
    }
    match named {
        Some(n) => Ok(n),
        None => match latest {
            Some(l) => Ok(l),
            None => {
                let mut e = crate::text::owned("no extracted text for ");
                e.append(key);
                e.append(" — run `centinel extract` first, or `--original` to open the bytes as served");
                Err(e)
            },
        },
    }
}

/// Whether an open launches anything: not with `--print-path`, which only materialises the
/// file and says where it is.
pub fn launches(args: &OpenArgs) -> (b: bool)
    ensures
        b == !args.print_path,
{
    !args.print_path
}

/// The opener to run: `--with` when given, else the one the config names for the kind.
pub fn opener_of(args: &OpenArgs, configured: &str) -> (o: String)
    ensures
        o@ == (match args.with {
            Some(w) => w@,
            None => configured@,
        }),
{
    match &args.with {
        Some(w) => owned(w.as_str()),
        None => owned(configured),
    }
}

/// The kind of what is opened: extracted text is markdown whatever the original was.
pub fn opened_kind(derived: bool, original_kind: &str) -> (k: String)
    ensures
        k@ == (if derived { "markdown"@ } else { original_kind@ }),
{
    if derived { owned("markdown") } else { owned(original_kind) }
}

impl OpenReport {
    /// The report of an open. The extracted half reads as markdown whatever the original
    /// was; the original keeps the kind its bytes classify as. With `--print-path` nothing
    /// was launched, so no command is reported.
    pub fn assemble(
        args: &OpenArgs,
        url: String,
        source: String,
        original_kind: String,
        path: String,
        blob_sha: String,
        opened_sha: String,
        bytes: usize,
        derived: bool,
        command: Option<String>,
        other_matches: Vec<String>,
    ) -> (r: OpenReport)
        ensures
            r.url == url && r.source == source && r.path == path && r.bytes == bytes,
            r.blob_sha == blob_sha && r.opened_sha == opened_sha,
            r.derived == derived,
            r.kind@ == (if derived { "markdown"@ } else { original_kind@ }),
            r.opened_with == (if args.print_path { None } else { command }),
            r.other_matches == other_matches,
    {
        let kind = if derived { owned("markdown") } else { original_kind };
        let opened_with = if args.print_path { None } else { command };
        OpenReport { url, source, kind, path, blob_sha, opened_sha, bytes, derived, opened_with, other_matches }
    }
}

// ── the command ─────────────────────────────────────────────────────────────

/// Where the program runs, as far as which opener it has.
#[derive(Clone, Copy, Debug, PartialEq, Eq)]
pub enum Platform {
    MacOs,
    Windows,
    Other,
}

pub open spec fn system_opener_of(p: Platform) -> Seq<char> {
    match p {
        Platform::MacOs => "open"@,
        Platform::Windows => "explorer"@,
        Platform::Other => "xdg-open"@,
    }
}

/// The command this platform opens a file with.
pub fn system_opener(platform: Platform) -> (s: &'static str)
    ensures
        s@ == system_opener_of(platform),
{
    match platform {
        Platform::MacOs => "open",
        Platform::Windows => "explorer",
        Platform::Other => "xdg-open",
    }
}

/// The whitespace-separated words of `s`, in order.
pub open spec fn words(s: Seq<char>) -> Seq<Seq<char>>
    decreases s.len(),
{
    if s.len() == 0 {
        Seq::empty()
    } else {
        let w = words(s.drop_last());
        let c = s.last();
        if is_space(c) {
            w
        } else if s.len() > 1 && !is_space(s[s.len() - 2]) && w.len() > 0 {
            w.update(w.len() - 1, w.last().push(c))
        } else {
            w.push(seq![c])
        }
    }
}

/// `t` with every `{path}` in it, left to right, replaced by `path`.
pub open spec fn fill(t: Seq<char>, path: Seq<char>) -> Seq<char>
    decreases t.len(),
{
    if t.len() == 0 {
        Seq::empty()
    } else if starts(t, placeholder()) {
        path + fill(t.skip(6), path)
    } else {
        seq![t[0]] + fill(t.drop_first(), path)
    }
}

pub open spec fn placeholder() -> Seq<char> {
    seq!['{', 'p', 'a', 't', 'h', '}']
}

/// Whether `{path}` occurs in `s`.
pub open spec fn has_placeholder(s: Seq<char>) -> bool {
    exists|i: int| 0 <= i < s.len() && #[trigger] starts(s.skip(i), placeholder())
}

/// The program and its arguments an opener setting stands for, or `None` when a
/// template has no words at all.
///
/// - `system`, or nothing: the platform's own handler, given the path;
/// - anything holding `{path}`: a command template, split on whitespace, `{path}` filled in;
/// - anything else: an application name (on macOS through `open -a`).
pub open spec fn launch_plan(opener: Seq<char>, path: Seq<char>, platform: Platform) -> Option<(Seq<char>, Seq<Seq<char>>)> {
    if opener == "system"@ || opener.len() == 0 {
        Some((system_opener_of(platform), seq![path]))
    } else if has_placeholder(opener) {
        let parts = words(opener).map_values(|t: Seq<char>| fill(t, path));
        if parts.len() == 0 { None } else { Some((parts[0], parts.drop_first())) }
    } else if platform == Platform::MacOs {
        Some(("open"@, seq!["-a"@, opener, path]))
    } else {
        Some((opener, seq![path]))
    }
}

/// Whether `s[at..]` begins with `{path}`.
fn placeholder_at(s: &Vec<char>, at: usize) -> (b: bool)
    requires
        at <= s@.len(),
    ensures
        b == starts(s@.skip(at as int), placeholder()),
{
    if s.len() - at < 6 {
        return false;
    }
    let b = s[at] == '{' && s[at + 1] == 'p' && s[at + 2] == 'a' && s[at + 3] == 't' && s[at + 4] == 'h' && s[at + 5]
        == '}';
    assert(b == (s@.skip(at as int).take(6) =~= placeholder()));
    b
}

fn find_placeholder(s: &Vec<char>) -> (b: bool)
    ensures
        b == has_placeholder(s@),
{
    let mut i: usize = 0;
    while i < s.len()
        invariant
            i <= s@.len(),
            forall|j: int| 0 <= j < i ==> !starts(#[trigger] s@.skip(j), placeholder()),
        decreases s.len() - i,
    {
        if placeholder_at(s, i) {
            return true;
        }
        i = i + 1;
    }
    false
}

/// A word with `{path}` filled in.
fn filled(t: &Vec<char>, path: &str) -> (out: String)
    ensures
        out@ == fill(t@, path@),
{
    let mut out = String::new();
    let mut i: usize = 0;
    assert(t@.skip(0) =~= t@);
    while i < t.len()
        invariant
            i <= t@.len(),
            out@ + fill(t@.skip(i as int), path@) == fill(t@, path@),
        decreases t.len() - i,
    {
        let ghost rest = t@.skip(i as int);
        if placeholder_at(t, i) {
            out.append(path);
            assert(rest.skip(6) =~= t@.skip(i + 6));
            i = i + 6;
        } else {
            push_char(&mut out, t[i]);
            assert(rest.drop_first() =~= t@.skip(i + 1));
            assert(rest[0] == t@[i as int]);
            i = i + 1;
        }
    }
    assert(t@.skip(t@.len() as int) =~= Seq::<char>::empty());
    out
}

/// The words of `s`, split on whitespace.
pub fn split_words(s: &Vec<char>) -> (ws: Vec<Vec<char>>)
    ensures
        ws@.map_values(|w: Vec<char>| w@) == words(s@),
{
    let mut ws: Vec<Vec<char>> = Vec::new();
    let mut i: usize = 0;
    while i < s.len()
        invariant
            i <= s@.len(),
            ws@.map_values(|w: Vec<char>| w@) == words(s@.take(i as int)),
        decreases s.len() - i,
    {
        let c = s[i];
        let ghost prev = s@.take(i as int);
        assert(s@.take(i + 1).drop_last() =~= prev);
        if is_white(c) {
        } else if i > 0 && !is_white(s[i - 1]) && ws.len() > 0 {
            let last = ws.len() - 1;
            let mut w = ws[last].clone();
            w.push(c);
            ws.set(last, w);
            assert(ws@.map_values(|w: Vec<char>| w@) =~= words(prev).update(
                words(prev).len() - 1,
                words(prev).last().push(c),
            ));
        } else {
            let mut w: Vec<char> = Vec::new();
            w.push(c);
            ws.push(w);
            assert(ws@.map_values(|w: Vec<char>| w@) =~= words(prev).push(seq![c]));
        }
        i = i + 1;
    }
    assert(s@.take(s@.len() as int) =~= s@);
    ws
}

/// Turns an opener setting into a program and its arguments.
pub fn launch_command(opener: &str, path: &str, platform: Platform) -> (r: Option<(String, Vec<String>)>)
    ensures
        match launch_plan(opener@, path@, platform) {
            Some((program, args)) => r matches Some((p, a)) && p@ == program && a@.map_values(
                |s: String| s@,
            ) == args,
            None => r is None,
        },
{
    let chars = chars_of(opener);
    if crate::text::str_eq(opener, "system") || chars.len() == 0 {
        let mut args: Vec<String> = Vec::new();
        args.push(owned(path));
        assert(args@.map_values(|s: String| s@) =~= seq![path@]);
        return Some((owned(system_opener(platform)), args));
    }
    if find_placeholder(&chars) {
        let ws = split_words(&chars);
        if ws.len() == 0 {
            return None;
        }
        let ghost parts = words(opener@).map_values(|t: Seq<char>| fill(t, path@));
        let program = filled(&ws[0], path);
        let mut args: Vec<String> = Vec::new();
        let mut i: usize = 1;
        while i < ws.len()
            invariant
                1 <= i <= ws@.len(),
                ws@.map_values(|w: Vec<char>| w@) == words(opener@),
                parts == words(opener@).map_values(|t: Seq<char>| fill(t, path@)),
                args@.map_values(|s: String| s@) == parts.subrange(1, i as int),
            decreases ws.len() - i,
        {
            let word = filled(&ws[i], path);
            assert(ws@.map_values(|w: Vec<char>| w@)[i as int] == ws@[i as int]@);
            assert(ws@[i as int]@ == words(opener@)[i as int]);
            assert(parts[i as int] == fill(words(opener@)[i as int], path@));
            let ghost before = args@.map_values(|s: String| s@);
            assert(before == parts.subrange(1, i as int));
            args.push(word);
            assert(args@.map_values(|s: String| s@) =~= before.push(parts[i as int]));
            assert(args@.map_values(|s: String| s@) =~= parts.subrange(1, i + 1));
            i = i + 1;
        }
        assert(ws@.map_values(|w: Vec<char>| w@)[0] == ws@[0]@);
        assert(ws@[0]@ == words(opener@)[0]);
        assert(parts.drop_first() =~= parts.subrange(1, parts.len() as int));
        return Some((program, args));
    }
    let mut args: Vec<String> = Vec::new();
    match platform {
        Platform::MacOs => {
            args.push(owned("-a"));
            args.push(owned(opener));
            args.push(owned(path));
            assert(args@.map_values(|s: String| s@) =~= seq!["-a"@, opener@, path@]);
            Some((owned("open"), args))
        },
        _ => {
            args.push(owned(path));
            assert(args@.map_values(|s: String| s@) =~= seq![path@]);
            Some((owned(opener), args))
        },
    }
}

// ── how it reads ────────────────────────────────────────────────────────────

/// The first twelve characters of a hash: enough to type back.
pub open spec fn short_of(sha: Seq<char>) -> Seq<char> {
    if sha.len() <= 12 { sha } else { sha.take(12) }
}

pub fn short_sha(sha: &str) -> (s: String)
    ensures
        s@ == short_of(sha@),
{
    let chars = chars_of(sha);
    if chars.len() <= 12 {
        return owned(sha);
    }
    let mut head: Vec<char> = Vec::new();
    let mut i: usize = 0;
    while i < 12
        invariant
            chars@ == sha@,
            12 < chars@.len(),
            i <= 12,
            head@ == chars@.take(i as int),
        decreases 12 - i,
    {
        head.push(chars[i]);
        i = i + 1;
        assert(head@ =~= chars@.take(i as int));
    }
    string_of(head.as_slice())
}

pub open spec fn what_text(r: OpenReport) -> Seq<char> {
    short_of(r.blob_sha@) + " · "@ + r.source@ + " · "@ + r.kind@ + " · "@ + human_bytes_of(r.bytes as nat) + (if r.derived {
        " · extracted text"@
    } else {
        Seq::empty()
    })
}

/// One line of confirmation; both hashes when the extraction was opened, and the way back.
pub open spec fn report_lines(depth: nat, r: OpenReport) -> Seq<Seq<char>> {
    let d = depth + 1;
    (match r.opened_with {
        Some(cmd) => seq![marked_at(depth, Mark::Good, cmd@), at(d, r.path@)],
        None => seq![at(depth, r.path@)],
    }) + seq![at(d, what_text(r))] + (if r.derived {
        seq![
            at(d, short_of(r.opened_sha@) + " · the extracted text itself"@),
            at(d, "--original  opens the bytes as served"@),
        ]
    } else {
        Seq::empty()
    }) + (if r.other_matches@.len() > 0 {
        seq![at(d, plural_of(r.other_matches@.len() as nat, "address"@, "addresses"@) + " other matched; this is the first"@)]
    } else {
        Seq::empty()
    })
}

proof fn lemma_after_blanks(pre: Seq<char>, x: Seq<char>, p: Seq<char>)
    requires
        p.len() > 0,
        forall|i: int| 0 <= i < pre.len() ==> !p.contains(#[trigger] pre[i]),
        holds(pre + x, p),
    ensures
        holds(x, p),
{
    if pre.len() == 0 {
        assert(pre + x =~= x);
    } else {
        assert(pre + x =~= Seq::<char>::empty() + pre + x);
        lemma_holds_across(Seq::<char>::empty(), pre, x, p);
    }
}

/// An open of the original bytes never offers `--original`: the way back is said only when
/// the extraction was opened, so long as nothing the report quotes says it.
pub proof fn law_the_way_back_is_offered_only_from_the_extraction(depth: nat, r: OpenReport)
    requires
        !r.derived,
        !holds(r.path@, "--original"@),
        !holds(r.blob_sha@, "--original"@),
        !holds(r.source@, "--original"@),
        !holds(r.kind@, "--original"@),
        r.opened_with matches Some(c) ==> !holds(c@, "--original"@),
    ensures
        !says(report_lines(depth, r), "--original"@),
{
    reveal_strlit("--original");
    reveal_strlit(" · ");
    reveal_strlit("✓ ");
    reveal_strlit("address");
    reveal_strlit("addresses");
    reveal_strlit(" other matched; this is the first");
    let p = "--original"@;
    let sep = " · "@;
    let d = depth + 1;
    assert(p.len() == 10 && p[0] == '-');
    assert(forall|i: int| 0 <= i < p.len() ==> p[i] != ' ' && p[i] != '·' && p[i] != '✓');
    assert(!p.contains(' ') && !p.contains('·') && !p.contains('✓'));
    assert forall|i: int| 0 <= i < sep.len() implies !p.contains(#[trigger] sep[i]) by {}
    lemma_indent_spaces(depth);
    lemma_indent_spaces(d);
    assert forall|i: int| 0 <= i < indent(depth).len() implies !p.contains(#[trigger] indent(depth)[i]) by {}
    assert forall|i: int| 0 <= i < indent(d).len() implies !p.contains(#[trigger] indent(d)[i]) by {}
    let ls = report_lines(depth, r);
    // The line saying what was opened.
    let sh = short_of(r.blob_sha@);
    assert(!holds(sh, p)) by {
        if r.blob_sha@.len() > 12 && holds(sh, p) {
            lemma_holds_within(r.blob_sha@, 0, 12, p);
        }
    }
    let hb = human_bytes_of(r.bytes as nat);
    lemma_human_bytes_dashless(r.bytes as nat);
    crate::text::lemma_holds_needs_first(hb, p);
    let x1 = sh + sep + r.source@;
    let x2 = x1 + sep + r.kind@;
    let x3 = x2 + sep + hb;
    assert(what_text(r) =~= x3);
    if holds(x1, p) {
        lemma_holds_across(sh, sep, r.source@, p);
    }
    if holds(x2, p) {
        lemma_holds_across(x1, sep, r.kind@, p);
    }
    if holds(x3, p) {
        lemma_holds_across(x2, sep, hb, p);
    }
    let head = match r.opened_with {
        Some(cmd) => seq![marked_at(depth, Mark::Good, cmd@), at(d, r.path@)],
        None => seq![at(depth, r.path@)],
    };
    let n = r.other_matches@.len() as nat;
    let others = if r.other_matches@.len() > 0 {
        seq![at(d, plural_of(n, "address"@, "addresses"@) + " other matched; this is the first"@)]
    } else {
        Seq::empty()
    };
    assert(ls =~= head + seq![at(d, what_text(r))] + others);
    if r.other_matches@.len() > 0 {
        let t = plural_of(n, "address"@, "addresses"@) + " other matched; this is the first"@;
        crate::text::lemma_numbers_dashless(n);
        let many = if n == 1 { "address"@ } else { "addresses"@ };
        assert(crate::text::dashless(many)) by {}
        assert(crate::text::dashless(seq![' '])) by {}
        assert(crate::text::dashless(" other matched; this is the first"@)) by {}
        crate::text::lemma_dashless_concat(grouped(n), seq![' ']);
        crate::text::lemma_dashless_concat(grouped(n) + seq![' '], many);
        crate::text::lemma_dashless_concat(plural_of(n, "address"@, "addresses"@), " other matched; this is the first"@);
        crate::text::lemma_holds_needs_first(t, p);
        if holds(at(d, t), p) {
            lemma_after_blanks(indent(d), t, p);
        }
    }
    assert forall|i: int| 0 <= i < ls.len() implies !holds(#[trigger] ls[i], p) by {
        match r.opened_with {
            Some(cmd) => {
                if i == 0 && holds(ls[0], p) {
                    let pre = indent(depth) + "✓ "@;
                    assert forall|j: int| 0 <= j < pre.len() implies !p.contains(#[trigger] pre[j]) by {
                        if j >= indent(depth).len() {
                            assert(pre[j] == "✓ "@[j - indent(depth).len()]);
                        }
                    }
                    assert(ls[0] =~= pre + cmd@);
                    lemma_after_blanks(pre, cmd@, p);
                }
                if i == 1 && holds(ls[1], p) {
                    lemma_after_blanks(indent(d), r.path@, p);
                }
                if i == 2 && holds(ls[2], p) {
                    lemma_after_blanks(indent(d), what_text(r), p);
                }
            },
            None => {
                if i == 0 && holds(ls[0], p) {
                    lemma_after_blanks(indent(depth), r.path@, p);
                }
                if i == 1 && holds(ls[1], p) {
                    lemma_after_blanks(indent(d), what_text(r), p);
                }
            },
        }
    }
}

/// An open always shows the short hash of the original bytes, whichever half it opened.
/// When it opened the extraction it also shows that text's own hash and how to open the
/// original instead; when it opened the original it shows neither.
pub proof fn law_open_shows_the_way_back(depth: nat, r: OpenReport)
    ensures
        ({
            let d = depth + 1;
            let ls = report_lines(depth, r);
            let head = match r.opened_with {
                Some(c) => 2nat,
                None => 1nat,
            };
            let others = if r.other_matches@.len() > 0 { 1nat } else { 0nat };
            &&& says(ls, short_of(r.blob_sha@))
            &&& (r.derived ==> says(ls, short_of(r.opened_sha@)) && ls.contains(
                at(d, "--original  opens the bytes as served"@),
            ))
            &&& (!r.derived ==> ls.len() == head + 1 + others)
        }),
{
    let d = depth + 1;
    let ls = report_lines(depth, r);
    let h: int = match r.opened_with {
        Some(c) => 2,
        None => 1,
    };
    let rest = " · "@ + r.source@ + " · "@ + r.kind@ + " · "@ + human_bytes_of(r.bytes as nat) + (if r.derived {
        " · extracted text"@
    } else {
        Seq::empty()
    });
    assert(ls[h] == at(d, what_text(r)));
    assert(at(d, what_text(r)) =~= indent(d) + short_of(r.blob_sha@) + rest);
    lemma_holds_between(indent(d), short_of(r.blob_sha@), rest);
    if r.derived {
        assert(ls[h + 1] =~= indent(d) + short_of(r.opened_sha@) + " · the extracted text itself"@);
        lemma_holds_between(indent(d), short_of(r.opened_sha@), " · the extracted text itself"@);
        assert(ls[h + 2] == at(d, "--original  opens the bytes as served"@));
    }
}

impl OpenReport {
    pub fn render(&self, p: &mut Page)
        requires
            old(p).depth + 1 < usize::MAX,
        ensures
            final(p).text() == old(p).text() + report_lines(old(p).depth as nat, *self),
            final(p).depth == old(p).depth,
    {
        match &self.opened_with {
            Some(cmd) => {
                p.marked(Mark::Good, cmd.as_str());
                p.enter();
                p.line(self.path.as_str());
                p.leave();
            },
            None => p.line(self.path.as_str()),
        }
        p.enter();
        let mut what = short_sha(self.blob_sha.as_str());
        what.append(" · ");
        what.append(self.source.as_str());
        what.append(" · ");
        what.append(self.kind.as_str());
        what.append(" · ");
        let size = human_bytes(self.bytes as u64);
        what.append(size.as_str());
        if self.derived {
            what.append(" · extracted text");
        }
        assert(what@ =~= what_text(*self));
        p.line(what.as_str());
        if self.derived {
            let mut opened = short_sha(self.opened_sha.as_str());
            opened.append(" · the extracted text itself");
            p.line(opened.as_str());
            p.line("--original  opens the bytes as served");
        }
        if self.other_matches.len() > 0 {
            let mut note = plural(self.other_matches.len() as u64, "address", "addresses");
            note.append(" other matched; this is the first");
            p.line(note.as_str());
        }
        p.leave();
        assert(p.text() =~= old(p).text() + report_lines(old(p).depth as nat, *self));
    }
}

} // verus!
