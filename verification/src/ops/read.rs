//! `read` — return the text of a collected document.
//!
//! The counterpart to `open`, and the one an agent wants: characters, not a window on
//! somebody's screen. Resolving the target and fetching the blobs are the host's; what is
//! decided here is which page of the text a read returns, whether there is more, and how
//! the report reads.
use vstd::prelude::*;

use crate::ops::open::{short_of, short_sha};
use crate::page::{at, indent, lemma_indent_spaces, marked_at, says, Mark, Page};
use crate::text::{chars_of, decimal, grouped, holds, lemma_holds_across, lemma_holds_between, lemma_holds_within, lemma_text_lines_hold, lines_of, push_count, push_decimal, string_of, text_lines};

verus! {

#[derive(Debug)]
pub struct ReadArgs {
    /// A URL, a substring of one, or a blob hash.
    pub target: String,
    /// Maximum characters to return. 0 returns everything.
    pub max_chars: usize,
    /// Start at this character offset, for paging through a long document.
    pub offset: usize,
    /// Restrict the search for `target` to one source.
    pub source: Option<String>,
}

/// Defaulted rather than unbounded: a 300-page budget PDF would otherwise arrive as one
/// enormous tool result.
pub fn default_max_chars() -> (n: usize)
    ensures
        n == 20000,
{
    20000
}

#[derive(Debug)]
pub struct ReadReport {
    pub url: String,
    pub source: String,
    /// The kind of the *original* document, even though the text is derived from it.
    pub kind: String,
    /// SHA-256 of the original bytes as served — the evidentiary anchor.
    pub blob_sha: String,
    /// SHA-256 of the text itself. Also a valid target.
    pub derived_sha: String,
    pub observed_at: String,
    /// Which extraction pipeline produced this text.
    pub tool: String,
    pub text: String,
    /// Characters returned.
    pub chars: usize,
    /// Total characters available, so a caller knows whether to page.
    pub total_chars: usize,
    pub offset: usize,
    /// True when `offset + chars < total_chars`.
    pub truncated: bool,
    /// Other matches for an ambiguous target. The first was used.
    pub other_matches: Vec<String>,
}

// ── paging ──────────────────────────────────────────────────────────────────

/// The characters of `s` from `offset` on, at most `max` of them; every one when `max`
/// is zero.
pub open spec fn window_of(s: Seq<char>, offset: nat, max: nat) -> Seq<char> {
    let rest = if offset >= s.len() { Seq::empty() } else { s.skip(offset as int) };
    if max == 0 || max >= rest.len() { rest } else { rest.take(max as int) }
}

/// One page of a document, and where it stands in the whole.
#[derive(Debug)]
pub struct Window {
    pub text: String,
    pub chars: usize,
    pub total_chars: usize,
    pub truncated: bool,
}

/// The page of `full` a read with this offset and limit returns.
pub fn window(full: &str, offset: usize, max_chars: usize) -> (w: Window)
    ensures
        w.text@ == window_of(full@, offset as nat, max_chars as nat),
        w.chars == w.text@.len(),
        w.total_chars == full@.len(),
        w.truncated == (offset + w.chars < full@.len()),
{
    let chars = chars_of(full);
    let total = chars.len();
    let mut v: Vec<char> = Vec::new();
    if offset < total {
        let end: usize = if max_chars == 0 || max_chars >= total - offset { total } else { offset + max_chars };
        let mut i: usize = offset;
        while i < end
            invariant
                chars@ == full@,
                offset <= i <= end <= chars@.len(),
                v@ == chars@.subrange(offset as int, i as int),
            decreases end - i,
        {
            v.push(chars[i]);
            i = i + 1;
            assert(v@ =~= chars@.subrange(offset as int, i as int));
        }
        assert(v@ =~= window_of(full@, offset as nat, max_chars as nat));
    } else {
        assert(v@ =~= window_of(full@, offset as nat, max_chars as nat));
    }
    let n = v.len();
    let truncated = offset < total && n < total - offset;
    Window { text: string_of(v.as_slice()), chars: n, total_chars: total, truncated }
}

/// A page and the read that starts where it stopped give back the text from the page's
/// offset on: reading `--offset` as the footer offers loses nothing and repeats nothing.
pub proof fn law_pages_reassemble(s: Seq<char>, offset: nat, max: nat)
    requires
        max > 0,
    ensures
        window_of(s, offset, max) + window_of(s, offset + window_of(s, offset, max).len(), 0) == window_of(s, offset, 0),
{
    let first = window_of(s, offset, max);
    let rest = window_of(s, offset + first.len(), 0);
    if offset >= s.len() {
        assert(first.len() == 0);
        assert(rest =~= Seq::<char>::empty());
        assert(first + rest =~= window_of(s, offset, 0));
    } else if max >= s.len() - offset {
        assert(rest =~= Seq::<char>::empty());
        assert(first + rest =~= window_of(s, offset, 0));
    } else {
        assert(first + rest =~= window_of(s, offset, 0));
    }
}

/// A read is truncated exactly when the read that starts where it stopped has text left.
pub proof fn law_truncated_means_more(s: Seq<char>, offset: nat, max: nat)
    ensures
        (offset + window_of(s, offset, max).len() < s.len()) == (window_of(
            s,
            offset + window_of(s, offset, max).len(),
            0,
        ).len() > 0),
{
}

// ── the extraction ──────────────────────────────────────────────────────────

/// The newest extraction of a document, as the log records it: the hash of the text, and
/// the tool and version that made it.
#[derive(Debug)]
pub struct Extraction {
    pub to_sha: String,
    pub tool: String,
    pub version: String,
}

pub open spec fn no_text_message(key: Seq<char>) -> Seq<char> {
    "no extracted text for "@ + key + " — run `extract` first"@
}

/// The extraction a read of `key` draws on; a document nothing has extracted yet is
/// refused, with the step that fixes it.
pub fn extraction_or_refusal(key: &str, latest: Option<Extraction>) -> (r: Result<Extraction, String>)
    ensures
        match latest {
            Some(x) => r matches Ok(y) && y == x,
            None => r matches Err(e) && e@ == no_text_message(key@),
        },
{
    match latest {
        Some(x) => Ok(x),
        None => {
            let mut e = crate::text::owned("no extracted text for ");
            e.append(key);
            e.append(" — run `extract` first");
            Err(e)
        },
    }
}

impl ReadReport {
    /// The report of a read: the page of the extracted text `full` that `args` asks for,
    /// where it stands in the whole, and the provenance of both halves.
    pub fn assemble(
        url: String,
        source: String,
        kind: String,
        blob_sha: String,
        observed_at: String,
        extraction: Extraction,
        full: &str,
        args: &ReadArgs,
        other_matches: Vec<String>,
    ) -> (r: ReadReport)
        ensures
            r.url == url,
            r.source == source,
            r.kind == kind,
            r.blob_sha == blob_sha,
            r.derived_sha == extraction.to_sha,
            r.observed_at == observed_at,
            r.tool@ == extraction.tool@ + " "@ + extraction.version@,
            r.text@ == window_of(full@, args.offset as nat, args.max_chars as nat),
            r.chars == r.text@.len(),
            r.total_chars == full@.len(),
            r.offset == args.offset,
            r.truncated == (args.offset + r.chars < full@.len()),
            r.other_matches == other_matches,
    {
        let w = window(full, args.offset, args.max_chars);
        let mut tool = crate::text::owned(extraction.tool.as_str());
        tool.append(" ");
        tool.append(extraction.version.as_str());
        ReadReport {
            url,
            source,
            kind,
            blob_sha,
            derived_sha: extraction.to_sha,
            observed_at,
            tool,
            text: w.text,
            chars: w.chars,
            total_chars: w.total_chars,
            offset: args.offset,
            truncated: w.truncated,
            other_matches,
        }
    }
}

// ── how it reads ────────────────────────────────────────────────────────────

pub open spec fn provenance(r: ReadReport) -> Seq<char> {
    short_of(r.blob_sha@) + " · "@ + r.source@ + " · "@ + r.kind@ + " · "@ + r.tool@ + " · "@ + r.observed_at@
}

pub open spec fn others_text(n: nat) -> Seq<char> {
    decimal(n) + " other "@ + (if n == 1 { "address"@ } else { "addresses"@ }) + " matched; this is the first"@
}

pub open spec fn paging_lines(depth: nat, r: ReadReport) -> Seq<Seq<char>> {
    if r.truncated {
        seq![
            Seq::<char>::empty(),
            at(
                depth,
                grouped(r.offset as nat) + "–"@ + grouped((r.offset + r.chars) as nat) + " of "@ + grouped(
                    r.total_chars as nat,
                ) + " characters"@,
            ),
            at(depth, "--offset "@ + decimal((r.offset + r.chars) as nat)),
        ]
    } else {
        Seq::empty()
    }
}

/// A header of provenance, then the document line by line, unwrapped; then, only when
/// there is a rest, where the reader is and how to get the rest.
pub open spec fn report_lines(depth: nat, r: ReadReport) -> Seq<Seq<char>> {
    seq![at(depth, r.url@), at(depth, provenance(r))] + (if r.other_matches@.len() > 0 {
        seq![marked_at(depth, Mark::Warn, others_text(r.other_matches@.len() as nat))]
    } else {
        Seq::empty()
    }) + seq![Seq::<char>::empty()] + text_lines(r.text@).map_values(|l: Seq<char>| at(depth, l)) + paging_lines(
        depth,
        r,
    )
}

/// The header leads with the short hash of the original bytes, which `read` and `open`
/// take back. A read that stopped short ends by naming the offset that continues it; a
/// read that reached the end ends with the text itself and gives no paging at all.
pub proof fn law_read_header_and_paging(depth: nat, r: ReadReport)
    ensures
        ({
            let ls = report_lines(depth, r);
            &&& says(ls, short_of(r.blob_sha@))
            &&& (r.truncated ==> ls.last() == at(depth, "--offset "@ + decimal((r.offset + r.chars) as nat)))
            &&& (!r.truncated ==> paging_lines(depth, r).len() == 0 && ls.len() == 3 + (if r.other_matches@.len() > 0 {
                1int
            } else {
                0int
            }) + text_lines(r.text@).len())
        }),
{
    let ls = report_lines(depth, r);
    let rest = " · "@ + r.source@ + " · "@ + r.kind@ + " · "@ + r.tool@ + " · "@ + r.observed_at@;
    assert(ls[1] == at(depth, provenance(r)));
    assert(at(depth, provenance(r)) =~= indent(depth) + short_of(r.blob_sha@) + rest);
    lemma_holds_between(indent(depth), short_of(r.blob_sha@), rest);
}

proof fn lemma_at_holds(depth: nat, x: Seq<char>, p: Seq<char>)
    requires
        p.len() > 0,
        !p.contains(' '),
        holds(at(depth, x), p),
    ensures
        holds(x, p),
{
    lemma_indent_spaces(depth);
    let ind = indent(depth);
    if ind.len() == 0 {
        assert(at(depth, x) =~= x);
    } else {
        assert forall|i: int| 0 <= i < ind.len() implies !p.contains(#[trigger] ind[i]) by {}
        assert(at(depth, x) =~= Seq::<char>::empty() + ind + x);
        lemma_holds_across(Seq::<char>::empty(), ind, x, p);
    }
}

/// A read that reached the end of the text offers no way to continue: no line of the
/// report says `--offset`, so long as nothing the report quotes says it.
pub proof fn law_a_complete_read_offers_no_paging(depth: nat, r: ReadReport)
    requires
        !r.truncated,
        !holds(r.url@, "--offset"@),
        !holds(r.blob_sha@, "--offset"@),
        !holds(r.source@, "--offset"@),
        !holds(r.kind@, "--offset"@),
        !holds(r.tool@, "--offset"@),
        !holds(r.observed_at@, "--offset"@),
        !holds(r.text@, "--offset"@),
    ensures
        !says(report_lines(depth, r), "--offset"@),
{
    reveal_strlit("--offset");
    reveal_strlit(" · ");
    reveal_strlit(" other ");
    reveal_strlit("address");
    reveal_strlit("addresses");
    reveal_strlit(" matched; this is the first");
    reveal_strlit("! ");
    let p = "--offset"@;
    let sep = " · "@;
    assert(p.len() == 8 && p[0] == '-');
    assert(!p.contains(' ')) by {
        assert forall|i: int| 0 <= i < p.len() implies p[i] != ' ' by {}
    }
    assert(!p.contains('·')) by {
        assert forall|i: int| 0 <= i < p.len() implies p[i] != '·' by {}
    }
    assert forall|i: int| 0 <= i < sep.len() implies !p.contains(#[trigger] sep[i]) by {}
    let ls = report_lines(depth, r);
    // The provenance line: each field, then a separator the phrase cannot cross.
    let sh = short_of(r.blob_sha@);
    assert(!holds(sh, p)) by {
        if r.blob_sha@.len() > 12 {
            if holds(sh, p) {
                lemma_holds_within(r.blob_sha@, 0, 12, p);
            }
        }
    }
    let x1 = sh + sep + r.source@;
    let x2 = x1 + sep + r.kind@;
    let x3 = x2 + sep + r.tool@;
    let x4 = x3 + sep + r.observed_at@;
    assert(provenance(r) =~= x4);
    if holds(x1, p) {
        lemma_holds_across(sh, sep, r.source@, p);
    }
    if holds(x2, p) {
        lemma_holds_across(x1, sep, r.kind@, p);
    }
    if holds(x3, p) {
        lemma_holds_across(x2, sep, r.tool@, p);
    }
    if holds(x4, p) {
        lemma_holds_across(x3, sep, r.observed_at@, p);
    }
    lemma_text_lines_hold(r.text@, p);
    let n = r.other_matches@.len() as nat;
    let others = if r.other_matches@.len() > 0 {
        seq![marked_at(depth, Mark::Warn, others_text(n))]
    } else {
        Seq::empty()
    };
    let body = text_lines(r.text@).map_values(|l: Seq<char>| at(depth, l));
    assert(paging_lines(depth, r).len() == 0);
    assert(ls =~= seq![at(depth, r.url@), at(depth, provenance(r))] + others + seq![Seq::<char>::empty()] + body);
    if r.other_matches@.len() > 0 {
        lemma_indent_spaces(depth);
        crate::text::lemma_decimal_digits(n);
        let line = marked_at(depth, Mark::Warn, others_text(n));
        assert forall|i: int| 0 <= i < line.len() implies #[trigger] line[i] != p[0] by {
            let ind = indent(depth);
            let g = "! "@;
            let d = decimal(n);
            let tail = " other "@ + (if n == 1 { "address"@ } else { "addresses"@ }) + " matched; this is the first"@;
            assert(line =~= ind + g + d + tail);
            if i < ind.len() {
                assert(line[i] == ind[i]);
            } else if i < ind.len() + g.len() {
                assert(line[i] == g[i - ind.len()]);
            } else if i < ind.len() + g.len() + d.len() {
                assert(line[i] == d[i - ind.len() - g.len()]);
                assert(crate::text::is_digit(d[i - ind.len() - g.len()]));
            } else {
                let j = i - ind.len() - g.len() - d.len();
                assert(line[i] == tail[j]);
                assert forall|m: int| 0 <= m < tail.len() implies #[trigger] tail[m] != '-' by {
                    let a = " other "@;
                    let b = if n == 1 { "address"@ } else { "addresses"@ };
                    let c = " matched; this is the first"@;
                    if m < a.len() {
                        assert(tail[m] == a[m]);
                    } else if m < a.len() + b.len() {
                        assert(tail[m] == b[m - a.len()]);
                    } else {
                        assert(tail[m] == c[m - a.len() - b.len()]);
                    }
                }
            }
        }
        crate::text::lemma_holds_needs_first(line, p);
    }
    assert forall|i: int| 0 <= i < ls.len() implies !holds(#[trigger] ls[i], p) by {
        let k = 2 + others.len();
        if i == 0 {
            if holds(ls[0], p) {
                lemma_at_holds(depth, r.url@, p);
            }
        } else if i == 1 {
            if holds(ls[1], p) {
                lemma_at_holds(depth, provenance(r), p);
            }
        } else if i < k {
            assert(ls[i] == others[0]);
        } else if i == k {
            assert(ls[i] == Seq::<char>::empty());
        } else {
            let j = i - k - 1;
            assert(ls[i] == body[j]);
            assert(body[j] == at(depth, text_lines(r.text@)[j]));
            if holds(ls[i], p) {
                lemma_at_holds(depth, text_lines(r.text@)[j], p);
            }
        }
    }
}

impl ReadReport {
    pub fn render(&self, p: &mut Page)
        requires
            self.offset + self.chars <= u64::MAX,
        ensures
            final(p).text() == old(p).text() + report_lines(old(p).depth as nat, *self),
            final(p).depth == old(p).depth,
    {
        let ghost d = old(p).depth as nat;
        p.line(self.url.as_str());
        let mut head = short_sha(self.blob_sha.as_str());
        head.append(" · ");
        head.append(self.source.as_str());
        head.append(" · ");
        head.append(self.kind.as_str());
        head.append(" · ");
        head.append(self.tool.as_str());
        head.append(" · ");
        head.append(self.observed_at.as_str());
        assert(head@ =~= provenance(*self));
        p.line(head.as_str());
        if self.other_matches.len() > 0 {
            let n = self.other_matches.len();
            let mut note = String::new();
            push_decimal(&mut note, n as u64);
            note.append(" other ");
            note.append(if n == 1 { "address" } else { "addresses" });
            note.append(" matched; this is the first");
            assert(note@ =~= others_text(n as nat));
            p.marked(Mark::Warn, note.as_str());
        }
        p.blank();
        let ghost top = p.text();
        let lines = lines_of(self.text.as_str());
        let ghost ls = text_lines(self.text@);
        let mut i: usize = 0;
        while i < lines.len()
            invariant
                i <= lines@.len(),
                lines@.map_values(|l: String| l@) == ls,
                p.depth == d,
                p.text() == top + ls.take(i as int).map_values(|l: Seq<char>| at(d, l)),
            decreases lines.len() - i,
        {
            assert(lines@.map_values(|l: String| l@)[i as int] == lines@[i as int]@);
            p.line(lines[i].as_str());
            i = i + 1;
            assert(ls.take(i as int).map_values(|l: Seq<char>| at(d, l)) =~= ls.take(i - 1).map_values(
                |l: Seq<char>| at(d, l),
            ).push(at(d, ls[i - 1])));
        }
        assert(ls.take(ls.len() as int) =~= ls);
        if self.truncated {
            p.blank();
            let end: u64 = (self.offset as u64) + (self.chars as u64);
            let mut position = String::new();
            push_count(&mut position, self.offset as u64);
            position.append("–");
            push_count(&mut position, end);
            position.append(" of ");
            push_count(&mut position, self.total_chars as u64);
            position.append(" characters");
            p.line(position.as_str());
            let mut next = String::new();
            next.append("--offset ");
            push_decimal(&mut next, end);
            p.line(next.as_str());
        }
        assert(p.text() =~= old(p).text() + report_lines(d, *self));
    }
}

} // verus!
