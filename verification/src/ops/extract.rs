//! `extract` — derive text from everything collected.
//!
//! Reads the blob pool, never the network. The host walks each source's latest
//! observations, reads blobs and runs the readers; what is decided here is which
//! documents are worth reading, what each read counts as, which of them are named in the
//! report, and how the report reads.
use vstd::prelude::*;

use crate::address::opt_view;
use crate::counts::{val, Counts};
use crate::domain::{pad, pad_to};
use crate::ops::collect::{count_rows, render_counts};
use crate::ops::models::{human_bytes, human_bytes_of};
use crate::page::{at, figure_text, marked_at, title_text, Mark, Page};
use crate::op::{ItemOutcome, Verdict};
use crate::ops::investigate::ReadQuality;
use crate::ops::schedule::{joined, texts};
use crate::text::{chars_of, decimal, flat_all, grouped, join_with, one_line, owned, push_char, push_count, push_decimal};

verus! {

/// Poor reads named in the report before the list is cut off: the count carries the
/// scale, the names are there to be looked at.
pub const POOR_SAMPLE: usize = 5;

/// Unreadable documents named in the report.
pub const UNREADABLE_SAMPLE: usize = 20;

/// How much of a document's text a sample shows.
pub const PREVIEW_CHARS: usize = 180;

pub struct ExtractArgs {
    /// Source to extract. Omit to extract every source in the store.
    pub source: Option<String>,
    /// Stop after this many documents.
    pub limit: Option<usize>,
    /// Re-derive documents that already have a derivation.
    pub refresh: bool,
    /// Only extract this content kind — `html`, `pdf`, `spreadsheet`.
    pub kind: Option<String>,
    /// Documents to show in the report.
    pub sample: usize,
}

pub fn default_sample() -> (n: usize)
    ensures
        n == 5,
{
    5
}

impl Default for ExtractArgs {
    fn default() -> (a: Self)
        ensures
            a.source is None,
            a.limit is None,
            !a.refresh,
            a.kind is None,
            a.sample == 5,
    {
        ExtractArgs { source: None, limit: None, refresh: false, kind: None, sample: default_sample() }
    }
}

#[derive(Debug)]
pub struct ExtractSample {
    pub url: String,
    pub kind: String,
    pub tool: String,
    pub chars: usize,
    pub title: Option<String>,
    /// First line or so of the derived text — enough to eyeball quality.
    pub preview: String,
}

#[derive(Debug)]
pub struct Unreadable {
    pub url: String,
    pub kind: String,
    pub reason: String,
}

/// A document that yielded text nothing should have wanted. Both numbers, not the ratio.
#[derive(Debug)]
pub struct PoorRead {
    pub url: String,
    pub chars: usize,
    pub bytes: usize,
    pub findings: Vec<String>,
}

#[derive(Debug)]
pub struct ExtractReport {
    pub sources: Vec<String>,
    pub observations: usize,
    /// Skipped because a derivation already existed.
    pub already_derived: usize,
    /// Skipped because this pipeline version already found nothing to extract here.
    pub already_unextractable: usize,
    pub attempted: usize,
    /// Documents that would have been attempted, had `--limit` not stopped the loop.
    pub left_by_limit: usize,
    pub extracted: usize,
    /// The primary reader found no text and a fallback did.
    pub recovered_by_fallback: usize,
    /// Extracted, but some pages are scans needing OCR we cannot perform.
    pub needs_ocr: usize,
    pub unextractable: usize,
    /// Documents that produced text the read measures call bad.
    pub poor_reads: usize,
    /// A sample of them, to look at rather than infer.
    pub poor: Vec<PoorRead>,
    pub chars_of_text: usize,
    /// Which pipeline handled how many documents.
    pub by_tool: Counts,
    pub by_kind: Counts,
    /// Pages whose scans we could not read.
    pub ocr_pages_pending: usize,
    pub unreadable: Vec<Unreadable>,
    pub sample: Vec<ExtractSample>,
}

/// What reading one document came to.
#[derive(Debug)]
pub enum Outcome {
    /// Nothing can be read out of this: a fact about the format.
    Unextractable { reason: String },
    /// Text came out, and some pages are images nothing can read until OCR exists.
    Partial { text: String, title: Option<String>, tool: String, version: String, pages_needing_ocr: usize },
    Text { text: String, title: Option<String>, tool: String, version: String },
}

/// What a read leaves in the log.
#[derive(Debug)]
pub enum Filing {
    /// A verdict that nothing can be read here, so the next run skips it rather than
    /// learning the same thing again.
    Underivable { reason: String },
    /// The text as a blob of its own and the derivation that points at it. An empty text is
    /// filed too: it is what the tool read, and the next run need not read it again.
    Derivation { text: String, tool: String, version: String },
}

/// What to file for a read: a verdict when nothing came out, else the text and the tool
/// and version that produced it.
pub fn filing(outcome: &Outcome) -> (f: Filing)
    ensures
        match *outcome {
            Outcome::Unextractable { reason } => f matches Filing::Underivable { reason: r } && r@ == reason@,
            Outcome::Partial { text, tool, version, .. } => f matches Filing::Derivation { text: t, tool: w, version: v }
                && t@ == text@ && w@ == tool@ && v@ == version@,
            Outcome::Text { text, tool, version, .. } => f matches Filing::Derivation { text: t, tool: w, version: v }
                && t@ == text@ && w@ == tool@ && v@ == version@,
        },
{
    match outcome {
        Outcome::Unextractable { reason } => Filing::Underivable { reason: owned(reason.as_str()) },
        Outcome::Partial { text, tool, version, .. } | Outcome::Text { text, tool, version, .. } => Filing::Derivation {
            text: owned(text.as_str()),
            tool: owned(tool.as_str()),
            version: owned(version.as_str()),
        },
    }
}

/// What to do with the next document.
#[derive(Clone, Copy, Debug, PartialEq, Eq, Structural)]
pub enum Step {
    /// The limit is reached: count what is left and stop.
    Stop,
    AlreadyDerived,
    AlreadyUnextractable,
    Read,
}

pub open spec fn step_of(limit: Option<usize>, refresh: bool, attempted: nat, derived: bool, given_up: bool) -> Step {
    if limit matches Some(l) && attempted >= l {
        Step::Stop
    } else if !refresh && derived {
        Step::AlreadyDerived
    } else if !refresh && given_up {
        Step::AlreadyUnextractable
    } else {
        Step::Read
    }
}

/// A document is read only while the limit has room: a run that reads only when `step`
/// says so, and counts every read as an attempt, never attempts more than `--limit`.
pub proof fn law_a_limit_caps_what_is_read(limit: Option<usize>, refresh: bool, attempted: nat, derived: bool, given_up: bool)
    ensures
        step_of(limit, refresh, attempted, derived, given_up) == Step::Read ==> match limit {
            Some(l) => attempted + 1 <= l,
            None => true,
        },
        (limit matches Some(l) && attempted >= l) ==> step_of(limit, refresh, attempted, derived, given_up) == Step::Stop,
{
}

/// Whether a document still ahead counts as work a full pass would have done.
pub open spec fn outstanding(refresh: bool, derived: bool, given_up: bool) -> bool {
    refresh || (!derived && !given_up)
}

/// How many of the documents still ahead, each as (already derived, already given up
/// on), a full pass would have tried.
pub open spec fn outstanding_count(refresh: bool, ahead: Seq<(bool, bool)>) -> nat
    decreases ahead.len(),
{
    if ahead.len() == 0 {
        0
    } else {
        outstanding_count(refresh, ahead.drop_last()) + if outstanding(refresh, ahead.last().0, ahead.last().1) {
            1nat
        } else {
            0nat
        }
    }
}

/// Counted rather than merely stopped: everything still ahead that a full pass would
/// have tried, so the figure is work outstanding and not documents seen.
pub fn left_behind(refresh: bool, ahead: &[(bool, bool)]) -> (n: usize)
    ensures
        n == outstanding_count(refresh, ahead@),
{
    let mut n: usize = 0;
    let mut i: usize = 0;
    while i < ahead.len()
        invariant
            i <= ahead@.len(),
            n == outstanding_count(refresh, ahead@.take(i as int)),
            n <= i,
        decreases ahead.len() - i,
    {
        let (derived, given_up) = ahead[i];
        assert(ahead@.take(i + 1).drop_last() =~= ahead@.take(i as int));
        if refresh || (!derived && !given_up) {
            n = n + 1;
        }
        i = i + 1;
    }
    assert(ahead@.take(ahead@.len() as int) =~= ahead@);
    n
}

/// Whether a document of `kind` passes the `--kind` filter.
pub fn wants_kind(filter: &Option<String>, kind: &str) -> (b: bool)
    ensures
        b == (match filter {
            Some(want) => want@ == kind@,
            None => true,
        }),
{
    match filter {
        Some(want) => crate::text::str_eq(want.as_str(), kind),
        None => true,
    }
}

/// The text a sample shows: its first characters, on one line.
pub open spec fn preview_of(text: Seq<char>) -> Seq<char> {
    text.take(if text.len() < 180 { text.len() as int } else { 180 }).map_values(
        |c: char| if c == '\n' { ' ' } else { c },
    )
}

pub fn preview(text: &str) -> (p: String)
    ensures
        p@ == preview_of(text@),
{
    let chars = chars_of(text);
    let n = if chars.len() < PREVIEW_CHARS { chars.len() } else { PREVIEW_CHARS };
    let mut out = String::new();
    let mut i: usize = 0;
    while i < n
        invariant
            n <= chars@.len(),
            chars@ == text@,
            n == (if text@.len() < 180 { text@.len() as int } else { 180 }),
            i <= n,
            out@ == text@.take(i as int).map_values(|c: char| if c == '\n' { ' ' } else { c }),
        decreases n - i,
    {
        let c = chars[i];
        push_char(&mut out, if c == '\n' { ' ' } else { c });
        i = i + 1;
        assert(out@ =~= text@.take(i as int).map_values(|c: char| if c == '\n' { ' ' } else { c }));
    }
    assert(text@.take(n as int).map_values(|c: char| if c == '\n' { ' ' } else { c }) =~= preview_of(text@));
    out
}

/// The note a partly scanned document carries.
pub open spec fn ocr_note(pages: nat) -> Seq<char> {
    decimal(pages) + " page"@ + (if pages == 1 { ""@ } else { "s"@ }) + " need OCR"@
}

impl Outcome {
    /// The text that came out, if any.
    pub open spec fn text_of(&self) -> Option<Seq<char>> {
        match self {
            Outcome::Unextractable { .. } => None,
            Outcome::Partial { text, .. } => Some(text@),
            Outcome::Text { text, .. } => Some(text@),
        }
    }
}

/// The counts a report keeps in step with one another: every attempted document was
/// either extracted or found unextractable; the per-tool counts add up to the documents
/// extracted and the per-kind counts to the documents attempted; the poor reads and the unreadable documents
/// are named up to their caps and no further, so each list holds exactly the lesser of
/// its count and its cap; and the sample never outruns what was extracted.
pub open spec fn consistent(r: ExtractReport) -> bool {
    &&& r.extracted + r.unextractable == r.attempted
    &&& r.by_tool.total() == r.extracted
    &&& r.by_kind.total() == r.attempted
    &&& r.needs_ocr <= r.extracted
    &&& r.poor_reads <= r.extracted
    &&& r.recovered_by_fallback <= r.attempted
    &&& r.poor@.len() == (if r.poor_reads < POOR_SAMPLE { r.poor_reads } else { POOR_SAMPLE })
    &&& r.unreadable@.len() == (if r.unextractable < UNREADABLE_SAMPLE { r.unextractable } else { UNREADABLE_SAMPLE })
    &&& r.sample@.len() <= r.extracted
}

/// The named sample holds exactly the first `cap` documents extracted, or all of them
/// while there are fewer.
pub open spec fn sampled(r: ExtractReport, cap: nat) -> bool {
    r.sample@.len() == (if r.extracted < cap { r.extracted as nat } else { cap })
}

/// Room for one more document in every counter, and for `chars` more characters of text
/// and `pages` more pages awaiting OCR.
pub open spec fn has_room(r: ExtractReport, chars: nat, pages: nat) -> bool {
    &&& r.attempted < usize::MAX
    &&& r.extracted < usize::MAX
    &&& r.unextractable < usize::MAX
    &&& r.needs_ocr < usize::MAX
    &&& r.poor_reads < usize::MAX
    &&& r.recovered_by_fallback < usize::MAX
    &&& r.chars_of_text + chars <= usize::MAX
    &&& r.ocr_pages_pending + pages <= usize::MAX
}

pub open spec fn pages_of(o: Outcome) -> nat {
    match o {
        Outcome::Partial { pages_needing_ocr, .. } => pages_needing_ocr as nat,
        _ => 0,
    }
}

pub open spec fn chars_in(o: Outcome) -> nat {
    match o.text_of() {
        Some(t) => t.len(),
        None => 0,
    }
}

pub open spec fn added_one(before: Option<u64>, after: Option<u64>) -> bool {
    after == Some(
        match before {
            Some(v) => if v + 1 > u64::MAX { u64::MAX } else { (v + 1) as u64 },
            None => 1u64,
        },
    )
}

/// Everything a read leaves alone: what was seen and skipped before it.
pub open spec fn same_context(a: ExtractReport, b: ExtractReport) -> bool {
    &&& b.sources == a.sources
    &&& b.observations == a.observations
    &&& b.already_derived == a.already_derived
    &&& b.already_unextractable == a.already_unextractable
    &&& b.left_by_limit == a.left_by_limit
}

/// The progress item of a document read: the address, its kind as the tag, its size.
pub open spec fn item_of(item: ItemOutcome, url: Seq<char>, kind: Seq<char>, bytes: nat, millis: u64) -> bool {
    &&& item.address@ == url
    &&& item.tag@ == kind
    &&& item.noun@ == "documents"@
    &&& item.bytes == bytes
    &&& item.millis == millis
    &&& !item.nested
}

pub open spec fn names_unreadable(u: Unreadable, url: Seq<char>, kind: Seq<char>, reason: Seq<char>) -> bool {
    u.url@ == url && u.kind@ == kind && u.reason@ == reason
}

/// A document nothing could read: counted, named while there is room, and reported as
/// missing, which is a fact about the format rather than a fault in the run.
pub open spec fn took_unextractable(a: ExtractReport, b: ExtractReport, item: ItemOutcome, url: Seq<char>, kind: Seq<char>, reason: Seq<char>) -> bool {
    &&& b.unextractable == a.unextractable + 1
    &&& b.extracted == a.extracted
    &&& b.needs_ocr == a.needs_ocr
    &&& b.ocr_pages_pending == a.ocr_pages_pending
    &&& b.poor_reads == a.poor_reads
    &&& b.poor == a.poor
    &&& b.chars_of_text == a.chars_of_text
    &&& b.by_tool == a.by_tool
    &&& b.sample == a.sample
    &&& if a.unreadable@.len() < UNREADABLE_SAMPLE {
        &&& b.unreadable@.len() == a.unreadable@.len() + 1
        &&& b.unreadable@.drop_last() == a.unreadable@
        &&& names_unreadable(b.unreadable@.last(), url, kind, reason)
    } else {
        b.unreadable == a.unreadable
    }
    &&& item.verdict == Verdict::Missing
    &&& item.produced == Some(0u64)
    &&& item.detail matches Some(d) && d@ == reason
}

pub open spec fn names_poor(p: PoorRead, url: Seq<char>, read: ReadQuality, bytes: nat) -> bool {
    p.url@ == url && p.chars == read.chars && p.bytes == bytes && texts(p.findings@) == texts(read.findings@)
}

pub open spec fn names_sample(s: ExtractSample, url: Seq<char>, kind: Seq<char>, tool: Seq<char>, text: Seq<char>, title: Option<String>) -> bool {
    &&& s.url@ == url
    &&& s.kind@ == kind
    &&& s.tool@ == tool
    &&& s.chars == text.len()
    &&& opt_view(s.title) == opt_view(title)
    &&& s.preview@ == preview_of(text)
}

/// A document whose text came out: counted and credited to its tool, judged by the read
/// measures, and sampled while the sample has room.
pub open spec fn took_text(a: ExtractReport, b: ExtractReport, url: Seq<char>, kind: Seq<char>, bytes: nat, text: Seq<char>, title: Option<String>, tool: Seq<char>, pages: Option<nat>, read: ReadQuality, sample: nat) -> bool {
    &&& b.extracted == a.extracted + 1
    &&& b.unextractable == a.unextractable
    &&& b.unreadable == a.unreadable
    &&& b.chars_of_text == a.chars_of_text + text.len()
    &&& added_one(a.by_tool.at(tool), b.by_tool.at(tool))
    &&& forall|k: Seq<char>| k != tool ==> #[trigger] b.by_tool.at(k) == a.by_tool.at(k)
    &&& match pages {
        Some(n) => b.needs_ocr == a.needs_ocr + 1 && b.ocr_pages_pending == a.ocr_pages_pending + n,
        None => b.needs_ocr == a.needs_ocr && b.ocr_pages_pending == a.ocr_pages_pending,
    }
    &&& b.poor_reads == a.poor_reads + (if read.poor { 1int } else { 0int })
    &&& if read.poor && a.poor@.len() < POOR_SAMPLE {
        &&& b.poor@.len() == a.poor@.len() + 1
        &&& b.poor@.drop_last() == a.poor@
        &&& names_poor(b.poor@.last(), url, read, bytes)
    } else {
        b.poor == a.poor
    }
    &&& if a.sample@.len() < sample {
        &&& b.sample@.len() == a.sample@.len() + 1
        &&& b.sample@.drop_last() == a.sample@
        &&& names_sample(b.sample@.last(), url, kind, tool, text, title)
    } else {
        b.sample == a.sample
    }
}

/// How the progress line reads for a document whose text came out: a partly scanned one
/// warns of its pages, a poor read warns with its findings, anything else is clean.
pub open spec fn text_item(item: ItemOutcome, text: Seq<char>, pages: Option<nat>, read: ReadQuality) -> bool {
    &&& item.produced == Some(text.len() as u64)
    &&& match pages {
        Some(n) => item.verdict == Verdict::Warn && (item.detail matches Some(d) && d@ == ocr_note(n)),
        None => if read.poor {
            item.verdict == Verdict::Warn && (item.detail matches Some(d) && d@ == join_with(texts(read.findings@), "; "@))
        } else {
            item.verdict == Verdict::Clean && item.detail is None
        },
    }
}

fn copy_texts(v: &Vec<String>) -> (w: Vec<String>)
    ensures
        texts(w@) == texts(v@),
{
    let mut w: Vec<String> = Vec::new();
    let mut i: usize = 0;
    while i < v.len()
        invariant
            i <= v@.len(),
            w@.len() == i,
            forall|j: int| 0 <= j < i ==> #[trigger] w@[j]@ == v@[j]@,
        decreases v.len() - i,
    {
        w.push(owned(v[i].as_str()));
        i = i + 1;
    }
    assert(texts(w@) =~= texts(v@));
    w
}

fn copy_opt(o: &Option<String>) -> (c: Option<String>)
    ensures
        opt_view(c) == opt_view(*o),
{
    match o {
        Some(s) => Some(owned(s.as_str())),
        None => None,
    }
}

impl ExtractReport {
    /// A report on `sources` before any document is looked at.
    pub fn new(sources: Vec<String>) -> (r: ExtractReport)
        ensures
            r.sources == sources,
            r.observations == 0 && r.already_derived == 0 && r.already_unextractable == 0,
            r.attempted == 0 && r.left_by_limit == 0 && r.extracted == 0,
            r.recovered_by_fallback == 0 && r.needs_ocr == 0 && r.unextractable == 0,
            r.poor_reads == 0 && r.chars_of_text == 0 && r.ocr_pages_pending == 0,
            r.poor@.len() == 0 && r.unreadable@.len() == 0 && r.sample@.len() == 0,
            r.by_tool.pairs().len() == 0 && r.by_kind.pairs().len() == 0,
            consistent(r),
    {
        ExtractReport {
            sources,
            observations: 0,
            already_derived: 0,
            already_unextractable: 0,
            attempted: 0,
            left_by_limit: 0,
            extracted: 0,
            recovered_by_fallback: 0,
            needs_ocr: 0,
            unextractable: 0,
            poor_reads: 0,
            poor: Vec::new(),
            chars_of_text: 0,
            by_tool: Counts::new(),
            by_kind: Counts::new(),
            ocr_pages_pending: 0,
            unreadable: Vec::new(),
            sample: Vec::new(),
        }
    }

    /// What to do with the next document: stop at the limit, skip what is already
    /// derived or already given up on (unless refreshing), or read it.
    pub fn step(&self, args: &ExtractArgs, derived: bool, given_up: bool) -> (s: Step)
        ensures
            s == step_of(args.limit, args.refresh, self.attempted as nat, derived, given_up),
    {
        match args.limit {
            Some(l) => {
                if self.attempted >= l {
                    return Step::Stop;
                }
            },
            None => {},
        }
        if !args.refresh && derived {
            Step::AlreadyDerived
        } else if !args.refresh && given_up {
            Step::AlreadyUnextractable
        } else {
            Step::Read
        }
    }
    /// A source's latest observations, counted as seen.
    pub fn observed(&mut self, n: usize)
        requires
            old(self).observations + n <= usize::MAX,
        ensures
            *final(self) == (ExtractReport { observations: (old(self).observations + n) as usize, ..*old(self) }),
    {
        self.observations = self.observations + n;
    }

    /// The limit stopped the loop with `left` documents of work still ahead.
    pub fn stopped(&mut self, left: usize)
        requires
            old(self).left_by_limit + left <= usize::MAX,
        ensures
            *final(self) == (ExtractReport { left_by_limit: (old(self).left_by_limit + left) as usize, ..*old(self) }),
    {
        self.left_by_limit = self.left_by_limit + left;
    }

    /// A document skipped because a previous run already settled it.
    pub fn skipped(&mut self, step: Step)
        requires
            step == Step::AlreadyDerived ==> old(self).already_derived < usize::MAX,
            step == Step::AlreadyUnextractable ==> old(self).already_unextractable < usize::MAX,
        ensures
            *final(self) == (match step {
                Step::AlreadyDerived => ExtractReport { already_derived: (old(self).already_derived + 1) as usize, ..*old(self) },
                Step::AlreadyUnextractable => ExtractReport {
                    already_unextractable: (old(self).already_unextractable + 1) as usize,
                    ..*old(self)
                },
                _ => *old(self),
            }),
    {
        match step {
            Step::AlreadyDerived => {
                self.already_derived = self.already_derived + 1;
            },
            Step::AlreadyUnextractable => {
                self.already_unextractable = self.already_unextractable + 1;
            },
            _ => {},
        }
    }
    fn took_unreadable(&mut self, url: &str, kind: &str, reason: &str, bytes: usize, millis: u64) -> (item: ItemOutcome)
        requires
            old(self).unextractable < usize::MAX,
        ensures
            same_context(*old(self), *final(self)),
            final(self).by_tool == old(self).by_tool,
            final(self).attempted == old(self).attempted,
            final(self).by_kind == old(self).by_kind,
            final(self).recovered_by_fallback == old(self).recovered_by_fallback,
            took_unextractable(*old(self), *final(self), item, url@, kind@, reason@),
            item_of(item, url@, kind@, bytes as nat, millis),
    {
        self.unextractable = self.unextractable + 1;
        if self.unreadable.len() < UNREADABLE_SAMPLE {
            self.unreadable.push(Unreadable { url: owned(url), kind: owned(kind), reason: owned(reason) });
            assert(self.unreadable@.drop_last() =~= old(self).unreadable@);
        }
        ItemOutcome {
            address: owned(url),
            tag: owned(kind),
            verdict: Verdict::Missing,
            noun: owned("documents"),
            bytes: bytes as u64,
            produced: Some(0),
            millis,
            detail: Some(owned(reason)),
            nested: false,
        }
    }

    fn took_text(
        &mut self,
        url: &str,
        kind: &str,
        bytes: usize,
        text: &str,
        title: &Option<String>,
        tool: &str,
        pages: Option<usize>,
        read: &ReadQuality,
        sample: usize,
        millis: u64,
    ) -> (item: ItemOutcome)
        requires
            old(self).extracted < usize::MAX,
            old(self).needs_ocr < usize::MAX,
            old(self).poor_reads < usize::MAX,
            old(self).chars_of_text + text@.len() <= usize::MAX,
            pages matches Some(n) ==> old(self).ocr_pages_pending + n <= usize::MAX,
        ensures
            same_context(*old(self), *final(self)),
            final(self).attempted == old(self).attempted,
            final(self).by_kind == old(self).by_kind,
            final(self).recovered_by_fallback == old(self).recovered_by_fallback,
            final(self).by_tool.total() + val(old(self).by_tool.at(tool@)) == old(self).by_tool.total() + val(
                final(self).by_tool.at(tool@),
            ),
            took_text(
                *old(self),
                *final(self),
                url@,
                kind@,
                bytes as nat,
                text@,
                *title,
                tool@,
                match pages {
                    Some(n) => Some(n as nat),
                    None => None,
                },
                *read,
                sample as nat,
            ),
            text_item(
                item,
                text@,
                match pages {
                    Some(n) => Some(n as nat),
                    None => None,
                },
                *read,
            ),
            item_of(item, url@, kind@, bytes as nat, millis),
    {
        let chars = chars_of(text).len();
        let (verdict, detail) = match pages {
            Some(n) => {
                self.needs_ocr = self.needs_ocr + 1;
                self.ocr_pages_pending = self.ocr_pages_pending + n;
                let mut note = String::new();
                push_decimal(&mut note, n as u64);
                note.append(" page");
                note.append(if n == 1 { "" } else { "s" });
                note.append(" need OCR");
                (Verdict::Warn, Some(note))
            },
            None => {
                if read.poor {
                    (Verdict::Warn, Some(joined(&read.findings, "; ")))
                } else {
                    (Verdict::Clean, None)
                }
            },
        };
        if read.poor {
            self.poor_reads = self.poor_reads + 1;
            if self.poor.len() < POOR_SAMPLE {
                let ghost before = self.poor@;
                self.poor.push(PoorRead { url: owned(url), chars: read.chars, bytes, findings: copy_texts(&read.findings) });
                assert(self.poor@.drop_last() =~= before);
            }
        }
        self.extracted = self.extracted + 1;
        self.chars_of_text = self.chars_of_text + chars;
        self.by_tool.add(tool, 1);
        if self.sample.len() < sample {
            let ghost before = self.sample@;
            self.sample.push(
                ExtractSample {
                    url: owned(url),
                    kind: owned(kind),
                    tool: owned(tool),
                    chars,
                    title: copy_opt(title),
                    preview: preview(text),
                },
            );
            assert(self.sample@.drop_last() =~= before);
        }
        ItemOutcome {
            address: owned(url),
            tag: owned(kind),
            verdict,
            noun: owned("documents"),
            bytes: bytes as u64,
            produced: Some(chars as u64),
            millis,
            detail,
            nested: false,
        }
    }

    /// One document read: attempted and counted under its kind, credited to the fallback
    /// when that is what read it, and tallied by what came of it. The returned item is the
    /// progress line for it; what the host files in the log follows from `outcome`.
    pub fn record(
        &mut self,
        url: &str,
        kind: &str,
        bytes: usize,
        outcome: &Outcome,
        fell_back: bool,
        read: &ReadQuality,
        sample: usize,
        millis: u64,
    ) -> (item: ItemOutcome)
        requires
            has_room(*old(self), chars_in(*outcome), pages_of(*outcome)),
        ensures
            same_context(*old(self), *final(self)),
            final(self).attempted == old(self).attempted + 1,
            added_one(old(self).by_kind.at(kind@), final(self).by_kind.at(kind@)),
            forall|k: Seq<char>| k != kind@ ==> #[trigger] final(self).by_kind.at(k) == old(self).by_kind.at(k),
            final(self).recovered_by_fallback == old(self).recovered_by_fallback + (if fell_back { 1int } else { 0int }),
            item_of(item, url@, kind@, bytes as nat, millis),
            match *outcome {
                Outcome::Unextractable { reason } => took_unextractable(*old(self), *final(self), item, url@, kind@, reason@),
                Outcome::Partial { text, title, tool, pages_needing_ocr, .. } => took_text(
                    *old(self),
                    *final(self),
                    url@,
                    kind@,
                    bytes as nat,
                    text@,
                    title,
                    tool@,
                    Some(pages_needing_ocr as nat),
                    *read,
                    sample as nat,
                ) && text_item(item, text@, Some(pages_needing_ocr as nat), *read),
                Outcome::Text { text, title, tool, .. } => took_text(
                    *old(self),
                    *final(self),
                    url@,
                    kind@,
                    bytes as nat,
                    text@,
                    title,
                    tool@,
                    None,
                    *read,
                    sample as nat,
                ) && text_item(item, text@, None, *read),
            },
            consistent(*old(self)) ==> consistent(*final(self)),
            sampled(*old(self), sample as nat) ==> sampled(*final(self), sample as nat),
    {
        proof {
            old(self).by_kind.lemma_within_total(kind@);
            match outcome {
                Outcome::Partial { tool, .. } => old(self).by_tool.lemma_within_total(tool@),
                Outcome::Text { tool, .. } => old(self).by_tool.lemma_within_total(tool@),
                _ => {},
            }
        }
        self.attempted = self.attempted + 1;
        self.by_kind.add(kind, 1);
        if fell_back {
            self.recovered_by_fallback = self.recovered_by_fallback + 1;
        }
        match outcome {
            Outcome::Unextractable { reason } => self.took_unreadable(url, kind, reason.as_str(), bytes, millis),
            Outcome::Partial { text, title, tool, pages_needing_ocr, .. } => self.took_text(
                url,
                kind,
                bytes,
                text.as_str(),
                title,
                tool.as_str(),
                Some(*pages_needing_ocr),
                read,
                sample,
                millis,
            ),
            Outcome::Text { text, title, tool, .. } => self.took_text(
                url,
                kind,
                bytes,
                text.as_str(),
                title,
                tool.as_str(),
                None,
                read,
                sample,
                millis,
            ),
        }
    }
}

// ── how it reads ────────────────────────────────────────────────────────────

pub open spec fn unreadable_lines(depth: nat, u: Unreadable) -> Seq<Seq<char>> {
    seq![marked_at(depth, Mark::Bad, pad(u.kind@, 6) + u.url@), at(depth + 1, flat_all(u.reason@))]
}

pub open spec fn findings_lines(depth: nat, fs: Seq<Seq<char>>) -> Seq<Seq<char>> {
    fs.map_values(|f: Seq<char>| at(depth, flat_all(f)))
}

/// `Warn`, not `Bad`: the document is stored and readable; it is the wrong text.
pub open spec fn poor_lines(depth: nat, p: PoorRead) -> Seq<Seq<char>> {
    seq![
        marked_at(depth, Mark::Warn, p.url@),
        at(depth + 1, grouped(p.chars as nat) + " of text from "@ + human_bytes_of(p.bytes as nat)),
    ] + findings_lines(depth + 1, texts(p.findings@))
}

/// The title where the document has one, else its address.
pub open spec fn label_of(s: ExtractSample) -> Seq<char> {
    match s.title {
        Some(t) => t@,
        None => s.url@,
    }
}

pub open spec fn sample_lines(depth: nat, s: ExtractSample) -> Seq<Seq<char>> {
    seq![
        at(depth, label_of(s) + "  "@ + s.tool@ + " · "@ + grouped(s.chars as nat)),
        at(depth + 1, flat_all(s.preview@)),
    ]
}

pub open spec fn unreadables_lines(depth: nat, us: Seq<Unreadable>) -> Seq<Seq<char>>
    decreases us.len(),
{
    if us.len() == 0 {
        Seq::empty()
    } else {
        unreadables_lines(depth, us.drop_last()) + unreadable_lines(depth, us.last())
    }
}

pub open spec fn poors_lines(depth: nat, ps: Seq<PoorRead>) -> Seq<Seq<char>>
    decreases ps.len(),
{
    if ps.len() == 0 {
        Seq::empty()
    } else {
        poors_lines(depth, ps.drop_last()) + poor_lines(depth, ps.last())
    }
}

/// The samples, a blank line between each.
pub open spec fn samples_lines(depth: nat, ss: Seq<ExtractSample>) -> Seq<Seq<char>>
    decreases ss.len(),
{
    if ss.len() == 0 {
        Seq::empty()
    } else {
        samples_lines(depth, ss.drop_last()) + (if ss.len() > 1 {
            seq![Seq::<char>::empty()]
        } else {
            Seq::empty()
        }) + sample_lines(depth, ss.last())
    }
}

pub open spec fn figures_text(r: ExtractReport) -> Seq<char> {
    figure_text(r.observations as nat, "observations"@) + " · "@ + figure_text(
        r.already_derived as nat,
        "already derived"@,
    ) + " · "@ + figure_text(r.already_unextractable as nat, "already unextractable"@) + " · "@ + figure_text(
        r.attempted as nat,
        "attempted"@,
    ) + " · "@ + figure_text(r.extracted as nat, "extracted"@) + " · "@ + figure_text(
        r.recovered_by_fallback as nat,
        "read by the fallback"@,
    ) + " · "@ + figure_text(r.needs_ocr as nat, "need OCR"@) + " · "@ + figure_text(
        r.unextractable as nat,
        "unextractable"@,
    ) + " · "@ + figure_text(r.poor_reads as nat, "read poorly"@)
}

/// Before the OCR line: stopping early changes how every figure above should be read.
pub open spec fn warning_lines(d: nat, r: ExtractReport) -> Seq<Seq<char>> {
    (if r.left_by_limit > 0 {
        seq![
            Seq::<char>::empty(),
            marked_at(d, Mark::Warn, "stopped at the limit; "@ + grouped(r.left_by_limit as nat) + " left underived"@),
        ]
    } else {
        Seq::empty()
    }) + (if r.ocr_pages_pending > 0 {
        seq![
            Seq::<char>::empty(),
            marked_at(
                d,
                Mark::Warn,
                grouped(r.ocr_pages_pending as nat) + " scanned pages need pdftoppm + tesseract"@,
            ),
        ]
    } else {
        Seq::empty()
    })
}

pub open spec fn tool_lines(d: nat, r: ExtractReport) -> Seq<Seq<char>> {
    if r.by_tool.pairs().len() > 0 {
        seq![Seq::<char>::empty(), at(d, "by tool"@)] + count_rows(d, r.by_tool.pairs())
    } else {
        Seq::empty()
    }
}

pub open spec fn unreadable_block(d: nat, r: ExtractReport) -> Seq<Seq<char>> {
    if r.unreadable@.len() > 0 {
        seq![Seq::<char>::empty(), at(d, "unreadable"@)] + unreadables_lines(d, r.unreadable@)
    } else {
        Seq::empty()
    }
}

/// Above the sample: the sample shows what a run got right, this what it got wrong while
/// reporting success.
pub open spec fn poor_block(d: nat, r: ExtractReport) -> Seq<Seq<char>> {
    if r.poor@.len() > 0 {
        seq![Seq::<char>::empty(), at(d, "read poorly"@)] + poors_lines(d, r.poor@) + (if r.poor_reads
            > r.poor@.len() {
            seq![
                at(
                    d + 1,
                    "… and "@ + grouped((r.poor_reads - r.poor@.len()) as nat)
                        + " more. `centinel check <url>` for one of them"@,
                ),
            ]
        } else {
            Seq::empty()
        })
    } else {
        Seq::empty()
    }
}

pub open spec fn sample_block(d: nat, r: ExtractReport) -> Seq<Seq<char>> {
    if r.sample@.len() > 0 {
        seq![Seq::<char>::empty(), at(d, "sample"@)] + samples_lines(d, r.sample@)
    } else {
        Seq::empty()
    }
}

/// The counters, which pipeline handled what, what went wrong, and a look at the text.
pub open spec fn report_lines(depth: nat, r: ExtractReport) -> Seq<Seq<char>> {
    let d = depth + 1;
    seq![
        at(depth, title_text(join_with(texts(r.sources@), ", "@), grouped(r.chars_of_text as nat) + " of text"@)),
        at(d, figures_text(r)),
    ] + warning_lines(d, r) + tool_lines(d, r) + unreadable_block(d, r) + poor_block(d, r) + sample_block(d, r)
}

fn push_figure(s: &mut String, n: usize, label: &str)
    ensures
        final(s)@ == old(s)@ + figure_text(n as nat, label@),
{
    push_count(s, n as u64);
    s.append(" ");
    s.append(label);
}

impl Unreadable {
    pub fn render(&self, p: &mut Page)
        requires
            old(p).depth < usize::MAX,
        ensures
            final(p).text() == old(p).text() + unreadable_lines(old(p).depth as nat, *self),
            final(p).depth == old(p).depth,
    {
        let mut head = pad_to(self.kind.as_str(), 6);
        head.append(self.url.as_str());
        p.marked(Mark::Bad, head.as_str());
        p.enter();
        let reason = one_line(self.reason.as_str());
        p.line(reason.as_str());
        p.leave();
        assert(p.text() =~= old(p).text() + unreadable_lines(old(p).depth as nat, *self));
    }
}

impl PoorRead {
    pub fn render(&self, p: &mut Page)
        requires
            old(p).depth < usize::MAX,
        ensures
            final(p).text() == old(p).text() + poor_lines(old(p).depth as nat, *self),
            final(p).depth == old(p).depth,
    {
        let ghost d = old(p).depth as nat;
        p.marked(Mark::Warn, self.url.as_str());
        p.enter();
        let mut size = String::new();
        push_count(&mut size, self.chars as u64);
        size.append(" of text from ");
        let b = human_bytes(self.bytes as u64);
        size.append(b.as_str());
        p.line(size.as_str());
        let ghost top = p.text();
        let mut i: usize = 0;
        while i < self.findings.len()
            invariant
                i <= self.findings@.len(),
                p.depth == d + 1,
                p.text() == top + findings_lines(d + 1, texts(self.findings@.take(i as int))),
            decreases self.findings.len() - i,
        {
            let f = one_line(self.findings[i].as_str());
            p.line(f.as_str());
            i = i + 1;
            assert(findings_lines(d + 1, texts(self.findings@.take(i as int))) =~= findings_lines(
                d + 1,
                texts(self.findings@.take(i - 1)),
            ).push(at(d + 1, flat_all(self.findings@[i - 1]@))));
        }
        assert(self.findings@.take(self.findings@.len() as int) =~= self.findings@);
        p.leave();
        assert(p.text() =~= old(p).text() + poor_lines(d, *self));
    }
}

impl ExtractSample {
    pub fn render(&self, p: &mut Page)
        requires
            old(p).depth < usize::MAX,
        ensures
            final(p).text() == old(p).text() + sample_lines(old(p).depth as nat, *self),
            final(p).depth == old(p).depth,
    {
        let mut head = match &self.title {
            Some(t) => owned(t.as_str()),
            None => owned(self.url.as_str()),
        };
        head.append("  ");
        head.append(self.tool.as_str());
        head.append(" · ");
        push_count(&mut head, self.chars as u64);
        p.line(head.as_str());
        p.enter();
        let preview = one_line(self.preview.as_str());
        p.line(preview.as_str());
        p.leave();
        assert(p.text() =~= old(p).text() + sample_lines(old(p).depth as nat, *self));
    }
}

impl ExtractReport {
    fn render_figures(&self, p: &mut Page)
        ensures
            final(p).text() == old(p).text().push(at(old(p).depth as nat, figures_text(*self))),
            final(p).depth == old(p).depth,
    {
        let mut f = String::new();
        push_figure(&mut f, self.observations, "observations");
        f.append(" · ");
        push_figure(&mut f, self.already_derived, "already derived");
        f.append(" · ");
        push_figure(&mut f, self.already_unextractable, "already unextractable");
        f.append(" · ");
        push_figure(&mut f, self.attempted, "attempted");
        f.append(" · ");
        push_figure(&mut f, self.extracted, "extracted");
        f.append(" · ");
        push_figure(&mut f, self.recovered_by_fallback, "read by the fallback");
        f.append(" · ");
        push_figure(&mut f, self.needs_ocr, "need OCR");
        f.append(" · ");
        push_figure(&mut f, self.unextractable, "unextractable");
        f.append(" · ");
        push_figure(&mut f, self.poor_reads, "read poorly");
        assert(f@ =~= figures_text(*self));
        p.line(f.as_str());
    }

    fn render_warnings(&self, p: &mut Page)
        ensures
            final(p).text() == old(p).text() + warning_lines(old(p).depth as nat, *self),
            final(p).depth == old(p).depth,
    {
        if self.left_by_limit > 0 {
            p.blank();
            let mut t = owned("stopped at the limit; ");
            push_count(&mut t, self.left_by_limit as u64);
            t.append(" left underived");
            p.marked(Mark::Warn, t.as_str());
        }
        if self.ocr_pages_pending > 0 {
            p.blank();
            let mut t = String::new();
            push_count(&mut t, self.ocr_pages_pending as u64);
            t.append(" scanned pages need pdftoppm + tesseract");
            p.marked(Mark::Warn, t.as_str());
        }
        assert(p.text() =~= old(p).text() + warning_lines(old(p).depth as nat, *self));
    }

    fn render_tools(&self, p: &mut Page)
        ensures
            final(p).text() == old(p).text() + tool_lines(old(p).depth as nat, *self),
            final(p).depth == old(p).depth,
    {
        if !self.by_tool.is_empty() {
            p.section("by tool");
            render_counts(p, &self.by_tool);
        }
        assert(p.text() =~= old(p).text() + tool_lines(old(p).depth as nat, *self));
    }

    fn render_unreadable(&self, p: &mut Page)
        requires
            old(p).depth < usize::MAX,
        ensures
            final(p).text() == old(p).text() + unreadable_block(old(p).depth as nat, *self),
            final(p).depth == old(p).depth,
    {
        let ghost d = old(p).depth as nat;
        if self.unreadable.len() == 0 {
            assert(p.text() =~= old(p).text() + unreadable_block(d, *self));
            return;
        }
        p.section("unreadable");
        let ghost top = p.text();
        let mut i: usize = 0;
        while i < self.unreadable.len()
            invariant
                i <= self.unreadable@.len(),
                p.depth == d,
                d < usize::MAX,
                p.text() == top + unreadables_lines(d, self.unreadable@.take(i as int)),
            decreases self.unreadable.len() - i,
        {
            assert(self.unreadable@.take(i + 1).drop_last() =~= self.unreadable@.take(i as int));
            self.unreadable[i].render(p);
            i = i + 1;
            assert(p.text() =~= top + unreadables_lines(d, self.unreadable@.take(i as int)));
        }
        assert(self.unreadable@.take(self.unreadable@.len() as int) =~= self.unreadable@);
        assert(p.text() =~= old(p).text() + unreadable_block(d, *self));
    }

    fn render_poor(&self, p: &mut Page)
        requires
            old(p).depth + 1 < usize::MAX,
        ensures
            final(p).text() == old(p).text() + poor_block(old(p).depth as nat, *self),
            final(p).depth == old(p).depth,
    {
        let ghost d = old(p).depth as nat;
        if self.poor.len() == 0 {
            assert(p.text() =~= old(p).text() + poor_block(d, *self));
            return;
        }
        p.section("read poorly");
        let ghost top = p.text();
        let mut i: usize = 0;
        while i < self.poor.len()
            invariant
                i <= self.poor@.len(),
                p.depth == d,
                d + 1 < usize::MAX,
                p.text() == top + poors_lines(d, self.poor@.take(i as int)),
            decreases self.poor.len() - i,
        {
            assert(self.poor@.take(i + 1).drop_last() =~= self.poor@.take(i as int));
            self.poor[i].render(p);
            i = i + 1;
            assert(p.text() =~= top + poors_lines(d, self.poor@.take(i as int)));
        }
        assert(self.poor@.take(self.poor@.len() as int) =~= self.poor@);
        if self.poor_reads > self.poor.len() {
            p.enter();
            let mut t = owned("… and ");
            push_count(&mut t, (self.poor_reads - self.poor.len()) as u64);
            t.append(" more. `centinel check <url>` for one of them");
            p.line(t.as_str());
            p.leave();
        }
        assert(p.text() =~= old(p).text() + poor_block(d, *self));
    }

    fn render_sample(&self, p: &mut Page)
        requires
            old(p).depth < usize::MAX,
        ensures
            final(p).text() == old(p).text() + sample_block(old(p).depth as nat, *self),
            final(p).depth == old(p).depth,
    {
        let ghost d = old(p).depth as nat;
        if self.sample.len() == 0 {
            assert(p.text() =~= old(p).text() + sample_block(d, *self));
            return;
        }
        p.section("sample");
        let ghost top = p.text();
        let mut i: usize = 0;
        while i < self.sample.len()
            invariant
                i <= self.sample@.len(),
                p.depth == d,
                d < usize::MAX,
                p.text() == top + samples_lines(d, self.sample@.take(i as int)),
            decreases self.sample.len() - i,
        {
            assert(self.sample@.take(i + 1).drop_last() =~= self.sample@.take(i as int));
            if i > 0 {
                p.blank();
            }
            self.sample[i].render(p);
            i = i + 1;
            assert(p.text() =~= top + samples_lines(d, self.sample@.take(i as int)));
        }
        assert(self.sample@.take(self.sample@.len() as int) =~= self.sample@);
        assert(p.text() =~= old(p).text() + sample_block(d, *self));
    }

    /// The sample is the point: extraction is the stage that fails quietly, and the first
    /// line of a few documents is the cheapest way for a person to catch that.
    #[verifier::rlimit(40)]
    pub fn render(&self, p: &mut Page)
        requires
            old(p).depth + 3 < usize::MAX,
        ensures
            final(p).text() == old(p).text() + report_lines(old(p).depth as nat, *self),
            final(p).depth == old(p).depth,
    {
        let ghost d = old(p).depth as nat;
        let names = joined(&self.sources, ", ");
        let mut aside = String::new();
        push_count(&mut aside, self.chars_of_text as u64);
        aside.append(" of text");
        p.title(names.as_str(), aside.as_str());
        p.enter();
        self.render_figures(p);
        self.render_warnings(p);
        self.render_tools(p);
        self.render_unreadable(p);
        self.render_poor(p);
        self.render_sample(p);
        p.leave();
        assert(p.text() =~= old(p).text() + report_lines(d, *self));
    }
}

} // verus!
