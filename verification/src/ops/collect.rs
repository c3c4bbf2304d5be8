//! `collect` — acquire everything a discovery run found.
//!
//! What "acquire one" means is the source's business; resumability falls out of the log,
//! which already records every observation. What is decided here is which audio policy a
//! set of flags asks for, how large an artifact may be, and how the report reads.
use vstd::prelude::*;

use crate::counts::Counts;
use crate::domain::{note_lines, pad, pad_to, render_notes, Liveness, Note, SourceKind};
use crate::ops::models::{human_bytes, human_bytes_of};
use crate::page::{at, figure_text, glyph, indent, marked_at, says, title_text, Mark, Page};
use crate::text::{flat_all, grouped, holds, lemma_holds_between, one_line, owned, push_count};

verus! {

/// When a channel source downloads audio.
#[derive(Clone, Copy, Debug, PartialEq, Eq)]
pub enum AudioPolicy {
    Always,
    IfNoCaptions,
    Never,
}

/// The audio policy the flags ask for, or `None` to leave it to the config. The first
/// flag set wins, in the order `--audio`, `--audio-if-no-captions`, `--no-audio`.
pub fn audio_policy(audio: bool, audio_if_no_captions: bool, no_audio: bool) -> (p: Option<AudioPolicy>)
    ensures
        p == (if audio {
            Some(AudioPolicy::Always)
        } else if audio_if_no_captions {
            Some(AudioPolicy::IfNoCaptions)
        } else if no_audio {
            Some(AudioPolicy::Never)
        } else {
            None
        }),
{
    if audio {
        Some(AudioPolicy::Always)
    } else if audio_if_no_captions {
        Some(AudioPolicy::IfNoCaptions)
    } else if no_audio {
        Some(AudioPolicy::Never)
    } else {
        None
    }
}

/// `--max-mb` in bytes, held at `u64::MAX` rather than wrapping.
pub fn max_bytes(max_mb: u64) -> (b: u64)
    ensures
        b == (if max_mb * 1048576 > u64::MAX { u64::MAX as int } else { max_mb * 1048576 }),
{
    match max_mb.checked_mul(1048576) {
        Some(b) => b,
        None => u64::MAX,
    }
}

/// The artifact cap a caller gets without asking, in megabytes.
pub fn default_max_mb() -> (n: u64)
    ensures
        n == 256,
{
    256
}

/// The failure list cap a caller gets without asking.
pub fn default_max_failures() -> (n: usize)
    ensures
        n == 20,
{
    20
}

#[derive(Debug)]
pub struct CollectFailure {
    /// The address that failed.
    pub natural_key: String,
    pub state: Liveness,
    pub detail: String,
}

#[derive(Debug)]
pub struct CollectReport {
    pub source: String,
    pub kind: SourceKind,
    /// Addresses in the most recent discovery run.
    pub discovered: usize,
    /// Skipped because the store already had them.
    pub already_had: usize,
    /// Excluded by `--match`.
    pub filtered_out: usize,
    pub attempted: usize,
    pub stored: usize,
    /// Stored, and something under that address differed from the previous observation.
    pub changed: usize,
    pub failed: usize,
    /// Failures that were refusals rather than absence.
    pub blocked: usize,
    pub bytes: u64,
    /// Still uncollected. Non-zero means re-running continues where this stopped.
    pub remaining: usize,
    /// What was gathered, by content kind.
    pub by_kind: Counts,
    /// What was gathered, by artifact. One address can hold several.
    pub parts: Counts,
    /// What the source itself wanted said about the result.
    pub notes: Vec<Note>,
    pub failures: Vec<CollectFailure>,
    pub failures_truncated: Option<usize>,
}

// ── how it reads ────────────────────────────────────────────────────────────

pub open spec fn figures_text(r: CollectReport) -> Seq<char> {
    figure_text(r.discovered as nat, "discovered"@) + " · "@ + figure_text(r.already_had as nat, "already had"@) + " · "@
        + figure_text(r.filtered_out as nat, "filtered out"@) + " · "@ + figure_text(r.attempted as nat, "attempted"@)
        + " · "@ + figure_text(r.stored as nat, "stored"@) + " · "@ + figure_text(r.changed as nat, "changed"@) + " · "@
        + figure_text(r.failed as nat, "failed"@)
}

/// One row per named count, in key order.
pub open spec fn count_rows(depth: nat, ps: Seq<(String, u64)>) -> Seq<Seq<char>> {
    ps.map_values(|e: (String, u64)| at(depth, figure_text(e.1 as nat, e.0@)))
}

pub open spec fn blocked_text(blocked: nat, stored: nat) -> Seq<char> {
    if stored == 0 {
        grouped(blocked) + " refused and nothing stored — this is a block, not an empty source"@
    } else {
        grouped(blocked) + " refused"@
    }
}

pub open spec fn failure_lines(depth: nat, f: CollectFailure) -> Seq<Seq<char>> {
    seq![
        marked_at(depth, f.state.mark_spec(), pad(f.state.name_spec(), 8) + f.natural_key@),
        at(depth + 1, flat_all(f.detail@)),
    ]
}

pub open spec fn failures_lines(depth: nat, fs: Seq<CollectFailure>) -> Seq<Seq<char>>
    decreases fs.len(),
{
    if fs.len() == 0 {
        Seq::empty()
    } else {
        failures_lines(depth, fs.drop_last()) + failure_lines(depth, fs.last())
    }
}

pub open spec fn parts_lines(d: nat, r: CollectReport) -> Seq<Seq<char>> {
    if r.parts.pairs().len() > 1 {
        seq![Seq::<char>::empty(), at(d, "by artifact"@)] + count_rows(d, r.parts.pairs())
    } else {
        Seq::empty()
    }
}

pub open spec fn kind_lines(d: nat, r: CollectReport) -> Seq<Seq<char>> {
    if r.by_kind.pairs().len() > 0 {
        seq![Seq::<char>::empty(), at(d, "by kind"@)] + count_rows(d, r.by_kind.pairs())
    } else {
        Seq::empty()
    }
}

pub open spec fn blocked_lines(d: nat, r: CollectReport) -> Seq<Seq<char>> {
    if r.blocked > 0 {
        seq![Seq::<char>::empty(), marked_at(d, Mark::Warn, blocked_text(r.blocked as nat, r.stored as nat))]
    } else {
        Seq::empty()
    }
}

pub open spec fn notes_block(d: nat, r: CollectReport) -> Seq<Seq<char>> {
    if r.notes@.len() > 0 {
        seq![Seq::<char>::empty()] + note_lines(d, r.notes@)
    } else {
        Seq::empty()
    }
}

pub open spec fn failures_block(d: nat, r: CollectReport) -> Seq<Seq<char>> {
    if r.failures@.len() > 0 {
        seq![Seq::<char>::empty(), at(d, "failures"@)] + failures_lines(d, r.failures@) + match r.failures_truncated {
            Some(m) => seq![at(d, "… and "@ + grouped(m as nat) + " more"@)],
            None => Seq::empty(),
        }
    } else {
        Seq::empty()
    }
}

pub open spec fn remaining_lines(d: nat, r: CollectReport) -> Seq<Seq<char>> {
    if r.remaining > 0 {
        seq![
            Seq::<char>::empty(),
            marked_at(d, Mark::Warn, grouped(r.remaining as nat) + " still uncollected — re-run to continue"@),
        ]
    } else {
        Seq::empty()
    }
}

/// What the run did, what it left, and what refused it.
pub open spec fn report_lines(depth: nat, r: CollectReport) -> Seq<Seq<char>> {
    let d = depth + 1;
    seq![at(depth, title_text(r.source@, human_bytes_of(r.bytes as nat))), at(d, figures_text(r))]
        + parts_lines(d, r) + kind_lines(d, r) + blocked_lines(d, r) + notes_block(d, r) + failures_block(d, r)
        + remaining_lines(d, r)
}

/// Each closing section shows exactly when it has something to say: the per-artifact
/// counts when there is more than one artifact, the count still uncollected and how to
/// continue when any remain, and the refusals when there were any — read as a block when
/// nothing at all was stored, as plain refusals otherwise.
pub proof fn law_collect_sections(depth: nat, r: CollectReport)
    ensures
        ({
            let d = depth + 1;
            let ls = report_lines(depth, r);
            &&& (parts_lines(d, r).len() > 0 <==> r.parts.pairs().len() > 1)
            &&& (r.parts.pairs().len() > 1 ==> ls.contains(at(d, "by artifact"@)))
            &&& (remaining_lines(d, r).len() > 0 <==> r.remaining > 0)
            &&& (r.remaining > 0 ==> says(ls, "re-run to continue"@))
            &&& (blocked_lines(d, r).len() > 0 <==> r.blocked > 0)
            &&& (r.blocked > 0 && r.stored == 0 ==> says(ls, "this is a block"@))
            &&& (r.blocked > 0 && r.stored > 0 ==> blocked_lines(d, r)[1] == marked_at(
                d,
                Mark::Warn,
                grouped(r.blocked as nat) + " refused"@,
            ))
        }),
{
    let d = depth + 1;
    let ls = report_lines(depth, r);
    let head = seq![at(depth, title_text(r.source@, human_bytes_of(r.bytes as nat))), at(d, figures_text(r))];
    let (p, k, b, n, f, m) = (
        parts_lines(d, r),
        kind_lines(d, r),
        blocked_lines(d, r),
        notes_block(d, r),
        failures_block(d, r),
        remaining_lines(d, r),
    );
    assert(ls == head + p + k + b + n + f + m);
    if r.parts.pairs().len() > 1 {
        assert(ls[3] == p[1]);
    }
    if r.remaining > 0 {
        reveal_strlit(" still uncollected — re-run to continue");
        reveal_strlit(" still uncollected — ");
        reveal_strlit("re-run to continue");
        let pre = indent(d) + glyph(Mark::Warn) + grouped(r.remaining as nat) + " still uncollected — "@;
        assert(m[1] =~= pre + "re-run to continue"@ + Seq::<char>::empty());
        lemma_holds_between(pre, "re-run to continue"@, Seq::<char>::empty());
        assert(ls[ls.len() - 1] == m[1]);
    }
    if r.blocked > 0 && r.stored == 0 {
        reveal_strlit(" refused and nothing stored — this is a block, not an empty source");
        reveal_strlit(" refused and nothing stored — ");
        reveal_strlit("this is a block");
        reveal_strlit(", not an empty source");
        let pre = indent(d) + glyph(Mark::Warn) + grouped(r.blocked as nat) + " refused and nothing stored — "@;
        assert(b[1] =~= pre + "this is a block"@ + ", not an empty source"@);
        lemma_holds_between(pre, "this is a block"@, ", not an empty source"@);
        assert(ls[(2 + p.len() + k.len() + 1) as int] == b[1]);
    }
}

/// Each named count on a row of its own, the count first.
pub fn render_counts(p: &mut Page, c: &Counts)
    ensures
        final(p).text() == old(p).text() + count_rows(old(p).depth as nat, c.pairs()),
        final(p).depth == old(p).depth,
{
    let entries = c.entries();
    let mut i: usize = 0;
    while i < entries.len()
        invariant
            i <= entries@.len(),
            entries@ == c.pairs(),
            p.depth == old(p).depth,
            p.text() == old(p).text() + count_rows(old(p).depth as nat, entries@.take(i as int)),
        decreases entries.len() - i,
    {
        p.figure(entries[i].1, entries[i].0.as_str());
        i = i + 1;
        assert(count_rows(old(p).depth as nat, entries@.take(i as int)) =~= count_rows(
            old(p).depth as nat,
            entries@.take(i - 1),
        ).push(at(old(p).depth as nat, figure_text(entries@[i - 1].1 as nat, entries@[i - 1].0@))));
    }
    assert(entries@.take(entries@.len() as int) =~= entries@);
}

fn push_figure(s: &mut String, n: u64, label: &str)
    ensures
        final(s)@ == old(s)@ + figure_text(n as nat, label@),
{
    push_count(s, n);
    s.append(" ");
    s.append(label);
}

impl CollectFailure {
    pub fn render(&self, p: &mut Page)
        requires
            old(p).depth < usize::MAX,
        ensures
            final(p).text() == old(p).text() + failure_lines(old(p).depth as nat, *self),
            final(p).depth == old(p).depth,
    {
        let mut head = pad_to(self.state.name(), 8);
        head.append(self.natural_key.as_str());
        p.marked(self.state.mark(), head.as_str());
        let detail = one_line(self.detail.as_str());
        p.enter();
        p.line(detail.as_str());
        p.leave();
        assert(p.text() =~= old(p).text() + failure_lines(old(p).depth as nat, *self));
    }
}

impl CollectReport {
    fn render_figures(&self, p: &mut Page)
        ensures
            final(p).text() == old(p).text().push(at(old(p).depth as nat, figures_text(*self))),
            final(p).depth == old(p).depth,
    {
        let mut figures = String::new();
        push_figure(&mut figures, self.discovered as u64, "discovered");
        figures.append(" · ");
        push_figure(&mut figures, self.already_had as u64, "already had");
        figures.append(" · ");
        push_figure(&mut figures, self.filtered_out as u64, "filtered out");
        figures.append(" · ");
        push_figure(&mut figures, self.attempted as u64, "attempted");
        figures.append(" · ");
        push_figure(&mut figures, self.stored as u64, "stored");
        figures.append(" · ");
        push_figure(&mut figures, self.changed as u64, "changed");
        figures.append(" · ");
        push_figure(&mut figures, self.failed as u64, "failed");
        assert(figures@ =~= figures_text(*self));
        p.line(figures.as_str());
    }

    fn render_tables(&self, p: &mut Page)
        ensures
            final(p).text() == old(p).text() + parts_lines(old(p).depth as nat, *self) + kind_lines(
                old(p).depth as nat,
                *self,
            ),
            final(p).depth == old(p).depth,
    {
        let ghost d = old(p).depth as nat;
        if self.parts.len() > 1 {
            p.section("by artifact");
            render_counts(p, &self.parts);
        }
        let ghost t = p.text();
        assert(t =~= old(p).text() + parts_lines(d, *self));
        if !self.by_kind.is_empty() {
            p.section("by kind");
            render_counts(p, &self.by_kind);
        }
        assert(p.text() =~= t + kind_lines(d, *self));
    }

    fn render_alerts(&self, p: &mut Page)
        ensures
            final(p).text() == old(p).text() + blocked_lines(old(p).depth as nat, *self) + notes_block(
                old(p).depth as nat,
                *self,
            ),
            final(p).depth == old(p).depth,
    {
        let ghost d = old(p).depth as nat;
        if self.blocked > 0 {
            p.blank();
            let mut text = String::new();
            push_count(&mut text, self.blocked as u64);
            if self.stored == 0 {
                text.append(" refused and nothing stored — this is a block, not an empty source");
            } else {
                text.append(" refused");
            }
            p.marked(Mark::Warn, text.as_str());
        }
        let ghost t = p.text();
        assert(t =~= old(p).text() + blocked_lines(d, *self));
        if self.notes.len() > 0 {
            p.blank();
            render_notes(p, &self.notes);
        }
        assert(p.text() =~= t + notes_block(d, *self));
    }

    fn render_failures(&self, p: &mut Page)
        requires
            old(p).depth < usize::MAX,
        ensures
            final(p).text() == old(p).text() + failures_block(old(p).depth as nat, *self),
            final(p).depth == old(p).depth,
    {
        let ghost d = old(p).depth as nat;
        if self.failures.len() == 0 {
            assert(p.text() =~= old(p).text() + failures_block(d, *self));
            return;
        }
        p.section("failures");
        let ghost top = p.text();
        let mut i: usize = 0;
        while i < self.failures.len()
            invariant
                i <= self.failures@.len(),
                p.depth == d,
                d < usize::MAX,
                p.text() == top + failures_lines(d, self.failures@.take(i as int)),
            decreases self.failures.len() - i,
        {
            assert(self.failures@.take(i + 1).drop_last() =~= self.failures@.take(i as int));
            self.failures[i].render(p);
            i = i + 1;
            assert(p.text() =~= top + failures_lines(d, self.failures@.take(i as int)));
        }
        assert(self.failures@.take(self.failures@.len() as int) =~= self.failures@);
        match self.failures_truncated {
            Some(more) => {
                let mut text = owned("… and ");
                push_count(&mut text, more as u64);
                text.append(" more");
                p.line(text.as_str());
            },
            None => {},
        }
        assert(p.text() =~= old(p).text() + failures_block(d, *self));
    }

    fn render_remaining(&self, p: &mut Page)
        ensures
            final(p).text() == old(p).text() + remaining_lines(old(p).depth as nat, *self),
            final(p).depth == old(p).depth,
    {
        if self.remaining > 0 {
            p.blank();
            let mut text = String::new();
            push_count(&mut text, self.remaining as u64);
            text.append(" still uncollected — re-run to continue");
            p.marked(Mark::Warn, text.as_str());
        }
        assert(p.text() =~= old(p).text() + remaining_lines(old(p).depth as nat, *self));
    }

    /// `remaining` is promoted to a line of its own, because it is the only figure that is
    /// an instruction: running the same command again continues from where this stopped.
    #[verifier::spinoff_prover]
    pub fn render(&self, p: &mut Page)
        requires
            old(p).depth + 2 < usize::MAX,
        ensures
            final(p).text() == old(p).text() + report_lines(old(p).depth as nat, *self),
            final(p).depth == old(p).depth,
    {
        let size = human_bytes(self.bytes);
        p.title(self.source.as_str(), size.as_str());
        p.enter();
        self.render_figures(p);
        self.render_tables(p);
        self.render_alerts(p);
        self.render_failures(p);
        self.render_remaining(p);
        p.leave();
        assert(p.text() =~= old(p).text() + report_lines(old(p).depth as nat, *self));
    }
}

} // verus!
