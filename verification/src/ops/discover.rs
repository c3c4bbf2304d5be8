//! `discover` — turn a source into the full set of addresses it declares.
//!
//! The output is a complete snapshot, not a delta. Snapshots are what make a shrinking
//! corpus visible: a run that finds 400 addresses where the last found 12,000 means
//! something broke, and the report says so.
use vstd::prelude::*;

use crate::counts::Counts;
use crate::domain::{note_lines, render_notes, Note, SourceKind};
use crate::page::{at, marked_at, title_text, Mark, Page};
use crate::text::{decimal, flat_all, grouped, one_line, push_count, push_decimal, push_char, signed};

verus! {

/// Sitemaps one discovery may fetch, unless asked.
pub fn default_max_sitemaps() -> (n: usize)
    ensures
        n == 200,
{
    200
}

/// Addresses one discovery may keep, unless asked.
pub fn default_max_urls() -> (n: usize)
    ensures
        n == 500_000,
{
    500_000
}

/// New addresses shown in the report, unless asked.
pub fn default_sample() -> (n: usize)
    ensures
        n == 10,
{
    10
}

#[derive(Debug)]
pub struct DiscoverReport {
    pub source: String,
    pub kind: SourceKind,
    /// The site or channel this was enumerated from.
    pub target: String,
    /// How it was enumerated — `sitemap`, `playlist`.
    pub method: String,
    pub found: usize,
    /// Addresses no previous snapshot contained: a set difference, not a count change.
    pub new: usize,
    /// The previous run's count. A large negative swing usually means a truncated pass.
    pub previous_run: Option<usize>,
    /// What the source wanted said about how it got here.
    pub notes: Vec<Note>,
    /// The same provenance for a machine, named as the source names it.
    pub figures: Counts,
    pub warnings: Vec<String>,
    pub sample: Vec<String>,
    pub written_to_log: bool,
}

/// `a - b`, signed, with a `+` in front when it did not shrink: `+12`, `-11600`.
pub open spec fn swing(a: nat, b: nat) -> Seq<char> {
    let delta = a - b;
    (if delta >= 0 { seq!['+'] } else { Seq::empty() }) + signed(delta)
}

pub open spec fn found_line(found: nat, new: nat) -> Seq<char> {
    grouped(found) + (if found == 1 { " address"@ } else { " addresses"@ }) + " discovered · "@ + grouped(new)
        + " new"@
}

pub open spec fn previous_text(found: nat, previous: nat) -> Seq<char> {
    swing(found, previous) + " against the previous run's "@ + grouped(previous)
}

/// The comparison with the previous run; amber when the snapshot shrank.
pub open spec fn previous_lines(depth: nat, found: nat, previous: Option<usize>) -> Seq<Seq<char>> {
    match previous {
        Some(prev) => if found < prev {
            seq![marked_at(depth, Mark::Warn, previous_text(found, prev as nat))]
        } else {
            seq![at(depth, previous_text(found, prev as nat))]
        },
        None => Seq::empty(),
    }
}

pub open spec fn log_text(written: bool) -> Seq<char> {
    if written { "written to the log"@ } else { "not written — preview only"@ }
}

pub open spec fn warning_lines(depth: nat, ws: Seq<String>) -> Seq<Seq<char>> {
    ws.map_values(|w: String| marked_at(depth, Mark::Warn, flat_all(w@)))
}

pub open spec fn plain_lines(depth: nat, ws: Seq<String>) -> Seq<Seq<char>> {
    ws.map_values(|w: String| at(depth, w@))
}

/// A titled list under a blank line, or nothing when the list is empty.
pub open spec fn sample_lines(depth: nat, sample: Seq<String>) -> Seq<Seq<char>> {
    if sample.len() == 0 {
        Seq::empty()
    } else {
        seq![Seq::<char>::empty(), at(depth, "sample"@)] + plain_lines(depth, sample)
    }
}

/// The count, and everything that would explain a wrong one.
pub open spec fn report_lines(depth: nat, r: DiscoverReport) -> Seq<Seq<char>> {
    let d = depth + 1;
    seq![at(depth, title_text(r.source@, r.target@)), at(d, found_line(r.found as nat, r.new as nat))]
        + previous_lines(d, r.found as nat, r.previous_run) + seq![Seq::<char>::empty()] + note_lines(d, r.notes@)
        + seq![marked_at(d, if r.written_to_log { Mark::Good } else { Mark::Warn }, log_text(r.written_to_log))] + warning_lines(
        d,
        r.warnings@,
    ) + sample_lines(d, r.sample@)
}

/// Appends `a - b`, signed, `+` in front when it did not shrink.
pub fn push_swing(out: &mut String, a: u64, b: u64)
    ensures
        final(out)@ == old(out)@ + swing(a as nat, b as nat),
{
    if a >= b {
        push_char(out, '+');
        push_decimal(out, a - b);
        assert(signed(a as nat - b as nat) == decimal((a - b) as nat));
        assert(out@ =~= old(out)@ + swing(a as nat, b as nat));
    } else {
        push_char(out, '-');
        push_decimal(out, b - a);
        assert(final(out)@ =~= old(out)@ + swing(a as nat, b as nat));
    }
}

/// Each warning, flattened onto one amber line.
pub fn render_warnings(p: &mut Page, warnings: &Vec<String>)
    ensures
        final(p).text() == old(p).text() + warning_lines(old(p).depth as nat, warnings@),
        final(p).depth == old(p).depth,
{
    let mut i: usize = 0;
    while i < warnings.len()
        invariant
            i <= warnings@.len(),
            p.depth == old(p).depth,
            p.text() == old(p).text() + warning_lines(old(p).depth as nat, warnings@.take(i as int)),
        decreases warnings.len() - i,
    {
        let text = one_line(warnings[i].as_str());
        p.marked(Mark::Warn, text.as_str());
        i = i + 1;
        assert(warning_lines(old(p).depth as nat, warnings@.take(i as int)) =~= warning_lines(
            old(p).depth as nat,
            warnings@.take(i - 1),
        ).push(marked_at(old(p).depth as nat, Mark::Warn, flat_all(warnings@[i - 1]@))));
    }
    assert(warnings@.take(warnings@.len() as int) =~= warnings@);
}

/// A heading, then one line per entry; nothing at all for an empty list.
pub fn render_sample(p: &mut Page, sample: &Vec<String>)
    ensures
        final(p).text() == old(p).text() + sample_lines(old(p).depth as nat, sample@),
        final(p).depth == old(p).depth,
{
    if sample.len() == 0 {
        assert(p.text() =~= old(p).text() + sample_lines(old(p).depth as nat, sample@));
        return;
    }
    p.section("sample");
    let ghost top = p.text();
    let mut i: usize = 0;
    while i < sample.len()
        invariant
            i <= sample@.len(),
            p.depth == old(p).depth,
            p.text() == top + plain_lines(old(p).depth as nat, sample@.take(i as int)),
        decreases sample.len() - i,
    {
        p.line(sample[i].as_str());
        i = i + 1;
        assert(plain_lines(old(p).depth as nat, sample@.take(i as int)) =~= plain_lines(
            old(p).depth as nat,
            sample@.take(i - 1),
        ).push(at(old(p).depth as nat, sample@[i - 1]@)));
    }
    assert(sample@.take(sample@.len() as int) =~= sample@);
    assert(p.text() =~= old(p).text() + sample_lines(old(p).depth as nat, sample@));
}

impl DiscoverReport {
    pub fn render(&self, p: &mut Page)
        requires
            old(p).depth + 1 < usize::MAX,
        ensures
            final(p).text() == old(p).text() + report_lines(old(p).depth as nat, *self),
            final(p).depth == old(p).depth,
    {
        let ghost d = old(p).depth as nat;
        p.title(self.source.as_str(), self.target.as_str());
        p.enter();
        let mut line = String::new();
        push_count(&mut line, self.found as u64);
        line.append(if self.found == 1 { " address" } else { " addresses" });
        line.append(" discovered · ");
        push_count(&mut line, self.new as u64);
        line.append(" new");
        assert(line@ =~= found_line(self.found as nat, self.new as nat));
        p.line(line.as_str());
        let ghost top = p.text();
        match self.previous_run {
            Some(previous) => {
                let mut text = String::new();
                push_swing(&mut text, self.found as u64, previous as u64);
                text.append(" against the previous run's ");
                push_count(&mut text, previous as u64);
                if self.found < previous {
                    p.marked(Mark::Warn, text.as_str());
                } else {
                    p.line(text.as_str());
                }
            },
            None => {},
        }
        assert(p.text() =~= top + previous_lines(d + 1, self.found as nat, self.previous_run));
        p.blank();
        render_notes(p, &self.notes);
        p.marked(
            Mark::from_ok(self.written_to_log),
            if self.written_to_log { "written to the log" } else { "not written — preview only" },
        );
        render_warnings(p, &self.warnings);
        render_sample(p, &self.sample);
        p.leave();
        assert(p.text() =~= old(p).text() + report_lines(d, *self));
    }
}

} // verus!
