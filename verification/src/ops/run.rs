//! `run` — collect everything new for every configured source, then index and embed it.
//!
//! Driving the stages is the host's. What is decided here is how a stage's numbers fold
//! across the calls it took — counts add, standing totals do not — how a stage that
//! failed somewhere reads, when a run did nothing, and how the report reads.
use vstd::prelude::*;

use crate::address::opt_view;
use crate::counts::{sum_of, Counts};
use crate::domain::{pad, pad_to, SourceKind};
use crate::page::{at, marked_at, note_text, title_text, Mark, Page};
use crate::ops::build_index::IndexReport;
use crate::ops::extract::ExtractReport;
use crate::ops::models::{human_bytes, human_bytes_of};
use crate::text::{decimal, flat_all, grouped, join_with, noun, one_line, owned, plural, plural_of, push_count, push_decimal};

verus! {

/// One step of the pipeline.
#[derive(Clone, Copy, Debug, PartialEq, Eq, Structural)]
pub enum Stage {
    /// Enumerate what the source declares it has.
    Discover,
    /// Fetch what discovery found and the store lacks.
    Collect,
    /// Derive text from collected documents.
    Extract,
    /// Derive text from collected audio.
    Transcribe,
    /// Chunk derived text into the search index.
    Index,
    /// Turn indexed chunks into vectors.
    Embed,
}

impl Stage {
    pub open spec fn name_spec(&self) -> Seq<char> {
        match self {
            Stage::Discover => "discover"@,
            Stage::Collect => "collect"@,
            Stage::Extract => "extract"@,
            Stage::Transcribe => "transcribe"@,
            Stage::Index => "index"@,
            Stage::Embed => "embed"@,
        }
    }

    /// The op a stage calls, by name.
    pub fn name(&self) -> (s: &'static str)
        ensures
            s@ == self.name_spec(),
    {
        match self {
            Stage::Discover => "discover",
            Stage::Collect => "collect",
            Stage::Extract => "extract",
            Stage::Transcribe => "transcribe",
            Stage::Index => "index",
            Stage::Embed => "embed",
        }
    }
}

#[derive(Debug)]
pub struct RunArgs {
    /// Sources to run. Empty for every enabled source in the config.
    pub sources: Vec<String>,
    /// Stages to skip.
    pub skip: Vec<Stage>,
    /// Stop collection after this many addresses, per source.
    pub limit: Option<usize>,
    /// Redo work already done.
    pub refresh: bool,
    /// Report the plan and exit.
    pub dry_run: bool,
    /// Config file.
    pub config: Option<String>,
}

impl Default for RunArgs {
    fn default() -> (a: Self)
        ensures
            a.sources@.len() == 0,
            a.skip@.len() == 0,
            a.limit is None,
            !a.refresh,
            !a.dry_run,
            a.config is None,
    {
        RunArgs { sources: Vec::new(), skip: Vec::new(), limit: None, refresh: false, dry_run: false, config: None }
    }
}

/// What became of one stage.
#[derive(Debug)]
pub enum StageStatus {
    Ran,
    /// Not attempted, and why — a skipped stage is not a failed one.
    Skipped { reason: String },
    /// Attempted and failed. The run continues; other sources are unaffected.
    Failed { error: String },
}

// ── the numbers of a stage ──────────────────────────────────────────────────

/// The numbers one stage produced, folded across however many calls it took.
#[derive(Debug)]
pub struct Tally {
    /// The count the report leads with.
    pub new: u64,
    /// Counts of this run's work. Two calls' counts add.
    pub counts: Counts,
    /// Standing totals of the store. Two calls' totals do not add: `total_chunks` is the
    /// size of one index.
    pub totals: Counts,
}

impl Tally {
    /// Nothing counted yet.
    pub fn empty() -> (t: Tally)
        ensures
            t.new == 0,
            t.counts.pairs().len() == 0,
            t.totals.pairs().len() == 0,
            forall|k: Seq<char>| #[trigger] t.counts.at(k) is None,
            forall|k: Seq<char>| #[trigger] t.totals.at(k) is None,
    {
        let t = Tally { new: 0, counts: Counts::new(), totals: Counts::new() };
        proof {
            assert forall|k: Seq<char>| #[trigger] t.counts.at(k) is None by {
                crate::counts::lemma_lookup_absent(t.counts.pairs(), k);
            }
            assert forall|k: Seq<char>| #[trigger] t.totals.at(k) is None by {
                crate::counts::lemma_lookup_absent(t.totals.pairs(), k);
            }
        }
        t
    }

    /// The headline count, plus the figures that add.
    pub fn of(new: u64, counts: &[(&str, u64)]) -> (t: Tally)
        ensures
            t.new == new,
            forall|i: int| 0 <= i < counts@.len() && (forall|j: int| i < j < counts@.len() ==> counts@[j].0@ != counts@[i].0@)
                ==> #[trigger] t.counts.at(counts@[i].0@) == Some(counts@[i].1),
            forall|k: Seq<char>| #[trigger] t.totals.at(k) is None,
    {
        let t = Tally { new, counts: Counts::from_pairs(counts), totals: Counts::new() };
        proof {
            assert forall|k: Seq<char>| #[trigger] t.totals.at(k) is None by {
                crate::counts::lemma_lookup_absent(t.totals.pairs(), k);
            }
        }
        t
    }

    /// A figure that is a standing total rather than a count of this call's work.
    pub fn total(self, key: &str, value: u64) -> (t: Tally)
        ensures
            t.new == self.new,
            t.counts == self.counts,
            t.totals.at(key@) == Some(value),
            forall|k: Seq<char>| k != key@ ==> #[trigger] t.totals.at(k) == self.totals.at(k),
    {
        let mut t = self;
        t.totals.set(key, value);
        t
    }

    /// Figures the caller counted for itself; what a source counts is the source's
    /// business.
    pub fn and(self, extra: &Counts) -> (t: Tally)
        ensures
            t.new == self.new,
            t.totals == self.totals,
            forall|k: Seq<char>| #[trigger] t.counts.at(k) == (match extra.at(k) {
                Some(v) => Some(v),
                None => self.counts.at(k),
            }),
    {
        let mut t = self;
        t.counts.extend(extra);
        t
    }

    /// Folds another call's answer in. Counts add; totals are replaced.
    pub fn absorb(&mut self, other: &Tally)
        requires
            old(self).new + other.new <= u64::MAX,
        ensures
            final(self).new == old(self).new + other.new,
            forall|k: Seq<char>| #[trigger] final(self).counts.at(k) == sum_of(old(self).counts.at(k), other.counts.at(k)),
            forall|k: Seq<char>| #[trigger] final(self).totals.at(k) == (match other.totals.at(k) {
                Some(v) => Some(v),
                None => old(self).totals.at(k),
            }),
    {
        self.new = self.new + other.new;
        self.counts.merge_add(&other.counts);
        self.totals.extend(&other.totals);
    }

    /// One figure, by the name its report gave it. Zero when the stage never counted it.
    pub fn get(&self, key: &str) -> (n: u64)
        ensures
            n == (match self.counts.at(key@) {
                Some(v) => v,
                None => match self.totals.at(key@) {
                    Some(v) => v,
                    None => 0,
                },
            }),
    {
        match self.counts.get(key) {
            Some(v) => v,
            None => match self.totals.get(key) {
                Some(v) => v,
                None => 0,
            },
        }
    }

    /// Every figure, the totals over any count of the same name.
    pub fn into_figures(self) -> (f: Counts)
        ensures
            forall|k: Seq<char>| #[trigger] f.at(k) == (match self.totals.at(k) {
                Some(v) => Some(v),
                None => self.counts.at(k),
            }),
    {
        let mut figures = self.counts;
        figures.extend(&self.totals);
        figures
    }
}

/// Folding tallies in adds their counts and keeps the last total: folding the same
/// standing total in from every source reports it once, not once per source.
pub proof fn law_totals_are_not_summed(before: Tally, after: Tally, other: Tally, k: Seq<char>)
    requires
        forall|k: Seq<char>| #[trigger] after.totals.at(k) == (match other.totals.at(k) {
            Some(v) => Some(v),
            None => before.totals.at(k),
        }),
        before.totals.at(k) == other.totals.at(k),
    ensures
        after.totals.at(k) == before.totals.at(k),
{
    assert(after.totals.at(k) == (match other.totals.at(k) {
        Some(v) => Some(v),
        None => before.totals.at(k),
    }));
}

// ── a stage ─────────────────────────────────────────────────────────────────

#[derive(Debug)]
pub struct StageRun {
    pub stage: Stage,
    pub status: StageStatus,
    /// One line for a person: `1,847 urls · 12 new`.
    pub summary: String,
    /// The same numbers for a machine, named as the underlying report names them.
    pub figures: Counts,
    /// What this stage newly did.
    pub new: u64,
    /// How long it took, in milliseconds.
    pub elapsed_millis: u64,
}

/// How a stage that failed somewhere reads: the count of failures when some calls worked,
/// because "one of your nineteen sources" is not "the stage is broken".
pub open spec fn fault_summary(errors: Seq<Seq<char>>, attempted: nat) -> Seq<char> {
    let first = flat_all(if errors.len() > 0 { errors[0] } else { "failed"@ });
    if errors.len() >= attempted {
        first
    } else {
        decimal(errors.len()) + " of "@ + decimal(attempted) + " failed · "@ + first
    }
}

pub open spec fn texts(v: Seq<String>) -> Seq<Seq<char>> {
    v.map_values(|s: String| s@)
}

impl StageRun {
    pub open spec fn failure(&self) -> bool {
        self.status is Failed
    }

    /// Not attempted, and why.
    pub fn skipped(stage: Stage, reason: &str) -> (r: StageRun)
        ensures
            r.stage == stage,
            r.status matches StageStatus::Skipped { reason: w } && w@ == reason@,
            r.summary@ == reason@,
            r.new == 0,
            r.figures.pairs().len() == 0,
            r.elapsed_millis == 0,
    {
        StageRun {
            stage,
            summary: owned(reason),
            status: StageStatus::Skipped { reason: owned(reason) },
            figures: Counts::new(),
            new: 0,
            elapsed_millis: 0,
        }
    }

    /// A stage whose one call failed.
    pub fn failed(stage: Stage, error: &str, elapsed_millis: u64) -> (r: StageRun)
        ensures
            r.stage == stage,
            r.status matches StageStatus::Failed { error: e } && e@ == error@,
            r.summary@ == flat_all(error@),
            r.new == 0,
            r.elapsed_millis == elapsed_millis,
    {
        let mut errors: Vec<String> = Vec::new();
        errors.push(owned(error));
        let r = StageRun::faulted(stage, Tally::empty(), errors, 1, elapsed_millis);
        assert(join_with(seq![error@], "; "@) == error@);
        r
    }

    /// A stage where at least one of `attempted` calls failed. Keeps the numbers of the
    /// calls that did not: half a corpus extracted is still half a corpus extracted.
    pub fn faulted(stage: Stage, tally: Tally, errors: Vec<String>, attempted: usize, elapsed_millis: u64) -> (r: StageRun)
        ensures
            r.stage == stage,
            r.status matches StageStatus::Failed { error: e } && e@ == join_with(texts(errors@), "; "@),
            r.summary@ == fault_summary(texts(errors@), attempted as nat),
            r.new == tally.new,
            forall|k: Seq<char>| #[trigger] r.figures.at(k) == (match tally.totals.at(k) {
                Some(v) => Some(v),
                None => tally.counts.at(k),
            }),
            r.elapsed_millis == elapsed_millis,
    {
        let first = if errors.len() > 0 {
            one_line(errors[0].as_str())
        } else {
            one_line("failed")
        };
        assert(errors@.len() > 0 ==> texts(errors@)[0] == errors@[0]@);
        let summary = if errors.len() >= attempted {
            first
        } else {
            let mut s = String::new();
            push_decimal(&mut s, errors.len() as u64);
            s.append(" of ");
            push_decimal(&mut s, attempted as u64);
            s.append(" failed · ");
            s.append(first.as_str());
            s
        };
        let mut joined = String::new();
        let mut i: usize = 0;
        while i < errors.len()
            invariant
                i <= errors@.len(),
                joined@ == join_with(texts(errors@).take(i as int), "; "@),
            decreases errors.len() - i,
        {
            let ghost prev = texts(errors@).take(i as int);
            assert(texts(errors@).take(i + 1).drop_last() =~= prev);
            assert(texts(errors@)[i as int] == errors@[i as int]@);
            if i > 0 {
                joined.append("; ");
            }
            joined.append(errors[i].as_str());
            i = i + 1;
        }
        assert(texts(errors@).take(errors@.len() as int) =~= texts(errors@));
        let new = tally.new;
        StageRun {
            stage,
            status: StageStatus::Failed { error: joined },
            summary,
            new,
            figures: tally.into_figures(),
            elapsed_millis,
        }
    }

    /// A stage that ran through.
    pub fn ran(stage: Stage, tally: Tally, summary: &str, elapsed_millis: u64) -> (r: StageRun)
        ensures
            r.stage == stage,
            r.status is Ran,
            r.summary@ == summary@,
            r.new == tally.new,
            forall|k: Seq<char>| #[trigger] r.figures.at(k) == (match tally.totals.at(k) {
                Some(v) => Some(v),
                None => tally.counts.at(k),
            }),
            r.elapsed_millis == elapsed_millis,
    {
        let new = tally.new;
        StageRun { stage, status: StageStatus::Ran, summary: owned(summary), new, figures: tally.into_figures(), elapsed_millis }
    }

    pub fn is_failure(&self) -> (b: bool)
        ensures
            b == self.failure(),
    {
        match self.status {
            StageStatus::Failed { .. } => true,
            _ => false,
        }
    }
}

// ── one stage across many targets ───────────────────────────────────────────

/// A stage folded across its targets as their answers come back. A target that fails does
/// not abandon the ones behind it; its error is named after it.
#[derive(Debug)]
pub struct Fold {
    pub tally: Tally,
    pub errors: Vec<String>,
    pub attempted: usize,
}

impl Fold {
    pub fn new() -> (f: Fold)
        ensures
            f.tally.new == 0,
            f.tally.counts.pairs().len() == 0,
            f.tally.totals.pairs().len() == 0,
            forall|k: Seq<char>| #[trigger] f.tally.counts.at(k) is None,
            forall|k: Seq<char>| #[trigger] f.tally.totals.at(k) is None,
            f.errors@.len() == 0,
            f.attempted == 0,
    {
        Fold { tally: Tally::empty(), errors: Vec::new(), attempted: 0 }
    }

    /// One target answered.
    pub fn worked(&mut self, t: &Tally)
        requires
            old(self).tally.new + t.new <= u64::MAX,
            old(self).attempted < usize::MAX,
        ensures
            final(self).tally.new == old(self).tally.new + t.new,
            forall|k: Seq<char>| #[trigger] final(self).tally.counts.at(k) == sum_of(old(self).tally.counts.at(k), t.counts.at(k)),
            forall|k: Seq<char>| #[trigger] final(self).tally.totals.at(k) == (match t.totals.at(k) {
                Some(v) => Some(v),
                None => old(self).tally.totals.at(k),
            }),
            final(self).errors == old(self).errors,
            final(self).attempted == old(self).attempted + 1,
    {
        self.tally.absorb(t);
        self.attempted = self.attempted + 1;
    }

    /// One target failed: its error, named after the target when there is one.
    pub fn broke(&mut self, target: Option<&str>, error: &str)
        requires
            old(self).attempted < usize::MAX,
        ensures
            final(self).tally == old(self).tally,
            texts(final(self).errors@) == texts(old(self).errors@).push(match target {
                Some(id) => id@ + ": "@ + error@,
                None => error@,
            }),
            final(self).attempted == old(self).attempted + 1,
    {
        let named = match target {
            Some(id) => {
                let mut s = owned(id);
                s.append(": ");
                s.append(error);
                s
            },
            None => owned(error),
        };
        self.errors.push(named);
        self.attempted = self.attempted + 1;
        assert(texts(self.errors@) =~= texts(old(self).errors@).push(named@));
    }

    /// The stage: ran when nothing failed, faulted otherwise, with the numbers of the
    /// targets that worked either way.
    pub fn finish(self, stage: Stage, summary: &str, elapsed_millis: u64) -> (r: StageRun)
        ensures
            r.stage == stage,
            r.failure() == (self.errors@.len() > 0),
            r.new == self.tally.new,
            r.summary@ == (if self.errors@.len() == 0 {
                summary@
            } else {
                fault_summary(texts(self.errors@), self.attempted as nat)
            }),
            forall|k: Seq<char>| #[trigger] r.figures.at(k) == (match self.tally.totals.at(k) {
                Some(v) => Some(v),
                None => self.tally.counts.at(k),
            }),
    {
        if self.errors.len() == 0 {
            StageRun::ran(stage, self.tally, summary, elapsed_millis)
        } else {
            StageRun::faulted(stage, self.tally, self.errors, self.attempted, elapsed_millis)
        }
    }
}

/// What one target's call came to.
#[derive(Debug)]
pub enum Answer {
    Worked(Tally),
    /// It failed; the error, and the target it was for when there is one.
    Broke { target: Option<String>, error: String },
}

/// What worked, summed.
pub open spec fn worked_new(a: Seq<Answer>) -> nat
    decreases a.len(),
{
    if a.len() == 0 {
        0
    } else {
        worked_new(a.drop_last()) + match a.last() {
            Answer::Worked(t) => t.new as nat,
            _ => 0,
        }
    }
}

/// The counts of what worked, added key by key.
pub open spec fn counts_sum(a: Seq<Answer>, k: Seq<char>) -> Option<u64>
    decreases a.len(),
{
    if a.len() == 0 {
        None
    } else {
        match a.last() {
            Answer::Worked(t) => sum_of(counts_sum(a.drop_last(), k), t.counts.at(k)),
            _ => counts_sum(a.drop_last(), k),
        }
    }
}

/// The standing totals: the last answer that has one wins, since totals do not add.
pub open spec fn totals_last(a: Seq<Answer>, k: Seq<char>) -> Option<u64>
    decreases a.len(),
{
    if a.len() == 0 {
        None
    } else {
        match a.last() {
            Answer::Worked(t) => match t.totals.at(k) {
                Some(v) => Some(v),
                None => totals_last(a.drop_last(), k),
            },
            _ => totals_last(a.drop_last(), k),
        }
    }
}

/// The error of every target that broke, in order, named after its target.
pub open spec fn error_lines(a: Seq<Answer>) -> Seq<Seq<char>>
    decreases a.len(),
{
    if a.len() == 0 {
        Seq::empty()
    } else {
        match a.last() {
            Answer::Broke { target, error } => error_lines(a.drop_last()).push(match target {
                Some(id) => id@ + ": "@ + error@,
                None => error@,
            }),
            _ => error_lines(a.drop_last()),
        }
    }
}

proof fn lemma_worked_new_prefix(a: Seq<Answer>, i: int)
    requires
        0 <= i <= a.len(),
    ensures
        worked_new(a.take(i)) <= worked_new(a),
    decreases a.len() - i,
{
    if i < a.len() {
        lemma_worked_new_prefix(a, i + 1);
        assert(a.take(i + 1).drop_last() =~= a.take(i));
    } else {
        assert(a.take(i) =~= a);
    }
}

impl Fold {
    /// The answers of a stage's targets, folded in the order they came: what worked is
    /// summed, counts added and standing totals taken from the last that has them; what
    /// broke is named, and abandons none of the targets behind it.
    pub fn all(answers: &Vec<Answer>) -> (f: Fold)
        requires
            worked_new(answers@) <= u64::MAX,
            answers@.len() < usize::MAX,
        ensures
            f.tally.new == worked_new(answers@),
            forall|k: Seq<char>| #[trigger] f.tally.counts.at(k) == counts_sum(answers@, k),
            forall|k: Seq<char>| #[trigger] f.tally.totals.at(k) == totals_last(answers@, k),
            texts(f.errors@) == error_lines(answers@),
            f.attempted == answers@.len(),
    {
        let mut f = Fold::new();
        let mut i: usize = 0;
        assert(texts(f.errors@) =~= Seq::<Seq<char>>::empty());
        while i < answers.len()
            invariant
                i <= answers@.len(),
                answers@.len() < usize::MAX,
                worked_new(answers@) <= u64::MAX,
                f.tally.new == worked_new(answers@.take(i as int)),
                forall|k: Seq<char>| #[trigger] f.tally.counts.at(k) == counts_sum(answers@.take(i as int), k),
                forall|k: Seq<char>| #[trigger] f.tally.totals.at(k) == totals_last(answers@.take(i as int), k),
                texts(f.errors@) == error_lines(answers@.take(i as int)),
                f.attempted == i,
            decreases answers.len() - i,
        {
            let ghost pre = answers@.take(i as int);
            assert(answers@.take(i + 1).drop_last() =~= pre);
            assert(answers@.take(i + 1).last() == answers@[i as int]);
            proof {
                lemma_worked_new_prefix(answers@, i + 1);
            }
            match &answers[i] {
                Answer::Worked(t) => {
                    f.worked(t);
                },
                Answer::Broke { target, error } => {
                    let named: Option<&str> = match target {
                        Some(id) => Some(id.as_str()),
                        None => None,
                    };
                    f.broke(named, error.as_str());
                },
            }
            i = i + 1;
        }
        assert(answers@.take(answers@.len() as int) =~= answers@);
        f
    }
}

/// A stage folded from its targets' answers fails exactly when one of them broke, and
/// then says how many; it counts what the others did all the same; and when every one of
/// them broke it counts nothing at all.
pub proof fn law_a_stage_fails_exactly_when_a_target_broke(a: Seq<Answer>)
    ensures
        (error_lines(a).len() > 0) == (exists|i: int| 0 <= i < a.len() && #[trigger] a[i] is Broke),
        (forall|i: int| 0 <= i < a.len() ==> #[trigger] a[i] is Broke) ==> worked_new(a) == 0 && forall|k: Seq<char>|
            #[trigger] counts_sum(a, k) is None && totals_last(a, k) is None,
    decreases a.len(),
{
    if a.len() > 0 {
        let rest = a.drop_last();
        law_a_stage_fails_exactly_when_a_target_broke(rest);
        if exists|i: int| 0 <= i < rest.len() && #[trigger] rest[i] is Broke {
            let i = choose|i: int| 0 <= i < rest.len() && #[trigger] rest[i] is Broke;
            assert(a[i] == rest[i]);
        }
        if exists|i: int| 0 <= i < a.len() && #[trigger] a[i] is Broke {
            let i = choose|i: int| 0 <= i < a.len() && #[trigger] a[i] is Broke;
            if i < a.len() - 1 {
                assert(rest[i] == a[i]);
            }
        }
        assert(a[a.len() - 1] == a.last());
        if forall|i: int| 0 <= i < a.len() ==> #[trigger] a[i] is Broke {
            assert forall|i: int| 0 <= i < rest.len() implies #[trigger] rest[i] is Broke by {
                assert(rest[i] == a[i]);
            }
            assert forall|k: Seq<char>| #[trigger] counts_sum(a, k) is None && totals_last(a, k) is None by {
                assert(counts_sum(rest, k) is None && totals_last(rest, k) is None);
            }
        }
    }
}

// ── the run ─────────────────────────────────────────────────────────────────

#[derive(Debug)]
pub struct SourceRun {
    pub source: String,
    pub kind: SourceKind,
    /// The site or channel URL this source was acquired from.
    pub target: String,
    pub stages: Vec<StageRun>,
    pub elapsed_millis: u64,
}

pub open spec fn any_failure(ss: Seq<StageRun>) -> bool {
    exists|i: int| 0 <= i < ss.len() && #[trigger] ss[i].failure()
}

/// The `new` of every stage of the given kinds, summed.
pub open spec fn new_of(ss: Seq<StageRun>, kinds: Set<Stage>) -> nat
    decreases ss.len(),
{
    if ss.len() == 0 {
        0
    } else {
        new_of(ss.drop_last(), kinds) + (if kinds.contains(ss.last().stage) { ss.last().new as nat } else { 0nat })
    }
}

fn failed_among(ss: &Vec<StageRun>) -> (b: bool)
    ensures
        b == any_failure(ss@),
{
    let mut i: usize = 0;
    while i < ss.len()
        invariant
            i <= ss@.len(),
            forall|j: int| 0 <= j < i ==> !(#[trigger] ss@[j].failure()),
        decreases ss.len() - i,
    {
        if ss[i].is_failure() {
            return true;
        }
        i = i + 1;
    }
    false
}

/// A sum held at `u64::MAX`.
pub open spec fn capped(n: nat) -> nat {
    if n > u64::MAX { u64::MAX as nat } else { n }
}

fn sum_new(ss: &Vec<StageRun>, a: Stage, b: Stage) -> (n: u64)
    ensures
        n == capped(new_of(ss@, set![a, b])),
{
    let mut n: u64 = 0;
    let mut i: usize = 0;
    while i < ss.len()
        invariant
            i <= ss@.len(),
            n == capped(new_of(ss@.take(i as int), set![a, b])),
        decreases ss.len() - i,
    {
        assert(ss@.take(i + 1).drop_last() =~= ss@.take(i as int));
        if ss[i].stage == a || ss[i].stage == b {
            n = n.saturating_add(ss[i].new);
        }
        i = i + 1;
    }
    assert(ss@.take(ss@.len() as int) =~= ss@);
    n
}

impl SourceRun {
    pub fn failed(&self) -> (b: bool)
        ensures
            b == any_failure(self.stages@),
    {
        failed_among(&self.stages)
    }

    /// Documents this source newly stored: what collection did, not every stage.
    pub fn new_documents(&self) -> (n: u64)
        ensures
            n == capped(new_of(self.stages@, set![Stage::Collect, Stage::Collect])),
    {
        sum_new(&self.stages, Stage::Collect, Stage::Collect)
    }
}

#[derive(Debug)]
pub struct RunReport {
    /// The config that was read, or none when none was found.
    pub config: Option<String>,
    /// Acquisition, one entry per source, in config order.
    pub sources: Vec<SourceRun>,
    /// Derivation, corpus-wide, in pipeline order.
    pub derive: Vec<StageRun>,
    /// Documents newly stored across every source. Zero means nothing changed.
    pub new_documents: u64,
    /// Chunks newly embedded.
    pub new_chunks: u64,
    /// Stages that were attempted and failed, anywhere in the run.
    pub failed_stages: u64,
    pub elapsed_millis: u64,
    pub dry_run: bool,
}

/// What collection newly stored, over every source's run.
pub open spec fn documents_of(rs: Seq<SourceRun>) -> nat
    decreases rs.len(),
{
    if rs.len() == 0 {
        0
    } else {
        documents_of(rs.drop_last()) + new_of(rs.last().stages@, set![Stage::Collect, Stage::Collect])
    }
}

/// The run's own counts agree with its stages: new documents are what the collect stages
/// stored and new chunks what the embed stage embedded, each held at `u64::MAX`.
pub open spec fn tallied(r: RunReport) -> bool {
    &&& r.new_documents == capped(documents_of(r.sources@))
    &&& r.new_chunks == capped(new_of(r.derive@, set![Stage::Embed, Stage::Embed]))
}

proof fn lemma_capped_add(x: nat, y: nat)
    ensures
        capped(capped(x) + capped(y)) == capped(x + y),
{
}

/// Every stage of every source, and the corpus-wide ones, did nothing new.
pub open spec fn all_still(r: RunReport) -> bool {
    &&& forall|i: int, j: int|
        0 <= i < r.sources@.len() && 0 <= j < r.sources@[i].stages@.len() ==> #[trigger] r.sources@[i].stages@[j].new == 0
    &&& forall|k: int| 0 <= k < r.derive@.len() ==> #[trigger] r.derive@[k].new == 0
}

impl RunReport {
    /// A report before anything ran.
    pub fn started(config: Option<String>, dry_run: bool) -> (r: RunReport)
        ensures
            r.config == config,
            r.dry_run == dry_run,
            r.sources@.len() == 0 && r.derive@.len() == 0,
            r.new_documents == 0 && r.new_chunks == 0 && r.failed_stages == 0 && r.elapsed_millis == 0,
            tallied(r),
    {
        RunReport {
            config,
            sources: Vec::new(),
            derive: Vec::new(),
            new_documents: 0,
            new_chunks: 0,
            failed_stages: 0,
            elapsed_millis: 0,
            dry_run,
        }
    }

    /// One source acquired: its run is kept, and what its collection stored is counted.
    pub fn acquired(&mut self, s: SourceRun)
        ensures
            final(self).sources@ == old(self).sources@.push(s),
            final(self).derive == old(self).derive,
            final(self).new_chunks == old(self).new_chunks,
            final(self).failed_stages == old(self).failed_stages,
            final(self).config == old(self).config && final(self).dry_run == old(self).dry_run,
            tallied(*old(self)) ==> tallied(*final(self)),
    {
        let n = s.new_documents();
        self.new_documents = self.new_documents.saturating_add(n);
        let ghost before = self.sources@;
        self.sources.push(s);
        proof {
            assert(self.sources@.drop_last() =~= before);
            lemma_capped_add(documents_of(before), new_of(s.stages@, set![Stage::Collect, Stage::Collect]));
        }
    }

    /// One derivation stage done: kept in pipeline order, and what embedding did counted.
    pub fn derived(&mut self, r: StageRun)
        ensures
            final(self).derive@ == old(self).derive@.push(r),
            final(self).sources == old(self).sources,
            final(self).new_documents == old(self).new_documents,
            final(self).failed_stages == old(self).failed_stages,
            final(self).config == old(self).config && final(self).dry_run == old(self).dry_run,
            tallied(*old(self)) ==> tallied(*final(self)),
    {
        let ghost before = self.derive@;
        if r.stage == Stage::Embed {
            self.new_chunks = self.new_chunks.saturating_add(r.new);
        }
        self.derive.push(r);
        proof {
            assert(self.derive@.drop_last() =~= before);
            lemma_capped_add(new_of(before, set![Stage::Embed, Stage::Embed]), if r.stage == Stage::Embed {
                r.new as nat
            } else {
                0
            });
        }
    }

    /// The run is over: every failed stage, acquisition and derivation alike, counted.
    pub fn closed(&mut self, elapsed_millis: u64)
        ensures
            final(self).failed_stages == capped(source_failures(old(self).sources@) + failures_of(old(self).derive@)),
            final(self).elapsed_millis == elapsed_millis,
            final(self).sources == old(self).sources && final(self).derive == old(self).derive,
            final(self).new_documents == old(self).new_documents && final(self).new_chunks == old(self).new_chunks,
            final(self).config == old(self).config && final(self).dry_run == old(self).dry_run,
    {
        self.failed_stages = self.count_failures();
        self.elapsed_millis = elapsed_millis;
    }

    /// The run did no new work anywhere and nothing failed — the cheap, expected outcome.
    /// Asked of every stage, not of the two headline counters.
    pub open spec fn quiet(&self) -> bool {
        self.failed_stages == 0 && all_still(*self)
    }

    pub fn is_quiet(&self) -> (b: bool)
        ensures
            b == self.quiet(),
    {
        if self.failed_stages != 0 {
            return false;
        }
        let mut i: usize = 0;
        while i < self.sources.len()
            invariant
                i <= self.sources@.len(),
                forall|a: int, j: int|
                    0 <= a < i && 0 <= j < self.sources@[a].stages@.len() ==> #[trigger] self.sources@[a].stages@[j].new == 0,
            decreases self.sources.len() - i,
        {
            let stages = &self.sources[i].stages;
            let mut j: usize = 0;
            while j < stages.len()
                invariant
                    i < self.sources@.len(),
                    stages@ == self.sources@[i as int].stages@,
                    j <= stages@.len(),
                    forall|b: int| 0 <= b < j ==> #[trigger] stages@[b].new == 0,
                decreases stages.len() - j,
            {
                if stages[j].new != 0 {
                    return false;
                }
                j = j + 1;
            }
            i = i + 1;
        }
        let mut k: usize = 0;
        while k < self.derive.len()
            invariant
                k <= self.derive@.len(),
                forall|a: int, j: int|
                    0 <= a < self.sources@.len() && 0 <= j < self.sources@[a].stages@.len()
                        ==> #[trigger] self.sources@[a].stages@[j].new == 0,
                forall|b: int| 0 <= b < k ==> #[trigger] self.derive@[b].new == 0,
            decreases self.derive.len() - k,
        {
            if self.derive[k].new != 0 {
                return false;
            }
            k = k + 1;
        }
        true
    }

    /// Documents derived this run, for the headline when nothing was collected.
    pub fn newly_derived(&self) -> (n: u64)
        ensures
            n == capped(new_of(self.derive@, set![Stage::Extract, Stage::Transcribe])),
    {
        sum_new(&self.derive, Stage::Extract, Stage::Transcribe)
    }
}

// ── how it reads ────────────────────────────────────────────────────────────

/// A duration the way a person says it: tenths of a second under a minute, then minutes
/// and seconds, then hours and minutes.
pub open spec fn duration_of(millis: nat) -> Seq<char> {
    let secs = millis / 1000;
    if secs < 60 {
        decimal(secs) + seq!['.'] + decimal((millis % 1000) / 100) + "s"@
    } else if secs < 3600 {
        decimal(secs / 60) + "m "@ + decimal(secs % 60) + "s"@
    } else {
        decimal(secs / 3600) + "h "@ + decimal((secs % 3600) / 60) + "m"@
    }
}

pub fn duration(millis: u64) -> (s: String)
    ensures
        s@ == duration_of(millis as nat),
{
    let secs = millis / 1000;
    let mut s = String::new();
    if secs < 60 {
        push_decimal(&mut s, secs);
        crate::text::push_char(&mut s, '.');
        push_decimal(&mut s, (millis % 1000) / 100);
        s.append("s");
    } else if secs < 3600 {
        push_decimal(&mut s, secs / 60);
        s.append("m ");
        push_decimal(&mut s, secs % 60);
        s.append("s");
    } else {
        push_decimal(&mut s, secs / 3600);
        s.append("h ");
        push_decimal(&mut s, (secs % 3600) / 60);
        s.append("m");
    }
    assert(s@ =~= duration_of(millis as nat));
    s
}

/// Width of the stage-name column. Fits `transcribe` plus a gutter.
pub const STAGE_COL: usize = 11;

/// Every status reads from `summary`: the failure line is the one that says "1 of 19
/// failed" rather than the first error alone.
pub open spec fn stage_text(s: StageRun) -> Seq<char> {
    pad(s.stage.name_spec(), STAGE_COL as nat) + match s.status {
        StageStatus::Ran => s.summary@,
        StageStatus::Skipped { .. } => "skipped — "@ + s.summary@,
        StageStatus::Failed { .. } => flat_all(s.summary@),
    }
}

/// One stage line; the corpus-wide tail has no source above it and carries its own glyph.
pub open spec fn stage_line(depth: nat, s: StageRun, standalone: bool) -> Seq<char> {
    if standalone {
        marked_at(
            depth,
            match s.status {
                StageStatus::Failed { .. } => Mark::Bad,
                StageStatus::Skipped { .. } => Mark::Blank,
                StageStatus::Ran => Mark::Good,
            },
            stage_text(s),
        )
    } else {
        at(depth, stage_text(s))
    }
}

pub open spec fn stage_lines(depth: nat, ss: Seq<StageRun>, standalone: bool) -> Seq<Seq<char>> {
    ss.map_values(|s: StageRun| stage_line(depth, s, standalone))
}

pub open spec fn source_head(s: SourceRun) -> Seq<char> {
    pad(s.source@, 20) + "  "@ + pad(s.kind.name_spec(), 8) + "  "@ + duration_of(s.elapsed_millis as nat)
}

pub open spec fn source_lines(depth: nat, s: SourceRun) -> Seq<Seq<char>> {
    seq![marked_at(depth, if any_failure(s.stages@) { Mark::Warn } else { Mark::Good }, source_head(s))]
        + stage_lines(depth + 1, s.stages@, false)
}

pub open spec fn sources_lines(depth: nat, ss: Seq<SourceRun>) -> Seq<Seq<char>>
    decreases ss.len(),
{
    if ss.len() == 0 {
        Seq::empty()
    } else {
        sources_lines(depth, ss.drop_last()) + source_lines(depth, ss.last())
    }
}

/// What changed, said first: documents, else what was derived; chunks; failures.
pub open spec fn headline_parts(r: RunReport) -> Seq<Seq<char>> {
    let derived = capped(new_of(r.derive@, set![Stage::Extract, Stage::Transcribe]));
    (if r.new_documents > 0 {
        seq![grouped(r.new_documents as nat) + " new "@ + (if r.new_documents == 1 { "document"@ } else { "documents"@ })]
    } else if derived > 0 {
        seq![grouped(derived) + " "@ + (if derived == 1 { "document"@ } else { "documents"@ }) + " derived"@]
    } else {
        Seq::empty()
    }) + (if r.new_chunks > 0 {
        seq![grouped(r.new_chunks as nat) + " embedded"@]
    } else {
        Seq::empty()
    }) + (if r.failed_stages > 0 {
        seq![plural_of(r.failed_stages as nat, "stage"@, "stages"@) + " failed"@]
    } else {
        Seq::empty()
    })
}

pub open spec fn headline(r: RunReport) -> Seq<char> {
    if r.dry_run {
        "dry run — nothing was fetched"@
    } else if r.quiet() || headline_parts(r).len() == 0 {
        "nothing new"@
    } else {
        join_with(headline_parts(r), " · "@)
    }
}

/// The headline first, then per-source acquisition, then the corpus-wide tail.
pub open spec fn report_lines(depth: nat, r: RunReport) -> Seq<Seq<char>> {
    if r.sources@.len() == 0 {
        seq![
            at(depth, "No sources configured."@),
            Seq::<char>::empty(),
            at(depth, note_text("centinel source add tampa --site https://www.tampa.gov"@)),
        ]
    } else {
        seq![
            at(
                depth,
                title_text(
                    headline(r),
                    plural_of(r.sources@.len() as nat, "source"@, "sources"@) + " · "@ + duration_of(r.elapsed_millis as nat),
                ),
            ),
        ] + sources_lines(depth + 1, r.sources@) + (if r.derive@.len() > 0 {
            seq![Seq::<char>::empty()] + stage_lines(depth + 1, r.derive@, true)
        } else {
            Seq::empty()
        })
    }
}

fn stage_text_of(s: &StageRun) -> (t: String)
    ensures
        t@ == stage_text(*s),
{
    let mut t = pad_to(s.stage.name(), STAGE_COL);
    match &s.status {
        StageStatus::Ran => t.append(s.summary.as_str()),
        StageStatus::Skipped { .. } => {
            t.append("skipped — ");
            t.append(s.summary.as_str());
        },
        StageStatus::Failed { .. } => {
            let flat = one_line(s.summary.as_str());
            t.append(flat.as_str());
        },
    }
    t
}

pub fn render_stages(p: &mut Page, ss: &Vec<StageRun>, standalone: bool)
    ensures
        final(p).text() == old(p).text() + stage_lines(old(p).depth as nat, ss@, standalone),
        final(p).depth == old(p).depth,
{
    let ghost d = old(p).depth as nat;
    let mut i: usize = 0;
    while i < ss.len()
        invariant
            i <= ss@.len(),
            p.depth == d,
            p.text() == old(p).text() + stage_lines(d, ss@.take(i as int), standalone),
        decreases ss.len() - i,
    {
        let t = stage_text_of(&ss[i]);
        if standalone {
            let mark = match ss[i].status {
                StageStatus::Failed { .. } => Mark::Bad,
                StageStatus::Skipped { .. } => Mark::Blank,
                StageStatus::Ran => Mark::Good,
            };
            p.marked(mark, t.as_str());
        } else {
            p.line(t.as_str());
        }
        i = i + 1;
        assert(stage_lines(d, ss@.take(i as int), standalone) =~= stage_lines(d, ss@.take(i - 1), standalone).push(
            stage_line(d, ss@[i - 1], standalone),
        ));
    }
    assert(ss@.take(ss@.len() as int) =~= ss@);
}

impl SourceRun {
    pub fn render(&self, p: &mut Page)
        requires
            old(p).depth < usize::MAX,
        ensures
            final(p).text() == old(p).text() + source_lines(old(p).depth as nat, *self),
            final(p).depth == old(p).depth,
    {
        let failed = self.failed();
        let mut head = pad_to(self.source.as_str(), 20);
        head.append("  ");
        let kind = pad_to(self.kind.name(), 8);
        head.append(kind.as_str());
        head.append("  ");
        let time = duration(self.elapsed_millis);
        head.append(time.as_str());
        assert(head@ =~= source_head(*self));
        p.marked(if failed { Mark::Warn } else { Mark::Good }, head.as_str());
        p.enter();
        render_stages(p, &self.stages, false);
        p.leave();
        assert(p.text() =~= old(p).text() + source_lines(old(p).depth as nat, *self));
    }
}

impl RunReport {
    fn headline_text(&self) -> (s: String)
        ensures
            s@ == headline(*self),
    {
        if self.dry_run {
            return owned("dry run — nothing was fetched");
        }
        if self.is_quiet() {
            return owned("nothing new");
        }
        let derived = self.newly_derived();
        let mut parts: Vec<String> = Vec::new();
        if self.new_documents > 0 {
            let mut s = String::new();
            push_count(&mut s, self.new_documents);
            s.append(" new ");
            s.append(if self.new_documents == 1 { "document" } else { "documents" });
            parts.push(s);
        } else if derived > 0 {
            let mut s = String::new();
            push_count(&mut s, derived);
            s.append(" ");
            s.append(if derived == 1 { "document" } else { "documents" });
            s.append(" derived");
            parts.push(s);
        }
        if self.new_chunks > 0 {
            let mut s = String::new();
            push_count(&mut s, self.new_chunks);
            s.append(" embedded");
            parts.push(s);
        }
        if self.failed_stages > 0 {
            let mut s = plural(self.failed_stages, "stage", "stages");
            s.append(" failed");
            parts.push(s);
        }
        assert(texts(parts@) =~= headline_parts(*self));
        if parts.len() == 0 {
            return owned("nothing new");
        }
        let mut out = String::new();
        let mut i: usize = 0;
        while i < parts.len()
            invariant
                i <= parts@.len(),
                out@ == join_with(texts(parts@).take(i as int), " · "@),
            decreases parts.len() - i,
        {
            assert(texts(parts@).take(i + 1).drop_last() =~= texts(parts@).take(i as int));
            assert(texts(parts@)[i as int] == parts@[i as int]@);
            if i > 0 {
                out.append(" · ");
            }
            out.append(parts[i].as_str());
            i = i + 1;
        }
        assert(texts(parts@).take(parts@.len() as int) =~= texts(parts@));
        out
    }

    pub fn render(&self, p: &mut Page)
        requires
            old(p).depth + 1 < usize::MAX,
        ensures
            final(p).text() == old(p).text() + report_lines(old(p).depth as nat, *self),
            final(p).depth == old(p).depth,
    {
        let ghost d = old(p).depth as nat;
        if self.sources.len() == 0 {
            p.line("No sources configured.");
            p.blank();
            p.note("centinel source add tampa --site https://www.tampa.gov");
            assert(p.text() =~= old(p).text() + report_lines(d, *self));
            return;
        }
        let head = self.headline_text();
        let mut aside = plural(self.sources.len() as u64, "source", "sources");
        aside.append(" · ");
        let time = duration(self.elapsed_millis);
        aside.append(time.as_str());
        p.title(head.as_str(), aside.as_str());
        p.enter();
        let ghost top = p.text();
        let mut i: usize = 0;
        while i < self.sources.len()
            invariant
                i <= self.sources@.len(),
                p.depth == d + 1,
                d + 1 < usize::MAX,
                p.text() == top + sources_lines(d + 1, self.sources@.take(i as int)),
            decreases self.sources.len() - i,
        {
            assert(self.sources@.take(i + 1).drop_last() =~= self.sources@.take(i as int));
            self.sources[i].render(p);
            i = i + 1;
            assert(p.text() =~= top + sources_lines(d + 1, self.sources@.take(i as int)));
        }
        assert(self.sources@.take(self.sources@.len() as int) =~= self.sources@);
        if self.derive.len() > 0 {
            p.blank();
            render_stages(p, &self.derive, true);
        }
        p.leave();
        assert(p.text() =~= old(p).text() + report_lines(d, *self));
    }
}

// ── planning a run ──────────────────────────────────────────────────────────

/// The corpus-wide stages, in order; transcription only when some source yields audio.
pub open spec fn derive_stages_of(yields_audio: bool) -> Seq<Stage> {
    if yields_audio {
        seq![Stage::Extract, Stage::Transcribe, Stage::Index, Stage::Embed]
    } else {
        seq![Stage::Extract, Stage::Index, Stage::Embed]
    }
}

pub fn derive_stages(yields_audio: bool) -> (v: Vec<Stage>)
    ensures
        v@ == derive_stages_of(yields_audio),
{
    let mut v: Vec<Stage> = Vec::new();
    v.push(Stage::Extract);
    if yields_audio {
        v.push(Stage::Transcribe);
    }
    v.push(Stage::Index);
    v.push(Stage::Embed);
    assert(v@ =~= derive_stages_of(yields_audio));
    v
}

/// The progress bar's denominator: two acquisition stages per source, plus the tail.
/// Counted before anything runs, so the bar never grows a total under someone watching.
pub fn total_steps(sources: usize, derive: usize) -> (n: u64)
    requires
        sources * 2 + derive <= u64::MAX,
    ensures
        n == sources * 2 + derive,
{
    (sources as u64) * 2 + derive as u64
}

fn asks_skip(skip: &Vec<Stage>, stage: Stage) -> (b: bool)
    ensures
        b == skip@.contains(stage),
{
    let mut i: usize = 0;
    while i < skip.len()
        invariant
            i <= skip@.len(),
            forall|j: int| 0 <= j < i ==> skip@[j] != stage,
        decreases skip.len() - i,
    {
        if skip[i] == stage {
            assert(skip@[i as int] == stage);
            return true;
        }
        i = i + 1;
    }
    false
}

/// Why an acquisition stage is not run, or `None` when it is. Collecting against a
/// discovery that just failed would acquire the previous snapshot and report success.
pub open spec fn acquisition_skip_of(stage: Stage, skip: Seq<Stage>, dry_run: bool, earlier: Seq<StageRun>) -> Option<Seq<char>> {
    if skip.contains(stage) {
        Some("--skip"@)
    } else if dry_run {
        Some("--dry-run"@)
    } else if stage == Stage::Collect && any_failure(earlier) {
        Some("discover failed"@)
    } else {
        None
    }
}

pub fn acquisition_skip(stage: Stage, args: &RunArgs, earlier: &Vec<StageRun>) -> (r: Option<&'static str>)
    ensures
        match r {
            Some(w) => acquisition_skip_of(stage, args.skip@, args.dry_run, earlier@) == Some(w@),
            None => acquisition_skip_of(stage, args.skip@, args.dry_run, earlier@) is None,
        },
{
    if asks_skip(&args.skip, stage) {
        return Some("--skip");
    }
    if args.dry_run {
        return Some("--dry-run");
    }
    if stage == Stage::Collect {
        let mut i: usize = 0;
        while i < earlier.len()
            invariant
                i <= earlier@.len(),
                !args.skip@.contains(stage),
                !args.dry_run,
                stage == Stage::Collect,
                forall|j: int| 0 <= j < i ==> !(#[trigger] earlier@[j]).failure(),
            decreases earlier.len() - i,
        {
            if earlier[i].is_failure() {
                assert(earlier@[i as int].failure());
                return Some("discover failed");
            }
            i = i + 1;
        }
    }
    None
}

/// Why a derivation stage is not run, or `None` when it is.
pub fn derivation_skip(stage: Stage, args: &RunArgs) -> (r: Option<&'static str>)
    ensures
        match r {
            Some(w) => (args.skip@.contains(stage) && w@ == "--skip"@) || (!args.skip@.contains(stage) && args.dry_run
                && w@ == "--dry-run"@),
            None => !args.skip@.contains(stage) && !args.dry_run,
        },
{
    if asks_skip(&args.skip, stage) {
        Some("--skip")
    } else if args.dry_run {
        Some("--dry-run")
    } else {
        None
    }
}

/// One call per named source, or one unscoped call covering the store: folding the
/// answers keeps the report shape identical either way.
pub fn targets_of(scope: &Vec<String>) -> (t: Vec<Option<String>>)
    ensures
        scope@.len() == 0 ==> t@.len() == 1 && t@[0] is None,
        scope@.len() > 0 ==> t@.len() == scope@.len() && forall|i: int| 0 <= i < scope@.len() ==> ((#[trigger] t@[i])
            matches Some(id) && id@ == scope@[i]@),
{
    let mut t: Vec<Option<String>> = Vec::new();
    if scope.len() == 0 {
        t.push(None);
        return t;
    }
    let mut i: usize = 0;
    while i < scope.len()
        invariant
            i <= scope@.len(),
            t@.len() == i,
            forall|j: int| 0 <= j < i ==> ((#[trigger] t@[j]) matches Some(id) && id@ == scope@[j]@),
        decreases scope.len() - i,
    {
        t.push(Some(owned(scope[i].as_str())));
        i = i + 1;
    }
    t
}

/// One call a derivation stage makes, with the arguments it hands the op.
#[derive(Debug)]
pub enum Call {
    Extract { source: Option<String>, limit: Option<usize>, refresh: bool },
    Transcribe { source: Option<String>, model: String, language: String, limit: Option<usize>, refresh: bool },
    /// `--refresh` clears the scope it refreshes: a re-extraction makes a new derived
    /// blob, and without a rebuild the old extraction's chunks would stay beside it.
    Index { source: Option<String>, rebuild: bool },
    /// The vector table is keyed by chunk hash, corpus-wide, so embedding has no source.
    Embed { model: String, limit: Option<usize> },
}

/// What a derivation stage comes to: skipped for a reason, or these calls, folded.
#[derive(Debug)]
pub enum Dispatch {
    Skip(String),
    Calls(Vec<Call>),
}

/// The source the `i`th call of a scoped stage covers: each named source in turn, or the
/// whole store when none is named.
pub open spec fn scope_target(scope: Seq<String>, i: int) -> Option<Seq<char>> {
    if scope.len() == 0 { None } else { Some(scope[i]@) }
}

/// How many calls a stage makes over a scope: one per named source, one over the whole
/// store when none is named, and always one for embedding.
pub open spec fn call_count(stage: Stage, scope: Seq<String>) -> nat {
    if stage == Stage::Embed || scope.len() == 0 { 1 } else { scope.len() }
}

/// The `i`th call of a stage, as the run means it.
pub open spec fn call_is(
    c: Call,
    stage: Stage,
    args: RunArgs,
    scope: Seq<String>,
    i: int,
    transcribe_model: Seq<char>,
    embed_model: Seq<char>,
    lang: Seq<char>,
) -> bool {
    match c {
        Call::Extract { source, limit, refresh } => stage == Stage::Extract && opt_view(source) == scope_target(scope, i)
            && limit == args.limit && refresh == args.refresh,
        Call::Transcribe { source, model, language, limit, refresh } => stage == Stage::Transcribe && opt_view(source)
            == scope_target(scope, i) && model@ == transcribe_model && language@ == lang && limit == args.limit
            && refresh == args.refresh,
        Call::Index { source, rebuild } => stage == Stage::Index && opt_view(source) == scope_target(scope, i) && rebuild
            == args.refresh,
        Call::Embed { model, limit } => stage == Stage::Embed && model@ == embed_model && limit == args.limit,
    }
}

/// Whether a stage needs a model on this machine before it can run.
pub open spec fn needs_model(stage: Stage) -> bool {
    stage == Stage::Transcribe || stage == Stage::Embed
}

fn opt_owned(o: &Option<String>) -> (c: Option<String>)
    ensures
        opt_view(c) == opt_view(*o),
{
    match o {
        Some(s) => Some(owned(s.as_str())),
        None => None,
    }
}

/// What a derivation stage does in a run. Acquisition stages are not derivations. A stage
/// whose model is missing (`missing_model`, the host's answer for the stage's model) is
/// skipped with that reason rather than failed: what was collected stays collected and
/// the stage resumes once the weights are there. Otherwise the calls, one per target.
pub fn dispatch(
    stage: Stage,
    args: &RunArgs,
    scope: &Vec<String>,
    transcribe_model: &str,
    embed_model: &str,
    lang: &str,
    missing_model: Option<String>,
) -> (d: Dispatch)
    ensures
        (stage == Stage::Discover || stage == Stage::Collect) ==> (d matches Dispatch::Skip(w) && w@
            == "not a derivation stage"@),
        needs_model(stage) && missing_model is Some ==> (d matches Dispatch::Skip(w) && w == missing_model->0),
        (stage == Stage::Extract || stage == Stage::Index || (needs_model(stage) && missing_model is None)) ==> (
        d matches Dispatch::Calls(cs) && cs@.len() == call_count(stage, scope@) && forall|i: int|
            0 <= i < cs@.len() ==> call_is(
                #[trigger] cs@[i],
                stage,
                *args,
                scope@,
                i,
                transcribe_model@,
                embed_model@,
                lang@,
            )),
{
    match stage {
        Stage::Discover | Stage::Collect => return Dispatch::Skip(owned("not a derivation stage")),
        _ => {},
    }
    if stage == Stage::Transcribe || stage == Stage::Embed {
        if let Some(m) = missing_model {
            return Dispatch::Skip(m);
        }
    }
    let mut cs: Vec<Call> = Vec::new();
    if stage == Stage::Embed {
        cs.push(Call::Embed { model: owned(embed_model), limit: args.limit });
        return Dispatch::Calls(cs);
    }
    let targets = targets_of(scope);
    let mut i: usize = 0;
    while i < targets.len()
        invariant
            stage == Stage::Extract || stage == Stage::Transcribe || stage == Stage::Index,
            targets@.len() == call_count(stage, scope@),
            forall|j: int| 0 <= j < targets@.len() ==> opt_view(#[trigger] targets@[j]) == scope_target(scope@, j),
            i <= targets@.len(),
            cs@.len() == i,
            forall|j: int| 0 <= j < i ==> call_is(
                #[trigger] cs@[j],
                stage,
                *args,
                scope@,
                j,
                transcribe_model@,
                embed_model@,
                lang@,
            ),
        decreases targets.len() - i,
    {
        let source = opt_owned(&targets[i]);
        let c = match stage {
            Stage::Extract => Call::Extract { source, limit: args.limit, refresh: args.refresh },
            Stage::Transcribe => Call::Transcribe {
                source,
                model: owned(transcribe_model),
                language: owned(lang),
                limit: args.limit,
                refresh: args.refresh,
            },
            _ => Call::Index { source, rebuild: args.refresh },
        };
        cs.push(c);
        i = i + 1;
    }
    Dispatch::Calls(cs)
}

// ── what each stage's numbers come to ──────────────────────────────────────

/// The tally leads with `new` and carries each named figure.
pub open spec fn carries(t: Tally, new: u64, figures: Seq<(Seq<char>, u64)>) -> bool {
    &&& t.new == new
    &&& forall|i: int| 0 <= i < figures.len() ==> #[trigger] t.counts.at(figures[i].0) == Some(figures[i].1)
}

pub open spec fn summary_of(n: u64, one: Seq<char>, many: Seq<char>, m: u64, what: Seq<char>) -> Seq<char> {
    grouped(n as nat) + " "@ + (if n == 1 { one } else { many }) + " · "@ + grouped(m as nat) + " "@ + what
}

fn summary(n: u64, one: &str, many: &str, m: u64, what: &str) -> (s: String)
    ensures
        s@ == summary_of(n, one@, many@, m, what@),
{
    let mut s = String::new();
    push_count(&mut s, n);
    s.append(" ");
    s.append(noun(n, one, many));
    s.append(" · ");
    push_count(&mut s, m);
    s.append(" ");
    s.append(what);
    s
}

/// What an extraction call comes to.
pub fn extract_tally(r: &ExtractReport) -> (t: Tally)
    ensures
        carries(
            t,
            r.extracted as u64,
            seq![
                ("extracted"@, r.extracted as u64),
                ("chars_of_text"@, r.chars_of_text as u64),
                ("unextractable"@, r.unextractable as u64),
                ("ocr_pages_pending"@, r.ocr_pages_pending as u64),
            ],
        ),
{
    proof {
        reveal_strlit("extracted");
        reveal_strlit("chars_of_text");
        reveal_strlit("unextractable");
        reveal_strlit("ocr_pages_pending");
    }
    let pairs = [
        ("extracted", r.extracted as u64),
        ("chars_of_text", r.chars_of_text as u64),
        ("unextractable", r.unextractable as u64),
        ("ocr_pages_pending", r.ocr_pages_pending as u64),
    ];
    let t = Tally::of(r.extracted as u64, &pairs);
    proof {
        assert(pairs@[0].0@ == "extracted"@);
        assert(pairs@[1].0@ == "chars_of_text"@);
        assert(pairs@[2].0@ == "unextractable"@);
        assert(pairs@[3].0@ == "ocr_pages_pending"@);
        assert("chars_of_text"@[0] != "unextractable"@[0]);
        assert(t.counts.at(pairs@[0].0@) == Some(pairs@[0].1));
        assert(t.counts.at(pairs@[1].0@) == Some(pairs@[1].1));
        assert(t.counts.at(pairs@[2].0@) == Some(pairs@[2].1));
        assert(t.counts.at(pairs@[3].0@) == Some(pairs@[3].1));
    }
    t
}

pub fn extract_summary(t: &Tally) -> (s: String)
    ensures
        s@ == summary_of(
            t.new,
            "document"@,
            "documents"@,
            match t.counts.at("chars_of_text"@) {
                Some(v) => v,
                None => match t.totals.at("chars_of_text"@) {
                    Some(v) => v,
                    None => 0,
                },
            },
            "chars"@,
        ),
{
    summary(t.new, "document", "documents", t.get("chars_of_text"), "chars")
}

/// A figure of a tally by name: its count, else its total, else zero.
pub open spec fn figure_of(t: Tally, key: Seq<char>) -> u64 {
    match t.counts.at(key) {
        Some(v) => v,
        None => match t.totals.at(key) {
            Some(v) => v,
            None => 0,
        },
    }
}

/// What a transcription call comes to.
pub fn transcribe_tally(transcribed: usize, failed: usize, transcribed_chars: usize) -> (t: Tally)
    ensures
        carries(
            t,
            transcribed as u64,
            seq![
                ("transcribed"@, transcribed as u64),
                ("failed"@, failed as u64),
                ("transcribed_chars"@, transcribed_chars as u64),
            ],
        ),
{
    proof {
        reveal_strlit("transcribed");
        reveal_strlit("failed");
        reveal_strlit("transcribed_chars");
    }
    let pairs = [
        ("transcribed", transcribed as u64),
        ("failed", failed as u64),
        ("transcribed_chars", transcribed_chars as u64),
    ];
    let t = Tally::of(transcribed as u64, &pairs);
    proof {
        assert(pairs@[0].0@ == "transcribed"@);
        assert(pairs@[1].0@ == "failed"@);
        assert(pairs@[2].0@ == "transcribed_chars"@);
        assert(t.counts.at(pairs@[0].0@) == Some(pairs@[0].1));
        assert(t.counts.at(pairs@[1].0@) == Some(pairs@[1].1));
        assert(t.counts.at(pairs@[2].0@) == Some(pairs@[2].1));
    }
    t
}

pub fn transcribe_summary(t: &Tally) -> (s: String)
    ensures
        s@ == summary_of(t.new, "recording"@, "recordings"@, figure_of(*t, "transcribed_chars"@), "chars"@),
{
    summary(t.new, "recording", "recordings", t.get("transcribed_chars"), "chars")
}

/// What an indexing call comes to. The size of the whole index is a total, not a count of
/// this call's work.
pub fn index_tally(r: &IndexReport) -> (t: Tally)
    ensures
        carries(
            t,
            r.documents_indexed as u64,
            seq![
                ("documents_indexed"@, r.documents_indexed as u64),
                ("chunks_written"@, r.chunks_written as u64),
                ("chunks_deduplicated"@, r.chunks_deduplicated as u64),
            ],
        ),
        t.totals.at("total_chunks"@) == Some(r.total_chunks as u64),
{
    proof {
        reveal_strlit("documents_indexed");
        reveal_strlit("chunks_written");
        reveal_strlit("chunks_deduplicated");
    }
    let pairs = [
        ("documents_indexed", r.documents_indexed as u64),
        ("chunks_written", r.chunks_written as u64),
        ("chunks_deduplicated", r.chunks_deduplicated as u64),
    ];
    let t = Tally::of(r.documents_indexed as u64, &pairs);
    proof {
        assert(pairs@[0].0@ == "documents_indexed"@);
        assert(pairs@[1].0@ == "chunks_written"@);
        assert(pairs@[2].0@ == "chunks_deduplicated"@);
        assert(t.counts.at(pairs@[0].0@) == Some(pairs@[0].1));
        assert(t.counts.at(pairs@[1].0@) == Some(pairs@[1].1));
        assert(t.counts.at(pairs@[2].0@) == Some(pairs@[2].1));
    }
    t.total("total_chunks", r.total_chunks as u64)
}

pub fn index_summary(t: &Tally) -> (s: String)
    ensures
        s@ == summary_of(t.new, "document"@, "documents"@, figure_of(*t, "chunks_written"@), "chunks"@),
{
    summary(t.new, "document", "documents", t.get("chunks_written"), "chunks")
}

/// What an embedding call comes to.
pub fn embed_tally(embedded: usize, already_embedded: usize, remaining: usize) -> (t: Tally)
    ensures
        carries(
            t,
            embedded as u64,
            seq![
                ("embedded"@, embedded as u64),
                ("already_embedded"@, already_embedded as u64),
                ("remaining"@, remaining as u64),
            ],
        ),
{
    proof {
        reveal_strlit("embedded");
        reveal_strlit("already_embedded");
        reveal_strlit("remaining");
    }
    let pairs = [
        ("embedded", embedded as u64),
        ("already_embedded", already_embedded as u64),
        ("remaining", remaining as u64),
    ];
    let t = Tally::of(embedded as u64, &pairs);
    proof {
        assert(pairs@[0].0@ == "embedded"@);
        assert(pairs@[1].0@ == "already_embedded"@);
        assert(pairs@[2].0@ == "remaining"@);
        assert(t.counts.at(pairs@[0].0@) == Some(pairs@[0].1));
        assert(t.counts.at(pairs@[1].0@) == Some(pairs@[1].1));
        assert(t.counts.at(pairs@[2].0@) == Some(pairs@[2].1));
    }
    t
}

/// Chunks per second in tenths, rounded half up: a rate is counts over the clock, and the
/// clock is the driver's. A clock that read zero counts as one millisecond.
pub open spec fn rate_tenths(n: nat, millis: nat) -> nat {
    let m = if millis == 0 { 1 } else { millis };
    (n * 20000 + m) / (2 * m)
}

pub fn embed_summary(t: &Tally, elapsed_millis: u64) -> (s: String)
    requires
        t.new <= 1_000_000_000_000_000,
    ensures
        s@ == grouped(t.new as nat) + " "@ + (if t.new == 1 { "chunk"@ } else { "chunks"@ }) + " · "@ + decimal(
            rate_tenths(t.new as nat, elapsed_millis as nat) / 10,
        ) + "."@ + decimal(rate_tenths(t.new as nat, elapsed_millis as nat) % 10) + "/sec"@,
{
    let m: u128 = if elapsed_millis == 0 { 1 } else { elapsed_millis as u128 };
    let n: u128 = t.new as u128;
    assert(n * 20000 + m <= 100_000_000_000_000_000_000_000) by (nonlinear_arith)
        requires
            n <= 1_000_000_000_000_000,
            m <= u64::MAX,
    ;
    let tenths_wide: u128 = (n * 20000 + m) / (2 * m);
    assert(tenths_wide <= n * 10000 + 1) by (nonlinear_arith)
        requires
            tenths_wide == (n * 20000 + m) / (2 * m),
            m >= 1,
    ;
    let tenths: u64 = tenths_wide as u64;
    let mut s = String::new();
    push_count(&mut s, t.new);
    s.append(" ");
    s.append(noun(t.new, "chunk", "chunks"));
    s.append(" · ");
    push_decimal(&mut s, tenths / 10);
    s.append(".");
    push_decimal(&mut s, tenths % 10);
    s.append("/sec");
    s
}

/// The line a derivation stage leads with: how many it did and the figure that sizes the
/// work; for embedding, the rate over the stage's clock. An acquisition stage has its own.
pub open spec fn derivation_line(stage: Stage, t: Tally, elapsed_millis: nat) -> Seq<char> {
    match stage {
        Stage::Extract => summary_of(t.new, "document"@, "documents"@, figure_of(t, "chars_of_text"@), "chars"@),
        Stage::Transcribe => summary_of(t.new, "recording"@, "recordings"@, figure_of(t, "transcribed_chars"@), "chars"@),
        Stage::Index => summary_of(t.new, "document"@, "documents"@, figure_of(t, "chunks_written"@), "chunks"@),
        _ => grouped(t.new as nat) + " "@ + (if t.new == 1 { "chunk"@ } else { "chunks"@ }) + " · "@ + decimal(
            rate_tenths(t.new as nat, elapsed_millis) / 10,
        ) + "."@ + decimal(rate_tenths(t.new as nat, elapsed_millis) % 10) + "/sec"@,
    }
}

/// The summary of a derivation stage, from its folded tally.
pub fn derivation_summary(stage: Stage, t: &Tally, elapsed_millis: u64) -> (s: String)
    requires
        stage == Stage::Extract || stage == Stage::Transcribe || stage == Stage::Index || stage == Stage::Embed,
        stage == Stage::Embed ==> t.new <= 1_000_000_000_000_000,
    ensures
        s@ == derivation_line(stage, *t, elapsed_millis as nat),
{
    match stage {
        Stage::Extract => extract_summary(t),
        Stage::Transcribe => transcribe_summary(t),
        Stage::Index => index_summary(t),
        _ => embed_summary(t, elapsed_millis),
    }
}

/// What a discovery call comes to: what it found, what was new, and the one subtraction
/// discovery can see, with the source's own figures over them.
pub fn discover_tally(found: usize, new: usize, vanished: usize, figures: &Counts) -> (t: Tally)
    ensures
        t.new == new as u64,
        forall|k: Seq<char>| #[trigger] figures.at(k) is Some ==> t.counts.at(k) == figures.at(k),
        figures.at("found"@) is None ==> t.counts.at("found"@) == Some(found as u64),
        figures.at("new"@) is None ==> t.counts.at("new"@) == Some(new as u64),
        figures.at("vanished"@) is None ==> t.counts.at("vanished"@) == Some(vanished as u64),
{
    proof {
        reveal_strlit("found");
        reveal_strlit("new");
        reveal_strlit("vanished");
    }
    let pairs = [("found", found as u64), ("new", new as u64), ("vanished", vanished as u64)];
    let t = Tally::of(new as u64, &pairs);
    proof {
        assert(pairs@[0].0@ == "found"@);
        assert(pairs@[1].0@ == "new"@);
        assert(pairs@[2].0@ == "vanished"@);
        assert(t.counts.at(pairs@[0].0@) == Some(pairs@[0].1));
        assert(t.counts.at(pairs@[1].0@) == Some(pairs@[1].1));
        assert(t.counts.at(pairs@[2].0@) == Some(pairs@[2].1));
    }
    t.and(figures)
}

pub open spec fn discover_summary_of(found: nat, new: nat) -> Seq<char> {
    grouped(found) + " "@ + (if found == 1 { "address"@ } else { "addresses"@ }) + " · "@ + grouped(new) + " new"@
}

pub fn discover_summary(found: usize, new: usize) -> (s: String)
    ensures
        s@ == discover_summary_of(found as nat, new as nat),
{
    let mut s = String::new();
    push_count(&mut s, found as u64);
    s.append(" ");
    s.append(noun(found as u64, "address", "addresses"));
    s.append(" · ");
    push_count(&mut s, new as u64);
    s.append(" new");
    s
}

/// What a collection call reported, in numbers.
#[derive(Debug)]
pub struct Collected {
    pub stored: usize,
    pub changed: usize,
    pub already_had: usize,
    pub failed: usize,
    /// Refusals, absences and faults: three figures, never one and never a sum. A blocked
    /// address counted as absence reports a live page as deleted.
    pub blocked: usize,
    pub gone: usize,
    pub errored: usize,
    pub remaining: usize,
    pub bytes: u64,
    /// What was gathered, by artifact.
    pub parts: Counts,
}

/// `c` with every key behind `prefix`.
fn prefixed(c: &Counts, prefix: &str) -> (out: Counts)
    ensures
        forall|k: Seq<char>| #[trigger] out.at(prefix@ + k) == c.at(k),
        forall|k: Seq<char>| !crate::text::starts(k, prefix@) ==> #[trigger] out.at(k) is None,
{
    let entries = c.entries();
    let mut out = Counts::new();
    proof {
        assert forall|k: Seq<char>| #[trigger] out.at(k) is None by {
            crate::counts::lemma_lookup_absent(out.pairs(), k);
        }
    }
    let mut i: usize = 0;
    while i < entries.len()
        invariant
            i <= entries@.len(),
            entries@ == c.pairs(),
            forall|k: Seq<char>| #[trigger] out.at(prefix@ + k) == crate::counts::lookup(entries@.take(i as int), k),
            forall|k: Seq<char>| !crate::text::starts(k, prefix@) ==> #[trigger] out.at(k) is None,
        decreases entries.len() - i,
    {
        let mut key = owned(prefix);
        key.append(entries[i].0.as_str());
        let ghost before = out;
        let ghost name = entries@[i as int].0@;
        out.set(key.as_str(), entries[i].1);
        proof {
            assert(entries@.take(i + 1).drop_last() =~= entries@.take(i as int));
            assert(entries@.take(i + 1).last() == entries@[i as int]);
            assert forall|k: Seq<char>| #[trigger] out.at(prefix@ + k) == crate::counts::lookup(entries@.take(i + 1), k) by {
                if k != name {
                    assert((prefix@ + k).subrange(prefix@.len() as int, (prefix@ + k).len() as int) =~= k);
                    assert((prefix@ + name).subrange(prefix@.len() as int, (prefix@ + name).len() as int) =~= name);
                    assert(prefix@ + k != prefix@ + name);
                }
            }
            assert forall|k: Seq<char>| !crate::text::starts(k, prefix@) implies #[trigger] out.at(k) is None by {
                assert((prefix@ + name).take(prefix@.len() as int) =~= prefix@);
                assert(k != prefix@ + name);
            }
        }
        i = i + 1;
    }
    assert(entries@.take(entries@.len() as int) =~= entries@);
    out
}

/// What a collection call comes to. The artifact counts ride along as `part_` figures.
pub fn collect_tally(c: &Collected) -> (t: Tally)
    ensures
        carries(
            t,
            c.stored as u64,
            seq![
                ("stored"@, c.stored as u64),
                ("changed"@, c.changed as u64),
                ("already_had"@, c.already_had as u64),
                ("failed"@, c.failed as u64),
                ("blocked"@, c.blocked as u64),
                ("gone"@, c.gone as u64),
                ("errored"@, c.errored as u64),
                ("remaining"@, c.remaining as u64),
                ("bytes"@, c.bytes),
            ],
        ),
        forall|k: Seq<char>| #[trigger] c.parts.at(k) is Some ==> t.counts.at("part_"@ + k) == c.parts.at(k),
{
    proof {
        reveal_strlit("stored");
        reveal_strlit("changed");
        reveal_strlit("already_had");
        reveal_strlit("failed");
        reveal_strlit("blocked");
        reveal_strlit("gone");
        reveal_strlit("errored");
        reveal_strlit("remaining");
        reveal_strlit("bytes");
        reveal_strlit("part_");
    }
    let pairs = [
        ("stored", c.stored as u64),
        ("changed", c.changed as u64),
        ("already_had", c.already_had as u64),
        ("failed", c.failed as u64),
        ("blocked", c.blocked as u64),
        ("gone", c.gone as u64),
        ("errored", c.errored as u64),
        ("remaining", c.remaining as u64),
        ("bytes", c.bytes),
    ];
    let t = Tally::of(c.stored as u64, &pairs);
    proof {
        assert("stored"@[0] != "failed"@[0]);
        assert("changed"@[0] != "blocked"@[0]);
        assert("changed"@[0] != "errored"@[0]);
        assert("blocked"@[0] != "errored"@[0]);
        assert(pairs@[0].0@ == "stored"@);
        assert(pairs@[1].0@ == "changed"@);
        assert(pairs@[2].0@ == "already_had"@);
        assert(pairs@[3].0@ == "failed"@);
        assert(pairs@[4].0@ == "blocked"@);
        assert(pairs@[5].0@ == "gone"@);
        assert(pairs@[6].0@ == "errored"@);
        assert(pairs@[7].0@ == "remaining"@);
        assert(pairs@[8].0@ == "bytes"@);
        assert(t.counts.at(pairs@[0].0@) == Some(pairs@[0].1));
        assert(t.counts.at(pairs@[1].0@) == Some(pairs@[1].1));
        assert(t.counts.at(pairs@[2].0@) == Some(pairs@[2].1));
        assert(t.counts.at(pairs@[3].0@) == Some(pairs@[3].1));
        assert(t.counts.at(pairs@[4].0@) == Some(pairs@[4].1));
        assert(t.counts.at(pairs@[5].0@) == Some(pairs@[5].1));
        assert(t.counts.at(pairs@[6].0@) == Some(pairs@[6].1));
        assert(t.counts.at(pairs@[7].0@) == Some(pairs@[7].1));
        assert(t.counts.at(pairs@[8].0@) == Some(pairs@[8].1));
    }
    let parts = prefixed(&c.parts, "part_");
    proof {
        assert(!crate::text::starts("stored"@, "part_"@)) by {
            assert("stored"@.take(5)[0] != "part_"@[0]);
        }
        assert(!crate::text::starts("changed"@, "part_"@)) by {
            assert("changed"@.take(5)[0] != "part_"@[0]);
        }
        assert(!crate::text::starts("already_had"@, "part_"@)) by {
            assert("already_had"@.take(5)[0] != "part_"@[0]);
        }
        assert(!crate::text::starts("failed"@, "part_"@)) by {
            assert("failed"@.take(5)[0] != "part_"@[0]);
        }
        assert(!crate::text::starts("blocked"@, "part_"@)) by {
            assert("blocked"@.take(5)[0] != "part_"@[0]);
        }
        assert(!crate::text::starts("gone"@, "part_"@)) by {
            assert("gone"@.len() < "part_"@.len());
        }
        assert(!crate::text::starts("errored"@, "part_"@)) by {
            assert("errored"@.take(5)[0] != "part_"@[0]);
        }
        assert(!crate::text::starts("remaining"@, "part_"@)) by {
            assert("remaining"@.take(5)[0] != "part_"@[0]);
        }
        assert(!crate::text::starts("bytes"@, "part_"@)) by {
            assert("bytes"@.take(5)[0] != "part_"@[0]);
        }
        assert(parts.at("stored"@) is None);
        assert(parts.at("changed"@) is None);
        assert(parts.at("already_had"@) is None);
        assert(parts.at("failed"@) is None);
        assert(parts.at("blocked"@) is None);
        assert(parts.at("gone"@) is None);
        assert(parts.at("errored"@) is None);
        assert(parts.at("remaining"@) is None);
        assert(parts.at("bytes"@) is None);
    }
    t.and(&parts)
}

pub open spec fn collect_summary_of(c: Collected) -> Seq<char> {
    grouped(c.stored as nat) + " acquired · "@ + grouped(c.changed as nat) + " changed · "@ + human_bytes_of(
        c.bytes as nat,
    ) + (if c.blocked > 0 {
        " · "@ + grouped(c.blocked as nat) + " blocked"@
    } else {
        Seq::empty()
    })
}

/// A wall of refusals with nothing stored is indistinguishable from an empty source in the
/// counters alone, so the refusals are named in the line.
pub fn collect_summary(c: &Collected) -> (s: String)
    ensures
        s@ == collect_summary_of(*c),
{
    let mut s = String::new();
    push_count(&mut s, c.stored as u64);
    s.append(" acquired · ");
    push_count(&mut s, c.changed as u64);
    s.append(" changed · ");
    let b = human_bytes(c.bytes);
    s.append(b.as_str());
    if c.blocked > 0 {
        s.append(" · ");
        push_count(&mut s, c.blocked as u64);
        s.append(" blocked");
    }
    s
}

/// How many of `ss` failed.
pub open spec fn failures_of(ss: Seq<StageRun>) -> nat
    decreases ss.len(),
{
    if ss.len() == 0 {
        0
    } else {
        failures_of(ss.drop_last()) + if ss.last().failure() { 1nat } else { 0nat }
    }
}

/// How many acquisition stages failed, across every source.
pub open spec fn source_failures(rs: Seq<SourceRun>) -> nat
    decreases rs.len(),
{
    if rs.len() == 0 {
        0
    } else {
        source_failures(rs.drop_last()) + failures_of(rs.last().stages@)
    }
}

fn count_failed(ss: &Vec<StageRun>) -> (n: u64)
    ensures
        n == capped(failures_of(ss@)),
{
    let mut n: u64 = 0;
    let mut i: usize = 0;
    while i < ss.len()
        invariant
            i <= ss@.len(),
            n == capped(failures_of(ss@.take(i as int))),
        decreases ss.len() - i,
    {
        assert(ss@.take(i + 1).drop_last() =~= ss@.take(i as int));
        if ss[i].is_failure() {
            n = n.saturating_add(1);
        }
        i = i + 1;
    }
    assert(ss@.take(ss@.len() as int) =~= ss@);
    n
}

impl RunReport {
    /// Every stage that failed, acquisition and derivation alike: the count a scheduled
    /// run is judged by.
    pub fn count_failures(&self) -> (n: u64)
        ensures
            n == capped(source_failures(self.sources@) + failures_of(self.derive@)),
    {
        let mut n: u64 = 0;
        let mut i: usize = 0;
        while i < self.sources.len()
            invariant
                i <= self.sources@.len(),
                n == capped(source_failures(self.sources@.take(i as int))),
            decreases self.sources.len() - i,
        {
            assert(self.sources@.take(i + 1).drop_last() =~= self.sources@.take(i as int));
            let k = count_failed(&self.sources[i].stages);
            n = n.saturating_add(k);
            i = i + 1;
        }
        assert(self.sources@.take(self.sources@.len() as int) =~= self.sources@);
        let d = count_failed(&self.derive);
        n.saturating_add(d)
    }
}

} // verus!
