//! `schedules` and `history` — what the watchman is set to do, and what he did.
//!
//! Reading the config, the journal and the run lock, and computing fire times, are the
//! host's. What is decided here is how a failure streak is counted, what makes a schedule
//! broken, which attempts a history shows, and how both answers read — in particular that
//! the subtractions of a run are never summed.
use vstd::prelude::*;

use crate::domain::pad;
use crate::ops::run::{report_lines as run_lines, RunReport};
use crate::page::{at, marked_at, note_text, title_text, Mark, Page};
use crate::text::{decimal, flat_all, grouped, join_with, one_line, owned, push_count, push_decimal, starts};

verus! {

/// How one attempt at a run ended.
#[derive(Clone, Copy, Debug, PartialEq, Eq, Structural)]
pub enum Outcome {
    /// It ran through. (`ok` in the journal.)
    Clean,
    /// Some of it failed.
    Partial,
    /// Not attempted: the lane was busy.
    Skipped,
    /// Stopped by a shutdown.
    Interrupted,
    Failed,
}

impl Outcome {
    pub open spec fn word(&self) -> Seq<char> {
        match self {
            Outcome::Clean => "ok"@,
            Outcome::Partial => "partial"@,
            Outcome::Skipped => "skipped"@,
            Outcome::Interrupted => "interrupted"@,
            Outcome::Failed => "failed"@,
        }
    }

    pub fn as_str(&self) -> (s: &'static str)
        ensures
            s@ == self.word(),
    {
        match self {
            Outcome::Clean => "ok",
            Outcome::Partial => "partial",
            Outcome::Skipped => "skipped",
            Outcome::Interrupted => "interrupted",
            Outcome::Failed => "failed",
        }
    }

    /// Whether it counts against the schedule: it failed, in whole or in part.
    pub open spec fn failure(&self) -> bool {
        *self == Outcome::Failed || *self == Outcome::Partial
    }

    pub fn is_failure(&self) -> (b: bool)
        ensures
            b == self.failure(),
    {
        match self {
            Outcome::Failed | Outcome::Partial => true,
            _ => false,
        }
    }

    /// A skip or an interruption is neither a success nor a failure.
    pub open spec fn decisive(&self) -> bool {
        *self != Outcome::Skipped && *self != Outcome::Interrupted
    }
}

pub open spec fn outcome_mark_of(o: Outcome) -> Mark {
    match o {
        Outcome::Clean => Mark::Good,
        Outcome::Failed => Mark::Bad,
        _ => Mark::Warn,
    }
}

pub fn outcome_mark(o: Outcome) -> (m: Mark)
    ensures
        m == outcome_mark_of(o),
{
    match o {
        Outcome::Clean => Mark::Good,
        Outcome::Failed => Mark::Bad,
        _ => Mark::Warn,
    }
}

/// Consecutive failing attempts, newest first. Skips and interruptions neither count nor
/// break a streak: a nightly restart would otherwise hide a source failing every night.
pub open spec fn streak(os: Seq<Outcome>) -> nat
    decreases os.len(),
{
    if os.len() == 0 {
        0
    } else if !os[0].decisive() {
        streak(os.drop_first())
    } else if os[0].failure() {
        1 + streak(os.drop_first())
    } else {
        0
    }
}

proof fn lemma_streak_bounded(os: Seq<Outcome>)
    ensures
        streak(os) <= os.len(),
    decreases os.len(),
{
    if os.len() > 0 {
        lemma_streak_bounded(os.drop_first());
    }
}

pub fn consecutive_failures(newest_first: &Vec<Outcome>) -> (n: u64)
    ensures
        n == streak(newest_first@),
{
    let ghost os = newest_first@;
    let mut n: u64 = 0;
    let mut i: usize = newest_first.len();
    // Counted from the oldest end: the streak of a suffix grows by one for each failure
    // put in front of it, and resets at a success.
    assert(os.skip(i as int) =~= Seq::<Outcome>::empty());
    while i > 0
        invariant
            i <= os.len(),
            os.len() <= usize::MAX,
            os == newest_first@,
            n == streak(os.skip(i as int)),
            n <= os.len() - i,
        decreases i,
    {
        let o = newest_first[i - 1];
        assert(os.skip(i - 1).drop_first() =~= os.skip(i as int));
        assert(os.skip(i - 1)[0] == o);
        if o.is_failure() {
            n = n + 1;
        } else if o != Outcome::Skipped && o != Outcome::Interrupted {
            n = 0;
        }
        i = i - 1;
    }
    assert(os.skip(0) =~= os);
    n
}

/// What a run added.
#[derive(Clone, Copy, Debug, PartialEq, Eq, Structural)]
pub struct Added {
    pub documents: u64,
    pub derived: u64,
    pub chunks: u64,
}

/// What a run found missing, each kind its own term: a blocked address folded into
/// absence would report a live page as deleted.
#[derive(Clone, Copy, Debug, PartialEq, Eq, Structural)]
pub struct Subtracted {
    pub vanished: u64,
    pub gone: u64,
    pub blocked: u64,
    pub errored: u64,
}

pub open spec fn term(n: u64, before: Seq<char>, after: Seq<char>) -> Seq<Seq<char>> {
    if n > 0 { seq![before + grouped(n as nat) + after] } else { Seq::empty() }
}

pub open spec fn arithmetic_terms(a: Added, s: Subtracted) -> Seq<Seq<char>> {
    term(a.documents, "+"@, " collected"@) + term(a.derived, "+"@, " derived"@) + term(a.chunks, "+"@, " embedded"@)
        + term(s.vanished, Seq::empty(), " vanished"@) + term(s.gone, Seq::empty(), " gone"@) + term(
        s.blocked,
        Seq::empty(),
        " blocked"@,
    ) + term(s.errored, Seq::empty(), " errored"@)
}

/// The additions, then the subtractions — never a sum of them; and when nothing moved,
/// that said in words, since an empty line reads as a run that did not happen.
pub open spec fn arithmetic_of(a: Added, s: Subtracted) -> Seq<char> {
    if arithmetic_terms(a, s).len() == 0 {
        "nothing changed"@
    } else {
        join_with(arithmetic_terms(a, s), " · "@)
    }
}

pub open spec fn texts(v: Seq<String>) -> Seq<Seq<char>> {
    v.map_values(|s: String| s@)
}

fn push_term(parts: &mut Vec<String>, n: u64, before: &str, after: &str)
    ensures
        texts(final(parts)@) == texts(old(parts)@) + term(n, before@, after@),
{
    if n > 0 {
        let mut t = owned(before);
        push_count(&mut t, n);
        t.append(after);
        parts.push(t);
        assert(texts(parts@) =~= texts(old(parts)@) + term(n, before@, after@));
    } else {
        assert(texts(parts@) =~= texts(old(parts)@) + term(n, before@, after@));
    }
}

pub fn arithmetic_line(added: &Added, subtracted: &Subtracted) -> (s: String)
    ensures
        s@ == arithmetic_of(*added, *subtracted),
{
    let mut parts: Vec<String> = Vec::new();
    push_term(&mut parts, added.documents, "+", " collected");
    push_term(&mut parts, added.derived, "+", " derived");
    push_term(&mut parts, added.chunks, "+", " embedded");
    push_term(&mut parts, subtracted.vanished, "", " vanished");
    push_term(&mut parts, subtracted.gone, "", " gone");
    push_term(&mut parts, subtracted.blocked, "", " blocked");
    push_term(&mut parts, subtracted.errored, "", " errored");
    proof {
        reveal_strlit("");
    }
    assert(texts(parts@) =~= arithmetic_terms(*added, *subtracted));
    if parts.len() == 0 {
        return owned("nothing changed");
    }
    crate::ops::schedule::joined(&parts, " · ")
}

/// What started a run.
#[derive(Clone, Copy, Debug, PartialEq, Eq, Structural)]
pub enum Trigger {
    Schedule,
    Manual,
}

impl Trigger {
    pub open spec fn word(&self) -> Seq<char> {
        match self {
            Trigger::Schedule => "schedule"@,
            Trigger::Manual => "manual"@,
        }
    }

    pub fn as_str(&self) -> (s: &'static str)
        ensures
            s@ == self.word(),
    {
        match self {
            Trigger::Schedule => "schedule",
            Trigger::Manual => "manual",
        }
    }
}

/// Whoever holds the run lane.
pub struct Holder {
    pub pid: u32,
    pub started_at: String,
    pub trigger: Trigger,
    pub schedule: Option<String>,
    pub args: String,
}

pub open spec fn describe_of(h: Holder) -> Seq<char> {
    "a run is in flight: "@ + (match h.schedule {
        Some(s) => s@,
        None => h.trigger.word(),
    }) + ", since "@ + h.started_at@ + ", pid "@ + decimal(h.pid as nat)
}

impl Holder {
    pub fn describe(&self) -> (s: String)
        ensures
            s@ == describe_of(*self),
    {
        let mut s = owned("a run is in flight: ");
        match &self.schedule {
            Some(id) => s.append(id.as_str()),
            None => s.append(self.trigger.as_str()),
        }
        s.append(", since ");
        s.append(self.started_at.as_str());
        s.append(", pid ");
        push_decimal(&mut s, self.pid as u64);
        s
    }
}

// ── schedules ───────────────────────────────────────────────────────────────

pub struct ScheduleStatus {
    pub id: String,
    /// The expression as the operator wrote it.
    pub cron: String,
    /// The zone it fires in, resolved.
    pub tz: String,
    pub enabled: bool,
    /// Sources it runs, or empty for every enabled source.
    pub sources: Vec<String>,
    pub skip: Vec<String>,
    /// Re-fetches and re-derives the whole corpus at every fire.
    pub refresh: bool,
    /// When it next fires, with jitter applied.
    pub next_fire: Option<String>,
    pub last_fire: Option<String>,
    pub last_outcome: Option<Outcome>,
    /// Consecutive failing attempts.
    pub consecutive_failures: u64,
    /// Set when a run for this schedule is in flight right now.
    pub running: bool,
    /// Why this schedule cannot run, when validation refused it.
    pub problem: Option<String>,
}

pub struct SchedulesReport {
    /// The config file these came from, if any.
    pub config: Option<String>,
    pub schedules: Vec<ScheduleStatus>,
    /// The run in flight, whichever schedule it belongs to.
    pub running: Option<Holder>,
}

pub struct SchedulesArgs {
    /// Validate every schedule and fail if any is broken, rather than reporting.
    pub check: bool,
    /// Config file.
    pub config: Option<String>,
}

impl Default for SchedulesArgs {
    fn default() -> (a: Self)
        ensures
            !a.check,
            a.config is None,
    {
        SchedulesArgs { check: false, config: None }
    }
}

/// The first of a schedule's sources that names no `[[source]]` block.
pub open spec fn first_unknown(sources: Seq<Seq<char>>, known: Seq<Seq<char>>) -> Option<Seq<char>>
    decreases sources.len(),
{
    if sources.len() == 0 {
        None
    } else if !known.contains(sources[0]) {
        Some(sources[0])
    } else {
        first_unknown(sources.drop_first(), known)
    }
}

/// Why a schedule cannot run, reported rather than raised: the cadence first, then a
/// cadence that never occurs, then its arguments, then a source the config lacks.
pub open spec fn problem_of(
    cadence_error: Option<Seq<char>>,
    never_occurs: bool,
    cron: Seq<char>,
    args_error: Option<Seq<char>>,
    sources: Seq<Seq<char>>,
    known: Seq<Seq<char>>,
) -> Option<Seq<char>> {
    match cadence_error {
        Some(e) => Some(e),
        None => if never_occurs {
            Some("`"@ + cron + "` parses but never occurs"@)
        } else {
            match args_error {
                Some(e) => Some(e),
                None => match first_unknown(sources, known) {
                    Some(id) => Some("source `"@ + id + "` has no [[source]] block"@),
                    None => None,
                },
            }
        },
    }
}

fn holds(v: &Vec<String>, name: &str) -> (b: bool)
    ensures
        b == texts(v@).contains(name@),
{
    let mut i: usize = 0;
    while i < v.len()
        invariant
            i <= v@.len(),
            forall|j: int| 0 <= j < i ==> v@[j]@ != name@,
        decreases v.len() - i,
    {
        if crate::text::str_eq(v[i].as_str(), name) {
            assert(texts(v@)[i as int] == name@);
            return true;
        }
        i = i + 1;
    }
    proof {
        if texts(v@).contains(name@) {
            let j = choose|j: int| 0 <= j < texts(v@).len() && texts(v@)[j] == name@;
            assert(v@[j]@ == name@);
        }
    }
    false
}

pub fn schedule_problem(
    cadence_error: Option<String>,
    never_occurs: bool,
    cron: &str,
    args_error: Option<String>,
    sources: &Vec<String>,
    known: &Vec<String>,
) -> (p: Option<String>)
    ensures
        match p {
            Some(s) => problem_of(
                match cadence_error {
                    Some(e) => Some(e@),
                    None => None,
                },
                never_occurs,
                cron@,
                match args_error {
                    Some(e) => Some(e@),
                    None => None,
                },
                texts(sources@),
                texts(known@),
            ) == Some(s@),
            None => problem_of(
                match cadence_error {
                    Some(e) => Some(e@),
                    None => None,
                },
                never_occurs,
                cron@,
                match args_error {
                    Some(e) => Some(e@),
                    None => None,
                },
                texts(sources@),
                texts(known@),
            ) is None,
        },
{
    if cadence_error.is_some() {
        return cadence_error;
    }
    if never_occurs {
        let mut s = owned("`");
        s.append(cron);
        s.append("` parses but never occurs");
        return Some(s);
    }
    if args_error.is_some() {
        return args_error;
    }
    let ghost sv = texts(sources@);
    let mut i: usize = 0;
    assert(sv.skip(0) =~= sv);
    while i < sources.len()
        invariant
            i <= sources@.len(),
            sv == texts(sources@),
            cadence_error is None,
            args_error is None,
            !never_occurs,
            first_unknown(sv, texts(known@)) == first_unknown(sv.skip(i as int), texts(known@)),
        decreases sources.len() - i,
    {
        assert(sv.skip(i as int)[0] == sources@[i as int]@);
        if !holds(known, sources[i].as_str()) {
            assert(first_unknown(sv.skip(i as int), texts(known@)) == Some(sv[i as int]));
            let mut s = owned("source `");
            s.append(sources[i].as_str());
            s.append("` has no [[source]] block");
            assert(sv[i as int] == sources@[i as int]@);
            assert(first_unknown(sv, texts(known@)) == Some(sources@[i as int]@));
            assert(s@ =~= "source `"@ + sources@[i as int]@ + "` has no [[source]] block"@);
            assert(cadence_error is None && args_error is None && !never_occurs);
            assert(problem_of(None, false, cron@, None, texts(sources@), texts(known@)) == Some(s@));
            return Some(s);
        }
        assert(sv.skip(i as int).drop_first() =~= sv.skip(i + 1));
        i = i + 1;
    }
    assert(sv.skip(sources@.len() as int) =~= Seq::<Seq<char>>::empty());
    None
}

// ── history ─────────────────────────────────────────────────────────────────

/// One attempt at a run, as the journal keeps it.
pub struct Attempt {
    pub run_id: String,
    pub schedule: Option<String>,
    pub trigger: Trigger,
    pub started_at: String,
    pub finished_at: String,
    pub outcome: Outcome,
    pub detail: Option<String>,
    pub added: Added,
    pub subtracted: Subtracted,
    pub report: Option<RunReport>,
}

pub struct HistoryReport {
    pub attempts: Vec<Attempt>,
    /// Attempts the filters matched but `--limit` cut.
    pub truncated: Option<usize>,
    /// Set when `--run` matched more than one attempt by prefix.
    pub ambiguous: Option<Vec<String>>,
}

pub struct HistoryArgs {
    /// One run, by id or any unambiguous prefix of one.
    pub run: Option<String>,
    /// Limit to one schedule.
    pub schedule: Option<String>,
    /// Limit to attempts that touched one source.
    pub source: Option<String>,
    /// Only attempts that failed.
    pub failed: bool,
    /// Only attempts started at or after this RFC 3339 instant.
    pub since: Option<String>,
    /// Most recent attempts to show.
    pub limit: usize,
}

/// Most recent attempts to show, unless asked.
pub fn default_limit() -> (n: usize)
    ensures
        n == 20,
{
    20
}

/// Whether an attempt touched a source: its report names it.
pub open spec fn touched(a: Attempt, source: Seq<char>) -> bool {
    a.report matches Some(r) && exists|i: int| 0 <= i < r.sources@.len() && #[trigger] r.sources@[i].source@ == source
}

/// Whether an attempt passes the filters.
pub open spec fn passes(a: Attempt, schedule: Option<Seq<char>>, source: Option<Seq<char>>, failed: bool) -> bool {
    &&& (schedule matches Some(id) ==> (a.schedule matches Some(s) && s@ == id))
    &&& (source matches Some(id) ==> touched(a, id))
    &&& (failed ==> a.outcome.failure())
}

/// The indices of the attempts that pass, in order.
pub open spec fn passing(
    as_: Seq<Attempt>,
    schedule: Option<Seq<char>>,
    source: Option<Seq<char>>,
    failed: bool,
) -> Seq<int>
    decreases as_.len(),
{
    if as_.len() == 0 {
        Seq::empty()
    } else if passes(as_.last(), schedule, source, failed) {
        passing(as_.drop_last(), schedule, source, failed).push(as_.len() - 1)
    } else {
        passing(as_.drop_last(), schedule, source, failed)
    }
}

/// `--source` keeps a run exactly when its report names the source, wherever in the list:
/// a run over several sources touched each of them. A run with no report touched none.
/// And a history lists, in order, exactly the attempts that pass.
pub proof fn law_a_run_touched_every_source_it_reports(a: Attempt, src: Seq<char>, attempts: Seq<Attempt>)
    ensures
        forall|i: int|
            #![trigger a.report->0.sources@[i]]
            a.report is Some && 0 <= i < a.report->0.sources@.len() && a.report->0.sources@[i].source@ == src
                ==> passes(a, None, Some(src), false),
        passes(a, None, Some(src), false) ==> a.report is Some && exists|i: int|
            0 <= i < a.report->0.sources@.len() && #[trigger] a.report->0.sources@[i].source@ == src,
        a.report is None ==> !passes(a, None, Some(src), false),
        forall|k: int|
            0 <= k < attempts.len() ==> (passing(attempts, None, Some(src), false).contains(k) <==> passes(
                #[trigger] attempts[k],
                None,
                Some(src),
                false,
            )),
{
    lemma_passing_members(attempts, None, Some(src), false);
}

/// The history filters each narrow the list by one fact, and together they keep what all
/// of them keep: `--schedule` the attempts that schedule fired, `--failed` those that failed
/// or partly failed, `--source` those whose report names the source; with none given,
/// every attempt stays.
pub proof fn law_history_filters_combine(a: Attempt, sch: Seq<char>, src: Seq<char>, failed: bool)
    ensures
        passes(a, None, None, false),
        passes(a, Some(sch), None, false) == (a.schedule is Some && a.schedule->0@ == sch),
        passes(a, None, None, true) == (a.outcome == Outcome::Failed || a.outcome == Outcome::Partial),
        passes(a, Some(sch), Some(src), failed) == (passes(a, Some(sch), None, false) && passes(a, None, Some(src), false)
            && passes(a, None, None, failed)),
{
}

/// A history never shows more than its limit; what it shows and the number it says it
/// cut add up to every attempt that passed; nothing is cut while the limit has room; a
/// cut, when there is one, is never of nothing; and every attempt it shows passed the filters.
pub proof fn law_the_limit_cuts_and_says_so(
    r: HistoryReport,
    attempts: Seq<Attempt>,
    sch: Option<Seq<char>>,
    src: Option<Seq<char>>,
    failed: bool,
    limit: usize,
)
    requires
        attempts.len() <= usize::MAX,
        shows(r, attempts, sch, src, failed, limit),
    ensures
        r.attempts@.len() <= limit,
        r.attempts@.len() + (match r.truncated {
            Some(n) => n as int,
            None => 0,
        }) == passing(attempts, sch, src, failed).len(),
        passing(attempts, sch, src, failed).len() <= limit ==> r.truncated is None,
        r.truncated matches Some(n) ==> n > 0,
        forall|j: int| 0 <= j < r.attempts@.len() ==> passes(#[trigger] r.attempts@[j], sch, src, failed),
{
    lemma_passing_members(attempts, sch, src, failed);
    let ks = passing(attempts, sch, src, failed);
    let shown = if ks.len() < limit { ks.len() } else { limit as nat };
    assert(r.attempts@.len() == shown);
    if ks.len() > shown {
        assert(r.truncated == Some((ks.len() - shown) as usize));
    } else {
        assert(r.truncated is None);
    }
    assert forall|j: int| 0 <= j < r.attempts@.len() implies passes(#[trigger] r.attempts@[j], sch, src, failed) by {
        assert(r.attempts@[j] == attempts[ks[j]]);
        assert(0 <= ks[j] < attempts.len());
        assert(ks.contains(ks[j]));
        assert(passes(attempts[ks[j]], sch, src, failed));
    }
}

proof fn lemma_passing_members(as_: Seq<Attempt>, schedule: Option<Seq<char>>, source: Option<Seq<char>>, failed: bool)
    ensures
        forall|k: int| 0 <= k < as_.len() ==> (passing(as_, schedule, source, failed).contains(k) <==> passes(
            #[trigger] as_[k],
            schedule,
            source,
            failed,
        )),
        forall|j: int| 0 <= j < passing(as_, schedule, source, failed).len() ==> 0 <= #[trigger] passing(
            as_,
            schedule,
            source,
            failed,
        )[j] < as_.len(),
        passing(as_, schedule, source, failed).len() <= as_.len(),
    decreases as_.len(),
{
    if as_.len() > 0 {
        let rest = as_.drop_last();
        lemma_passing_members(rest, schedule, source, failed);
        let pr = passing(rest, schedule, source, failed);
        let p = passing(as_, schedule, source, failed);
        assert forall|j: int| 0 <= j < p.len() implies 0 <= #[trigger] p[j] < as_.len() by {
            if j < pr.len() {
                assert(p[j] == pr[j]);
            }
        }
        assert forall|k: int| 0 <= k < as_.len() implies (p.contains(k) <==> passes(#[trigger] as_[k], schedule, source, failed)) by {
            if k < as_.len() - 1 {
                assert(rest[k] == as_[k]);
                if pr.contains(k) {
                    let w = choose|w: int| 0 <= w < pr.len() && pr[w] == k;
                    assert(p[w] == pr[w]);
                }
                if p.contains(k) {
                    let w = choose|w: int| 0 <= w < p.len() && p[w] == k;
                    if w < pr.len() {
                        assert(p[w] == pr[w]);
                    } else {
                        assert(p[w] == as_.len() - 1);
                    }
                }
            } else {
                if passes(as_.last(), schedule, source, failed) {
                    assert(p[p.len() - 1] == k);
                } else {
                    if p.contains(k) {
                        let w = choose|w: int| 0 <= w < p.len() && p[w] == k;
                        assert(p[w] == pr[w]);
                    }
                }
            }
        }
    }
}

pub open spec fn opt_chars(o: Option<&str>) -> Option<Seq<char>> {
    match o {
        Some(s) => Some(s@),
        None => None,
    }
}

fn touches(a: &Attempt, source: &str) -> (b: bool)
    ensures
        b == touched(*a, source@),
{
    if a.report.is_none() {
        return false;
    }
    let r = a.report.as_ref().unwrap();
    assert(a.report == Some(*r));
    let mut i: usize = 0;
    while i < r.sources.len()
        invariant
            i <= r.sources@.len(),
            a.report == Some(*r),
            forall|j: int| 0 <= j < i ==> #[trigger] r.sources@[j].source@ != source@,
        decreases r.sources.len() - i,
    {
        if crate::text::str_eq(r.sources[i].source.as_str(), source) {
            assert(r.sources@[i as int].source@ == source@);
            return true;
        }
        i = i + 1;
    }
    false
}

fn passes_exec(a: &Attempt, schedule: Option<&str>, source: Option<&str>, failed: bool) -> (b: bool)
    ensures
        b == passes(*a, opt_chars(schedule), opt_chars(source), failed),
{
    let by_schedule = match schedule {
        None => true,
        Some(id) => match &a.schedule {
            Some(s) => crate::text::str_eq(s.as_str(), id),
            None => false,
        },
    };
    let by_source = match source {
        None => true,
        Some(id) => touches(a, id),
    };
    by_schedule && by_source && (!failed || a.outcome.is_failure())
}

/// What a history shows of `attempts`: those that pass the filters, in order, cut at
/// `limit`, with the number cut named, and no ambiguity.
pub open spec fn shows(
    r: HistoryReport,
    attempts: Seq<Attempt>,
    schedule: Option<Seq<char>>,
    source: Option<Seq<char>>,
    failed: bool,
    limit: usize,
) -> bool {
    let ks = passing(attempts, schedule, source, failed);
    let shown = if ks.len() < limit { ks.len() } else { limit as nat };
    &&& r.attempts@.len() == shown
    &&& forall|j: int| 0 <= j < shown ==> #[trigger] r.attempts@[j] == attempts[ks[j]]
    &&& r.truncated == (if ks.len() > shown { Some((ks.len() - shown) as usize) } else { None })
    &&& r.ambiguous is None
}

/// The attempts a history shows, newest first as the journal gives them: those that pass
/// every filter, cut at the limit, with the cut counted out loud.
pub fn filter_history(
    attempts: Vec<Attempt>,
    schedule: Option<&str>,
    source: Option<&str>,
    failed: bool,
    limit: usize,
) -> (r: HistoryReport)
    ensures
        shows(r, attempts@, opt_chars(schedule), opt_chars(source), failed, limit),
{
    let ghost original = attempts@;
    let n = attempts.len();
    let mut source_vec = attempts;
    let mut rest: Vec<Attempt> = Vec::new();
    while source_vec.len() > 0
        invariant
            n == original.len(),
            source_vec@.len() + rest@.len() == n,
            forall|j: int| 0 <= j < source_vec@.len() ==> #[trigger] source_vec@[j] == original[j],
            forall|j: int| 0 <= j < rest@.len() ==> #[trigger] rest@[j] == original[n - 1 - j],
        decreases source_vec.len(),
    {
        let ghost sb = source_vec@;
        let a = source_vec.pop().unwrap();
        assert(source_vec@ =~= sb.drop_last());
        rest.push(a);
    }
    let ghost ss = opt_chars(schedule);
    let ghost so = opt_chars(source);
    let mut kept: Vec<Attempt> = Vec::new();
    let mut i: usize = 0;
    while i < n
        invariant
            n == original.len(),
            ss == opt_chars(schedule),
            so == opt_chars(source),
            i <= n,
            rest@.len() == n - i,
            forall|j: int| 0 <= j < rest@.len() ==> #[trigger] rest@[j] == original[n - 1 - j],
            kept@.len() == passing(original.take(i as int), ss, so, failed).len(),
            forall|j: int| 0 <= j < kept@.len() ==> #[trigger] kept@[j] == original[passing(original.take(i as int), ss, so, failed)[j]],
        decreases n - i,
    {
        assert(original.take(i + 1).drop_last() =~= original.take(i as int));
        assert(original.take(i + 1).last() == original[i as int]);
        let ghost rb = rest@;
        assert(rb[n - 1 - i] == original[i as int]);
        let a = rest.pop().unwrap();
        assert(rest@ =~= rb.drop_last());
        if passes_exec(&a, schedule, source, failed) {
            kept.push(a);
        }
        i = i + 1;
    }
    assert(original.take(n as int) =~= original);
    let total = kept.len();
    let shown = if total < limit { total } else { limit };
    kept.truncate(shown);
    HistoryReport { attempts: kept, truncated: if total > shown { Some(total - shown) } else { None }, ambiguous: None }
}

/// Whether a run id begins with a prefix the operator typed back.
pub open spec fn matches_prefix(a: Attempt, prefix: Seq<char>) -> bool {
    starts(a.run_id@, prefix)
}

impl Attempt {
    /// Whether this is the run a typed-back id or prefix names.
    pub fn matches(&self, prefix: &str) -> (b: bool)
        ensures
            b == matches_prefix(*self, prefix@),
    {
        let id = crate::text::chars_of(self.run_id.as_str());
        let pre = crate::text::chars_of(prefix);
        crate::text::has_prefix(id.as_slice(), pre.as_slice())
    }
}

/// What `jiff` makes of a text as a `Timestamp` (RFC 3339, with an offset): the instant
/// in nanoseconds since the Unix epoch, or the parser's own message.
pub uninterp spec fn timestamp_of(s: Seq<char>) -> Result<i128, Seq<char>>;

/// `s.parse::<jiff::Timestamp>()`, the instant given as `Timestamp::as_nanosecond`, the
/// error as its `Display` text. The contract claims only that the answer is what
/// `timestamp_of` names for this text, so a function of the text alone; which texts parse,
/// and what the message says, is not stated. (jiff orders two timestamps as these numbers
/// order, so comparing the numbers compares the instants.)
#[verifier::external_body]
fn parse_timestamp(s: &str) -> (r: Result<i128, String>)
    ensures
        match r {
            Ok(n) => timestamp_of(s@) == Ok::<i128, Seq<char>>(n),
            Err(m) => timestamp_of(s@) == Err::<i128, Seq<char>>(m@),
        },
{
    match s.parse::<jiff::Timestamp>() {
        Ok(t) => Ok(t.as_nanosecond()),
        Err(e) => Err(format!("{}", e)),
    }
}

/// Whether an attempt started at or after an instant. One whose start does not read as a
/// timestamp has no start to compare, and is left out.
pub open spec fn started_since(a: Attempt, since: i128) -> bool {
    timestamp_of(a.started_at@) matches Ok(t) && t >= since
}

/// The attempts that started at or after `since`, in order.
pub open spec fn since_kept(attempts: Seq<Attempt>, since: i128) -> Seq<Attempt>
    decreases attempts.len(),
{
    if attempts.len() == 0 {
        Seq::empty()
    } else if started_since(attempts.last(), since) {
        since_kept(attempts.drop_last(), since).push(attempts.last())
    } else {
        since_kept(attempts.drop_last(), since)
    }
}

/// The attempts whose run id begins with `prefix`, in order.
pub open spec fn run_matched(attempts: Seq<Attempt>, prefix: Seq<char>) -> Seq<Attempt>
    decreases attempts.len(),
{
    if attempts.len() == 0 {
        Seq::empty()
    } else if matches_prefix(attempts.last(), prefix) {
        run_matched(attempts.drop_last(), prefix).push(attempts.last())
    } else {
        run_matched(attempts.drop_last(), prefix)
    }
}

pub open spec fn opt_string(o: Option<String>) -> Option<Seq<char>> {
    match o {
        Some(s) => Some(s@),
        None => None,
    }
}

/// The journal's attempts, in the same order, handed back one by one from the front.
fn reversed(attempts: Vec<Attempt>) -> (r: Vec<Attempt>)
    ensures
        r@.len() == attempts@.len(),
        forall|j: int| 0 <= j < r@.len() ==> #[trigger] r@[j] == attempts@[attempts@.len() - 1 - j],
{
    let ghost original = attempts@;
    let n = attempts.len();
    let mut from = attempts;
    let mut rest: Vec<Attempt> = Vec::new();
    while from.len() > 0
        invariant
            n == original.len(),
            from@.len() + rest@.len() == n,
            forall|j: int| 0 <= j < from@.len() ==> #[trigger] from@[j] == original[j],
            forall|j: int| 0 <= j < rest@.len() ==> #[trigger] rest@[j] == original[n - 1 - j],
        decreases from.len(),
    {
        let ghost fb = from@;
        let a = from.pop().unwrap();
        assert(from@ =~= fb.drop_last());
        rest.push(a);
    }
    rest
}

/// The attempts that started at or after `since`, keeping their order.
fn keep_since(attempts: Vec<Attempt>, since: i128) -> (r: Vec<Attempt>)
    ensures
        r@ == since_kept(attempts@, since),
{
    let ghost original = attempts@;
    let n = attempts.len();
    let mut rest = reversed(attempts);
    let mut kept: Vec<Attempt> = Vec::new();
    let mut i: usize = 0;
    while i < n
        invariant
            n == original.len(),
            i <= n,
            rest@.len() == n - i,
            forall|j: int| 0 <= j < rest@.len() ==> #[trigger] rest@[j] == original[n - 1 - j],
            kept@ == since_kept(original.take(i as int), since),
        decreases n - i,
    {
        assert(original.take(i + 1).drop_last() =~= original.take(i as int));
        assert(original.take(i + 1).last() == original[i as int]);
        let ghost rb = rest@;
        assert(rb[n - 1 - i] == original[i as int]);
        let a = rest.pop().unwrap();
        assert(rest@ =~= rb.drop_last());
        let started = parse_timestamp(a.started_at.as_str());
        let keep = match started {
            Ok(t) => t >= since,
            Err(_) => false,
        };
        if keep {
            kept.push(a);
        }
        i = i + 1;
    }
    assert(original.take(n as int) =~= original);
    kept
}

/// The attempts whose run id begins with `prefix`, keeping their order.
fn keep_matching(attempts: Vec<Attempt>, prefix: &str) -> (r: Vec<Attempt>)
    ensures
        r@ == run_matched(attempts@, prefix@),
{
    let ghost original = attempts@;
    let n = attempts.len();
    let mut rest = reversed(attempts);
    let mut kept: Vec<Attempt> = Vec::new();
    let mut i: usize = 0;
    while i < n
        invariant
            n == original.len(),
            i <= n,
            rest@.len() == n - i,
            forall|j: int| 0 <= j < rest@.len() ==> #[trigger] rest@[j] == original[n - 1 - j],
            kept@ == run_matched(original.take(i as int), prefix@),
        decreases n - i,
    {
        assert(original.take(i + 1).drop_last() =~= original.take(i as int));
        assert(original.take(i + 1).last() == original[i as int]);
        let ghost rb = rest@;
        assert(rb[n - 1 - i] == original[i as int]);
        let a = rest.pop().unwrap();
        assert(rest@ =~= rb.drop_last());
        if a.matches(prefix) {
            kept.push(a);
        }
        i = i + 1;
    }
    assert(original.take(n as int) =~= original);
    kept
}

fn as_opt_str(o: &Option<String>) -> (r: Option<&str>)
    ensures
        opt_chars(r) == opt_string(*o),
{
    match o {
        Some(s) => Some(s.as_str()),
        None => None,
    }
}

/// The answer to `--run p`, given the attempts `m` whose id begins with `p`: the ids that
/// matched and no attempts when there are several, an error naming `p` when there are
/// none, and the one attempt otherwise.
pub open spec fn one_run(r: Result<HistoryReport, String>, m: Seq<Attempt>, p: Seq<char>) -> bool {
    match r {
        Ok(rep) => {
            &&& m.len() >= 1
            &&& rep.truncated is None
            &&& if m.len() > 1 {
                &&& rep.attempts@.len() == 0
                &&& rep.ambiguous matches Some(ids) && ids@.len() == m.len()
                    && forall|j: int| 0 <= j < m.len() ==> #[trigger] ids@[j]@ == m[j].run_id@
            } else {
                rep.attempts@ == m && rep.ambiguous is None
            }
        },
        Err(e) => m.len() == 0 && e@ == "no run matching `"@ + p + "`"@,
    }
}

/// The answer without `--run`: what the filters show of the attempts, those before `since`
/// left out first; an error quoting `since` and the parser's message when it does not read
/// as a timestamp.
pub open spec fn filtered(
    r: Result<HistoryReport, String>,
    attempts: Seq<Attempt>,
    since: Option<String>,
    schedule: Option<Seq<char>>,
    source: Option<Seq<char>>,
    failed: bool,
    limit: usize,
) -> bool {
    match since {
        None => r matches Ok(rep) && shows(rep, attempts, schedule, source, failed, limit),
        Some(s) => match timestamp_of(s@) {
            Err(d) => r matches Err(e) && e@ == "`"@ + s@ + "` is not an RFC 3339 timestamp: "@ + d,
            Ok(t) => r matches Ok(rep) && shows(rep, since_kept(attempts, t), schedule, source, failed, limit),
        },
    }
}

/// The history a request asks for, from the journal's attempts, newest first.
///
/// A run id short-circuits every other filter, since it asks for one record: more than one
/// attempt whose id it begins gives the ids that matched and no attempts; none is an error;
/// one is that attempt. Otherwise the filters apply and the list is cut at the limit; a
/// `since` that does not read as an RFC 3339 timestamp is an error, and one that does keeps
/// the attempts that started at or after it.
pub fn history_of(attempts: Vec<Attempt>, args: &HistoryArgs) -> (r: Result<HistoryReport, String>)
    ensures
        match args.run {
            Some(p) => one_run(r, run_matched(attempts@, p@), p@),
            None => filtered(r, attempts@, args.since, opt_string(args.schedule), opt_string(args.source), args.failed, args.limit),
        },
{
    if let Some(prefix) = &args.run {
        let matched = keep_matching(attempts, prefix.as_str());
        if matched.len() > 1 {
            let mut ids: Vec<String> = Vec::new();
            let mut i: usize = 0;
            while i < matched.len()
                invariant
                    i <= matched@.len(),
                    ids@.len() == i,
                    forall|j: int| 0 <= j < i ==> #[trigger] ids@[j]@ == matched@[j].run_id@,
                decreases matched.len() - i,
            {
                ids.push(owned(matched[i].run_id.as_str()));
                i = i + 1;
            }
            return Ok(HistoryReport { attempts: Vec::new(), truncated: None, ambiguous: Some(ids) });
        }
        if matched.len() == 0 {
            let mut e = owned("no run matching `");
            e.append(prefix.as_str());
            e.append("`");
            return Err(e);
        }
        return Ok(HistoryReport { attempts: matched, truncated: None, ambiguous: None });
    }
    let schedule = as_opt_str(&args.schedule);
    let source = as_opt_str(&args.source);
    let pool = match &args.since {
        None => attempts,
        Some(s) => match parse_timestamp(s.as_str()) {
            Err(d) => {
                let mut e = owned("`");
                e.append(s.as_str());
                e.append("` is not an RFC 3339 timestamp: ");
                e.append(d.as_str());
                return Err(e);
            },
            Ok(t) => keep_since(attempts, t),
        },
    };
    Ok(filter_history(pool, schedule, source, args.failed, args.limit))
}

// ── how they read ───────────────────────────────────────────────────────────

pub open spec fn target_of(s: ScheduleStatus) -> Seq<char> {
    if s.sources@.len() == 0 { "every source"@ } else { join_with(texts(s.sources@), ", "@) }
}

pub open spec fn cadence_of(s: ScheduleStatus) -> Seq<char> {
    s.cron@ + " "@ + s.tz@ + (if s.enabled { Seq::empty() } else { "  (disabled)"@ })
}

pub open spec fn costs_of(s: ScheduleStatus) -> Seq<Seq<char>> {
    (if s.refresh { seq!["refresh: re-fetches and re-derives everything, every fire"@] } else { Seq::empty() }) + (if s.skip@.len()
        > 0 {
        seq!["skips "@ + join_with(texts(s.skip@), ", "@)]
    } else {
        Seq::empty()
    })
}

pub open spec fn last_of(s: ScheduleStatus) -> Seq<char> {
    pad("last"@, 6) + match (s.last_fire, s.last_outcome) {
        (Some(l), Some(o)) => l@ + " "@ + o.word() + (if s.consecutive_failures > 1 {
            " · "@ + decimal(s.consecutive_failures as nat) + " in a row"@
        } else {
            Seq::empty()
        }),
        _ => "never fired"@,
    }
}

pub open spec fn status_lines(depth: nat, s: ScheduleStatus) -> Seq<Seq<char>> {
    let d = depth + 1;
    seq![at(depth, title_text(s.id@, target_of(s))), at(d, cadence_of(s))] + (if costs_of(s).len() > 0 {
        seq![at(d, join_with(costs_of(s), " · "@))]
    } else {
        Seq::empty()
    }) + match s.problem {
        Some(p) => seq![marked_at(d, Mark::Bad, p@), at(d, note_text("serve will refuse to start until this is fixed"@))],
        None => (if s.running {
            seq![marked_at(d, Mark::Warn, "running now"@)]
        } else {
            match s.next_fire {
                Some(n) => seq![at(d, pad("next"@, 6) + n@)],
                None => if s.enabled {
                    seq![at(d, pad("next"@, 6) + "never"@)]
                } else {
                    Seq::empty()
                },
            }
        }) + seq![at(d, last_of(s))],
    }
}

pub open spec fn statuses_lines(depth: nat, ss: Seq<ScheduleStatus>) -> Seq<Seq<char>>
    decreases ss.len(),
{
    if ss.len() == 0 {
        Seq::empty()
    } else {
        statuses_lines(depth, ss.drop_last()) + (if ss.len() > 1 {
            seq![Seq::<char>::empty()]
        } else {
            Seq::empty()
        }) + status_lines(depth, ss.last())
    }
}

/// The lane first, because "why has nothing fired" is usually answered there.
pub open spec fn schedules_lines(depth: nat, r: SchedulesReport) -> Seq<Seq<char>> {
    if r.schedules@.len() == 0 {
        seq![at(depth, "No schedules configured."@), at(depth, note_text("centinel schedule set"@))]
    } else {
        (match r.running {
            Some(h) => seq![marked_at(depth, Mark::Warn, describe_of(h)), Seq::<char>::empty()],
            None => Seq::empty(),
        }) + statuses_lines(depth, r.schedules@)
    }
}

pub open spec fn who_of(a: Attempt) -> Seq<char> {
    match a.schedule {
        Some(s) => s@,
        None => a.trigger.word(),
    }
}

pub open spec fn attempt_aside(a: Attempt) -> Seq<char> {
    join_with(
        seq![arithmetic_of(a.added, a.subtracted)] + (match a.detail {
            Some(d) => seq![flat_all(d@)],
            None => Seq::empty(),
        }) + seq![a.run_id@],
        " · "@,
    )
}

pub open spec fn attempt_lines(depth: nat, a: Attempt) -> Seq<Seq<char>> {
    seq![
        marked_at(depth, outcome_mark_of(a.outcome), pad(a.started_at@, 12) + " "@ + pad(a.outcome.word(), 11) + " "@ + who_of(a)),
        at(depth + 1, attempt_aside(a)),
    ]
}

pub open spec fn attempts_lines(depth: nat, as_: Seq<Attempt>) -> Seq<Seq<char>>
    decreases as_.len(),
{
    if as_.len() == 0 {
        Seq::empty()
    } else {
        attempts_lines(depth, as_.drop_last()) + attempt_lines(depth, as_.last())
    }
}

/// One attempt asked for by id gets its whole report; a list gets the lines, and says
/// when it was cut.
pub open spec fn history_lines(depth: nat, r: HistoryReport) -> Seq<Seq<char>> {
    match r.ambiguous {
        Some(ids) => seq![at(depth, "That prefix matches several runs:"@)] + texts(ids@).map_values(
            |id: Seq<char>| at(depth + 1, id),
        ),
        None => if r.attempts@.len() == 0 {
            seq![at(depth, "No runs recorded."@)]
        } else if r.attempts@.len() == 1 && r.truncated is None {
            attempt_lines(depth, r.attempts@[0]) + match r.attempts@[0].report {
                Some(rep) => seq![Seq::<char>::empty()] + run_lines(depth + 1, rep),
                None => Seq::empty(),
            }
        } else {
            attempts_lines(depth, r.attempts@) + match r.truncated {
                Some(m) => seq![at(depth, "… and "@ + grouped(m as nat) + " earlier, raise --limit to see them"@)],
                None => Seq::empty(),
            }
        },
    }
}

impl ScheduleStatus {
    fn render_next(&self, p: &mut Page)
        ensures
            final(p).depth == old(p).depth,
            final(p).text() == old(p).text() + (if self.running {
                seq![marked_at(old(p).depth as nat, Mark::Warn, "running now"@)]
            } else {
                match self.next_fire {
                    Some(n) => seq![at(old(p).depth as nat, pad("next"@, 6) + n@)],
                    None => if self.enabled {
                        seq![at(old(p).depth as nat, pad("next"@, 6) + "never"@)]
                    } else {
                        Seq::empty()
                    },
                }
            }),
    {
        if self.running {
            p.marked(Mark::Warn, "running now");
        } else {
            match &self.next_fire {
                Some(n) => {
                    let mut l = crate::domain::pad_to("next", 6);
                    l.append(n.as_str());
                    p.line(l.as_str());
                },
                None => {
                    if self.enabled {
                        let mut l = crate::domain::pad_to("next", 6);
                        l.append("never");
                        p.line(l.as_str());
                    }
                },
            }
        }
        assert(p.text() =~= old(p).text() + (if self.running {
            seq![marked_at(old(p).depth as nat, Mark::Warn, "running now"@)]
        } else {
            match self.next_fire {
                Some(n) => seq![at(old(p).depth as nat, pad("next"@, 6) + n@)],
                None => if self.enabled {
                    seq![at(old(p).depth as nat, pad("next"@, 6) + "never"@)]
                } else {
                    Seq::empty()
                },
            }
        }));
    }

    fn last_text(&self) -> (s: String)
        ensures
            s@ == last_of(*self),
    {
        let mut s = crate::domain::pad_to("last", 6);
        match (&self.last_fire, self.last_outcome) {
            (Some(l), Some(o)) => {
                s.append(l.as_str());
                s.append(" ");
                s.append(o.as_str());
                if self.consecutive_failures > 1 {
                    s.append(" · ");
                    push_decimal(&mut s, self.consecutive_failures);
                    s.append(" in a row");
                }
            },
            _ => s.append("never fired"),
        }
        assert(s@ =~= last_of(*self));
        s
    }

    fn costs(&self) -> (v: Vec<String>)
        ensures
            texts(v@) == costs_of(*self),
    {
        let mut v: Vec<String> = Vec::new();
        if self.refresh {
            v.push(owned("refresh: re-fetches and re-derives everything, every fire"));
        }
        if self.skip.len() > 0 {
            let mut s = owned("skips ");
            let list = crate::ops::schedule::joined(&self.skip, ", ");
            s.append(list.as_str());
            v.push(s);
        }
        assert(texts(v@) =~= costs_of(*self));
        v
    }

    pub fn render(&self, p: &mut Page)
        requires
            old(p).depth < usize::MAX,
        ensures
            final(p).text() == old(p).text() + status_lines(old(p).depth as nat, *self),
            final(p).depth == old(p).depth,
    {
        let ghost d = old(p).depth as nat;
        let target = if self.sources.len() == 0 {
            owned("every source")
        } else {
            crate::ops::schedule::joined(&self.sources, ", ")
        };
        p.title(self.id.as_str(), target.as_str());
        p.enter();
        let mut cadence = owned(self.cron.as_str());
        cadence.append(" ");
        cadence.append(self.tz.as_str());
        if !self.enabled {
            cadence.append("  (disabled)");
        }
        assert(cadence@ =~= cadence_of(*self));
        p.line(cadence.as_str());
        let costs = self.costs();
        if costs.len() > 0 {
            let line = crate::ops::schedule::joined(&costs, " · ");
            p.line(line.as_str());
        }
        let ghost mid = p.text();
        match &self.problem {
            Some(problem) => {
                p.marked(Mark::Bad, problem.as_str());
                p.note("serve will refuse to start until this is fixed");
            },
            None => {
                self.render_next(p);
                let last = self.last_text();
                p.line(last.as_str());
            },
        }
        p.leave();
        assert(p.text() =~= old(p).text() + status_lines(d, *self));
    }
}

impl SchedulesReport {
    pub fn render(&self, p: &mut Page)
        requires
            old(p).depth < usize::MAX,
        ensures
            final(p).text() == old(p).text() + schedules_lines(old(p).depth as nat, *self),
            final(p).depth == old(p).depth,
    {
        let ghost d = old(p).depth as nat;
        if self.schedules.len() == 0 {
            p.line("No schedules configured.");
            p.note("centinel schedule set");
            assert(p.text() =~= old(p).text() + schedules_lines(d, *self));
            return;
        }
        match &self.running {
            Some(h) => {
                let text = h.describe();
                p.marked(Mark::Warn, text.as_str());
                p.blank();
            },
            None => {},
        }
        let ghost top = p.text();
        let mut i: usize = 0;
        while i < self.schedules.len()
            invariant
                i <= self.schedules@.len(),
                p.depth == d,
                d < usize::MAX,
                p.text() == top + statuses_lines(d, self.schedules@.take(i as int)),
            decreases self.schedules.len() - i,
        {
            assert(self.schedules@.take(i + 1).drop_last() =~= self.schedules@.take(i as int));
            if i > 0 {
                p.blank();
            }
            self.schedules[i].render(p);
            i = i + 1;
            assert(p.text() =~= top + statuses_lines(d, self.schedules@.take(i as int)));
        }
        assert(self.schedules@.take(self.schedules@.len() as int) =~= self.schedules@);
        assert(p.text() =~= old(p).text() + schedules_lines(d, *self));
    }
}

impl Attempt {
    pub fn render(&self, p: &mut Page)
        requires
            old(p).depth < usize::MAX,
        ensures
            final(p).text() == old(p).text() + attempt_lines(old(p).depth as nat, *self),
            final(p).depth == old(p).depth,
    {
        let mut head = crate::domain::pad_to(self.started_at.as_str(), 12);
        head.append(" ");
        let outcome = crate::domain::pad_to(self.outcome.as_str(), 11);
        head.append(outcome.as_str());
        head.append(" ");
        match &self.schedule {
            Some(s) => head.append(s.as_str()),
            None => head.append(self.trigger.as_str()),
        }
        assert(head@ =~= pad(self.started_at@, 12) + " "@ + pad(self.outcome.word(), 11) + " "@ + who_of(*self));
        p.marked(outcome_mark(self.outcome), head.as_str());
        let mut parts: Vec<String> = Vec::new();
        parts.push(arithmetic_line(&self.added, &self.subtracted));
        match &self.detail {
            Some(d) => parts.push(one_line(d.as_str())),
            None => {},
        }
        parts.push(owned(self.run_id.as_str()));
        assert(texts(parts@) =~= seq![arithmetic_of(self.added, self.subtracted)] + (match self.detail {
            Some(d) => seq![flat_all(d@)],
            None => Seq::<Seq<char>>::empty(),
        }) + seq![self.run_id@]);
        let aside = crate::ops::schedule::joined(&parts, " · ");
        p.enter();
        p.line(aside.as_str());
        p.leave();
        assert(p.text() =~= old(p).text() + attempt_lines(old(p).depth as nat, *self));
    }
}

impl HistoryReport {
    pub fn render(&self, p: &mut Page)
        requires
            old(p).depth + 2 < usize::MAX,
        ensures
            final(p).text() == old(p).text() + history_lines(old(p).depth as nat, *self),
            final(p).depth == old(p).depth,
    {
        let ghost d = old(p).depth as nat;
        match &self.ambiguous {
            Some(ids) => {
                p.line("That prefix matches several runs:");
                p.enter();
                let ghost top = p.text();
                let mut i: usize = 0;
                while i < ids.len()
                    invariant
                        i <= ids@.len(),
                        p.depth == d + 1,
                        p.text() == top + texts(ids@).take(i as int).map_values(|id: Seq<char>| at(d + 1, id)),
                    decreases ids.len() - i,
                {
                    p.line(ids[i].as_str());
                    i = i + 1;
                    assert(texts(ids@).take(i as int).map_values(|id: Seq<char>| at(d + 1, id)) =~= texts(ids@).take(
                        i - 1,
                    ).map_values(|id: Seq<char>| at(d + 1, id)).push(at(d + 1, ids@[i - 1]@)));
                }
                assert(texts(ids@).take(ids@.len() as int) =~= texts(ids@));
                p.leave();
                assert(p.text() =~= old(p).text() + history_lines(d, *self));
                return;
            },
            None => {},
        }
        if self.attempts.len() == 0 {
            p.line("No runs recorded.");
            assert(p.text() =~= old(p).text() + history_lines(d, *self));
            return;
        }
        if self.attempts.len() == 1 && self.truncated.is_none() {
            let attempt = &self.attempts[0];
            attempt.render(p);
            match &attempt.report {
                Some(report) => {
                    p.blank();
                    p.enter();
                    report.render(p);
                    p.leave();
                },
                None => {},
            }
            assert(p.text() =~= old(p).text() + history_lines(d, *self));
            return;
        }
        let mut i: usize = 0;
        while i < self.attempts.len()
            invariant
                i <= self.attempts@.len(),
                p.depth == d,
                d < usize::MAX,
                p.text() == old(p).text() + attempts_lines(d, self.attempts@.take(i as int)),
            decreases self.attempts.len() - i,
        {
            assert(self.attempts@.take(i + 1).drop_last() =~= self.attempts@.take(i as int));
            self.attempts[i].render(p);
            i = i + 1;
            assert(p.text() =~= old(p).text() + attempts_lines(d, self.attempts@.take(i as int)));
        }
        assert(self.attempts@.take(self.attempts@.len() as int) =~= self.attempts@);
        match self.truncated {
            Some(more) => {
                let mut text = owned("… and ");
                push_count(&mut text, more as u64);
                text.append(" earlier, raise --limit to see them");
                p.line(text.as_str());
            },
            None => {},
        }
        assert(p.text() =~= old(p).text() + history_lines(d, *self));
    }
}

} // verus!
