//! `schedule` — writing the cadences `serve` fires.
//!
//! Editing the config file and computing fire times are the host's. What is decided here
//! is what a `set` needs before anything is written, what block it writes, and how the
//! answer reads. The op never prompts: one that did would block an MCP call until the
//! client timed out.
use vstd::prelude::*;

use crate::domain::pad;
use crate::page::{at, marked_at, note_text, title_text, Mark, Page};
use crate::text::{join_with, owned};

verus! {

pub struct ScheduleArgs {
    pub action: ScheduleAction,
}

pub enum ScheduleAction {
    /// Write a schedule into the config.
    Write(SetArgs),
    /// Remove a schedule. Collected data and history are left alone.
    Rm(RmArgs),
}

pub struct SetArgs {
    /// Schedule id, e.g. `tampa-daily`.
    pub id: Option<String>,
    /// A 5-field cron expression, or a shorthand like `@daily`.
    pub cron: Option<String>,
    /// IANA zone name. Defaults to the host's.
    pub tz: Option<String>,
    /// Sources to run. Empty for every enabled source.
    pub sources: Vec<String>,
    /// Stages to skip.
    pub skip: Vec<String>,
    /// Stop collection after this many addresses, per source.
    pub limit: Option<usize>,
    /// Re-fetch and re-derive everything at every fire.
    pub refresh: bool,
    /// Seconds of jitter.
    pub jitter_secs: Option<u64>,
    /// Write the block but leave it disarmed.
    pub disabled: bool,
    /// Do not fire on startup when overdue.
    pub no_catch_up: bool,
    /// Replace an existing schedule with this id.
    pub replace: bool,
    /// Config file to write.
    pub config: Option<String>,
}

impl Default for SetArgs {
    fn default() -> (a: Self)
        ensures
            a.id is None,
            a.cron is None,
            a.tz is None,
            a.sources@.len() == 0,
            a.skip@.len() == 0,
            a.limit is None,
            !a.refresh,
            a.jitter_secs is None,
            !a.disabled,
            !a.no_catch_up,
            !a.replace,
            a.config is None,
    {
        SetArgs {
            id: None,
            cron: None,
            tz: None,
            sources: Vec::new(),
            skip: Vec::new(),
            limit: None,
            refresh: false,
            jitter_secs: None,
            disabled: false,
            no_catch_up: false,
            replace: false,
            config: None,
        }
    }
}

pub struct RmArgs {
    /// Schedule id to remove.
    pub id: String,
    /// Config file to edit.
    pub config: Option<String>,
}

impl Default for RmArgs {
    fn default() -> (a: Self)
        ensures
            a.id@.len() == 0,
            a.config is None,
    {
        RmArgs { id: String::new(), config: None }
    }
}

/// The `[[schedule]]` block a `set` writes. A setting left at its default is left out of
/// the block, so the file says only what the operator said.
pub struct ScheduleBlock {
    pub id: String,
    pub cron: String,
    pub tz: Option<String>,
    pub jitter_secs: Option<u64>,
    /// `Some(false)` only when asked to be written disarmed.
    pub enabled: Option<bool>,
    /// `Some(false)` only when asked not to catch up.
    pub catch_up: Option<bool>,
    pub sources: Vec<String>,
    pub skip: Vec<String>,
    pub limit: Option<usize>,
    pub refresh: bool,
}

/// Why a `set` cannot write anything yet.
pub open spec fn missing_of(id: Option<String>, cron: Option<String>) -> Option<Seq<char>> {
    if id is None {
        Some("a schedule needs an id; give one, or run this on a terminal to be asked"@)
    } else if cron is None {
        Some("a schedule needs a cadence: --cron \"0 3 * * *\", or @daily"@)
    } else {
        None
    }
}

/// The block these arguments write, or what they lack: an id first, then a cadence.
pub fn block_of(args: SetArgs) -> (r: Result<ScheduleBlock, &'static str>)
    ensures
        match r {
            Ok(b) => missing_of(args.id, args.cron) is None && Some(b.id) == args.id && Some(b.cron) == args.cron
                && b.tz == args.tz && b.jitter_secs == args.jitter_secs && b.enabled == (if args.disabled {
                Some(false)
            } else {
                None
            }) && b.catch_up == (if args.no_catch_up {
                Some(false)
            } else {
                None
            }) && b.sources == args.sources && b.skip == args.skip && b.limit == args.limit && b.refresh
                == args.refresh,
            Err(m) => missing_of(args.id, args.cron) == Some(m@),
        },
{
    let SetArgs { id, cron, tz, sources, skip, limit, refresh, jitter_secs, disabled, no_catch_up, .. } = args;
    let id = match id {
        Some(id) => id,
        None => return Err("a schedule needs an id; give one, or run this on a terminal to be asked"),
    };
    let cron = match cron {
        Some(c) => c,
        None => return Err("a schedule needs a cadence: --cron \"0 3 * * *\", or @daily"),
    };
    Ok(
        ScheduleBlock {
            id,
            cron,
            tz,
            jitter_secs,
            enabled: if disabled { Some(false) } else { None },
            catch_up: if no_catch_up { Some(false) } else { None },
            sources,
            skip,
            limit,
            refresh,
        },
    )
}

/// Whether to tell the operator their edit has not taken effect yet. There is no cheap and
/// correct way to ask whether a server is running, so the answer is always yes: a line
/// that is sometimes needless costs a glance, and the other direction costs a fortnight.
pub fn server_may_be_running() -> (b: bool)
    ensures
        b,
{
    true
}

pub enum ScheduleReport {
    Written {
        schedule: String,
        cron: String,
        tz: String,
        /// The file that was written.
        config: String,
        /// The next few fire times, in the schedule's own zone.
        next: Vec<String>,
        /// Whether a running server has yet to pick this up.
        needs_reload: bool,
    },
    Rm { schedule: String, config: String, needs_reload: bool },
}

pub open spec fn reload_note(depth: nat, needs_reload: bool) -> Seq<Seq<char>> {
    if needs_reload {
        seq![at(depth, note_text("a running server has not picked this up; send SIGHUP or restart"@))]
    } else {
        Seq::empty()
    }
}

pub open spec fn texts(v: Seq<String>) -> Seq<Seq<char>> {
    v.map_values(|s: String| s@)
}

pub open spec fn report_lines(depth: nat, r: ScheduleReport) -> Seq<Seq<char>> {
    match r {
        ScheduleReport::Written { schedule, cron, tz, config, next, needs_reload } => seq![
            at(depth, title_text(schedule@, cron@ + " "@ + tz@)),
        ] + (if next@.len() > 0 {
            seq![at(depth + 1, pad("next"@, 6) + join_with(texts(next@), " · "@))]
        } else {
            Seq::empty()
        }) + seq![marked_at(depth + 1, Mark::Good, "wrote "@ + config@)] + reload_note(depth, needs_reload),
        ScheduleReport::Rm { schedule, config, needs_reload } => seq![
            marked_at(depth, Mark::Good, "removed "@ + schedule@ + " from "@ + config@),
            at(depth + 1, "collected data and run history are untouched"@),
        ] + reload_note(depth, needs_reload),
    }
}

/// `items` with `sep` between each two.
pub fn joined(items: &Vec<String>, sep: &str) -> (s: String)
    ensures
        s@ == join_with(texts(items@), sep@),
{
    let mut s = String::new();
    let mut i: usize = 0;
    while i < items.len()
        invariant
            i <= items@.len(),
            s@ == join_with(texts(items@).take(i as int), sep@),
        decreases items.len() - i,
    {
        assert(texts(items@).take(i + 1).drop_last() =~= texts(items@).take(i as int));
        assert(texts(items@)[i as int] == items@[i as int]@);
        if i > 0 {
            s.append(sep);
        }
        s.append(items[i].as_str());
        i = i + 1;
    }
    assert(texts(items@).take(items@.len() as int) =~= texts(items@));
    s
}

impl ScheduleReport {
    pub fn render(&self, p: &mut Page)
        requires
            old(p).depth < usize::MAX,
        ensures
            final(p).text() == old(p).text() + report_lines(old(p).depth as nat, *self),
            final(p).depth == old(p).depth,
    {
        match self {
            ScheduleReport::Written { schedule, cron, tz, config, next, needs_reload } => {
                let mut aside = owned(cron.as_str());
                aside.append(" ");
                aside.append(tz.as_str());
                p.title(schedule.as_str(), aside.as_str());
                p.enter();
                if next.len() > 0 {
                    let mut line = crate::domain::pad_to("next", 6);
                    let times = joined(next, " · ");
                    line.append(times.as_str());
                    p.line(line.as_str());
                }
                let mut wrote = owned("wrote ");
                wrote.append(config.as_str());
                p.marked(Mark::Good, wrote.as_str());
                p.leave();
                if *needs_reload {
                    p.note("a running server has not picked this up; send SIGHUP or restart");
                }
            },
            ScheduleReport::Rm { schedule, config, needs_reload } => {
                let mut head = owned("removed ");
                head.append(schedule.as_str());
                head.append(" from ");
                head.append(config.as_str());
                p.marked(Mark::Good, head.as_str());
                p.enter();
                p.line("collected data and run history are untouched");
                p.leave();
                if *needs_reload {
                    p.note("a running server has not picked this up; send SIGHUP or restart");
                }
            },
        }
        assert(p.text() =~= old(p).text() + report_lines(old(p).depth as nat, *self));
    }
}

} // verus!
