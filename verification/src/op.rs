//! What every op shares: how it reports an item, what it reports progress as, who may
//! cause it to run, and how a cancellation is told from a fault.
//!
//! The registry itself — one definition becoming a CLI command, an MCP tool and an HTTP
//! route — and the channels progress travels over are the host's.
use vstd::prelude::*;

verus! {

/// Everything an op is handed besides its own arguments: the store it works on, named by
/// its root directory. Deliberately small — an op that needs more takes it as an argument,
/// so the dependency shows up in its schema instead of hiding in ambient state.
#[derive(Debug)]
pub struct Ctx {
    pub store: String,
}

impl Ctx {
    pub fn new(store: String) -> (c: Self)
        ensures
            c.store == store,
    {
        Ctx { store }
    }
}

/// How to read [`ProgressEvent::done`] and `total`.
#[derive(Clone, Copy, Debug, PartialEq, Eq)]
pub enum Unit {
    /// Bare items: URLs fetched, documents extracted.
    Count,
    Bytes,
}

impl Unit {
    /// So the default stays off the wire and old consumers see the old shape.
    pub fn is_count(&self) -> (b: bool)
        ensures
            b == (*self == Unit::Count),
    {
        match self {
            Unit::Count => true,
            Unit::Bytes => false,
        }
    }
}

impl Default for Unit {
    fn default() -> (u: Self)
        ensures
            u == Unit::Count,
    {
        Unit::Count
    }
}

/// The reserved `id` for an aggregate track — "this whole operation", as opposed to the
/// individual unit of work in flight.
pub const TOTAL_TRACK: &'static str = "__total__";

/// How an item went.
///
/// Four rather than three, because "did it produce anything" and "how alarming is it" are
/// different questions.
#[derive(Clone, Copy, Debug, PartialEq, Eq)]
pub enum Verdict {
    /// Produced what was asked, with nothing to add. (`Ok` in the wire format.)
    Clean,
    /// Produced something, with a caveat worth reading.
    Warn,
    /// Produced nothing, and that is a fact about the item — a 404.
    Missing,
    /// Produced nothing, and that is a fact about this run — a timeout, a 500.
    Fail,
}

impl Default for Verdict {
    fn default() -> (v: Self)
        ensures
            v == Verdict::Clean,
    {
        Verdict::Clean
    }
}

impl Verdict {
    pub open spec fn produced(&self) -> bool {
        *self == Verdict::Clean || *self == Verdict::Warn
    }

    /// Whether anything came of it. `Missing` and `Fail` differ in how they read, not in
    /// what they produced.
    pub fn produced_something(&self) -> (b: bool)
        ensures
            b == self.produced(),
    {
        match self {
            Verdict::Clean | Verdict::Warn => true,
            Verdict::Missing | Verdict::Fail => false,
        }
    }
}

/// One unit of work a stage finished with, reported as fact rather than as a rendered line.
#[derive(Debug)]
pub struct ItemOutcome {
    /// What was worked on: a URL, or the address bytes were read from.
    pub address: String,
    /// The short token in the leftmost column: an HTTP status, a content kind.
    pub tag: String,
    pub verdict: Verdict,
    /// What it counts as: `requests`, `documents`.
    pub noun: String,
    /// Bytes read.
    pub bytes: u64,
    /// What came out, where a stage produces something measurable.
    pub produced: Option<u64>,
    pub millis: u64,
    /// Why, when the verdict needs one.
    pub detail: Option<String>,
    /// A secondary item — a document found inside a page.
    pub nested: bool,
}

impl ItemOutcome {
    /// Whether this is one for the `ok` column.
    pub fn succeeded(&self) -> (b: bool)
        ensures
            b == self.verdict.produced(),
    {
        self.verdict.produced_something()
    }
}

/// A progress report from a long-running op. An event with no `id` is a log line, not a bar.
#[derive(Debug)]
pub struct ProgressEvent {
    pub message: String,
    pub done: Option<u64>,
    pub total: Option<u64>,
    /// Which unit of work this reports on. `None` means "a message, not a bar".
    pub id: Option<String>,
    pub unit: Unit,
    /// Set when this event *is* one finished item.
    pub item: Option<ItemOutcome>,
}

impl ProgressEvent {
    /// The common "just a message" case.
    pub fn say(message: String) -> (e: Self)
        ensures
            e.message == message,
            e.done is None,
            e.total is None,
            e.id is None,
            e.unit == Unit::Count,
            e.item is None,
    {
        ProgressEvent { message, done: None, total: None, id: None, unit: Unit::Count, item: None }
    }

    /// Counted work with a single implicit track.
    pub fn step(message: String, done: u64, total: u64) -> (e: Self)
        ensures
            e.message == message,
            e.done == Some(done),
            e.total == Some(total),
            e.id is None,
            e.unit == Unit::Count,
            e.item is None,
    {
        ProgressEvent { message, done: Some(done), total: Some(total), id: None, unit: Unit::Count, item: None }
    }

    /// A named unit of work — one bar per `id`.
    pub fn track(id: String, message: String, done: u64, total: u64, unit: Unit) -> (e: Self)
        ensures
            e.message == message,
            e.done == Some(done),
            e.total == Some(total),
            e.id == Some(id),
            e.unit == unit,
            e.item is None,
    {
        ProgressEvent { message, done: Some(done), total: Some(total), id: Some(id), unit, item: None }
    }

    /// One finished item. Carries no `total`, so it is a line rather than a bar; its
    /// message is the address, so a surface that renders only `message` still shows
    /// something useful.
    pub fn item(outcome: ItemOutcome) -> (e: Self)
        ensures
            e.message@ == outcome.address@,
            e.done is None,
            e.total is None,
            e.id is None,
            e.unit == Unit::Count,
            e.item == Some(outcome),
    {
        let message = crate::text::owned(outcome.address.as_str());
        ProgressEvent { message, done: None, total: None, id: None, unit: Unit::Count, item: Some(outcome) }
    }
}

/// The error a cancelled op returns. Its own type rather than a string, because the driver
/// has to tell "the operator asked this to stop" from "this failed".
#[derive(Clone, Copy, Debug, PartialEq, Eq)]
pub struct Cancelled;

/// Why an op stopped without an answer.
#[derive(Debug)]
pub enum OpError {
    /// The operator asked it to stop. Not a fault.
    Cancelled(Cancelled),
    /// It failed, and this says why.
    Fault(String),
}

impl OpError {
    pub fn fault(message: &str) -> (e: Self)
        ensures
            e matches OpError::Fault(m) && m@ == message@,
    {
        OpError::Fault(crate::text::owned(message))
    }

    pub fn cancelled() -> (e: Self)
        ensures
            e is Cancelled,
    {
        OpError::Cancelled(Cancelled)
    }
}

/// Whether an error is a cancellation rather than a fault.
pub fn is_cancelled(error: &OpError) -> (b: bool)
    ensures
        b == (error is Cancelled),
{
    match error {
        OpError::Cancelled(_) => true,
        OpError::Fault(_) => false,
    }
}

/// Which heading an op lists under in `centinel --help`. Presentation only.
#[derive(Clone, Copy, Debug, PartialEq, Eq, PartialOrd, Ord)]
pub enum Group {
    /// What you run. `run` and the config that feeds it.
    Pipeline,
    /// One stage of what `run` does.
    Stage,
    /// Questions asked of what has already been collected.
    Corpus,
    /// The machine, not the corpus.
    Host,
}

impl Group {
    /// Reading order for `--help`.
    pub fn order() -> (o: [Group; 4])
        ensures
            o@ == seq![Group::Pipeline, Group::Stage, Group::Corpus, Group::Host],
    {
        let o = [Group::Pipeline, Group::Stage, Group::Corpus, Group::Host];
        assert(o@ =~= seq![Group::Pipeline, Group::Stage, Group::Corpus, Group::Host]);
        o
    }

    pub open spec fn heading_spec(&self) -> Seq<char> {
        match self {
            Group::Pipeline => "Pipeline"@,
            Group::Stage => "Stages"@,
            Group::Corpus => "Corpus"@,
            Group::Host => "Host"@,
        }
    }

    /// The heading text. Plural where the group holds interchangeable members.
    pub fn heading(&self) -> (h: &'static str)
        ensures
            h@ == self.heading_spec(),
    {
        match self {
            Group::Pipeline => "Pipeline",
            Group::Stage => "Stages",
            Group::Corpus => "Corpus",
            Group::Host => "Host",
        }
    }
}

/// Who may cause this op to run — not "how dangerous is it" but "who asked".
#[derive(Clone, Copy, Debug, PartialEq, Eq, PartialOrd, Ord)]
pub enum Reach {
    /// Anyone who can reach a surface. Read-only by construction.
    Public,
    /// The operator: the CLI, and the scheduler acting on their written instruction.
    Operator,
    /// The CLI alone — this op acts on the host it runs on.
    Host,
}

impl Default for Reach {
    fn default() -> (r: Self)
        ensures
            r == Reach::Public,
    {
        Reach::Public
    }
}

impl Reach {
    /// Whether a remote surface — HTTP or MCP — may see or call this op.
    pub fn is_remote(&self) -> (b: bool)
        ensures
            b == (*self == Reach::Public),
    {
        match self {
            Reach::Public => true,
            _ => false,
        }
    }

    /// Whether the scheduler may fire this op on a cadence.
    pub fn is_schedulable(&self) -> (b: bool)
        ensures
            b == (*self == Reach::Operator),
    {
        match self {
            Reach::Operator => true,
            _ => false,
        }
    }
}

} // verus!
