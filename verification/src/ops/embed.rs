//! `embed` — embed indexed chunks into the vector table.
//!
//! Loading weights, running a model and talking to a remote provider are the host's.
//! What is decided here is what a batch size means, how the three tiers that settle it —
//! the flag, the config file, the machine — resolve, and which chunks are still to do.
use vstd::prelude::*;

use crate::ops::open::{short_of, short_sha};
use crate::ops::run::{duration, duration_of, rate_tenths};
use crate::page::{at, figure_text, marked_at, title_text, Mark, Page};
use crate::text::{
    chars_of, decimal, digits_value, flat_all, lower_all, lowercase, one_line, owned, parse_usize, push_count,
    push_decimal, spells_usize, str_eq, unsigned_body,
};

verus! {

/// The batch to fall back on when the machine will not say what it can hold.
pub const DEFAULT_BATCH: usize = 32;

/// Chunks per request when the operator and the config both said `auto` for a remote
/// model: a request has no KV cache, so `auto` resolves to a constant.
pub const REMOTE_DEFAULT_BATCH: usize = 128;

/// The word for "size it to this machine", in the config file and on the flag alike.
pub const AUTO: &'static str = "auto";

/// How wide a batch to embed in: a count of chunks, or `auto`.
#[derive(Clone, Copy, Debug, PartialEq, Eq)]
pub enum BatchSize {
    /// Settled when the model loads, from the free memory the backend reports.
    Auto,
    /// Exactly this many chunks per forward pass.
    Fixed(usize),
}

/// Why a batch size was refused.
#[derive(Clone, Copy, Debug, PartialEq, Eq)]
pub enum BatchError {
    /// `0`: a batch of nothing embeds nothing.
    Zero,
    /// Neither a count nor `auto`.
    NotACount,
}

impl BatchError {
    pub fn message(&self, text: &str) -> (m: String)
        ensures
            m@ == (match self {
                BatchError::Zero => "a batch of 0 embeds nothing; give a count or `auto`"@,
                BatchError::NotACount => "expected a count of chunks or `auto`, got `"@ + text@ + "`"@,
            }),
    {
        match self {
            BatchError::Zero => owned("a batch of 0 embeds nothing; give a count or `auto`"),
            BatchError::NotACount => {
                let mut m = owned("expected a count of chunks or `auto`, got `");
                m.append(text);
                m.append("`");
                m
            },
        }
    }
}

/// What a batch size spelled `s` means: `auto` in any case, a count as `usize` parses it,
/// zero refused rather than clamped.
pub open spec fn batch_of(s: Seq<char>) -> Result<BatchSize, BatchError> {
    if lower_all(s) == "auto"@ {
        Ok(BatchSize::Auto)
    } else if spells_usize(s) {
        if digits_value(unsigned_body(s)) == 0 {
            Err(BatchError::Zero)
        } else {
            Ok(BatchSize::Fixed(digits_value(unsigned_body(s)) as usize))
        }
    } else {
        Err(BatchError::NotACount)
    }
}

impl BatchSize {
    /// The one parse, so the flag and the config file cannot disagree about what is legal.
    pub fn parse(text: &str) -> (r: Result<BatchSize, BatchError>)
        ensures
            r == batch_of(text@),
    {
        let chars = chars_of(text);
        let lower = lowercase(chars.as_slice());
        let auto = chars_of(AUTO);
        proof {
            reveal_strlit("auto");
        }
        if crate::text::same(lower.as_slice(), auto.as_slice()) {
            return Ok(BatchSize::Auto);
        }
        match parse_usize(chars.as_slice()) {
            Some(0) => Err(BatchError::Zero),
            Some(n) => Ok(BatchSize::Fixed(n)),
            None => Err(BatchError::NotACount),
        }
    }
}

/// The flag, else the config file's standing preference; `auto` resolves to what the
/// machine affords, or to the measured default when the backend will not say.
pub open spec fn batch_for(flag: Option<BatchSize>, configured: BatchSize, afforded: Option<usize>) -> usize {
    let chosen = match flag {
        Some(b) => b,
        None => configured,
    };
    match chosen {
        BatchSize::Fixed(n) => n,
        BatchSize::Auto => match afforded {
            Some(n) => n,
            None => DEFAULT_BATCH,
        },
    }
}

pub fn resolve_batch(flag: Option<BatchSize>, configured: BatchSize, afforded: Option<usize>) -> (n: usize)
    ensures
        n == batch_for(flag, configured, afforded),
{
    let chosen = match flag {
        Some(b) => b,
        None => configured,
    };
    match chosen {
        BatchSize::Fixed(n) => n,
        BatchSize::Auto => match afforded {
            Some(n) => n,
            None => DEFAULT_BATCH,
        },
    }
}

/// The same three tiers for a remote model, where `auto` is a constant.
pub fn resolve_remote_batch(flag: Option<BatchSize>, configured: BatchSize) -> (n: usize)
    ensures
        n == batch_for(flag, configured, Some(REMOTE_DEFAULT_BATCH)),
{
    resolve_batch(flag, configured, Some(REMOTE_DEFAULT_BATCH))
}

#[derive(Debug)]
pub struct EmbedArgs {
    /// Embedding model.
    pub model: String,
    /// Quantization. Defaults to the registry's choice for the model.
    pub variant: Option<String>,
    /// Chunks per forward pass; unset falls through to the config file.
    pub batch: Option<BatchSize>,
    /// Stop after this many chunks.
    pub limit: Option<usize>,
    /// Report what would be embedded and exit.
    pub dry_run: bool,
}

pub fn default_model() -> (s: String)
    ensures
        s@ == "qwen3-embedding-4b"@,
{
    owned("qwen3-embedding-4b")
}

impl Default for EmbedArgs {
    fn default() -> (a: Self)
        ensures
            a.model@ == "qwen3-embedding-4b"@,
            a.variant is None,
            a.batch is None,
            a.limit is None,
            !a.dry_run,
    {
        EmbedArgs { model: default_model(), variant: None, batch: None, limit: None, dry_run: false }
    }
}

/// Whether args built in code asked for a batch of nothing, which the parse would refuse.
pub fn zero_batch(batch: Option<BatchSize>) -> (b: bool)
    ensures
        b == (batch == Some(BatchSize::Fixed(0))),
{
    match batch {
        Some(BatchSize::Fixed(n)) => n == 0,
        _ => false,
    }
}

/// Args built in code that asked for a batch of nothing are refused before any work.
pub fn batch_refusal(batch: Option<BatchSize>) -> (r: Result<(), String>)
    ensures
        r is Err <==> batch == Some(BatchSize::Fixed(0)),
        r matches Err(e) ==> e@ == "--batch must be at least 1"@,
{
    if zero_batch(batch) {
        Err(owned("--batch must be at least 1"))
    } else {
        Ok(())
    }
}

/// The dimensions of a local model, from the registry. A model the registry gives no
/// dimensions is not an embedding model, and asking to embed with it is refused.
pub fn local_dims(model: &str, dims: Option<usize>) -> (r: Result<usize, String>)
    ensures
        match dims {
            Some(d) => r matches Ok(n) && n == d,
            None => r matches Err(e) && e@ == "`"@ + model@ + "` is not an embedding model"@,
        },
{
    match dims {
        Some(d) => Ok(d),
        None => {
            let mut e = owned("`");
            e.append(model);
            e.append("` is not an embedding model");
            Err(e)
        },
    }
}

/// A loaded model must produce the dimensions the registry pins, or the vectors it writes
/// would not fit the table they go into.
pub fn dims_agree(id: &str, reported: usize, pinned: usize) -> (r: Result<(), String>)
    ensures
        r is Ok <==> reported == pinned,
        r matches Err(e) ==> e@ == id@ + " reports "@ + decimal(reported as nat) + " dimensions, the registry pins "@
            + decimal(pinned as nat),
{
    if reported == pinned {
        Ok(())
    } else {
        let mut e = owned(id);
        e.append(" reports ");
        push_decimal(&mut e, reported as u64);
        e.append(" dimensions, the registry pins ");
        push_decimal(&mut e, pinned as u64);
        Err(e)
    }
}

/// A model as the registry knows it: weights run on this machine, or a provider's.
#[derive(Debug)]
pub enum Backend {
    /// `dims` is `None` for a model that embeds nothing.
    Local { id: String, dims: Option<usize>, default_variant: String },
    /// `width`: the dimensions the provider's vectors have.
    Remote { id: String, width: usize },
}

/// What an embed run settles before it reads the index: the model's id, the dimensions its
/// vectors have, and the variant recorded beside them.
#[derive(Debug)]
pub struct Setup {
    pub model: String,
    pub dims: usize,
    pub variant: String,
}

/// The settled model, or the first refusal in the order the run meets them: a batch of
/// nothing; a local model the registry gives no dimensions; a variant asked of a model
/// that runs remotely, where no quantization is this machine's to choose.
pub fn settle_model(args: &EmbedArgs, backend: &Backend) -> (r: Result<Setup, String>)
    ensures
        args.batch == Some(BatchSize::Fixed(0)) ==> (r matches Err(e) && e@ == "--batch must be at least 1"@),
        args.batch != Some(BatchSize::Fixed(0)) ==> match *backend {
            Backend::Local { id, dims, default_variant } => match dims {
                None => r matches Err(e) && e@ == "`"@ + args.model@ + "` is not an embedding model"@,
                Some(d) => r matches Ok(s) && s.model@ == id@ && s.dims == d && s.variant@ == (match args.variant {
                    Some(v) => v@,
                    None => default_variant@,
                }),
            },
            Backend::Remote { id, width } => match args.variant {
                Some(_) => r matches Err(e) && e@ == "`"@ + id@
                    + "` runs remotely and has no quantization variant — drop --variant"@,
                None => r matches Ok(s) && s.model@ == id@ && s.dims == width && s.variant@ == "openrouter"@,
            },
        },
{
    match batch_refusal(args.batch) {
        Err(e) => return Err(e),
        Ok(()) => {},
    }
    match backend {
        Backend::Local { id, dims, default_variant } => {
            let d = match local_dims(args.model.as_str(), *dims) {
                Ok(d) => d,
                Err(e) => return Err(e),
            };
            let variant = match variant_for(false, id.as_str(), &args.variant, default_variant.as_str()) {
                Ok(v) => v,
                Err(e) => return Err(e),
            };
            Ok(Setup { model: owned(id.as_str()), dims: d, variant })
        },
        Backend::Remote { id, width } => {
            let variant = match variant_for(true, id.as_str(), &args.variant, "") {
                Ok(v) => v,
                Err(e) => return Err(e),
            };
            Ok(Setup { model: owned(id.as_str()), dims: *width, variant })
        },
    }
}

/// Whether the run embeds anything: not on a dry run, and not when nothing is left. Either
/// way the report of what would be done is the plan.
pub fn embeds_now(args: &EmbedArgs, todo: usize) -> (b: bool)
    ensures
        b == (!args.dry_run && todo > 0),
{
    !args.dry_run && todo > 0
}

/// A chunk that could not be embedded. One failure does not abandon the run.
#[derive(Debug)]
pub struct Skipped {
    pub chunk_hash: String,
    pub reason: String,
}

// ── the work list ───────────────────────────────────────────────────────────

pub open spec fn views(v: Seq<String>) -> Seq<Seq<char>> {
    v.map_values(|s: String| s@)
}

/// The indexed chunks not yet stored, in index order.
pub open spec fn outstanding_of(indexed: Seq<Seq<char>>, stored: Seq<Seq<char>>) -> Seq<Seq<char>>
    decreases indexed.len(),
{
    if indexed.len() == 0 {
        Seq::empty()
    } else if stored.contains(indexed.last()) {
        outstanding_of(indexed.drop_last(), stored)
    } else {
        outstanding_of(indexed.drop_last(), stored).push(indexed.last())
    }
}

/// What is left to embed and what was done before this run.
#[derive(Debug)]
pub struct Work {
    /// Indexed chunks already stored: the resumed-past portion.
    pub already_embedded: usize,
    /// Everything still outstanding, before `--limit`.
    pub outstanding: usize,
    /// What this run will embed: the outstanding chunks, in index order, cut at the limit.
    pub todo: Vec<String>,
}

fn stored_has(stored: &Vec<String>, h: &str) -> (b: bool)
    ensures
        b == views(stored@).contains(h@),
{
    let mut i: usize = 0;
    while i < stored.len()
        invariant
            i <= stored@.len(),
            forall|j: int| 0 <= j < i ==> stored@[j]@ != h@,
        decreases stored.len() - i,
    {
        if str_eq(stored[i].as_str(), h) {
            assert(views(stored@)[i as int] == h@);
            return true;
        }
        i = i + 1;
    }
    proof {
        if views(stored@).contains(h@) {
            let j = choose|j: int| 0 <= j < views(stored@).len() && views(stored@)[j] == h@;
            assert(stored@[j]@ == h@);
        }
    }
    false
}

/// Stored chunks are subtracted from the work list, which keeps its index order, and the
/// limit cuts what is left rather than what was indexed.
pub fn plan_work(indexed: &Vec<String>, stored: &Vec<String>, limit: Option<usize>) -> (w: Work)
    ensures
        views(w.todo@) == (match limit {
            Some(n) => if n < outstanding_of(views(indexed@), views(stored@)).len() {
                outstanding_of(views(indexed@), views(stored@)).take(n as int)
            } else {
                outstanding_of(views(indexed@), views(stored@))
            },
            None => outstanding_of(views(indexed@), views(stored@)),
        }),
        w.outstanding == outstanding_of(views(indexed@), views(stored@)).len(),
        w.already_embedded + w.outstanding == indexed@.len(),
{
    let ghost ix = views(indexed@);
    let ghost st = views(stored@);
    let mut todo: Vec<String> = Vec::new();
    let mut already: usize = 0;
    let mut i: usize = 0;
    while i < indexed.len()
        invariant
            ix == views(indexed@),
            st == views(stored@),
            i <= indexed@.len(),
            views(todo@) == outstanding_of(ix.take(i as int), st),
            already + todo@.len() == i,
        decreases indexed.len() - i,
    {
        assert(ix.take(i + 1).drop_last() =~= ix.take(i as int));
        assert(ix[i as int] == indexed@[i as int]@);
        if stored_has(stored, indexed[i].as_str()) {
            already = already + 1;
        } else {
            todo.push(owned(indexed[i].as_str()));
            assert(views(todo@) =~= outstanding_of(ix.take(i as int), st).push(ix[i as int]));
        }
        i = i + 1;
    }
    assert(ix.take(ix.len() as int) =~= ix);
    let outstanding = todo.len();
    match limit {
        Some(n) => {
            if n < todo.len() {
                todo.truncate(n);
                assert(views(todo@) =~= outstanding_of(ix, st).take(n as int));
            }
        },
        None => {},
    }
    Work { already_embedded: already, outstanding, todo }
}

// ── the variant a run records ──────────────────────────────────────────────

/// What produced the vectors: the quantization asked for or the model's default for a
/// local model; the provider for a remote one, which keeps no weights here. A variant asked
/// of a remote model would record one that names nothing, so it is refused.
pub fn variant_for(remote: bool, model: &str, asked: &Option<String>, default_variant: &str) -> (r: Result<String, String>)
    ensures
        remote && asked is Some ==> (r matches Err(e) && e@ == "`"@ + model@
            + "` runs remotely and has no quantization variant — drop --variant"@),
        remote && asked is None ==> (r matches Ok(v) && v@ == "openrouter"@),
        !remote ==> (r matches Ok(v) && v@ == (match *asked {
            Some(a) => a@,
            None => default_variant@,
        })),
{
    if remote {
        match asked {
            Some(_) => {
                let mut e = owned("`");
                e.append(model);
                e.append("` runs remotely and has no quantization variant — drop --variant");
                Err(e)
            },
            None => Ok(owned("openrouter")),
        }
    } else {
        match asked {
            Some(a) => Ok(owned(a.as_str())),
            None => Ok(owned(default_variant)),
        }
    }
}

/// The work list in windows of `batch`, in order; the last may be short.
pub open spec fn windows_of(todo: Seq<Seq<char>>, batch: nat) -> Seq<Seq<Seq<char>>>
    decreases todo.len(),
    when batch > 0
{
    if todo.len() == 0 {
        Seq::empty()
    } else if todo.len() <= batch {
        seq![todo]
    } else {
        seq![todo.take(batch as int)] + windows_of(todo.skip(batch as int), batch)
    }
}

pub fn windows(todo: &Vec<String>, batch: usize) -> (w: Vec<Vec<String>>)
    requires
        batch > 0,
    ensures
        w@.map_values(|v: Vec<String>| views(v@)) == windows_of(views(todo@), batch as nat),
{
    let mut out: Vec<Vec<String>> = Vec::new();
    let mut start: usize = 0;
    assert(views(todo@).skip(0) =~= views(todo@));
    assert(out@.map_values(|v: Vec<String>| views(v@)) =~= Seq::<Seq<Seq<char>>>::empty());
    while start < todo.len()
        invariant
            batch > 0,
            start <= todo@.len(),
            out@.map_values(|v: Vec<String>| views(v@)) + windows_of(views(todo@).skip(start as int), batch as nat)
                == windows_of(views(todo@), batch as nat),
        decreases todo.len() - start,
    {
        let end = if todo.len() - start <= batch { todo.len() } else { start + batch };
        let mut w: Vec<String> = Vec::new();
        let mut i: usize = start;
        while i < end
            invariant
                start <= i <= end <= todo@.len(),
                w@.len() == i - start,
                forall|j: int| 0 <= j < w@.len() ==> #[trigger] w@[j]@ == todo@[start + j]@,
            decreases end - i,
        {
            w.push(owned(todo[i].as_str()));
            i = i + 1;
        }
        assert(views(w@) =~= views(todo@).subrange(start as int, end as int));
        let ghost rest = views(todo@).skip(start as int);
        proof {
            if rest.len() <= batch {
                assert(rest =~= views(todo@).subrange(start as int, end as int));
                assert(views(todo@).skip(end as int).len() == 0);
                assert(windows_of(views(todo@).skip(end as int), batch as nat) =~= Seq::<Seq<Seq<char>>>::empty());
            } else {
                assert(rest.take(batch as int) =~= views(todo@).subrange(start as int, end as int));
                assert(rest.skip(batch as int) =~= views(todo@).skip(end as int));
            }
        }
        let ghost before = out@;
        out.push(w);
        assert(out@.map_values(|v: Vec<String>| views(v@)) =~= before.map_values(|v: Vec<String>| views(v@)).push(
            views(todo@).subrange(start as int, end as int),
        ));
        start = end;
    }
    assert(views(todo@).skip(start as int).len() == 0);
    assert(windows_of(views(todo@).skip(start as int), batch as nat) =~= Seq::<Seq<Seq<char>>>::empty());
    assert(out@.map_values(|v: Vec<String>| views(v@)) + Seq::<Seq<Seq<char>>>::empty() =~= out@.map_values(
        |v: Vec<String>| views(v@),
    ));
    out
}

// ── the report ─────────────────────────────────────────────────────────────

#[derive(Debug)]
pub struct EmbedReport {
    pub model: String,
    pub variant: String,
    pub dims: usize,
    /// Where the vectors went.
    pub vectors: String,
    /// Chunks in the index.
    pub indexed: usize,
    /// Already stored when the run started: the resumed-past portion.
    pub already_embedded: usize,
    pub embedded: usize,
    /// Still outstanding after this run, from `--limit` or from failures.
    pub remaining: usize,
    pub elapsed_millis: u64,
    /// Chunks per forward pass, once the tiers settled it. Absent on a dry run.
    pub batch: Option<usize>,
    pub skipped: Vec<Skipped>,
}

impl EmbedReport {
    /// What is known before anything is embedded: what is indexed, what is stored, what
    /// is outstanding. A dry run, or a run with nothing to do, reports exactly this.
    pub fn planned(model: String, variant: String, dims: usize, vectors: String, indexed: usize, work: &Work) -> (r: EmbedReport)
        ensures
            r.model == model && r.variant == variant && r.dims == dims && r.vectors == vectors,
            r.indexed == indexed,
            r.already_embedded == work.already_embedded,
            r.embedded == 0,
            r.remaining == work.outstanding,
            r.elapsed_millis == 0,
            r.batch is None,
            r.skipped@.len() == 0,
    {
        EmbedReport {
            model,
            variant,
            dims,
            vectors,
            indexed,
            already_embedded: work.already_embedded,
            embedded: 0,
            remaining: work.outstanding,
            elapsed_millis: 0,
            batch: None,
            skipped: Vec::new(),
        }
    }

    /// The run's outcome over its plan: what landed comes off what was outstanding.
    pub fn finished(self, embedded: usize, skipped: Vec<Skipped>, batch: usize, elapsed_millis: u64) -> (r: EmbedReport)
        requires
            embedded <= self.remaining,
        ensures
            r.embedded == embedded,
            r.remaining == self.remaining - embedded,
            r.elapsed_millis == elapsed_millis,
            r.batch == Some(batch),
            r.skipped == skipped,
            r.model == self.model && r.variant == self.variant && r.dims == self.dims && r.vectors == self.vectors,
            r.indexed == self.indexed && r.already_embedded == self.already_embedded,
    {
        let remaining = self.remaining - embedded;
        EmbedReport { embedded, remaining, elapsed_millis, batch: Some(batch), skipped, ..self }
    }
}

/// How long what is left would take at this run's rate, held at `u64::MAX`.
pub open spec fn eta_millis(r: EmbedReport) -> nat {
    let e = r.remaining as nat * r.elapsed_millis as nat / r.embedded as nat;
    if e > u64::MAX { u64::MAX as nat } else { e }
}

pub open spec fn figures_of(r: EmbedReport) -> Seq<char> {
    figure_text(r.indexed as nat, "chunks indexed"@) + " · "@ + figure_text(r.already_embedded as nat, "already embedded"@)
        + " · "@ + figure_text(r.embedded as nat, "embedded"@) + " · "@ + figure_text(r.remaining as nat, "remaining"@)
}

/// The batch beside the rate, because it is what the rate is a rate at.
pub open spec fn rate_line(r: EmbedReport) -> Seq<char> {
    let t = rate_tenths(r.embedded as nat, r.elapsed_millis as nat);
    duration_of(r.elapsed_millis as nat) + " at "@ + decimal(t / 10) + "."@ + decimal(t % 10) + " chunks/sec"@ + match r.batch {
        Some(b) => " · "@ + decimal(b as nat) + " per pass"@,
        None => Seq::empty(),
    }
}

pub open spec fn skipped_lines(depth: nat, ss: Seq<Skipped>) -> Seq<Seq<char>> {
    ss.map_values(|k: Skipped| marked_at(depth, Mark::Warn, short_of(k.chunk_hash@) + "  "@ + flat_all(k.reason@)))
}

pub open spec fn report_lines(depth: nat, r: EmbedReport) -> Seq<Seq<char>> {
    let d = depth + 1;
    seq![
        at(depth, title_text(r.model@, r.variant@ + " · "@ + decimal(r.dims as nat) + " dims"@)),
        at(d, figures_of(r)),
        Seq::<char>::empty(),
        at(d, rate_line(r)),
    ] + (if r.remaining > 0 && r.embedded > 0 {
        seq![marked_at(d, Mark::Warn, "about "@ + duration_of(eta_millis(r)) + " left — re-run to continue"@)]
    } else {
        Seq::empty()
    }) + (if r.skipped@.len() > 0 {
        seq![Seq::<char>::empty(), at(d, "skipped"@)] + skipped_lines(d, r.skipped@)
    } else {
        Seq::empty()
    })
}

fn push_figure(s: &mut String, n: usize, label: &str)
    ensures
        final(s)@ == old(s)@ + figure_text(n as nat, label@),
{
    push_count(s, n as u64);
    s.append(" ");
    s.append(label);
}

impl EmbedReport {
    fn rate(&self) -> (s: String)
        requires
            self.embedded <= 1_000_000_000_000_000,
        ensures
            s@ == rate_line(*self),
    {
        let m: u128 = if self.elapsed_millis == 0 { 1 } else { self.elapsed_millis as u128 };
        let n: u128 = self.embedded as u128;
        assert(n * 20000 + m <= 100_000_000_000_000_000_000_000) by (nonlinear_arith)
            requires
                n <= 1_000_000_000_000_000,
                m <= u64::MAX,
        ;
        let wide: u128 = (n * 20000 + m) / (2 * m);
        assert(wide <= n * 10000 + 1) by (nonlinear_arith)
            requires
                wide == (n * 20000 + m) / (2 * m),
                m >= 1,
        ;
        let tenths: u64 = wide as u64;
        let mut s = duration(self.elapsed_millis);
        s.append(" at ");
        push_decimal(&mut s, tenths / 10);
        s.append(".");
        push_decimal(&mut s, tenths % 10);
        s.append(" chunks/sec");
        match self.batch {
            Some(b) => {
                s.append(" · ");
                push_decimal(&mut s, b as u64);
                s.append(" per pass");
            },
            None => {},
        }
        s
    }

    pub fn render(&self, p: &mut Page)
        requires
            old(p).depth + 1 < usize::MAX,
            self.embedded <= 1_000_000_000_000_000,
        ensures
            final(p).text() == old(p).text() + report_lines(old(p).depth as nat, *self),
            final(p).depth == old(p).depth,
    {
        let ghost d = old(p).depth as nat;
        let mut aside = owned(self.variant.as_str());
        aside.append(" · ");
        push_decimal(&mut aside, self.dims as u64);
        aside.append(" dims");
        p.title(self.model.as_str(), aside.as_str());
        p.enter();
        let mut f = String::new();
        push_figure(&mut f, self.indexed, "chunks indexed");
        f.append(" · ");
        push_figure(&mut f, self.already_embedded, "already embedded");
        f.append(" · ");
        push_figure(&mut f, self.embedded, "embedded");
        f.append(" · ");
        push_figure(&mut f, self.remaining, "remaining");
        assert(f@ =~= figures_of(*self));
        p.line(f.as_str());
        p.blank();
        let rate = self.rate();
        p.line(rate.as_str());
        if self.remaining > 0 && self.embedded > 0 {
            assert((self.remaining as u128) * (self.elapsed_millis as u128) <= u128::MAX) by (nonlinear_arith)
                requires
                    self.remaining <= u64::MAX,
                    self.elapsed_millis <= u64::MAX,
            ;
            let eta: u128 = (self.remaining as u128) * (self.elapsed_millis as u128) / (self.embedded as u128);
            let held: u64 = if eta > u64::MAX as u128 { u64::MAX } else { eta as u64 };
            let mut text = owned("about ");
            let t = duration(held);
            text.append(t.as_str());
            text.append(" left — re-run to continue");
            p.marked(Mark::Warn, text.as_str());
        }
        let ghost mid = p.text();
        if self.skipped.len() > 0 {
            p.section("skipped");
            let ghost top = p.text();
            let mut i: usize = 0;
            while i < self.skipped.len()
                invariant
                    i <= self.skipped@.len(),
                    p.depth == d + 1,
                    p.text() == top + skipped_lines(d + 1, self.skipped@.take(i as int)),
                decreases self.skipped.len() - i,
            {
                let mut text = short_sha(self.skipped[i].chunk_hash.as_str());
                text.append("  ");
                let r = one_line(self.skipped[i].reason.as_str());
                text.append(r.as_str());
                p.marked(Mark::Warn, text.as_str());
                i = i + 1;
                assert(skipped_lines(d + 1, self.skipped@.take(i as int)) =~= skipped_lines(
                    d + 1,
                    self.skipped@.take(i - 1),
                ).push(
                    marked_at(
                        d + 1,
                        Mark::Warn,
                        short_of(self.skipped@[i - 1].chunk_hash@) + "  "@ + flat_all(self.skipped@[i - 1].reason@),
                    ),
                ));
            }
            assert(self.skipped@.take(self.skipped@.len() as int) =~= self.skipped@);
        }
        p.leave();
        assert(p.text() =~= old(p).text() + report_lines(d, *self));
    }
}

} // verus!
