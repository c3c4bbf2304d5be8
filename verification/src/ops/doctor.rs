//! `doctor` — is this machine able to run Centinel?
//!
//! The install bar is real: external binaries and downloaded weights. That is only honest
//! if the missing-dependency case is loud. Probing the binaries and the weights cache is
//! the host's; what is decided here is which rows lead, which absences block a run, when
//! a pipeline stage's gate opens, and how the verdict reads.
use vstd::prelude::*;

use crate::counts::{lemma_lex_le_total, lemma_lex_le_transitive, lex_le};
use crate::domain::{pad, pad_to};
use crate::ops::models::{human_bytes, human_bytes_of};
use crate::ops::open::words;
use crate::page::{at, marked_at, Mark, Page};
use crate::text::{chars_of, decimal, is_digit, join_with, owned, plural, plural_of, push_decimal, str_eq, string_of, text_lines};

verus! {

/// What a missing binary actually costs. `Required` sorts first: the rows that can stop a
/// run lead the table.
#[derive(Clone, Copy, Debug, PartialEq, Eq, Structural)]
pub enum Need {
    /// Code calls it, and a pipeline stage stops without it.
    Required,
    /// Code calls it, and a stage degrades without it.
    Optional,
    /// Nothing calls it yet: the pipeline that will need it is specified, not built.
    Planned,
}

impl Need {
    pub open spec fn rank(&self) -> int {
        match self {
            Need::Required => 0,
            Need::Optional => 1,
            Need::Planned => 2,
        }
    }
}

/// A subprocess dependency Centinel shells out to.
#[derive(Debug)]
pub struct Binary {
    pub name: String,
    pub need: Need,
    /// What this binary is needed for — so a missing one is actionable, not just red.
    pub purpose: String,
    pub path: Option<String>,
    pub version: Option<String>,
    /// Set when the binary is present but old enough that breakage is expected.
    pub stale: Option<String>,
}

impl Binary {
    pub fn found(&self) -> (b: bool)
        ensures
            b == (self.path is Some),
    {
        self.path.is_some()
    }

    /// Whether this binary's absence should make the machine read as not ready.
    pub fn gates_readiness(&self) -> (b: bool)
        ensures
            b == (self.need == Need::Required),
    {
        match self.need {
            Need::Required => true,
            _ => false,
        }
    }
}

/// A pipeline stage that weights can hold shut.
#[derive(Clone, Copy, Debug, PartialEq, Eq, Structural)]
pub enum Gate {
    Search,
    Transcription,
}

impl Gate {
    pub open spec fn name_spec(&self) -> Seq<char> {
        match self {
            Gate::Search => "search"@,
            Gate::Transcription => "transcription"@,
        }
    }

    pub fn name(&self) -> (s: &'static str)
        ensures
            s@ == self.name_spec(),
    {
        match self {
            Gate::Search => "search",
            Gate::Transcription => "transcription",
        }
    }

    /// What is unavailable while this gate is shut.
    pub open spec fn blocks_spec(&self) -> Seq<char> {
        match self {
            Gate::Search => "`centinel embed` and the vector half of `centinel search`"@,
            Gate::Transcription => "`centinel transcribe`"@,
        }
    }

    pub fn blocks(&self) -> (s: &'static str)
        ensures
            s@ == self.blocks_spec(),
    {
        match self {
            Gate::Search => "`centinel embed` and the vector half of `centinel search`",
            Gate::Transcription => "`centinel transcribe`",
        }
    }
}

/// What a model is for. Every role must be covered by some installed model for its gate
/// to open.
#[derive(Clone, Copy, Debug, PartialEq, Eq, Structural)]
pub enum ModelRole {
    Embedding,
    Reranker,
    Transcription,
    VoiceActivity,
}

impl ModelRole {
    pub open spec fn gates_spec(&self) -> Gate {
        match self {
            ModelRole::Embedding | ModelRole::Reranker => Gate::Search,
            ModelRole::Transcription | ModelRole::VoiceActivity => Gate::Transcription,
        }
    }

    /// The stage that stops without a model in this role.
    pub fn gates(&self) -> (g: Gate)
        ensures
            g == self.gates_spec(),
    {
        match self {
            ModelRole::Embedding | ModelRole::Reranker => Gate::Search,
            ModelRole::Transcription | ModelRole::VoiceActivity => Gate::Transcription,
        }
    }

    pub open spec fn purpose_spec(&self) -> Seq<char> {
        match self {
            ModelRole::Embedding => "the vector half of hybrid search"@,
            ModelRole::Reranker => "reranks retrieved passages; always on"@,
            ModelRole::Transcription => "turns meeting audio into a timestamped transcript"@,
            ModelRole::VoiceActivity => "finds the speech, so the transcriber never decodes dead air"@,
        }
    }

    /// What a model in this role is needed for.
    pub fn purpose(&self) -> (s: &'static str)
        ensures
            s@ == self.purpose_spec(),
    {
        match self {
            ModelRole::Embedding => "the vector half of hybrid search",
            ModelRole::Reranker => "reranks retrieved passages; always on",
            ModelRole::Transcription => "turns meeting audio into a timestamped transcript",
            ModelRole::VoiceActivity => "finds the speech, so the transcriber never decodes dead air",
        }
    }
}

/// The roles behind a gate, in the order the registry lists them.
pub open spec fn roles_of(g: Gate) -> Seq<ModelRole> {
    match g {
        Gate::Search => seq![ModelRole::Embedding, ModelRole::Reranker],
        Gate::Transcription => seq![ModelRole::Transcription, ModelRole::VoiceActivity],
    }
}

/// A model's weights, as a host dependency.
#[derive(Debug)]
pub struct Weights {
    pub id: String,
    pub role: ModelRole,
    /// Which pipeline stage stops without it.
    pub gates: Gate,
    pub purpose: String,
    /// Whether its gate depends on it.
    pub required: bool,
    pub installed: bool,
    /// The variant that would be loaded. `None` when nothing is installed.
    pub variant: Option<String>,
    pub bytes_present: u64,
    /// Size of the installed variant, or of the one a plain `pull` would fetch.
    pub bytes_total: u64,
    /// An interrupted download is waiting to resume.
    pub resumable: bool,
    /// The command that fixes this.
    pub fix: Option<String>,
}

/// Whether one pipeline stage's weights are all present.
#[derive(Debug)]
pub struct GateStatus {
    pub gate: Gate,
    pub ready: bool,
    /// What is unavailable while this gate is shut.
    pub blocks: String,
    /// Model ids still to pull.
    pub missing: Vec<String>,
    /// The command that opens it.
    pub fix: Option<String>,
}

#[derive(Debug)]
pub struct DoctorReport {
    pub store_root: String,
    pub blob_count: u64,
    pub sources: Vec<String>,
    pub binaries: Vec<Binary>,
    pub models_dir: String,
    pub models: Vec<Weights>,
    /// Per-stage readiness.
    pub gates: Vec<GateStatus>,
    /// True when every *required* binary is present.
    pub binaries_ready: bool,
    /// True when every gate is open.
    pub models_ready: bool,
    /// True when both are.
    pub ready: bool,
}

#[derive(Debug)]
pub struct DoctorArgs {
    /// Skip counting blobs, which walks the whole pool.
    pub skip_blob_count: bool,
}

/// Whether the report counts the blob pool: not when asked to skip it, since counting walks
/// the whole pool; a skipped count reads as zero.
pub fn counts_blobs(args: &DoctorArgs) -> (b: bool)
    ensures
        b == !args.skip_blob_count,
{
    !args.skip_blob_count
}

impl Default for DoctorArgs {
    fn default() -> (a: Self)
        ensures
            !a.skip_blob_count,
    {
        DoctorArgs { skip_blob_count: false }
    }
}

// ── the order of the rows ───────────────────────────────────────────────────

/// `a` leads `b`, or they tie: by need, then by name.
pub open spec fn leads(a: Binary, b: Binary) -> bool {
    a.need.rank() < b.need.rank() || (a.need.rank() == b.need.rank() && lex_le(a.name@, b.name@))
}

pub open spec fn in_row_order(s: Seq<Binary>) -> bool {
    forall|i: int, j: int| 0 <= i < j < s.len() ==> leads(#[trigger] s[i], #[trigger] s[j])
}

proof fn lemma_leads_total(a: Binary, b: Binary)
    ensures
        leads(a, b) || leads(b, a),
{
    lemma_lex_le_total(a.name@, b.name@);
}

proof fn lemma_leads_transitive(a: Binary, b: Binary, c: Binary)
    requires
        leads(a, b),
        leads(b, c),
    ensures
        leads(a, c),
{
    if a.need.rank() == b.need.rank() && b.need.rank() == c.need.rank() {
        lemma_lex_le_transitive(a.name@, b.name@, c.name@);
    }
}

fn leads_exec(a: &Binary, b: &Binary) -> (r: bool)
    ensures
        r == leads(*a, *b),
{
    let ra: u8 = match a.need {
        Need::Required => 0,
        Need::Optional => 1,
        Need::Planned => 2,
    };
    let rb: u8 = match b.need {
        Need::Required => 0,
        Need::Optional => 1,
        Need::Planned => 2,
    };
    if ra != rb {
        return ra < rb;
    }
    let x = chars_of(a.name.as_str());
    let y = chars_of(b.name.as_str());
    match crate::counts::compare(y.as_slice(), x.as_slice()) {
        crate::counts::Order::Before => false,
        _ => true,
    }
}

/// The rows that can stop a run lead the table: by need, then by name, the relative order
/// of ties kept.
pub fn sort_binaries(v: Vec<Binary>) -> (out: Vec<Binary>)
    ensures
        in_row_order(out@),
        out@.to_multiset() == v@.to_multiset(),
{
    broadcast use vstd::seq_lib::group_to_multiset_ensures;

    let mut v = v;
    let ghost original = v@;
    let mut out: Vec<Binary> = Vec::new();
    while v.len() > 0
        invariant
            in_row_order(out@),
            v@.to_multiset().add(out@.to_multiset()) == original.to_multiset(),
        decreases v.len(),
    {
        let ghost before_v = v@;
        let x = v.pop().unwrap();
        assert(before_v =~= v@.push(x));
        let mut pos: usize = 0;
        while pos < out.len() && !leads_exec(&x, &out[pos])
            invariant
                pos <= out@.len(),
                forall|k: int| 0 <= k < pos ==> !leads(x, #[trigger] out@[k]),
            decreases out.len() - pos,
        {
            pos = pos + 1;
        }
        let ghost before = out@;
        proof {
            assert forall|k: int| 0 <= k < pos implies leads(#[trigger] before[k], x) by {
                lemma_leads_total(x, before[k]);
            }
            assert forall|k: int| pos <= k < before.len() implies leads(x, #[trigger] before[k]) by {
                if k > pos {
                    assert(leads(before[pos as int], before[k]));
                    lemma_leads_transitive(x, before[pos as int], before[k]);
                }
            }
        }
        out.insert(pos, x);
        proof {
            assert(out@ == before.insert(pos as int, x));
            assert forall|i: int, j: int| 0 <= i < j < out@.len() implies leads(#[trigger] out@[i], #[trigger] out@[j]) by {
                if i < pos && j < pos {
                    assert(out@[i] == before[i] && out@[j] == before[j]);
                } else if i < pos && j == pos {
                } else if i < pos && j > pos {
                    assert(out@[i] == before[i] && out@[j] == before[j - 1]);
                } else if i == pos {
                    assert(out@[j] == before[j - 1]);
                } else {
                    assert(out@[i] == before[i - 1] && out@[j] == before[j - 1]);
                }
            }
            vstd::seq_lib::to_multiset_insert(before, pos as int, x);
            vstd::seq_lib::to_multiset_build(v@, x);
            assert(v@.push(x).to_multiset() == v@.to_multiset().insert(x));
            assert(v@.to_multiset().add(out@.to_multiset()) =~= before_v.to_multiset().add(before.to_multiset()));
        }
    }
    assert(v@.to_multiset() =~= vstd::multiset::Multiset::empty());
    assert(out@.to_multiset() =~= original.to_multiset());
    out
}

// ── readiness ───────────────────────────────────────────────────────────────

/// Every binary whose absence would stop a run is present.
pub open spec fn bins_ready(bs: Seq<Binary>) -> bool {
    forall|i: int| 0 <= i < bs.len() ==> #[trigger] bs[i].need != Need::Required || bs[i].path is Some
}

pub fn binaries_ready(bs: &Vec<Binary>) -> (b: bool)
    ensures
        b == bins_ready(bs@),
{
    let mut i: usize = 0;
    while i < bs.len()
        invariant
            i <= bs@.len(),
            forall|j: int| 0 <= j < i ==> #[trigger] bs@[j].need != Need::Required || bs@[j].path is Some,
        decreases bs.len() - i,
    {
        if bs[i].gates_readiness() && !bs[i].found() {
            return false;
        }
        i = i + 1;
    }
    true
}

/// Every gate is open.
pub open spec fn gates_open(gs: Seq<GateStatus>) -> bool {
    forall|i: int| 0 <= i < gs.len() ==> #[trigger] gs[i].ready
}

pub fn models_ready(gs: &Vec<GateStatus>) -> (b: bool)
    ensures
        b == gates_open(gs@),
{
    let mut i: usize = 0;
    while i < gs.len()
        invariant
            i <= gs@.len(),
            forall|j: int| 0 <= j < i ==> #[trigger] gs@[j].ready,
        decreases gs.len() - i,
    {
        if !gs[i].ready {
            return false;
        }
        i = i + 1;
    }
    true
}

// ── the gates ───────────────────────────────────────────────────────────────

pub open spec fn ids(v: Seq<String>) -> Seq<Seq<char>> {
    v.map_values(|s: String| s@)
}

pub open spec fn opt_chars(o: Option<String>) -> Option<Seq<char>> {
    match o {
        Some(s) => Some(s@),
        None => None,
    }
}

/// Some installed, required model covers the role.
pub open spec fn role_covered(ms: Seq<Weights>, r: ModelRole) -> bool {
    exists|i: int| 0 <= i < ms.len() && #[trigger] ms[i].role == r && ms[i].required && ms[i].installed
}

/// The model a user should pull for a role: the first the registry lists.
pub open spec fn preferred(ms: Seq<Weights>, r: ModelRole) -> Option<Seq<char>>
    decreases ms.len(),
{
    if ms.len() == 0 {
        None
    } else if ms[0].role == r && ms[0].required {
        Some(ms[0].id@)
    } else {
        preferred(ms.drop_first(), r)
    }
}

/// The models to pull before a gate opens.
pub open spec fn missing_from(ms: Seq<Weights>, roles: Seq<ModelRole>) -> Seq<Seq<char>>
    decreases roles.len(),
{
    if roles.len() == 0 {
        Seq::empty()
    } else {
        let rest = missing_from(ms, roles.drop_last());
        let r = roles.last();
        if !role_covered(ms, r) && preferred(ms, r) is Some {
            rest.push(preferred(ms, r)->0)
        } else {
            rest
        }
    }
}

/// The fix the first model with this id carries, if any.
pub open spec fn fix_for(ms: Seq<Weights>, id: Seq<char>) -> Option<Seq<char>>
    decreases ms.len(),
{
    if ms.len() == 0 {
        None
    } else if ms[0].id@ == id {
        opt_chars(ms[0].fix)
    } else {
        fix_for(ms.drop_first(), id)
    }
}

pub open spec fn fixes_for(ms: Seq<Weights>, missing: Seq<Seq<char>>) -> Seq<Seq<char>>
    decreases missing.len(),
{
    if missing.len() == 0 {
        Seq::empty()
    } else {
        let rest = fixes_for(ms, missing.drop_last());
        match fix_for(ms, missing.last()) {
            Some(f) => rest.push(f),
            None => rest,
        }
    }
}

/// A gate's status: open when every role behind it has some installed model; when shut,
/// the models to pull and one pasteable command chaining their fixes.
/// Whether a gate is open: every role behind it has some installed model. A role with no
/// model at all is not filled, so a registry short of one keeps its gate shut.
pub open spec fn all_filled(ms: Seq<Weights>, g: Gate) -> bool {
    forall|i: int| 0 <= i < roles_of(g).len() ==> role_covered(ms, #[trigger] roles_of(g)[i])
}

pub open spec fn status_of(s: GateStatus, ms: Seq<Weights>, g: Gate) -> bool {
    let missing = missing_from(ms, roles_of(g));
    &&& s.gate == g
    &&& s.ready == all_filled(ms, g)
    &&& s.blocks@ == g.blocks_spec()
    &&& ids(s.missing@) == missing
    &&& opt_chars(s.fix) == (if missing.len() == 0 {
        None
    } else {
        Some(join_with(fixes_for(ms, missing), " && "@))
    })
}

fn covered(ms: &Vec<Weights>, r: ModelRole) -> (b: bool)
    ensures
        b == role_covered(ms@, r),
{
    let mut i: usize = 0;
    while i < ms.len()
        invariant
            i <= ms@.len(),
            forall|j: int| 0 <= j < i ==> !(#[trigger] ms@[j].role == r && ms@[j].required && ms@[j].installed),
        decreases ms.len() - i,
    {
        if ms[i].role == r && ms[i].required && ms[i].installed {
            return true;
        }
        i = i + 1;
    }
    false
}

fn preferred_for(ms: &Vec<Weights>, r: ModelRole) -> (o: Option<String>)
    ensures
        opt_chars(o) == preferred(ms@, r),
{
    let mut i: usize = 0;
    assert(ms@.skip(0) =~= ms@);
    while i < ms.len()
        invariant
            i <= ms@.len(),
            preferred(ms@, r) == preferred(ms@.skip(i as int), r),
        decreases ms.len() - i,
    {
        assert(ms@.skip(i as int)[0] == ms@[i as int]);
        if ms[i].role == r && ms[i].required {
            return Some(owned(ms[i].id.as_str()));
        }
        assert(ms@.skip(i as int).drop_first() =~= ms@.skip(i + 1));
        i = i + 1;
    }
    None
}

fn fix_named(ms: &Vec<Weights>, id: &str) -> (o: Option<String>)
    ensures
        opt_chars(o) == fix_for(ms@, id@),
{
    let mut i: usize = 0;
    assert(ms@.skip(0) =~= ms@);
    while i < ms.len()
        invariant
            i <= ms@.len(),
            fix_for(ms@, id@) == fix_for(ms@.skip(i as int), id@),
        decreases ms.len() - i,
    {
        assert(ms@.skip(i as int)[0] == ms@[i as int]);
        if crate::text::str_eq(ms[i].id.as_str(), id) {
            return match &ms[i].fix {
                Some(f) => Some(owned(f.as_str())),
                None => None,
            };
        }
        assert(ms@.skip(i as int).drop_first() =~= ms@.skip(i + 1));
        i = i + 1;
    }
    None
}

fn gate_status(ms: &Vec<Weights>, g: Gate) -> (s: GateStatus)
    ensures
        status_of(s, ms@, g),
{
    let (first, second) = match g {
        Gate::Search => (ModelRole::Embedding, ModelRole::Reranker),
        Gate::Transcription => (ModelRole::Transcription, ModelRole::VoiceActivity),
    };
    let ghost roles = roles_of(g);
    assert(roles.drop_last() =~= seq![first]);
    assert(roles.last() == second);
    assert(seq![first].drop_last() =~= Seq::<ModelRole>::empty());
    assert(seq![first].last() == first);
    assert(missing_from(ms@, Seq::<ModelRole>::empty()) =~= Seq::<Seq<char>>::empty());
    let mut missing: Vec<String> = Vec::new();
    if !covered(ms, first) {
        match preferred_for(ms, first) {
            Some(id) => missing.push(id),
            None => {},
        }
    }
    assert(ids(missing@) =~= missing_from(ms@, roles.drop_last()));
    if !covered(ms, second) {
        match preferred_for(ms, second) {
            Some(id) => missing.push(id),
            None => {},
        }
    }
    assert(ids(missing@) =~= missing_from(ms@, roles));
    let fix = if missing.len() == 0 {
        None
    } else {
        let mut line = String::new();
        let mut any = false;
        let mut i: usize = 0;
        while i < missing.len()
            invariant
                i <= missing@.len(),
                any == (fixes_for(ms@, ids(missing@).take(i as int)).len() > 0),
                line@ == join_with(fixes_for(ms@, ids(missing@).take(i as int)), " && "@),
            decreases missing.len() - i,
        {
            let ghost prev = fixes_for(ms@, ids(missing@).take(i as int));
            assert(ids(missing@).take(i + 1).drop_last() =~= ids(missing@).take(i as int));
            assert(ids(missing@)[i as int] == missing@[i as int]@);
            match fix_named(ms, missing[i].as_str()) {
                Some(f) => {
                    if any {
                        line.append(" && ");
                    }
                    line.append(f.as_str());
                    any = true;
                    assert(prev.push(f@).drop_last() =~= prev);
                },
                None => {},
            }
            i = i + 1;
        }
        assert(ids(missing@).take(missing@.len() as int) =~= ids(missing@));
        Some(line)
    };
    let ready = covered(ms, first) && covered(ms, second);
    assert(ready == all_filled(ms@, g)) by {
        assert(roles[0] == first && roles[1] == second && roles.len() == 2);
    }
    GateStatus { gate: g, ready, blocks: owned(g.blocks()), missing, fix }
}

/// Rolls the per-model view up into per-stage readiness, search first.
pub fn gate_statuses(ms: &Vec<Weights>) -> (gs: Vec<GateStatus>)
    ensures
        gs@.len() == 2,
        status_of(gs@[0], ms@, Gate::Search),
        status_of(gs@[1], ms@, Gate::Transcription),
{
    let mut gs: Vec<GateStatus> = Vec::new();
    gs.push(gate_status(ms, Gate::Search));
    gs.push(gate_status(ms, Gate::Transcription));
    gs
}

impl DoctorReport {
    /// The report from what the probes found: binaries in row order, a gate per stage,
    /// and `ready` the conjunction of the two readinesses rather than a judgement of its
    /// own.
    pub fn assemble(
        store_root: String,
        blob_count: u64,
        sources: Vec<String>,
        binaries: Vec<Binary>,
        models_dir: String,
        models: Vec<Weights>,
    ) -> (r: DoctorReport)
        ensures
            r.store_root == store_root,
            r.blob_count == blob_count,
            r.sources == sources,
            in_row_order(r.binaries@),
            r.binaries@.to_multiset() == binaries@.to_multiset(),
            r.models_dir == models_dir,
            r.models == models,
            r.gates@.len() == 2,
            status_of(r.gates@[0], models@, Gate::Search),
            status_of(r.gates@[1], models@, Gate::Transcription),
            r.binaries_ready == bins_ready(r.binaries@),
            r.models_ready == gates_open(r.gates@),
            r.ready == (r.binaries_ready && r.models_ready),
    {
        let binaries = sort_binaries(binaries);
        let gates = gate_statuses(&models);
        let b = binaries_ready(&binaries);
        let m = models_ready(&gates);
        DoctorReport {
            store_root,
            blob_count,
            sources,
            binaries,
            models_dir,
            models,
            gates,
            binaries_ready: b,
            models_ready: m,
            ready: b && m,
        }
    }
}

// ── versions ────────────────────────────────────────────────────────────────

/// A word that looks like a version: it starts with a digit and has a dot in it.
pub open spec fn version_like(w: Seq<char>) -> bool {
    w.len() > 0 && is_digit(w[0]) && w.contains('.')
}

/// Trailing commas dropped: `7.1.1,` reads `7.1.1`.
pub open spec fn trim_commas(w: Seq<char>) -> Seq<char>
    decreases w.len(),
{
    if w.len() > 0 && w.last() == ',' { trim_commas(w.drop_last()) } else { w }
}

pub open spec fn first_version(ws: Seq<Seq<char>>) -> Option<Seq<char>>
    decreases ws.len(),
{
    if ws.len() == 0 {
        None
    } else if version_like(ws[0]) {
        Some(ws[0])
    } else {
        first_version(ws.drop_first())
    }
}

pub open spec fn first_line_of(raw: Seq<char>) -> Seq<char> {
    if text_lines(raw).len() > 0 { text_lines(raw)[0] } else { raw }
}

/// At most `n` characters, the last of them an ellipsis when anything was cut.
pub open spec fn clipped(s: Seq<char>, n: nat) -> Seq<char> {
    if s.len() <= n { s } else { s.take(n - 1) + seq!['…'] }
}

/// `ffmpeg version 7.1.1 Copyright (c) 2000-2025 …` is a banner, not a version: the first
/// word of its first line that looks like a version, else that line clipped.
pub open spec fn short_version_of(raw: Seq<char>) -> Seq<char> {
    match first_version(words(first_line_of(raw))) {
        Some(w) => trim_commas(w),
        None => clipped(first_line_of(raw), 24),
    }
}

fn looks_like_version(w: &Vec<char>) -> (b: bool)
    ensures
        b == version_like(w@),
{
    if w.len() == 0 || !crate::text::is_ascii_digit(w[0]) {
        return false;
    }
    crate::text::has_char(w.as_slice(), '.')
}

fn without_commas(w: &Vec<char>) -> (s: String)
    ensures
        s@ == trim_commas(w@),
{
    let mut end = w.len();
    assert(w@.take(end as int) =~= w@);
    while end > 0 && w[end - 1] == ','
        invariant
            end <= w@.len(),
            trim_commas(w@) == trim_commas(w@.take(end as int)),
        decreases end,
    {
        assert(w@.take(end as int).drop_last() =~= w@.take(end - 1));
        end = end - 1;
    }
    let mut v: Vec<char> = Vec::new();
    let mut i: usize = 0;
    while i < end
        invariant
            end <= w@.len(),
            i <= end,
            v@ == w@.take(i as int),
        decreases end - i,
    {
        v.push(w[i]);
        i = i + 1;
        assert(v@ =~= w@.take(i as int));
    }
    assert(w@.take(end as int).len() == 0 || w@.take(end as int).last() != ',');
    string_of(v.as_slice())
}

fn clip(s: &Vec<char>, n: usize) -> (out: String)
    requires
        n > 0,
    ensures
        out@ == clipped(s@, n as nat),
{
    if s.len() <= n {
        return string_of(s.as_slice());
    }
    let mut v: Vec<char> = Vec::new();
    let mut i: usize = 0;
    while i < n - 1
        invariant
            n > 0,
            n < s@.len(),
            i <= n - 1,
            v@ == s@.take(i as int),
        decreases n - 1 - i,
    {
        v.push(s[i]);
        i = i + 1;
        assert(v@ =~= s@.take(i as int));
    }
    v.push('…');
    assert(v@ =~= s@.take(n - 1) + seq!['…']);
    string_of(v.as_slice())
}

pub fn short_version(raw: &str) -> (s: String)
    ensures
        s@ == short_version_of(raw@),
{
    let lines = lines_of_first(raw);
    let line = chars_of(lines.as_str());
    let ws = crate::ops::open::split_words(&line);
    let ghost wv = words(line@);
    let mut i: usize = 0;
    assert(wv.skip(0) =~= wv);
    while i < ws.len()
        invariant
            i <= ws@.len(),
            ws@.map_values(|w: Vec<char>| w@) == wv,
            line@ == first_line_of(raw@),
            wv == words(first_line_of(raw@)),
            first_version(wv) == first_version(wv.skip(i as int)),
        decreases ws.len() - i,
    {
        assert(ws@.map_values(|w: Vec<char>| w@)[i as int] == ws@[i as int]@);
        assert(wv.skip(i as int)[0] == wv[i as int]);
        if looks_like_version(&ws[i]) {
            assert(first_version(wv.skip(i as int)) == Some(wv[i as int]));
            let out = without_commas(&ws[i]);
            return out;
        }
        assert(wv.skip(i as int).drop_first() =~= wv.skip(i + 1));
        i = i + 1;
    }
    clip(&line, 24)
}

/// The first line of `raw`, or `raw` itself when it has none.
fn lines_of_first(raw: &str) -> (s: String)
    ensures
        s@ == first_line_of(raw@),
{
    let ls = crate::text::lines_of(raw);
    if ls.len() > 0 {
        assert(ls@.map_values(|l: String| l@)[0] == ls@[0]@);
        owned(ls[0].as_str())
    } else {
        owned(raw)
    }
}

// ── how it reads ────────────────────────────────────────────────────────────

pub open spec fn verdict_of(r: DoctorReport) -> Seq<char> {
    if r.ready {
        "ready"@
    } else if r.binaries_ready || r.models_ready {
        "partly ready"@
    } else {
        "not ready"@
    }
}

pub open spec fn head_text(r: DoctorReport) -> Seq<char> {
    verdict_of(r) + "  "@ + r.store_root@ + " · "@ + plural_of(r.blob_count as nat, "blob"@, "blobs"@) + " · "@
        + plural_of(r.sources@.len() as nat, "source"@, "sources"@)
}

/// Three states for an absence, because a missing binary costs three different things.
pub open spec fn bin_mark(b: Binary) -> Mark {
    if b.path is Some {
        if b.stale is Some { Mark::Warn } else { Mark::Good }
    } else {
        match b.need {
            Need::Required => Mark::Bad,
            Need::Optional => Mark::Warn,
            Need::Planned => Mark::Blank,
        }
    }
}

/// A present binary never reads "missing", and a planned one is "not needed yet".
pub open spec fn version_cell(b: Binary) -> Seq<char> {
    match b.version {
        Some(v) => short_version_of(v@),
        None => if b.path is Some {
            Seq::empty()
        } else if b.need == Need::Planned {
            "not needed yet"@
        } else {
            "missing"@
        },
    }
}

pub open spec fn bin_row(depth: nat, b: Binary) -> Seq<char> {
    marked_at(depth, bin_mark(b), b.name@ + "  "@ + version_cell(b) + "  "@ + b.purpose@)
}

pub open spec fn bin_rows(depth: nat, bs: Seq<Binary>) -> Seq<Seq<char>> {
    bs.map_values(|b: Binary| bin_row(depth, b))
}

/// Below the table rather than in it: a stale binary is present and working.
pub open spec fn stale_rows(depth: nat, bs: Seq<Binary>) -> Seq<Seq<char>>
    decreases bs.len(),
{
    if bs.len() == 0 {
        Seq::empty()
    } else {
        let rest = stale_rows(depth, bs.drop_last());
        match bs.last().stale {
            Some(s) => rest.push(marked_at(depth, Mark::Warn, bs.last().name@ + " "@ + s@)),
            None => rest,
        }
    }
}

pub open spec fn model_mark(m: Weights) -> Mark {
    if m.installed {
        Mark::Good
    } else if m.resumable {
        Mark::Warn
    } else {
        Mark::Bad
    }
}

/// A partial download shows how far it got, because re-running `pull` resumes it.
pub open spec fn size_cell(m: Weights) -> Seq<char> {
    if m.installed || !m.resumable {
        human_bytes_of(m.bytes_total as nat)
    } else {
        human_bytes_of(m.bytes_present as nat) + " / "@ + human_bytes_of(m.bytes_total as nat)
    }
}

pub open spec fn model_text(m: Weights) -> Seq<char> {
    m.id@ + "  "@ + (match m.variant {
        Some(v) => v@,
        None => Seq::empty(),
    }) + "  "@ + size_cell(m) + "  "@ + m.gates.name_spec()
}

pub open spec fn model_row(depth: nat, m: Weights) -> Seq<char> {
    marked_at(depth, model_mark(m), model_text(m))
}

pub open spec fn model_rows(depth: nat, ms: Seq<Weights>) -> Seq<Seq<char>> {
    ms.map_values(|m: Weights| model_row(depth, m))
}

pub open spec fn gate_lines(depth: nat, g: GateStatus) -> Seq<Seq<char>> {
    seq![
        marked_at(
            depth,
            if g.ready { Mark::Good } else { Mark::Warn },
            if g.ready { g.gate.name_spec() } else { pad(g.gate.name_spec(), 16) + "blocks "@ + g.blocks@ },
        ),
    ] + match g.fix {
        Some(f) => seq![at(depth + 1, "  "@ + f@)],
        None => Seq::empty(),
    }
}

pub open spec fn gates_lines(depth: nat, gs: Seq<GateStatus>) -> Seq<Seq<char>>
    decreases gs.len(),
{
    if gs.len() == 0 {
        Seq::empty()
    } else {
        gates_lines(depth, gs.drop_last()) + gate_lines(depth, gs.last())
    }
}

/// The verdict first, every row with a glyph, and the fix under the thing it fixes.
pub open spec fn report_lines(depth: nat, r: DoctorReport) -> Seq<Seq<char>> {
    let n = depth + 1;
    seq![at(depth, head_text(r)), Seq::<char>::empty(), at(depth, "binaries"@)] + bin_rows(n, r.binaries@)
        + stale_rows(n, r.binaries@) + seq![Seq::<char>::empty(), at(depth, "models"@)] + model_rows(n, r.models@)
        + seq![Seq::<char>::empty(), at(depth, "gates"@)] + gates_lines(n, r.gates@)
}

/// The verdict a doctor report leads with, for a report as `assemble` builds it: `ready`
/// exactly when every required binary is on the machine and both gates are open — each
/// role behind them filled by an installed model — `not ready` exactly when neither half
/// holds, `partly ready` otherwise. A binary nothing calls yet never costs readiness.
pub proof fn law_doctor_verdict(depth: nat, r: DoctorReport)
    requires
        r.gates@.len() == 2,
        status_of(r.gates@[0], r.models@, Gate::Search),
        status_of(r.gates@[1], r.models@, Gate::Transcription),
        r.binaries_ready == bins_ready(r.binaries@),
        r.models_ready == gates_open(r.gates@),
        r.ready == (r.binaries_ready && r.models_ready),
    ensures
        report_lines(depth, r)[0] == at(depth, head_text(r)),
        r.models_ready == (all_filled(r.models@, Gate::Search) && all_filled(r.models@, Gate::Transcription)),
        (verdict_of(r) == "ready"@) == (bins_ready(r.binaries@) && r.models_ready),
        (verdict_of(r) == "not ready"@) == (!bins_ready(r.binaries@) && !r.models_ready),
        bins_ready(r.binaries@) == forall|i: int| 0 <= i < r.binaries@.len() && #[trigger] r.binaries@[i].need
            == Need::Required ==> r.binaries@[i].path is Some,
{
    reveal_strlit("ready");
    reveal_strlit("partly ready");
    reveal_strlit("not ready");
    assert(gates_open(r.gates@) == (r.gates@[0].ready && r.gates@[1].ready)) by {
        if r.gates@[0].ready && r.gates@[1].ready {
            assert forall|i: int| 0 <= i < r.gates@.len() implies #[trigger] r.gates@[i].ready by {
                assert(i == 0 || i == 1);
            }
        }
    }
    assert("ready"@.len() != "partly ready"@.len());
    assert("ready"@.len() != "not ready"@.len());
    assert("not ready"@.len() != "partly ready"@.len());
}

impl Binary {
    fn row_text(&self) -> (s: String)
        ensures
            s@ == self.name@ + "  "@ + version_cell(*self) + "  "@ + self.purpose@,
    {
        let mut s = owned(self.name.as_str());
        s.append("  ");
        match &self.version {
            Some(v) => {
                let short = short_version(v.as_str());
                s.append(short.as_str());
            },
            None => {
                if self.path.is_some() {
                } else if self.need == Need::Planned {
                    s.append("not needed yet");
                } else {
                    s.append("missing");
                }
            },
        }
        s.append("  ");
        s.append(self.purpose.as_str());
        s
    }

    fn mark(&self) -> (m: Mark)
        ensures
            m == bin_mark(*self),
    {
        if self.path.is_some() {
            if self.stale.is_some() { Mark::Warn } else { Mark::Good }
        } else {
            match self.need {
                Need::Required => Mark::Bad,
                Need::Optional => Mark::Warn,
                Need::Planned => Mark::Blank,
            }
        }
    }
}

impl Weights {
    fn row_text(&self) -> (s: String)
        ensures
            s@ == model_text(*self),
    {
        let mut s = owned(self.id.as_str());
        s.append("  ");
        match &self.variant {
            Some(v) => s.append(v.as_str()),
            None => {},
        }
        s.append("  ");
        if self.installed || !self.resumable {
            let t = human_bytes(self.bytes_total);
            s.append(t.as_str());
        } else {
            let a = human_bytes(self.bytes_present);
            let b = human_bytes(self.bytes_total);
            s.append(a.as_str());
            s.append(" / ");
            s.append(b.as_str());
        }
        s.append("  ");
        s.append(self.gates.name());
        assert(s@ =~= model_text(*self));
        s
    }

    fn mark(&self) -> (m: Mark)
        ensures
            m == model_mark(*self),
    {
        if self.installed {
            Mark::Good
        } else if self.resumable {
            Mark::Warn
        } else {
            Mark::Bad
        }
    }
}

impl DoctorReport {
    fn render_binaries(&self, p: &mut Page)
        ensures
            final(p).text() == old(p).text() + bin_rows(old(p).depth as nat, self.binaries@) + stale_rows(
                old(p).depth as nat,
                self.binaries@,
            ),
            final(p).depth == old(p).depth,
    {
        let ghost d = old(p).depth as nat;
        let mut i: usize = 0;
        while i < self.binaries.len()
            invariant
                i <= self.binaries@.len(),
                p.depth == d,
                p.text() == old(p).text() + bin_rows(d, self.binaries@.take(i as int)),
            decreases self.binaries.len() - i,
        {
            let text = self.binaries[i].row_text();
            p.marked(self.binaries[i].mark(), text.as_str());
            i = i + 1;
            assert(bin_rows(d, self.binaries@.take(i as int)) =~= bin_rows(d, self.binaries@.take(i - 1)).push(
                bin_row(d, self.binaries@[i - 1]),
            ));
        }
        assert(self.binaries@.take(self.binaries@.len() as int) =~= self.binaries@);
        let ghost top = p.text();
        let mut i: usize = 0;
        while i < self.binaries.len()
            invariant
                i <= self.binaries@.len(),
                p.depth == d,
                p.text() == top + stale_rows(d, self.binaries@.take(i as int)),
            decreases self.binaries.len() - i,
        {
            assert(self.binaries@.take(i + 1).drop_last() =~= self.binaries@.take(i as int));
            match &self.binaries[i].stale {
                Some(s) => {
                    let mut note = owned(self.binaries[i].name.as_str());
                    note.append(" ");
                    note.append(s.as_str());
                    p.marked(Mark::Warn, note.as_str());
                },
                None => {},
            }
            i = i + 1;
            assert(p.text() =~= top + stale_rows(d, self.binaries@.take(i as int)));
        }
        assert(self.binaries@.take(self.binaries@.len() as int) =~= self.binaries@);
    }

    fn render_models(&self, p: &mut Page)
        ensures
            final(p).text() == old(p).text() + model_rows(old(p).depth as nat, self.models@),
            final(p).depth == old(p).depth,
    {
        let ghost d = old(p).depth as nat;
        let mut i: usize = 0;
        while i < self.models.len()
            invariant
                i <= self.models@.len(),
                p.depth == d,
                p.text() == old(p).text() + model_rows(d, self.models@.take(i as int)),
            decreases self.models.len() - i,
        {
            let text = self.models[i].row_text();
            p.marked(self.models[i].mark(), text.as_str());
            i = i + 1;
            assert(model_rows(d, self.models@.take(i as int)) =~= model_rows(d, self.models@.take(i - 1)).push(
                model_row(d, self.models@[i - 1]),
            ));
        }
        assert(self.models@.take(self.models@.len() as int) =~= self.models@);
    }

    fn render_gates(&self, p: &mut Page)
        requires
            old(p).depth < usize::MAX,
        ensures
            final(p).text() == old(p).text() + gates_lines(old(p).depth as nat, self.gates@),
            final(p).depth == old(p).depth,
    {
        let ghost d = old(p).depth as nat;
        let mut i: usize = 0;
        while i < self.gates.len()
            invariant
                i <= self.gates@.len(),
                p.depth == d,
                d < usize::MAX,
                p.text() == old(p).text() + gates_lines(d, self.gates@.take(i as int)),
            decreases self.gates.len() - i,
        {
            assert(self.gates@.take(i + 1).drop_last() =~= self.gates@.take(i as int));
            let g = &self.gates[i];
            if g.ready {
                p.marked(Mark::Good, g.gate.name());
            } else {
                let mut head = pad_to(g.gate.name(), 16);
                head.append("blocks ");
                head.append(g.blocks.as_str());
                p.marked(Mark::Warn, head.as_str());
            }
            match &g.fix {
                Some(f) => {
                    let mut line = owned("  ");
                    line.append(f.as_str());
                    p.enter();
                    p.line(line.as_str());
                    p.leave();
                },
                None => {},
            }
            i = i + 1;
            assert(p.text() =~= old(p).text() + gates_lines(d, self.gates@.take(i as int)));
        }
        assert(self.gates@.take(self.gates@.len() as int) =~= self.gates@);
    }

    pub fn render(&self, p: &mut Page)
        requires
            old(p).depth + 2 < usize::MAX,
        ensures
            final(p).text() == old(p).text() + report_lines(old(p).depth as nat, *self),
            final(p).depth == old(p).depth,
    {
        let mut head = owned(if self.ready {
            "ready"
        } else if self.binaries_ready || self.models_ready {
            "partly ready"
        } else {
            "not ready"
        });
        head.append("  ");
        head.append(self.store_root.as_str());
        head.append(" · ");
        let blobs = plural(self.blob_count, "blob", "blobs");
        head.append(blobs.as_str());
        head.append(" · ");
        let sources = plural(self.sources.len() as u64, "source", "sources");
        head.append(sources.as_str());
        assert(head@ =~= head_text(*self));
        p.line(head.as_str());
        p.section("binaries");
        p.enter();
        self.render_binaries(p);
        p.leave();
        p.section("models");
        p.enter();
        self.render_models(p);
        p.leave();
        p.section("gates");
        p.enter();
        self.render_gates(p);
        p.leave();
        assert(p.text() =~= old(p).text() + report_lines(old(p).depth as nat, *self));
    }
}

// ── a binary that is present and old ───────────────────────────────────────

/// The binary whose age is a predictable failure: it ships releases in emergency
/// clusters, and warns once it is this many days old.
pub const YT_DLP: &'static str = "yt-dlp";

pub const STALE_AFTER_DAYS: u64 = 90;

pub open spec fn staleness_of(name: Seq<char>, days: Option<u64>) -> Option<Seq<char>> {
    if name != YT_DLP@ {
        None
    } else {
        match days {
            Some(d) => if d > STALE_AFTER_DAYS {
                Some("released "@ + decimal(d as nat) + " days ago; yt-dlp warns past "@ + decimal(STALE_AFTER_DAYS as nat)
                    + " and breakage is expected"@)
            } else {
                None
            },
            None => None,
        }
    }
}

/// Why a present binary is likely to break, given how many days ago its version was
/// released (where that could be read off it): only `yt-dlp` ages this way.
pub fn staleness(name: &str, days: Option<u64>) -> (s: Option<String>)
    ensures
        match s {
            Some(t) => staleness_of(name@, days) == Some(t@),
            None => staleness_of(name@, days) is None,
        },
{
    if !str_eq(name, YT_DLP) {
        return None;
    }
    match days {
        Some(d) => {
            if d > STALE_AFTER_DAYS {
                let mut t = owned("released ");
                push_decimal(&mut t, d);
                t.append(" days ago; yt-dlp warns past ");
                push_decimal(&mut t, STALE_AFTER_DAYS);
                t.append(" and breakage is expected");
                Some(t)
            } else {
                None
            }
        },
        None => None,
    }
}

} // verus!
