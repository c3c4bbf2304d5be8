//! `crumbs` — the hosts this corpus points at and does not collect.
//!
//! Every pass rebuilds the list from the blobs; the operator's rulings are append-only
//! truth. Reading the blobs and the rulings is the host's; what is decided here is which
//! sources a pass reads, what standing a host has, which hosts are listed, and how the
//! three answers — a list, one host, a ruling — read.
use vstd::prelude::*;

use crate::address::{as_host, as_host_spec};
use crate::ops::run::{duration, duration_of};
use crate::page::{at, marked_at, note_text, title_text, Mark, Page};
use crate::text::{flat_all, grouped, join_with, one_line, owned, plural, plural_of, push_count, str_eq};

verus! {

/// Hosts named before the list is cut off.
pub fn default_max() -> (n: usize)
    ensures
        n == 25,
{
    25
}

pub struct CrumbsArgs {
    pub action: Option<CrumbsAction>,
    /// Limit to the crumbs one source dropped.
    pub source: Option<String>,
    /// Include the hosts an earlier `ignore` refused.
    pub all: bool,
    /// Hosts to name before the list is cut off.
    pub max: usize,
}

/// A list that silently truncates to nothing is the failure every cap here is documented
/// against, so the default cap is the one the flag has.
impl Default for CrumbsArgs {
    fn default() -> (a: Self)
        ensures
            a.action is None,
            a.source is None,
            !a.all,
            a.max == 25,
    {
        CrumbsArgs { action: None, source: None, all: false, max: default_max() }
    }
}

pub enum CrumbsAction {
    /// The pages that linked to one host.
    Show(ShowArgs),
    /// Refuse a host, so no future pass offers it.
    Ignore(RuleArgs),
    /// Take back a refusal.
    Allow(RuleArgs),
}

pub struct ShowArgs {
    /// The host, or any URL on it.
    pub host: String,
    /// Limit to one source.
    pub source: Option<String>,
}

impl Default for ShowArgs {
    fn default() -> (a: Self)
        ensures
            a.host@.len() == 0,
            a.source is None,
    {
        ShowArgs { host: String::new(), source: None }
    }
}

pub struct RuleArgs {
    /// The host, or any URL on it.
    pub host: String,
    /// Why — read back whenever the ruling is reported.
    pub note: Option<String>,
}

impl Default for RuleArgs {
    fn default() -> (a: Self)
        ensures
            a.host@.len() == 0,
            a.note is None,
    {
        RuleArgs { host: String::new(), note: None }
    }
}

/// The operator's ruling on a host.
#[derive(Clone, Copy, Debug, PartialEq, Eq, Structural)]
pub enum Ruling {
    Ignore,
    Allow,
}

impl Ruling {
    pub open spec fn word(&self) -> Seq<char> {
        match self {
            Ruling::Ignore => "ignore"@,
            Ruling::Allow => "allow"@,
        }
    }

    pub fn as_str(&self) -> (s: &'static str)
        ensures
            s@ == self.word(),
    {
        match self {
            Ruling::Ignore => "ignore",
            Ruling::Allow => "allow",
        }
    }
}

/// Where a host stands with this corpus.
#[derive(Clone, Copy, Debug, PartialEq, Eq, Structural)]
pub enum Standing {
    /// Still wants a decision.
    Open,
    /// A source of this store already collects it.
    Collected,
    /// The operator refused it.
    Ignored,
}

impl Standing {
    pub fn is_open(&self) -> (b: bool)
        ensures
            b == (*self == Standing::Open),
    {
        match self {
            Standing::Open => true,
            _ => false,
        }
    }

    pub open spec fn label_spec(&self) -> Seq<char> {
        match self {
            Standing::Open => "open"@,
            Standing::Collected => "collected"@,
            Standing::Ignored => "refused"@,
        }
    }

    pub fn label(&self) -> (s: &'static str)
        ensures
            s@ == self.label_spec(),
    {
        match self {
            Standing::Open => "open",
            Standing::Collected => "collected",
            Standing::Ignored => "refused",
        }
    }

    pub open spec fn mark_spec(&self) -> Mark {
        match self {
            Standing::Open => Mark::Blank,
            Standing::Collected => Mark::Good,
            Standing::Ignored => Mark::Bad,
        }
    }

    pub fn mark(&self) -> (m: Mark)
        ensures
            m == self.mark_spec(),
    {
        match self {
            Standing::Open => Mark::Blank,
            Standing::Collected => Mark::Good,
            Standing::Ignored => Mark::Bad,
        }
    }
}

/// One off-host host, and how much of the corpus points at it.
pub struct Crumb {
    pub host: String,
    pub links: usize,
    pub pages: usize,
    /// One address on the host, to look at.
    pub example: String,
    pub standing: Standing,
}

/// A page a link was read out of.
pub struct Carrier {
    pub address: String,
    pub at: Option<String>,
    /// The openable handle for the page.
    pub blob: Option<String>,
}

/// The operator's latest ruling on one host.
pub struct Decision {
    pub host: String,
    pub ruling: Ruling,
    pub at: String,
    pub note: Option<String>,
}

pub open spec fn names(v: Seq<String>) -> Seq<Seq<char>> {
    v.map_values(|s: String| s@)
}

/// The first ruling on `host` in the current set, which holds one per host.
pub open spec fn ruling_for(ds: Seq<Decision>, host: Seq<char>) -> Option<Ruling>
    decreases ds.len(),
{
    if ds.len() == 0 {
        None
    } else if ds[0].host@ == host {
        Some(ds[0].ruling)
    } else {
        ruling_for(ds.drop_first(), host)
    }
}

/// Already collected beats already refused: a host that became a source is answered by
/// the corpus, and an old `ignore` on it is stale rather than binding.
pub open spec fn standing_of_spec(collected: Seq<Seq<char>>, ds: Seq<Decision>, host: Seq<char>) -> Standing {
    if collected.contains(host) {
        Standing::Collected
    } else if ruling_for(ds, host) == Some(Ruling::Ignore) {
        Standing::Ignored
    } else {
        Standing::Open
    }
}

proof fn lemma_ruling_is_the_first(ds: Seq<Decision>, host: Seq<char>, i: int)
    requires
        0 <= i < ds.len(),
        ds[i].host@ == host,
        forall|j: int| 0 <= j < i ==> #[trigger] ds[j].host@ != host,
    ensures
        ruling_for(ds, host) == Some(ds[i].ruling),
    decreases i,
{
    if i > 0 {
        assert forall|j: int| 0 <= j < i - 1 implies #[trigger] ds.drop_first()[j].host@ != host by {
            assert(ds.drop_first()[j] == ds[j + 1]);
        }
        lemma_ruling_is_the_first(ds.drop_first(), host, i - 1);
    }
}

proof fn lemma_no_ruling(ds: Seq<Decision>, host: Seq<char>)
    requires
        forall|j: int| 0 <= j < ds.len() ==> #[trigger] ds[j].host@ != host,
    ensures
        ruling_for(ds, host) is None,
    decreases ds.len(),
{
    if ds.len() > 0 {
        assert forall|j: int| 0 <= j < ds.len() - 1 implies #[trigger] ds.drop_first()[j].host@ != host by {
            assert(ds.drop_first()[j] == ds[j + 1]);
        }
        lemma_no_ruling(ds.drop_first(), host);
    }
}

/// Where a host stands follows the operator's word on it. A host a source collects is
/// collected whatever was ruled. Otherwise the ruling that names it decides: `ignore`
/// hides it, and `allow` — which reverses an earlier refusal — lists it again, as does a
/// host nobody has ruled on.
pub proof fn law_only_a_refusal_hides_a_host(collected: Seq<Seq<char>>, ds: Seq<Decision>, host: Seq<char>)
    ensures
        collected.contains(host) ==> standing_of_spec(collected, ds, host) == Standing::Collected,
        !collected.contains(host) && (forall|j: int| 0 <= j < ds.len() ==> #[trigger] ds[j].host@ != host)
            ==> standing_of_spec(collected, ds, host) == Standing::Open,
        forall|i: int|
            #![trigger ds[i]]
            0 <= i < ds.len() && ds[i].host@ == host && !collected.contains(host) && (forall|j: int|
                0 <= j < i ==> #[trigger] ds[j].host@ != host) ==> standing_of_spec(collected, ds, host) == (if ds[i].ruling
                == Ruling::Ignore {
                Standing::Ignored
            } else {
                Standing::Open
            }),
{
    if forall|j: int| 0 <= j < ds.len() ==> #[trigger] ds[j].host@ != host {
        lemma_no_ruling(ds, host);
    }
    assert forall|i: int|
        #![trigger ds[i]]
        0 <= i < ds.len() && ds[i].host@ == host && !collected.contains(host) && (forall|j: int|
            0 <= j < i ==> #[trigger] ds[j].host@ != host) implies standing_of_spec(collected, ds, host) == (if ds[i].ruling
        == Ruling::Ignore {
        Standing::Ignored
    } else {
        Standing::Open
    }) by {
        lemma_ruling_is_the_first(ds, host, i);
    }
}

/// What one pass knows besides the links: the hosts already collected and the rulings.
pub struct Field {
    pub collected: Vec<String>,
    pub decisions: Vec<Decision>,
}

fn holds_name(v: &Vec<String>, name: &str) -> (b: bool)
    ensures
        b == names(v@).contains(name@),
{
    let mut i: usize = 0;
    while i < v.len()
        invariant
            i <= v@.len(),
            forall|j: int| 0 <= j < i ==> v@[j]@ != name@,
        decreases v.len() - i,
    {
        if str_eq(v[i].as_str(), name) {
            assert(names(v@)[i as int] == name@);
            return true;
        }
        i = i + 1;
    }
    proof {
        if names(v@).contains(name@) {
            let j = choose|j: int| 0 <= j < names(v@).len() && names(v@)[j] == name@;
            assert(v@[j]@ == name@);
        }
    }
    false
}

fn ruling_of(ds: &Vec<Decision>, host: &str) -> (r: Option<Ruling>)
    ensures
        r == ruling_for(ds@, host@),
{
    let mut i: usize = 0;
    assert(ds@.skip(0) =~= ds@);
    while i < ds.len()
        invariant
            i <= ds@.len(),
            ruling_for(ds@, host@) == ruling_for(ds@.skip(i as int), host@),
        decreases ds.len() - i,
    {
        assert(ds@.skip(i as int)[0] == ds@[i as int]);
        if str_eq(ds[i].host.as_str(), host) {
            return Some(ds[i].ruling);
        }
        assert(ds@.skip(i as int).drop_first() =~= ds@.skip(i + 1));
        i = i + 1;
    }
    None
}

impl Field {
    pub fn standing_of(&self, host: &str) -> (s: Standing)
        ensures
            s == standing_of_spec(names(self.collected@), self.decisions@, host@),
    {
        if holds_name(&self.collected, host) {
            return Standing::Collected;
        }
        match ruling_of(&self.decisions, host) {
            Some(Ruling::Ignore) => Standing::Ignored,
            _ => Standing::Open,
        }
    }
}

/// The crumbs of a pass, each given its standing, in order.
pub open spec fn standings(cs: Seq<Crumb>, collected: Seq<Seq<char>>, ds: Seq<Decision>) -> Seq<Standing> {
    cs.map_values(|c: Crumb| standing_of_spec(collected, ds, c.host@))
}

/// The indices of the crumbs listed: all of them with `--all`, else those not refused.
pub open spec fn kept(ss: Seq<Standing>, all: bool) -> Seq<int>
    decreases ss.len(),
{
    if ss.len() == 0 {
        Seq::empty()
    } else if all || ss.last() != Standing::Ignored {
        kept(ss.drop_last(), all).push(ss.len() - 1)
    } else {
        kept(ss.drop_last(), all)
    }
}

/// Without `--all` nothing the list keeps is a host the operator refused, and nothing
/// else is left out; with it every crumb is kept. (`settle` gives each listed crumb the
/// standing of the one it was kept from.)
pub proof fn law_refused_hosts_stay_hidden(ss: Seq<Standing>)
    ensures
        forall|j: int| 0 <= j < kept(ss, false).len() ==> ss[#[trigger] kept(ss, false)[j]] != Standing::Ignored,
        forall|i: int| 0 <= i < ss.len() && ss[i] != Standing::Ignored ==> #[trigger] kept(ss, false).contains(i),
        kept(ss, true).len() == ss.len(),
    decreases ss.len(),
{
    if ss.len() > 0 {
        let rest = ss.drop_last();
        law_refused_hosts_stay_hidden(rest);
        lemma_kept_bounded(rest, false);
        assert forall|j: int| 0 <= j < kept(ss, false).len() implies ss[#[trigger] kept(ss, false)[j]]
            != Standing::Ignored by {
            if j < kept(rest, false).len() {
                assert(kept(ss, false)[j] == kept(rest, false)[j]);
                assert(ss[kept(rest, false)[j]] == rest[kept(rest, false)[j]]);
            }
        }
        assert forall|i: int| 0 <= i < ss.len() && ss[i] != Standing::Ignored implies #[trigger] kept(
            ss,
            false,
        ).contains(i) by {
            if i < ss.len() - 1 {
                assert(rest[i] == ss[i]);
                assert(kept(rest, false).contains(i));
                let w = choose|w: int| 0 <= w < kept(rest, false).len() && kept(rest, false)[w] == i;
                assert(kept(ss, false)[w] == kept(rest, false)[w]);
                assert(kept(ss, false)[w] == i);
            } else {
                assert(kept(ss, false).last() == i);
            }
        }
    }
}

/// The list a pass reports, and what it left out.
pub struct Listing {
    pub crumbs: Vec<Crumb>,
    /// Refused hosts left out; `--all` shows them.
    pub hidden: usize,
    /// Hosts past `--max`.
    pub truncated: usize,
}

proof fn lemma_kept_bounded(ss: Seq<Standing>, all: bool)
    ensures
        kept(ss, all).len() <= ss.len(),
        forall|j: int| 0 <= j < kept(ss, all).len() ==> 0 <= #[trigger] kept(ss, all)[j] < ss.len(),
    decreases ss.len(),
{
    if ss.len() > 0 {
        lemma_kept_bounded(ss.drop_last(), all);
    }
}

/// Each crumb gets its standing; refused ones are counted and, without `--all`, left out;
/// then the list is cut at `max`, counting what was cut. Counted before they are dropped,
/// so a list of two reads as "two, and forty you have already refused".
pub fn settle(crumbs: Vec<Crumb>, field: &Field, all: bool, max: usize) -> (l: Listing)
    ensures
        ({
            let ss = standings(crumbs@, names(field.collected@), field.decisions@);
            let ks = kept(ss, all);
            let shown = if ks.len() < max { ks.len() } else { max as nat };
            &&& l.hidden == crumbs@.len() - ks.len()
            &&& l.truncated == ks.len() - shown
            &&& l.crumbs@.len() == shown
            &&& forall|j: int| 0 <= j < shown ==> {
                let c = #[trigger] l.crumbs@[j];
                let o = crumbs@[ks[j]];
                c.host == o.host && c.links == o.links && c.pages == o.pages && c.example == o.example
                    && c.standing == ss[ks[j]]
            }
        }),
{
    let ghost ss = standings(crumbs@, names(field.collected@), field.decisions@);
    let ghost original = crumbs@;
    let n = crumbs.len();
    let mut source = crumbs;
    let mut rest: Vec<Crumb> = Vec::new();
    while source.len() > 0
        invariant
            n == original.len(),
            source@.len() + rest@.len() == n,
            forall|j: int| 0 <= j < source@.len() ==> #[trigger] source@[j] == original[j],
            forall|j: int| 0 <= j < rest@.len() ==> #[trigger] rest@[j] == original[n - 1 - j],
        decreases source.len(),
    {
        let ghost sb = source@;
        let c = source.pop().unwrap();
        assert(source@ =~= sb.drop_last());
        rest.push(c);
    }
    let mut taken: Vec<Crumb> = Vec::new();
    let mut i: usize = 0;
    proof {
        lemma_kept_bounded(ss, all);
    }
    while i < n
        invariant
            n == original.len(),
            ss == standings(original, names(field.collected@), field.decisions@),
            i <= n,
            rest@.len() == n - i,
            forall|j: int| 0 <= j < rest@.len() ==> #[trigger] rest@[j] == original[n - 1 - j],
            taken@.len() == kept(ss.take(i as int), all).len(),
            forall|j: int| 0 <= j < taken@.len() ==> {
                let c = #[trigger] taken@[j];
                let o = original[kept(ss.take(i as int), all)[j]];
                c.host == o.host && c.links == o.links && c.pages == o.pages && c.example == o.example
                    && c.standing == ss[kept(ss.take(i as int), all)[j]]
            },
        decreases n - i,
    {
        assert(ss.take(i + 1).drop_last() =~= ss.take(i as int));
        let ghost before = taken@;
        let ghost kb = kept(ss.take(i as int), all);
        assert(original[i as int] == rest@[n - 1 - i]);
        let ghost rb = rest@;
        let c = rest.pop().unwrap();
        assert(rest@ =~= rb.drop_last());
        let standing = field.standing_of(c.host.as_str());
        assert(ss[i as int] == standing);
        proof {
            lemma_kept_prefix(ss, all, i as int);
        }
        if all || standing != Standing::Ignored {
            taken.push(Crumb { host: c.host, links: c.links, pages: c.pages, example: c.example, standing });
        }
        i = i + 1;
    }
    assert(ss.take(n as int) =~= ss);
    let kept_len = taken.len();
    let hidden = n - kept_len;
    let shown = if kept_len < max { kept_len } else { max };
    taken.truncate(shown);
    Listing { crumbs: taken, hidden, truncated: kept_len - shown }
}

proof fn lemma_kept_prefix(ss: Seq<Standing>, all: bool, i: int)
    requires
        0 <= i < ss.len(),
    ensures
        kept(ss.take(i + 1), all) == (if all || ss[i] != Standing::Ignored {
            kept(ss.take(i), all).push(i)
        } else {
            kept(ss.take(i), all)
        }),
{
    assert(ss.take(i + 1).drop_last() =~= ss.take(i));
    assert(ss.take(i + 1).last() == ss[i]);
}

/// A host, from a host or from any URL on one; anything that is neither is refused rather
/// than stored as a "host" no crumb will ever equal.
pub fn host_arg(input: &str) -> (r: Result<String, String>)
    ensures
        match r {
            Ok(h) => as_host_spec(input@) == Some(h@),
            Err(m) => as_host_spec(input@) is None && m@ == "`"@ + input@ + "` is not a host, or a http(s) URL on one"@,
        },
{
    match as_host(input) {
        Some(h) => Ok(h),
        None => {
            let mut m = owned("`");
            m.append(input);
            m.append("` is not a host, or a http(s) URL on one");
            Err(m)
        },
    }
}

// ── which sources ───────────────────────────────────────────────────────────

/// The sources a pass reads: every one the store holds, or the one asked for — which must
/// be one it holds, since a typo that answers "no crumbs" is a wrong answer.
pub open spec fn selection_of(known: Seq<Seq<char>>, asked: Option<Seq<char>>) -> Result<Seq<Seq<char>>, Seq<char>> {
    match asked {
        None => Ok(known),
        Some(id) => if known.contains(id) {
            Ok(seq![id])
        } else {
            Err(
                "no source `"@ + id + "` in this store — it holds "@ + (if known.len() == 0 {
                    "none"@
                } else {
                    join_with(known, ", "@)
                }),
            )
        },
    }
}

pub fn select_sources(known: &Vec<String>, asked: Option<&str>) -> (r: Result<Vec<String>, String>)
    ensures
        match (r, selection_of(names(known@), match asked {
            Some(a) => Some(a@),
            None => None,
        })) {
            (Ok(v), Ok(w)) => names(v@) == w,
            (Err(e), Err(f)) => e@ == f,
            _ => false,
        },
{
    match asked {
        None => {
            let mut v: Vec<String> = Vec::new();
            let mut i: usize = 0;
            while i < known.len()
                invariant
                    i <= known@.len(),
                    names(v@) == names(known@).take(i as int),
                decreases known.len() - i,
            {
                assert(names(known@)[i as int] == known@[i as int]@);
                let ghost before = names(v@);
                v.push(owned(known[i].as_str()));
                assert(names(v@) =~= before.push(known@[i as int]@));
                assert(names(known@).take(i + 1) =~= names(known@).take(i as int).push(names(known@)[i as int]));
                i = i + 1;
            }
            assert(names(known@).take(known@.len() as int) =~= names(known@));
            Ok(v)
        },
        Some(id) => {
            if holds_name(known, id) {
                let mut v: Vec<String> = Vec::new();
                v.push(owned(id));
                assert(names(v@) =~= seq![id@]);
                return Ok(v);
            }
            let mut m = owned("no source `");
            m.append(id);
            m.append("` in this store — it holds ");
            if known.len() == 0 {
                m.append("none");
            } else {
                let mut i: usize = 0;
                let ghost head = m@;
                while i < known.len()
                    invariant
                        i <= known@.len(),
                        known@.len() > 0,
                        m@ == head + join_with(names(known@).take(i as int), ", "@),
                    decreases known.len() - i,
                {
                    assert(names(known@).take(i + 1).drop_last() =~= names(known@).take(i as int));
                    assert(names(known@)[i as int] == known@[i as int]@);
                    if i > 0 {
                        m.append(", ");
                    }
                    m.append(known[i].as_str());
                    i = i + 1;
                    assert(m@ =~= head + join_with(names(known@).take(i as int), ", "@));
                }
                assert(names(known@).take(known@.len() as int) =~= names(known@));
            }
            Err(m)
        },
    }
}

// ── the report ──────────────────────────────────────────────────────────────

pub enum CrumbsReport {
    List {
        /// The sources whose pages were read.
        sources: Vec<String>,
        /// HTML pages scanned: the denominator for every count.
        pages: usize,
        crumbs: Vec<Crumb>,
        /// Hosts an earlier `ignore` kept out of the list.
        hidden: usize,
        /// Hosts past `--max`.
        truncated: usize,
        /// Blobs that could not be read, so their links are missing from these counts.
        unread: usize,
        elapsed_millis: u64,
    },
    Show {
        host: String,
        links: usize,
        pages: usize,
        standing: Standing,
        /// Why the operator refused it, when they said.
        note: Option<String>,
        /// The pages that carried it, capped.
        carried_by: Vec<Carrier>,
        /// Carrying pages past the cap.
        dropped: usize,
        /// One address on the host, to look at.
        example: Option<String>,
        elapsed_millis: u64,
    },
    Ruled {
        host: String,
        ruling: Ruling,
        at: String,
        note: Option<String>,
        /// The ruling this one replaced, if any.
        previous: Option<String>,
    },
}

/// How a replaced ruling is named: `ignore on 2026-08-01T00:00:00Z`.
pub fn previous_text(d: &Decision) -> (s: String)
    ensures
        s@ == d.ruling.word() + " on "@ + d.at@,
{
    let mut s = owned(d.ruling.as_str());
    s.append(" on ");
    s.append(d.at.as_str());
    s
}

pub open spec fn crumb_row(depth: nat, c: Crumb) -> Seq<char> {
    marked_at(
        depth,
        c.standing.mark_spec(),
        c.host@ + "  "@ + grouped(c.links as nat) + "  "@ + grouped(c.pages as nat) + "  "@ + c.standing.label_spec(),
    )
}

pub open spec fn crumb_rows(depth: nat, cs: Seq<Crumb>) -> Seq<Seq<char>> {
    cs.map_values(|c: Crumb| crumb_row(depth, c))
}

pub open spec fn first_open(cs: Seq<Crumb>) -> Option<Seq<char>>
    decreases cs.len(),
{
    if cs.len() == 0 {
        None
    } else if cs[0].standing == Standing::Open {
        Some(cs[0].example@)
    } else {
        first_open(cs.drop_first())
    }
}

pub open spec fn empty_text(pages: nat, hidden: nat) -> Seq<char> {
    if pages == 0 {
        "no pages collected yet, so nothing has dropped a crumb. Run `centinel run` first."@
    } else if hidden == 0 {
        "nothing in this corpus links off its own host."@
    } else {
        "every host this corpus links to has been refused."@
    }
}

pub open spec fn promote_advice() -> Seq<char> {
    "each crumb you promote becomes a Source that walks its own host and drops its own crumbs; each one you refuse is what stops the walk. Neither happens on its own."@
}

pub open spec fn list_lines(
    depth: nat,
    sources: nat,
    pages: nat,
    crumbs: Seq<Crumb>,
    hidden: nat,
    truncated: nat,
    unread: nat,
    elapsed: nat,
) -> Seq<Seq<char>> {
    let d = depth + 1;
    seq![
        at(
            depth,
            title_text(
                "crumbs"@,
                plural_of(pages, "page"@, "pages"@) + " in "@ + plural_of(sources, "source"@, "sources"@) + " · "@
                    + duration_of(elapsed),
            ),
        ),
    ] + (if crumbs.len() == 0 {
        seq![at(d, empty_text(pages, hidden))]
    } else {
        crumb_rows(d, crumbs)
    }) + (if hidden > 0 {
        seq![at(d, note_text(grouped(hidden) + " refused earlier, hidden — `--all` lists them"@))]
    } else {
        Seq::empty()
    }) + (if truncated > 0 {
        seq![at(d, note_text("… and "@ + grouped(truncated) + " more, raise --max to see them"@))]
    } else {
        Seq::empty()
    }) + (if unread > 0 {
        seq![marked_at(d, Mark::Warn, plural_of(unread, "blob"@, "blobs"@) + " could not be read, so these counts are a floor"@)]
    } else {
        Seq::empty()
    }) + match first_open(crumbs) {
        Some(e) => seq![Seq::<char>::empty(), at(depth, "centinel investigate "@ + e), at(d, promote_advice())],
        None => Seq::empty(),
    }
}

/// When the page was read, and its blob: the handle `centinel open` takes back.
pub open spec fn carrier_aside(c: Carrier) -> Seq<char> {
    match (c.at, c.blob) {
        (Some(a), Some(b)) => a@ + " · "@ + b@,
        (Some(a), None) => a@,
        (None, Some(b)) => b@,
        (None, None) => Seq::empty(),
    }
}

pub open spec fn carrier_lines(depth: nat, c: Carrier) -> Seq<Seq<char>> {
    let aside = carrier_aside(c);
    seq![at(depth, c.address@)] + (if aside.len() > 0 { seq![at(depth + 1, aside)] } else { Seq::empty() })
}

pub open spec fn carriers_lines(depth: nat, cs: Seq<Carrier>) -> Seq<Seq<char>>
    decreases cs.len(),
{
    if cs.len() == 0 {
        Seq::empty()
    } else {
        carriers_lines(depth, cs.drop_last()) + carrier_lines(depth, cs.last())
    }
}

pub open spec fn show_standing(depth: nat, standing: Standing, note: Option<String>) -> Seq<Seq<char>> {
    if standing != Standing::Open {
        seq![
            marked_at(
                depth,
                standing.mark_spec(),
                standing.label_spec() + match note {
                    Some(w) => " · "@ + flat_all(w@),
                    None => Seq::empty(),
                },
            ),
        ]
    } else {
        Seq::empty()
    }
}

pub open spec fn show_body(depth: nat, links: nat, carried_by: Seq<Carrier>, dropped: nat) -> Seq<Seq<char>> {
    if links == 0 {
        seq![at(depth, "no page in this corpus links there. Check the spelling, or the source it was dropped by."@)]
    } else {
        seq![Seq::<char>::empty(), at(depth, "carried by"@)] + carriers_lines(depth + 1, carried_by) + (if dropped > 0 {
            seq![at(depth + 1, "… and "@ + plural_of(dropped, "page"@, "pages"@) + " more"@)]
        } else {
            Seq::empty()
        })
    }
}

pub open spec fn show_tail(depth: nat, standing: Standing, example: Option<String>) -> Seq<Seq<char>> {
    match example {
        Some(e) => if standing == Standing::Open {
            seq![Seq::<char>::empty(), at(depth, "centinel investigate "@ + e@)]
        } else {
            Seq::empty()
        },
        None => Seq::empty(),
    }
}

pub open spec fn show_counts(links: nat, pages: nat, elapsed: nat) -> Seq<char> {
    if links == 0 {
        duration_of(elapsed)
    } else {
        plural_of(links, "link"@, "links"@) + " · "@ + plural_of(pages, "page"@, "pages"@) + " · "@ + duration_of(elapsed)
    }
}

pub open spec fn show_lines(
    depth: nat,
    host: Seq<char>,
    links: nat,
    pages: nat,
    standing: Standing,
    note: Option<String>,
    carried_by: Seq<Carrier>,
    dropped: nat,
    example: Option<String>,
    elapsed: nat,
) -> Seq<Seq<char>> {
    seq![at(depth, title_text(host, show_counts(links, pages, elapsed)))] + show_standing(depth + 1, standing, note)
        + show_body(depth + 1, links, carried_by, dropped) + show_tail(depth, standing, example)
}

pub open spec fn ruled_lines(depth: nat, host: Seq<char>, ruling: Ruling, when: Seq<char>, note: Option<String>, previous: Option<String>) -> Seq<Seq<char>> {
    let d = depth + 1;
    seq![marked_at(depth, Mark::Good, (if ruling == Ruling::Ignore { "refused"@ } else { "allowed"@ }) + " "@ + host)]
        + match note {
        Some(w) => seq![at(d, flat_all(w@))],
        None => Seq::empty(),
    } + match previous {
        Some(p) => seq![at(d, "replaces "@ + p@)],
        None => Seq::empty(),
    } + seq![
        at(
            d,
            if ruling == Ruling::Ignore {
                "recorded at "@ + when + " · `centinel crumbs allow "@ + host + "` takes it back"@
            } else {
                "recorded at "@ + when + " · it will be offered again"@
            },
        ),
    ]
}

pub open spec fn report_lines(depth: nat, r: CrumbsReport) -> Seq<Seq<char>> {
    match r {
        CrumbsReport::List { sources, pages, crumbs, hidden, truncated, unread, elapsed_millis } => list_lines(
            depth,
            sources@.len(),
            pages as nat,
            crumbs@,
            hidden as nat,
            truncated as nat,
            unread as nat,
            elapsed_millis as nat,
        ),
        CrumbsReport::Show { host, links, pages, standing, note, carried_by, dropped, example, elapsed_millis } => show_lines(
            depth,
            host@,
            links as nat,
            pages as nat,
            standing,
            note,
            carried_by@,
            dropped as nat,
            example,
            elapsed_millis as nat,
        ),
        CrumbsReport::Ruled { host, ruling, at, note, previous } => ruled_lines(depth, host@, ruling, at@, note, previous),
    }
}

fn render_rows(p: &mut Page, cs: &Vec<Crumb>)
    ensures
        final(p).text() == old(p).text() + crumb_rows(old(p).depth as nat, cs@),
        final(p).depth == old(p).depth,
{
    let ghost d = old(p).depth as nat;
    let mut i: usize = 0;
    while i < cs.len()
        invariant
            i <= cs@.len(),
            p.depth == d,
            p.text() == old(p).text() + crumb_rows(d, cs@.take(i as int)),
        decreases cs.len() - i,
    {
        let c = &cs[i];
        let mut t = owned(c.host.as_str());
        t.append("  ");
        push_count(&mut t, c.links as u64);
        t.append("  ");
        push_count(&mut t, c.pages as u64);
        t.append("  ");
        t.append(c.standing.label());
        p.marked(c.standing.mark(), t.as_str());
        i = i + 1;
        assert(crumb_rows(d, cs@.take(i as int)) =~= crumb_rows(d, cs@.take(i - 1)).push(crumb_row(d, cs@[i - 1])));
    }
    assert(cs@.take(cs@.len() as int) =~= cs@);
}

fn open_example(cs: &Vec<Crumb>) -> (o: Option<String>)
    ensures
        match o {
            Some(e) => first_open(cs@) == Some(e@),
            None => first_open(cs@) is None,
        },
{
    let mut i: usize = 0;
    assert(cs@.skip(0) =~= cs@);
    while i < cs.len()
        invariant
            i <= cs@.len(),
            first_open(cs@) == first_open(cs@.skip(i as int)),
        decreases cs.len() - i,
    {
        assert(cs@.skip(i as int)[0] == cs@[i as int]);
        if cs[i].standing.is_open() {
            return Some(owned(cs[i].example.as_str()));
        }
        assert(cs@.skip(i as int).drop_first() =~= cs@.skip(i + 1));
        i = i + 1;
    }
    None
}

fn render_carriers(p: &mut Page, cs: &Vec<Carrier>)
    requires
        old(p).depth < usize::MAX,
    ensures
        final(p).text() == old(p).text() + carriers_lines(old(p).depth as nat, cs@),
        final(p).depth == old(p).depth,
{
    let ghost d = old(p).depth as nat;
    let mut i: usize = 0;
    while i < cs.len()
        invariant
            i <= cs@.len(),
            p.depth == d,
            d < usize::MAX,
            p.text() == old(p).text() + carriers_lines(d, cs@.take(i as int)),
        decreases cs.len() - i,
    {
        assert(cs@.take(i + 1).drop_last() =~= cs@.take(i as int));
        let c = &cs[i];
        p.line(c.address.as_str());
        let mut aside = String::new();
        match &c.at {
            Some(a) => aside.append(a.as_str()),
            None => {},
        }
        match &c.blob {
            Some(b) => {
                if c.at.is_some() {
                    aside.append(" · ");
                }
                aside.append(b.as_str());
            },
            None => {},
        }
        assert(aside@ =~= carrier_aside(*c));
        if aside.as_str().is_empty() == false {
            p.enter();
            p.line(aside.as_str());
            p.leave();
        }
        i = i + 1;
        assert(p.text() =~= old(p).text() + carriers_lines(d, cs@.take(i as int)));
    }
    assert(cs@.take(cs@.len() as int) =~= cs@);
}

impl CrumbsReport {
    fn render_list(
        p: &mut Page,
        sources: &Vec<String>,
        pages: usize,
        crumbs: &Vec<Crumb>,
        hidden: usize,
        truncated: usize,
        unread: usize,
        elapsed_millis: u64,
    )
        requires
            old(p).depth + 1 < usize::MAX,
        ensures
            final(p).text() == old(p).text() + list_lines(
                old(p).depth as nat,
                sources@.len(),
                pages as nat,
                crumbs@,
                hidden as nat,
                truncated as nat,
                unread as nat,
                elapsed_millis as nat,
            ),
            final(p).depth == old(p).depth,
    {
        let ghost d = old(p).depth as nat;
        let mut aside = plural(pages as u64, "page", "pages");
        aside.append(" in ");
        let srcs = plural(sources.len() as u64, "source", "sources");
        aside.append(srcs.as_str());
        aside.append(" · ");
        let time = duration(elapsed_millis);
        aside.append(time.as_str());
        p.title("crumbs", aside.as_str());
        p.enter();
        if crumbs.len() == 0 {
            p.line(if pages == 0 {
                "no pages collected yet, so nothing has dropped a crumb. Run `centinel run` first."
            } else if hidden == 0 {
                "nothing in this corpus links off its own host."
            } else {
                "every host this corpus links to has been refused."
            });
        } else {
            render_rows(p, crumbs);
        }
        if hidden > 0 {
            let mut t = String::new();
            push_count(&mut t, hidden as u64);
            t.append(" refused earlier, hidden — `--all` lists them");
            p.note(t.as_str());
        }
        if truncated > 0 {
            let mut t = owned("… and ");
            push_count(&mut t, truncated as u64);
            t.append(" more, raise --max to see them");
            p.note(t.as_str());
        }
        if unread > 0 {
            let mut t = plural(unread as u64, "blob", "blobs");
            t.append(" could not be read, so these counts are a floor");
            p.marked(Mark::Warn, t.as_str());
        }
        p.leave();
        match open_example(crumbs) {
            Some(e) => {
                p.blank();
                let mut cmd = owned("centinel investigate ");
                cmd.append(e.as_str());
                p.line(cmd.as_str());
                p.enter();
                p.line(
                    "each crumb you promote becomes a Source that walks its own host and drops its own crumbs; each one you refuse is what stops the walk. Neither happens on its own.",
                );
                p.leave();
            },
            None => {},
        }
        assert(p.text() =~= old(p).text() + list_lines(
            d,
            sources@.len(),
            pages as nat,
            crumbs@,
            hidden as nat,
            truncated as nat,
            unread as nat,
            elapsed_millis as nat,
        ));
    }

    fn render_standing(p: &mut Page, standing: Standing, note: &Option<String>)
        ensures
            final(p).text() == old(p).text() + show_standing(old(p).depth as nat, standing, *note),
            final(p).depth == old(p).depth,
    {
        if !standing.is_open() {
            let mut line = owned(standing.label());
            match note {
                Some(why) => {
                    line.append(" · ");
                    let flat = one_line(why.as_str());
                    line.append(flat.as_str());
                },
                None => {},
            }
            assert(line@ =~= standing.label_spec() + match *note {
                Some(w) => " · "@ + flat_all(w@),
                None => Seq::<char>::empty(),
            });
            p.marked(standing.mark(), line.as_str());
        }
        assert(p.text() =~= old(p).text() + show_standing(old(p).depth as nat, standing, *note));
    }

    fn render_body(p: &mut Page, links: usize, carried_by: &Vec<Carrier>, dropped: usize)
        requires
            old(p).depth + 1 < usize::MAX,
        ensures
            final(p).text() == old(p).text() + show_body(old(p).depth as nat, links as nat, carried_by@, dropped as nat),
            final(p).depth == old(p).depth,
    {
        if links == 0 {
            p.line("no page in this corpus links there. Check the spelling, or the source it was dropped by.");
        } else {
            p.section("carried by");
            p.enter();
            render_carriers(p, carried_by);
            if dropped > 0 {
                let mut t = owned("… and ");
                let pg = plural(dropped as u64, "page", "pages");
                t.append(pg.as_str());
                t.append(" more");
                p.line(t.as_str());
            }
            p.leave();
        }
        assert(p.text() =~= old(p).text() + show_body(old(p).depth as nat, links as nat, carried_by@, dropped as nat));
    }

    fn render_tail(p: &mut Page, standing: Standing, example: &Option<String>)
        ensures
            final(p).text() == old(p).text() + show_tail(old(p).depth as nat, standing, *example),
            final(p).depth == old(p).depth,
    {
        match example {
            Some(e) => {
                if standing.is_open() {
                    p.blank();
                    let mut cmd = owned("centinel investigate ");
                    cmd.append(e.as_str());
                    p.line(cmd.as_str());
                }
            },
            None => {},
        }
        assert(p.text() =~= old(p).text() + show_tail(old(p).depth as nat, standing, *example));
    }

    fn render_show(
        p: &mut Page,
        host: &String,
        links: usize,
        pages: usize,
        standing: Standing,
        note: &Option<String>,
        carried_by: &Vec<Carrier>,
        dropped: usize,
        example: &Option<String>,
        elapsed_millis: u64,
    )
        requires
            old(p).depth + 2 < usize::MAX,
        ensures
            final(p).text() == old(p).text() + show_lines(
                old(p).depth as nat,
                host@,
                links as nat,
                pages as nat,
                standing,
                *note,
                carried_by@,
                dropped as nat,
                *example,
                elapsed_millis as nat,
            ),
            final(p).depth == old(p).depth,
    {
        let ghost d = old(p).depth as nat;
        let time = duration(elapsed_millis);
        let counts = if links == 0 {
            time
        } else {
            let mut c = plural(links as u64, "link", "links");
            c.append(" · ");
            let pg = plural(pages as u64, "page", "pages");
            c.append(pg.as_str());
            c.append(" · ");
            c.append(time.as_str());
            c
        };
        assert(counts@ =~= show_counts(links as nat, pages as nat, elapsed_millis as nat));
        p.title(host.as_str(), counts.as_str());
        p.enter();
        CrumbsReport::render_standing(p, standing, note);
        CrumbsReport::render_body(p, links, carried_by, dropped);
        p.leave();
        CrumbsReport::render_tail(p, standing, example);
        assert(p.text() =~= old(p).text() + show_lines(
            d,
            host@,
            links as nat,
            pages as nat,
            standing,
            *note,
            carried_by@,
            dropped as nat,
            *example,
            elapsed_millis as nat,
        ));
    }

    fn render_ruled(p: &mut Page, host: &String, ruling: Ruling, when: &String, note: &Option<String>, previous: &Option<String>)
        requires
            old(p).depth < usize::MAX,
        ensures
            final(p).text() == old(p).text() + ruled_lines(old(p).depth as nat, host@, ruling, when@, *note, *previous),
            final(p).depth == old(p).depth,
    {
        let mut head = owned(if ruling == Ruling::Ignore { "refused" } else { "allowed" });
        head.append(" ");
        head.append(host.as_str());
        p.marked(Mark::Good, head.as_str());
        p.enter();
        match note {
            Some(w) => {
                let flat = one_line(w.as_str());
                p.line(flat.as_str());
            },
            None => {},
        }
        match previous {
            Some(prev) => {
                let mut t = owned("replaces ");
                t.append(prev.as_str());
                p.line(t.as_str());
            },
            None => {},
        }
        let mut t = owned("recorded at ");
        t.append(when.as_str());
        if ruling == Ruling::Ignore {
            t.append(" · `centinel crumbs allow ");
            t.append(host.as_str());
            t.append("` takes it back");
        } else {
            t.append(" · it will be offered again");
        }
        p.line(t.as_str());
        p.leave();
        assert(p.text() =~= old(p).text() + ruled_lines(old(p).depth as nat, host@, ruling, when@, *note, *previous));
    }

    /// A list, one host, or a ruling; the next command to paste where there is one.
    pub fn render(&self, p: &mut Page)
        requires
            old(p).depth + 2 < usize::MAX,
        ensures
            final(p).text() == old(p).text() + report_lines(old(p).depth as nat, *self),
            final(p).depth == old(p).depth,
    {
        match self {
            CrumbsReport::List { sources, pages, crumbs, hidden, truncated, unread, elapsed_millis } => {
                CrumbsReport::render_list(p, sources, *pages, crumbs, *hidden, *truncated, *unread, *elapsed_millis);
            },
            CrumbsReport::Show { host, links, pages, standing, note, carried_by, dropped, example, elapsed_millis } => {
                CrumbsReport::render_show(
                    p,
                    host,
                    *links,
                    *pages,
                    *standing,
                    note,
                    carried_by,
                    *dropped,
                    example,
                    *elapsed_millis,
                );
            },
            CrumbsReport::Ruled { host, ruling, at, note, previous } => {
                CrumbsReport::render_ruled(p, host, *ruling, at, note, previous);
            },
        }
    }
}

} // verus!
