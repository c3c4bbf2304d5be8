//! `list` — what is in the store, and what state it is in.
//!
//! The rows are the config's sources first, then whatever else the store holds, and a
//! source with nothing collected gets a row saying so. *Configured and uncollected* is a
//! run waiting to happen; *collected and unconfigured* is a source `centinel run` will
//! silently skip. Listing one side only cannot say either.
use vstd::prelude::*;

use crate::counts::{lemma_lex_le_total, lemma_lex_le_transitive, lex_le, lookup, Counts};
use crate::domain::{pad, pad_to, Liveness};
use crate::page::{at, glyph, marked_at, note_text, title_text, Mark, Page};
use crate::text::{flat_all, grouped, join_with, one_line, owned, plural, plural_of, push_count, str_eq};

verus! {

/// An address that is not currently `Live`.
#[derive(Debug)]
pub struct Problem {
    pub natural_key: String,
    pub state: Liveness,
    pub since: String,
    pub consecutive_failures: u32,
    pub detail: Option<String>,
}

/// One source's row.
#[derive(Debug)]
pub struct SourceSummary {
    pub source: String,
    /// Whether `centinel.toml` names it.
    pub configured: bool,
    /// Addresses the log knows about. Zero for a source that has been added and not yet
    /// run, which is a state with a row rather than a state with no row.
    pub resources: usize,
    pub observations: usize,
    /// Liveness counts, keyed by `live` / `gone` / `blocked` / `error`.
    pub liveness: Counts,
    /// Addresses not currently `Live`, capped by `--max-problems`.
    pub problems: Vec<Problem>,
    pub problems_truncated: Option<usize>,
}

impl SourceSummary {
    /// Whether the log has anything to say about this source at all.
    ///
    /// Resources rather than observations: a source that was discovered and not collected
    /// has addresses and no bytes, which is a different and reportable state.
    pub fn holds_nothing(&self) -> (b: bool)
        ensures
            b == (self.resources == 0),
    {
        self.resources == 0
    }
}

#[derive(Debug)]
pub struct ListReport {
    pub store_root: String,
    pub sources: Vec<SourceSummary>,
}

#[derive(Debug)]
pub struct ListArgs {
    /// Limit to one source. Omit to list all.
    pub source: Option<String>,
    /// Maximum non-live addresses to enumerate per source.
    pub max_problems: usize,
    /// Config file the source list is read from.
    pub config: Option<String>,
}

impl Default for ListArgs {
    fn default() -> (a: Self)
        ensures
            a.source is None,
            a.max_problems == 0,
            a.config is None,
    {
        ListArgs { source: None, max_problems: 0, config: None }
    }
}

/// The problem cap a caller gets without asking.
pub fn default_max_problems() -> (n: usize)
    ensures
        n == 20,
{
    20
}

// ── every source, each once ─────────────────────────────────────────────────

/// The names in order of first appearance, each once.
pub open spec fn first_seen(s: Seq<Seq<char>>) -> Seq<Seq<char>>
    decreases s.len(),
{
    if s.len() == 0 {
        Seq::empty()
    } else {
        let prev = first_seen(s.drop_last());
        if prev.contains(s.last()) { prev } else { prev.push(s.last()) }
    }
}

pub open spec fn names(v: Seq<String>) -> Seq<Seq<char>> {
    v.map_values(|s: String| s@)
}

proof fn lemma_first_seen_members(s: Seq<Seq<char>>)
    ensures
        forall|x: Seq<char>| #[trigger] first_seen(s).contains(x) <==> s.contains(x),
        forall|i: int, j: int| 0 <= i < j < first_seen(s).len() ==> #[trigger] first_seen(s)[i] != #[trigger] first_seen(s)[j],
    decreases s.len(),
{
    if s.len() > 0 {
        let rest = s.drop_last();
        lemma_first_seen_members(rest);
        let prev = first_seen(rest);
        assert forall|x: Seq<char>| #[trigger] first_seen(s).contains(x) <==> s.contains(x) by {
            if s.contains(x) && x != s.last() {
                let k = choose|k: int| 0 <= k < s.len() && s[k] == x;
                assert(rest[k] == x);
                assert(rest.contains(x));
            }
            if rest.contains(x) {
                let k = choose|k: int| 0 <= k < rest.len() && rest[k] == x;
                assert(s[k] == x);
            }
            if first_seen(s).contains(x) && !prev.contains(x) {
                assert(x == s.last());
                assert(s[s.len() - 1] == x);
            }
            if x == s.last() {
                assert(s[s.len() - 1] == x);
                if !prev.contains(x) {
                    assert(first_seen(s)[prev.len() as int] == x);
                }
            }
            if prev.contains(x) && !first_seen(s).contains(x) {
                let k = choose|k: int| 0 <= k < prev.len() && prev[k] == x;
                assert(first_seen(s)[k] == x);
            }
        }
    }
}

proof fn lemma_first_seen_prefix(a: Seq<Seq<char>>, b: Seq<Seq<char>>)
    ensures
        first_seen(a).len() <= first_seen(a + b).len(),
        first_seen(a + b).take(first_seen(a).len() as int) == first_seen(a),
    decreases b.len(),
{
    if b.len() == 0 {
        assert(a + b =~= a);
        assert(first_seen(a).take(first_seen(a).len() as int) =~= first_seen(a));
    } else {
        lemma_first_seen_prefix(a, b.drop_last());
        assert((a + b).drop_last() =~= a + b.drop_last());
        let prev = first_seen(a + b.drop_last());
        assert(prev.push((a + b).last()).take(first_seen(a).len() as int) =~= prev.take(first_seen(a).len() as int));
    }
}

proof fn lemma_first_seen_distinct(s: Seq<Seq<char>>)
    requires
        forall|i: int, j: int| 0 <= i < j < s.len() ==> #[trigger] s[i] != #[trigger] s[j],
    ensures
        first_seen(s) == s,
    decreases s.len(),
{
    if s.len() > 0 {
        let rest = s.drop_last();
        assert forall|i: int, j: int| 0 <= i < j < rest.len() implies #[trigger] rest[i] != #[trigger] rest[j] by {
            assert(rest[i] == s[i] && rest[j] == s[j]);
        }
        lemma_first_seen_distinct(rest);
        if rest.contains(s.last()) {
            let k = choose|k: int| 0 <= k < rest.len() && rest[k] == s.last();
            assert(s[k] == s[s.len() - 1]);
        }
        assert(rest.push(s.last()) =~= s);
    }
}

/// Every source once: the ones the config names, in the order it names them, then those
/// only the store knows; none missing, none twice.
pub proof fn law_sources_in_written_order(configured: Seq<Seq<char>>, stored: Seq<Seq<char>>)
    requires
        forall|i: int, j: int| 0 <= i < j < configured.len() ==> #[trigger] configured[i] != #[trigger] configured[j],
    ensures
        ({
            let ids = first_seen(configured + stored);
            &&& ids.take(configured.len() as int) == configured
            &&& forall|x: Seq<char>| #[trigger] ids.contains(x) <==> (configured.contains(x) || stored.contains(x))
            &&& forall|i: int, j: int| 0 <= i < j < ids.len() ==> #[trigger] ids[i] != #[trigger] ids[j]
        }),
{
    lemma_first_seen_distinct(configured);
    lemma_first_seen_prefix(configured, stored);
    lemma_first_seen_members(configured + stored);
    let all = configured + stored;
    assert forall|x: Seq<char>| all.contains(x) <==> (configured.contains(x) || stored.contains(x)) by {
        if all.contains(x) {
            let k = choose|k: int| 0 <= k < all.len() && all[k] == x;
            if k >= configured.len() {
                assert(stored[k - configured.len()] == x);
            }
        }
        if configured.contains(x) {
            let k = choose|k: int| 0 <= k < configured.len() && configured[k] == x;
            assert(all[k] == x);
        }
        if stored.contains(x) {
            let k = choose|k: int| 0 <= k < stored.len() && stored[k] == x;
            assert(all[configured.len() + k] == x);
        }
    }
}

/// Whether some name in `v` spells `name`.
fn mentions(v: &Vec<String>, name: &str) -> (b: bool)
    ensures
        b == names(v@).contains(name@),
{
    let mut i: usize = 0;
    while i < v.len()
        invariant
            i <= v@.len(),
            forall|j: int| 0 <= j < i ==> v@[j]@ != name@,
        decreases v.len() - i,
    {
        if str_eq(v[i].as_str(), name) {
            assert(names(v@)[i as int] == name@);
            return true;
        }
        i = i + 1;
    }
    proof {
        if names(v@).contains(name@) {
            let j = choose|j: int| 0 <= j < names(v@).len() && names(v@)[j] == name@;
            assert(v@[j]@ == name@);
        }
    }
    false
}

/// Every source there is: the config's, in the order they are written, then the store's.
///
/// Config order rather than alphabetical, because that file is a thing a person wrote. The
/// store's own entries are appended rather than merged in, so the two halves of the
/// answer — declared, and merely present — stay visibly apart. A name in both is one row.
pub fn named(configured: &Vec<String>, stored: &Vec<String>) -> (ids: Vec<String>)
    ensures
        names(ids@) == first_seen(names(configured@) + names(stored@)),
{
    let mut out: Vec<String> = Vec::new();
    assert(names(out@) =~= first_seen(Seq::<Seq<char>>::empty()));
    absorb(&mut out, configured, Ghost(Seq::empty()));
    assert(Seq::<Seq<char>>::empty() + names(configured@) =~= names(configured@));
    absorb(&mut out, stored, Ghost(names(configured@)));
    out
}

/// Whether the config names a source: the row says so, because a source only the store
/// knows is one nobody is collecting any more.
pub fn configured_in(configured: &Vec<String>, source: &str) -> (b: bool)
    ensures
        b == names(configured@).contains(source@),
{
    mentions(configured, source)
}

/// Appends each name of `more` that `out` does not hold yet.
fn absorb(out: &mut Vec<String>, more: &Vec<String>, Ghost(before): Ghost<Seq<Seq<char>>>)
    requires
        names(old(out)@) == first_seen(before),
    ensures
        names(final(out)@) == first_seen(before + names(more@)),
{
    let ghost all = before + names(more@);
    let mut i: usize = 0;
    assert(all.take(before.len() as int) =~= before);
    while i < more.len()
        invariant
            all == before + names(more@),
            i <= more@.len(),
            names(out@) == first_seen(all.take(before.len() + i)),
        decreases more.len() - i,
    {
        let name: &String = &more[i];
        assert(all[before.len() + i] == name@);
        assert(all.take(before.len() + i + 1).drop_last() =~= all.take(before.len() + i));
        if !mentions(out, name.as_str()) {
            out.push(owned(name.as_str()));
            assert(names(out@) =~= first_seen(all.take(before.len() + i)).push(name@));
        }
        i = i + 1;
    }
    assert(all.take((before.len() + more@.len()) as int) =~= all);
}

// ── one source's summary ────────────────────────────────────────────────────

/// The addresses not currently `Live`, in the order given.
pub open spec fn standing(s: Seq<Problem>) -> Seq<Problem>
    decreases s.len(),
{
    if s.len() == 0 {
        Seq::empty()
    } else if s.last().state == Liveness::Live {
        standing(s.drop_last())
    } else {
        standing(s.drop_last()).push(s.last())
    }
}

/// How many addresses are in the state named `name`.
pub open spec fn tally(s: Seq<Problem>, name: Seq<char>) -> nat
    decreases s.len(),
{
    if s.len() == 0 {
        0
    } else {
        tally(s.drop_last(), name) + if s.last().state.name_spec() == name { 1nat } else { 0nat }
    }
}

proof fn lemma_tally_bounded(s: Seq<Problem>, k: Seq<char>)
    ensures
        tally(s, k) <= s.len(),
    decreases s.len(),
{
    if s.len() > 0 {
        lemma_tally_bounded(s.drop_last(), k);
    }
}

/// `a` is listed before `b`, or they tie: longest-standing failures first, then by
/// address. A page blocked for a month matters more than one that failed in this run.
pub open spec fn precedes(a: Problem, b: Problem) -> bool {
    a.consecutive_failures > b.consecutive_failures || (a.consecutive_failures == b.consecutive_failures && lex_le(
        a.natural_key@,
        b.natural_key@,
    ))
}

pub open spec fn in_problem_order(s: Seq<Problem>) -> bool {
    forall|i: int, j: int| 0 <= i < j < s.len() ==> precedes(#[trigger] s[i], #[trigger] s[j])
}

proof fn lemma_precedes_total(a: Problem, b: Problem)
    ensures
        precedes(a, b) || precedes(b, a),
{
    lemma_lex_le_total(a.natural_key@, b.natural_key@);
}

proof fn lemma_precedes_transitive(a: Problem, b: Problem, c: Problem)
    requires
        precedes(a, b),
        precedes(b, c),
    ensures
        precedes(a, c),
{
    if a.consecutive_failures == b.consecutive_failures && b.consecutive_failures == c.consecutive_failures {
        lemma_lex_le_transitive(a.natural_key@, b.natural_key@, c.natural_key@);
    }
}

fn precedes_exec(a: &Problem, b: &Problem) -> (r: bool)
    ensures
        r == precedes(*a, *b),
{
    if a.consecutive_failures != b.consecutive_failures {
        return a.consecutive_failures > b.consecutive_failures;
    }
    let x = crate::text::chars_of(a.natural_key.as_str());
    let y = crate::text::chars_of(b.natural_key.as_str());
    match crate::counts::compare(y.as_slice(), x.as_slice()) {
        crate::counts::Order::Before => false,
        _ => true,
    }
}

/// The problems in listing order, none lost and none added.
pub fn sort_problems(v: Vec<Problem>) -> (out: Vec<Problem>)
    ensures
        in_problem_order(out@),
        out@.to_multiset() == v@.to_multiset(),
{
    broadcast use vstd::seq_lib::group_to_multiset_ensures;

    let mut v = v;
    let ghost original = v@;
    let mut out: Vec<Problem> = Vec::new();
    while v.len() > 0
        invariant
            in_problem_order(out@),
            v@.to_multiset().add(out@.to_multiset()) == original.to_multiset(),
        decreases v.len(),
    {
        let ghost before_v = v@;
        let x = v.pop().unwrap();
        assert(before_v =~= v@.push(x));
        let mut pos: usize = 0;
        while pos < out.len() && !precedes_exec(&x, &out[pos])
            invariant
                pos <= out@.len(),
                forall|k: int| 0 <= k < pos ==> !precedes(x, #[trigger] out@[k]),
            decreases out.len() - pos,
        {
            pos = pos + 1;
        }
        let ghost before = out@;
        proof {
            assert forall|k: int| 0 <= k < pos implies precedes(#[trigger] before[k], x) by {
                lemma_precedes_total(x, before[k]);
            }
            assert forall|k: int| pos <= k < before.len() implies precedes(x, #[trigger] before[k]) by {
                if k > pos {
                    assert(precedes(before[pos as int], before[k]));
                    lemma_precedes_transitive(x, before[pos as int], before[k]);
                }
            }
        }
        out.insert(pos, x);
        proof {
            assert(out@ == before.insert(pos as int, x));
            assert forall|i: int, j: int| 0 <= i < j < out@.len() implies precedes(
                #[trigger] out@[i],
                #[trigger] out@[j],
            ) by {
                if i < pos && j < pos {
                    assert(out@[i] == before[i] && out@[j] == before[j]);
                } else if i < pos && j == pos {
                } else if i < pos && j > pos {
                    assert(out@[i] == before[i] && out@[j] == before[j - 1]);
                } else if i == pos {
                    assert(out@[j] == before[j - 1]);
                } else {
                    assert(out@[i] == before[i - 1] && out@[j] == before[j - 1]);
                }
            }
            vstd::seq_lib::to_multiset_insert(before, pos as int, x);
            vstd::seq_lib::to_multiset_build(v@, x);
            assert(v@.push(x).to_multiset() == v@.to_multiset().insert(x));
            assert(v@.to_multiset().add(out@.to_multiset()) =~= before_v.to_multiset().add(before.to_multiset()));
        }
    }
    assert(v@.to_multiset() =~= vstd::multiset::Multiset::empty());
    assert(out@.to_multiset() =~= original.to_multiset());
    out
}

/// A count held in `c` under `k`, zero where there is none.
pub open spec fn held(c: Counts, k: Seq<char>) -> nat {
    match c.at(k) {
        Some(v) => v as nat,
        None => 0,
    }
}

impl SourceSummary {
    /// One source's row from the standing of each of its addresses: the liveness tally
    /// over all of them, and the ones not `Live` in listing order, cut at `max_problems`
    /// with the number cut said.
    pub fn summarize(
        source: String,
        configured: bool,
        resources: usize,
        observations: usize,
        statuses: Vec<Problem>,
        max_problems: usize,
    ) -> (s: SourceSummary)
        ensures
            s.source == source,
            s.configured == configured,
            s.resources == resources,
            s.observations == observations,
            forall|k: Seq<char>| #[trigger] s.liveness.at(k) == (if tally(statuses@, k) == 0 {
                None
            } else {
                Some(tally(statuses@, k) as u64)
            }),
            exists|all: Seq<Problem>| #[trigger] in_problem_order(all) && all.to_multiset() == standing(statuses@).to_multiset()
                && s.problems@ == all.take(
                if all.len() < max_problems { all.len() as int } else { max_problems as int },
            ),
            s.problems_truncated == (if standing(statuses@).len() > max_problems {
                Some((standing(statuses@).len() - max_problems) as usize)
            } else {
                None
            }),
    {
        broadcast use vstd::seq_lib::group_to_multiset_ensures;

        let mut rest = statuses;
        let ghost original = rest@;
        let n0 = rest.len();
        let mut liveness = Counts::new();
        let mut bad: Vec<Problem> = Vec::new();
        while rest.len() > 0
            invariant
                n0 == original.len(),
                rest@.len() <= original.len(),
                forall|k: Seq<char>| #[trigger] held(liveness, k) + tally(rest@, k) == tally(original, k),
                forall|k: Seq<char>| #[trigger] liveness.at(k) != Some(0u64),
                bad@.to_multiset().add(standing(rest@).to_multiset()) == standing(original).to_multiset(),
                bad@.len() + standing(rest@).len() == standing(original).len(),
            decreases rest.len(),
        {
            let ghost before = rest@;
            let p = rest.pop().unwrap();
            assert(before =~= rest@.push(p));
            assert(before.drop_last() =~= rest@);
            let ghost old_liveness = liveness;
            let ghost st = p.state;
            let name = p.state.name();
            assert(tally(before, name@) == tally(rest@, name@) + 1);
            liveness.add(name, 1);
            let ghost bad_before = bad@;
            let live = match p.state {
                Liveness::Live => true,
                _ => false,
            };
            if !live {
                bad.push(p);
                proof {
                    vstd::seq_lib::to_multiset_build(bad_before, p);
                    vstd::seq_lib::to_multiset_build(standing(rest@), p);
                    assert(standing(before) == standing(rest@).push(p));
                }
            } else {
                assert(standing(before) == standing(rest@));
            }
            proof {
                assert forall|k: Seq<char>| #[trigger] held(liveness, k) + tally(rest@, k) == tally(original, k) by {
                    assert(tally(before, k) == tally(rest@, k) + if st.name_spec() == k { 1nat } else { 0nat });
                    lemma_tally_bounded(original, k);
                    if k == name@ {
                        assert(held(old_liveness, k) + tally(before, k) == tally(original, k));
                        assert(tally(before, k) == tally(rest@, k) + 1);
                        assert(tally(original, k) <= n0);
                        match old_liveness.at(k) {
                            Some(v) => {
                                assert(v + 1 <= u64::MAX);
                                assert(liveness.at(k) == Some((v + 1) as u64));
                            },
                            None => {
                                assert(liveness.at(k) == Some(1u64));
                            },
                        }
                    } else {
                        assert(held(old_liveness, k) + tally(before, k) == tally(original, k));
                        assert(liveness.at(k) == old_liveness.at(k));
                    }
                }
                assert forall|k: Seq<char>| #[trigger] liveness.at(k) != Some(0u64) by {
                    if k != name@ {
                        assert(liveness.at(k) == old_liveness.at(k));
                    }
                }
            }
        }
        proof {
            assert forall|k: Seq<char>| #[trigger] liveness.at(k) == (if tally(original, k) == 0 {
                None
            } else {
                Some(tally(original, k) as u64)
            }) by {
                assert(tally(rest@, k) == 0);
                assert(held(liveness, k) + tally(rest@, k) == tally(original, k));
                lemma_tally_bounded(original, k);
            }
            assert(standing(rest@) =~= Seq::<Problem>::empty());
            assert(bad@.to_multiset() =~= standing(original).to_multiset());
        }
        let total = bad.len();
        let mut sorted = sort_problems(bad);
        let ghost all = sorted@;
        let truncated = if total > max_problems { total - max_problems } else { 0 };
        sorted.truncate(max_problems);
        assert(sorted@ =~= all.take(if all.len() < max_problems { all.len() as int } else { max_problems as int }));
        assert(in_problem_order(all));
        SourceSummary {
            source,
            configured,
            resources,
            observations,
            liveness,
            problems: sorted,
            problems_truncated: if truncated > 0 { Some(truncated) } else { None },
        }
    }
}

// ── how it reads ────────────────────────────────────────────────────────────

/// The glyph for a liveness *name*, for the roll-up where the state arrives as a key.
pub open spec fn liveness_mark_of(name: Seq<char>) -> Mark {
    if name == "live"@ {
        Mark::Good
    } else if name == "blocked"@ {
        Mark::Warn
    } else {
        Mark::Bad
    }
}

pub fn liveness_mark(name: &str) -> (m: Mark)
    ensures
        m == liveness_mark_of(name@),
{
    if str_eq(name, "live") {
        Mark::Good
    } else if str_eq(name, "blocked") {
        Mark::Warn
    } else {
        Mark::Bad
    }
}

/// One state in the roll-up: its glyph, its count, its name.
pub open spec fn state_item(name: Seq<char>, n: nat) -> Seq<char> {
    glyph(liveness_mark_of(name)) + grouped(n) + " "@ + name
}

/// The roll-up items for every state but `live`, in key order.
pub open spec fn other_items(ps: Seq<(String, u64)>) -> Seq<Seq<char>>
    decreases ps.len(),
{
    if ps.len() == 0 {
        Seq::empty()
    } else if ps.last().0@ == "live"@ {
        other_items(ps.drop_last())
    } else {
        other_items(ps.drop_last()).push(state_item(ps.last().0@, ps.last().1 as nat))
    }
}

/// Live first, then the rest: "is this healthy, and if not, how much of it isn't".
pub open spec fn roll_up(ps: Seq<(String, u64)>) -> Seq<Seq<char>> {
    (match lookup(ps, "live"@) {
        Some(n) => seq![state_item("live"@, n as nat)],
        None => Seq::empty(),
    }) + other_items(ps)
}

pub open spec fn roll_up_sep() -> Seq<char> {
    "   "@
}

/// What state the source is in, as the title's aside.
pub open spec fn counts_aside(s: SourceSummary) -> Seq<char> {
    if s.resources != 0 {
        plural_of(s.resources as nat, "resource"@, "resources"@) + " · "@ + plural_of(
            s.observations as nat,
            "observation"@,
            "observations"@,
        )
    } else if s.configured {
        "in centinel.toml, nothing collected yet"@
    } else {
        "nothing collected yet, and not in centinel.toml"@
    }
}

/// How long it has been failing, and what it said.
pub open spec fn problem_aside(p: Problem) -> Seq<char> {
    plural_of(p.consecutive_failures as nat, "failure"@, "failures"@) + " since "@ + p.since@ + match p.detail {
        Some(d) => " · "@ + flat_all(d@),
        None => Seq::empty(),
    }
}

pub open spec fn problem_lines(depth: nat, p: Problem) -> Seq<Seq<char>> {
    seq![
        marked_at(depth, p.state.mark_spec(), pad(p.state.name_spec(), 8) + p.natural_key@),
        at(depth + 1, problem_aside(p)),
    ]
}

pub open spec fn problems_lines(depth: nat, ps: Seq<Problem>) -> Seq<Seq<char>>
    decreases ps.len(),
{
    if ps.len() == 0 {
        Seq::empty()
    } else {
        problems_lines(depth, ps.drop_last()) + problem_lines(depth, ps.last())
    }
}

pub open spec fn more_line(n: nat) -> Seq<char> {
    "… and "@ + grouped(n) + " more, raise --max-problems to see them"@
}

/// One source: the counts, the liveness roll-up, then the addresses that are not `Live`.
pub open spec fn summary_lines(depth: nat, s: SourceSummary) -> Seq<Seq<char>> {
    let items = roll_up(s.liveness.pairs());
    seq![at(depth, title_text(s.source@, counts_aside(s)))] + (if items.len() > 0 {
        seq![at(depth + 1, join_with(items, roll_up_sep()))]
    } else {
        Seq::empty()
    }) + (if s.problems@.len() == 0 {
        Seq::empty()
    } else {
        seq![Seq::<char>::empty()] + problems_lines(depth + 1, s.problems@) + match s.problems_truncated {
            Some(m) => seq![at(depth + 1, more_line(m as nat))],
            None => Seq::empty(),
        }
    })
}

/// Every source's block, a blank line between each two.
pub open spec fn blocks(depth: nat, ss: Seq<SourceSummary>) -> Seq<Seq<char>>
    decreases ss.len(),
{
    if ss.len() == 0 {
        Seq::empty()
    } else {
        blocks(depth, ss.drop_last()) + (if ss.len() > 1 {
            seq![Seq::<char>::empty()]
        } else {
            Seq::empty()
        }) + summary_lines(depth, ss.last())
    }
}

/// The sources that hold nothing, in order.
pub open spec fn uncollected(ss: Seq<SourceSummary>) -> Seq<Seq<char>>
    decreases ss.len(),
{
    if ss.len() == 0 {
        Seq::empty()
    } else if ss.last().resources == 0 {
        uncollected(ss.drop_last()).push(ss.last().source@)
    } else {
        uncollected(ss.drop_last())
    }
}

/// What to do about the empty ones: said once, at the bottom, with one command.
pub open spec fn footer(depth: nat, ss: Seq<SourceSummary>) -> Seq<Seq<char>> {
    let e = uncollected(ss);
    if e.len() == 0 {
        Seq::empty()
    } else {
        seq![
            Seq::<char>::empty(),
            at(depth, plural_of(e.len(), "source holds"@, "sources hold"@) + " nothing yet."@),
            at(depth, note_text(if e.len() == 1 { "centinel run --source "@ + e[0] } else { "centinel run"@ })),
        ]
    }
}

pub open spec fn report_lines(depth: nat, r: ListReport) -> Seq<Seq<char>> {
    if r.sources@.len() == 0 {
        seq![at(depth, "No sources yet."@), at(depth, note_text("centinel source add <name> --site <url>"@))]
    } else {
        blocks(depth, r.sources@) + footer(depth, r.sources@)
    }
}

/// However many sources hold nothing, the list ends with one line that counts them and one
/// command: the exact one for a single source, `centinel run` for several; and nothing at
/// all when every source holds something.
pub proof fn law_list_footer(depth: nat, r: ListReport)
    requires
        r.sources@.len() > 0,
    ensures
        ({
            let e = uncollected(r.sources@);
            let f = footer(depth, r.sources@);
            &&& report_lines(depth, r) == blocks(depth, r.sources@) + f
            &&& (e.len() == 0 ==> f.len() == 0)
            &&& (e.len() == 1 ==> f.len() == 3 && f[1] == at(depth, "1"@ + " "@ + "source holds"@ + " nothing yet."@)
                && f[2] == at(depth, note_text("centinel run --source "@ + e[0])))
            &&& (e.len() >= 2 ==> f.len() == 3 && f[1] == at(depth, grouped(e.len()) + " "@ + "sources hold"@
                + " nothing yet."@) && f[2] == at(depth, note_text("centinel run"@)))
        }),
{
    reveal_strlit(" ");
    let e = uncollected(r.sources@);
    if e.len() == 1 {
        assert(grouped(1) == seq!['1']);
        reveal_strlit("1");
        assert(seq![' '] =~= " "@);
        assert(seq!['1'] =~= "1"@);
    } else if e.len() >= 2 {
        assert(seq![' '] =~= " "@);
    }
}

fn state_item_text(name: &str, n: u64) -> (s: String)
    ensures
        s@ == state_item(name@, n as nat),
{
    let mut s = owned(liveness_mark(name).glyph());
    push_count(&mut s, n);
    s.append(" ");
    s.append(name);
    s
}

/// The roll-up line, and whether any state is in it.
fn roll_up_line(c: &Counts) -> (r: (String, bool))
    ensures
        r.0@ == join_with(roll_up(c.pairs()), roll_up_sep()),
        r.1 == (roll_up(c.pairs()).len() > 0),
{
    let entries = c.entries();
    let mut out = String::new();
    let mut any = false;
    let ghost mut head: Seq<Seq<char>> = Seq::empty();
    match c.get("live") {
        Some(n) => {
            out = state_item_text("live", n);
            any = true;
            proof {
                head = seq![state_item("live"@, n as nat)];
            }
        },
        None => {},
    }
    assert(other_items(entries@.take(0)) =~= Seq::<Seq<char>>::empty());
    assert(head + other_items(entries@.take(0)) =~= head);
    let mut i: usize = 0;
    while i < entries.len()
        invariant
            i <= entries@.len(),
            entries@ == c.pairs(),
            head == (match lookup(c.pairs(), "live"@) {
                Some(n) => seq![state_item("live"@, n as nat)],
                None => Seq::<Seq<char>>::empty(),
            }),
            any == ((head + other_items(entries@.take(i as int))).len() > 0),
            out@ == join_with(head + other_items(entries@.take(i as int)), roll_up_sep()),
        decreases entries.len() - i,
    {
        let ghost before = head + other_items(entries@.take(i as int));
        assert(entries@.take(i + 1).drop_last() =~= entries@.take(i as int));
        let name = entries[i].0.as_str();
        if !str_eq(name, "live") {
            let item = state_item_text(name, entries[i].1);
            if any {
                out.append("   ");
            }
            out.append(item.as_str());
            any = true;
            proof {
                assert(head + other_items(entries@.take(i + 1)) =~= before.push(item@));
                assert(before.push(item@).drop_last() =~= before);
            }
        } else {
            assert(head + other_items(entries@.take(i + 1)) =~= before);
        }
        i = i + 1;
    }
    assert(entries@.take(entries@.len() as int) =~= entries@);
    (out, any)
}

fn counts_aside_text(s: &SourceSummary) -> (t: String)
    ensures
        t@ == counts_aside(*s),
{
    if s.resources != 0 {
        let mut t = plural(s.resources as u64, "resource", "resources");
        t.append(" · ");
        let obs = plural(s.observations as u64, "observation", "observations");
        t.append(obs.as_str());
        t
    } else if s.configured {
        owned("in centinel.toml, nothing collected yet")
    } else {
        owned("nothing collected yet, and not in centinel.toml")
    }
}

impl Problem {
    /// The state, the address, and under it how long it has been failing.
    pub fn render(&self, p: &mut Page)
        requires
            old(p).depth < usize::MAX,
        ensures
            final(p).text() == old(p).text() + problem_lines(old(p).depth as nat, *self),
            final(p).depth == old(p).depth,
    {
        let mut head = pad_to(self.state.name(), 8);
        head.append(self.natural_key.as_str());
        p.marked(self.state.mark(), head.as_str());
        assert(p.text() == old(p).text().push(problem_lines(old(p).depth as nat, *self)[0]));
        let mut aside = plural(self.consecutive_failures as u64, "failure", "failures");
        aside.append(" since ");
        aside.append(self.since.as_str());
        match &self.detail {
            Some(d) => {
                aside.append(" · ");
                let flat = one_line(d.as_str());
                aside.append(flat.as_str());
            },
            None => {},
        }
        assert(aside@ == problem_aside(*self));
        p.enter();
        p.line(aside.as_str());
        p.leave();
        assert(p.text() =~= old(p).text() + problem_lines(old(p).depth as nat, *self));
    }
}

impl SourceSummary {
    pub fn render(&self, p: &mut Page)
        requires
            old(p).depth + 2 < usize::MAX,
        ensures
            final(p).text() == old(p).text() + summary_lines(old(p).depth as nat, *self),
            final(p).depth == old(p).depth,
    {
        let ghost d = old(p).depth as nat;
        let aside = counts_aside_text(self);
        p.title(self.source.as_str(), aside.as_str());
        p.enter();
        let (line, any) = roll_up_line(&self.liveness);
        if any {
            p.line(line.as_str());
        }
        let ghost top = p.text();
        assert(top == old(p).text() + seq![at(d, title_text(self.source@, counts_aside(*self)))] + (if roll_up(
            self.liveness.pairs(),
        ).len() > 0 {
            seq![at(d + 1, join_with(roll_up(self.liveness.pairs()), roll_up_sep()))]
        } else {
            Seq::<Seq<char>>::empty()
        }));
        if self.problems.len() > 0 {
            p.blank();
            let mut i: usize = 0;
            while i < self.problems.len()
                invariant
                    i <= self.problems@.len(),
                    p.depth == d + 1,
                    d + 2 < usize::MAX,
                    p.text() == top.push(Seq::<char>::empty()) + problems_lines(d + 1, self.problems@.take(i as int)),
                decreases self.problems.len() - i,
            {
                assert(self.problems@.take(i + 1).drop_last() =~= self.problems@.take(i as int));
                self.problems[i].render(p);
                i = i + 1;
                assert(p.text() =~= top.push(Seq::<char>::empty()) + problems_lines(d + 1, self.problems@.take(i as int)));
            }
            assert(self.problems@.take(self.problems@.len() as int) =~= self.problems@);
            match self.problems_truncated {
                Some(more) => {
                    let mut text = owned("… and ");
                    push_count(&mut text, more as u64);
                    text.append(" more, raise --max-problems to see them");
                    p.line(text.as_str());
                },
                None => {},
            }
        }
        p.leave();
        assert(p.text() =~= old(p).text() + summary_lines(d, *self));
    }
}

impl ListReport {
    /// One block per source, then, once, what to do about the ones that hold nothing.
    ///
    /// `store_root` is not printed: a person typed `--root` or accepted the default two
    /// seconds ago.
    pub fn render(&self, p: &mut Page)
        requires
            old(p).depth + 2 < usize::MAX,
        ensures
            final(p).text() == old(p).text() + report_lines(old(p).depth as nat, *self),
            final(p).depth == old(p).depth,
    {
        let ghost d = old(p).depth as nat;
        if self.sources.len() == 0 {
            p.line("No sources yet.");
            p.note("centinel source add <name> --site <url>");
            assert(p.text() =~= old(p).text() + report_lines(d, *self));
            return;
        }
        let mut empty: usize = 0;
        let mut first: usize = 0;
        let mut i: usize = 0;
        while i < self.sources.len()
            invariant
                i <= self.sources@.len(),
                p.depth == d,
                d + 2 < usize::MAX,
                p.text() == old(p).text() + blocks(d, self.sources@.take(i as int)),
                empty == uncollected(self.sources@.take(i as int)).len(),
                empty <= i,
                empty > 0 ==> first < i && uncollected(self.sources@.take(i as int))[0] == self.sources@[first as int].source@,
            decreases self.sources.len() - i,
        {
            let ghost prev = p.text();
            assert(self.sources@.take(i + 1).drop_last() =~= self.sources@.take(i as int));
            if i > 0 {
                p.blank();
            }
            self.sources[i].render(p);
            if self.sources[i].holds_nothing() {
                if empty == 0 {
                    first = i;
                }
                empty = empty + 1;
            }
            i = i + 1;
            assert(p.text() =~= old(p).text() + blocks(d, self.sources@.take(i as int)));
        }
        assert(self.sources@.take(self.sources@.len() as int) =~= self.sources@);
        if empty > 0 {
            p.blank();
            let mut line = plural(empty as u64, "source holds", "sources hold");
            line.append(" nothing yet.");
            p.line(line.as_str());
            if empty == 1 {
                let mut cmd = owned("centinel run --source ");
                cmd.append(self.sources[first].source.as_str());
                p.note(cmd.as_str());
            } else {
                p.note("centinel run");
            }
        }
        assert(p.text() =~= old(p).text() + report_lines(d, *self));
    }
}

} // verus!
