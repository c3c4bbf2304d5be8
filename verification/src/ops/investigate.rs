//! `investigate` — who recognises this address, and what would it collect?
//!
//! Nothing is stored, logged or written. The report carries the `source add` the address
//! earns as arguments, with the line to run rendered from them. Fetching the seed, running
//! the recognisers and walking the probe are the host's; what is decided here is whether a
//! target is an address at all, what id a person would have typed, whether a promotion is
//! offered and pinned, what makes a lead, and how the evidence reads.
use vstd::prelude::*;

use crate::address::{parse_url, url_parse, ParsedUrl};
use crate::counts::Counts;
use crate::domain::{pad, pad_to, Note};
use crate::ops::models::{human_bytes, human_bytes_of};
use crate::ops::probe::NetArgs;
use crate::ops::run::{duration, duration_of};
use crate::page::{at, marked_at, title_text, Mark, Page};
use crate::text::{
    chars_of, decimal, holds, lemma_holds_between, starts, flat_all, grouped, is_alnum, is_digit, is_lower, is_upper, lower, one_line, owned, push_count, push_decimal, string_of,
    to_lower, is_ascii_alnum,
};

verus! {

/// Addresses shown before the list is cut off.
pub const SAMPLE: usize = 5;

/// Off-host hosts named before the list is cut off.
pub const MAX_CRUMBS: usize = 8;

#[derive(Debug)]
pub struct InvestigateArgs {
    /// The address to investigate. Any URL on the site; keep the path.
    pub target: String,
    /// Skip the size probe. Recognition only.
    pub no_probe: bool,
    pub net: NetArgs,
}

/// The address as served, which is what every recogniser keys on.
#[derive(Debug)]
pub struct SeedSummary {
    pub http_status: Option<String>,
    pub bytes: usize,
    pub kind: String,
    /// Where the bytes really came from, when a redirect moved it.
    pub final_url: Option<String>,
    /// True when `robots.txt` was read rather than assumed.
    pub robots_declared: bool,
}

/// One strategy that answered, and why.
#[derive(Debug)]
pub struct Recognised {
    pub strategy: String,
    pub keyed_on: String,
    /// `product`, `framework`, `server default`, `standard`.
    pub kind: String,
    /// The one that would run.
    pub best: bool,
    pub evidence: Vec<Note>,
    pub warnings: Vec<Note>,
}

/// Roughly how much is behind the address.
#[derive(Debug)]
pub struct Probe {
    pub addresses: usize,
    /// False when the probe hit its own ceiling: the real number is larger and unknown.
    pub complete: bool,
    /// Which strategy walked.
    pub strategy: String,
    /// Nothing recognised the seed, so the fallback walked it anyway.
    pub by_fallback: bool,
    pub requests_allowed: usize,
    pub sample: Vec<String>,
    pub figures: Counts,
    /// What the source says it holds, where it says anything.
    pub declared_total: Option<u64>,
}

/// What the reader got out of the seed, as far as a lead is decided by it.
#[derive(Debug)]
pub struct ReadQuality {
    pub chars: usize,
    /// Characters of text per kilobyte read, to the nearest whole one.
    pub per_kb: u64,
    /// The share of the text that is link text, as a whole percentage.
    pub link_percent: u64,
    /// Whether the read is poor: a menu, a shell, a page of links read as text.
    pub poor: bool,
    pub findings: Vec<String>,
}

/// Why nothing recognised this, in numbers.
#[derive(Debug)]
pub struct Lead {
    pub read: ReadQuality,
    pub anchors: usize,
    pub script_bytes: usize,
    pub sitemap_declared: bool,
    /// Findings about the site's shape.
    pub findings: Vec<String>,
}

impl Lead {
    /// Whether this is worth a person's attention, rather than an ordinary site the
    /// sitemap fallback will collect perfectly well.
    pub fn is_lead(&self) -> (b: bool)
        ensures
            b == (self.findings@.len() > 0 || self.read.poor),
    {
        self.findings.len() > 0 || self.read.poor
    }
}

/// The findings about a seed's shape: a page that is mostly script builds its addresses
/// at run time, and a site with no sitemap has no declared surface to walk.
pub open spec fn findings_of(page_bytes: nat, script_bytes: nat, anchors: nat, sitemap_declared: bool) -> Seq<Seq<char>> {
    (if script_bytes * 2 > page_bytes {
        seq![
            "most of the page is script — "@ + human_bytes_of(script_bytes) + " of "@ + human_bytes_of(page_bytes) + ", and "@
                + decimal(anchors) + " anchors. Its addresses are likely built at run time."@,
        ]
    } else {
        Seq::empty()
    }) + (if sitemap_declared {
        Seq::empty()
    } else {
        seq!["no sitemap declared, so there is no surface to walk"@]
    })
}

/// The words a finding that the page is mostly script opens with.
pub open spec fn mostly_script_words() -> Seq<char> {
    "most of the page is script"@
}

/// A seed page is flagged as mostly script exactly when its script is more than half its
/// bytes, and then the finding names both sizes; and a page with no declared sitemap is
/// always told so. Nothing else is found.
pub proof fn law_a_page_more_than_half_script_is_flagged(page_bytes: nat, script_bytes: nat, anchors: nat, sitemap: bool)
    ensures
        (exists|i: int|
            0 <= i < findings_of(page_bytes, script_bytes, anchors, sitemap).len() && starts(
                #[trigger] findings_of(page_bytes, script_bytes, anchors, sitemap)[i],
                mostly_script_words(),
            )) == (script_bytes * 2 > page_bytes),
        script_bytes * 2 > page_bytes ==> holds(findings_of(page_bytes, script_bytes, anchors, sitemap)[0], human_bytes_of(script_bytes))
            && holds(findings_of(page_bytes, script_bytes, anchors, sitemap)[0], human_bytes_of(page_bytes)),
        findings_of(page_bytes, script_bytes, anchors, sitemap).len() == (if script_bytes * 2 > page_bytes { 1int } else {
            0int
        }) + (if sitemap { 0int } else { 1int }),
        findings_of(page_bytes, script_bytes, anchors, sitemap).contains("no sitemap declared, so there is no surface to walk"@)
            == !sitemap,
{
    reveal_strlit("most of the page is script");
    reveal_strlit("most of the page is script — ");
    reveal_strlit("no sitemap declared, so there is no surface to walk");
    let f = findings_of(page_bytes, script_bytes, anchors, sitemap);
    let w = mostly_script_words();
    let none = "no sitemap declared, so there is no surface to walk"@;
    assert(!starts(none, w)) by {
        assert(none[0] != w[0]);
        assert(none.take(w.len() as int)[0] == none[0]);
    }
    if script_bytes * 2 > page_bytes {
        let head = "most of the page is script — "@;
        let first = head + human_bytes_of(script_bytes) + " of "@ + human_bytes_of(page_bytes) + ", and "@ + decimal(anchors)
            + " anchors. Its addresses are likely built at run time."@;
        assert(f[0] == first);
        assert(head.take(w.len() as int) =~= w);
        assert(first.take(w.len() as int) =~= w);
        assert(starts(f[0], w));
        let rest1 = " of "@ + human_bytes_of(page_bytes) + ", and "@ + decimal(anchors)
            + " anchors. Its addresses are likely built at run time."@;
        assert(first =~= head + human_bytes_of(script_bytes) + rest1);
        lemma_holds_between(head, human_bytes_of(script_bytes), rest1);
        let pre2 = head + human_bytes_of(script_bytes) + " of "@;
        let rest2 = ", and "@ + decimal(anchors) + " anchors. Its addresses are likely built at run time."@;
        assert(first =~= pre2 + human_bytes_of(page_bytes) + rest2);
        lemma_holds_between(pre2, human_bytes_of(page_bytes), rest2);
        if !sitemap {
            assert(f[1] == none);
            assert(f.contains(none));
        } else {
            assert(first.len() != none.len() || first != none) by {
                assert(first[0] == 'm' && none[0] == 'n');
            }
            assert(!f.contains(none)) by {
                if f.contains(none) {
                    let k = choose|k: int| 0 <= k < f.len() && f[k] == none;
                    assert(k == 0);
                    assert(first[0] == none[0]);
                }
            }
        }
    } else {
        assert forall|i: int| 0 <= i < f.len() implies !starts(#[trigger] f[i], w) by {
            assert(f[i] == none);
        }
        if !sitemap {
            assert(f[0] == none);
            assert(f.contains(none));
        }
    }
}

pub fn shape_findings(page_bytes: usize, script_bytes: usize, anchors: usize, sitemap_declared: bool) -> (f: Vec<String>)
    ensures
        f@.map_values(|s: String| s@) == findings_of(page_bytes as nat, script_bytes as nat, anchors as nat, sitemap_declared),
{
    let mut f: Vec<String> = Vec::new();
    if (script_bytes as u128) * 2 > page_bytes as u128 {
        let mut s = owned("most of the page is script — ");
        let a = human_bytes(script_bytes as u64);
        s.append(a.as_str());
        s.append(" of ");
        let b = human_bytes(page_bytes as u64);
        s.append(b.as_str());
        s.append(", and ");
        push_decimal(&mut s, anchors as u64);
        s.append(" anchors. Its addresses are likely built at run time.");
        f.push(s);
    }
    if !sitemap_declared {
        f.push(owned("no sitemap declared, so there is no surface to walk"));
    }
    assert(f@.map_values(|s: String| s@) =~= findings_of(page_bytes as nat, script_bytes as nat, anchors as nat, sitemap_declared));
    f
}

// ── the address ─────────────────────────────────────────────────────────────

/// Whether the URL parser reads `target` as an http(s) address.
pub open spec fn is_investigable(target: Seq<char>) -> bool {
    url_parse(target) matches Some((scheme, _, _)) && (scheme == "http"@ || scheme == "https"@)
}

/// The address to investigate, or why it is not one.
pub fn web_target(target: &str) -> (r: Result<ParsedUrl, String>)
    ensures
        r is Ok <==> is_investigable(target@),
        r matches Ok(u) ==> url_parse(target@) == Some((u.scheme@, crate::address::opt_view(u.host), u.serialized@)),
        r matches Err(m) ==> m@ == "`"@ + target@ + "` is not an http(s) address"@,
{
    match parse_url(target) {
        Some(u) => {
            if crate::text::str_eq(u.scheme.as_str(), "http") || crate::text::str_eq(u.scheme.as_str(), "https") {
                return Ok(u);
            }
        },
        None => {},
    }
    let mut m = owned("`");
    m.append(target);
    m.append("` is not an http(s) address");
    Err(m)
}

/// `s` cut at every `sep`.
pub open spec fn pieces(s: Seq<char>, sep: char) -> Seq<Seq<char>>
    decreases s.len(),
{
    if s.len() == 0 {
        seq![Seq::<char>::empty()]
    } else {
        let ps = pieces(s.drop_last(), sep);
        if s.last() == sep {
            ps.push(Seq::empty())
        } else {
            ps.update(ps.len() - 1, ps.last().push(s.last()))
        }
    }
}

proof fn lemma_pieces_nonempty(s: Seq<char>, sep: char)
    ensures
        pieces(s, sep).len() >= 1,
    decreases s.len(),
{
    if s.len() > 0 {
        lemma_pieces_nonempty(s.drop_last(), sep);
    }
}

/// The first label that names something: not empty, not `www`.
pub open spec fn first_name(ls: Seq<Seq<char>>) -> Option<Seq<char>>
    decreases ls.len(),
{
    if ls.len() == 0 {
        None
    } else if ls[0].len() > 0 && ls[0] != "www"@ {
        Some(ls[0])
    } else {
        first_name(ls.drop_first())
    }
}

/// A character of an id: ASCII letters and digits lowercased, anything else a dash.
pub open spec fn id_char(c: char) -> char {
    if is_alnum(c) { lower(c) } else { '-' }
}

/// A character a typed source id may hold: a lowercase ASCII letter, a digit, or a dash.
pub open spec fn id_typeable(c: char) -> bool {
    is_lower(c) || is_digit(c) || c == '-'
}

/// A source id a person would have typed: `publicrec.hillsclerk.com` → `publicrec`,
/// `www.tampa.gov` → `tampa`; an address with nothing usable gets `source`.
pub open spec fn suggest_id_of(host: Option<Seq<char>>) -> Seq<char> {
    let label = match host {
        Some(h) => match first_name(pieces(h, '.')) {
            Some(l) => l,
            None => "source"@,
        },
        None => "source"@,
    };
    let id = label.map_values(|c: char| id_char(c));
    if id.len() == 0 { "source"@ } else { id }
}

fn is_www(l: &Vec<char>) -> (b: bool)
    ensures
        b == (l@ == "www"@),
{
    proof {
        reveal_strlit("www");
    }
    let b = l.len() == 3 && l[0] == 'w' && l[1] == 'w' && l[2] == 'w';
    assert(b ==> l@ =~= "www"@);
    b
}

fn labels(h: &Vec<char>) -> (ls: Vec<Vec<char>>)
    ensures
        ls@.map_values(|l: Vec<char>| l@) == pieces(h@, '.'),
{
    let mut done: Vec<Vec<char>> = Vec::new();
    let mut cur: Vec<char> = Vec::new();
    let mut i: usize = 0;
    while i < h.len()
        invariant
            i <= h@.len(),
            pieces(h@.take(i as int), '.') == done@.map_values(|l: Vec<char>| l@).push(cur@),
        decreases h.len() - i,
    {
        let c = h[i];
        assert(h@.take(i + 1).drop_last() =~= h@.take(i as int));
        if c == '.' {
            let ghost before = done@.map_values(|l: Vec<char>| l@);
            let finished = cur;
            done.push(finished);
            cur = Vec::new();
            assert(done@.map_values(|l: Vec<char>| l@) =~= before.push(finished@));
        } else {
            cur.push(c);
        }
        i = i + 1;
        assert(pieces(h@.take(i as int), '.') =~= done@.map_values(|l: Vec<char>| l@).push(cur@));
    }
    assert(h@.take(h@.len() as int) =~= h@);
    let ghost before = done@.map_values(|l: Vec<char>| l@);
    done.push(cur);
    assert(done@.map_values(|l: Vec<char>| l@) =~= before.push(cur@));
    done
}

fn first_named(ls: &Vec<Vec<char>>) -> (o: Option<usize>)
    ensures
        match o {
            Some(k) => k < ls@.len() && first_name(ls@.map_values(|l: Vec<char>| l@)) == Some(ls@[k as int]@),
            None => first_name(ls@.map_values(|l: Vec<char>| l@)) is None,
        },
{
    let ghost lv = ls@.map_values(|l: Vec<char>| l@);
    let mut i: usize = 0;
    assert(lv.skip(0) =~= lv);
    while i < ls.len()
        invariant
            i <= ls@.len(),
            lv == ls@.map_values(|l: Vec<char>| l@),
            first_name(lv) == first_name(lv.skip(i as int)),
        decreases ls.len() - i,
    {
        assert(lv[i as int] == ls@[i as int]@);
        assert(lv.skip(i as int)[0] == lv[i as int]);
        if ls[i].len() > 0 && !is_www(&ls[i]) {
            return Some(i);
        }
        assert(lv.skip(i as int).drop_first() =~= lv.skip(i + 1));
        i = i + 1;
    }
    assert(lv.skip(ls@.len() as int) =~= Seq::<Seq<char>>::empty());
    None
}

/// Whatever the host, the suggested id is something an operator can type as it is: never
/// empty, and only lowercase letters, digits and dashes.
pub proof fn law_suggested_id_is_typeable(host: Option<Seq<char>>)
    ensures
        suggest_id_of(host).len() > 0,
        forall|i: int| 0 <= i < suggest_id_of(host).len() ==> id_typeable(#[trigger] suggest_id_of(host)[i]),
{
    reveal_strlit("source");
    let src = "source"@;
    assert(forall|i: int| 0 <= i < src.len() ==> is_lower(#[trigger] src[i]));
    let label = match host {
        Some(h) => match first_name(pieces(h, '.')) {
            Some(l) => l,
            None => src,
        },
        None => src,
    };
    let id = label.map_values(|c: char| id_char(c));
    assert forall|i: int| 0 <= i < id.len() implies id_typeable(#[trigger] id[i]) by {
        let c = label[i];
        assert(id[i] == id_char(c));
        if is_upper(c) {
            assert(is_lower(((c as int) + 32) as char));
        }
    }
}

pub fn suggest_id(host: Option<&str>) -> (id: String)
    ensures
        id@ == suggest_id_of(match host {
            Some(h) => Some(h@),
            None => None,
        }),
{
    proof {
        reveal_strlit("source");
    }
    let label: Vec<char> = match host {
        None => chars_of("source"),
        Some(h) => {
            let hc = chars_of(h);
            let ls = labels(&hc);
            let ghost lv = pieces(h@, '.');
            match first_named(&ls) {
                Some(k) => ls[k].clone(),
                None => chars_of("source"),
            }
        },
    };
    let mut id: Vec<char> = Vec::new();
    let mut i: usize = 0;
    while i < label.len()
        invariant
            i <= label@.len(),
            id@ == label@.take(i as int).map_values(|c: char| id_char(c)),
        decreases label.len() - i,
    {
        let c = label[i];
        id.push(if is_ascii_alnum(c) { to_lower(c) } else { '-' });
        i = i + 1;
        assert(id@ =~= label@.take(i as int).map_values(|c: char| id_char(c)));
    }
    assert(label@.take(label@.len() as int) =~= label@);
    if id.len() == 0 {
        return owned("source");
    }
    string_of(id.as_slice())
}

// ── the promotion ───────────────────────────────────────────────────────────

/// The `source add` this address earns, as arguments rather than as a line of shell.
#[derive(Debug)]
pub struct Promote {
    /// The id it would be filed under.
    pub id: String,
    /// The address, as given; `source add` keeps the path.
    pub site: String,
    /// Pinned only where a strategy recognised the address, never where the fallback
    /// merely walked it: there is no evidence in a guess.
    pub strategy: Option<String>,
}

pub open spec fn command_of(p: Promote) -> Seq<char> {
    "centinel source add "@ + p.id@ + " --site "@ + p.site@ + match p.strategy {
        Some(name) => " --strategy="@ + name@,
        None => Seq::empty(),
    }
}

impl Promote {
    /// The command that writes this block, ready to paste — and the one the CLI's offer
    /// runs, so what is printed and what would happen cannot drift apart.
    pub fn command(&self) -> (s: String)
        ensures
            s@ == command_of(*self),
    {
        let mut s = owned("centinel source add ");
        s.append(self.id.as_str());
        s.append(" --site ");
        s.append(self.site.as_str());
        match &self.strategy {
            Some(name) => {
                s.append(" --strategy=");
                s.append(name.as_str());
            },
            None => {},
        }
        s
    }
}

/// Offered on evidence of addresses, not only on evidence of recognition: something
/// recognised the seed, or a walk found addresses behind it. Pinned only when a strategy
/// recognised it.
pub fn promotion(
    any_recognised: bool,
    probed: Option<usize>,
    id: String,
    site: String,
    recognised_by: Option<String>,
) -> (p: Option<Promote>)
    ensures
        p is Some <==> (any_recognised || (probed matches Some(n) && n > 0)),
        p matches Some(q) ==> q.id == id && q.site == site && q.strategy == recognised_by,
{
    let offered = any_recognised || match probed {
        Some(n) => n > 0,
        None => false,
    };
    if offered {
        Some(Promote { id, site, strategy: recognised_by })
    } else {
        None
    }
}

impl Probe {
    /// What a walk found, as the probe reports it: the count, whether the walk ran to its
    /// end or hit its own ceiling, which strategy walked and whether only because nothing
    /// recognised the seed, and the first few addresses.
    pub fn walked(
        addresses: &Vec<String>,
        truncated: bool,
        strategy: String,
        recognised: bool,
        requests_allowed: usize,
        figures: Counts,
        declared_total: Option<u64>,
    ) -> (p: Probe)
        ensures
            p.addresses == addresses@.len(),
            p.complete == !truncated,
            p.strategy == strategy,
            p.by_fallback == !recognised,
            p.requests_allowed == requests_allowed,
            p.sample@.len() == (if addresses@.len() < SAMPLE { addresses@.len() } else { SAMPLE as nat }),
            forall|i: int| 0 <= i < p.sample@.len() ==> #[trigger] p.sample@[i]@ == addresses@[i]@,
            p.figures == figures,
            p.declared_total == declared_total,
    {
        let n = if addresses.len() < SAMPLE { addresses.len() } else { SAMPLE };
        let mut sample: Vec<String> = Vec::new();
        let mut i: usize = 0;
        while i < n
            invariant
                n <= addresses@.len(),
                i <= n,
                sample@.len() == i,
                forall|j: int| 0 <= j < i ==> #[trigger] sample@[j]@ == addresses@[j]@,
            decreases n - i,
        {
            sample.push(owned(addresses[i].as_str()));
            i = i + 1;
        }
        Probe {
            addresses: addresses.len(),
            complete: !truncated,
            strategy,
            by_fallback: !recognised,
            requests_allowed,
            sample,
            figures,
            declared_total,
        }
    }
}

/// Whether the seed page looks like what would be collected. A strategy that collects the
/// documents an index lists was pointed at a page of links on purpose, and its text is not
/// the corpus; with no recogniser, or one that collects pages, it is.
pub fn seed_is_collected(best_collects_documents: Option<bool>) -> (b: bool)
    ensures
        b == (match best_collects_documents {
            Some(d) => !d,
            None => true,
        }),
{
    match best_collects_documents {
        Some(d) => !d,
        None => true,
    }
}

// ── how it reads ────────────────────────────────────────────────────────────

/// A label in a column, then its value.
pub open spec fn kv(label: Seq<char>, width: nat, value: Seq<char>) -> Seq<char> {
    pad(label, width) + value
}

pub open spec fn seed_text(s: SeedSummary) -> Seq<char> {
    (match s.http_status {
        Some(h) => h@,
        None => "no status"@,
    }) + " · "@ + human_bytes_of(s.bytes as nat) + " · "@ + s.kind@ + " · "@ + (if s.robots_declared {
        "robots.txt read"@
    } else {
        "robots.txt unreachable, rules assumed"@
    })
}

/// The seed: what answered, and where from when a redirect moved it.
pub open spec fn seed_lines(depth: nat, s: SeedSummary) -> Seq<Seq<char>> {
    seq![Seq::<char>::empty(), at(depth, "seed"@), at(depth + 1, seed_text(s))] + match s.final_url {
        Some(u) => seq![at(depth + 1, kv("served from"@, 14, u@))],
        None => Seq::empty(),
    }
}

pub open spec fn evidence_lines(depth: nat, ns: Seq<Note>) -> Seq<Seq<char>> {
    ns.map_values(|n: Note| at(depth, kv(n.label@, 12, flat_all(n.detail@))))
}

pub open spec fn caveat_lines(depth: nat, ns: Seq<Note>) -> Seq<Seq<char>> {
    ns.map_values(|n: Note| marked_at(depth, Mark::Warn, flat_all(n.detail@)))
}

/// A runner-up asserts nothing: it is context for the choice, not a verdict.
pub open spec fn recognised_lines(depth: nat, r: Recognised) -> Seq<Seq<char>> {
    seq![
        Seq::<char>::empty(),
        at(depth, if r.best { "recognised"@ } else { "also"@ }),
        marked_at(
            depth + 1,
            if r.best { Mark::Good } else { Mark::Blank },
            r.strategy@ + " — "@ + r.keyed_on@ + " ("@ + r.kind@ + ")"@,
        ),
    ] + (if r.best {
        evidence_lines(depth + 1, r.evidence@) + caveat_lines(depth + 1, r.warnings@)
    } else {
        Seq::empty()
    })
}

/// The second thing a walk counted, with its noun: directories, else sitemaps.
pub open spec fn across_of(figures: Counts) -> Option<(u64, Seq<char>)> {
    match figures.at("directories"@) {
        Some(n) => Some((n, "directories"@)),
        None => match figures.at("sitemaps_fetched"@) {
            Some(n) => Some((n, "sitemaps"@)),
            None => None,
        },
    }
}

/// The count, and the word that stops a probe reading as a total.
pub open spec fn size_text(p: Probe) -> Seq<char> {
    grouped(p.addresses as nat) + " address(es)"@ + match across_of(p.figures) {
        Some((n, noun)) => " across "@ + grouped(n as nat) + " "@ + noun,
        None => Seq::empty(),
    } + if p.complete {
        "   (probe, "@ + decimal(p.requests_allowed as nat) + " req)"@
    } else {
        "   (probe STOPPED, "@ + decimal(p.requests_allowed as nat) + " req allowed — there is more)"@
    }
}

pub open spec fn probe_lines(depth: nat, p: Probe) -> Seq<Seq<char>> {
    let d = depth + 1;
    seq![
        Seq::<char>::empty(),
        at(depth, "size"@),
        marked_at(d, if p.complete { Mark::Good } else { Mark::Warn }, size_text(p)),
    ] + (if p.by_fallback {
        seq![
            at(
                d,
                kv(
                    "walked by"@,
                    12,
                    "`"@ + p.strategy@ + "`, as a fallback — nothing recognised this address, and `run` would do the same"@,
                ),
            ),
        ]
    } else {
        Seq::empty()
    }) + match p.declared_total {
        Some(t) => seq![at(d, kv("declared"@, 12, "the source names "@ + grouped(t as nat)))],
        None => Seq::empty(),
    } + p.sample@.map_values(|a: String| at(d, a@))
}

impl SeedSummary {
    pub fn render(&self, p: &mut Page)
        requires
            old(p).depth < usize::MAX,
        ensures
            final(p).text() == old(p).text() + seed_lines(old(p).depth as nat, *self),
            final(p).depth == old(p).depth,
    {
        p.section("seed");
        let mut line = match &self.http_status {
            Some(h) => owned(h.as_str()),
            None => owned("no status"),
        };
        line.append(" · ");
        let size = human_bytes(self.bytes as u64);
        line.append(size.as_str());
        line.append(" · ");
        line.append(self.kind.as_str());
        line.append(" · ");
        line.append(if self.robots_declared { "robots.txt read" } else { "robots.txt unreachable, rules assumed" });
        assert(line@ =~= seed_text(*self));
        p.enter();
        p.line(line.as_str());
        match &self.final_url {
            Some(u) => {
                let mut kvl = pad_to("served from", 14);
                kvl.append(u.as_str());
                p.line(kvl.as_str());
            },
            None => {},
        }
        p.leave();
        assert(p.text() =~= old(p).text() + seed_lines(old(p).depth as nat, *self));
    }
}

pub fn render_evidence(p: &mut Page, ns: &Vec<Note>)
    ensures
        final(p).text() == old(p).text() + evidence_lines(old(p).depth as nat, ns@),
        final(p).depth == old(p).depth,
{
    let ghost d = old(p).depth as nat;
    let mut i: usize = 0;
    while i < ns.len()
        invariant
            i <= ns@.len(),
            p.depth == d,
            p.text() == old(p).text() + evidence_lines(d, ns@.take(i as int)),
        decreases ns.len() - i,
    {
        let mut line = pad_to(ns[i].label.as_str(), 12);
        let detail = one_line(ns[i].detail.as_str());
        line.append(detail.as_str());
        p.line(line.as_str());
        i = i + 1;
        assert(evidence_lines(d, ns@.take(i as int)) =~= evidence_lines(d, ns@.take(i - 1)).push(
            at(d, kv(ns@[i - 1].label@, 12, flat_all(ns@[i - 1].detail@))),
        ));
    }
    assert(ns@.take(ns@.len() as int) =~= ns@);
}

fn render_caveats(p: &mut Page, ns: &Vec<Note>)
    ensures
        final(p).text() == old(p).text() + caveat_lines(old(p).depth as nat, ns@),
        final(p).depth == old(p).depth,
{
    let ghost d = old(p).depth as nat;
    let mut i: usize = 0;
    while i < ns.len()
        invariant
            i <= ns@.len(),
            p.depth == d,
            p.text() == old(p).text() + caveat_lines(d, ns@.take(i as int)),
        decreases ns.len() - i,
    {
        let detail = one_line(ns[i].detail.as_str());
        p.marked(Mark::Warn, detail.as_str());
        i = i + 1;
        assert(caveat_lines(d, ns@.take(i as int)) =~= caveat_lines(d, ns@.take(i - 1)).push(
            marked_at(d, Mark::Warn, flat_all(ns@[i - 1].detail@)),
        ));
    }
    assert(ns@.take(ns@.len() as int) =~= ns@);
}

impl Recognised {
    pub fn render(&self, p: &mut Page)
        requires
            old(p).depth < usize::MAX,
        ensures
            final(p).text() == old(p).text() + recognised_lines(old(p).depth as nat, *self),
            final(p).depth == old(p).depth,
    {
        p.section(if self.best { "recognised" } else { "also" });
        p.enter();
        let mut head = owned(self.strategy.as_str());
        head.append(" — ");
        head.append(self.keyed_on.as_str());
        head.append(" (");
        head.append(self.kind.as_str());
        head.append(")");
        p.marked(if self.best { Mark::Good } else { Mark::Blank }, head.as_str());
        if self.best {
            render_evidence(p, &self.evidence);
            render_caveats(p, &self.warnings);
        }
        p.leave();
        assert(p.text() =~= old(p).text() + recognised_lines(old(p).depth as nat, *self));
    }
}

impl Probe {
    fn size_line(&self) -> (s: String)
        ensures
            s@ == size_text(*self),
    {
        let mut s = String::new();
        push_count(&mut s, self.addresses as u64);
        s.append(" address(es)");
        let across = match self.figures.get("directories") {
            Some(n) => Some((n, "directories")),
            None => match self.figures.get("sitemaps_fetched") {
                Some(n) => Some((n, "sitemaps")),
                None => None,
            },
        };
        match across {
            Some((n, noun)) => {
                s.append(" across ");
                push_count(&mut s, n);
                s.append(" ");
                s.append(noun);
            },
            None => {},
        }
        if self.complete {
            s.append("   (probe, ");
            push_decimal(&mut s, self.requests_allowed as u64);
            s.append(" req)");
        } else {
            s.append("   (probe STOPPED, ");
            push_decimal(&mut s, self.requests_allowed as u64);
            s.append(" req allowed — there is more)");
        }
        assert(s@ =~= size_text(*self));
        s
    }

    pub fn render(&self, p: &mut Page)
        requires
            old(p).depth < usize::MAX,
        ensures
            final(p).text() == old(p).text() + probe_lines(old(p).depth as nat, *self),
            final(p).depth == old(p).depth,
    {
        let ghost d = old(p).depth as nat + 1;
        p.section("size");
        p.enter();
        let line = self.size_line();
        p.marked(if self.complete { Mark::Good } else { Mark::Warn }, line.as_str());
        let ghost t1 = p.text();
        if self.by_fallback {
            let mut l = pad_to("walked by", 12);
            l.append("`");
            l.append(self.strategy.as_str());
            l.append("`, as a fallback — nothing recognised this address, and `run` would do the same");
            assert(l@ =~= kv(
                "walked by"@,
                12,
                "`"@ + self.strategy@ + "`, as a fallback — nothing recognised this address, and `run` would do the same"@,
            ));
            p.line(l.as_str());
        }
        match self.declared_total {
            Some(t) => {
                let mut l = pad_to("declared", 12);
                l.append("the source names ");
                push_count(&mut l, t);
                assert(l@ =~= kv("declared"@, 12, "the source names "@ + grouped(t as nat)));
                p.line(l.as_str());
            },
            None => {},
        }
        let ghost top = p.text();
        assert(top =~= t1 + (if self.by_fallback {
            seq![
                at(
                    d,
                    kv(
                        "walked by"@,
                        12,
                        "`"@ + self.strategy@ + "`, as a fallback — nothing recognised this address, and `run` would do the same"@,
                    ),
                ),
            ]
        } else {
            Seq::empty()
        }) + match self.declared_total {
            Some(t) => seq![at(d, kv("declared"@, 12, "the source names "@ + grouped(t as nat)))],
            None => Seq::empty(),
        });
        let mut i: usize = 0;
        while i < self.sample.len()
            invariant
                i <= self.sample@.len(),
                p.depth == d,
                p.text() == top + self.sample@.take(i as int).map_values(|a: String| at(d, a@)),
            decreases self.sample.len() - i,
        {
            p.line(self.sample[i].as_str());
            i = i + 1;
            assert(self.sample@.take(i as int).map_values(|a: String| at(d, a@)) =~= self.sample@.take(
                i - 1,
            ).map_values(|a: String| at(d, a@)).push(at(d, self.sample@[i - 1]@)));
        }
        assert(self.sample@.take(self.sample@.len() as int) =~= self.sample@);
        p.leave();
        assert(p.text() =~= old(p).text() + probe_lines(old(p).depth as nat, *self));
    }
}

// ── the measurements and the whole report ───────────────────────────────────

pub open spec fn measured_text(r: ReadQuality) -> Seq<char> {
    decimal(r.chars as nat) + " chars, "@ + decimal(r.per_kb as nat) + " per KB, "@ + decimal(r.link_percent as nat)
        + "% link text"@
}

pub open spec fn plain_lines(depth: nat, xs: Seq<String>) -> Seq<Seq<char>> {
    xs.map_values(|x: String| at(depth, x@))
}

/// The numbers always; the verdict only when it is a lead, the read's findings first: a
/// site can be recognised, enumerate perfectly, and still hand back a menu.
pub open spec fn lead_lines(depth: nat, l: Lead) -> Seq<Seq<char>> {
    let d = depth + 1;
    seq![
        Seq::<char>::empty(),
        at(depth, "measured"@),
        at(d, kv("text"@, 12, measured_text(l.read))),
        at(d, kv("markup"@, 12, decimal(l.anchors as nat) + " anchors, "@ + human_bytes_of(l.script_bytes as nat) + " of <script>"@)),
        at(d, kv("sitemap"@, 12, if l.sitemap_declared { "declared"@ } else { "none declared"@ })),
    ] + (if l.findings@.len() > 0 || l.read.poor {
        seq![Seq::<char>::empty(), marked_at(d, Mark::Warn, "a lead"@)] + plain_lines(d, l.read.findings@) + plain_lines(
            d,
            l.findings@,
        )
    } else {
        Seq::empty()
    })
}

fn render_plain(p: &mut Page, xs: &Vec<String>)
    ensures
        final(p).text() == old(p).text() + plain_lines(old(p).depth as nat, xs@),
        final(p).depth == old(p).depth,
{
    let ghost d = old(p).depth as nat;
    let mut i: usize = 0;
    while i < xs.len()
        invariant
            i <= xs@.len(),
            p.depth == d,
            p.text() == old(p).text() + plain_lines(d, xs@.take(i as int)),
        decreases xs.len() - i,
    {
        p.line(xs[i].as_str());
        i = i + 1;
        assert(plain_lines(d, xs@.take(i as int)) =~= plain_lines(d, xs@.take(i - 1)).push(at(d, xs@[i - 1]@)));
    }
    assert(xs@.take(xs@.len() as int) =~= xs@);
}

impl Lead {
    pub fn render(&self, p: &mut Page)
        requires
            old(p).depth < usize::MAX,
        ensures
            final(p).text() == old(p).text() + lead_lines(old(p).depth as nat, *self),
            final(p).depth == old(p).depth,
    {
        let ghost d = old(p).depth as nat;
        p.section("measured");
        p.enter();
        let mut text = pad_to("text", 12);
        push_decimal(&mut text, self.read.chars as u64);
        text.append(" chars, ");
        push_decimal(&mut text, self.read.per_kb);
        text.append(" per KB, ");
        push_decimal(&mut text, self.read.link_percent);
        text.append("% link text");
        assert(text@ =~= kv("text"@, 12, measured_text(self.read)));
        p.line(text.as_str());
        let mut markup = pad_to("markup", 12);
        push_decimal(&mut markup, self.anchors as u64);
        markup.append(" anchors, ");
        let b = human_bytes(self.script_bytes as u64);
        markup.append(b.as_str());
        markup.append(" of <script>");
        assert(markup@ =~= kv(
            "markup"@,
            12,
            decimal(self.anchors as nat) + " anchors, "@ + human_bytes_of(self.script_bytes as nat) + " of <script>"@,
        ));
        p.line(markup.as_str());
        let mut sitemap = pad_to("sitemap", 12);
        sitemap.append(if self.sitemap_declared { "declared" } else { "none declared" });
        assert(sitemap@ =~= kv("sitemap"@, 12, if self.sitemap_declared { "declared"@ } else { "none declared"@ }));
        p.line(sitemap.as_str());
        let ghost t = p.text();
        if self.is_lead() {
            p.blank();
            p.marked(Mark::Warn, "a lead");
            render_plain(p, &self.read.findings);
            render_plain(p, &self.findings);
        }
        p.leave();
        assert(p.text() =~= old(p).text() + lead_lines(d, *self));
    }
}

/// An off-host host the seed links to: named, not followed.
#[derive(Debug)]
pub struct SiteCrumb {
    pub host: String,
    pub links: usize,
}

#[derive(Debug)]
pub struct InvestigateReport {
    pub address: String,
    pub seed: SeedSummary,
    /// Everything that recognised it, most specific first. Empty is a real answer.
    pub recognised: Vec<Recognised>,
    pub probe: Option<Probe>,
    pub lead: Option<Lead>,
    pub crumbs: Vec<SiteCrumb>,
    /// What adding this would take, when there is anything to add.
    pub promote: Option<Promote>,
    pub warnings: Vec<String>,
    pub elapsed_millis: u64,
}

pub open spec fn recognised_all(depth: nat, rs: Seq<Recognised>) -> Seq<Seq<char>>
    decreases rs.len(),
{
    if rs.len() == 0 {
        Seq::empty()
    } else {
        recognised_all(depth, rs.drop_last()) + recognised_lines(depth, rs.last())
    }
}

pub open spec fn crumb_lines(depth: nat, cs: Seq<SiteCrumb>) -> Seq<Seq<char>> {
    cs.map_values(|c: SiteCrumb| at(depth, kv(c.host@, 32, decimal(c.links as nat) + " link(s)"@)))
}

#[verifier::opaque]
pub open spec fn recognised_part(d: nat, r: InvestigateReport) -> Seq<Seq<char>> {
    if r.recognised@.len() > 0 {
        recognised_all(d, r.recognised@)
    } else {
        seq![Seq::<char>::empty(), at(d, "recognised"@), marked_at(d + 1, Mark::Warn, "nothing"@)]
    }
}

#[verifier::opaque]
pub open spec fn probe_part(d: nat, r: InvestigateReport) -> Seq<Seq<char>> {
    match r.probe {
        Some(p) => probe_lines(d, p),
        None => Seq::empty(),
    }
}

#[verifier::opaque]
pub open spec fn lead_part(d: nat, r: InvestigateReport) -> Seq<Seq<char>> {
    match r.lead {
        Some(l) => lead_lines(d, l),
        None => Seq::empty(),
    }
}

#[verifier::opaque]
pub open spec fn tail_part(d: nat, r: InvestigateReport) -> Seq<Seq<char>> {
    (if r.crumbs@.len() > 0 {
        seq![Seq::<char>::empty(), at(d, "crumbs"@)] + crumb_lines(d + 1, r.crumbs@)
    } else {
        Seq::empty()
    }) + (if r.warnings@.len() > 0 {
        seq![Seq::<char>::empty(), at(d, "warnings"@)] + r.warnings@.map_values(
            |w: String| marked_at(d + 1, Mark::Warn, flat_all(w@)),
        )
    } else {
        Seq::empty()
    })
}

/// The `source add` line, or why there is none: a walk that found nothing behind the
/// address and `--no-probe` that did not look read differently.
pub open spec fn promote_text(r: InvestigateReport) -> Seq<char> {
    match r.promote {
        Some(pr) => command_of(pr),
        None => if r.probe is Some {
            "no `source add` line: nothing recognised this address and a fallback walk found no addresses behind it, so collecting it would store this page and little else."@
        } else {
            "no `source add` line: nothing recognised this address, and `--no-probe` means no walk was tried. Run without it to see whether the fallback finds anything."@
        },
    }
}

/// Printed unconditionally and in this order: what claims the site, what a walk found, and
/// what the read looks like — each an answer to its own question.
pub open spec fn investigate_lines(depth: nat, r: InvestigateReport) -> Seq<Seq<char>> {
    let d = depth + 1;
    seq![at(depth, title_text(r.address@, duration_of(r.elapsed_millis as nat)))] + seed_lines(d, r.seed)
        + recognised_part(d, r) + probe_part(d, r) + lead_part(d, r) + tail_part(d, r) + seq![
        Seq::<char>::empty(),
        at(d, promote_text(r)),
    ]
}

impl InvestigateReport {
    fn render_recognised(&self, p: &mut Page)
        requires
            old(p).depth + 1 < usize::MAX,
        ensures
            final(p).text() == old(p).text() + recognised_part(old(p).depth as nat, *self),
            final(p).depth == old(p).depth,
    {
        reveal(recognised_part);
        let ghost d = old(p).depth as nat;
        if self.recognised.len() == 0 {
            p.section("recognised");
            p.enter();
            p.marked(Mark::Warn, "nothing");
            p.leave();
            return;
        }
        let ghost top = p.text();
        assert(recognised_all(d, self.recognised@.take(0)) =~= Seq::<Seq<char>>::empty());
        let mut i: usize = 0;
        while i < self.recognised.len()
            invariant
                i <= self.recognised@.len(),
                p.depth == d,
                d + 1 < usize::MAX,
                p.text() == top + recognised_all(d, self.recognised@.take(i as int)),
            decreases self.recognised.len() - i,
        {
            assert(self.recognised@.take(i + 1).drop_last() =~= self.recognised@.take(i as int));
            self.recognised[i].render(p);
            i = i + 1;
            assert(p.text() =~= top + recognised_all(d, self.recognised@.take(i as int)));
        }
        assert(self.recognised@.take(self.recognised@.len() as int) =~= self.recognised@);
    }

    fn render_tail(&self, p: &mut Page)
        requires
            old(p).depth + 1 < usize::MAX,
        ensures
            final(p).text() == old(p).text() + tail_part(old(p).depth as nat, *self),
            final(p).depth == old(p).depth,
    {
        reveal(tail_part);
        let ghost d = old(p).depth as nat;
        if self.crumbs.len() > 0 {
            p.section("crumbs");
            p.enter();
            let ghost top = p.text();
            let mut i: usize = 0;
            while i < self.crumbs.len()
                invariant
                    i <= self.crumbs@.len(),
                    p.depth == d + 1,
                    p.text() == top + crumb_lines(d + 1, self.crumbs@.take(i as int)),
                decreases self.crumbs.len() - i,
            {
                let mut line = pad_to(self.crumbs[i].host.as_str(), 32);
                push_decimal(&mut line, self.crumbs[i].links as u64);
                line.append(" link(s)");
                assert(line@ =~= kv(self.crumbs@[i as int].host@, 32, decimal(self.crumbs@[i as int].links as nat) + " link(s)"@));
                p.line(line.as_str());
                i = i + 1;
                assert(crumb_lines(d + 1, self.crumbs@.take(i as int)) =~= crumb_lines(d + 1, self.crumbs@.take(i - 1)).push(
                    at(d + 1, kv(self.crumbs@[i - 1].host@, 32, decimal(self.crumbs@[i - 1].links as nat) + " link(s)"@)),
                ));
            }
            assert(self.crumbs@.take(self.crumbs@.len() as int) =~= self.crumbs@);
            p.leave();
        }
        let ghost mid = p.text();
        if self.warnings.len() > 0 {
            p.section("warnings");
            p.enter();
            let ghost top = p.text();
            let mut i: usize = 0;
            while i < self.warnings.len()
                invariant
                    i <= self.warnings@.len(),
                    p.depth == d + 1,
                    p.text() == top + self.warnings@.take(i as int).map_values(
                        |w: String| marked_at(d + 1, Mark::Warn, flat_all(w@)),
                    ),
                decreases self.warnings.len() - i,
            {
                let w = one_line(self.warnings[i].as_str());
                p.marked(Mark::Warn, w.as_str());
                i = i + 1;
                assert(self.warnings@.take(i as int).map_values(|w: String| marked_at(d + 1, Mark::Warn, flat_all(w@)))
                    =~= self.warnings@.take(i - 1).map_values(|w: String| marked_at(d + 1, Mark::Warn, flat_all(w@))).push(
                    marked_at(d + 1, Mark::Warn, flat_all(self.warnings@[i - 1]@)),
                ));
            }
            assert(self.warnings@.take(self.warnings@.len() as int) =~= self.warnings@);
            p.leave();
        }
        assert(p.text() =~= mid + (if self.warnings@.len() > 0 {
            seq![Seq::<char>::empty(), at(d, "warnings"@)] + self.warnings@.map_values(
                |w: String| marked_at(d + 1, Mark::Warn, flat_all(w@)),
            )
        } else {
            Seq::empty()
        }));
        assert(p.text() =~= old(p).text() + tail_part(d, *self));
    }

    fn render_probe(&self, p: &mut Page)
        requires
            old(p).depth < usize::MAX,
        ensures
            final(p).text() == old(p).text() + probe_part(old(p).depth as nat, *self),
            final(p).depth == old(p).depth,
    {
        reveal(probe_part);
        match &self.probe {
            Some(probe) => probe.render(p),
            None => {
                assert(p.text() =~= old(p).text() + probe_part(old(p).depth as nat, *self));
            },
        }
    }

    fn render_lead(&self, p: &mut Page)
        requires
            old(p).depth < usize::MAX,
        ensures
            final(p).text() == old(p).text() + lead_part(old(p).depth as nat, *self),
            final(p).depth == old(p).depth,
    {
        reveal(lead_part);
        match &self.lead {
            Some(lead) => lead.render(p),
            None => {
                assert(p.text() =~= old(p).text() + lead_part(old(p).depth as nat, *self));
            },
        }
    }

    fn promote_line(&self) -> (s: String)
        ensures
            s@ == promote_text(*self),
    {
        match &self.promote {
            Some(pr) => pr.command(),
            None => {
                if self.probe.is_some() {
                    owned(
                        "no `source add` line: nothing recognised this address and a fallback walk found no addresses behind it, so collecting it would store this page and little else.",
                    )
                } else {
                    owned(
                        "no `source add` line: nothing recognised this address, and `--no-probe` means no walk was tried. Run without it to see whether the fallback finds anything.",
                    )
                }
            },
        }
    }

    pub fn render(&self, p: &mut Page)
        requires
            old(p).depth + 3 < usize::MAX,
        ensures
            final(p).text() == old(p).text() + investigate_lines(old(p).depth as nat, *self),
            final(p).depth == old(p).depth,
    {
        let ghost d = old(p).depth as nat;
        let took = duration(self.elapsed_millis);
        p.title(self.address.as_str(), took.as_str());
        p.enter();
        let ghost t0 = p.text();
        self.seed.render(p);
        let ghost t1 = p.text();
        self.render_recognised(p);
        let ghost t2 = p.text();
        self.render_probe(p);
        let ghost t3 = p.text();
        self.render_lead(p);
        let ghost t4 = p.text();
        self.render_tail(p);
        let ghost t5 = p.text();
        p.blank();
        let line = self.promote_line();
        assert(line@ == promote_text(*self));
        p.line(line.as_str());
        p.leave();
        assert(p.text() =~= t5 + seq![Seq::<char>::empty(), at(d + 1, promote_text(*self))]);
        assert(p.text() =~= old(p).text() + investigate_lines(d, *self));
    }
}

} // verus!
