//! `models` — inspect, fetch, verify and remove model weights.
//!
//! Weights are never fetched as a side effect of something else: a scheduled 3am crawl
//! can fail on a missing model but can never decide to download 1.7 GB on its own. The
//! transfers, hashing and deletions are the host's; what is decided here is how an
//! argument set reads, how a size reads, and why a cached directory is unreferenced.
use vstd::prelude::*;

use crate::ops::check::{file_name, file_name_of};
use crate::ops::run::{duration, duration_of};
use crate::page::{at, glyph, marked_at, title_text, Mark, Page};
use crate::text::{decimal, digit_char, flat_all, one_line, owned, plural, plural_of, push_char, push_decimal, str_eq};

verus! {

#[derive(Debug)]
pub struct ModelsArgs {
    pub action: ModelsAction,
}

#[derive(Debug)]
pub enum ModelsAction {
    /// Show every model in the registry and what is on disk.
    List,
    /// Download weights. Resumes an interrupted pull.
    Pull(PullArgs),
    /// Re-hash installed files against their pinned digests.
    Verify(VerifyArgs),
    /// Delete downloaded weights.
    Remove(RemoveArgs),
    /// Delete cached weights the registry no longer references.
    Prune(PruneArgs),
    /// Print the weights cache directory.
    Dir,
}

#[derive(Debug)]
pub struct PullArgs {
    /// Model id. Omit to pull the default variant of every model.
    pub model: Option<String>,
    /// Quantization to fetch. Only meaningful with an explicit model.
    pub variant: Option<String>,
    /// Re-download files already present, discarding any partial transfer.
    pub force: bool,
}

#[derive(Debug)]
pub struct VerifyArgs {
    /// Model id. Omit to verify everything installed.
    pub model: Option<String>,
}

#[derive(Debug)]
pub struct RemoveArgs {
    /// Model id whose weights to delete.
    pub model: String,
    /// Delete only this quantization, leaving any others in place.
    pub variant: Option<String>,
}

#[derive(Debug)]
pub struct PruneArgs {
    /// Actually delete. Without this, `prune` only reports what it would remove.
    pub delete: bool,
}

#[derive(Debug)]
pub struct FetchedFile {
    pub model: String,
    pub path: String,
    pub bytes: u64,
    /// Byte offset an interrupted transfer resumed from. 0 for a fresh download.
    pub resumed_from: u64,
}

#[derive(Debug)]
pub struct FileCheck {
    pub model: String,
    pub path: String,
    pub ok: bool,
    pub problem: Option<String>,
}

/// A cache directory the registry no longer names.
#[derive(Debug)]
pub struct Orphan {
    pub path: String,
    pub bytes: u64,
    /// Why it is unreferenced, as far as can be told.
    pub reason: String,
}

/// Why a cached revision of `repo` is unreferenced: either the registry still ships the
/// repository at another revision, or it no longer ships it at all.
pub open spec fn orphan_reason_of(repo: Seq<char>, known: bool) -> Seq<char> {
    if known {
        repo + " is pinned to a different revision"@
    } else {
        repo + " is no longer in the registry"@
    }
}

pub fn orphan_reason(repo: &str, known: bool) -> (s: String)
    ensures
        s@ == orphan_reason_of(repo@, known),
{
    let mut s = String::new();
    s.append(repo);
    if known {
        s.append(" is pinned to a different revision");
    } else {
        s.append(" is no longer in the registry");
    }
    s
}

/// A model of the registry, as far as choosing what to pull reads it.
#[derive(Debug)]
pub struct Listed {
    pub id: String,
    /// The quantization pulled when none is asked for.
    pub default_variant: String,
    /// Every quantization it publishes.
    pub variants: Vec<String>,
}

pub open spec fn listed_ids(r: Seq<Listed>) -> Seq<Seq<char>> {
    r.map_values(|l: Listed| l.id@)
}

/// The first model of the registry with this id.
pub open spec fn find_listed(r: Seq<Listed>, id: Seq<char>) -> Option<int>
    decreases r.len(),
{
    if r.len() == 0 {
        None
    } else if r[0].id@ == id {
        Some(0)
    } else {
        match find_listed(r.drop_first(), id) {
            Some(i) => Some(i + 1),
            None => None,
        }
    }
}

pub open spec fn unknown_model_message(id: Seq<char>, r: Seq<Listed>) -> Seq<char> {
    "no model `"@ + id + "` in the registry; it has "@ + crate::text::join_with(listed_ids(r), ", "@)
}

pub open spec fn unknown_variant_message(l: Listed, v: Seq<char>) -> Seq<char> {
    "`"@ + l.id@ + "` has no variant `"@ + v + "`; it has "@ + crate::text::join_with(
        l.variants@.map_values(|s: String| s@),
        ", "@,
    )
}

/// What a pull or a check covers: the model named with the variant asked, or its default;
/// with no model, every model of the registry at its default. A variant without a model is
/// refused, and so is a model or a variant the registry does not have, naming what it has.
pub open spec fn selection_spec(r: Seq<Listed>, model: Option<Seq<char>>, variant: Option<Seq<char>>) -> Result<
    Seq<(Seq<char>, Seq<char>)>,
    Seq<char>,
> {
    match model {
        None => match variant {
            Some(_) => Err("--variant needs a model; it does not mean the same files on every model"@),
            None => Ok(r.map_values(|l: Listed| (l.id@, l.default_variant@))),
        },
        Some(id) => match find_listed(r, id) {
            None => Err(unknown_model_message(id, r)),
            Some(i) => match variant {
                None => Ok(seq![(r[i].id@, r[i].default_variant@)]),
                Some(v) => if r[i].variants@.map_values(|s: String| s@).contains(v) {
                    Ok(seq![(r[i].id@, v)])
                } else {
                    Err(unknown_variant_message(r[i], v))
                },
            },
        },
    }
}

proof fn lemma_find_listed(r: Seq<Listed>, id: Seq<char>, i: int)
    requires
        0 <= i <= r.len(),
        forall|j: int| 0 <= j < i ==> #[trigger] r[j].id@ != id,
    ensures
        find_listed(r, id) == (if i < r.len() && r[i].id@ == id {
            Some(i)
        } else {
            match find_listed(r.subrange(i, r.len() as int), id) {
                Some(k) => Some(k + i),
                None => None,
            }
        }),
    decreases i,
{
    if i == 0 {
        assert(r.subrange(0, r.len() as int) =~= r);
        if r.len() > 0 && r[0].id@ == id {
        } else {
            match find_listed(r, id) {
                Some(k) => {},
                None => {},
            }
        }
    } else {
        lemma_find_listed(r, id, i - 1);
        let t = r.subrange(i - 1, r.len() as int);
        assert(t.drop_first() =~= r.subrange(i, r.len() as int));
        assert(t[0] == r[i - 1]);
    }
}

/// A pull covers what it names. With a model the registry lists (first at `i`), exactly
/// that one model: at its default variant when none is asked, at the variant asked when the
/// model publishes it, and nothing but a refusal otherwise. With no model, every model the
/// registry lists, in its order, each at its default. A model it does not list is refused.
pub proof fn law_a_pull_covers_what_it_names(r: Seq<Listed>, id: Seq<char>, v: Seq<char>)
    ensures
        forall|i: int|
            #![trigger r[i]]
            0 <= i < r.len() && r[i].id@ == id && (forall|j: int| 0 <= j < i ==> #[trigger] r[j].id@ != id) ==> {
                &&& selection_spec(r, Some(id), None) == Ok::<Seq<(Seq<char>, Seq<char>)>, Seq<char>>(
                    seq![(id, r[i].default_variant@)],
                )
                &&& (exists|k: int| 0 <= k < r[i].variants@.len() && #[trigger] r[i].variants@[k]@ == v)
                    ==> selection_spec(r, Some(id), Some(v)) == Ok::<Seq<(Seq<char>, Seq<char>)>, Seq<char>>(
                    seq![(id, v)],
                )
                &&& (forall|k: int| 0 <= k < r[i].variants@.len() ==> #[trigger] r[i].variants@[k]@ != v)
                    ==> selection_spec(r, Some(id), Some(v)) is Err
            },
        (forall|j: int| 0 <= j < r.len() ==> #[trigger] r[j].id@ != id) ==> selection_spec(r, Some(id), None) is Err
            && selection_spec(r, Some(id), Some(v)) is Err,
        selection_spec(r, None, None) matches Ok(all) && all.len() == r.len() && forall|k: int|
            0 <= k < r.len() ==> #[trigger] all[k] == (r[k].id@, r[k].default_variant@),
        selection_spec(r, None, Some(v)) is Err,
{
    assert forall|i: int|
        #![trigger r[i]]
        0 <= i < r.len() && r[i].id@ == id && (forall|j: int| 0 <= j < i ==> #[trigger] r[j].id@ != id) implies {
            &&& selection_spec(r, Some(id), None) == Ok::<Seq<(Seq<char>, Seq<char>)>, Seq<char>>(
                seq![(id, r[i].default_variant@)],
            )
            &&& (exists|k: int| 0 <= k < r[i].variants@.len() && #[trigger] r[i].variants@[k]@ == v)
                ==> selection_spec(r, Some(id), Some(v)) == Ok::<Seq<(Seq<char>, Seq<char>)>, Seq<char>>(
                seq![(id, v)],
            )
            &&& (forall|k: int| 0 <= k < r[i].variants@.len() ==> #[trigger] r[i].variants@[k]@ != v)
                ==> selection_spec(r, Some(id), Some(v)) is Err
        } by {
        lemma_find_listed(r, id, i);
        let vs = r[i].variants@.map_values(|s: String| s@);
        if exists|k: int| 0 <= k < r[i].variants@.len() && #[trigger] r[i].variants@[k]@ == v {
            let k = choose|k: int| 0 <= k < r[i].variants@.len() && #[trigger] r[i].variants@[k]@ == v;
            assert(vs[k] == v);
            assert(vs.contains(v));
        }
        if forall|k: int| 0 <= k < r[i].variants@.len() ==> #[trigger] r[i].variants@[k]@ != v {
            if vs.contains(v) {
                let k = choose|k: int| 0 <= k < vs.len() && vs[k] == v;
                assert(r[i].variants@[k]@ == v);
            }
        }
    }
    if forall|j: int| 0 <= j < r.len() ==> #[trigger] r[j].id@ != id {
        lemma_find_listed(r, id, r.len() as int);
        assert(r.subrange(r.len() as int, r.len() as int) =~= Seq::<Listed>::empty());
    }
}

/// Where the registry lists a model, if it does.
fn position(registry: &Vec<Listed>, id: &str) -> (k: Option<usize>)
    ensures
        match k {
            Some(i) => i < registry@.len() && find_listed(registry@, id@) == Some(i as int),
            None => find_listed(registry@, id@) is None,
        },
{
    let mut i: usize = 0;
    while i < registry.len()
        invariant
            i <= registry@.len(),
            forall|j: int| 0 <= j < i ==> #[trigger] registry@[j].id@ != id@,
        decreases registry.len() - i,
    {
        if str_eq(registry[i].id.as_str(), id) {
            proof {
                lemma_find_listed(registry@, id@, i as int);
            }
            return Some(i);
        }
        i = i + 1;
    }
    proof {
        lemma_find_listed(registry@, id@, i as int);
        assert(registry@.subrange(i as int, registry@.len() as int) =~= Seq::<Listed>::empty());
    }
    None
}

/// The models and variants a pull covers, or why it covers none.
pub fn selection(registry: &Vec<Listed>, model: Option<&str>, variant: Option<&str>) -> (r: Result<
    Vec<(String, String)>,
    String,
>)
    ensures
        match (r, selection_spec(registry@, opt_str(model), opt_str(variant))) {
            (Ok(picked), Ok(want)) => picked@.map_values(|p: (String, String)| (p.0@, p.1@)) == want,
            (Err(e), Err(want)) => e@ == want,
            _ => false,
        },
{
    match model {
        None => {
            if variant.is_some() {
                return Err(owned("--variant needs a model; it does not mean the same files on every model"));
            }
            let mut out: Vec<(String, String)> = Vec::new();
            let mut i: usize = 0;
            while i < registry.len()
                invariant
                    i <= registry@.len(),
                    out@.map_values(|p: (String, String)| (p.0@, p.1@)) == registry@.take(i as int).map_values(
                        |l: Listed| (l.id@, l.default_variant@),
                    ),
                decreases registry.len() - i,
            {
                let ghost before = out@;
                out.push((owned(registry[i].id.as_str()), owned(registry[i].default_variant.as_str())));
                i = i + 1;
                proof {
                    let om = out@.map_values(|p: (String, String)| (p.0@, p.1@));
                    let rm = registry@.take(i as int).map_values(|l: Listed| (l.id@, l.default_variant@));
                    let bm = before.map_values(|p: (String, String)| (p.0@, p.1@));
                    let pm = registry@.take(i - 1).map_values(|l: Listed| (l.id@, l.default_variant@));
                    assert(bm == pm);
                    assert forall|j: int| 0 <= j < i implies #[trigger] om[j] == rm[j] by {
                        if j < i - 1 {
                            assert(out@[j] == before[j]);
                            assert(bm[j] == pm[j]);
                        }
                    }
                    assert(om =~= rm);
                }
            }
            assert(registry@.take(registry@.len() as int) =~= registry@);
            Ok(out)
        },
        Some(id) => {
            let found = position(registry, id);
            if found.is_none() {
                let mut ids: Vec<String> = Vec::new();
                let mut k: usize = 0;
                while k < registry.len()
                    invariant
                        k <= registry@.len(),
                        ids@.map_values(|x: String| x@) == listed_ids(registry@.take(k as int)),
                    decreases registry.len() - k,
                {
                    let ghost before = ids@;
                    ids.push(owned(registry[k].id.as_str()));
                    k = k + 1;
                    proof {
                        let om = ids@.map_values(|x: String| x@);
                        let rm = listed_ids(registry@.take(k as int));
                        let bm = before.map_values(|x: String| x@);
                        let pm = listed_ids(registry@.take(k - 1));
                        assert(bm == pm);
                        assert forall|j: int| 0 <= j < k implies #[trigger] om[j] == rm[j] by {
                            if j < k - 1 {
                                assert(ids@[j] == before[j]);
                                assert(bm[j] == pm[j]);
                            }
                        }
                        assert(om =~= rm);
                    }
                }
                assert(registry@.take(registry@.len() as int) =~= registry@);
                let mut e = owned("no model `");
                e.append(id);
                e.append("` in the registry; it has ");
                let names = crate::ops::schedule::joined(&ids, ", ");
                assert(crate::ops::schedule::texts(ids@) =~= listed_ids(registry@));
                e.append(names.as_str());
                return Err(e);
            }
            let i = found.unwrap();
            let spec = &registry[i];
            match variant {
                None => {
                    let mut out: Vec<(String, String)> = Vec::new();
                    out.push((owned(spec.id.as_str()), owned(spec.default_variant.as_str())));
                    assert(out@.map_values(|p: (String, String)| (p.0@, p.1@)) =~= seq![(spec.id@, spec.default_variant@)]);
                    Ok(out)
                },
                Some(v) => {
                    let mut j: usize = 0;
                    while j < spec.variants.len()
                        invariant
                            j <= spec.variants@.len(),
                            forall|m: int| 0 <= m < j ==> #[trigger] spec.variants@[m]@ != v@,
                            i < registry@.len(),
                            *spec == registry@[i as int],
                            find_listed(registry@, id@) == Some(i as int),
                            opt_str(variant) == Some(v@),
                            opt_str(model) == Some(id@),
                        decreases spec.variants.len() - j,
                    {
                        if str_eq(spec.variants[j].as_str(), v) {
                            let mut out: Vec<(String, String)> = Vec::new();
                            out.push((owned(spec.id.as_str()), owned(v)));
                            assert(spec.variants@.map_values(|s: String| s@)[j as int] == v@);
                            assert(spec.variants@.map_values(|s: String| s@).contains(v@));

                            assert(out@.map_values(|p: (String, String)| (p.0@, p.1@)) =~= seq![(spec.id@, v@)]);
                            return Ok(out);
                        }
                        j = j + 1;
                    }
                    assert(!spec.variants@.map_values(|s: String| s@).contains(v@)) by {
                        if spec.variants@.map_values(|s: String| s@).contains(v@) {
                            let vs = spec.variants@.map_values(|s: String| s@);
                            let m = choose|m: int| 0 <= m < vs.len() && #[trigger] vs[m] == v@;
                            assert(spec.variants@[m]@ == v@);
                        }
                    }
                    let mut e = owned("`");
                    e.append(spec.id.as_str());
                    e.append("` has no variant `");
                    e.append(v);
                    e.append("`; it has ");
                    let names = crate::ops::schedule::joined(&spec.variants, ", ");
                    assert(crate::ops::schedule::texts(spec.variants@) =~= spec.variants@.map_values(|s: String| s@));
                    e.append(names.as_str());
                    Err(e)
                },
            }
        },
    }
}

pub open spec fn opt_str(o: Option<&str>) -> Option<Seq<char>> {
    match o {
        Some(s) => Some(s@),
        None => None,
    }
}

/// Whether a `--variant` can stand with the model named: a variant without a model is
/// refused, since an embedder and a reranker publish different quantization ladders.
pub open spec fn selection_ok(model: Option<Seq<char>>, variant: Option<Seq<char>>) -> bool {
    model is Some || variant is None
}

pub fn selection_error(model: &Option<String>, variant: &Option<String>) -> (e: Option<&'static str>)
    ensures
        e is None <==> selection_ok(
            match model {
                Some(m) => Some(m@),
                None => None,
            },
            match variant {
                Some(v) => Some(v@),
                None => None,
            },
        ),
{
    if model.is_none() && variant.is_some() {
        Some("--variant needs a model; it does not mean the same files on every model")
    } else {
        None
    }
}

// ── sizes ───────────────────────────────────────────────────────────────────

/// 1024 to the `k`th, for the units this names.
pub open spec fn pow1024(k: nat) -> nat {
    if k == 0 {
        1
    } else if k == 1 {
        1024
    } else if k == 2 {
        1048576
    } else if k == 3 {
        1073741824
    } else {
        1099511627776
    }
}

/// The largest binary unit, up to TiB, that the size reaches.
pub open spec fn unit_of(b: nat) -> nat {
    if b >= pow1024(4) {
        4
    } else if b >= pow1024(3) {
        3
    } else if b >= pow1024(2) {
        2
    } else if b >= pow1024(1) {
        1
    } else {
        0
    }
}

pub open spec fn unit_name(k: nat) -> Seq<char> {
    if k == 1 {
        "KiB"@
    } else if k == 2 {
        "MiB"@
    } else if k == 3 {
        "GiB"@
    } else {
        "TiB"@
    }
}

/// `b / d` in hundredths, rounded to nearest with ties to even.
pub open spec fn hundredths(b: nat, d: nat) -> nat {
    let q = (b * 100) / d;
    let r = (b * 100) % d;
    if 2 * r > d || (2 * r == d && q % 2 == 1) {
        q + 1
    } else {
        q
    }
}

pub open spec fn two_digits(m: nat) -> Seq<char> {
    seq![digit_char((m / 10) as int), digit_char((m % 10) as int)]
}

/// A size in binary units: bytes exactly below a KiB, else two decimals of the largest
/// unit reached — `1023 B`, `1.00 KiB`, `585.11 MiB`.
pub open spec fn human_bytes_of(b: nat) -> Seq<char> {
    let k = unit_of(b);
    if k == 0 {
        decimal(b) + " B"@
    } else {
        let h = hundredths(b, pow1024(k));
        decimal(h / 100) + seq!['.'] + two_digits(h % 100) + seq![' '] + unit_name(k)
    }
}

/// A size is written without a dash.
pub proof fn lemma_human_bytes_dashless(b: nat)
    ensures
        crate::text::dashless(human_bytes_of(b)),
{
    reveal_strlit(" B");
    reveal_strlit("KiB");
    reveal_strlit("MiB");
    reveal_strlit("GiB");
    reveal_strlit("TiB");
    let k = unit_of(b);
    if k == 0 {
        crate::text::lemma_numbers_dashless(b);
        crate::text::lemma_dashless_concat(decimal(b), " B"@);
    } else {
        let h = hundredths(b, pow1024(k));
        crate::text::lemma_numbers_dashless(h / 100);
        let a = decimal(h / 100) + seq!['.'];
        crate::text::lemma_dashless_concat(decimal(h / 100), seq!['.']);
        crate::text::lemma_dashless_concat(a, two_digits(h % 100));
        crate::text::lemma_dashless_concat(a + two_digits(h % 100), seq![' ']);
        crate::text::lemma_dashless_concat(a + two_digits(h % 100) + seq![' '], unit_name(k));
    }
}

fn digit_of(d: u64) -> (c: char)
    requires
        d < 10,
    ensures
        c == digit_char(d as int),
{
    if d == 0 { '0' } else if d == 1 { '1' } else if d == 2 { '2' } else if d == 3 { '3' }
    else if d == 4 { '4' } else if d == 5 { '5' } else if d == 6 { '6' } else if d == 7 { '7' }
    else if d == 8 { '8' } else { '9' }
}

pub fn human_bytes(bytes: u64) -> (s: String)
    ensures
        s@ == human_bytes_of(bytes as nat),
{
    let mut s = String::new();
    if bytes < 1024 {
        push_decimal(&mut s, bytes);
        s.append(" B");
        return s;
    }
    let (d, unit): (u128, &str) = if bytes >= 1099511627776 {
        (1099511627776, "TiB")
    } else if bytes >= 1073741824 {
        (1073741824, "GiB")
    } else if bytes >= 1048576 {
        (1048576, "MiB")
    } else {
        (1024, "KiB")
    };
    assert(d == pow1024(unit_of(bytes as nat)));
    assert(unit@ == unit_name(unit_of(bytes as nat)));
    let scaled: u128 = (bytes as u128) * 100;
    let q: u128 = scaled / d;
    let r: u128 = scaled % d;
    let h: u128 = if 2 * r > d || (2 * r == d && q % 2 == 1) { q + 1 } else { q };
    assert(h == hundredths(bytes as nat, d as nat));
    assert(q <= scaled / 1024) by (nonlinear_arith)
        requires
            d >= 1024,
            q == scaled / d,
    ;
    assert(h < 0x1_0000_0000_0000_0000u128) by (nonlinear_arith)
        requires
            h <= q + 1,
            q <= scaled / 1024,
            scaled == bytes * 100,
            bytes < 0x1_0000_0000_0000_0000u128,
    ;
    let whole: u64 = (h / 100) as u64;
    let frac: u64 = (h % 100) as u64;
    push_decimal(&mut s, whole);
    push_char(&mut s, '.');
    push_char(&mut s, digit_of(frac / 10));
    push_char(&mut s, digit_of(frac % 10));
    push_char(&mut s, ' ');
    s.append(unit);
    assert(s@ =~= human_bytes_of(bytes as nat));
    s
}

// ── what is on disk ─────────────────────────────────────────────────────────

/// One quantization of a model, and how much of it is here.
#[derive(Debug)]
pub struct VariantStatus {
    pub variant: String,
    pub installed: bool,
    pub bytes_present: u64,
    pub bytes_total: u64,
    pub is_default: bool,
}

/// One model of the registry, as the cache holds it.
#[derive(Debug)]
pub struct ModelStatus {
    pub id: String,
    pub role: String,
    pub license: String,
    pub about: String,
    pub installed: bool,
    pub variants: Vec<VariantStatus>,
    /// Which of `variants` is the one in use, if any.
    pub active: Option<usize>,
}

impl ModelStatus {
    pub open spec fn active_bytes(&self) -> nat {
        match self.active {
            Some(i) => if i < self.variants@.len() { self.variants@[i as int].bytes_present as nat } else { 0 },
            None => 0,
        }
    }

    /// The variant in use, if any.
    pub fn active(&self) -> (v: Option<&VariantStatus>)
        ensures
            match v {
                Some(x) => self.active matches Some(i) && i < self.variants@.len() && *x == self.variants@[i as int],
                None => !(self.active matches Some(i) && i < self.variants@.len()),
            },
    {
        match self.active {
            Some(i) => {
                if i < self.variants.len() {
                    Some(&self.variants[i])
                } else {
                    None
                }
            },
            None => None,
        }
    }
}

pub open spec fn installed_count(ms: Seq<ModelStatus>) -> nat
    decreases ms.len(),
{
    if ms.len() == 0 {
        0
    } else {
        installed_count(ms.drop_last()) + if ms.last().installed { 1nat } else { 0nat }
    }
}

/// Bytes on disk across the variants in use.
pub open spec fn on_disk(ms: Seq<ModelStatus>) -> nat
    decreases ms.len(),
{
    if ms.len() == 0 {
        0
    } else {
        on_disk(ms.drop_last()) + ms.last().active_bytes()
    }
}

pub open spec fn sum_fetched(fs: Seq<FetchedFile>) -> nat
    decreases fs.len(),
{
    if fs.len() == 0 {
        0
    } else {
        sum_fetched(fs.drop_last()) + fs.last().bytes as nat
    }
}

pub open spec fn sum_orphaned(os: Seq<Orphan>) -> nat
    decreases os.len(),
{
    if os.len() == 0 {
        0
    } else {
        sum_orphaned(os.drop_last()) + os.last().bytes as nat
    }
}

pub open spec fn failed_count(cs: Seq<FileCheck>) -> nat
    decreases cs.len(),
{
    if cs.len() == 0 {
        0
    } else {
        failed_count(cs.drop_last()) + if cs.last().ok { 0nat } else { 1nat }
    }
}

proof fn lemma_failed_bounded(cs: Seq<FileCheck>)
    ensures
        failed_count(cs) <= cs.len(),
        failed_count(cs) == 0 <==> forall|i: int| 0 <= i < cs.len() ==> (#[trigger] cs[i]).ok,
    decreases cs.len(),
{
    if cs.len() > 0 {
        lemma_failed_bounded(cs.drop_last());
        if failed_count(cs) == 0 {
            assert forall|i: int| 0 <= i < cs.len() implies (#[trigger] cs[i]).ok by {
                if i < cs.len() - 1 {
                    assert(cs[i] == cs.drop_last()[i]);
                }
            }
        }
        if forall|i: int| 0 <= i < cs.len() ==> (#[trigger] cs[i]).ok {
            assert forall|i: int| 0 <= i < cs.drop_last().len() implies (#[trigger] cs.drop_last()[i]).ok by {
                assert(cs.drop_last()[i] == cs[i]);
            }
            assert(cs[cs.len() - 1].ok);
        }
    }
}

// ── verifying and pruning ───────────────────────────────────────────────────

pub open spec fn size_problem_of(actual: nat, expected: nat) -> Seq<char> {
    "size "@ + decimal(actual) + ", expected "@ + decimal(expected)
}

/// A file whose length is not the pinned one: no need to hash it.
pub fn size_problem(actual: u64, expected: u64) -> (s: String)
    ensures
        s@ == size_problem_of(actual as nat, expected as nat),
{
    let mut s = owned("size ");
    push_decimal(&mut s, actual);
    s.append(", expected ");
    push_decimal(&mut s, expected);
    s
}

pub fn digest_problem(actual: &str, expected: &str) -> (s: String)
    ensures
        s@ == "digest "@ + actual@ + ", expected "@ + expected@,
{
    let mut s = owned("digest ");
    s.append(actual);
    s.append(", expected ");
    s.append(expected);
    s
}

impl FileCheck {
    /// A file's check: sound exactly when nothing was found wrong with it.
    pub fn of(model: String, path: String, problem: Option<String>) -> (c: FileCheck)
        ensures
            c.model == model,
            c.path == path,
            c.ok == (problem is None),
            c.problem == problem,
    {
        let ok = problem.is_none();
        FileCheck { model, path, ok, problem }
    }
}

/// Whether a file was already checked: the same file under two variants (a shared
/// tokenizer) is hashed once.
pub fn already_checked(checked: &Vec<FileCheck>, model: &str, path: &str) -> (b: bool)
    ensures
        b == exists|i: int| 0 <= i < checked@.len() && (#[trigger] checked@[i]).model@ == model@ && checked@[i].path@
            == path@,
{
    let mut i: usize = 0;
    while i < checked.len()
        invariant
            i <= checked@.len(),
            forall|j: int| 0 <= j < i ==> !((#[trigger] checked@[j]).model@ == model@ && checked@[j].path@ == path@),
        decreases checked.len() - i,
    {
        if str_eq(checked[i].model.as_str(), model) && str_eq(checked[i].path.as_str(), path) {
            return true;
        }
        i = i + 1;
    }
    false
}

#[derive(Debug)]
pub enum ModelsReport {
    List { dir: String, models: Vec<ModelStatus> },
    Pull {
        dir: String,
        fetched: Vec<FetchedFile>,
        /// Files that were already present.
        skipped: Vec<String>,
        bytes_fetched: u64,
        elapsed_millis: u64,
        models: Vec<ModelStatus>,
    },
    Verify { dir: String, checked: Vec<FileCheck>, ok: bool },
    Remove { removed: Vec<String>, bytes_freed: u64 },
    Prune {
        /// Cache directories no longer named by the registry.
        orphaned: Vec<Orphan>,
        bytes: u64,
        /// False when this was a preview.
        deleted: bool,
    },
    Dir { dir: String },
}

impl ModelsReport {
    /// A verification: sound when every file checked is. A model never pulled is not a
    /// failure, so only what is installed is ever in `checked`.
    pub fn verified(dir: String, checked: Vec<FileCheck>) -> (r: ModelsReport)
        ensures
            r matches ModelsReport::Verify { dir: d, checked: c, ok } && d == dir && c == checked && ok == (forall|i: int|
                0 <= i < checked@.len() ==> (#[trigger] checked@[i]).ok),
    {
        let mut ok = true;
        let mut i: usize = 0;
        while i < checked.len()
            invariant
                i <= checked@.len(),
                ok == (forall|j: int| 0 <= j < i ==> (#[trigger] checked@[j]).ok),
            decreases checked.len() - i,
        {
            if !checked[i].ok {
                ok = false;
            }
            i = i + 1;
        }
        ModelsReport::Verify { dir, checked, ok }
    }

    /// A pull: the files fetched, and the bytes they came to.
    pub fn pulled(
        dir: String,
        fetched: Vec<FetchedFile>,
        skipped: Vec<String>,
        elapsed_millis: u64,
        models: Vec<ModelStatus>,
    ) -> (r: ModelsReport)
        requires
            sum_fetched(fetched@) <= u64::MAX,
        ensures
            r == (ModelsReport::Pull {
                dir,
                fetched,
                skipped,
                bytes_fetched: sum_fetched(fetched@) as u64,
                elapsed_millis,
                models,
            }),
    {
        let mut total: u64 = 0;
        let mut i: usize = 0;
        while i < fetched.len()
            invariant
                i <= fetched@.len(),
                sum_fetched(fetched@) <= u64::MAX,
                total == sum_fetched(fetched@.take(i as int)),
            decreases fetched.len() - i,
        {
            assert(fetched@.take(i + 1).drop_last() =~= fetched@.take(i as int));
            proof {
                lemma_sum_fetched_prefix(fetched@, i + 1);
            }
            total = total + fetched[i].bytes;
            i = i + 1;
        }
        assert(fetched@.take(fetched@.len() as int) =~= fetched@);
        ModelsReport::Pull { dir, fetched, skipped, bytes_fetched: total, elapsed_millis, models }
    }

    /// A prune: what is orphaned and what it comes to, deleted or only previewed.
    pub fn pruned(orphaned: Vec<Orphan>, deleted: bool) -> (r: ModelsReport)
        requires
            sum_orphaned(orphaned@) <= u64::MAX,
        ensures
            r == (ModelsReport::Prune { orphaned, bytes: sum_orphaned(orphaned@) as u64, deleted }),
    {
        let mut total: u64 = 0;
        let mut i: usize = 0;
        while i < orphaned.len()
            invariant
                i <= orphaned@.len(),
                sum_orphaned(orphaned@) <= u64::MAX,
                total == sum_orphaned(orphaned@.take(i as int)),
            decreases orphaned.len() - i,
        {
            assert(orphaned@.take(i + 1).drop_last() =~= orphaned@.take(i as int));
            proof {
                lemma_sum_orphaned_prefix(orphaned@, i + 1);
            }
            total = total + orphaned[i].bytes;
            i = i + 1;
        }
        assert(orphaned@.take(orphaned@.len() as int) =~= orphaned@);
        ModelsReport::Prune { orphaned, bytes: total, deleted }
    }
}

proof fn lemma_sum_fetched_prefix(fs: Seq<FetchedFile>, n: int)
    requires
        0 <= n <= fs.len(),
    ensures
        sum_fetched(fs.take(n)) <= sum_fetched(fs),
    decreases fs.len(),
{
    if n < fs.len() {
        assert(fs.drop_last().take(n) =~= fs.take(n));
        lemma_sum_fetched_prefix(fs.drop_last(), n);
    } else {
        assert(fs.take(n) =~= fs);
    }
}

proof fn lemma_sum_orphaned_prefix(os: Seq<Orphan>, n: int)
    requires
        0 <= n <= os.len(),
    ensures
        sum_orphaned(os.take(n)) <= sum_orphaned(os),
    decreases os.len(),
{
    if n < os.len() {
        assert(os.drop_last().take(n) =~= os.take(n));
        lemma_sum_orphaned_prefix(os.drop_last(), n);
    } else {
        assert(os.take(n) =~= os);
    }
}

// ── how it reads ────────────────────────────────────────────────────────────

/// Three states, not two: bytes on disk but not all of them is a resumable pull, and
/// calling it missing would tell someone to start over a download half done.
pub open spec fn variant_mark(v: VariantStatus) -> Mark {
    if v.installed {
        Mark::Good
    } else if v.bytes_present > 0 {
        Mark::Warn
    } else {
        Mark::Blank
    }
}

pub open spec fn variant_size(v: VariantStatus) -> Seq<char> {
    if v.installed || v.bytes_present == 0 {
        human_bytes_of(v.bytes_total as nat)
    } else {
        human_bytes_of(v.bytes_present as nat) + " / "@ + human_bytes_of(v.bytes_total as nat)
    }
}

pub open spec fn variant_row(v: VariantStatus) -> Seq<char> {
    glyph(variant_mark(v)) + v.variant@ + "  "@ + variant_size(v) + (if v.is_default {
        "  default"@
    } else {
        Seq::empty()
    })
}

pub open spec fn variant_rows(depth: nat, vs: Seq<VariantStatus>) -> Seq<Seq<char>> {
    vs.map_values(|v: VariantStatus| at(depth, variant_row(v)))
}

pub open spec fn model_lines(depth: nat, m: ModelStatus) -> Seq<Seq<char>> {
    seq![
        marked_at(depth, if m.installed { Mark::Good } else { Mark::Warn }, m.id@ + "  "@ + m.role@ + " · "@ + m.license@),
        at(depth + 2, m.about@),
    ] + variant_rows(depth + 2, m.variants@)
}

pub open spec fn models_lines(depth: nat, ms: Seq<ModelStatus>) -> Seq<Seq<char>>
    decreases ms.len(),
{
    if ms.len() == 0 {
        Seq::empty()
    } else {
        models_lines(depth, ms.drop_last()) + seq![Seq::<char>::empty()] + model_lines(depth, ms.last())
    }
}

/// A path's file name, or the path itself when it has none.
pub open spec fn name_of(path: Seq<char>) -> Seq<char> {
    match file_name_of(path) {
        Some(n) => n,
        None => path,
    }
}

/// A resumed transfer is what makes a 4 GB pull over a bad connection survivable, and the
/// only proof it worked is here.
pub open spec fn fetched_line(depth: nat, f: FetchedFile) -> Seq<char> {
    marked_at(
        depth,
        Mark::Good,
        name_of(f.path@) + "  "@ + human_bytes_of(f.bytes as nat) + (if f.resumed_from > 0 {
            ", resumed from "@ + human_bytes_of(f.resumed_from as nat)
        } else {
            Seq::empty()
        }),
    )
}

pub open spec fn skipped_line(depth: nat, name: Seq<char>) -> Seq<char> {
    at(depth, "·  "@ + name + "  already present"@)
}

/// Bytes a second, held at `u64::MAX`.
pub open spec fn rate_of(bytes: nat, millis: nat) -> Seq<char> {
    if millis > 0 {
        let per = bytes * 1000 / millis;
        " at "@ + human_bytes_of(if per > u64::MAX { u64::MAX as nat } else { per }) + "/s"@
    } else {
        Seq::empty()
    }
}

/// A passing digest is a line nobody reads; only the failures get detail.
pub open spec fn check_lines(depth: nat, c: FileCheck) -> Seq<Seq<char>> {
    seq![marked_at(depth, if c.ok { Mark::Good } else { Mark::Warn }, c.model@ + "  "@ + name_of(c.path@))]
        + match c.problem {
        Some(p) => seq![at(depth + 1, flat_all(p@))],
        None => Seq::empty(),
    }
}

pub open spec fn checks_lines(depth: nat, cs: Seq<FileCheck>) -> Seq<Seq<char>>
    decreases cs.len(),
{
    if cs.len() == 0 {
        Seq::empty()
    } else {
        checks_lines(depth, cs.drop_last()) + check_lines(depth, cs.last())
    }
}

pub open spec fn orphan_lines(depth: nat, o: Orphan) -> Seq<Seq<char>> {
    seq![at(depth, o.path@), at(depth + 1, human_bytes_of(o.bytes as nat) + "  "@ + flat_all(o.reason@))]
}

pub open spec fn orphans_lines(depth: nat, os: Seq<Orphan>) -> Seq<Seq<char>>
    decreases os.len(),
{
    if os.len() == 0 {
        Seq::empty()
    } else {
        orphans_lines(depth, os.drop_last()) + orphan_lines(depth, os.last())
    }
}

pub open spec fn paths_lines(depth: nat, ps: Seq<String>) -> Seq<Seq<char>> {
    ps.map_values(|p: String| at(depth, p@))
}

pub open spec fn report_lines(depth: nat, r: ModelsReport) -> Seq<Seq<char>> {
    match r {
        ModelsReport::Dir { dir } => seq![at(depth, dir@)],
        ModelsReport::List { dir, models } => seq![
            at(
                depth,
                title_text(
                    decimal(installed_count(models@)) + " of "@ + decimal(models@.len()) + " installed"@,
                    human_bytes_of(on_disk(models@)),
                ),
            ),
            at(depth, dir@),
        ] + models_lines(depth, models@),
        ModelsReport::Pull { fetched, skipped, bytes_fetched, elapsed_millis, .. } => seq![
            at(
                depth,
                title_text(
                    human_bytes_of(bytes_fetched as nat) + " fetched"@,
                    duration_of(elapsed_millis as nat) + rate_of(bytes_fetched as nat, elapsed_millis as nat),
                ),
            ),
        ] + fetched@.map_values(|f: FetchedFile| fetched_line(depth + 1, f)) + skipped@.map_values(
            |n: String| skipped_line(depth + 1, n@),
        ),
        ModelsReport::Verify { checked, ok, .. } => seq![
            at(
                depth,
                if ok {
                    "every digest matches"@
                } else {
                    decimal(failed_count(checked@)) + " of "@ + decimal(checked@.len()) + " failed"@
                },
            ),
        ] + checks_lines(depth + 1, checked@),
        ModelsReport::Remove { removed, bytes_freed } => seq![
            at(depth, title_text(human_bytes_of(bytes_freed as nat) + " freed"@, Seq::empty())),
        ] + paths_lines(depth + 1, removed@),
        ModelsReport::Prune { orphaned, bytes, deleted } => if orphaned@.len() == 0 {
            seq![marked_at(depth, Mark::Good, "nothing orphaned"@)]
        } else {
            seq![
                at(
                    depth,
                    title_text(
                        (if deleted { "freed "@ } else { "would free "@ }) + human_bytes_of(bytes as nat),
                        plural_of(orphaned@.len(), "directory"@, "directories"@),
                    ),
                ),
            ] + orphans_lines(depth + 1, orphaned@) + (if deleted {
                Seq::empty()
            } else {
                seq![Seq::<char>::empty(), at(depth + 1, "centinel models prune --delete"@)]
            })
        },
    }
}

fn name_or_path(path: &String) -> (n: String)
    ensures
        n@ == name_of(path@),
{
    match file_name(path.as_str()) {
        Some(n) => n,
        None => owned(path.as_str()),
    }
}

impl VariantStatus {
    fn row(&self) -> (s: String)
        ensures
            s@ == variant_row(*self),
    {
        let mark = if self.installed {
            Mark::Good
        } else if self.bytes_present > 0 {
            Mark::Warn
        } else {
            Mark::Blank
        };
        let mut s = owned(mark.glyph());
        s.append(self.variant.as_str());
        s.append("  ");
        if self.installed || self.bytes_present == 0 {
            let t = human_bytes(self.bytes_total);
            s.append(t.as_str());
        } else {
            let a = human_bytes(self.bytes_present);
            let b = human_bytes(self.bytes_total);
            s.append(a.as_str());
            s.append(" / ");
            s.append(b.as_str());
        }
        if self.is_default {
            s.append("  default");
        }
        s
    }
}

impl ModelStatus {
    pub fn render(&self, p: &mut Page)
        requires
            old(p).depth + 2 < usize::MAX,
        ensures
            final(p).text() == old(p).text() + model_lines(old(p).depth as nat, *self),
            final(p).depth == old(p).depth,
    {
        let ghost d = old(p).depth as nat;
        let mut head = owned(self.id.as_str());
        head.append("  ");
        head.append(self.role.as_str());
        head.append(" · ");
        head.append(self.license.as_str());
        p.marked(Mark::from_ok(self.installed), head.as_str());
        p.enter();
        p.enter();
        p.line(self.about.as_str());
        let ghost top = p.text();
        let mut i: usize = 0;
        while i < self.variants.len()
            invariant
                i <= self.variants@.len(),
                p.depth == d + 2,
                p.text() == top + variant_rows(d + 2, self.variants@.take(i as int)),
            decreases self.variants.len() - i,
        {
            let row = self.variants[i].row();
            p.line(row.as_str());
            i = i + 1;
            assert(variant_rows(d + 2, self.variants@.take(i as int)) =~= variant_rows(
                d + 2,
                self.variants@.take(i - 1),
            ).push(at(d + 2, variant_row(self.variants@[i - 1]))));
        }
        assert(self.variants@.take(self.variants@.len() as int) =~= self.variants@);
        p.leave();
        p.leave();
        assert(p.text() =~= old(p).text() + model_lines(d, *self));
    }
}

impl ModelsReport {
    fn render_list(p: &mut Page, dir: &String, models: &Vec<ModelStatus>)
        requires
            old(p).depth + 2 < usize::MAX,
            on_disk(models@) <= u64::MAX,
        ensures
            final(p).text() == old(p).text() + report_lines(
                old(p).depth as nat,
                ModelsReport::List { dir: *dir, models: *models },
            ),
            final(p).depth == old(p).depth,
    {
        let ghost d = old(p).depth as nat;
        let mut installed: usize = 0;
        let mut bytes: u64 = 0;
        let mut i: usize = 0;
        while i < models.len()
            invariant
                i <= models@.len(),
                on_disk(models@) <= u64::MAX,
                installed == installed_count(models@.take(i as int)),
                installed <= i,
                bytes == on_disk(models@.take(i as int)),
            decreases models.len() - i,
        {
            assert(models@.take(i + 1).drop_last() =~= models@.take(i as int));
            proof {
                lemma_on_disk_prefix(models@, i + 1);
            }
            if models[i].installed {
                installed = installed + 1;
            }
            match models[i].active() {
                Some(v) => {
                    bytes = bytes + v.bytes_present;
                },
                None => {},
            }
            i = i + 1;
        }
        assert(models@.take(models@.len() as int) =~= models@);
        let mut head = String::new();
        push_decimal(&mut head, installed as u64);
        head.append(" of ");
        push_decimal(&mut head, models.len() as u64);
        head.append(" installed");
        let size = human_bytes(bytes);
        p.title(head.as_str(), size.as_str());
        p.line(dir.as_str());
        let ghost top = p.text();
        let mut i: usize = 0;
        while i < models.len()
            invariant
                i <= models@.len(),
                p.depth == d,
                d + 2 < usize::MAX,
                p.text() == top + models_lines(d, models@.take(i as int)),
            decreases models.len() - i,
        {
            assert(models@.take(i + 1).drop_last() =~= models@.take(i as int));
            p.blank();
            models[i].render(p);
            i = i + 1;
            assert(p.text() =~= top + models_lines(d, models@.take(i as int)));
        }
        assert(models@.take(models@.len() as int) =~= models@);
        assert(p.text() =~= old(p).text() + report_lines(d, ModelsReport::List { dir: *dir, models: *models }));
    }

    fn render_pull(p: &mut Page, fetched: &Vec<FetchedFile>, skipped: &Vec<String>, bytes: u64, millis: u64)
        requires
            old(p).depth + 1 < usize::MAX,
        ensures
            final(p).text() == old(p).text() + seq![
                at(
                    old(p).depth as nat,
                    title_text(
                        human_bytes_of(bytes as nat) + " fetched"@,
                        duration_of(millis as nat) + rate_of(bytes as nat, millis as nat),
                    ),
                ),
            ] + fetched@.map_values(|f: FetchedFile| fetched_line(old(p).depth as nat + 1, f))
                + skipped@.map_values(|n: String| skipped_line(old(p).depth as nat + 1, n@)),
            final(p).depth == old(p).depth,
    {
        let ghost d = old(p).depth as nat;
        let mut head = human_bytes(bytes);
        head.append(" fetched");
        let mut aside = duration(millis);
        if millis > 0 {
            aside.append(" at ");
            let per: u128 = (bytes as u128) * 1000 / (millis as u128);
            let held: u64 = if per > u64::MAX as u128 { u64::MAX } else { per as u64 };
            let r = human_bytes(held);
            aside.append(r.as_str());
            aside.append("/s");
            assert(per == bytes as nat * 1000 / millis as nat);
        }
        assert(aside@ =~= duration_of(millis as nat) + rate_of(bytes as nat, millis as nat));
        p.title(head.as_str(), aside.as_str());
        p.enter();
        let ghost top = p.text();
        let mut i: usize = 0;
        while i < fetched.len()
            invariant
                i <= fetched@.len(),
                p.depth == d + 1,
                p.text() == top + fetched@.take(i as int).map_values(|f: FetchedFile| fetched_line(d + 1, f)),
            decreases fetched.len() - i,
        {
            let f = &fetched[i];
            let mut line = name_or_path(&f.path);
            line.append("  ");
            let b = human_bytes(f.bytes);
            line.append(b.as_str());
            if f.resumed_from > 0 {
                line.append(", resumed from ");
                let r = human_bytes(f.resumed_from);
                line.append(r.as_str());
            }
            assert(marked_at(d + 1, Mark::Good, line@) == fetched_line(d + 1, fetched@[i as int]));
            p.marked(Mark::Good, line.as_str());
            i = i + 1;
            assert(fetched@.take(i as int).map_values(|f: FetchedFile| fetched_line(d + 1, f)) =~= fetched@.take(
                i - 1,
            ).map_values(|f: FetchedFile| fetched_line(d + 1, f)).push(fetched_line(d + 1, fetched@[i - 1])));
        }
        assert(fetched@.take(fetched@.len() as int) =~= fetched@);
        let ghost mid = p.text();
        let mut i: usize = 0;
        while i < skipped.len()
            invariant
                i <= skipped@.len(),
                p.depth == d + 1,
                p.text() == mid + skipped@.take(i as int).map_values(|n: String| skipped_line(d + 1, n@)),
            decreases skipped.len() - i,
        {
            let mut line = owned("·  ");
            line.append(skipped[i].as_str());
            line.append("  already present");
            p.line(line.as_str());
            i = i + 1;
            assert(skipped@.take(i as int).map_values(|n: String| skipped_line(d + 1, n@)) =~= skipped@.take(
                i - 1,
            ).map_values(|n: String| skipped_line(d + 1, n@)).push(skipped_line(d + 1, skipped@[i - 1]@)));
        }
        assert(skipped@.take(skipped@.len() as int) =~= skipped@);
        p.leave();
        assert(p.text() =~= old(p).text() + seq![
            at(
                d,
                title_text(
                    human_bytes_of(bytes as nat) + " fetched"@,
                    duration_of(millis as nat) + rate_of(bytes as nat, millis as nat),
                ),
            ),
        ] + fetched@.map_values(|f: FetchedFile| fetched_line(d + 1, f)) + skipped@.map_values(
            |n: String| skipped_line(d + 1, n@),
        ));
    }

    fn render_verify(p: &mut Page, checked: &Vec<FileCheck>, ok: bool)
        requires
            old(p).depth + 2 < usize::MAX,
        ensures
            final(p).text() == old(p).text() + seq![
                at(
                    old(p).depth as nat,
                    if ok {
                        "every digest matches"@
                    } else {
                        decimal(failed_count(checked@)) + " of "@ + decimal(checked@.len()) + " failed"@
                    },
                ),
            ] + checks_lines(old(p).depth as nat + 1, checked@),
            final(p).depth == old(p).depth,
    {
        let ghost d = old(p).depth as nat;
        let mut failed: usize = 0;
        let mut i: usize = 0;
        while i < checked.len()
            invariant
                i <= checked@.len(),
                failed == failed_count(checked@.take(i as int)),
                failed <= i,
            decreases checked.len() - i,
        {
            assert(checked@.take(i + 1).drop_last() =~= checked@.take(i as int));
            if !checked[i].ok {
                failed = failed + 1;
            }
            i = i + 1;
        }
        assert(checked@.take(checked@.len() as int) =~= checked@);
        if ok {
            p.line("every digest matches");
        } else {
            let mut head = String::new();
            push_decimal(&mut head, failed as u64);
            head.append(" of ");
            push_decimal(&mut head, checked.len() as u64);
            head.append(" failed");
            p.line(head.as_str());
        }
        p.enter();
        let ghost top = p.text();
        let mut i: usize = 0;
        while i < checked.len()
            invariant
                i <= checked@.len(),
                p.depth == d + 1,
                d + 2 < usize::MAX,
                p.text() == top + checks_lines(d + 1, checked@.take(i as int)),
            decreases checked.len() - i,
        {
            assert(checked@.take(i + 1).drop_last() =~= checked@.take(i as int));
            let c = &checked[i];
            let mut line = owned(c.model.as_str());
            line.append("  ");
            let n = name_or_path(&c.path);
            line.append(n.as_str());
            p.marked(Mark::from_ok(c.ok), line.as_str());
            match &c.problem {
                Some(problem) => {
                    p.enter();
                    let t = one_line(problem.as_str());
                    p.line(t.as_str());
                    p.leave();
                },
                None => {},
            }
            i = i + 1;
            assert(p.text() =~= top + checks_lines(d + 1, checked@.take(i as int)));
        }
        assert(checked@.take(checked@.len() as int) =~= checked@);
        p.leave();
    }

    fn render_remove(p: &mut Page, removed: &Vec<String>, bytes_freed: u64)
        requires
            old(p).depth + 1 < usize::MAX,
        ensures
            final(p).text() == old(p).text() + seq![
                at(old(p).depth as nat, title_text(human_bytes_of(bytes_freed as nat) + " freed"@, Seq::empty())),
            ] + paths_lines(old(p).depth as nat + 1, removed@),
            final(p).depth == old(p).depth,
    {
        let ghost d = old(p).depth as nat;
        let mut head = human_bytes(bytes_freed);
        head.append(" freed");
        let empty = String::new();
        p.title(head.as_str(), empty.as_str());
        p.enter();
        let ghost top = p.text();
        let mut i: usize = 0;
        while i < removed.len()
            invariant
                i <= removed@.len(),
                p.depth == d + 1,
                p.text() == top + paths_lines(d + 1, removed@.take(i as int)),
            decreases removed.len() - i,
        {
            p.line(removed[i].as_str());
            i = i + 1;
            assert(paths_lines(d + 1, removed@.take(i as int)) =~= paths_lines(d + 1, removed@.take(i - 1)).push(
                at(d + 1, removed@[i - 1]@),
            ));
        }
        assert(removed@.take(removed@.len() as int) =~= removed@);
        p.leave();
    }

    fn render_prune(p: &mut Page, orphaned: &Vec<Orphan>, bytes: u64, deleted: bool)
        requires
            old(p).depth + 2 < usize::MAX,
        ensures
            final(p).text() == old(p).text() + report_lines(
                old(p).depth as nat,
                ModelsReport::Prune { orphaned: *orphaned, bytes, deleted },
            ),
            final(p).depth == old(p).depth,
    {
        let ghost d = old(p).depth as nat;
        if orphaned.len() == 0 {
            p.marked(Mark::Good, "nothing orphaned");
            return;
        }
        let mut head = owned(if deleted { "freed " } else { "would free " });
        let b = human_bytes(bytes);
        head.append(b.as_str());
        let aside = plural(orphaned.len() as u64, "directory", "directories");
        p.title(head.as_str(), aside.as_str());
        p.enter();
        let ghost top = p.text();
        let mut i: usize = 0;
        while i < orphaned.len()
            invariant
                i <= orphaned@.len(),
                p.depth == d + 1,
                d + 2 < usize::MAX,
                p.text() == top + orphans_lines(d + 1, orphaned@.take(i as int)),
            decreases orphaned.len() - i,
        {
            assert(orphaned@.take(i + 1).drop_last() =~= orphaned@.take(i as int));
            let o = &orphaned[i];
            p.line(o.path.as_str());
            p.enter();
            let mut note = human_bytes(o.bytes);
            note.append("  ");
            let r = one_line(o.reason.as_str());
            note.append(r.as_str());
            p.line(note.as_str());
            p.leave();
            i = i + 1;
            assert(p.text() =~= top + orphans_lines(d + 1, orphaned@.take(i as int)));
        }
        assert(orphaned@.take(orphaned@.len() as int) =~= orphaned@);
        if !deleted {
            p.blank();
            p.line("centinel models prune --delete");
        }
        p.leave();
        assert(p.text() =~= old(p).text() + report_lines(d, ModelsReport::Prune { orphaned: *orphaned, bytes, deleted }));
    }

    pub fn render(&self, p: &mut Page)
        requires
            old(p).depth + 2 < usize::MAX,
            self matches ModelsReport::List { models, .. } ==> on_disk(models@) <= u64::MAX,
        ensures
            final(p).text() == old(p).text() + report_lines(old(p).depth as nat, *self),
            final(p).depth == old(p).depth,
    {
        match self {
            ModelsReport::Dir { dir } => {
                p.line(dir.as_str());
            },
            ModelsReport::List { dir, models } => {
                ModelsReport::render_list(p, dir, models);
            },
            ModelsReport::Pull { fetched, skipped, bytes_fetched, elapsed_millis, .. } => {
                ModelsReport::render_pull(p, fetched, skipped, *bytes_fetched, *elapsed_millis);
            },
            ModelsReport::Verify { checked, ok, .. } => {
                ModelsReport::render_verify(p, checked, *ok);
            },
            ModelsReport::Remove { removed, bytes_freed } => {
                ModelsReport::render_remove(p, removed, *bytes_freed);
            },
            ModelsReport::Prune { orphaned, bytes, deleted } => {
                ModelsReport::render_prune(p, orphaned, *bytes, *deleted);
            },
        }
    }
}

proof fn lemma_on_disk_prefix(ms: Seq<ModelStatus>, n: int)
    requires
        0 <= n <= ms.len(),
    ensures
        on_disk(ms.take(n)) <= on_disk(ms),
    decreases ms.len(),
{
    if n < ms.len() {
        assert(ms.drop_last().take(n) =~= ms.take(n));
        lemma_on_disk_prefix(ms.drop_last(), n);
    } else {
        assert(ms.take(n) =~= ms);
    }
}

} // verus!
