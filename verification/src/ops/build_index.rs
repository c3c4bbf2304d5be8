//! `index` — chunk derived text into the searchable index.
//!
//! What is decided here: the geometry the index may be built at, which derivation of a
//! blob is current, where each text was seen first, and the title a document is filed
//! under. The chunker and the database are the host's.
use vstd::prelude::*;

use crate::counts::{lemma_lex_le_total, lemma_lex_le_transitive, lex_le};
use crate::ops::list::{first_seen, names};
use crate::ops::schedule::{joined, texts};
use crate::page::{at, figure_text, title_text, Page};
use crate::text::{decimal, grouped, holds, join_with, lemma_holds_between, plural, plural_of, push_count};
use crate::text::{
    chars_of, is_space, is_white, str_eq, owned, same, skip_space, string_of, trim, trim_start, drop_space_end,
};

verus! {

/// Target chunk size in characters, when nobody asks for another.
pub const DEFAULT_TARGET_CHARS: usize = 1500;
/// Characters of overlap between adjacent chunks, when nobody asks for another.
pub const DEFAULT_OVERLAP_CHARS: usize = 200;

#[derive(Debug)]
pub struct IndexArgs {
    /// Source to index. Omit for all.
    pub source: Option<String>,
    /// Re-index from scratch, scoped by `source`.
    pub rebuild: bool,
    pub target_chars: usize,
    pub overlap_chars: usize,
}

pub fn default_target() -> (n: usize)
    ensures
        n == DEFAULT_TARGET_CHARS,
{
    DEFAULT_TARGET_CHARS
}

pub fn default_overlap() -> (n: usize)
    ensures
        n == DEFAULT_OVERLAP_CHARS,
{
    DEFAULT_OVERLAP_CHARS
}

/// So a run chunks exactly as the CLI does: one set of defaults.
impl Default for IndexArgs {
    fn default() -> (a: Self)
        ensures
            a.source is None,
            !a.rebuild,
            a.target_chars == DEFAULT_TARGET_CHARS,
            a.overlap_chars == DEFAULT_OVERLAP_CHARS,
    {
        IndexArgs {
            source: None,
            rebuild: false,
            target_chars: default_target(),
            overlap_chars: default_overlap(),
        }
    }
}

#[derive(Debug)]
pub struct IndexReport {
    pub sources: Vec<String>,
    pub derivations: usize,
    /// Skipped because every address this derived text sits at is already placed.
    pub already_indexed: usize,
    pub documents_indexed: usize,
    pub chunks_written: usize,
    /// Chunks whose text was already present under another placement.
    pub chunks_deduplicated: usize,
    pub total_chunks: usize,
    pub total_placements: usize,
    pub total_chars: usize,
}

// ── geometry ────────────────────────────────────────────────────────────────

/// What the geometry question reads of an index: how many chunks each source holds, and
/// the geometry recorded for them, if any was.
#[derive(Debug)]
pub struct ChunkIndex {
    pub per_source: Vec<(String, usize)>,
    pub geometry: Option<(usize, usize)>,
}

pub open spec fn sum_counts(s: Seq<(String, usize)>) -> nat
    decreases s.len(),
{
    if s.len() == 0 { 0 } else { sum_counts(s.drop_last()) + s.last().1 as nat }
}

/// Each source's chunk count, by name.
pub open spec fn entries(s: Seq<(String, usize)>) -> Seq<(Seq<char>, usize)> {
    s.map_values(|e: (String, usize)| (e.0@, e.1))
}

/// The entries of every source but `name`, in order.
pub open spec fn without(s: Seq<(Seq<char>, usize)>, name: Seq<char>) -> Seq<(Seq<char>, usize)>
    decreases s.len(),
{
    if s.len() == 0 {
        s
    } else if s.last().0 == name {
        without(s.drop_last(), name)
    } else {
        without(s.drop_last(), name).push(s.last())
    }
}

impl ChunkIndex {
    /// Each source's chunk count, by name, in the order they were added.
    pub open spec fn view(&self) -> Seq<(Seq<char>, usize)> {
        entries(self.per_source@)
    }

    /// Chunks in the whole index.
    pub open spec fn total(&self) -> nat {
        sum_counts(self.per_source@)
    }

    /// An index with nothing in it and no geometry recorded.
    pub fn in_memory() -> (i: Self)
        ensures
            i.total() == 0,
            i.geometry is None,
    {
        ChunkIndex { per_source: Vec::new(), geometry: None }
    }

    /// Records `n` more chunks under `source`.
    pub fn add_chunks(&mut self, source: &str, n: usize)
        requires
            old(self).total() + n <= usize::MAX,
        ensures
            final(self).view() == old(self).view().push((source@, n)),
            final(self).total() == old(self).total() + n,
            final(self).geometry == old(self).geometry,
    {
        let entry = (owned(source), n);
        self.per_source.push(entry);
        assert(self.per_source@.drop_last() =~= old(self).per_source@);
        assert(self.view() =~= old(self).view().push((source@, n)));
    }

    /// Chunks in the whole index.
    pub fn chunks(&self) -> (n: usize)
        requires
            self.total() <= usize::MAX,
        ensures
            n == self.total(),
    {
        let mut n: usize = 0;
        let mut i: usize = 0;
        while i < self.per_source.len()
            invariant
                i <= self.per_source@.len(),
                n == sum_counts(self.per_source@.take(i as int)),
                sum_counts(self.per_source@) <= usize::MAX,
            decreases self.per_source.len() - i,
        {
            proof {
                assert(self.per_source@.take(i + 1).drop_last() =~= self.per_source@.take(i as int));
                lemma_sum_prefix(self.per_source@, i + 1);
            }
            n = n + self.per_source[i].1;
            i = i + 1;
        }
        assert(self.per_source@.take(i as int) =~= self.per_source@);
        n
    }

    /// Removes every chunk. The geometry record stays until something settles a new one.
    pub fn clear(&mut self)
        ensures
            final(self).view().len() == 0,
            final(self).total() == 0,
            final(self).geometry == old(self).geometry,
    {
        self.per_source = Vec::new();
        assert(self.view() =~= Seq::<(Seq<char>, usize)>::empty());
    }

    /// Removes the chunks of one source.
    pub fn clear_source(&mut self, source: &str)
        ensures
            final(self).view() == without(old(self).view(), source@),
            final(self).total() <= old(self).total(),
            final(self).geometry == old(self).geometry,
            forall|i: int| 0 <= i < final(self).per_source@.len() ==> final(self).per_source@[i].0@ != source@,
    {
        let wanted = chars_of(source);
        let mut kept: Vec<(String, usize)> = Vec::new();
        let mut i: usize = 0;
        while i < self.per_source.len()
            invariant
                i <= self.per_source@.len(),
                wanted@ == source@,
                sum_counts(kept@) <= sum_counts(self.per_source@.take(i as int)),
                forall|j: int| 0 <= j < kept@.len() ==> kept@[j].0@ != source@,
                entries(kept@) == without(entries(self.per_source@.take(i as int)), source@),
            decreases self.per_source.len() - i,
        {
            let name = chars_of(self.per_source[i].0.as_str());
            assert(self.per_source@.take(i + 1).drop_last() =~= self.per_source@.take(i as int));
            assert(entries(self.per_source@.take(i + 1)).drop_last() =~= entries(self.per_source@.take(i as int)));
            assert(entries(self.per_source@.take(i + 1)).last() == (self.per_source@[i as int].0@, self.per_source@[i as int].1));
            if !same(name.as_slice(), wanted.as_slice()) {
                let entry = (owned(self.per_source[i].0.as_str()), self.per_source[i].1);
                let ghost before = kept@;
                kept.push(entry);
                assert(kept@.drop_last() =~= before);
                assert(entries(kept@) =~= entries(before).push((self.per_source@[i as int].0@, self.per_source@[i as int].1)));
            }
            i = i + 1;
        }
        assert(self.per_source@.take(i as int) =~= self.per_source@);
        self.per_source = kept;
    }

    /// Clears what `c` names.
    pub fn clear_for(&mut self, c: &Clear)
        ensures
            final(self).geometry == old(self).geometry,
            match c {
                Clear::Nothing => final(self).view() == old(self).view(),
                Clear::Sources(v) => final(self).view() == without_all(old(self).view(), texts(v@)),
                Clear::Everything => final(self).view().len() == 0 && final(self).total() == 0,
            },
    {
        match c {
            Clear::Nothing => {},
            Clear::Everything => self.clear(),
            Clear::Sources(v) => {
                let mut i: usize = 0;
                while i < v.len()
                    invariant
                        i <= v@.len(),
                        self.geometry == old(self).geometry,
                        self.view() == without_all(old(self).view(), texts(v@.take(i as int))),
                    decreases v.len() - i,
                {
                    assert(texts(v@.take(i + 1)).drop_last() =~= texts(v@.take(i as int)));
                    assert(texts(v@.take(i + 1)).last() == v@[i as int]@);
                    self.clear_source(v[i].as_str());
                    i = i + 1;
                }
                assert(v@.take(v@.len() as int) =~= v@);
            },
        }
    }

    pub fn set_geometry(&mut self, target: usize, overlap: usize)
        ensures
            final(self).geometry == Some((target, overlap)),
            final(self).per_source == old(self).per_source,
    {
        self.geometry = Some((target, overlap));
    }
}

// ── what a rebuild clears ───────────────────────────────────────────────────

/// What an index run clears before it starts.
#[derive(Debug)]
pub enum Clear {
    Nothing,
    /// Only these sources: a rebuild scoped by `--source`.
    Sources(Vec<String>),
    /// The whole index.
    Everything,
}

/// What `--rebuild` clears: nothing without it; with a source named, only the sources
/// being indexed; otherwise everything. The index is derived, so clearing costs only
/// the time to rebuild it.
pub fn clear_scope(args: &IndexArgs, sources: &Vec<String>) -> (c: Clear)
    ensures
        !args.rebuild ==> c is Nothing,
        args.rebuild && args.source is Some ==> (c matches Clear::Sources(v) && texts(v@) == texts(sources@)),
        args.rebuild && args.source is None ==> c is Everything,
{
    if !args.rebuild {
        return Clear::Nothing;
    }
    match &args.source {
        Some(_) => Clear::Sources(copy_names(sources)),
        None => Clear::Everything,
    }
}

fn copy_names(v: &Vec<String>) -> (w: Vec<String>)
    ensures
        texts(w@) == texts(v@),
{
    let mut w: Vec<String> = Vec::new();
    let mut i: usize = 0;
    while i < v.len()
        invariant
            i <= v@.len(),
            w@.len() == i,
            forall|j: int| 0 <= j < i ==> #[trigger] w@[j]@ == v@[j]@,
        decreases v.len() - i,
    {
        w.push(owned(v[i].as_str()));
        i = i + 1;
    }
    assert(texts(w@) =~= texts(v@));
    w
}

/// The entries of every source not named in `names`, in order.
pub open spec fn without_all(s: Seq<(Seq<char>, usize)>, names: Seq<Seq<char>>) -> Seq<(Seq<char>, usize)>
    decreases names.len(),
{
    if names.len() == 0 {
        s
    } else {
        without(without_all(s, names.drop_last()), names.last())
    }
}

proof fn lemma_without_keeps(s: Seq<(Seq<char>, usize)>, name: Seq<char>)
    ensures
        forall|i: int| 0 <= i < without(s, name).len() ==> (#[trigger] without(s, name)[i]).0 != name && s.contains(
            without(s, name)[i],
        ),
        forall|i: int| 0 <= i < s.len() && (#[trigger] s[i]).0 != name ==> without(s, name).contains(s[i]),
    decreases s.len(),
{
    if s.len() > 0 {
        let rest = s.drop_last();
        lemma_without_keeps(rest, name);
        let w = without(s, name);
        let wr = without(rest, name);
        assert forall|i: int| 0 <= i < w.len() implies (#[trigger] w[i]).0 != name && s.contains(w[i]) by {
            if i < wr.len() {
                assert(w[i] == wr[i]);
                let k = choose|k: int| 0 <= k < rest.len() && rest[k] == wr[i];
                assert(s[k] == rest[k]);
            } else {
                assert(s[s.len() - 1] == w[i]);
            }
        }
        assert forall|i: int| 0 <= i < s.len() && (#[trigger] s[i]).0 != name implies w.contains(s[i]) by {
            if i < s.len() - 1 {
                assert(rest[i] == s[i]);
                let k = choose|k: int| 0 <= k < wr.len() && wr[k] == rest[i];
                assert(w[k] == wr[k]);
            } else {
                assert(w[w.len() - 1] == s[i]);
            }
        }
    }
}

/// After a scoped clear nothing of the named sources is left, and every entry of any other
/// source is still there.
pub proof fn law_a_scoped_clear_keeps_the_other_sources(s: Seq<(Seq<char>, usize)>, names: Seq<Seq<char>>)
    ensures
        forall|i: int| 0 <= i < without_all(s, names).len() ==> !names.contains(
            (#[trigger] without_all(s, names)[i]).0,
        ),
        forall|i: int| 0 <= i < s.len() && !names.contains((#[trigger] s[i]).0) ==> without_all(s, names).contains(s[i]),
    decreases names.len(),
{
    if names.len() > 0 {
        let rest = names.drop_last();
        law_a_scoped_clear_keeps_the_other_sources(s, rest);
        let inner = without_all(s, rest);
        lemma_without_keeps(inner, names.last());
        let w = without_all(s, names);
        assert forall|i: int| 0 <= i < w.len() implies !names.contains((#[trigger] w[i]).0) by {
            let k = choose|k: int| 0 <= k < inner.len() && inner[k] == w[i];
            if names.contains(w[i].0) {
                let j = choose|j: int| 0 <= j < names.len() && names[j] == w[i].0;
                if j < names.len() - 1 {
                    assert(rest[j] == names[j]);
                    assert(rest.contains(inner[k].0));
                }
            }
        }
        assert forall|i: int| 0 <= i < s.len() && !names.contains((#[trigger] s[i]).0) implies w.contains(s[i]) by {
            assert(!rest.contains(s[i].0)) by {
                if rest.contains(s[i].0) {
                    let j = choose|j: int| 0 <= j < rest.len() && rest[j] == s[i].0;
                    assert(names[j] == rest[j]);
                }
            }
            assert(inner.contains(s[i]));
            let k = choose|k: int| 0 <= k < inner.len() && inner[k] == s[i];
            assert(names[names.len() - 1] == names.last());
            assert(inner[k].0 != names.last());
        }
    }
}

/// An index with no chunk left in it takes whatever geometry it is asked for; so a full
/// `--rebuild`, which leaves none, always may change the geometry.
pub proof fn law_a_full_rebuild_licenses_any_geometry(recorded: Option<(usize, usize)>, asked: (usize, usize))
    ensures
        settle_spec(recorded, 0, asked) is Ok,
        settle_spec(recorded, 0, asked) matches Ok(g) && (g is None ==> recorded == Some(asked)),
{
}

// ── which addresses still need placing ─────────────────────────────────────

pub open spec fn place_views(ps: Seq<(String, i128)>) -> Seq<(Seq<char>, i128)> {
    ps.map_values(|p: (String, i128)| (p.0@, p.1))
}

/// The places still to index, in order: every one on a rebuild, else those not placed yet.
/// Resumption counts placements, not derived blobs: a text in the index at one address is
/// not yet at the others.
pub open spec fn pending_of(places: Seq<(Seq<char>, i128)>, placed: Seq<bool>, rebuild: bool) -> Seq<(Seq<char>, i128)>
    decreases places.len(),
{
    if places.len() == 0 {
        Seq::empty()
    } else {
        let rest = pending_of(places.drop_last(), placed.take(places.len() - 1), rebuild);
        if rebuild || !placed[places.len() - 1] {
            rest.push(places.last())
        } else {
            rest
        }
    }
}

/// A rebuild places a derived text at every one of its addresses again, whatever the index
/// held; a run that resumes places it only where it is not yet, so nothing is placed twice
/// and an index already complete is left as it is.
pub proof fn law_rebuild_places_everything(places: Seq<(Seq<char>, i128)>, placed: Seq<bool>)
    requires
        placed.len() == places.len(),
    ensures
        pending_of(places, placed, true) == places,
        (forall|i: int| 0 <= i < placed.len() ==> #[trigger] placed[i]) ==> pending_of(places, placed, false).len() == 0,
        (forall|i: int| 0 <= i < placed.len() ==> !#[trigger] placed[i]) ==> pending_of(places, placed, false) == places,
    decreases places.len(),
{
    if places.len() > 0 {
        let n = places.len() - 1;
        let sub = placed.take(n);
        law_rebuild_places_everything(places.drop_last(), sub);
        assert(places.drop_last().push(places.last()) =~= places);
        if forall|i: int| 0 <= i < placed.len() ==> #[trigger] placed[i] {
            assert forall|i: int| 0 <= i < sub.len() implies #[trigger] sub[i] by {
                assert(sub[i] == placed[i]);
            }
        }
        if forall|i: int| 0 <= i < placed.len() ==> !#[trigger] placed[i] {
            assert forall|i: int| 0 <= i < sub.len() implies !#[trigger] sub[i] by {
                assert(sub[i] == placed[i]);
            }
        }
    }
}

/// The places of a derived text still to index, `placed` saying which already are.
pub fn pending_places(rebuild: bool, places: &Vec<(String, i128)>, placed: &Vec<bool>) -> (p: Vec<(String, i128)>)
    requires
        placed@.len() == places@.len(),
    ensures
        place_views(p@) == pending_of(place_views(places@), placed@, rebuild),
{
    let mut p: Vec<(String, i128)> = Vec::new();
    let mut i: usize = 0;
    while i < places.len()
        invariant
            placed@.len() == places@.len(),
            i <= places@.len(),
            place_views(p@) == pending_of(place_views(places@.take(i as int)), placed@.take(i as int), rebuild),
        decreases places.len() - i,
    {
        let ghost before = p@;
        let ghost pv = place_views(places@.take(i + 1));
        assert(pv.drop_last() =~= place_views(places@.take(i as int)));
        assert(placed@.take(i + 1).take(i as int) =~= placed@.take(i as int));
        assert(placed@.take(i + 1)[i as int] == placed@[i as int]);
        assert(pv.last() == (places@[i as int].0@, places@[i as int].1));
        if rebuild || !placed[i] {
            p.push((owned(places[i].0.as_str()), places[i].1));
            assert(place_views(p@) =~= place_views(before).push((places@[i as int].0@, places@[i as int].1)));
        }
        i = i + 1;
    }
    assert(places@.take(places@.len() as int) =~= places@);
    assert(placed@.take(placed@.len() as int) =~= placed@);
    p
}

/// Nothing but white space, as `str::trim` leaves empty.
pub open spec fn blank(s: Seq<char>) -> bool {
    forall|i: int| 0 <= i < s.len() ==> is_space(#[trigger] s[i])
}

pub fn is_blank(text: &str) -> (b: bool)
    ensures
        b == blank(text@),
{
    let cs = chars_of(text);
    let mut i: usize = 0;
    while i < cs.len()
        invariant
            cs@ == text@,
            i <= cs@.len(),
            forall|j: int| 0 <= j < i ==> is_space(#[trigger] cs@[j]),
        decreases cs.len() - i,
    {
        if !is_white(cs[i]) {
            return false;
        }
        i = i + 1;
    }
    true
}

pub proof fn lemma_sum_prefix(s: Seq<(String, usize)>, i: int)
    requires
        0 <= i <= s.len(),
    ensures
        sum_counts(s.take(i)) <= sum_counts(s),
    decreases s.len() - i,
{
    if i < s.len() {
        lemma_sum_prefix(s, i + 1);
        assert(s.take(i + 1).drop_last() =~= s.take(i));
    } else {
        assert(s.take(i) =~= s);
    }
}

/// Why a change of chunk geometry was refused.
#[derive(Debug)]
pub enum GeometryError {
    /// The index was built at `recorded`, and chunks built at it are still there.
    Mixed { recorded: (usize, usize), asked: (usize, usize) },
    /// The index records no geometry, so its chunks can only be assumed to use the defaults.
    Unrecorded { asked: (usize, usize) },
}

/// What settling asks of an index: `Ok(Some(g))` records `g`, `Ok(None)` leaves it be.
pub open spec fn settle_spec(
    recorded: Option<(usize, usize)>,
    total: nat,
    asked: (usize, usize),
) -> Result<Option<(usize, usize)>, GeometryError> {
    if recorded == Some(asked) {
        Ok(None)
    } else if total == 0 {
        Ok(Some(asked))
    } else if recorded is Some {
        Err(GeometryError::Mixed { recorded: recorded->0, asked })
    } else if asked == (DEFAULT_TARGET_CHARS, DEFAULT_OVERLAP_CHARS) {
        Ok(Some(asked))
    } else {
        Err(GeometryError::Unrecorded { asked })
    }
}

/// Refuses a change of chunk geometry that would leave two sets of chunks side by side.
///
/// Called after any clearing, because the question is whether a chunk built at the old
/// geometry survives — not which flag was passed. A refusal changes nothing.
pub fn settle_geometry(index: &mut ChunkIndex, args: &IndexArgs) -> (r: Result<(), GeometryError>)
    requires
        old(index).total() <= usize::MAX,
    ensures
        final(index).per_source == old(index).per_source,
        match settle_spec(old(index).geometry, old(index).total(), (args.target_chars, args.overlap_chars)) {
            Ok(Some(g)) => r is Ok && final(index).geometry == Some(g),
            Ok(None) => r is Ok && final(index).geometry == old(index).geometry,
            Err(e) => r == Err::<(), GeometryError>(e) && final(index).geometry == old(index).geometry,
        },
{
    let asked = (args.target_chars, args.overlap_chars);
    match index.geometry {
        Some(recorded) => {
            if recorded.0 == asked.0 && recorded.1 == asked.1 {
                return Ok(());
            }
        },
        None => {},
    }
    if index.chunks() == 0 {
        index.set_geometry(asked.0, asked.1);
        return Ok(());
    }
    match index.geometry {
        Some(recorded) => Err(GeometryError::Mixed { recorded, asked }),
        None => {
            if asked.0 == DEFAULT_TARGET_CHARS && asked.1 == DEFAULT_OVERLAP_CHARS {
                index.set_geometry(asked.0, asked.1);
                Ok(())
            } else {
                Err(GeometryError::Unrecorded { asked })
            }
        },
    }
}

/// Settling the same geometry twice: the second time is not a change.
pub proof fn law_settling_is_idempotent(recorded: Option<(usize, usize)>, total: nat, asked: (usize, usize))
    requires
        settle_spec(recorded, total, asked) is Ok,
    ensures
        ({
            let after = match settle_spec(recorded, total, asked) {
                Ok(Some(g)) => Some(g),
                _ => recorded,
            };
            after == Some(asked) && settle_spec(after, total, asked) == Ok::<Option<(usize, usize)>, GeometryError>(None)
        }),
{
}

/// An emptied index adopts whatever geometry it is given, whatever it recorded before.
pub proof fn law_an_empty_index_adopts_any_geometry(recorded: Option<(usize, usize)>, asked: (usize, usize))
    requires
        recorded != Some(asked),
    ensures
        settle_spec(recorded, 0, asked) == Ok::<Option<(usize, usize)>, GeometryError>(Some(asked)),
{
}

/// A populated index built at another recorded geometry always refuses the change.
pub proof fn law_chunks_at_another_geometry_refuse_it(recorded: (usize, usize), total: nat, asked: (usize, usize))
    requires
        total > 0,
        recorded != asked,
    ensures
        settle_spec(Some(recorded), total, asked) is Err,
{
}

impl GeometryError {
    /// What the refusal says, naming the flag that makes the change legal.
    pub fn message(&self) -> (m: String)
        ensures
            match self {
                GeometryError::Mixed { recorded, asked } => m@ == mixed_message(*recorded, *asked),
                GeometryError::Unrecorded { asked } => m@ == unrecorded_message(*asked),
            },
    {
        match self {
            GeometryError::Mixed { recorded, asked } => {
                let mut m = String::new();
                m.append("this index was built at target_chars=");
                crate::text::push_decimal(&mut m, recorded.0 as u64);
                m.append(", overlap_chars=");
                crate::text::push_decimal(&mut m, recorded.1 as u64);
                m.append("; this run asks for ");
                crate::text::push_decimal(&mut m, asked.0 as u64);
                m.append(", ");
                crate::text::push_decimal(&mut m, asked.1 as u64);
                m.append(". Chunk geometry decides the chunk text, and the text is what a chunk_hash hashes — so the old chunks would stay beside the new ones and every vector in the cache would be ");
                m.append("orphaned");
                m.append(". Re-run with `");
                m.append("--rebuild");
                m.append("` to replace the index, or drop the flags to keep it.");
                m
            },
            GeometryError::Unrecorded { asked } => {
                let mut m = String::new();
                m.append("this index ");
                m.append("records no chunk geometry");
                m.append(", so its existing chunks can only be assumed to use the defaults (");
                crate::text::push_decimal(&mut m, DEFAULT_TARGET_CHARS as u64);
                m.append(", ");
                crate::text::push_decimal(&mut m, DEFAULT_OVERLAP_CHARS as u64);
                m.append("). Re-run with `");
                m.append("--rebuild");
                m.append("` to build it at ");
                crate::text::push_decimal(&mut m, asked.0 as u64);
                m.append(", ");
                crate::text::push_decimal(&mut m, asked.1 as u64);
                m.append(" instead.");
                m
            },
        }
    }
}

pub open spec fn mixed_message(recorded: (usize, usize), asked: (usize, usize)) -> Seq<char> {
    "this index was built at target_chars="@ + crate::text::decimal(recorded.0 as nat)
        + ", overlap_chars="@ + crate::text::decimal(recorded.1 as nat)
        + "; this run asks for "@ + crate::text::decimal(asked.0 as nat)
        + ", "@ + crate::text::decimal(asked.1 as nat)
        + ". Chunk geometry decides the chunk text, and the text is what a chunk_hash hashes — so the old chunks would stay beside the new ones and every vector in the cache would be "@
        + "orphaned"@ + ". Re-run with `"@ + "--rebuild"@ + "` to replace the index, or drop the flags to keep it."@
}

pub open spec fn unrecorded_message(asked: (usize, usize)) -> Seq<char> {
    "this index "@ + "records no chunk geometry"@ + ", so its existing chunks can only be assumed to use the defaults ("@
        + crate::text::decimal(DEFAULT_TARGET_CHARS as nat) + ", "@
        + crate::text::decimal(DEFAULT_OVERLAP_CHARS as nat)
        + "). Re-run with `"@ + "--rebuild"@ + "` to build it at "@ + crate::text::decimal(asked.0 as nat)
        + ", "@ + crate::text::decimal(asked.1 as nat) + " instead."@
}

/// What a refusal says.
pub open spec fn message_of(e: GeometryError) -> Seq<char> {
    match e {
        GeometryError::Mixed { recorded, asked } => mixed_message(recorded, asked),
        GeometryError::Unrecorded { asked } => unrecorded_message(asked),
    }
}

/// Every refused change of geometry says how to make it (`--rebuild`) and why it was
/// refused: an index built at another geometry would orphan its vectors, and one that
/// records none can only be assumed to use the defaults. (A refusal records nothing:
/// `settle_geometry` leaves the geometry as it was.)
pub proof fn law_a_refusal_names_the_way_out(recorded: Option<(usize, usize)>, total: nat, asked: (usize, usize))
    requires
        settle_spec(recorded, total, asked) is Err,
    ensures
        ({
            let m = message_of(settle_spec(recorded, total, asked)->Err_0);
            &&& holds(m, "--rebuild"@)
            &&& recorded is Some ==> holds(m, "orphaned"@)
            &&& recorded is None ==> holds(m, "records no chunk geometry"@)
        }),
{
    let e = settle_spec(recorded, total, asked)->Err_0;
    match e {
        GeometryError::Mixed { recorded: r, asked: a } => {
            let head = "this index was built at target_chars="@ + decimal(r.0 as nat) + ", overlap_chars="@ + decimal(
                r.1 as nat,
            ) + "; this run asks for "@ + decimal(a.0 as nat) + ", "@ + decimal(a.1 as nat)
                + ". Chunk geometry decides the chunk text, and the text is what a chunk_hash hashes — so the old chunks would stay beside the new ones and every vector in the cache would be "@;
            let tail = "` to replace the index, or drop the flags to keep it."@;
            assert(mixed_message(r, a) =~= head + "orphaned"@ + (". Re-run with `"@ + "--rebuild"@ + tail));
            lemma_holds_between(head, "orphaned"@, ". Re-run with `"@ + "--rebuild"@ + tail);
            assert(mixed_message(r, a) =~= (head + "orphaned"@ + ". Re-run with `"@) + "--rebuild"@ + tail);
            lemma_holds_between(head + "orphaned"@ + ". Re-run with `"@, "--rebuild"@, tail);
        },
        GeometryError::Unrecorded { asked: a } => {
            let mid = ", so its existing chunks can only be assumed to use the defaults ("@ + decimal(
                DEFAULT_TARGET_CHARS as nat,
            ) + ", "@ + decimal(DEFAULT_OVERLAP_CHARS as nat) + "). Re-run with `"@;
            let tail = "` to build it at "@ + decimal(a.0 as nat) + ", "@ + decimal(a.1 as nat) + " instead."@;
            assert(unrecorded_message(a) =~= "this index "@ + "records no chunk geometry"@ + (mid + "--rebuild"@ + tail));
            lemma_holds_between("this index "@, "records no chunk geometry"@, mid + "--rebuild"@ + tail);
            assert(unrecorded_message(a) =~= ("this index "@ + "records no chunk geometry"@ + mid) + "--rebuild"@ + tail);
            lemma_holds_between("this index "@ + "records no chunk geometry"@ + mid, "--rebuild"@, tail);
        },
    }
}

// ── titles ──────────────────────────────────────────────────────────────────

/// Lines of a document searched for its title.
pub const TITLE_LINES: usize = 40;

/// Where the first `\n` of `s` is, or its length.
pub open spec fn line_end(s: Seq<char>) -> nat
    decreases s.len(),
{
    if s.len() == 0 || s[0] == '\n' { 0 } else { 1 + line_end(s.drop_first()) }
}

/// A line as `str::lines` yields it: a `\r` before the newline is not part of it.
pub open spec fn strip_cr(line: Seq<char>, ended: bool) -> Seq<char> {
    if ended && line.len() > 0 && line.last() == '\r' { line.drop_last() } else { line }
}

pub open spec fn trim_hashes(s: Seq<char>) -> Seq<char>
    decreases s.len(),
{
    if s.len() > 0 && s[0] == '#' { trim_hashes(s.drop_first()) } else { s }
}

/// The first markdown heading among the first `budget` lines of `s`, when it has any text.
///
/// The first line that is a heading decides, even an empty one: `#` alone is a heading
/// with no title in it, not a reason to look further.
pub open spec fn first_heading_in(s: Seq<char>, budget: nat) -> Option<Seq<char>>
    decreases s.len(),
{
    if s.len() == 0 || budget == 0 {
        None
    } else {
        let i = line_end(s);
        let ended = i < s.len();
        let t = trim_start(strip_cr(s.take(i as int), ended));
        if t.len() > 0 && t[0] == '#' {
            let title = trim(trim_hashes(t));
            if title.len() == 0 { None } else { Some(title) }
        } else if !ended {
            None
        } else {
            proof {
                lemma_line_end_bounded(s);
            }
            first_heading_in(s.subrange(i as int + 1, s.len() as int), (budget - 1) as nat)
        }
    }
}

pub proof fn lemma_line_end_bounded(s: Seq<char>)
    ensures
        line_end(s) <= s.len(),
        line_end(s) < s.len() ==> s[line_end(s) as int] == '\n',
        forall|j: int| 0 <= j < line_end(s) ==> s[j] != '\n',
    decreases s.len(),
{
    if s.len() > 0 && s[0] != '\n' {
        lemma_line_end_bounded(s.drop_first());
        assert forall|j: int| 0 <= j < line_end(s) implies s[j] != '\n' by {
            if j > 0 {
                assert(s[j] == s.drop_first()[j - 1]);
            }
        }
    }
}

proof fn lemma_line_end(s: Seq<char>, i: int)
    requires
        0 <= i <= s.len(),
        forall|j: int| 0 <= j < i ==> s[j] != '\n',
        i == s.len() || s[i] == '\n',
    ensures
        line_end(s) == i,
    decreases i,
{
    if i > 0 {
        let t = s.drop_first();
        assert forall|j: int| 0 <= j < i - 1 implies t[j] != '\n' by {
            assert(t[j] == s[j + 1]);
        }
        lemma_line_end(t, i - 1);
    }
}

/// The first markdown heading, used as a document title.
pub fn first_heading(text: &str) -> (t: Option<String>)
    ensures
        match t {
            Some(x) => first_heading_in(text@, TITLE_LINES as nat) == Some(x@),
            None => first_heading_in(text@, TITLE_LINES as nat) is None,
        },
{
    let s = chars_of(text);
    let mut start: usize = 0;
    let mut budget: usize = 40;
    assert(s@.subrange(0, s@.len() as int) =~= s@);
    while start < s.len() && budget > 0
        invariant
            s@ == text@,
            start <= s@.len(),
            budget <= 40,
            first_heading_in(s@, TITLE_LINES as nat) == first_heading_in(s@.subrange(start as int, s@.len() as int), budget as nat),
        decreases s.len() - start,
    {
        let ghost rest = s@.subrange(start as int, s@.len() as int);
        let mut i = start;
        while i < s.len() && s[i] != '\n'
            invariant
                start <= i <= s@.len(),
                forall|j: int| start <= j < i ==> s@[j] != '\n',
            decreases s.len() - i,
        {
            i = i + 1;
        }
        proof {
            lemma_line_end(rest, i - start);
        }
        let ended = i < s.len();
        let mut stop = i;
        if ended && stop > start && s[stop - 1] == '\r' {
            stop = stop - 1;
        }
        assert(s@.subrange(start as int, stop as int) =~= strip_cr(rest.take(i - start), ended));
        let line = crate::address::slice_from(crate::address::slice_to(s.as_slice(), stop).as_slice(), start);
        assert(line@ =~= strip_cr(rest.take(i - start), ended));
        assert(line@.subrange(0, line@.len() as int) =~= line@);
        let ls = skip_space(line.as_slice(), 0);
        let stop = line.len();
        if ls < stop && line[ls] == '#' {
            let mut h = ls;
            while h < stop && line[h] == '#'
                invariant
                    ls <= h <= stop == line@.len(),
                    trim_hashes(line@.subrange(ls as int, stop as int)) == trim_hashes(line@.subrange(h as int, stop as int)),
                decreases stop - h,
            {
                assert(line@.subrange(h as int, stop as int).drop_first() =~= line@.subrange(h + 1, stop as int));
                h = h + 1;
            }
            let body = crate::address::slice_from(line.as_slice(), h);
            let a = skip_space(body.as_slice(), 0);
            assert(body@.subrange(0, body@.len() as int) =~= body@);
            let mid = crate::address::slice_from(body.as_slice(), a);
            let b = drop_space_end(mid.as_slice(), mid.len());
            assert(mid@.take(mid@.len() as int) =~= mid@);
            let title = crate::address::slice_to(mid.as_slice(), b);
            proof {
                let t = trim_start(strip_cr(rest.take(i - start), ended));
                assert(t == line@.subrange(ls as int, stop as int));
                assert(t.len() > 0 && t[0] == '#');
                assert(trim_hashes(t) == body@);
                assert(trim_start(body@) == mid@);
                assert(trim(trim_hashes(t)) == title@);
                assert(line_end(rest) == i - start);
                assert(rest.len() > 0);
                assert(budget > 0);
                assert(first_heading_in(rest, budget as nat) == (if title@.len() == 0 { None } else { Some(title@) }));
            }
            if title.len() == 0 {
                return None;
            }
            return Some(string_of(title.as_slice()));
        }
        if !ended {
            return None;
        }
        assert(rest.subrange(i - start + 1, rest.len() as int) =~= s@.subrange(i + 1, s@.len() as int));
        start = i + 1;
        budget = budget - 1;
    }
    None
}

// ── where each text was seen ───────────────────────────────────────────────

/// One observation of a blob at an address, at a time in nanoseconds.
#[derive(Debug)]
pub struct Sighting {
    pub blob: String,
    pub address: String,
    pub at: i128,
}

/// The addresses `blob` was observed at, in log order, each as often as observed.
pub open spec fn sighted_at(s: Seq<Sighting>, blob: Seq<char>) -> Seq<Seq<char>>
    decreases s.len(),
{
    if s.len() == 0 {
        Seq::empty()
    } else if s.last().blob@ == blob {
        sighted_at(s.drop_last(), blob).push(s.last().address@)
    } else {
        sighted_at(s.drop_last(), blob)
    }
}

/// The earliest time `blob` was observed at `address`.
pub open spec fn earliest(s: Seq<Sighting>, blob: Seq<char>, address: Seq<char>) -> Option<i128>
    decreases s.len(),
{
    if s.len() == 0 {
        None
    } else {
        let e = earliest(s.drop_last(), blob, address);
        let o = s.last();
        if o.blob@ == blob && o.address@ == address {
            match e {
                Some(t) => Some(if o.at < t { o.at } else { t }),
                None => Some(o.at),
            }
        } else {
            e
        }
    }
}

pub open spec fn place_names(ps: Seq<(String, i128)>) -> Seq<Seq<char>> {
    ps.map_values(|p: (String, i128)| p.0@)
}

proof fn lemma_earliest_absent(s: Seq<Sighting>, blob: Seq<char>, address: Seq<char>)
    requires
        !sighted_at(s, blob).contains(address),
    ensures
        earliest(s, blob, address) is None,
    decreases s.len(),
{
    if s.len() > 0 {
        if s.last().blob@ == blob {
            assert(sighted_at(s, blob).last() == s.last().address@);
            assert(sighted_at(s.drop_last(), blob) == sighted_at(s, blob).drop_last());
            assert forall|x: Seq<char>| sighted_at(s.drop_last(), blob).contains(x) implies sighted_at(s, blob).contains(x) by {
                let k = choose|k: int| 0 <= k < sighted_at(s.drop_last(), blob).len() && sighted_at(s.drop_last(), blob)[k] == x;
                assert(sighted_at(s, blob)[k] == x);
            }
        }
        lemma_earliest_absent(s.drop_last(), blob, address);
    }
}

/// Every address a blob sits at, once each, with the earliest observation of these bytes
/// there: every address is a legitimate citation, and re-collecting an unchanged page must
/// not make it one more. Earliest because that is first-seen and does not churn.
pub fn places_of(sightings: &Vec<Sighting>, blob: &str) -> (ps: Vec<(String, i128)>)
    ensures
        place_names(ps@) == first_seen(sighted_at(sightings@, blob@)),
        forall|i: int| 0 <= i < ps@.len() ==> earliest(sightings@, blob@, (#[trigger] ps@[i]).0@) == Some(ps@[i].1),
{
    let mut ps: Vec<(String, i128)> = Vec::new();
    let mut i: usize = 0;
    while i < sightings.len()
        invariant
            i <= sightings@.len(),
            place_names(ps@) == first_seen(sighted_at(sightings@.take(i as int), blob@)),
            forall|j: int| 0 <= j < ps@.len() ==> earliest(sightings@.take(i as int), blob@, (#[trigger] ps@[j]).0@) == Some(
                ps@[j].1,
            ),
            forall|a: int, b: int| 0 <= a < b < ps@.len() ==> (#[trigger] ps@[a]).0@ != (#[trigger] ps@[b]).0@,
        decreases sightings.len() - i,
    {
        let ghost prefix = sightings@.take(i as int);
        let ghost next = sightings@.take(i + 1);
        assert(next.drop_last() =~= prefix);
        assert(next.last() == sightings@[i as int]);
        let o = &sightings[i];
        if str_eq(o.blob.as_str(), blob) {
            assert(sighted_at(next, blob@) == sighted_at(prefix, blob@).push(o.address@));
            assert(sighted_at(next, blob@).drop_last() =~= sighted_at(prefix, blob@));
            let mut k: usize = 0;
            while k < ps.len() && !str_eq(ps[k].0.as_str(), o.address.as_str())
                invariant
                    k <= ps@.len(),
                    forall|j: int| 0 <= j < k ==> (#[trigger] ps@[j]).0@ != o.address@,
                decreases ps.len() - k,
            {
                k = k + 1;
            }
            if k < ps.len() {
                let ghost before = ps@;
                let t = ps[k].1;
                let low = if o.at < t { o.at } else { t };
                let name = owned(ps[k].0.as_str());
                ps.set(k, (name, low));
                proof {
                    assert(place_names(ps@) =~= place_names(before));
                    assert(place_names(before).contains(o.address@)) by {
                        assert(place_names(before)[k as int] == o.address@);
                    }
                    assert(first_seen(sighted_at(next, blob@)) == first_seen(sighted_at(prefix, blob@)));
                    assert forall|j: int| 0 <= j < ps@.len() implies earliest(next, blob@, (#[trigger] ps@[j]).0@) == Some(
                        ps@[j].1,
                    ) by {
                        if j != k {
                            assert(ps@[j] == before[j]);
                            assert(before[j].0@ != before[k as int].0@);
                        } else {
                            assert(earliest(prefix, blob@, o.address@) == Some(t));
                        }
                    }
                    assert forall|a: int, b: int| 0 <= a < b < ps@.len() implies (#[trigger] ps@[a]).0@ != (#[trigger] ps@[b]).0@ by {
                        assert(ps@[a].0@ == before[a].0@ && ps@[b].0@ == before[b].0@);
                    }
                }
            } else {
                let ghost before = ps@;
                ps.push((owned(o.address.as_str()), o.at));
                proof {
                    assert(!place_names(before).contains(o.address@)) by {
                        if place_names(before).contains(o.address@) {
                            let j = choose|j: int| 0 <= j < place_names(before).len() && place_names(before)[j] == o.address@;
                            assert(before[j].0@ == o.address@);
                        }
                    }
                    assert(place_names(ps@) =~= place_names(before).push(o.address@));
                    assert(first_seen(sighted_at(next, blob@)) == first_seen(sighted_at(prefix, blob@)).push(o.address@));
                    assert(!sighted_at(prefix, blob@).contains(o.address@)) by {
                        lemma_first_seen_same_members(sighted_at(prefix, blob@), o.address@);
                    }
                    lemma_earliest_absent(prefix, blob@, o.address@);
                    assert forall|j: int| 0 <= j < ps@.len() implies earliest(next, blob@, (#[trigger] ps@[j]).0@) == Some(
                        ps@[j].1,
                    ) by {
                        if j < before.len() {
                            assert(ps@[j] == before[j]);
                            assert(before[j].0@ != o.address@) by {
                                assert(place_names(before)[j] == before[j].0@);
                            }
                        }
                    }
                    assert forall|a: int, b: int| 0 <= a < b < ps@.len() implies (#[trigger] ps@[a]).0@ != (#[trigger] ps@[b]).0@ by {
                        if b == before.len() {
                            assert(place_names(before)[a] == before[a].0@);
                        } else {
                            assert(ps@[a] == before[a] && ps@[b] == before[b]);
                        }
                    }
                }
            }
        } else {
            proof {
                assert(sighted_at(next, blob@) == sighted_at(prefix, blob@));
                assert forall|j: int| 0 <= j < ps@.len() implies earliest(next, blob@, (#[trigger] ps@[j]).0@) == Some(
                    ps@[j].1,
                ) by {}
            }
        }
        i = i + 1;
    }
    assert(sightings@.take(sightings@.len() as int) =~= sightings@);
    ps
}

/// A name is among the first-seen names exactly when it is among the names.
proof fn lemma_first_seen_same_members(s: Seq<Seq<char>>, x: Seq<char>)
    ensures
        first_seen(s).contains(x) <==> s.contains(x),
    decreases s.len(),
{
    if s.len() > 0 {
        lemma_first_seen_same_members(s.drop_last(), x);
        let prev = first_seen(s.drop_last());
        if s.contains(x) && !s.drop_last().contains(x) {
            assert(s.last() == x) by {
                let k = choose|k: int| 0 <= k < s.len() && s[k] == x;
                if k < s.len() - 1 {
                    assert(s.drop_last()[k] == x);
                }
            }
            if !prev.contains(x) {
                assert(prev.push(x)[prev.len() as int] == x);
            }
        }
        if s.drop_last().contains(x) {
            let k = choose|k: int| 0 <= k < s.drop_last().len() && s.drop_last()[k] == x;
            assert(s[k] == x);
        }
        if first_seen(s).contains(x) && !prev.contains(x) {
            assert(first_seen(s) == prev.push(s.last()));
            let k = choose|k: int| 0 <= k < first_seen(s).len() && first_seen(s)[k] == x;
            if k < prev.len() {
                assert(prev[k] == x);
            }
            assert(s[s.len() - 1] == x);
        }
        if prev.contains(x) && first_seen(s) == prev.push(s.last()) {
            let k = choose|k: int| 0 <= k < prev.len() && prev[k] == x;
            assert(first_seen(s)[k] == x);
        }
    }
}

// ── which derivation is current ─────────────────────────────────────────────

/// A derivation record: the derived text `to` made from the blob `from`, at a time in
/// nanoseconds, by `tool`.
#[derive(Debug)]
pub struct Derived {
    pub from: String,
    pub to: String,
    pub at: i128,
    pub tool: String,
}

pub open spec fn dv(d: Derived) -> (Seq<char>, Seq<char>, i128, Seq<char>) {
    (d.from@, d.to@, d.at, d.tool@)
}

/// The derivation of `from` the log holds current after reading `ds` in order: a later
/// record replaces the one held unless it is older. The log is append-only, so
/// `extract --refresh` appends a better extraction beside the one it supersedes, and only
/// the current one is indexed.
pub open spec fn held(ds: Seq<Derived>, from: Seq<char>) -> Option<Derived>
    decreases ds.len(),
{
    if ds.len() == 0 {
        None
    } else {
        let h = held(ds.drop_last(), from);
        let d = ds.last();
        if d.from@ == from && (match h {
            Some(x) => !(d.at < x.at),
            None => true,
        }) {
            Some(d)
        } else {
            h
        }
    }
}

pub open spec fn dvs(ds: Seq<Derived>) -> Seq<(Seq<char>, Seq<char>, i128, Seq<char>)> {
    ds.map_values(|d: Derived| dv(d))
}

pub open spec fn sources_of(ds: Seq<Derived>) -> Seq<Seq<char>> {
    ds.map_values(|d: Derived| d.from@)
}

/// One current derivation per blob derived from, in the order the blobs first appear.
pub open spec fn currents(ds: Seq<Derived>) -> Seq<(Seq<char>, Seq<char>, i128, Seq<char>)> {
    first_seen(sources_of(ds)).map_values(
        |f: Seq<char>|
            match held(ds, f) {
                Some(d) => dv(d),
                None => dv(ds[0]),
            },
    )
}

/// What `held` comes to: of the records for `from`, the latest in time, and of those
/// equally late the last in the log — a re-run recorded in the same instant still wins.
pub proof fn law_the_current_derivation_is_the_latest(ds: Seq<Derived>, from: Seq<char>)
    ensures
        held(ds, from) matches Some(d) ==> {
            &&& d.from@ == from
            &&& exists|i: int| 0 <= i < ds.len() && ds[i] == d && forall|j: int| i < j < ds.len() && (#[trigger] ds[j]).from@ == from ==> ds[j].at < d.at
            &&& forall|j: int| 0 <= j < ds.len() && (#[trigger] ds[j]).from@ == from ==> ds[j].at <= d.at
        },
        held(ds, from) is None <==> !sources_of(ds).contains(from),
    decreases ds.len(),
{
    if ds.len() > 0 {
        let rest = ds.drop_last();
        law_the_current_derivation_is_the_latest(rest, from);
        assert(sources_of(rest) =~= sources_of(ds).drop_last());
        let d = ds.last();
        if sources_of(rest).contains(from) {
            let k = choose|k: int| 0 <= k < sources_of(rest).len() && sources_of(rest)[k] == from;
            assert(sources_of(ds)[k] == from);
        }
        if d.from@ == from {
            assert(sources_of(ds)[ds.len() - 1] == from);
        }
        if sources_of(ds).contains(from) && !sources_of(rest).contains(from) {
            let k = choose|k: int| 0 <= k < sources_of(ds).len() && sources_of(ds)[k] == from;
            if k < ds.len() - 1 {
                assert(sources_of(rest)[k] == from);
            }
        }
        match held(ds, from) {
            Some(h) => {
                if h == d && d.from@ == from && (match held(rest, from) {
                    Some(x) => !(d.at < x.at),
                    None => true,
                }) {
                    assert(ds[ds.len() - 1] == d);
                    assert forall|j: int| 0 <= j < ds.len() && (#[trigger] ds[j]).from@ == from implies ds[j].at <= d.at by {
                        if j < ds.len() - 1 {
                            assert(rest[j] == ds[j]);
                            assert(sources_of(rest)[j] == from);
                            assert(sources_of(rest).contains(from));
                        }
                    }
                } else {
                    let i = choose|i: int| 0 <= i < rest.len() && rest[i] == h && forall|j: int| i < j < rest.len() && (#[trigger] rest[j]).from@ == from ==> rest[j].at < h.at;
                    assert(ds[i] == h);
                    assert forall|j: int| i < j < ds.len() && (#[trigger] ds[j]).from@ == from implies ds[j].at < h.at by {
                        if j < ds.len() - 1 {
                            assert(rest[j] == ds[j]);
                        }
                    }
                    assert forall|j: int| 0 <= j < ds.len() && (#[trigger] ds[j]).from@ == from implies ds[j].at <= h.at by {
                        if j < ds.len() - 1 {
                            assert(rest[j] == ds[j]);
                        }
                    }
                }
            },
            None => {},
        }
    }
}

/// `a` is indexed no later than `b`: by time, then by derived hash, so that the order does
/// not vary run to run.
pub open spec fn derived_before(a: (Seq<char>, Seq<char>, i128, Seq<char>), b: (Seq<char>, Seq<char>, i128, Seq<char>)) -> bool {
    a.2 < b.2 || (a.2 == b.2 && lex_le(a.1, b.1))
}

pub open spec fn in_derivation_order(s: Seq<Derived>) -> bool {
    forall|i: int, j: int| 0 <= i < j < s.len() ==> derived_before(dv(#[trigger] s[i]), dv(#[trigger] s[j]))
}

fn copy_derived(d: &Derived) -> (c: Derived)
    ensures
        dv(c) == dv(*d),
{
    Derived { from: owned(d.from.as_str()), to: owned(d.to.as_str()), at: d.at, tool: owned(d.tool.as_str()) }
}

fn derived_before_exec(a: &Derived, b: &Derived) -> (r: bool)
    ensures
        r == derived_before(dv(*a), dv(*b)),
{
    if a.at != b.at {
        return a.at < b.at;
    }
    let x = chars_of(a.to.as_str());
    let y = chars_of(b.to.as_str());
    match crate::counts::compare(y.as_slice(), x.as_slice()) {
        crate::counts::Order::Before => false,
        _ => true,
    }
}

proof fn lemma_derived_total(a: Derived, b: Derived)
    ensures
        derived_before(dv(a), dv(b)) || derived_before(dv(b), dv(a)),
{
    lemma_lex_le_total(a.to@, b.to@);
}

proof fn lemma_derived_transitive(a: Derived, b: Derived, c: Derived)
    requires
        derived_before(dv(a), dv(b)),
        derived_before(dv(b), dv(c)),
    ensures
        derived_before(dv(a), dv(c)),
{
    if a.at == b.at && b.at == c.at {
        lemma_lex_le_transitive(a.to@, b.to@, c.to@);
    }
}

fn sort_derived(v: Vec<Derived>) -> (out: Vec<Derived>)
    ensures
        in_derivation_order(out@),
        out@.to_multiset() == v@.to_multiset(),
{
    broadcast use vstd::seq_lib::group_to_multiset_ensures;

    let mut v = v;
    let ghost original = v@;
    let mut out: Vec<Derived> = Vec::new();
    while v.len() > 0
        invariant
            in_derivation_order(out@),
            v@.to_multiset().add(out@.to_multiset()) == original.to_multiset(),
        decreases v.len(),
    {
        let ghost before_v = v@;
        let x = v.pop().unwrap();
        assert(before_v =~= v@.push(x));
        let mut pos: usize = 0;
        while pos < out.len() && !derived_before_exec(&x, &out[pos])
            invariant
                pos <= out@.len(),
                forall|k: int| 0 <= k < pos ==> !derived_before(dv(x), dv(#[trigger] out@[k])),
            decreases out.len() - pos,
        {
            pos = pos + 1;
        }
        let ghost before = out@;
        proof {
            assert forall|k: int| 0 <= k < pos implies derived_before(dv(#[trigger] before[k]), dv(x)) by {
                lemma_derived_total(x, before[k]);
            }
            assert forall|k: int| pos <= k < before.len() implies derived_before(dv(x), dv(#[trigger] before[k])) by {
                if k > pos {
                    assert(derived_before(dv(before[pos as int]), dv(before[k])));
                    lemma_derived_transitive(x, before[pos as int], before[k]);
                }
            }
        }
        out.insert(pos, x);
        proof {
            assert(out@ == before.insert(pos as int, x));
            assert forall|i: int, j: int| 0 <= i < j < out@.len() implies derived_before(
                dv(#[trigger] out@[i]),
                dv(#[trigger] out@[j]),
            ) by {
                if i < pos && j < pos {
                    assert(out@[i] == before[i] && out@[j] == before[j]);
                } else if i < pos && j == pos {
                } else if i < pos && j > pos {
                    assert(out@[i] == before[i] && out@[j] == before[j - 1]);
                } else if i == pos {
                    assert(out@[j] == before[j - 1]);
                } else {
                    assert(out@[i] == before[i - 1] && out@[j] == before[j - 1]);
                }
            }
            vstd::seq_lib::to_multiset_insert(before, pos as int, x);
            vstd::seq_lib::to_multiset_build(v@, x);
            assert(v@.push(x).to_multiset() == v@.to_multiset().insert(x));
            assert(v@.to_multiset().add(out@.to_multiset()) =~= before_v.to_multiset().add(before.to_multiset()));
        }
    }
    assert(v@.to_multiset() =~= vstd::multiset::Multiset::empty());
    assert(out@.to_multiset() =~= original.to_multiset());
    out
}

/// The derivations to index: the current one of each blob, in indexing order. Indexing
/// every derivation ever recorded would make the corpus answer twice, once from the text
/// an operator deliberately replaced.
pub fn current_derivations(ds: &Vec<Derived>) -> (out: Vec<Derived>)
    ensures
        in_derivation_order(out@),
        exists|p: Seq<Derived>| #[trigger] p.to_multiset() == out@.to_multiset() && dvs(p) == currents(ds@),
{
    let mut ix: Vec<usize> = Vec::new();
    let mut i: usize = 0;
    while i < ds.len()
        invariant
            i <= ds@.len(),
            ix@.len() == first_seen(sources_of(ds@.take(i as int))).len(),
            forall|k: int| 0 <= k < ix@.len() ==> #[trigger] ix@[k] < i,
            forall|k: int| 0 <= k < ix@.len() ==> ds@[#[trigger] ix@[k] as int].from@ == first_seen(sources_of(ds@.take(i as int)))[k],
            forall|k: int| 0 <= k < ix@.len() ==> held(ds@.take(i as int), ds@[#[trigger] ix@[k] as int].from@) == Some(ds@[ix@[k] as int]),
        decreases ds.len() - i,
    {
        let ghost prefix = ds@.take(i as int);
        let ghost next = ds@.take(i + 1);
        assert(next.drop_last() =~= prefix);
        assert(next.last() == ds@[i as int]);
        assert(sources_of(next) =~= sources_of(prefix).push(ds@[i as int].from@));
        assert(sources_of(next).drop_last() =~= sources_of(prefix));
        let ghost fs = first_seen(sources_of(prefix));
        let mut k: usize = 0;
        while k < ix.len() && !str_eq(ds[ix[k]].from.as_str(), ds[i].from.as_str())
            invariant
                k <= ix@.len(),
                i < ds@.len(),
                forall|q: int| 0 <= q < ix@.len() ==> #[trigger] ix@[q] < i,
                forall|q: int| 0 <= q < k ==> ds@[#[trigger] ix@[q] as int].from@ != ds@[i as int].from@,
            decreases ix.len() - k,
        {
            k = k + 1;
        }
        if k < ix.len() {
            let ghost old_ix = ix@;
            proof {
                assert(fs[k as int] == ds@[i as int].from@);
                assert(fs.contains(ds@[i as int].from@));
            }
            if !(ds[i].at < ds[ix[k]].at) {
                ix.set(k, i);
            }
            proof {
                assert(first_seen(sources_of(next)) == fs);
                assert forall|q: int| 0 <= q < ix@.len() implies held(next, ds@[#[trigger] ix@[q] as int].from@) == Some(
                    ds@[ix@[q] as int],
                ) by {
                    if q != k {
                        assert(ix@[q] == old_ix[q]);
                        assert(fs[q] != fs[k as int]) by {
                            lemma_first_seen_distinct(sources_of(prefix), q, k as int);
                        }
                    }
                }
                assert forall|q: int| 0 <= q < ix@.len() implies ds@[#[trigger] ix@[q] as int].from@ == first_seen(
                    sources_of(next),
                )[q] by {
                    if q != k {
                        assert(ix@[q] == old_ix[q]);
                    }
                }
            }
        } else {
            let ghost old_ix = ix@;
            ix.push(i);
            proof {
                assert(!fs.contains(ds@[i as int].from@)) by {
                    if fs.contains(ds@[i as int].from@) {
                        let q = choose|q: int| 0 <= q < fs.len() && fs[q] == ds@[i as int].from@;
                        assert(ds@[old_ix[q] as int].from@ == fs[q]);
                    }
                }
                assert(first_seen(sources_of(next)) == fs.push(ds@[i as int].from@));
                assert(!sources_of(prefix).contains(ds@[i as int].from@)) by {
                    lemma_first_seen_same_members(sources_of(prefix), ds@[i as int].from@);
                }
                law_the_current_derivation_is_the_latest(prefix, ds@[i as int].from@);
                assert forall|q: int| 0 <= q < ix@.len() implies held(next, ds@[#[trigger] ix@[q] as int].from@) == Some(
                    ds@[ix@[q] as int],
                ) by {
                    if q < old_ix.len() {
                        assert(ix@[q] == old_ix[q]);
                        assert(fs[q] != ds@[i as int].from@) by {
                            assert(fs.contains(fs[q]));
                        }
                    }
                }
                assert forall|q: int| 0 <= q < ix@.len() implies ds@[#[trigger] ix@[q] as int].from@ == first_seen(
                    sources_of(next),
                )[q] by {
                    if q < old_ix.len() {
                        assert(ix@[q] == old_ix[q]);
                    }
                }
            }
        }
        i = i + 1;
    }
    assert(ds@.take(ds@.len() as int) =~= ds@);
    let ghost fs = first_seen(sources_of(ds@));
    assert(currents(ds@).len() == fs.len());
    let mut picked: Vec<Derived> = Vec::new();
    assert(dvs(picked@) =~= currents(ds@).take(0));
    let mut k: usize = 0;
    while k < ix.len()
        invariant
            k <= ix@.len(),
            ix@.len() == fs.len(),
            fs == first_seen(sources_of(ds@)),
            forall|q: int| 0 <= q < ix@.len() ==> #[trigger] ix@[q] < ds@.len(),
            forall|q: int| 0 <= q < ix@.len() ==> ds@[#[trigger] ix@[q] as int].from@ == fs[q],
            forall|q: int| 0 <= q < ix@.len() ==> held(ds@, ds@[#[trigger] ix@[q] as int].from@) == Some(ds@[ix@[q] as int]),
            picked@.len() == k,
            currents(ds@).len() == fs.len(),
            dvs(picked@) == currents(ds@).take(k as int),
        decreases ix.len() - k,
    {
        let c = copy_derived(&ds[ix[k]]);
        let ghost before = picked@;
        picked.push(c);
        proof {
            assert(held(ds@, fs[k as int]) == Some(ds@[ix@[k as int] as int]));
            assert(currents(ds@)[k as int] == dv(ds@[ix@[k as int] as int]));
            assert(picked@ == before.push(c));
            assert forall|j: int| 0 <= j < k + 1 implies #[trigger] dvs(picked@)[j] == currents(
                ds@,
            ).take(k + 1)[j] by {
                if j < k {
                    assert(picked@[j] == before[j]);
                    assert(dvs(before)[j] == currents(ds@).take(k as int)[j]);
                }
            }
            assert(dvs(picked@) =~= currents(ds@).take(k + 1));
        }
        k = k + 1;
    }
    assert(currents(ds@).take(fs.len() as int) =~= currents(ds@));
    let ghost p = picked@;
    let out = sort_derived(picked);
    assert(p.to_multiset() == out@.to_multiset());
    out
}

/// No name is listed twice among the first-seen names.
proof fn lemma_first_seen_distinct(s: Seq<Seq<char>>, a: int, b: int)
    requires
        0 <= a < first_seen(s).len(),
        0 <= b < first_seen(s).len(),
        a != b,
    ensures
        first_seen(s)[a] != first_seen(s)[b],
    decreases s.len(),
{
    if s.len() > 0 {
        let prev = first_seen(s.drop_last());
        if prev.contains(s.last()) {
            lemma_first_seen_distinct(s.drop_last(), a, b);
        } else {
            if a < prev.len() && b < prev.len() {
                lemma_first_seen_distinct(s.drop_last(), a, b);
            } else if a == prev.len() {
                assert(first_seen(s)[b] == prev[b]);
                assert(prev.contains(prev[b]));
            } else {
                assert(first_seen(s)[a] == prev[a]);
                assert(prev.contains(prev[a]));
            }
        }
    }
}

impl IndexReport {
    /// A report on `sources` before anything is read.
    pub fn new(sources: Vec<String>) -> (r: IndexReport)
        ensures
            r.sources == sources,
            r.derivations == 0 && r.already_indexed == 0 && r.documents_indexed == 0,
            r.chunks_written == 0 && r.chunks_deduplicated == 0,
            r.total_chunks == 0 && r.total_placements == 0 && r.total_chars == 0,
    {
        IndexReport {
            sources,
            derivations: 0,
            already_indexed: 0,
            documents_indexed: 0,
            chunks_written: 0,
            chunks_deduplicated: 0,
            total_chunks: 0,
            total_placements: 0,
            total_chars: 0,
        }
    }

    /// One derived text whose every placement is already in the index: resumption
    /// subtracts placements, not derived blobs.
    /// The derivations a source holds current, counted as found.
    pub fn found(&mut self, n: usize)
        requires
            old(self).derivations + n <= usize::MAX,
        ensures
            *final(self) == (IndexReport { derivations: (old(self).derivations + n) as usize, ..*old(self) }),
    {
        self.derivations = self.derivations + n;
    }

    /// Whether a derivation has places left to index. One with none is counted as already
    /// indexed and passed over.
    pub fn placing(&mut self, pending: usize) -> (go: bool)
        requires
            pending == 0 ==> old(self).already_indexed < usize::MAX,
        ensures
            go == (pending > 0),
            *final(self) == (if go {
                *old(self)
            } else {
                IndexReport { already_indexed: (old(self).already_indexed + 1) as usize, ..*old(self) }
            }),
    {
        if pending == 0 {
            self.already_placed();
            false
        } else {
            true
        }
    }

    /// A derivation's text read and chunked: indexed only when it is not blank and gave
    /// some chunks, and then counted as a document indexed. A blank or chunkless text is
    /// passed over without a count.
    pub fn derivation_read(&mut self, blank: bool, chunks: usize) -> (index_it: bool)
        requires
            !blank && chunks > 0 ==> old(self).documents_indexed < usize::MAX,
        ensures
            index_it == (!blank && chunks > 0),
            *final(self) == (if index_it {
                IndexReport { documents_indexed: (old(self).documents_indexed + 1) as usize, ..*old(self) }
            } else {
                *old(self)
            }),
    {
        if blank || chunks == 0 {
            false
        } else {
            self.documents_indexed = self.documents_indexed + 1;
            true
        }
    }

    /// The index's own figures, read once the run is done.
    pub fn totals(&mut self, chunks: usize, placements: usize, chars: usize)
        ensures
            *final(self) == (IndexReport {
                total_chunks: chunks,
                total_placements: placements,
                total_chars: chars,
                ..*old(self)
            }),
    {
        self.total_chunks = chunks;
        self.total_placements = placements;
        self.total_chars = chars;
    }

    pub fn already_placed(&mut self)
        requires
            old(self).already_indexed < usize::MAX,
        ensures
            *final(self) == (IndexReport { already_indexed: (old(self).already_indexed + 1) as usize, ..*old(self) }),
    {
        self.already_indexed = self.already_indexed + 1;
    }

    /// One chunk placed: a body new to the index is written, one already there under
    /// another placement is deduplicated.
    pub fn placed_chunk(&mut self, body_is_new: bool)
        requires
            body_is_new ==> old(self).chunks_written < usize::MAX,
            !body_is_new ==> old(self).chunks_deduplicated < usize::MAX,
        ensures
            *final(self) == (if body_is_new {
                IndexReport { chunks_written: (old(self).chunks_written + 1) as usize, ..*old(self) }
            } else {
                IndexReport { chunks_deduplicated: (old(self).chunks_deduplicated + 1) as usize, ..*old(self) }
            }),
    {
        if body_is_new {
            self.chunks_written = self.chunks_written + 1;
        } else {
            self.chunks_deduplicated = self.chunks_deduplicated + 1;
        }
    }
}

// ── how it reads ────────────────────────────────────────────────────────────

pub open spec fn figures_of(r: IndexReport) -> Seq<char> {
    figure_text(r.derivations as nat, "derivations"@) + " · "@ + figure_text(r.already_indexed as nat, "already indexed"@)
        + " · "@ + figure_text(r.documents_indexed as nat, "documents indexed"@) + " · "@ + figure_text(
        r.chunks_written as nat,
        "chunks written"@,
    ) + " · "@ + figure_text(r.chunks_deduplicated as nat, "chunks deduplicated"@)
}

/// What this run did, then the size of the whole index.
pub open spec fn report_lines(depth: nat, r: IndexReport) -> Seq<Seq<char>> {
    seq![
        at(depth, title_text(join_with(texts(r.sources@), ", "@), grouped(r.total_chars as nat) + " of text"@)),
        at(depth + 1, figures_of(r)),
        Seq::<char>::empty(),
        at(
            depth + 1,
            plural_of(r.total_chunks as nat, "chunk"@, "chunks"@) + " in the index, at "@ + plural_of(
                r.total_placements as nat,
                "placement"@,
                "placements"@,
            ),
        ),
    ]
}

fn push_figure(s: &mut String, n: usize, label: &str)
    ensures
        final(s)@ == old(s)@ + figure_text(n as nat, label@),
{
    push_count(s, n as u64);
    s.append(" ");
    s.append(label);
}

impl IndexReport {
    pub fn render(&self, p: &mut Page)
        requires
            old(p).depth < usize::MAX,
        ensures
            final(p).text() == old(p).text() + report_lines(old(p).depth as nat, *self),
            final(p).depth == old(p).depth,
    {
        let names = joined(&self.sources, ", ");
        let mut aside = String::new();
        push_count(&mut aside, self.total_chars as u64);
        aside.append(" of text");
        p.title(names.as_str(), aside.as_str());
        p.enter();
        let mut f = String::new();
        push_figure(&mut f, self.derivations, "derivations");
        f.append(" · ");
        push_figure(&mut f, self.already_indexed, "already indexed");
        f.append(" · ");
        push_figure(&mut f, self.documents_indexed, "documents indexed");
        f.append(" · ");
        push_figure(&mut f, self.chunks_written, "chunks written");
        f.append(" · ");
        push_figure(&mut f, self.chunks_deduplicated, "chunks deduplicated");
        assert(f@ =~= figures_of(*self));
        p.line(f.as_str());
        p.blank();
        let mut totals = plural(self.total_chunks as u64, "chunk", "chunks");
        totals.append(" in the index, at ");
        let places = plural(self.total_placements as u64, "placement", "placements");
        totals.append(places.as_str());
        p.line(totals.as_str());
        p.leave();
        assert(p.text() =~= old(p).text() + report_lines(old(p).depth as nat, *self));
    }
}

} // verus!
