//! The vocabulary the reports share: what kind of source, what state an address is in,
//! and the remarks a source makes about itself.
use vstd::prelude::*;

use crate::page::{at, marked_at, Mark, Page};
use crate::text::{chars_of, owned, string_of};

verus! {

/// How a source is acquired. The two differ only in acquisition.
#[derive(Clone, Copy, Debug, PartialEq, Eq)]
pub enum SourceKind {
    Site,
    Channel,
}

impl SourceKind {
    pub open spec fn name_spec(&self) -> Seq<char> {
        match self {
            SourceKind::Site => "site"@,
            SourceKind::Channel => "channel"@,
        }
    }

    pub fn name(&self) -> (s: &'static str)
        ensures
            s@ == self.name_spec(),
    {
        match self {
            SourceKind::Site => "site",
            SourceKind::Channel => "channel",
        }
    }
}

/// What state an address is in. `Blocked` is not `Gone`: a WAF refusal is not evidence
/// of absence.
#[derive(Clone, Copy, Debug, PartialEq, Eq)]
pub enum Liveness {
    Live,
    Gone,
    Blocked,
    Error,
}

impl Liveness {
    pub open spec fn name_spec(&self) -> Seq<char> {
        match self {
            Liveness::Live => "live"@,
            Liveness::Gone => "gone"@,
            Liveness::Blocked => "blocked"@,
            Liveness::Error => "error"@,
        }
    }

    pub fn name(&self) -> (s: &'static str)
        ensures
            s@ == self.name_spec(),
    {
        match self {
            Liveness::Live => "live",
            Liveness::Gone => "gone",
            Liveness::Blocked => "blocked",
            Liveness::Error => "error",
        }
    }

    pub open spec fn mark_spec(&self) -> Mark {
        match self {
            Liveness::Live => Mark::Good,
            Liveness::Blocked => Mark::Warn,
            _ => Mark::Bad,
        }
    }

    /// A live address reads well, a blocked one is a warning, anything else is bad.
    pub fn mark(&self) -> (m: Mark)
        ensures
            m == self.mark_spec(),
    {
        match self {
            Liveness::Live => Mark::Good,
            Liveness::Blocked => Mark::Warn,
            _ => Mark::Bad,
        }
    }
}

/// How a note asks to be read.
#[derive(Clone, Copy, Debug, PartialEq, Eq)]
pub enum NoteMark {
    Good,
    Warn,
    Bad,
}

impl NoteMark {
    pub open spec fn mark_spec(&self) -> Mark {
        match self {
            NoteMark::Good => Mark::Good,
            NoteMark::Warn => Mark::Warn,
            NoteMark::Bad => Mark::Bad,
        }
    }

    pub fn mark(&self) -> (m: Mark)
        ensures
            m == self.mark_spec(),
    {
        match self {
            NoteMark::Good => Mark::Good,
            NoteMark::Warn => Mark::Warn,
            NoteMark::Bad => Mark::Bad,
        }
    }
}

/// Something a source wanted said about how it got here: sitemaps walked, tabs read,
/// rules assumed rather than obeyed.
#[derive(Debug)]
pub struct Note {
    pub label: String,
    pub detail: String,
    pub mark: Option<NoteMark>,
}

impl Note {
    pub fn new(label: &str, detail: &str) -> (n: Note)
        ensures
            n.label@ == label@,
            n.detail@ == detail@,
            n.mark is None,
    {
        Note { label: owned(label), detail: owned(detail), mark: None }
    }

    pub fn marked(label: &str, detail: &str, mark: NoteMark) -> (n: Note)
        ensures
            n.label@ == label@,
            n.detail@ == detail@,
            n.mark == Some(mark),
    {
        Note { label: owned(label), detail: owned(detail), mark: Some(mark) }
    }

    /// Good when `ok`, a warning otherwise.
    pub fn ok_or_warn(label: &str, detail: &str, ok: bool) -> (n: Note)
        ensures
            n.label@ == label@,
            n.detail@ == detail@,
            n.mark == Some(if ok { NoteMark::Good } else { NoteMark::Warn }),
    {
        Note {
            label: owned(label),
            detail: owned(detail),
            mark: Some(if ok { NoteMark::Good } else { NoteMark::Warn }),
        }
    }
}

/// `s` padded with spaces to `width` characters, as `{:<width}` pads it.
pub open spec fn pad(s: Seq<char>, width: nat) -> Seq<char> {
    if s.len() >= width { s } else { s + spaces((width - s.len()) as nat) }
}

/// `k` spaces.
pub open spec fn spaces(k: nat) -> Seq<char> {
    Seq::new(k, |i: int| ' ')
}

pub fn pad_to(s: &str, width: usize) -> (out: String)
    ensures
        out@ == pad(s@, width as nat),
{
    let chars = chars_of(s);
    let mut out = string_of(chars.as_slice());
    if chars.len() >= width {
        return out;
    }
    let mut n = chars.len();
    assert(out@ =~= s@ + spaces(0));
    while n < width
        invariant
            chars@ == s@,
            chars@.len() <= n <= width,
            out@ == s@ + spaces((n - s@.len()) as nat),
        decreases width - n,
    {
        let ghost before = out@;
        crate::text::push_char(&mut out, ' ');
        proof {
            let k = (n - s@.len()) as nat;
            assert(spaces(k + 1) =~= spaces(k).push(' '));
            assert(out@ =~= s@ + spaces(k + 1));
        }
        n = n + 1;
    }
    out
}

/// Width of the note label column. Fits `crawl-delay` plus a gutter.
pub const NOTE_COL: usize = 13;

/// How one note reads at `depth`: its label padded into a column, then the detail.
pub open spec fn note_line(depth: nat, n: Note) -> Seq<char> {
    let text = pad(n.label@, NOTE_COL as nat) + n.detail@;
    match n.mark {
        Some(m) => marked_at(depth, m.mark_spec(), text),
        None => at(depth, "  "@ + text),
    }
}

pub open spec fn note_lines(depth: nat, notes: Seq<Note>) -> Seq<Seq<char>> {
    notes.map_values(|n: Note| note_line(depth, n))
}

/// Paints a source's provenance, without knowing what a sitemap or a channel tab is.
pub fn render_notes(p: &mut Page, notes: &Vec<Note>)
    ensures
        final(p).text() == old(p).text() + note_lines(old(p).depth as nat, notes@),
        final(p).depth == old(p).depth,
{
    let mut i: usize = 0;
    while i < notes.len()
        invariant
            i <= notes@.len(),
            p.depth == old(p).depth,
            p.text() == old(p).text() + note_lines(old(p).depth as nat, notes@.take(i as int)),
        decreases notes.len() - i,
    {
        let note = &notes[i];
        let mut text = pad_to(note.label.as_str(), NOTE_COL);
        text.append(note.detail.as_str());
        match note.mark {
            Some(m) => p.marked(m.mark(), text.as_str()),
            None => {
                let mut line = owned("  ");
                line.append(text.as_str());
                assert(line@ =~= "  "@ + text@);
                p.line(line.as_str());
            },
        }
        proof {
            assert(note_lines(old(p).depth as nat, notes@.take(i + 1)) =~= note_lines(old(p).depth as nat, notes@.take(i as int)).push(
                note_line(old(p).depth as nat, notes@[i as int]),
            ));
        }
        i = i + 1;
    }
    assert(notes@.take(notes@.len() as int) =~= notes@);
}

} // verus!
