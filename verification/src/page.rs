//! How a report reads on a terminal: lines of plain text, indented by nesting, each
//! marked line led by its glyph.
//!
//! Every renderer in the library writes into a [`Page`], and its contract says which lines
//! it wrote. Colour, width and wrapping are the terminal's business and are not decided
//! here.
use vstd::prelude::*;

use crate::text::{grouped, holds, push_count};

verus! {

/// The glyph a line leads with.
#[derive(Clone, Copy, Debug, PartialEq, Eq)]
pub enum Mark {
    Good,
    Warn,
    Bad,
    /// Room for a glyph, and none in it.
    Blank,
}

pub open spec fn glyph(m: Mark) -> Seq<char> {
    match m {
        Mark::Good => "✓ "@,
        Mark::Warn => "! "@,
        Mark::Bad => "✗ "@,
        Mark::Blank => "  "@,
    }
}

impl Mark {
    /// `Good` when it went well, else `Warn`.
    pub fn from_ok(ok: bool) -> (m: Mark)
        ensures
            m == (if ok { Mark::Good } else { Mark::Warn }),
    {
        if ok { Mark::Good } else { Mark::Warn }
    }

    pub fn glyph(&self) -> (g: &'static str)
        ensures
            g@ == glyph(*self),
    {
        match self {
            Mark::Good => "✓ ",
            Mark::Warn => "! ",
            Mark::Bad => "✗ ",
            Mark::Blank => "  ",
        }
    }
}

/// Two spaces per level of nesting.
pub open spec fn indent(depth: nat) -> Seq<char>
    decreases depth,
{
    if depth == 0 { Seq::empty() } else { indent((depth - 1) as nat) + "  "@ }
}

/// An indent is spaces and nothing else.
pub proof fn lemma_indent_spaces(depth: nat)
    ensures
        forall|i: int| 0 <= i < indent(depth).len() ==> #[trigger] indent(depth)[i] == ' ',
    decreases depth,
{
    reveal_strlit("  ");
    if depth > 0 {
        lemma_indent_spaces((depth - 1) as nat);
        let prev = indent((depth - 1) as nat);
        assert forall|i: int| 0 <= i < indent(depth).len() implies #[trigger] indent(depth)[i] == ' ' by {
            if i < prev.len() {
                assert(indent(depth)[i] == prev[i]);
            }
        }
    }
}

/// A line at `depth`.
pub open spec fn at(depth: nat, text: Seq<char>) -> Seq<char> {
    indent(depth) + text
}

/// A line at `depth` led by a glyph.
pub open spec fn marked_at(depth: nat, m: Mark, text: Seq<char>) -> Seq<char> {
    indent(depth) + glyph(m) + text
}

/// A title: the head, then the aside two spaces along when there is one.
pub open spec fn title_text(head: Seq<char>, aside: Seq<char>) -> Seq<char> {
    if aside.len() == 0 { head } else { head + "  "@ + aside }
}

/// A note: advice that reads as an aside.
pub open spec fn note_text(text: Seq<char>) -> Seq<char> {
    "→ "@ + text
}

/// A figure: the count, then what it counts.
pub open spec fn figure_text(n: nat, label: Seq<char>) -> Seq<char> {
    grouped(n) + " "@ + label
}

/// Whether some line holds `phrase`.
pub open spec fn says(lines: Seq<Seq<char>>, phrase: Seq<char>) -> bool {
    exists|i: int| 0 <= i < lines.len() && holds(#[trigger] lines[i], phrase)
}

/// The lines a report is written to.
#[derive(Debug)]
pub struct Page {
    pub lines: Vec<String>,
    pub depth: usize,
}

impl Page {
    pub open spec fn text(&self) -> Seq<Seq<char>> {
        self.lines@.map_values(|l: String| l@)
    }

    pub fn new() -> (p: Page)
        ensures
            p.text().len() == 0,
            p.depth == 0,
    {
        let p = Page { lines: Vec::new(), depth: 0 };
        assert(p.text() =~= Seq::<Seq<char>>::empty());
        p
    }

    fn push_text(&mut self, line: String)
        ensures
            final(self).text() == old(self).text().push(line@),
            final(self).depth == old(self).depth,
    {
        self.lines.push(line);
        assert(self.text() =~= old(self).text().push(line@));
    }

    fn indented(&self) -> (s: String)
        ensures
            s@ == indent(self.depth as nat),
    {
        let mut s = String::new();
        let mut d: usize = 0;
        while d < self.depth
            invariant
                d <= self.depth,
                s@ == indent(d as nat),
            decreases self.depth - d,
        {
            s.append("  ");
            d = d + 1;
        }
        s
    }

    /// One line of text at the current depth.
    pub fn line(&mut self, text: &str)
        ensures
            final(self).text() == old(self).text().push(at(old(self).depth as nat, text@)),
            final(self).depth == old(self).depth,
    {
        let mut s = self.indented();
        s.append(text);
        self.push_text(s);
    }

    /// An empty line.
    pub fn blank(&mut self)
        ensures
            final(self).text() == old(self).text().push(Seq::<char>::empty()),
            final(self).depth == old(self).depth,
    {
        let s = String::new();
        self.push_text(s);
    }

    /// A line led by a glyph.
    pub fn marked(&mut self, mark: Mark, text: &str)
        ensures
            final(self).text() == old(self).text().push(marked_at(old(self).depth as nat, mark, text@)),
            final(self).depth == old(self).depth,
    {
        let mut s = self.indented();
        s.append(mark.glyph());
        s.append(text);
        self.push_text(s);
    }

    /// The head of a report, with its aside.
    pub fn title(&mut self, head: &str, aside: &str)
        ensures
            final(self).text() == old(self).text().push(at(old(self).depth as nat, title_text(head@, aside@))),
            final(self).depth == old(self).depth,
    {
        let mut s = self.indented();
        s.append(head);
        if !aside.is_empty() {
            s.append("  ");
            s.append(aside);
        }
        assert(s@ =~= at(self.depth as nat, title_text(head@, aside@)));
        self.push_text(s);
    }

    /// A blank line, then a heading.
    pub fn section(&mut self, name: &str)
        ensures
            final(self).text() == old(self).text().push(Seq::<char>::empty()).push(at(old(self).depth as nat, name@)),
            final(self).depth == old(self).depth,
    {
        self.blank();
        self.line(name);
    }

    /// Advice that reads as an aside.
    pub fn note(&mut self, text: &str)
        ensures
            final(self).text() == old(self).text().push(at(old(self).depth as nat, note_text(text@))),
            final(self).depth == old(self).depth,
    {
        let mut s = self.indented();
        s.append("→ ");
        s.append(text);
        assert(s@ =~= at(self.depth as nat, note_text(text@)));
        self.push_text(s);
    }

    /// One count and what it counts.
    pub fn figure(&mut self, n: u64, label: &str)
        ensures
            final(self).text() == old(self).text().push(at(old(self).depth as nat, figure_text(n as nat, label@))),
            final(self).depth == old(self).depth,
    {
        let mut s = self.indented();
        push_count(&mut s, n);
        s.append(" ");
        s.append(label);
        assert(s@ =~= at(self.depth as nat, figure_text(n as nat, label@)));
        self.push_text(s);
    }

    /// Nests what follows one level deeper.
    pub fn enter(&mut self)
        requires
            old(self).depth < usize::MAX,
        ensures
            final(self).text() == old(self).text(),
            final(self).depth == old(self).depth + 1,
    {
        self.depth = self.depth + 1;
    }

    /// Ends a level of nesting.
    pub fn leave(&mut self)
        requires
            old(self).depth > 0,
        ensures
            final(self).text() == old(self).text(),
            final(self).depth == old(self).depth - 1,
    {
        self.depth = self.depth - 1;
    }

    /// Everything written, one line after another, each ended by a newline.
    pub fn to_text(&self) -> (s: String)
        ensures
            s@ == joined(self.text()),
    {
        let mut s = String::new();
        let mut i: usize = 0;
        while i < self.lines.len()
            invariant
                i <= self.lines@.len(),
                s@ == joined(self.text().take(i as int)),
            decreases self.lines.len() - i,
        {
            s.append(self.lines[i].as_str());
            crate::text::push_char(&mut s, '\n');
            assert(self.text().take(i + 1).drop_last() =~= self.text().take(i as int));
            i = i + 1;
        }
        assert(self.text().take(self.lines@.len() as int) =~= self.text());
        s
    }
}

/// Lines, each followed by a newline.
pub open spec fn joined(lines: Seq<Seq<char>>) -> Seq<char>
    decreases lines.len(),
{
    if lines.len() == 0 { Seq::empty() } else { joined(lines.drop_last()) + lines.last() + seq!['\n'] }
}

} // verus!
