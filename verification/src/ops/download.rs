//! `download` — return a collected document's bytes, for saving somewhere else.
//!
//! The bytes travel base64-encoded in the report, paged like `read`: `offset`/`max_bytes`
//! slice the raw bytes, a caller decodes each page and concatenates them in offset order,
//! and `data_sha` is the hash the reassembly must come out to. Resolving the target and
//! fetching the blob are the host's; what is decided here is which blob a target names,
//! which page of it goes out, how it is encoded, and how the report reads.
use base64::Engine;
use vstd::prelude::*;

use crate::ops::models::{human_bytes, human_bytes_of};
use crate::ops::open::{short_of, short_sha};
use crate::page::{at, marked_at, Mark, Page};
use crate::text::{decimal, grouped, join_with, owned, push_count, push_decimal};

verus! {

pub struct DownloadArgs {
    /// A URL, a substring of one, or a blob hash.
    pub target: String,
    /// Maximum raw bytes per call. 0 returns the whole document.
    pub max_bytes: usize,
    /// Start at this byte offset, for paging through a large document.
    pub offset: usize,
    /// Restrict the search for `target` to one source.
    pub source: Option<String>,
}

/// Small by default: the encoded bytes ride a tool result through a model's context.
pub fn default_max_bytes() -> (n: usize)
    ensures
        n == 32768,
{
    32768
}

/// The character for a six-bit value in the standard alphabet of RFC 4648: `A`–`Z`,
/// `a`–`z`, `0`–`9`, `+`, `/`.
pub open spec fn sextet_char(n: int) -> char {
    if n < 26 {
        (65 + n) as char
    } else if n < 52 {
        (97 + n - 26) as char
    } else if n < 62 {
        (48 + n - 52) as char
    } else if n == 62 {
        '+'
    } else {
        '/'
    }
}

/// The six-bit value a character of the standard alphabet stands for.
pub open spec fn sextet_value(c: char) -> int {
    let n = c as int;
    if 65 <= n <= 90 {
        n - 65
    } else if 97 <= n <= 122 {
        n - 97 + 26
    } else if 48 <= n <= 57 {
        n - 48 + 52
    } else if c == '+' {
        62
    } else {
        63
    }
}

/// Standard padded base64: every three bytes become four characters, their 24 bits read
/// six at a time; a last group of one or two bytes is zero-filled to whole characters and
/// padded with `=` to four.
pub open spec fn base64_of(b: Seq<u8>) -> Seq<char>
    decreases b.len(),
{
    if b.len() == 0 {
        Seq::empty()
    } else if b.len() == 1 {
        let x = b[0] as int;
        seq![sextet_char(x / 4), sextet_char((x % 4) * 16), '=', '=']
    } else if b.len() == 2 {
        let (x, y) = (b[0] as int, b[1] as int);
        seq![sextet_char(x / 4), sextet_char((x % 4) * 16 + y / 16), sextet_char((y % 16) * 4), '=']
    } else {
        let (x, y, z) = (b[0] as int, b[1] as int, b[2] as int);
        seq![sextet_char(x / 4), sextet_char((x % 4) * 16 + y / 16), sextet_char((y % 16) * 4 + z / 64), sextet_char(z % 64)]
            + base64_of(b.subrange(3, b.len() as int))
    }
}

/// Reading standard padded base64 back: each group of four characters gives three bytes,
/// or fewer where `=` pads it.
pub open spec fn base64_decode(s: Seq<char>) -> Seq<u8>
    decreases s.len(),
{
    if s.len() < 4 {
        Seq::empty()
    } else {
        let (a, b, c, d) = (sextet_value(s[0]), sextet_value(s[1]), sextet_value(s[2]), sextet_value(s[3]));
        let x = (a * 4 + b / 16) as u8;
        let y = ((b % 16) * 16 + c / 4) as u8;
        let z = ((c % 4) * 64 + d) as u8;
        if s[2] == '=' {
            seq![x]
        } else if s[3] == '=' {
            seq![x, y]
        } else {
            seq![x, y, z] + base64_decode(s.subrange(4, s.len() as int))
        }
    }
}

proof fn lemma_sextet_round_trip(n: int)
    requires
        0 <= n < 64,
    ensures
        sextet_value(sextet_char(n)) == n,
        sextet_char(n) != '=',
{
}

proof fn lemma_group(x: int, y: int, z: int)
    requires
        0 <= x < 256,
        0 <= y < 256,
        0 <= z < 256,
    ensures
        0 <= x / 4 < 64,
        0 <= (x % 4) * 16 + y / 16 < 64,
        0 <= (y % 16) * 4 + z / 64 < 64,
        0 <= z % 64 < 64,
        (x / 4) * 4 + ((x % 4) * 16 + y / 16) / 16 == x,
        (((x % 4) * 16 + y / 16) % 16) * 16 + ((y % 16) * 4 + z / 64) / 4 == y,
        (((y % 16) * 4 + z / 64) % 4) * 64 + z % 64 == z,
        (x / 4) * 4 + ((x % 4) * 16) / 16 == x,
{
    assert(0 <= x / 4 < 64 && 0 <= (x % 4) * 16 + y / 16 < 64 && 0 <= (y % 16) * 4 + z / 64 < 64 && 0 <= z % 64 < 64
        && (x / 4) * 4 + ((x % 4) * 16 + y / 16) / 16 == x && (((x % 4) * 16 + y / 16) % 16) * 16 + ((y % 16) * 4 + z
        / 64) / 4 == y && (((y % 16) * 4 + z / 64) % 4) * 64 + z % 64 == z && (x / 4) * 4 + ((x % 4) * 16) / 16 == x)
        by (nonlinear_arith)
        requires
            0 <= x < 256,
            0 <= y < 256,
            0 <= z < 256,
    ;
}

/// Decoding what the encoding wrote gives the bytes back, whatever they are.
pub proof fn law_base64_round_trip(b: Seq<u8>)
    ensures
        base64_decode(base64_of(b)) == b,
    decreases b.len(),
{
    if b.len() == 0 {
    } else {
        let x = b[0] as int;
        let y = if b.len() > 1 { b[1] as int } else { 0 };
        let z = if b.len() > 2 { b[2] as int } else { 0 };
        lemma_group(x, y, z);
        lemma_sextet_round_trip(x / 4);
        lemma_sextet_round_trip((x % 4) * 16 + y / 16);
        lemma_sextet_round_trip((y % 16) * 4 + z / 64);
        lemma_sextet_round_trip(z % 64);
        lemma_sextet_round_trip((x % 4) * 16);
        lemma_sextet_round_trip((y % 16) * 4);
        let s = base64_of(b);
        if b.len() == 1 {
            assert(base64_decode(s) =~= b);
        } else if b.len() == 2 {
            assert(base64_decode(s) =~= b);
        } else {
            let rest = b.subrange(3, b.len() as int);
            law_base64_round_trip(rest);
            assert(s.subrange(4, s.len() as int) =~= base64_of(rest));
            assert(base64_decode(s) =~= seq![b[0], b[1], b[2]] + rest);
            assert(seq![b[0], b[1], b[2]] + rest =~= b);
        }
    }
}

/// `base64::engine::general_purpose::STANDARD.encode`: standard padded base64 of the
/// bytes, as `base64_of` spells it out, of the length the crate's `encoded_len` gives,
/// four characters for every three bytes or part of three. The crate panics when that
/// length overflows `usize`, so such inputs are left out.
#[verifier::external_body]
fn base64_encode(bytes: &[u8]) -> (s: String)
    requires
        bytes@.len() / 3 * 4 + 4 <= usize::MAX,
    ensures
        s@ == base64_of(bytes@),
        s@.len() == (bytes@.len() + 2) / 3 * 4,
{
    base64::engine::general_purpose::STANDARD.encode(bytes)
}

/// Where a page starts and ends: the offset held at the end of the document, and a limit
/// of zero meaning everything from there.
pub open spec fn page_range(offset: nat, max: nat, total: nat) -> (nat, nat) {
    let start = if offset < total { offset } else { total };
    let end = if max == 0 || start + max > total { total } else { start + max };
    (start, end)
}

/// The bytes of one page.
pub open spec fn page_of(whole: Seq<u8>, offset: nat, max: nat) -> Seq<u8> {
    let (start, end) = page_range(offset, max, whole.len());
    whole.subrange(start as int, end as int)
}

/// A page and the page that starts where it stopped give back the document from the
/// first page's offset on: decoding each and concatenating in offset order loses nothing
/// and repeats nothing.
pub proof fn law_pages_reassemble(whole: Seq<u8>, offset: nat, max: nat)
    requires
        max > 0,
    ensures
        page_of(whole, offset, max) + page_of(whole, page_range(offset, max, whole.len()).1, 0) == page_of(
            whole,
            offset,
            0,
        ),
{
    let (start, end) = page_range(offset, max, whole.len());
    assert(whole.subrange(start as int, end as int) + whole.subrange(end as int, whole.len() as int) =~= whole.subrange(
        start as int,
        whole.len() as int,
    ));
}

/// A page and the page that starts where it stopped, each decoded from what a download
/// sends and put together in offset order, give back the document from the first page's
/// offset on.
pub proof fn law_encoded_pages_reassemble(whole: Seq<u8>, offset: nat, max: nat)
    requires
        max > 0,
    ensures
        base64_decode(base64_of(page_of(whole, offset, max))) + base64_decode(
            base64_of(page_of(whole, page_range(offset, max, whole.len()).1, 0)),
        ) == page_of(whole, offset, 0),
{
    law_base64_round_trip(page_of(whole, offset, max));
    law_base64_round_trip(page_of(whole, page_range(offset, max, whole.len()).1, 0));
    law_pages_reassemble(whole, offset, max);
}

/// One page of a document, encoded.
pub struct Encoded {
    pub data: String,
    /// Raw bytes in this page.
    pub bytes: usize,
    /// Raw bytes in the whole document.
    pub total_bytes: usize,
    /// The byte offset the page starts at.
    pub offset: usize,
    /// True when bytes remain after this page.
    pub truncated: bool,
}

/// The page of `whole` a download with this offset and limit sends, base64-encoded.
pub fn encode_page(whole: &[u8], offset: usize, max_bytes: usize) -> (e: Encoded)
    requires
        whole@.len() / 3 * 4 + 4 <= usize::MAX,
    ensures
        e.data@ == base64_of(page_of(whole@, offset as nat, max_bytes as nat)),
        e.bytes == page_of(whole@, offset as nat, max_bytes as nat).len(),
        e.total_bytes == whole@.len(),
        e.offset == page_range(offset as nat, max_bytes as nat, whole@.len()).0,
        e.truncated == (e.offset + e.bytes < whole@.len()),
{
    let total = whole.len();
    let start = if offset < total { offset } else { total };
    let end = if max_bytes == 0 || max_bytes > total - start { total } else { start + max_bytes };
    let mut page: Vec<u8> = Vec::new();
    let mut i: usize = start;
    while i < end
        invariant
            start <= i <= end <= whole@.len(),
            page@ == whole@.subrange(start as int, i as int),
        decreases end - i,
    {
        page.push(whole[i]);
        i = i + 1;
        assert(page@ =~= whole@.subrange(start as int, i as int));
    }
    assert(page@ =~= page_of(whole@, offset as nat, max_bytes as nat));
    let data = base64_encode(page.as_slice());
    let n = page.len();
    Encoded { data, bytes: n, total_bytes: total, offset: start, truncated: start + n < total }
}

pub struct DownloadReport {
    pub url: String,
    pub source: String,
    /// The kind of the bytes in `data`.
    pub kind: String,
    /// SHA-256 of the original bytes as served — the evidentiary anchor.
    pub blob_sha: String,
    /// SHA-256 of the whole document `data` is a slice of.
    pub data_sha: String,
    /// True when the target named a derived blob rather than the bytes as served.
    pub derived: bool,
    /// A name to save the file under, with a real extension.
    pub filename: String,
    /// The `content-type` the server declared, verbatim; never one for derived text.
    pub media_type: Option<String>,
    pub observed_at: String,
    /// How `data` is encoded. Always `base64`.
    pub encoding: String,
    /// This page of the bytes, base64-encoded.
    pub data: String,
    pub bytes: usize,
    pub total_bytes: usize,
    pub offset: usize,
    pub truncated: bool,
    /// Other matches for an ambiguous target. The first was used.
    pub other_matches: Vec<String>,
}

/// What a resolved target and its bytes make: the derived blob when the target named one,
/// else the original; a declared content type only for the original.
pub struct Found {
    pub url: String,
    pub source: String,
    /// What the bytes as served classify as; a derived blob reads as markdown instead.
    pub kind: String,
    pub blob_sha: String,
    /// Set when the target named a derived blob, to its hash.
    pub matched_derived: Option<String>,
    pub filename: String,
    /// The `content-type` the server declared for the original, if any.
    pub declared_type: Option<String>,
    pub observed_at: String,
    pub other_matches: Vec<String>,
}

impl DownloadReport {
    pub fn assemble(found: Found, whole: &[u8], offset: usize, max_bytes: usize) -> (r: DownloadReport)
        requires
            whole@.len() / 3 * 4 + 4 <= usize::MAX,
        ensures
            r.derived == (found.matched_derived is Some),
            r.data_sha@ == (match found.matched_derived {
                Some(sha) => sha@,
                None => found.blob_sha@,
            }),
            r.blob_sha == found.blob_sha,
            r.media_type == (if r.derived { None } else { found.declared_type }),
            r.encoding@ == "base64"@,
            r.data@ == base64_of(page_of(whole@, offset as nat, max_bytes as nat)),
            r.bytes == page_of(whole@, offset as nat, max_bytes as nat).len(),
            r.total_bytes == whole@.len(),
            r.offset == page_range(offset as nat, max_bytes as nat, whole@.len()).0,
            r.truncated == (r.offset + r.bytes < whole@.len()),
            r.url == found.url,
            r.source == found.source,
            r.kind@ == (if r.derived { "markdown"@ } else { found.kind@ }),
            r.filename == found.filename,
            r.observed_at == found.observed_at,
            r.other_matches == found.other_matches,
    {
        let Found { url, source, kind, blob_sha, matched_derived, filename, declared_type, observed_at, other_matches } =
            found;
        let derived = matched_derived.is_some();
        let data_sha = match matched_derived {
            Some(sha) => sha,
            None => owned(blob_sha.as_str()),
        };
        assert(!derived ==> data_sha@ == blob_sha@);
        let media_type = if derived { None } else { declared_type };
        // Extracted text is markdown whatever the original was.
        let kind = if derived { owned("markdown") } else { kind };
        let page = encode_page(whole, offset, max_bytes);
        DownloadReport {
            url,
            source,
            kind,
            blob_sha,
            data_sha,
            derived,
            filename,
            media_type,
            observed_at,
            encoding: owned("base64"),
            data: page.data,
            bytes: page.bytes,
            total_bytes: page.total_bytes,
            offset: page.offset,
            truncated: page.truncated,
            other_matches,
        }
    }
}

// ── how it reads ────────────────────────────────────────────────────────────

pub open spec fn provenance(r: DownloadReport) -> Seq<char> {
    short_of(r.blob_sha@) + " · "@ + join_with(
        seq![r.source@, r.kind@] + (match r.media_type {
            Some(m) => seq![m@],
            None => Seq::empty(),
        }) + seq![r.observed_at@],
        " · "@,
    )
}

/// The provenance and the name — never the payload: base64 on a terminal is noise.
pub open spec fn report_lines(depth: nat, r: DownloadReport) -> Seq<Seq<char>> {
    seq![at(depth, r.url@), at(depth, provenance(r))] + (if r.other_matches@.len() > 0 {
        seq![
            marked_at(
                depth,
                Mark::Warn,
                decimal(r.other_matches@.len()) + " other "@ + (if r.other_matches@.len() == 1 {
                    "address"@
                } else {
                    "addresses"@
                }) + " matched; this is the first"@,
            ),
        ]
    } else {
        Seq::empty()
    }) + seq![
        Seq::<char>::empty(),
        at(depth, r.filename@ + " · "@ + human_bytes_of(r.total_bytes as nat) + " · base64 in `data`"@),
    ] + (if r.truncated {
        seq![
            Seq::<char>::empty(),
            at(
                depth,
                grouped(r.offset as nat) + "–"@ + grouped((r.offset + r.bytes) as nat) + " of "@ + grouped(
                    r.total_bytes as nat,
                ) + " bytes"@,
            ),
            at(depth, "--offset "@ + decimal((r.offset + r.bytes) as nat)),
        ]
    } else {
        Seq::empty()
    }) + seq![
        Seq::<char>::empty(),
        at(depth, "on this machine: centinel open "@ + short_of(r.data_sha@) + " --print-path"@),
    ]
}

impl DownloadReport {
    pub fn render(&self, p: &mut Page)
        requires
            self.offset + self.bytes <= u64::MAX,
        ensures
            final(p).text() == old(p).text() + report_lines(old(p).depth as nat, *self),
            final(p).depth == old(p).depth,
    {
        let ghost d = old(p).depth as nat;
        p.line(self.url.as_str());
        let mut fields: Vec<String> = Vec::new();
        fields.push(owned(self.source.as_str()));
        fields.push(owned(self.kind.as_str()));
        match &self.media_type {
            Some(m) => fields.push(owned(m.as_str())),
            None => {},
        }
        fields.push(owned(self.observed_at.as_str()));
        assert(crate::ops::schedule::texts(fields@) =~= seq![self.source@, self.kind@] + (match self.media_type {
            Some(m) => seq![m@],
            None => Seq::<Seq<char>>::empty(),
        }) + seq![self.observed_at@]);
        let mut head = short_sha(self.blob_sha.as_str());
        head.append(" · ");
        let rest = crate::ops::schedule::joined(&fields, " · ");
        head.append(rest.as_str());
        p.line(head.as_str());
        if self.other_matches.len() > 0 {
            let n = self.other_matches.len();
            let mut note = String::new();
            push_decimal(&mut note, n as u64);
            note.append(" other ");
            note.append(if n == 1 { "address" } else { "addresses" });
            note.append(" matched; this is the first");
            p.marked(Mark::Warn, note.as_str());
        }
        p.blank();
        let mut name = owned(self.filename.as_str());
        name.append(" · ");
        let size = human_bytes(self.total_bytes as u64);
        name.append(size.as_str());
        name.append(" · base64 in `data`");
        p.line(name.as_str());
        if self.truncated {
            p.blank();
            let end: u64 = (self.offset as u64) + (self.bytes as u64);
            let mut position = String::new();
            push_count(&mut position, self.offset as u64);
            position.append("–");
            push_count(&mut position, end);
            position.append(" of ");
            push_count(&mut position, self.total_bytes as u64);
            position.append(" bytes");
            p.line(position.as_str());
            let mut next = owned("--offset ");
            push_decimal(&mut next, end);
            p.line(next.as_str());
        }
        p.blank();
        let mut local = owned("on this machine: centinel open ");
        let short = short_sha(self.data_sha.as_str());
        local.append(short.as_str());
        local.append(" --print-path");
        p.line(local.as_str());
        assert(p.text() =~= old(p).text() + report_lines(d, *self));
    }
}

} // verus!
