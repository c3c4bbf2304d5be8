//! Characters and the small spellings every report is built from.
//!
//! Numbers are written here rather than through `format!`: a count on a report is a
//! claim, and the claim is only as good as the spelling of it.
use vstd::prelude::*;

verus! {

// ── characters ──────────────────────────────────────────────────────────────

/// The decimal digit for `d`, which must be below ten.
pub open spec fn digit_char(d: int) -> char {
    if d == 0 { '0' } else if d == 1 { '1' } else if d == 2 { '2' } else if d == 3 { '3' }
    else if d == 4 { '4' } else if d == 5 { '5' } else if d == 6 { '6' } else if d == 7 { '7' }
    else if d == 8 { '8' } else { '9' }
}

pub open spec fn is_digit(c: char) -> bool {
    '0' <= c && c <= '9'
}

/// The value of a decimal digit character.
pub open spec fn digit_value(c: char) -> int {
    (c as int) - ('0' as int)
}

pub open spec fn is_lower(c: char) -> bool {
    'a' <= c && c <= 'z'
}

pub open spec fn is_upper(c: char) -> bool {
    'A' <= c && c <= 'Z'
}

pub open spec fn is_alpha(c: char) -> bool {
    is_lower(c) || is_upper(c)
}

pub open spec fn is_alnum(c: char) -> bool {
    is_alpha(c) || is_digit(c)
}

/// ASCII lowercase; every other character is itself.
pub open spec fn lower(c: char) -> char {
    if is_upper(c) { ((c as int) + 32) as char } else { c }
}

pub open spec fn lower_all(s: Seq<char>) -> Seq<char> {
    s.map_values(|c: char| lower(c))
}

/// Unicode `White_Space`, which is what `char::is_whitespace` and `str::trim` use.
pub open spec fn is_space(c: char) -> bool {
    ('\u{9}' <= c && c <= '\u{d}') || c == ' ' || c == '\u{85}' || c == '\u{a0}'
        || c == '\u{1680}' || ('\u{2000}' <= c && c <= '\u{200a}') || c == '\u{2028}'
        || c == '\u{2029}' || c == '\u{202f}' || c == '\u{205f}' || c == '\u{3000}'
}

pub fn is_ascii_digit(c: char) -> (b: bool)
    ensures
        b == is_digit(c),
{
    '0' <= c && c <= '9'
}

pub fn is_ascii_alpha(c: char) -> (b: bool)
    ensures
        b == is_alpha(c),
{
    ('a' <= c && c <= 'z') || ('A' <= c && c <= 'Z')
}

pub fn is_ascii_alnum(c: char) -> (b: bool)
    ensures
        b == is_alnum(c),
{
    is_ascii_alpha(c) || is_ascii_digit(c)
}

pub fn is_white(c: char) -> (b: bool)
    ensures
        b == is_space(c),
{
    ('\u{9}' <= c && c <= '\u{d}') || c == ' ' || c == '\u{85}' || c == '\u{a0}'
        || c == '\u{1680}' || ('\u{2000}' <= c && c <= '\u{200a}') || c == '\u{2028}'
        || c == '\u{2029}' || c == '\u{202f}' || c == '\u{205f}' || c == '\u{3000}'
}

pub fn to_lower(c: char) -> (l: char)
    ensures
        l == lower(c),
{
    if 'A' <= c && c <= 'Z' {
        let code: u8 = (c as u32 + 32) as u8;
        let r = code as char;
        r
    } else {
        c
    }
}

// ── reading ─────────────────────────────────────────────────────────────────

/// The characters of `s`, in order.
pub fn chars_of(s: &str) -> (v: Vec<char>)
    ensures
        v@ == s@,
{
    let mut v: Vec<char> = Vec::new();
    for c in it: s.chars()
        invariant
            it.seq() == s@,
            v@ == it.seq().take(it.index() as int),
    {
        v.push(c);
    }
    assert(v@ =~= s@);
    v
}

/// A `String` holding exactly `chars`.
pub fn string_of(chars: &[char]) -> (s: String)
    ensures
        s@ == chars@,
{
    let mut s = String::new();
    let mut i: usize = 0;
    while i < chars.len()
        invariant
            i <= chars@.len(),
            s@ == chars@.take(i as int),
        decreases chars.len() - i,
    {
        push_char(&mut s, chars[i]);
        i = i + 1;
        assert(s@ =~= chars@.take(i as int));
    }
    assert(chars@.take(chars@.len() as int) =~= chars@);
    s
}

/// A copy of `s`.
pub fn owned(s: &str) -> (o: String)
    ensures
        o@ == s@,
{
    let mut o = String::new();
    o.append(s);
    assert(o@ =~= s@);
    o
}

/// Appends one character. The whole of `String::push`.
#[verifier::external_body]
pub(crate) fn push_char(s: &mut String, c: char)
    ensures
        final(s)@ == old(s)@.push(c),
{
    s.push(c)
}

/// Whether two character sequences are equal, asked one character at a time.
pub fn same(a: &[char], b: &[char]) -> (r: bool)
    ensures
        r == (a@ == b@),
{
    if a.len() != b.len() {
        return false;
    }
    let mut i: usize = 0;
    while i < a.len()
        invariant
            a@.len() == b@.len(),
            i <= a@.len(),
            forall|j: int| 0 <= j < i ==> a@[j] == b@[j],
        decreases a.len() - i,
    {
        if a[i] != b[i] {
            return false;
        }
        i = i + 1;
    }
    assert(a@ =~= b@);
    true
}

/// Whether two strings are equal.
pub fn str_eq(a: &str, b: &str) -> (r: bool)
    ensures
        r == (a@ == b@),
{
    let x = chars_of(a);
    let y = chars_of(b);
    same(x.as_slice(), y.as_slice())
}

/// Whether `s` begins with `prefix`.
pub open spec fn starts(s: Seq<char>, prefix: Seq<char>) -> bool {
    prefix.len() <= s.len() && s.take(prefix.len() as int) == prefix
}

/// Whether `s` holds `part` anywhere.
pub open spec fn holds(s: Seq<char>, part: Seq<char>) -> bool {
    exists|i: int| 0 <= i <= s.len() - part.len() && #[trigger] s.subrange(i, i + part.len()) == part
}

/// Whatever stands between two texts is held by their concatenation.
pub proof fn lemma_holds_between(a: Seq<char>, b: Seq<char>, c: Seq<char>)
    ensures
        holds(a + b + c, b),
{
    assert((a + b + c).subrange(a.len() as int, (a.len() + b.len()) as int) =~= b);
}

/// What a piece of a text holds, the text holds.
pub proof fn lemma_holds_within(s: Seq<char>, a: int, b: int, p: Seq<char>)
    requires
        0 <= a <= b <= s.len(),
        holds(s.subrange(a, b), p),
    ensures
        holds(s, p),
{
    let t = s.subrange(a, b);
    let i = choose|i: int| 0 <= i <= t.len() - p.len() && #[trigger] t.subrange(i, i + p.len()) == p;
    assert(s.subrange(a + i, a + i + p.len()) =~= t.subrange(i, i + p.len()));
}

/// A phrase cannot run across a separator none of whose characters it uses: what the whole
/// holds, one side holds.
pub proof fn lemma_holds_across(x: Seq<char>, sep: Seq<char>, y: Seq<char>, p: Seq<char>)
    requires
        sep.len() > 0,
        p.len() > 0,
        forall|i: int| 0 <= i < sep.len() ==> !p.contains(#[trigger] sep[i]),
        holds(x + sep + y, p),
    ensures
        holds(x, p) || holds(y, p),
{
    let w = x + sep + y;
    let i = choose|i: int| 0 <= i <= w.len() - p.len() && #[trigger] w.subrange(i, i + p.len()) == p;
    if i + p.len() <= x.len() {
        assert(x.subrange(i, i + p.len()) =~= w.subrange(i, i + p.len()));
    } else if i >= x.len() + sep.len() {
        let k = i - x.len() - sep.len();
        assert(y.subrange(k, k + p.len()) =~= w.subrange(i, i + p.len()));
    } else {
        let at = if i >= x.len() { i } else { x.len() as int };
        assert(0 <= at - x.len() < sep.len());
        assert((x + sep)[at] == sep[at - x.len()]);
        assert(w[at] == (x + sep)[at]);
        assert(0 <= at - i < p.len());
        assert(w.subrange(i, i + p.len())[at - i] == w[at]);
        assert(p[at - i] == sep[at - x.len()]);
        assert(p.contains(sep[at - x.len()]));
    }
}

/// A text without the phrase's first character does not hold it.
pub proof fn lemma_holds_needs_first(s: Seq<char>, p: Seq<char>)
    requires
        p.len() > 0,
        forall|i: int| 0 <= i < s.len() ==> #[trigger] s[i] != p[0],
    ensures
        !holds(s, p),
{
    if holds(s, p) {
        let i = choose|i: int| 0 <= i <= s.len() - p.len() && #[trigger] s.subrange(i, i + p.len()) == p;
        assert(s.subrange(i, i + p.len())[0] == s[i]);
    }
}

/// No dash anywhere in `s`.
pub open spec fn dashless(s: Seq<char>) -> bool {
    forall|i: int| 0 <= i < s.len() ==> #[trigger] s[i] != '-'
}

pub proof fn lemma_dashless_concat(a: Seq<char>, b: Seq<char>)
    requires
        dashless(a),
        dashless(b),
    ensures
        dashless(a + b),
{
    assert forall|i: int| 0 <= i < (a + b).len() implies #[trigger] (a + b)[i] != '-' by {
        if i < a.len() {
            assert((a + b)[i] == a[i]);
        } else {
            assert((a + b)[i] == b[i - a.len()]);
        }
    }
}

/// Numbers are written without a dash: digits, and commas between groups.
pub proof fn lemma_numbers_dashless(n: nat)
    ensures
        dashless(decimal(n)),
        dashless(grouped(n)),
    decreases n,
{
    lemma_decimal_digits(n);
    if n >= 1000 {
        lemma_numbers_dashless(n / 1000);
        let t = three_digits(n % 1000);
        assert(dashless(seq![','])) by {}
        assert(dashless(t)) by {}
        lemma_dashless_concat(grouped(n / 1000), seq![',']);
        lemma_dashless_concat(grouped(n / 1000) + seq![','], t);
    }
}

pub fn has_prefix(s: &[char], prefix: &[char]) -> (r: bool)
    ensures
        r == starts(s@, prefix@),
{
    if prefix.len() > s.len() {
        return false;
    }
    let mut i: usize = 0;
    while i < prefix.len()
        invariant
            prefix@.len() <= s@.len(),
            i <= prefix@.len(),
            forall|j: int| 0 <= j < i ==> s@[j] == prefix@[j],
        decreases prefix.len() - i,
    {
        if s[i] != prefix[i] {
            assert(s@.take(prefix@.len() as int)[i as int] != prefix@[i as int]);
            return false;
        }
        i = i + 1;
    }
    assert(s@.take(prefix@.len() as int) =~= prefix@);
    true
}

/// Whether `c` occurs in `s`.
pub fn has_char(s: &[char], c: char) -> (r: bool)
    ensures
        r == s@.contains(c),
{
    let mut i: usize = 0;
    while i < s.len()
        invariant
            i <= s@.len(),
            forall|j: int| 0 <= j < i ==> s@[j] != c,
        decreases s.len() - i,
    {
        if s[i] == c {
            return true;
        }
        i = i + 1;
    }
    false
}

/// Every character lowercased.
pub fn lowercase(s: &[char]) -> (out: Vec<char>)
    ensures
        out@ == lower_all(s@),
{
    let mut out: Vec<char> = Vec::new();
    let mut i: usize = 0;
    while i < s.len()
        invariant
            i <= s@.len(),
            out@ == lower_all(s@.take(i as int)),
        decreases s.len() - i,
    {
        out.push(to_lower(s[i]));
        i = i + 1;
        assert(out@ =~= lower_all(s@.take(i as int)));
    }
    assert(s@.take(s@.len() as int) =~= s@);
    out
}

// ── whitespace ──────────────────────────────────────────────────────────────

/// Leading whitespace dropped.
pub open spec fn trim_start(s: Seq<char>) -> Seq<char>
    decreases s.len(),
{
    if s.len() > 0 && is_space(s[0]) { trim_start(s.drop_first()) } else { s }
}

/// Trailing whitespace dropped.
pub open spec fn trim_end(s: Seq<char>) -> Seq<char>
    decreases s.len(),
{
    if s.len() > 0 && is_space(s.last()) { trim_end(s.drop_last()) } else { s }
}

pub open spec fn trim(s: Seq<char>) -> Seq<char> {
    trim_end(trim_start(s))
}

/// Where the leading whitespace of `s[from..]` ends.
pub fn skip_space(s: &[char], from: usize) -> (i: usize)
    requires
        from <= s@.len(),
    ensures
        from <= i <= s@.len(),
        trim_start(s@.subrange(from as int, s@.len() as int)) == s@.subrange(i as int, s@.len() as int),
{
    let mut i = from;
    while i < s.len() && is_white(s[i])
        invariant
            from <= i <= s@.len(),
            trim_start(s@.subrange(from as int, s@.len() as int)) == trim_start(s@.subrange(i as int, s@.len() as int)),
        decreases s.len() - i,
    {
        assert(s@.subrange(i as int, s@.len() as int).drop_first() =~= s@.subrange(i + 1, s@.len() as int));
        i = i + 1;
    }
    i
}

/// Where the trailing whitespace of `s[..to]` begins.
pub fn drop_space_end(s: &[char], to: usize) -> (j: usize)
    requires
        to <= s@.len(),
    ensures
        j <= to,
        trim_end(s@.take(to as int)) == s@.take(j as int),
{
    let mut j = to;
    while j > 0 && is_white(s[j - 1])
        invariant
            j <= to <= s@.len(),
            trim_end(s@.take(to as int)) == trim_end(s@.take(j as int)),
        decreases j,
    {
        assert(s@.take(j as int).drop_last() =~= s@.take(j - 1));
        j = j - 1;
    }
    j
}

pub proof fn lemma_trim_start_is_suffix(s: Seq<char>)
    ensures
        trim_start(s).len() <= s.len(),
        trim_start(s) == s.subrange(s.len() - trim_start(s).len(), s.len() as int),
    decreases s.len(),
{
    if s.len() > 0 && is_space(s[0]) {
        lemma_trim_start_is_suffix(s.drop_first());
        assert(s.drop_first().subrange(s.drop_first().len() - trim_start(s).len(), s.drop_first().len() as int)
            =~= s.subrange(s.len() - trim_start(s).len(), s.len() as int));
    } else {
        assert(s.subrange(0, s.len() as int) =~= s);
    }
}

// ── numbers ─────────────────────────────────────────────────────────────────

/// `n` written in base ten, with no separators.
pub open spec fn decimal(n: nat) -> Seq<char>
    decreases n,
{
    if n < 10 {
        seq![digit_char(n as int)]
    } else {
        decimal(n / 10).push(digit_char((n % 10) as int))
    }
}

/// Three digits, zero-padded: one group of a grouped number.
pub open spec fn three_digits(m: nat) -> Seq<char> {
    seq![digit_char((m / 100) as int), digit_char(((m / 10) % 10) as int), digit_char((m % 10) as int)]
}

/// `n` in base ten with a comma between groups of three: `12,000`.
pub open spec fn grouped(n: nat) -> Seq<char>
    decreases n,
{
    if n < 1000 {
        decimal(n)
    } else {
        grouped(n / 1000) + seq![','] + three_digits(n % 1000)
    }
}

/// A signed number in base ten: `-11600`, `+` never written.
pub open spec fn signed(i: int) -> Seq<char> {
    if i < 0 { seq!['-'] + decimal((-i) as nat) } else { decimal(i as nat) }
}

fn digit(d: u64) -> (c: char)
    requires
        d < 10,
    ensures
        c == digit_char(d as int),
{
    if d == 0 { '0' } else if d == 1 { '1' } else if d == 2 { '2' } else if d == 3 { '3' }
    else if d == 4 { '4' } else if d == 5 { '5' } else if d == 6 { '6' } else if d == 7 { '7' }
    else if d == 8 { '8' } else { '9' }
}

/// Appends `n` in base ten.
pub fn push_decimal(out: &mut String, n: u64)
    ensures
        final(out)@ == old(out)@ + decimal(n as nat),
    decreases n,
{
    if n >= 10 {
        push_decimal(out, n / 10);
    }
    push_char(out, digit(n % 10));
    proof {
        if n >= 10 {
            assert(decimal(n as nat) == decimal((n / 10) as nat).push(digit_char((n % 10) as int)));
        }
    }
}

/// Appends `n` with its thousands separated.
pub fn push_count(out: &mut String, n: u64)
    ensures
        final(out)@ == old(out)@ + grouped(n as nat),
    decreases n,
{
    if n < 1000 {
        push_decimal(out, n);
    } else {
        push_count(out, n / 1000);
        push_char(out, ',');
        let m = n % 1000;
        push_char(out, digit(m / 100));
        push_char(out, digit((m / 10) % 10));
        push_char(out, digit(m % 10));
        assert(final(out)@ =~= old(out)@ + grouped(n as nat));
    }
}

/// `n` with its thousands separated: `1,847`.
pub fn count(n: u64) -> (s: String)
    ensures
        s@ == grouped(n as nat),
{
    let mut s = String::new();
    push_count(&mut s, n);
    assert(s@ =~= grouped(n as nat));
    s
}

/// A count and its noun: `1 source`, `2 sources`, `1,847 resources`.
pub open spec fn plural_of(n: nat, one: Seq<char>, many: Seq<char>) -> Seq<char> {
    grouped(n) + seq![' '] + (if n == 1 { one } else { many })
}

pub fn plural(n: u64, one: &str, many: &str) -> (s: String)
    ensures
        s@ == plural_of(n as nat, one@, many@),
{
    let mut s = count(n);
    push_char(&mut s, ' ');
    if n == 1 {
        s.append(one);
    } else {
        s.append(many);
    }
    s
}

/// The noun alone, for when the count has to lead: `12 new documents`.
pub fn noun<'a>(n: u64, one: &'a str, many: &'a str) -> (w: &'a str)
    ensures
        w@ == (if n == 1 { one@ } else { many@ }),
{
    if n == 1 { one } else { many }
}

// ── parsing ─────────────────────────────────────────────────────────────────

/// The value of a run of decimal digits.
pub open spec fn digits_value(s: Seq<char>) -> nat
    decreases s.len(),
{
    if s.len() == 0 {
        0
    } else {
        (digits_value(s.drop_last()) * 10 + digit_value(s.last())) as nat
    }
}

pub open spec fn all_digits(s: Seq<char>) -> bool {
    forall|i: int| 0 <= i < s.len() ==> is_digit(#[trigger] s[i])
}

/// The digits an unsigned integer is written with: an optional `+`, then at least one
/// digit.
pub open spec fn unsigned_body(s: Seq<char>) -> Seq<char> {
    if s.len() > 0 && s[0] == '+' { s.drop_first() } else { s }
}

/// Whether `s` spells an unsigned number that fits a `usize`, as `str::parse` reads one.
pub open spec fn spells_usize(s: Seq<char>) -> bool {
    let body = unsigned_body(s);
    body.len() > 0 && all_digits(body) && digits_value(body) <= usize::MAX
}

pub proof fn lemma_digits_value_prefix_bounded(s: Seq<char>, i: int)
    requires
        all_digits(s),
        0 <= i <= s.len(),
    ensures
        digits_value(s.take(i)) <= digits_value(s),
    decreases s.len() - i,
{
    if i < s.len() {
        lemma_digits_value_prefix_bounded(s, i + 1);
        assert(s.take(i + 1).drop_last() =~= s.take(i));
        assert(is_digit(s[i]));
    } else {
        assert(s.take(i) =~= s);
    }
}

/// What `str::parse::<usize>` makes of `s`: an optional `+`, then decimal digits, and
/// `None` for anything else or for a value past `usize::MAX`.
pub fn parse_usize(s: &[char]) -> (r: Option<usize>)
    ensures
        r is Some <==> spells_usize(s@),
        r matches Some(n) ==> n == digits_value(unsigned_body(s@)),
{
    let start: usize = if s.len() > 0 && s[0] == '+' { 1 } else { 0 };
    let ghost body = unsigned_body(s@);
    assert(body =~= s@.subrange(start as int, s@.len() as int));
    if start >= s.len() {
        return None;
    }
    let mut value: usize = 0;
    let mut i: usize = start;
    while i < s.len()
        invariant
            start <= i <= s@.len(),
            body == unsigned_body(s@),
            body == s@.subrange(start as int, s@.len() as int),
            all_digits(body.take(i - start)),
            value == digits_value(body.take(i - start)),
        decreases s.len() - i,
    {
        let c = s[i];
        if !is_ascii_digit(c) {
            assert(body[i - start] == c);
            assert(!all_digits(body)) by {
                assert(!is_digit(body[i - start]));
            }
            return None;
        }
        let d = (c as u32 - '0' as u32) as usize;
        assert(body.take(i + 1 - start).drop_last() =~= body.take(i - start));
        assert(body.take(i + 1 - start).last() == c);
        assert(digit_value(c) == d);
        if value > (usize::MAX - d) / 10 {
            proof {
                assert(digits_value(body.take(i + 1 - start)) == value * 10 + d);
                assert(digits_value(body.take(i + 1 - start)) > usize::MAX) by (nonlinear_arith)
                    requires
                        value > (usize::MAX - d) / 10,
                        digits_value(body.take(i + 1 - start)) == value * 10 + d,
                        d <= 9,
                ;
                if all_digits(body) {
                    lemma_digits_value_prefix_bounded(body, i + 1 - start);
                }
            }
            return None;
        }
        assert(value * 10 + d <= usize::MAX) by (nonlinear_arith)
            requires
                value <= (usize::MAX - d) / 10,
                d <= 9,
        ;
        value = value * 10 + d;
        i = i + 1;
        assert(all_digits(body.take(i - start)));
    }
    assert(body.take(i - start) =~= body);
    Some(value)
}

pub proof fn lemma_decimal_digits(n: nat)
    ensures
        all_digits(decimal(n)),
        decimal(n).len() > 0,
        digits_value(decimal(n)) == n,
    decreases n,
{
    if n >= 10 {
        lemma_decimal_digits(n / 10);
        let d = decimal(n);
        assert(d.drop_last() =~= decimal(n / 10));
        assert(digit_value(digit_char((n % 10) as int)) == n % 10);
    } else {
        assert(digits_value(decimal(n)) == digits_value(decimal(n).drop_last()) * 10 + digit_value(decimal(n).last()));
        assert(decimal(n).drop_last() =~= Seq::<char>::empty());
    }
}

/// Reading back what was written gives the number that was written.
pub proof fn lemma_parse_reads_decimal(n: nat)
    requires
        n <= usize::MAX,
    ensures
        spells_usize(decimal(n)),
        digits_value(unsigned_body(decimal(n))) == n,
{
    lemma_decimal_digits(n);
    assert(decimal(n)[0] != '+') by {
        assert(is_digit(decimal(n)[0]));
    }
    assert(unsigned_body(decimal(n)) == decimal(n));
}


// ── lines ───────────────────────────────────────────────────────────────────

/// A line break read as a space, so a detail cannot break the line it is set in.
pub open spec fn flat(c: char) -> char {
    if c == '\n' || c == '\r' { ' ' } else { c }
}

pub open spec fn flat_all(s: Seq<char>) -> Seq<char> {
    s.map_values(|c: char| flat(c))
}

/// `s` on one line: every line break becomes a space.
pub fn one_line(s: &str) -> (out: String)
    ensures
        out@ == flat_all(s@),
{
    let chars = chars_of(s);
    let mut out = String::new();
    let mut i: usize = 0;
    while i < chars.len()
        invariant
            chars@ == s@,
            i <= chars@.len(),
            out@ == flat_all(s@.take(i as int)),
        decreases chars.len() - i,
    {
        let c = chars[i];
        push_char(&mut out, if c == '\n' || c == '\r' { ' ' } else { c });
        assert(flat_all(s@.take(i + 1)) =~= flat_all(s@.take(i as int)).push(flat(c)));
        i = i + 1;
    }
    assert(s@.take(s@.len() as int) =~= s@);
    out
}

/// Items with `sep` between each two of them.
pub open spec fn join_with(items: Seq<Seq<char>>, sep: Seq<char>) -> Seq<char>
    decreases items.len(),
{
    if items.len() == 0 {
        Seq::empty()
    } else if items.len() == 1 {
        items[0]
    } else {
        join_with(items.drop_last(), sep) + sep + items.last()
    }
}

/// `s` cut at every `\n`: one more piece than there are line feeds.
pub open spec fn split_nl(s: Seq<char>) -> Seq<Seq<char>>
    decreases s.len(),
{
    if s.len() == 0 {
        seq![Seq::<char>::empty()]
    } else {
        let ps = split_nl(s.drop_last());
        if s.last() == '\n' {
            ps.push(Seq::empty())
        } else {
            ps.update(ps.len() - 1, ps.last().push(s.last()))
        }
    }
}

/// A line without the `\r` of a CRLF ending.
pub open spec fn strip_cr(l: Seq<char>) -> Seq<char> {
    if l.len() > 0 && l.last() == '\r' { l.drop_last() } else { l }
}

/// The lines of `s` as `str::lines` gives them: cut at `\n`, the `\r` of a `\r\n` ending
/// dropped, and no empty line after a final line feed. A last line with no line feed after
/// it keeps whatever it ends with.
pub open spec fn text_lines(s: Seq<char>) -> Seq<Seq<char>> {
    if s.len() == 0 {
        Seq::empty()
    } else {
        let ps = split_nl(s);
        let ended = ps.drop_last().map_values(|l: Seq<char>| strip_cr(l));
        if s.last() == '\n' { ended } else { ended.push(ps.last()) }
    }
}

proof fn lemma_split_nl_last_suffix(s: Seq<char>)
    ensures
        split_nl(s).len() >= 1,
        split_nl(s).last().len() <= s.len(),
        split_nl(s).last() == s.subrange(s.len() - split_nl(s).last().len(), s.len() as int),
    decreases s.len(),
{
    if s.len() == 0 {
        assert(s.subrange(0, 0) =~= Seq::<char>::empty());
    } else {
        let t = s.drop_last();
        lemma_split_nl_last_suffix(t);
        if s.last() == '\n' {
            assert(s.subrange(s.len() as int, s.len() as int) =~= Seq::<char>::empty());
        } else {
            let l = split_nl(t).last();
            assert(l.push(s.last()) =~= s.subrange(s.len() - (l.len() + 1), s.len() as int));
        }
    }
}

proof fn lemma_split_nl_holds(s: Seq<char>, p: Seq<char>)
    ensures
        forall|k: int| 0 <= k < split_nl(s).len() && holds(#[trigger] split_nl(s)[k], p) ==> holds(s, p),
    decreases s.len(),
{
    lemma_split_nl_last_suffix(s);
    if s.len() == 0 {
        assert forall|k: int| 0 <= k < split_nl(s).len() && holds(#[trigger] split_nl(s)[k], p) implies holds(s, p) by {
            assert(split_nl(s)[k] == s);
        }
    } else {
        let t = s.drop_last();
        lemma_split_nl_holds(t, p);
        lemma_split_nl_last_suffix(t);
        let ps = split_nl(t);
        assert forall|k: int| 0 <= k < split_nl(s).len() && holds(#[trigger] split_nl(s)[k], p) implies holds(s, p) by {
            if k < ps.len() - 1 || (s.last() == '\n' && k < ps.len()) {
                assert(split_nl(s)[k] == ps[k]);
                assert(holds(t, p));
                assert(t == s.subrange(0, s.len() - 1));
                lemma_holds_within(s, 0, s.len() - 1, p);
            } else {
                let l = split_nl(s).last();
                assert(split_nl(s)[k] == l);
                lemma_holds_within(s, s.len() - l.len(), s.len() as int, p);
            }
        }
    }
}

/// What a line of a text holds, the text holds: every line is a piece of it.
pub proof fn lemma_text_lines_hold(s: Seq<char>, p: Seq<char>)
    ensures
        forall|k: int| 0 <= k < text_lines(s).len() && holds(#[trigger] text_lines(s)[k], p) ==> holds(s, p),
{
    if s.len() > 0 {
        lemma_split_nl_holds(s, p);
        let ps = split_nl(s);
        lemma_split_nl_nonempty(s);
        assert forall|k: int| 0 <= k < text_lines(s).len() && holds(#[trigger] text_lines(s)[k], p) implies holds(s, p) by {
            if k < ps.len() - 1 {
                let l = ps[k];
                assert(text_lines(s)[k] == strip_cr(l));
                if l.len() > 0 && l.last() == '\r' {
                    assert(l.drop_last() == l.subrange(0, l.len() - 1));
                    lemma_holds_within(l, 0, l.len() - 1, p);
                }
                assert(holds(ps[k], p));
            } else {
                assert(text_lines(s)[k] == ps[ps.len() - 1]);
                assert(holds(ps[ps.len() - 1], p));
            }
        }
    }
}

proof fn lemma_split_nl_nonempty(s: Seq<char>)
    ensures
        split_nl(s).len() >= 1,
        s.len() > 0 && s.last() == '\n' ==> split_nl(s).last().len() == 0,
        s.len() > 0 && s.last() != '\n' ==> split_nl(s).last().len() > 0,
    decreases s.len(),
{
    if s.len() > 0 {
        lemma_split_nl_nonempty(s.drop_last());
    }
}

fn stripped(l: &Vec<char>) -> (s: String)
    ensures
        s@ == strip_cr(l@),
{
    if l.len() > 0 && l[l.len() - 1] == '\r' {
        let mut v: Vec<char> = Vec::new();
        let mut i: usize = 0;
        while i < l.len() - 1
            invariant
                l@.len() > 0,
                i <= l@.len() - 1,
                v@ == l@.take(i as int),
            decreases l.len() - 1 - i,
        {
            v.push(l[i]);
            i = i + 1;
            assert(v@ =~= l@.take(i as int));
        }
        assert(v@ =~= l@.drop_last());
        string_of(v.as_slice())
    } else {
        string_of(l.as_slice())
    }
}

/// The lines of `s`, as `str::lines` gives them.
pub fn lines_of(s: &str) -> (ls: Vec<String>)
    ensures
        ls@.map_values(|l: String| l@) == text_lines(s@),
{
    let chars = chars_of(s);
    let mut done: Vec<String> = Vec::new();
    let mut cur: Vec<char> = Vec::new();
    let ghost mut raw: Seq<Seq<char>> = Seq::empty();
    let mut i: usize = 0;
    while i < chars.len()
        invariant
            chars@ == s@,
            i <= chars@.len(),
            split_nl(s@.take(i as int)) == raw.push(cur@),
            done@.map_values(|l: String| l@) == raw.map_values(|l: Seq<char>| strip_cr(l)),
        decreases chars.len() - i,
    {
        let c = chars[i];
        assert(s@.take(i + 1).drop_last() =~= s@.take(i as int));
        if c == '\n' {
            let line = stripped(&cur);
            let ghost before = done@.map_values(|l: String| l@);
            done.push(line);
            assert(done@.map_values(|l: String| l@) =~= before.push(strip_cr(cur@)));
            assert(raw.push(cur@).map_values(|l: Seq<char>| strip_cr(l)) =~= raw.map_values(|l: Seq<char>| strip_cr(l)).push(strip_cr(cur@)));
            proof {
                raw = raw.push(cur@);
            }
            cur = Vec::new();
            assert(done@.map_values(|l: String| l@) =~= raw.map_values(|l: Seq<char>| strip_cr(l)));
        } else {
            cur.push(c);
        }
        i = i + 1;
        assert(split_nl(s@.take(i as int)) =~= raw.push(cur@));
    }
    assert(s@.take(s@.len() as int) =~= s@);
    proof {
        lemma_split_nl_nonempty(s@);
    }
    assert(split_nl(s@).last() == cur@);
    assert(split_nl(s@).drop_last() =~= raw);
    if cur.len() > 0 {
        let line = string_of(cur.as_slice());
        let ghost before = done@.map_values(|l: String| l@);
        done.push(line);
        assert(done@.map_values(|l: String| l@) =~= before.push(cur@));
        assert(done@.map_values(|l: String| l@) =~= text_lines(s@));
    } else {
        proof {
            if s@.len() == 0 {
                assert(raw.len() == 0);
            }
        }
        assert(done@.map_values(|l: String| l@) =~= text_lines(s@));
    }
    done
}

} // verus!
