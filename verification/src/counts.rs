//! Named counts, kept in key order: `pdf → 40`, `html → 60`.
//!
//! Every report that says how many of each kind, each part, each liveness state carries
//! one of these. The order is the keys' own, character by character, so a report reads
//! the same whichever order the counting happened in.
use vstd::prelude::*;

use crate::text::{chars_of, owned};

verus! {

/// Strictly before, character by character, a prefix before anything it begins.
pub open spec fn lex_lt(a: Seq<char>, b: Seq<char>) -> bool
    decreases a.len(),
{
    if a.len() == 0 {
        b.len() > 0
    } else if b.len() == 0 {
        false
    } else if (a[0] as int) < (b[0] as int) {
        true
    } else if a[0] == b[0] {
        lex_lt(a.drop_first(), b.drop_first())
    } else {
        false
    }
}

pub proof fn lemma_lex_irreflexive(a: Seq<char>)
    ensures
        !lex_lt(a, a),
    decreases a.len(),
{
    if a.len() > 0 {
        lemma_lex_irreflexive(a.drop_first());
    }
}

pub proof fn lemma_lex_asymmetric(a: Seq<char>, b: Seq<char>)
    requires
        lex_lt(a, b),
    ensures
        !lex_lt(b, a),
    decreases a.len(),
{
    if a.len() > 0 && b.len() > 0 && a[0] == b[0] {
        lemma_lex_asymmetric(a.drop_first(), b.drop_first());
    }
}

pub proof fn lemma_lex_transitive(a: Seq<char>, b: Seq<char>, c: Seq<char>)
    requires
        lex_lt(a, b),
        lex_lt(b, c),
    ensures
        lex_lt(a, c),
    decreases a.len(),
{
    if a.len() > 0 && b.len() > 0 && c.len() > 0 && a[0] == b[0] && b[0] == c[0] {
        lemma_lex_transitive(a.drop_first(), b.drop_first(), c.drop_first());
    }
}

pub proof fn lemma_lex_total(a: Seq<char>, b: Seq<char>)
    requires
        a != b,
    ensures
        lex_lt(a, b) || lex_lt(b, a),
    decreases a.len(),
{
    if a.len() > 0 && b.len() > 0 && a[0] == b[0] {
        if a.drop_first() == b.drop_first() {
            assert(a =~= seq![a[0]] + a.drop_first());
            assert(b =~= seq![b[0]] + b.drop_first());
        }
        lemma_lex_total(a.drop_first(), b.drop_first());
    }
    if a.len() == 0 && b.len() == 0 {
        assert(a =~= b);
    }
}

/// Three answers to "which comes first".
#[derive(Clone, Copy, Debug, PartialEq, Eq)]
pub enum Order {
    Before,
    Same,
    After,
}

/// Compares two character sequences in key order.
pub fn compare(a: &[char], b: &[char]) -> (o: Order)
    ensures
        o == Order::Before <==> lex_lt(a@, b@),
        o == Order::Same <==> a@ == b@,
        o == Order::After <==> lex_lt(b@, a@),
{
    let mut i: usize = 0;
    assert(a@.subrange(0, a@.len() as int) =~= a@);
    assert(b@.subrange(0, b@.len() as int) =~= b@);
    assert(a@.take(0) =~= b@.take(0));
    while i < a.len() && i < b.len() && a[i] == b[i]
        invariant
            i <= a@.len(),
            i <= b@.len(),
            a@.take(i as int) == b@.take(i as int),
            lex_lt(a@, b@) == lex_lt(a@.subrange(i as int, a@.len() as int), b@.subrange(i as int, b@.len() as int)),
            lex_lt(b@, a@) == lex_lt(b@.subrange(i as int, b@.len() as int), a@.subrange(i as int, a@.len() as int)),
        decreases a.len() - i,
    {
        proof {
            let x = a@.subrange(i as int, a@.len() as int);
            let y = b@.subrange(i as int, b@.len() as int);
            assert(x.drop_first() =~= a@.subrange(i + 1, a@.len() as int));
            assert(y.drop_first() =~= b@.subrange(i + 1, b@.len() as int));
            assert(a@.take(i + 1) =~= a@.take(i as int).push(a@[i as int]));
            assert(b@.take(i + 1) =~= b@.take(i as int).push(b@[i as int]));
        }
        i = i + 1;
    }
    proof {
        if i == 0 {
            assert(a@.subrange(0, a@.len() as int) =~= a@);
            assert(b@.subrange(0, b@.len() as int) =~= b@);
        }
    }
    if i == a.len() && i == b.len() {
        assert(a@ =~= a@.take(i as int));
        assert(b@ =~= b@.take(i as int));
        proof {
            lemma_lex_irreflexive(a@);
        }
        return Order::Same;
    }
    if i == a.len() {
        assert(a@.subrange(i as int, a@.len() as int).len() == 0);
        assert(a@ != b@);
        return Order::Before;
    }
    if i == b.len() {
        assert(b@.subrange(i as int, b@.len() as int).len() == 0);
        assert(a@ != b@);
        return Order::After;
    }
    assert(a@[i as int] != b@[i as int]);
    assert(a@ != b@);
    let ghost x = a@.subrange(i as int, a@.len() as int);
    let ghost y = b@.subrange(i as int, b@.len() as int);
    assert(x[0] == a@[i as int] && y[0] == b@[i as int]);
    if a[i] < b[i] {
        assert((x[0] as int) < (y[0] as int));
        assert(lex_lt(x, y));
        assert(!lex_lt(y, x));
        Order::Before
    } else {
        assert((y[0] as int) < (x[0] as int));
        assert(lex_lt(y, x));
        assert(!lex_lt(x, y));
        Order::After
    }
}

/// Keys in strictly increasing order.
pub open spec fn sorted_keys(s: Seq<(String, u64)>) -> bool {
    forall|i: int, j: int| 0 <= i < j < s.len() ==> lex_lt(#[trigger] s[i].0@, #[trigger] s[j].0@)
}

/// The count under `key`, if there is one.
pub open spec fn lookup(s: Seq<(String, u64)>, key: Seq<char>) -> Option<u64>
    decreases s.len(),
{
    if s.len() == 0 {
        None
    } else if s.last().0@ == key {
        Some(s.last().1)
    } else {
        lookup(s.drop_last(), key)
    }
}

pub proof fn lemma_lookup_found(s: Seq<(String, u64)>, i: int)
    requires
        sorted_keys(s),
        0 <= i < s.len(),
    ensures
        lookup(s, s[i].0@) == Some(s[i].1),
    decreases s.len(),
{
    if i < s.len() - 1 {
        lemma_lex_irreflexive(s[i].0@);
        assert(s.last().0@ != s[i].0@) by {
            assert(lex_lt(s[i].0@, s[s.len() - 1].0@));
        }
        assert(sorted_keys(s.drop_last()));
        lemma_lookup_found(s.drop_last(), i);
    }
}

pub proof fn lemma_lookup_absent(s: Seq<(String, u64)>, key: Seq<char>)
    requires
        forall|i: int| 0 <= i < s.len() ==> s[i].0@ != key,
    ensures
        lookup(s, key) is None,
    decreases s.len(),
{
    if s.len() > 0 {
        lemma_lookup_absent(s.drop_last(), key);
    }
}

pub proof fn lemma_lookup_some(s: Seq<(String, u64)>, key: Seq<char>)
    ensures
        lookup(s, key) is Some ==> exists|i: int| 0 <= i < s.len() && s[i].0@ == key && lookup(s, key) == Some(s[i].1),
    decreases s.len(),
{
    if s.len() > 0 && s.last().0@ != key {
        lemma_lookup_some(s.drop_last(), key);
        if lookup(s, key) is Some {
            let i = choose|i: int| 0 <= i < s.drop_last().len() && s.drop_last()[i].0@ == key && lookup(s.drop_last(), key) == Some(s.drop_last()[i].1);
            assert(s[i] == s.drop_last()[i]);
        }
    }
}

/// `a` sorts no later than `b`.
pub open spec fn lex_le(a: Seq<char>, b: Seq<char>) -> bool {
    !lex_lt(b, a)
}

pub proof fn lemma_lex_le_total(a: Seq<char>, b: Seq<char>)
    ensures
        lex_le(a, b) || lex_le(b, a),
{
    if lex_lt(b, a) {
        lemma_lex_asymmetric(b, a);
    }
}

pub proof fn lemma_lex_le_transitive(a: Seq<char>, b: Seq<char>, c: Seq<char>)
    requires
        lex_le(a, b),
        lex_le(b, c),
    ensures
        lex_le(a, c),
{
    if lex_lt(c, a) {
        if a == b {
        } else {
            lemma_lex_total(a, b);
            lemma_lex_transitive(c, a, b);
        }
    }
}

/// Two optional counts added, the sum held at `u64::MAX`.
pub open spec fn sum_of(a: Option<u64>, b: Option<u64>) -> Option<u64> {
    match (a, b) {
        (Some(x), Some(y)) => Some(if x + y > u64::MAX { u64::MAX } else { (x + y) as u64 }),
        (Some(x), None) => Some(x),
        (None, Some(y)) => Some(y),
        (None, None) => None,
    }
}

/// The sum of the counts.
pub open spec fn total_of(s: Seq<(String, u64)>) -> nat
    decreases s.len(),
{
    if s.len() == 0 {
        0
    } else {
        total_of(s.drop_last()) + (s.last().1 as nat)
    }
}

/// A count, zero when there is none.
pub open spec fn val(o: Option<u64>) -> nat {
    match o {
        Some(v) => v as nat,
        None => 0,
    }
}

/// No single count is more than all of them together.
pub proof fn lemma_count_within_total(s: Seq<(String, u64)>, key: Seq<char>)
    ensures
        val(lookup(s, key)) <= total_of(s),
    decreases s.len(),
{
    if s.len() > 0 {
        lemma_count_within_total(s.drop_last(), key);
    }
}

/// Named counts in key order, each key once.
#[derive(Debug)]
pub struct Counts {
    entries: Vec<(String, u64)>,
}

impl Counts {
    #[verifier::type_invariant]
    spec fn sorted(self) -> bool {
        sorted_keys(self.entries@)
    }

    /// The entries, in key order.
    pub closed spec fn pairs(&self) -> Seq<(String, u64)> {
        self.entries@
    }

    /// The count under `key`, if any.
    pub open spec fn at(&self, key: Seq<char>) -> Option<u64> {
        lookup(self.pairs(), key)
    }

    /// All the counts added up.
    pub open spec fn total(&self) -> nat {
        total_of(self.pairs())
    }

    /// No single count is more than the total.
    pub proof fn lemma_within_total(&self, key: Seq<char>)
        ensures
            val(self.at(key)) <= self.total(),
    {
        lemma_count_within_total(self.pairs(), key);
    }

    pub fn new() -> (c: Self)
        ensures
            c.pairs().len() == 0,
    {
        Counts { entries: Vec::new() }
    }

    /// The entries, in key order.
    pub fn entries(&self) -> (e: &Vec<(String, u64)>)
        ensures
            e@ == self.pairs(),
            sorted_keys(e@),
    {
        proof {
            use_type_invariant(self);
        }
        &self.entries
    }

    pub fn len(&self) -> (n: usize)
        ensures
            n == self.pairs().len(),
    {
        self.entries.len()
    }

    pub fn is_empty(&self) -> (b: bool)
        ensures
            b == (self.pairs().len() == 0),
    {
        self.entries.len() == 0
    }

    /// The count under `key`, if any.
    pub fn get(&self, key: &str) -> (r: Option<u64>)
        ensures
            r == self.at(key@),
    {
        proof {
            use_type_invariant(self);
        }
        let k = chars_of(key);
        let mut i: usize = 0;
        while i < self.entries.len()
            invariant
                i <= self.entries@.len(),
                k@ == key@,
                sorted_keys(self.entries@),
                forall|j: int| 0 <= j < i ==> self.entries@[j].0@ != key@,
            decreases self.entries.len() - i,
        {
            let name = chars_of(self.entries[i].0.as_str());
            if crate::text::same(name.as_slice(), k.as_slice()) {
                proof {
                    lemma_lookup_found(self.entries@, i as int);
                }
                return Some(self.entries[i].1);
            }
            i = i + 1;
        }
        proof {
            lemma_lookup_absent(self.entries@, key@);
        }
        None
    }

    /// Writes `value` under `key`, replacing whatever was there. Every other key keeps
    /// its count.
    pub fn set(&mut self, key: &str, value: u64)
        ensures
            final(self).at(key@) == Some(value),
            final(self).total() + val(old(self).at(key@)) == old(self).total() + value,
            forall|k: Seq<char>| k != key@ ==> #[trigger] final(self).at(k) == old(self).at(k),
    {
        self.upsert(key, value, false);
    }

    /// Adds `value` to the count under `key`, starting from zero when there is none. A sum
    /// past `u64::MAX` stays at `u64::MAX`.
    pub fn add(&mut self, key: &str, value: u64)
        ensures
            final(self).at(key@) == Some(match old(self).at(key@) {
                Some(v) => if v + value > u64::MAX { u64::MAX } else { (v + value) as u64 },
                None => value,
            }),
            forall|k: Seq<char>| k != key@ ==> #[trigger] final(self).at(k) == old(self).at(k),
            final(self).total() + val(old(self).at(key@)) == old(self).total() + val(final(self).at(key@)),
    {
        self.upsert(key, value, true);
    }

    fn upsert(&mut self, key: &str, value: u64, accumulate: bool)
        ensures
            final(self).at(key@) == Some(
                if accumulate {
                    match old(self).at(key@) {
                        Some(v) => if v + value > u64::MAX { u64::MAX } else { (v + value) as u64 },
                        None => value,
                    }
                } else {
                    value
                },
            ),
            forall|k: Seq<char>| k != key@ ==> #[trigger] final(self).at(k) == old(self).at(k),
            final(self).total() + val(old(self).at(key@)) == old(self).total() + val(final(self).at(key@)),
    {
        proof {
            use_type_invariant(&*self);
        }
        let k = chars_of(key);
        let ghost old_entries = self.entries@;
        let mut out: Vec<(String, u64)> = Vec::new();
        let mut placed = false;
        // What the key held before, and what it holds now, once it is placed.
        let ghost mut removed: nat = 0;
        let ghost mut added: nat = 0;
        let mut i: usize = 0;
        let n = self.entries.len();
        while i < n
            invariant
                n == self.entries@.len(),
                self.entries@ == old_entries,
                sorted_keys(old_entries),
                old_entries == old(self).entries@,
                k@ == key@,
                i <= n,
                sorted_keys(out@),
                // Everything taken so far, and the new key once it is placed.
                forall|j: int| 0 <= j < out@.len() ==> (out@[j].0@ == key@ || exists|m: int| 0 <= m < i && old_entries[m].0@ == #[trigger] out@[j].0@),
                forall|m: int| 0 <= m < i && old_entries[m].0@ != key@ ==> lookup(out@, #[trigger] old_entries[m].0@) == Some(old_entries[m].1),
                placed ==> lookup(out@, key@) == Some(
                    if accumulate {
                        match lookup(old_entries, key@) {
                            Some(v) => if v + value > u64::MAX { u64::MAX } else { (v + value) as u64 },
                            None => value,
                        }
                    } else {
                        value
                    },
                ),
                placed ==> (forall|m: int| i <= m < n ==> lex_lt(key@, #[trigger] old_entries[m].0@)),
                !placed ==> (forall|j: int| 0 <= j < out@.len() ==> lex_lt(#[trigger] out@[j].0@, key@)),
                !placed ==> (forall|m: int| 0 <= m < i ==> #[trigger] old_entries[m].0@ != key@),
                total_of(out@) + removed == total_of(old_entries.take(i as int)) + added,
                !placed ==> removed == 0 && added == 0,
                placed ==> removed == val(lookup(old_entries, key@)) && added == val(lookup(out@, key@)),
                forall|j: int, m: int| 0 <= j < out@.len() && i <= m < n ==> lex_lt(#[trigger] out@[j].0@, #[trigger] old_entries[m].0@),
            decreases n - i,
        {
            let name = chars_of(self.entries[i].0.as_str());
            let o = compare(name.as_slice(), k.as_slice());
            let ghost before = out@;
            assert(old_entries.take(i + 1).drop_last() =~= old_entries.take(i as int));
            assert(total_of(old_entries.take(i + 1)) == total_of(old_entries.take(i as int)) + old_entries[i as int].1);
            proof {
                assert forall|j: int, m: int| 0 <= j < before.len() && i + 1 <= m < n implies lex_lt(#[trigger] before[j].0@, #[trigger] old_entries[m].0@) by {
                    assert(lex_lt(before[j].0@, old_entries[m].0@));
                }
            }
            match o {
                Order::Before => {
                    // This key stays, ahead of the new one.
                    let entry = (owned(self.entries[i].0.as_str()), self.entries[i].1);
                    out.push(entry);
                    assert(out@.drop_last() =~= before);
                    assert(total_of(out@) == total_of(before) + old_entries[i as int].1);
                    proof {
                        assert(!placed) by {
                            if placed {
                                lemma_lex_asymmetric(key@, old_entries[i as int].0@);
                            }
                        }
                        assert(out@.drop_last() =~= before);
                        self.lemma_push_keeps(before, out@, old_entries, i as int, key@);
                    }
                },
                Order::Same => {
                    let v = if accumulate {
                        let old_v = self.entries[i].1;
                        if old_v > u64::MAX - value { u64::MAX } else { old_v + value }
                    } else {
                        value
                    };
                    let entry = (owned(key), v);
                    out.push(entry);
                    assert(out@.drop_last() =~= before);
                    assert(total_of(out@) == total_of(before) + v);
                    placed = true;
                    proof {
                        lemma_lookup_found(old_entries, i as int);
                        removed = old_entries[i as int].1 as nat;
                        added = v as nat;
                        assert(out@.drop_last() =~= before);
                        assert(sorted_keys(out@)) by {
                            assert forall|a: int, b: int| 0 <= a < b < out@.len() implies lex_lt(#[trigger] out@[a].0@, #[trigger] out@[b].0@) by {
                                if b == out@.len() - 1 {
                                    assert(out@[a] == before[a]);
                                }
                            }
                        }
                        self.lemma_after_push(before, out@, old_entries, i as int, key@);
                    }
                },
                Order::After => {
                    if !placed {
                        let entry = (owned(key), value);
                        out.push(entry);
                        assert(out@.drop_last() =~= before);
                        assert(total_of(out@) == total_of(before) + value);
                        placed = true;
                        proof {
                            lemma_lookup_absent_sorted(old_entries, key@, i as int);
                            added = value as nat;
                            let mid = out@;
                            assert(mid.drop_last() =~= before);
                            assert(sorted_keys(mid)) by {
                                assert forall|a: int, b: int| 0 <= a < b < mid.len() implies lex_lt(#[trigger] mid[a].0@, #[trigger] mid[b].0@) by {
                                    if b == mid.len() - 1 {
                                        assert(mid[a] == before[a]);
                                    }
                                }
                            }
                            assert forall|m: int| 0 <= m < i && old_entries[m].0@ != key@ implies lookup(mid, #[trigger] old_entries[m].0@) == Some(old_entries[m].1) by {
                                assert(lookup(before, old_entries[m].0@) == Some(old_entries[m].1));
                            }
                            assert forall|m: int| i <= m < n implies lex_lt(key@, #[trigger] old_entries[m].0@) by {
                                if m > i {
                                    assert(lex_lt(old_entries[i as int].0@, old_entries[m].0@));
                                    lemma_lex_transitive(key@, old_entries[i as int].0@, old_entries[m].0@);
                                }
                            }
                            assert forall|j: int, m: int| 0 <= j < mid.len() && i <= m < n implies lex_lt(#[trigger] mid[j].0@, #[trigger] old_entries[m].0@) by {
                                if j < before.len() {
                                    assert(mid[j] == before[j]);
                                }
                            }
                        }
                    }
                    let ghost before2 = out@;
                    let entry = (owned(self.entries[i].0.as_str()), self.entries[i].1);
                    out.push(entry);
                    assert(out@.drop_last() =~= before2);
                    assert(total_of(out@) == total_of(before2) + old_entries[i as int].1);
                    proof {
                        assert(out@.drop_last() =~= before2);
                        self.lemma_push_keeps(before2, out@, old_entries, i as int, key@);
                    }
                },
            }
            i = i + 1;
        }
        if !placed {
            let ghost before = out@;
            let entry = (owned(key), value);
            out.push(entry);
            proof {
                lemma_lookup_absent(old_entries, key@);
                added = value as nat;
                assert(out@.drop_last() =~= before);
                assert(sorted_keys(out@)) by {
                    assert forall|a: int, b: int| 0 <= a < b < out@.len() implies lex_lt(#[trigger] out@[a].0@, #[trigger] out@[b].0@) by {
                        if b == out@.len() - 1 {
                            assert(out@[a] == before[a]);
                        }
                    }
                }
                assert forall|m: int| 0 <= m < n && old_entries[m].0@ != key@ implies lookup(out@, #[trigger] old_entries[m].0@) == Some(old_entries[m].1) by {
                    assert(lookup(before, old_entries[m].0@) == Some(old_entries[m].1));
                }
            }
        }
        proof {
            assert forall|kk: Seq<char>| kk != key@ implies lookup(out@, kk) == #[trigger] lookup(old_entries, kk) by {
                lemma_lookup_some(old_entries, kk);
                lemma_lookup_some(out@, kk);
                if lookup(old_entries, kk) is Some {
                    let m = choose|m: int| 0 <= m < old_entries.len() && old_entries[m].0@ == kk && lookup(old_entries, kk) == Some(old_entries[m].1);
                    assert(lookup(out@, old_entries[m].0@) == Some(old_entries[m].1));
                } else if lookup(out@, kk) is Some {
                    let j = choose|j: int| 0 <= j < out@.len() && out@[j].0@ == kk && lookup(out@, kk) == Some(out@[j].1);
                    let m = choose|m: int| 0 <= m < n && old_entries[m].0@ == out@[j].0@;
                    lemma_lookup_found(old_entries, m);
                }
            }
        }
        assert(old_entries.take(n as int) =~= old_entries);
        self.entries = out;
    }

    proof fn lemma_push_keeps(
        &self,
        before: Seq<(String, u64)>,
        after: Seq<(String, u64)>,
        old_entries: Seq<(String, u64)>,
        i: int,
        key: Seq<char>,
    )
        requires
            0 <= i < old_entries.len(),
            sorted_keys(old_entries),
            sorted_keys(before),
            after.drop_last() == before,
            after.len() == before.len() + 1,
            after.last().0@ == old_entries[i].0@,
            after.last().1 == old_entries[i].1,
            old_entries[i].0@ != key,
            forall|j: int, m: int| 0 <= j < before.len() && i <= m < old_entries.len() ==> lex_lt(#[trigger] before[j].0@, #[trigger] old_entries[m].0@),
            forall|m: int| 0 <= m < i && old_entries[m].0@ != key ==> lookup(before, #[trigger] old_entries[m].0@) == Some(old_entries[m].1),
        ensures
            sorted_keys(after),
            forall|m: int| 0 <= m < i + 1 && old_entries[m].0@ != key ==> lookup(after, #[trigger] old_entries[m].0@) == Some(old_entries[m].1),
            forall|j: int, m: int| 0 <= j < after.len() && i + 1 <= m < old_entries.len() ==> lex_lt(#[trigger] after[j].0@, #[trigger] old_entries[m].0@),
            forall|kk: Seq<char>| kk != old_entries[i].0@ ==> #[trigger] lookup(after, kk) == lookup(before, kk),
    {
        assert(sorted_keys(after)) by {
            assert forall|a: int, b: int| 0 <= a < b < after.len() implies lex_lt(#[trigger] after[a].0@, #[trigger] after[b].0@) by {
                if b == after.len() - 1 {
                    assert(after[a] == before[a]);
                } else {
                    assert(after[a] == before[a]);
                    assert(after[b] == before[b]);
                }
            }
        }
        assert forall|m: int| 0 <= m < i + 1 && old_entries[m].0@ != key implies lookup(after, #[trigger] old_entries[m].0@) == Some(old_entries[m].1) by {
            if m < i {
                lemma_lex_irreflexive(old_entries[m].0@);
                assert(old_entries[m].0@ != old_entries[i].0@) by {
                    assert(lex_lt(old_entries[m].0@, old_entries[i].0@));
                }
            }
        }
        assert forall|j: int, m: int| 0 <= j < after.len() && i + 1 <= m < old_entries.len() implies lex_lt(#[trigger] after[j].0@, #[trigger] old_entries[m].0@) by {
            if j < before.len() {
                assert(after[j] == before[j]);
            } else {
                assert(lex_lt(old_entries[i].0@, old_entries[m].0@));
            }
        }
    }

    proof fn lemma_after_push(
        &self,
        before: Seq<(String, u64)>,
        after: Seq<(String, u64)>,
        old_entries: Seq<(String, u64)>,
        i: int,
        key: Seq<char>,
    )
        requires
            0 <= i < old_entries.len(),
            sorted_keys(old_entries),
            after.drop_last() == before,
            after.len() == before.len() + 1,
            after.last().0@ == key,
            old_entries[i].0@ == key,
            forall|j: int, m: int| 0 <= j < before.len() && i <= m < old_entries.len() ==> lex_lt(#[trigger] before[j].0@, #[trigger] old_entries[m].0@),
            forall|m: int| 0 <= m < i && old_entries[m].0@ != key ==> lookup(before, #[trigger] old_entries[m].0@) == Some(old_entries[m].1),
        ensures
            forall|m: int| 0 <= m < i + 1 && old_entries[m].0@ != key ==> lookup(after, #[trigger] old_entries[m].0@) == Some(old_entries[m].1),
            forall|m: int| i + 1 <= m < old_entries.len() ==> lex_lt(key, #[trigger] old_entries[m].0@),
            forall|j: int, m: int| 0 <= j < after.len() && i + 1 <= m < old_entries.len() ==> lex_lt(#[trigger] after[j].0@, #[trigger] old_entries[m].0@),
            lookup(after, key) == Some(after.last().1),
    {
        assert forall|m: int| i + 1 <= m < old_entries.len() implies lex_lt(key, #[trigger] old_entries[m].0@) by {
            assert(lex_lt(old_entries[i].0@, old_entries[m].0@));
        }
        assert forall|j: int, m: int| 0 <= j < after.len() && i + 1 <= m < old_entries.len() implies lex_lt(#[trigger] after[j].0@, #[trigger] old_entries[m].0@) by {
            if j < before.len() {
                assert(after[j] == before[j]);
            } else {
                assert(lex_lt(old_entries[i].0@, old_entries[m].0@));
            }
        }
    }

    /// Writes every count of `other` over this one's: keys `other` holds take its count,
    /// every other key keeps its own.
    pub fn extend(&mut self, other: &Counts)
        ensures
            forall|k: Seq<char>| #[trigger] final(self).at(k) == (match other.at(k) {
                Some(v) => Some(v),
                None => old(self).at(k),
            }),
    {
        let entries = other.entries();
        let mut i: usize = 0;
        while i < entries.len()
            invariant
                i <= entries@.len(),
                entries@ == other.pairs(),
                sorted_keys(entries@),
                forall|k: Seq<char>| #[trigger] self.at(k) == (match lookup(entries@.take(i as int), k) {
                    Some(v) => Some(v),
                    None => old(self).at(k),
                }),
            decreases entries.len() - i,
        {
            let ghost before = *self;
            self.set(entries[i].0.as_str(), entries[i].1);
            proof {
                assert(entries@.take(i + 1).drop_last() =~= entries@.take(i as int));
                assert(entries@.take(i + 1).last() == entries@[i as int]);
            }
            i = i + 1;
        }
        assert(entries@.take(entries@.len() as int) =~= entries@);
    }

    /// Adds every count of `other` into this one: a key both hold gets the sum (held at
    /// `u64::MAX`), a key one holds keeps its count.
    pub fn merge_add(&mut self, other: &Counts)
        ensures
            forall|k: Seq<char>| #[trigger] final(self).at(k) == sum_of(old(self).at(k), other.at(k)),
    {
        let entries = other.entries();
        let mut i: usize = 0;
        while i < entries.len()
            invariant
                i <= entries@.len(),
                entries@ == other.pairs(),
                sorted_keys(entries@),
                forall|k: Seq<char>| #[trigger] self.at(k) == sum_of(old(self).at(k), lookup(entries@.take(i as int), k)),
            decreases entries.len() - i,
        {
            let ghost e = entries@[i as int].0@;
            proof {
                assert forall|m: int| 0 <= m < entries@.take(i as int).len() implies entries@.take(i as int)[m].0@ != e by {
                    assert(lex_lt(entries@[m].0@, entries@[i as int].0@));
                    lemma_lex_irreflexive(e);
                }
                lemma_lookup_absent(entries@.take(i as int), e);
            }
            self.add(entries[i].0.as_str(), entries[i].1);
            proof {
                assert(entries@.take(i + 1).drop_last() =~= entries@.take(i as int));
                assert(entries@.take(i + 1).last() == entries@[i as int]);
            }
            i = i + 1;
        }
        assert(entries@.take(entries@.len() as int) =~= entries@);
    }

    /// Builds a table of counts from pairs in any order; a key given twice keeps its last
    /// count.
    pub fn from_pairs(pairs: &[(&str, u64)]) -> (c: Self)
        ensures
            forall|i: int| 0 <= i < pairs@.len() && (forall|j: int| i < j < pairs@.len() ==> pairs@[j].0@ != pairs@[i].0@)
                ==> #[trigger] c.at(pairs@[i].0@) == Some(pairs@[i].1),
    {
        let mut c = Counts::new();
        proof {
            lemma_lookup_absent(c.pairs(), Seq::empty());
        }
        let mut i: usize = 0;
        while i < pairs.len()
            invariant
                i <= pairs@.len(),
                forall|a: int| 0 <= a < i && (forall|j: int| a < j < i ==> pairs@[j].0@ != pairs@[a].0@)
                    ==> #[trigger] c.at(pairs@[a].0@) == Some(pairs@[a].1),
            decreases pairs.len() - i,
        {
            c.set(pairs[i].0, pairs[i].1);
            i = i + 1;
        }
        c
    }
}

/// A key absent from the part of a sorted list at or after `from` that is larger than it.
proof fn lemma_lookup_absent_sorted(s: Seq<(String, u64)>, key: Seq<char>, from: int)
    requires
        sorted_keys(s),
        0 <= from < s.len(),
        lex_lt(key, s[from].0@),
        forall|m: int| 0 <= m < from ==> s[m].0@ != key,
    ensures
        lookup(s, key) is None,
{
    assert forall|m: int| 0 <= m < s.len() implies s[m].0@ != key by {
        if m > from {
            assert(lex_lt(s[from].0@, s[m].0@));
            lemma_lex_transitive(key, s[from].0@, s[m].0@);
            lemma_lex_irreflexive(key);
        } else if m == from {
            lemma_lex_irreflexive(key);
        }
    }
    lemma_lookup_absent(s, key);
}

} // verus!
