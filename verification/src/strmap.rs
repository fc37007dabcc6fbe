//! A map from names to 32-bit values, kept sorted by name.
//!
//! Symbol tables hold tens of thousands of names, gathered once at startup
//! and looked up by name afterwards, with the first value recorded for a name
//! winning. Kept sorted, each insertion and each lookup is a binary search.
use vstd::prelude::*;

use crate::text::chars_of;

verus! {

/// Lexicographic order on character sequences, by code point: the order
/// `str`'s `<` uses.
pub open spec fn lex_lt(a: Seq<char>, b: Seq<char>) -> bool
    decreases a.len(),
{
    if a.len() == 0 {
        b.len() > 0
    } else if b.len() == 0 {
        false
    } else if a[0] != b[0] {
        a[0] < b[0]
    } else {
        lex_lt(a.drop_first(), b.drop_first())
    }
}

pub proof fn lemma_lex_irreflexive(a: Seq<char>)
    ensures
        !lex_lt(a, a),
    decreases a.len(),
{
    if a.len() > 0 {
        lemma_lex_irreflexive(a.drop_first());
    }
}

pub proof fn lemma_lex_transitive(a: Seq<char>, b: Seq<char>, c: Seq<char>)
    requires
        lex_lt(a, b),
        lex_lt(b, c),
    ensures
        lex_lt(a, c),
    decreases a.len(),
{
    if a.len() > 0 && b.len() > 0 && c.len() > 0 {
        if a[0] == b[0] && b[0] == c[0] {
            lemma_lex_transitive(a.drop_first(), b.drop_first(), c.drop_first());
        }
    }
}

pub proof fn lemma_lex_total(a: Seq<char>, b: Seq<char>)
    ensures
        a == b || lex_lt(a, b) || lex_lt(b, a),
    decreases a.len(),
{
    if a.len() > 0 && b.len() > 0 && a[0] == b[0] {
        lemma_lex_total(a.drop_first(), b.drop_first());
        if a.drop_first() == b.drop_first() {
            assert(a =~= seq![a[0]] + a.drop_first());
            assert(b =~= seq![b[0]] + b.drop_first());
        }
    } else if a.len() == 0 && b.len() == 0 {
        assert(a =~= b);
    }
}

pub proof fn lemma_lex_asymmetric(a: Seq<char>, b: Seq<char>)
    requires
        lex_lt(a, b),
    ensures
        !lex_lt(b, a),
        a != b,
    decreases a.len(),
{
    lemma_lex_irreflexive(a);
    if a.len() > 0 && b.len() > 0 && a[0] == b[0] {
        lemma_lex_asymmetric(a.drop_first(), b.drop_first());
    }
}

/// How two character runs compare: -1, 0 or 1.
pub fn compare(a: &Vec<char>, b: &Vec<char>) -> (r: i8)
    ensures
        r == 0 <==> a@ == b@,
        r < 0 <==> lex_lt(a@, b@),
        r > 0 <==> lex_lt(b@, a@),
{
    let mut i: usize = 0;
    while i < a.len() && i < b.len() && a[i] == b[i]
        invariant
            0 <= i <= a.len(),
            i <= b.len(),
            a@.take(i as int) == b@.take(i as int),
        decreases a.len() - i,
    {
        assert(a@.take(i + 1) =~= a@.take(i as int).push(a@[i as int]));
        assert(b@.take(i + 1) =~= b@.take(i as int).push(b@[i as int]));
        i = i + 1;
    }
    proof {
        lemma_lex_prefix(a@, b@, i as int);
        lemma_lex_total(a@, b@);
        if lex_lt(a@, b@) {
            lemma_lex_asymmetric(a@, b@);
        }
        if lex_lt(b@, a@) {
            lemma_lex_asymmetric(b@, a@);
        }
    }
    if i < a.len() && i < b.len() {
        if a[i] < b[i] {
            -1
        } else {
            1
        }
    } else if i < b.len() {
        -1
    } else if i < a.len() {
        1
    } else {
        proof {
            assert(a@ =~= a@.take(i as int));
            assert(b@ =~= b@.take(i as int));
        }
        0
    }
}

/// Comparing past a common prefix compares what follows it.
proof fn lemma_lex_prefix(a: Seq<char>, b: Seq<char>, i: int)
    requires
        0 <= i <= a.len(),
        i <= b.len(),
        a.take(i) == b.take(i),
    ensures
        lex_lt(a, b) == lex_lt(a.skip(i), b.skip(i)),
    decreases i,
{
    if i > 0 {
        assert(a[0] == a.take(i)[0]);
        assert(b[0] == b.take(i)[0]);
        assert(a.drop_first().take(i - 1) =~= a.take(i).drop_first());
        assert(b.drop_first().take(i - 1) =~= b.take(i).drop_first());
        lemma_lex_prefix(a.drop_first(), b.drop_first(), i - 1);
        assert(a.drop_first().skip(i - 1) =~= a.skip(i));
        assert(b.drop_first().skip(i - 1) =~= b.skip(i));
    } else {
        assert(a.skip(0) =~= a);
        assert(b.skip(0) =~= b);
    }
}

/// Names mapped to values, sorted by name.
pub struct StrMap {
    entries: Vec<(String, u32)>,
}

/// The value an entry list holds for `name`.
pub open spec fn get_in(s: Seq<(String, u32)>, name: Seq<char>) -> Option<u32> {
    if exists|i: int| 0 <= i < s.len() && s[i].0@ == name {
        Some(s[choose|i: int| 0 <= i < s.len() && s[i].0@ == name].1)
    } else {
        None
    }
}

/// Strictly increasing by name.
pub open spec fn sorted_names(s: Seq<(String, u32)>) -> bool {
    forall|i: int, j: int| 0 <= i < j < s.len() ==> lex_lt(s[i].0@, s[j].0@)
}

impl StrMap {
    pub closed spec fn spec_entries(&self) -> Seq<(String, u32)> {
        self.entries@
    }

    pub closed spec fn wf(&self) -> bool {
        sorted_names(self.entries@)
    }

    /// The value for `name`, if it has one.
    pub open spec fn spec_get(&self, name: Seq<char>) -> Option<u32> {
        get_in(self.spec_entries(), name)
    }

    pub fn new() -> (m: StrMap)
        ensures
            m.wf(),
            m.spec_entries().len() == 0,
            forall|n: Seq<char>| m.spec_get(n) is None,
    {
        StrMap { entries: Vec::new() }
    }

    pub fn len(&self) -> (n: usize)
        ensures
            n == self.spec_entries().len(),
    {
        self.entries.len()
    }

    /// The entries, sorted by name.
    pub fn entries(&self) -> (s: &[(String, u32)])
        ensures
            s@ == self.spec_entries(),
    {
        self.entries.as_slice()
    }

    /// How many names sort below `key`, and whether the next one is `key`.
    fn search(&self, key: &Vec<char>) -> (r: (usize, bool))
        requires
            self.wf(),
        ensures
            r.0 <= self.spec_entries().len(),
            forall|j: int| 0 <= j < r.0 ==> lex_lt(self.spec_entries()[j].0@, key@),
            forall|j: int| r.0 <= j < self.spec_entries().len() ==> !lex_lt(
                self.spec_entries()[j].0@,
                key@,
            ),
            r.1 <==> (r.0 < self.spec_entries().len() && self.spec_entries()[r.0 as int].0@ == key@),
    {
        let mut lo: usize = 0;
        let mut hi: usize = self.entries.len();
        while lo < hi
            invariant
                0 <= lo <= hi <= self.entries.len(),
                sorted_names(self.entries@),
                forall|j: int| 0 <= j < lo ==> lex_lt(self.entries@[j].0@, key@),
                forall|j: int| hi <= j < self.entries.len() ==> !lex_lt(self.entries@[j].0@, key@),
            decreases hi - lo,
        {
            let mid = lo + (hi - lo) / 2;
            let name = chars_of(self.entries[mid].0.as_str());
            let c = compare(&name, key);
            if c < 0 {
                proof {
                    assert forall|j: int| 0 <= j <= mid implies lex_lt(self.entries@[j].0@, key@) by {
                        if j < mid {
                            lemma_lex_transitive(self.entries@[j].0@, self.entries@[mid as int].0@, key@);
                        }
                    }
                }
                lo = mid + 1;
            } else {
                proof {
                    assert forall|j: int| mid <= j < self.entries.len() implies !lex_lt(
                        self.entries@[j].0@,
                        key@,
                    ) by {
                        if j > mid {
                            if lex_lt(self.entries@[j].0@, key@) {
                                lemma_lex_transitive(self.entries@[mid as int].0@, self.entries@[j].0@, key@);
                                lemma_lex_asymmetric(self.entries@[mid as int].0@, key@);
                                lemma_lex_irreflexive(key@);
                            }
                        }
                    }
                }
                hi = mid;
            }
        }
        if lo < self.entries.len() {
            let name = chars_of(self.entries[lo].0.as_str());
            let c = compare(&name, key);
            (lo, c == 0)
        } else {
            (lo, false)
        }
    }

    /// The value recorded for `name`.
    pub fn get(&self, name: &str) -> (r: Option<u32>)
        requires
            self.wf(),
        ensures
            r == self.spec_get(name@),
    {
        let key = chars_of(name);
        let (at, found) = self.search(&key);
        proof {
            let s = self.spec_entries();
            if exists|i: int| 0 <= i < s.len() && s[i].0@ == name@ {
                let c = choose|i: int| 0 <= i < s.len() && s[i].0@ == name@;
                lemma_lex_irreflexive(name@);
                if c < at {
                    assert(lex_lt(s[c].0@, key@));
                } else if c > at {
                    assert(!lex_lt(s[at as int].0@, key@));
                    lemma_lex_total(s[at as int].0@, key@);
                    assert(lex_lt(s[at as int].0@, s[c].0@));
                    if s[at as int].0@ != key@ {
                        lemma_lex_asymmetric(key@, s[at as int].0@);
                    }
                }
            }
        }
        if found {
            Some(self.entries[at].1)
        } else {
            None
        }
    }

    /// Record `value` for `name`, unless `name` already has one: the first
    /// value recorded for a name is the one kept.
    pub fn insert_if_absent(&mut self, name: String, value: u32)
        requires
            old(self).wf(),
        ensures
            final(self).wf(),
            forall|n: Seq<char>| #[trigger] final(self).spec_get(n) == (if n == name@ && old(self).spec_get(n) is None {
                Some(value)
            } else {
                old(self).spec_get(n)
            }),
    {
        let key = chars_of(name.as_str());
        let (at, found) = self.search(&key);
        if found {
            proof {
                assert forall|n: Seq<char>| #[trigger] self.spec_get(n) == (if n == name@ && self.spec_get(n) is None {
                    Some(value)
                } else {
                    self.spec_get(n)
                }) by {
                    if n == name@ {
                        assert(self.spec_entries()[at as int].0@ == n);
                    }
                }
            }
            return ;
        }
        let ghost before = self.entries@;
        proof {
            assert forall|j: int| 0 <= j < before.len() implies before[j].0@ != name@ by {
                if j < at {
                    lemma_lex_asymmetric(before[j].0@, key@);
                } else {
                    lemma_lex_total(before[at as int].0@, key@);
                    if j > at && before[j].0@ == key@ {
                        lemma_lex_transitive(key@, before[at as int].0@, before[j].0@);
                        lemma_lex_irreflexive(key@);
                    }
                }
            }
        }
        self.entries.insert(at, (name, value));
        proof {
            let after = self.entries@;
            assert(after == before.insert(at as int, (name, value)));
            assert forall|i: int, j: int| 0 <= i < j < after.len() implies lex_lt(
                after[i].0@,
                after[j].0@,
            ) by {
                if j < at {
                    assert(after[i] == before[i] && after[j] == before[j]);
                } else if j == at {
                    assert(after[i] == before[i]);
                } else if i == at {
                    assert(after[j] == before[j - 1]);
                    assert(!lex_lt(before[j - 1].0@, key@));
                    lemma_lex_total(before[j - 1].0@, key@);
                    if before[j - 1].0@ == key@ {
                        if j - 1 == at {
                        } else {
                            assert(!lex_lt(before[at as int].0@, key@));
                            lemma_lex_total(before[at as int].0@, key@);
                            if before[at as int].0@ != key@ {
                                lemma_lex_transitive(key@, before[at as int].0@, before[j - 1].0@);
                                lemma_lex_irreflexive(key@);
                            }
                        }
                    }
                } else if i < at {
                    assert(after[i] == before[i] && after[j] == before[j - 1]);
                    if j - 1 > i {
                    } else {
                        assert(false);
                    }
                } else {
                    assert(after[i] == before[i - 1] && after[j] == before[j - 1]);
                }
            }
            assert forall|n: Seq<char>| #[trigger] self.spec_get(n) == (if n == name@ && old(self).spec_get(n) is None {
                Some(value)
            } else {
                old(self).spec_get(n)
            }) by {
                lemma_get_after_insert(before, at as int, name, value, n);
            }
        }
    }
}

/// Looking a name up after a sorted insertion of a new name.
proof fn lemma_get_after_insert(before: Seq<(String, u32)>, at: int, name: String, value: u32, n: Seq<char>)
    requires
        0 <= at <= before.len(),
        sorted_names(before),
        sorted_names(before.insert(at, (name, value))),
        forall|j: int| 0 <= j < before.len() ==> before[j].0@ != name@,
    ensures
        get_in(before.insert(at, (name, value)), n) == (if n == name@ && get_in(before, n) is None {
            Some(value)
        } else {
            get_in(before, n)
        }),
{
    let after = before.insert(at, (name, value));
    if n == name@ {
        assert(after[at].0@ == n);
        let c = choose|i: int| 0 <= i < after.len() && after[i].0@ == n;
        if c != at {
            if c < at {
                lemma_lex_irreflexive(n);
                assert(lex_lt(after[c].0@, after[at].0@));
            } else {
                lemma_lex_irreflexive(n);
                assert(lex_lt(after[at].0@, after[c].0@));
            }
        }
        assert(!exists|i: int| 0 <= i < before.len() && before[i].0@ == n);
    } else {
        if exists|i: int| 0 <= i < before.len() && before[i].0@ == n {
            let cb = choose|i: int| 0 <= i < before.len() && before[i].0@ == n;
            let wa = if cb < at {
                cb
            } else {
                cb + 1
            };
            assert(after[wa] == before[cb]);
            let ca = choose|i: int| 0 <= i < after.len() && after[i].0@ == n;
            lemma_lex_irreflexive(n);
            if ca < wa {
                assert(lex_lt(after[ca].0@, after[wa].0@));
            } else if ca > wa {
                assert(lex_lt(after[wa].0@, after[ca].0@));
            }
        } else {
            if exists|i: int| 0 <= i < after.len() && after[i].0@ == n {
                let ca = choose|i: int| 0 <= i < after.len() && after[i].0@ == n;
                if ca < at {
                    assert(after[ca] == before[ca]);
                } else if ca > at {
                    assert(after[ca] == before[ca - 1]);
                }
            }
        }
    }
}

} // verus!
