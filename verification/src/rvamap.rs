//! A map keyed by RVA, kept sorted, for tables built once and searched by
//! address afterwards.
//!
//! Sorted from the start rather than hashed and sorted at the end: what is
//! asked of the table is the nearest key at or below an address, and vstd
//! says nothing of the order in which a `HashMap` is walked, so a table
//! sorted out of one could not be proved sorted.
use vstd::prelude::*;

verus! {

/// Entries keyed by RVA, strictly increasing.
pub struct RvaMap<V> {
    entries: Vec<(u32, V)>,
}

/// Strictly increasing keys.
pub open spec fn sorted_keys<V>(s: Seq<(u32, V)>) -> bool {
    forall|i: int, j: int| 0 <= i < j < s.len() ==> s[i].0 < s[j].0
}

/// The value a sorted entry list holds for `k`.
pub open spec fn lookup<V>(s: Seq<(u32, V)>, k: u32) -> Option<V> {
    if exists|i: int| 0 <= i < s.len() && s[i].0 == k {
        Some(s[choose|i: int| 0 <= i < s.len() && s[i].0 == k].1)
    } else {
        None
    }
}

/// The index of the last key at or below `k`, in a sorted list.
pub open spec fn floor_index<V>(s: Seq<(u32, V)>, k: u32) -> Option<int> {
    if exists|i: int| 0 <= i < s.len() && s[i].0 <= k {
        Some(
            choose|i: int|
                0 <= i < s.len() && #[trigger] s[i].0 <= k && forall|j: int| i < j < s.len() ==> s[j].0 > k,
        )
    } else {
        None
    }
}

pub proof fn lemma_lookup_at<V>(s: Seq<(u32, V)>, i: int)
    requires
        sorted_keys(s),
        0 <= i < s.len(),
    ensures
        lookup(s, s[i].0) == Some(s[i].1),
{
    let c = choose|j: int| 0 <= j < s.len() && s[j].0 == s[i].0;
    if c != i {
        if c < i {
            assert(s[c].0 < s[i].0);
        } else {
            assert(s[i].0 < s[c].0);
        }
    }
}

proof fn lemma_floor_at<V>(s: Seq<(u32, V)>, k: u32, i: int)
    requires
        sorted_keys(s),
        0 <= i < s.len(),
        s[i].0 <= k,
        forall|j: int| i < j < s.len() ==> s[j].0 > k,
    ensures
        floor_index(s, k) == Some(i),
{
    let c = choose|j: int|
        0 <= j < s.len() && #[trigger] s[j].0 <= k && forall|m: int| j < m < s.len() ==> s[m].0 > k;
    assert(0 <= c < s.len() && s[c].0 <= k && forall|m: int| c < m < s.len() ==> s[m].0 > k);
    if c < i {
        assert(s[i].0 > k);
    } else if c > i {
        assert(s[c].0 > k);
    }
}

/// In a sorted list, the floor of `k` is a key of the list, at or below
/// `k`, and no key lies above it and at or below `k`.
#[verifier::spinoff_prover]
pub proof fn lemma_floor_props<V>(s: Seq<(u32, V)>, k: u32)
    requires
        sorted_keys(s),
    ensures
        floor_index(s, k) matches Some(i) ==> 0 <= i < s.len() && s[i].0 <= k && lookup(s, s[i].0) == Some(s[i].1)
            && forall|j: int| 0 <= j < s.len() ==> !(s[i].0 < #[trigger] s[j].0 <= k),
        floor_index(s, k) is None ==> forall|j: int| 0 <= j < s.len() ==> #[trigger] s[j].0 > k,
{
    if exists|i: int| 0 <= i < s.len() && s[i].0 <= k {
        let i = lemma_last_at_or_below(s, k);
        lemma_floor_at(s, k, i);
        lemma_lookup_at(s, i);
        assert forall|j: int| 0 <= j < s.len() implies !(s[i].0 < #[trigger] s[j].0 <= k) by {
            if j < i {
                assert(s[j].0 < s[i].0);
            }
        }
    }
}

/// The last key at or below `k`, where there is one.
proof fn lemma_last_at_or_below<V>(s: Seq<(u32, V)>, k: u32) -> (i: int)
    requires
        exists|i: int| 0 <= i < s.len() && s[i].0 <= k,
    ensures
        0 <= i < s.len(),
        s[i].0 <= k,
        forall|j: int| i < j < s.len() ==> s[j].0 > k,
    decreases s.len(),
{
    let n = s.len() - 1;
    if s[n].0 <= k {
        n
    } else {
        let d = s.drop_last();
        let w = choose|i: int| 0 <= i < s.len() && s[i].0 <= k;
        assert(w < n);
        assert(d[w] == s[w]);
        let i = lemma_last_at_or_below(d, k);
        assert forall|j: int| i < j < s.len() implies s[j].0 > k by {
            if j < n {
                assert(d[j] == s[j]);
            }
        }
        assert(d[i] == s[i]);
        i
    }
}

impl<V> RvaMap<V> {
    pub closed spec fn spec_entries(&self) -> Seq<(u32, V)> {
        self.entries@
    }

    pub closed spec fn wf(&self) -> bool {
        sorted_keys(self.entries@)
    }

    /// A well-formed map's keys are strictly increasing.
    pub proof fn lemma_sorted(&self)
        requires
            self.wf(),
        ensures
            sorted_keys(self.spec_entries()),
    {
    }

    pub fn new() -> (m: RvaMap<V>)
        ensures
            m.wf(),
            m.spec_entries().len() == 0,
    {
        RvaMap { entries: Vec::new() }
    }

    pub fn len(&self) -> (n: usize)
        ensures
            n == self.spec_entries().len(),
    {
        self.entries.len()
    }

    /// How many keys are below `k`, and whether the next is `k`.
    fn search(&self, k: u32) -> (r: (usize, bool))
        requires
            self.wf(),
        ensures
            r.0 <= self.spec_entries().len(),
            forall|j: int| 0 <= j < r.0 ==> self.spec_entries()[j].0 < k,
            forall|j: int| r.0 <= j < self.spec_entries().len() ==> self.spec_entries()[j].0 >= k,
            r.1 <==> (r.0 < self.spec_entries().len() && self.spec_entries()[r.0 as int].0 == k),
    {
        let mut lo: usize = 0;
        let mut hi: usize = self.entries.len();
        while lo < hi
            invariant
                0 <= lo <= hi <= self.entries.len(),
                sorted_keys(self.entries@),
                forall|j: int| 0 <= j < lo ==> self.entries@[j].0 < k,
                forall|j: int| hi <= j < self.entries.len() ==> self.entries@[j].0 >= k,
            decreases hi - lo,
        {
            let mid = lo + (hi - lo) / 2;
            if self.entries[mid].0 < k {
                lo = mid + 1;
            } else {
                hi = mid;
            }
        }
        (lo, lo < self.entries.len() && self.entries[lo].0 == k)
    }

    /// The value for `k`.
    pub fn get(&self, k: u32) -> (r: Option<&V>)
        requires
            self.wf(),
        ensures
            match r {
                Some(v) => lookup(self.spec_entries(), k) == Some(*v),
                None => lookup(self.spec_entries(), k) is None,
            },
    {
        let (at, found) = self.search(k);
        if found {
            proof {
                lemma_lookup_at(self.entries@, at as int);
            }
            Some(&self.entries[at].1)
        } else {
            None
        }
    }

    /// The entry with the greatest key at or below `k`.
    pub fn floor(&self, k: u32) -> (r: Option<(u32, &V)>)
        requires
            self.wf(),
        ensures
            match floor_index(self.spec_entries(), k) {
                Some(i) => {
                    &&& 0 <= i < self.spec_entries().len()
                    &&& r matches Some((key, v)) && key == self.spec_entries()[i].0 && *v
                        == self.spec_entries()[i].1 && key <= k
                },
                None => r is None,
            },
    {
        let (at, found) = self.search(k);
        let i = if found {
            at
        } else if at == 0 {
            return None;
        } else {
            at - 1
        };
        proof {
            lemma_floor_at(self.entries@, k, i as int);
        }
        Some((self.entries[i].0, &self.entries[i].1))
    }

    /// Set the value for `k`, replacing any value it had.
    pub fn insert(&mut self, k: u32, v: V)
        requires
            old(self).wf(),
        ensures
            final(self).wf(),
            forall|x: u32| #[trigger] lookup(final(self).spec_entries(), x) == (if x == k {
                Some(v)
            } else {
                lookup(old(self).spec_entries(), x)
            }),
    {
        let (at, found) = self.search(k);
        let ghost before = self.entries@;
        if found {
            self.entries.set(at, (k, v));
            proof {
                let after = self.entries@;
                assert(after == before.update(at as int, (k, v)));
                assert forall|x: u32| #[trigger] lookup(after, x) == (if x == k {
                    Some(v)
                } else {
                    lookup(before, x)
                }) by {
                    if x == k {
                        lemma_lookup_at(after, at as int);
                    } else {
                        if exists|i: int| 0 <= i < before.len() && before[i].0 == x {
                            let c = choose|i: int| 0 <= i < before.len() && before[i].0 == x;
                            assert(c != at);
                            assert(after[c] == before[c]);
                            lemma_lookup_at(before, c);
                            lemma_lookup_at(after, c);
                        } else {
                            if exists|i: int| 0 <= i < after.len() && after[i].0 == x {
                                let c = choose|i: int| 0 <= i < after.len() && after[i].0 == x;
                                assert(after[c] == before[c]);
                            }
                        }
                    }
                }
            }
        } else {
            self.entries.insert(at, (k, v));
            proof {
                let after = self.entries@;
                assert(after == before.insert(at as int, (k, v)));
                assert forall|i: int, j: int| 0 <= i < j < after.len() implies after[i].0 < after[j].0 by {
                    if j < at {
                        assert(after[i] == before[i] && after[j] == before[j]);
                    } else if j == at {
                        assert(after[i] == before[i]);
                    } else if i == at {
                        assert(after[j] == before[j - 1]);
                        assert(before[at as int].0 >= k);
                        assert(before[at as int].0 != k);
                    } else if i < at {
                        assert(after[i] == before[i] && after[j] == before[j - 1]);
                    } else {
                        assert(after[i] == before[i - 1] && after[j] == before[j - 1]);
                    }
                }
                assert forall|x: u32| #[trigger] lookup(after, x) == (if x == k {
                    Some(v)
                } else {
                    lookup(before, x)
                }) by {
                    if x == k {
                        lemma_lookup_at(after, at as int);
                    } else {
                        if exists|i: int| 0 <= i < before.len() && before[i].0 == x {
                            let c = choose|i: int| 0 <= i < before.len() && before[i].0 == x;
                            let w = if c < at {
                                c
                            } else {
                                c + 1
                            };
                            assert(after[w] == before[c]);
                            lemma_lookup_at(before, c);
                            lemma_lookup_at(after, w);
                        } else {
                            if exists|i: int| 0 <= i < after.len() && after[i].0 == x {
                                let c = choose|i: int| 0 <= i < after.len() && after[i].0 == x;
                                if c < at {
                                    assert(after[c] == before[c]);
                                } else if c > at {
                                    assert(after[c] == before[c - 1]);
                                }
                            }
                        }
                    }
                }
            }
        }
    }
}

} // verus!
