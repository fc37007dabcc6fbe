//! Every module in the process, and the unwind data each one carries.
//!
//! A profiler that can only unwind the game's own image stops at the first
//! frame belonging to Windows. So every loaded module's exception directory is
//! found once, and a stack can be walked *through* `ntdll` and `d3d11` back
//! into the game code that was waiting.
//!
//! Here are the modules as values, kept sorted by base address, and the
//! lookups made on them. Enumerating the process is the embedding's business.
use vstd::prelude::*;
use vstd::multiset::Multiset;

use crate::probe::{answer, get_answer, Access, Step};
use crate::text::{hex_addr, push_hex_addr, push_str};

verus! {

/// One loaded module.
pub struct Mod {
    pub base: usize,
    pub size: usize,
    /// File name only, lowercased: `"ntdll.dll"`.
    pub name: String,
    /// Live address of the `RUNTIME_FUNCTION` array, and how many entries it
    /// has; zero entries for a module with no exception directory.
    pub pdata: usize,
    pub entries: usize,
}

impl Mod {
    /// Whether `addr` lies in `[base, base + size)`.
    pub open spec fn spec_contains(&self, addr: usize) -> bool {
        addr >= self.base && addr < self.base + self.size
    }

    pub fn contains(&self, addr: usize) -> (r: bool)
        ensures
            r == self.spec_contains(addr),
    {
        addr >= self.base && addr - self.base < self.size
    }
}

/// Every module, sorted by base address.
pub struct Modules {
    mods: Vec<Mod>,
}

/// Sorted by base address.
pub open spec fn sorted_by_base(s: Seq<Mod>) -> bool {
    forall|i: int, j: int| 0 <= i < j < s.len() ==> s[i].base <= s[j].base
}

impl Modules {
    pub closed spec fn spec_mods(&self) -> Seq<Mod> {
        self.mods@
    }

    pub closed spec fn wf(&self) -> bool {
        sorted_by_base(self.mods@)
    }

    /// The module a lookup of `addr` settles on: the last, in base order, of
    /// those starting at or below it.
    pub open spec fn candidate(&self, addr: usize) -> Option<int> {
        let s = self.spec_mods();
        if exists|i: int| 0 <= i < s.len() && s[i].base <= addr {
            Some(
                choose|i: int|
                    0 <= i < s.len() && s[i].base <= addr && forall|j: int|
                        i < j < s.len() ==> s[j].base > addr,
            )
        } else {
            None
        }
    }

    /// The modules, sorted by base address; modules with equal bases keep
    /// their order.
    pub fn from_mods(mods: Vec<Mod>) -> (m: Modules)
        ensures
            m.wf(),
            m.spec_mods().to_multiset() == mods@.to_multiset(),
            m.spec_mods().len() == mods@.len(),
    {
        let mut out: Vec<Mod> = Vec::new();
        let mut rest = mods;
        let ghost all = rest@;
        // take from the back, inserting each after every module with a base no
        // greater than its own
        let mut k: usize = rest.len();
        proof {
            out@.to_multiset_ensures();
            assert(out@.to_multiset().len() == 0);
            assert(out@.to_multiset() =~= Multiset::empty());
            assert(out@.to_multiset().add(rest@.to_multiset()) =~= rest@.to_multiset());
        }
        while k > 0
            invariant
                k == rest.len(),
                sorted_by_base(out@),
                out@.to_multiset().add(rest@.to_multiset()) == all.to_multiset(),
                out@.len() + rest@.len() == all.len(),
            decreases k,
        {
            let ghost rest_before = rest@;
            let m = rest.pop().unwrap();
            let ghost before = out@;
            let mut at: usize = 0;
            while at < out.len() && out[at].base < m.base
                invariant
                    0 <= at <= out.len(),
                    out@ == before,
                    forall|j: int| 0 <= j < at ==> out@[j].base < m.base,
                decreases out.len() - at,
            {
                at = at + 1;
            }
            out.insert(at, m);
            proof {
                assert(out@ == before.insert(at as int, m));
                assert forall|i: int, j: int| 0 <= i < j < out@.len() implies out@[i].base <= out@[j].base by {
                    if j < at {
                        assert(out@[i] == before[i] && out@[j] == before[j]);
                    } else if j == at {
                        assert(out@[i] == before[i]);
                    } else if i == at {
                        assert(out@[j] == before[j - 1]);
                        if at < before.len() {
                            assert(before[at as int].base >= m.base);
                            assert(before[at as int].base <= before[j - 1].base);
                        }
                    } else if i < at {
                        assert(out@[i] == before[i] && out@[j] == before[j - 1]);
                    } else {
                        assert(out@[i] == before[i - 1] && out@[j] == before[j - 1]);
                    }
                }
                vstd::seq_lib::to_multiset_insert(before, at as int, m);
                assert(rest_before =~= rest@.push(m));
                rest@.to_multiset_ensures();
                assert(out@.to_multiset().add(rest@.to_multiset()) =~= all.to_multiset());
            }
            k = k - 1;
        }
        proof {
            rest@.to_multiset_ensures();
            assert(rest@.to_multiset() =~= Multiset::empty());
            assert(out@.to_multiset() =~= all.to_multiset());
        }
        Modules { mods: out }
    }

    pub fn len(&self) -> (n: usize)
        ensures
            n == self.spec_mods().len(),
    {
        self.mods.len()
    }

    pub fn is_empty(&self) -> (b: bool)
        ensures
            b == (self.spec_mods().len() == 0),
    {
        self.mods.len() == 0
    }

    pub fn all(&self) -> (s: &[Mod])
        ensures
            s@ == self.spec_mods(),
    {
        self.mods.as_slice()
    }

    /// The module containing `addr`: the last one starting at or below it,
    /// if that one reaches it.
    pub fn find(&self, addr: usize) -> (r: Option<&Mod>)
        requires
            self.wf(),
        ensures
            match self.candidate(addr) {
                Some(i) => if self.spec_mods()[i].spec_contains(addr) {
                    r == Some(&self.spec_mods()[i])
                } else {
                    r is None
                },
                None => r is None,
            },
    {
        let s = &self.mods;
        let mut lo: usize = 0;
        let mut hi: usize = s.len();
        while lo < hi
            invariant
                0 <= lo <= hi <= s.len(),
                sorted_by_base(s@),
                forall|j: int| 0 <= j < lo ==> s@[j].base <= addr,
                forall|j: int| hi <= j < s.len() ==> s@[j].base > addr,
            decreases hi - lo,
        {
            let mid = lo + (hi - lo) / 2;
            if s[mid].base <= addr {
                lo = mid + 1;
            } else {
                hi = mid;
            }
        }
        if lo == 0 {
            assert(forall|j: int| 0 <= j < s.len() ==> s@[j].base > addr);
            return None;
        }
        let i = lo - 1;
        proof {
            assert(s@[i as int].base <= addr && forall|j: int| i < j < s@.len() ==> s@[j].base > addr);
            let c = choose|c: int|
                0 <= c < s@.len() && s@[c].base <= addr && forall|j: int| c < j < s@.len() ==> s@[j].base > addr;
            assert(0 <= c < s@.len() && s@[c].base <= addr);
            if c < i {
                assert(s@[i as int].base <= addr);
            } else if c > i {
                assert(s@[c].base > addr);
            }
        }
        if s[i].contains(addr) {
            Some(&s[i])
        } else {
            None
        }
    }

    /// `"ntdll.dll+0x1a2b3"`, for a frame with no better name; the address
    /// itself when it lies in no module.
    pub fn describe(&self, addr: usize) -> (d: String)
        requires
            self.wf(),
        ensures
            match self.candidate(addr) {
                Some(i) if self.spec_mods()[i].spec_contains(addr) => d@ == self.spec_mods()[i].name@
                    + "+"@ + hex_addr((addr - self.spec_mods()[i].base) as nat),
                _ => d@ == "<unmapped "@ + hex_addr(addr as nat) + ">"@,
            },
    {
        let mut d = String::new();
        match self.find(addr) {
            Some(m) => {
                push_str(&mut d, m.name.as_str());
                push_str(&mut d, "+");
                push_hex_addr(&mut d, (addr - m.base) as u64);
            },
            None => {
                push_str(&mut d, "<unmapped ");
                push_hex_addr(&mut d, addr as u64);
                push_str(&mut d, ">");
            },
        }
        d
    }

    /// Just the module name, for grouping samples.
    pub fn name_of(&self, addr: usize) -> (n: String)
        requires
            self.wf(),
        ensures
            match self.candidate(addr) {
                Some(i) if self.spec_mods()[i].spec_contains(addr) => n@ == self.spec_mods()[i].name@,
                _ => n@ == "<unmapped>"@,
            },
    {
        match self.find(addr) {
            Some(m) => m.name.clone(),
            None => "<unmapped>".to_owned(),
        }
    }
}

/// Bytes in one `RUNTIME_FUNCTION` record: begin, end and unwind-info RVAs.
pub const SIZE_OF_RUNTIME_FUNCTION: usize = 12;

/// The begin RVA of a record, from its first eight bytes read little-endian.
pub open spec fn entry_begin(w: u64) -> u32 {
    (w % 0x1_0000_0000) as u32
}

/// The end RVA of a record, from its first eight bytes read little-endian.
pub open spec fn entry_end(w: u64) -> u32 {
    (w / 0x1_0000_0000) as u32
}

/// Where record `i` of a table at `pdata` lies.
pub open spec fn record_at(pdata: usize, i: int) -> int {
    pdata + i * SIZE_OF_RUNTIME_FUNCTION
}

/// A binary search of a module's `RUNTIME_FUNCTION` table, read in place.
#[derive(Debug, Clone, Copy, PartialEq, Eq, Structural)]
pub struct SearchView {
    pub base: usize,
    pub pdata: usize,
    pub rva: u32,
    pub lo: usize,
    pub hi: usize,
    pub found: Option<usize>,
}

/// The record a search looks at next.
pub open spec fn search_mid(v: SearchView) -> int {
    (v.lo + v.hi) / 2
}

/// Whether a search still has somewhere to look.
pub open spec fn searching(v: SearchView) -> bool {
    v.found is None && v.lo < v.hi
}

/// A search whose records all lie in the address space.
pub open spec fn search_wf(v: SearchView) -> bool {
    v.lo <= v.hi && record_at(v.pdata, v.hi as int) <= usize::MAX
}

/// What the search reads next: the begin and end of the middle record, as
/// one eight-byte word; nothing once it has found or run out.
pub open spec fn search_ask(v: SearchView) -> Option<Access> {
    if searching(v) {
        Some(Access::Value(record_at(v.pdata, search_mid(v)) as usize, 8))
    } else {
        None
    }
}

/// The search after the answer `a`: below a record that begins past the
/// RVA, above one that ends at or before it, and found at one that holds
/// it. A record that cannot be read ends the search with nothing.
pub open spec fn search_feed(v: SearchView, a: Option<u64>) -> SearchView {
    if !searching(v) {
        v
    } else {
        let mid = search_mid(v);
        match a {
            None => SearchView { hi: v.lo, ..v },
            Some(w) => if v.rva < entry_begin(w) {
                SearchView { hi: mid as usize, ..v }
            } else if v.rva >= entry_end(w) {
                SearchView { lo: (mid + 1) as usize, ..v }
            } else {
                SearchView { found: Some(record_at(v.pdata, mid) as usize), ..v }
            },
        }
    }
}

/// What a finished search gives: the image base and the record that holds
/// the RVA, if one was found.
pub open spec fn search_result(v: SearchView) -> Option<(usize, usize)> {
    match v.found {
        Some(at) => Some((v.base, at)),
        None => None,
    }
}

/// A lookup of the `RUNTIME_FUNCTION` record covering an address, reading
/// the table in place: no allocation, so it can run while another thread
/// is suspended.
///
/// Ask it what to read, read it, feed it the answer, until it asks nothing
/// more; then take its result.
pub struct EntrySearch {
    base: usize,
    pdata: usize,
    rva: u32,
    lo: usize,
    hi: usize,
    found: Option<usize>,
}

impl View for EntrySearch {
    type V = SearchView;

    closed spec fn view(&self) -> SearchView {
        SearchView {
            base: self.base,
            pdata: self.pdata,
            rva: self.rva,
            lo: self.lo,
            hi: self.hi,
            found: self.found,
        }
    }
}

fn low_half(w: u64) -> (r: u32)
    ensures
        r == entry_begin(w),
{
    (w % 0x1_0000_0000) as u32
}

fn high_half(w: u64) -> (r: u32)
    ensures
        r == entry_end(w),
{
    (w / 0x1_0000_0000) as u32
}

impl EntrySearch {
    /// What to read next, if anything.
    pub fn ask(&self) -> (r: Option<Access>)
        requires
            search_wf(self@),
        ensures
            r == search_ask(self@),
    {
        if self.found.is_none() && self.lo < self.hi {
            let mid = self.lo + (self.hi - self.lo) / 2;
            assert(mid == search_mid(self@));
            Some(Access::Value(self.pdata + mid * SIZE_OF_RUNTIME_FUNCTION, 8))
        } else {
            None
        }
    }

    /// Take the answer to what was asked.
    pub fn feed(&mut self, a: Option<u64>)
        requires
            search_wf(old(self)@),
        ensures
            final(self)@ == search_feed(old(self)@, a),
            search_wf(final(self)@),
    {
        if self.found.is_none() && self.lo < self.hi {
            let mid = self.lo + (self.hi - self.lo) / 2;
            assert(mid == search_mid(self@));
            match a {
                None => {
                    self.hi = self.lo;
                },
                Some(w) => {
                    if self.rva < low_half(w) {
                        self.hi = mid;
                    } else if self.rva >= high_half(w) {
                        self.lo = mid + 1;
                    } else {
                        self.found = Some(self.pdata + mid * SIZE_OF_RUNTIME_FUNCTION);
                    }
                },
            }
        }
    }

    /// The image base and the record holding the address, once the search
    /// has stopped asking.
    pub fn result(&self) -> (r: Option<(usize, usize)>)
        ensures
            r == search_result(self@),
    {
        match self.found {
            Some(at) => Some((self.base, at)),
            None => None,
        }
    }
}

impl Modules {
    /// The module holding `addr`, as [`Modules::find`] settles it.
    pub open spec fn holder(&self, addr: usize) -> Option<Mod> {
        match self.candidate(addr) {
            Some(i) => if self.spec_mods()[i].spec_contains(addr) {
                Some(self.spec_mods()[i])
            } else {
                None
            },
            None => None,
        }
    }

    /// Start looking up the `RUNTIME_FUNCTION` record for the function
    /// containing `addr`. `None` when no module holds it, or its module has
    /// no exception directory (or one that would run off the end of the
    /// address space); a leaf function then has no record either, and the
    /// search ends with nothing.
    pub fn entry_search(&self, addr: usize) -> (r: Option<EntrySearch>)
        requires
            self.wf(),
        ensures
            match self.holder(addr) {
                Some(m) => if m.entries == 0 || record_at(m.pdata, m.entries as int) > usize::MAX {
                    r is None
                } else {
                    r matches Some(s) && s@ == SearchView {
                        base: m.base,
                        pdata: m.pdata,
                        rva: (addr - m.base) as u32,
                        lo: 0,
                        hi: m.entries,
                        found: None,
                    }
                },
                None => r is None,
            },
            r matches Some(s) ==> search_wf(s@),
    {
        match self.find(addr) {
            None => None,
            Some(m) => {
                if m.entries == 0 || m.entries > (usize::MAX - m.pdata) / SIZE_OF_RUNTIME_FUNCTION {
                    proof {
                        if m.entries > 0 {
                            let e = m.entries as int;
                            let q = (usize::MAX - m.pdata) as int / 12;
                            assert(e >= q + 1);
                            assert(usize::MAX - m.pdata < 12 * (q + 1));
                            assert(e * 12 >= (q + 1) * 12) by (nonlinear_arith)
                                requires e >= q + 1;
                        }
                    }
                    None
                } else {
                    proof {
                        let e = m.entries as int;
                        let q = (usize::MAX - m.pdata) as int / 12;
                        assert(e * 12 <= q * 12) by (nonlinear_arith)
                            requires e <= q;
                        assert(q * 12 <= usize::MAX - m.pdata);
                    }
                    #[verifier::truncate]
                    let rva = (addr - m.base) as u32;
                    Some(EntrySearch { base: m.base, pdata: m.pdata, rva, lo: 0, hi: m.entries, found: None })
                }
            },
        }
    }
}

/// A `RUNTIME_FUNCTION` table as values: the begin and end RVA of each
/// record, in order.
pub open spec fn table_sorted(t: Seq<(u32, u32)>) -> bool {
    &&& forall|i: int| 0 <= i < t.len() ==> (#[trigger] t[i]).0 < t[i].1
    &&& forall|i: int, j: int| 0 <= i < j < t.len() ==> (#[trigger] t[i]).1 <= (#[trigger] t[j]).0
}

/// Whether record `r` covers `rva`.
pub open spec fn covers_rva(r: (u32, u32), rva: u32) -> bool {
    r.0 <= rva < r.1
}

/// What the search knows of a table: the records outside `[lo, hi)` do not
/// cover its RVA, and a record it found does.
pub open spec fn search_sound(v: SearchView, t: Seq<(u32, u32)>) -> bool {
    &&& v.hi <= t.len()
    &&& forall|i: int| 0 <= i < t.len() && covers_rva(#[trigger] t[i], v.rva) ==> v.lo <= i < v.hi
    &&& (v.found matches Some(at) ==> exists|i: int|
        0 <= i < t.len() && record_at(v.pdata, i) == at && covers_rva(#[trigger] t[i], v.rva))
}

/// A truthful answer to what the search asks, over the table `t`: the
/// record it asked for, read.
pub open spec fn truthful(v: SearchView, t: Seq<(u32, u32)>, a: Option<u64>) -> bool {
    a matches Some(w) && 0 <= search_mid(v) < t.len() && entry_begin(w) == t[search_mid(v)].0
        && entry_end(w) == t[search_mid(v)].1
}

/// Each step of the search keeps what it knows of a sorted table, and
/// narrows the range or stops: the search ends within one step more than
/// there are records, and never passes over a record that covers its RVA.
pub proof fn lemma_search_step(v: SearchView, t: Seq<(u32, u32)>, a: Option<u64>)
    requires
        search_wf(v),
        table_sorted(t),
        search_sound(v, t),
        searching(v),
        truthful(v, t, a),
    ensures
        search_wf(search_feed(v, a)),
        search_sound(search_feed(v, a), t),
        !searching(search_feed(v, a)) || search_feed(v, a).hi - search_feed(v, a).lo < v.hi - v.lo,
{
    let mid = search_mid(v);
    if let Some(w) = a {
        let r = t[mid];
        if v.rva < entry_begin(w) {
            assert forall|i: int| 0 <= i < t.len() && covers_rva(#[trigger] t[i], v.rva) implies v.lo <= i < mid by {
                if i >= mid && i != mid {
                    assert(t[mid].1 <= t[i].0);
                }
            }
        } else if v.rva >= entry_end(w) {
            assert forall|i: int| 0 <= i < t.len() && covers_rva(#[trigger] t[i], v.rva) implies mid < i < v.hi by {
                if i < mid {
                    assert(t[i].1 <= t[mid].0);
                }
            }
        } else {
            assert(covers_rva(t[mid], v.rva));
            assert(record_at(v.pdata, mid) <= record_at(v.pdata, v.hi as int)) by (nonlinear_arith)
                requires mid <= v.hi;
            let at = record_at(v.pdata, mid) as usize;
            assert(search_feed(v, a).found == Some(at));
            assert(record_at(v.pdata, mid) == at);
            assert(0 <= mid < t.len() && record_at(v.pdata, mid) == at && covers_rva(t[mid], v.rva));
        }
    }
}

/// A search that stops without finding anything has looked everywhere a
/// record could cover its RVA -- unless a read failed -- so when every read
/// succeeds, no record covers it.
pub proof fn lemma_search_none_means_uncovered(v: SearchView, t: Seq<(u32, u32)>)
    requires
        search_sound(v, t),
        !searching(v),
        v.found is None,
    ensures
        forall|i: int| 0 <= i < t.len() ==> !covers_rva(#[trigger] t[i], v.rva),
{
}

/// Locating a mapped module's exception directory, given the answers so
/// far: `(live address, record count)`, or `(0, 0)` for a module whose
/// headers do not lead to one.
///
/// It reads the `MZ` mark, the offset of the PE headers, the `PE` mark, the
/// optional header's magic (`PE32+`, so x86-64), then the RVA and size of
/// data directory 3, the exception table. Every offset is checked against
/// the module's own size first, so odd headers give `(0, 0)` -- not unwound
/// through -- never a wild read.
pub open spec fn spec_exception_directory(base: usize, size: usize, a: Seq<Option<u64>>) -> Step<(usize, usize)> {
    if size < 0x1000 {
        Step::Done((0, 0))
    } else {
        match answer(a, 0) {
            None => Step::Ask(Access::Value(base, 2)),
            Some(None) => Step::Done((0, 0)),
            Some(Some(mz)) => if mz != 0x5A4D {
                Step::Done((0, 0))
            } else {
                match answer(a, 1) {
                    None => Step::Ask(Access::Value((base + 0x3C) as usize, 4)),
                    Some(None) => Step::Done((0, 0)),
                    Some(Some(peo)) => if peo + 0x108 >= size {
                        Step::Done((0, 0))
                    } else {
                        match answer(a, 2) {
                            None => Step::Ask(Access::Value((base + peo) as usize, 4)),
                            Some(None) => Step::Done((0, 0)),
                            Some(Some(sig)) => if sig != 0x4550 {
                                Step::Done((0, 0))
                            } else {
                                match answer(a, 3) {
                                    None => Step::Ask(Access::Value((base + peo + 24) as usize, 2)),
                                    Some(None) => Step::Done((0, 0)),
                                    Some(Some(magic)) => if magic != 0x20B {
                                        Step::Done((0, 0))
                                    } else {
                                        match answer(a, 4) {
                                            None => Step::Ask(Access::Value((base + peo + 160) as usize, 4)),
                                            Some(None) => Step::Done((0, 0)),
                                            Some(Some(rva)) => match answer(a, 5) {
                                                None => Step::Ask(Access::Value((base + peo + 164) as usize, 4)),
                                                Some(None) => Step::Done((0, 0)),
                                                Some(Some(bytes)) => if rva == 0 || bytes < 12 || rva + bytes > size {
                                                    Step::Done((0, 0))
                                                } else {
                                                    Step::Done(((base + rva) as usize, (bytes / 12) as usize))
                                                },
                                            },
                                        }
                                    },
                                }
                            },
                        }
                    },
                }
            },
        }
    }
}

/// [`spec_exception_directory`], for the module mapped at `base` with
/// `size` bytes, which lie in the address space.
pub fn exception_directory(base: usize, size: usize, answers: &[Option<u64>]) -> (r: Step<(usize, usize)>)
    requires
        base + size <= usize::MAX,
    ensures
        r == spec_exception_directory(base, size, answers@),
{
    if size < 0x1000 {
        return Step::Done((0, 0));
    }
    let mz = match get_answer(answers, 0) {
        None => return Step::Ask(Access::Value(base, 2)),
        Some(None) => return Step::Done((0, 0)),
        Some(Some(v)) => v,
    };
    if mz != 0x5A4D {
        return Step::Done((0, 0));
    }
    let peo = match get_answer(answers, 1) {
        None => return Step::Ask(Access::Value(base + 0x3C, 4)),
        Some(None) => return Step::Done((0, 0)),
        Some(Some(v)) => v,
    };
    if peo >= size as u64 || size as u64 - peo <= 0x108 {
        return Step::Done((0, 0));
    }
    let peo = peo as usize;
    let sig = match get_answer(answers, 2) {
        None => return Step::Ask(Access::Value(base + peo, 4)),
        Some(None) => return Step::Done((0, 0)),
        Some(Some(v)) => v,
    };
    if sig != 0x4550 {
        return Step::Done((0, 0));
    }
    let magic = match get_answer(answers, 3) {
        None => return Step::Ask(Access::Value(base + peo + 24, 2)),
        Some(None) => return Step::Done((0, 0)),
        Some(Some(v)) => v,
    };
    if magic != 0x20B {
        return Step::Done((0, 0));
    }
    let rva = match get_answer(answers, 4) {
        None => return Step::Ask(Access::Value(base + peo + 160, 4)),
        Some(None) => return Step::Done((0, 0)),
        Some(Some(v)) => v,
    };
    let bytes = match get_answer(answers, 5) {
        None => return Step::Ask(Access::Value(base + peo + 164, 4)),
        Some(None) => return Step::Done((0, 0)),
        Some(Some(v)) => v,
    };
    if rva == 0 || bytes < 12 || rva > size as u64 || bytes > size as u64 - rva {
        return Step::Done((0, 0));
    }
    Step::Done((base + rva as usize, (bytes / 12) as usize))
}

} // verus!
