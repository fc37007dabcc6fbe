//! The arithmetic side of the slice of Win32 the mod needs: wide strings, and
//! the validated-region cache that keeps memory checks cheap.
//!
//! `VirtualQuery` is a kernel transition, and checking it per read made the
//! game unplayable: a single survey pass did tens of thousands of them. Reads
//! cluster into a handful of regions, so remembering them collapses that to a
//! few calls. The cache is only sound because the mod runs on the **game's own
//! thread**, and it is flushed at the start of every poll.
use vstd::prelude::*;

use crate::claim::lemma_utf16_concat;
use crate::text::{
    decode_utf16_lossy, is_high_surrogate, is_low_surrogate, pair_value, push_utf16, utf16,
    utf16_char, utf16_lossy,
};

verus! {

/// A NUL-terminated UTF-16 copy of `s`, for the `*W` entry points.
pub fn wide(s: &str) -> (w: Vec<u16>)
    ensures
        w@ == utf16(s@).push(0),
{
    let mut w: Vec<u16> = Vec::new();
    push_utf16(&mut w, s);
    w.push(0);
    w
}

/// Where a NUL-terminated buffer ends: at its first NUL, or its length.
pub open spec fn wide_end(buf: Seq<u16>) -> int {
    if exists|i: int| 0 <= i < buf.len() && buf[i] == 0 {
        choose|i: int| 0 <= i < buf.len() && buf[i] == 0 && forall|j: int| 0 <= j < i ==> buf[j] != 0
    } else {
        buf.len() as int
    }
}

/// A wide buffer back to a string, up to its first NUL, with anything that is
/// not valid UTF-16 replaced.
pub fn from_wide(buf: &[u16]) -> (s: String)
    ensures
        s@ == utf16_lossy(buf@.take(wide_end(buf@))),
{
    let mut end: usize = 0;
    while end < buf.len() && buf[end] != 0
        invariant
            0 <= end <= buf.len(),
            forall|j: int| 0 <= j < end ==> buf@[j] != 0,
        decreases buf.len() - end,
    {
        end = end + 1;
    }
    proof {
        if end < buf.len() {
            let k = choose|i: int|
                0 <= i < buf@.len() && buf@[i] == 0 && forall|j: int| 0 <= j < i ==> buf@[j] != 0;
            assert(buf@[end as int] == 0);
            if k < end {
                assert(buf@[k] != 0);
            } else if k > end {
                assert(buf@[end as int] != 0);
            }
        }
    }
    let mut part: Vec<u16> = Vec::new();
    let mut i: usize = 0;
    while i < end
        invariant
            0 <= i <= end <= buf.len(),
            part@ == buf@.take(i as int),
        decreases end - i,
    {
        part.push(buf[i]);
        assert(buf@.take(i + 1) =~= buf@.take(i as int).push(buf@[i as int]));
        i = i + 1;
    }
    decode_utf16_lossy(part.as_slice())
}

/// One character's units decode back to it, whatever follows them.
#[verifier::spinoff_prover]
#[verifier::rlimit(40)]
proof fn lemma_char_round_trip(c: char, rest: Seq<u16>)
    ensures
        utf16_lossy(utf16_char(c) + rest) == seq![c] + utf16_lossy(rest),
{
    let x = c as u32;
    let u = utf16_char(c) + rest;
    if x < 0x1_0000 {
        let v = x as u16;
        assert(v as int == x as int);
        assert(!(0xD800 <= x < 0xE000));
        assert(u[0] == v);
        assert(u.drop_first() =~= rest);
        assert((v as char) == c);
    } else {
        let y = x - 0x1_0000;
        assert(x <= 0x10FFFF);
        let hi = (0xD800 + y / 0x400) as u16;
        let lo = (0xDC00 + y % 0x400) as u16;
        assert(hi as int == 0xD800 + y / 0x400);
        assert(lo as int == 0xDC00 + y % 0x400);
        assert(u[0] == hi && u[1] == lo);
        assert(is_high_surrogate(hi) && is_low_surrogate(lo));
        assert(y == (y / 0x400) * 0x400 + y % 0x400);
        assert(pair_value(hi, lo) == x);
        assert(u.subrange(2, u.len() as int) =~= rest);
        assert((x as char) == c);
    }
}

/// Encoding to UTF-16 and decoding again gives back the text.
pub proof fn lemma_utf16_round_trip(s: Seq<char>)
    ensures
        utf16_lossy(utf16(s)) == s,
    decreases s.len(),
{
    if s.len() > 0 {
        let c = s[0];
        let t = s.drop_first();
        assert(s =~= seq![c] + t);
        lemma_utf16_concat(seq![c], t);
        let one: Seq<char> = seq![c];
        assert(one.drop_last() =~= Seq::<char>::empty());
        assert(one.last() == c);
        assert(utf16(Seq::<char>::empty()) =~= Seq::<u16>::empty());
        assert(utf16(one) == utf16(one.drop_last()) + utf16_char(one.last()));
        assert(utf16(one) =~= utf16_char(c));
        lemma_char_round_trip(c, utf16(t));
        lemma_utf16_round_trip(t);
    }
}

proof fn lemma_char_units_nonzero(c: char)
    requires
        c != '\0',
    ensures
        forall|i: int| 0 <= i < utf16_char(c).len() ==> #[trigger] utf16_char(c)[i] != 0,
{
    let x = c as u32;
    assert((x as char) == c);
    let z: char = '\0';
    assert(z as u32 == 0);
    assert(x != 0) by {
        if x == 0 {
            assert((0u32 as char) == z);
        }
    }
    if x < 0x1_0000 {
        assert((x as u16) as int == x as int);
    }
}

/// The units of a text without NUL hold no 0.
proof fn lemma_utf16_no_nul(s: Seq<char>)
    requires
        !s.contains('\0'),
    ensures
        forall|i: int| 0 <= i < utf16(s).len() ==> #[trigger] utf16(s)[i] != 0,
    decreases s.len(),
{
    if s.len() > 0 {
        let d = s.drop_last();
        assert(!d.contains('\0')) by {
            assert forall|j: int| 0 <= j < d.len() implies d[j] != '\0' by {
                assert(d[j] == s[j]);
            }
        }
        lemma_utf16_no_nul(d);
        let c = s.last();
        assert(c != '\0');
        lemma_char_units_nonzero(c);
        assert forall|i: int| 0 <= i < utf16(s).len() implies #[trigger] utf16(s)[i] != 0 by {
            if i < utf16(d).len() {
                assert(utf16(s)[i] == utf16(d)[i]);
            } else {
                assert(utf16(s)[i] == utf16_char(c)[i - utf16(d).len()]);
            }
        }
    }
}

/// A text without NUL survives the trip through a wide buffer: what
/// [`wide`] writes, [`from_wide`] reads back.
pub proof fn lemma_wide_round_trip(s: Seq<char>)
    requires
        !s.contains('\0'),
    ensures
        ({
            let w = utf16(s).push(0);
            utf16_lossy(w.take(wide_end(w))) == s
        }),
{
    let u = utf16(s);
    let w = u.push(0);
    lemma_utf16_no_nul(s);
    assert(w[u.len() as int] == 0);
    let k = choose|i: int| 0 <= i < w.len() && w[i] == 0 && forall|j: int| 0 <= j < i ==> w[j] != 0;
    assert(k == u.len()) by {
        if k < u.len() {
            assert(w[k] == u[k]);
        }
    }
    assert(w.take(u.len() as int) =~= u);
    lemma_utf16_round_trip(s);
}

/// How many regions the cache remembers besides the last one.
pub const SLOTS: usize = 96;

/// The validated-region cache.
pub struct RegionCache {
    slots: Vec<(usize, usize)>,
    next: usize,
    last: (usize, usize),
}

/// `addr + len`, stopping at the top of the address space.
pub open spec fn saturating_end(addr: usize, len: usize) -> usize {
    if addr + len > usize::MAX {
        usize::MAX
    } else {
        (addr + len) as usize
    }
}

/// Whether a remembered region `r` holds the bytes `[addr, end)`; an empty
/// region holds nothing.
pub open spec fn covers(r: (usize, usize), addr: usize, end: usize) -> bool {
    r.0 != r.1 && addr >= r.0 && end <= r.1
}

impl RegionCache {
    pub closed spec fn spec_last(&self) -> (usize, usize) {
        self.last
    }

    pub closed spec fn spec_slots(&self) -> Seq<(usize, usize)> {
        self.slots@
    }

    /// The slot the next region goes into.
    pub closed spec fn spec_next(&self) -> usize {
        self.next
    }

    /// Every slot is there, the next one to fill is one of them, and the
    /// fast-path region is one the slots hold (or holds nothing).
    pub closed spec fn wf(&self) -> bool {
        &&& self.slots.len() == SLOTS
        &&& self.next < SLOTS
        &&& (self.last.0 == self.last.1 || exists|i: int|
            0 <= i < SLOTS && #[trigger] self.slots@[i] == self.last)
    }

    /// The cache after remembering `[lo, hi)`: it becomes the fast-path
    /// region and overwrites the oldest slot, so the last `SLOTS` regions
    /// remembered are all kept.
    pub open spec fn remembers(&self, before: &RegionCache, lo: usize, hi: usize) -> bool {
        &&& self.spec_last() == (lo, hi)
        &&& self.spec_slots() == before.spec_slots().update(before.spec_next() as int, (lo, hi))
        &&& self.spec_next() == (if before.spec_next() + 1 == SLOTS {
            0
        } else {
            before.spec_next() + 1
        })
    }

    /// The same ranges covered as `other`.
    pub open spec fn covers_as(&self, other: &RegionCache) -> bool {
        forall|addr: usize, len: usize| #[trigger] self.spec_contains(addr, len) == other.spec_contains(addr, len)
    }

    /// Whether some remembered region holds `[addr, addr + len)`.
    pub open spec fn spec_contains(&self, addr: usize, len: usize) -> bool {
        let end = saturating_end(addr, len);
        covers(self.spec_last(), addr, end) || exists|i: int|
            0 <= i < self.spec_slots().len() && covers(#[trigger] self.spec_slots()[i], addr, end)
    }

    /// Whether nothing at all is remembered.
    pub open spec fn spec_is_empty(&self) -> bool {
        forall|addr: usize, len: usize| !self.spec_contains(addr, len)
    }

    /// An empty cache.
    pub fn new() -> (c: RegionCache)
        ensures
            c.wf(),
            c.spec_is_empty(),
    {
        let mut slots: Vec<(usize, usize)> = Vec::new();
        let mut i: usize = 0;
        while i < SLOTS
            invariant
                0 <= i <= SLOTS,
                slots.len() == i,
                forall|j: int| 0 <= j < i ==> slots@[j] == (0usize, 0usize),
            decreases SLOTS - i,
        {
            slots.push((0, 0));
            i = i + 1;
        }
        RegionCache { slots, next: 0, last: (0, 0) }
    }
}

/// In a well-formed cache the slots alone decide what is covered: the
/// fast-path region is one of them.
pub proof fn lemma_slots_decide(c: &RegionCache)
    requires
        c.wf(),
    ensures
        forall|addr: usize, len: usize| #[trigger]
            c.spec_contains(addr, len) == exists|i: int|
                0 <= i < SLOTS && covers(#[trigger] c.spec_slots()[i], addr, saturating_end(addr, len)),
{
    assert forall|addr: usize, len: usize| #[trigger]
        c.spec_contains(addr, len) implies exists|i: int|
            0 <= i < SLOTS && covers(#[trigger] c.spec_slots()[i], addr, saturating_end(addr, len)) by {
        let end = saturating_end(addr, len);
        if covers(c.spec_last(), addr, end) {
            let i = choose|i: int| 0 <= i < SLOTS && #[trigger] c.spec_slots()[i] == c.spec_last();
            assert(covers(c.spec_slots()[i], addr, end));
        }
    }
}

proof fn lemma_covers_as_refl(c: &RegionCache)
    ensures
        c.covers_as(c),
{
}

/// Whether `len` bytes at `addr` lie in a region already validated this poll.
///
/// A hit found by the scan is promoted to the fast path, so a run of reads
/// through one region is answered by a single comparison.
pub fn contains(cache: &mut RegionCache, addr: usize, len: usize) -> (r: bool)
    requires
        old(cache).wf(),
    ensures
        final(cache).wf(),
        r == old(cache).spec_contains(addr, len),
        r ==> final(cache).spec_contains(addr, len),
        final(cache).spec_slots() == old(cache).spec_slots(),
        final(cache).spec_next() == old(cache).spec_next(),
        final(cache).covers_as(&*old(cache)),
{
    proof {
        lemma_slots_decide(&*old(cache));
    }
    let end = addr.saturating_add(len);
    let (lo, hi) = cache.last;
    if lo != hi && addr >= lo && end <= hi {
        return true;
    }
    let mut i: usize = 0;
    while i < cache.slots.len()
        invariant
            0 <= i <= cache.slots.len(),
            cache.wf(),
            cache.spec_slots() == old(cache).spec_slots(),
            cache.spec_last() == old(cache).spec_last(),
            cache.spec_next() == old(cache).spec_next(),
            *cache == *old(cache),
            !covers(cache.spec_last(), addr, end),
            end == saturating_end(addr, len),
            forall|j: int| 0 <= j < i ==> !covers(#[trigger] cache.spec_slots()[j], addr, end),
        decreases cache.slots.len() - i,
    {
        let (lo, hi) = cache.slots[i];
        if lo != hi && addr >= lo && end <= hi {
            let ghost before = *cache;
            cache.last = (lo, hi);
            proof {
                assert(cache.slots@[i as int] == cache.last);
                lemma_slots_decide(&*cache);
                lemma_slots_decide(&before);
                assert(cache.spec_slots() == before.spec_slots());
                assert forall|a: usize, l: usize| #[trigger] cache.spec_contains(a, l)
                    == before.spec_contains(a, l) by {
                    let e = saturating_end(a, l);
                    if before.spec_contains(a, l) {
                        let j = choose|j: int| 0 <= j < SLOTS && covers(#[trigger] before.spec_slots()[j], a, e);
                        assert(covers(cache.spec_slots()[j], a, e));
                    }
                    if cache.spec_contains(a, l) {
                        let j = choose|j: int| 0 <= j < SLOTS && covers(#[trigger] cache.spec_slots()[j], a, e);
                        assert(covers(before.spec_slots()[j], a, e));
                    }
                }
            }
            assert(covers(cache.spec_slots()[i as int], addr, end));
            return true;
        }
        i = i + 1;
    }
    false
}

/// Remember that `[lo, hi)` was validated. An empty or inverted range is
/// ignored.
pub fn insert(cache: &mut RegionCache, lo: usize, hi: usize)
    requires
        old(cache).wf(),
    ensures
        final(cache).wf(),
        hi <= lo ==> *final(cache) == *old(cache),
        lo < hi ==> final(cache).remembers(&*old(cache), lo, hi),
        lo < hi ==> forall|addr: usize, len: usize|
            lo <= addr && saturating_end(addr, len) <= hi ==> #[trigger] final(cache).spec_contains(
                addr,
                len,
            ),
        forall|addr: usize, len: usize| #[trigger]
            final(cache).spec_contains(addr, len) ==> old(cache).spec_contains(addr, len) || (lo
                <= addr && saturating_end(addr, len) <= hi),
{
    if hi <= lo {
        return ;
    }
    let ghost before = *cache;
    let k = cache.next;
    cache.last = (lo, hi);
    cache.slots.set(k, (lo, hi));
    cache.next = if k + 1 == SLOTS {
        0
    } else {
        k + 1
    };
    proof {
        assert(cache.slots@[k as int] == cache.last);
        lemma_slots_decide(&*cache);
        lemma_slots_decide(&before);
        assert forall|addr: usize, len: usize| #[trigger]
            cache.spec_contains(addr, len) implies before.spec_contains(addr, len) || (lo <= addr
                && saturating_end(addr, len) <= hi) by {
            let end = saturating_end(addr, len);
            let i = choose|i: int| 0 <= i < SLOTS && covers(#[trigger] cache.spec_slots()[i], addr, end);
            if i != k {
                assert(cache.spec_slots()[i] == before.spec_slots()[i]);
            }
        }
    }
}

/// Forget every region.
pub fn clear(cache: &mut RegionCache)
    requires
        old(cache).wf(),
    ensures
        final(cache).wf(),
        final(cache).spec_is_empty(),
        forall|i: int| 0 <= i < SLOTS ==> #[trigger] final(cache).spec_slots()[i] == (0usize, 0usize),
        final(cache).spec_next() == old(cache).spec_next(),
{
    cache.last = (0, 0);
    let mut i: usize = 0;
    while i < cache.slots.len()
        invariant
            0 <= i <= cache.slots.len(),
            cache.wf(),
            cache.spec_last() == (0usize, 0usize),
            cache.spec_next() == old(cache).spec_next(),
            forall|j: int| 0 <= j < i ==> cache.spec_slots()[j] == (0usize, 0usize),
        decreases cache.slots.len() - i,
    {
        let ghost before = cache.spec_slots();
        cache.slots.set(i, (0, 0));
        assert(cache.spec_slots() == before.update(i as int, (0usize, 0usize)));
        assert(forall|j: int| 0 <= j <= i ==> cache.spec_slots()[j] == (0usize, 0usize));
        i = i + 1;
    }
    assert(i == SLOTS);
    assert forall|addr: usize, len: usize| !cache.spec_contains(addr, len) by {
        let end = saturating_end(addr, len);
        assert forall|i: int| 0 <= i < cache.spec_slots().len() implies !covers(
            #[trigger] cache.spec_slots()[i],
            addr,
            end,
        ) by {
            assert(cache.spec_slots()[i] == (0usize, 0usize));
        }
    }
}

/// What a cache holds, given `hist`, the regions remembered since it was
/// last cleared, oldest first: every region in its slots is one of them,
/// and each of the last [`SLOTS`] of them sits in the slot it went into.
pub open spec fn cache_history(c: &RegionCache, hist: Seq<(usize, usize)>) -> bool {
    &&& forall|i: int|
        0 <= i < SLOTS && c.spec_slots()[i].0 != c.spec_slots()[i].1 ==> exists|j: int|
            0 <= j < hist.len() && hist[j] == #[trigger] c.spec_slots()[i]
    &&& forall|j: int|
        0 <= j < hist.len() && hist.len() - j <= SLOTS ==> c.spec_slots()[(c.spec_next() - (hist.len()
            - j)) % (SLOTS as int)] == #[trigger] hist[j]
}

/// A cleared cache holds nothing, with nothing remembered since.
pub proof fn lemma_history_cleared(c: &RegionCache)
    requires
        forall|i: int| 0 <= i < SLOTS ==> #[trigger] c.spec_slots()[i] == (0usize, 0usize),
    ensures
        cache_history(c, Seq::empty()),
{
}

/// Remembering a region extends the history by it.
pub proof fn lemma_history_insert(
    c0: &RegionCache,
    c1: &RegionCache,
    hist: Seq<(usize, usize)>,
    lo: usize,
    hi: usize,
)
    requires
        c0.wf(),
        c1.remembers(c0, lo, hi),
        cache_history(c0, hist),
    ensures
        cache_history(c1, hist.push((lo, hi))),
{
    let h = hist.push((lo, hi));
    let n = c0.spec_next() as int;
    assert(0 <= n < SLOTS) by {
        assert(c0.wf());
        lemma_next_in_range(c0);
    }
    assert forall|i: int|
        0 <= i < SLOTS && c1.spec_slots()[i].0 != c1.spec_slots()[i].1 implies exists|j: int|
            0 <= j < h.len() && h[j] == #[trigger] c1.spec_slots()[i] by {
        if i == n {
            assert(h[hist.len() as int] == c1.spec_slots()[i]);
        } else {
            assert(c1.spec_slots()[i] == c0.spec_slots()[i]);
            let j = choose|j: int| 0 <= j < hist.len() && hist[j] == #[trigger] c0.spec_slots()[i];
            assert(h[j] == hist[j]);
        }
    }
    assert forall|j: int| 0 <= j < h.len() && h.len() - j <= SLOTS implies c1.spec_slots()[(
    c1.spec_next() - (h.len() - j)) % (SLOTS as int)] == #[trigger] h[j] by {
        let m = c1.spec_next() as int;
        assert(m == (n + 1) % 96);
        let k = (m - (h.len() - j)) % 96;
        if j == hist.len() {
            assert(k == n);
        } else {
            let k0 = (n - (hist.len() - j)) % 96;
            assert(k == k0);
            assert(k0 != n);
            assert(hist[j] == c0.spec_slots()[k0]);
            assert(h[j] == hist[j]);
        }
    }
}

proof fn lemma_next_in_range(c: &RegionCache)
    requires
        c.wf(),
    ensures
        c.spec_next() < SLOTS,
{
}

/// What the history says of a lookup: a region the cache holds was
/// remembered since the last clear, and any of the last [`SLOTS`] regions
/// remembered is still held.
pub proof fn lemma_history_answers(c: &RegionCache, hist: Seq<(usize, usize)>, addr: usize, len: usize)
    requires
        c.wf(),
        cache_history(c, hist),
    ensures
        c.spec_contains(addr, len) ==> exists|j: int|
            0 <= j < hist.len() && covers(#[trigger] hist[j], addr, saturating_end(addr, len)),
        forall|j: int|
            0 <= j < hist.len() && hist.len() - j <= SLOTS && covers(#[trigger] hist[j], addr, saturating_end(addr, len))
                ==> c.spec_contains(addr, len),
{
    lemma_slots_decide(c);
    let e = saturating_end(addr, len);
    if c.spec_contains(addr, len) {
        let i = choose|i: int| 0 <= i < SLOTS && covers(#[trigger] c.spec_slots()[i], addr, e);
        assert(c.spec_slots()[i].0 != c.spec_slots()[i].1);
        let j = choose|j: int| 0 <= j < hist.len() && hist[j] == #[trigger] c.spec_slots()[i];
        assert(covers(hist[j], addr, e));
    }
    assert forall|j: int|
        0 <= j < hist.len() && hist.len() - j <= SLOTS && covers(#[trigger] hist[j], addr, e)
            implies c.spec_contains(addr, len) by {
        let k = (c.spec_next() - (hist.len() - j)) % (SLOTS as int);
        assert(c.spec_slots()[k] == hist[j]);
        assert(covers(c.spec_slots()[k], addr, e));
    }
}

/// Drop the validated-region cache. Call once per poll, before any reads.
pub fn flush_region_cache(cache: &mut RegionCache)
    requires
        old(cache).wf(),
    ensures
        final(cache).wf(),
        final(cache).spec_is_empty(),
{
    clear(cache);
}

/// `MEM_COMMIT`.
pub const MEM_COMMIT: u32 = 0x1000;

/// `PAGE_GUARD`.
pub const PAGE_GUARD: u32 = 0x100;

/// Every protection that allows reading: `READONLY`, `READWRITE`,
/// `WRITECOPY`, `EXECUTE_READ`, `EXECUTE_READWRITE`, `EXECUTE_WRITECOPY`.
pub const READABLE: u32 = 0xEE;

/// What `VirtualQuery` says of the region holding an address.
#[derive(Clone, Copy)]
pub struct Region {
    pub base: usize,
    pub size: usize,
    pub state: u32,
    pub protect: u32,
}

/// Where a readability check stands.
#[derive(Clone, Copy, Debug, PartialEq, Eq, Structural)]
pub enum Probe {
    /// The answer.
    Done(bool),
    /// Ask `VirtualQuery` about this address, and hand the answer to
    /// [`readable_next`].
    Query(usize),
}

/// Whether a queried region may be read from `probe` on: committed, readable,
/// not a guard page, and reaching past `probe`. Its end when it may.
pub open spec fn region_end(r: Region, probe: usize) -> Option<int> {
    if r.state != MEM_COMMIT || r.protect & PAGE_GUARD != 0 || r.protect & READABLE == 0 {
        None
    } else if r.base + r.size <= probe {
        None
    } else {
        Some(r.base + r.size)
    }
}

/// Start checking whether `len` bytes at `addr` are committed and readable:
/// a null address never is, and a range the cache already holds is.
pub fn readable(cache: &mut RegionCache, addr: usize, len: usize) -> (p: Probe)
    requires
        old(cache).wf(),
    ensures
        final(cache).wf(),
        final(cache).covers_as(&*old(cache)),
        addr == 0 ==> p == Probe::Done(false),
        addr != 0 && old(cache).spec_contains(addr, len) ==> p == Probe::Done(true),
        addr != 0 && !old(cache).spec_contains(addr, len) ==> p == (if len == 0 {
            Probe::Done(true)
        } else {
            Probe::Query(addr)
        }),
{
    if addr == 0 {
        proof {
            lemma_covers_as_refl(&*cache);
        }
        return Probe::Done(false);
    }
    if contains(cache, addr, len) {
        return Probe::Done(true);
    }
    if len == 0 {
        Probe::Done(true)
    } else {
        Probe::Query(addr)
    }
}

/// Continue a readability check with what `VirtualQuery` said of the region
/// at `probe` (`None` when it said nothing). A good region is remembered
/// whole, since the next read is almost always further into it.
pub fn readable_next(cache: &mut RegionCache, addr: usize, len: usize, probe: usize, region: Option<
    Region,
>) -> (p: Probe)
    requires
        old(cache).wf(),
        addr <= probe,
    ensures
        final(cache).wf(),
        match region {
            Some(r) => match region_end(r, probe) {
                Some(end) if r.base < end <= usize::MAX => final(cache).remembers(
                    &*old(cache),
                    r.base,
                    end as usize,
                ),
                _ => *final(cache) == *old(cache),
            },
            None => *final(cache) == *old(cache),
        },
        forall|a: usize, l: usize| #[trigger]
            final(cache).spec_contains(a, l) ==> old(cache).spec_contains(a, l) || (region matches Some(r)
                && region_end(r, probe) matches Some(end) && r.base <= a && saturating_end(a, l) <= end),
        match region {
            None => p == Probe::Done(false),
            Some(r) => match region_end(r, probe) {
                None => p == Probe::Done(false),
                Some(end) => {
                    &&& end <= usize::MAX ==> (p == if end - addr >= len {
                        Probe::Done(true)
                    } else {
                        Probe::Query(end as usize)
                    })
                    &&& end > usize::MAX ==> p == Probe::Done(false)
                },
            },
        },
{
    let r = match region {
        Some(r) => r,
        None => return Probe::Done(false),
    };
    if r.state != MEM_COMMIT || r.protect & PAGE_GUARD != 0 || r.protect & READABLE == 0 {
        return Probe::Done(false);
    }
    if r.size > usize::MAX - r.base {
        return Probe::Done(false);
    }
    let end = r.base + r.size;
    if end <= probe {
        return Probe::Done(false);
    }
    insert(cache, r.base, end);
    if end - addr >= len {
        Probe::Done(true)
    } else {
        Probe::Query(end)
    }
}

} // verus!
