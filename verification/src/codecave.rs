//! Executable memory close enough to the game to `call` into.
//!
//! A patch that needs to *do* something puts its new instructions in a cave,
//! and the patch site gets a five-byte `call rel32` to it. That encoding is the
//! whole constraint: **`rel32` is a signed 32-bit displacement**, so the stub
//! must land within reach of the call site, and a call that cannot reach must
//! be refused rather than silently wrapped.
//!
//! Here is the arithmetic: reach, the encoding of the call, and the
//! bookkeeping of a cave's space. Allocating and freeing pages is the
//! embedding's business.
use vstd::prelude::*;
use vstd::arithmetic::div_mod::{
    lemma_fundamental_div_mod, lemma_mod_multiples_basic, lemma_mod_pos_bound, lemma_mod_self_0,
    lemma_small_mod,
};

verus! {

/// `call rel32` reaches this far in either direction, with a margin so a stub
/// near the edge cannot be defeated by rounding.
pub const REACH: usize = 0x7000_0000;

/// The allocation granularity the search for a cave steps by.
pub const GRANULARITY: usize = 0x1_0000;

/// The address `x` as the signed number the processor sees.
pub open spec fn signed(x: usize) -> int {
    (x as i64) as int
}

/// Whether a `call` at `from` can reach `to`.
pub open spec fn spec_in_reach(from: usize, to: usize) -> bool {
    -(REACH as int) <= signed(to) - signed(from) <= REACH as int
}

/// Whether a `call` at `from` can reach `to`.
pub fn in_reach(from: usize, to: usize) -> (r: bool)
    requires
        i64::MIN <= signed(to) - signed(from) <= i64::MAX,
    ensures
        r == spec_in_reach(from, to),
{
    let delta = (to as i64) - (from as i64);
    -(REACH as i64) <= delta && delta <= (REACH as i64)
}

/// The four bytes of `v`, least significant first.
pub open spec fn le32(v: u32) -> Seq<u8> {
    Seq::new(4, |k: int| ((v >> ((8 * k) as u32)) & 0xffu32) as u8)
}

/// The eight bytes of `v`, least significant first.
pub open spec fn le64(v: u64) -> Seq<u8> {
    Seq::new(8, |k: int| ((v >> ((8 * k) as u64)) & 0xffu64) as u8)
}

/// Append the eight bytes of `v`, least significant first.
pub fn push_le64(out: &mut Vec<u8>, v: u64)
    ensures
        final(out)@ == old(out)@ + le64(v),
{
    let mut k: u64 = 0;
    while k < 8
        invariant
            0 <= k <= 8,
            out@ == old(out)@ + le64(v).take(k as int),
        decreases 8 - k,
    {
        out.push(((v >> (8 * k)) & 0xff) as u8);
        assert(le64(v).take(k + 1) =~= le64(v).take(k as int).push(
            ((v >> ((8 * k) as u64)) & 0xffu64) as u8,
        ));
        k = k + 1;
    }
    assert(le64(v).take(8) =~= le64(v));
}

/// The displacement a `call` at `at` needs to land on `target`: measured from
/// the next instruction, five bytes on.
pub open spec fn displacement(at: usize, target: usize) -> int {
    signed(target) - signed((at + 5) as usize)
}

/// What [`call_rel32`] encodes: `0xE8` and the displacement, when it fits.
pub open spec fn spec_call_rel32(at: usize, target: usize) -> Option<Seq<u8>> {
    if at + 5 > usize::MAX {
        None
    } else if i32::MIN <= displacement(at, target) <= i32::MAX {
        Some(seq![0xE8u8] + le32((displacement(at, target) as i32) as u32))
    } else {
        None
    }
}

/// The five bytes of a `call rel32` from `at` to `target`.
///
/// `None` if the target is out of range, which is the one way this encoding
/// fails, and fails silently if you let it.
pub fn call_rel32(at: usize, target: usize) -> (r: Option<[u8; 5]>)
    requires
        at + 5 <= usize::MAX ==> i64::MIN <= displacement(at, target) <= i64::MAX,
    ensures
        match r {
            Some(b) => spec_call_rel32(at, target) == Some(b@),
            None => spec_call_rel32(at, target) is None,
        },
{
    let next = match at.checked_add(5) {
        Some(n) => n,
        None => return None,
    };
    let delta = (target as i64) - (next as i64);
    if delta < i32::MIN as i64 || delta > i32::MAX as i64 {
        return None;
    }
    let rel = delta as i32;
    let u = rel as u32;
    let b = [
        0xE8u8,
        (u & 0xff) as u8,
        ((u >> 8) & 0xff) as u8,
        ((u >> 16) & 0xff) as u8,
        ((u >> 24) & 0xff) as u8,
    ];
    assert(b@ =~= seq![0xE8u8] + le32(u)) by {
        assert(u >> 0u32 == u) by (bit_vector);
    }
    Some(b)
}

/// A run of executable memory, and how much of it is spoken for.
pub struct Cave {
    addr: usize,
    size: usize,
    used: usize,
}

impl Cave {
    /// Where the cave starts.
    pub closed spec fn spec_addr(&self) -> usize {
        self.addr
    }

    /// How many bytes the cave holds.
    pub closed spec fn spec_size(&self) -> usize {
        self.size
    }

    /// How many bytes are spoken for.
    pub closed spec fn spec_used(&self) -> usize {
        self.used
    }

    /// The cave lies inside the address space, and never hands out more than
    /// it holds.
    pub closed spec fn wf(&self) -> bool {
        self.used <= self.size && self.addr + self.size <= usize::MAX
    }

    /// The bookkeeping for `size` bytes of freshly allocated memory at `addr`.
    pub fn allocated(addr: usize, size: usize) -> (c: Cave)
        requires
            addr + size <= usize::MAX,
        ensures
            c.wf(),
            c.spec_addr() == addr,
            c.spec_size() == size,
            c.spec_used() == 0,
    {
        Cave { addr, size, used: 0 }
    }

    pub fn addr(&self) -> (a: usize)
        ensures
            a == self.spec_addr(),
    {
        self.addr
    }

    pub fn size(&self) -> (s: usize)
        ensures
            s == self.spec_size(),
    {
        self.size
    }

    /// Claim the next `n` bytes for writing, returning where they start;
    /// `None`, claiming nothing, when they would overrun the allocation.
    pub fn claim(&mut self, n: usize) -> (r: Option<usize>)
        requires
            old(self).wf(),
        ensures
            final(self).wf(),
            final(self).spec_addr() == old(self).spec_addr(),
            final(self).spec_size() == old(self).spec_size(),
            match r {
                Some(at) => {
                    &&& old(self).spec_used() + n <= old(self).spec_size()
                    &&& at == old(self).spec_addr() + old(self).spec_used()
                    &&& final(self).spec_used() == old(self).spec_used() + n
                },
                None => {
                    &&& old(self).spec_used() + n > old(self).spec_size()
                    &&& final(self).spec_used() == old(self).spec_used()
                },
            },
    {
        if n > self.size - self.used {
            return None;
        }
        let at = self.addr + self.used;
        self.used = self.used + n;
        Some(at)
    }

    /// Reserve `n` bytes at an `align`-byte boundary, for data the stub reads
    /// rip-relatively; `None`, reserving nothing, when padding and data would
    /// overrun the allocation.
    pub fn reserve_aligned(&mut self, n: usize, align: usize) -> (r: Option<usize>)
        requires
            old(self).wf(),
            align > 0,
        ensures
            final(self).wf(),
            final(self).spec_addr() == old(self).spec_addr(),
            final(self).spec_size() == old(self).spec_size(),
            ({
                let here = old(self).spec_addr() + old(self).spec_used();
                let pad = (align - here % (align as int)) % (align as int);
                match r {
                    Some(at) => {
                        &&& old(self).spec_used() + pad + n <= old(self).spec_size()
                        &&& at == here + pad
                        &&& (at as int) % (align as int) == 0
                        &&& final(self).spec_used() == old(self).spec_used() + pad + n
                    },
                    None => {
                        &&& old(self).spec_used() + pad + n > old(self).spec_size()
                        &&& final(self).spec_used() == old(self).spec_used()
                    },
                }
            }),
    {
        let here = self.addr + self.used;
        let pad = (align - (here % align)) % align;
        if pad > self.size - self.used || n > self.size - self.used - pad {
            return None;
        }
        self.used = self.used + pad;
        let at = self.addr + self.used;
        self.used = self.used + n;
        proof {
            lemma_align_up(here as int, align as int);
        }
        Some(at)
    }
}

/// Padding up to the next multiple of `a` lands on a multiple of `a`.
proof fn lemma_align_up(h: int, a: int)
    requires
        a > 0,
        h >= 0,
    ensures
        (h + (a - h % a) % a) % a == 0,
{
    let q = h / a;
    let r = h % a;
    lemma_fundamental_div_mod(h, a);
    lemma_mod_pos_bound(h, a);
    if r == 0 {
        lemma_mod_self_0(a);
        assert(h == a * q);
        assert(h == q * a) by {
            vstd::arithmetic::mul::lemma_mul_is_commutative(a, q);
        }
        lemma_mod_multiples_basic(q, a);
    } else {
        lemma_small_mod((a - r) as nat, a as nat);
        assert(h + (a - r) == (q + 1) * a) by {
            vstd::arithmetic::mul::lemma_mul_is_distributive_add_other_way(a, q, 1);
            vstd::arithmetic::mul::lemma_mul_is_commutative(a, q);
        }
        lemma_mod_multiples_basic(q + 1, a);
    }
}

/// Where the search for a cave looks next: `offset` below and above
/// `target`, each only if it is in the address space, at least one granule up,
/// and not below the reachable window. Rounded down to the granularity.
pub open spec fn spec_candidates(target: usize, offset: usize) -> Seq<usize> {
    let lo = if target >= REACH {
        target - REACH
    } else {
        0
    };
    let below: Seq<usize> = if target >= offset && target - offset >= lo && target - offset
        >= GRANULARITY {
        seq![((target - offset) as usize / GRANULARITY * GRANULARITY) as usize]
    } else {
        Seq::empty()
    };
    let above: Seq<usize> = if target + offset <= usize::MAX && target + offset >= lo && target
        + offset >= GRANULARITY {
        seq![((target + offset) as usize / GRANULARITY * GRANULARITY) as usize]
    } else {
        Seq::empty()
    };
    below + above
}

/// The allocation bases to try at `offset` from `target`, below first.
pub fn candidates(target: usize, offset: usize) -> (r: Vec<usize>)
    ensures
        r@ == spec_candidates(target, offset),
{
    let lo = target.saturating_sub(REACH);
    let mut r: Vec<usize> = Vec::new();
    if target >= offset {
        let c = target - offset;
        if c >= lo && c >= GRANULARITY {
            r.push(c / GRANULARITY * GRANULARITY);
        }
    }
    if offset <= usize::MAX - target {
        let c = target + offset;
        if c >= lo && c >= GRANULARITY {
            r.push(c / GRANULARITY * GRANULARITY);
        }
    }
    assert(r@ =~= spec_candidates(target, offset));
    r
}

} // verus!
