//! The register context a stack sample is taken from.
//!
//! `CONTEXT` for x86-64 is 1,232 bytes of registers, selectors, debug
//! registers, a 512-byte legacy FPU save area and 26 vector registers, of which
//! the sampler reads three fields -- and `RtlVirtualUnwind` needs all of it,
//! correctly aligned, whether the fields are named or not. So it is held as an
//! opaque blob of 16-byte words: 1,232 bytes, 16-byte aligned, as Windows
//! expects, with little-endian accessors at the few offsets that matter.
use vstd::prelude::*;

verus! {

/// Deepest stack a sample will record.
pub const MAX_FRAMES: usize = 32;

/// The size of `CONTEXT` on x86-64, in bytes.
pub const CONTEXT_SIZE: usize = 1232;

/// Where `ContextFlags` lives.
pub const CTX_FLAGS: usize = 0x30;

/// Where `Rsp` lives.
pub const CTX_RSP: usize = 0x98;

/// Where `Rip` lives.
pub const CTX_RIP: usize = 0xF8;

/// `CONTEXT_FULL | CONTEXT_FLOATING_POINT`: the floating-point area is
/// included because some unwind codes restore non-volatile XMM registers.
pub const CONTEXT_WANTED: u32 = 0x0010_000F;

/// `CONTEXT` for x86-64, as an opaque aligned blob.
pub struct Context {
    words: [u128; 77],
}

impl Context {
    /// The 16-byte word at index `i`, least significant byte first in memory.
    pub closed spec fn word(&self, i: int) -> u128 {
        self.words@[i]
    }

    /// The byte at offset `at`.
    pub open spec fn spec_byte(&self, at: int) -> u8 {
        ((self.word(at / 16) >> ((8 * (at % 16)) as u128)) & 0xffu128) as u8
    }

    /// The little-endian `u32` at offset `at`.
    pub open spec fn spec_u32_at(&self, at: int) -> u32 {
        ((self.word(at / 16) >> ((8 * (at % 16)) as u128)) & 0xffff_ffffu128) as u32
    }

    /// The little-endian `u64` at offset `at`.
    pub open spec fn spec_u64_at(&self, at: int) -> u64 {
        ((self.word(at / 16) >> ((8 * (at % 16)) as u128)) & 0xffff_ffff_ffff_ffffu128) as u64
    }

    /// A zeroed context with the flags `GetThreadContext` reads set to
    /// [`CONTEXT_WANTED`].
    pub fn new() -> (c: Context)
        ensures
            c.spec_u32_at(CTX_FLAGS as int) == CONTEXT_WANTED,
            forall|i: int| 0 <= i < 77 && i != CTX_FLAGS / 16 ==> c.word(i) == 0,
            c.word(CTX_FLAGS as int / 16) == CONTEXT_WANTED as u128,
    {
        let mut c = Context { words: [0u128; 77] };
        assert(c.word(3) == 0);
        assert((8 * (CTX_FLAGS % 16)) as u128 == 0u128);
        c.set_u32(CTX_FLAGS, CONTEXT_WANTED);
        proof {
            let w: u128 = 0;
            let v = CONTEXT_WANTED;
            assert((w & !(0xffff_ffffu128 << 0u128)) | ((v as u128) << 0u128) == v as u128)
                by (bit_vector)
                requires
                    w == 0,
            ;
        }
        c
    }

    /// The byte at offset `at`.
    pub fn byte(&self, at: usize) -> (b: u8)
        requires
            at < CONTEXT_SIZE,
        ensures
            b == self.spec_byte(at as int),
    {
        let sh = (8 * (at % 16)) as u128;
        ((self.words[at / 16] >> sh) & 0xff) as u8
    }

    /// The little-endian `u32` at a 4-byte aligned offset.
    pub fn u32_at(&self, at: usize) -> (v: u32)
        requires
            at + 4 <= CONTEXT_SIZE,
            at % 4 == 0,
        ensures
            v == self.spec_u32_at(at as int),
    {
        let sh = (8 * (at % 16)) as u128;
        ((self.words[at / 16] >> sh) & 0xffff_ffff) as u32
    }

    /// The little-endian `u64` at an 8-byte aligned offset.
    pub fn u64_at(&self, at: usize) -> (v: u64)
        requires
            at + 8 <= CONTEXT_SIZE,
            at % 8 == 0,
        ensures
            v == self.spec_u64_at(at as int),
    {
        let sh = (8 * (at % 16)) as u128;
        ((self.words[at / 16] >> sh) & 0xffff_ffff_ffff_ffff) as u64
    }

    /// Store `v` little-endian at a 4-byte aligned offset, leaving every other
    /// byte as it was.
    pub fn set_u32(&mut self, at: usize, v: u32)
        requires
            at + 4 <= CONTEXT_SIZE,
            at % 4 == 0,
        ensures
            final(self).spec_u32_at(at as int) == v,
            forall|i: int| 0 <= i < 77 && i != at / 16 ==> final(self).word(i) == old(self).word(i),
            forall|k: int|
                0 <= k < CONTEXT_SIZE && (k < at || k >= at + 4) ==> final(self).spec_byte(k)
                    == old(self).spec_byte(k),
            final(self).word(at as int / 16) == ((old(self).word(at as int / 16) & !(0xffff_ffffu128 << ((8 * (
            at % 16)) as u128))) | ((v as u128) << ((8 * (at % 16)) as u128))),
    {
        let i = at / 16;
        let sh = (8 * (at % 16)) as u128;
        let w = self.words[i];
        let nw = (w & !(0xffff_ffffu128 << sh)) | ((v as u128) << sh);
        self.words[i] = nw;
        proof {
            assert(sh == 0 || sh == 32 || sh == 64 || sh == 96);
            assert(((nw >> sh) & 0xffff_ffffu128) as u32 == v) by (bit_vector)
                requires
                    nw == (w & !(0xffff_ffffu128 << sh)) | ((v as u128) << sh),
                    sh == 0 || sh == 32 || sh == 64 || sh == 96,
            ;
            assert forall|k: int|
                0 <= k < CONTEXT_SIZE && (k < at || k >= at + 4) implies self.spec_byte(k)
                == old(self).spec_byte(k) by {
                if k / 16 == i as int {
                    let s2 = (8 * (k % 16)) as u128;
                    assert(s2 % 8 == 0 && s2 < 128);
                    assert(s2 + 8 <= sh || s2 >= sh + 32);
                    assert(((nw >> s2) & 0xffu128) == ((w >> s2) & 0xffu128)) by (bit_vector)
                        requires
                            nw == (w & !(0xffff_ffffu128 << sh)) | ((v as u128) << sh),
                            sh == 0 || sh == 32 || sh == 64 || sh == 96,
                            s2 < 128,
                            s2 + 8 <= sh || s2 >= sh + 32,
                    ;
                }
            }
        }
    }

    /// Store `v` little-endian at an 8-byte aligned offset, leaving every other
    /// byte as it was.
    pub fn set_u64(&mut self, at: usize, v: u64)
        requires
            at + 8 <= CONTEXT_SIZE,
            at % 8 == 0,
        ensures
            final(self).spec_u64_at(at as int) == v,
            forall|i: int| 0 <= i < 77 && i != at / 16 ==> final(self).word(i) == old(self).word(i),
            forall|k: int|
                0 <= k < CONTEXT_SIZE && (k < at || k >= at + 8) ==> final(self).spec_byte(k)
                    == old(self).spec_byte(k),
    {
        let i = at / 16;
        let sh = (8 * (at % 16)) as u128;
        let w = self.words[i];
        let nw = (w & !(0xffff_ffff_ffff_ffffu128 << sh)) | ((v as u128) << sh);
        self.words[i] = nw;
        proof {
            assert(sh == 0 || sh == 64);
            assert(((nw >> sh) & 0xffff_ffff_ffff_ffffu128) as u64 == v) by (bit_vector)
                requires
                    nw == (w & !(0xffff_ffff_ffff_ffffu128 << sh)) | ((v as u128) << sh),
                    sh == 0 || sh == 64,
            ;
            assert forall|k: int|
                0 <= k < CONTEXT_SIZE && (k < at || k >= at + 8) implies self.spec_byte(k)
                == old(self).spec_byte(k) by {
                if k / 16 == i as int {
                    let s2 = (8 * (k % 16)) as u128;
                    assert(s2 % 8 == 0 && s2 < 128);
                    assert(s2 + 8 <= sh || s2 >= sh + 64);
                    assert(((nw >> s2) & 0xffu128) == ((w >> s2) & 0xffu128)) by (bit_vector)
                        requires
                            nw == (w & !(0xffff_ffff_ffff_ffffu128 << sh)) | ((v as u128) << sh),
                            sh == 0 || sh == 64,
                            s2 < 128,
                            s2 + 8 <= sh || s2 >= sh + 64,
                    ;
                }
            }
        }
    }

    /// The instruction pointer.
    pub fn rip(&self) -> (r: usize)
        ensures
            r == self.spec_u64_at(CTX_RIP as int) as usize,
    {
        self.u64_at(CTX_RIP) as usize
    }

    /// The stack pointer.
    pub fn rsp(&self) -> (r: usize)
        ensures
            r == self.spec_u64_at(CTX_RSP as int) as usize,
    {
        self.u64_at(CTX_RSP) as usize
    }
}

/// Whether a sample takes the frame at `pc`, with `n` frames already
/// taken and room for `cap`: not once the room is full, and not at a null
/// program counter, which is the outermost frame's end.
pub open spec fn spec_takes_frame(n: usize, cap: usize, pc: usize) -> bool {
    n < cap && pc != 0
}

/// [`spec_takes_frame`].
pub fn takes_frame(n: usize, cap: usize, pc: usize) -> (r: bool)
    ensures
        r == spec_takes_frame(n, cap, pc),
{
    n < cap && pc != 0
}

/// Where a leaf function's return address lies, when a frame has no unwind
/// data: at the stack pointer, if that is a plausible stack address (not
/// null, 8-aligned, and with the slot inside the address space).
pub open spec fn spec_leaf_slot(rsp: usize) -> Option<usize> {
    if rsp == 0 || rsp % 8 != 0 || rsp + 8 > usize::MAX {
        None
    } else {
        Some(rsp)
    }
}

/// [`spec_leaf_slot`].
pub fn leaf_slot(rsp: usize) -> (r: Option<usize>)
    ensures
        r == spec_leaf_slot(rsp),
{
    if rsp == 0 || rsp % 8 != 0 || rsp > usize::MAX - 8 {
        None
    } else {
        Some(rsp)
    }
}

impl Context {
    /// Step out of a leaf function: return to `ret`, read from the stack
    /// pointer, and pop it. Nothing else in the context changes.
    pub fn pop_return(&mut self, ret: u64)
        requires
            old(self).spec_u64_at(CTX_RSP as int) + 8 <= u64::MAX,
        ensures
            final(self).spec_u64_at(CTX_RIP as int) == ret,
            final(self).spec_u64_at(CTX_RSP as int) == old(self).spec_u64_at(CTX_RSP as int) + 8,
            forall|k: int|
                0 <= k < CONTEXT_SIZE && !(CTX_RSP <= k < CTX_RSP + 8) && !(CTX_RIP <= k < CTX_RIP
                    + 8) ==> final(self).spec_byte(k) == old(self).spec_byte(k),
    {
        let rsp = self.u64_at(CTX_RSP);
        self.set_u64(CTX_RIP, ret);
        self.set_u64(CTX_RSP, rsp + 8);
    }
}

/// Whether an unwind step made progress: the stack pointer must move
/// towards the base of the stack on every frame, or the walk is not going
/// anywhere and stops rather than fill the frames with nonsense.
pub fn made_progress(ctx: &Context, rsp_before: usize) -> (r: bool)
    ensures
        r == (ctx.spec_u64_at(CTX_RSP as int) as usize > rsp_before),
{
    ctx.rsp() > rsp_before
}

/// What a sample does at its next frame.
#[derive(Debug, Clone, Copy, PartialEq, Eq, Structural)]
pub enum FrameStep {
    /// Take no frame: the frames are full, or the program counter is null.
    Stop,
    /// Take the frame, and stop: it lies in no module, or it is a leaf
    /// whose stack pointer is not a plausible return slot.
    Last,
    /// Take the frame and unwind it through this image base and
    /// `RUNTIME_FUNCTION` record.
    Unwind(usize, usize),
    /// Take the frame, a leaf: read the return address at this stack slot
    /// and pop it.
    Leaf(usize),
}

/// One frame of a sample, `n` frames taken with room for `cap`: at `pc`,
/// which lies in a module or not, whose unwind record is `entry` (if the
/// function has one), with the stack pointer at `rsp`. After an unwind or a
/// leaf pop the sample goes on only if [`made_progress`].
pub open spec fn spec_frame_step(
    n: usize,
    cap: usize,
    pc: usize,
    in_module: bool,
    entry: Option<(usize, usize)>,
    rsp: usize,
) -> FrameStep {
    if !spec_takes_frame(n, cap, pc) {
        FrameStep::Stop
    } else if !in_module {
        FrameStep::Last
    } else {
        match entry {
            Some((base, rec)) => FrameStep::Unwind(base, rec),
            None => match spec_leaf_slot(rsp) {
                Some(slot) => FrameStep::Leaf(slot),
                None => FrameStep::Last,
            },
        }
    }
}

/// [`spec_frame_step`].
pub fn frame_step(
    n: usize,
    cap: usize,
    pc: usize,
    in_module: bool,
    entry: Option<(usize, usize)>,
    rsp: usize,
) -> (r: FrameStep)
    ensures
        r == spec_frame_step(n, cap, pc, in_module, entry, rsp),
{
    if !takes_frame(n, cap, pc) {
        FrameStep::Stop
    } else if !in_module {
        FrameStep::Last
    } else {
        match entry {
            Some((base, rec)) => FrameStep::Unwind(base, rec),
            None => match leaf_slot(rsp) {
                Some(slot) => FrameStep::Leaf(slot),
                None => FrameStep::Last,
            },
        }
    }
}

/// A sample takes at most `cap` frames: every step that takes one starts
/// with fewer than `cap` taken.
pub proof fn lemma_sample_bounded(
    n: usize,
    cap: usize,
    pc: usize,
    in_module: bool,
    entry: Option<(usize, usize)>,
    rsp: usize,
)
    ensures
        spec_frame_step(n, cap, pc, in_module, entry, rsp) != FrameStep::Stop ==> n < cap && pc != 0,
{
}

} // verus!
