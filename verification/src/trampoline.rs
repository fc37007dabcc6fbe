//! A register-preserving detour that calls back into Rust from inside a game
//! function, then lets the function carry on as if nothing happened.
//!
//! The patch sits at a function's **entry**: the injected `call` pushes a
//! return address the real function never had. So the stub anchors `rbp` at
//! entry, saves every volatile register, force-aligns the stack and calls the
//! callback, restores everything, unwinds to the function-entry `rsp` --
//! discarding the injected return address -- runs the displaced prologue bytes
//! verbatim, and returns by an absolute `jmp [rip]`, which clobbers nothing.
//!
//! The stub is position-independent: `movabs` for the callback address and
//! `jmp [rip]` for the return, so it works wherever the cave lands.
use vstd::prelude::*;

use crate::codecave::{call_rel32, le64, push_le64, spec_call_rel32, Cave};
use crate::patch::Patch;
use crate::text::{decimal, push_decimal, push_str};

verus! {

/// The smallest patch a `call rel32` fits into.
pub const CALL_LEN: usize = 5;

/// Everything before the callback's address: anchor `rbp`, save the volatile
/// general registers and `xmm0..5`, align, make shadow space, `movabs rax`.
pub open spec fn stub_entry() -> Seq<u8> {
    seq![
        0x55u8, 0x48, 0x89, 0xE5, 0x50, 0x51, 0x52, 0x41, 0x50, 0x41, 0x51, 0x41, 0x52, 0x41, 0x53,
        0x48, 0x83, 0xEC, 0x60, 0x0F, 0x11, 0x04, 0x24, 0x0F, 0x11, 0x4C, 0x24, 0x10, 0x0F, 0x11,
        0x54, 0x24, 0x20, 0x0F, 0x11, 0x5C, 0x24, 0x30, 0x0F, 0x11, 0x64, 0x24, 0x40, 0x0F, 0x11,
        0x6C, 0x24, 0x50, 0x48, 0x83, 0xE4, 0xF0, 0x48, 0x83, 0xEC, 0x20, 0x48, 0xB8,
    ]
}

/// After the callback's address: `call rax`, restore `xmm0..5` and the
/// volatile general registers from the `rbp`-anchored save area, unwind to
/// the function-entry `rsp` and drop the injected return address.
pub open spec fn stub_exit() -> Seq<u8> {
    seq![
        0xFFu8, 0xD0, 0x0F, 0x10, 0x85, 0x68, 0xFF, 0xFF, 0xFF, 0x0F, 0x10, 0x8D, 0x78, 0xFF, 0xFF,
        0xFF, 0x0F, 0x10, 0x95, 0x88, 0xFF, 0xFF, 0xFF, 0x0F, 0x10, 0x9D, 0x98, 0xFF, 0xFF, 0xFF,
        0x0F, 0x10, 0xA5, 0xA8, 0xFF, 0xFF, 0xFF, 0x0F, 0x10, 0xAD, 0xB8, 0xFF, 0xFF, 0xFF, 0x48,
        0x8B, 0x45, 0xF8, 0x48, 0x8B, 0x4D, 0xF0, 0x48, 0x8B, 0x55, 0xE8, 0x4C, 0x8B, 0x45, 0xE0,
        0x4C, 0x8B, 0x4D, 0xD8, 0x4C, 0x8B, 0x55, 0xD0, 0x4C, 0x8B, 0x5D, 0xC8, 0x48, 0x89, 0xEC,
        0x5D, 0x48, 0x83, 0xC4, 0x08,
    ]
}

/// `jmp qword ptr [rip]`: the absolute return, whose target follows it.
pub open spec fn jump_back() -> Seq<u8> {
    seq![0xFFu8, 0x25, 0x00, 0x00, 0x00, 0x00]
}

/// The whole stub for a detour to `callback` that returns to `return_to`
/// after running `displaced`.
pub open spec fn spec_stub(callback: u64, displaced: Seq<u8>, return_to: u64) -> Seq<u8> {
    stub_entry() + le64(callback) + stub_exit() + displaced + jump_back() + le64(return_to)
}

/// Append a run of bytes.
pub fn push_bytes(out: &mut Vec<u8>, b: &[u8])
    ensures
        final(out)@ == old(out)@ + b@,
{
    let mut i: usize = 0;
    while i < b.len()
        invariant
            0 <= i <= b.len(),
            out@ == old(out)@ + b@.take(i as int),
        decreases b.len() - i,
    {
        out.push(b[i]);
        assert(b@.take(i + 1) =~= b@.take(i as int).push(b@[i as int]));
        i = i + 1;
    }
    assert(b@.take(b.len() as int) =~= b@);
}

/// Assemble the stub: see the module documentation for its shape.
pub fn assemble(callback: u64, displaced: &[u8], return_to: u64) -> (c: Vec<u8>)
    ensures
        c@ == spec_stub(callback, displaced@, return_to),
{
    let entry: [u8; 58] = [
        0x55u8, 0x48, 0x89, 0xE5, 0x50, 0x51, 0x52, 0x41, 0x50, 0x41, 0x51, 0x41, 0x52, 0x41, 0x53,
        0x48, 0x83, 0xEC, 0x60, 0x0F, 0x11, 0x04, 0x24, 0x0F, 0x11, 0x4C, 0x24, 0x10, 0x0F, 0x11,
        0x54, 0x24, 0x20, 0x0F, 0x11, 0x5C, 0x24, 0x30, 0x0F, 0x11, 0x64, 0x24, 0x40, 0x0F, 0x11,
        0x6C, 0x24, 0x50, 0x48, 0x83, 0xE4, 0xF0, 0x48, 0x83, 0xEC, 0x20, 0x48, 0xB8,
    ];
    let exit: [u8; 80] = [
        0xFFu8, 0xD0, 0x0F, 0x10, 0x85, 0x68, 0xFF, 0xFF, 0xFF, 0x0F, 0x10, 0x8D, 0x78, 0xFF, 0xFF,
        0xFF, 0x0F, 0x10, 0x95, 0x88, 0xFF, 0xFF, 0xFF, 0x0F, 0x10, 0x9D, 0x98, 0xFF, 0xFF, 0xFF,
        0x0F, 0x10, 0xA5, 0xA8, 0xFF, 0xFF, 0xFF, 0x0F, 0x10, 0xAD, 0xB8, 0xFF, 0xFF, 0xFF, 0x48,
        0x8B, 0x45, 0xF8, 0x48, 0x8B, 0x4D, 0xF0, 0x48, 0x8B, 0x55, 0xE8, 0x4C, 0x8B, 0x45, 0xE0,
        0x4C, 0x8B, 0x4D, 0xD8, 0x4C, 0x8B, 0x55, 0xD0, 0x4C, 0x8B, 0x5D, 0xC8, 0x48, 0x89, 0xEC,
        0x5D, 0x48, 0x83, 0xC4, 0x08,
    ];
    let jump: [u8; 6] = [0xFFu8, 0x25, 0x00, 0x00, 0x00, 0x00];
    assert(entry@ =~= stub_entry());
    assert(exit@ =~= stub_exit());
    assert(jump@ =~= jump_back());
    let mut c: Vec<u8> = Vec::new();
    push_bytes(&mut c, &entry);
    push_le64(&mut c, callback);
    push_bytes(&mut c, &exit);
    push_bytes(&mut c, displaced);
    push_bytes(&mut c, &jump);
    push_le64(&mut c, return_to);
    assert(c@ =~= spec_stub(callback, displaced@, return_to));
    c
}

/// The refusal for a displacement too short to hold the call, if it is.
pub fn too_short(len: usize) -> (r: Option<String>)
    ensures
        match r {
            Some(m) => len < CALL_LEN && m@ == "a detour needs at least 5 bytes to displace, got "@
                + decimal(len as nat),
            None => len >= CALL_LEN,
        },
{
    if len >= CALL_LEN {
        return None;
    }
    let mut m = String::new();
    push_str(&mut m, "a detour needs at least 5 bytes to displace, got ");
    push_decimal(&mut m, len as u64);
    Some(m)
}

/// What the patch writes at `site`: a call to the stub at `stub_at`, padded
/// with `nop`s to the full displaced width so no half-instruction is left
/// behind. `None` when the stub is out of call range.
pub open spec fn spec_patch_bytes(site: usize, stub_at: usize, len: nat) -> Option<Seq<u8>> {
    match spec_call_rel32(site, stub_at) {
        Some(call) => Some(call + Seq::new((len - 5) as nat, |i: int| 0x90u8)),
        None => None,
    }
}

/// The bytes the patch writes at `site`; see [`spec_patch_bytes`].
pub fn patch_bytes(site: usize, stub_at: usize, len: usize) -> (r: Option<Vec<u8>>)
    requires
        len >= CALL_LEN,
        site + 5 <= usize::MAX ==> i64::MIN <= crate::codecave::displacement(site, stub_at)
            <= i64::MAX,
    ensures
        match r {
            Some(b) => spec_patch_bytes(site, stub_at, len as nat) == Some(b@),
            None => spec_patch_bytes(site, stub_at, len as nat) is None,
        },
{
    let call = match call_rel32(site, stub_at) {
        Some(c) => c,
        None => return None,
    };
    let mut b: Vec<u8> = Vec::new();
    push_bytes(&mut b, &call);
    let mut k: usize = CALL_LEN;
    while k < len
        invariant
            CALL_LEN <= k <= len,
            b@ == call@ + Seq::new((k - 5) as nat, |i: int| 0x90u8),
        decreases len - k,
    {
        b.push(0x90);
        assert(call@ + Seq::new((k + 1 - 5) as nat, |i: int| 0x90u8) =~= (call@ + Seq::new(
            (k - 5) as nat,
            |i: int| 0x90u8,
        )).push(0x90u8));
        k = k + 1;
    }
    Some(b)
}

/// An installed detour: the patch that calls the stub, and the cave that
/// holds it. Reverting takes the patch out first, so nothing can enter the
/// stub after it is gone.
pub struct Trampoline {
    patch: Option<Patch>,
    cave: Option<Cave>,
}

impl Trampoline {
    pub closed spec fn spec_patch(&self) -> Option<Patch> {
        self.patch
    }

    pub closed spec fn spec_cave(&self) -> Option<Cave> {
        self.cave
    }

    /// A detour whose stub lives in `cave` and whose call is `patch`.
    pub fn installed(patch: Patch, cave: Cave) -> (t: Trampoline)
        ensures
            t.spec_patch() == Some(patch),
            t.spec_cave() == Some(cave),
    {
        Trampoline { patch: Some(patch), cave: Some(cave) }
    }

    /// Take the patch out, for reverting; `None` once it has been.
    pub fn take_patch(&mut self) -> (p: Option<Patch>)
        ensures
            p == old(self).spec_patch(),
            final(self).spec_patch() is None,
            final(self).spec_cave() == old(self).spec_cave(),
    {
        self.patch.take()
    }

    /// Release the stub's cave: only once the patch is gone.
    pub fn take_cave(&mut self) -> (c: Option<Cave>)
        requires
            old(self).spec_patch() is None,
        ensures
            c == old(self).spec_cave(),
            final(self).spec_cave() is None,
            final(self).spec_patch() is None,
    {
        self.cave.take()
    }

    /// Whether the detour is still patched in.
    pub fn is_installed(&self) -> (b: bool)
        ensures
            b == self.spec_patch() is Some,
    {
        self.patch.is_some()
    }
}

} // verus!
