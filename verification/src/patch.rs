//! Writing to the game's code, and putting it back.
//!
//! The last resort: a wrong read fails to `None`, and a wrong patch corrupts
//! someone's game. So a patch checks the exact bytes it expects before
//! writing, and remembers what was there so it can put it back.
//!
//! **A patch is not atomic**: callers patch only when the code provably cannot
//! be running. Here is the bookkeeping and the refusals; the writes themselves
//! are the embedding's business.
use vstd::prelude::*;

use crate::guard::{bytes_eq, read_view};
use crate::text::{decimal, hex_addr, hex_bytes, push_decimal, push_hex_addr, push_hex_bytes, push_str};

verus! {

/// A byte patch that remembers what was there.
pub struct Patch {
    addr: usize,
    original: Vec<u8>,
    what: String,
    applied: bool,
}

/// Why a patch would be refused, before anything is written: more bytes than
/// were verified, an unreadable site, or bytes other than the expected ones.
/// `found` is what was read at the site, `None` when it could not be read.
pub open spec fn spec_vet(
    what: Seq<char>,
    addr: usize,
    expect: Seq<u8>,
    bytes_len: usize,
    found: Option<Seq<u8>>,
) -> Option<Seq<char>> {
    if bytes_len > expect.len() {
        Some(what + ": refusing to write "@ + decimal(bytes_len as nat) + " bytes where only "@
            + decimal(expect.len()) + " were verified"@)
    } else {
        match found {
            None => Some(what + ": "@ + hex_addr(addr as nat) + " is not readable"@),
            Some(f) => if f == expect {
                None
            } else {
                Some(what + ": expected "@ + hex_bytes(expect) + " at "@ + hex_addr(addr as nat)
                    + " but found "@ + hex_bytes(f) + " - not patching"@)
            },
        }
    }
}

/// A patch may go ahead exactly when the bytes read at its site are the
/// ones it expects, and it writes no more bytes than were verified: never
/// over unread or unexpected code.
pub proof fn lemma_vet_only_over_verified_bytes(
    what: Seq<char>,
    addr: usize,
    expect: Seq<u8>,
    bytes_len: usize,
    found: Option<Seq<u8>>,
)
    ensures
        (spec_vet(what, addr, expect, bytes_len, found) is None) <==> (bytes_len <= expect.len()
            && found == Some(expect)),
{
}

impl Patch {
    pub closed spec fn spec_addr(&self) -> usize {
        self.addr
    }

    pub closed spec fn spec_original(&self) -> Seq<u8> {
        self.original@
    }

    pub closed spec fn spec_what(&self) -> Seq<char> {
        self.what@
    }

    pub closed spec fn spec_applied(&self) -> bool {
        self.applied
    }

    /// Whether writing `bytes_len` bytes over `expect` at `addr` may go ahead,
    /// given what was read there; the refusal when it may not.
    pub fn vet(what: &str, addr: usize, expect: &[u8], bytes_len: usize, found: Option<&[u8]>) -> (r:
        Result<(), String>)
        ensures
            match r {
                Ok(()) => spec_vet(what@, addr, expect@, bytes_len, read_view(found)) is None,
                Err(m) => spec_vet(what@, addr, expect@, bytes_len, read_view(found)) == Some(m@),
            },
            r is Ok <==> (bytes_len <= expect.len() && read_view(found) == Some(expect@)),
    {
        let mut m = String::new();
        push_str(&mut m, what);
        if bytes_len > expect.len() {
            push_str(&mut m, ": refusing to write ");
            push_decimal(&mut m, bytes_len as u64);
            push_str(&mut m, " bytes where only ");
            push_decimal(&mut m, expect.len() as u64);
            push_str(&mut m, " were verified");
            return Err(m);
        }
        match found {
            None => {
                push_str(&mut m, ": ");
                push_hex_addr(&mut m, addr as u64);
                push_str(&mut m, " is not readable");
                Err(m)
            },
            Some(f) => {
                if bytes_eq(f, expect) {
                    Ok(())
                } else {
                    push_str(&mut m, ": expected ");
                    push_hex_bytes(&mut m, expect);
                    push_str(&mut m, " at ");
                    push_hex_addr(&mut m, addr as u64);
                    push_str(&mut m, " but found ");
                    push_hex_bytes(&mut m, f);
                    push_str(&mut m, " - not patching");
                    Err(m)
                }
            },
        }
    }

    /// The record of a patch just written at `addr` over `original`.
    pub fn applied(what: &str, addr: usize, original: Vec<u8>) -> (p: Patch)
        ensures
            p.spec_addr() == addr,
            p.spec_original() == original@,
            p.spec_what() == what@,
            p.spec_applied(),
    {
        Patch { addr, original, what: what.to_owned(), applied: true }
    }

    /// The message for a site that could not be made writable.
    pub fn unwritable(what: &str, addr: usize) -> (m: String)
        ensures
            m@ == what@ + ": could not make "@ + hex_addr(addr as nat) + " writable"@,
    {
        let mut m = String::new();
        push_str(&mut m, what);
        push_str(&mut m, ": could not make ");
        push_hex_addr(&mut m, addr as u64);
        push_str(&mut m, " writable");
        m
    }

    /// The message for originals that could not be written back.
    pub fn unrestorable(&self) -> (m: String)
        ensures
            m@ == self.spec_what() + ": could not restore "@ + hex_addr(self.spec_addr() as nat),
    {
        let mut m = String::new();
        push_str(&mut m, self.what.as_str());
        push_str(&mut m, ": could not restore ");
        push_hex_addr(&mut m, self.addr as u64);
        m
    }

    /// Record that the originals are back in place. Idempotent.
    pub fn mark_reverted(&mut self)
        ensures
            !final(self).spec_applied(),
            final(self).spec_addr() == old(self).spec_addr(),
            final(self).spec_original() == old(self).spec_original(),
            final(self).spec_what() == old(self).spec_what(),
    {
        self.applied = false;
    }

    pub fn is_applied(&self) -> (b: bool)
        ensures
            b == self.spec_applied(),
    {
        self.applied
    }

    pub fn what(&self) -> (w: &str)
        ensures
            w@ == self.spec_what(),
    {
        self.what.as_str()
    }

    pub fn addr(&self) -> (a: usize)
        ensures
            a == self.spec_addr(),
    {
        self.addr
    }

    /// The bytes that were there before the patch.
    pub fn original(&self) -> (o: &[u8])
        ensures
            o@ == self.spec_original(),
    {
        self.original.as_slice()
    }
}

} // verus!
