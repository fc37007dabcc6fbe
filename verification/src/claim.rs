//! "Only one copy of this may act."
//!
//! Two copies of a mod that *presses buttons in the game* would press twice
//! on one screen, which is a corrupted run rather than a cosmetic bug. They
//! cannot see each other's statics, so the claim is a named kernel object;
//! here is its name.
use vstd::prelude::*;

use crate::text::{push_utf16, utf16};

verus! {

/// The kernel object's name for a claim: session-local, so a claim never
/// reaches across users on a shared machine. UTF-16 and NUL-terminated.
pub fn full_name(name: &str) -> (w: Vec<u16>)
    ensures
        w@ == utf16("Local\\"@ + name@).push(0),
{
    let mut w: Vec<u16> = Vec::new();
    let prefix = "Local\\";
    push_utf16(&mut w, prefix);
    push_utf16(&mut w, name);
    w.push(0);
    proof {
        lemma_utf16_concat(prefix@, name@);
    }
    w
}

/// Encoding a concatenation encodes each part in turn.
pub proof fn lemma_utf16_concat(a: Seq<char>, b: Seq<char>)
    ensures
        utf16(a + b) == utf16(a) + utf16(b),
    decreases b.len(),
{
    if b.len() == 0 {
        assert(a + b =~= a);
        assert(utf16(a) + utf16(b) =~= utf16(a));
    } else {
        lemma_utf16_concat(a, b.drop_last());
        assert((a + b).drop_last() =~= a + b.drop_last());
        assert((a + b).last() == b.last());
        assert(utf16(a) + utf16(b) =~= utf16(a) + utf16(b.drop_last()) + crate::text::utf16_char(
            b.last(),
        ));
    }
}

} // verus!
