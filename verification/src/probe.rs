//! Walking the game's memory one validated read at a time.
//!
//! The mod reads the runtime's structures directly rather than calling the
//! game, and every hop is checked before it is taken: a malformed pointer
//! produces `None`, never an access violation. The walks themselves --
//! which address to read next, and what makes an answer acceptable -- are
//! decisions, and live here; performing a read is the embedding's business.
//!
//! A walk is a function of the answers received so far. It either asks for
//! one more read or gives its result, and asked again with the answer
//! appended it carries on from where it stopped.
use vstd::prelude::*;

verus! {

/// What a walk needs next.
#[derive(Debug, Clone, Copy, PartialEq, Eq, Structural)]
pub enum Access {
    /// Read `.1` bytes (2, 4 or 8), little-endian, at `.0`, if they are
    /// readable; answer `Some(value)`, or `None` when they are not.
    Value(usize, usize),
    /// Whether `.1` bytes at `.0` are readable; answer `Some(0)` when they
    /// are, `None` when they are not.
    Readable(usize, usize),
}

/// A walk's next move.
#[derive(Debug, Clone, Copy, PartialEq, Eq, Structural)]
pub enum Step<T> {
    Ask(Access),
    Done(T),
}

/// The `k`th answer, if it has been given.
pub open spec fn answer(a: Seq<Option<u64>>, k: int) -> Option<Option<u64>> {
    if 0 <= k < a.len() {
        Some(a[k])
    } else {
        None
    }
}

/// The `k`th answer, if it has been given.
pub fn get_answer(a: &[Option<u64>], k: usize) -> (r: Option<Option<u64>>)
    ensures
        r == answer(a@, k as int),
{
    if k < a.len() {
        Some(a[k])
    } else {
        None
    }
}

/// A 32-bit answer, as the signed number it holds.
pub open spec fn as_i32(v: u64) -> i32 {
    (v as u32) as i32
}

} // verus!
