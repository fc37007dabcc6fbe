//! Where the mod lives: the folder the installer stamped into the DLL.
//!
//! The installer patches the mod folder's path into a reserved buffer in the
//! built DLL, behind a marker unique to the mod. Reading the buffer out of the
//! running DLL is the caller's business; what it says is decided here.
use vstd::prelude::*;

use crate::pe::{from_utf8_lossy, utf8_lossy};

verus! {

/// How many bytes come before the first NUL.
pub open spec fn nul_end(b: Seq<u8>) -> nat
    decreases b.len(),
{
    if b.len() == 0 {
        0
    } else if b[0] == 0 {
        0
    } else {
        1 + nul_end(b.drop_first())
    }
}

/// The path bytes in a stamp buffer `raw`: what follows `marker`, up to the
/// first NUL. A buffer that does not start with the marker, or holds nothing
/// after it, is not one of ours, or was never stamped; an empty marker
/// matches nothing.
pub open spec fn stamp_text(raw: Seq<u8>, marker: Seq<u8>) -> Option<Seq<u8>> {
    if marker.len() == 0 || raw.len() <= marker.len() || raw.subrange(0, marker.len() as int)
        != marker {
        None
    } else {
        let body = raw.subrange(marker.len() as int, raw.len() as int);
        Some(body.subrange(0, nul_end(body) as int))
    }
}

/// The stamped path as the installer wrote it, read from the stamp buffer's
/// bytes `raw`; empty when the buffer does not carry `marker` or was never
/// stamped.
pub fn stamped_path(raw: &[u8], marker: &[u8]) -> (s: String)
    ensures
        match stamp_text(raw@, marker@) {
            Some(b) => s@ == utf8_lossy(b),
            None => s@ == Seq::<char>::empty(),
        },
{
    let m = marker.len();
    if m == 0 || raw.len() <= m {
        return String::new();
    }
    let mut i: usize = 0;
    while i < m
        invariant
            0 < m < raw.len(),
            m == marker.len(),
            0 <= i <= m,
            raw@.subrange(0, i as int) == marker@.subrange(0, i as int),
        decreases m - i,
    {
        if raw[i] != marker[i] {
            proof {
                assert(raw@.subrange(0, m as int)[i as int] != marker@[i as int]);
            }
            return String::new();
        }
        proof {
            assert(raw@.subrange(0, i + 1) =~= raw@.subrange(0, i as int).push(raw@[i as int]));
            assert(marker@.subrange(0, i + 1) =~= marker@.subrange(0, i as int).push(
                marker@[i as int],
            ));
        }
        i = i + 1;
    }
    assert(raw@.subrange(0, m as int) =~= marker@);
    let ghost body = raw@.subrange(m as int, raw@.len() as int);
    let mut out: Vec<u8> = Vec::new();
    let mut j: usize = m;
    assert(body.subrange(0, body.len() as int) =~= body);
    while j < raw.len() && raw[j] != 0
        invariant
            m <= j <= raw.len(),
            m == marker.len(),
            body == raw@.subrange(m as int, raw@.len() as int),
            out@ == body.subrange(0, j - m),
            nul_end(body) == (j - m) + nul_end(body.subrange(j - m, body.len() as int)),
        decreases raw.len() - j,
    {
        let ghost rest = body.subrange(j - m, body.len() as int);
        proof {
            assert(rest[0] != 0);
            assert(rest.drop_first() =~= body.subrange(j - m + 1, body.len() as int));
        }
        out.push(raw[j]);
        proof {
            assert(out@ =~= body.subrange(0, j - m + 1));
        }
        j = j + 1;
    }
    proof {
        let rest = body.subrange(j - m, body.len() as int);
        if j == raw.len() {
            assert(rest.len() == 0);
        } else {
            assert(rest[0] == 0);
        }
        assert(nul_end(body) == j - m);
    }
    from_utf8_lossy(out.as_slice())
}

/// Whether `marker` occurs anywhere in `bytes`.
pub open spec fn occurs_in(bytes: Seq<u8>, marker: Seq<u8>) -> bool {
    exists|i: int|
        0 <= i && i + marker.len() <= bytes.len() && #[trigger] bytes.subrange(i, i + marker.len())
            == marker
}

/// Whether a file's `bytes` carry the mod's `marker`: how a copy of the mod
/// is recognised among the DLLs beside the game, whatever it was renamed to.
pub fn carries_marker(bytes: &[u8], marker: &[u8]) -> (r: bool)
    requires
        marker.len() > 0,
    ensures
        r == occurs_in(bytes@, marker@),
{
    let m = marker.len();
    if bytes.len() < m {
        return false;
    }
    let last = bytes.len() - m;
    let mut i: usize = 0;
    while i <= last
        invariant
            m == marker.len(),
            m > 0,
            last + m == bytes.len(),
            forall|j: int| 0 <= j < i ==> #[trigger] bytes@.subrange(j, j + m) != marker@,
        decreases last + 1 - i,
    {
        let mut k: usize = 0;
        while k < m && bytes[i + k] == marker[k]
            invariant
                m == marker.len(),
                i <= last,
                last + m == bytes.len(),
                0 <= k <= m,
                forall|q: int| 0 <= q < k ==> bytes@[i + q] == marker@[q],
            decreases m - k,
        {
            k = k + 1;
        }
        if k == m {
            assert(bytes@.subrange(i as int, i + m) =~= marker@);
            return true;
        }
        assert(bytes@.subrange(i as int, i + m)[k as int] != marker@[k as int]);
        i = i + 1;
    }
    assert forall|j: int| 0 <= j && j + m <= bytes.len() implies #[trigger] bytes@.subrange(j, j + m)
        != marker@ by {
        assert(j < i);
    }
    false
}

} // verus!
