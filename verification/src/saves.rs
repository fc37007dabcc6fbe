//! Which save snapshots there are, which is next, and which to let go.
//!
//! Every launch copies the game's saves into a numbered folder,
//! `launch-NNNN`, in the mod's own directory, and only the most recent
//! [`KEEP`] are kept. Reading and copying directories is the caller's
//! business; the numbering and the pruning are decided here.
use vstd::prelude::*;

use crate::parse::{parse_u64_in, parse_u64_spec};
use crate::text::{chars_of, seq_eq, slice_of};

verus! {

/// The folder, inside the mod's own, that holds the snapshots.
pub const SNAPSHOT_DIR: &'static str = "save-backups";

/// Every snapshot folder's name starts with this.
pub const PREFIX: &'static str = "launch-";

/// How many snapshots are kept.
pub const KEEP: usize = 10;

/// The number of a snapshot folder called `name`: the prefix, then what
/// `str::parse::<u32>` accepts.
pub open spec fn snapshot_number(name: Seq<char>) -> Option<u32> {
    if name.len() >= 7 && name.take(7) == "launch-"@ {
        match parse_u64_spec(name.skip(7)) {
            Some(v) => if v <= u32::MAX {
                Some(v as u32)
            } else {
                None
            },
            None => None,
        }
    } else {
        None
    }
}

/// The number of the snapshot folder called `name`, if it is one.
pub fn snapshot_index(name: &str) -> (r: Option<u32>)
    ensures
        r == snapshot_number(name@),
{
    let cs = chars_of(name);
    let pre = chars_of(PREFIX);
    proof {
        reveal_strlit("launch-");
        assert(PREFIX@ == "launch-"@);
    }
    if cs.len() < 7 {
        return None;
    }
    let head = slice_of(&cs, 0, 7);
    if !seq_eq(&head, &pre) {
        assert(name@.take(7) =~= head@);
        return None;
    }
    assert(name@.take(7) =~= head@);
    let v = parse_u64_in(&cs, 7, cs.len());
    assert(cs@.subrange(7, cs@.len() as int) =~= name@.skip(7));
    match v {
        Some(n) => if n <= 0xFFFF_FFFFu64 {
            Some(n as u32)
        } else {
            None
        },
        None => None,
    }
}

/// The largest of `ns`, or none.
pub open spec fn max_of(ns: Seq<u32>) -> Option<u32>
    decreases ns.len(),
{
    if ns.len() == 0 {
        None
    } else {
        match max_of(ns.drop_last()) {
            Some(m) => if m >= ns.last() {
                Some(m)
            } else {
                Some(ns.last())
            },
            None => Some(ns.last()),
        }
    }
}

/// The number for the next snapshot: one past the largest there is, or 1
/// when there is none.
pub fn next_index(ns: &[u32]) -> (r: u32)
    requires
        forall|i: int| 0 <= i < ns.len() ==> ns[i] < u32::MAX,
    ensures
        r == (match max_of(ns@) {
            Some(m) => (m + 1) as u32,
            None => 1u32,
        }),
{
    let mut best: Option<u32> = None;
    let mut i: usize = 0;
    while i < ns.len()
        invariant
            0 <= i <= ns.len(),
            best == max_of(ns@.take(i as int)),
            forall|k: int| 0 <= k < ns.len() ==> ns[k] < u32::MAX,
            best matches Some(m) ==> m < u32::MAX,
        decreases ns.len() - i,
    {
        assert(ns@.take(i + 1).drop_last() =~= ns@.take(i as int));
        best = match best {
            Some(m) => if m >= ns[i] {
                Some(m)
            } else {
                Some(ns[i])
            },
            None => Some(ns[i]),
        };
        i = i + 1;
    }
    assert(ns@.take(ns.len() as int) =~= ns@);
    match best {
        Some(m) => m + 1,
        None => 1,
    }
}

/// Whether snapshot `k` comes before snapshot `i` in age order: a smaller
/// number, or the same number earlier in the listing.
pub open spec fn before(ns: Seq<u32>, k: int, i: int) -> bool {
    ns[k] < ns[i] || (ns[k] == ns[i] && k < i)
}

/// How many of the first `n` snapshots come before snapshot `i`.
pub open spec fn below(ns: Seq<u32>, i: int, n: int) -> nat
    decreases n,
{
    if n <= 0 {
        0
    } else {
        below(ns, i, n - 1) + if before(ns, n - 1, i) {
            1nat
        } else {
            0nat
        }
    }
}

/// Snapshot `i`'s place in age order, oldest first.
pub open spec fn age_rank(ns: Seq<u32>, i: int) -> nat {
    below(ns, i, ns.len() as int)
}

/// Whether snapshot `i` is let go: all but the newest [`KEEP`] are.
pub open spec fn pruned(ns: Seq<u32>, i: int) -> bool {
    age_rank(ns, i) + KEEP < ns.len()
}

/// The positions among the first `n` snapshots that are let go, in order.
pub open spec fn pruned_upto(ns: Seq<u32>, n: int) -> Seq<usize>
    decreases n,
{
    if n <= 0 {
        Seq::empty()
    } else if pruned(ns, n - 1) {
        pruned_upto(ns, n - 1).push((n - 1) as usize)
    } else {
        pruned_upto(ns, n - 1)
    }
}

fn rank_of(ns: &[u32], i: usize) -> (r: usize)
    requires
        i < ns.len(),
    ensures
        r == age_rank(ns@, i as int),
{
    let mut r: usize = 0;
    let mut k: usize = 0;
    while k < ns.len()
        invariant
            0 <= k <= ns.len(),
            i < ns.len(),
            r == below(ns@, i as int, k as int),
            r <= k,
        decreases ns.len() - k,
    {
        if ns[k] < ns[i] || (ns[k] == ns[i] && k < i) {
            r = r + 1;
        }
        k = k + 1;
    }
    r
}

/// The positions, in the listing `ns` of snapshot numbers, of the snapshots
/// to let go: every one but the newest [`KEEP`], oldest first by number and
/// then by listing order.
pub fn to_prune(ns: &[u32]) -> (r: Vec<usize>)
    ensures
        r@ == pruned_upto(ns@, ns.len() as int),
{
    let mut out: Vec<usize> = Vec::new();
    let mut i: usize = 0;
    while i < ns.len()
        invariant
            0 <= i <= ns.len(),
            out@ == pruned_upto(ns@, i as int),
        decreases ns.len() - i,
    {
        let r = rank_of(ns, i);
        if ns.len() > KEEP && r < ns.len() - KEEP {
            out.push(i);
        }
        i = i + 1;
    }
    out
}

proof fn lemma_below_older(ns: Seq<u32>, i: int, j: int, n: int)
    requires
        0 <= i < ns.len(),
        0 <= j < ns.len(),
        ns[i] < ns[j],
        0 <= n <= ns.len(),
    ensures
        below(ns, i, n) + (if n > i {
            1int
        } else {
            0int
        }) <= below(ns, j, n),
    decreases n,
{
    if n > 0 {
        lemma_below_older(ns, i, j, n - 1);
    }
}

/// Snapshots go oldest first: when one is let go, every snapshot with a
/// smaller number is let go too.
pub proof fn lemma_older_go_first(ns: Seq<u32>, i: int, j: int)
    requires
        0 <= i < ns.len(),
        0 <= j < ns.len(),
        ns[i] < ns[j],
        pruned(ns, j),
    ensures
        pruned(ns, i),
{
    lemma_below_older(ns, i, j, ns.len() as int);
}

/// With no more snapshots than are kept, none is let go.
pub proof fn lemma_few_are_kept(ns: Seq<u32>, i: int)
    requires
        ns.len() <= KEEP,
    ensures
        !pruned(ns, i),
{
}

} // verus!
