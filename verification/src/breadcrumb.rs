//! Never breaking a player's game twice for the same reason.
//!
//! An access violation takes the process down with no chance to write
//! anything, so a startup probe that kills the game would kill it again on
//! every launch. A breadcrumb file is written before the risky part and
//! removed once the session is clearly healthy; finding one at startup means
//! the last session died, so this one stays passive. The file itself is the
//! caller's to look for and write; what finding it means is decided here.
use vstd::prelude::*;

verus! {

/// How long a session must run before its breadcrumb is cleared, in
/// milliseconds.
pub const HEALTHY_AFTER_MS: u64 = 60_000;

/// What startup may do, given the breadcrumb.
#[derive(Debug, Clone, PartialEq, Eq)]
pub enum Armed<P> {
    /// Clear to probe. Carries the breadcrumb, to be cleared once the
    /// session has proven itself.
    Go(P),
    /// A breadcrumb from a session that died: stay passive unless the player
    /// asks.
    Held(P),
    /// Nothing to run and nothing to offer: no mod folder, or the breadcrumb
    /// could not be written, so there would be no protection next time.
    Skip,
}

/// What startup may do: `marker` is where the breadcrumb lives, if the mod
/// has a folder; `found` whether one was there already; `written` whether
/// leaving a fresh one worked (only asked when none was found).
pub fn arm<P>(marker: Option<P>, found: bool, written: bool) -> (a: Armed<P>)
    ensures
        match marker {
            None => a == Armed::<P>::Skip,
            Some(p) => a == (if found {
                Armed::Held(p)
            } else if written {
                Armed::Go(p)
            } else {
                Armed::Skip
            }),
        },
{
    match marker {
        None => Armed::Skip,
        Some(p) => if found {
            Armed::Held(p)
        } else if written {
            Armed::Go(p)
        } else {
            Armed::Skip
        },
    }
}

/// Whether the breadcrumb has been stood down this session.
pub struct HealthyClear {
    pub done: bool,
}

impl HealthyClear {
    /// Not yet.
    pub fn new() -> (h: HealthyClear)
        ensures
            !h.done,
    {
        HealthyClear { done: false }
    }

    /// The session has run `elapsed_ms`: true, once only, when it is time to
    /// clear the breadcrumb.
    pub fn clear_when_healthy(&mut self, elapsed_ms: u64) -> (clear: bool)
        ensures
            clear == (!old(self).done && elapsed_ms >= HEALTHY_AFTER_MS),
            final(self).done == (old(self).done || clear),
    {
        if self.done || elapsed_ms < HEALTHY_AFTER_MS {
            return false;
        }
        self.done = true;
        true
    }
}

/// How many times the breadcrumb is cleared over a session that checks at
/// `times`, starting from `done`.
pub open spec fn clears(done: bool, times: Seq<u64>) -> nat
    decreases times.len(),
{
    if times.len() == 0 {
        0
    } else {
        let now = !done && times[0] >= HEALTHY_AFTER_MS;
        (if now {
            1nat
        } else {
            0nat
        }) + clears(done || now, times.drop_first())
    }
}

/// However often it is asked, the breadcrumb is cleared at most once, and
/// never once it has been.
pub proof fn lemma_cleared_at_most_once(done: bool, times: Seq<u64>)
    ensures
        clears(done, times) <= 1,
        done ==> clears(done, times) == 0,
    decreases times.len(),
{
    if times.len() > 0 {
        let now = !done && times[0] >= HEALTHY_AFTER_MS;
        lemma_cleared_at_most_once(done || now, times.drop_first());
    }
}

} // verus!
