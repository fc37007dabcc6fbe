//! Self-limiting for work done inside the player's frame.
//!
//! The mod runs on the game's own thread, so a slow poll is a stutter the
//! player can feel. The survey backs off when a poll runs over budget and
//! recovers gradually once things are healthy; persistently awful polls switch
//! it off outright. The picker is governed separately: it slows down, but it
//! never stops.
//!
//! Durations are whole nanoseconds.
use vstd::prelude::*;

verus! {

/// The survey's normal interval: half a second.
pub const BASE_INTERVAL: u64 = 500_000_000;

/// The longest the survey backs off to.
pub const MAX_INTERVAL: u64 = 4_000_000_000;

/// A poll costing more than this is stealing frames from the player.
pub const POLL_BUDGET: u64 = 8_000_000;

/// Repeatedly blowing this means something is badly wrong; stop entirely.
pub const POLL_HARD_LIMIT: u64 = 40_000_000;

/// How many consecutive awful polls switch the survey off.
pub const STRIKES_BEFORE_DISABLE: u32 = 5;

/// The picker's backoff floor: about one frame.
pub const STEP_GAP_MIN: u64 = 16_000_000;

/// The picker's backoff ceiling: four steps a second.
pub const STEP_GAP_MAX: u64 = 250_000_000;

/// A picker step slower than this many milliseconds is counted.
pub const SLOW_STEP_MS: u64 = 6;

/// A picker step slower than this many milliseconds widens the gap.
pub const VERY_SLOW_STEP_MS: u64 = 25;

/// The poll and step governor.
#[derive(Debug, Clone, Copy, PartialEq, Eq, Structural)]
pub struct Monitor {
    /// How long the survey waits between polls.
    pub interval: u64,
    /// Consecutive polls over budget.
    pub over_budget: u32,
    /// Whether the survey has switched itself off.
    pub disabled: bool,
    /// How long the picker waits between steps; zero means every frame.
    pub step_gap: u64,
    /// Picker steps found slow, for the log's rate limit.
    pub slow_steps: u32,
}

/// The interval stays within its range, and the step gap is either zero or
/// within the picker's backoff range.
pub open spec fn monitor_wf(m: Monitor) -> bool {
    &&& BASE_INTERVAL <= m.interval <= MAX_INTERVAL
    &&& (m.step_gap == 0 || STEP_GAP_MIN <= m.step_gap <= STEP_GAP_MAX)
}

pub open spec fn min_int(a: int, b: int) -> int {
    if a <= b {
        a
    } else {
        b
    }
}

pub open spec fn max_int(a: int, b: int) -> int {
    if a >= b {
        a
    } else {
        b
    }
}

/// The monitor after a poll that took `took`.
pub open spec fn after_poll(m: Monitor, took: u64) -> Monitor {
    if took <= POLL_BUDGET {
        Monitor {
            interval: if m.interval > BASE_INTERVAL {
                max_int((m.interval / 2) as int, BASE_INTERVAL as int) as u64
            } else {
                m.interval
            },
            over_budget: 0,
            disabled: m.disabled,
            step_gap: m.step_gap,
            slow_steps: m.slow_steps,
        }
    } else {
        let strikes = (m.over_budget + 1) as u32;
        Monitor {
            interval: min_int(2 * m.interval, MAX_INTERVAL as int) as u64,
            over_budget: strikes,
            disabled: m.disabled || (took > POLL_HARD_LIMIT && strikes >= STRIKES_BEFORE_DISABLE),
            step_gap: m.step_gap,
            slow_steps: m.slow_steps,
        }
    }
}

/// The monitor after a run of polls, oldest first.
pub open spec fn after_polls(m: Monitor, tooks: Seq<u64>) -> Monitor
    decreases tooks.len(),
{
    if tooks.len() == 0 {
        m
    } else {
        after_poll(after_polls(m, tooks.drop_last()), tooks.last())
    }
}

/// The monitor after a picker step that took `ms` milliseconds, and whether
/// that step is one to mention in the log.
pub open spec fn after_step(m: Monitor, ms: u64) -> (Monitor, bool) {
    if ms > SLOW_STEP_MS {
        let slow = (m.slow_steps + 1) as u32;
        let gap = if ms > VERY_SLOW_STEP_MS {
            max_int(min_int(2 * m.step_gap, STEP_GAP_MAX as int), STEP_GAP_MIN as int) as u64
        } else {
            m.step_gap
        };
        (
            Monitor {
                interval: m.interval,
                over_budget: m.over_budget,
                disabled: m.disabled,
                step_gap: gap,
                slow_steps: slow,
            },
            slow % 120 == 1,
        )
    } else if m.step_gap > 0 {
        let half = m.step_gap / 2;
        (
            Monitor {
                interval: m.interval,
                over_budget: m.over_budget,
                disabled: m.disabled,
                step_gap: if half < STEP_GAP_MIN {
                    0
                } else {
                    half
                },
                slow_steps: m.slow_steps,
            },
            false,
        )
    } else {
        (m, false)
    }
}

impl Monitor {
    /// A fresh monitor: base interval, no strikes, the picker at full pace.
    pub fn new() -> (m: Monitor)
        ensures
            m.interval == BASE_INTERVAL,
            m.over_budget == 0,
            !m.disabled,
            m.step_gap == 0,
            m.slow_steps == 0,
            monitor_wf(m),
    {
        Monitor { interval: BASE_INTERVAL, over_budget: 0, disabled: false, step_gap: 0, slow_steps: 0 }
    }

    /// Account for a survey poll that took `took` nanoseconds.
    ///
    /// A poll within budget narrows the interval back towards the base and
    /// clears the strikes. One over budget doubles the interval, up to the
    /// ceiling; one over the hard limit, on the strike that runs them out,
    /// switches the survey off.
    pub fn observe(&mut self, took: u64)
        requires
            old(self).over_budget < u32::MAX,
        ensures
            *final(self) == after_poll(*old(self), took),
            monitor_wf(*old(self)) ==> monitor_wf(*final(self)),
            took <= POLL_HARD_LIMIT ==> final(self).disabled == old(self).disabled,
            old(self).disabled ==> final(self).disabled,
    {
        if took <= POLL_BUDGET {
            if self.interval > BASE_INTERVAL {
                let half = self.interval / 2;
                self.interval = if half > BASE_INTERVAL {
                    half
                } else {
                    BASE_INTERVAL
                };
            }
            self.over_budget = 0;
            return ;
        }
        self.over_budget = self.over_budget + 1;
        self.interval = if self.interval > MAX_INTERVAL / 2 {
            MAX_INTERVAL
        } else {
            self.interval * 2
        };
        if took > POLL_HARD_LIMIT && self.over_budget >= STRIKES_BEFORE_DISABLE {
            self.disabled = true;
        }
    }

    /// The player switched the mod back on, which is also the moment to give
    /// a survey switched off for cost another chance: it restarts at the base
    /// interval with no strikes, and the picker returns to full pace. True
    /// when the survey had been off.
    pub fn rearm(&mut self) -> (was_off: bool)
        ensures
            was_off == old(self).disabled,
            !final(self).disabled,
            old(self).disabled ==> final(self).interval == BASE_INTERVAL,
            old(self).disabled ==> final(self).over_budget == 0,
            !old(self).disabled ==> final(self).interval == old(self).interval,
            !old(self).disabled ==> final(self).over_budget == old(self).over_budget,
            final(self).step_gap == 0,
            final(self).slow_steps == old(self).slow_steps,
            monitor_wf(*old(self)) ==> monitor_wf(*final(self)),
    {
        let was_off = self.disabled;
        if was_off {
            self.disabled = false;
            self.over_budget = 0;
            self.interval = BASE_INTERVAL;
        }
        self.step_gap = 0;
        was_off
    }

    /// Account for a picker step that took `ms` milliseconds; true when the
    /// step is one to mention in the log.
    ///
    /// A slow step widens the gap between steps, within the backoff range; a
    /// fast one narrows it, and below the floor the picker is back to every
    /// frame. Nothing here ever stops the picker.
    pub fn note_step(&mut self, ms: u64) -> (log: bool)
        requires
            old(self).slow_steps < u32::MAX,
        ensures
            (*final(self), log) == after_step(*old(self), ms),
            monitor_wf(*old(self)) ==> monitor_wf(*final(self)),
            final(self).disabled == old(self).disabled,
    {
        if ms > SLOW_STEP_MS {
            self.slow_steps = self.slow_steps + 1;
            if ms > VERY_SLOW_STEP_MS {
                let doubled = if self.step_gap > STEP_GAP_MAX / 2 {
                    STEP_GAP_MAX
                } else {
                    self.step_gap * 2
                };
                self.step_gap = if doubled < STEP_GAP_MIN {
                    STEP_GAP_MIN
                } else if doubled > STEP_GAP_MAX {
                    STEP_GAP_MAX
                } else {
                    doubled
                };
            }
            self.slow_steps % 120 == 1
        } else {
            if self.step_gap > 0 {
                let half = self.step_gap / 2;
                self.step_gap = if half < STEP_GAP_MIN {
                    0
                } else {
                    half
                };
            }
            false
        }
    }
}

/// Whatever the polls cost, the survey interval stays between the base
/// interval and the ceiling.
pub proof fn lemma_interval_stays_bounded(m: Monitor, tooks: Seq<u64>)
    requires
        monitor_wf(m),
    ensures
        monitor_wf(after_polls(m, tooks)),
    decreases tooks.len(),
{
    if tooks.len() > 0 {
        lemma_interval_stays_bounded(m, tooks.drop_last());
    }
}

/// Polls that are slow but never over the hard limit never switch the survey
/// off, however many of them there are.
pub proof fn lemma_merely_slow_never_disables(m: Monitor, tooks: Seq<u64>)
    requires
        !m.disabled,
        forall|i: int| 0 <= i < tooks.len() ==> tooks[i] <= POLL_HARD_LIMIT,
    ensures
        !after_polls(m, tooks).disabled,
    decreases tooks.len(),
{
    if tooks.len() > 0 {
        lemma_merely_slow_never_disables(m, tooks.drop_last());
    }
}

/// The strikes count the run of polls over budget that ends the sequence.
proof fn lemma_strikes_count(m: Monitor, tooks: Seq<u64>)
    requires
        m.over_budget == 0,
        tooks.len() <= STRIKES_BEFORE_DISABLE,
        forall|i: int| 0 <= i < tooks.len() ==> tooks[i] > POLL_BUDGET,
    ensures
        after_polls(m, tooks).over_budget == tooks.len(),
        after_polls(m, tooks).disabled == (m.disabled || (tooks.len() == STRIKES_BEFORE_DISABLE
            && tooks.last() > POLL_HARD_LIMIT)),
    decreases tooks.len(),
{
    if tooks.len() > 0 {
        lemma_strikes_count(m, tooks.drop_last());
    }
}

/// Starting with no strikes, fewer consecutive awful polls than the strike
/// count leave the survey on, and that many switch it off.
pub proof fn lemma_awful_polls_disable(m: Monitor, tooks: Seq<u64>)
    requires
        !m.disabled,
        m.over_budget == 0,
        tooks.len() <= STRIKES_BEFORE_DISABLE,
        forall|i: int| 0 <= i < tooks.len() ==> tooks[i] > POLL_HARD_LIMIT,
    ensures
        after_polls(m, tooks).disabled <==> tooks.len() == STRIKES_BEFORE_DISABLE,
{
    lemma_strikes_count(m, tooks);
}

/// From anywhere in range, three healthy polls bring the interval back to
/// the base, and further healthy polls keep it there.
pub proof fn lemma_healthy_polls_recover(m: Monitor, tooks: Seq<u64>)
    requires
        monitor_wf(m),
        tooks.len() >= 3,
        forall|i: int| 0 <= i < tooks.len() ==> tooks[i] <= POLL_BUDGET,
    ensures
        after_polls(m, tooks).interval == BASE_INTERVAL,
        after_polls(m, tooks).over_budget == 0,
    decreases tooks.len(),
{
    if tooks.len() == 3 {
        let t1 = tooks.take(1);
        let t2 = tooks.take(2);
        assert(t1.drop_last() =~= Seq::<u64>::empty());
        assert(t2.drop_last() =~= t1);
        assert(tooks.drop_last() =~= t2);
        assert(after_polls(m, t1.drop_last()) == m);
        assert(t1.last() == tooks[0]);
        assert(t2.last() == tooks[1]);
        assert(tooks.last() == tooks[2]);
        let m1 = after_polls(m, t1);
        let m2 = after_polls(m, t2);
        assert(m1 == after_poll(m, tooks[0]));
        assert(m1.interval <= 2_000_000_000);
        assert(m2 == after_poll(m1, tooks[1]));
        assert(m2.interval <= 1_000_000_000);
    } else {
        lemma_healthy_polls_recover(m, tooks.drop_last());
    }
}

} // verus!
