//! The pace of pressing.
//!
//! A press that does not visibly change anything is a bug to investigate, not
//! something to repeat sixty times a second. Rerolling presses the same button
//! repeatedly, so the gap between presses of one button follows the pace the
//! player set, with a floor no configuration can go below. Times are
//! milliseconds on a clock that only moves forward.
use vstd::prelude::*;

verus! {

/// The shortest gap allowed between two presses of one button.
pub const REPRESS_FLOOR_MS: u64 = 40;

/// The gap before any pace is set.
pub const REPRESS_DEFAULT_MS: u64 = 100;

/// Why a press was refused.
pub const REPRESSED: &'static str = "already pressed this button moments ago";

/// The last press and the gap a second press of the same button must wait.
pub struct PressGuard {
    gap_ms: u64,
    last: Option<(usize, u64)>,
}

impl View for PressGuard {
    type V = (u64, Option<(usize, u64)>);

    closed spec fn view(&self) -> (u64, Option<(usize, u64)>) {
        (self.gap_ms, self.last)
    }
}

/// The gap a pace of `delay_ms` asks for: the pace, but never below the
/// floor.
pub open spec fn pace_gap(delay_ms: u64) -> u64 {
    if delay_ms < REPRESS_FLOOR_MS {
        REPRESS_FLOOR_MS
    } else {
        delay_ms
    }
}

/// Whether a press of `inst` at `now` comes too soon after the last one:
/// the same button, less than the gap ago.
pub open spec fn too_soon(g: (u64, Option<(usize, u64)>), inst: usize, now: u64) -> bool {
    match g.1 {
        Some((prev, when)) => prev == inst && (if now >= when {
            now - when
        } else {
            0
        }) < g.0,
        None => false,
    }
}

impl PressGuard {
    /// No press yet, at the default pace.
    pub fn new() -> (g: PressGuard)
        ensures
            g@ == (REPRESS_DEFAULT_MS, None::<(usize, u64)>),
    {
        PressGuard { gap_ms: REPRESS_DEFAULT_MS, last: None }
    }

    /// Set the gap between presses of one button from `delay_ms`.
    pub fn set_pace(&mut self, delay_ms: u64)
        ensures
            final(self)@ == (pace_gap(delay_ms), old(self)@.1),
    {
        self.gap_ms = if delay_ms < REPRESS_FLOOR_MS {
            REPRESS_FLOOR_MS
        } else {
            delay_ms
        };
    }

    /// The gap in force.
    pub fn gap(&self) -> (r: u64)
        ensures
            r == self@.0,
    {
        self.gap_ms
    }

    /// Ask to press `inst` at `now`. Refused, and nothing recorded, when it
    /// comes too soon after the last press of the same button; otherwise
    /// recorded as the last press.
    pub fn try_press(&mut self, inst: usize, now: u64) -> (r: Result<(), &'static str>)
        ensures
            too_soon(old(self)@, inst, now) ==> r == Err::<(), &'static str>(REPRESSED),
            too_soon(old(self)@, inst, now) ==> final(self)@ == old(self)@,
            !too_soon(old(self)@, inst, now) ==> r is Ok,
            !too_soon(old(self)@, inst, now) ==> final(self)@ == (old(self)@.0, Some((inst, now))),
    {
        match self.last {
            Some((prev, when)) => {
                let since: u64 = if now >= when {
                    now - when
                } else {
                    0
                };
                if prev == inst && since < self.gap_ms {
                    return Err(REPRESSED);
                }
            },
            None => {},
        }
        self.last = Some((inst, now));
        Ok(())
    }
}

/// Whatever pace is set, the gap never goes below the floor.
pub proof fn lemma_pace_has_a_floor(delay_ms: u64)
    ensures
        pace_gap(delay_ms) >= REPRESS_FLOOR_MS,
        delay_ms >= REPRESS_FLOOR_MS ==> pace_gap(delay_ms) == delay_ms,
{
}

/// A press just admitted refuses the same button until the gap has passed,
/// and never stands in the way of another button.
pub proof fn lemma_repress_waits_for_the_gap(gap: u64, inst: usize, t: u64, other: usize, later: u64)
    requires
        gap > 0,
    ensures
        t <= later < t + gap ==> too_soon((gap, Some((inst, t))), inst, later),
        later >= t + gap ==> !too_soon((gap, Some((inst, t))), inst, later),
        other != inst ==> !too_soon((gap, Some((inst, t))), other, later),
{
}

} // verus!
