//! Whether the mod may press buttons, and the chord that flips it.
//!
//! One switch, not two. `[global] act` in the config is the starting value;
//! Ctrl+Alt+P toggles it during play; an edit of `act` in the config also
//! takes effect, because changing it there is a deliberate statement of
//! intent. Observation is never gated: switched off, the mod keeps saying
//! what it would do and presses nothing.
use vstd::prelude::*;

verus! {

/// The switch as contracts see it: whether the mod acts, the last `act` read
/// from the config, and why the mod switched itself off, if it did.
pub struct SwitchView {
    pub acting: bool,
    pub config_act: Option<bool>,
    pub off_reason: Option<Seq<char>>,
}

/// The pressing switch.
pub struct Switch {
    acting: bool,
    config_act: Option<bool>,
    off_reason: Option<String>,
}

pub open spec fn opt_text(o: Option<String>) -> Option<Seq<char>> {
    match o {
        Some(s) => Some(s@),
        None => None,
    }
}

impl View for Switch {
    type V = SwitchView;

    closed spec fn view(&self) -> SwitchView {
        SwitchView {
            acting: self.acting,
            config_act: self.config_act,
            off_reason: opt_text(self.off_reason),
        }
    }
}

/// The switch after the config is read with `act`: a value that differs from
/// the last one read is adopted, and switching on forgets why it was off; the
/// same value again changes nothing, so the runtime toggle stands.
pub open spec fn after_config(s: SwitchView, act: bool) -> SwitchView {
    if s.config_act == Some(act) {
        s
    } else {
        SwitchView {
            acting: act,
            config_act: Some(act),
            off_reason: if act {
                None
            } else {
                s.off_reason
            },
        }
    }
}

/// The switch after the mod stops itself for `reason`: only a switch that
/// was on records a reason; an off one is left as it is.
pub open spec fn after_shut_down(s: SwitchView, reason: Seq<char>) -> SwitchView {
    if s.acting {
        SwitchView { acting: false, config_act: s.config_act, off_reason: Some(reason) }
    } else {
        s
    }
}

/// The switch after the chord: flipped, and switched on it forgets why it
/// was off.
pub open spec fn after_toggle(s: SwitchView) -> SwitchView {
    if s.acting {
        SwitchView { acting: false, config_act: s.config_act, off_reason: s.off_reason }
    } else {
        SwitchView { acting: true, config_act: s.config_act, off_reason: None }
    }
}

/// What the chord did.
#[derive(Debug, Clone, PartialEq, Eq)]
pub enum Toggle {
    /// Now acting; with the shutdown it overrode, if there was one.
    On(Option<String>),
    /// Now only observing.
    Off,
}

impl Switch {
    /// Off, with no config read yet and nothing to explain.
    pub fn new() -> (s: Switch)
        ensures
            s@ == (SwitchView { acting: false, config_act: None, off_reason: None }),
    {
        Switch { acting: false, config_act: None, off_reason: None }
    }

    /// Whether the mod may press a button right now.
    pub fn acting(&self) -> (r: bool)
        ensures
            r == self@.acting,
    {
        self.acting
    }

    /// Why the mod switched itself off, if it did.
    pub fn off_reason(&self) -> (r: Option<String>)
        ensures
            opt_text(r) == self@.off_reason,
    {
        match &self.off_reason {
            Some(s) => Some(s.clone()),
            None => None,
        }
    }

    /// Adopt `act` from the config when it differs from the last value read;
    /// true when an earlier value was replaced, which is worth a log line.
    pub fn note_config_act(&mut self, act: bool) -> (adopted: bool)
        ensures
            final(self)@ == after_config(old(self)@, act),
            adopted == (old(self)@.config_act != Some(act) && old(self)@.config_act is Some),
    {
        let same = match self.config_act {
            Some(a) => a == act,
            None => false,
        };
        if same {
            return false;
        }
        let adopted = self.config_act.is_some();
        self.config_act = Some(act);
        self.acting = act;
        if act {
            self.off_reason = None;
        }
        adopted
    }

    /// Stop pressing, and remember why; true when the switch was on, so the
    /// announcement is made once and not on every later call.
    pub fn shut_down(&mut self, reason: String) -> (newly: bool)
        ensures
            final(self)@ == after_shut_down(old(self)@, reason@),
            newly == old(self)@.acting,
    {
        if !self.acting {
            return false;
        }
        self.acting = false;
        self.off_reason = Some(reason);
        true
    }

    /// The chord was pressed: flip the switch.
    pub fn toggle(&mut self) -> (t: Toggle)
        ensures
            final(self)@ == after_toggle(old(self)@),
            old(self)@.acting ==> t == Toggle::Off,
            !old(self)@.acting ==> (t matches Toggle::On(prev) && opt_text(prev) == old(
                self,
            )@.off_reason),
    {
        if self.acting {
            self.acting = false;
            Toggle::Off
        } else {
            self.acting = true;
            let prev = self.off_reason.take();
            Toggle::On(prev)
        }
    }
}

/// An edge detector for a held chord: holding it fires once, not once a
/// frame.
pub struct Chord {
    pub was_down: bool,
}

impl Chord {
    /// Not held.
    pub fn new() -> (c: Chord)
        ensures
            !c.was_down,
    {
        Chord { was_down: false }
    }

    /// The chord is `down` this frame; true on the frame it goes down.
    pub fn pressed(&mut self, down: bool) -> (fire: bool)
        ensures
            fire == chord_fires(old(self).was_down, seq![down])[0],
            fire == (down && !old(self).was_down),
            final(self).was_down == down,
    {
        let fire = down && !self.was_down;
        self.was_down = down;
        fire
    }
}

/// Two presses of the chord leave the switch acting as it was, and keep the
/// last `act` read from the config.
pub proof fn lemma_toggle_twice_restores(s: SwitchView)
    ensures
        after_toggle(after_toggle(s)).acting == s.acting,
        after_toggle(after_toggle(s)).config_act == s.config_act,
{
}

/// Switching on by the chord always forgets why the mod was off.
pub proof fn lemma_toggle_on_forgets_reason(s: SwitchView)
    requires
        !s.acting,
    ensures
        after_toggle(s).acting,
        after_toggle(s).off_reason is None,
{
}

/// After a shutdown the switch is off; a shutdown of an acting switch
/// records its reason, and a second shutdown keeps the first reason.
pub proof fn lemma_shut_down_keeps_first_reason(s: SwitchView, r1: Seq<char>, r2: Seq<char>)
    ensures
        !after_shut_down(s, r1).acting,
        s.acting ==> after_shut_down(s, r1).off_reason == Some(r1),
        after_shut_down(after_shut_down(s, r1), r2) == after_shut_down(s, r1),
{
}

/// Reading the same `act` again changes nothing, so a toggle made since the
/// last edit stands; a changed `act` decides the switch.
pub proof fn lemma_config_edit_decides(s: SwitchView, act: bool)
    ensures
        after_config(after_config(s, act), act) == after_config(s, act),
        s.config_act != Some(act) ==> after_config(s, act).acting == act,
        after_config(after_toggle(after_config(s, act)), act) == after_toggle(after_config(s, act)),
{
}

/// Which frames fire, for a chord last seen `was_down` and then `downs`,
/// frame by frame.
pub open spec fn chord_fires(was_down: bool, downs: Seq<bool>) -> Seq<bool>
    decreases downs.len(),
{
    if downs.len() == 0 {
        Seq::empty()
    } else {
        seq![downs[0] && !was_down] + chord_fires(downs[0], downs.drop_first())
    }
}

/// A chord held over several frames fires on the first of them only, and
/// not even then if it was already held.
pub proof fn lemma_held_chord_fires_once(was_down: bool, downs: Seq<bool>)
    requires
        forall|i: int| 0 <= i < downs.len() ==> downs[i],
    ensures
        chord_fires(was_down, downs).len() == downs.len(),
        downs.len() > 0 ==> chord_fires(was_down, downs)[0] == !was_down,
        forall|i: int| 1 <= i < downs.len() ==> !chord_fires(was_down, downs)[i],
    decreases downs.len(),
{
    if downs.len() > 0 {
        let rest = downs.drop_first();
        lemma_held_chord_fires_once(downs[0], rest);
        assert forall|i: int| 1 <= i < downs.len() implies !chord_fires(was_down, downs)[i] by {
            assert(chord_fires(was_down, downs)[i] == chord_fires(downs[0], rest)[i - 1]);
            if i - 1 == 0 {
                assert(rest[0]);
            }
        }
    }
}

} // verus!
