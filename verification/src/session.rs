//! The bookkeeping a session of the mod keeps between frames: which symbols
//! the mod cannot start without, when to look at the config file again, how
//! long to keep asking the game for its libraries, and what the diagnostic
//! survey has already reported.
use vstd::prelude::*;

use crate::config::TypeVocab;
use crate::text::str_eq;

verus! {

/// The game functions the mod cannot start without.
pub const REQUIRED_FUNCS: [&'static str; 6] = [
    "gml_Script_spawn_rewards_choice@gml_Object_obj_run_controller_Create_0",
    "gml_Script_spawn_choice_unified@gml_Object_obj_run_controller_Create_0",
    "gml_Script_spawn_stat_upgrade_choice@gml_Object_obj_run_controller_Create_0",
    "gml_Object_obj_reward_option_Create_0",
    "gml_Object_obj_button_reroll_cards_Create_0",
    "gml_Script_setup_reroll_button@gml_Object_obj_button_reroll_cards_Create_0",
];

/// The game variables the mod cannot start without.
pub const REQUIRED_VARS: [&'static str; 9] = [
    "pending_rewards",
    "reward",
    "reward_type",
    "run_rerolls_left",
    "FREE_REROLLS_PER_RUN_LEFT",
    "FREE_REROLLS_PER_REWARD_LIMIT",
    "free_rerolls_per_reward_left",
    "non_free_rerolls_made",
    "resolve_reroll_cost",
];

// ------------------------------------------------------------ the config file

/// How often the config file is looked at again, in milliseconds.
pub const CONFIG_RECHECK_MS: u64 = 2000;

/// Whether to look at the config file again: always when nothing is loaded,
/// otherwise once the last look is old enough.
pub fn recheck_due(loaded: bool, since_check_ms: u64) -> (r: bool)
    ensures
        r == (!loaded || since_check_ms >= CONFIG_RECHECK_MS),
{
    !loaded || since_check_ms >= CONFIG_RECHECK_MS
}

/// How many times the game's libraries are asked for before giving up. They
/// are up within a few seconds of launch; past this, waiting will not help.
pub const MAX_BUILD_TRIES: u32 = 30;

/// How many times the libraries have been asked for, and whether building
/// from them has been given up for good.
pub struct BuildTries {
    tries: u32,
    gave_up: bool,
}

impl BuildTries {
    pub closed spec fn count(&self) -> u32 {
        self.tries
    }

    pub closed spec fn given_up(&self) -> bool {
        self.gave_up
    }

    pub fn new() -> (b: BuildTries)
        ensures
            b.count() == 0,
            !b.given_up(),
    {
        BuildTries { tries: 0, gave_up: false }
    }

    /// Give up for good: a failure that retrying cannot fix.
    pub fn give_up(&mut self)
        ensures
            final(self).given_up(),
            final(self).count() == old(self).count(),
    {
        self.gave_up = true;
    }

    /// Whether it is still worth asking the game for its libraries, and
    /// whether this is the ask that runs out (to say so once). Each ask
    /// counts; once given up, nothing is asked or counted.
    pub fn ask(&mut self) -> (r: (bool, bool))
        ensures
            old(self).given_up() ==> r == (false, false) && *final(self) == *old(self),
            !old(self).given_up() ==> r == (old(self).count() < MAX_BUILD_TRIES, old(self).count()
                == MAX_BUILD_TRIES) && final(self).count()
                == vstd::wrapping::u32_specs::wrapping_add(old(self).count(), 1) && !final(self).given_up(),
    {
        if self.gave_up {
            return (false, false);
        }
        let n = self.tries;
        self.tries = self.tries.wrapping_add(1);
        (n < MAX_BUILD_TRIES, n == MAX_BUILD_TRIES)
    }
}

/// The reward types of a vocabulary that came out with no option: a section
/// listing nothing would silently make that type unresolvable, so no config
/// is written from such a vocabulary.
pub fn empty_types(vocab: &[TypeVocab<'static>]) -> (r: Vec<&'static str>)
    ensures
        r@ == vocab@.filter(|t: TypeVocab<'static>| t.options.len() == 0).map_values(
            |t: TypeVocab<'static>| t.reward_type,
        ),
{
    let ghost p = |t: TypeVocab<'static>| t.options.len() == 0;
    let ghost f = |t: TypeVocab<'static>| t.reward_type;
    let mut out: Vec<&'static str> = Vec::new();
    let mut i: usize = 0;
    while i < vocab.len()
        invariant
            0 <= i <= vocab.len(),
            p == (|t: TypeVocab<'static>| t.options.len() == 0),
            f == (|t: TypeVocab<'static>| t.reward_type),
            out@ == vocab@.take(i as int).filter(p).map_values(f),
        decreases vocab.len() - i,
    {
        proof {
            vocab@.take(i as int).lemma_filter_push(vocab@[i as int], p);
            assert(vocab@.take(i + 1) =~= vocab@.take(i as int).push(vocab@[i as int]));
        }
        if vocab[i].options.len() == 0 {
            let ghost before = vocab@.take(i as int).filter(p);
            out.push(vocab[i].reward_type);
            assert(before.push(vocab@[i as int]).map_values(f) =~= before.map_values(f).push(
                vocab@[i as int].reward_type,
            ));
        }
        i = i + 1;
    }
    assert(vocab@.take(vocab.len() as int) =~= vocab@);
    out
}

/// How many options a vocabulary lists in all.
pub open spec fn total_options(v: Seq<TypeVocab<'static>>) -> nat
    decreases v.len(),
{
    if v.len() == 0 {
        0
    } else {
        total_options(v.drop_last()) + v.last().options@.len()
    }
}

/// How many options a vocabulary lists in all, for the log.
pub fn option_total(vocab: &[TypeVocab<'static>]) -> (n: usize)
    requires
        total_options(vocab@) <= usize::MAX,
    ensures
        n == total_options(vocab@),
{
    let mut n: usize = 0;
    let mut i: usize = 0;
    while i < vocab.len()
        invariant
            0 <= i <= vocab.len(),
            total_options(vocab@) <= usize::MAX,
            n == total_options(vocab@.take(i as int)),
        decreases vocab.len() - i,
    {
        assert(vocab@.take(i + 1).drop_last() == vocab@.take(i as int));
        assert(vocab@.take(i + 1).last() == vocab@[i as int]);
        proof {
            lemma_total_prefix(vocab@, i + 1);
        }
        n = n + vocab[i].options.len();
        i = i + 1;
    }
    assert(vocab@.take(i as int) == vocab@);
    n
}

proof fn lemma_total_prefix(v: Seq<TypeVocab<'static>>, k: int)
    requires
        0 <= k <= v.len(),
    ensures
        total_options(v.take(k)) <= total_options(v),
    decreases v.len() - k,
{
    if k < v.len() {
        lemma_total_prefix(v, k + 1);
        assert(v.take(k + 1).drop_last() == v.take(k));
    } else {
        assert(v.take(k) == v);
    }
}

// ------------------------------------------------------------ the survey

/// What the survey has already reported, so it reports only changes: whether
/// a run is going, the last queue line and screen description logged, how
/// many choices have been seen, whether one is open now, and whether the
/// game's libraries have been dumped.
pub struct RunWatch {
    in_run: bool,
    last_queue: Option<String>,
    last_ui: Option<String>,
    choices_seen: u32,
    in_choice: bool,
    libraries_dumped: bool,
}

/// What the survey has to say about the gameplay controller.
#[derive(Debug, Clone, Copy, PartialEq, Eq, Structural)]
pub enum RunEvent {
    /// It appeared: a run started.
    Started,
    /// It went: back in the menus.
    Ended,
    /// Nothing new.
    Same,
}

pub open spec fn text_of(o: Option<String>) -> Option<Seq<char>> {
    match o {
        Some(s) => Some(s@),
        None => None,
    }
}

impl RunWatch {
    pub closed spec fn in_run(&self) -> bool {
        self.in_run
    }

    pub closed spec fn last_queue(&self) -> Option<Seq<char>> {
        text_of(self.last_queue)
    }

    pub closed spec fn last_ui(&self) -> Option<Seq<char>> {
        text_of(self.last_ui)
    }

    pub closed spec fn choices_seen(&self) -> u32 {
        self.choices_seen
    }

    pub closed spec fn in_choice(&self) -> bool {
        self.in_choice
    }

    pub closed spec fn libraries_dumped(&self) -> bool {
        self.libraries_dumped
    }

    /// Nothing seen yet.
    pub fn new() -> (w: RunWatch)
        ensures
            !w.in_run(),
            w.last_queue() == None::<Seq<char>>,
            w.last_ui() == None::<Seq<char>>,
            w.choices_seen() == 0,
            !w.in_choice(),
            !w.libraries_dumped(),
    {
        RunWatch {
            in_run: false,
            last_queue: None,
            last_ui: None,
            choices_seen: 0,
            in_choice: false,
            libraries_dumped: false,
        }
    }

    /// Whether the gameplay controller exists: a run starting or ending is
    /// reported once, and leaving a run forgets the last queue line.
    /// How many choices have been seen this session.
    pub fn seen(&self) -> (n: u32)
        ensures
            n == self.choices_seen(),
    {
        self.choices_seen
    }

    pub fn controller(&mut self, present: bool) -> (e: RunEvent)
        ensures
            final(self).in_run() == present,
            e == (if present && !old(self).in_run() {
                RunEvent::Started
            } else if !present && old(self).in_run() {
                RunEvent::Ended
            } else {
                RunEvent::Same
            }),
            final(self).last_queue() == (if !present && old(self).in_run() {
                None
            } else {
                old(self).last_queue()
            }),
            final(self).last_ui() == old(self).last_ui(),
            final(self).choices_seen() == old(self).choices_seen(),
            final(self).in_choice() == old(self).in_choice(),
            final(self).libraries_dumped() == old(self).libraries_dumped(),
    {
        if !present {
            if self.in_run {
                self.in_run = false;
                self.last_queue = None;
                return RunEvent::Ended;
            }
            return RunEvent::Same;
        }
        if !self.in_run {
            self.in_run = true;
            return RunEvent::Started;
        }
        RunEvent::Same
    }

    /// Whether the libraries should be dumped now: once per session.
    pub fn dump_libraries_now(&mut self) -> (r: bool)
        ensures
            r == !old(self).libraries_dumped(),
            final(self).libraries_dumped(),
            final(self).in_run() == old(self).in_run(),
            final(self).last_queue() == old(self).last_queue(),
            final(self).last_ui() == old(self).last_ui(),
            final(self).choices_seen() == old(self).choices_seen(),
            final(self).in_choice() == old(self).in_choice(),
    {
        let r = !self.libraries_dumped;
        self.libraries_dumped = true;
        r
    }

    /// Whether the queue line differs from the last one logged; it becomes
    /// the last one.
    pub fn queue_changed(&mut self, line: String) -> (r: bool)
        ensures
            r == (old(self).last_queue() != Some(line@)),
            final(self).last_queue() == Some(line@),
            final(self).in_run() == old(self).in_run(),
            final(self).last_ui() == old(self).last_ui(),
            final(self).choices_seen() == old(self).choices_seen(),
            final(self).in_choice() == old(self).in_choice(),
            final(self).libraries_dumped() == old(self).libraries_dumped(),
    {
        let same = match &self.last_queue {
            Some(s) => str_eq(s.as_str(), line.as_str()),
            None => false,
        };
        self.last_queue = Some(line);
        !same
    }

    /// A description of the screen, with `cards` option cards on it. `None`
    /// when it is what was last reported; otherwise it becomes the last one,
    /// and the answer says whether a new choice has appeared, by its number.
    pub fn screen(&mut self, ui: String, cards: usize) -> (r: Option<Option<u32>>)
        requires
            old(self).choices_seen() < u32::MAX,
        ensures
            old(self).last_ui() == Some(ui@) ==> r is None && *final(self) == *old(self),
            old(self).last_ui() != Some(ui@) ==> final(self).last_ui() == Some(ui@) && final(self).in_run() == old(self).in_run() && final(self).last_queue() == old(self).last_queue()
                && final(self).libraries_dumped() == old(self).libraries_dumped() && if cards > 0
                && !old(self).in_choice() {
                r == Some(Some((old(self).choices_seen() + 1) as u32)) && final(self).choices_seen()
                    == old(self).choices_seen() + 1 && final(self).in_choice()
            } else {
                r == Some(None::<u32>) && final(self).choices_seen() == old(self).choices_seen()
                    && final(self).in_choice() == (old(self).in_choice() && cards > 0)
            },
    {
        let same = match &self.last_ui {
            Some(s) => str_eq(s.as_str(), ui.as_str()),
            None => false,
        };
        if same {
            return None;
        }
        self.last_ui = Some(ui);
        if cards > 0 && !self.in_choice {
            self.choices_seen = self.choices_seen + 1;
            self.in_choice = true;
            Some(Some(self.choices_seen))
        } else {
            if cards == 0 {
                self.in_choice = false;
            }
            Some(None)
        }
    }
}

// ------------------------------------------------------------ read check

/// Globals whose values are known from the game's own code, so reading them
/// back proves the read path or exposes it: `(variable, value)`.
pub const KNOWN_GLOBALS: [(&'static str, &'static str); 4] = [
    ("REWARD_UNIT_CLASS_STAT", "unit_class_stat"),
    ("REWARD_RESOURCE", "resource"),
    ("REWARD_ARTIFACT", "artifact"),
    ("REWARD_SPELL", "spell"),
];

/// The value [`KNOWN_GLOBALS`] gives variable `i`.
pub open spec fn known_value(i: int) -> Seq<char> {
    KNOWN_GLOBALS@[i].1@
}

/// How many of the first `k` reads gave the known value.
pub open spec fn matches_in(got: Seq<Option<Seq<char>>>, k: int) -> nat
    decreases k,
{
    if k <= 0 {
        0
    } else {
        matches_in(got, k - 1) + if got[k - 1] == Some(known_value(k - 1)) {
            1nat
        } else {
            0nat
        }
    }
}

/// The reads of the known globals, as text: `None` for one that could not
/// be read, or did not hold a string.
pub open spec fn read_texts(got: Seq<Option<String>>) -> Seq<Option<Seq<char>>> {
    Seq::new(
        got.len(),
        |i: int|
            match got[i] {
                Some(t) => Some(t@),
                None => None,
            },
    )
}

/// How many of the known globals read back as expected, `got[i]` being
/// what `KNOWN_GLOBALS[i]` read as. The read path is confirmed only when
/// all of them do.
pub fn known_globals_matching(got: &[Option<String>]) -> (n: usize)
    requires
        got.len() == 4,
    ensures
        n == matches_in(read_texts(got@), 4),
{
    let ghost g = read_texts(got@);
    let mut n: usize = 0;
    let mut i: usize = 0;
    while i < 4
        invariant
            got.len() == 4,
            0 <= i <= 4,
            g == read_texts(got@),
            n == matches_in(g, i as int),
            n <= i,
        decreases 4 - i,
    {
        let ok = match &got[i] {
            Some(t) => str_eq(t.as_str(), KNOWN_GLOBALS[i].1),
            None => false,
        };
        assert(ok == (g[i as int] == Some(known_value(i as int))));
        if ok {
            n = n + 1;
        }
        i = i + 1;
    }
    n
}

// ------------------------------------------------------------ waiting for variables

/// How many times the probe looks for the game's variables, and how long it
/// sleeps before each look: the game fills their ids in during startup.
pub const VAR_WAIT_ROUNDS: u32 = 6;
pub const VAR_WAIT_SECS: u32 = 5;

/// What the probe does after a look at the variables.
#[derive(Debug, Clone, Copy, PartialEq, Eq, Structural)]
pub enum VarWait {
    /// All resolved, this many seconds in.
    Resolved(u32),
    /// Sleep and look again.
    Again,
    /// Out of rounds: not every variable resolved, so the frame hook is not
    /// installed.
    GiveUp,
}

/// After look `round` (from 1) found `resolved` of the `needed` variables:
/// done once all are there, otherwise again until [`VAR_WAIT_ROUNDS`] looks
/// have been made.
pub fn var_wait(round: u32, resolved: usize, needed: usize) -> (r: VarWait)
    requires
        1 <= round <= VAR_WAIT_ROUNDS,
    ensures
        r == (if resolved == needed {
            VarWait::Resolved((round * VAR_WAIT_SECS) as u32)
        } else if round < VAR_WAIT_ROUNDS {
            VarWait::Again
        } else {
            VarWait::GiveUp
        }),
{
    if resolved == needed {
        VarWait::Resolved(round * VAR_WAIT_SECS)
    } else if round < VAR_WAIT_ROUNDS {
        VarWait::Again
    } else {
        VarWait::GiveUp
    }
}

} // verus!
