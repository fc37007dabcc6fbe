//! Turning a live choice into a decision, and a decision into an action.
//!
//! The game is read and pressed elsewhere; what is decided about what was
//! read is decided here: which config section a card belongs to, what the
//! next reroll costs, which card carries the chosen id, and when to leave the
//! cards alone.
//!
//! It never acts on its own account: every function returns what should be
//! done, and the caller does it.
use vstd::prelude::*;

use crate::picker::{Decision, Economy, RerollCost};
use crate::text::{decimal, push_decimal, push_str, str_eq};
use crate::parse::strs;
use crate::vocab::{kinds_table, improvement_kinds, UNIT_CLASSES, UNIT_STATS};

verus! {

// ------------------------------------------------------------ card objects

/// The option cards a queued reward presents, and the member on each that
/// carries the option's identity.
pub const CARD_OBJECTS: [(&'static str, &'static str); 7] = [
    ("obj_card_resource", "resource_contained"),
    ("obj_card_artifact", "artifact_contained"),
    ("obj_card_spell", "spell_contained"),
    ("obj_card_improvement", "improvement_contained"),
    ("obj_card_upgrade", "upgrade_contained"),
    ("obj_card_start_bonus", "start_bonus_packs_contained"),
    ("obj_card_class_stat_bonus", "class_stat_bonuses_contained"),
];

/// The improvement section a declared reward type names, if it names one.
pub open spec fn improvement_section(declared: Seq<char>) -> Option<&'static str>
    decreases 12nat,
{
    section_from(declared, 0)
}

pub open spec fn section_from(declared: Seq<char>, i: int) -> Option<&'static str>
    decreases 12 - i,
{
    if i < 0 || i >= 12 {
        None
    } else if kinds_table()[i].section@ == declared {
        Some(kinds_table()[i].section)
    } else {
        section_from(declared, i + 1)
    }
}

/// The config section for a card object.
///
/// By card object, not by the reward's declared type: when a type's
/// candidates are exhausted the game can offer resource cards under another
/// declared type, and acting on the declaration would apply the wrong
/// preferences. The one exception narrows rather than overrides: every
/// improvement arrives as `obj_card_improvement`, so the open reward's
/// declared type picks which improvement section applies, and a declared
/// type that is not one of them is refused. Start bonus cards carry no id
/// and are refused by design.
pub open spec fn config_type_spec(card_object: Seq<char>, declared: Option<Seq<char>>) -> Option<&'static str> {
    if card_object == "obj_card_resource"@ {
        Some("resource")
    } else if card_object == "obj_card_artifact"@ {
        Some("artifact")
    } else if card_object == "obj_card_spell"@ {
        Some("spell")
    } else if card_object == "obj_card_upgrade"@ {
        Some("upgrade")
    } else if card_object == "obj_card_class_stat_bonus"@ {
        Some("unit_class_stat")
    } else if card_object == "obj_card_improvement"@ {
        match declared {
            Some(d) => improvement_section(d),
            None => None,
        }
    } else {
        None
    }
}

pub open spec fn opt_view(o: Option<&str>) -> Option<Seq<char>> {
    match o {
        Some(s) => Some(s@),
        None => None,
    }
}

/// The improvement section named `declared`, if there is one.
fn improvement_for(d: &str) -> (r: Option<&'static str>)
    ensures
        r == improvement_section(d@),
{
    let kinds = improvement_kinds();
    assert(kinds.len() == 12);
    let mut i: usize = 0;
    while i < kinds.len()
        invariant
            0 <= i <= kinds.len(),
            kinds@ == kinds_table(),
            improvement_section(d@) == section_from(d@, i as int),
        decreases kinds.len() - i,
    {
        assert(kinds@[i as int] == kinds_table()[i as int]);
        if str_eq(kinds[i].section, d) {
            assert(section_from(d@, i as int) == Some(kinds_table()[i as int].section));
            return Some(kinds[i].section);
        }
        assert(section_from(d@, i as int) == section_from(d@, i + 1));
        i = i + 1;
    }
    None
}

/// The config section for a card object; `declared` is the open reward's
/// declared type, where it could be read.
pub fn config_type_for(card_object: &str, declared: Option<&str>) -> (r: Option<&'static str>)
    ensures
        r == config_type_spec(card_object@, opt_view(declared)),
{
    if str_eq(card_object, "obj_card_resource") {
        Some("resource")
    } else if str_eq(card_object, "obj_card_artifact") {
        Some("artifact")
    } else if str_eq(card_object, "obj_card_spell") {
        Some("spell")
    } else if str_eq(card_object, "obj_card_upgrade") {
        Some("upgrade")
    } else if str_eq(card_object, "obj_card_class_stat_bonus") {
        Some("unit_class_stat")
    } else if str_eq(card_object, "obj_card_improvement") {
        match declared {
            None => None,
            Some(d) => improvement_for(d),
        }
    } else {
        None
    }
}

/// The config key of a Troops Training bonus: `class.stat`, from the
/// positional class and stat indices the card carries. `None` for an index
/// outside the known classes or stats.
pub fn troop_key(class: i64, stat: i64) -> (r: Option<String>)
    ensures
        match r {
            Some(k) => 0 <= class < 8 && 0 <= stat < 2 && k@ == UNIT_CLASSES@[class as int]@
                + "."@ + UNIT_STATS@[stat as int]@,
            None => !(0 <= class < 8 && 0 <= stat < 2),
        },
{
    if class < 0 || class >= 8 || stat < 0 || stat >= 2 {
        return None;
    }
    let mut k = String::new();
    push_str(&mut k, UNIT_CLASSES[class as usize]);
    push_str(&mut k, ".");
    push_str(&mut k, UNIT_STATS[stat as usize]);
    Some(k)
}

// ------------------------------------------------------------ the economy

/// How many rerolls the mod itself has made for the reward now open. The
/// budgets are per reward, so this starts again when a new choice appears;
/// rerolls the player made by hand are theirs and are not counted.
#[derive(Debug, Clone, Copy, PartialEq, Eq, Structural)]
pub struct Spent {
    pub voodoo: u32,
    pub free: u32,
    pub paid: u32,
}

impl Spent {
    /// Nothing spent.
    pub fn zero() -> (s: Spent)
        ensures
            s == (Spent { voodoo: 0, free: 0, paid: 0 }),
    {
        Spent { voodoo: 0, free: 0, paid: 0 }
    }

    /// What spending one reroll of `cost` counts as.
    pub open spec fn after(self, cost: RerollCost) -> Spent {
        match cost {
            RerollCost::Voodoo => Spent { voodoo: (self.voodoo + 1) as u32, ..self },
            RerollCost::Free => Spent { free: (self.free + 1) as u32, ..self },
            RerollCost::Paid(_) => Spent { paid: (self.paid + 1) as u32, ..self },
            RerollCost::Unavailable => self,
        }
    }

    /// Count one reroll of `cost`; an unavailable reroll counts as nothing.
    pub fn record(&mut self, cost: RerollCost)
        requires
            old(self).voodoo < u32::MAX,
            old(self).free < u32::MAX,
            old(self).paid < u32::MAX,
        ensures
            *final(self) == old(self).after(cost),
    {
        match cost {
            RerollCost::Voodoo => self.voodoo = self.voodoo + 1,
            RerollCost::Free => self.free = self.free + 1,
            RerollCost::Paid(_) => self.paid = self.paid + 1,
            RerollCost::Unavailable => {},
        }
    }
}

/// What the next reroll costs, as the game decides it: the per-reward
/// freebie first, then the reign-wide pool, and only then denarii -- at a
/// price the mod could read, or not at all. No reroll button, no reroll.
pub open spec fn reroll_cost_spec(button: bool, voodoo_left: bool, pool_left: bool, price: Option<i64>) -> RerollCost {
    if !button {
        RerollCost::Unavailable
    } else if voodoo_left {
        RerollCost::Voodoo
    } else if pool_left {
        RerollCost::Free
    } else {
        match price {
            Some(p) => RerollCost::Paid(p),
            None => RerollCost::Unavailable,
        }
    }
}

/// Whether the paid price has to be read to know what the next reroll costs:
/// only when both free kinds are spent, and not once it has proved unreadable.
pub fn needs_price(button: bool, voodoo_left: bool, pool_left: bool, price_unreadable: bool) -> (r: bool)
    ensures
        r == (button && !voodoo_left && !pool_left && !price_unreadable),
{
    button && !voodoo_left && !pool_left && !price_unreadable
}

/// What the next reroll costs; see [`reroll_cost_spec`]. `price` is the paid
/// price if it was read.
pub fn reroll_cost(button: bool, voodoo_left: bool, pool_left: bool, price: Option<i64>) -> (r: RerollCost)
    ensures
        r == reroll_cost_spec(button, voodoo_left, pool_left, price),
{
    if !button {
        RerollCost::Unavailable
    } else if voodoo_left {
        RerollCost::Voodoo
    } else if pool_left {
        RerollCost::Free
    } else {
        match price {
            Some(p) => RerollCost::Paid(p),
            None => RerollCost::Unavailable,
        }
    }
}

/// The economy the picker decides against: the next cost, the balance, and
/// what the mod has spent on this reward.
pub fn economy(next_cost: RerollCost, denarii: i64, spent: Spent) -> (e: Economy)
    ensures
        e.next_cost == next_cost,
        e.denarii == denarii,
        e.voodoo_used == spent.voodoo,
        e.free_used == spent.free,
        e.paid_used == spent.paid,
{
    Economy {
        next_cost,
        denarii,
        voodoo_used: spent.voodoo,
        free_used: spent.free,
        paid_used: spent.paid,
    }
}

/// A coin price as read: usable if it is not negative.
pub fn check_price(n: i64) -> (r: Result<i64, String>)
    ensures
        match r {
            Ok(p) => n >= 0 && p == n,
            Err(e) => n < 0 && e@ == "the coin price came out negative ("@ + "-"@ + decimal(
                (0 - n) as nat,
            ) + ")"@,
        },
{
    if n >= 0 {
        Ok(n)
    } else {
        let mut e = String::new();
        push_str(&mut e, "the coin price came out negative (");
        push_str(&mut e, "-");
        let m: u64 = if n == i64::MIN {
            0x8000_0000_0000_0000u64
        } else {
            (-n) as u64
        };
        push_decimal(&mut e, m);
        push_str(&mut e, ")");
        Err(e)
    }
}

// ------------------------------------------------------------ reading a choice

/// What one kind of option card on screen means for the read.
#[derive(Debug, Clone, PartialEq, Eq)]
pub enum Verdict {
    /// None of these cards: look at the next kind.
    Skip,
    /// Something the mod does not understand: stop entirely, saying why.
    Stop(String),
    /// Nothing to decide yet, or nothing the mod will decide: leave it.
    Wait,
    /// Read these cards' ids, for this config section.
    Read(&'static str),
}

/// The message for two kinds of card at once.
pub open spec fn two_kinds_msg(obj: Seq<char>) -> Seq<char> {
    "two kinds of option card on screen at once ("@ + obj + ")"@
}

/// The message for a card that carries no id.
pub open spec fn no_id_msg(obj: Seq<char>) -> Seq<char> {
    obj + " carries no addressable id; refusing to automate it"@
}

/// What the cards of `obj` mean: `count` of them on screen, whether another
/// kind was already found, whether every one is built, and the config
/// section they map to.
///
/// Two kinds of card at once is not something the game does, so the mod
/// stops. Cards hold placeholder values for a few frames after they appear,
/// so none is read until all are built. Improvement cards whose section
/// cannot be told are left to the player; any other card without a section
/// carries no id the mod could act on, and the mod stops.
pub fn card_verdict(
    found_before: bool,
    count: usize,
    all_ready: bool,
    obj: &str,
    config_type: Option<&'static str>,
) -> (r: Verdict)
    ensures
        count == 0 ==> r == Verdict::Skip,
        count > 0 && found_before ==> (r matches Verdict::Stop(m) && m@ == two_kinds_msg(obj@)),
        count > 0 && !found_before && !all_ready ==> r == Verdict::Wait,
        count > 0 && !found_before && all_ready ==> match config_type {
            Some(t) => r == Verdict::Read(t),
            None => if obj@ == "obj_card_improvement"@ {
                r == Verdict::Wait
            } else {
                (r matches Verdict::Stop(m) && m@ == no_id_msg(obj@))
            },
        },
{
    if count == 0 {
        Verdict::Skip
    } else if found_before {
        let mut m = String::new();
        push_str(&mut m, "two kinds of option card on screen at once (");
        push_str(&mut m, obj);
        push_str(&mut m, ")");
        Verdict::Stop(m)
    } else if !all_ready {
        Verdict::Wait
    } else {
        match config_type {
            Some(t) => Verdict::Read(t),
            None => if str_eq(obj, "obj_card_improvement") {
                Verdict::Wait
            } else {
                let mut m = String::new();
                push_str(&mut m, obj);
                push_str(&mut m, " carries no addressable id; refusing to automate it");
                Verdict::Stop(m)
            },
        }
    }
}

/// The message for a card whose option cannot be identified.
pub open spec fn unidentified_msg(obj: Seq<char>) -> Seq<char> {
    "could not identify an option on a "@ + obj + " card"@
}

/// The ids read off the cards of `obj`, in card order, if every card gave
/// one; otherwise the problem.
pub fn collect_ids(obj: &str, ids: Vec<Option<String>>) -> (r: Result<Vec<String>, String>)
    ensures
        match r {
            Ok(v) => v.len() == ids.len() && forall|i: int|
                0 <= i < ids.len() ==> ids@[i] == Some(#[trigger] v@[i]),
            Err(m) => (exists|i: int| 0 <= i < ids.len() && ids@[i] is None) && m@
                == unidentified_msg(obj@),
        },
{
    ids_of(obj, ids.as_slice())
}

fn unidentified_message(obj: &str) -> (m: String)
    ensures
        m@ == unidentified_msg(obj@),
{
    let mut m = String::new();
    push_str(&mut m, "could not identify an option on a ");
    push_str(&mut m, obj);
    push_str(&mut m, " card");
    m
}

fn ids_of(obj: &str, ids: &[Option<String>]) -> (r: Result<Vec<String>, String>)
    ensures
        match r {
            Ok(v) => v.len() == ids.len() && forall|i: int|
                0 <= i < ids.len() ==> ids@[i] == Some(#[trigger] v@[i]),
            Err(m) => (exists|i: int| 0 <= i < ids.len() && ids@[i] is None) && m@
                == unidentified_msg(obj@),
        },
{
    let mut out: Vec<String> = Vec::new();
    let mut i: usize = 0;
    while i < ids.len()
        invariant
            0 <= i <= ids.len(),
            out.len() == i,
            forall|j: int| 0 <= j < i ==> ids@[j] == Some(#[trigger] out@[j]),
        decreases ids.len() - i,
    {
        match &ids[i] {
            Some(id) => out.push(id.clone()),
            None => {
                return Err(unidentified_message(obj));
            },
        }
        i = i + 1;
    }
    Ok(out)
}

/// What the screen shows of one kind of option card: the card instances in
/// order, whether every one is built, the open reward's declared type where
/// it could be read (only improvement cards need it), and the id read off
/// each card, if one could be.
pub struct CardKind {
    pub obj: &'static str,
    pub cards: Vec<usize>,
    pub all_ready: bool,
    pub declared: Option<String>,
    pub ids: Vec<Option<String>>,
}

/// The declared type a kind carries, as text.
pub open spec fn declared_view(k: CardKind) -> Option<Seq<char>> {
    match k.declared {
        Some(d) => Some(d@),
        None => None,
    }
}

/// The config section a kind of card maps to: decided by the card object,
/// and for improvement cards by the declared type (see
/// [`config_type_spec`]).
pub open spec fn section_of_kind(k: CardKind) -> Option<&'static str> {
    config_type_spec(k.obj@, declared_view(k))
}

fn declared_str(k: &CardKind) -> (r: Option<&str>)
    ensures
        opt_view(r) == declared_view(*k),
{
    match &k.declared {
        Some(d) => Some(d.as_str()),
        None => None,
    }
}

/// A start bonus card maps to no config section, whatever type is declared.
pub proof fn lemma_start_bonus_has_no_section(declared: Option<Seq<char>>)
    ensures
        config_type_spec("obj_card_start_bonus"@, declared) is None,
{
    reveal_strlit("obj_card_start_bonus");
    reveal_strlit("obj_card_resource");
    reveal_strlit("obj_card_artifact");
    reveal_strlit("obj_card_spell");
    reveal_strlit("obj_card_upgrade");
    reveal_strlit("obj_card_class_stat_bonus");
    reveal_strlit("obj_card_improvement");
    let b = "obj_card_start_bonus"@;
    assert(b != "obj_card_resource"@ && b != "obj_card_artifact"@ && b != "obj_card_upgrade"@) by {
        assert(b[9] != "obj_card_resource"@[9]);
        assert(b[9] != "obj_card_artifact"@[9]);
        assert(b[9] != "obj_card_upgrade"@[9]);
    }
    assert(b != "obj_card_spell"@ && b != "obj_card_class_stat_bonus"@ && b != "obj_card_improvement"@) by {
        assert(b.len() != "obj_card_spell"@.len());
        assert(b.len() != "obj_card_class_stat_bonus"@.len());
        assert(b[9] != "obj_card_improvement"@[9]);
    }
}

/// How a read of the screen ends.
pub enum ReadEnd {
    /// Something the mod does not understand: stop, saying this.
    Stop(Seq<char>),
    /// Nothing to decide yet, or nothing the mod will decide.
    Wait,
    /// The cards of this kind are the choice.
    Got(int),
    /// No option cards at all.
    Nothing,
}

/// The read of `ks` from kind `i` on, with the kind already found, if any.
///
/// Kinds without cards are passed over. A second kind with cards stops the
/// mod; so does a card with no section, unless it is an improvement card,
/// which is left to the player; so does a card whose id cannot be read, or
/// a kind with not exactly one id read per card.
/// Until every card of the kind is built, nothing is read.
pub open spec fn read_from(ks: Seq<CardKind>, i: int, found: Option<int>) -> ReadEnd
    decreases ks.len() - i,
{
    if i < 0 || i >= ks.len() {
        match found {
            Some(k) => ReadEnd::Got(k),
            None => ReadEnd::Nothing,
        }
    } else {
        let k = ks[i];
        if k.cards.len() == 0 {
            read_from(ks, i + 1, found)
        } else if found is Some {
            ReadEnd::Stop(two_kinds_msg(k.obj@))
        } else if !k.all_ready {
            ReadEnd::Wait
        } else {
            match section_of_kind(k) {
                None => if k.obj@ == "obj_card_improvement"@ {
                    ReadEnd::Wait
                } else {
                    ReadEnd::Stop(no_id_msg(k.obj@))
                },
                Some(_) => if k.ids.len() != k.cards.len() || exists|j: int|
                    0 <= j < k.ids.len() && k.ids@[j] is None {
                    ReadEnd::Stop(unidentified_msg(k.obj@))
                } else {
                    read_from(ks, i + 1, Some(i))
                },
            }
        }
    }
}

/// A choice as the mod sees it: which card object, the config section it
/// maps to, the option ids on offer and the card instances carrying them
/// (in card order), and whether a scrap button is up.
pub struct Choice {
    pub card_object: &'static str,
    pub config_type: &'static str,
    pub options: Vec<String>,
    pub cards: Vec<usize>,
    pub scrap_available: bool,
}

/// Where `id` first appears among the options, if it does.
pub open spec fn first_option(options: Seq<Seq<char>>, id: Seq<char>) -> Option<int> {
    if exists|i: int| 0 <= i < options.len() && options[i] == id {
        Some(choose|i: int| 0 <= i < options.len() && options[i] == id && forall|j: int| 0 <= j < i ==> options[j] != id)
    } else {
        None
    }
}

impl Choice {
    /// The card carrying option `id`: the card at the position of the first
    /// option with that id, if there is one.
    pub fn card_of(&self, id: &str) -> (r: Option<usize>)
        ensures
            r == (match first_option(strs(self.options@), id@) {
                Some(i) => if i < self.cards.len() {
                    Some(self.cards@[i])
                } else {
                    None
                },
                None => None,
            }),
    {
        let ghost opts = strs(self.options@);
        let mut i: usize = 0;
        while i < self.options.len()
            invariant
                0 <= i <= self.options.len(),
                opts == strs(self.options@),
                forall|j: int| 0 <= j < i ==> opts[j] != id@,
            decreases self.options.len() - i,
        {
            if str_eq(self.options[i].as_str(), id) {
                proof {
                    assert(opts[i as int] == id@);
                    let k = choose|k: int|
                        0 <= k < opts.len() && opts[k] == id@ && forall|j: int|
                            0 <= j < k ==> opts[j] != id@;
                    if k < i {
                        assert(opts[k] != id@);
                    } else if k > i {
                        assert(opts[i as int] != id@);
                    }
                }
                if i < self.cards.len() {
                    return Some(self.cards[i]);
                } else {
                    return None;
                }
            }
            i = i + 1;
        }
        None
    }
}

/// The index found so far, from what the read loop holds.
pub open spec fn found_at(f: Option<(usize, &'static str, Vec<String>)>) -> Option<int> {
    match f {
        Some((k, _, _)) => Some(k as int),
        None => None,
    }
}

/// The choice on screen, read from what the screen shows of each kind of
/// option card, with whether a scrap button is up.
///
/// `Ok(None)` when there is nothing to decide; `Err` when there is something
/// on screen the mod does not understand, which is a reason to stop entirely
/// rather than skip.
pub fn read_choice(kinds: &[CardKind], scrap_available: bool) -> (r: Result<Option<Choice>, String>)
    ensures
        match read_from(kinds@, 0, None) {
            ReadEnd::Stop(m) => (r matches Err(e) && e@ == m),
            ReadEnd::Wait => r matches Ok(None),
            ReadEnd::Nothing => r matches Ok(None),
            ReadEnd::Got(k) => (r matches Ok(Some(c)) && 0 <= k < kinds.len() && c.card_object
                == kinds@[k].obj && Some(c.config_type) == section_of_kind(kinds@[k])
                && c.card_object@ != "obj_card_start_bonus"@ && c.cards@
                == kinds@[k].cards@ && c.options.len() == kinds@[k].ids.len() && (forall|j: int|
                0 <= j < c.options.len() ==> kinds@[k].ids@[j] == Some(#[trigger] c.options@[j]))
                && c.options.len() == c.cards.len() && c.scrap_available == scrap_available),
        },
{
    let mut found: Option<(usize, &'static str, Vec<String>)> = None;
    let mut i: usize = 0;
    while i < kinds.len()
        invariant
            0 <= i <= kinds.len(),
            read_from(kinds@, 0, None) == read_from(kinds@, i as int, found_at(found)),
            found matches Some((k, t, opts)) ==> (k < i && section_of_kind(kinds@[k as int]) == Some(t)
                && opts.len() == kinds@[k as int].ids.len() && opts.len()
                == kinds@[k as int].cards.len() && forall|j: int|
                0 <= j < opts.len() ==> kinds@[k as int].ids@[j] == Some(#[trigger] opts@[j])),
        decreases kinds.len() - i,
    {
        let kind = &kinds[i];
        let section = config_type_for(kind.obj, declared_str(kind));
        let verdict = card_verdict(
            found.is_some(),
            kind.cards.len(),
            kind.all_ready,
            kind.obj,
            section,
        );
        proof {
            assert(kinds@[i as int] == *kind);
        }
        match verdict {
            Verdict::Skip => {
                assert(read_from(kinds@, i as int, found_at(found)) == read_from(
                    kinds@,
                    i + 1,
                    found_at(found),
                ));
            },
            Verdict::Stop(m) => {
                return Err(m);
            },
            Verdict::Wait => {
                return Ok(None);
            },
            Verdict::Read(t) => {
                if kind.ids.len() != kind.cards.len() {
                    return Err(unidentified_message(kind.obj));
                }
                match ids_of(kind.obj, kind.ids.as_slice()) {
                    Ok(opts) => {
                        proof {
                            assert(!exists|j: int| 0 <= j < kind.ids.len() && kind.ids@[j] is None)
                                by {
                                assert forall|j: int| 0 <= j < kind.ids.len() implies !(
                                kind.ids@[j] is None) by {
                                    assert(kind.ids@[j] == Some(opts@[j]));
                                }
                            }
                            assert(read_from(kinds@, i as int, None) == read_from(
                                kinds@,
                                i + 1,
                                Some(i as int),
                            ));
                        }
                        found = Some((i, t, opts));
                    },
                    Err(m) => {
                        return Err(m);
                    },
                }
            },
        }
        i = i + 1;
    }
    match found {
        Some((k, t, opts)) => {
            proof {
                lemma_start_bonus_has_no_section(declared_view(kinds@[k as int]));
            }
            Ok(
            Some(
                Choice {
                    card_object: kinds[k].obj,
                    config_type: t,
                    options: opts,
                    cards: kinds[k].cards.clone(),
                    scrap_available,
                },
            ),
        )
        },
        None => Ok(None),
    }
}

// ------------------------------------------------------------ acting

/// What to do about a decision.
#[derive(Debug, Clone, PartialEq, Eq)]
pub enum Step {
    /// Press the select button of this card, which carries the chosen id.
    Pick(String, usize),
    /// The chosen id is on no card the mod can find.
    PickNoCard(String),
    /// Say what would be picked; the mod is not acting.
    WouldPick(String),
    /// Take back the hover, press reroll, and count the reroll.
    Reroll,
    /// Say that it would reroll; the mod is not acting.
    WouldReroll,
    /// A reroll was decided but there is no reroll button.
    NoRerollButton,
    /// Leave the choice to the player, for this reason.
    Leave(&'static str),
}

/// What to do about `decision` on `choice`, acting or only saying so.
pub fn plan(decision: &Decision, choice: &Choice, acting: bool, reroll_button: bool) -> (r: Step)
    ensures
        match decision {
            Decision::Pick(id) => if !acting {
                r == Step::WouldPick(*id)
            } else {
                match first_option(strs(choice.options@), id@) {
                    Some(i) => if i < choice.cards.len() {
                        (r matches Step::Pick(x, c) && x@ == id@ && c == choice.cards@[i])
                    } else {
                        (r matches Step::PickNoCard(x) && x@ == id@)
                    },
                    None => (r matches Step::PickNoCard(x) && x@ == id@),
                }
            },
            Decision::Reroll => r == (if !acting {
                Step::WouldReroll
            } else if reroll_button {
                Step::Reroll
            } else {
                Step::NoRerollButton
            }),
            Decision::Manual(why) => r == Step::Leave(*why),
        },
{
    match decision {
        Decision::Pick(id) => {
            if !acting {
                Step::WouldPick(id.clone())
            } else {
                match choice.card_of(id.as_str()) {
                    Some(c) => Step::Pick(id.clone(), c),
                    None => Step::PickNoCard(id.clone()),
                }
            }
        },
        Decision::Reroll => if !acting {
            Step::WouldReroll
        } else if reroll_button {
            Step::Reroll
        } else {
            Step::NoRerollButton
        },
        Decision::Manual(why) => Step::Leave(*why),
    }
}

/// The last line said, so an unchanged one is said once: the same choice
/// stays on screen for many frames.
pub struct LastLine {
    last: Option<String>,
}

impl LastLine {
    pub closed spec fn said(&self) -> Option<Seq<char>> {
        match self.last {
            Some(s) => Some(s@),
            None => None,
        }
    }

    pub fn new() -> (l: LastLine)
        ensures
            l.said() == None::<Seq<char>>,
    {
        LastLine { last: None }
    }

    /// Whether `line` repeats the last line; it becomes the last line.
    pub fn repeats(&mut self, line: String) -> (r: bool)
        ensures
            r == (old(self).said() == Some(line@)),
            final(self).said() == Some(line@),
    {
        let same = match &self.last {
            Some(s) => str_eq(s.as_str(), line.as_str()),
            None => false,
        };
        self.last = Some(line);
        same
    }
}

// ------------------------------------------------------------ settling

/// How long to leave the cards alone after a pick or a reroll, in
/// milliseconds: the game animates them out, and for some frames their
/// contents are being torn down.
pub const PICK_SETTLE_MS: u64 = 400;

/// How long to wait for a choice to appear after opening the queue, in
/// milliseconds. Cards take several frames to be created; without a wait the
/// mod would see no cards the next frame and open the queue again.
pub const OPEN_SETTLE_MS: u64 = 2500;

/// A wait that started at some moment, or none.
pub struct Settle {
    started: Option<u64>,
}

impl Settle {
    pub closed spec fn since(&self) -> Option<u64> {
        self.started
    }

    /// Not waiting.
    pub fn idle() -> (s: Settle)
        ensures
            s.since() == None::<u64>,
    {
        Settle { started: None }
    }

    /// Start waiting at `now`.
    pub fn begin(&mut self, now: u64)
        ensures
            final(self).since() == Some(now),
    {
        self.started = Some(now);
    }

    /// Stop waiting.
    pub fn cancel(&mut self)
        ensures
            final(self).since() == None::<u64>,
    {
        self.started = None;
    }

    /// Whether still waiting at `now`, for a wait of `window`. A wait that has
    /// run out is forgotten, so a wait that never ends cannot wedge the mod.
    pub fn active(&mut self, now: u64, window: u64) -> (r: bool)
        ensures
            match old(self).since() {
                Some(t) => if (if now >= t { now - t } else { 0 }) < window {
                    r && final(self).since() == Some(t)
                } else {
                    !r && final(self).since() == None::<u64>
                },
                None => !r && final(self).since() == None::<u64>,
            },
    {
        match self.started {
            Some(t) => {
                let elapsed = if now >= t {
                    now - t
                } else {
                    0
                };
                if elapsed < window {
                    true
                } else {
                    self.started = None;
                    false
                }
            },
            None => false,
        }
    }
}

// ------------------------------------------------------------ the queue

/// What to do when no choice is open.
#[derive(Debug, Clone, Copy, PartialEq, Eq, Structural)]
pub enum Open {
    /// A reward was just opened and its cards are not up yet.
    Wait,
    /// The queue cannot be opened now, or its head cannot be read.
    Nothing,
    /// The head has no config section: the drain stops here, strictly first
    /// in, first out.
    Stop,
    /// Say that the next reward would be opened; the mod is not acting.
    WouldOpen,
    /// Press the queue button.
    Press(usize),
}

/// What to do when no choice is open, given the queue button (if the queue
/// can be opened), whether the head's type could be read, and whether the
/// config has a section for it.
pub fn open_plan(awaiting: bool, button: Option<usize>, head_read: bool, configured: bool, acting: bool) -> (r: Open)
    ensures
        r == (if awaiting {
            Open::Wait
        } else {
            match button {
                None => Open::Nothing,
                Some(b) => if !head_read {
                    Open::Nothing
                } else if !configured {
                    Open::Stop
                } else if !acting {
                    Open::WouldOpen
                } else {
                    Open::Press(b)
                },
            }
        }),
{
    if awaiting {
        Open::Wait
    } else {
        match button {
            None => Open::Nothing,
            Some(b) => if !head_read {
                Open::Nothing
            } else if !configured {
                Open::Stop
            } else if !acting {
                Open::WouldOpen
            } else {
                Open::Press(b)
            },
        }
    }
}

// ------------------------------------------------------------ watching

/// The cheap per-frame reading: how many rewards are queued (-1 where the
/// queue could not be read), how many option cards exist, and whether the
/// reroll button is up.
#[derive(Debug, Clone, Copy, PartialEq, Eq, Structural)]
pub struct Watch {
    pub queued: i32,
    pub cards: u32,
    pub reroll_button: bool,
}

pub open spec fn cards_of(w: Option<Watch>) -> Option<u32> {
    match w {
        Some(x) => Some(x.cards),
        None => None,
    }
}

/// Whether a new reward is up: a different number of cards means a
/// different reward, or the same one rerolled, so the per-reward budgets
/// start again.
pub fn new_reward(prev: Option<Watch>, now: Option<Watch>) -> (r: bool)
    ensures
        r == (cards_of(prev) != cards_of(now)),
{
    match (prev, now) {
        (Some(a), Some(b)) => a.cards != b.cards,
        (None, None) => false,
        _ => true,
    }
}

// ------------------------------------------------------------ laws

proof fn lemma_section_found(d: Seq<char>, i: int, k: int)
    requires
        0 <= i <= k < 12,
        kinds_table()[k].section@ == d,
    ensures
        section_from(d, i) matches Some(s) && s@ == d,
    decreases k - i,
{
    if i < k && kinds_table()[i].section@ != d {
        lemma_section_found(d, i + 1, k);
    }
}

proof fn lemma_section_from_some(d: Seq<char>, i: int)
    ensures
        match section_from(d, i) {
            Some(s) => exists|k: int| 0 <= k < 12 && s == kinds_table()[k].section && s@ == d,
            None => true,
        },
    decreases 12 - i,
{
    if 0 <= i < 12 && kinds_table()[i].section@ != d {
        lemma_section_from_some(d, i + 1);
    }
}

proof fn lemma_improvement_object(decl: Option<Seq<char>>)
    ensures
        config_type_spec("obj_card_improvement"@, decl) == (match decl {
            Some(d) => improvement_section(d),
            None => None,
        }),
{
    reveal_strlit("obj_card_resource");
    reveal_strlit("obj_card_artifact");
    reveal_strlit("obj_card_spell");
    reveal_strlit("obj_card_upgrade");
    reveal_strlit("obj_card_class_stat_bonus");
    reveal_strlit("obj_card_improvement");
    let o = "obj_card_improvement"@;
    assert(o[9] != "obj_card_resource"@[9]);
    assert(o[9] != "obj_card_artifact"@[9]);
    assert(o[9] != "obj_card_spell"@[9]);
    assert(o[9] != "obj_card_upgrade"@[9]);
    assert(o[9] != "obj_card_class_stat_bonus"@[9]);
}

/// Every improvement section the config is generated with is one the
/// resolver accepts for improvement cards, mapping to that section; and the
/// resolver maps an improvement card to no section but one of these, and
/// only when the open reward declares it.
pub proof fn lemma_improvement_sections_resolve()
    ensures
        forall|i: int|
            0 <= i < 12 ==> (config_type_spec(
                "obj_card_improvement"@,
                Some(#[trigger] kinds_table()[i].section@),
            ) matches Some(s) && s@ == kinds_table()[i].section@),
        forall|d: Seq<char>|
            #![trigger config_type_spec("obj_card_improvement"@, Some(d))]
            config_type_spec("obj_card_improvement"@, Some(d)) is Some ==> exists|i: int|
                0 <= i < 12 && kinds_table()[i].section@ == d && config_type_spec(
                    "obj_card_improvement"@,
                    Some(d),
                ) == Some(kinds_table()[i].section),
{
    assert forall|i: int|
        0 <= i < 12 implies (config_type_spec(
        "obj_card_improvement"@,
        Some(#[trigger] kinds_table()[i].section@),
    ) matches Some(s) && s@ == kinds_table()[i].section@) by {
        lemma_improvement_object(Some(kinds_table()[i].section@));
        lemma_section_found(kinds_table()[i].section@, 0, i);
    }
    assert forall|d: Seq<char>|
        #![trigger config_type_spec("obj_card_improvement"@, Some(d))]
        config_type_spec("obj_card_improvement"@, Some(d)) is Some implies exists|i: int|
            0 <= i < 12 && kinds_table()[i].section@ == d && config_type_spec(
                "obj_card_improvement"@,
                Some(d),
            ) == Some(kinds_table()[i].section) by {
        lemma_improvement_object(Some(d));
        lemma_section_from_some(d, 0);
        let s = section_from(d, 0)->0;
        let k = choose|k: int| 0 <= k < 12 && s == kinds_table()[k].section && s@ == d;
        assert(kinds_table()[k].section@ == d);
    }
}

} // verus!
