//! The config's option lists, built from the running game's own libraries.
//!
//! A reward type offers a filtered subset of its library, not the whole
//! thing: `artifact_legend` offers only legendary artifacts, and
//! `improvement_production_t1` only tier-1 production buildings. The filters
//! are fields on the library entries themselves, and the improvement split is
//! the game's own category and tier grouping.
//!
//! The rules:
//!
//! * If an id could be offered under some run, it is included. Leaving one
//!   out makes the mod refuse a real choice, which is worse than a spare line
//!   in a file.
//! * If it could never be offered for that type, it is left out.
//! * Entries not yet unlocked are kept: that is progression, not impossibility.
//! * Biome-gated entries are kept: they can appear in some runs.
//!
//! What is read out of the game arrives here as plain values ([`GameLists`]);
//! everything decided about them is decided here.
use vstd::prelude::*;

use crate::config::TypeVocab;
use crate::parse::strs;
use crate::strmap::{compare, lex_lt};
use crate::text::{chars_of, decimal, push_decimal, push_str, seq_eq, str_eq, string_of};

verus! {

/// Card index to config key for the unit class of a Troops Training bonus.
/// Positional, so the game's class count is checked before use.
pub const UNIT_CLASSES: [&'static str; 8] = [
    "grunt",
    "rider",
    "flying",
    "ranged",
    "arcane",
    "warrior",
    "champion",
    "undead",
];

/// `stat_type` 0 and 1. Attack speed exists as a bonus but is never offered.
pub const UNIT_STATS: [&'static str; 2] = ["hp", "damage"];

/// How the unit classes are titled in the config's comments, in the order of
/// [`UNIT_CLASSES`].
pub const CLASS_TITLES: [&'static str; 8] = [
    "Grunt",
    "Rider",
    "Flying",
    "Ranged",
    "Arcane",
    "Warrior",
    "Champion",
    "Undead",
];

/// Said of every improvement list, since they all come from the same place.
pub const GROUPED: &'static str = "from the game's own category/tier grouping, minus what it                        marks as never dropping";

/// Said of the infernal barracks lists.
pub const INFERNAL_NOTE: &'static str = "the `imp_` members of the troops category";

/// Said of the resource list.
pub const BIOME_NOTE: &'static str = "biome-specific resources are included -- they appear only on                    their own levels, but they can appear";

// ------------------------------------------------------------ improvements

/// One improvement reward type: its config section, its heading, and the
/// slice of the game's own grouping it draws from. `tier` is `None` where the
/// type is not split by tier; `infernal_only` picks the `imp_*` members out
/// of the troops category.
#[derive(Clone, Copy)]
pub struct ImprovementKind {
    pub section: &'static str,
    pub display: &'static str,
    pub category: &'static str,
    pub tier: Option<&'static str>,
    pub infernal_only: bool,
}

/// The improvement reward types, in the order of the reward screen.
pub open spec fn kinds_table() -> Seq<ImprovementKind> {
    seq![
        ImprovementKind { section: "improvement_production_t1", display: "Basic Production", category: "0", tier: Some("1"), infernal_only: false },
        ImprovementKind { section: "improvement_production_t2", display: "Established Production", category: "0", tier: Some("2"), infernal_only: false },
        ImprovementKind { section: "improvement_production_t3", display: "Advanced Production", category: "0", tier: Some("3"), infernal_only: false },
        ImprovementKind { section: "improvement_troops_t1", display: "Levy Barracks", category: "1", tier: Some("1"), infernal_only: false },
        ImprovementKind { section: "improvement_troops_t2", display: "Veteran Barracks", category: "1", tier: Some("2"), infernal_only: false },
        ImprovementKind { section: "improvement_troops_t3", display: "Elite Barracks", category: "1", tier: Some("3"), infernal_only: false },
        ImprovementKind { section: "improvement_infernals", display: "Infernal Barracks", category: "1", tier: None, infernal_only: true },
        ImprovementKind { section: "improvement_infernals_t1", display: "Infernal Barracks T1", category: "1", tier: Some("1"), infernal_only: true },
        ImprovementKind { section: "improvement_infernals_t2", display: "Infernal Barracks T2", category: "1", tier: Some("2"), infernal_only: true },
        ImprovementKind { section: "improvement_infernals_t3", display: "Infernal Barracks T3", category: "1", tier: Some("3"), infernal_only: true },
        ImprovementKind { section: "improvement_misc", display: "Kingdom Infrastructure", category: "3", tier: None, infernal_only: false },
        ImprovementKind { section: "improvement_attacking", display: "Offensive Structures", category: "2", tier: None, infernal_only: false },
    ]
}

/// Every improvement reward type, with the slice of the game's grouping it
/// draws from. This is the one place these names are written: the resolver
/// matches an open improvement reward against it, and the generator builds
/// the config's sections from it.
pub fn improvement_kinds() -> (r: Vec<ImprovementKind>)
    ensures
        r@ == kinds_table(),
{
    let v = vec![
        ImprovementKind { section: "improvement_production_t1", display: "Basic Production", category: "0", tier: Some("1"), infernal_only: false },
        ImprovementKind { section: "improvement_production_t2", display: "Established Production", category: "0", tier: Some("2"), infernal_only: false },
        ImprovementKind { section: "improvement_production_t3", display: "Advanced Production", category: "0", tier: Some("3"), infernal_only: false },
        ImprovementKind { section: "improvement_troops_t1", display: "Levy Barracks", category: "1", tier: Some("1"), infernal_only: false },
        ImprovementKind { section: "improvement_troops_t2", display: "Veteran Barracks", category: "1", tier: Some("2"), infernal_only: false },
        ImprovementKind { section: "improvement_troops_t3", display: "Elite Barracks", category: "1", tier: Some("3"), infernal_only: false },
        ImprovementKind { section: "improvement_infernals", display: "Infernal Barracks", category: "1", tier: None, infernal_only: true },
        ImprovementKind { section: "improvement_infernals_t1", display: "Infernal Barracks T1", category: "1", tier: Some("1"), infernal_only: true },
        ImprovementKind { section: "improvement_infernals_t2", display: "Infernal Barracks T2", category: "1", tier: Some("2"), infernal_only: true },
        ImprovementKind { section: "improvement_infernals_t3", display: "Infernal Barracks T3", category: "1", tier: Some("3"), infernal_only: true },
        ImprovementKind { section: "improvement_misc", display: "Kingdom Infrastructure", category: "3", tier: None, infernal_only: false },
        ImprovementKind { section: "improvement_attacking", display: "Offensive Structures", category: "2", tier: None, infernal_only: false },
    ];
    assert(v@ =~= kinds_table());
    v
}

// ------------------------------------------------------------ troops

/// The config key of class `c` and stat `s`: `class.stat`.
pub open spec fn troop_id(c: int, s: int) -> Seq<char> {
    UNIT_CLASSES@[c]@ + "."@ + UNIT_STATS@[s]@
}

/// The display name of class `c` and stat `s`: `Title +stat`.
pub open spec fn troop_title(c: int, s: int) -> Seq<char> {
    CLASS_TITLES@[c]@ + " +"@ + UNIT_STATS@[s]@
}

/// Every class and stat pair, class by class.
pub open spec fn troop_options() -> Seq<(Seq<char>, Seq<char>)> {
    Seq::new(16, |k: int| (troop_id(k / 2, k % 2), troop_title(k / 2, k % 2)))
}

/// The pairs of `(String, String)` as text.
pub open spec fn pairs(v: Seq<(String, String)>) -> Seq<(Seq<char>, Seq<char>)> {
    Seq::new(v.len(), |i: int| (v[i].0@, v[i].1@))
}

/// The Troops Training options: `class.stat` keys, in the spelling the card
/// reader produces. `None` unless the game reports exactly as many unit
/// classes as [`UNIT_CLASSES`] names: the keys are positional, so with any
/// other count every id would be wrong.
pub fn troops(live_classes: Option<i64>) -> (r: Option<Vec<(String, String)>>)
    ensures
        match r {
            Some(v) => live_classes == Some(8i64) && pairs(v@) == troop_options(),
            None => live_classes != Some(8i64),
        },
{
    if live_classes != Some(8i64) {
        return None;
    }
    let mut out: Vec<(String, String)> = Vec::new();
    let mut c: usize = 0;
    while c < 8
        invariant
            0 <= c <= 8,
            pairs(out@) == troop_options().take(2 * c as int),
        decreases 8 - c,
    {
        let mut s: usize = 0;
        while s < 2
            invariant
                0 <= c < 8,
                0 <= s <= 2,
                pairs(out@) == troop_options().take(2 * c + s),
            decreases 2 - s,
        {
            let mut id = String::new();
            push_str(&mut id, UNIT_CLASSES[c]);
            push_str(&mut id, ".");
            push_str(&mut id, UNIT_STATS[s]);
            let mut title = String::new();
            push_str(&mut title, CLASS_TITLES[c]);
            push_str(&mut title, " +");
            push_str(&mut title, UNIT_STATS[s]);
            let ghost before = pairs(out@);
            let k: usize = 2 * c + s;
            assert(k / 2 == c && k % 2 == s) by (nonlinear_arith)
                requires
                    k == 2 * c + s,
                    s < 2,
            ;
            assert(k < 16);
            assert(troop_options()[k as int] == (id@, title@));
            let ghost ov = out@;
            out.push((id, title));
            assert(pairs(out@) =~= pairs(ov).push(troop_options()[k as int]));
            assert(troop_options().take(k + 1) =~= troop_options().take(k as int).push(
                troop_options()[k as int],
            ));
            s = s + 1;
        }
        c = c + 1;
    }
    assert(troop_options().take(16) =~= troop_options());
    Some(out)
}

// ------------------------------------------------------------ sorting

/// `x` inserted into `s` after every entry whose id is not after its own:
/// one step of a stable insertion sort by id.
pub open spec fn insert_by_id(s: Seq<(Seq<char>, Seq<char>)>, x: (Seq<char>, Seq<char>)) -> Seq<
    (Seq<char>, Seq<char>),
>
    decreases s.len(),
{
    if s.len() > 0 && lex_lt(x.0, s.last().0) {
        insert_by_id(s.drop_last(), x).push(s.last())
    } else {
        s.push(x)
    }
}

/// `s` sorted by id, entries with equal ids keeping their order: what
/// `sort_by` on the id gives.
pub open spec fn sort_by_id(s: Seq<(Seq<char>, Seq<char>)>) -> Seq<(Seq<char>, Seq<char>)>
    decreases s.len(),
{
    if s.len() == 0 {
        s
    } else {
        insert_by_id(sort_by_id(s.drop_last()), s.last())
    }
}

proof fn lemma_insert_at(s: Seq<(Seq<char>, Seq<char>)>, x: (Seq<char>, Seq<char>), p: int)
    requires
        0 <= p <= s.len(),
        p == s.len() || lex_lt(x.0, s[p].0),
        forall|j: int| p < j < s.len() ==> lex_lt(x.0, #[trigger] s[j].0),
        p == 0 || !lex_lt(x.0, s[p - 1].0),
    ensures
        insert_by_id(s, x) == s.take(p).push(x) + s.skip(p),
    decreases s.len(),
{
    if s.len() > 0 && lex_lt(x.0, s.last().0) {
        let t = s.drop_last();
        assert(p < s.len()) by {
            if p == s.len() {
                assert(!lex_lt(x.0, s[p - 1].0));
            }
        }
        lemma_insert_at(t, x, p);
        assert(t.take(p) == s.take(p));
        assert(s.skip(p) =~= t.skip(p).push(s.last()));
        assert(insert_by_id(s, x) =~= s.take(p).push(x) + s.skip(p));
    } else {
        if s.len() > 0 {
            assert(p == s.len()) by {
                if p < s.len() {
                    if p < s.len() - 1 {
                        assert(lex_lt(x.0, s[s.len() - 1].0));
                    }
                }
            }
        }
        assert(s.take(p) =~= s);
        assert(s.skip(p) =~= Seq::<(Seq<char>, Seq<char>)>::empty());
        assert(insert_by_id(s, x) =~= s.take(p).push(x) + s.skip(p));
    }
}

/// Stable insertion of one entry into a run already sorted by id.
fn insert_sorted(v: &mut Vec<(String, String)>, x: (String, String))
    ensures
        pairs(final(v)@) == insert_by_id(pairs(old(v)@), (x.0@, x.1@)),
{
    let xk = chars_of(x.0.as_str());
    let ghost s = pairs(v@);
    let mut p = v.len();
    while p > 0
        invariant
            0 <= p <= v.len(),
            s == pairs(v@),
            xk@ == x.0@,
            forall|j: int| p <= j < v.len() ==> lex_lt(x.0@, #[trigger] s[j].0),
        ensures
            0 <= p <= v.len(),
            s == pairs(v@),
            forall|j: int| p <= j < v.len() ==> lex_lt(x.0@, #[trigger] s[j].0),
            p == 0 || !lex_lt(x.0@, s[p - 1].0),
        decreases p,
    {
        let yk = chars_of(v[p - 1].0.as_str());
        assert(s[p - 1].0 == yk@);
        if compare(&xk, &yk) < 0 {
            p = p - 1;
        } else {
            break;
        }
    }
    proof {
        if p < v.len() {
            assert(lex_lt(x.0@, s[p as int].0));
        }
        lemma_insert_at(s, (x.0@, x.1@), p as int);
    }
    v.insert(p, x);
    assert(pairs(v@) =~= s.take(p as int).push((x.0@, x.1@)) + s.skip(p as int));
}

/// The entries sorted by id, stably.
fn sorted_by_id(v: Vec<(String, String)>) -> (r: Vec<(String, String)>)
    ensures
        pairs(r@) == sort_by_id(pairs(v@)),
{
    let mut out: Vec<(String, String)> = Vec::new();
    let ghost all = pairs(v@);
    let mut rest = v;
    let ghost mut i: int = 0;
    assert(all.take(0) =~= Seq::<(Seq<char>, Seq<char>)>::empty());
    while rest.len() > 0
        invariant
            0 <= i <= all.len(),
            pairs(rest@) == all.skip(i),
            rest.len() == all.len() - i,
            pairs(out@) == sort_by_id(all.take(i)),
        decreases rest.len(),
    {
        let ghost before = rest@;
        let x = rest.remove(0);
        assert(pairs(before)[0] == (x.0@, x.1@));
        assert(pairs(rest@) =~= all.skip(i + 1)) by {
            assert forall|q: int| 0 <= q < rest.len() implies pairs(rest@)[q] == all.skip(i + 1)[q] by {
                assert(rest@[q] == before[q + 1]);
                assert(pairs(before)[q + 1] == all.skip(i)[q + 1]);
            }
        }
        assert(all.take(i + 1).drop_last() == all.take(i));
        assert(all.take(i + 1).last() == (x.0@, x.1@));
        insert_sorted(&mut out, x);
        proof {
            i = i + 1;
        }
    }
    assert(all.take(i) == all);
    out
}

// ------------------------------------------------------------ what is read

/// One entry of a game library, as read: its key, its display title (empty
/// where it has none), its numeric `tier` field if it has one, and whether
/// the game marks it as never dropping.
pub struct LibEntry {
    pub key: String,
    pub title: String,
    pub tier: Option<i64>,
    pub excluded: bool,
}

/// The game's libraries and groupings, as read. The groupings map a key to
/// the member ids under it; where a key occurs twice the later one stands,
/// as in the game's own map.
pub struct GameLists {
    pub artifacts: Vec<LibEntry>,
    pub spells: Vec<LibEntry>,
    pub upgrades: Vec<LibEntry>,
    pub resources: Vec<LibEntry>,
    pub improvements: Vec<LibEntry>,
    pub by_category: Vec<(String, Vec<String>)>,
    pub by_tier: Vec<(String, Vec<String>)>,
    /// How many unit classes the game reports, if it could be read.
    pub unit_classes: Option<i64>,
}

pub open spec fn entries(v: Seq<LibEntry>) -> Seq<(Seq<char>, Seq<char>, Option<i64>, bool)> {
    Seq::new(v.len(), |i: int| (v[i].key@, v[i].title@, v[i].tier, v[i].excluded))
}

pub open spec fn groups(v: Seq<(String, Vec<String>)>) -> Seq<(Seq<char>, Seq<Seq<char>>)> {
    Seq::new(v.len(), |i: int| (v[i].0@, strs(v[i].1@)))
}

// ------------------------------------------------------------ the lists

/// `(key, title)` of the entries whose tier is `want`, or of every entry for
/// `None`, in library order.
pub open spec fn titled(lib: Seq<(Seq<char>, Seq<char>, Option<i64>, bool)>, want: Option<i64>) -> Seq<
    (Seq<char>, Seq<char>),
>
    decreases lib.len(),
{
    if lib.len() == 0 {
        Seq::empty()
    } else {
        let e = lib.last();
        if want is None || e.2 == want {
            titled(lib.drop_last(), want).push((e.0, e.1))
        } else {
            titled(lib.drop_last(), want)
        }
    }
}

/// `s` without the entries whose id is `key`.
pub open spec fn without_key(s: Seq<(Seq<char>, Seq<char>)>, key: Seq<char>) -> Seq<(Seq<char>, Seq<char>)>
    decreases s.len(),
{
    if s.len() == 0 {
        s
    } else if s.last().0 == key {
        without_key(s.drop_last(), key)
    } else {
        without_key(s.drop_last(), key).push(s.last())
    }
}

/// The keys of the entries the game marks as never dropping, in order.
pub open spec fn excluded_keys(lib: Seq<(Seq<char>, Seq<char>, Option<i64>, bool)>) -> Seq<Seq<char>>
    decreases lib.len(),
{
    if lib.len() == 0 {
        Seq::empty()
    } else if lib.last().3 {
        excluded_keys(lib.drop_last()).push(lib.last().0)
    } else {
        excluded_keys(lib.drop_last())
    }
}

/// The title of `id`: that of the last entry with that key, or empty.
pub open spec fn title_in(lib: Seq<(Seq<char>, Seq<char>, Option<i64>, bool)>, id: Seq<char>) -> Seq<char>
    decreases lib.len(),
{
    if lib.len() == 0 {
        Seq::empty()
    } else if lib.last().0 == id {
        lib.last().1
    } else {
        title_in(lib.drop_last(), id)
    }
}

/// The members a grouping lists under `key`: those of its last entry with
/// that key.
pub open spec fn group_of(g: Seq<(Seq<char>, Seq<Seq<char>>)>, key: Seq<char>) -> Option<Seq<Seq<char>>>
    decreases g.len(),
{
    if g.len() == 0 {
        None
    } else if g.last().0 == key {
        Some(g.last().1)
    } else {
        group_of(g.drop_last(), key)
    }
}

/// Whether `id` passes a tier filter: none, a tier the grouping lacks, or
/// the members of a tier.
pub open spec fn tier_ok(tm: Option<Option<Seq<Seq<char>>>>, id: Seq<char>) -> bool {
    match tm {
        None => true,
        Some(None) => false,
        Some(Some(m)) => m.contains(id),
    }
}

/// The ids of a category that can drop and pass the tier filter, each with
/// its title, in the grouping's order.
pub open spec fn pick(
    ids: Seq<Seq<char>>,
    excl: Seq<Seq<char>>,
    tm: Option<Option<Seq<Seq<char>>>>,
    lib: Seq<(Seq<char>, Seq<char>, Option<i64>, bool)>,
) -> Seq<(Seq<char>, Seq<char>)>
    decreases ids.len(),
{
    if ids.len() == 0 {
        Seq::empty()
    } else {
        let id = ids.last();
        if !excl.contains(id) && tier_ok(tm, id) {
            pick(ids.drop_last(), excl, tm, lib).push((id, title_in(lib, id)))
        } else {
            pick(ids.drop_last(), excl, tm, lib)
        }
    }
}

/// The improvements of category `cat` (and tier `tier`, where given) that
/// can drop, sorted by id.
pub open spec fn improv(g: GameLists, cat: Seq<char>, tier: Option<Seq<char>>) -> Seq<
    (Seq<char>, Seq<char>),
> {
    let imps = entries(g.improvements@);
    let tm = match tier {
        None => None,
        Some(t) => Some(group_of(groups(g.by_tier@), t)),
    };
    match group_of(groups(g.by_category@), cat) {
        None => Seq::empty(),
        Some(ids) => sort_by_id(pick(ids, excluded_keys(imps), tm, imps)),
    }
}

/// Whether an id names an infernal building.
pub open spec fn is_imp(id: Seq<char>) -> bool {
    id.len() >= 4 && id.take(4) == "imp_"@
}

/// The entries of `s` whose id names an infernal building.
pub open spec fn imp_only(s: Seq<(Seq<char>, Seq<char>)>) -> Seq<(Seq<char>, Seq<char>)>
    decreases s.len(),
{
    if s.len() == 0 {
        s
    } else if is_imp(s.last().0) {
        imp_only(s.drop_last()).push(s.last())
    } else {
        imp_only(s.drop_last())
    }
}

pub open spec fn opt_str(t: Option<&'static str>) -> Option<Seq<char>> {
    match t {
        Some(x) => Some(x@),
        None => None,
    }
}

/// A reward type's generation input, as text: its section, heading,
/// options, whether it can be scrapped, and its note.
pub open spec fn vocab_view(t: TypeVocab) -> (Seq<char>, Seq<char>, Seq<(Seq<char>, Seq<char>)>, bool, Seq<char>) {
    (t.reward_type@, t.display@, pairs(t.options@), t.can_scrap, t.note@)
}

/// The section for one improvement kind.
pub open spec fn kind_vocab(g: GameLists, k: ImprovementKind) -> (Seq<char>, Seq<char>, Seq<(Seq<char>, Seq<char>)>, bool, Seq<char>) {
    (
        k.section@,
        k.display@,
        if k.infernal_only {
            imp_only(improv(g, "1"@, opt_str(k.tier)))
        } else {
            improv(g, k.category@, opt_str(k.tier))
        },
        true,
        if k.infernal_only {
            INFERNAL_NOTE@
        } else {
            GROUPED@
        },
    )
}

pub open spec fn tier_note(t: Seq<char>, n: nat, what: Seq<char>) -> Seq<char> {
    "tier "@ + t + " of "@ + decimal(n) + " "@ + what
}

/// Every reward type the mod can drive, with the options it can offer.
pub open spec fn vocab_of(g: GameLists) -> Seq<(Seq<char>, Seq<char>, Seq<(Seq<char>, Seq<char>)>, bool, Seq<char>)> {
    let art = entries(g.artifacts@);
    let spl = entries(g.spells@);
    seq![
        ("unit_class_stat"@, "Troops Training"@, troop_options(), false, "a choice mixes classes and stats freely"@),
        ("resource"@, "Resource"@, without_key(sort_by_id(titled(entries(g.resources@), None)), "random"@), true, BIOME_NOTE@),
        ("artifact"@, "Artifact"@, sort_by_id(titled(art, Some(1))), true, tier_note("1"@, art.len(), "artifacts"@)),
        ("artifact_legend"@, "Legendary Artifact"@, sort_by_id(titled(art, Some(2))), true, tier_note("2"@, art.len(), "artifacts"@)),
        ("spell"@, "Spell"@, sort_by_id(titled(spl, Some(1))), true, tier_note("1"@, spl.len(), "spells"@)),
        ("spell_legend"@, "Legendary Spell"@, sort_by_id(titled(spl, Some(2))), true, tier_note("2"@, spl.len(), "spells"@)),
        ("upgrade"@, "Building Upgrade"@, sort_by_id(titled(entries(g.upgrades@), None)), true, "all of them; offered per built improvement"@),
    ] + Seq::new(12, |i: int| kind_vocab(g, kinds_table()[i]))
}

/// The improvements the game marks as never dropping, with their titles,
/// sorted by id.
pub open spec fn never_of(g: GameLists) -> Seq<(Seq<char>, Seq<char>)> {
    let imps = entries(g.improvements@);
    let ex = excluded_keys(imps);
    sort_by_id(Seq::new(ex.len(), |i: int| (ex[i], title_in(imps, ex[i]))))
}

// ------------------------------------------------------------ building

fn titled_exec(lib: &Vec<LibEntry>, want: Option<i64>) -> (r: Vec<(String, String)>)
    ensures
        pairs(r@) == titled(entries(lib@), want),
{
    let ghost e = entries(lib@);
    let mut out: Vec<(String, String)> = Vec::new();
    let mut i: usize = 0;
    assert(e.take(0) =~= Seq::<(Seq<char>, Seq<char>, Option<i64>, bool)>::empty());
    while i < lib.len()
        invariant
            0 <= i <= lib.len(),
            e == entries(lib@),
            pairs(out@) == titled(e.take(i as int), want),
        decreases lib.len() - i,
    {
        assert(e.take(i + 1).drop_last() == e.take(i as int));
        assert(e.take(i + 1).last() == e[i as int]);
        let keep = match want {
            None => true,
            Some(t) => lib[i].tier == Some(t),
        };
        if keep {
            let ghost before = pairs(out@);
            out.push((lib[i].key.clone(), lib[i].title.clone()));
            assert(pairs(out@) =~= before.push((e[i as int].0, e[i as int].1)));
        }
        i = i + 1;
    }
    assert(e.take(i as int) == e);
    out
}

fn without_key_exec(v: Vec<(String, String)>, key: &str) -> (r: Vec<(String, String)>)
    ensures
        pairs(r@) == without_key(pairs(v@), key@),
{
    let ghost all = pairs(v@);
    let mut out: Vec<(String, String)> = Vec::new();
    let mut rest = v;
    let ghost mut i: int = 0;
    assert(all.take(0) =~= Seq::<(Seq<char>, Seq<char>)>::empty());
    while rest.len() > 0
        invariant
            0 <= i <= all.len(),
            pairs(rest@) == all.skip(i),
            rest.len() == all.len() - i,
            pairs(out@) == without_key(all.take(i), key@),
        decreases rest.len(),
    {
        let ghost before = rest@;
        let x = rest.remove(0);
        assert(pairs(before)[0] == (x.0@, x.1@));
        assert(pairs(rest@) =~= all.skip(i + 1)) by {
            assert forall|q: int| 0 <= q < rest.len() implies pairs(rest@)[q] == all.skip(i + 1)[q] by {
                assert(rest@[q] == before[q + 1]);
                assert(pairs(before)[q + 1] == all.skip(i)[q + 1]);
            }
        }
        assert(all.take(i + 1).drop_last() == all.take(i));
        assert(all.take(i + 1).last() == (x.0@, x.1@));
        if !str_eq(x.0.as_str(), key) {
            let ghost ob = pairs(out@);
            out.push(x);
            assert(pairs(out@) =~= ob.push(all[i]));
        }
        proof {
            i = i + 1;
        }
    }
    assert(all.take(i) == all);
    out
}

fn excluded_exec(lib: &Vec<LibEntry>) -> (r: Vec<String>)
    ensures
        strs(r@) == excluded_keys(entries(lib@)),
{
    let ghost e = entries(lib@);
    let mut out: Vec<String> = Vec::new();
    let mut i: usize = 0;
    assert(e.take(0) =~= Seq::<(Seq<char>, Seq<char>, Option<i64>, bool)>::empty());
    assert(strs(out@) =~= Seq::<Seq<char>>::empty());
    while i < lib.len()
        invariant
            0 <= i <= lib.len(),
            e == entries(lib@),
            strs(out@) == excluded_keys(e.take(i as int)),
        decreases lib.len() - i,
    {
        assert(e.take(i + 1).drop_last() == e.take(i as int));
        assert(e.take(i + 1).last() == e[i as int]);
        if lib[i].excluded {
            let ghost before = strs(out@);
            out.push(lib[i].key.clone());
            assert(strs(out@) =~= before.push(e[i as int].0));
        }
        i = i + 1;
    }
    assert(e.take(i as int) == e);
    out
}

fn title_exec(lib: &Vec<LibEntry>, id: &str) -> (r: String)
    ensures
        r@ == title_in(entries(lib@), id@),
{
    let ghost e = entries(lib@);
    let mut j = lib.len();
    assert(e.take(j as int) == e);
    while j > 0
        invariant
            0 <= j <= lib.len(),
            e == entries(lib@),
            title_in(e, id@) == title_in(e.take(j as int), id@),
        decreases j,
    {
        let ghost w = e.take(j as int);
        assert(w.last() == e[j - 1]);
        if str_eq(lib[j - 1].key.as_str(), id) {
            return lib[j - 1].title.clone();
        }
        assert(w.drop_last() == e.take(j - 1));
        j = j - 1;
    }
    assert(e.take(0) =~= Seq::<(Seq<char>, Seq<char>, Option<i64>, bool)>::empty());
    String::new()
}

fn group_exec<'a>(g: &'a Vec<(String, Vec<String>)>, key: &str) -> (r: Option<&'a Vec<String>>)
    ensures
        match r {
            Some(m) => group_of(groups(g@), key@) == Some(strs(m@)),
            None => group_of(groups(g@), key@) == None::<Seq<Seq<char>>>,
        },
{
    let ghost e = groups(g@);
    let mut j = g.len();
    assert(e.take(j as int) == e);
    while j > 0
        invariant
            0 <= j <= g.len(),
            e == groups(g@),
            group_of(e, key@) == group_of(e.take(j as int), key@),
        decreases j,
    {
        let ghost w = e.take(j as int);
        assert(w.last() == e[j - 1]);
        if str_eq(g[j - 1].0.as_str(), key) {
            return Some(&g[j - 1].1);
        }
        assert(w.drop_last() == e.take(j - 1));
        j = j - 1;
    }
    assert(e.take(0) =~= Seq::<(Seq<char>, Seq<Seq<char>>)>::empty());
    None
}

fn holds(v: &Vec<String>, id: &str) -> (r: bool)
    ensures
        r == strs(v@).contains(id@),
{
    let mut i: usize = 0;
    while i < v.len()
        invariant
            0 <= i <= v.len(),
            forall|j: int| 0 <= j < i ==> v@[j]@ != id@,
        decreases v.len() - i,
    {
        if str_eq(v[i].as_str(), id) {
            assert(strs(v@)[i as int] == id@);
            return true;
        }
        i = i + 1;
    }
    proof {
        if strs(v@).contains(id@) {
            let j = choose|j: int| 0 <= j < strs(v@).len() && strs(v@)[j] == id@;
            assert(v@[j]@ != id@);
        }
    }
    false
}

fn improv_exec(g: &GameLists, cat: &str, tier: Option<&str>) -> (r: Vec<(String, String)>)
    ensures
        pairs(r@) == improv(*g, cat@, opt_str_ref(tier)),
{
    let ghost imps = entries(g.improvements@);
    let ghost tmv = match opt_str_ref(tier) {
        None => None,
        Some(t) => Some(group_of(groups(g.by_tier@), t)),
    };
    let tm: Option<Option<&Vec<String>>> = match tier {
        None => None,
        Some(t) => Some(group_exec(&g.by_tier, t)),
    };
    let ids = match group_exec(&g.by_category, cat) {
        None => {
            let e: Vec<(String, String)> = Vec::new();
            assert(pairs(e@) =~= Seq::<(Seq<char>, Seq<char>)>::empty());
            return e;
        },
        Some(m) => m,
    };
    let excl = excluded_exec(&g.improvements);
    let ghost idv = strs(ids@);
    let ghost exv = strs(excl@);
    let mut out: Vec<(String, String)> = Vec::new();
    let mut i: usize = 0;
    assert(idv.take(0) =~= Seq::<Seq<char>>::empty());
    while i < ids.len()
        invariant
            0 <= i <= ids.len(),
            idv == strs(ids@),
            exv == strs(excl@),
            exv == excluded_keys(imps),
            imps == entries(g.improvements@),
            match tm {
                None => tmv == None::<Option<Seq<Seq<char>>>>,
                Some(None) => tmv == Some(None::<Seq<Seq<char>>>),
                Some(Some(m)) => tmv == Some(Some(strs(m@))),
            },
            pairs(out@) == pick(idv.take(i as int), exv, tmv, imps),
        decreases ids.len() - i,
    {
        let id = ids[i].as_str();
        assert(idv.take(i + 1).drop_last() == idv.take(i as int));
        assert(idv.take(i + 1).last() == id@);
        let ok = !holds(&excl, id) && match tm {
            None => true,
            Some(None) => false,
            Some(Some(m)) => holds(m, id),
        };
        if ok {
            let t = title_exec(&g.improvements, id);
            let ghost before = pairs(out@);
            out.push((ids[i].clone(), t));
            assert(pairs(out@) =~= before.push((id@, title_in(imps, id@))));
        }
        i = i + 1;
    }
    assert(idv.take(i as int) == idv);
    sorted_by_id(out)
}

pub open spec fn opt_str_ref(t: Option<&str>) -> Option<Seq<char>> {
    match t {
        Some(x) => Some(x@),
        None => None,
    }
}

fn imp_only_exec(v: Vec<(String, String)>) -> (r: Vec<(String, String)>)
    ensures
        pairs(r@) == imp_only(pairs(v@)),
{
    let ghost all = pairs(v@);
    let prefix = chars_of("imp_");
    let mut out: Vec<(String, String)> = Vec::new();
    let mut rest = v;
    let ghost mut i: int = 0;
    assert(all.take(0) =~= Seq::<(Seq<char>, Seq<char>)>::empty());
    while rest.len() > 0
        invariant
            0 <= i <= all.len(),
            pairs(rest@) == all.skip(i),
            rest.len() == all.len() - i,
            prefix@ == "imp_"@,
            pairs(out@) == imp_only(all.take(i)),
        decreases rest.len(),
    {
        let ghost before = rest@;
        let x = rest.remove(0);
        assert(pairs(before)[0] == (x.0@, x.1@));
        assert(pairs(rest@) =~= all.skip(i + 1)) by {
            assert forall|q: int| 0 <= q < rest.len() implies pairs(rest@)[q] == all.skip(i + 1)[q] by {
                assert(rest@[q] == before[q + 1]);
                assert(pairs(before)[q + 1] == all.skip(i)[q + 1]);
            }
        }
        assert(all.take(i + 1).drop_last() == all.take(i));
        assert(all.take(i + 1).last() == (x.0@, x.1@));
        let k = chars_of(x.0.as_str());
        let imp = if k.len() >= prefix.len() {
            let head = crate::text::slice_of(&k, 0, prefix.len());
            assert(head@ == k@.take(prefix.len() as int));
            seq_eq(&head, &prefix)
        } else {
            false
        };
        proof {
            reveal_strlit("imp_");
        }
        assert(imp == is_imp(x.0@));
        if imp {
            let ghost ob = pairs(out@);
            out.push(x);
            assert(pairs(out@) =~= ob.push(all[i]));
        }
        proof {
            i = i + 1;
        }
    }
    assert(all.take(i) == all);
    out
}

fn vocab_entry(
    reward_type: &'static str,
    display: &'static str,
    options: Vec<(String, String)>,
    can_scrap: bool,
    note: String,
) -> (t: TypeVocab<'static>)
    ensures
        vocab_view(t) == (reward_type@, display@, pairs(options@), can_scrap, note@),
{
    TypeVocab { reward_type, display, options, can_scrap, note }
}

/// `tier {t} of {n} {what}`.
fn tier_note_exec(t: &str, n: usize, what: &str) -> (r: String)
    ensures
        r@ == tier_note(t@, n as nat, what@),
{
    let mut s = String::new();
    push_str(&mut s, "tier ");
    push_str(&mut s, t);
    push_str(&mut s, " of ");
    push_decimal(&mut s, n as u64);
    push_str(&mut s, " ");
    push_str(&mut s, what);
    s
}

fn owned(s: &str) -> (r: String)
    ensures
        r@ == s@,
{
    let mut o = String::new();
    push_str(&mut o, s);
    o
}

/// Every reward type the mod can drive, with the options it can offer, and
/// the improvements the game marks as never dropping (for the config's
/// information block), from the libraries as read.
///
/// `None` when the game does not report exactly as many unit classes as the
/// Troops Training keys assume.
#[verifier::rlimit(40)]
pub fn build(g: &GameLists) -> (r: Option<(Vec<TypeVocab<'static>>, Vec<(String, String)>)>)
    ensures
        match r {
            Some((v, never)) => g.unit_classes == Some(8i64) && v@.map_values(
                |t: TypeVocab| vocab_view(t),
            ) == vocab_of(*g) && pairs(never@) == never_of(*g),
            None => g.unit_classes != Some(8i64),
        },
{
    let troop_opts = match troops(g.unit_classes) {
        Some(t) => t,
        None => return None,
    };
    let mut out: Vec<TypeVocab<'static>> = Vec::new();
    out.push(vocab_entry("unit_class_stat", "Troops Training", troop_opts, false, owned("a choice mixes classes and stats freely")));
    let res = without_key_exec(sorted_by_id(titled_exec(&g.resources, None)), "random");
    out.push(vocab_entry("resource", "Resource", res, true, owned(BIOME_NOTE)));
    let na = g.artifacts.len();
    let ns = g.spells.len();
    out.push(vocab_entry("artifact", "Artifact", sorted_by_id(titled_exec(&g.artifacts, Some(1))), true, tier_note_exec("1", na, "artifacts")));
    out.push(vocab_entry("artifact_legend", "Legendary Artifact", sorted_by_id(titled_exec(&g.artifacts, Some(2))), true, tier_note_exec("2", na, "artifacts")));
    out.push(vocab_entry("spell", "Spell", sorted_by_id(titled_exec(&g.spells, Some(1))), true, tier_note_exec("1", ns, "spells")));
    out.push(vocab_entry("spell_legend", "Legendary Spell", sorted_by_id(titled_exec(&g.spells, Some(2))), true, tier_note_exec("2", ns, "spells")));
    out.push(vocab_entry("upgrade", "Building Upgrade", sorted_by_id(titled_exec(&g.upgrades, None)), true, owned("all of them; offered per built improvement")));
    let ghost head = out@.map_values(|t: TypeVocab| vocab_view(t));
    assert(head =~= vocab_of(*g).take(7));
    let kinds = improvement_kinds();
    let mut i: usize = 0;
    while i < kinds.len()
        invariant
            0 <= i <= kinds.len(),
            kinds@ == kinds_table(),
            out.len() == 7 + i,
            out@.map_values(|t: TypeVocab| vocab_view(t)) == vocab_of(*g).take(7 + i),
        decreases kinds.len() - i,
    {
        let k = kinds[i];
        let opts = if k.infernal_only {
            imp_only_exec(improv_exec(g, "1", k.tier))
        } else {
            improv_exec(g, k.category, k.tier)
        };
        let note = if k.infernal_only {
            owned(INFERNAL_NOTE)
        } else {
            owned(GROUPED)
        };
        let ghost before = out@.map_values(|t: TypeVocab| vocab_view(t));
        let t = vocab_entry(k.section, k.display, opts, true, note);
        assert(opt_str_ref(k.tier) == opt_str(k.tier));
        assert(vocab_view(t) == kind_vocab(*g, kinds_table()[i as int]));
        assert(vocab_of(*g)[7 + i] == kind_vocab(*g, kinds_table()[i as int]));
        out.push(t);
        assert(out@.map_values(|t: TypeVocab| vocab_view(t)) =~= before.push(vocab_view(t)));
        assert(vocab_of(*g).take(7 + i + 1) =~= vocab_of(*g).take(7 + i).push(vocab_of(*g)[7 + i]));
        i = i + 1;
    }
    assert(vocab_of(*g).take(19) =~= vocab_of(*g));
    let excl = excluded_exec(&g.improvements);
    let ghost imps = entries(g.improvements@);
    let ghost ex = excluded_keys(imps);
    let mut never: Vec<(String, String)> = Vec::new();
    let mut j: usize = 0;
    while j < excl.len()
        invariant
            0 <= j <= excl.len(),
            strs(excl@) == ex,
            imps == entries(g.improvements@),
            pairs(never@) == Seq::new(j as nat, |q: int| (ex[q], title_in(imps, ex[q]))),
        decreases excl.len() - j,
    {
        let t = title_exec(&g.improvements, excl[j].as_str());
        assert(strs(excl@)[j as int] == excl@[j as int]@);
        assert(ex[j as int] == excl@[j as int]@);
        let ghost before = pairs(never@);
        never.push((excl[j].clone(), t));
        assert(pairs(never@) =~= before.push((ex[j as int], title_in(imps, ex[j as int]))));
        assert(Seq::new((j + 1) as nat, |q: int| (ex[q], title_in(imps, ex[q]))) =~= Seq::new(
            j as nat,
            |q: int| (ex[q], title_in(imps, ex[q])),
        ).push((ex[j as int], title_in(imps, ex[j as int]))));
        j = j + 1;
    }
    let never = sorted_by_id(never);
    Some((out, never))
}

} // verus!
