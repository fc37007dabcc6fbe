use std::collections::HashSet;

use tkiw::config::{Budgets, Depth, SCRAP};
use tkiw::parse::{parse, weight_fields};
use tkiw::picker::{decide, may_reroll, Decision, Economy, RerollCost, RerollVerdict, TieBreak, TieBreaker, TypeConfig};

fn cfg(text: &str) -> TypeConfig {
    let weights: Vec<Option<u64>> = weight_fields(text)
        .iter()
        .map(|w| w.parse::<f64>().ok().map(f64::to_bits))
        .collect();
    let c = parse(text, &weights);
    assert!(c.errors.is_empty(), "config errors: {:?}", c.errors);
    c.for_type("resource").cloned().expect("a [resource] section")
}

fn ids(v: &[&str]) -> Vec<String> {
    v.iter().map(|s| s.to_string()).collect()
}

fn eco(next: RerollCost) -> Economy {
    Economy { next_cost: next, denarii: 1000, voodoo_used: 0, free_used: 0, paid_used: 0 }
}

/// Always take the first, so tests are deterministic.
struct First;

impl TieBreak for First {
    fn picked(&self, _: usize) -> usize {
        0
    }

    fn pick(&mut self, _: usize) -> usize {
        0
    }
}

const BASIC: &str = "
[resource]
voodoo_depth = 0
free_depth = 0
paid_depth = 0
[resource.wanted]
metal = 10
ore = 5
[resource.fallback]
clay = 7
wheat = 3
[resource.blacklist]
water
";

#[test]
fn takes_the_highest_weighted_wanted_option() {
    let c = cfg(BASIC);
    let d = decide(&c, &ids(&["ore", "metal", "clay"]), &eco(RerollCost::Unavailable), false, &mut First);
    assert_eq!(d, Decision::Pick("metal".into()));
}

#[test]
fn wanted_beats_fallback_regardless_of_weight() {
    // clay is weighted 7, ore only 5 -- but ore is wanted, so ore wins
    let c = cfg(BASIC);
    let d = decide(&c, &ids(&["ore", "clay"]), &eco(RerollCost::Unavailable), false, &mut First);
    assert_eq!(d, Decision::Pick("ore".into()), "tier must dominate weight");
}

#[test]
fn blacklisted_options_are_never_taken_but_do_not_block() {
    let c = cfg(BASIC);
    // water is blacklisted; metal is still taken
    let d = decide(&c, &ids(&["water", "metal"]), &eco(RerollCost::Unavailable), false, &mut First);
    assert_eq!(d, Decision::Pick("metal".into()));

    // nothing but blacklisted, no budget -> manual, never the blacklisted one
    let d = decide(&c, &ids(&["water"]), &eco(RerollCost::Unavailable), false, &mut First);
    assert!(matches!(d, Decision::Manual(_)));
}

/// `-1` means "spend what the game gives me", not "reroll forever".
#[test]
fn unlimited_depth_still_obeys_the_real_economy() {
    let mut c = cfg(BASIC);
    c.budgets = Budgets {
        voodoo_depth: Depth::Unlimited,
        free_depth: Depth::Unlimited,
        paid_depth: Depth::Unlimited,
        denarii_floor: 100,
    };

    // however many have been spent, another free one is still allowed
    let mut e = eco(RerollCost::Free);
    e.free_used = 9_999;
    assert_eq!(may_reroll(&c, &e), RerollVerdict::Allowed(RerollCost::Free));

    // but a reroll the game will not offer is still not available
    assert_eq!(may_reroll(&c, &eco(RerollCost::Unavailable)), RerollVerdict::Denied("no reroll available"));

    // and paid rerolls still stop at the floor and at affordability
    let mut e = eco(RerollCost::Paid(50));
    e.denarii = 120;
    assert_eq!(may_reroll(&c, &e), RerollVerdict::Denied("would breach denarii_floor"));

    let mut e = eco(RerollCost::Paid(500));
    e.denarii = 120;
    assert_eq!(may_reroll(&c, &e), RerollVerdict::Denied("cannot afford it"));
}

/// Unlimited on one kind must not spill into another, exactly as a number
/// on one does not.
#[test]
fn unlimited_does_not_fall_through_to_another_budget() {
    let mut c = cfg(BASIC);
    c.budgets = Budgets { free_depth: Depth::Unlimited, ..Budgets::zero() };
    assert_eq!(may_reroll(&c, &eco(RerollCost::Voodoo)), RerollVerdict::Denied("voodoo_depth spent"));
    assert_eq!(may_reroll(&c, &eco(RerollCost::Paid(1))), RerollVerdict::Denied("paid_depth spent"));
}

#[test]
fn fallback_is_only_reached_once_rerolls_are_spent() {
    let mut c = cfg(BASIC);
    c.budgets = Budgets { free_depth: Depth::Limit(1), ..Budgets::zero() };

    // a reroll is available and budgeted: reroll rather than settle
    let d = decide(&c, &ids(&["clay"]), &eco(RerollCost::Free), false, &mut First);
    assert_eq!(d, Decision::Reroll, "must not settle while budget remains");

    // budget spent: now settle on the best fallback
    let spent = Economy { free_used: 1, ..eco(RerollCost::Free) };
    let d = decide(&c, &ids(&["wheat", "clay"]), &spent, false, &mut First);
    assert_eq!(d, Decision::Pick("clay".into()), "highest-weighted fallback");
}

#[test]
fn unknown_offered_id_falls_closed() {
    let c = cfg(BASIC);
    let d = decide(&c, &ids(&["metal", "unobtainium"]), &eco(RerollCost::Unavailable), false, &mut First);
    assert!(
        matches!(d, Decision::Manual(_)),
        "an unclassified option must stop the mod, even alongside a wanted one"
    );
}

#[test]
fn scrap_is_unreachable_when_the_type_cannot_scrap() {
    let c = cfg("
[resource]
[resource.wanted]
metal = 1
[resource.fallback]
_scrap = 5
[resource.blacklist]
water
");
    // scrap_available = false: unit_class_stat has no scrap button
    let d = decide(&c, &ids(&["water"]), &eco(RerollCost::Unavailable), false, &mut First);
    assert!(matches!(d, Decision::Manual(_)), "must not press a button that is not there");

    let d = decide(&c, &ids(&["water"]), &eco(RerollCost::Unavailable), true, &mut First);
    assert_eq!(d, Decision::Pick(SCRAP.into()), "and must use it when it is there");
}

#[test]
fn budgets_do_not_fall_through_to_another_class() {
    // free_depth 1, paid_depth 1, and the game says the next reroll is free.
    // Once free_depth is spent, rerolling stops -- paid_depth is unreachable
    // while free rerolls remain banked.
    let mut c = cfg(BASIC);
    c.budgets = Budgets { free_depth: Depth::Limit(1), paid_depth: Depth::Limit(1), ..Budgets::zero() };

    let fresh = eco(RerollCost::Free);
    assert_eq!(may_reroll(&c, &fresh), RerollVerdict::Allowed(RerollCost::Free));

    let spent = Economy { free_used: 1, ..fresh };
    assert_eq!(may_reroll(&c, &spent), RerollVerdict::Denied("free_depth spent"), "must not upgrade to the paid budget");
}

#[test]
fn voodoo_is_budgeted_separately_from_the_run_pool() {
    let mut c = cfg(BASIC);
    c.budgets = Budgets { voodoo_depth: Depth::Limit(1), free_depth: Depth::Zero, ..Budgets::zero() };

    assert_eq!(may_reroll(&c, &eco(RerollCost::Voodoo)), RerollVerdict::Allowed(RerollCost::Voodoo));
    // the run pool is separately zero, so a free reroll is refused
    assert_eq!(may_reroll(&c, &eco(RerollCost::Free)), RerollVerdict::Denied("free_depth spent"));
}

#[test]
fn paid_rerolls_respect_affordability_and_the_floor() {
    let mut c = cfg(BASIC);
    c.budgets = Budgets { paid_depth: Depth::Limit(3), denarii_floor: 500, ..Budgets::zero() };

    let e = Economy { denarii: 1000, ..eco(RerollCost::Paid(100)) };
    assert_eq!(may_reroll(&c, &e), RerollVerdict::Allowed(RerollCost::Paid(100)));

    // would drop below the floor
    let e = Economy { denarii: 550, ..eco(RerollCost::Paid(100)) };
    assert_eq!(may_reroll(&c, &e), RerollVerdict::Denied("would breach denarii_floor"));

    // cannot afford at all
    let e = Economy { denarii: 50, ..eco(RerollCost::Paid(100)) };
    assert_eq!(may_reroll(&c, &e), RerollVerdict::Denied("cannot afford it"));
}

#[test]
fn an_unavailable_reroll_is_never_permitted() {
    let mut c = cfg(BASIC);
    c.budgets = Budgets {
        voodoo_depth: Depth::Limit(9),
        free_depth: Depth::Limit(9),
        paid_depth: Depth::Limit(9),
        denarii_floor: 0,
    };
    assert_eq!(may_reroll(&c, &eco(RerollCost::Unavailable)), RerollVerdict::Denied("no reroll available"));
}

#[test]
fn equal_weights_are_broken_between_all_tied_options() {
    let c = cfg("
[resource]
[resource.wanted]
metal = 10
ore = 10
gold = 10
[resource.blacklist]
water
");
    let offered = ids(&["metal", "ore", "gold"]);
    let mut seen = HashSet::new();
    let mut rng = TieBreaker::new(12345);
    for _ in 0..500 {
        let d = decide(&c, &offered, &eco(RerollCost::Unavailable), false, &mut rng);
        if let Decision::Pick(id) = d {
            seen.insert(id);
        }
    }
    assert_eq!(seen.len(), 3, "every tied option must be reachable, got {seen:?}");
}
