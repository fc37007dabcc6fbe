use tkiw::picker::{Decision, RerollCost};
use tkiw::resolve::{
    check_price, collect_ids, config_type_for, economy, needs_price, new_reward, open_plan, plan,
    reroll_cost, troop_key, card_verdict, Choice, LastLine, Open, Settle, Spent, Step, Verdict,
    Watch, OPEN_SETTLE_MS, PICK_SETTLE_MS,
};
use tkiw::session::{var_wait, VarWait, known_globals_matching, recheck_due, BuildTries, RunEvent, RunWatch, KNOWN_GLOBALS, MAX_BUILD_TRIES};
use tkiw::survey::{buttons_line, card_name, fingerprint, queue_tally, ui_line};

#[test]
fn cards_map_to_sections_by_object() {
    assert_eq!(config_type_for("obj_card_resource", Some("artifact")), Some("resource"));
    assert_eq!(config_type_for("obj_card_class_stat_bonus", None), Some("unit_class_stat"));
    assert_eq!(config_type_for("obj_card_start_bonus", None), None);
    assert_eq!(
        config_type_for("obj_card_improvement", Some("improvement_troops_t3")),
        Some("improvement_troops_t3")
    );
    assert_eq!(config_type_for("obj_card_improvement", Some("artifact")), None);
    assert_eq!(config_type_for("obj_card_improvement", None), None);
}

#[test]
fn troop_keys_come_from_the_indices() {
    assert_eq!(troop_key(3, 1).as_deref(), Some("ranged.damage"));
    assert_eq!(troop_key(8, 0), None);
    assert_eq!(troop_key(0, 2), None);
    assert_eq!(troop_key(-1, 0), None);
}

#[test]
fn the_game_spends_free_rerolls_first() {
    assert_eq!(reroll_cost(true, true, true, Some(9)), RerollCost::Voodoo);
    assert_eq!(reroll_cost(true, false, true, Some(9)), RerollCost::Free);
    assert_eq!(reroll_cost(true, false, false, Some(9)), RerollCost::Paid(9));
    assert_eq!(reroll_cost(true, false, false, None), RerollCost::Unavailable);
    assert_eq!(reroll_cost(false, true, true, Some(9)), RerollCost::Unavailable);
    assert!(needs_price(true, false, false, false));
    assert!(!needs_price(true, false, false, true), "an unreadable price is not asked again");
    assert!(!needs_price(true, true, false, false));
}

#[test]
fn spending_counts_by_kind() {
    let mut s = Spent::zero();
    s.record(RerollCost::Voodoo);
    s.record(RerollCost::Paid(5));
    s.record(RerollCost::Paid(7));
    s.record(RerollCost::Unavailable);
    assert_eq!(s, Spent { voodoo: 1, free: 0, paid: 2 });
    let e = economy(RerollCost::Free, 40, s);
    assert_eq!((e.voodoo_used, e.free_used, e.paid_used, e.denarii), (1, 0, 2, 40));
}

#[test]
fn a_negative_price_is_refused() {
    assert_eq!(check_price(12), Ok(12));
    assert_eq!(check_price(-3), Err("the coin price came out negative (-3)".to_string()));
}

#[test]
fn two_kinds_of_card_stop_the_mod() {
    assert_eq!(card_verdict(false, 0, true, "obj_card_spell", Some("spell")), Verdict::Skip);
    assert_eq!(
        card_verdict(true, 3, true, "obj_card_spell", Some("spell")),
        Verdict::Stop("two kinds of option card on screen at once (obj_card_spell)".into())
    );
    assert_eq!(card_verdict(false, 3, false, "obj_card_spell", Some("spell")), Verdict::Wait);
    assert_eq!(card_verdict(false, 3, true, "obj_card_spell", Some("spell")), Verdict::Read("spell"));
    assert_eq!(card_verdict(false, 3, true, "obj_card_improvement", None), Verdict::Wait);
    assert_eq!(
        card_verdict(false, 3, true, "obj_card_start_bonus", None),
        Verdict::Stop("obj_card_start_bonus carries no addressable id; refusing to automate it".into())
    );
}

#[test]
fn every_card_must_give_an_id() {
    assert_eq!(
        collect_ids("obj_card_spell", vec![Some("a".into()), Some("b".into())]),
        Ok(vec!["a".to_string(), "b".to_string()])
    );
    assert_eq!(
        collect_ids("obj_card_spell", vec![Some("a".into()), None]),
        Err("could not identify an option on a obj_card_spell card".to_string())
    );
}

fn choice() -> Choice {
    Choice {
        card_object: "obj_card_resource",
        config_type: "resource",
        options: vec!["ore".into(), "clay".into(), "ore".into()],
        cards: vec![0x100, 0x200, 0x300],
        scrap_available: true,
    }
}

#[test]
fn a_pick_presses_the_card_carrying_the_id() {
    let c = choice();
    assert_eq!(plan(&Decision::Pick("clay".into()), &c, true, true), Step::Pick("clay".into(), 0x200));
    assert_eq!(plan(&Decision::Pick("ore".into()), &c, true, true), Step::Pick("ore".into(), 0x100));
    assert_eq!(plan(&Decision::Pick("gold".into()), &c, true, true), Step::PickNoCard("gold".into()));
    assert_eq!(plan(&Decision::Pick("clay".into()), &c, false, true), Step::WouldPick("clay".into()));
    assert_eq!(plan(&Decision::Reroll, &c, true, true), Step::Reroll);
    assert_eq!(plan(&Decision::Reroll, &c, true, false), Step::NoRerollButton);
    assert_eq!(plan(&Decision::Reroll, &c, false, true), Step::WouldReroll);
    assert_eq!(plan(&Decision::Manual("why"), &c, true, true), Step::Leave("why"));
}

#[test]
fn an_unchanged_line_is_said_once() {
    let mut l = LastLine::new();
    assert!(!l.repeats("a".into()));
    assert!(l.repeats("a".into()));
    assert!(!l.repeats("b".into()));
}

#[test]
fn settling_runs_out_and_is_forgotten() {
    let mut s = Settle::idle();
    assert!(!s.active(1000, PICK_SETTLE_MS));
    s.begin(1000);
    assert!(s.active(1399, PICK_SETTLE_MS));
    assert!(!s.active(1400, PICK_SETTLE_MS));
    assert!(!s.active(1000, PICK_SETTLE_MS), "once run out it is forgotten");
    s.begin(0);
    s.cancel();
    assert!(!s.active(1, OPEN_SETTLE_MS));
}

#[test]
fn the_queue_is_drained_strictly_in_order() {
    assert_eq!(open_plan(true, Some(7), true, true, true), Open::Wait);
    assert_eq!(open_plan(false, None, true, true, true), Open::Nothing);
    assert_eq!(open_plan(false, Some(7), false, true, true), Open::Nothing);
    assert_eq!(open_plan(false, Some(7), true, false, true), Open::Stop);
    assert_eq!(open_plan(false, Some(7), true, true, false), Open::WouldOpen);
    assert_eq!(open_plan(false, Some(7), true, true, true), Open::Press(7));
}

#[test]
fn a_different_card_count_is_a_new_reward() {
    let w = |cards| Some(Watch { queued: 2, cards, reroll_button: true });
    assert!(!new_reward(w(3), w(3)));
    assert!(new_reward(w(3), w(0)));
    assert!(new_reward(None, w(0)));
    assert!(!new_reward(None, None));
}

#[test]
fn the_config_is_rechecked_every_two_seconds() {
    assert!(recheck_due(false, 0));
    assert!(!recheck_due(true, 1999));
    assert!(recheck_due(true, 2000));
}

#[test]
fn the_libraries_are_asked_for_a_bounded_number_of_times() {
    let mut b = BuildTries::new();
    for _ in 0..MAX_BUILD_TRIES {
        assert_eq!(b.ask(), (true, false));
    }
    assert_eq!(b.ask(), (false, true), "the ask that runs out says so");
    assert_eq!(b.ask(), (false, false));
    let mut c = BuildTries::new();
    c.give_up();
    assert_eq!(c.ask(), (false, false));
}

#[test]
fn the_survey_reports_only_changes() {
    let mut w = RunWatch::new();
    assert_eq!(w.controller(false), RunEvent::Same);
    assert_eq!(w.controller(true), RunEvent::Started);
    assert_eq!(w.controller(true), RunEvent::Same);
    assert!(w.dump_libraries_now());
    assert!(!w.dump_libraries_now());
    assert!(w.queue_changed("q=1".into()));
    assert!(!w.queue_changed("q=1".into()));
    assert_eq!(w.screen("cards".into(), 3), Some(Some(1)));
    assert_eq!(w.screen("cards".into(), 3), None);
    assert_eq!(w.screen("cards filled".into(), 3), Some(None), "still the same choice");
    assert_eq!(w.screen("nothing".into(), 0), Some(None));
    assert_eq!(w.screen("cards".into(), 3), Some(Some(2)));
    assert_eq!(w.controller(false), RunEvent::Ended);
    assert!(w.queue_changed("q=1".into()), "leaving a run forgets the queue line");
}

#[test]
fn the_screen_is_described_in_one_line() {
    let mut counts = vec![0usize; 20];
    assert_eq!(ui_line(&counts), "  ui: <nothing>");
    counts[0] = 3;
    counts[8] = 1;
    counts[9] = 1;
    assert_eq!(ui_line(&counts), "  ui: card_resourcex3 button_reroll_cardsx1 button_rewards_scrapx1");
    assert_eq!(fingerprint(&[3, 0, 12]), "3,0,12");
    assert_eq!(fingerprint(&[]), "");
    assert_eq!(buttons_line(&counts), "  scrap_buttons=1 banish_buttons=0");
    assert_eq!(buttons_line(&[]), "  scrap_buttons=0 banish_buttons=0");
    assert_eq!(card_name("obj_card_class_stat_bonus"), "class_stat_bonus");
}

#[test]
fn the_read_path_is_confirmed_only_by_every_known_global() {
    let all: Vec<Option<String>> = KNOWN_GLOBALS.iter().map(|(_, v)| Some(v.to_string())).collect();
    assert_eq!(known_globals_matching(&all), 4);
    let mut some = all.clone();
    some[1] = Some("Resource".to_string());
    some[3] = None;
    assert_eq!(known_globals_matching(&some), 2);
    assert_eq!(known_globals_matching(&[None, None, None, None]), 0);
}

#[test]
fn the_queue_is_tallied_most_frequent_type_first() {
    let q: Vec<String> = ["spell", "resource", "artifact", "resource", "spell", "resource", "gold"]
        .iter()
        .map(|s| s.to_string())
        .collect();
    let t = queue_tally(&q);
    assert_eq!(
        t,
        vec![
            ("resource".to_string(), 3),
            ("spell".to_string(), 2),
            ("artifact".to_string(), 1),
            ("gold".to_string(), 1),
        ]
    );
    assert!(queue_tally(&[]).is_empty());
}

#[test]
fn the_probe_waits_six_rounds_for_the_variables() {
    assert_eq!(var_wait(1, 11, 11), VarWait::Resolved(5));
    assert_eq!(var_wait(3, 10, 11), VarWait::Again);
    assert_eq!(var_wait(5, 10, 11), VarWait::Again);
    assert_eq!(var_wait(6, 10, 11), VarWait::GiveUp);
    assert_eq!(var_wait(6, 11, 11), VarWait::Resolved(30));
}
