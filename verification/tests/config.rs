use tkiw::config::{generate, normalise, Depth, Tier, TypeVocab, SCRAP};
use tkiw::parse::{check_complete, parse, weight_fields, Config};
use tkiw::picker::TypeConfig;

/// Parse as the mod does: each weight text read as a double.
fn parse_text(text: &str) -> Config {
    let weights: Vec<Option<u64>> = weight_fields(text)
        .iter()
        .map(|w| w.parse::<f64>().ok().map(f64::to_bits))
        .collect();
    parse(text, &weights)
}

fn weight_of(conf: &TypeConfig, id: &str) -> Option<f64> {
    conf.weight_bits_of(id).map(f64::from_bits)
}

#[test]
fn parses_tiers_weights_and_budgets() {
    let c = parse_text(
        "
[global]
enabled = true
delay_ms = 250

[resource]
voodoo_depth = 1
free_depth = 2
paid_depth = 0
denarii_floor = 300

[resource.wanted]
metal = 10
ore = 10

[resource.fallback]
clay = 7
_scrap = 1

[resource.blacklist]
water
",
    );
    assert!(c.errors.is_empty(), "{:?}", c.errors);
    assert_eq!(c.global.delay_ms, 250);
    let r = c.for_type("resource").unwrap();
    assert_eq!(r.budgets.voodoo_depth, Depth::Limit(1));
    assert_eq!(r.budgets.free_depth, Depth::Limit(2));
    assert_eq!(r.budgets.denarii_floor, 300);
    assert_eq!(r.tier_of("metal"), Some(Tier::Wanted));
    assert_eq!(weight_of(r, "metal"), Some(10.0));
    assert_eq!(r.tier_of("clay"), Some(Tier::Fallback));
    assert_eq!(r.tier_of("water"), Some(Tier::Blacklist));
    assert_eq!(r.tier_of(SCRAP), Some(Tier::Fallback));
}

#[test]
fn a_type_absent_from_the_config_is_fully_manual() {
    let c = parse_text("[resource]\n[resource.wanted]\nmetal = 1\n");
    assert!(c.for_type("unit_class_stat").is_none());
}

#[test]
fn an_id_in_two_tiers_is_an_error_and_drops_only_that_type() {
    let c = parse_text(
        "
[resource]
[resource.wanted]
metal = 10
[resource.blacklist]
metal

[spell]
[spell.wanted]
freeze = 1
",
    );
    assert!(c.for_type("resource").is_none(), "the broken type must be dropped");
    assert!(c.for_type("spell").is_some(), "a good type must survive its neighbour");
    assert!(c.errors.iter().any(|e| e.contains("listed twice")), "{:?}", c.errors);
}

#[test]
fn a_missing_weight_warns_but_keeps_the_section() {
    let c = parse_text("[resource]\n[resource.wanted]\nmetal\nore = 5\n");
    let conf = c.for_type("resource").expect("the section must survive");
    assert_eq!(conf.tier_of("metal"), Some(Tier::Wanted));
    assert_eq!(weight_of(conf, "metal"), Some(0.0), "lowest in its tier");
    assert_eq!(weight_of(conf, "ore"), Some(5.0));
    assert!(c.errors.iter().any(|e| e.contains("no weight")), "{:?}", c.errors);
}

#[test]
fn an_unweighted_id_ranks_below_a_weighted_one() {
    let c = parse_text("[resource]\n[resource.wanted]\nmetal\nore = 5\n");
    let conf = c.for_type("resource").unwrap();
    assert!(weight_of(conf, "ore") > weight_of(conf, "metal"));
}

#[test]
fn bare_ids_stay_legal_in_the_blacklist() {
    let c = parse_text("[resource]\n[resource.blacklist]\nwater\nwine\n");
    assert!(c.errors.is_empty(), "{:?}", c.errors);
    let conf = c.for_type("resource").unwrap();
    assert_eq!(conf.tier_of("water"), Some(Tier::Blacklist));
    assert_eq!(conf.tier_of("wine"), Some(Tier::Blacklist));
}

#[test]
fn comments_and_blank_lines_are_ignored() {
    let c = parse_text(
        "
# leading comment
[resource]      # trailing
free_depth = 2  # how many

[resource.wanted]
metal = 10      # the good one
",
    );
    assert!(c.errors.is_empty(), "{:?}", c.errors);
    assert_eq!(c.for_type("resource").unwrap().budgets.free_depth, Depth::Limit(2));
    assert_eq!(weight_of(c.for_type("resource").unwrap(), "metal"), Some(10.0));
}

#[test]
fn completeness_is_enforced_against_the_vocabulary() {
    let c = parse_text(
        "
[resource]
[resource.wanted]
metal = 10
[resource.blacklist]
water
",
    );
    let conf = c.for_type("resource").unwrap();
    let vocab = ["metal", "water", "ore"];
    let problems = check_complete("resource", conf, &vocab, true);
    assert!(problems.iter().any(|p| p.contains("missing id: ore")), "{problems:?}");
}

#[test]
fn an_id_outside_the_vocabulary_is_reported() {
    let c = parse_text(
        "
[resource]
[resource.wanted]
metal = 10
unobtainium = 5
",
    );
    let conf = c.for_type("resource").unwrap();
    let problems = check_complete("resource", conf, &["metal"], true);
    assert!(problems.iter().any(|p| p.contains("unknown id: unobtainium")), "{problems:?}");
}

#[test]
fn ranking_scrap_where_it_does_not_exist_is_reported() {
    let c = parse_text("[unit_class_stat]\n[unit_class_stat.fallback]\n_scrap = 1\n");
    let conf = c.for_type("unit_class_stat").unwrap();
    let problems = check_complete("unit_class_stat", conf, &[], false);
    assert!(problems.iter().any(|p| p.contains("no scrap button")), "{problems:?}");
    assert!(check_complete("resource", conf, &[], true).is_empty());
}

fn vocab() -> Vec<TypeVocab<'static>> {
    vec![
        TypeVocab {
            reward_type: "resource",
            display: "Resource",
            options: vec![
                ("metal".into(), "Metal".into()),
                ("water".into(), "Water".into()),
            ],
            can_scrap: true,
            note: String::new(),
        },
        TypeVocab {
            reward_type: "unit_class_stat",
            display: "Troops Training",
            options: vec![("ranged.damage".into(), "Ranged damage".into())],
            can_scrap: false,
            note: String::new(),
        },
    ]
}

#[test]
fn unvalued_options_are_written_back_with_a_weight() {
    let before = "[resource]
free_depth = 1

[resource.wanted]
metal = 10
ore
gold        # shiny

[resource.fallback]
clay

[resource.blacklist]
sand
stone       # never
";
    let after = normalise(before).expect("there was something to fix");
    assert!(after.contains("ore = 0\n"), "{after}");
    assert!(after.contains("gold = 0   # shiny\n"), "{after}");
    assert!(after.contains("clay = 0\n"), "{after}");
    assert!(after.contains("metal = 10\n"), "{after}");
    assert!(after.contains("\nsand\n"), "{after}");
    assert!(after.contains("stone       # never\n"), "{after}");
    assert!(after.contains("free_depth = 1\n"), "{after}");

    let a = parse_text(before);
    let b = parse_text(&after);
    for id in ["ore", "gold", "clay", "metal", "sand"] {
        let ta = a.for_type("resource").unwrap();
        let tb = b.for_type("resource").unwrap();
        assert_eq!(ta.tier_of(id), tb.tier_of(id), "{id} changed tier");
        assert_eq!(weight_of(ta, id), weight_of(tb, id), "{id} changed weight");
    }
}

#[test]
fn normalising_twice_changes_nothing_the_second_time() {
    let once = normalise("[a.wanted]\nx\n").expect("first pass changes it");
    assert_eq!(normalise(&once), None, "second pass must find nothing to do");
}

#[test]
fn a_file_that_needs_nothing_is_left_alone() {
    assert_eq!(normalise("[a.wanted]\nx = 3\n\n[a.blacklist]\ny\n"), None);
}

#[test]
fn minus_one_means_as_many_as_the_game_allows() {
    let c = parse_text(
        "[resource]
voodoo_depth = -1
free_depth = 0
paid_depth = 2
             [resource.blacklist]
clay
",
    );
    assert!(c.errors.is_empty(), "{:?}", c.errors);
    let b = &c.for_type("resource").unwrap().budgets;
    assert_eq!(b.voodoo_depth, Depth::Unlimited);
    assert_eq!(b.free_depth, Depth::Zero);
    assert_eq!(b.paid_depth, Depth::Limit(2));
    assert!(b.voodoo_depth.allows(1_000_000));
    assert!(!b.free_depth.allows(0));
    assert!(b.paid_depth.allows(1) && !b.paid_depth.allows(2));
}

#[test]
fn the_generated_config_is_inert() {
    let text = generate(&vocab(), &[]);
    let c = parse_text(&text);
    assert!(c.errors.is_empty(), "generated config must parse cleanly: {:?}", c.errors);

    for ty in ["resource", "unit_class_stat"] {
        let conf = c.for_type(ty).expect(ty);
        assert_eq!(conf.budgets.voodoo_depth, Depth::Zero);
        assert_eq!(conf.budgets.free_depth, Depth::Zero);
        assert_eq!(conf.budgets.paid_depth, Depth::Zero);
        assert!(
            conf.options.iter().all(|o| o.tier == Tier::Blacklist),
            "every id must start blacklisted"
        );
    }
}

#[test]
fn the_generated_config_is_complete() {
    let v = vocab();
    let c = parse_text(&generate(&v, &[]));
    for t in &v {
        let conf = c.for_type(t.reward_type).unwrap();
        let ids: Vec<&str> = t.options.iter().map(|(i, _)| i.as_str()).collect();
        let problems = check_complete(t.reward_type, conf, &ids, t.can_scrap);
        assert!(problems.is_empty(), "{}: {problems:?}", t.reward_type);
    }
}

#[test]
fn scrap_is_only_suggested_where_it_exists() {
    let text = generate(&vocab(), &[]);
    let (resource, troops) = text.split_once("[unit_class_stat]").unwrap();
    assert!(resource.contains("# _scrap = 1"), "resource can scrap");
    assert!(troops.contains("no scrap button"), "unit_class_stat cannot");
    assert!(!troops.contains("# _scrap = 1"));
}

#[test]
fn the_information_block_is_only_a_comment() {
    let excluded = vec![("dragon_nest".to_string(), "Dragon's Nest".to_string())];
    let text = generate(&vocab(), &excluded);
    assert!(text.contains("dragon_nest"), "it must actually be listed");
    let c = parse_text(&text);
    assert!(c.errors.is_empty(), "{:?}", c.errors);
    for ty in ["resource", "unit_class_stat"] {
        assert!(
            c.for_type(ty).unwrap().tier_of("dragon_nest").is_none(),
            "an excluded id must not become a configurable option"
        );
    }
}

#[test]
fn a_note_says_where_a_list_came_from() {
    let mut v = vocab();
    v[0].note = "tier 1 of 127 artifacts".into();
    let text = generate(&v, &[]);
    assert!(text.contains("# tier 1 of 127 artifacts"));
    assert!(parse_text(&text).errors.is_empty());
}

#[test]
fn display_names_are_carried_through_as_comments() {
    let text = generate(&vocab(), &[]);
    assert!(text.contains("# Metal"), "ids should be annotated with display names");
    let c = parse_text(&text);
    assert_eq!(c.for_type("resource").unwrap().tier_of("metal"), Some(Tier::Blacklist));
}

#[test]
fn a_bad_number_drops_the_type_with_its_problems_listed() {
    let c = parse_text("[resource]\nfree_depth = lots\n[resource.wanted]\nmetal = heaps\n");
    assert!(c.for_type("resource").is_none());
    assert_eq!(
        c.errors,
        vec![
            "[resource] dropped, 2 problem(s):".to_string(),
            "    line 2: free_depth: \"lots\" is not a number".to_string(),
            "    line 4: metal: weight \"heaps\" is not a number".to_string(),
        ]
    );
}

#[test]
fn global_problems_are_reported_by_line() {
    let c = parse_text("orphan = 1\n[global]\ndelay_ms = -5\nspeed = 3\nACT = yes\n[x.wrong]\n");
    assert_eq!(
        c.errors,
        vec![
            "line 1: setting outside any section".to_string(),
            "line 3: delay_ms: \"-5\" is not a number".to_string(),
            "line 4: unknown setting in [global]: speed".to_string(),
            "line 5: unknown setting in [global]: ACT".to_string(),
            "line 6: unknown section [x.wrong]".to_string(),
        ]
    );
    assert_eq!(c.global.delay_ms, 100);
    assert!(!c.global.act);
}

#[test]
fn truthy_values_ignore_case() {
    let c = parse_text("[GLOBAL]\nact = YES\ntrace = 1\nsurvey = True\nenabled = no\n");
    assert!(c.errors.is_empty(), "{:?}", c.errors);
    assert!(c.global.act && c.global.trace && c.global.survey && !c.global.enabled);
}

#[test]
fn the_weight_fields_are_the_texts_after_the_equals() {
    let text = "[a]\nfree_depth = 1\n[a.wanted]\nx = 2.5\ny\n[a.blacklist]\nz = -1e3  # low\n";
    assert_eq!(weight_fields(text), vec!["2.5".to_string(), "-1e3".to_string()]);
}

#[test]
fn a_missing_weight_is_reported_with_its_line() {
    let c = parse_text("[a.fallback]\nx\n");
    assert_eq!(
        c.errors,
        vec!["line 2: x in [a.fallback] had no weight; written back                          as `= 0`, the lowest. Change the number to rank it.".to_string()]
    );
}

#[test]
fn the_default_config_is_fully_manual() {
    let c = Config::default();
    assert!(c.types.is_empty() && c.errors.is_empty());
    assert!(c.global.enabled && !c.global.act && c.global.delay_ms == 100);
}

#[test]
fn a_header_with_a_comment_is_still_a_header_when_normalising() {
    let before = "[t]\n[t.wanted]\nx\n[t.blacklist] # c\ny\n";
    let after = normalise(before).expect("x needs a weight");
    assert_eq!(after, "[t]\n[t.wanted]\nx = 0\n[t.blacklist] # c\ny\n");
    let a = parse_text(before);
    let b = parse_text(&after);
    let (ta, tb) = (a.for_type("t").unwrap(), b.for_type("t").unwrap());
    for id in ["x", "y"] {
        assert_eq!(ta.tier_of(id), tb.tier_of(id), "{id} changed tier");
        assert_eq!(weight_of(ta, id), weight_of(tb, id), "{id} changed weight");
    }
    assert_eq!(tb.tier_of("y"), Some(Tier::Blacklist));
}

#[test]
fn nothing_in_the_global_section_is_given_a_weight() {
    assert_eq!(normalise("[global.wanted]\ntrace\n"), None);
    assert_eq!(normalise("[global]\ntrace\n[a.wanted]\nx\n").as_deref(), Some("[global]\ntrace\n[a.wanted]\nx = 0\n"));
}
