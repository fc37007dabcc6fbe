use tkiw::config::{generate, TypeVocab};
use tkiw::resolve::config_type_for;
use tkiw::vocab::{build, improvement_kinds, troops, GameLists, LibEntry};

#[test]
fn every_improvement_section_is_resolvable() {
    let generated: Vec<&str> = improvement_kinds().iter().map(|k| k.section).collect();
    assert!(!generated.is_empty());

    for section in &generated {
        assert!(
            section.starts_with("improvement_"),
            "{section} is in the improvement list but is not named like one"
        );
        assert!(
            improvement_kinds().iter().any(|k| k.section == *section),
            "{section} is generated but the resolver would not accept it"
        );
        assert_eq!(config_type_for("obj_card_improvement", Some(section)), Some(*section));
    }

    let mut seen = generated.clone();
    seen.sort_unstable();
    seen.dedup();
    assert_eq!(seen.len(), generated.len(), "duplicate improvement section");
}

#[test]
fn there_is_no_bare_improvement_section() {
    assert!(
        !improvement_kinds().iter().any(|k| k.section == "improvement"),
        "a bare [improvement] section cannot carry per-tier preferences"
    );
    assert_eq!(config_type_for("obj_card_improvement", Some("improvement")), None);
}

fn entry(key: &str, title: &str, tier: Option<i64>, excluded: bool) -> LibEntry {
    LibEntry { key: key.into(), title: title.into(), tier, excluded }
}

fn lists() -> GameLists {
    GameLists {
        artifacts: vec![
            entry("ring", "Ring", Some(1), false),
            entry("crown", "Crown", Some(2), false),
            entry("amulet", "Amulet", Some(1), false),
        ],
        spells: vec![entry("freeze", "Freeze", Some(1), false), entry("doom", "Doom", Some(2), false)],
        upgrades: vec![entry("walls2", "Walls II", None, false), entry("gate2", "", None, false)],
        resources: vec![
            entry("ore", "Ore", None, false),
            entry("random", "", None, false),
            entry("clay", "Clay", None, false),
        ],
        improvements: vec![
            entry("farm", "Farm", None, false),
            entry("mill", "Mill", None, false),
            entry("imp_pit", "Imp Pit", None, false),
            entry("barracks", "Barracks", None, false),
            entry("dragon_nest", "Dragon's Nest", None, true),
        ],
        by_category: vec![
            ("0".into(), vec!["mill".into(), "farm".into(), "dragon_nest".into()]),
            ("1".into(), vec!["imp_pit".into(), "barracks".into()]),
        ],
        by_tier: vec![
            ("1".into(), vec!["farm".into(), "imp_pit".into(), "barracks".into()]),
            ("2".into(), vec!["mill".into()]),
        ],
        unit_classes: Some(8),
    }
}

fn section<'a>(v: &'a [TypeVocab<'static>], ty: &str) -> &'a TypeVocab<'static> {
    v.iter().find(|t| t.reward_type == ty).unwrap()
}

fn ids<'a>(t: &'a TypeVocab<'a>) -> Vec<&'a str> {
    t.options.iter().map(|(i, _)| i.as_str()).collect()
}

#[test]
fn libraries_are_split_filtered_and_sorted() {
    let (v, never) = build(&lists()).expect("eight classes");
    assert_eq!(v.len(), 7 + 12);
    assert_eq!(ids(section(&v, "artifact")), vec!["amulet", "ring"]);
    assert_eq!(ids(section(&v, "artifact_legend")), vec!["crown"]);
    assert_eq!(section(&v, "artifact").note, "tier 1 of 3 artifacts");
    assert_eq!(ids(section(&v, "spell")), vec!["freeze"]);
    assert_eq!(ids(section(&v, "resource")), vec!["clay", "ore"], "random is a marker, not an option");
    assert_eq!(ids(section(&v, "upgrade")), vec!["gate2", "walls2"]);
    assert_eq!(ids(section(&v, "improvement_production_t1")), vec!["farm"]);
    assert_eq!(ids(section(&v, "improvement_production_t2")), vec!["mill"]);
    assert_eq!(ids(section(&v, "improvement_troops_t1")), vec!["barracks", "imp_pit"]);
    assert_eq!(ids(section(&v, "improvement_infernals")), vec!["imp_pit"]);
    assert_eq!(ids(section(&v, "improvement_infernals_t1")), vec!["imp_pit"]);
    assert!(ids(section(&v, "improvement_misc")).is_empty(), "no such category");
    assert_eq!(never, vec![("dragon_nest".to_string(), "Dragon's Nest".to_string())]);
    assert!(!section(&v, "unit_class_stat").can_scrap);
    assert!(section(&v, "resource").can_scrap);
    // and the whole lot generates a config
    assert!(generate(&v, &never).contains("[improvement_infernals_t1.blacklist]"));
}

#[test]
fn a_changed_class_count_builds_nothing() {
    let mut l = lists();
    l.unit_classes = Some(9);
    assert!(build(&l).is_none());
    l.unit_classes = None;
    assert!(build(&l).is_none());
}

#[test]
fn troops_keys_are_class_dot_stat() {
    let t = troops(Some(8)).unwrap();
    assert_eq!(t.len(), 16);
    assert_eq!(t[0], ("grunt.hp".to_string(), "Grunt +hp".to_string()));
    assert_eq!(t[1], ("grunt.damage".to_string(), "Grunt +damage".to_string()));
    assert_eq!(t[15], ("undead.damage".to_string(), "Undead +damage".to_string()));
    assert!(troops(Some(7)).is_none());
}
