use tkiw::fault::{fault_report, reported, EXCEPTION_ACCESS_VIOLATION, REPORT_MAX};
use tkiw::breadcrumb::{arm, Armed, HealthyClear, HEALTHY_AFTER_MS};
use tkiw::home::{carries_marker, stamped_path};
use tkiw::instance::{
    cstr_is, RegistryWalk, find_in, Candidate, IdWalk, InstanceWalk, ObjectCache, Registry, FLAG_ALIVE, INST_FLAGS,
    INST_ID, INST_OBJECT, MAX_CHAIN, MIN_INSTANCE_ID,
};
use tkiw::log::{Findings, MAX_FINDINGS};
use tkiw::monitor::{Monitor, BASE_INTERVAL, POLL_HARD_LIMIT};
use tkiw::press::{PressGuard, REPRESSED, REPRESS_FLOOR_MS};
use tkiw::probe::{Access, Step};
use tkiw::resolve::{read_choice, CardKind};
use tkiw::rvalue::{
    card_ready, cstr_scan, decode_cell, method_result, select_ref, string_size, Cell,
    INSTANCE_REF, KIND_ARRAY, KIND_BOOL, KIND_INT32, KIND_INT64, KIND_REAL, KIND_REF,
    KIND_STRING, KIND_UNDEFINED,
};
use tkiw::saves::{next_index, snapshot_index, to_prune, KEEP};
use tkiw::switch::{Chord, Switch, Toggle};

// ---------------------------------------------------------------- the switch

#[test]
fn the_switch_starts_off_and_follows_the_config() {
    let mut s = Switch::new();
    assert!(!s.acting());
    assert!(!s.note_config_act(true), "the first value read is not an edit");
    assert!(s.acting());
    // the same value again leaves a runtime toggle alone
    assert_eq!(s.toggle(), Toggle::Off);
    assert!(!s.note_config_act(true));
    assert!(!s.acting());
    // an edit of the file decides
    assert!(s.note_config_act(false));
    assert!(!s.acting());
    assert!(s.note_config_act(true));
    assert!(s.acting());
}

#[test]
fn a_shutdown_says_why_once() {
    let mut s = Switch::new();
    s.note_config_act(true);
    assert!(s.shut_down("an option the config does not classify".to_string()));
    assert!(!s.acting());
    assert_eq!(s.off_reason().as_deref(), Some("an option the config does not classify"));
    // already off: the second reason is not recorded and not announced
    assert!(!s.shut_down("something else".to_string()));
    assert_eq!(s.off_reason().as_deref(), Some("an option the config does not classify"));
}

#[test]
fn the_chord_overrides_a_shutdown_and_says_so() {
    let mut s = Switch::new();
    s.note_config_act(true);
    s.shut_down("panic while pressing reroll".to_string());
    assert_eq!(s.toggle(), Toggle::On(Some("panic while pressing reroll".to_string())));
    assert!(s.acting());
    assert_eq!(s.off_reason(), None);
    assert_eq!(s.toggle(), Toggle::Off);
    assert_eq!(s.toggle(), Toggle::On(None));
}

#[test]
fn switching_on_in_the_config_forgets_the_shutdown() {
    let mut s = Switch::new();
    s.note_config_act(true);
    s.shut_down("why".to_string());
    s.note_config_act(false);
    assert_eq!(s.off_reason().as_deref(), Some("why"));
    s.note_config_act(true);
    assert_eq!(s.off_reason(), None);
}

#[test]
fn a_held_chord_fires_once() {
    let mut c = Chord::new();
    let fired: Vec<bool> = [true, true, true, false, true, true].iter().map(|&d| c.pressed(d)).collect();
    assert_eq!(fired, vec![true, false, false, false, true, false]);
}

#[test]
fn rearming_gives_a_disabled_survey_another_chance() {
    let mut m = Monitor::new();
    for _ in 0..5 {
        m.observe(POLL_HARD_LIMIT + 1);
    }
    assert!(m.disabled);
    assert!(m.rearm());
    assert!(!m.disabled);
    assert_eq!(m.interval, BASE_INTERVAL);
    assert_eq!(m.over_budget, 0);
    assert_eq!(m.step_gap, 0);
    assert!(!m.rearm(), "an enabled survey was not off");
}

// ---------------------------------------------------------------- pressing

#[test]
fn the_same_button_waits_for_the_gap() {
    let mut g = PressGuard::new();
    assert_eq!(g.gap(), 100);
    assert_eq!(g.try_press(0x1000, 5_000), Ok(()));
    assert_eq!(g.try_press(0x1000, 5_050), Err(REPRESSED));
    // a refused press does not restart the wait
    assert_eq!(g.try_press(0x1000, 5_100), Ok(()));
    // another button is never held back
    assert_eq!(g.try_press(0x2000, 5_101), Ok(()));
}

#[test]
fn the_pace_has_a_floor() {
    let mut g = PressGuard::new();
    g.set_pace(5);
    assert_eq!(g.gap(), REPRESS_FLOOR_MS);
    g.set_pace(250);
    assert_eq!(g.gap(), 250);
    assert_eq!(g.try_press(7, 0), Ok(()));
    assert_eq!(g.try_press(7, 249), Err(REPRESSED));
    assert_eq!(g.try_press(7, 250), Ok(()));
}

// ---------------------------------------------------------------- breadcrumb

#[test]
fn a_breadcrumb_from_a_dead_session_holds_the_probe() {
    assert_eq!(arm(Some("m"), true, false), Armed::Held("m"));
    assert_eq!(arm(Some("m"), false, true), Armed::Go("m"));
    assert_eq!(arm(Some("m"), false, false), Armed::Skip);
    assert_eq!(arm(None::<&str>, false, true), Armed::Skip);
}

#[test]
fn the_breadcrumb_is_cleared_once_after_a_healthy_minute() {
    let mut h = HealthyClear::new();
    assert!(!h.clear_when_healthy(HEALTHY_AFTER_MS - 1));
    assert!(h.clear_when_healthy(HEALTHY_AFTER_MS));
    assert!(!h.clear_when_healthy(HEALTHY_AFTER_MS * 10));
}

// ---------------------------------------------------------------- findings

#[test]
fn findings_keep_the_first_sixty_four() {
    let mut f = Findings::new();
    for i in 0..100 {
        f.finding(&format!("finding {i}"));
    }
    assert_eq!(f.len(), MAX_FINDINGS);
    assert_eq!(f.line(0), "finding 0");
    assert_eq!(f.line(63), "finding 63");
}

// ---------------------------------------------------------------- the stamp

#[test]
fn the_stamped_path_follows_the_marker() {
    let marker = b"TKIW_DIR=";
    let mut raw = marker.to_vec();
    raw.extend_from_slice(b"C:\\Mods\\picker");
    raw.extend_from_slice(&[0, 0, 0, b'x']);
    assert_eq!(stamped_path(&raw, marker), "C:\\Mods\\picker");
}

#[test]
fn a_buffer_without_the_marker_has_no_path() {
    assert_eq!(stamped_path(b"OTHER_DIR=C:\\x\0", b"TKIW_DIR="), "");
    assert_eq!(stamped_path(b"TKIW_DIR=", b"TKIW_DIR="), "", "nothing after the marker");
    assert_eq!(stamped_path(b"anything", b""), "", "an empty marker matches nothing");
    // stamped but never written: the path is empty
    assert_eq!(stamped_path(b"TKIW_DIR=\0\0\0", b"TKIW_DIR="), "");
}

#[test]
fn a_stamp_without_a_nul_runs_to_the_end() {
    assert_eq!(stamped_path(b"M=abc", b"M="), "abc");
    // invalid UTF-8 is replaced, not refused
    assert_eq!(stamped_path(b"M=a\xffb\0", b"M="), "a\u{fffd}b");
}

// ---------------------------------------------------------------- rvalues

#[test]
fn rvalues_decode_by_kind() {
    assert_eq!(decode_cell(3.5f64.to_bits(), KIND_REAL, None), Cell::Real(3.5f64.to_bits()));
    assert_eq!(decode_cell(0xFFFF_FFFF_FFFF_FFFE, KIND_INT32, None), Cell::Int(-2));
    assert_eq!(decode_cell(0x1_0000_0005, KIND_INT32, None), Cell::Int(5));
    assert_eq!(decode_cell(u64::MAX, KIND_INT64, None), Cell::Int(-1));
    assert_eq!(decode_cell(2, KIND_BOOL, None), Cell::Bool(true));
    assert_eq!(decode_cell(0, KIND_BOOL, None), Cell::Bool(false));
    assert_eq!(decode_cell(9, KIND_UNDEFINED, None), Cell::Undefined);
    assert_eq!(decode_cell(0x1234, KIND_ARRAY, None), Cell::Array(0x1234));
    assert_eq!(
        decode_cell(0x0400_0001_0001_86A0, KIND_REF, None),
        Cell::Ref { ref_type: INSTANCE_REF, id: 100_000 }
    );
    assert_eq!(
        decode_cell(7, KIND_STRING, Some("resource".to_string())),
        Cell::Str("resource".to_string())
    );
    assert_eq!(decode_cell(7, KIND_STRING, None), Cell::Other { kind: KIND_STRING, raw: 7 });
    assert_eq!(decode_cell(7, 99, None), Cell::Other { kind: 99, raw: 7 });
}

#[test]
fn only_numbers_come_back_from_a_method() {
    assert_eq!(method_result(KIND_INT64, 40), Some(Cell::Int(40)));
    assert_eq!(method_result(KIND_REAL, 1), Some(Cell::Real(1)));
    assert_eq!(method_result(KIND_UNDEFINED, 0), None);
    assert_eq!(method_result(KIND_STRING, 0), None);
}

#[test]
fn a_card_is_ready_once_its_button_is_an_instance() {
    let built = Cell::Ref { ref_type: INSTANCE_REF, id: 100_123 };
    assert!(card_ready(&built));
    assert_eq!(select_ref(&built), Some(100_123));
    // `noone` is -4, a plain number, until the card is built
    assert!(!card_ready(&Cell::Int(-4)));
    assert_eq!(select_ref(&Cell::Int(-4)), None);
    assert!(!card_ready(&Cell::Ref { ref_type: 0x0200_0001, id: 3 }));
}

#[test]
fn string_sizes_drop_the_flag_bit() {
    assert_eq!(string_size(0x8000_000F), 15);
    assert_eq!(string_size(15), 15);
}

#[test]
fn a_c_string_stops_at_the_nul_and_refuses_binary() {
    assert_eq!(cstr_scan(b"unit_class_stat\0junk"), Some(b"unit_class_stat".to_vec()));
    assert_eq!(cstr_scan(b"ab\x01c\0"), None);
    assert_eq!(cstr_scan(b"tab\tok\0"), Some(b"tab\tok".to_vec()));
    assert_eq!(cstr_scan(b"no end"), None);
    assert_eq!(cstr_scan(b"\0"), Some(Vec::new()));
}

// ---------------------------------------------------------------- instances

/// A little memory, for driving the walks.
struct Memory(Vec<(usize, u64)>);

impl Memory {
    fn answer(&self, a: Access) -> Option<u64> {
        match a {
            Access::Value(addr, _) => self.0.iter().find(|(k, _)| *k == addr).map(|(_, v)| *v),
            Access::Readable(addr, _) => {
                if self.0.iter().any(|(k, _)| *k == addr) { Some(0) } else { None }
            }
        }
    }
}

fn live_instance(mem: &mut Vec<(usize, u64)>, inst: usize, obj: usize, id: i32) {
    mem.push((inst, 0x9000)); // vtable
    mem.push((0x9010, 0));
    mem.push((inst + INST_FLAGS, FLAG_ALIVE as u64));
    mem.push((inst + INST_OBJECT, obj as u64));
    mem.push((inst + INST_ID, id as u32 as u64));
}

fn walk(mem: &Memory, obj: usize, first_only: bool) -> Vec<usize> {
    let mut w = InstanceWalk::new(obj, first_only);
    let mut n = 0;
    while let Some(a) = w.ask() {
        w.feed(mem.answer(a));
        n += 1;
        assert!(n <= 8 * MAX_CHAIN + 9);
    }
    w.found().clone()
}

#[test]
fn the_instance_list_yields_the_live_instances() {
    let obj = 0x5000;
    let mut m = vec![
        (obj + 0x68, 0x6000), // list head
        (0x6010, 0x7000),     // node 1 -> instance
        (0x6000, 0x6100),     // node 1 next
        (0x6110, 0x7400),     // node 2 -> a dying instance
        (0x6100, 0x6200),
        (0x6210, 0x7800),     // node 3 -> instance
        (0x6200, 0x6300),
        (0x6310, 0),          // sentinel tail
    ];
    live_instance(&mut m, 0x7000, obj, MIN_INSTANCE_ID);
    live_instance(&mut m, 0x7400, obj, MIN_INSTANCE_ID + 1);
    m.retain(|(k, _)| *k != 0x7400 + INST_FLAGS);
    m.push((0x7400 + INST_FLAGS, (FLAG_ALIVE | 0x1) as u64));
    live_instance(&mut m, 0x7800, obj, MIN_INSTANCE_ID + 2);
    let mem = Memory(m);
    assert_eq!(walk(&mem, obj, false), vec![0x7000, 0x7800]);
    assert_eq!(walk(&mem, obj, true), vec![0x7000]);
}

#[test]
fn an_instance_of_another_object_is_not_counted() {
    let obj = 0x5000;
    let mut m = vec![(obj + 0x68, 0x6000), (0x6010, 0x7000), (0x6000, 0)];
    live_instance(&mut m, 0x7000, 0x5555, MIN_INSTANCE_ID);
    assert!(walk(&Memory(m), obj, false).is_empty());
}

#[test]
fn an_unreadable_list_has_no_instances() {
    assert!(walk(&Memory(vec![]), 0x5000, false).is_empty());
    assert!(walk(&Memory(vec![]), usize::MAX - 4, true).is_empty());
}

#[test]
fn an_id_resolves_through_the_hash() {
    let base = 0x100_0000;
    let id = MIN_INSTANCE_ID + 7;
    let buckets = 0x20_0000;
    let slot = (id & 0xFF) as usize;
    let node = 0x30_0000;
    let inst = 0x40_0000;
    let m = Memory(vec![
        (base + 0x2974450, buckets as u64),
        (base + 0x2974458, 0xFF),
        (buckets + slot * 16, node as u64),
        (node + 0x10, id as u32 as u64),
        (node + 0x18, inst as u64),
        (inst, 0),
        (inst + INST_ID, id as u32 as u64),
    ]);
    let mut w = IdWalk::new(base, id);
    while let Some(a) = w.ask() {
        w.feed(m.answer(a));
    }
    assert_eq!(w.result(), Some(inst));

    // an id below the first instance id names nothing, without a read
    let w = IdWalk::new(base, 4);
    assert!(w.over());
    assert_eq!(w.result(), None);
}

#[test]
fn a_recycled_id_is_not_trusted() {
    let base = 0x100_0000;
    let id = MIN_INSTANCE_ID + 7;
    let buckets = 0x20_0000;
    let slot = (id & 0xFF) as usize;
    let m = Memory(vec![
        (base + 0x2974450, buckets as u64),
        (base + 0x2974458, 0xFF),
        (buckets + slot * 16, 0x30_0000),
        (0x30_0010, id as u32 as u64),
        (0x30_0018, 0x40_0000),
        (0x40_0000, 0),
        (0x40_0000 + INST_ID, (id + 1) as u32 as u64),
    ]);
    let mut w = IdWalk::new(base, id);
    while let Some(a) = w.ask() {
        w.feed(m.answer(a));
    }
    assert_eq!(w.result(), None);
}

#[test]
fn the_registry_opens_only_with_a_sane_mask() {
    let base = 0x100_0000;
    let desc = 0x50_0000u64;
    let answers = vec![Some(desc), Some(0x60_0000), Some(0x3FF)];
    match Registry::open(base, &answers) {
        Step::Done(Some(r)) => {
            assert_eq!(r.buckets, 0x60_0000);
            assert_eq!(r.mask, 0x3FF);
        }
        _ => panic!("a sane registry did not open"),
    }
    assert!(matches!(Registry::open(base, &[]), Step::Ask(Access::Value(_, 8))));
    let bad = vec![Some(desc), Some(0x60_0000), Some(0)];
    assert!(matches!(Registry::open(base, &bad), Step::Done(None)));
}

#[test]
fn a_name_lookup_takes_the_first_match_and_checks_it() {
    let c = |index, obj, name_matches, own_index| Candidate { index, obj, name_matches, own_index };
    assert_eq!(find_in(&[c(1, 10, false, Some(1)), c(2, 20, true, Some(2)), c(3, 30, true, Some(3))]), Some((2, 20)));
    assert_eq!(find_in(&[c(2, 20, true, Some(5)), c(3, 30, true, Some(3))]), None);
    assert_eq!(find_in(&[c(1, 10, false, Some(1))]), None);
}

#[test]
fn misses_are_cached_only_once_the_registry_is_populated() {
    let mut cache = ObjectCache::new();
    assert_eq!(cache.lookup("obj_gameplay_controller"), None);
    cache.record("obj_card_spell", None, 12);
    assert_eq!(cache.lookup("obj_card_spell"), None, "an early miss must not be remembered");
    cache.record("obj_card_spell", None, 1750);
    assert_eq!(cache.lookup("obj_card_spell"), Some(None));
    cache.record("obj_gameplay_controller", Some((41, 0xABC)), 1750);
    assert_eq!(cache.lookup("obj_gameplay_controller"), Some(Some((41, 0xABC))));
    cache.record("obj_card_spell", Some((9, 0x99)), 3);
    assert_eq!(cache.lookup("obj_card_spell"), Some(Some((9, 0x99))), "the latest answer wins");
}

// ---------------------------------------------------------------- reading a choice

fn kind(obj: &'static str, cards: Vec<usize>, all_ready: bool, declared: Option<&str>, ids: Vec<Option<&str>>) -> CardKind {
    CardKind {
        obj,
        cards,
        all_ready,
        declared: declared.map(str::to_string),
        ids: ids.into_iter().map(|i| i.map(str::to_string)).collect(),
    }
}

#[test]
fn a_complete_choice_is_read_in_card_order() {
    let kinds = vec![
        kind("obj_card_resource", vec![], true, None, vec![]),
        kind("obj_card_spell", vec![1, 2, 3], true, None, vec![Some("fireball"), Some("heal"), Some("haste")]),
    ];
    let c = read_choice(&kinds, true).unwrap().unwrap();
    assert_eq!(c.card_object, "obj_card_spell");
    assert_eq!(c.config_type, "spell");
    assert_eq!(c.options, vec!["fireball", "heal", "haste"]);
    assert_eq!(c.cards, vec![1, 2, 3]);
    assert!(c.scrap_available);
}

#[test]
fn cards_still_being_built_are_not_read() {
    let kinds = vec![kind("obj_card_spell", vec![1, 2, 3], false, None, vec![None, None, None])];
    assert!(read_choice(&kinds, false).unwrap().is_none());
}

#[test]
fn two_kinds_of_card_at_once_stop_the_mod() {
    let kinds = vec![
        kind("obj_card_resource", vec![1], true, None, vec![Some("gold")]),
        kind("obj_card_spell", vec![2], true, None, vec![Some("heal")]),
    ];
    assert_eq!(
        read_choice(&kinds, false).err().unwrap(),
        "two kinds of option card on screen at once (obj_card_spell)"
    );
}

#[test]
fn a_card_without_an_id_stops_the_mod_but_buildings_are_left() {
    let start = vec![kind("obj_card_start_bonus", vec![1], true, None, vec![None])];
    assert_eq!(
        read_choice(&start, false).err().unwrap(),
        "obj_card_start_bonus carries no addressable id; refusing to automate it"
    );
    let buildings = vec![kind("obj_card_improvement", vec![1], true, None, vec![None])];
    assert!(read_choice(&buildings, false).unwrap().is_none());
    let unreadable = vec![kind("obj_card_spell", vec![1, 2], true, None, vec![Some("heal"), None])];
    assert_eq!(
        read_choice(&unreadable, false).err().unwrap(),
        "could not identify an option on a obj_card_spell card"
    );
    assert!(read_choice(&[], false).unwrap().is_none());
}

#[test]
fn the_section_comes_from_the_card_object_not_from_the_caller() {
    // a start bonus stays refused whatever type the reward declares
    let start = vec![kind("obj_card_start_bonus", vec![1], true, Some("resource"), vec![Some("x")])];
    assert!(read_choice(&start, false).is_err());
    // a resource card is read as a resource whatever the reward declares
    let res = vec![kind("obj_card_resource", vec![1], true, Some("spell"), vec![Some("gold")])];
    assert_eq!(read_choice(&res, false).unwrap().unwrap().config_type, "resource");
    // an improvement card takes the improvement section the reward declares
    let imp = vec![kind("obj_card_improvement", vec![1, 2], true, Some("improvement_misc"), vec![Some("well"), Some("road")])];
    let c = read_choice(&imp, false).unwrap().unwrap();
    assert_eq!(c.config_type, "improvement_misc");
    assert_eq!(c.options, vec!["well", "road"]);
    // and is left to the player when that is no improvement section
    let odd = vec![kind("obj_card_improvement", vec![1], true, Some("resource"), vec![Some("well")])];
    assert!(read_choice(&odd, false).unwrap().is_none());
}

// ---------------------------------------------------------------- save snapshots

#[test]
fn snapshot_folders_are_recognised_by_name() {
    assert_eq!(snapshot_index("launch-0007"), Some(7));
    assert_eq!(snapshot_index("launch-12"), Some(12));
    assert_eq!(snapshot_index("launch-+3"), Some(3), "as str::parse accepts it");
    assert_eq!(snapshot_index("launch-"), None);
    assert_eq!(snapshot_index("launch-x1"), None);
    assert_eq!(snapshot_index("launch-4294967296"), None, "too big for a u32");
    assert_eq!(snapshot_index("other-0001"), None);
}

#[test]
fn the_next_snapshot_follows_the_highest() {
    assert_eq!(next_index(&[]), 1);
    assert_eq!(next_index(&[3, 9, 2]), 10);
}

#[test]
fn only_the_newest_ten_snapshots_are_kept() {
    let few: Vec<u32> = (1..=KEEP as u32).collect();
    assert!(to_prune(&few).is_empty());
    // listed out of order, as a directory listing may be
    let many: Vec<u32> = vec![12, 1, 5, 3, 11, 2, 4, 6, 7, 8, 9, 10];
    // the two oldest, 1 and 2, at positions 1 and 5
    assert_eq!(to_prune(&many), vec![1, 5]);
}

// ---------------------------------------------------------------- fault reports

#[test]
fn an_access_violation_report_says_what_was_touched() {
    let r = fault_report(EXCEPTION_ACCESS_VIOLATION, 0x14000_1234, 0x14000_0000, &[0, 0x10], b"pressing reroll");
    let text = String::from_utf8(r.as_bytes().to_vec()).unwrap();
    assert_eq!(
        text,
        "---- FAULT ----\ncode 0xc0000005 at 0x140001234\ngame base 0x140000000\nrva 0x1234\
         \nwhile reading 0x10\nlast phase: pressing reroll\n---------------\n"
    );
}

#[test]
fn other_faults_carry_no_access_line_and_only_some_are_reported() {
    assert!(reported(EXCEPTION_ACCESS_VIOLATION));
    assert!(!reported(0x8000_0003), "a breakpoint is not a death");
    let text = String::from_utf8(fault_report(0xC000_00FD, 0x10, 0x20, &[1, 2], b"").as_bytes().to_vec()).unwrap();
    assert!(text.contains("rva 0xfffffffffffffff0"), "below the base wraps, as the address arithmetic does");
    assert!(!text.contains("while"));
}

#[test]
fn a_report_is_bounded() {
    let phase = vec![b'x'; 2000];
    let r = fault_report(EXCEPTION_ACCESS_VIOLATION, 1, 0, &[], &phase);
    assert_eq!(r.as_bytes().len(), REPORT_MAX);
    assert!(r.as_bytes().starts_with(b"---- FAULT ----\ncode 0xc0000005 at 0x1\n"));
    assert!(r.as_bytes().ends_with(b"xxxx"), "the cut falls inside the phase");
}

#[test]
fn a_copy_of_the_mod_is_recognised_by_its_marker_anywhere_in_the_file() {
    let marker = b"TKIW_PICKER_MOD_DIR=";
    let mut dll = vec![0u8; 64];
    dll.extend_from_slice(marker);
    dll.extend_from_slice(b"C:\\mods\\picker\0");
    assert!(carries_marker(&dll, marker));
    assert!(carries_marker(marker, marker));
    assert!(!carries_marker(&marker[..marker.len() - 1], marker));
    assert!(!carries_marker(b"TKIW_PICKER_MOD_DIR-", marker));
    assert!(!carries_marker(&[], marker));
}

fn all_objects(mem: &Memory, reg: &Registry) -> Vec<(i32, usize)> {
    let mut w = RegistryWalk::new(reg);
    let mut n = 0usize;
    while let Some(a) = w.ask() {
        w.feed(mem.answer(a));
        n += 1;
        assert!(n <= (reg.mask as usize + 1) * (3 * MAX_CHAIN + 2));
    }
    w.found().clone()
}

#[test]
fn the_registry_walk_lists_every_object_in_every_bucket() {
    let buckets = 0x1_0000;
    let reg = Registry { buckets, mask: 3 };
    let m = Memory(vec![
        (buckets, 0x2000),             // bucket 0 -> node A
        (0x2010, 7),                   // A key
        (0x2018, 0xA000),              // A value
        (0x2008, 0x2100),              // A next -> node B
        (0x2110, 9),                   // B key
        (0x2118, 0),                   // B value: null, not an entry
        (0x2108, 0),                   // end of chain
        (buckets + 16, 0),             // bucket 1 empty
        (buckets + 48, 0x3000),        // bucket 3 -> node C (bucket 2 unreadable)
        (0x3010, 0xFFFF_FFFF),         // C key: -1
        (0x3018, 0xC000),
        (0x3008, 0),
    ]);
    assert_eq!(all_objects(&m, &reg), vec![(7, 0xA000), (-1, 0xC000)]);
}

#[test]
fn a_name_is_matched_byte_for_byte_up_to_its_nul() {
    fn is(addr: usize, bytes: &[u8], want: &str) -> bool {
        let mut answers: Vec<Option<u64>> = Vec::new();
        loop {
            match cstr_is(addr, want.as_bytes(), &answers) {
                Step::Done(r) => return r,
                Step::Ask(Access::Readable(..)) => answers.push(Some(0)),
                Step::Ask(Access::Value(at, _)) => answers.push(bytes.get(at - addr).map(|b| *b as u64)),
            }
        }
    }
    assert!(is(0x100, b"obj_card\0", "obj_card"));
    assert!(!is(0x100, b"obj_cards\0", "obj_card"), "a longer name is not the same");
    assert!(!is(0x100, b"obj_c\0rd\0", "obj_card"));
    assert!(!is(usize::MAX - 3, b"abcd", "abcd"), "a name that would run off the address space");
}
