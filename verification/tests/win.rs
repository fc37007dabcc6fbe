use tkiw::win::{
    clear, contains, flush_region_cache, from_wide, insert, readable, readable_next, wide, Probe,
    RegionCache, Region, MEM_COMMIT, PAGE_GUARD,
};

#[test]
fn wide_round_trips_and_is_terminated() {
    let w = wide("C:\\Windows\\ünïcode 🎮");
    assert_eq!(*w.last().unwrap(), 0);
    assert_eq!(w[..w.len() - 1], "C:\\Windows\\ünïcode 🎮".encode_utf16().collect::<Vec<_>>()[..]);
    assert_eq!(from_wide(&w), "C:\\Windows\\ünïcode 🎮");
}

#[test]
fn from_wide_stops_at_the_first_nul_and_replaces_bad_surrogates() {
    let buf = [0x41, 0xD800, 0x42, 0, 0x43];
    assert_eq!(from_wide(&buf), "A\u{FFFD}B");
    assert_eq!(from_wide(&[0x61, 0x62]), "ab");
}

#[test]
fn a_remembered_region_answers_without_a_query() {
    let mut c = RegionCache::new();
    assert!(!contains(&mut c, 0x1000, 8));
    insert(&mut c, 0x1000, 0x2000);
    assert!(contains(&mut c, 0x1000, 8));
    assert!(contains(&mut c, 0x1ff8, 8));
    assert!(!contains(&mut c, 0x1ff8, 9));
    insert(&mut c, 0x8000, 0x9000);
    assert!(contains(&mut c, 0x1100, 16), "older regions are still remembered");
    clear(&mut c);
    assert!(!contains(&mut c, 0x1100, 16));
}

#[test]
fn an_empty_region_is_never_remembered() {
    let mut c = RegionCache::new();
    insert(&mut c, 0x2000, 0x2000);
    insert(&mut c, 0x3000, 0x2000);
    assert!(!contains(&mut c, 0x2000, 0));
    flush_region_cache(&mut c);
    assert!(!contains(&mut c, 0x2000, 0));
}

#[test]
fn readability_follows_the_queried_regions() {
    let mut c = RegionCache::new();
    assert_eq!(readable(&mut c, 0, 4), Probe::Done(false));
    assert_eq!(readable(&mut c, 0x1000, 0x1800), Probe::Query(0x1000));
    let first = Region { base: 0x1000, size: 0x1000, state: MEM_COMMIT, protect: 0x04 };
    assert_eq!(readable_next(&mut c, 0x1000, 0x1800, 0x1000, Some(first)), Probe::Query(0x2000));
    let second = Region { base: 0x2000, size: 0x1000, state: MEM_COMMIT, protect: 0x20 };
    assert_eq!(readable_next(&mut c, 0x1000, 0x1800, 0x2000, Some(second)), Probe::Done(true));
    // now cached
    assert_eq!(readable(&mut c, 0x1800, 0x100), Probe::Done(true));
    let guard = Region { base: 0x5000, size: 0x1000, state: MEM_COMMIT, protect: 0x04 | PAGE_GUARD };
    assert_eq!(readable_next(&mut c, 0x5000, 4, 0x5000, Some(guard)), Probe::Done(false));
    let noaccess = Region { base: 0x6000, size: 0x1000, state: MEM_COMMIT, protect: 0x01 };
    assert_eq!(readable_next(&mut c, 0x6000, 4, 0x6000, Some(noaccess)), Probe::Done(false));
    assert_eq!(readable_next(&mut c, 0x6000, 4, 0x6000, None), Probe::Done(false));
}

#[test]
fn the_last_ninety_six_regions_are_kept_and_the_oldest_goes() {
    let mut c = RegionCache::new();
    for k in 0..97usize {
        insert(&mut c, 0x10_0000 + k * 0x1000, 0x10_0000 + k * 0x1000 + 0x100);
    }
    assert!(!contains(&mut c, 0x10_0000, 8), "the first of 97 was overwritten");
    for k in 1..97usize {
        assert!(contains(&mut c, 0x10_0000 + k * 0x1000, 8), "region {k} kept");
    }
    assert!(!contains(&mut c, 0x10_0100, 8), "nothing between the regions is covered");
}
