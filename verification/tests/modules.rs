use tkiw::modules::{exception_directory, EntrySearch, Mod, Modules, SIZE_OF_RUNTIME_FUNCTION};
use tkiw::probe::{Access, Step};

fn module(base: usize, size: usize, name: &str, pdata: usize, entries: usize) -> Mod {
    Mod { base, size, name: name.to_string(), pdata, entries }
}

fn sample_modules() -> Modules {
    Modules::from_mods(vec![
        module(0x7ff0_0000, 0x10_0000, "ntdll.dll", 0x7ff0_8000, 3),
        module(0x1_4000_0000, 0x20_0000, "game.exe", 0, 0),
        module(0x7fe0_0000, 0x1_0000, "d3d11.dll", 0x7fe0_4000, 1),
    ])
}

/// A little memory: the records of a `.pdata` table laid out at `pdata`.
struct Memory {
    at: usize,
    bytes: Vec<u8>,
}

impl Memory {
    fn read(&self, a: Access) -> Option<u64> {
        let Access::Value(addr, n) = a else { return None };
        if addr < self.at || addr + n > self.at + self.bytes.len() {
            return None;
        }
        let off = addr - self.at;
        let mut v = 0u64;
        for i in 0..n {
            v |= (self.bytes[off + i] as u64) << (8 * i);
        }
        Some(v)
    }
}

fn table(at: usize, records: &[(u32, u32)]) -> Memory {
    let mut bytes = Vec::new();
    for (b, e) in records {
        bytes.extend_from_slice(&b.to_le_bytes());
        bytes.extend_from_slice(&e.to_le_bytes());
        bytes.extend_from_slice(&0u32.to_le_bytes());
    }
    Memory { at, bytes }
}

fn run_search(mut s: EntrySearch, mem: &Memory) -> Option<(usize, usize)> {
    let mut steps = 0;
    while let Some(a) = s.ask() {
        s.feed(mem.read(a));
        steps += 1;
        assert!(steps < 64, "the search does not end");
    }
    s.result()
}

#[test]
fn modules_are_kept_sorted_by_base() {
    let m = sample_modules();
    let bases: Vec<usize> = m.all().iter().map(|x| x.base).collect();
    assert_eq!(bases, vec![0x7fe0_0000, 0x7ff0_0000, 0x1_4000_0000]);
    assert_eq!(m.len(), 3);
    assert!(!m.is_empty());
}

#[test]
fn an_address_is_found_in_the_module_that_holds_it() {
    let m = sample_modules();
    assert_eq!(m.find(0x7ff0_1234).map(|x| x.name.as_str()), Some("ntdll.dll"));
    assert_eq!(m.find(0x1_4000_0000).map(|x| x.name.as_str()), Some("game.exe"));
    // one past the end of d3d11, before ntdll
    assert!(m.find(0x7fe1_0000).is_none());
}

#[test]
fn an_address_in_no_module_is_reported_as_unmapped() {
    let m = sample_modules();
    assert!(m.find(0x1000).is_none());
    assert!(m.describe(0x1000).contains("unmapped"));
    assert_eq!(m.name_of(0x1000), "<unmapped>");
}

#[test]
fn a_frame_is_described_by_module_and_offset() {
    let m = sample_modules();
    assert_eq!(m.describe(0x7ff0_1a2b), "ntdll.dll+0x1a2b");
    assert_eq!(m.name_of(0x7ff0_1a2b), "ntdll.dll");
}

#[test]
fn the_unwind_record_covering_an_address_is_found() {
    let m = sample_modules();
    let mem = table(0x7ff0_8000, &[(0x1000, 0x1040), (0x1040, 0x1100), (0x2000, 0x2010)]);
    let s = m.entry_search(0x7ff0_1050).expect("ntdll has unwind data");
    let (image_base, entry) = run_search(s, &mem).expect("a record covers it");
    assert_eq!(image_base, 0x7ff0_0000);
    assert_eq!(entry, 0x7ff0_8000 + SIZE_OF_RUNTIME_FUNCTION);
    let s = m.entry_search(0x7ff0_2000).unwrap();
    assert_eq!(run_search(s, &mem), Some((0x7ff0_0000, 0x7ff0_8000 + 2 * SIZE_OF_RUNTIME_FUNCTION)));
    let s = m.entry_search(0x7ff0_1000).unwrap();
    assert_eq!(run_search(s, &mem), Some((0x7ff0_0000, 0x7ff0_8000)));
}

#[test]
fn a_leaf_between_records_has_no_unwind_record() {
    let m = sample_modules();
    let mem = table(0x7ff0_8000, &[(0x1000, 0x1040), (0x1040, 0x1100), (0x2000, 0x2010)]);
    let s = m.entry_search(0x7ff0_1800).unwrap();
    assert_eq!(run_search(s, &mem), None);
    let s = m.entry_search(0x7ff0_2010).unwrap();
    assert_eq!(run_search(s, &mem), None);
}

#[test]
fn a_module_without_unwind_data_gives_no_search() {
    let m = sample_modules();
    assert!(m.entry_search(0x1_4000_1000).is_none());
    assert!(m.entry_search(0x1000).is_none());
}

#[test]
fn an_unreadable_table_ends_the_search_with_nothing() {
    let m = sample_modules();
    let empty = Memory { at: 0, bytes: Vec::new() };
    let s = m.entry_search(0x7ff0_1050).unwrap();
    assert_eq!(run_search(s, &empty), None);
}

/// A minimal PE32+ image: `MZ`, the header offset, `PE\0\0`, the magic and
/// data directory 3.
fn image(base: usize, peo: u32, magic: u16, rva: u32, bytes: u32) -> Memory {
    let mut b = vec![0u8; 0x1000];
    b[0] = b'M';
    b[1] = b'Z';
    b[0x3C..0x40].copy_from_slice(&peo.to_le_bytes());
    let p = peo as usize;
    b[p..p + 4].copy_from_slice(&0x4550u32.to_le_bytes());
    b[p + 24..p + 26].copy_from_slice(&magic.to_le_bytes());
    b[p + 160..p + 164].copy_from_slice(&rva.to_le_bytes());
    b[p + 164..p + 168].copy_from_slice(&bytes.to_le_bytes());
    Memory { at: base, bytes: b }
}

fn directory(base: usize, size: usize, mem: &Memory) -> (usize, usize) {
    let mut answers: Vec<Option<u64>> = Vec::new();
    loop {
        match exception_directory(base, size, &answers) {
            Step::Done(r) => return r,
            Step::Ask(a) => answers.push(mem.read(a)),
        }
        assert!(answers.len() <= 6);
    }
}

#[test]
fn the_exception_directory_is_read_from_the_headers() {
    let mem = image(0x10_0000, 0x80, 0x20B, 0x800, 36);
    assert_eq!(directory(0x10_0000, 0x1000, &mem), (0x10_0800, 3));
}

#[test]
fn a_pe32_image_has_no_usable_exception_directory() {
    let mem = image(0x10_0000, 0x80, 0x10B, 0x800, 36);
    assert_eq!(directory(0x10_0000, 0x1000, &mem), (0, 0));
}

#[test]
fn a_directory_running_past_the_image_is_refused() {
    let mem = image(0x10_0000, 0x80, 0x20B, 0xFF0, 36);
    assert_eq!(directory(0x10_0000, 0x1000, &mem), (0, 0));
    let mem = image(0x10_0000, 0x80, 0x20B, 0x800, 8);
    assert_eq!(directory(0x10_0000, 0x1000, &mem), (0, 0));
}

#[test]
fn headers_placed_too_late_are_refused() {
    let mem = image(0x10_0000, 0xF00, 0x20B, 0x800, 36);
    assert_eq!(directory(0x10_0000, 0x1000, &mem), (0, 0));
}

#[test]
fn a_small_or_unmarked_module_is_not_unwound_through() {
    let mem = image(0x10_0000, 0x80, 0x20B, 0x800, 36);
    assert_eq!(directory(0x10_0000, 0xFFF, &mem), (0, 0));
    let mut bad = image(0x10_0000, 0x80, 0x20B, 0x800, 36);
    bad.bytes[0] = b'X';
    assert_eq!(directory(0x10_0000, 0x1000, &bad), (0, 0));
}
