use tkiw::pe::Image;
use tkiw::strmap::StrMap;
use tkiw::symbolize::Symbolizer;

fn put16(b: &mut [u8], at: usize, v: u16) {
    b[at..at + 2].copy_from_slice(&v.to_le_bytes());
}

fn put32(b: &mut [u8], at: usize, v: u32) {
    b[at..at + 4].copy_from_slice(&v.to_le_bytes());
}

fn put64(b: &mut [u8], at: usize, v: u64) {
    b[at..at + 8].copy_from_slice(&v.to_le_bytes());
}

/// A small PE32+ image: one section, `.rdata`, at RVA 0x1000 from file
/// offset 0x200, holding an import table that brings `DispatchMessageW` and
/// `PeekMessageW` in from `USER32.dll`, with its IAT at RVA 0x1200.
fn image() -> Image {
    let mut b = vec![0u8; 0x1200];
    b[0] = b'M';
    b[1] = b'Z';
    let peo = 0x40usize;
    put32(&mut b, 0x3C, peo as u32);
    b[peo..peo + 4].copy_from_slice(b"PE\0\0");
    put16(&mut b, peo + 6, 1); // one section
    put16(&mut b, peo + 20, 0xF0); // optional header size
    let opt = peo + 24;
    put16(&mut b, opt, 0x20B);
    put64(&mut b, opt + 24, 0x1_4000_0000); // image base
    put32(&mut b, opt + 56, 0x3000); // size of image
    put32(&mut b, peo + 144, 0x1000); // import directory
    let sec = opt + 0xF0;
    b[sec..sec + 6].copy_from_slice(b".rdata");
    put32(&mut b, sec + 8, 0x1000); // virtual size
    put32(&mut b, sec + 12, 0x1000); // virtual address
    put32(&mut b, sec + 16, 0x1000); // raw size
    put32(&mut b, sec + 20, 0x200); // raw pointer
    let off = |rva: usize| rva - 0x1000 + 0x200;
    // the descriptor, then an empty one ending the table
    put32(&mut b, off(0x1000), 0x1100); // lookup table
    put32(&mut b, off(0x1000) + 12, 0x1080); // DLL name
    put32(&mut b, off(0x1000) + 16, 0x1200); // IAT
    b[off(0x1080)..off(0x1080) + 10].copy_from_slice(b"USER32.dll");
    put64(&mut b, off(0x1100), 0x1300);
    put64(&mut b, off(0x1108), 0x1320);
    b[off(0x1302)..off(0x1302) + 16].copy_from_slice(b"DispatchMessageW");
    b[off(0x1322)..off(0x1322) + 12].copy_from_slice(b"PeekMessageW");
    Image::parse(b).expect("a well-formed image")
}

#[test]
fn finds_the_message_pump_import() {
    let img = image();
    assert_eq!(img.iat_slot("USER32.dll", "PeekMessageW"), Some(0x1208), "PeekMessageW IAT slot");
    assert_eq!(
        img.iat_slot("user32.dll", "PeekMessageW"),
        Some(0x1208),
        "dll name matching must be case-insensitive"
    );
    assert_eq!(img.iat_slot("USER32.dll", "DispatchMessageW"), Some(0x1200));
    assert_eq!(img.iat_slot("USER32.dll", "NoSuchFunction"), None);
    assert_eq!(img.iat_slot("nosuch.dll", "PeekMessageW"), None);
}

#[test]
fn resolves_a_named_gml_function_and_an_offset_into_it() {
    let pdata = [(0x1000u32, 0x1100u32), (0x17c6870, 0x17c6a00), (0x17c6a00, 0x17c6b00)];
    let mut funcs = StrMap::new();
    funcs.insert_if_absent("gml_Object_obj_splash_screen_Step_0".to_string(), 0x17c6870);
    let sym = Symbolizer::build(0x200_0000, &pdata, &funcs, &[]);

    let at_start = sym.resolve(0, 0x17c6870);
    assert!(at_start.inside);
    assert_eq!(at_start.offset, 0);
    assert_eq!(sym.name_of(at_start.func), "obj_splash_screen_Step_0");

    let inside = sym.resolve(0, 0x17c6870 + 0x40);
    assert_eq!(inside.func, 0x17c6870);
    assert_eq!(inside.offset, 0x40);

    let anon = sym.resolve(0, 0x17c6a10);
    assert_eq!(anon.func, 0x17c6a00);
    assert_eq!(sym.name_of(anon.func), "sub_17c6a00");
    assert!(sym.is_gml(0x17c6870));
    assert!(!sym.is_gml(0x17c6a00));
}

#[test]
fn lookups_move_with_the_load_address() {
    let pdata = [(0x17c6870u32, 0x17c6a00u32)];
    let sym = Symbolizer::build(0x200_0000, &pdata, &StrMap::new(), &[]);
    for base in [0x1_4000_0000usize, 0x7ff6_0000_0000] {
        let s = sym.resolve(base, base + 0x17c6870 + 8);
        assert!(s.inside);
        assert_eq!((s.func, s.offset), (0x17c6870, 8), "function lookups must move with the load address");
    }
}

#[test]
fn an_address_outside_the_image_is_reported_as_outside() {
    let pdata = [(0x1000u32, 0x1100u32)];
    let sym = Symbolizer::build(0x200_0000, &pdata, &StrMap::new(), &[]);
    let base = 0x1_0000_0000usize;
    let out = sym.resolve(base, base + 0x200_0000 + 0x1000);
    assert!(!out.inside);
    assert_eq!(sym.name_of(out.func), "<outside the game>");
}
