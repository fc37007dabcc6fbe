use tkiw::claim::full_name;
use tkiw::codecave::{call_rel32, in_reach, Cave, REACH};
use tkiw::overlay::{paint, release, set_host, Colour, Overlay, PaintStep, Window};
use tkiw::sample::{
    frame_step, leaf_slot, made_progress, takes_frame, Context, FrameStep, CONTEXT_SIZE, CONTEXT_WANTED, CTX_FLAGS, CTX_RIP, CTX_RSP,
};
use tkiw::trampoline::{assemble, patch_bytes, too_short, CALL_LEN};

// ---------------------------------------------------------------- codecave

#[test]
fn a_call_encodes_to_the_right_displacement() {
    // call at 0x1000 to 0x1010: next insn is 0x1005, so rel32 = 0x0B.
    assert_eq!(call_rel32(0x1000, 0x1010).unwrap(), [0xE8, 0x0B, 0, 0, 0]);
    // backwards
    let b = call_rel32(0x2000, 0x1000).unwrap();
    assert_eq!(b[0], 0xE8);
    assert_eq!(i32::from_le_bytes([b[1], b[2], b[3], b[4]]), -0x1005);
}

#[test]
fn an_unreachable_target_is_refused_rather_than_wrapped() {
    assert!(call_rel32(0x1000, 0x1000 + 0x9000_0000).is_none());
}

#[test]
fn a_call_at_the_top_of_the_address_space_is_refused() {
    assert!(call_rel32(usize::MAX - 2, 0x1000).is_none());
}

#[test]
fn reach_is_symmetric_and_bounded() {
    assert!(in_reach(0x1_0000_0000, 0x1_0000_0000 + REACH));
    assert!(in_reach(0x1_0000_0000 + REACH, 0x1_0000_0000));
    assert!(!in_reach(0x1_0000_0000, 0x1_0000_0000 + REACH + 1));
}

#[test]
fn writes_are_bounded_by_the_allocation() {
    let mut cave = Cave::allocated(0x10_0000, 64);
    assert_eq!(cave.claim(32), Some(0x10_0000));
    assert_eq!(cave.claim(4096), None, "overran the allocation");
    assert_eq!(cave.claim(32), Some(0x10_0020));
    assert_eq!(cave.claim(1), None);
}

#[test]
fn reservations_are_aligned_and_bounded() {
    let mut cave = Cave::allocated(0x10_0000, 64);
    assert_eq!(cave.claim(3), Some(0x10_0000));
    assert_eq!(cave.reserve_aligned(8, 16), Some(0x10_0010));
    assert_eq!(cave.reserve_aligned(16, 16), Some(0x10_0020));
    assert_eq!(cave.reserve_aligned(32, 16), None);
    assert_eq!(cave.reserve_aligned(16, 16), Some(0x10_0030));
}

// ---------------------------------------------------------------- trampoline

fn noop_address() -> u64 {
    0x7ff6_1234_5678
}

#[test]
fn a_too_short_displacement_is_refused() {
    assert!(CALL_LEN == 5);
    assert_eq!(
        too_short(4).as_deref(),
        Some("a detour needs at least 5 bytes to displace, got 4")
    );
    assert!(too_short(5).is_none());
}

#[test]
fn the_stub_embeds_the_callback_and_return_target() {
    let displaced = [0x48, 0x8b, 0xc4, 0x48, 0x89, 0x58, 0x10]; // mov rax,rsp; mov [rax+0x10],rbx
    let ret = 0x1234_5678_9abc_def0usize;
    let stub = assemble(noop_address(), &displaced, ret as u64);

    // the callback address appears as a little-endian movabs immediate
    let cb = noop_address().to_le_bytes();
    assert!(stub.windows(8).any(|w| w == cb), "callback address missing from the stub");
    // the return target is the final 8 bytes, after the jmp [rip]
    let tail = &stub[stub.len() - 8..];
    assert_eq!(u64::from_le_bytes(tail.try_into().unwrap()), ret as u64);
    assert_eq!(&stub[stub.len() - 14..stub.len() - 8], &[0xFF, 0x25, 0, 0, 0, 0]);
}

#[test]
fn the_displaced_bytes_are_copied_verbatim_before_the_jump() {
    let displaced = [0x48, 0x8b, 0xc4, 0x90, 0x90];
    let stub = assemble(noop_address(), &displaced, 0x4000);
    // they sit immediately before the 14-byte jmp-back tail
    let at = stub.len() - 14 - displaced.len();
    assert_eq!(&stub[at..at + displaced.len()], &displaced);
}

#[test]
fn the_stub_opens_by_anchoring_rbp() {
    let stub = assemble(noop_address(), &[0x90; 5], 0x1000);
    // push rbp; mov rbp, rsp
    assert_eq!(&stub[..4], &[0x55, 0x48, 0x89, 0xE5]);
}

#[test]
fn the_stub_force_aligns_the_stack_before_calling() {
    let stub = assemble(noop_address(), &[0x90; 5], 0x1000);
    // and rsp, -16 must appear (0x48 0x83 0xE4 0xF0)
    assert!(
        stub.windows(4).any(|w| w == [0x48, 0x83, 0xE4, 0xF0]),
        "stack is not force-aligned before the call"
    );
}

#[test]
fn the_stub_has_its_exact_length() {
    let stub = assemble(noop_address(), &[0x90; 7], 0x1000);
    assert_eq!(stub.len(), 58 + 8 + 80 + 7 + 6 + 8);
}

#[test]
fn the_patch_is_a_call_padded_with_nops() {
    let b = patch_bytes(0x1000, 0x1010, 7).unwrap();
    assert_eq!(b, vec![0xE8, 0x0B, 0, 0, 0, 0x90, 0x90]);
    assert!(patch_bytes(0x1000, 0x1000 + 0x9000_0000, 7).is_none());
}

// ---------------------------------------------------------------- overlay

#[test]
fn rgb_packs_to_bgr() {
    // red only -> low byte
    assert_eq!(Colour::rgb(0xFF, 0, 0).0, 0x0000FF);
    // green -> middle
    assert_eq!(Colour::rgb(0, 0xFF, 0).0, 0x00FF00);
    // blue -> high
    assert_eq!(Colour::rgb(0, 0, 0xFF).0, 0xFF0000);
    assert_eq!(Colour::rgb(0, 0, 0xFF), Colour::blue());
    assert_eq!(Colour::white().0, 0xFFFFFF);
}

fn on_game_thread() -> Window {
    Window { frames: 100, game_thread: 7, this_thread: 7 }
}

#[test]
fn dropping_a_handle_removes_its_painter() {
    let mut ov = Overlay::new();
    set_host(&mut ov, 0x1257860, &[0x48, 0x8b, 0xc4, 0x48, 0x89, 0x58, 0x10]);
    match paint(&mut ov, on_game_thread()).unwrap() {
        PaintStep::Install(site, bytes) => {
            assert_eq!(site, 0x1257860);
            assert_eq!(bytes, vec![0x48, 0x8b, 0xc4, 0x48, 0x89, 0x58, 0x10]);
        }
        other => panic!("expected an install first, got {other:?}"),
    }
    ov.detour_installed();
    let h = match paint(&mut ov, on_game_thread()).unwrap() {
        PaintStep::Registered(h) => h,
        other => panic!("expected a registration, got {other:?}"),
    };
    assert_eq!(ov.len(), 1);
    assert!(release(&mut ov, h), "the last painter takes the detour out");
    assert_eq!(ov.len(), 0);
    assert!(!ov.detour_in());
}

#[test]
fn paint_without_a_host_is_refused() {
    let mut ov = Overlay::new();
    assert!(paint(&mut ov, on_game_thread()).is_err());
}

#[test]
fn the_detour_is_refused_off_the_game_thread() {
    let mut ov = Overlay::new();
    set_host(&mut ov, 0x1000, &[0x90; 5]);
    let off = Window { frames: 100, game_thread: 7, this_thread: 8 };
    assert_eq!(
        paint(&mut ov, off).unwrap_err(),
        "overlay: refusing to install the draw detour off the game's thread"
    );
    // before the game has run a frame, any thread may patch
    let early = Window { frames: 0, game_thread: 0, this_thread: 8 };
    assert!(matches!(paint(&mut ov, early), Ok(PaintStep::Install(0x1000, _))));
}

#[test]
fn painters_keep_the_detour_until_the_last_goes() {
    let mut ov = Overlay::new();
    set_host(&mut ov, 0x1000, &[0x90; 5]);
    ov.detour_installed();
    let a = match paint(&mut ov, on_game_thread()).unwrap() {
        PaintStep::Registered(h) => h,
        other => panic!("{other:?}"),
    };
    let b = match paint(&mut ov, on_game_thread()).unwrap() {
        PaintStep::Registered(h) => h,
        other => panic!("{other:?}"),
    };
    assert_ne!(a, b);
    assert!(!release(&mut ov, a));
    assert!(ov.detour_in());
    assert!(release(&mut ov, b));
    assert!(!ov.detour_in());
}

// ---------------------------------------------------------------- sample

#[test]
fn context_is_the_size_and_alignment_windows_expects() {
    assert_eq!(core::mem::size_of::<Context>(), 1232);
    assert_eq!(core::mem::align_of::<Context>(), 16);
    assert_eq!(CONTEXT_SIZE, 1232);
}

#[test]
fn context_flags_are_set_where_getthreadcontext_looks() {
    let c = Context::new();
    let b = [c.byte(CTX_FLAGS), c.byte(CTX_FLAGS + 1), c.byte(CTX_FLAGS + 2), c.byte(CTX_FLAGS + 3)];
    assert_eq!(u32::from_le_bytes(b), CONTEXT_WANTED);
}

#[test]
fn registers_read_back_what_was_stored() {
    let mut c = Context::new();
    c.set_u64(CTX_RIP, 0x7ff6_0000_1234);
    c.set_u64(CTX_RSP, 0x0000_00ab_cdef_0010);
    assert_eq!(c.rip(), 0x7ff6_0000_1234);
    assert_eq!(c.rsp(), 0x0000_00ab_cdef_0010);
    assert_eq!(c.u32_at(CTX_FLAGS), CONTEXT_WANTED);
    assert_eq!(c.byte(CTX_RIP), 0x34);
    assert_eq!(c.byte(CTX_RIP + 1), 0x12);
}

// ---------------------------------------------------------------- claim

#[test]
fn names_are_session_scoped() {
    let w = full_name("x");
    let s = String::from_utf16_lossy(&w[..w.len() - 1]);
    assert_eq!(s, "Local\\x");
    assert_eq!(*w.last().unwrap(), 0);
}

#[test]
fn a_leaf_frame_pops_its_return_address() {
    let mut c = Context::new();
    c.set_u64(CTX_RSP, 0x7ff0_1000);
    c.set_u64(CTX_RIP, 0x1400_0000);
    assert_eq!(leaf_slot(c.rsp()), Some(0x7ff0_1000));
    c.pop_return(0x1400_5678);
    assert_eq!(c.rip(), 0x1400_5678);
    assert_eq!(c.rsp(), 0x7ff0_1008);
    assert!(made_progress(&c, 0x7ff0_1000));
    assert!(!made_progress(&c, 0x7ff0_1008), "a stack pointer that did not move stops the walk");
}

#[test]
fn an_implausible_stack_pointer_ends_the_walk() {
    assert_eq!(leaf_slot(0), None);
    assert_eq!(leaf_slot(0x7ff0_1004), None);
    assert_eq!(leaf_slot(usize::MAX - 7), None);
}

#[test]
fn a_sample_stops_when_full_or_at_a_null_frame() {
    assert!(takes_frame(0, 64, 0x1400_0000));
    assert!(!takes_frame(64, 64, 0x1400_0000));
    assert!(!takes_frame(3, 64, 0));
}

#[test]
fn each_frame_is_unwound_popped_or_the_last() {
    assert_eq!(frame_step(0, 64, 0x1400_1000, true, Some((0x1400_0000, 0x1401_0000)), 0x7000), FrameStep::Unwind(0x1400_0000, 0x1401_0000));
    assert_eq!(frame_step(0, 64, 0x1400_1000, true, None, 0x7000), FrameStep::Leaf(0x7000));
    assert_eq!(frame_step(0, 64, 0x1400_1000, true, None, 0x7004), FrameStep::Last);
    assert_eq!(frame_step(0, 64, 0x1400_1000, false, Some((1, 2)), 0x7000), FrameStep::Last);
    assert_eq!(frame_step(64, 64, 0x1400_1000, true, None, 0x7000), FrameStep::Stop);
    assert_eq!(frame_step(1, 64, 0, true, None, 0x7000), FrameStep::Stop);
}
