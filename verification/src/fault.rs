//! What a fault report says.
//!
//! When the game dies of an access violation there is no unwinding and no
//! second chance, so the report is written from inside the exception handler:
//! a few lines naming the fault, where it happened relative to the game's
//! base, what was being touched, and the phase the mod had announced last.
//! Catching the fault and writing the file is the caller's business; the
//! text is decided here, written into a fixed buffer held by value, so
//! writing it allocates nothing.
use vstd::prelude::*;

use crate::text::{hex_digit, hex_num};

verus! {

pub const EXCEPTION_ACCESS_VIOLATION: u32 = 0xC000_0005;
pub const EXCEPTION_ILLEGAL_INSTRUCTION: u32 = 0xC000_001D;
pub const EXCEPTION_STACK_OVERFLOW: u32 = 0xC000_00FD;

/// The longest report written.
pub const REPORT_MAX: usize = 512;

/// Only the faults that kill the process are reported; the rest are the
/// game's own business.
pub open spec fn is_reported(code: u32) -> bool {
    code == EXCEPTION_ACCESS_VIOLATION || code == EXCEPTION_ILLEGAL_INSTRUCTION || code
        == EXCEPTION_STACK_OVERFLOW
}

/// Whether a fault with `code` is one to report.
pub fn reported(code: u32) -> (r: bool)
    ensures
        r == is_reported(code),
{
    code == EXCEPTION_ACCESS_VIOLATION || code == EXCEPTION_ILLEGAL_INSTRUCTION || code
        == EXCEPTION_STACK_OVERFLOW
}

/// The bytes of ASCII text.
pub open spec fn ascii(s: Seq<char>) -> Seq<u8> {
    s.map_values(|c: char| c as u8)
}

/// `0x` and `n` in lowercase hex, as bytes.
pub open spec fn hex_bytes(n: nat) -> Seq<u8> {
    ascii(seq!['0', 'x'] + hex_num(n))
}

/// What an access violation was doing, from its first parameter.
pub open spec fn access_word(kind: usize) -> Seq<char> {
    if kind == 0 {
        "\nwhile reading "@
    } else if kind == 1 {
        "\nwhile writing "@
    } else if kind == 8 {
        "\nwhile executing "@
    } else {
        "\nwhile touching "@
    }
}

/// The full report, before it is bounded: the code, the faulting address,
/// the game's base and the address relative to it, for an access violation
/// with its parameters what was touched, and the last phase announced.
pub open spec fn report_text(code: u32, at: usize, base: usize, params: Seq<usize>, phase: Seq<u8>) -> Seq<u8> {
    ascii("---- FAULT ----\ncode "@) + hex_bytes(code as nat) + ascii(" at "@) + hex_bytes(at as nat)
        + ascii("\ngame base "@) + hex_bytes(base as nat) + ascii("\nrva "@) + hex_bytes(
        vstd::wrapping::usize_specs::wrapping_sub(at, base) as nat,
    ) + (if code == EXCEPTION_ACCESS_VIOLATION && params.len() >= 2 {
        ascii(access_word(params[0])) + hex_bytes(params[1] as nat)
    } else {
        Seq::empty()
    }) + ascii("\nlast phase: "@) + phase + ascii("\n---------------\n"@)
}

/// The report as written: the text, cut at [`REPORT_MAX`] bytes.
pub open spec fn report_bytes(code: u32, at: usize, base: usize, params: Seq<usize>, phase: Seq<u8>) -> Seq<u8> {
    let t = report_text(code, at, base, params, phase);
    if t.len() <= REPORT_MAX {
        t
    } else {
        t.take(REPORT_MAX as int)
    }
}

/// `t`, cut at [`REPORT_MAX`] bytes.
pub open spec fn capped(t: Seq<u8>) -> Seq<u8> {
    if t.len() <= REPORT_MAX {
        t
    } else {
        t.take(REPORT_MAX as int)
    }
}

/// Writing on after the cut changes nothing that was cut.
proof fn lemma_capped_extend(t: Seq<u8>, s: Seq<u8>)
    ensures
        capped(capped(t) + s) == capped(t + s),
{
    if t.len() > REPORT_MAX {
        assert((t.take(REPORT_MAX as int) + s).take(REPORT_MAX as int) =~= t.take(REPORT_MAX as int));
        assert((t + s).take(REPORT_MAX as int) =~= t.take(REPORT_MAX as int));
    }
}

/// A fault report, written into a fixed buffer of [`REPORT_MAX`] bytes held
/// by value: writing it allocates nothing, which is what lets it be written
/// from inside the exception handler. What does not fit is cut.
pub struct Report {
    bytes: [u8; 512],
    len: usize,
}

impl View for Report {
    type V = Seq<u8>;

    closed spec fn view(&self) -> Seq<u8> {
        self.bytes@.take(self.len as int)
    }
}

impl Report {
    /// At most [`REPORT_MAX`] bytes written.
    pub closed spec fn wf(&self) -> bool {
        self.len <= REPORT_MAX
    }

    fn empty() -> (r: Report)
        ensures
            r.wf(),
            r@ == Seq::<u8>::empty(),
    {
        Report { bytes: [0u8; 512], len: 0 }
    }

    fn put(&mut self, b: u8)
        requires
            old(self).wf(),
        ensures
            final(self).wf(),
            final(self)@ == capped(old(self)@ + seq![b]),
    {
        if self.len < REPORT_MAX {
            let ghost before = self.bytes@;
            self.bytes[self.len] = b;
            self.len = self.len + 1;
            assert(self.bytes@ == before.update((self.len - 1) as int, b));
            assert(self@ =~= (before.take(self.len - 1) + seq![b]));
        } else {
            assert((self@ + seq![b]).take(REPORT_MAX as int) =~= self@);
        }
    }

    /// The bytes written.
    pub fn as_bytes(&self) -> (b: &[u8])
        requires
            self.wf(),
        ensures
            b@ == self@,
    {
        let all = self.bytes.as_slice();
        &all[0..self.len]
    }
}

fn push_ascii(out: &mut Report, s: &str)
    requires
        old(out).wf(),
    ensures
        final(out).wf(),
        final(out)@ == capped(old(out)@ + ascii(s@)),
{
    // read the text a character at a time, in place: nothing is allocated
    let n = s.unicode_len();
    let mut i: usize = 0;
    let ghost start = out@;
    proof {
        assert(start + ascii(s@).take(0) =~= start);
    }
    while i < n
        invariant
            0 <= i <= n,
            n == s@.len(),
            out.wf(),
            start.len() <= REPORT_MAX,
            out@ == capped(start + ascii(s@).take(i as int)),
        decreases n - i,
    {
        let b = s.get_char(i) as u8;
        let ghost mid = start + ascii(s@).take(i as int);
        out.put(b);
        proof {
            lemma_capped_extend(mid, seq![b]);
            assert(mid + seq![b] =~= start + ascii(s@).take(i + 1));
        }
        i = i + 1;
    }
    assert(ascii(s@).take(n as int) =~= ascii(s@));
}

fn hex_byte(d: u64) -> (b: u8)
    requires
        d < 16,
    ensures
        b == hex_digit(d as nat) as u8,
{
    if d < 10 {
        48u8 + d as u8
    } else {
        87u8 + d as u8
    }
}

fn push_hex_digits(out: &mut Report, n: u64)
    requires
        old(out).wf(),
    ensures
        final(out).wf(),
        final(out)@ == capped(old(out)@ + ascii(hex_num(n as nat))),
    decreases n,
{
    let ghost start = out@;
    if n >= 16 {
        push_hex_digits(out, n / 16);
    } else {
        proof {
            assert(start + Seq::<u8>::empty() =~= start);
        }
    }
    let ghost head = if n >= 16 { start + ascii(hex_num((n / 16) as nat)) } else { start };
    assert(out@ == capped(head));
    let b = hex_byte(n % 16);
    out.put(b);
    proof {
        lemma_capped_extend(head, seq![b]);
        if n >= 16 {
            assert(hex_num(n as nat) == hex_num((n / 16) as nat).push(hex_digit((n % 16) as nat)));
            assert(ascii(hex_num(n as nat)) =~= ascii(hex_num((n / 16) as nat)).push(b));
        } else {
            assert(ascii(hex_num(n as nat)) =~= seq![b]);
        }
        assert(head + seq![b] =~= start + ascii(hex_num(n as nat)));
    }
}

fn push_hex(out: &mut Report, n: u64)
    requires
        old(out).wf(),
    ensures
        final(out).wf(),
        final(out)@ == capped(old(out)@ + hex_bytes(n as nat)),
{
    let ghost start = out@;
    out.put(48u8);
    out.put(120u8);
    push_hex_digits(out, n);
    proof {
        lemma_capped_extend(start + seq![48u8], seq![120u8]);
        lemma_capped_extend(start + seq![48u8] + seq![120u8], ascii(hex_num(n as nat)));
        assert(hex_bytes(n as nat) =~= seq![48u8, 120u8] + ascii(hex_num(n as nat)));
        assert(start + seq![48u8] + seq![120u8] + ascii(hex_num(n as nat)) =~= start + hex_bytes(
            n as nat,
        ));
    }
}

/// The fault report, bounded; see [`report_text`]. Written into a fixed
/// buffer, with no allocation.
#[verifier::spinoff_prover]
#[verifier::rlimit(60)]
pub fn fault_report(code: u32, at: usize, base: usize, params: &[usize], phase: &[u8]) -> (r: Report)
    ensures
        r.wf(),
        r@ == report_bytes(code, at, base, params@, phase@),
{
    proof {
        reveal_strlit("---- FAULT ----\ncode ");
        reveal_strlit(" at ");
        reveal_strlit("\ngame base ");
        reveal_strlit("\nrva ");
        reveal_strlit("\nwhile reading ");
        reveal_strlit("\nwhile writing ");
        reveal_strlit("\nwhile executing ");
        reveal_strlit("\nwhile touching ");
        reveal_strlit("\nlast phase: ");
        reveal_strlit("\n---------------\n");
    }
    let mut out = Report::empty();
    let ghost mut t: Seq<u8> = Seq::empty();
    push_ascii(&mut out, "---- FAULT ----\ncode ");
    proof {
        lemma_capped_extend(t, ascii("---- FAULT ----\ncode "@));
        t = t + ascii("---- FAULT ----\ncode "@);
    }
    push_hex(&mut out, code as u64);
    proof {
        lemma_capped_extend(t, hex_bytes(code as nat));
        t = t + hex_bytes(code as nat);
    }
    push_ascii(&mut out, " at ");
    proof {
        lemma_capped_extend(t, ascii(" at "@));
        t = t + ascii(" at "@);
    }
    push_hex(&mut out, at as u64);
    proof {
        lemma_capped_extend(t, hex_bytes(at as nat));
        t = t + hex_bytes(at as nat);
    }
    push_ascii(&mut out, "\ngame base ");
    proof {
        lemma_capped_extend(t, ascii("\ngame base "@));
        t = t + ascii("\ngame base "@);
    }
    push_hex(&mut out, base as u64);
    proof {
        lemma_capped_extend(t, hex_bytes(base as nat));
        t = t + hex_bytes(base as nat);
    }
    push_ascii(&mut out, "\nrva ");
    proof {
        lemma_capped_extend(t, ascii("\nrva "@));
        t = t + ascii("\nrva "@);
    }
    let rva = at.wrapping_sub(base);
    push_hex(&mut out, rva as u64);
    proof {
        lemma_capped_extend(t, hex_bytes(rva as nat));
        t = t + hex_bytes(rva as nat);
    }
    if code == EXCEPTION_ACCESS_VIOLATION && params.len() >= 2 {
        let kind = params[0];
        if kind == 0 {
            push_ascii(&mut out, "\nwhile reading ");
        } else if kind == 1 {
            push_ascii(&mut out, "\nwhile writing ");
        } else if kind == 8 {
            push_ascii(&mut out, "\nwhile executing ");
        } else {
            push_ascii(&mut out, "\nwhile touching ");
        }
        proof {
            lemma_capped_extend(t, ascii(access_word(kind)));
            t = t + ascii(access_word(kind));
        }
        push_hex(&mut out, params[1] as u64);
        proof {
            lemma_capped_extend(t, hex_bytes(params[1] as nat));
            t = t + hex_bytes(params[1] as nat);
        }
    }
    push_ascii(&mut out, "\nlast phase: ");
    proof {
        lemma_capped_extend(t, ascii("\nlast phase: "@));
        t = t + ascii("\nlast phase: "@);
    }
    let ghost before = t;
    let mut i: usize = 0;
    proof {
        assert(before + phase@.take(0) =~= before);
    }
    while i < phase.len()
        invariant
            0 <= i <= phase.len(),
            out.wf(),
            out@ == capped(before + phase@.take(i as int)),
        decreases phase.len() - i,
    {
        let ghost mid = before + phase@.take(i as int);
        out.put(phase[i]);
        proof {
            lemma_capped_extend(mid, seq![phase@[i as int]]);
            assert(mid + seq![phase@[i as int]] =~= before + phase@.take(i + 1));
        }
        i = i + 1;
    }
    proof {
        assert(phase@.take(phase.len() as int) =~= phase@);
        t = before + phase@;
    }
    push_ascii(&mut out, "\n---------------\n");
    proof {
        lemma_capped_extend(t, ascii("\n---------------\n"@));
        t = t + ascii("\n---------------\n"@);
        assert(t =~= report_text(code, at, base, params@, phase@));
    }
    out
}

} // verus!
