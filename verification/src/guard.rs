//! Refusing to run on code this mod was not written for.
//!
//! Most of what a mod needs it resolves **by name**, which survives a game
//! update moving code around. A handful of things have no name and are baked
//! as addresses; after an update those addresses point at whatever now lives
//! there. So every baked *code* address carries the first bytes of the function
//! it is supposed to be, and any disagreement is reported plainly.
//!
//! Here is the judgement: what a signature expects, what was found, and the
//! message a player reads. Reading the bytes out of the running game is the
//! embedding's business.
use vstd::prelude::*;

use crate::text::{hex_addr, hex_bytes, push_hex_addr, push_hex_bytes, push_str};

verus! {

/// A baked code address and the bytes that must be there.
#[derive(Clone, Copy)]
pub struct Signature {
    /// What the function is, for the message a player reads.
    pub what: &'static str,
    pub rva: usize,
    pub bytes: &'static [u8],
}

/// Bytes as two-digit lowercase hex, separated by single spaces.
pub fn hex(b: &[u8]) -> (s: String)
    ensures
        s@ == hex_bytes(b@),
{
    let mut s = String::new();
    push_hex_bytes(&mut s, b);
    s
}

/// What was read, as bytes.
pub open spec fn read_view(found: Option<&[u8]>) -> Option<Seq<u8>> {
    match found {
        Some(f) => Some(f@),
        None => None,
    }
}

/// What was read, as bytes.
pub open spec fn owned_view(found: Option<Vec<u8>>) -> Option<Seq<u8>> {
    match found {
        Some(f) => Some(f@),
        None => None,
    }
}

/// The report for one signature: `None` when the expected bytes were found,
/// otherwise what went wrong. `found` is `None` when the address could not be
/// read.
pub open spec fn spec_judge(sig: Signature, found: Option<Seq<u8>>) -> Option<Seq<char>> {
    match found {
        None => Some(sig.what@ + " at "@ + hex_addr(sig.rva as nat) + ": not readable"@),
        Some(f) => if f == sig.bytes@ {
            None
        } else {
            Some(sig.what@ + " at "@ + hex_addr(sig.rva as nat) + ": expected "@ + hex_bytes(
                sig.bytes@,
            ) + " but found "@ + hex_bytes(f))
        },
    }
}

/// A signature passes exactly when the bytes read at its address are the
/// bytes it expects, all of them and nothing else; an address that cannot
/// be read never passes.
pub proof fn lemma_judge_passes_only_exact(sig: Signature, found: Option<Seq<u8>>)
    ensures
        (spec_judge(sig, found) is None) <==> found == Some(sig.bytes@),
{
}

/// A build passes the guard exactly when every signature's bytes are found
/// at its address.
pub proof fn lemma_no_mismatch_only_exact(sigs: Seq<Signature>, found: Seq<Option<Vec<u8>>>)
    requires
        found.len() == sigs.len(),
    ensures
        (spec_mismatches(sigs, found).len() == 0) <==> forall|i: int|
            0 <= i < sigs.len() ==> #[trigger] owned_view(found[i]) == Some(sigs[i].bytes@),
    decreases sigs.len(),
{
    if sigs.len() > 0 {
        let n = sigs.len() - 1;
        assert(found.take(n) =~= found.drop_last());
        lemma_no_mismatch_only_exact(sigs.drop_last(), found.drop_last());
        lemma_judge_passes_only_exact(sigs[n], owned_view(found[n]));
        if forall|i: int| 0 <= i < sigs.len() ==> #[trigger] owned_view(found[i]) == Some(sigs[i].bytes@) {
            assert forall|i: int| 0 <= i < sigs.drop_last().len() implies #[trigger] owned_view(
                found.drop_last()[i],
            ) == Some(sigs.drop_last()[i].bytes@) by {
                assert(found.drop_last()[i] == found[i]);
                assert(sigs.drop_last()[i] == sigs[i]);
                assert(owned_view(found[i]) == Some(sigs[i].bytes@));
            }
            assert(owned_view(found[n]) == Some(sigs[n].bytes@));
        } else {
            let i = choose|i: int| 0 <= i < sigs.len() && !(#[trigger] owned_view(found[i]) == Some(sigs[i].bytes@));
            if i < n {
                assert(found.drop_last()[i] == found[i]);
                assert(sigs.drop_last()[i] == sigs[i]);
                assert(!(owned_view(found.drop_last()[i]) == Some(sigs.drop_last()[i].bytes@)));
            }
        }
    }
}

/// Judge one signature against what was read at its address.
pub fn judge(sig: &Signature, found: Option<&[u8]>) -> (r: Option<String>)
    ensures
        match r {
            Some(m) => spec_judge(*sig, read_view(found)) == Some(m@),
            None => spec_judge(*sig, read_view(found)) is None,
        },
        r is None <==> read_view(found) == Some(sig.bytes@),
{
    let mut m = String::new();
    push_str(&mut m, sig.what);
    push_str(&mut m, " at ");
    push_hex_addr(&mut m, sig.rva as u64);
    match found {
        None => {
            push_str(&mut m, ": not readable");
            Some(m)
        },
        Some(f) => {
            if bytes_eq(f, sig.bytes) {
                None
            } else {
                push_str(&mut m, ": expected ");
                push_hex_bytes(&mut m, sig.bytes);
                push_str(&mut m, " but found ");
                push_hex_bytes(&mut m, f);
                Some(m)
            }
        },
    }
}

/// Whether two byte runs are equal.
pub fn bytes_eq(a: &[u8], b: &[u8]) -> (r: bool)
    ensures
        r == (a@ == b@),
{
    if a.len() != b.len() {
        return false;
    }
    let mut i: usize = 0;
    while i < a.len()
        invariant
            a.len() == b.len(),
            0 <= i <= a.len(),
            forall|j: int| 0 <= j < i ==> a@[j] == b@[j],
        decreases a.len() - i,
    {
        if a[i] != b[i] {
            return false;
        }
        i = i + 1;
    }
    assert(a@ =~= b@);
    true
}

/// The reports for every signature, in order, leaving out those that hold.
pub open spec fn spec_mismatches(sigs: Seq<Signature>, found: Seq<Option<Vec<u8>>>) -> Seq<Seq<char>>
    decreases sigs.len(),
{
    if sigs.len() == 0 {
        Seq::empty()
    } else {
        let rest = spec_mismatches(sigs.drop_last(), found.take(sigs.len() - 1));
        match spec_judge(sigs.last(), owned_view(found[sigs.len() - 1])) {
            Some(m) => rest.push(m),
            None => rest,
        }
    }
}

/// Check a set of signatures against what was read at each one's address
/// (`found[i]` for `sigs[i]`). Empty means every one of them holds.
pub fn mismatches(sigs: &[Signature], found: &[Option<Vec<u8>>]) -> (bad: Vec<String>)
    requires
        found.len() == sigs.len(),
    ensures
        bad@.map_values(|m: String| m@) == spec_mismatches(sigs@, found@),
{
    let mut bad: Vec<String> = Vec::new();
    let mut i: usize = 0;
    while i < sigs.len()
        invariant
            0 <= i <= sigs.len(),
            found.len() == sigs.len(),
            bad@.map_values(|m: String| m@) == spec_mismatches(sigs@.take(i as int), found@.take(i as int)),
        decreases sigs.len() - i,
    {
        let ghost before = bad@.map_values(|m: String| m@);
        let f: Option<&[u8]> = match &found[i] {
            Some(v) => Some(v.as_slice()),
            None => None,
        };
        assert(read_view(f) == owned_view(found@[i as int]));
        let r = judge(&sigs[i], f);
        assert(sigs@.take(i + 1).drop_last() =~= sigs@.take(i as int));
        assert(found@.take(i + 1).take(i as int) =~= found@.take(i as int));
        assert(sigs@.take(i + 1).last() == sigs@[i as int]);
        assert(found@.take(i + 1)[i as int] == found@[i as int]);
        match r {
            Some(m) => {
                bad.push(m);
                assert(bad@.map_values(|m: String| m@) =~= spec_mismatches(
                    sigs@.take(i + 1),
                    found@.take(i + 1),
                ));
            },
            None => {},
        }
        i = i + 1;
    }
    assert(sigs@.take(sigs.len() as int) =~= sigs@);
    assert(found@.take(sigs.len() as int) =~= found@);
    bad
}

/// The baked code addresses the whole layer is built on, as RVAs, in the
/// order [`core_signatures`] lists them.
pub open spec fn core_rvas() -> Seq<usize> {
    seq![
        0x1aa0df0usize,
        0x1aa47f0usize,
        0x1ad71f0usize,
        0x1adab90usize,
        0x1b00380usize,
        0x1b00560usize,
        0x1b07b90usize,
        0x1b08f70usize,
        0x1c4ebc0usize,
    ]
}

/// The signatures every baked code address is checked against: the first
/// bytes of the function each must be, on the build this was written for.
pub fn core_signatures() -> (v: Vec<Signature>)
    ensures
        v@.map_values(|s: Signature| s.rva) == core_rvas(),
        forall|i: int| 0 <= i < v.len() ==> (#[trigger] v@[i]).bytes@.len() == 12,
{
    let v: Vec<Signature> = vec![
        Signature {
            what: "Object_Find",
            rva: 0x1aa0df0,
            bytes: &[0x48, 0x8b, 0x15, 0xe1, 0x03, 0x06, 0x01, 0x48, 0x63, 0xc1, 0x4c, 0x63],
        },
        Signature {
            what: "method invoke",
            rva: 0x1aa47f0,
            bytes: &[0x40, 0x55, 0x41, 0x54, 0x41, 0x55, 0x41, 0x56, 0x41, 0x57, 0x48, 0x81],
        },
        Signature {
            what: "array_length",
            rva: 0x1ad71f0,
            bytes: &[0x33, 0xc0, 0x89, 0x41, 0x0c, 0x48, 0x89, 0x01, 0x48, 0x8b, 0x44, 0x24],
        },
        Signature {
            what: "is_method",
            rva: 0x1adab90,
            bytes: &[0x40, 0x53, 0x48, 0x83, 0xec, 0x20, 0xc7, 0x41, 0x0c, 0x0d, 0x00, 0x00],
        },
        Signature {
            what: "variable_struct_get",
            rva: 0x1b00380,
            bytes: &[0x48, 0x89, 0x5c, 0x24, 0x08, 0x48, 0x89, 0x6c, 0x24, 0x10, 0x48, 0x89],
        },
        Signature {
            what: "variable_struct_get_names",
            rva: 0x1b00560,
            bytes: &[0x48, 0x89, 0x5c, 0x24, 0x08, 0x48, 0x89, 0x6c, 0x24, 0x10, 0x48, 0x89],
        },
        Signature {
            what: "ds_list_size",
            rva: 0x1b07b90,
            bytes: &[0x40, 0x53, 0x48, 0x83, 0xec, 0x40, 0x48, 0x8b, 0x05, 0x4b, 0x82, 0xff],
        },
        Signature {
            what: "ds_map_find_value",
            rva: 0x1b08f70,
            bytes: &[0x48, 0x89, 0x5c, 0x24, 0x08, 0x48, 0x89, 0x6c, 0x24, 0x10, 0x48, 0x89],
        },
        Signature {
            what: "script_execute",
            rva: 0x1c4ebc0,
            bytes: &[0x48, 0x89, 0x5c, 0x24, 0x08, 0x48, 0x89, 0x6c, 0x24, 0x10, 0x48, 0x89],
        },
    ];
    assert(v@.map_values(|s: Signature| s.rva) =~= core_rvas());
    v
}

/// The game build the signatures were taken from.
pub const TARGET_BUILD: &'static str = "2026-08-10";

} // verus!
