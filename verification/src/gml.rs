//! Recovering the game's own symbols from its executable.
//!
//! The game is a GameMaker YYC build: all GML is compiled to native code, but
//! the executable is effectively self-symbolising, through two tables:
//!
//! * a 24-byte-stride table in `.data` pairing `gml_*` name strings with
//!   function pointers -- a full symbol table for the compiled GML
//! * each GML variable name string is followed 8 bytes later by its
//!   variable-id slot, which holds `0xFFFFFFFF` on disk and the resolved id
//!   once the game has started
//!
//! Everything is resolved **by name**, so a game update that moves code
//! around does not by itself break a mod. Where a name occurs more than once,
//! the first occurrence is the one kept.
use vstd::prelude::*;

use crate::pe::Image;
use crate::strmap::StrMap;
use crate::text::{chars_of, str_eq};
use crate::win::{Region, MEM_COMMIT, PAGE_GUARD};

verus! {

/// Records in the function table are 24 bytes apart.
pub const STRIDE: u64 = 24;

/// A run of at least this many consecutive valid records confirms the table,
/// rather than coincidental data.
pub const MIN_RUN: usize = 3;

/// `MEM_FREE`.
pub const MEM_FREE: u32 = 0x10000;

/// The `.data`, `.text` and `.rdata` section names.
pub open spec fn data_name() -> Seq<char> {
    seq!['.', 'd', 'a', 't', 'a']
}

pub open spec fn text_name() -> Seq<char> {
    seq!['.', 't', 'e', 'x', 't']
}

pub open spec fn rdata_name() -> Seq<char> {
    seq!['.', 'r', 'd', 'a', 't', 'a']
}

/// Whether `s` begins `gml_`.
pub open spec fn is_gml_name(s: Seq<char>) -> bool {
    s.len() >= 4 && s[0] == 'g' && s[1] == 'm' && s[2] == 'l' && s[3] == '_'
}

/// The function-table record at `rva`: a pointer to a `gml_` name in
/// `.rdata`, and a pointer to code in `.text`.
#[verifier::opaque]
pub open spec fn spec_record(img: Image, rva: int) -> Option<(Seq<char>, u32)> {
    if rva < 0 || rva + 8 > u32::MAX {
        None
    } else {
        match (img.spec_u64_rva(rva as u32), img.spec_u64_rva((rva + 8) as u32)) {
            (Some(name_va), Some(func_va)) => if name_va == 0 || func_va == 0 {
                None
            } else {
                match img.spec_va2rva(func_va) {
                    None => None,
                    Some(f) => if !img.spec_rva_in(f, text_name()) {
                        None
                    } else {
                        match img.spec_va2rva(name_va) {
                            None => None,
                            Some(n) => if !img.spec_rva_in(n, rdata_name()) {
                                None
                            } else {
                                match img.spec_cstr(n, 512) {
                                    Some(s) => if is_gml_name(s) {
                                        Some((s, f))
                                    } else {
                                        None
                                    },
                                    None => None,
                                }
                            },
                        }
                    },
                }
            },
            _ => None,
        }
    }
}

/// The run of consecutive records at the stride from `probe`, below `hi`.
#[verifier::opaque]
pub open spec fn spec_run(img: Image, probe: int, hi: int) -> Seq<(Seq<char>, u32)>
    decreases hi - probe + 24,
{
    if probe >= hi {
        Seq::empty()
    } else {
        match spec_record(img, probe) {
            None => Seq::empty(),
            Some(r) => seq![r] + spec_run(img, probe + 24, hi),
        }
    }
}

/// The records accepted scanning 8-byte steps from `rva`: a record starting
/// a run of at least [`MIN_RUN`] brings in the whole run and the scan resumes
/// after it; anything else is stepped over.
#[verifier::opaque]
pub open spec fn accepted(img: Image, rva: int, hi: int) -> Seq<(Seq<char>, u32)>
    decreases hi - rva + 24,
{
    if rva >= hi {
        Seq::empty()
    } else if spec_record(img, rva) is None {
        accepted(img, rva + 8, hi)
    } else {
        let run = spec_run(img, rva, hi);
        proof {
            lemma_run_bound(img, rva, hi);
        }
        if run.len() >= MIN_RUN {
            run + accepted(img, rva + 24 * run.len(), hi)
        } else {
            accepted(img, rva + 8, hi)
        }
    }
}

/// A run ends within a stride of `hi`.
pub proof fn lemma_run_bound(img: Image, probe: int, hi: int)
    ensures
        spec_run(img, probe, hi).len() == 0 || probe + 24 * spec_run(img, probe, hi).len() < hi + 24,
    decreases hi - probe + 24,
{
    reveal(spec_run);
    if probe < hi {
        if let Some(r) = spec_record(img, probe) {
            lemma_run_bound(img, probe + 24, hi);
        }
    }
}

/// The first value paired with `name` in `s`.
pub open spec fn first_of(s: Seq<(Seq<char>, u32)>, name: Seq<char>) -> Option<u32>
    decreases s.len(),
{
    if s.len() == 0 {
        None
    } else if s[0].0 == name {
        Some(s[0].1)
    } else {
        first_of(s.drop_first(), name)
    }
}

pub proof fn lemma_first_of_append(a: Seq<(Seq<char>, u32)>, b: Seq<(Seq<char>, u32)>, name: Seq<char>)
    ensures
        first_of(a + b, name) == (match first_of(a, name) {
            Some(v) => Some(v),
            None => first_of(b, name),
        }),
    decreases a.len(),
{
    if a.len() > 0 {
        assert((a + b).drop_first() =~= a.drop_first() + b);
        assert((a + b)[0] == a[0]);
        lemma_first_of_append(a.drop_first(), b, name);
    } else {
        assert(a + b =~= b);
    }
}

/// What a function-table record at `r` says, read field by field: its
/// first pointer leads to the name `name` in `.rdata`, and its second
/// pointer, the code, translates to the RVA `f`, which lies in `.text`.
pub open spec fn record_names_code(img: Image, r: int, name: Seq<char>, f: u32) -> bool {
    &&& 0 <= r && r + 8 <= u32::MAX
    &&& img.spec_u64_rva((r + 8) as u32) matches Some(fva) && img.spec_va2rva(fva) == Some(f)
    &&& img.spec_rva_in(f, text_name())
    &&& img.spec_u64_rva(r as u32) matches Some(nva) && img.spec_va2rva(nva) matches Some(n)
        && img.spec_rva_in(n, rdata_name()) && img.spec_cstr(n, 512) == Some(name)
}

/// An entry `(name, f)` that some function-table record bears out.
pub open spec fn code_entry(img: Image, e: (Seq<char>, u32)) -> bool {
    exists|r: int| record_names_code(img, r, e.0, e.1)
}

proof fn lemma_record_code(img: Image, r: int)
    ensures
        spec_record(img, r) matches Some(e) ==> code_entry(img, e),
{
    reveal(spec_record);
    if let Some(e) = spec_record(img, r) {
        assert(record_names_code(img, r, e.0, e.1));
    }
}

#[verifier::spinoff_prover]
proof fn lemma_run_code(img: Image, probe: int, hi: int)
    ensures
        forall|k: int| 0 <= k < spec_run(img, probe, hi).len() ==> code_entry(img, #[trigger] spec_run(img, probe, hi)[k]),
    decreases hi - probe + 24,
{
    reveal(spec_run);
    if probe < hi {
        if let Some(x) = spec_record(img, probe) {
            lemma_run_code(img, probe + 24, hi);
            lemma_record_code(img, probe);
            let run = spec_run(img, probe, hi);
            let rest = spec_run(img, probe + 24, hi);
            assert(run == seq![x] + rest);
            assert forall|k: int| 0 <= k < run.len() implies code_entry(img, #[trigger] run[k]) by {
                if k == 0 {
                    assert(run[0] == x);
                } else {
                    assert(run[k] == rest[k - 1]);
                }
            }
        }
    }
}

#[verifier::spinoff_prover]
proof fn lemma_accepted_code(img: Image, rva: int, hi: int)
    ensures
        forall|k: int| 0 <= k < accepted(img, rva, hi).len() ==> code_entry(img, #[trigger] accepted(img, rva, hi)[k]),
    decreases hi - rva + 24,
{
    reveal(accepted);
    if rva < hi {
        if spec_record(img, rva) is None {
            lemma_accepted_code(img, rva + 8, hi);
            assert(accepted(img, rva, hi) == accepted(img, rva + 8, hi));
        } else {
            let run = spec_run(img, rva, hi);
            lemma_run_bound(img, rva, hi);
            if run.len() >= MIN_RUN {
                lemma_run_code(img, rva, hi);
                lemma_accepted_code(img, rva + 24 * run.len(), hi);
                let rest = accepted(img, rva + 24 * run.len(), hi);
                let all = accepted(img, rva, hi);
                assert(all == run + rest);
                assert forall|k: int| 0 <= k < all.len() implies code_entry(img, #[trigger] all[k]) by {
                    if k < run.len() {
                        assert(all[k] == run[k]);
                    } else {
                        assert(all[k] == rest[k - run.len()]);
                    }
                }
            } else {
                lemma_accepted_code(img, rva + 8, hi);
                assert(accepted(img, rva, hi) == accepted(img, rva + 8, hi));
            }
        }
    } else {
        assert(accepted(img, rva, hi).len() == 0);
    }
}

proof fn lemma_first_of_member(s: Seq<(Seq<char>, u32)>, name: Seq<char>)
    ensures
        first_of(s, name) matches Some(v) ==> exists|k: int| 0 <= k < s.len() && #[trigger] s[k] == (name, v),
    decreases s.len(),
{
    if s.len() > 0 && s[0].0 != name {
        lemma_first_of_member(s.drop_first(), name);
        if let Some(v) = first_of(s, name) {
            let k = choose|k: int| 0 <= k < s.drop_first().len() && #[trigger] s.drop_first()[k] == (name, v);
            assert(s[k + 1] == (name, v));
        }
    } else if s.len() > 0 {
        assert(s[0] == (name, s[0].1));
    }
}

/// Every function the table gives is code: the RVA found for a name is the
/// one the code pointer of a record naming it translates to, and it lies in
/// `.text` -- never the name string itself, nor anything else in data.
pub proof fn lemma_functions_are_code(img: Image, name: Seq<char>)
    ensures
        (spec_functions(img))(name) matches Some(f) ==> exists|r: int| record_names_code(img, r, name, f),
{
    match img.spec_initialised(data_name()) {
        Some((lo, hi)) => {
            let acc = accepted(img, aligned_up(lo), hi as int);
            lemma_first_of_member(acc, name);
            lemma_accepted_code(img, aligned_up(lo), hi as int);
            if let Some(f) = first_of(acc, name) {
                let k = choose|k: int| 0 <= k < acc.len() && #[trigger] acc[k] == (name, f);
                assert(code_entry(img, acc[k]));
                assert(acc[k].0 == name && acc[k].1 == f);
            }
        },
        None => {},
    }
}

/// Where a `.data` scan starts: the first 8-aligned RVA at or above `lo`.
pub open spec fn aligned_up(lo: u32) -> int {
    lo + (8 - lo % 8) % 8
}

/// The function table: each `gml_` name with the first code RVA recorded
/// for it.
pub open spec fn spec_functions(img: Image) -> spec_fn(Seq<char>) -> Option<u32> {
    |name: Seq<char>| match img.spec_initialised(data_name()) {
        Some((lo, hi)) => first_of(accepted(img, aligned_up(lo), hi as int), name),
        None => None,
    }
}

/// The variable-slot candidate at `rva`: a pointer to an identifier in
/// `.rdata`, followed by the unresolved sentinel.
#[verifier::opaque]
pub open spec fn spec_slot_at(img: Image, rva: int) -> Option<(Seq<char>, u32)> {
    if rva < 0 || rva + 8 > u32::MAX {
        None
    } else {
        match img.spec_u64_rva(rva as u32) {
            None => None,
            Some(name_va) => if name_va == 0 {
                None
            } else {
                match img.spec_va2rva(name_va) {
                    None => None,
                    Some(n) => if !img.spec_rva_in(n, rdata_name()) {
                        None
                    } else {
                        match img.spec_u32_rva((rva + 8) as u32) {
                            Some(sentinel) => if sentinel != u32::MAX {
                                None
                            } else {
                                match img.spec_cstr(n, 128) {
                                    Some(s) => if is_ident(s) {
                                        Some((s, (rva + 8) as u32))
                                    } else {
                                        None
                                    },
                                    None => None,
                                }
                            },
                            None => None,
                        }
                    },
                }
            },
        }
    }
}

/// The variable-slot candidates at 8-byte steps from `rva`, while a whole
/// 16-byte pair fits below `hi`.
#[verifier::opaque]
pub open spec fn slots_from(img: Image, rva: int, hi: int) -> Seq<(Seq<char>, u32)>
    decreases hi - rva,
{
    if rva + 16 > hi {
        Seq::empty()
    } else {
        (match spec_slot_at(img, rva) {
            Some(x) => seq![x],
            None => Seq::empty(),
        }) + slots_from(img, rva + 8, hi)
    }
}

/// The variable slots: each name with the first slot RVA recorded for it.
pub open spec fn spec_var_slots(img: Image) -> spec_fn(Seq<char>) -> Option<u32> {
    |name: Seq<char>| match img.spec_initialised(data_name()) {
        Some((lo, hi)) => first_of(slots_from(img, aligned_up(lo), hi as int), name),
        None => None,
    }
}

/// A GML identifier: an ASCII letter or underscore, then ASCII letters,
/// digits and underscores.
pub open spec fn is_ident(s: Seq<char>) -> bool {
    &&& s.len() > 0
    &&& (('a' <= s[0] <= 'z') || ('A' <= s[0] <= 'Z') || s[0] == '_')
    &&& forall|i: int|
        1 <= i < s.len() ==> ('a' <= #[trigger] s[i] <= 'z') || ('A' <= s[i] <= 'Z') || ('0' <= s[i]
            <= '9') || s[i] == '_'
}

/// Whether `s` is a GML identifier.
pub fn is_identifier(s: &str) -> (r: bool)
    ensures
        r == is_ident(s@),
{
    let cs = chars_of(s);
    if cs.len() == 0 {
        return false;
    }
    let c = cs[0];
    if !(('a' <= c && c <= 'z') || ('A' <= c && c <= 'Z') || c == '_') {
        return false;
    }
    let mut i: usize = 1;
    while i < cs.len()
        invariant
            1 <= i <= cs.len(),
            cs@ == s@,
            forall|j: int|
                1 <= j < i ==> ('a' <= #[trigger] cs@[j] <= 'z') || ('A' <= cs@[j] <= 'Z') || ('0'
                    <= cs@[j] <= '9') || cs@[j] == '_',
        decreases cs.len() - i,
    {
        let c = cs[i];
        if !(('a' <= c && c <= 'z') || ('A' <= c && c <= 'Z') || ('0' <= c && c <= '9') || c == '_') {
            return false;
        }
        i = i + 1;
    }
    true
}

/// The record at `rva`, if there is one.
fn record_at(img: &Image, rva: u64) -> (r: Option<(String, u32)>)
    ensures
        match r {
            Some((s, f)) => spec_record(*img, rva as int) == Some((s@, f)),
            None => spec_record(*img, rva as int) is None,
        },
{
    proof {
        reveal_strlit(".text");
        reveal_strlit(".rdata");
        assert(".text"@ =~= text_name());
        assert(".rdata"@ =~= rdata_name());
        reveal(spec_record);
    }
    if rva > 0xFFFF_FFFF - 8 {
        return None;
    }
    let rva = rva as u32;
    let name_va = match img.u64_rva(rva) {
        Some(v) => v,
        None => return None,
    };
    let func_va = match img.u64_rva(rva + 8) {
        Some(v) => v,
        None => return None,
    };
    if name_va == 0 || func_va == 0 {
        return None;
    }
    let func_rva = match img.va2rva(func_va) {
        Some(r) => r,
        None => return None,
    };
    if !img.rva_in(func_rva, ".text") {
        return None;
    }
    let name_rva = match img.va2rva(name_va) {
        Some(r) => r,
        None => return None,
    };
    if !img.rva_in(name_rva, ".rdata") {
        return None;
    }
    let name = match img.cstr(name_rva, 512) {
        Some(n) => n,
        None => return None,
    };
    let cs = chars_of(name.as_str());
    if cs.len() >= 4 && cs[0] == 'g' && cs[1] == 'm' && cs[2] == 'l' && cs[3] == '_' {
        Some((name, func_rva))
    } else {
        None
    }
}

/// The slot candidate at `rva`, if there is one.
fn slot_at(img: &Image, rva: u64) -> (r: Option<(String, u32)>)
    ensures
        match r {
            Some((s, f)) => spec_slot_at(*img, rva as int) == Some((s@, f)),
            None => spec_slot_at(*img, rva as int) is None,
        },
{
    proof {
        reveal_strlit(".rdata");
        assert(".rdata"@ =~= rdata_name());
        reveal(spec_slot_at);
    }
    if rva > 0xFFFF_FFFF - 8 {
        return None;
    }
    let rva = rva as u32;
    let name_va = match img.u64_rva(rva) {
        Some(v) => v,
        None => return None,
    };
    if name_va == 0 {
        return None;
    }
    let name_rva = match img.va2rva(name_va) {
        Some(r) => r,
        None => return None,
    };
    if !img.rva_in(name_rva, ".rdata") {
        return None;
    }
    match img.u32_rva(rva + 8) {
        Some(v) => {
            if v != 0xFFFF_FFFF {
                return None;
            }
        },
        None => return None,
    }
    let name = match img.cstr(name_rva, 128) {
        Some(n) => n,
        None => return None,
    };
    if is_identifier(name.as_str()) {
        Some((name, rva + 8))
    } else {
        None
    }
}

/// Record every entry of `run` whose name has none yet.
fn insert_all(m: &mut StrMap, run: &Vec<(String, u32)>, Ghost(done): Ghost<Seq<(Seq<char>, u32)>>)
    requires
        old(m).wf(),
        forall|n: Seq<char>| #[trigger] old(m).spec_get(n) == first_of(done, n),
    ensures
        final(m).wf(),
        forall|n: Seq<char>| #[trigger] final(m).spec_get(n) == first_of(
            done + run@.map_values(|e: (String, u32)| (e.0@, e.1)),
            n,
        ),
{
    let ghost rs = run@.map_values(|e: (String, u32)| (e.0@, e.1));
    let mut i: usize = 0;
    while i < run.len()
        invariant
            m.wf(),
            0 <= i <= run.len(),
            rs == run@.map_values(|e: (String, u32)| (e.0@, e.1)),
            forall|n: Seq<char>| #[trigger] m.spec_get(n) == first_of(done + rs.take(i as int), n),
        decreases run.len() - i,
    {
        let name = run[i].0.clone();
        let v = run[i].1;
        let ghost x = (name@, v);
        assert(x == rs[i as int]);
        m.insert_if_absent(name, v);
        proof {
            assert(rs.take(i + 1) =~= rs.take(i as int).push(x));
            assert forall|n: Seq<char>| #[trigger] m.spec_get(n) == first_of(done + rs.take(i + 1), n) by {
                assert(done + rs.take(i + 1) =~= (done + rs.take(i as int)) + seq![x]);
                lemma_first_of_append(done + rs.take(i as int), seq![x], n);
                assert(seq![x].drop_first() =~= Seq::<(Seq<char>, u32)>::empty());
                assert(first_of(Seq::<(Seq<char>, u32)>::empty(), n) is None);
            }
        }
        i = i + 1;
    }
    assert(rs.take(run.len() as int) =~= rs);
}

/// The run of records at the stride from `rva`, below `hi`.
fn collect_run(img: &Image, rva: u64, hi: u64) -> (r: Vec<(String, u32)>)
    requires
        hi <= 0xFFFF_FFFF,
        rva < hi,
    ensures
        r@.map_values(|e: (String, u32)| (e.0@, e.1)) == spec_run(*img, rva as int, hi as int),
{
    reveal(spec_run);
    let mut run: Vec<(String, u32)> = Vec::new();
    let mut probe = rva;
    while probe < hi
        invariant
            rva <= probe,
            hi <= 0xFFFF_FFFF,
            probe <= hi + 24,
            spec_run(*img, rva as int, hi as int) == run@.map_values(|e: (String, u32)| (e.0@, e.1))
                + spec_run(*img, probe as int, hi as int),
            probe >= hi ==> spec_run(*img, probe as int, hi as int) == Seq::<(Seq<char>, u32)>::empty(),
        ensures
            spec_run(*img, rva as int, hi as int) == run@.map_values(|e: (String, u32)| (e.0@, e.1)),
        decreases hi + 24 - probe,
    {
        proof {
            reveal(spec_run);
        }
        match record_at(img, probe) {
            Some(r) => {
                let ghost before = run@.map_values(|e: (String, u32)| (e.0@, e.1));
                run.push(r);
                assert(run@.map_values(|e: (String, u32)| (e.0@, e.1)) =~= before + seq![(r.0@, r.1)]);
                assert(spec_run(*img, probe as int, hi as int) == seq![(r.0@, r.1)] + spec_run(
                    *img,
                    probe + 24,
                    hi as int,
                ));
                assert(before + spec_run(*img, probe as int, hi as int) =~= (before + seq![(r.0@, r.1)])
                    + spec_run(*img, probe + 24, hi as int));
            },
            None => {
                assert(spec_run(*img, probe as int, hi as int) =~= Seq::<(Seq<char>, u32)>::empty());
                assert(run@.map_values(|e: (String, u32)| (e.0@, e.1)) + Seq::<(Seq<char>, u32)>::empty()
                    =~= run@.map_values(|e: (String, u32)| (e.0@, e.1)));
                break;
            },
        }
        probe = probe + STRIDE;
        proof {
            if probe >= hi {
                assert(spec_run(*img, probe as int, hi as int) =~= Seq::<(Seq<char>, u32)>::empty());
                assert(run@.map_values(|e: (String, u32)| (e.0@, e.1)) + Seq::<(Seq<char>, u32)>::empty()
                    =~= run@.map_values(|e: (String, u32)| (e.0@, e.1)));
            }
        }
    }
    run
}

/// The function table, scanned out of `.data`.
pub fn function_table(img: &Image) -> (m: StrMap)
    ensures
        m.wf(),
        forall|n: Seq<char>| #[trigger] m.spec_get(n) == (spec_functions(*img))(n),
{
    proof {
        reveal_strlit(".data");
        assert(".data"@ =~= data_name());
    }
    let mut m = StrMap::new();
    let (lo, hi) = match img.initialised_range(".data") {
        Some(r) => r,
        None => return m,
    };
    let ghost lo32 = lo;
    let hi = hi as u64;
    let start = (lo as u64) + (8 - (lo as u64) % 8) % 8;
    assert(start == aligned_up(lo32));
    let mut rva = start;
    let ghost mut done: Seq<(Seq<char>, u32)> = Seq::empty();
    assert(done + accepted(*img, start as int, hi as int) =~= accepted(*img, start as int, hi as int));
    while rva < hi
        invariant
            m.wf(),
            hi <= 0xFFFF_FFFF,
            accepted(*img, start as int, hi as int) == done + accepted(*img, rva as int, hi as int),
            forall|n: Seq<char>| #[trigger] m.spec_get(n) == first_of(done, n),
            rva == start || rva <= hi + 24,
        decreases hi + 24 - rva,
    {
        if record_at(img, rva).is_none() {
            proof {
                reveal(accepted);
            }
            rva = rva + 8;
            continue;
        }
        let run = collect_run(img, rva, hi);
        let ghost rv = run@.map_values(|e: (String, u32)| (e.0@, e.1));
        proof {
            lemma_run_bound(*img, rva as int, hi as int);
        }
        if run.len() >= MIN_RUN {
            insert_all(&mut m, &run, Ghost(done));
            let next = rva + 24 * (run.len() as u64);
            proof {
                reveal(accepted);
                assert(accepted(*img, rva as int, hi as int) == rv + accepted(*img, next as int, hi as int));
                assert(done + accepted(*img, rva as int, hi as int) =~= (done + rv) + accepted(
                    *img,
                    next as int,
                    hi as int,
                ));
                done = done + rv;
            }
            rva = next;
        } else {
            proof {
                reveal(accepted);
            }
            rva = rva + 8;
        }
    }
    proof {
        reveal(accepted);
        assert(accepted(*img, rva as int, hi as int) =~= Seq::<(Seq<char>, u32)>::empty());
        assert(done + Seq::<(Seq<char>, u32)>::empty() =~= done);
    }
    m
}

/// The variable slots, scanned out of `.data`.
pub fn variable_slots(img: &Image) -> (m: StrMap)
    ensures
        m.wf(),
        forall|n: Seq<char>| #[trigger] m.spec_get(n) == (spec_var_slots(*img))(n),
{
    proof {
        reveal_strlit(".data");
        assert(".data"@ =~= data_name());
    }
    let mut m = StrMap::new();
    let (lo, hi) = match img.initialised_range(".data") {
        Some(r) => r,
        None => return m,
    };
    let hi = hi as u64;
    let start = (lo as u64) + (8 - (lo as u64) % 8) % 8;
    let mut rva = start;
    let ghost mut done: Seq<(Seq<char>, u32)> = Seq::empty();
    assert(done + slots_from(*img, start as int, hi as int) =~= slots_from(*img, start as int, hi as int));
    while rva + 16 <= hi
        invariant
            m.wf(),
            hi <= 0xFFFF_FFFF,
            rva <= 0xFFFF_FFFF + 8,
            slots_from(*img, start as int, hi as int) == done + slots_from(*img, rva as int, hi as int),
            forall|n: Seq<char>| #[trigger] m.spec_get(n) == first_of(done, n),
        decreases hi - rva,
    {
        let ghost here = match spec_slot_at(*img, rva as int) {
            Some(x) => seq![x],
            None => Seq::empty(),
        };
        match slot_at(img, rva) {
            Some((name, at)) => {
                let ghost x = (name@, at);
                m.insert_if_absent(name, at);
                proof {
                    assert forall|n: Seq<char>| #[trigger] m.spec_get(n) == first_of(done + seq![x], n) by {
                        lemma_first_of_append(done, seq![x], n);
                        assert(seq![x].drop_first() =~= Seq::<(Seq<char>, u32)>::empty());
                        assert(first_of(Seq::<(Seq<char>, u32)>::empty(), n) is None);
                    }
                }
            },
            None => {
                assert(done + here =~= done);
            },
        }
        proof {
            reveal(slots_from);
            assert(done + slots_from(*img, rva as int, hi as int) =~= (done + here) + slots_from(
                *img,
                rva + 8,
                hi as int,
            ));
            done = done + here;
        }
        rva = rva + 8;
    }
    proof {
        reveal(slots_from);
        assert(slots_from(*img, rva as int, hi as int) =~= Seq::<(Seq<char>, u32)>::empty());
        assert(done + Seq::<(Seq<char>, u32)>::empty() =~= done);
    }
    m
}

/// The game's symbols, with live addresses computed from where the module is
/// actually loaded: **live address = base + rva**.
pub struct Symbols {
    /// Where the module is loaded.
    pub base: usize,
    /// GML function name -> RVA.
    pub functions: StrMap,
    /// GML variable name -> RVA of its id slot.
    pub var_slots: StrMap,
    /// The ASLR slide, kept only for reporting; never for address arithmetic.
    pub slide: usize,
}

impl Symbols {
    /// Both tables are well formed.
    pub open spec fn wf(&self) -> bool {
        self.functions.wf() && self.var_slots.wf()
    }

    /// Discover both tables from the on-disk executable.
    pub fn discover(image: &Image, live_base: usize) -> (s: Symbols)
        ensures
            s.wf(),
            s.base == live_base,
            s.slide == vstd::wrapping::usize_specs::wrapping_sub(live_base, image.image_base as usize),
            forall|n: Seq<char>| #[trigger] s.functions.spec_get(n) == (spec_functions(*image))(n),
            forall|n: Seq<char>| #[trigger] s.var_slots.spec_get(n) == (spec_var_slots(*image))(n),
    {
        Symbols {
            base: live_base,
            slide: live_base.wrapping_sub(image.image_base as usize),
            functions: function_table(image),
            var_slots: variable_slots(image),
        }
    }

    /// Live address of a compiled GML function.
    pub fn func(&self, name: &str) -> (r: Option<usize>)
        requires
            self.wf(),
        ensures
            r == (match self.functions.spec_get(name@) {
                Some(rva) => Some(vstd::wrapping::usize_specs::wrapping_add(self.base, rva as usize)),
                None => None,
            }),
    {
        match self.functions.get(name) {
            Some(r) => Some(self.base.wrapping_add(r as usize)),
            None => None,
        }
    }

    /// A discovered function's live address is the module base plus the
    /// RVA of code in `.text` that a function-table record for that name
    /// points to.
    pub proof fn lemma_func_is_code(&self, img: Image, name: Seq<char>)
        requires
            forall|n: Seq<char>| #[trigger] self.functions.spec_get(n) == (spec_functions(img))(n),
        ensures
            self.functions.spec_get(name) matches Some(f) ==> exists|r: int| record_names_code(img, r, name, f),
    {
        lemma_functions_are_code(img, name);
    }

    /// Live address of a variable's id slot.
    pub fn slot(&self, name: &str) -> (r: Option<usize>)
        requires
            self.wf(),
        ensures
            r == (match self.var_slots.spec_get(name@) {
                Some(rva) => Some(vstd::wrapping::usize_specs::wrapping_add(self.base, rva as usize)),
                None => None,
            }),
    {
        match self.var_slots.get(name) {
            Some(r) => Some(self.base.wrapping_add(r as usize)),
            None => None,
        }
    }

    /// Why a slot could not be read, for logging: `region` is what
    /// `VirtualQuery` said of the slot's address, `readable` whether its four
    /// bytes passed the readability check.
    pub fn slot_state(&self, name: &str, region: Option<Region>, readable: bool) -> (s: &'static str)
        requires
            self.wf(),
        ensures
            s@ == (if self.var_slots.spec_get(name@) is None {
                "no such variable"@
            } else {
                match region {
                    None => "VirtualQuery failed"@,
                    Some(r) => if r.state == MEM_FREE {
                        "NOT MAPPED (free address space)"@
                    } else if r.state != MEM_COMMIT {
                        "reserved but not committed"@
                    } else if r.protect & PAGE_GUARD != 0 {
                        "guard page"@
                    } else if !readable {
                        "committed but not readable"@
                    } else {
                        "readable"@
                    },
                }
            }),
    {
        if self.slot(name).is_none() {
            return "no such variable";
        }
        match region {
            None => "VirtualQuery failed",
            Some(r) => {
                if r.state == MEM_FREE {
                    "NOT MAPPED (free address space)"
                } else if r.state != MEM_COMMIT {
                    "reserved but not committed"
                } else if r.protect & PAGE_GUARD != 0 {
                    "guard page"
                } else if !readable {
                    "committed but not readable"
                } else {
                    "readable"
                }
            },
        }
    }

    /// How many of `names` resolve, as a function or a variable, out of how
    /// many were asked about.
    pub fn resolved_count(&self, names: &[&str]) -> (r: (usize, usize))
        requires
            self.wf(),
        ensures
            r.1 == names.len(),
            r.0 == names@.filter(
                |n: &str| self.functions.spec_get(n@) is Some || self.var_slots.spec_get(n@) is Some,
            ).len(),
    {
        let ghost p = |n: &str| self.functions.spec_get(n@) is Some || self.var_slots.spec_get(n@) is Some;
        let mut have: usize = 0;
        let mut i: usize = 0;
        while i < names.len()
            invariant
                0 <= i <= names.len(),
                self.wf(),
                p == (|n: &str| self.functions.spec_get(n@) is Some || self.var_slots.spec_get(n@) is Some),
                have == names@.take(i as int).filter(p).len(),
            decreases names.len() - i,
        {
            proof {
                names@.take(i as int).lemma_filter_push(names@[i as int], p);
                assert(names@.take(i + 1) =~= names@.take(i as int).push(names@[i as int]));
            }
            let n = names[i];
            if self.functions.get(n).is_some() || self.var_slots.get(n).is_some() {
                have = have + 1;
            }
            i = i + 1;
        }
        assert(names@.take(names.len() as int) =~= names@);
        (have, names.len())
    }

    /// The names that do not resolve: first the functions of `funcs` that
    /// are not in the function table, then the variables of `vars` that have
    /// no slot, each in the order asked about.
    pub fn missing(&self, funcs: &[&'static str], vars: &[&'static str]) -> (r: Vec<&'static str>)
        requires
            self.wf(),
        ensures
            r@ == funcs@.filter(|n: &'static str| self.functions.spec_get(n@) is None) + vars@.filter(
                |n: &'static str| self.var_slots.spec_get(n@) is None,
            ),
    {
        let ghost pf = |n: &'static str| self.functions.spec_get(n@) is None;
        let ghost pv = |n: &'static str| self.var_slots.spec_get(n@) is None;
        let mut out: Vec<&'static str> = Vec::new();
        let mut i: usize = 0;
        while i < funcs.len()
            invariant
                0 <= i <= funcs.len(),
                self.wf(),
                pf == (|n: &'static str| self.functions.spec_get(n@) is None),
                out@ == funcs@.take(i as int).filter(pf),
            decreases funcs.len() - i,
        {
            proof {
                funcs@.take(i as int).lemma_filter_push(funcs@[i as int], pf);
                assert(funcs@.take(i + 1) =~= funcs@.take(i as int).push(funcs@[i as int]));
            }
            if self.functions.get(funcs[i]).is_none() {
                out.push(funcs[i]);
            }
            i = i + 1;
        }
        assert(funcs@.take(funcs.len() as int) =~= funcs@);
        let ghost head = out@;
        let mut j: usize = 0;
        assert(vars@.take(0).filter(pv) =~= Seq::<&'static str>::empty()) by {
            assert(vars@.take(0) =~= Seq::<&'static str>::empty());
            reveal(Seq::filter);
        }
        while j < vars.len()
            invariant
                0 <= j <= vars.len(),
                self.wf(),
                pv == (|n: &'static str| self.var_slots.spec_get(n@) is None),
                out@ == head + vars@.take(j as int).filter(pv),
            decreases vars.len() - j,
        {
            proof {
                vars@.take(j as int).lemma_filter_push(vars@[j as int], pv);
                assert(vars@.take(j + 1) =~= vars@.take(j as int).push(vars@[j as int]));
            }
            if self.var_slots.get(vars[j]).is_none() {
                out.push(vars[j]);
            }
            j = j + 1;
        }
        assert(vars@.take(vars.len() as int) =~= vars@);
        out
    }
}

} // verus!
