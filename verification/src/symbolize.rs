//! Turning an address back into a name.
//!
//! The game carries a symbol table for its compiled GML functions and
//! `.pdata` boundaries for every function, so an address can be attributed
//! exactly. Three tiers of answer, best first:
//!
//! 1. **A named GML function**: `gml_Object_obj_unit_Step_0+0x1c4`.
//! 2. **A known runtime routine**, identified by hand or from the runtime's
//!    table of builtins.
//! 3. **A `.pdata` boundary**: `sub_1b0d3a0+0x40`, which still groups samples
//!    by function.
//!
//! Anything outside the module is reported as such.
use vstd::prelude::*;

use crate::rvamap::{floor_index, lookup, sorted_keys, RvaMap};
use crate::strmap::StrMap;
use crate::text::{chars_of, hex_num, push_hex, push_str, slice_of, string_of};

verus! {

/// Unnamed runtime routines identified from their error strings or from the
/// builtin wrapper that reaches them; RVAs for the 2026-08-10 build.
///
/// `call_builtin_by_index` is how compiled GML calls a builtin: an index
/// scaled by the function table's stride, then an indirect call through a
/// descriptor.
pub open spec fn runtime_routines_view() -> Seq<(u32, &'static str)> {
    seq![
        (0x1a8a940u32, "YYGetBool"),
        (0x1a8bf50u32, "YYGetInt32"),
        (0x1a8c0d0u32, "YYGetInt64"),
        (0x1a8c880u32, "YYGetReal"),
        (0x1a8ee40u32, "YYGetRef"),
        (0x1aa0df0u32, "Object_Find"),
        (0x1aa47f0u32, "method_invoke"),
        (0x1aa4c90u32, "static_get"),
        (0x1ac46e0u32, "member_get"),
        (0x1af1390u32, "to_string"),
        (0x1b0d3a0u32, "ds_get"),
        (0x1b31600u32, "Object_FindIndexByName"),
        (0x8f4e0u32, "RValue_assign"),
        (0x8f580u32, "RValue_release"),
        (0x8f6b0u32, "RValue_copy"),
        (0x1aa4090u32, "GMLString_new"),
        (0x1aa46c0u32, "call_builtin_by_index"),
        (0x1e9ff30u32, "gml_frame_push"),
        (0x1e9fc10u32, "gml_frame_pop"),
    ]
}

/// The hand-identified routines.
pub fn runtime_routines() -> (r: Vec<(u32, &'static str)>)
    ensures
        r@ == runtime_routines_view(),
{
    let mut r: Vec<(u32, &'static str)> = Vec::new();
    r.push((0x1a8a940, "YYGetBool"));
    r.push((0x1a8bf50, "YYGetInt32"));
    r.push((0x1a8c0d0, "YYGetInt64"));
    r.push((0x1a8c880, "YYGetReal"));
    r.push((0x1a8ee40, "YYGetRef"));
    r.push((0x1aa0df0, "Object_Find"));
    r.push((0x1aa47f0, "method_invoke"));
    r.push((0x1aa4c90, "static_get"));
    r.push((0x1ac46e0, "member_get"));
    r.push((0x1af1390, "to_string"));
    r.push((0x1b0d3a0, "ds_get"));
    r.push((0x1b31600, "Object_FindIndexByName"));
    r.push((0x8f4e0, "RValue_assign"));
    r.push((0x8f580, "RValue_release"));
    r.push((0x8f6b0, "RValue_copy"));
    r.push((0x1aa4090, "GMLString_new"));
    r.push((0x1aa46c0, "call_builtin_by_index"));
    r.push((0x1e9ff30, "gml_frame_push"));
    r.push((0x1e9fc10, "gml_frame_pop"));
    assert(r@ =~= runtime_routines_view());
    r
}

/// What a function is called.
pub enum Name {
    /// A compiled GML function, from the game's own symbol table.
    Gml(String),
    /// A runtime routine, named by hand or from the builtin table.
    Runtime(&'static str),
    /// A `.pdata` boundary with no name available.
    Anon(u32),
}

/// A name as a value.
pub enum NameView {
    Gml(Seq<char>),
    Runtime(Seq<char>),
    Anon(u32),
}

impl Name {
    pub open spec fn view_of(&self) -> NameView {
        match self {
            Name::Gml(s) => NameView::Gml(s@),
            Name::Runtime(s) => NameView::Runtime(s@),
            Name::Anon(r) => NameView::Anon(*r),
        }
    }
}

/// How a name is written: the name itself, or `sub_` and the RVA in hex.
pub open spec fn render(n: NameView) -> Seq<char> {
    match n {
        NameView::Gml(s) => s,
        NameView::Runtime(s) => s,
        NameView::Anon(r) => "sub_"@ + hex_num(r as nat),
    }
}

/// The uninformative prefixes a GML name loses in a profile.
pub open spec fn shortened(name: Seq<char>) -> Seq<char> {
    if name.len() >= 11 && name.take(11) == "gml_Script_"@ {
        name.skip(11)
    } else if name.len() >= 17 && name.take(17) == "gml_GlobalScript_"@ {
        name.skip(17)
    } else if name.len() >= 11 && name.take(11) == "gml_Object_"@ {
        name.skip(11)
    } else {
        name
    }
}

/// Whether `name` starts with `prefix`.
fn starts_with(name: &Vec<char>, prefix: &Vec<char>) -> (r: bool)
    ensures
        r == (name@.len() >= prefix@.len() && name@.take(prefix@.len() as int) == prefix@),
{
    if name.len() < prefix.len() {
        return false;
    }
    let mut i: usize = 0;
    while i < prefix.len()
        invariant
            0 <= i <= prefix.len() <= name.len(),
            forall|j: int| 0 <= j < i ==> name@[j] == prefix@[j],
        decreases prefix.len() - i,
    {
        if name[i] != prefix[i] {
            assert(name@.take(prefix@.len() as int)[i as int] != prefix@[i as int]);
            return false;
        }
        i = i + 1;
    }
    assert(name@.take(prefix@.len() as int) =~= prefix@);
    true
}

/// `gml_Object_obj_unit_Step_0` reads better as `obj_unit_Step_0`: only the
/// uninformative prefixes go, and the `inner@outer` structure stays.
pub fn shorten(name: &str) -> (s: String)
    ensures
        s@ == shortened(name@),
{
    let cs = chars_of(name);
    let p1 = chars_of("gml_Script_");
    let p2 = chars_of("gml_GlobalScript_");
    let p3 = chars_of("gml_Object_");
    proof {
        reveal_strlit("gml_Script_");
        reveal_strlit("gml_GlobalScript_");
        reveal_strlit("gml_Object_");
    }
    let rest = if starts_with(&cs, &p1) {
        slice_of(&cs, p1.len(), cs.len())
    } else if starts_with(&cs, &p2) {
        slice_of(&cs, p2.len(), cs.len())
    } else if starts_with(&cs, &p3) {
        slice_of(&cs, p3.len(), cs.len())
    } else {
        return name.to_owned();
    };
    string_of(&rest)
}

/// A change made while building the table.
pub enum Edit {
    /// Name `.0` as `.1`, whatever it was.
    Name(u32, NameView),
    /// Name `.0` as `.1` only where it is an unnamed boundary.
    Fill(u32, NameView),
}

/// The table after one edit.
pub open spec fn apply(m: Map<u32, NameView>, e: Edit) -> Map<u32, NameView> {
    match e {
        Edit::Name(k, v) => m.insert(k, v),
        Edit::Fill(k, v) => if m.contains_key(k) && m[k] is Anon {
            m.insert(k, v)
        } else {
            m
        },
    }
}

/// The table after edits, in order.
pub open spec fn apply_all(m: Map<u32, NameView>, es: Seq<Edit>) -> Map<u32, NameView>
    decreases es.len(),
{
    if es.len() == 0 {
        m
    } else {
        apply(apply_all(m, es.drop_last()), es.last())
    }
}

/// The edits that build the table: every `.pdata` start unnamed, then the
/// game's own GML names, then the builtins where they land on an unnamed
/// boundary, then the hand-identified routines over everything.
pub open spec fn edits(
    pdata: Seq<(u32, u32)>,
    functions: Seq<(String, u32)>,
    builtins: Seq<(u32, &'static str)>,
    runtime: Seq<(u32, &'static str)>,
) -> Seq<Edit> {
    pdata.map_values(|p: (u32, u32)| Edit::Name(p.0, NameView::Anon(p.0))) + functions.map_values(
        |f: (String, u32)| Edit::Name(f.1, NameView::Gml(shortened(f.0@))),
    ) + builtins.map_values(|b: (u32, &'static str)| Edit::Fill(b.0, NameView::Runtime(b.1@)))
        + runtime.map_values(|b: (u32, &'static str)| Edit::Name(b.0, NameView::Runtime(b.1@)))
}

/// What a table of entries says, as a map.
pub open spec fn as_map(s: Seq<(u32, Name)>) -> Map<u32, NameView> {
    Map::new(|k: u32| lookup(s, k) is Some, |k: u32| lookup(s, k)->0.view_of())
}

/// What an address resolved to.
#[derive(Debug, Clone, Copy, PartialEq, Eq, Structural)]
pub struct Site {
    /// Start RVA of the enclosing function, which samples aggregate by.
    pub func: u32,
    pub offset: u32,
    pub inside: bool,
}

/// Address to name, for everything in the game's image.
pub struct Symbolizer {
    entries: RvaMap<Name>,
    ranges: RvaMap<u32>,
    size_of_image: u32,
}

impl Symbolizer {
    pub closed spec fn spec_entries(&self) -> Seq<(u32, Name)> {
        self.entries.spec_entries()
    }

    pub closed spec fn spec_ranges(&self) -> Seq<(u32, u32)> {
        self.ranges.spec_entries()
    }

    pub closed spec fn spec_size(&self) -> u32 {
        self.size_of_image
    }

    pub closed spec fn wf(&self) -> bool {
        self.entries.wf() && self.ranges.wf()
    }

    /// A well-formed table's function starts, and its `.pdata` range
    /// starts, are strictly increasing.
    pub proof fn lemma_tables_sorted(&self)
        requires
            self.wf(),
        ensures
            sorted_keys(self.spec_entries()),
            sorted_keys(self.spec_ranges()),
    {
        self.entries.lemma_sorted();
        self.ranges.lemma_sorted();
    }

    /// Build the table from the image's `.pdata` functions (`(begin, end)`
    /// RVAs), the game's own GML symbols, and the runtime's builtins.
    pub fn build(
        size_of_image: u32,
        pdata: &[(u32, u32)],
        functions: &StrMap,
        builtins: &[(u32, &'static str)],
    ) -> (s: Symbolizer)
        ensures
            s.wf(),
            s.spec_size() == size_of_image,
            as_map(s.spec_entries()) == apply_all(
                Map::empty(),
                edits(pdata@, functions.spec_entries(), builtins@, runtime_routines_view()),
            ),
            forall|k: u32| #[trigger] lookup(s.spec_ranges(), k) == range_end(pdata@, k),
    {
        let mut entries: RvaMap<Name> = RvaMap::new();
        let ghost mut es: Seq<Edit> = Seq::empty();
        let mut i: usize = 0;
        while i < pdata.len()
            invariant
                0 <= i <= pdata.len(),
                entries.wf(),
                es == pdata@.take(i as int).map_values(|p: (u32, u32)| Edit::Name(p.0, NameView::Anon(p.0))),
                as_map(entries.spec_entries()) == apply_all(Map::empty(), es),
            decreases pdata.len() - i,
        {
            let b = pdata[i].0;
            let ghost before = entries.spec_entries();
            entries.insert(b, Name::Anon(b));
            proof {
                lemma_set_step(before, entries.spec_entries(), b, Name::Anon(b));
                assert(pdata@.take(i + 1) =~= pdata@.take(i as int).push(pdata@[i as int]));
                let ghost old_es = es;
                es = es.push(Edit::Name(b, NameView::Anon(b)));
                assert(es.drop_last() =~= old_es);
                assert(es.drop_last() =~= pdata@.take(i as int).map_values(
                    |p: (u32, u32)| Edit::Name(p.0, NameView::Anon(p.0)),
                ));
            }
            i = i + 1;
        }
        let fs = functions.entries();
        let mut j: usize = 0;
        while j < fs.len()
            invariant
                0 <= j <= fs.len(),
                fs@ == functions.spec_entries(),
                entries.wf(),
                es == pdata@.map_values(|p: (u32, u32)| Edit::Name(p.0, NameView::Anon(p.0)))
                    + fs@.take(j as int).map_values(
                    |f: (String, u32)| Edit::Name(f.1, NameView::Gml(shortened(f.0@))),
                ),
                as_map(entries.spec_entries()) == apply_all(Map::empty(), es),
            decreases fs.len() - j,
        {
            let rva = fs[j].1;
            let short = shorten(fs[j].0.as_str());
            let ghost before = entries.spec_entries();
            let ghost v = NameView::Gml(short@);
            entries.insert(rva, Name::Gml(short));
            proof {
                lemma_set_step_view(before, entries.spec_entries(), rva, v);
                assert(fs@.take(j + 1) =~= fs@.take(j as int).push(fs@[j as int]));
                let ghost old_es = es;
                es = es.push(Edit::Name(rva, v));
                assert(es.drop_last() =~= old_es);
                assert(es =~= pdata@.map_values(|p: (u32, u32)| Edit::Name(p.0, NameView::Anon(p.0)))
                    + fs@.take(j + 1).map_values(
                    |f: (String, u32)| Edit::Name(f.1, NameView::Gml(shortened(f.0@))),
                ));
            }
            j = j + 1;
        }
        let mut k: usize = 0;
        while k < builtins.len()
            invariant
                0 <= k <= builtins.len(),
                entries.wf(),
                es == pdata@.map_values(|p: (u32, u32)| Edit::Name(p.0, NameView::Anon(p.0)))
                    + functions.spec_entries().map_values(
                    |f: (String, u32)| Edit::Name(f.1, NameView::Gml(shortened(f.0@))),
                ) + builtins@.take(k as int).map_values(
                    |b: (u32, &'static str)| Edit::Fill(b.0, NameView::Runtime(b.1@)),
                ),
                as_map(entries.spec_entries()) == apply_all(Map::empty(), es),
            decreases builtins.len() - k,
        {
            let (rva, name) = builtins[k];
            let ghost before = entries.spec_entries();
            let anon = match entries.get(rva) {
                Some(Name::Anon(_)) => true,
                _ => false,
            };
            if anon {
                entries.insert(rva, Name::Runtime(name));
                proof {
                    lemma_set_step(before, entries.spec_entries(), rva, Name::Runtime(name));
                }
            }
            proof {
                assert(builtins@.take(k + 1) =~= builtins@.take(k as int).push(builtins@[k as int]));
                let ghost old_es = es;
                es = es.push(Edit::Fill(rva, NameView::Runtime(name@)));
                assert(es.drop_last() =~= old_es);
                assert(es =~= pdata@.map_values(|p: (u32, u32)| Edit::Name(p.0, NameView::Anon(p.0)))
                    + functions.spec_entries().map_values(
                    |f: (String, u32)| Edit::Name(f.1, NameView::Gml(shortened(f.0@))),
                ) + builtins@.take(k + 1).map_values(
                    |b: (u32, &'static str)| Edit::Fill(b.0, NameView::Runtime(b.1@)),
                ));
                if !anon {
                    assert(as_map(entries.spec_entries()) =~= apply(as_map(before), Edit::Fill(rva, NameView::Runtime(name@))));
                }
            }
            k = k + 1;
        }
        let rt = runtime_routines();
        let mut m: usize = 0;
        while m < rt.len()
            invariant
                0 <= m <= rt.len(),
                entries.wf(),
                rt@ == runtime_routines_view(),
                es == pdata@.map_values(|p: (u32, u32)| Edit::Name(p.0, NameView::Anon(p.0)))
                    + functions.spec_entries().map_values(
                    |f: (String, u32)| Edit::Name(f.1, NameView::Gml(shortened(f.0@))),
                ) + builtins@.map_values(
                    |b: (u32, &'static str)| Edit::Fill(b.0, NameView::Runtime(b.1@)),
                ) + rt@.take(m as int).map_values(
                    |b: (u32, &'static str)| Edit::Name(b.0, NameView::Runtime(b.1@)),
                ),
                as_map(entries.spec_entries()) == apply_all(Map::empty(), es),
            decreases rt.len() - m,
        {
            let (rva, name) = rt[m];
            let ghost before = entries.spec_entries();
            entries.insert(rva, Name::Runtime(name));
            proof {
                lemma_set_step(before, entries.spec_entries(), rva, Name::Runtime(name));
                assert(rt@.take(m + 1) =~= rt@.take(m as int).push(rt@[m as int]));
                let ghost old_es = es;
                es = es.push(Edit::Name(rva, NameView::Runtime(name@)));
                assert(es.drop_last() =~= old_es);
                assert(es =~= pdata@.map_values(|p: (u32, u32)| Edit::Name(p.0, NameView::Anon(p.0)))
                    + functions.spec_entries().map_values(
                    |f: (String, u32)| Edit::Name(f.1, NameView::Gml(shortened(f.0@))),
                ) + builtins@.map_values(
                    |b: (u32, &'static str)| Edit::Fill(b.0, NameView::Runtime(b.1@)),
                ) + rt@.take(m + 1).map_values(
                    |b: (u32, &'static str)| Edit::Name(b.0, NameView::Runtime(b.1@)),
                ));
            }
            m = m + 1;
        }
        proof {
            assert(rt@.take(rt.len() as int) =~= rt@);
            assert(es =~= edits(pdata@, functions.spec_entries(), builtins@, runtime_routines_view()));
        }
        let mut ranges: RvaMap<u32> = RvaMap::new();
        let mut r: usize = 0;
        while r < pdata.len()
            invariant
                0 <= r <= pdata.len(),
                ranges.wf(),
                forall|x: u32| #[trigger] lookup(ranges.spec_entries(), x) == range_end(pdata@.take(r as int), x),
            decreases pdata.len() - r,
        {
            let (b, e) = pdata[r];
            ranges.insert(b, e);
            proof {
                assert(pdata@.take(r + 1).drop_last() =~= pdata@.take(r as int));
                assert(pdata@.take(r + 1).last() == (b, e));
            }
            r = r + 1;
        }
        assert(pdata@.take(pdata.len() as int) =~= pdata@);
        Symbolizer { entries, ranges, size_of_image }
    }

    /// Attribute a live address, given the module base: the function whose
    /// start is the nearest at or below it, and how far in.
    pub fn resolve(&self, base: usize, addr: usize) -> (s: Site)
        requires
            self.wf(),
        ensures
            (addr < base || addr >= base + self.spec_size()) ==> s == (Site { func: 0, offset: 0, inside: false }),
            (base <= addr < base + self.spec_size()) ==> match floor_index(
                self.spec_entries(),
                (addr - base) as u32,
            ) {
                None => s == (Site { func: 0, offset: 0, inside: false }),
                Some(i) => s == (Site {
                    func: self.spec_entries()[i].0,
                    offset: ((addr - base) - self.spec_entries()[i].0) as u32,
                    inside: true,
                }),
            },
            s.inside ==> base <= addr && lookup(self.spec_entries(), s.func) is Some && s.func <= addr - base
                && s.offset == addr - base - s.func && forall|j: int|
                0 <= j < self.spec_entries().len() ==> !(s.func < #[trigger] self.spec_entries()[j].0
                    <= addr - base),
    {
        proof {
            self.lemma_tables_sorted();
            crate::rvamap::lemma_floor_props(self.spec_entries(), (addr - base) as u32);
        }
        if addr < base || addr - base >= self.size_of_image as usize {
            return Site { func: 0, offset: 0, inside: false };
        }
        let rva = (addr - base) as u32;
        match self.entries.floor(rva) {
            None => Site { func: 0, offset: 0, inside: false },
            Some((start, _)) => Site { func: start, offset: rva - start, inside: true },
        }
    }

    /// Whether the function starting at `func` is compiled GML, as opposed
    /// to a runtime routine or an unnamed boundary.
    pub fn is_gml(&self, func: u32) -> (b: bool)
        requires
            self.wf(),
        ensures
            b == (lookup(self.spec_entries(), func) matches Some(n) && n is Gml),
    {
        match self.entries.get(func) {
            Some(Name::Gml(_)) => true,
            _ => false,
        }
    }

    /// The name of the function starting at `func`.
    pub fn name_of(&self, func: u32) -> (n: String)
        requires
            self.wf(),
        ensures
            n@ == (if func == 0 {
                "<outside the game>"@
            } else {
                match lookup(self.spec_entries(), func) {
                    Some(x) => render(x.view_of()),
                    None => "sub_"@ + hex_num(func as nat),
                }
            }),
    {
        if func == 0 {
            return "<outside the game>".to_owned();
        }
        match self.entries.get(func) {
            Some(Name::Gml(s)) => s.clone(),
            Some(Name::Runtime(s)) => (*s).to_owned(),
            Some(Name::Anon(rva)) => {
                let mut out = String::new();
                push_str(&mut out, "sub_");
                push_hex(&mut out, *rva as u64);
                out
            },
            None => {
                let mut out = String::new();
                push_str(&mut out, "sub_");
                push_hex(&mut out, func as u64);
                out
            },
        }
    }

    /// Whether `rva` falls inside a `.pdata` function, as opposed to merely
    /// after one.
    pub fn has_unwind_data(&self, rva: u32) -> (b: bool)
        requires
            self.wf(),
        ensures
            b == (match floor_index(self.spec_ranges(), rva) {
                Some(i) => rva < self.spec_ranges()[i].1 || self.spec_ranges()[i].0 == rva,
                None => false,
            }),
    {
        match self.ranges.floor(rva) {
            None => false,
            Some((b, e)) => b == rva || rva < *e,
        }
    }

    pub fn len(&self) -> (n: usize)
        ensures
            n == self.spec_entries().len(),
    {
        self.entries.len()
    }

    pub fn is_empty(&self) -> (b: bool)
        ensures
            b == (self.spec_entries().len() == 0),
    {
        self.entries.len() == 0
    }
}


/// Where the `.pdata` range starting at `k` ends, the last listed winning.
pub open spec fn range_end(p: Seq<(u32, u32)>, k: u32) -> Option<u32>
    decreases p.len(),
{
    if p.len() == 0 {
        None
    } else if p.last().0 == k {
        Some(p.last().1)
    } else {
        range_end(p.drop_last(), k)
    }
}

/// `.pdata` ranges as the image lists them for x86-64: each non-empty,
/// strictly ordered by start, none overlapping the next.
pub open spec fn pdata_ordered(p: Seq<(u32, u32)>) -> bool {
    &&& forall|i: int| 0 <= i < p.len() ==> (#[trigger] p[i]).0 < p[i].1
    &&& forall|i: int, j: int| 0 <= i < j < p.len() ==> (#[trigger] p[i]).1 <= (#[trigger] p[j]).0
}

proof fn lemma_range_end(p: Seq<(u32, u32)>, k: u32)
    requires
        pdata_ordered(p),
    ensures
        match range_end(p, k) {
            Some(e) => exists|m: int| 0 <= m < p.len() && (#[trigger] p[m]).0 == k && p[m].1 == e,
            None => forall|m: int| 0 <= m < p.len() ==> (#[trigger] p[m]).0 != k,
        },
        forall|m: int| 0 <= m < p.len() && (#[trigger] p[m]).0 == k ==> range_end(p, k) == Some(p[m].1),
    decreases p.len(),
{
    if p.len() > 0 {
        let d = p.drop_last();
        assert forall|i: int, j: int| 0 <= i < j < d.len() implies (#[trigger] d[i]).1 <= (#[trigger] d[j]).0 by {
            assert(d[i] == p[i] && d[j] == p[j]);
        }
        assert forall|i: int| 0 <= i < d.len() implies (#[trigger] d[i]).0 < d[i].1 by {
            assert(d[i] == p[i]);
        }
        lemma_range_end(d, k);
        let n = p.len() - 1;
        if p.last().0 == k {
            assert(p[n].0 == k);
            assert forall|m: int| 0 <= m < p.len() && (#[trigger] p[m]).0 == k implies range_end(p, k) == Some(p[m].1) by {
                if m < n {
                    assert(p[m].1 <= p[n].0);
                    assert(p[m].0 < p[m].1);
                }
            }
        } else {
            match range_end(d, k) {
                Some(e) => {
                    let m = choose|m: int| 0 <= m < d.len() && (#[trigger] d[m]).0 == k && d[m].1 == e;
                    assert(p[m] == d[m]);
                },
                None => {
                    assert forall|m: int| 0 <= m < p.len() implies (#[trigger] p[m]).0 != k by {
                        if m < n {
                            assert(p[m] == d[m]);
                        }
                    }
                },
            }
            assert forall|m: int| 0 <= m < p.len() && (#[trigger] p[m]).0 == k implies range_end(p, k) == Some(p[m].1) by {
                assert(m < n);
                assert(p[m] == d[m]);
            }
        }
    }
}

/// Over ordered `.pdata` ranges, a table built from them says an address
/// has unwind data exactly when one of the ranges covers it.
#[verifier::spinoff_prover]
#[verifier::rlimit(60)]
pub proof fn lemma_unwind_data_is_coverage(sym: Symbolizer, pdata: Seq<(u32, u32)>, rva: u32)
    requires
        sym.wf(),
        pdata_ordered(pdata),
        forall|k: u32| #[trigger] lookup(sym.spec_ranges(), k) == range_end(pdata, k),
    ensures
        (match floor_index(sym.spec_ranges(), rva) {
            Some(i) => rva < sym.spec_ranges()[i].1 || sym.spec_ranges()[i].0 == rva,
            None => false,
        }) == exists|j: int| 0 <= j < pdata.len() && (#[trigger] pdata[j]).0 <= rva < pdata[j].1,
{
    sym.lemma_tables_sorted();
    let r = sym.spec_ranges();
    crate::rvamap::lemma_floor_props(r, rva);
    let covered = exists|j: int| 0 <= j < pdata.len() && (#[trigger] pdata[j]).0 <= rva < pdata[j].1;
    if covered {
        let j = choose|j: int| 0 <= j < pdata.len() && (#[trigger] pdata[j]).0 <= rva < pdata[j].1;
        let b = pdata[j].0;
        lemma_range_end(pdata, b);
        assert(lookup(r, b) == Some(pdata[j].1));
        let i0 = choose|i: int| 0 <= i < r.len() && r[i].0 == b;
        crate::rvamap::lemma_lookup_at(r, i0);
        assert(r[i0].1 == pdata[j].1);
        assert(r[i0].0 <= rva);
        crate::rvamap::lemma_floor_props(r, rva);
        let i = floor_index(r, rva)->0;
        if i0 < i {
            let k = r[i].0;
            crate::rvamap::lemma_lookup_at(r, i);
            lemma_range_end(pdata, k);
            let m = choose|m: int| 0 <= m < pdata.len() && (#[trigger] pdata[m]).0 == k && pdata[m].1 == r[i].1;
            assert(b < k);
            if m < j {
                assert(pdata[m].1 <= pdata[j].0);
                assert(pdata[m].0 < pdata[m].1);
            } else {
                assert(m != j);
                assert(pdata[j].1 <= pdata[m].0);
            }
        } else if i0 > i {
            assert(r[i0].0 > rva);
        }
    } else {
        match floor_index(r, rva) {
            Some(i) => {
                let k = r[i].0;
                crate::rvamap::lemma_lookup_at(r, i);
                lemma_range_end(pdata, k);
                let m = choose|m: int| 0 <= m < pdata.len() && (#[trigger] pdata[m]).0 == k && pdata[m].1 == r[i].1;
                assert(!(pdata[m].0 <= rva < pdata[m].1));
            },
            None => {},
        }
    }
}

/// Inserting into the entries sets one key of their map.
proof fn lemma_set_step(before: Seq<(u32, Name)>, after: Seq<(u32, Name)>, k: u32, v: Name)
    requires
        forall|x: u32| #[trigger] lookup(after, x) == (if x == k {
            Some(v)
        } else {
            lookup(before, x)
        }),
    ensures
        as_map(after) == as_map(before).insert(k, v.view_of()),
{
    assert(as_map(after) =~= as_map(before).insert(k, v.view_of())) by {
        assert forall|x: u32| as_map(after).contains_key(x) == as_map(before).insert(k, v.view_of()).contains_key(x) by {
            assert(lookup(after, x) == (if x == k { Some(v) } else { lookup(before, x) }));
        }
        assert forall|x: u32| as_map(after).contains_key(x) implies as_map(after)[x] == as_map(before).insert(k, v.view_of())[x] by {
            assert(lookup(after, x) == (if x == k { Some(v) } else { lookup(before, x) }));
        }
    }
}

proof fn lemma_set_step_view(before: Seq<(u32, Name)>, after: Seq<(u32, Name)>, k: u32, v: NameView)
    requires
        forall|x: u32| #[trigger] lookup(after, x) == (if x == k {
            lookup(after, k)
        } else {
            lookup(before, x)
        }),
        lookup(after, k) matches Some(n) && n.view_of() == v,
    ensures
        as_map(after) == as_map(before).insert(k, v),
{
    assert(as_map(after) =~= as_map(before).insert(k, v)) by {
        assert forall|x: u32| as_map(after).contains_key(x) == as_map(before).insert(k, v).contains_key(x) by {
            assert(lookup(after, x) == (if x == k { lookup(after, k) } else { lookup(before, x) }));
        }
        assert forall|x: u32| as_map(after).contains_key(x) implies as_map(after)[x] == as_map(before).insert(k, v)[x] by {
            assert(lookup(after, x) == (if x == k { lookup(after, k) } else { lookup(before, x) }));
        }
    }
}

} // verus!
