//! Reading `ds_list` references without calling the game.
//!
//! A kind-15 RValue carries `{high dword = ref type, low dword = id}`; the id
//! indexes a table of containers held by the runtime. The runtime's own
//! accessors route through a validator that raises a fatal dialog on a bad
//! reference, and the accessors themselves are trivial:
//!
//! ```text
//! ds_list_size(l)      -> *(i32*)(l + 0x08)
//! ds_list_find_value   -> index bounds-checked against +0x08,
//!                         then *(RValue**)(l + 0x18) + index * 16
//! ```
//!
//! So the mod reads them directly, every hop validated.
use vstd::prelude::*;

use crate::probe::{answer, as_i32, get_answer, Access, Step};

verus! {

/// Ref-type tag of a `ds_list`.
pub const REF_DS_LIST: u32 = 0x0200_0001;

/// Ref-type tag of a `ds_map`.
pub const REF_DS_MAP: u32 = 0x0200_0002;

/// Where the `ds_list` table pointer lives, as an RVA.
pub const DS_LIST_TABLE_RVA: usize = 0x2affde8;

/// Where the `ds_list` count lives, as an RVA.
pub const DS_LIST_COUNT_RVA: usize = 0x2affdf0;

/// The element count's offset in a list.
pub const LIST_SIZE: usize = 0x08;

/// The element array pointer's offset in a list.
pub const LIST_ITEMS: usize = 0x18;

/// Absurd sizes are refused rather than walked.
pub const MAX_ELEMENTS: i32 = 100_000;

/// Split a kind-15 payload into its ref type and id.
pub fn split_ref(raw: u64) -> (r: (u32, i32))
    ensures
        r == ((raw >> 32u64) as u32, (raw as u32) as i32),
{
    ((raw >> 32u64) as u32, raw as u32 as i32)
}

/// A validated `ds_list`: where it is, how many elements, and where they are.
pub struct DsList {
    ptr: usize,
    len: i32,
    items: usize,
}

/// The lookup of list `id`, given the answers so far. See
/// [`DsList::from_id`].
pub open spec fn spec_list_lookup(base: usize, id: i32, a: Seq<Option<u64>>) -> Step<Option<(usize, i32, usize)>> {
    if base + DS_LIST_COUNT_RVA > usize::MAX || base + DS_LIST_TABLE_RVA > usize::MAX {
        Step::Done(None)
    } else {
        match answer(a, 0) {
            None => Step::Ask(Access::Value((base + DS_LIST_COUNT_RVA) as usize, 4)),
            Some(None) => Step::Done(None),
            Some(Some(c)) => {
                let count = as_i32(c);
                if id < 0 || count <= 0 || id >= count {
                    Step::Done(None)
                } else {
                    match answer(a, 1) {
                        None => Step::Ask(Access::Value((base + DS_LIST_TABLE_RVA) as usize, 8)),
                        Some(None) => Step::Done(None),
                        Some(Some(table)) => if table == 0 || table + id * 8 > usize::MAX {
                            Step::Done(None)
                        } else {
                            match answer(a, 2) {
                                None => Step::Ask(Access::Value((table + id * 8) as usize, 8)),
                                Some(None) => Step::Done(None),
                                Some(Some(slot)) => if slot == 0 || slot + LIST_ITEMS > usize::MAX {
                                    Step::Done(None)
                                } else {
                                    match answer(a, 3) {
                                        None => Step::Ask(Access::Value((slot + LIST_SIZE) as usize, 4)),
                                        Some(None) => Step::Done(None),
                                        Some(Some(l)) => {
                                            let len = as_i32(l);
                                            if len < 0 || len > MAX_ELEMENTS {
                                                Step::Done(None)
                                            } else {
                                                match answer(a, 4) {
                                                    None => Step::Ask(
                                                        Access::Value((slot + LIST_ITEMS) as usize, 8),
                                                    ),
                                                    Some(None) => Step::Done(None),
                                                    Some(Some(items)) => if len == 0 {
                                                        Step::Done(Some((slot as usize, len, items as usize)))
                                                    } else if items == 0 || items + len * 16 > usize::MAX {
                                                        Step::Done(None)
                                                    } else {
                                                        match answer(a, 5) {
                                                            None => Step::Ask(
                                                                Access::Readable(items as usize, (len * 16) as usize),
                                                            ),
                                                            Some(None) => Step::Done(None),
                                                            Some(Some(_)) => Step::Done(
                                                                Some((slot as usize, len, items as usize)),
                                                            ),
                                                        }
                                                    },
                                                }
                                            }
                                        },
                                    }
                                },
                            }
                        },
                    }
                }
            },
        }
    }
}

/// The list table holds one 8-byte pointer per list id: once the count
/// and the table pointer `t` are read, the lookup of list `id` reads the
/// 8 bytes at `t + 8 * id` -- so the lookups of lists `id` and `id + 1`
/// read adjacent entries.
pub proof fn lemma_reads_the_ids_table_entry(base: usize, id: i32, c: u64, t: u64)
    requires
        base + DS_LIST_TABLE_RVA <= usize::MAX,
        base + DS_LIST_COUNT_RVA <= usize::MAX,
        0 <= id < as_i32(c),
        t != 0,
        t + 8 * id <= usize::MAX,
    ensures
        spec_list_lookup(base, id, seq![Some(c), Some(t)]) == Step::<Option<(usize, i32, usize)>>::Ask(
            Access::Value((t + 8 * id) as usize, 8),
        ),
        id + 1 < as_i32(c) && t + 8 * (id + 1) <= usize::MAX ==> (spec_list_lookup(
            base,
            (id + 1) as i32,
            seq![Some(c), Some(t)],
        ) matches Step::Ask(Access::Value(a1, 8)) && a1 == t + 8 * id + 8),
{
    let a = seq![Some(c), Some(t)];
    assert(answer(a, 0) == Some(Some(c)));
    assert(answer(a, 1) == Some(Some(t)));
    assert(answer(a, 2) is None);
}

impl DsList {
    pub closed spec fn view_of(&self) -> (usize, i32, usize) {
        (self.ptr, self.len, self.items)
    }

    /// At most the element cap, and the elements lie within the address
    /// space.
    pub closed spec fn wf(&self) -> bool {
        0 <= self.len <= MAX_ELEMENTS && self.items + self.len * 16 <= usize::MAX
    }

    /// Resolve list `id`, given the answers to the reads asked for so far:
    /// the container count, the table, the container's slot, its size, and
    /// its element array -- each validated before the next hop is taken.
    pub fn from_id(base: usize, id: i32, answers: &[Option<u64>]) -> (r: Step<Option<DsList>>)
        ensures
            match r {
                Step::Ask(acc) => spec_list_lookup(base, id, answers@) == Step::<Option<(usize, i32, usize)>>::Ask(acc),
                Step::Done(None) => spec_list_lookup(base, id, answers@) == Step::<Option<(usize, i32, usize)>>::Done(None),
                Step::Done(Some(l)) => l.wf() && spec_list_lookup(base, id, answers@) == Step::Done(Some(l.view_of())),
            },
    {
        if base > usize::MAX - DS_LIST_COUNT_RVA || base > usize::MAX - DS_LIST_TABLE_RVA {
            return Step::Done(None);
        }
        let c = match get_answer(answers, 0) {
            None => return Step::Ask(Access::Value(base + DS_LIST_COUNT_RVA, 4)),
            Some(None) => return Step::Done(None),
            Some(Some(c)) => c,
        };
        let count = c as u32 as i32;
        if id < 0 || count <= 0 || id >= count {
            return Step::Done(None);
        }
        let table = match get_answer(answers, 1) {
            None => return Step::Ask(Access::Value(base + DS_LIST_TABLE_RVA, 8)),
            Some(None) => return Step::Done(None),
            Some(Some(t)) => t,
        };
        let off = (id as u64) * 8;
        if table == 0 || off > (usize::MAX as u64) || table > (usize::MAX as u64) - off {
            return Step::Done(None);
        }
        let slot = match get_answer(answers, 2) {
            None => return Step::Ask(Access::Value((table + off) as usize, 8)),
            Some(None) => return Step::Done(None),
            Some(Some(s)) => s,
        };
        if slot == 0 || slot > (usize::MAX as u64) - (LIST_ITEMS as u64) {
            return Step::Done(None);
        }
        let slot = slot as usize;
        let l = match get_answer(answers, 3) {
            None => return Step::Ask(Access::Value(slot + LIST_SIZE, 4)),
            Some(None) => return Step::Done(None),
            Some(Some(l)) => l,
        };
        let len = l as u32 as i32;
        if len < 0 || len > MAX_ELEMENTS {
            return Step::Done(None);
        }
        let items = match get_answer(answers, 4) {
            None => return Step::Ask(Access::Value(slot + LIST_ITEMS, 8)),
            Some(None) => return Step::Done(None),
            Some(Some(i)) => i,
        };
        if len == 0 {
            return Step::Done(Some(DsList { ptr: slot, len, items: items as usize }));
        }
        let span = (len as u64) * 16;
        if items == 0 || items > (usize::MAX as u64) - span {
            return Step::Done(None);
        }
        match get_answer(answers, 5) {
            None => Step::Ask(Access::Readable(items as usize, span as usize)),
            Some(None) => Step::Done(None),
            Some(Some(_)) => Step::Done(Some(DsList { ptr: slot, len, items: items as usize })),
        }
    }

    /// The elements of a well-formed list lie within the address space, at
    /// most `MAX_ELEMENTS` of them.
    pub proof fn lemma_elements_fit(&self)
        requires
            self.wf(),
        ensures
            0 <= self.view_of().1 <= MAX_ELEMENTS,
            self.view_of().2 + 16 * self.view_of().1 <= usize::MAX,
    {
    }

    pub fn len(&self) -> (n: usize)
        requires
            self.wf(),
        ensures
            n == self.view_of().1,
    {
        self.len as usize
    }

    pub fn is_empty(&self) -> (b: bool)
        ensures
            b == (self.view_of().1 == 0),
    {
        self.len == 0
    }

    /// The list's own address.
    pub fn ptr(&self) -> (p: usize)
        ensures
            p == self.view_of().0,
    {
        self.ptr
    }

    /// Address of element `i`, exactly as `ds_list_find_value` computes it;
    /// `None` past the end.
    pub fn element_addr(&self, i: usize) -> (r: Option<usize>)
        requires
            self.wf(),
        ensures
            r == (if i < self.view_of().1 {
                Some((self.view_of().2 + i * 16) as usize)
            } else {
                None::<usize>
            }),
            r matches Some(a) ==> a == self.view_of().2 + 16 * i,
    {
        if i < self.len as usize {
            Some(self.items + i * 16)
        } else {
            None
        }
    }
}

} // verus!
