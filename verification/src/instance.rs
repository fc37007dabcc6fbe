//! Finding a live object instance, using only reads.
//!
//! The runtime keeps a name-keyed object registry; each object record heads
//! a list of its instances. Walking them means following pointers through the
//! game's memory, and every hop is validated: a failure is a `None`, never a
//! wild pointer. Outside gameplay an object genuinely has no instance, so
//! `None` is an ordinary answer.
//!
//! ```text
//! registry = *(base + 0x2b011d8)   { void** buckets @0, i32 mask @8 }
//! object   = { char* name @0x00, list* instances @0x68, i32 index @0x94 }
//! list     = { next @0x00, CInstance* instance @0x10 }
//! instance = { vtable @0, CObjectGML* object @0x90, u32 flags @0xB8, i32 id @0xBC }
//! ```
use vstd::prelude::*;

use crate::probe::{answer, as_i32, get_answer, Access, Step};

verus! {

/// RVA of the object registry descriptor.
pub const OBJECT_REGISTRY_RVA: usize = 0x2b011d8;

/// An object record's name pointer.
pub const OBJ_NAME: usize = 0x00;
/// An object record's instance list.
pub const OBJ_INSTANCE_LIST: usize = 0x68;
/// An object record's own index.
pub const OBJ_INDEX: usize = 0x94;
/// An instance list node's next pointer.
pub const NODE_NEXT: usize = 0x00;
/// An instance list node's instance.
pub const NODE_INSTANCE: usize = 0x10;
/// An instance's back-pointer to its object.
pub const INST_OBJECT: usize = 0x90;
/// An instance's flags.
pub const INST_FLAGS: usize = 0xB8;
/// An instance's id.
pub const INST_ID: usize = 0xBC;

/// Set on a live instance.
pub const FLAG_ALIVE: u32 = 0x4;
/// Any of these set means the instance is going or gone.
pub const FLAG_DEAD: u32 = 0x0010_0003;
/// Instance ids start here.
pub const MIN_INSTANCE_ID: i32 = 100_000;

/// Guards against a corrupt registry sending a walk a long way.
pub const MAX_BUCKETS: i32 = 1_048_576;
pub const MAX_CHAIN: usize = 4096;

/// A registry whose bucket array is known and whose mask is sane.
pub struct Registry {
    pub buckets: usize,
    pub mask: i32,
}

/// Opening the registry, given the answers so far: the descriptor pointer,
/// then the bucket array and the mask it holds.
pub open spec fn spec_open(base: usize, a: Seq<Option<u64>>) -> Step<Option<(usize, i32)>> {
    if base + OBJECT_REGISTRY_RVA > usize::MAX {
        Step::Done(None)
    } else {
        match answer(a, 0) {
            None => Step::Ask(Access::Value((base + OBJECT_REGISTRY_RVA) as usize, 8)),
            Some(None) => Step::Done(None),
            Some(Some(desc)) => if desc == 0 || desc + 8 > usize::MAX {
                Step::Done(None)
            } else {
                match answer(a, 1) {
                    None => Step::Ask(Access::Value(desc as usize, 8)),
                    Some(None) => Step::Done(None),
                    Some(Some(buckets)) => match answer(a, 2) {
                        None => Step::Ask(Access::Value((desc + 8) as usize, 4)),
                        Some(None) => Step::Done(None),
                        Some(Some(m)) => {
                            let mask = as_i32(m);
                            if buckets == 0 || mask <= 0 || mask > MAX_BUCKETS {
                                Step::Done(None)
                            } else {
                                Step::Done(Some((buckets as usize, mask)))
                            }
                        },
                    },
                }
            },
        }
    }
}

impl Registry {
    /// Open the registry, given the answers to the reads asked for so far:
    /// refused when the descriptor is missing, the bucket array is null, or
    /// the mask is not a plausible size.
    pub fn open(base: usize, answers: &[Option<u64>]) -> (r: Step<Option<Registry>>)
        ensures
            match r {
                Step::Ask(acc) => spec_open(base, answers@) == Step::<Option<(usize, i32)>>::Ask(
                    acc,
                ),
                Step::Done(None) => spec_open(base, answers@) == Step::<
                    Option<(usize, i32)>,
                >::Done(None),
                Step::Done(Some(g)) => spec_open(base, answers@) == Step::Done(
                    Some((g.buckets, g.mask)),
                ),
            },
    {
        if base > usize::MAX - OBJECT_REGISTRY_RVA {
            return Step::Done(None);
        }
        let desc = match get_answer(answers, 0) {
            None => return Step::Ask(Access::Value(base + OBJECT_REGISTRY_RVA, 8)),
            Some(None) => return Step::Done(None),
            Some(Some(d)) => d,
        };
        if desc == 0 || desc > (usize::MAX as u64) - 8 {
            return Step::Done(None);
        }
        let buckets = match get_answer(answers, 1) {
            None => return Step::Ask(Access::Value(desc as usize, 8)),
            Some(None) => return Step::Done(None),
            Some(Some(b)) => b,
        };
        let m = match get_answer(answers, 2) {
            None => return Step::Ask(Access::Value((desc + 8) as usize, 4)),
            Some(None) => return Step::Done(None),
            Some(Some(m)) => m,
        };
        let mask = m as u32 as i32;
        if buckets == 0 || mask <= 0 || mask > MAX_BUCKETS {
            return Step::Done(None);
        }
        Step::Done(Some(Registry { buckets: buckets as usize, mask }))
    }
}

/// One registry entry, as far as a name lookup needs it: the object's index
/// and record, whether the record's name is the one looked for, and the
/// index the record itself holds, if it could be read.
#[derive(Debug, Clone, Copy, PartialEq, Eq, Structural)]
pub struct Candidate {
    pub index: i32,
    pub obj: usize,
    pub name_matches: bool,
    pub own_index: Option<i32>,
}

/// The first entry whose name matches, if any.
pub open spec fn first_named(c: Seq<Candidate>) -> Option<int> {
    if exists|i: int| 0 <= i < c.len() && c[i].name_matches {
        Some(choose|i: int| 0 <= i < c.len() && c[i].name_matches && forall|j: int| 0 <= j < i ==> !c[j].name_matches)
    } else {
        None
    }
}

/// The object a name lookup settles on: the first entry with the name,
/// provided its record agrees about its own index -- one that disagrees means
/// the layout is not what it was taken to be, and the answer is none.
pub fn find_in(all: &[Candidate]) -> (r: Option<(i32, usize)>)
    ensures
        r == (match first_named(all@) {
            Some(k) => if all@[k].own_index == Some(all@[k].index) {
                Some((all@[k].index, all@[k].obj))
            } else {
                None
            },
            None => None,
        }),
{
    let mut i: usize = 0;
    while i < all.len()
        invariant
            0 <= i <= all.len(),
            forall|j: int| 0 <= j < i ==> !all@[j].name_matches,
        decreases all.len() - i,
    {
        let c = all[i];
        if c.name_matches {
            proof {
                let k = choose|k: int|
                    0 <= k < all@.len() && all@[k].name_matches && forall|j: int|
                        0 <= j < k ==> !all@[j].name_matches;
                if k < i {
                    assert(!all@[k].name_matches);
                } else if k > i {
                    assert(!all@[i as int].name_matches);
                }
            }
            return if c.own_index == Some(c.index) {
                Some((c.index, c.obj))
            } else {
                None
            };
        }
        i = i + 1;
    }
    None
}

/// Below this many registry entries the registry is not yet populated, and
/// a name not found in it is not remembered as absent.
pub const POPULATED: usize = 100;

/// Whether a lookup's answer is worth remembering: a hit always is; a miss
/// only once the registry is clearly populated, so a lookup made too early
/// cannot poison the cache for the session.
pub open spec fn worth_keeping(found: bool, entries: usize) -> bool {
    found || entries > POPULATED
}

/// What was cached for `name`, latest first.
pub open spec fn cached(e: Seq<(Seq<char>, Option<(i32, usize)>)>, name: Seq<char>) -> Option<
    Option<(i32, usize)>,
>
    decreases e.len(),
{
    if e.len() == 0 {
        None
    } else if e.last().0 == name {
        Some(e.last().1)
    } else {
        cached(e.drop_last(), name)
    }
}

/// Object lookups already made: a walk of the whole registry per lookup per
/// poll made the game unplayable. Object records are created at load and
/// do not move; a cached hit is still re-checked against the record before
/// it is trusted.
pub struct ObjectCache {
    entries: Vec<(String, Option<(i32, usize)>)>,
}

impl View for ObjectCache {
    type V = Seq<(Seq<char>, Option<(i32, usize)>)>;

    closed spec fn view(&self) -> Seq<(Seq<char>, Option<(i32, usize)>)> {
        Seq::new(self.entries@.len(), |i: int| (self.entries@[i].0@, self.entries@[i].1))
    }
}

impl ObjectCache {
    /// Nothing cached.
    pub fn new() -> (c: ObjectCache)
        ensures
            forall|n: Seq<char>| cached(c@, n) is None,
    {
        let c = ObjectCache { entries: Vec::new() };
        assert forall|n: Seq<char>| cached(c@, n) is None by {
            assert(c@.len() == 0);
        }
        c
    }

    /// What was cached for `name`: `None` when nothing was, `Some(None)` for
    /// a name known not to be an object, `Some(Some(..))` for a hit to
    /// re-check.
    pub fn lookup(&self, name: &str) -> (r: Option<Option<(i32, usize)>>)
        ensures
            r == cached(self@, name@),
    {
        let mut i: usize = self.entries.len();
        assert(self@.subrange(0, i as int) =~= self@);
        while i > 0
            invariant
                0 <= i <= self.entries.len(),
                self@.len() == self.entries.len(),
                cached(self@, name@) == cached(self@.subrange(0, i as int), name@),
            decreases i,
        {
            let ghost pre = self@.subrange(0, i as int);
            proof {
                assert(pre.drop_last() =~= self@.subrange(0, i - 1));
                assert(pre.last() == self@[i - 1]);
            }
            if crate::text::str_eq(self.entries[i - 1].0.as_str(), name) {
                return Some(self.entries[i - 1].1);
            }
            i = i - 1;
        }
        assert(self@.subrange(0, 0).len() == 0);
        None
    }

    /// Remember what a lookup of `name` found among `entries` registry
    /// entries, if it is worth keeping.
    pub fn record(&mut self, name: &str, found: Option<(i32, usize)>, entries: usize)
        ensures
            worth_keeping(found is Some, entries) ==> cached(final(self)@, name@) == Some(found),
            worth_keeping(found is Some, entries) ==> forall|n: Seq<char>|
                n != name@ ==> cached(final(self)@, n) == cached(old(self)@, n),
            !worth_keeping(found is Some, entries) ==> final(self)@ == old(self)@,
    {
        if found.is_some() || entries > POPULATED {
            self.entries.push((name.to_string(), found));
            proof {
                assert(self@ =~= old(self)@.push((name@, found)));
                assert(self@.drop_last() =~= old(self)@);
            }
        }
    }
}

// ------------------------------------------------------------ instance lists

/// Where an instance-list walk is.
#[derive(Debug, Clone, Copy, PartialEq, Eq, Structural)]
pub enum Phase {
    /// Reading the object's list head.
    Head,
    /// Reading the current node's instance.
    Instance,
    /// Checking that instance, at check `.1` (0 to 5); `.2` is its vtable
    /// once read.
    Live(usize, u8, usize),
    /// Reading the current node's next pointer.
    Next,
    /// Finished.
    Over,
}

/// An instance-list walk as contracts see it.
pub struct WalkView {
    pub obj: usize,
    pub first_only: bool,
    pub node: usize,
    pub hops: usize,
    pub phase: Phase,
    pub found: Seq<usize>,
}

/// A walk over an object's instance list, collecting the live instances, or
/// stopping at the first of them.
///
/// The walk is driven from outside: ask it what to read, read it, and feed
/// it the answer, until it asks nothing more.
pub struct InstanceWalk {
    obj: usize,
    first_only: bool,
    node: usize,
    hops: usize,
    phase: Phase,
    found: Vec<usize>,
}

impl View for InstanceWalk {
    type V = WalkView;

    closed spec fn view(&self) -> WalkView {
        WalkView {
            obj: self.obj,
            first_only: self.first_only,
            node: self.node,
            hops: self.hops,
            phase: self.phase,
            found: self.found@,
        }
    }
}

/// The walk at a list node: go on while the node is real and the hop limit
/// is not reached.
pub open spec fn at_node(w: WalkView, node: usize, hops: usize) -> WalkView {
    if node != 0 && hops < MAX_CHAIN && node + NODE_INSTANCE <= usize::MAX {
        WalkView { node, hops, phase: Phase::Instance, ..w }
    } else {
        WalkView { node, hops, phase: Phase::Over, ..w }
    }
}

/// The walk once the instance at the current node is judged: a live one is
/// taken, and ends a first-only walk; otherwise the walk moves on.
pub open spec fn judged(w: WalkView, inst: usize, live: bool) -> WalkView {
    if live && w.first_only {
        WalkView { phase: Phase::Over, found: seq![inst], ..w }
    } else if live {
        WalkView { phase: Phase::Next, found: w.found.push(inst), ..w }
    } else {
        WalkView { phase: Phase::Next, ..w }
    }
}

/// Whether a flags word says alive and not dying.
pub open spec fn flags_alive(f: u32) -> bool {
    f & FLAG_ALIVE != 0 && f & FLAG_DEAD == 0
}

/// What the walk asks to read next; nothing once it is over.
pub open spec fn walk_ask(w: WalkView) -> Option<Access> {
    match w.phase {
        Phase::Head => Some(Access::Value((w.obj + OBJ_INSTANCE_LIST) as usize, 8)),
        Phase::Instance => Some(Access::Value((w.node + NODE_INSTANCE) as usize, 8)),
        Phase::Live(inst, k, vt) => if k == 0 {
            Some(Access::Readable(inst, (INST_ID + 4) as usize))
        } else if k == 1 {
            Some(Access::Value((inst + INST_FLAGS) as usize, 4))
        } else if k == 2 {
            Some(Access::Value((inst + INST_OBJECT) as usize, 8))
        } else if k == 3 {
            Some(Access::Value((inst + INST_ID) as usize, 4))
        } else if k == 4 {
            Some(Access::Value(inst, 8))
        } else {
            Some(Access::Readable((vt + 0x10) as usize, 8))
        },
        Phase::Next => Some(Access::Value((w.node + NODE_NEXT) as usize, 8)),
        Phase::Over => None,
    }
}

/// The walk after the answer `a` to what it asked.
///
/// An instance counts as live only if four independent checks agree: its
/// flags say alive and not dying, it points back at the object, its id is a
/// real instance id, and it has a plausible vtable. A node whose instance
/// slot is null is the sentinel tail; one whose slot cannot be read ends a
/// full walk, and is passed over by a first-only one. A next pointer that
/// cannot be read ends the list.
pub open spec fn walk_feed(w: WalkView, a: Option<u64>) -> WalkView {
    match w.phase {
        Phase::Head => match a {
            None => WalkView { phase: Phase::Over, ..w },
            Some(n) => at_node(w, n as usize, 0),
        },
        Phase::Instance => match a {
            None => if w.first_only {
                WalkView { phase: Phase::Next, ..w }
            } else {
                WalkView { phase: Phase::Over, ..w }
            },
            Some(i) => if i == 0 {
                WalkView { phase: Phase::Over, ..w }
            } else if (i as usize) + INST_ID + 4 > usize::MAX {
                judged(w, i as usize, false)
            } else {
                WalkView { phase: Phase::Live(i as usize, 0, 0), ..w }
            },
        },
        Phase::Live(inst, k, vt) => if k == 0 {
            match a {
                None => judged(w, inst, false),
                Some(_) => WalkView { phase: Phase::Live(inst, 1, 0), ..w },
            }
        } else if k == 1 {
            match a {
                Some(f) if flags_alive(f as u32) => WalkView { phase: Phase::Live(inst, 2, 0), ..w },
                _ => judged(w, inst, false),
            }
        } else if k == 2 {
            if a == Some(w.obj as u64) {
                WalkView { phase: Phase::Live(inst, 3, 0), ..w }
            } else {
                judged(w, inst, false)
            }
        } else if k == 3 {
            match a {
                Some(id) if as_i32(id) >= MIN_INSTANCE_ID => WalkView {
                    phase: Phase::Live(inst, 4, 0),
                    ..w
                },
                _ => judged(w, inst, false),
            }
        } else if k == 4 {
            match a {
                Some(v) if v != 0 && (v as usize) + 0x10 <= usize::MAX => WalkView {
                    phase: Phase::Live(inst, 5, v as usize),
                    ..w
                },
                _ => judged(w, inst, false),
            }
        } else {
            judged(w, inst, a is Some)
        },
        Phase::Next => at_node(
            w,
            match a {
                Some(n) => n as usize,
                None => 0,
            },
            (w.hops + 1) as usize,
        ),
        Phase::Over => w,
    }
}

/// The walk's shape: the hop count stays under the limit while the walk
/// goes on, a liveness check is at one of its six steps, and a first-only
/// walk has found nothing until it ends, and at most one thing then.
pub open spec fn walk_wf(w: WalkView) -> bool {
    &&& w.obj + OBJ_INSTANCE_LIST <= usize::MAX
    &&& (w.phase == Phase::Head ==> w.hops == 0)
    &&& (w.phase != Phase::Head && w.phase != Phase::Over ==> w.hops < MAX_CHAIN && w.node
        + NODE_INSTANCE <= usize::MAX)
    &&& (w.phase matches Phase::Live(inst, k, vt) ==> k <= 5 && inst + INST_ID + 4 <= usize::MAX
        && (k == 5 ==> vt + 0x10 <= usize::MAX))
    &&& (w.first_only && w.phase != Phase::Over ==> w.found.len() == 0)
    &&& (w.first_only ==> w.found.len() <= 1)
}

/// How much of the walk can be left, at most: each answer takes it down.
pub open spec fn walk_measure(w: WalkView) -> int {
    match w.phase {
        Phase::Head => (MAX_CHAIN as int) * 8 + 9,
        Phase::Instance => (MAX_CHAIN - w.hops) * 8 + 8,
        Phase::Live(_, k, _) => (MAX_CHAIN - w.hops) * 8 + 7 - k,
        Phase::Next => (MAX_CHAIN - w.hops) * 8 + 1,
        Phase::Over => 0,
    }
}

impl InstanceWalk {
    /// A walk over the instances of the object at `obj`; `first_only` stops
    /// it at the first live one. An object whose list cannot lie in the
    /// address space has no instances to walk.
    pub fn new(obj: usize, first_only: bool) -> (w: InstanceWalk)
        ensures
            obj + OBJ_INSTANCE_LIST <= usize::MAX ==> w@ == (WalkView {
                obj,
                first_only,
                node: 0,
                hops: 0,
                phase: Phase::Head,
                found: Seq::empty(),
            }),
            obj + OBJ_INSTANCE_LIST > usize::MAX ==> w@.phase == Phase::Over && w@.found.len()
                == 0,
            walk_wf(w@) || w@.phase == Phase::Over,
    {
        let phase = if obj > usize::MAX - OBJ_INSTANCE_LIST {
            Phase::Over
        } else {
            Phase::Head
        };
        InstanceWalk { obj, first_only, node: 0, hops: 0, phase, found: Vec::new() }
    }

    /// What to read next; nothing once the walk is over.
    pub fn ask(&self) -> (r: Option<Access>)
        requires
            walk_wf(self@) || self@.phase == Phase::Over,
        ensures
            r == walk_ask(self@),
    {
        match self.phase {
            Phase::Head => Some(Access::Value(self.obj + OBJ_INSTANCE_LIST, 8)),
            Phase::Instance => Some(Access::Value(self.node + NODE_INSTANCE, 8)),
            Phase::Live(inst, k, vt) => if k == 0 {
                Some(Access::Readable(inst, INST_ID + 4))
            } else if k == 1 {
                Some(Access::Value(inst + INST_FLAGS, 4))
            } else if k == 2 {
                Some(Access::Value(inst + INST_OBJECT, 8))
            } else if k == 3 {
                Some(Access::Value(inst + INST_ID, 4))
            } else if k == 4 {
                Some(Access::Value(inst, 8))
            } else {
                Some(Access::Readable(vt + 0x10, 8))
            },
            Phase::Next => Some(Access::Value(self.node + NODE_NEXT, 8)),
            Phase::Over => None,
        }
    }

    fn goto_node(&mut self, node: usize, hops: usize)
        ensures
            final(self)@ == at_node(old(self)@, node, hops),
    {
        self.node = node;
        self.hops = hops;
        self.phase = if node != 0 && hops < MAX_CHAIN && node <= usize::MAX - NODE_INSTANCE {
            Phase::Instance
        } else {
            Phase::Over
        };
    }

    fn judge(&mut self, inst: usize, live: bool)
        ensures
            final(self)@ == judged(old(self)@, inst, live),
    {
        if live && self.first_only {
            self.found = Vec::new();
            self.found.push(inst);
            self.phase = Phase::Over;
            proof {
                assert(self.found@ =~= seq![inst]);
            }
        } else if live {
            self.found.push(inst);
            self.phase = Phase::Next;
        } else {
            self.phase = Phase::Next;
        }
    }

    /// Feed the walk the answer to what it asked: the value read, or `None`
    /// when it could not be read. A walk that is over ignores it.
    pub fn feed(&mut self, a: Option<u64>)
        requires
            walk_wf(old(self)@) || old(self)@.phase == Phase::Over,
        ensures
            final(self)@ == walk_feed(old(self)@, a),
    {
        match self.phase {
            Phase::Head => match a {
                None => {
                    self.phase = Phase::Over;
                },
                Some(n) => self.goto_node(n as usize, 0),
            },
            Phase::Instance => match a {
                None => {
                    self.phase = if self.first_only {
                        Phase::Next
                    } else {
                        Phase::Over
                    };
                },
                Some(i) => {
                    if i == 0 {
                        self.phase = Phase::Over;
                    } else if (i as usize) > usize::MAX - (INST_ID + 4) {
                        self.judge(i as usize, false);
                    } else {
                        self.phase = Phase::Live(i as usize, 0, 0);
                    }
                },
            },
            Phase::Live(inst, k, vt) => {
                if k == 0 {
                    match a {
                        None => self.judge(inst, false),
                        Some(_) => {
                            self.phase = Phase::Live(inst, 1, 0);
                        },
                    }
                } else if k == 1 {
                    match a {
                        Some(f) => {
                            let flags = f as u32;
                            if flags & FLAG_ALIVE != 0 && flags & FLAG_DEAD == 0 {
                                self.phase = Phase::Live(inst, 2, 0);
                            } else {
                                self.judge(inst, false);
                            }
                        },
                        None => self.judge(inst, false),
                    }
                } else if k == 2 {
                    if a == Some(self.obj as u64) {
                        self.phase = Phase::Live(inst, 3, 0);
                    } else {
                        self.judge(inst, false);
                    }
                } else if k == 3 {
                    match a {
                        Some(id) => {
                            if id as u32 as i32 >= MIN_INSTANCE_ID {
                                self.phase = Phase::Live(inst, 4, 0);
                            } else {
                                self.judge(inst, false);
                            }
                        },
                        None => self.judge(inst, false),
                    }
                } else if k == 4 {
                    match a {
                        Some(v) => {
                            if v != 0 && (v as usize) <= usize::MAX - 0x10 {
                                self.phase = Phase::Live(inst, 5, v as usize);
                            } else {
                                self.judge(inst, false);
                            }
                        },
                        None => self.judge(inst, false),
                    }
                } else {
                    self.judge(inst, a.is_some());
                }
            },
            Phase::Next => {
                let n: usize = match a {
                    Some(n) => n as usize,
                    None => 0,
                };
                self.goto_node(n, self.hops + 1);
            },
            Phase::Over => {},
        }
    }

    /// Whether the walk is over.
    pub fn over(&self) -> (r: bool)
        ensures
            r == (self@.phase == Phase::Over),
    {
        match self.phase {
            Phase::Over => true,
            _ => false,
        }
    }

    /// The live instances found, in list order.
    pub fn found(&self) -> (r: &Vec<usize>)
        ensures
            r@ == self@.found,
    {
        &self.found
    }
}

/// Every answer takes a walk closer to its end and keeps its shape, so a
/// walk ends however the memory answers: after at most `8 * MAX_CHAIN + 9`
/// reads.
pub proof fn lemma_walk_ends(w: WalkView, a: Option<u64>)
    requires
        walk_wf(w),
        w.phase != Phase::Over,
    ensures
        walk_wf(walk_feed(w, a)) || walk_feed(w, a).phase == Phase::Over,
        0 <= walk_measure(walk_feed(w, a)) < walk_measure(w),
        walk_measure(w) <= 8 * MAX_CHAIN + 9,
{
}

/// A first-only walk finds at most one instance.
pub proof fn lemma_first_only_finds_one(w: WalkView, a: Option<u64>)
    requires
        walk_wf(w),
        w.first_only,
    ensures
        walk_feed(w, a).found.len() <= 1,
{
}

// ------------------------------------------------------------ instance ids

/// RVA of the instance-id hash's bucket array pointer.
pub const INSTANCE_HASH_RVA: usize = 0x2974450;
/// RVA of the instance-id hash's mask.
pub const INSTANCE_MASK_RVA: usize = 0x2974458;
/// A hash node's next pointer.
pub const IHASH_NEXT: usize = 0x08;
/// A hash node's instance id.
pub const IHASH_ID: usize = 0x10;
/// A hash node's instance.
pub const IHASH_INSTANCE: usize = 0x18;

/// Where an id lookup is.
#[derive(Debug, Clone, Copy, PartialEq, Eq, Structural)]
pub enum IdPhase {
    /// Reading the bucket array pointer.
    Buckets,
    /// Reading the mask; the bucket array is known.
    Mask(usize),
    /// Reading the head of the chain in this slot.
    Head(usize),
    /// Reading the current node's id.
    Key,
    /// Reading the current node's instance.
    Instance,
    /// Checking the instance can be read.
    Readable(usize),
    /// Reading the instance's own id.
    OwnId(usize),
    /// Reading the current node's next pointer.
    Next,
    /// Finished, with the instance found, if any.
    Over(Option<usize>),
}

/// An id lookup as contracts see it.
pub struct IdWalkView {
    pub base: usize,
    pub id: i32,
    pub node: usize,
    pub hops: usize,
    pub phase: IdPhase,
}

/// Resolving an instance id to its live instance through the runtime's own
/// id hash. Instance references carry an id, not a pointer, so pressing the
/// button a card refers to means resolving the id first. Driven from outside
/// like [`InstanceWalk`].
pub struct IdWalk {
    base: usize,
    id: i32,
    node: usize,
    hops: usize,
    phase: IdPhase,
}

impl View for IdWalk {
    type V = IdWalkView;

    closed spec fn view(&self) -> IdWalkView {
        IdWalkView { base: self.base, id: self.id, node: self.node, hops: self.hops, phase: self.phase }
    }
}

/// The lookup at a chain node: go on while the node is real and the hop
/// limit is not reached; otherwise the id is not there.
pub open spec fn id_at_node(w: IdWalkView, node: usize, hops: usize) -> IdWalkView {
    if node != 0 && hops < MAX_CHAIN && node + IHASH_INSTANCE <= usize::MAX {
        IdWalkView { node, hops, phase: IdPhase::Key, ..w }
    } else {
        IdWalkView { node, hops, phase: IdPhase::Over(None), ..w }
    }
}

/// What the lookup asks to read next; nothing once it is over.
pub open spec fn id_ask(w: IdWalkView) -> Option<Access> {
    match w.phase {
        IdPhase::Buckets => Some(Access::Value((w.base + INSTANCE_HASH_RVA) as usize, 8)),
        IdPhase::Mask(_) => Some(Access::Value((w.base + INSTANCE_MASK_RVA) as usize, 4)),
        IdPhase::Head(slot) => Some(Access::Value(slot, 8)),
        IdPhase::Key => Some(Access::Value((w.node + IHASH_ID) as usize, 4)),
        IdPhase::Instance => Some(Access::Value((w.node + IHASH_INSTANCE) as usize, 8)),
        IdPhase::Readable(inst) => Some(Access::Readable(inst, (INST_ID + 4) as usize)),
        IdPhase::OwnId(inst) => Some(Access::Value((inst + INST_ID) as usize, 4)),
        IdPhase::Next => Some(Access::Value((w.node + IHASH_NEXT) as usize, 8)),
        IdPhase::Over(_) => None,
    }
}

/// The slot address for `id` in a bucket array at `buckets` with `mask`, if
/// it lies in the address space.
pub open spec fn slot_of(buckets: usize, id: i32, mask: i32) -> Option<usize> {
    let slot = (id & mask) as usize;
    if buckets + slot * 16 <= usize::MAX {
        Some((buckets + slot * 16) as usize)
    } else {
        None
    }
}

/// The lookup after the answer `a` to what it asked.
///
/// The node carrying the id settles it: its instance is the answer only if
/// the instance is readable and agrees that it has this id, so a dead or
/// recycled id yields nothing rather than a stale pointer.
pub open spec fn id_feed(w: IdWalkView, a: Option<u64>) -> IdWalkView {
    match w.phase {
        IdPhase::Buckets => match a {
            None => IdWalkView { phase: IdPhase::Over(None), ..w },
            Some(b) => IdWalkView { phase: IdPhase::Mask(b as usize), ..w },
        },
        IdPhase::Mask(b) => match a {
            None => IdWalkView { phase: IdPhase::Over(None), ..w },
            Some(m) => {
                let mask = as_i32(m);
                if b == 0 || mask <= 0 {
                    IdWalkView { phase: IdPhase::Over(None), ..w }
                } else {
                    match slot_of(b, w.id, mask) {
                        Some(s) => IdWalkView { phase: IdPhase::Head(s), ..w },
                        None => IdWalkView { phase: IdPhase::Over(None), ..w },
                    }
                }
            },
        },
        IdPhase::Head(_) => match a {
            None => IdWalkView { phase: IdPhase::Over(None), ..w },
            Some(n) => id_at_node(w, n as usize, 0),
        },
        IdPhase::Key => if a.is_some() && as_i32(a.unwrap()) == w.id {
            IdWalkView { phase: IdPhase::Instance, ..w }
        } else {
            IdWalkView { phase: IdPhase::Next, ..w }
        },
        IdPhase::Instance => match a {
            Some(i) if i != 0 && (i as usize) + INST_ID + 4 <= usize::MAX => IdWalkView {
                phase: IdPhase::Readable(i as usize),
                ..w
            },
            _ => IdWalkView { phase: IdPhase::Over(None), ..w },
        },
        IdPhase::Readable(inst) => match a {
            Some(_) => IdWalkView { phase: IdPhase::OwnId(inst), ..w },
            None => IdWalkView { phase: IdPhase::Over(None), ..w },
        },
        IdPhase::OwnId(inst) => if a.is_some() && as_i32(a.unwrap()) == w.id {
            IdWalkView { phase: IdPhase::Over(Some(inst)), ..w }
        } else {
            IdWalkView { phase: IdPhase::Over(None), ..w }
        },
        IdPhase::Next => id_at_node(
            w,
            match a {
                Some(n) => n as usize,
                None => 0,
            },
            (w.hops + 1) as usize,
        ),
        IdPhase::Over(_) => w,
    }
}

/// The lookup's shape: the reads it asks for lie in the address space, and
/// the hop count stays under the limit while it walks the chain.
pub open spec fn id_wf(w: IdWalkView) -> bool {
    &&& w.base + INSTANCE_HASH_RVA <= usize::MAX
    &&& w.base + INSTANCE_MASK_RVA <= usize::MAX
    &&& (w.phase == IdPhase::Key || w.phase == IdPhase::Instance || w.phase == IdPhase::Next
        ==> w.hops < MAX_CHAIN && w.node + IHASH_INSTANCE <= usize::MAX)
    &&& (w.phase matches IdPhase::Readable(i) ==> i + INST_ID + 4 <= usize::MAX)
    &&& (w.phase matches IdPhase::OwnId(i) ==> i + INST_ID + 4 <= usize::MAX)
    &&& (w.phase == IdPhase::Buckets || w.phase is Mask || w.phase is Head ==> w.hops == 0)
}

/// How much of the lookup can be left, at most.
pub open spec fn id_measure(w: IdWalkView) -> int {
    match w.phase {
        IdPhase::Buckets => (MAX_CHAIN as int) * 3 + 6,
        IdPhase::Mask(_) => (MAX_CHAIN as int) * 3 + 5,
        IdPhase::Head(_) => (MAX_CHAIN as int) * 3 + 4,
        IdPhase::Key => (MAX_CHAIN - w.hops) * 3 + 3,
        IdPhase::Instance => 3,
        IdPhase::Readable(_) => 2,
        IdPhase::OwnId(_) => 1,
        IdPhase::Next => (MAX_CHAIN - w.hops) * 3 + 1,
        IdPhase::Over(_) => 0,
    }
}

impl IdWalk {
    /// A lookup of instance `id`. An id below the first instance id names no
    /// instance, and the lookup is over before it starts.
    pub fn new(base: usize, id: i32) -> (w: IdWalk)
        ensures
            w@.base == base,
            w@.id == id,
            w@.hops == 0,
            w@.phase == (if id < MIN_INSTANCE_ID || base + INSTANCE_MASK_RVA > usize::MAX {
                IdPhase::Over(None)
            } else {
                IdPhase::Buckets
            }),
            id_wf(w@) || w@.phase is Over,
    {
        let phase = if id < MIN_INSTANCE_ID || base > usize::MAX - INSTANCE_MASK_RVA {
            IdPhase::Over(None)
        } else {
            IdPhase::Buckets
        };
        IdWalk { base, id, node: 0, hops: 0, phase }
    }

    /// What to read next; nothing once the lookup is over.
    pub fn ask(&self) -> (r: Option<Access>)
        requires
            id_wf(self@) || self@.phase is Over,
        ensures
            r == id_ask(self@),
    {
        match self.phase {
            IdPhase::Buckets => Some(Access::Value(self.base + INSTANCE_HASH_RVA, 8)),
            IdPhase::Mask(_) => Some(Access::Value(self.base + INSTANCE_MASK_RVA, 4)),
            IdPhase::Head(slot) => Some(Access::Value(slot, 8)),
            IdPhase::Key => Some(Access::Value(self.node + IHASH_ID, 4)),
            IdPhase::Instance => Some(Access::Value(self.node + IHASH_INSTANCE, 8)),
            IdPhase::Readable(inst) => Some(Access::Readable(inst, INST_ID + 4)),
            IdPhase::OwnId(inst) => Some(Access::Value(inst + INST_ID, 4)),
            IdPhase::Next => Some(Access::Value(self.node + IHASH_NEXT, 8)),
            IdPhase::Over(_) => None,
        }
    }

    fn goto_node(&mut self, node: usize, hops: usize)
        ensures
            final(self)@ == id_at_node(old(self)@, node, hops),
    {
        self.node = node;
        self.hops = hops;
        self.phase = if node != 0 && hops < MAX_CHAIN && node <= usize::MAX - IHASH_INSTANCE {
            IdPhase::Key
        } else {
            IdPhase::Over(None)
        };
    }

    /// Feed the lookup the answer to what it asked: the value read, or `None`
    /// when it could not be read. A lookup that is over ignores it.
    pub fn feed(&mut self, a: Option<u64>)
        requires
            id_wf(old(self)@) || old(self)@.phase is Over,
        ensures
            final(self)@ == id_feed(old(self)@, a),
    {
        match self.phase {
            IdPhase::Buckets => {
                self.phase = match a {
                    None => IdPhase::Over(None),
                    Some(b) => IdPhase::Mask(b as usize),
                };
            },
            IdPhase::Mask(b) => {
                self.phase = match a {
                    None => IdPhase::Over(None),
                    Some(m) => {
                        let mask = m as u32 as i32;
                        if b == 0 || mask <= 0 {
                            IdPhase::Over(None)
                        } else {
                            let slot = (self.id & mask) as usize;
                            if slot <= (usize::MAX - b) / 16 {
                                proof {
                                    assert(slot * 16 <= usize::MAX - b) by (nonlinear_arith)
                                        requires
                                            slot <= (usize::MAX - b) / 16,
                                    ;
                                }
                                IdPhase::Head(b + slot * 16)
                            } else {
                                proof {
                                    assert(slot * 16 > usize::MAX - b) by (nonlinear_arith)
                                        requires
                                            slot > (usize::MAX - b) / 16,
                                    ;
                                }
                                IdPhase::Over(None)
                            }
                        }
                    },
                };
            },
            IdPhase::Head(_) => match a {
                None => {
                    self.phase = IdPhase::Over(None);
                },
                Some(n) => self.goto_node(n as usize, 0),
            },
            IdPhase::Key => {
                let hit = match a {
                    Some(k) => k as u32 as i32 == self.id,
                    None => false,
                };
                self.phase = if hit {
                    IdPhase::Instance
                } else {
                    IdPhase::Next
                };
            },
            IdPhase::Instance => {
                self.phase = match a {
                    Some(i) => if i != 0 && (i as usize) <= usize::MAX - (INST_ID + 4) {
                        IdPhase::Readable(i as usize)
                    } else {
                        IdPhase::Over(None)
                    },
                    None => IdPhase::Over(None),
                };
            },
            IdPhase::Readable(inst) => {
                self.phase = match a {
                    Some(_) => IdPhase::OwnId(inst),
                    None => IdPhase::Over(None),
                };
            },
            IdPhase::OwnId(inst) => {
                let agrees = match a {
                    Some(v) => v as u32 as i32 == self.id,
                    None => false,
                };
                self.phase = if agrees {
                    IdPhase::Over(Some(inst))
                } else {
                    IdPhase::Over(None)
                };
            },
            IdPhase::Next => {
                let n: usize = match a {
                    Some(n) => n as usize,
                    None => 0,
                };
                self.goto_node(n, self.hops + 1);
            },
            IdPhase::Over(_) => {},
        }
    }

    /// The instance found, once the lookup is over; `None` until then, and
    /// when the id is not a live instance.
    pub fn result(&self) -> (r: Option<usize>)
        ensures
            r == (match self@.phase {
                IdPhase::Over(f) => f,
                _ => None,
            }),
    {
        match self.phase {
            IdPhase::Over(f) => f,
            _ => None,
        }
    }

    /// Whether the lookup is over.
    pub fn over(&self) -> (r: bool)
        ensures
            r == (self@.phase is Over),
    {
        match self.phase {
            IdPhase::Over(_) => true,
            _ => false,
        }
    }
}

/// Every answer takes an id lookup closer to its end and keeps its shape, so
/// a lookup ends however the memory answers.
pub proof fn lemma_id_walk_ends(w: IdWalkView, a: Option<u64>)
    requires
        id_wf(w),
        !(w.phase is Over),
    ensures
        id_wf(id_feed(w, a)) || id_feed(w, a).phase is Over,
        0 <= id_measure(id_feed(w, a)) < id_measure(w),
{
}

/// An id lookup only ever answers with an instance whose own id it read back
/// as the id asked for.
pub proof fn lemma_id_walk_agrees(w: IdWalkView, a: Option<u64>)
    requires
        !(w.phase is Over),
        id_feed(w, a).phase matches IdPhase::Over(Some(_)),
    ensures
        w.phase is OwnId,
        a is Some && as_i32(a.unwrap()) == w.id,
{
}

// ------------------------------------------------------------ names

/// The byte a NUL-terminated copy of `want` holds at `i`.
pub open spec fn cstr_byte(want: Seq<u8>, i: int) -> u8 {
    if i < want.len() {
        want[i]
    } else {
        0
    }
}

/// Whether the NUL-terminated string at `addr` is `want`, given the answers
/// so far: first whether `want.len() + 1` bytes there are readable, then
/// each byte in turn, stopping at the first that differs -- the NUL
/// included, so a longer string does not match.
pub open spec fn spec_cstr_is(addr: usize, want: Seq<u8>, a: Seq<Option<u64>>) -> Step<bool> {
    let n: int = want.len() + 1int;
    if addr + n > usize::MAX {
        Step::Done(false)
    } else if a.len() == 0 {
        Step::Ask(Access::Readable(addr, n as usize))
    } else if a[0] is None {
        Step::Done(false)
    } else {
        let k: int = a.len() - 1;
        let m: int = if k < n { k } else { n };
        if exists|i: int| 0 <= i < m && a[1 + i] != Some(cstr_byte(want, i) as u64) {
            Step::Done(false)
        } else if k < n {
            Step::Ask(Access::Value((addr + k) as usize, 1))
        } else {
            Step::Done(true)
        }
    }
}

/// [`spec_cstr_is`].
pub fn cstr_is(addr: usize, want: &[u8], answers: &[Option<u64>]) -> (r: Step<bool>)
    ensures
        r == spec_cstr_is(addr, want@, answers@),
{
    if want.len() >= usize::MAX - addr {
        return Step::Done(false);
    }
    let n = want.len() + 1;
    if answers.len() == 0 {
        return Step::Ask(Access::Readable(addr, n));
    }
    if answers[0].is_none() {
        return Step::Done(false);
    }
    let k = answers.len() - 1;
    let m = if k < n { k } else { n };
    let mut i: usize = 0;
    while i < m
        invariant
            0 <= i <= m,
            m <= k,
            m <= n,
            n == want.len() + 1,
            k + 1 == answers.len(),
            forall|j: int| 0 <= j < i ==> answers@[1 + j] == Some(cstr_byte(want@, j) as u64),
        decreases m - i,
    {
        let expect: u8 = if i < want.len() { want[i] } else { 0 };
        if answers[1 + i] != Some(expect as u64) {
            assert(answers@[1 + i] != Some(cstr_byte(want@, i as int) as u64));
            return Step::Done(false);
        }
        i = i + 1;
    }
    if k < n {
        Step::Ask(Access::Value(addr + k, 1))
    } else {
        Step::Done(true)
    }
}

// ------------------------------------------------------------ every object

/// A registry node's next pointer.
pub const RNODE_NEXT: usize = 0x08;
/// A registry node's key: the object's index.
pub const RNODE_KEY: usize = 0x10;
/// A registry node's value: the object record.
pub const RNODE_VALUE: usize = 0x18;
/// Bytes per bucket of the registry's bucket array.
pub const BUCKET_SIZE: usize = 16;

/// Where a walk over the whole registry is.
#[derive(Debug, Clone, Copy, PartialEq, Eq, Structural)]
pub enum RegPhase {
    /// Reading the current bucket's first node.
    Bucket,
    /// Reading the current node's key.
    Key,
    /// Reading the current node's value; the key, if it could be read.
    Value(Option<i32>),
    /// Reading the current node's next pointer.
    Next,
    /// Finished.
    Over,
}

/// A walk over every `(object index, record)` in the registry, as values.
pub struct RegView {
    pub buckets: usize,
    pub mask: usize,
    pub slot: usize,
    pub node: usize,
    pub hops: usize,
    pub phase: RegPhase,
    pub found: Seq<(i32, usize)>,
}

/// The walk at bucket `slot`: over once past the last bucket, or where the
/// bucket's address would leave the address space.
pub open spec fn at_slot(v: RegView, slot: int) -> RegView {
    if slot > v.mask || v.buckets + slot * BUCKET_SIZE > usize::MAX {
        RegView { phase: RegPhase::Over, ..v }
    } else {
        RegView { slot: slot as usize, node: 0, hops: 0, phase: RegPhase::Bucket, ..v }
    }
}

/// The walk at chain node `node`, `hops` nodes into the bucket: on to the
/// next bucket at the chain's end, after `MAX_CHAIN` nodes, or at a node
/// whose fields would leave the address space.
pub open spec fn at_chain_node(v: RegView, node: usize, hops: usize) -> RegView {
    if node != 0 && hops < MAX_CHAIN && node + RNODE_VALUE <= usize::MAX {
        RegView { node, hops, phase: RegPhase::Key, ..v }
    } else {
        at_slot(v, v.slot + 1)
    }
}

/// What the walk reads next; nothing once it is over.
pub open spec fn reg_ask(v: RegView) -> Option<Access> {
    match v.phase {
        RegPhase::Bucket => Some(Access::Value((v.buckets + v.slot * BUCKET_SIZE) as usize, 8)),
        RegPhase::Key => Some(Access::Value((v.node + RNODE_KEY) as usize, 4)),
        RegPhase::Value(_) => Some(Access::Value((v.node + RNODE_VALUE) as usize, 8)),
        RegPhase::Next => Some(Access::Value((v.node + RNODE_NEXT) as usize, 8)),
        RegPhase::Over => None,
    }
}

/// The walk after the answer `a`. A bucket that cannot be read is passed
/// over; a node whose key and value both read, with a value that is not
/// null, is an entry; a next pointer that cannot be read ends the chain.
pub open spec fn reg_feed(v: RegView, a: Option<u64>) -> RegView {
    match v.phase {
        RegPhase::Bucket => match a {
            None => at_slot(v, v.slot + 1),
            Some(n) => at_chain_node(v, n as usize, 0),
        },
        RegPhase::Key => RegView {
            phase: RegPhase::Value(
                match a {
                    Some(k) => Some(as_i32(k)),
                    None => None,
                },
            ),
            ..v
        },
        RegPhase::Value(key) => {
            let found = match (key, a) {
                (Some(k), Some(val)) => if val as usize != 0 {
                    v.found.push((k, val as usize))
                } else {
                    v.found
                },
                _ => v.found,
            };
            RegView { phase: RegPhase::Next, found, ..v }
        },
        RegPhase::Next => match a {
            Some(n) => at_chain_node(v, n as usize, (v.hops + 1) as usize),
            None => at_slot(v, v.slot + 1),
        },
        RegPhase::Over => v,
    }
}

/// A walk in progress: at a bucket that lies in the address space, and at
/// a node whose fields do.
pub open spec fn reg_wf(v: RegView) -> bool {
    &&& v.mask <= MAX_BUCKETS
    &&& v.slot <= v.mask
    &&& v.buckets + v.slot * BUCKET_SIZE <= usize::MAX
    &&& v.hops < MAX_CHAIN
    &&& (v.phase != RegPhase::Bucket ==> v.node + RNODE_VALUE <= usize::MAX)
}

/// Reads left, at most: a full budget per bucket still to come.
pub open spec fn reg_measure(v: RegView) -> int {
    let per = 3 * (MAX_CHAIN as int) + 2;
    let rest = (v.mask - v.slot) * per;
    match v.phase {
        RegPhase::Bucket => rest + per,
        RegPhase::Key => rest + 3 * (MAX_CHAIN - v.hops),
        RegPhase::Value(_) => rest + 3 * (MAX_CHAIN - v.hops) - 1,
        RegPhase::Next => rest + 3 * (MAX_CHAIN - v.hops) - 2,
        RegPhase::Over => 0,
    }
}

/// A walk over every object in the registry, driven from outside: ask it
/// what to read, read it, feed it the answer, until it asks nothing more.
pub struct RegistryWalk {
    buckets: usize,
    mask: usize,
    slot: usize,
    node: usize,
    hops: usize,
    phase: RegPhase,
    found: Vec<(i32, usize)>,
}

impl View for RegistryWalk {
    type V = RegView;

    closed spec fn view(&self) -> RegView {
        RegView {
            buckets: self.buckets,
            mask: self.mask,
            slot: self.slot,
            node: self.node,
            hops: self.hops,
            phase: self.phase,
            found: self.found@,
        }
    }
}

impl RegistryWalk {
    fn go_slot(&mut self, slot: usize)
        requires
            old(self)@.mask <= MAX_BUCKETS,
            slot <= old(self)@.mask + 1,
        ensures
            final(self)@ == at_slot(old(self)@, slot as int),
    {
        if slot > self.mask || self.buckets > usize::MAX - slot * BUCKET_SIZE {
            self.phase = RegPhase::Over;
        } else {
            self.slot = slot;
            self.node = 0;
            self.hops = 0;
            self.phase = RegPhase::Bucket;
        }
    }

    fn go_node(&mut self, node: usize, hops: usize)
        requires
            old(self)@.mask <= MAX_BUCKETS,
            old(self)@.slot <= old(self)@.mask,
        ensures
            final(self)@ == at_chain_node(old(self)@, node, hops),
    {
        if node != 0 && hops < MAX_CHAIN && node <= usize::MAX - RNODE_VALUE {
            self.node = node;
            self.hops = hops;
            self.phase = RegPhase::Key;
        } else {
            let next = self.slot + 1;
            self.go_slot(next);
        }
    }

    /// A walk from the first bucket of `reg`.
    pub fn new(reg: &Registry) -> (w: RegistryWalk)
        requires
            0 < reg.mask <= MAX_BUCKETS,
        ensures
            reg_wf(w@) || w@.phase == RegPhase::Over,
            w@ == at_slot(
                RegView {
                    buckets: reg.buckets,
                    mask: reg.mask as usize,
                    slot: 0,
                    node: 0,
                    hops: 0,
                    phase: RegPhase::Bucket,
                    found: Seq::empty(),
                },
                0,
            ),
    {
        let mut w = RegistryWalk {
            buckets: reg.buckets,
            mask: reg.mask as usize,
            slot: 0,
            node: 0,
            hops: 0,
            phase: RegPhase::Bucket,
            found: Vec::new(),
        };
        w.go_slot(0);
        w
    }

    /// What to read next, if anything.
    pub fn ask(&self) -> (r: Option<Access>)
        requires
            reg_wf(self@) || self@.phase == RegPhase::Over,
        ensures
            r == reg_ask(self@),
    {
        match self.phase {
            RegPhase::Bucket => Some(Access::Value(self.buckets + self.slot * BUCKET_SIZE, 8)),
            RegPhase::Key => Some(Access::Value(self.node + RNODE_KEY, 4)),
            RegPhase::Value(_) => Some(Access::Value(self.node + RNODE_VALUE, 8)),
            RegPhase::Next => Some(Access::Value(self.node + RNODE_NEXT, 8)),
            RegPhase::Over => None,
        }
    }

    /// Take the answer to what was asked.
    pub fn feed(&mut self, a: Option<u64>)
        requires
            reg_wf(old(self)@) || old(self)@.phase == RegPhase::Over,
        ensures
            final(self)@ == reg_feed(old(self)@, a),
            reg_wf(final(self)@) || final(self)@.phase == RegPhase::Over,
    {
        match self.phase {
            RegPhase::Bucket => match a {
                None => {
                    let next = self.slot + 1;
                    self.go_slot(next);
                },
                Some(n) => {
                    #[verifier::truncate]
                    let node = n as usize;
                    self.go_node(node, 0);
                },
            },
            RegPhase::Key => {
                let key = match a {
                    Some(k) => Some(k as u32 as i32),
                    None => None,
                };
                self.phase = RegPhase::Value(key);
            },
            RegPhase::Value(key) => {
                match (key, a) {
                    (Some(k), Some(val)) => {
                        #[verifier::truncate]
                        let obj = val as usize;
                        if obj != 0 {
                            self.found.push((k, obj));
                        }
                    },
                    _ => {},
                }
                self.phase = RegPhase::Next;
            },
            RegPhase::Next => match a {
                Some(n) => {
                    #[verifier::truncate]
                    let node = n as usize;
                    let hops = self.hops + 1;
                    self.go_node(node, hops);
                },
                None => {
                    let next = self.slot + 1;
                    self.go_slot(next);
                },
            },
            RegPhase::Over => {},
        }
    }

    /// Every `(object index, record)` found so far, in walk order.
    pub fn found(&self) -> (r: &Vec<(i32, usize)>)
        ensures
            r@ == self@.found,
    {
        &self.found
    }
}

/// The registry walk ends: each answer takes it closer to the end, and it
/// starts within a budget of `3 * MAX_CHAIN + 2` reads per bucket.
pub proof fn lemma_registry_walk_ends(v: RegView, a: Option<u64>)
    requires
        reg_wf(v),
        v.phase != RegPhase::Over,
    ensures
        reg_wf(reg_feed(v, a)) || reg_feed(v, a).phase == RegPhase::Over,
        0 <= reg_measure(reg_feed(v, a)) < reg_measure(v),
        reg_measure(v) <= (v.mask + 1) * (3 * MAX_CHAIN + 2),
{
    let per = 3 * (MAX_CHAIN as int) + 2;
    assert((v.mask - v.slot) * per >= 0) by (nonlinear_arith)
        requires v.mask >= v.slot, per > 0;
    assert((v.mask - v.slot) * per + per == (v.mask - v.slot + 1) * per) by (nonlinear_arith);
    assert((v.mask - v.slot + 1) * per <= (v.mask + 1) * per) by (nonlinear_arith)
        requires v.slot >= 0, per > 0;
    if v.slot < v.mask {
        assert((v.mask - (v.slot + 1)) * per + per == (v.mask - v.slot) * per) by (nonlinear_arith);
        assert((v.mask - (v.slot + 1)) * per >= 0) by (nonlinear_arith)
            requires v.mask >= v.slot + 1, per > 0;
    }
}

/// The walk only ever adds entries, each with a record that is not null.
pub proof fn lemma_registry_walk_grows(v: RegView, a: Option<u64>)
    ensures
        v.found.is_prefix_of(reg_feed(v, a).found),
        forall|i: int| v.found.len() <= i < reg_feed(v, a).found.len() ==> (#[trigger] reg_feed(v, a).found[i]).1 != 0,
{
    assert(v.found.is_prefix_of(v.found)) by {
        assert(v.found.take(v.found.len() as int) =~= v.found);
    }
    match v.phase {
        RegPhase::Value(key) => {
            match (key, a) {
                (Some(k), Some(val)) => if val as usize != 0 {
                    assert(v.found.push((k, val as usize)).take(v.found.len() as int) =~= v.found);
                },
                _ => {},
            }
        },
        _ => {},
    }
}

} // verus!
