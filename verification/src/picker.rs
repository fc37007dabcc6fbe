//! The decision algorithm.
//!
//! Pure: given the offered options, the reroll economy and the player's
//! config, decide what to do.
//!
//! ```text
//! if any WANTED option is offered   -> take the highest weight (ties broken)
//! if another reroll is permitted    -> reroll, and look again
//! if any FALLBACK option is offered -> take the highest weight (ties broken)
//! otherwise                         -> leave it for the player
//! ```
//!
//! Blacklisted options are never candidates, at any depth. They do not
//! block: if something wanted is also on offer, it is taken.
//!
//! Weights are IEEE doubles in the config file. Here a weight is carried as
//! its bit pattern, and compared through [`weight_key`], an integer that
//! orders weights exactly as `<` and `==` on the doubles do; a NaN weight has
//! no key and, as with the doubles, never compares equal or greater.
use vstd::prelude::*;

use crate::config::{Budgets, Depth, Tier, SCRAP};
use crate::text::{chars_of, seq_eq};

verus! {

/// What a reroll would cost, as the game decides it -- not as the mod
/// chooses. Free rerolls are spent automatically before denarii are charged.
#[derive(Debug, Clone, Copy, PartialEq, Eq, Structural)]
pub enum RerollCost {
    /// The per-reward freebie (Voodoo Beads).
    Voodoo,
    /// The reign-wide free pool.
    Free,
    /// Denarii.
    Paid(i64),
    /// No reroll is available at all.
    Unavailable,
}

/// The reroll economy at this moment, read from the game.
#[derive(Debug, Clone, Copy)]
pub struct Economy {
    pub next_cost: RerollCost,
    pub denarii: i64,
    /// How many of each class the mod has already spent on this reward.
    pub voodoo_used: u32,
    pub free_used: u32,
    pub paid_used: u32,
}

/// What to do about the choice on screen.
#[derive(Debug, Clone, PartialEq, Eq)]
pub enum Decision {
    /// Take this option id (`_scrap` means press scrap).
    Pick(String),
    /// Reroll, then decide again.
    Reroll,
    /// Leave it for the player, and stop draining the queue.
    Manual(&'static str),
}

/// Why a reroll was or was not permitted, for the log.
#[derive(Debug, Clone, PartialEq, Eq)]
pub enum RerollVerdict {
    Allowed(RerollCost),
    Denied(&'static str),
}

/// One configured option: its id, its tier, and its weight as the bits of
/// an IEEE double.
#[derive(Debug, Clone)]
pub struct Ranked {
    pub id: String,
    pub tier: Tier,
    pub weight_bits: u64,
}

/// One reward type's preferences: its budgets, and the tier and weight of
/// every id it classifies.
#[derive(Debug, Clone)]
pub struct TypeConfig {
    pub budgets: Budgets,
    pub options: Vec<Ranked>,
}

// ---------------------------------------------------------------- weights

/// The bits of negative infinity, the weight every search starts from.
pub const NEG_INFINITY_BITS: u64 = 0xFFF0_0000_0000_0000;

pub open spec fn is_nan_bits(bits: u64) -> bool {
    (bits & 0x7FF0_0000_0000_0000u64) == 0x7FF0_0000_0000_0000u64 && (bits
        & 0x000F_FFFF_FFFF_FFFFu64) != 0
}

/// An integer that orders weights as the doubles they encode order: the
/// magnitude, negated for negative weights, so both zeros meet at 0. `None`
/// for NaN.
pub open spec fn weight_key_spec(bits: u64) -> Option<int> {
    if is_nan_bits(bits) {
        None
    } else {
        let mag = (bits & 0x7FFF_FFFF_FFFF_FFFFu64) as int;
        if (bits >> 63u64) == 1 {
            Some(-mag)
        } else {
            Some(mag)
        }
    }
}

/// The ordering key of a weight; see [`weight_key_spec`].
pub fn weight_key(bits: u64) -> (k: Option<i64>)
    ensures
        match k {
            Some(v) => weight_key_spec(bits) == Some(v as int),
            None => weight_key_spec(bits) == None::<int>,
        },
{
    let exp = bits & 0x7FF0_0000_0000_0000u64;
    let mant = bits & 0x000F_FFFF_FFFF_FFFFu64;
    if exp == 0x7FF0_0000_0000_0000u64 && mant != 0 {
        return None;
    }
    let mag = bits & 0x7FFF_FFFF_FFFF_FFFFu64;
    assert(mag <= 0x7FFF_FFFF_FFFF_FFFFu64) by (bit_vector)
        requires
            mag == bits & 0x7FFF_FFFF_FFFF_FFFFu64,
    ;
    let m = mag as i64;
    if (bits >> 63u64) == 1 {
        Some(-m)
    } else {
        Some(m)
    }
}

// ------------------------------------------------------------- lookups

impl TypeConfig {
    /// The entry for `id`: the first with that id, as ids are unique in a
    /// well-formed config.
    pub open spec fn entry(self, id: Seq<char>) -> Option<Ranked> {
        if exists|i: int| 0 <= i < self.options.len() && self.options@[i].id@ == id {
            let i = choose|i: int|
                0 <= i < self.options.len() && self.options@[i].id@ == id && forall|j: int|
                    0 <= j < i ==> self.options@[j].id@ != id;
            Some(self.options@[i])
        } else {
            None
        }
    }

    pub open spec fn spec_tier_of(self, id: Seq<char>) -> Option<Tier> {
        match self.entry(id) {
            Some(r) => Some(r.tier),
            None => None,
        }
    }

    /// Every id appears once.
    pub open spec fn wf(self) -> bool {
        forall|i: int, j: int|
            0 <= i < j < self.options.len() ==> self.options@[i].id@ != self.options@[j].id@
    }

    /// Where `id` sits, as an index into `options`.
    pub fn position(&self, id: &str) -> (r: Option<usize>)
        ensures
            match r {
                Some(i) => i < self.options.len() && self.entry(id@) == Some(self.options@[i as int]),
                None => self.entry(id@) == None::<Ranked>,
            },
    {
        let want = chars_of(id);
        let mut i: usize = 0;
        while i < self.options.len()
            invariant
                0 <= i <= self.options.len(),
                want@ == id@,
                forall|j: int| 0 <= j < i ==> self.options@[j].id@ != id@,
            decreases self.options.len() - i,
        {
            let have = chars_of(self.options[i].id.as_str());
            if seq_eq(&have, &want) {
                proof {
                    let k = choose|k: int|
                        0 <= k < self.options.len() && self.options@[k].id@ == id@ && forall|
                            j: int,
                        |
                            0 <= j < k ==> self.options@[j].id@ != id@;
                    assert(0 <= k < self.options.len() && self.options@[k].id@ == id@);
                    if k < i {
                        assert(self.options@[k].id@ != id@);
                    } else if k > i {
                        assert(self.options@[i as int].id@ == id@);
                    }
                }
                return Some(i);
            }
            i = i + 1;
        }
        None
    }

    /// The tier `id` is classified in, if any.
    pub fn tier_of(&self, id: &str) -> (r: Option<Tier>)
        ensures
            r == self.spec_tier_of(id@),
    {
        match self.position(id) {
            Some(i) => Some(self.options[i].tier),
            None => None,
        }
    }

    /// The weight bits of `id`, if it is classified.
    pub fn weight_bits_of(&self, id: &str) -> (r: Option<u64>)
        ensures
            r == (match self.entry(id@) {
                Some(e) => Some(e.weight_bits),
                None => None,
            }),
    {
        match self.position(id) {
            Some(i) => Some(self.options[i].weight_bits),
            None => None,
        }
    }
}

// ------------------------------------------------------------- rerolls

/// The verdict [`may_reroll`] reaches.
pub open spec fn reroll_verdict(b: Budgets, eco: Economy) -> RerollVerdict {
    match eco.next_cost {
        RerollCost::Unavailable => RerollVerdict::Denied("no reroll available"),
        RerollCost::Voodoo => if b.voodoo_depth.spec_allows(eco.voodoo_used) {
            RerollVerdict::Allowed(RerollCost::Voodoo)
        } else {
            RerollVerdict::Denied("voodoo_depth spent")
        },
        RerollCost::Free => if b.free_depth.spec_allows(eco.free_used) {
            RerollVerdict::Allowed(RerollCost::Free)
        } else {
            RerollVerdict::Denied("free_depth spent")
        },
        RerollCost::Paid(price) => if !b.paid_depth.spec_allows(eco.paid_used) {
            RerollVerdict::Denied("paid_depth spent")
        } else if price > eco.denarii {
            RerollVerdict::Denied("cannot afford it")
        } else if eco.denarii - price < b.denarii_floor {
            RerollVerdict::Denied("would breach denarii_floor")
        } else {
            RerollVerdict::Allowed(RerollCost::Paid(price))
        },
    }
}

/// Whether the mod may trigger the next reroll.
///
/// The mod does not choose the currency: the game spends free rerolls
/// automatically. So the cost the game reports is matched against that
/// class's budget, and never falls through to another budget. A player with
/// free rerolls banked cannot choose to pay, so neither may the mod.
pub fn may_reroll(conf: &TypeConfig, eco: &Economy) -> (v: RerollVerdict)
    ensures
        v == reroll_verdict(conf.budgets, *eco),
{
    let b = &conf.budgets;
    match eco.next_cost {
        RerollCost::Unavailable => RerollVerdict::Denied("no reroll available"),
        RerollCost::Voodoo => {
            if b.voodoo_depth.allows(eco.voodoo_used) {
                RerollVerdict::Allowed(RerollCost::Voodoo)
            } else {
                RerollVerdict::Denied("voodoo_depth spent")
            }
        },
        RerollCost::Free => {
            if b.free_depth.allows(eco.free_used) {
                RerollVerdict::Allowed(RerollCost::Free)
            } else {
                RerollVerdict::Denied("free_depth spent")
            }
        },
        RerollCost::Paid(price) => {
            if !b.paid_depth.allows(eco.paid_used) {
                RerollVerdict::Denied("paid_depth spent")
            } else if price > eco.denarii {
                RerollVerdict::Denied("cannot afford it")
            } else if (eco.denarii as i128) - (price as i128) < (b.denarii_floor as i128) {
                RerollVerdict::Denied("would breach denarii_floor")
            } else {
                RerollVerdict::Allowed(RerollCost::Paid(price))
            }
        },
    }
}

// ------------------------------------------------------------- choosing

/// Chooses among equally weighted options.
///
/// The choice between two options the player called indifferent is the
/// mod's own, so it must not draw on the game's randomness.
pub trait TieBreak {
    /// The number this breaker gives, in its present state, for `n` tied
    /// options.
    spec fn picked(&self, n: usize) -> usize;

    /// Some number; the caller reduces it modulo `n`.
    fn pick(&mut self, n: usize) -> (r: usize)
        ensures
            r == old(self).picked(n),
    ;
}

/// The tied option a pick takes: the only one, or the one the breaker's
/// number `k` lands on, modulo how many are tied.
pub open spec fn chosen(t: Seq<Seq<char>>, k: usize) -> Seq<char> {
    if t.len() == 1 {
        t[0]
    } else {
        t[(k as int) % (t.len() as int)]
    }
}

/// Every tied option can be taken: the breaker's number `j` takes the `j`th.
pub proof fn lemma_every_tie_reachable(t: Seq<Seq<char>>, j: usize)
    requires
        j < t.len(),
    ensures
        chosen(t, j) == t[j as int],
{
    if t.len() != 1 {
        assert((j as int) % (t.len() as int) == j as int) by (nonlinear_arith)
            requires
                0 <= j < t.len(),
        ;
    }
}

/// The key a candidate competes with in `tier`: `None` when it is not in
/// that tier, is not classified, or has a NaN weight.
#[verifier::opaque]
pub open spec fn key_in(conf: TypeConfig, id: Seq<char>, tier: Tier) -> Option<int> {
    match conf.entry(id) {
        Some(e) => if e.tier == tier {
            weight_key_spec(e.weight_bits)
        } else {
            None
        },
        None => None,
    }
}

/// A small deterministic generator for tie-breaking: xorshift64*.
///
/// Deliberately the mod's own, and deliberately not the game's: see
/// [`decide`].
pub struct TieBreaker(u64);

/// One step of the xorshift64 state.
pub open spec fn xorshift(x: u64) -> u64 {
    let a = x ^ (x >> 12u64);
    let b = a ^ (a << 25u64);
    b ^ (b >> 27u64)
}

/// The number a state draws for `n` options: the high bits of the scrambled
/// state, reduced modulo `n` (modulo 1 when `n` is zero).
pub open spec fn draw(x: u64, n: usize) -> usize {
    let scrambled = ((x as nat * 0x2545_F491_4F6C_DD1Dnat) % 0x1_0000_0000_0000_0000nat) as u64;
    let m = if n == 0 {
        1usize
    } else {
        n
    };
    ((scrambled >> 33u64) as usize) % m
}

impl TieBreaker {
    /// The generator's state.
    pub closed spec fn state(&self) -> u64 {
        self.0
    }

    /// A fixed seed, good enough for coin-flips between options the player
    /// said they do not care about.
    pub fn new_const() -> (t: TieBreaker)
        ensures
            t.state() == 0x9E37_79B9_7F4A_7C15u64,
    {
        TieBreaker(0x9E37_79B9_7F4A_7C15)
    }

    /// Seeded; the low bit is forced so the state is never zero.
    pub fn new(seed: u64) -> (t: TieBreaker)
        ensures
            t.state() == seed | 1,
    {
        TieBreaker(seed | 1)
    }

    /// Step the generator and draw a number below `n` (zero when `n` is zero).
    pub fn next(&mut self, n: usize) -> (r: usize)
        ensures
            final(self).state() == xorshift(old(self).state()),
            r == draw(final(self).state(), n),
            r < (if n == 0 {
                1
            } else {
                n
            }),
    {
        let mut x = self.0;
        x = x ^ (x >> 12u64);
        x = x ^ (x << 25u64);
        x = x ^ (x >> 27u64);
        self.0 = x;
        let m: usize = if n == 0 {
            1
        } else {
            n
        };
        ((x.wrapping_mul(0x2545_F491_4F6C_DD1D) >> 33u64) as usize) % m
    }
}

impl TieBreak for TieBreaker {
    open spec fn picked(&self, n: usize) -> usize {
        draw(xorshift(self.state()), n)
    }

    fn pick(&mut self, n: usize) -> (r: usize)
        ensures
            final(self).state() == xorshift(old(self).state()),
            r == draw(final(self).state(), n),
    {
        self.next(n)
    }
}

/// The key every search starts from: that of negative infinity.
pub open spec fn floor_key() -> int {
    -0x7FF0_0000_0000_0000int
}

/// The best key among `cands` in `tier`, starting from negative infinity.
#[verifier::opaque]
pub open spec fn best_key(conf: TypeConfig, cands: Seq<Seq<char>>, tier: Tier) -> int
    decreases cands.len(),
{
    if cands.len() == 0 {
        floor_key()
    } else {
        let rest = best_key(conf, cands.drop_last(), tier);
        match key_in(conf, cands.last(), tier) {
            Some(k) => if k > rest {
                k
            } else {
                rest
            },
            None => rest,
        }
    }
}

/// The candidates in `tier` whose key is `b`, in offer order.
#[verifier::opaque]
pub open spec fn ties_at(conf: TypeConfig, cands: Seq<Seq<char>>, tier: Tier, b: int) -> Seq<
    Seq<char>,
>
    decreases cands.len(),
{
    if cands.len() == 0 {
        Seq::empty()
    } else {
        let r = ties_at(conf, cands.drop_last(), tier, b);
        if key_in(conf, cands.last(), tier) == Some(b) {
            r.push(cands.last())
        } else {
            r
        }
    }
}

/// The candidates tied at the best key in `tier`, in offer order.
pub open spec fn tied(conf: TypeConfig, cands: Seq<Seq<char>>, tier: Tier) -> Seq<Seq<char>> {
    ties_at(conf, cands, tier, best_key(conf, cands, tier))
}

/// The key every search starts from is that of a weight of negative
/// infinity, so the floor is no weight a config could write above it.
pub proof fn lemma_floor_is_negative_infinity()
    ensures
        weight_key_spec(NEG_INFINITY_BITS) == Some(floor_key()),
{
    assert(!is_nan_bits(NEG_INFINITY_BITS)) by (bit_vector);
    assert((NEG_INFINITY_BITS & 0x7FFF_FFFF_FFFF_FFFFu64) == 0x7FF0_0000_0000_0000u64) by (
    bit_vector);
    assert((NEG_INFINITY_BITS >> 63u64) == 1) by (bit_vector);
}

proof fn lemma_best_step(conf: TypeConfig, s: Seq<Seq<char>>, x: Seq<char>, tier: Tier)
    ensures
        best_key(conf, s.push(x), tier) == (match key_in(conf, x, tier) {
            Some(k) => if k > best_key(conf, s, tier) {
                k
            } else {
                best_key(conf, s, tier)
            },
            None => best_key(conf, s, tier),
        }),
{
    reveal(best_key);
    assert(s.push(x).drop_last() == s);
}

proof fn lemma_ties_step(conf: TypeConfig, s: Seq<Seq<char>>, x: Seq<char>, tier: Tier, b: int)
    ensures
        ties_at(conf, s.push(x), tier, b) == (if key_in(conf, x, tier) == Some(b) {
            ties_at(conf, s, tier, b).push(x)
        } else {
            ties_at(conf, s, tier, b)
        }),
{
    reveal(ties_at);
    assert(s.push(x).drop_last() == s);
}

proof fn lemma_ties_none_above(conf: TypeConfig, s: Seq<Seq<char>>, tier: Tier, b: int)
    requires
        b > best_key(conf, s, tier),
    ensures
        ties_at(conf, s, tier, b).len() == 0,
    decreases s.len(),
{
    reveal(ties_at);
    reveal(best_key);
    if s.len() > 0 {
        lemma_ties_none_above(conf, s.drop_last(), tier, b);
    }
}

proof fn lemma_empty_search(conf: TypeConfig, tier: Tier, b: int)
    ensures
        best_key(conf, Seq::<Seq<char>>::empty(), tier) == floor_key(),
        ties_at(conf, Seq::<Seq<char>>::empty(), tier, b) == Seq::<Seq<char>>::empty(),
{
    reveal(best_key);
    reveal(ties_at);
}

/// Every key in play is at least the floor, which is the key of negative
/// infinity.
proof fn lemma_key_floor(conf: TypeConfig, id: Seq<char>, tier: Tier)
    ensures
        key_in(conf, id, tier) matches Some(k) ==> k >= floor_key(),
{
    reveal(key_in);
    match conf.entry(id) {
        Some(e) => {
            let bits = e.weight_bits;
            if !is_nan_bits(bits) {
                let mag = bits & 0x7FFF_FFFF_FFFF_FFFFu64;
                assert(mag <= 0x7FF0_0000_0000_0000u64) by (bit_vector)
                    requires
                        mag == bits & 0x7FFF_FFFF_FFFF_FFFFu64,
                        !((bits & 0x7FF0_0000_0000_0000u64) == 0x7FF0_0000_0000_0000u64 && (bits
                            & 0x000F_FFFF_FFFF_FFFFu64) != 0),
                ;
            }
        },
        None => {},
    }
}

/// The highest-weighted candidate in `tier`, ties broken by `tb`.
fn best<T: TieBreak>(conf: &TypeConfig, cands: &Vec<String>, tier: Tier, tb: &mut T) -> (r: Option<
    String,
>)
    ensures
        ({
            let t = tied(*conf, cands@.map_values(|s: String| s@), tier);
            match r {
                None => t.len() == 0,
                Some(id) => t.contains(id@) && (t.len() == 1 ==> id@ == t[0]) && id@ == chosen(
                    t,
                    old(tb).picked(t.len() as usize),
                ),
            }
        }),
        tied(*conf, cands@.map_values(|s: String| s@), tier).len() < 2 ==> *final(tb) == *old(tb),
{
    let ghost cs = cands@.map_values(|s: String| s@);
    let mut best_k: i64 = -0x7FF0_0000_0000_0000i64;
    let mut ties: Vec<String> = Vec::new();
    let mut i: usize = 0;
    proof {
        assert(cs.take(0) == Seq::<Seq<char>>::empty());
        lemma_empty_search(*conf, tier, floor_key());
        assert(ties@.map_values(|s: String| s@) =~= Seq::<Seq<char>>::empty());
    }
    while i < cands.len()
        invariant
            0 <= i <= cands.len(),
            cs == cands@.map_values(|s: String| s@),
            best_k == best_key(*conf, cs.take(i as int), tier),
            ties@.map_values(|s: String| s@) == ties_at(*conf, cs.take(i as int), tier, best_k as int),
        decreases cands.len() - i,
    {
        let ghost prev = cs.take(i as int);
        let ghost x = cands@[i as int]@;
        assert(cs.take(i + 1) == prev.push(x));
        proof {
            lemma_best_step(*conf, prev, x, tier);
        }
        let ghost old_ties = ties@.map_values(|s: String| s@);
        let id = &cands[i];
        match self_key(conf, id.as_str(), tier) {
            None => {
                proof {
                    lemma_ties_step(*conf, prev, x, tier, best_k as int);
                }
            },
            Some(k) => {
                if k > best_k {
                    proof {
                        lemma_ties_step(*conf, prev, x, tier, k as int);
                        lemma_ties_none_above(*conf, prev, tier, k as int);
                    }
                    ties = Vec::new();
                    ties.push(id.clone());
                    best_k = k;
                    assert(ties@.map_values(|s: String| s@) =~= seq![x]);
                    assert(ties_at(*conf, prev, tier, k as int) =~= Seq::<Seq<char>>::empty());
                } else if k == best_k {
                    proof {
                        lemma_ties_step(*conf, prev, x, tier, k as int);
                    }
                    ties.push(id.clone());
                    assert(ties@.map_values(|s: String| s@) =~= old_ties.push(x));
                } else {
                    proof {
                        lemma_ties_step(*conf, prev, x, tier, best_k as int);
                    }
                }
            },
        }
        i = i + 1;
    }
    assert(cs.take(cands.len() as int) == cs);
    let n = ties.len();
    let ghost tm = ties@.map_values(|s: String| s@);
    if n == 0 {
        None
    } else if n == 1 {
        let pick = ties[0].clone();
        assert(tm[0] == pick@);
        Some(pick)
    } else {
        let j = tb.pick(n) % n;
        let pick = ties[j].clone();
        assert(tm[j as int] == pick@);
        assert(tm.contains(pick@));
        Some(pick)
    }
}

/// The key of `id` in `tier`, as [`key_in`] has it.
fn self_key(conf: &TypeConfig, id: &str, tier: Tier) -> (r: Option<i64>)
    ensures
        match r {
            Some(k) => key_in(*conf, id@, tier) == Some(k as int),
            None => key_in(*conf, id@, tier) == None::<int>,
        },
{
    reveal(key_in);
    match conf.position(id) {
        None => None,
        Some(i) => {
            if conf.options[i].tier == tier {
                weight_key(conf.options[i].weight_bits)
            } else {
                None
            }
        },
    }
}

/// The option ids in play: those offered, and `_scrap` where this reward
/// type has a scrap button and the config ranks it.
pub open spec fn candidates(conf: TypeConfig, offered: Seq<Seq<char>>, scrap_available: bool) -> Seq<
    Seq<char>,
> {
    if scrap_available && conf.spec_tier_of(SCRAP@) is Some {
        offered.push(SCRAP@)
    } else {
        offered
    }
}

/// Whether some offered id is one the config does not classify.
pub open spec fn has_unknown(conf: TypeConfig, offered: Seq<Seq<char>>) -> bool {
    exists|i: int| 0 <= i < offered.len() && conf.spec_tier_of(offered[i]) is None
}

/// What [`decide`] does: `pick_from` says an id was taken from a tied set.
pub open spec fn picks_from(d: Decision, t: Seq<Seq<char>>) -> bool {
    match d {
        Decision::Pick(id) => t.contains(id@) && (t.len() == 1 ==> id@ == t[0]),
        _ => false,
    }
}

pub open spec fn decision_ok(
    conf: TypeConfig,
    offered: Seq<Seq<char>>,
    eco: Economy,
    scrap_available: bool,
    d: Decision,
) -> bool {
    let cands = candidates(conf, offered, scrap_available);
    let tw = tied(conf, cands, Tier::Wanted);
    let tf = tied(conf, cands, Tier::Fallback);
    if has_unknown(conf, offered) {
        d == Decision::Manual("an offered option is not in the config")
    } else if tw.len() > 0 {
        picks_from(d, tw)
    } else if reroll_verdict(conf.budgets, eco) is Allowed {
        d == Decision::Reroll
    } else if tf.len() > 0 {
        picks_from(d, tf)
    } else {
        d == Decision::Manual("nothing acceptable, and no rerolls left in budget")
    }
}

/// Decide what to do about the options currently on offer.
///
/// `offered` are the option ids on the cards. `scrap_available` says whether
/// this reward type actually has a scrap button, so `_scrap` is unreachable
/// for a type without one even if the config ranks it. `tiebreak` picks among
/// equally weighted options.
///
/// Any offered id the config does not classify stops the mod: it is looking
/// at something it was never told about.
pub fn decide<T: TieBreak>(
    conf: &TypeConfig,
    offered: &[String],
    eco: &Economy,
    scrap_available: bool,
    tiebreak: &mut T,
) -> (d: Decision)
    ensures
        decision_ok(*conf, offered@.map_values(|s: String| s@), *eco, scrap_available, d),
        ({
            let cs = candidates(*conf, offered@.map_values(|s: String| s@), scrap_available);
            let tw = tied(*conf, cs, Tier::Wanted);
            let t = if tw.len() > 0 {
                tw
            } else {
                tied(*conf, cs, Tier::Fallback)
            };
            d matches Decision::Pick(id) ==> id@ == chosen(t, old(tiebreak).picked(t.len() as usize))
        }),
{
    let ghost offs = offered@.map_values(|s: String| s@);
    let mut i: usize = 0;
    while i < offered.len()
        invariant
            0 <= i <= offered.len(),
            offs == offered@.map_values(|s: String| s@),
            forall|j: int| 0 <= j < i ==> conf.spec_tier_of(#[trigger] offs[j]) is Some,
        decreases offered.len() - i,
    {
        if conf.tier_of(offered[i].as_str()).is_none() {
            assert(conf.spec_tier_of(offs[i as int]) is None);
            return Decision::Manual("an offered option is not in the config");
        }
        i = i + 1;
    }
    assert(!has_unknown(*conf, offs));

    let mut cands: Vec<String> = Vec::new();
    let mut k: usize = 0;
    while k < offered.len()
        invariant
            0 <= k <= offered.len(),
            offs == offered@.map_values(|s: String| s@),
            cands@.map_values(|s: String| s@) == offs.take(k as int),
        decreases offered.len() - k,
    {
        let ghost before = cands@.map_values(|s: String| s@);
        cands.push(offered[k].clone());
        assert(cands@.map_values(|s: String| s@) =~= before.push(offs[k as int]));
        assert(offs.take(k + 1) == offs.take(k as int).push(offs[k as int]));
        k = k + 1;
    }
    assert(offs.take(offered.len() as int) == offs);
    if scrap_available && conf.tier_of(SCRAP).is_some() {
        let ghost before = cands@.map_values(|s: String| s@);
        let scrap = SCRAP.to_owned();
        cands.push(scrap);
        assert(cands@.map_values(|s: String| s@) =~= before.push(SCRAP@));
    }
    let ghost cs = candidates(*conf, offs, scrap_available);
    assert(cands@.map_values(|s: String| s@) == cs);

    if let Some(pick) = best(conf, &cands, Tier::Wanted, tiebreak) {
        return Decision::Pick(pick);
    }
    if let RerollVerdict::Allowed(_) = may_reroll(conf, eco) {
        return Decision::Reroll;
    }
    if let Some(pick) = best(conf, &cands, Tier::Fallback, tiebreak) {
        return Decision::Pick(pick);
    }
    Decision::Manual("nothing acceptable, and no rerolls left in budget")
}

// ------------------------------------------------------------- laws

/// Everything tied in a tier competes in that tier, at the tied key.
proof fn lemma_ties_members(conf: TypeConfig, s: Seq<Seq<char>>, tier: Tier, b: int, x: Seq<char>)
    requires
        ties_at(conf, s, tier, b).contains(x),
    ensures
        key_in(conf, x, tier) == Some(b),
    decreases s.len(),
{
    reveal(ties_at);
    if s.len() > 0 {
        let r = ties_at(conf, s.drop_last(), tier, b);
        if key_in(conf, s.last(), tier) == Some(b) && !r.contains(x) {
            assert(ties_at(conf, s, tier, b) == r.push(s.last()));
            let i = choose|i: int| 0 <= i < r.push(s.last()).len() && r.push(s.last())[i] == x;
            if i < r.len() {
                assert(r[i] == x);
                assert(r.contains(x));
            }
        } else {
            lemma_ties_members(conf, s.drop_last(), tier, b, x);
        }
    }
}

/// A candidate that competes in a tier makes that tier's tied set non-empty.
proof fn lemma_some_competitor_ties(conf: TypeConfig, s: Seq<Seq<char>>, tier: Tier, i: int)
    requires
        0 <= i < s.len(),
        key_in(conf, s[i], tier) is Some,
    ensures
        tied(conf, s, tier).len() > 0,
    decreases s.len(),
{
    let p = s.drop_last();
    assert(s == p.push(s.last()));
    lemma_best_step(conf, p, s.last(), tier);
    let b = best_key(conf, p, tier);
    match key_in(conf, s.last(), tier) {
        Some(k) => {
            if k > b {
                lemma_ties_step(conf, p, s.last(), tier, k);
            } else if k == b {
                lemma_ties_step(conf, p, s.last(), tier, b);
            } else {
                lemma_ties_step(conf, p, s.last(), tier, b);
                lemma_key_floor(conf, s.last(), tier);
                if i == s.len() - 1 {
                    assert(key_in(conf, s[i], tier) == Some(k));
                    lemma_best_floor_or_tied(conf, p, tier);
                } else {
                    assert(p[i] == s[i]);
                    lemma_some_competitor_ties(conf, p, tier, i);
                }
            }
        },
        None => {
            lemma_ties_step(conf, p, s.last(), tier, b);
            assert(i != s.len() - 1);
            assert(p[i] == s[i]);
            lemma_some_competitor_ties(conf, p, tier, i);
        },
    }
}

/// The best key is the floor, or some candidate is tied at it.
proof fn lemma_best_floor_or_tied(conf: TypeConfig, s: Seq<Seq<char>>, tier: Tier)
    ensures
        best_key(conf, s, tier) == floor_key() || tied(conf, s, tier).len() > 0,
    decreases s.len(),
{
    if s.len() == 0 {
        lemma_empty_search(conf, tier, floor_key());
        assert(s == Seq::<Seq<char>>::empty());
    } else {
        let p = s.drop_last();
        assert(s == p.push(s.last()));
        lemma_best_step(conf, p, s.last(), tier);
        lemma_best_floor_or_tied(conf, p, tier);
        let b = best_key(conf, p, tier);
        match key_in(conf, s.last(), tier) {
            Some(k) => {
                if k > b {
                    lemma_ties_step(conf, p, s.last(), tier, k);
                    assert(best_key(conf, s, tier) == k);
                    assert(ties_at(conf, s, tier, k).len() > 0);
                } else {
                    lemma_ties_step(conf, p, s.last(), tier, b);
                    assert(best_key(conf, s, tier) == b);
                    assert(ties_at(conf, s, tier, b).len() >= ties_at(conf, p, tier, b).len());
                }
            },
            None => {
                lemma_ties_step(conf, p, s.last(), tier, b);
                assert(best_key(conf, s, tier) == b);
                assert(ties_at(conf, s, tier, b) == ties_at(conf, p, tier, b));
            },
        }
    }
}

/// A pick is always of an id classified in the tier it was chosen from:
/// wanted or fallback, never blacklisted, never unclassified.
pub proof fn lemma_never_picks_blacklisted(
    conf: TypeConfig,
    offered: Seq<Seq<char>>,
    eco: Economy,
    scrap_available: bool,
    d: Decision,
)
    requires
        decision_ok(conf, offered, eco, scrap_available, d),
    ensures
        d matches Decision::Pick(id) ==> (conf.spec_tier_of(id@) == Some(Tier::Wanted)
            || conf.spec_tier_of(id@) == Some(Tier::Fallback)),
{
    reveal(key_in);
    let cands = candidates(conf, offered, scrap_available);
    if let Decision::Pick(id) = d {
        if !has_unknown(conf, offered) {
            let tw = tied(conf, cands, Tier::Wanted);
            let tf = tied(conf, cands, Tier::Fallback);
            if tw.len() > 0 {
                lemma_ties_members(conf, cands, Tier::Wanted, best_key(conf, cands, Tier::Wanted), id@);
            } else {
                lemma_ties_members(conf, cands, Tier::Fallback, best_key(conf, cands, Tier::Fallback), id@);
            }
        }
    }
}

/// No candidate in `tier` has a key above the best.
proof fn lemma_best_is_max(conf: TypeConfig, s: Seq<Seq<char>>, tier: Tier, i: int)
    requires
        0 <= i < s.len(),
        key_in(conf, s[i], tier) is Some,
    ensures
        key_in(conf, s[i], tier)->0 <= best_key(conf, s, tier),
    decreases s.len(),
{
    let p = s.drop_last();
    assert(s == p.push(s.last()));
    lemma_best_step(conf, p, s.last(), tier);
    if i < s.len() - 1 {
        assert(s[i] == p[i]);
        lemma_best_is_max(conf, p, tier, i);
    }
}

/// The picker takes the highest-weighted option of the tier it picks from:
/// no wanted option outweighs a wanted pick, and no fallback option
/// outweighs a fallback pick (weights compared as numbers, by their keys).
pub proof fn lemma_takes_the_highest_weight(
    conf: TypeConfig,
    offered: Seq<Seq<char>>,
    eco: Economy,
    scrap_available: bool,
    d: Decision,
    i: int,
)
    requires
        decision_ok(conf, offered, eco, scrap_available, d),
        0 <= i < candidates(conf, offered, scrap_available).len(),
    ensures
        d matches Decision::Pick(id) ==> {
            let c = candidates(conf, offered, scrap_available)[i];
            &&& (key_in(conf, id@, Tier::Wanted) is Some && key_in(conf, c, Tier::Wanted) is Some)
                ==> key_in(conf, c, Tier::Wanted)->0 <= key_in(conf, id@, Tier::Wanted)->0
            &&& (key_in(conf, id@, Tier::Fallback) is Some && key_in(conf, c, Tier::Fallback) is Some)
                ==> key_in(conf, c, Tier::Fallback)->0 <= key_in(conf, id@, Tier::Fallback)->0
        },
{
    let cands = candidates(conf, offered, scrap_available);
    if let Decision::Pick(id) = d {
        if !has_unknown(conf, offered) {
            let tw = tied(conf, cands, Tier::Wanted);
            let tf = tied(conf, cands, Tier::Fallback);
            if tw.len() > 0 {
                lemma_ties_members(conf, cands, Tier::Wanted, best_key(conf, cands, Tier::Wanted), id@);
                if key_in(conf, cands[i], Tier::Wanted) is Some {
                    lemma_best_is_max(conf, cands, Tier::Wanted, i);
                }
                reveal(key_in);
            } else {
                lemma_ties_members(conf, cands, Tier::Fallback, best_key(conf, cands, Tier::Fallback), id@);
                if key_in(conf, cands[i], Tier::Fallback) is Some {
                    lemma_best_is_max(conf, cands, Tier::Fallback, i);
                }
                reveal(key_in);
            }
        }
    }
}

/// Tier dominates weight: when nothing offered is unclassified and some
/// offered option is wanted (with a weight that is a number), a wanted option
/// is taken, whatever the weights of the others.
pub proof fn lemma_wanted_beats_fallback(
    conf: TypeConfig,
    offered: Seq<Seq<char>>,
    eco: Economy,
    scrap_available: bool,
    d: Decision,
    i: int,
)
    requires
        decision_ok(conf, offered, eco, scrap_available, d),
        !has_unknown(conf, offered),
        0 <= i < offered.len(),
        key_in(conf, offered[i], Tier::Wanted) is Some,
    ensures
        d matches Decision::Pick(id) && conf.spec_tier_of(id@) == Some(Tier::Wanted),
{
    reveal(key_in);
    let cands = candidates(conf, offered, scrap_available);
    assert(cands[i] == offered[i]);
    lemma_some_competitor_ties(conf, cands, Tier::Wanted, i);
    if let Decision::Pick(id) = d {
        lemma_ties_members(conf, cands, Tier::Wanted, best_key(conf, cands, Tier::Wanted), id@);
    }
}

/// Any offered id the config does not classify stops the mod, even alongside
/// a wanted one.
pub proof fn lemma_unknown_falls_closed(
    conf: TypeConfig,
    offered: Seq<Seq<char>>,
    eco: Economy,
    scrap_available: bool,
    d: Decision,
    i: int,
)
    requires
        decision_ok(conf, offered, eco, scrap_available, d),
        0 <= i < offered.len(),
        conf.spec_tier_of(offered[i]) is None,
    ensures
        d == Decision::Manual("an offered option is not in the config"),
{
}

/// A fallback option is only ever taken once the reroll budget is spent: a
/// pick outside the wanted tier means no reroll was permitted.
pub proof fn lemma_fallback_only_when_spent(
    conf: TypeConfig,
    offered: Seq<Seq<char>>,
    eco: Economy,
    scrap_available: bool,
    d: Decision,
)
    requires
        decision_ok(conf, offered, eco, scrap_available, d),
    ensures
        (d matches Decision::Pick(id) && conf.spec_tier_of(id@) != Some(Tier::Wanted))
            ==> reroll_verdict(conf.budgets, eco) is Denied,
        d == Decision::Reroll ==> reroll_verdict(conf.budgets, eco) is Allowed,
{
    reveal(key_in);
    let cands = candidates(conf, offered, scrap_available);
    if let Decision::Pick(id) = d {
        let tw = tied(conf, cands, Tier::Wanted);
        if tw.len() > 0 && !has_unknown(conf, offered) {
            lemma_ties_members(conf, cands, Tier::Wanted, best_key(conf, cands, Tier::Wanted), id@);
        }
    }
}

/// Scrap is only ever pressed where the reward type has a scrap button.
pub proof fn lemma_scrap_only_where_it_exists(
    conf: TypeConfig,
    offered: Seq<Seq<char>>,
    eco: Economy,
    d: Decision,
)
    requires
        decision_ok(conf, offered, eco, false, d),
        !offered.contains(SCRAP@),
    ensures
        !(d matches Decision::Pick(id) && id@ == SCRAP@),
{
    reveal(key_in);
    let cands = candidates(conf, offered, false);
    assert(cands == offered);
    if let Decision::Pick(id) = d {
        if !has_unknown(conf, offered) {
            let tw = tied(conf, cands, Tier::Wanted);
            let b = if tw.len() > 0 { Tier::Wanted } else { Tier::Fallback };
            lemma_ties_within(conf, cands, b, best_key(conf, cands, b), id@);
        }
    }
}

/// Everything tied was among the candidates.
proof fn lemma_ties_within(conf: TypeConfig, s: Seq<Seq<char>>, tier: Tier, b: int, x: Seq<char>)
    requires
        ties_at(conf, s, tier, b).contains(x),
    ensures
        s.contains(x),
    decreases s.len(),
{
    reveal(ties_at);
    if s.len() > 0 {
        let p = s.drop_last();
        let r = ties_at(conf, p, tier, b);
        if key_in(conf, s.last(), tier) == Some(b) && !r.contains(x) {
            let i = choose|i: int| 0 <= i < r.push(s.last()).len() && r.push(s.last())[i] == x;
            if i < r.len() {
                assert(r[i] == x);
            }
            assert(s[s.len() - 1] == x);
        } else {
            lemma_ties_within(conf, p, tier, b, x);
            let j = choose|j: int| 0 <= j < p.len() && p[j] == x;
            assert(s[j] == x);
        }
    }
}

/// A reroll is only ever permitted in the currency the game will charge, and
/// never when the game offers none: an unlimited budget of one kind does not
/// fall through to another.
pub proof fn lemma_reroll_in_the_games_currency(b: Budgets, eco: Economy)
    ensures
        reroll_verdict(b, eco) matches RerollVerdict::Allowed(c) ==> c == eco.next_cost,
        eco.next_cost == RerollCost::Unavailable ==> reroll_verdict(b, eco) is Denied,
{
}

/// A permitted reroll stays within its class's budget, and a paid one within
/// what the player can afford and above the floor.
pub proof fn lemma_reroll_within_budget(b: Budgets, eco: Economy)
    requires
        reroll_verdict(b, eco) is Allowed,
    ensures
        eco.next_cost == RerollCost::Voodoo ==> b.voodoo_depth.spec_allows(eco.voodoo_used),
        eco.next_cost == RerollCost::Free ==> b.free_depth.spec_allows(eco.free_used),
        eco.next_cost matches RerollCost::Paid(price) ==> (b.paid_depth.spec_allows(eco.paid_used)
            && price <= eco.denarii && eco.denarii - price >= b.denarii_floor),
{
}

} // verus!
