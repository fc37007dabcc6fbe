//! What the diagnostic survey prints about the reward screen.
//!
//! The survey reads the game elsewhere; here is how what it counted is put
//! into words, so a change on screen can be told from one line to the next.
use vstd::prelude::*;

use crate::text::{chars_of, decimal, digit, push_decimal, push_str, seq_eq, slice_of, str_eq, string_of};

verus! {

/// Reward-related objects worth knowing the presence of: which exist while
/// a choice is open says what the game put up, and so what the player could
/// have done.
pub const UI_OBJECTS: [&'static str; 20] = [
    "obj_card_resource",
    "obj_card_artifact",
    "obj_card_spell",
    "obj_card_improvement",
    "obj_card_upgrade",
    "obj_card_start_bonus",
    "obj_card_class_stat_bonus",
    "obj_card_info",
    "obj_button_reroll_cards",
    "obj_button_rewards_scrap",
    "obj_button_banish_reward",
    "obj_button_rewards_skip",
    "obj_button_rewards_proceed",
    "obj_button_reward_queue",
    "obj_shop",
    "obj_shop_graveyard",
    "obj_prophecy",
    "obj_rewards_wheel",
    "obj_rewards_bundle",
    "obj_reward_option",
];

/// `parts` joined with `sep` between them.
pub open spec fn join(parts: Seq<Seq<char>>, sep: Seq<char>) -> Seq<char>
    decreases parts.len(),
{
    if parts.len() == 0 {
        Seq::empty()
    } else if parts.len() == 1 {
        parts[0]
    } else {
        join(parts.drop_last(), sep) + sep + parts.last()
    }
}

/// `s` with every leading copy of `p` removed, as `trim_start_matches` does.
pub open spec fn trim_prefix(s: Seq<char>, p: Seq<char>) -> Seq<char>
    decreases s.len(),
{
    if p.len() > 0 && s.len() >= p.len() && s.take(p.len() as int) == p {
        trim_prefix(s.skip(p.len() as int), p)
    } else {
        s
    }
}

/// The counts, in decimal, joined with commas: a fingerprint of the screen.
pub open spec fn fingerprint_spec(counts: Seq<usize>) -> Seq<char> {
    join(Seq::new(counts.len(), |i: int| decimal(counts[i] as nat)), ","@)
}

fn push_joined_decimal(out: &mut String, counts: &[usize], k: usize)
    requires
        k <= counts.len(),
    ensures
        final(out)@ == old(out)@ + join(Seq::new(k as nat, |i: int| decimal(counts@[i] as nat)), ","@),
    decreases k,
{
    if k == 0 {
        assert(join(Seq::new(0, |i: int| decimal(counts@[i] as nat)), ","@) =~= Seq::<char>::empty());
        return;
    }
    let ghost parts = Seq::new(k as nat, |i: int| decimal(counts@[i] as nat));
    assert(parts.drop_last() =~= Seq::new((k - 1) as nat, |i: int| decimal(counts@[i] as nat)));
    push_joined_decimal(out, counts, k - 1);
    if k > 1 {
        push_str(out, ",");
    }
    push_decimal(out, counts[k - 1] as u64);
    proof {
        if k == 1 {
            assert(parts.len() == 1);
            assert(join(Seq::new(0, |i: int| decimal(counts@[i] as nat)), ","@) =~= Seq::<char>::empty());
        }
    }
}

proof fn lemma_digit(d: nat)
    requires
        d < 10,
    ensures
        digit(d) as int == 48 + d,
        digit(d) != ',',
{
}

/// A decimal numeral is never empty and holds no comma.
proof fn lemma_decimal_shape(n: nat)
    ensures
        decimal(n).len() > 0,
        !decimal(n).contains(','),
    decreases n,
{
    lemma_digit(n % 10);
    if n >= 10 {
        lemma_decimal_shape(n / 10);
        assert forall|j: int| 0 <= j < decimal(n).len() implies decimal(n)[j] != ',' by {
            if j < decimal(n / 10).len() {
                assert(decimal(n)[j] == decimal(n / 10)[j]);
            }
        }
    } else {
        lemma_digit(n);
    }
}

/// Different numbers are written differently.
proof fn lemma_decimal_injective(m: nat, n: nat)
    requires
        decimal(m) == decimal(n),
    ensures
        m == n,
    decreases m + n,
{
    lemma_digit(m % 10);
    lemma_digit(n % 10);
    if m >= 10 {
        lemma_decimal_shape(m / 10);
    }
    if n >= 10 {
        lemma_decimal_shape(n / 10);
    }
    if m < 10 && n < 10 {
        lemma_digit(m);
        lemma_digit(n);
        assert(decimal(m) == seq![digit(m)]);
        assert(decimal(n) == seq![digit(n)]);
        let sm: Seq<char> = seq![digit(m)];
        let sn: Seq<char> = seq![digit(n)];
        assert(sm[0] == digit(m));
        assert(sn[0] == digit(n));
        assert(sm == sn);
        assert(digit(m) == digit(n));
        assert(digit(m) as int == digit(n) as int);
    } else if m < 10 {
        assert(decimal(m) == seq![digit(m)]);
        assert(decimal(n) == decimal(n / 10).push(digit(n % 10)));
        assert(decimal(m).len() == 1);
        assert(decimal(n).len() >= 2);
    } else if n < 10 {
        assert(decimal(n) == seq![digit(n)]);
        assert(decimal(m) == decimal(m / 10).push(digit(m % 10)));
        assert(decimal(n).len() == 1);
        assert(decimal(m).len() >= 2);
    } else {
        assert(decimal(m) == decimal(m / 10).push(digit(m % 10)));
        assert(decimal(n) == decimal(n / 10).push(digit(n % 10)));
        let dm = decimal(m);
        let dn = decimal(n);
        assert(dm[dm.len() - 1] == digit(m % 10));
        assert(dn[dn.len() - 1] == digit(n % 10));
        assert(dm.len() == dn.len());
        assert(digit(m % 10) == digit(n % 10));
        assert(m % 10 == n % 10);
        assert(decimal(m).drop_last() =~= decimal(m / 10));
        assert(decimal(n).drop_last() =~= decimal(n / 10));
        lemma_decimal_injective(m / 10, n / 10);
        assert(m == 10 * (m / 10) + m % 10);
        assert(n == 10 * (n / 10) + n % 10);
    }
}

/// Two texts split at their last comma agree on both sides.
proof fn lemma_last_comma(a1: Seq<char>, b1: Seq<char>, a2: Seq<char>, b2: Seq<char>)
    requires
        a1 + ","@ + b1 == a2 + ","@ + b2,
        !b1.contains(','),
        !b2.contains(','),
    ensures
        a1 == a2,
        b1 == b2,
{
    reveal_strlit(",");
    let c = ","@;
    assert(c.len() == 1 && c[0] == ',');
    let x = a1 + c + b1;
    let y = a2 + c + b2;
    assert(x[a1.len() as int] == ',');
    assert(y[a2.len() as int] == ',');
    assert(x.len() == y.len());
    if b1.len() < b2.len() {
        let k = a1.len() as int;
        let idx = k - a2.len() - 1;
        assert(0 <= idx < b2.len());
        assert(y[k] == b2[idx]);
        assert(b2[idx] == ',');
        assert(b2.contains(','));
    } else if b2.len() < b1.len() {
        let k = a2.len() as int;
        let idx = k - a1.len() - 1;
        assert(0 <= idx < b1.len());
        assert(x[k] == b1[idx]);
        assert(b1[idx] == ',');
        assert(b1.contains(','));
    }
    assert(a1 =~= x.take(a1.len() as int));
    assert(a2 =~= y.take(a2.len() as int));
    assert(b1 =~= x.skip(a1.len() + 1int));
    assert(b2 =~= y.skip(a2.len() + 1int));
}

/// Joining comma-free, non-empty parts with commas loses nothing.
proof fn lemma_join_injective(p: Seq<Seq<char>>, q: Seq<Seq<char>>)
    requires
        join(p, ","@) == join(q, ","@),
        forall|i: int| 0 <= i < p.len() ==> (#[trigger] p[i]).len() > 0 && !p[i].contains(','),
        forall|i: int| 0 <= i < q.len() ==> (#[trigger] q[i]).len() > 0 && !q[i].contains(','),
    ensures
        p == q,
    decreases p.len() + q.len(),
{
    reveal_strlit(",");
    lemma_join_shape(p);
    lemma_join_shape(q);
    if p.len() >= 2 && q.len() >= 2 {
        lemma_last_comma(join(p.drop_last(), ","@), p.last(), join(q.drop_last(), ","@), q.last());
        lemma_join_injective(p.drop_last(), q.drop_last());
        assert(p =~= p.drop_last().push(p.last()));
        assert(q =~= q.drop_last().push(q.last()));
    } else if p.len() == 1 && q.len() == 1 {
        assert(p =~= q);
    } else if p.len() == 0 && q.len() == 0 {
        assert(p =~= q);
    }
}

/// A join of non-empty comma-free parts is empty exactly when there are no
/// parts, and holds a comma exactly when there are two or more.
proof fn lemma_join_shape(p: Seq<Seq<char>>)
    requires
        forall|i: int| 0 <= i < p.len() ==> (#[trigger] p[i]).len() > 0 && !p[i].contains(','),
    ensures
        (join(p, ","@).len() == 0) == (p.len() == 0),
        join(p, ","@).contains(',') == (p.len() >= 2),
    decreases p.len(),
{
    reveal_strlit(",");
    if p.len() >= 2 {
        lemma_join_shape(p.drop_last());
        let j = join(p.drop_last(), ","@);
        assert((j + ","@ + p.last())[j.len() as int] == ',');
    } else if p.len() == 1 {
        assert(p[0].len() > 0);
    }
}

/// Two screens have the same fingerprint exactly when their counts are the
/// same: the fingerprint can stand for the counts.
pub proof fn lemma_fingerprint_injective(a: Seq<usize>, b: Seq<usize>)
    ensures
        (fingerprint_spec(a) == fingerprint_spec(b)) == (a == b),
{
    if fingerprint_spec(a) == fingerprint_spec(b) {
        let pa = Seq::new(a.len(), |i: int| decimal(a[i] as nat));
        let pb = Seq::new(b.len(), |i: int| decimal(b[i] as nat));
        assert forall|i: int| 0 <= i < pa.len() implies (#[trigger] pa[i]).len() > 0 && !pa[i].contains(',') by {
            lemma_decimal_shape(a[i] as nat);
        }
        assert forall|i: int| 0 <= i < pb.len() implies (#[trigger] pb[i]).len() > 0 && !pb[i].contains(',') by {
            lemma_decimal_shape(b[i] as nat);
        }
        lemma_join_injective(pa, pb);
        assert forall|i: int| 0 <= i < a.len() implies a[i] == b[i] by {
            assert(pa[i] == pb[i]);
            lemma_decimal_injective(a[i] as nat, b[i] as nat);
        }
        assert(a =~= b);
    }
}

/// The counts of [`UI_OBJECTS`] on screen, as one line: a fingerprint of
/// the screen, to detect a change without logging every poll.
pub fn fingerprint(counts: &[usize]) -> (s: String)
    ensures
        s@ == fingerprint_spec(counts@),
{
    let mut s = String::new();
    push_joined_decimal(&mut s, counts, counts.len());
    s
}

/// The entries of the `ui:` line: each object on screen, without its
/// `obj_` prefix, with how many there are.
pub open spec fn present(counts: Seq<usize>, k: int) -> Seq<Seq<char>>
    decreases k,
{
    if k <= 0 {
        Seq::empty()
    } else if counts[k - 1] > 0 {
        present(counts, k - 1).push(
            trim_prefix(UI_OBJECTS@[k - 1]@, "obj_"@) + "x"@ + decimal(counts[k - 1] as nat),
        )
    } else {
        present(counts, k - 1)
    }
}

pub open spec fn ui_line_spec(counts: Seq<usize>) -> Seq<char> {
    let n = if counts.len() < 20 {
        counts.len() as int
    } else {
        20
    };
    let p = present(counts, n);
    "  ui: "@ + if p.len() == 0 {
        "<nothing>"@
    } else {
        join(p, " "@)
    }
}

/// `s` with every leading copy of `p` removed.
fn trimmed_prefix(s: &str, p: &str) -> (r: String)
    ensures
        r@ == trim_prefix(s@, p@),
{
    let cs = chars_of(s);
    let ps = chars_of(p);
    let mut a: usize = 0;
    assert(cs@.skip(0) =~= cs@);
    while ps.len() > 0 && cs.len() - a >= ps.len()
        invariant
            0 <= a <= cs.len(),
            cs@ == s@,
            ps@ == p@,
            trim_prefix(s@, p@) == trim_prefix(cs@.skip(a as int), p@),
        ensures
            0 <= a <= cs.len(),
            trim_prefix(s@, p@) == cs@.skip(a as int),
        decreases cs.len() - a,
    {
        let head = slice_of(&cs, a, a + ps.len());
        assert(head@ == cs@.skip(a as int).take(ps.len() as int));
        if !seq_eq(&head, &ps) {
            assert(trim_prefix(cs@.skip(a as int), p@) == cs@.skip(a as int));
            break;
        }
        assert(cs@.skip(a as int).skip(ps.len() as int) =~= cs@.skip(a + ps.len()));
        a = a + ps.len();
    }
    let rest = slice_of(&cs, a, cs.len());
    assert(rest@ =~= cs@.skip(a as int));
    string_of(&rest)
}

/// The `ui:` line of the survey: every object of [`UI_OBJECTS`] present,
/// with its count, or `<nothing>`.
pub fn ui_line(counts: &[usize]) -> (s: String)
    ensures
        s@ == ui_line_spec(counts@),
{
    let n: usize = if counts.len() < 20 {
        counts.len()
    } else {
        20
    };
    let mut parts: Vec<String> = Vec::new();
    let mut i: usize = 0;
    while i < n
        invariant
            0 <= i <= n,
            n <= counts.len(),
            n <= 20,
            parts@.len() == present(counts@, i as int).len(),
            forall|j: int| 0 <= j < parts@.len() ==> #[trigger] parts@[j]@ == present(counts@, i as int)[j],
        decreases n - i,
    {
        if counts[i] > 0 {
            let mut e = trimmed_prefix(UI_OBJECTS[i], "obj_");
            push_str(&mut e, "x");
            push_decimal(&mut e, counts[i] as u64);
            parts.push(e);
        }
        i = i + 1;
    }
    let mut s = String::new();
    push_str(&mut s, "  ui: ");
    if parts.len() == 0 {
        push_str(&mut s, "<nothing>");
    } else {
        let ghost ps = present(counts@, n as int);
        let mut k: usize = 0;
        let ghost base = s@;
        assert(join(ps.take(0), " "@) =~= Seq::<char>::empty());
        while k < parts.len()
            invariant
                0 <= k <= parts.len(),
                parts@.len() == ps.len(),
                forall|j: int| 0 <= j < parts@.len() ==> #[trigger] parts@[j]@ == ps[j],
                s@ == base + join(ps.take(k as int), " "@),
            decreases parts.len() - k,
        {
            if k > 0 {
                push_str(&mut s, " ");
            }
            push_str(&mut s, parts[k].as_str());
            assert(ps.take(k + 1).drop_last() =~= ps.take(k as int));
            assert(ps.take(k + 1).last() == parts@[k as int]@);
            proof {
                if k == 0 {
                    assert(ps.take(1).len() == 1);
                }
            }
            k = k + 1;
        }
        assert(ps.take(k as int) =~= ps);
    }
    s
}

/// The count at `i`, or none.
pub open spec fn count_at(counts: Seq<usize>, i: int) -> nat {
    if 0 <= i < counts.len() {
        counts[i] as nat
    } else {
        0
    }
}

/// The survey's line on scrap and banish buttons, observed rather than
/// inferred.
pub fn buttons_line(counts: &[usize]) -> (s: String)
    ensures
        s@ == "  scrap_buttons="@ + decimal(count_at(counts@, 9)) + " banish_buttons="@ + decimal(
            count_at(counts@, 10),
        ),
{
    let scrap: usize = if 9 < counts.len() {
        counts[9]
    } else {
        0
    };
    let banish: usize = if 10 < counts.len() {
        counts[10]
    } else {
        0
    };
    let mut s = String::new();
    push_str(&mut s, "  scrap_buttons=");
    push_decimal(&mut s, scrap as u64);
    push_str(&mut s, " banish_buttons=");
    push_decimal(&mut s, banish as u64);
    s
}

/// The short name of a card object, as the survey prints it.
pub fn card_name(obj: &str) -> (r: String)
    ensures
        r@ == trim_prefix(obj@, "obj_card_"@),
{
    trimmed_prefix(obj, "obj_card_")
}

// ------------------------------------------------------------ the queue

/// The types of a tally, each with its count, as values.
pub open spec fn tally_view(t: Seq<(String, usize)>) -> Seq<(Seq<char>, usize)> {
    Seq::new(t.len(), |i: int| (t[i].0@, t[i].1))
}

/// Where `ty` stands in a tally, if it does.
pub open spec fn key_index(t: Seq<(Seq<char>, usize)>, ty: Seq<char>) -> Option<int>
    decreases t.len(),
{
    if t.len() == 0 {
        None
    } else if t.last().0 == ty {
        Some(t.len() - 1)
    } else {
        key_index(t.drop_last(), ty)
    }
}

/// How many entries of each type `types` holds, the types in the order
/// they first appear.
pub open spec fn tally(types: Seq<Seq<char>>) -> Seq<(Seq<char>, usize)>
    decreases types.len(),
{
    if types.len() == 0 {
        Seq::empty()
    } else {
        let prev = tally(types.drop_last());
        let ty = types.last();
        match key_index(prev, ty) {
            Some(i) => prev.update(i, (ty, (prev[i].1 + 1) as usize)),
            None => prev.push((ty, 1usize)),
        }
    }
}

/// Where an entry with count `c` goes in a list ranked by count: after
/// every entry counting at least as many.
pub open spec fn rank_slot(r: Seq<(Seq<char>, usize)>, c: usize) -> int
    decreases r.len(),
{
    if r.len() == 0 {
        0
    } else if r.last().1 >= c {
        r.len() as int
    } else {
        rank_slot(r.drop_last(), c)
    }
}

/// A tally ranked by count, most first; types with equal counts keep their
/// order, as a stable sort leaves them.
pub open spec fn ranked(t: Seq<(Seq<char>, usize)>) -> Seq<(Seq<char>, usize)>
    decreases t.len(),
{
    if t.len() == 0 {
        Seq::empty()
    } else {
        let r = ranked(t.drop_last());
        r.insert(rank_slot(r, t.last().1), t.last())
    }
}

proof fn lemma_key_index(t: Seq<(Seq<char>, usize)>, ty: Seq<char>)
    ensures
        match key_index(t, ty) {
            Some(i) => 0 <= i < t.len() && t[i].0 == ty,
            None => forall|j: int| 0 <= j < t.len() ==> (#[trigger] t[j]).0 != ty,
        },
    decreases t.len(),
{
    if t.len() > 0 && t.last().0 != ty {
        lemma_key_index(t.drop_last(), ty);
        match key_index(t, ty) {
            Some(i) => {
                assert(t[i] == t.drop_last()[i]);
            },
            None => {
                assert forall|j: int| 0 <= j < t.len() implies (#[trigger] t[j]).0 != ty by {
                    if j < t.len() - 1 {
                        assert(t[j] == t.drop_last()[j]);
                    }
                }
            },
        }
    }
}

proof fn lemma_rank_slot(r: Seq<(Seq<char>, usize)>, c: usize)
    requires
        forall|i: int, j: int| 0 <= i < j < r.len() ==> (#[trigger] r[i]).1 >= (#[trigger] r[j]).1,
    ensures
        0 <= rank_slot(r, c) <= r.len(),
        forall|j: int| 0 <= j < rank_slot(r, c) ==> (#[trigger] r[j]).1 >= c,
        forall|j: int| rank_slot(r, c) <= j < r.len() ==> (#[trigger] r[j]).1 < c,
    decreases r.len(),
{
    if r.len() > 0 {
        if r.last().1 >= c {
            assert forall|j: int| 0 <= j < r.len() implies (#[trigger] r[j]).1 >= c by {
                if j < r.len() - 1 {
                    assert(r[j].1 >= r[r.len() - 1].1);
                }
            }
        } else {
            let d = r.drop_last();
            lemma_rank_slot(d, c);
            assert forall|j: int| 0 <= j < rank_slot(r, c) implies (#[trigger] r[j]).1 >= c by {
                assert(r[j] == d[j]);
            }
            assert forall|j: int| rank_slot(r, c) <= j < r.len() implies (#[trigger] r[j]).1 < c by {
                if j < r.len() - 1 {
                    assert(r[j] == d[j]);
                }
            }
        }
    }
}

/// A ranked tally is in order of count, most first, and has one entry per
/// entry of the tally.
pub proof fn lemma_ranked_sorted(t: Seq<(Seq<char>, usize)>)
    ensures
        ranked(t).len() == t.len(),
        forall|i: int, j: int|
            0 <= i < j < ranked(t).len() ==> (#[trigger] ranked(t)[i]).1 >= (#[trigger] ranked(t)[j]).1,
    decreases t.len(),
{
    if t.len() > 0 {
        let r = ranked(t.drop_last());
        lemma_ranked_sorted(t.drop_last());
        let e = t.last();
        lemma_rank_slot(r, e.1);
        let k = rank_slot(r, e.1);
        let out = r.insert(k, e);
        assert forall|i: int, j: int| 0 <= i < j < out.len() implies (#[trigger] out[i]).1 >= (
        #[trigger] out[j]).1 by {
            if j < k {
                assert(out[i] == r[i] && out[j] == r[j]);
            } else if j == k {
                assert(out[i] == r[i]);
            } else if i == k {
                assert(out[j] == r[j - 1]);
            } else if i < k {
                assert(out[i] == r[i] && out[j] == r[j - 1]);
            } else {
                assert(out[i] == r[i - 1] && out[j] == r[j - 1]);
            }
        }
    }
}

/// How many queue entries there are of each type, the type met most often
/// first; types with equal counts in the order they first appear.
pub fn queue_tally(types: &[String]) -> (r: Vec<(String, usize)>)
    requires
        types.len() < usize::MAX,
    ensures
        tally_view(r@) == ranked(tally(types@.map_values(|t: String| t@))),
{
    let ghost tv = types@.map_values(|t: String| t@);
    let mut t: Vec<(String, usize)> = Vec::new();
    let mut i: usize = 0;
    assert(tv.take(0) =~= Seq::<Seq<char>>::empty());
    assert(tally_view(t@) =~= Seq::<(Seq<char>, usize)>::empty());
    while i < types.len()
        invariant
            0 <= i <= types.len(),
            types.len() < usize::MAX,
            tv == types@.map_values(|t: String| t@),
            tally_view(t@) == tally(tv.take(i as int)),
            forall|j: int| 0 <= j < t.len() ==> (#[trigger] t@[j]).1 <= i,
        decreases types.len() - i,
    {
        let ghost before = tally_view(t@);
        let ty = &types[i];
        assert(tv.take(i + 1).drop_last() =~= tv.take(i as int));
        assert(tv.take(i + 1).last() == ty@);
        assert(before.take(t.len() as int) =~= before);
        let mut k: usize = t.len();
        let mut j: usize = t.len();
        while j > 0 && k == t.len()
            invariant
                0 <= j <= t.len(),
                tally_view(t@) == before,
                k <= t.len(),
                k == t.len() ==> key_index(before, ty@) == key_index(before.take(j as int), ty@),
                k < t.len() ==> key_index(before, ty@) == Some(k as int),
            decreases j,
        {
            let jj = j - 1;
            let ghost pre = before.take(j as int);
            assert(pre.drop_last() =~= before.take(jj as int));
            assert(pre.last() == before[jj as int]);
            assert(before[jj as int].0 == t@[jj as int].0@);
            if str_eq(t[jj].0.as_str(), ty.as_str()) {
                k = jj;
            }
            j = jj;
        }
        if k == t.len() {
            assert(before.take(0) =~= Seq::<(Seq<char>, usize)>::empty());
            assert(key_index(before, ty@) is None);
            t.push((ty.clone(), 1));
            proof {
                assert(tally_view(t@) =~= before.push((ty@, 1usize)));
            }
        } else {
            let c = t[k].1;
            assert(c <= i);
            let name = ty.clone();
            t.set(k, (name, c + 1));
            proof {
                assert(tally_view(t@) =~= before.update(k as int, (ty@, (before[k as int].1 + 1) as usize)));
            }
        }
        i = i + 1;
    }
    assert(tv.take(types.len() as int) =~= tv);
    let ghost tl = tally_view(t@);
    // rank: insert each entry after every entry counting at least as many
    let mut r: Vec<(String, usize)> = Vec::new();
    let mut m: usize = 0;
    assert(tl.take(0) =~= Seq::<(Seq<char>, usize)>::empty());
    assert(tally_view(r@) =~= Seq::<(Seq<char>, usize)>::empty());
    while m < t.len()
        invariant
            0 <= m <= t.len(),
            tl == tally_view(t@),
            tally_view(r@) == ranked(tl.take(m as int)),
        decreases t.len() - m,
    {
        let name = t[m].0.clone();
        let c = t[m].1;
        let ghost pre = tally_view(r@);
        assert(pre.take(r.len() as int) =~= pre);
        let mut q: usize = r.len();
        while q > 0 && r[q - 1].1 < c
            invariant
                0 <= q <= r.len(),
                tally_view(r@) == pre,
                rank_slot(pre, c) == rank_slot(pre.take(q as int), c),
            decreases q,
        {
            let ghost cur = pre.take(q as int);
            assert(cur.drop_last() =~= pre.take(q - 1));
            assert(cur.last() == pre[q - 1]);
            q = q - 1;
        }
        proof {
            if q > 0 {
                let cur = pre.take(q as int);
                assert(cur.last() == pre[q - 1]);
            } else {
                assert(pre.take(0) =~= Seq::<(Seq<char>, usize)>::empty());
            }
            assert(rank_slot(pre, c) == q);
        }
        r.insert(q, (name, c));
        proof {
            assert(tally_view(r@) =~= pre.insert(q as int, (tl[m as int].0, c)));
            assert(tl.take(m + 1).drop_last() =~= tl.take(m as int));
            assert(tl.take(m + 1).last() == tl[m as int]);
        }
        m = m + 1;
    }
    assert(tl.take(t.len() as int) =~= tl);
    r
}

} // verus!
