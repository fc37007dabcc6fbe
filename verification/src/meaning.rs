//! Why normalising the config does not change what it says.
//!
//! [`normalise`] gives an unvalued wanted or fallback option an explicit
//! `= 0`. The parser reads a bare option at weight 0 anyway, so the rewritten
//! file keeps every setting, budget and option it had; only the warning about
//! the missing weight goes, which is the point of writing it back.
//!
//! The argument runs the parser over the file and over its rewrite side by
//! side, line by line. A line left alone is read alike; a rewritten line adds
//! the same option with the same weight, as long as the text `0` is read as
//! weight zero. The two readings sit in the same section at every line:
//! `normalise` takes a line for a header exactly when the parser does, and
//! adds weights only inside a reward type's wanted or fallback tier.
//!
//! [`normalise`]: crate::config::normalise
use vstd::prelude::*;

use crate::config::{
    eq_zero, head_text, is_header, needs_weight, norm_line, normalised, parse_section_spec,
    strip_comment_spec, three_spaces, word_global, Tier,
};
use crate::parse::{
    header_line, kv_spec, option_step, parsed, run, stage_step, step, weight_at, ParseState,
    StageView,
};
use crate::text::{first_index, is_ws, lines, strip_cr, trim, trim_end};
use crate::converge::{
    lemma_body, lemma_first_index_props, lemma_head_text_strip_cr, lemma_trail, lemma_trim_agree,
    lemma_trim_bounds, lemma_trim_of_trim_end,
};

verus! {

/// A line as the parser reads it: its comment cut off, trimmed.
pub open spec fn processed(raw: Seq<char>) -> Seq<char> {
    trim(strip_comment_spec(raw))
}

/// The weight text the parser collects from line `raw` in state `st`, if
/// it collects one: only an option line with an `=`, inside a tier of a
/// reward type.
pub open spec fn pushed(st: ParseState, raw: Seq<char>) -> Option<Seq<char>> {
    let line = processed(raw);
    if line.len() == 0 || header_line(line) {
        None
    } else {
        match st.section {
            None => None,
            Some((ty, tier)) => if ty == word_global() {
                None
            } else {
                match tier {
                    None => None,
                    Some(_) => match kv_spec(line) {
                        Some((_, w)) => Some(w),
                        None => None,
                    },
                }
            },
        }
    }
}

proof fn lemma_option_text(stg: StageView, n: nat, line: Seq<char>, t: Tier, a: Option<u64>)
    ensures
        option_step(stg, n, line, t, a).1 == match kv_spec(line) {
            Some((_, w)) => Some(w),
            None => None::<Seq<char>>,
        },
{
}

/// The weight texts and the section after a line do not depend on the
/// weights; the weight texts grow by what the line collects.
#[verifier::spinoff_prover]
#[verifier::rlimit(40)]
proof fn lemma_step_shape(st: ParseState, n: nat, raw: Seq<char>, w1: Seq<Option<u64>>, w2: Seq<Option<u64>>)
    ensures
        step(st, n, raw, w1).wtexts == match pushed(st, raw) {
            Some(w) => st.wtexts.push(w),
            None => st.wtexts,
        },
        step(st, n, raw, w1).wtexts == step(st, n, raw, w2).wtexts,
        step(st, n, raw, w1).section == step(st, n, raw, w2).section,
{
    let line = processed(raw);
    if line.len() == 0 || header_line(line) {
    } else {
        match st.section {
            None => {},
            Some((ty, tier)) => if ty != word_global() {
                match tier {
                    None => {},
                    Some(t) => {
                        let staged = crate::parse::touch(st.staged, ty);
                        let i = match crate::parse::find_stage(staged, ty) {
                            Some(i) => i,
                            None => 0,
                        };
                        let stg = staged[i];
                        let len = st.wtexts.len() as int;
                        lemma_option_text(stg, n, line, t, weight_at(w1, len));
                        lemma_option_text(stg, n, line, t, weight_at(w2, len));
                        assert(step(st, n, raw, w1) == stage_step(st, n, line, ty, tier, w1));
                        assert(step(st, n, raw, w2) == stage_step(st, n, line, ty, tier, w2));
                    },
                }
            },
        }
    }
}

/// What a parser state says, leaving out the problems found and the weight
/// texts collected: the global settings, the section in force, and the
/// reward types with their budgets, options and per-type problems.
pub open spec fn same_meaning(a: ParseState, b: ParseState) -> bool {
    a.global == b.global && a.section == b.section && a.staged == b.staged
}

proof fn lemma_option_without_weight(stg: StageView, n: nat, line: Seq<char>, t: Tier, a: Option<u64>, b: Option<u64>)
    requires
        kv_spec(line) is None,
    ensures
        option_step(stg, n, line, t, a).0 == option_step(stg, n, line, t, b).0,
{
}

/// Two states that say the same thing still do after a line both read
/// alike, when an option weight it reads is read the same in both.
#[verifier::spinoff_prover]
#[verifier::rlimit(40)]
proof fn lemma_step_congruent(
    s1: ParseState,
    s2: ParseState,
    n: nat,
    l1: Seq<char>,
    l2: Seq<char>,
    w1: Seq<Option<u64>>,
    w2: Seq<Option<u64>>,
)
    requires
        same_meaning(s1, s2),
        processed(l1) == processed(l2),
        pushed(s1, l1) is Some ==> weight_at(w1, s1.wtexts.len() as int) == weight_at(
            w2,
            s2.wtexts.len() as int,
        ),
    ensures
        same_meaning(step(s1, n, l1, w1), step(s2, n, l2, w2)),
{
    let line = processed(l1);
    if line.len() == 0 || header_line(line) {
    } else {
        match s1.section {
            None => {},
            Some((ty, tier)) => if ty != word_global() {
                match tier {
                    None => {},
                    Some(t) => {
                        let staged = crate::parse::touch(s1.staged, ty);
                        let i = match crate::parse::find_stage(staged, ty) {
                            Some(i) => i,
                            None => 0,
                        };
                        let stg = staged[i];
                        let a1 = weight_at(w1, s1.wtexts.len() as int);
                        let a2 = weight_at(w2, s2.wtexts.len() as int);
                        if kv_spec(line) is None {
                            lemma_option_without_weight(stg, n, line, t, a1, a2);
                        }
                        assert(step(s1, n, l1, w1) == stage_step(s1, n, line, ty, tier, w1));
                        assert(step(s2, n, l2, w2) == stage_step(s2, n, line, ty, tier, w2));
                    },
                }
            },
        }
    }
}

/// How the parser reads a line that `normalise` gave ` = 0`: the original
/// as the bare option `p`, the rewrite as `p = 0`.
#[verifier::spinoff_prover]
#[verifier::rlimit(40)]
proof fn lemma_rewritten_reads(l: Seq<char>, tier: Option<Tier>) -> (p: Seq<char>)
    requires
        !is_header(head_text(l)),
        needs_weight(l, tier),
    ensures
        processed(l) == p,
        p.len() > 0,
        !p.contains('='),
        processed(norm_line(l, tier).0) == p + eq_zero(),
        kv_spec(p + eq_zero()) == Some((p, seq!['0'])),
        !header_line(p + eq_zero()),
{
    let sc = strip_comment_spec(l);
    let body = trim_end(sc);
    let m = lemma_body(l);
    let k = lemma_trail(sc);
    assert(body == l.take(m));
    lemma_trim_of_trim_end(sc);
    let p = trim(body);
    let (a, b) = lemma_trim_bounds(body);
    assert(p.len() > 0);
    assert(b == body.len()) by {
        if b < body.len() {
            assert(is_ws(body[body.len() - 1]));
            assert(body[body.len() - 1] == sc[k - 1]);
        }
    }
    assert(!p.contains('=')) by {
        assert forall|j: int| 0 <= j < p.len() implies p[j] != '=' by {
            assert(p[j] == body[a + j]);
        }
    }
    // the rewritten line, and its comment
    let tail = match first_index(l, '#') {
        Some(i) => three_spaces() + l.skip(i),
        None => Seq::<char>::empty(),
    };
    let r = body + eq_zero() + tail;
    assert(r == norm_line(l, tier).0);
    let q = body + eq_zero();
    lemma_first_index_props(l, '#');
    lemma_first_index_props(r, '#');
    assert forall|j: int| 0 <= j < q.len() implies r[j] != '#' by {
        if j < m {
            assert(r[j] == l[j]);
        }
    }
    let qq = match first_index(l, '#') {
        Some(i) => {
            assert(r[q.len() + 3int] == '#');
            match first_index(r, '#') {
                Some(f) => {
                    assert(f == q.len() + 3) by {
                        if f < q.len() {
                            assert(r[f] != '#');
                        } else if f < q.len() + 3 {
                            assert(r[f] == ' ');
                        }
                    }
                },
                None => {},
            }
            assert(strip_comment_spec(r) =~= q + three_spaces());
            q + three_spaces()
        },
        None => {
            match first_index(r, '#') {
                Some(f) => {
                    assert(r[f] == '#');
                },
                None => {},
            }
            assert(r =~= q);
            assert(strip_comment_spec(r) == q);
            q
        },
    };
    assert forall|j: int| q.len() <= j < qq.len() implies is_ws(#[trigger] qq[j]) by {
        assert(qq[j] == ' ');
    }
    lemma_trim_agree(qq, q, q.len() as int);
    // trimming `body = 0`
    let (c, d) = lemma_trim_bounds(q);
    assert(!is_ws(q[a])) by {
        assert(q[a] == body[a]);
    }
    assert(c == a) by {
        if c < a {
            assert(q[c] == body[c]);
        }
        if c > a {
            assert(is_ws(q[a]));
        }
    }
    assert(q[q.len() - 1] == '0');
    assert(d == q.len()) by {
        if d < q.len() {
            assert(is_ws(q[q.len() - 1]));
        }
    }
    assert(trim(q) =~= p + eq_zero());
    // splitting `p = 0`
    let e = p + eq_zero();
    lemma_first_index_props(e, '=');
    assert(e[p.len() + 1int] == '=');
    match first_index(e, '=') {
        Some(f) => {
            assert(f == p.len() + 1) by {
                if f < p.len() {
                    assert(e[f] == p[f]);
                } else if f == p.len() {
                    assert(e[f] == ' ');
                }
            }
        },
        None => {},
    }
    let (pa, pb) = lemma_trim_bounds(p);
    assert(!is_ws(p[0])) by {
        assert(p[0] == body[a]);
    }
    assert(!is_ws(p[p.len() - 1])) by {
        assert(p[p.len() - 1] == body[b - 1]);
    }
    assert(pa == 0);
    assert(pb == p.len());
    assert(trim(p) =~= p);
    let pk = e.take(p.len() + 1int);
    assert(pk =~= p.push(' '));
    assert(is_ws(pk[p.len() as int]));
    lemma_trim_agree(pk, p, p.len() as int);
    let pv = e.skip(p.len() + 2int);
    assert(pv =~= seq![' ', '0']);
    let (va, vb) = lemma_trim_bounds(pv);
    assert(is_ws(pv[0]));
    assert(!is_ws(pv[1]));
    assert(va == 1 && vb == 2);
    assert(trim(pv) =~= seq!['0']);
    p
}

/// A rewritten line adds the same option, with the same weight, as the bare
/// one did, when `0` is read as weight zero.
#[verifier::spinoff_prover]
#[verifier::rlimit(40)]
proof fn lemma_rewrite_step(
    s1: ParseState,
    s2: ParseState,
    n: nat,
    l1: Seq<char>,
    l2: Seq<char>,
    w1: Seq<Option<u64>>,
    w2: Seq<Option<u64>>,
    p: Seq<char>,
)
    requires
        same_meaning(s1, s2),
        s1.section matches Some((ty, Some(_))) && ty != word_global(),
        processed(l1) == p,
        p.len() > 0,
        !p.contains('='),
        !header_line(p),
        processed(l2) == p + eq_zero(),
        kv_spec(p + eq_zero()) == Some((p, seq!['0'])),
        !header_line(p + eq_zero()),
        weight_at(w2, s2.wtexts.len() as int) == Some(0u64),
    ensures
        same_meaning(step(s1, n, l1, w1), step(s2, n, l2, w2)),
{
    let (ty, tier) = s1.section->0;
    let t = tier->0;
    assert(kv_spec(p) is None) by {
        assert(!exists|i: int| 0 <= i < p.len() && p[i] == '=');
    }
    let staged = crate::parse::touch(s1.staged, ty);
    let i = match crate::parse::find_stage(staged, ty) {
        Some(i) => i,
        None => 0,
    };
    let stg = staged[i];
    assert(option_step(stg, n, p, t, weight_at(w1, s1.wtexts.len() as int)).0
        == crate::parse::add_option(stg, n, p, t, 0));
    assert(option_step(stg, n, p + eq_zero(), t, Some(0u64)).0 == crate::parse::add_option(
        stg,
        n,
        p,
        t,
        0,
    ));
    assert(step(s1, n, l1, w1) == stage_step(s1, n, p, ty, tier, w1));
    assert(step(s2, n, l2, w2) == stage_step(s2, n, p + eq_zero(), ty, tier, w2));
}

/// The tier `normalise` has in force in a parser section: a reward type's
/// tier; none in the global section or outside any section.
pub open spec fn norm_tier(sec: Option<(Seq<char>, Option<Tier>)>) -> Option<Tier> {
    match sec {
        Some((ty, t)) => if ty == word_global() {
            None
        } else {
            t
        },
        None => None,
    }
}

/// The tier `normalise` has in force agrees with the parser's section.
pub open spec fn tier_agrees(tau: Option<Tier>, st: ParseState) -> bool {
    tau == norm_tier(st.section)
}

proof fn lemma_not_header_keeps_section(st: ParseState, n: nat, l: Seq<char>, w: Seq<Option<u64>>)
    requires
        !header_line(processed(l)),
    ensures
        step(st, n, l, w).section == st.section,
{
}

/// One line, read from the file and from its rewrite: what the two parser
/// states say stays the same, and the tier `normalise` has in force keeps
/// agreeing with the parser's section.
#[verifier::spinoff_prover]
#[verifier::rlimit(40)]
proof fn lemma_line_keeps_meaning(
    s1: ParseState,
    s2: ParseState,
    n: nat,
    l1: Seq<char>,
    l2: Seq<char>,
    tau: Option<Tier>,
    w1: Seq<Option<u64>>,
    w2: Seq<Option<u64>>,
    read: spec_fn(Seq<char>) -> Option<u64>,
)
    requires
        same_meaning(s1, s2),
        tier_agrees(tau, s1),
        l2 == norm_line(l1, tau).0 || l2 == strip_cr(norm_line(l1, tau).0),
        pushed(s1, l1) is Some ==> weight_at(w1, s1.wtexts.len() as int) == read(pushed(s1, l1)->0),
        pushed(s2, l2) is Some ==> weight_at(w2, s2.wtexts.len() as int) == read(pushed(s2, l2)->0),
        read(seq!['0']) == Some(0u64),
    ensures
        same_meaning(step(s1, n, l1, w1), step(s2, n, l2, w2)),
        tier_agrees(norm_line(l1, tau).2, step(s1, n, l1, w1)),
{
    let h = head_text(l1);
    lemma_head_text_strip_cr(l1);
    if is_header(h) {
        assert(processed(l1) == h);
        lemma_step_congruent(s1, s2, n, l1, l2, w1, w2);
        reveal(parse_section_spec);
    } else if !needs_weight(l1, tau) {
        assert(!header_line(processed(l1)));
        assert(pushed(s1, l1) == pushed(s2, l2));
        lemma_step_congruent(s1, s2, n, l1, l2, w1, w2);
        lemma_not_header_keeps_section(s1, n, l1, w1);
    } else {
        let p = lemma_rewritten_reads(l1, tau);
        lemma_head_text_strip_cr(norm_line(l1, tau).0);
        assert(!header_line(p));
        assert(pushed(s2, l2) == Some(seq!['0']));
        lemma_rewrite_step(s1, s2, n, l1, l2, w1, w2, p);
        lemma_not_header_keeps_section(s1, n, l1, w1);
    }
}

#[verifier::spinoff_prover]
#[verifier::rlimit(40)]
proof fn lemma_step_shape2(
    s1: ParseState,
    s2: ParseState,
    n: nat,
    raw: Seq<char>,
    w1: Seq<Option<u64>>,
    w2: Seq<Option<u64>>,
)
    requires
        s1.section == s2.section,
        s1.wtexts == s2.wtexts,
    ensures
        step(s1, n, raw, w1).wtexts == step(s2, n, raw, w2).wtexts,
        step(s1, n, raw, w1).section == step(s2, n, raw, w2).section,
{
    lemma_step_shape(s1, n, raw, w1, w1);
    lemma_step_shape(s2, n, raw, w2, w2);
    assert(pushed(s1, raw) == pushed(s2, raw));
    let line = processed(raw);
    if line.len() == 0 {
    } else if header_line(line) {
        assert(step(s1, n, raw, w1).section == crate::parse::header_step(
            s1,
            n,
            trim(line.subrange(1, line.len() - 1)),
        ).section);
        assert(step(s2, n, raw, w2).section == crate::parse::header_step(
            s2,
            n,
            trim(line.subrange(1, line.len() - 1)),
        ).section);
    } else {
        lemma_not_header_keeps_section(s1, n, raw, w1);
        lemma_not_header_keeps_section(s2, n, raw, w2);
    }
}

/// The weight texts collected, and the sections passed through, do not
/// depend on the weights.
proof fn lemma_run_shape(ls: Seq<Seq<char>>, w1: Seq<Option<u64>>, w2: Seq<Option<u64>>)
    ensures
        run(ls, w1).wtexts == run(ls, w2).wtexts,
        run(ls, w1).section == run(ls, w2).section,
    decreases ls.len(),
{
    if ls.len() > 0 {
        lemma_run_shape(ls.drop_last(), w1, w2);
        lemma_step_shape2(
            run(ls.drop_last(), w1),
            run(ls.drop_last(), w2),
            ls.len(),
            ls.last(),
            w1,
            w2,
        );
    }
}

/// The weight texts of the first `j` lines begin the weight texts of all.
proof fn lemma_wtexts_prefix(ls: Seq<Seq<char>>, j: int)
    requires
        0 <= j <= ls.len(),
    ensures
        run(ls.take(j), Seq::empty()).wtexts.len() <= run(ls, Seq::empty()).wtexts.len(),
        run(ls, Seq::empty()).wtexts.take(run(ls.take(j), Seq::empty()).wtexts.len() as int)
            == run(ls.take(j), Seq::empty()).wtexts,
    decreases ls.len(),
{
    let e = Seq::<Option<u64>>::empty();
    if j == ls.len() {
        assert(ls.take(j) =~= ls);
        let b = run(ls, e).wtexts;
        assert(b.take(b.len() as int) =~= b);
    } else {
        let d = ls.drop_last();
        lemma_wtexts_prefix(d, j);
        assert(d.take(j) =~= ls.take(j));
        lemma_step_shape(run(d, e), ls.len(), ls.last(), e, e);
        let a = run(ls.take(j), e).wtexts;
        let b0 = run(d, e).wtexts;
        let b = run(ls, e).wtexts;
        assert(b.take(a.len() as int) =~= b0.take(a.len() as int));
    }
}

/// Where the weights are the weight texts read by `read`, each option line
/// reads its own text's weight.
proof fn lemma_weight_consistent(ls: Seq<Seq<char>>, read: spec_fn(Seq<char>) -> Option<u64>, k: int)
    requires
        0 <= k < ls.len(),
    ensures
        ({
            let ww = run(ls, Seq::empty()).wtexts.map_values(read);
            let s = run(ls.take(k), ww);
            pushed(s, ls[k]) is Some ==> weight_at(ww, s.wtexts.len() as int) == read(
                pushed(s, ls[k])->0,
            )
        }),
{
    let e = Seq::<Option<u64>>::empty();
    let full = run(ls, e).wtexts;
    let ww = full.map_values(read);
    let s = run(ls.take(k), ww);
    if pushed(s, ls[k]) is Some {
        let w = pushed(s, ls[k])->0;
        lemma_run_shape(ls.take(k), ww, e);
        lemma_run_shape(ls.take(k + 1), ww, e);
        assert(ls.take(k + 1).drop_last() =~= ls.take(k));
        assert(ls.take(k + 1).last() == ls[k]);
        lemma_step_shape(s, (k + 1) as nat, ls[k], ww, ww);
        assert(run(ls.take(k + 1), ww) == step(s, (k + 1) as nat, ls[k], ww));
        lemma_wtexts_prefix(ls, k + 1);
        let len = s.wtexts.len() as int;
        assert(run(ls.take(k + 1), e).wtexts == s.wtexts.push(w));
        assert(full.take(len + 1) == s.wtexts.push(w));
        assert(full[len] == full.take(len + 1)[len]);
        assert(full[len] == w);
    }
}

/// The tier `normalise` has in force before line `k`, having started with
/// `t`.
pub open spec fn tier_from(ls: Seq<Seq<char>>, t: Option<Tier>, k: int) -> Option<Tier>
    decreases k,
{
    if k <= 0 || ls.len() == 0 {
        t
    } else {
        tier_from(ls.drop_first(), norm_line(ls[0], t).2, k - 1)
    }
}

proof fn lemma_tier_from_step(ls: Seq<Seq<char>>, t: Option<Tier>, k: int)
    requires
        0 <= k < ls.len(),
    ensures
        tier_from(ls, t, k + 1) == norm_line(ls[k], tier_from(ls, t, k)).2,
        crate::converge::outs(ls, t)[k] == norm_line(ls[k], tier_from(ls, t, k)).0,
    decreases k,
{
    crate::converge::lemma_outs_len(ls, t);
    let t1 = norm_line(ls[0], t).2;
    assert(tier_from(ls, t, k + 1) == tier_from(ls.drop_first(), t1, k));
    if k == 0 {
        assert(tier_from(ls.drop_first(), t1, 0) == t1);
    } else {
        lemma_tier_from_step(ls.drop_first(), t1, k - 1);
        assert(tier_from(ls, t, k) == tier_from(ls.drop_first(), t1, k - 1));
        assert(ls.drop_first()[k - 1] == ls[k]);
        assert(crate::converge::outs(ls, t)[k] == crate::converge::outs(
            ls.drop_first(),
            norm_line(ls[0], t).2,
        )[k - 1]);
    }
}

/// The file and its rewrite, read line by line with the weights each
/// reading collects, say the same after every prefix of lines.
#[verifier::spinoff_prover]
#[verifier::rlimit(40)]
proof fn lemma_prefix_keeps_meaning(
    ls: Seq<Seq<char>>,
    ls2: Seq<Seq<char>>,
    read: spec_fn(Seq<char>) -> Option<u64>,
    k: int,
)
    requires
        0 <= k <= ls.len(),
        crate::converge::read_back(ls2, ls, None),
        read(seq!['0']) == Some(0u64),
    ensures
        ({
            let w1 = run(ls, Seq::empty()).wtexts.map_values(read);
            let w2 = run(ls2, Seq::empty()).wtexts.map_values(read);
            &&& same_meaning(run(ls.take(k), w1), run(ls2.take(k), w2))
            &&& tier_agrees(tier_from(ls, None, k), run(ls.take(k), w1))
        }),
    decreases k,
{
    let w1 = run(ls, Seq::empty()).wtexts.map_values(read);
    let w2 = run(ls2, Seq::empty()).wtexts.map_values(read);
    if k == 0 {
        assert(ls.take(0) =~= Seq::<Seq<char>>::empty());
        assert(ls2.take(0) =~= Seq::<Seq<char>>::empty());
    } else {
        let j = k - 1;
        lemma_prefix_keeps_meaning(ls, ls2, read, j);
        let s1 = run(ls.take(j), w1);
        let s2 = run(ls2.take(j), w2);
        let tau = tier_from(ls, None, j);
        lemma_tier_from_step(ls, None, j);
        assert(ls2[j] == crate::converge::outs(ls, None)[j] || ls2[j] == strip_cr(
            crate::converge::outs(ls, None)[j],
        ));
        lemma_weight_consistent(ls, read, j);
        lemma_weight_consistent(ls2, read, j);
        lemma_line_keeps_meaning(s1, s2, k as nat, ls[j], ls2[j], tau, w1, w2, read);
        assert(ls.take(k).drop_last() =~= ls.take(j));
        assert(ls2.take(k).drop_last() =~= ls2.take(j));
        assert(ls.take(k).last() == ls[j]);
        assert(ls2.take(k).last() == ls2[j]);
        assert(run(ls.take(k), w1) == step(s1, k as nat, ls[j], w1));
        assert(run(ls2.take(k), w2) == step(s2, k as nat, ls2[j], w2));
    }
}

/// Normalising keeps what the config says: wherever [`normalise`] rewrites
/// a file, the rewrite parses to the same global settings and the same
/// reward types -- budgets, options and weights alike -- as the file,
/// each reading its weights from its own weight texts, provided the text
/// `0` reads as weight zero. Only the warnings about missing weights go.
///
/// [`normalise`]: crate::config::normalise
pub proof fn lemma_normalise_keeps_meaning(text: Seq<char>, read: spec_fn(Seq<char>) -> Option<u64>)
    requires
        normalised(text) is Some,
        read(seq!['0']) == Some(0u64),
    ensures
        ({
            let out = normalised(text)->0;
            let a = parsed(text, crate::parse::weight_texts(text).map_values(read));
            let b = parsed(out, crate::parse::weight_texts(out).map_values(read));
            a.global == b.global && a.types == b.types
        }),
{
    let ls = lines(text);
    let out = normalised(text)->0;
    let ls2 = lines(out);
    crate::converge::lemma_normalised_reads_back(text);
    let n = ls.len() as int;
    lemma_prefix_keeps_meaning(ls, ls2, read, n);
    assert(ls.take(n) =~= ls);
    assert(ls2.take(n) =~= ls2);
}

} // verus!
