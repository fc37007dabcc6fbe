//! Why a freshly generated config changes nothing: parsed back, it has the
//! default global settings, no problem, and every reward type it lists with
//! zero budgets and every id blacklisted -- so a freshly installed mod
//! resolves nothing until the player edits the file.
//!
//! This holds for reward types, ids and names that a config line can carry:
//! no line breaks, no `#` or `=` in an id, ids not framed like a section
//! header, and section names that are neither `global` nor dotted.
use vstd::prelude::*;

use crate::config::{
    eq_ignore_case, gen_lines, generated, header_lines, parse_section_spec, strip_comment_spec,
    tier_word, word_blacklist, word_fallback, word_global, word_wanted, Budgets, Depth, Global,
    Tier, TypeVocab,
};
use crate::parse::{
    apply_budget_spec, apply_global_spec, budget_key, budgets_zero, digits_value, find_option,
    find_stage, header_line, initial_state, kv_spec, parse_i64_spec, parse_u64_spec, parsed, run,
    set_budget, step, truthy, ParseState, StageView,
};
use crate::text::{first_index, is_ws, join_nl, lemma_first_index, lines, strip_cr, trim};

verus! {

// ------------------------------------------------------------ running

/// The parser's state after the lines `ls`, numbered from `off + 1`, from
/// state `st`.
pub open spec fn run_from(st: ParseState, ls: Seq<Seq<char>>, off: nat, w: Seq<Option<u64>>) -> ParseState
    decreases ls.len(),
{
    if ls.len() == 0 {
        st
    } else {
        step(run_from(st, ls.drop_last(), off, w), off + ls.len(), ls.last(), w)
    }
}

#[verifier::spinoff_prover]
proof fn lemma_run_concat(a: Seq<Seq<char>>, b: Seq<Seq<char>>, w: Seq<Option<u64>>)
    ensures
        run(a + b, w) == run_from(run(a, w), b, a.len(), w),
    decreases b.len(),
{
    if b.len() == 0 {
        assert(a + b =~= a);
    } else {
        lemma_run_concat(a, b.drop_last(), w);
        assert((a + b).drop_last() =~= a + b.drop_last());
        assert((a + b).last() == b.last());
    }
}

#[verifier::spinoff_prover]
proof fn lemma_run_from_concat(
    st: ParseState,
    a: Seq<Seq<char>>,
    b: Seq<Seq<char>>,
    off: nat,
    w: Seq<Option<u64>>,
)
    ensures
        run_from(st, a + b, off, w) == run_from(run_from(st, a, off, w), b, off + a.len(), w),
    decreases b.len(),
{
    if b.len() == 0 {
        assert(a + b =~= a);
    } else {
        lemma_run_from_concat(st, a, b.drop_last(), off, w);
        assert((a + b).drop_last() =~= a + b.drop_last());
        assert((a + b).last() == b.last());
    }
}

#[verifier::spinoff_prover]
proof fn lemma_run_from_one(st: ParseState, l: Seq<char>, off: nat, w: Seq<Option<u64>>)
    ensures
        run_from(st, seq![l], off, w) == step(st, off + 1, l, w),
{
    assert(seq![l].drop_last() =~= Seq::<Seq<char>>::empty());
    assert(run_from(st, seq![l].drop_last(), off, w) == st);
    assert(seq![l].last() == l);
}

/// A line the parser passes over: empty, or a comment.
pub open spec fn quiet(l: Seq<char>) -> bool {
    l.len() == 0 || l[0] == '#'
}

#[verifier::spinoff_prover]
proof fn lemma_step_quiet(st: ParseState, n: nat, l: Seq<char>, w: Seq<Option<u64>>)
    requires
        quiet(l),
    ensures
        step(st, n, l, w) == st,
{
    if l.len() > 0 {
        lemma_first_index(l, '#', 0);
        assert(strip_comment_spec(l) =~= Seq::<char>::empty());
    } else {
        assert(strip_comment_spec(l) =~= Seq::<char>::empty()) by {
            assert(first_index(l, '#') is None);
        }
    }
    assert(trim(Seq::<char>::empty()) =~= Seq::<char>::empty());
}

#[verifier::spinoff_prover]
proof fn lemma_run_quiet(st: ParseState, ls: Seq<Seq<char>>, off: nat, w: Seq<Option<u64>>)
    requires
        forall|i: int| 0 <= i < ls.len() ==> quiet(#[trigger] ls[i]),
    ensures
        run_from(st, ls, off, w) == st,
    decreases ls.len(),
{
    if ls.len() > 0 {
        assert forall|i: int| 0 <= i < ls.len() - 1 implies quiet(#[trigger] ls.drop_last()[i]) by {
            assert(ls.drop_last()[i] == ls[i]);
        }
        lemma_run_quiet(st, ls.drop_last(), off, w);
        assert(quiet(ls[ls.len() - 1]));
        lemma_step_quiet(st, off + ls.len(), ls.last(), w);
    }
}

// ------------------------------------------------------------ trimming

/// `trim(s)` when its first and last characters that are not whitespace
/// are known.
#[verifier::spinoff_prover]
proof fn lemma_trim_exact(s: Seq<char>, a: int, b: int)
    requires
        0 <= a < b <= s.len(),
        !is_ws(s[a]),
        !is_ws(s[b - 1]),
        forall|j: int| 0 <= j < a ==> is_ws(#[trigger] s[j]),
        forall|j: int| b <= j < s.len() ==> is_ws(#[trigger] s[j]),
    ensures
        trim(s) == s.subrange(a, b),
{
    let (c, d) = crate::converge::lemma_trim_bounds(s);
    assert(c == a) by {
        if c < a {
            assert(is_ws(s[c]));
        }
        if c > a {
            assert(is_ws(s[a]));
        }
    }
    assert(d == b) by {
        if d < b {
            assert(is_ws(s[b - 1]));
        }
        if d > b {
            assert(is_ws(s[d - 1]));
        }
    }
}

/// A run already trimmed is its own trim.
#[verifier::spinoff_prover]
proof fn lemma_trim_self(s: Seq<char>)
    requires
        s.len() > 0,
        !is_ws(s[0]),
        !is_ws(s.last()),
    ensures
        trim(s) == s,
{
    lemma_trim_exact(s, 0, s.len() as int);
    assert(s.subrange(0, s.len() as int) =~= s);
}

// ------------------------------------------------------------ the preamble

/// A line that reads back as itself: no line break in it, and no carriage
/// return at its end.
pub open spec fn fine(l: Seq<char>) -> bool {
    !l.contains('\n') && (l.len() == 0 || l.last() != '\r')
}

/// Which lines of the preamble are comments or empty.
pub open spec fn header_quiet(i: int) -> bool {
    i == 0 || i == 1 || i == 2 || i == 3 || i == 4 || i == 5 || i == 6 || i == 7 || i == 8 || i == 9 || i == 10 || i == 11 || i == 12 || i == 13 || i == 14 || i == 15 || i == 16 || i == 17 || i == 18 || i == 19 || i == 20 || i == 21 || i == 22 || i == 23 || i == 26 || i == 27 || i == 28 || i == 29 || i == 30 || i == 32 || i == 33 || i == 34 || i == 35 || i == 36 || i == 37 || i == 38 || i == 39 || i == 40 || i == 41 || i == 43 || i == 44 || i == 45 || i == 46 || i == 47 || i == 49 || i == 50 || i == 51 || i == 52 || i == 53
}

#[verifier::spinoff_prover]
proof fn lemma_header_lines()
    ensures
        forall|i: int| 0 <= i < 55 ==> fine(#[trigger] header_lines()[i]),
        forall|i: int| 0 <= i < 55 && header_quiet(i) ==> quiet(#[trigger] header_lines()[i]),
        header_lines()[24] == "[global]"@,
        header_lines()[25] == "enabled  = true"@,
        header_lines()[31] == "delay_ms = 100"@,
        header_lines()[42] == "act      = false"@,
        header_lines()[48] == "trace    = false"@,
        header_lines()[54] == "survey   = false"@,
{
    reveal_strlit("# tkiw auto reward picker -- configuration");
    reveal_strlit("#");
    reveal_strlit("# As generated, this file does NOTHING: every option is blacklisted and every");
    reveal_strlit("# reroll budget is zero, so the mod stays out of the way until you edit it.");
    reveal_strlit("#");
    reveal_strlit("# To automate a reward type, move ids out of [<type>.blacklist] into");
    reveal_strlit("#   [<type>.wanted]    take it immediately; highest weight wins, ties at random");
    reveal_strlit("#   [<type>.fallback]  only once the reroll budget is spent; highest weight wins");
    reveal_strlit("# and leave in [<type>.blacklist] anything you never want taken.");
    reveal_strlit("#");
    reveal_strlit("# Weights order options WITHIN a tier only: a wanted option always beats a");
    reveal_strlit("# fallback one, whatever the numbers say. Equal weights mean you are indifferent.");
    reveal_strlit("#");
    reveal_strlit("# Every id must appear in exactly one tier. Delete a whole [<type>] section to");
    reveal_strlit("# leave that reward type entirely manual -- that is also what happens to any");
    reveal_strlit("# type not mentioned here.");
    reveal_strlit("#");
    reveal_strlit("# The reward at the head of the queue is the only one ever touched, and the mod");
    reveal_strlit("# stops as soon as it reaches one it is not configured for.");
    reveal_strlit("#");
    reveal_strlit("# This file was generated from the libraries of the game it is installed in, so");
    reveal_strlit("# the lists describe your build. Delete it and it will be written again.");
    reveal_strlit("# ============================================================================");
    reveal_strlit("");
    reveal_strlit("[global]");
    reveal_strlit("enabled  = true");
    reveal_strlit("");
    reveal_strlit("# How fast the mod is allowed to act, in milliseconds between button presses.");
    reveal_strlit("# It is not a fixed wait: the mod watches for the queue or the cards changing");
    reveal_strlit("# and reacts immediately, so this only caps the rate. 0 means as fast as the");
    reveal_strlit("# game will accept (floored at 40ms so a reroll cannot be spammed).");
    reveal_strlit("delay_ms = 100");
    reveal_strlit("");
    reveal_strlit("# act = false  -> decide and log \"[would PICK] ...\", but press nothing");
    reveal_strlit("# act = true   -> actually press the buttons");
    reveal_strlit("#");
    reveal_strlit("# Ctrl+Alt+P toggles this while you play, and the toggle is WRITTEN BACK to");
    reveal_strlit("# this line, so what you chose in game is what the next launch does. Editing");
    reveal_strlit("# it here also takes effect immediately -- the file is re-read as you save it.");
    reveal_strlit("#");
    reveal_strlit("# Either way the mod keeps reading choices and logging what it would do, so");
    reveal_strlit("# with pressing off you get a running commentary rather than silence.");
    reveal_strlit("act      = false");
    reveal_strlit("");
    reveal_strlit("# trace = true logs each phase as it begins, so if the game crashes the last");
    reveal_strlit("# line names what was underway rather than what last finished. Verbose -- turn");
    reveal_strlit("# it on only when chasing a crash. It is NOT needed for a crash report: the");
    reveal_strlit("# faulting address and the operation in flight are always recorded.");
    reveal_strlit("trace    = false");
    reveal_strlit("");
    reveal_strlit("# survey = true adds a periodic sweep over the whole reward UI -- every card,");
    reveal_strlit("# button and library -- to the log. It is what a bug report should carry, and");
    reveal_strlit("# it is the most expensive thing the mod does. Picking, rerolling and opening");
    reveal_strlit("# the queue do not use it, so leave it off unless you are diagnosing something.");
    reveal_strlit("survey   = false");
    assert forall|i: int| 0 <= i < 55 implies fine(#[trigger] header_lines()[i]) by {
        if i == 0 {
            assert(fine(header_lines()[0]));
        } else if i == 1 {
            assert(fine(header_lines()[1]));
        } else if i == 2 {
            assert(fine(header_lines()[2]));
        } else if i == 3 {
            assert(fine(header_lines()[3]));
        } else if i == 4 {
            assert(fine(header_lines()[4]));
        } else if i == 5 {
            assert(fine(header_lines()[5]));
        } else if i == 6 {
            assert(fine(header_lines()[6]));
        } else if i == 7 {
            assert(fine(header_lines()[7]));
        } else if i == 8 {
            assert(fine(header_lines()[8]));
        } else if i == 9 {
            assert(fine(header_lines()[9]));
        } else if i == 10 {
            assert(fine(header_lines()[10]));
        } else if i == 11 {
            assert(fine(header_lines()[11]));
        } else if i == 12 {
            assert(fine(header_lines()[12]));
        } else if i == 13 {
            assert(fine(header_lines()[13]));
        } else if i == 14 {
            assert(fine(header_lines()[14]));
        } else if i == 15 {
            assert(fine(header_lines()[15]));
        } else if i == 16 {
            assert(fine(header_lines()[16]));
        } else if i == 17 {
            assert(fine(header_lines()[17]));
        } else if i == 18 {
            assert(fine(header_lines()[18]));
        } else if i == 19 {
            assert(fine(header_lines()[19]));
        } else if i == 20 {
            assert(fine(header_lines()[20]));
        } else if i == 21 {
            assert(fine(header_lines()[21]));
        } else if i == 22 {
            assert(fine(header_lines()[22]));
        } else if i == 23 {
            assert(fine(header_lines()[23]));
        } else if i == 24 {
            assert(fine(header_lines()[24]));
        } else if i == 25 {
            assert(fine(header_lines()[25]));
        } else if i == 26 {
            assert(fine(header_lines()[26]));
        } else if i == 27 {
            assert(fine(header_lines()[27]));
        } else if i == 28 {
            assert(fine(header_lines()[28]));
        } else if i == 29 {
            assert(fine(header_lines()[29]));
        } else if i == 30 {
            assert(fine(header_lines()[30]));
        } else if i == 31 {
            assert(fine(header_lines()[31]));
        } else if i == 32 {
            assert(fine(header_lines()[32]));
        } else if i == 33 {
            assert(fine(header_lines()[33]));
        } else if i == 34 {
            assert(fine(header_lines()[34]));
        } else if i == 35 {
            assert(fine(header_lines()[35]));
        } else if i == 36 {
            assert(fine(header_lines()[36]));
        } else if i == 37 {
            assert(fine(header_lines()[37]));
        } else if i == 38 {
            assert(fine(header_lines()[38]));
        } else if i == 39 {
            assert(fine(header_lines()[39]));
        } else if i == 40 {
            assert(fine(header_lines()[40]));
        } else if i == 41 {
            assert(fine(header_lines()[41]));
        } else if i == 42 {
            assert(fine(header_lines()[42]));
        } else if i == 43 {
            assert(fine(header_lines()[43]));
        } else if i == 44 {
            assert(fine(header_lines()[44]));
        } else if i == 45 {
            assert(fine(header_lines()[45]));
        } else if i == 46 {
            assert(fine(header_lines()[46]));
        } else if i == 47 {
            assert(fine(header_lines()[47]));
        } else if i == 48 {
            assert(fine(header_lines()[48]));
        } else if i == 49 {
            assert(fine(header_lines()[49]));
        } else if i == 50 {
            assert(fine(header_lines()[50]));
        } else if i == 51 {
            assert(fine(header_lines()[51]));
        } else if i == 52 {
            assert(fine(header_lines()[52]));
        } else if i == 53 {
            assert(fine(header_lines()[53]));
        } else if i == 54 {
            assert(fine(header_lines()[54]));
        }
    }
    assert forall|i: int| 0 <= i < 55 && header_quiet(i) implies quiet(#[trigger] header_lines()[i]) by {
        if i == 0 {
            assert(quiet(header_lines()[0]));
        } else if i == 1 {
            assert(quiet(header_lines()[1]));
        } else if i == 2 {
            assert(quiet(header_lines()[2]));
        } else if i == 3 {
            assert(quiet(header_lines()[3]));
        } else if i == 4 {
            assert(quiet(header_lines()[4]));
        } else if i == 5 {
            assert(quiet(header_lines()[5]));
        } else if i == 6 {
            assert(quiet(header_lines()[6]));
        } else if i == 7 {
            assert(quiet(header_lines()[7]));
        } else if i == 8 {
            assert(quiet(header_lines()[8]));
        } else if i == 9 {
            assert(quiet(header_lines()[9]));
        } else if i == 10 {
            assert(quiet(header_lines()[10]));
        } else if i == 11 {
            assert(quiet(header_lines()[11]));
        } else if i == 12 {
            assert(quiet(header_lines()[12]));
        } else if i == 13 {
            assert(quiet(header_lines()[13]));
        } else if i == 14 {
            assert(quiet(header_lines()[14]));
        } else if i == 15 {
            assert(quiet(header_lines()[15]));
        } else if i == 16 {
            assert(quiet(header_lines()[16]));
        } else if i == 17 {
            assert(quiet(header_lines()[17]));
        } else if i == 18 {
            assert(quiet(header_lines()[18]));
        } else if i == 19 {
            assert(quiet(header_lines()[19]));
        } else if i == 20 {
            assert(quiet(header_lines()[20]));
        } else if i == 21 {
            assert(quiet(header_lines()[21]));
        } else if i == 22 {
            assert(quiet(header_lines()[22]));
        } else if i == 23 {
            assert(quiet(header_lines()[23]));
        } else if i == 26 {
            assert(quiet(header_lines()[26]));
        } else if i == 27 {
            assert(quiet(header_lines()[27]));
        } else if i == 28 {
            assert(quiet(header_lines()[28]));
        } else if i == 29 {
            assert(quiet(header_lines()[29]));
        } else if i == 30 {
            assert(quiet(header_lines()[30]));
        } else if i == 32 {
            assert(quiet(header_lines()[32]));
        } else if i == 33 {
            assert(quiet(header_lines()[33]));
        } else if i == 34 {
            assert(quiet(header_lines()[34]));
        } else if i == 35 {
            assert(quiet(header_lines()[35]));
        } else if i == 36 {
            assert(quiet(header_lines()[36]));
        } else if i == 37 {
            assert(quiet(header_lines()[37]));
        } else if i == 38 {
            assert(quiet(header_lines()[38]));
        } else if i == 39 {
            assert(quiet(header_lines()[39]));
        } else if i == 40 {
            assert(quiet(header_lines()[40]));
        } else if i == 41 {
            assert(quiet(header_lines()[41]));
        } else if i == 43 {
            assert(quiet(header_lines()[43]));
        } else if i == 44 {
            assert(quiet(header_lines()[44]));
        } else if i == 45 {
            assert(quiet(header_lines()[45]));
        } else if i == 46 {
            assert(quiet(header_lines()[46]));
        } else if i == 47 {
            assert(quiet(header_lines()[47]));
        } else if i == 49 {
            assert(quiet(header_lines()[49]));
        } else if i == 50 {
            assert(quiet(header_lines()[50]));
        } else if i == 51 {
            assert(quiet(header_lines()[51]));
        } else if i == 52 {
            assert(quiet(header_lines()[52]));
        } else if i == 53 {
            assert(quiet(header_lines()[53]));
        }
    }
}

// ------------------------------------------------------------ settings

/// `kv_spec` of a line whose `=` is at `e`, with the key trimmed to
/// `[a, b)` and the value to `[c, d)` of what follows the `=`.
#[verifier::spinoff_prover]
proof fn lemma_kv_at(l: Seq<char>, e: int, a: int, b: int, c: int, d: int)
    requires
        0 <= e < l.len(),
        l[e] == '=',
        forall|j: int| 0 <= j < e ==> l[j] != '=',
        0 <= a < b <= e,
        !is_ws(l[a]),
        !is_ws(l[b - 1]),
        forall|j: int| 0 <= j < a ==> is_ws(#[trigger] l[j]),
        forall|j: int| b <= j < e ==> is_ws(#[trigger] l[j]),
        0 <= c < d <= l.len() - e - 1,
        !is_ws(l[e + 1 + c]),
        !is_ws(l[e + d]),
        forall|j: int| e + 1 <= j < e + 1 + c ==> is_ws(#[trigger] l[j]),
        forall|j: int| e + 1 + d <= j < l.len() ==> is_ws(#[trigger] l[j]),
    ensures
        kv_spec(l) == Some((l.subrange(a, b), l.subrange(e + 1 + c, e + 1 + d))),
{
    lemma_first_index(l, '=', e);
    let k = l.take(e);
    let v = l.skip(e + 1);
    assert forall|j: int| 0 <= j < a implies is_ws(#[trigger] k[j]) by {
        assert(k[j] == l[j]);
    }
    assert forall|j: int| b <= j < k.len() implies is_ws(#[trigger] k[j]) by {
        assert(k[j] == l[j]);
    }
    lemma_trim_exact(k, a, b);
    assert(k.subrange(a, b) =~= l.subrange(a, b));
    assert forall|j: int| 0 <= j < c implies is_ws(#[trigger] v[j]) by {
        assert(v[j] == l[e + 1 + j]);
    }
    assert forall|j: int| d <= j < v.len() implies is_ws(#[trigger] v[j]) by {
        assert(v[j] == l[e + 1 + j]);
    }
    assert(v[c] == l[e + 1 + c]);
    assert(v[d - 1] == l[e + d]);
    lemma_trim_exact(v, c, d);
    assert(v.subrange(c, d) =~= l.subrange(e + 1 + c, e + 1 + d));
}

/// A line with no comment in it is its own body.
#[verifier::spinoff_prover]
proof fn lemma_no_comment(l: Seq<char>)
    requires
        forall|j: int| 0 <= j < l.len() ==> l[j] != '#',
    ensures
        strip_comment_spec(l) == l,
{
    crate::text::lemma_first_index_none(l, '#');
}

/// The state the preamble leaves: in `[global]`, with the defaults in
/// force, nothing staged and nothing wrong.
pub open spec fn global_state() -> ParseState {
    ParseState {
        global: Global::spec_default(),
        section: Some((word_global(), None)),
        staged: Seq::empty(),
        errors: Seq::empty(),
        wtexts: Seq::empty(),
    }
}

/// The settings the preamble writes, each the default already.
pub open spec fn preamble_setting(l: Seq<char>) -> bool {
    l == "enabled  = true"@ || l == "delay_ms = 100"@ || l == "act      = false"@ || l
        == "trace    = false"@ || l == "survey   = false"@
}

#[verifier::spinoff_prover]
proof fn lemma_setting_prelude(l: Seq<char>)
    requires
        l.len() > 0,
        forall|j: int| 0 <= j < l.len() ==> l[j] != '#',
        !is_ws(l[0]),
        !is_ws(l.last()),
        l[0] != '[',
    ensures
        trim(strip_comment_spec(l)) == l,
        !header_line(l),
{
    lemma_no_comment(l);
    lemma_trim_self(l);
}

#[verifier::spinoff_prover]
proof fn lemma_setting_enabled(n: nat, w: Seq<Option<u64>>)
    ensures
        step(global_state(), n, "enabled  = true"@, w) == global_state(),
{
    reveal_strlit("enabled  = true");
    reveal_strlit("enabled");
    reveal_strlit("true");
    let l = "enabled  = true"@;
    lemma_setting_prelude(l);
    lemma_kv_at(l, 9, 0, 7, 1, 5);
    assert(l.subrange(0, 7) =~= "enabled"@);
    assert(l.subrange(11, 15) =~= "true"@);
    assert(truthy("true"@));
}

#[verifier::spinoff_prover]
proof fn lemma_setting_delay(n: nat, w: Seq<Option<u64>>)
    ensures
        step(global_state(), n, "delay_ms = 100"@, w) == global_state(),
{
    reveal_strlit("delay_ms = 100");
    reveal_strlit("enabled");
    reveal_strlit("trace");
    reveal_strlit("survey");
    reveal_strlit("act");
    reveal_strlit("delay_ms");
    let l = "delay_ms = 100"@;
    lemma_setting_prelude(l);
    lemma_kv_at(l, 9, 0, 8, 1, 4);
    assert(l.subrange(0, 8) =~= "delay_ms"@);
    let v = l.subrange(11, 14);
    assert(v =~= seq!['1', '0', '0']);
    reveal(parse_u64_spec);
    reveal_with_fuel(digits_value, 4);
    assert(v.drop_last() =~= seq!['1', '0']);
    assert(v.drop_last().drop_last() =~= seq!['1']);
    assert(v.drop_last().drop_last().drop_last() =~= Seq::<char>::empty());
    assert(digits_value(v) == 100);
    assert(parse_u64_spec(v) == Some(100u64));
}

#[verifier::spinoff_prover]
proof fn lemma_setting_act(n: nat, w: Seq<Option<u64>>)
    ensures
        step(global_state(), n, "act      = false"@, w) == global_state(),
{
    reveal_strlit("act      = false");
    reveal_strlit("enabled");
    reveal_strlit("trace");
    reveal_strlit("survey");
    reveal_strlit("act");
    reveal_strlit("true");
    reveal_strlit("yes");
    reveal_strlit("1");
    let l = "act      = false"@;
    lemma_setting_prelude(l);
    lemma_kv_at(l, 9, 0, 3, 1, 6);
    assert(l.subrange(0, 3) =~= "act"@);
    assert(!truthy(l.subrange(11, 16)));
}

#[verifier::spinoff_prover]
proof fn lemma_setting_trace(n: nat, w: Seq<Option<u64>>)
    ensures
        step(global_state(), n, "trace    = false"@, w) == global_state(),
{
    reveal_strlit("trace    = false");
    reveal_strlit("enabled");
    reveal_strlit("trace");
    reveal_strlit("true");
    reveal_strlit("yes");
    reveal_strlit("1");
    let l = "trace    = false"@;
    lemma_setting_prelude(l);
    lemma_kv_at(l, 9, 0, 5, 1, 6);
    assert(l.subrange(0, 5) =~= "trace"@);
    assert(!truthy(l.subrange(11, 16)));
}

#[verifier::spinoff_prover]
proof fn lemma_setting_survey(n: nat, w: Seq<Option<u64>>)
    ensures
        step(global_state(), n, "survey   = false"@, w) == global_state(),
{
    reveal_strlit("survey   = false");
    reveal_strlit("enabled");
    reveal_strlit("trace");
    reveal_strlit("survey");
    reveal_strlit("true");
    reveal_strlit("yes");
    reveal_strlit("1");
    let l = "survey   = false"@;
    lemma_setting_prelude(l);
    lemma_kv_at(l, 9, 0, 6, 1, 6);
    assert(l.subrange(0, 6) =~= "survey"@);
    assert(!truthy(l.subrange(11, 16)));
}

#[verifier::spinoff_prover]
proof fn lemma_setting(n: nat, l: Seq<char>, w: Seq<Option<u64>>)
    requires
        preamble_setting(l),
    ensures
        step(global_state(), n, l, w) == global_state(),
{
    if l == "enabled  = true"@ {
        lemma_setting_enabled(n, w);
    } else if l == "delay_ms = 100"@ {
        lemma_setting_delay(n, w);
    } else if l == "act      = false"@ {
        lemma_setting_act(n, w);
    } else if l == "trace    = false"@ {
        lemma_setting_trace(n, w);
    } else {
        lemma_setting_survey(n, w);
    }
}

#[verifier::spinoff_prover]
proof fn lemma_run_settled(ls: Seq<Seq<char>>, off: nat, w: Seq<Option<u64>>)
    requires
        forall|i: int| 0 <= i < ls.len() ==> quiet(#[trigger] ls[i]) || preamble_setting(ls[i]),
    ensures
        run_from(global_state(), ls, off, w) == global_state(),
    decreases ls.len(),
{
    if ls.len() > 0 {
        assert forall|i: int| 0 <= i < ls.len() - 1 implies quiet(#[trigger] ls.drop_last()[i])
            || preamble_setting(ls.drop_last()[i]) by {
            assert(ls.drop_last()[i] == ls[i]);
        }
        lemma_run_settled(ls.drop_last(), off, w);
        let l = ls[ls.len() - 1];
        if quiet(l) {
            lemma_step_quiet(global_state(), off + ls.len(), l, w);
        } else {
            lemma_setting(off + ls.len(), l, w);
        }
    }
}

#[verifier::spinoff_prover]
#[verifier::rlimit(40)]
proof fn lemma_global_header(w: Seq<Option<u64>>)
    ensures
        step(initial_state(), 25, "[global]"@, w) == global_state(),
{
    reveal_strlit("[global]");
    let l = "[global]"@;
    lemma_no_comment(l);
    lemma_trim_self(l);
    let name = l.subrange(1, l.len() - 1);
    assert(name =~= word_global());
    lemma_trim_self(name);
    reveal(parse_section_spec);
    assert(eq_ignore_case(name, word_global()));
}

#[verifier::spinoff_prover]
proof fn lemma_run_is_run_from(ls: Seq<Seq<char>>, w: Seq<Option<u64>>)
    ensures
        run(ls, w) == run_from(initial_state(), ls, 0, w),
    decreases ls.len(),
{
    if ls.len() > 0 {
        lemma_run_is_run_from(ls.drop_last(), w);
    }
}

/// The preamble leaves the parser in `[global]` with the defaults in force,
/// nothing staged and nothing wrong.
#[verifier::spinoff_prover]
proof fn lemma_preamble(w: Seq<Option<u64>>)
    ensures
        run(header_lines(), w) == global_state(),
{
    lemma_header_lines();
    let h = header_lines();
    lemma_run_is_run_from(h, w);
    let a = h.take(24);
    let b = h.skip(24);
    assert(h =~= a + b);
    lemma_run_from_concat(initial_state(), a, b, 0, w);
    assert forall|i: int| 0 <= i < a.len() implies quiet(#[trigger] a[i]) by {
        assert(a[i] == h[i]);
        assert(header_quiet(i));
    }
    lemma_run_quiet(initial_state(), a, 0, w);
    let c = b.skip(1);
    assert(b =~= seq![b[0]] + c);
    lemma_run_from_concat(initial_state(), seq![b[0]], c, 24, w);
    lemma_run_from_one(initial_state(), b[0], 24, w);
    assert(b[0] == "[global]"@);
    lemma_global_header(w);
    // and the rest of the preamble
    assert forall|i: int| 0 <= i < c.len() implies quiet(#[trigger] c[i]) || preamble_setting(c[i]) by {
        assert(c[i] == h[i + 25]);
        if !header_quiet(i + 25) {
            assert(i + 25 == 25 || i + 25 == 31 || i + 25 == 42 || i + 25 == 48 || i + 25 == 54);
        }
    }
    lemma_run_settled(c, 25, w);
}

// ------------------------------------------------------------ reading back

/// Trimming ignores trailing whitespace already dropped.
#[verifier::spinoff_prover]
proof fn lemma_trim_of_trim_end(x: Seq<char>)
    ensures
        trim(crate::text::trim_end(x)) == trim(x),
{
    let k = crate::converge::lemma_trail(x);
    let y = crate::text::trim_end(x);
    assert forall|j: int| 0 <= j < k implies x[j] == y[j] by {}
    crate::converge::lemma_trim_agree(x, y, k);
}

/// A carriage return at the end of a line does not change what the parser
/// does with it.
#[verifier::spinoff_prover]
proof fn lemma_step_strip_cr(st: ParseState, n: nat, l: Seq<char>, w: Seq<Option<u64>>)
    ensures
        step(st, n, strip_cr(l), w) == step(st, n, l, w),
{
    crate::converge::lemma_body_strip_cr(l);
    lemma_trim_of_trim_end(strip_comment_spec(strip_cr(l)));
    lemma_trim_of_trim_end(strip_comment_spec(l));
}

#[verifier::spinoff_prover]
proof fn lemma_run_from_strip(st: ParseState, ls: Seq<Seq<char>>, off: nat, w: Seq<Option<u64>>)
    ensures
        run_from(st, Seq::new(ls.len(), |i: int| strip_cr(ls[i])), off, w) == run_from(st, ls, off, w),
    decreases ls.len(),
{
    let ss = Seq::new(ls.len(), |i: int| strip_cr(ls[i]));
    if ls.len() > 0 {
        lemma_run_from_strip(st, ls.drop_last(), off, w);
        assert(ss.drop_last() =~= Seq::new(ls.drop_last().len(), |i: int| strip_cr(ls.drop_last()[i])));
        lemma_step_strip_cr(run_from(st, ls.drop_last(), off, w), off + ls.len(), ls.last(), w);
    }
}

// ------------------------------------------------------------ headers

/// `[x]`: its own body, a header, naming `trim(x)`.
#[verifier::spinoff_prover]
proof fn lemma_bracket(x: Seq<char>)
    requires
        !x.contains('#'),
    ensures
        trim(strip_comment_spec("["@ + x + "]"@)) == "["@ + x + "]"@,
        header_line("["@ + x + "]"@),
        trim(("["@ + x + "]"@).subrange(1, ("["@ + x + "]"@).len() - 1)) == trim(x),
{
    reveal_strlit("[");
    reveal_strlit("]");
    let l = "["@ + x + "]"@;
    assert forall|j: int| 0 <= j < l.len() implies l[j] != '#' by {
        if 1 <= j < l.len() - 1 {
            assert(l[j] == x[j - 1]);
        }
    }
    lemma_no_comment(l);
    lemma_trim_self(l);
    assert(l.subrange(1, l.len() - 1) =~= x);
}

/// The name of a tier's header, `x.word`, trimmed: what follows the
/// leading whitespace of `x`, then the dot and the word.
#[verifier::spinoff_prover]
proof fn lemma_dotted(x: Seq<char>, word: Seq<char>) -> (a: int)
    requires
        !x.contains('.'),
        word.len() > 0,
        !is_ws(word.last()),
    ensures
        0 <= a <= x.len(),
        trim(x + seq!['.'] + word) == x.skip(a) + seq!['.'] + word,
        trim(x.skip(a)) == trim(x),
        first_index(x.skip(a) + seq!['.'] + word, '.') == Some(x.len() - a),
{
    let a = crate::converge::lemma_lead(x);
    let s = x + seq!['.'] + word;
    let (c, d) = crate::converge::lemma_trim_bounds(s);
    assert(s[x.len() as int] == '.');
    assert(!is_ws('.'));
    assert(s[s.len() - 1] == word.last());
    assert(c == a) by {
        if a < x.len() {
            assert(s[a] == x[a]);
            if c < a {
                assert(s[c] == x[c]);
            }
            if c > a {
                assert(is_ws(s[a]));
            }
        } else {
            if c < a {
                assert(s[c] == x[c]);
            }
            if c > a {
                assert(is_ws(s[a]));
            }
        }
    }
    assert(d == s.len()) by {
        if d < s.len() {
            assert(is_ws(s[s.len() - 1]));
        }
    }
    assert(s.subrange(c, d) =~= x.skip(a) + seq!['.'] + word);
    let y = x.skip(a);
    let b = crate::converge::lemma_lead(y);
    assert(b == 0) by {
        if b > 0 {
            assert(y[0] == x[a]);
        }
    }
    assert(y.skip(0) =~= y);
    let t = y + seq!['.'] + word;
    assert(t[y.len() as int] == '.');
    assert forall|j: int| 0 <= j < y.len() implies t[j] != '.' by {
        assert(t[j] == x[a + j]);
    }
    lemma_first_index(t, '.', y.len() as int);
    a
}

#[verifier::spinoff_prover]
proof fn lemma_budget_voodoo_depth(st: ParseState, n: nat, w: Seq<Option<u64>>, ty: Seq<char>, k: int)
    requires
        st.section == Some((ty, None::<Tier>)),
        ty != word_global(),
        find_stage(st.staged, ty) == Some(k),
        0 <= k < st.staged.len(),
        st.staged[k].budgets == budgets_zero(),
    ensures
        step(st, n, crate::config::BUDGET_VOODOO@, w) == st,
{
    reveal_strlit("voodoo_depth  = 0    # rerolls using the per-reward freebie (Voodoo Beads)");
    assert(crate::config::BUDGET_VOODOO@ == "voodoo_depth  = 0    # rerolls using the per-reward freebie (Voodoo Beads)"@);
    reveal_strlit("voodoo_depth");
    reveal_strlit("voodoo_depth");
    reveal_strlit("free_depth");
    reveal_strlit("paid_depth");
    reveal_strlit("denarii_floor");
    let raw = crate::config::BUDGET_VOODOO@;
    lemma_first_index(raw, '#', 21);
    let body = raw.take(21);
    lemma_trim_exact(body, 0, 17);
    let l = body.subrange(0, 17);
    assert(!header_line(l));
    lemma_kv_at(l, 14, 0, 12, 1, 2);
    assert(l.subrange(0, 12) =~= "voodoo_depth"@);
    assert(l.subrange(16, 17) =~= seq!['0']);
    reveal(parse_i64_spec);
    reveal(parse_u64_spec);
    reveal_with_fuel(digits_value, 2);
    assert(seq!['0'].drop_last() =~= Seq::<char>::empty());
    assert(parse_i64_spec(seq!['0']) == Some(0i64));
    let stg = st.staged[k];
    assert(apply_budget_spec(budgets_zero(), l) == (budgets_zero(), None::<Seq<char>>));
    assert(st.staged.update(k, stg) =~= st.staged);
}

#[verifier::spinoff_prover]
proof fn lemma_budget_free_depth(st: ParseState, n: nat, w: Seq<Option<u64>>, ty: Seq<char>, k: int)
    requires
        st.section == Some((ty, None::<Tier>)),
        ty != word_global(),
        find_stage(st.staged, ty) == Some(k),
        0 <= k < st.staged.len(),
        st.staged[k].budgets == budgets_zero(),
    ensures
        step(st, n, crate::config::BUDGET_FREE@, w) == st,
{
    reveal_strlit("free_depth    = 0    # rerolls from the reign-wide free pool");
    assert(crate::config::BUDGET_FREE@ == "free_depth    = 0    # rerolls from the reign-wide free pool"@);
    reveal_strlit("free_depth");
    reveal_strlit("voodoo_depth");
    reveal_strlit("free_depth");
    reveal_strlit("paid_depth");
    reveal_strlit("denarii_floor");
    let raw = crate::config::BUDGET_FREE@;
    lemma_first_index(raw, '#', 21);
    let body = raw.take(21);
    lemma_trim_exact(body, 0, 17);
    let l = body.subrange(0, 17);
    assert(!header_line(l));
    lemma_kv_at(l, 14, 0, 10, 1, 2);
    assert(l.subrange(0, 10) =~= "free_depth"@);
    assert(l.subrange(16, 17) =~= seq!['0']);
    reveal(parse_i64_spec);
    reveal(parse_u64_spec);
    reveal_with_fuel(digits_value, 2);
    assert(seq!['0'].drop_last() =~= Seq::<char>::empty());
    assert(parse_i64_spec(seq!['0']) == Some(0i64));
    let stg = st.staged[k];
    assert(apply_budget_spec(budgets_zero(), l) == (budgets_zero(), None::<Seq<char>>));
    assert(st.staged.update(k, stg) =~= st.staged);
}

#[verifier::spinoff_prover]
proof fn lemma_budget_paid_depth(st: ParseState, n: nat, w: Seq<Option<u64>>, ty: Seq<char>, k: int)
    requires
        st.section == Some((ty, None::<Tier>)),
        ty != word_global(),
        find_stage(st.staged, ty) == Some(k),
        0 <= k < st.staged.len(),
        st.staged[k].budgets == budgets_zero(),
    ensures
        step(st, n, crate::config::BUDGET_PAID@, w) == st,
{
    reveal_strlit("paid_depth    = 0    # rerolls paid for in denarii");
    assert(crate::config::BUDGET_PAID@ == "paid_depth    = 0    # rerolls paid for in denarii"@);
    reveal_strlit("paid_depth");
    reveal_strlit("voodoo_depth");
    reveal_strlit("free_depth");
    reveal_strlit("paid_depth");
    reveal_strlit("denarii_floor");
    let raw = crate::config::BUDGET_PAID@;
    lemma_first_index(raw, '#', 21);
    let body = raw.take(21);
    lemma_trim_exact(body, 0, 17);
    let l = body.subrange(0, 17);
    assert(!header_line(l));
    lemma_kv_at(l, 14, 0, 10, 1, 2);
    assert(l.subrange(0, 10) =~= "paid_depth"@);
    assert(l.subrange(16, 17) =~= seq!['0']);
    reveal(parse_i64_spec);
    reveal(parse_u64_spec);
    reveal_with_fuel(digits_value, 2);
    assert(seq!['0'].drop_last() =~= Seq::<char>::empty());
    assert(parse_i64_spec(seq!['0']) == Some(0i64));
    let stg = st.staged[k];
    assert(apply_budget_spec(budgets_zero(), l) == (budgets_zero(), None::<Seq<char>>));
    assert(st.staged.update(k, stg) =~= st.staged);
}

#[verifier::spinoff_prover]
proof fn lemma_budget_denarii_floor(st: ParseState, n: nat, w: Seq<Option<u64>>, ty: Seq<char>, k: int)
    requires
        st.section == Some((ty, None::<Tier>)),
        ty != word_global(),
        find_stage(st.staged, ty) == Some(k),
        0 <= k < st.staged.len(),
        st.staged[k].budgets == budgets_zero(),
    ensures
        step(st, n, crate::config::BUDGET_FLOOR@, w) == st,
{
    reveal_strlit("denarii_floor = 0    # never reroll below this balance");
    assert(crate::config::BUDGET_FLOOR@ == "denarii_floor = 0    # never reroll below this balance"@);
    reveal_strlit("denarii_floor");
    reveal_strlit("voodoo_depth");
    reveal_strlit("free_depth");
    reveal_strlit("paid_depth");
    reveal_strlit("denarii_floor");
    let raw = crate::config::BUDGET_FLOOR@;
    lemma_first_index(raw, '#', 21);
    let body = raw.take(21);
    lemma_trim_exact(body, 0, 17);
    let l = body.subrange(0, 17);
    assert(!header_line(l));
    lemma_kv_at(l, 14, 0, 13, 1, 2);
    assert(l.subrange(0, 13) =~= "denarii_floor"@);
    assert(l.subrange(16, 17) =~= seq!['0']);
    reveal(parse_i64_spec);
    reveal(parse_u64_spec);
    reveal_with_fuel(digits_value, 2);
    assert(seq!['0'].drop_last() =~= Seq::<char>::empty());
    assert(parse_i64_spec(seq!['0']) == Some(0i64));
    let stg = st.staged[k];
    assert(apply_budget_spec(budgets_zero(), l) == (budgets_zero(), None::<Seq<char>>));
    assert(st.staged.update(k, stg) =~= st.staged);
}

/// One of the zeroed budget lines, in a type's budget section whose budgets
/// are zero: nothing changes.
pub open spec fn budget_line(l: Seq<char>) -> bool {
    l == crate::config::BUDGET_VOODOO@ || l == crate::config::BUDGET_FREE@
        || l == crate::config::BUDGET_PAID@ || l == crate::config::BUDGET_FLOOR@
}

#[verifier::spinoff_prover]
proof fn lemma_budget_line(st: ParseState, n: nat, l: Seq<char>, w: Seq<Option<u64>>, ty: Seq<char>, k: int)
    requires
        budget_line(l),
        st.section == Some((ty, None::<Tier>)),
        ty != word_global(),
        find_stage(st.staged, ty) == Some(k),
        0 <= k < st.staged.len(),
        st.staged[k].budgets == budgets_zero(),
    ensures
        step(st, n, l, w) == st,
{
    if l == crate::config::BUDGET_VOODOO@ {
        lemma_budget_voodoo_depth(st, n, w, ty, k);
    } else if l == crate::config::BUDGET_FREE@ {
        lemma_budget_free_depth(st, n, w, ty, k);
    } else if l == crate::config::BUDGET_PAID@ {
        lemma_budget_paid_depth(st, n, w, ty, k);
    } else {
        lemma_budget_denarii_floor(st, n, w, ty, k);
    }
}

#[verifier::spinoff_prover]
proof fn lemma_no_char_in_trim(x: Seq<char>, c: char)
    requires
        !x.contains(c),
    ensures
        !trim(x).contains(c),
{
    let (a, b) = crate::converge::lemma_trim_bounds(x);
    if trim(x).contains(c) {
        let j = choose|j: int| 0 <= j < trim(x).len() && trim(x)[j] == c;
        assert(x[a + j] == c);
    }
}

#[verifier::spinoff_prover]
proof fn lemma_lower_global()
    ensures
        eq_ignore_case(word_global(), word_global()),
{
}

/// A type's `[name]` header: the section becomes the type's budgets, and
/// the type is staged if it was not yet.
#[verifier::spinoff_prover]
proof fn lemma_type_header(st: ParseState, n: nat, rt: Seq<char>, w: Seq<Option<u64>>)
    requires
        !rt.contains('#'),
        !rt.contains('.'),
        !eq_ignore_case(trim(rt), word_global()),
    ensures
        trim(rt) != word_global(),
        step(st, n, "["@ + rt + "]"@, w) == (ParseState {
            section: Some((trim(rt), None)),
            staged: touch_spec(st.staged, trim(rt)),
            ..st
        }),
{
    lemma_bracket(rt);
    lemma_no_char_in_trim(rt, '.');
    crate::text::lemma_first_index_none(trim(rt), '.');
    lemma_lower_global();
    reveal(parse_section_spec);
}

pub open spec fn touch_spec(staged: Seq<StageView>, ty: Seq<char>) -> Seq<StageView> {
    crate::parse::touch(staged, ty)
}

/// The tier a tier header's word names.
pub open spec fn tier_of_word(which: int) -> Tier {
    if which == 0 {
        Tier::Wanted
    } else if which == 1 {
        Tier::Fallback
    } else {
        Tier::Blacklist
    }
}

pub open spec fn tier_suffix(which: int) -> Seq<char> {
    if which == 0 {
        ".wanted]"@
    } else if which == 1 {
        ".fallback]"@
    } else {
        ".blacklist]"@
    }
}

/// A type's tier header: the section becomes that tier of the type.
#[verifier::spinoff_prover]
#[verifier::rlimit(40)]
proof fn lemma_tier_header(st: ParseState, n: nat, rt: Seq<char>, which: int, w: Seq<Option<u64>>)
    requires
        0 <= which < 3,
        !rt.contains('#'),
        !rt.contains('.'),
        !eq_ignore_case(trim(rt), word_global()),
    ensures
        step(st, n, "["@ + rt + tier_suffix(which), w) == (ParseState {
            section: Some((trim(rt), Some(tier_of_word(which)))),
            staged: touch_spec(st.staged, trim(rt)),
            ..st
        }),
{
    reveal_strlit("[");
    reveal_strlit("]");
    reveal_strlit(".wanted]");
    reveal_strlit(".fallback]");
    reveal_strlit(".blacklist]");
    let word = if which == 0 {
        word_wanted()
    } else if which == 1 {
        word_fallback()
    } else {
        word_blacklist()
    };
    let x = rt + seq!['.'] + word;
    assert("["@ + rt + tier_suffix(which) =~= "["@ + x + "]"@);
    assert(!x.contains('#')) by {
        if x.contains('#') {
            let j = choose|j: int| 0 <= j < x.len() && x[j] == '#';
            if j < rt.len() {
                assert(rt[j] == '#');
            }
        }
    }
    lemma_bracket(x);
    let a = lemma_dotted(rt, word);
    let name = rt.skip(a) + seq!['.'] + word;
    lemma_trim_self(word);
    lemma_lower_global();
    lemma_no_char_in_trim(rt, '.');
    reveal(parse_section_spec);
    let k = rt.len() - a;
    assert(name.skip(k + 1) =~= word);
    assert(name.take(k) =~= rt.skip(a));
    assert(!eq_ignore_case(name, word_global())) by {
        assert(name.len() > 6);
    }
    assert(crate::config::tier_word(word) == Some(tier_of_word(which)));
    assert(trim(rt) != word_global());
}

// ------------------------------------------------------------ options

#[verifier::spinoff_prover]
proof fn lemma_option_body(o: (String, String), width: nat)
    requires
        !o.0@.contains('#'),
    ensures
        trim(strip_comment_spec(crate::config::option_line(o, width))) == trim(o.0@),
{
    let id = o.0@;
    let l = crate::config::option_line(o, width);
    if o.1@.len() == 0 {
        lemma_no_comment(id);
    } else {
        reveal_strlit("   # ");
        let p = crate::text::padded(id, width);
        assert(l == p + "   # "@ + o.1@);
        assert(p.len() >= id.len());
        assert forall|j: int| 0 <= j < p.len() implies p[j] == if j < id.len() {
            id[j]
        } else {
            ' '
        } by {}
        assert forall|j: int| 0 <= j < p.len() as int + 3 implies l[j] != '#' by {
            if j < id.len() {
                assert(l[j] == id[j]);
            }
        }
        assert(l[p.len() as int + 3] == '#');
        lemma_first_index(l, '#', p.len() as int + 3);
        let body = l.take(p.len() as int + 3);
        assert forall|j: int| 0 <= j < id.len() implies body[j] == id[j] by {}
        assert forall|j: int| id.len() <= j < body.len() implies is_ws(#[trigger] body[j]) by {
            assert(body[j] == ' ');
        }
        crate::converge::lemma_trim_agree(body, id, id.len() as int);
    }
}

/// An id's blacklist line, in that tier of a type that does not list it
/// yet: the id is added, blacklisted at weight 0.
#[verifier::spinoff_prover]
proof fn lemma_option_line(
    st: ParseState,
    n: nat,
    o: (String, String),
    width: nat,
    w: Seq<Option<u64>>,
    ty: Seq<char>,
    k: int,
)
    requires
        st.section == Some((ty, Some(Tier::Blacklist))),
        ty != word_global(),
        find_stage(st.staged, ty) == Some(k),
        0 <= k < st.staged.len(),
        !o.0@.contains('#'),
        !o.0@.contains('='),
        trim(o.0@).len() > 0,
        !header_line(trim(o.0@)),
        find_option(st.staged[k].options, trim(o.0@)) is None,
    ensures
        step(st, n, crate::config::option_line(o, width), w) == (ParseState {
            staged: st.staged.update(
                k,
                StageView {
                    options: st.staged[k].options.push((trim(o.0@), Tier::Blacklist, 0u64)),
                    ..st.staged[k]
                },
            ),
            ..st
        }),
{
    lemma_option_body(o, width);
    let line = trim(o.0@);
    lemma_no_char_in_trim(o.0@, '=');
    crate::text::lemma_first_index_none(line, '=');
    assert(kv_spec(line) is None);
}

// ------------------------------------------------------------ a type's block

/// Whether a run of text holds no line break.
pub open spec fn one_line(s: Seq<char>) -> bool {
    !s.contains('\n')
}

/// The ids a type lists, as the parser reads them.
pub open spec fn blacklisted(opts: Seq<(String, String)>) -> Seq<(Seq<char>, Tier, u64)> {
    Seq::new(opts.len(), |j: int| (trim(opts[j].0@), Tier::Blacklist, 0u64))
}

/// What parsing a generated type's block stages for it.
pub open spec fn expected_stage(t: TypeVocab) -> StageView {
    StageView {
        ty: trim(t.reward_type@),
        budgets: budgets_zero(),
        options: blacklisted(t.options@),
        errs: Seq::empty(),
    }
}

pub open spec fn expected(ts: Seq<TypeVocab>) -> Seq<StageView> {
    Seq::new(ts.len(), |i: int| expected_stage(ts[i]))
}

/// Nothing wrong, the defaults in force, and the types `ts` staged as
/// generated.
pub open spec fn settled(st: ParseState, ts: Seq<TypeVocab>) -> bool {
    &&& st.global == Global::spec_default()
    &&& st.errors == Seq::<Seq<char>>::empty()
    &&& st.wtexts == Seq::<Seq<char>>::empty()
    &&& st.staged == expected(ts)
}

/// A reward type a config can carry as generated: one-line names, a
/// section name that is neither dotted, nor commented, nor `global`, and
/// ids that read back as themselves -- no `#` or `=` in them, something
/// left when trimmed, not framed as a header, and no two alike.
pub open spec fn clean_type(t: TypeVocab) -> bool {
    let rt = t.reward_type@;
    let opts = t.options@;
    &&& one_line(rt)
    &&& !rt.contains('#')
    &&& !rt.contains('.')
    &&& !eq_ignore_case(trim(rt), word_global())
    &&& one_line(t.display@)
    &&& one_line(t.note@)
    &&& forall|j: int|
        0 <= j < opts.len() ==> {
            let id = (#[trigger] opts[j]).0@;
            &&& one_line(id)
            &&& one_line(opts[j].1@)
            &&& !id.contains('#')
            &&& !id.contains('=')
            &&& trim(id).len() > 0
            &&& !header_line(trim(id))
        }
    &&& forall|i: int, j: int|
        0 <= i < j < opts.len() ==> trim(#[trigger] opts[i].0@) != trim(#[trigger] opts[j].0@)
}

#[verifier::spinoff_prover]
proof fn lemma_run_from_cons(st: ParseState, l: Seq<char>, rest: Seq<Seq<char>>, off: nat, w: Seq<Option<u64>>)
    ensures
        run_from(st, seq![l] + rest, off, w) == run_from(step(st, off + 1, l, w), rest, off + 1, w),
{
    lemma_run_from_concat(st, seq![l], rest, off, w);
    lemma_run_from_one(st, l, off, w);
}

/// The options of a type, one line each, added to its stage in order.
#[verifier::spinoff_prover]
proof fn lemma_run_options(
    st: ParseState,
    t: TypeVocab,
    prev: Seq<TypeVocab>,
    j: int,
    off: nat,
    w: Seq<Option<u64>>,
)
    requires
        clean_type(t),
        0 <= j <= t.options.len(),
        trim(t.reward_type@) != word_global(),
        st.section == Some((trim(t.reward_type@), Some(Tier::Blacklist))),
        st.staged == expected(prev).push(
            StageView { options: Seq::empty(), ..expected_stage(t) },
        ),
        find_stage(st.staged, trim(t.reward_type@)) == Some(prev.len() as int),
    ensures
        ({
            let opts = crate::config::option_lines(t.options@, crate::config::id_width(t.options@));
            let after = run_from(st, opts.take(j), off, w);
            &&& after.section == st.section
            &&& after.global == st.global
            &&& after.errors == st.errors
            &&& after.wtexts == st.wtexts
            &&& after.staged == expected(prev).push(
                StageView { options: blacklisted(t.options@.take(j)), ..expected_stage(t) },
            )
        }),
    decreases j,
{
    let opts = crate::config::option_lines(t.options@, crate::config::id_width(t.options@));
    let k = prev.len() as int;
    if j == 0 {
        assert(opts.take(0) =~= Seq::<Seq<char>>::empty());
        assert(blacklisted(t.options@.take(0)) =~= Seq::<(Seq<char>, Tier, u64)>::empty());
    } else {
        lemma_run_options(st, t, prev, j - 1, off, w);
        assert(opts.take(j).drop_last() =~= opts.take(j - 1));
        let mid = run_from(st, opts.take(j - 1), off, w);
        let o = t.options@[j - 1];
        assert(opts.take(j).last() == crate::config::option_line(o, crate::config::id_width(t.options@)));
        assert(mid.staged.len() == k + 1);
        assert(mid.staged[k].ty == trim(t.reward_type@));
        assert(find_stage(mid.staged, trim(t.reward_type@)) == Some(k));
        let done = blacklisted(t.options@.take(j - 1));
        assert(mid.staged[k].options == done);
        crate::parse::lemma_find_option(done, trim(o.0@));
        assert(find_option(done, trim(o.0@)) is None) by {
            if find_option(done, trim(o.0@)) is Some {
                let q = find_option(done, trim(o.0@))->0;
                assert(done[q].0 == trim(t.options@[q].0@));
                assert(trim(t.options@[q].0@) != trim(t.options@[j - 1].0@));
            }
        }
        assert(t.options@[j - 1] == o);
        lemma_option_line(mid, off + j as nat, o, crate::config::id_width(t.options@), w, trim(t.reward_type@), k);
        assert(done.push((trim(o.0@), Tier::Blacklist, 0u64)) =~= blacklisted(t.options@.take(j)));
        let after = run_from(st, opts.take(j), off, w);
        assert(after.staged =~= expected(prev).push(
            StageView { options: blacklisted(t.options@.take(j)), ..expected_stage(t) },
        ));
    }
}

#[verifier::spinoff_prover]
proof fn lemma_run_budget(st: ParseState, off: nat, w: Seq<Option<u64>>, ty: Seq<char>, k: int)
    requires
        st.section == Some((ty, None::<Tier>)),
        ty != word_global(),
        find_stage(st.staged, ty) == Some(k),
        0 <= k < st.staged.len(),
        st.staged[k].budgets == budgets_zero(),
    ensures
        run_from(st, crate::config::budget_lines(), off, w) == st,
{
    reveal_strlit("#                    any depth may be -1: as many as the game allows");
    assert(crate::config::BUDGET_NOTE@ == "#                    any depth may be -1: as many as the game allows"@);
    let b = crate::config::budget_lines();
    assert(b =~= seq![b[0]] + (seq![b[1]] + (seq![b[2]] + (seq![b[3]] + seq![b[4]]))));
    lemma_run_from_cons(st, b[0], seq![b[1]] + (seq![b[2]] + (seq![b[3]] + seq![b[4]])), off, w);
    lemma_budget_line(st, off + 1, b[0], w, ty, k);
    lemma_run_from_cons(st, b[1], seq![b[2]] + (seq![b[3]] + seq![b[4]]), off + 1, w);
    lemma_budget_line(st, off + 2, b[1], w, ty, k);
    lemma_run_from_cons(st, b[2], seq![b[3]] + seq![b[4]], off + 2, w);
    lemma_budget_line(st, off + 3, b[2], w, ty, k);
    lemma_run_from_cons(st, b[3], seq![b[4]], off + 3, w);
    lemma_budget_line(st, off + 4, b[3], w, ty, k);
    lemma_run_from_one(st, b[4], off + 4, w);
    lemma_step_quiet(st, off + 5, b[4], w);
}

#[verifier::spinoff_prover]
proof fn lemma_quiet_facts(t: TypeVocab)
    ensures
        quiet(crate::config::RULE@),
        quiet(crate::config::heading_line(t)),
        quiet("# "@ + t.note@),
        quiet(crate::config::SCRAP_HINT@),
        quiet(crate::config::NO_SCRAP_HINT@),
        quiet(Seq::<char>::empty()),
{
    reveal_strlit("# --------------------------------------------------------------------------");
    reveal_strlit("# ");
    reveal_strlit("# _scrap = 1     # settle for scrapping the reward (+5 denarii)");
    reveal_strlit("# this reward type has no scrap button, so _scrap is unavailable");
    assert(crate::config::RULE@ == "# --------------------------------------------------------------------------"@);
    assert(crate::config::SCRAP_HINT@ == "# _scrap = 1     # settle for scrapping the reward (+5 denarii)"@);
    assert(crate::config::NO_SCRAP_HINT@ == "# this reward type has no scrap button, so _scrap is unavailable"@);
    assert(crate::config::heading_line(t)[0] == '#');
}

/// A type's heading passes the parser by.
#[verifier::spinoff_prover]
proof fn lemma_run_heading(st: ParseState, t: TypeVocab, off: nat, w: Seq<Option<u64>>)
    ensures
        run_from(st, crate::config::heading_lines(t), off, w) == st,
{
    lemma_quiet_facts(t);
    let h = crate::config::heading_lines(t);
    assert forall|i: int| 0 <= i < h.len() implies quiet(#[trigger] h[i]) by {}
    lemma_run_quiet(st, h, off, w);
}

/// The tier lines of a type's sections, in order: the parser ends in the
/// type's blacklist, with nothing else changed.
#[verifier::spinoff_prover]
#[verifier::rlimit(40)]
proof fn lemma_run_tiers(s1: ParseState, t: TypeVocab, o2: nat, w: Seq<Option<u64>>)
    requires
        clean_type(t),
        find_stage(s1.staged, trim(t.reward_type@)) is Some,
    ensures
        ({
            let rt = t.reward_type@;
            let m = seq![
                Seq::empty(),
                "["@ + rt + ".wanted]"@,
                Seq::empty(),
                "["@ + rt + ".fallback]"@,
                if t.can_scrap {
                    crate::config::SCRAP_HINT@
                } else {
                    crate::config::NO_SCRAP_HINT@
                },
                Seq::empty(),
                "["@ + rt + ".blacklist]"@,
            ];
            run_from(s1, m, o2, w) == (ParseState {
                section: Some((trim(rt), Some(Tier::Blacklist))),
                ..s1
            })
        }),
{
    let rt = t.reward_type@;
    let ty = trim(rt);
    let m = seq![
        Seq::empty(),
        "["@ + rt + ".wanted]"@,
        Seq::empty(),
        "["@ + rt + ".fallback]"@,
        if t.can_scrap {
            crate::config::SCRAP_HINT@
        } else {
            crate::config::NO_SCRAP_HINT@
        },
        Seq::empty(),
        "["@ + rt + ".blacklist]"@,
    ];
    lemma_quiet_facts(t);
    assert(m =~= seq![m[0]] + (seq![m[1]] + (seq![m[2]] + (seq![m[3]] + (seq![m[4]] + (seq![m[5]] + seq![m[6]]))))));
    lemma_run_from_cons(s1, m[0], seq![m[1]] + (seq![m[2]] + (seq![m[3]] + (seq![m[4]] + (seq![m[5]] + seq![m[6]])))), o2, w);
    lemma_step_quiet(s1, o2 + 1, m[0], w);
    lemma_run_from_cons(s1, m[1], seq![m[2]] + (seq![m[3]] + (seq![m[4]] + (seq![m[5]] + seq![m[6]]))), o2 + 1, w);
    assert(m[1] == "["@ + rt + tier_suffix(0));
    lemma_tier_header(s1, o2 + 2, rt, 0, w);
    let s2 = ParseState { section: Some((ty, Some(Tier::Wanted))), ..s1 };
    assert(step(s1, o2 + 2, m[1], w) == s2);
    lemma_run_from_cons(s2, m[2], seq![m[3]] + (seq![m[4]] + (seq![m[5]] + seq![m[6]])), o2 + 2, w);
    lemma_step_quiet(s2, o2 + 3, m[2], w);
    lemma_run_from_cons(s2, m[3], seq![m[4]] + (seq![m[5]] + seq![m[6]]), o2 + 3, w);
    assert(m[3] == "["@ + rt + tier_suffix(1));
    lemma_tier_header(s2, o2 + 4, rt, 1, w);
    let s3 = ParseState { section: Some((ty, Some(Tier::Fallback))), ..s1 };
    assert(step(s2, o2 + 4, m[3], w) == s3);
    lemma_run_from_cons(s3, m[4], seq![m[5]] + seq![m[6]], o2 + 4, w);
    lemma_step_quiet(s3, o2 + 5, m[4], w);
    lemma_run_from_cons(s3, m[5], seq![m[6]], o2 + 5, w);
    lemma_step_quiet(s3, o2 + 6, m[5], w);
    lemma_run_from_one(s3, m[6], o2 + 6, w);
    assert(m[6] == "["@ + rt + tier_suffix(2));
    lemma_tier_header(s3, o2 + 7, rt, 2, w);
}

/// A type's header and budgets: the type is staged, empty, with zero
/// budgets, and the parser is in its budget section.
#[verifier::spinoff_prover]
#[verifier::rlimit(40)]
proof fn lemma_run_head(st: ParseState, t: TypeVocab, prev: Seq<TypeVocab>, o1: nat, w: Seq<Option<u64>>)
    requires
        settled(st, prev),
        clean_type(t),
        forall|i: int| 0 <= i < prev.len() ==> trim(#[trigger] prev[i].reward_type@) != trim(t.reward_type@),
    ensures
        ({
            let ty = trim(t.reward_type@);
            let s1 = ParseState {
                section: Some((ty, None)),
                staged: expected(prev).push(StageView { options: Seq::empty(), ..expected_stage(t) }),
                ..st
            };
            &&& run_from(st, seq!["["@ + t.reward_type@ + "]"@] + crate::config::budget_lines(), o1, w) == s1
            &&& find_stage(s1.staged, ty) == Some(prev.len() as int)
            &&& ty != word_global()
        }),
{
    let rt = t.reward_type@;
    let ty = trim(rt);
    let hdr = "["@ + rt + "]"@;
    let bl = crate::config::budget_lines();
    lemma_run_from_cons(st, hdr, bl, o1, w);
    lemma_type_header(st, o1 + 1, rt, w);
    crate::parse::lemma_find_stage(expected(prev), ty);
    assert(find_stage(expected(prev), ty) is None) by {
        if find_stage(expected(prev), ty) is Some {
            let q = find_stage(expected(prev), ty)->0;
            assert(expected(prev)[q].ty == trim(prev[q].reward_type@));
        }
    }
    let stage0 = StageView { options: Seq::empty(), ..expected_stage(t) };
    assert(crate::parse::empty_stage(ty) == stage0);
    let s1 = ParseState {
        section: Some((ty, None)),
        staged: expected(prev).push(stage0),
        ..st
    };
    assert(step(st, o1 + 1, hdr, w) == s1);
    let k = prev.len() as int;
    assert(s1.staged.last().ty == ty);
    assert(find_stage(s1.staged, ty) == Some(k));
    lemma_run_budget(s1, o1 + 1, w, ty, k);
}

/// A generated type's block stages the type with zero budgets and every
/// id blacklisted, and leaves the parser in its blacklist.
#[verifier::spinoff_prover]
#[verifier::rlimit(40)]
proof fn lemma_block(st: ParseState, t: TypeVocab, prev: Seq<TypeVocab>, off: nat, w: Seq<Option<u64>>)
    requires
        settled(st, prev),
        clean_type(t),
        forall|i: int| 0 <= i < prev.len() ==> trim(#[trigger] prev[i].reward_type@) != trim(t.reward_type@),
    ensures
        settled(run_from(st, crate::config::block_lines(t), off, w), prev.push(t)),
{
    let rt = t.reward_type@;
    let ty = trim(rt);
    let hl = crate::config::heading_lines(t);
    let sl = crate::config::section_lines(t);
    lemma_run_from_concat(st, hl, sl, off, w);
    lemma_run_heading(st, t, off, w);
    let o1 = off + hl.len();
    let hdr = "["@ + rt + "]"@;
    let bl = crate::config::budget_lines();
    let m = seq![
        Seq::empty(),
        "["@ + rt + ".wanted]"@,
        Seq::empty(),
        "["@ + rt + ".fallback]"@,
        if t.can_scrap {
            crate::config::SCRAP_HINT@
        } else {
            crate::config::NO_SCRAP_HINT@
        },
        Seq::empty(),
        "["@ + rt + ".blacklist]"@,
    ];
    let width = crate::config::id_width(t.options@);
    let ol = crate::config::option_lines(t.options@, width);
    assert(sl =~= (seq![hdr] + bl) + (m + ol));
    lemma_run_from_concat(st, seq![hdr] + bl, m + ol, o1, w);
    lemma_run_head(st, t, prev, o1, w);
    let s1 = ParseState {
        section: Some((ty, None)),
        staged: expected(prev).push(StageView { options: Seq::empty(), ..expected_stage(t) }),
        ..st
    };
    let o2: nat = o1 + 6;
    assert((seq![hdr] + bl).len() == 6);
    lemma_run_from_concat(s1, m, ol, o2, w);
    lemma_run_tiers(s1, t, o2, w);
    let s4 = ParseState { section: Some((ty, Some(Tier::Blacklist))), ..s1 };
    lemma_run_options(s4, t, prev, t.options.len() as int, o2 + 7, w);
    assert(ol.take(t.options.len() as int) =~= ol);
    assert(t.options@.take(t.options.len() as int) =~= t.options@);
    let fin = run_from(s4, ol, o2 + 7, w);
    assert(fin.staged =~= expected(prev.push(t)));
}

// ------------------------------------------------------------ line breaks

#[verifier::spinoff_prover]
proof fn lemma_one_line_cat(a: Seq<char>, b: Seq<char>)
    requires
        one_line(a),
        one_line(b),
    ensures
        one_line(a + b),
{
    if (a + b).contains('\n') {
        let j = choose|j: int| 0 <= j < (a + b).len() && (a + b)[j] == '\n';
        if j < a.len() {
            assert(a[j] == '\n');
        } else {
            assert(b[j - a.len()] == '\n');
        }
    }
}

#[verifier::spinoff_prover]
proof fn lemma_decimal_one_line(n: nat)
    ensures
        one_line(crate::text::decimal(n)),
    decreases n,
{
    if n >= 10 {
        lemma_decimal_one_line(n / 10);
        lemma_one_line_cat(crate::text::decimal(n / 10), seq![crate::text::digit(n % 10)]);
        assert(crate::text::decimal(n) =~= crate::text::decimal(n / 10) + seq![crate::text::digit(n % 10)]);
    }
}

#[verifier::spinoff_prover]
proof fn lemma_padded_one_line(s: Seq<char>, width: nat)
    requires
        one_line(s),
    ensures
        one_line(crate::text::padded(s, width)),
{
    if s.len() < width {
        let sp = crate::text::spaces((width - s.len()) as nat);
        assert(one_line(sp));
        lemma_one_line_cat(s, sp);
    }
}

#[verifier::spinoff_prover]
proof fn lemma_literals_one_line()
    ensures
        one_line(crate::config::RULE@),
        one_line("# "@),
        one_line("   ["@),
        one_line("]   "@),
        one_line(" options"@),
        one_line("["@),
        one_line("]"@),
        one_line(".wanted]"@),
        one_line(".fallback]"@),
        one_line(".blacklist]"@),
        one_line("   # "@),
        one_line(crate::config::SCRAP_HINT@),
        one_line(crate::config::NO_SCRAP_HINT@),
        one_line(crate::config::BUDGET_VOODOO@),
        one_line(crate::config::BUDGET_FREE@),
        one_line(crate::config::BUDGET_PAID@),
        one_line(crate::config::BUDGET_FLOOR@),
        one_line(crate::config::BUDGET_NOTE@),
{
    reveal_strlit("# --------------------------------------------------------------------------");
    reveal_strlit("# ");
    reveal_strlit("   [");
    reveal_strlit("]   ");
    reveal_strlit(" options");
    reveal_strlit("[");
    reveal_strlit("]");
    reveal_strlit(".wanted]");
    reveal_strlit(".fallback]");
    reveal_strlit(".blacklist]");
    reveal_strlit("   # ");
    reveal_strlit("# _scrap = 1     # settle for scrapping the reward (+5 denarii)");
    reveal_strlit("# this reward type has no scrap button, so _scrap is unavailable");
    reveal_strlit("voodoo_depth  = 0    # rerolls using the per-reward freebie (Voodoo Beads)");
    reveal_strlit("free_depth    = 0    # rerolls from the reign-wide free pool");
    reveal_strlit("paid_depth    = 0    # rerolls paid for in denarii");
    reveal_strlit("denarii_floor = 0    # never reroll below this balance");
    reveal_strlit("#                    any depth may be -1: as many as the game allows");
}

#[verifier::spinoff_prover]
proof fn lemma_info_literals()
    ensures
        one_line(crate::config::INFO_RULE@),
        one_line(crate::config::INFO_TITLE@),
        one_line(crate::config::INFO_MARKS@),
        one_line(crate::config::INFO_MARKS_END@),
        one_line("#"@),
        one_line("#   "@),
        one_line("   "@),
        quiet(crate::config::INFO_RULE@),
        quiet(crate::config::INFO_TITLE@),
        crate::config::INFO_MARKS@.len() > 0 && crate::config::INFO_MARKS@[0] == '#',
        quiet("#"@),
        "#   "@.len() > 0 && "#   "@[0] == '#',
        forall|i: int| 0 <= i < 5 ==> one_line(#[trigger] crate::config::INFO_MEANING@[i]@) && quiet(crate::config::INFO_MEANING@[i]@),
{
    reveal_strlit("# ==========================================================================");
    reveal_strlit("# FOR INFORMATION ONLY -- nothing below here is configurable");
    reveal_strlit("# The game marks these ");
    reveal_strlit(" improvements `excluded_from_drop_pool`,");
    reveal_strlit("#");
    reveal_strlit("#   ");
    reveal_strlit("   ");
    reveal_strlit("# meaning they can never be offered as a reward, so they are left out of");
    reveal_strlit("# the improvement sections. They are listed here so that exclusion can be");
    reveal_strlit("# checked: if you recognise one you HAVE been offered, the filter is wrong");
    reveal_strlit("# and worth saying so.");
    assert forall|i: int| 0 <= i < 5 implies one_line(#[trigger] crate::config::INFO_MEANING@[i]@) && quiet(crate::config::INFO_MEANING@[i]@) by {
        if i == 0 {
        } else if i == 1 {
        } else if i == 2 {
        } else if i == 3 {
        } else {
        }
    }
}

#[verifier::spinoff_prover]
proof fn lemma_block_one_line(t: TypeVocab)
    requires
        clean_type(t),
    ensures
        forall|i: int|
            0 <= i < crate::config::block_lines(t).len() ==> one_line(
                #[trigger] crate::config::block_lines(t)[i],
            ),
{
    lemma_literals_one_line();
    let rt = t.reward_type@;
    assert(one_line(Seq::<char>::empty()));
    // the heading line
    lemma_one_line_cat("# "@, t.display@);
    lemma_one_line_cat("# "@ + t.display@, "   ["@);
    lemma_one_line_cat("# "@ + t.display@ + "   ["@, rt);
    lemma_one_line_cat("# "@ + t.display@ + "   ["@ + rt, "]   "@);
    lemma_decimal_one_line(t.options.len() as nat);
    lemma_one_line_cat(
        "# "@ + t.display@ + "   ["@ + rt + "]   "@,
        crate::text::decimal(t.options.len() as nat),
    );
    lemma_one_line_cat(
        "# "@ + t.display@ + "   ["@ + rt + "]   "@ + crate::text::decimal(t.options.len() as nat),
        " options"@,
    );
    lemma_one_line_cat("# "@, t.note@);
    // the headers
    lemma_one_line_cat("["@, rt);
    lemma_one_line_cat("["@ + rt, "]"@);
    lemma_one_line_cat("["@ + rt, ".wanted]"@);
    lemma_one_line_cat("["@ + rt, ".fallback]"@);
    lemma_one_line_cat("["@ + rt, ".blacklist]"@);
    // the options
    let width = crate::config::id_width(t.options@);
    let ol = crate::config::option_lines(t.options@, width);
    assert forall|j: int| 0 <= j < ol.len() implies one_line(#[trigger] ol[j]) by {
        let o = t.options@[j];
        assert(one_line(o.0@) && one_line(o.1@));
        lemma_padded_one_line(o.0@, width);
        lemma_one_line_cat(crate::text::padded(o.0@, width), "   # "@);
        lemma_one_line_cat(crate::text::padded(o.0@, width) + "   # "@, o.1@);
    }
    let b = crate::config::block_lines(t);
    let hl = crate::config::heading_lines(t);
    let sl = crate::config::section_lines(t);
    assert forall|i: int| 0 <= i < hl.len() implies one_line(#[trigger] hl[i]) by {}
    assert forall|i: int| 0 <= i < sl.len() implies one_line(#[trigger] sl[i]) by {
        if i >= 13 {
            assert(sl[i] == ol[i - 13]);
        }
    }
    assert forall|i: int| 0 <= i < b.len() implies one_line(#[trigger] b[i]) by {
        if i < hl.len() {
            assert(b[i] == hl[i]);
        } else {
            assert(b[i] == sl[i - hl.len()]);
        }
    }
}

#[verifier::spinoff_prover]
proof fn lemma_types_one_line(ts: Seq<TypeVocab>)
    requires
        forall|i: int| 0 <= i < ts.len() ==> clean_type(#[trigger] ts[i]),
    ensures
        forall|i: int|
            0 <= i < crate::config::type_lines(ts).len() ==> one_line(
                #[trigger] crate::config::type_lines(ts)[i],
            ),
    decreases ts.len(),
{
    if ts.len() > 0 {
        let p = ts.drop_last();
        assert forall|i: int| 0 <= i < p.len() implies clean_type(#[trigger] p[i]) by {
            assert(p[i] == ts[i]);
        }
        lemma_types_one_line(p);
        assert(clean_type(ts[ts.len() - 1]));
        lemma_block_one_line(ts.last());
        let a = crate::config::type_lines(p);
        let b = crate::config::block_lines(ts.last());
        assert forall|i: int| 0 <= i < (a + b).len() implies one_line(#[trigger] (a + b)[i]) by {
            if i < a.len() {
                assert((a + b)[i] == a[i]);
            } else {
                assert((a + b)[i] == b[i - a.len()]);
            }
        }
    }
}

/// A line the information block writes for an excluded improvement.
#[verifier::spinoff_prover]
proof fn lemma_info_lines(excluded: Seq<(String, String)>)
    requires
        forall|i: int|
            0 <= i < excluded.len() ==> one_line((#[trigger] excluded[i]).0@) && one_line(
                excluded[i].1@,
            ),
    ensures
        forall|i: int|
            0 <= i < crate::config::info_lines(excluded).len() ==> one_line(
                #[trigger] crate::config::info_lines(excluded)[i],
            ) && quiet(crate::config::info_lines(excluded)[i]),
{
    lemma_info_literals();
    let il = crate::config::info_lines(excluded);
    if excluded.len() > 0 {
        let width = crate::config::id_width(excluded);
        lemma_decimal_one_line(excluded.len() as nat);
        lemma_one_line_cat(crate::config::INFO_MARKS@, crate::text::decimal(excluded.len() as nat));
        lemma_one_line_cat(
            crate::config::INFO_MARKS@ + crate::text::decimal(excluded.len() as nat),
            crate::config::INFO_MARKS_END@,
        );
        assert forall|i: int| 0 <= i < il.len() implies one_line(#[trigger] il[i]) && quiet(il[i]) by {
            if i >= 12 {
                let o = excluded[i - 12];
                assert(il[i] == crate::config::info_line(o, width));
                lemma_padded_one_line(o.0@, width);
                lemma_one_line_cat("#   "@, crate::text::padded(o.0@, width));
                lemma_one_line_cat("#   "@ + crate::text::padded(o.0@, width), "   "@);
                lemma_one_line_cat("#   "@ + crate::text::padded(o.0@, width) + "   "@, o.1@);
                assert(il[i][0] == '#');
            } else if i >= 7 {
                assert(il[i] == crate::config::INFO_MEANING@[i - 7]@);
            }
        }
    }
}

// ------------------------------------------------------------ the whole file

#[verifier::spinoff_prover]
proof fn lemma_run_types(st: ParseState, ts: Seq<TypeVocab>, off: nat, w: Seq<Option<u64>>)
    requires
        settled(st, Seq::empty()),
        forall|i: int| 0 <= i < ts.len() ==> clean_type(#[trigger] ts[i]),
        forall|i: int, j: int|
            0 <= i < j < ts.len() ==> trim(#[trigger] ts[i].reward_type@) != trim(
                #[trigger] ts[j].reward_type@,
            ),
    ensures
        settled(run_from(st, crate::config::type_lines(ts), off, w), ts),
    decreases ts.len(),
{
    if ts.len() == 0 {
        assert(crate::config::type_lines(ts) =~= Seq::<Seq<char>>::empty());
        assert(expected(ts) =~= expected(Seq::<TypeVocab>::empty()));
    } else {
        let p = ts.drop_last();
        assert forall|i: int| 0 <= i < p.len() implies clean_type(#[trigger] p[i]) by {
            assert(p[i] == ts[i]);
        }
        assert forall|i: int, j: int|
            0 <= i < j < p.len() implies trim(#[trigger] p[i].reward_type@) != trim(
            #[trigger] p[j].reward_type@,
        ) by {
            assert(p[i] == ts[i] && p[j] == ts[j]);
        }
        lemma_run_types(st, p, off, w);
        let a = crate::config::type_lines(p);
        let l = ts.last();
        lemma_run_from_concat(st, a, crate::config::block_lines(l), off, w);
        assert(clean_type(ts[ts.len() - 1]));
        assert forall|i: int| 0 <= i < p.len() implies trim(#[trigger] p[i].reward_type@) != trim(
            l.reward_type@,
        ) by {
            assert(p[i] == ts[i]);
            assert(l == ts[ts.len() - 1]);
        }
        lemma_block(run_from(st, a, off, w), l, p, off + a.len(), w);
        assert(p.push(l) =~= ts);
    }
}

#[verifier::spinoff_prover]
proof fn lemma_kept_all(s: Seq<StageView>)
    requires
        forall|i: int| 0 <= i < s.len() ==> (#[trigger] s[i]).errs.len() == 0,
    ensures
        crate::parse::kept(s) == s,
        crate::parse::dropped(s) == Seq::<Seq<char>>::empty(),
    decreases s.len(),
{
    if s.len() > 0 {
        let p = s.drop_last();
        assert forall|i: int| 0 <= i < p.len() implies (#[trigger] p[i]).errs.len() == 0 by {
            assert(p[i] == s[i]);
        }
        lemma_kept_all(p);
        assert(s[s.len() - 1].errs.len() == 0);
        assert(p.push(s.last()) =~= s);
    }
}

/// A freshly generated config changes nothing: parsed back, whatever the
/// weights, it has no problem, the default global settings, and every
/// reward type it lists -- in order, by its trimmed name -- with zero
/// budgets and every id blacklisted at weight 0, so the mod resolves
/// nothing until the player edits the file.
///
/// For reward types whose names and ids a config line can carry (see
/// [`clean_type`]), named distinctly, with excluded improvements on one line
/// each.
#[verifier::spinoff_prover]
pub proof fn lemma_generated_config_is_inert(
    types: Seq<TypeVocab>,
    excluded: Seq<(String, String)>,
    weights: Seq<Option<u64>>,
)
    requires
        forall|i: int| 0 <= i < types.len() ==> clean_type(#[trigger] types[i]),
        forall|i: int, j: int|
            0 <= i < j < types.len() ==> trim(#[trigger] types[i].reward_type@) != trim(
                #[trigger] types[j].reward_type@,
            ),
        forall|i: int|
            0 <= i < excluded.len() ==> one_line((#[trigger] excluded[i]).0@) && one_line(
                excluded[i].1@,
            ),
    ensures
        parsed(generated(types, excluded), weights).errors == Seq::<Seq<char>>::empty(),
        parsed(generated(types, excluded), weights).global == Global::spec_default(),
        parsed(generated(types, excluded), weights).types == Seq::new(
            types.len(),
            |i: int| (trim(types[i].reward_type@), budgets_zero(), blacklisted(types[i].options@)),
        ),
{
    let h = header_lines();
    let tl = crate::config::type_lines(types);
    let il = crate::config::info_lines(excluded);
    let g = gen_lines(types, excluded);
    assert(g == h + tl + il);
    lemma_header_lines();
    lemma_types_one_line(types);
    lemma_info_lines(excluded);
    assert forall|i: int| 0 <= i < g.len() implies !(#[trigger] g[i]).contains('\n') by {
        if i < h.len() {
            assert(g[i] == h[i]);
            assert(fine(h[i]));
        } else if i < h.len() + tl.len() {
            assert(g[i] == tl[i - h.len()]);
        } else {
            assert(g[i] == il[i - h.len() - tl.len()]);
        }
    }
    crate::converge::lemma_lines_join(g);
    let text = generated(types, excluded);
    assert(lines(text) == Seq::new(g.len(), |i: int| strip_cr(g[i])));
    lemma_run_is_run_from(lines(text), weights);
    lemma_run_from_strip(initial_state(), g, 0, weights);
    lemma_run_from_concat(initial_state(), h + tl, il, 0, weights);
    lemma_run_from_concat(initial_state(), h, tl, 0, weights);
    lemma_run_is_run_from(h, weights);
    lemma_preamble(weights);
    assert(expected(Seq::<TypeVocab>::empty()) =~= Seq::<StageView>::empty());
    assert(settled(global_state(), Seq::empty()));
    lemma_run_types(global_state(), types, 55, weights);
    let s = run_from(global_state(), tl, 55, weights);
    assert forall|i: int| 0 <= i < il.len() implies quiet(#[trigger] il[i]) by {}
    lemma_run_quiet(s, il, 55 + tl.len(), weights);
    assert(run(lines(text), weights) == s);
    assert forall|i: int| 0 <= i < s.staged.len() implies (#[trigger] s.staged[i]).errs.len() == 0 by {
        assert(s.staged[i] == expected_stage(types[i]));
    }
    lemma_kept_all(s.staged);
    assert(s.errors + Seq::<Seq<char>>::empty() =~= Seq::<Seq<char>>::empty());
    assert(crate::parse::types_view(s.staged) =~= Seq::new(
        types.len(),
        |i: int| (trim(types[i].reward_type@), budgets_zero(), blacklisted(types[i].options@)),
    ));
}

/// A character a reward type's name may hold: an ASCII letter, digit or
/// underscore.
pub open spec fn name_char(c: char) -> bool {
    let u = c as u32;
    (0x30 <= u <= 0x39) || (0x41 <= u <= 0x5A) || (0x61 <= u <= 0x7A) || u == 0x5F
}

/// A reward type's name as a config section can carry it: `[A-Za-z0-9_]+`,
/// and not `global` in any case.
pub open spec fn plain_type_name(s: Seq<char>) -> bool {
    &&& s.len() > 0
    &&& forall|i: int| 0 <= i < s.len() ==> name_char(#[trigger] s[i])
    &&& !eq_ignore_case(s, word_global())
}

/// An option id a config line can carry: not empty, with no whitespace,
/// `#`, `=`, `[` or newline.
pub open spec fn plain_id(s: Seq<char>) -> bool {
    &&& s.len() > 0
    &&& forall|i: int|
        0 <= i < s.len() ==> !is_ws(#[trigger] s[i]) && s[i] != '#' && s[i] != '=' && s[i] != '['
            && s[i] != '\n'
}

/// Text with no whitespace trims to itself.
proof fn lemma_trim_plain(s: Seq<char>)
    requires
        s.len() > 0,
        forall|i: int| 0 <= i < s.len() ==> !is_ws(#[trigger] s[i]),
    ensures
        trim(s) == s,
{
    let (a, b) = crate::converge::lemma_trim_bounds(s);
    if a > 0 {
        assert(is_ws(s[0]));
    }
    if a == b {
        assert(is_ws(s[0]));
    }
    if b < s.len() {
        assert(is_ws(s[s.len() - 1]));
    }
    assert(s.subrange(0, s.len() as int) =~= s);
}

proof fn lemma_name_char_plain(c: char)
    requires
        name_char(c),
    ensures
        !is_ws(c),
        c != '\n',
        c != '#',
        c != '.',
{
    assert('\n' as u32 == 0x0A);
    assert('#' as u32 == 0x23);
    assert('.' as u32 == 0x2E);
}

proof fn lemma_plain_type_clean(t: TypeVocab)
    requires
        plain_type_name(t.reward_type@),
        one_line(t.display@),
        one_line(t.note@),
        forall|j: int| 0 <= j < t.options@.len() ==> plain_id((#[trigger] t.options@[j]).0@),
        forall|j: int| 0 <= j < t.options@.len() ==> one_line((#[trigger] t.options@[j]).1@),
        forall|i: int, j: int|
            0 <= i < j < t.options@.len() ==> (#[trigger] t.options@[i]).0@ != (#[trigger] t.options@[j]).0@,
    ensures
        clean_type(t),
{
    let rt = t.reward_type@;
    assert forall|i: int| 0 <= i < rt.len() implies !is_ws(#[trigger] rt[i]) && rt[i] != '\n' && rt[i]
        != '#' && rt[i] != '.' by {
        lemma_name_char_plain(rt[i]);
    }
    lemma_trim_plain(rt);
    let opts = t.options@;
    assert forall|j: int| 0 <= j < opts.len() implies trim((#[trigger] opts[j]).0@) == opts[j].0@ by {
        lemma_trim_plain(opts[j].0@);
    }
    assert forall|j: int| 0 <= j < opts.len() implies {
        let id = (#[trigger] opts[j]).0@;
        &&& one_line(id)
        &&& !id.contains('#')
        &&& !id.contains('=')
        &&& trim(id).len() > 0
        &&& !header_line(trim(id))
    } by {
        let id = opts[j].0@;
        assert(trim(id) == id);
        assert(id[0] != '[');
    }
    assert forall|i: int, j: int| 0 <= i < j < opts.len() implies trim(#[trigger] opts[i].0@) != trim(
        #[trigger] opts[j].0@,
    ) by {
        assert(trim(opts[i].0@) == opts[i].0@);
        assert(trim(opts[j].0@) == opts[j].0@);
    }
}

/// A generated config is inert, stated over the rules for what a config can
/// carry: reward types with distinct `[A-Za-z0-9_]+` names other than
/// `global`, option ids that are distinct, not empty and free of
/// whitespace, `#`, `=`, `[` and newlines, and no display name, note or
/// excluded entry running over a line. Parsed back, whatever the weights,
/// it has no problem, the default global settings, and every type in order
/// with zero budgets and every id blacklisted at weight 0.
pub proof fn lemma_plain_generated_config_is_inert(
    types: Seq<TypeVocab>,
    excluded: Seq<(String, String)>,
    weights: Seq<Option<u64>>,
)
    requires
        forall|i: int| 0 <= i < types.len() ==> plain_type_name((#[trigger] types[i]).reward_type@),
        forall|i: int, j: int|
            0 <= i < j < types.len() ==> (#[trigger] types[i]).reward_type@ != (#[trigger] types[j]).reward_type@,
        forall|i: int| 0 <= i < types.len() ==> one_line((#[trigger] types[i]).display@) && one_line(types[i].note@),
        forall|i: int, j: int|
            0 <= i < types.len() && 0 <= j < types[i].options@.len() ==> plain_id(
                (#[trigger] types[i].options@[j]).0@,
            ) && one_line(types[i].options@[j].1@),
        forall|i: int, j: int, k: int|
            0 <= i < types.len() && 0 <= j < k < types[i].options@.len() ==> (#[trigger] types[i].options@[j]).0@
                != (#[trigger] types[i].options@[k]).0@,
        forall|i: int|
            0 <= i < excluded.len() ==> one_line((#[trigger] excluded[i]).0@) && one_line(excluded[i].1@),
    ensures
        parsed(generated(types, excluded), weights).errors == Seq::<Seq<char>>::empty(),
        parsed(generated(types, excluded), weights).global == Global::spec_default(),
        parsed(generated(types, excluded), weights).types == Seq::new(
            types.len(),
            |i: int| (types[i].reward_type@, budgets_zero(), blacklisted(types[i].options@)),
        ),
{
    assert forall|i: int| 0 <= i < types.len() implies clean_type(#[trigger] types[i]) by {
        let t = types[i];
        assert forall|j: int| 0 <= j < t.options@.len() implies plain_id((#[trigger] t.options@[j]).0@) by {
            assert(types[i].options@[j] == t.options@[j]);
        }
        assert forall|j: int| 0 <= j < t.options@.len() implies one_line((#[trigger] t.options@[j]).1@) by {
            assert(types[i].options@[j] == t.options@[j]);
        }
        assert forall|j: int, k: int| 0 <= j < k < t.options@.len() implies (#[trigger] t.options@[j]).0@
            != (#[trigger] t.options@[k]).0@ by {
            assert(types[i].options@[j] == t.options@[j]);
            assert(types[i].options@[k] == t.options@[k]);
        }
        lemma_plain_type_clean(t);
    }
    assert forall|i: int| 0 <= i < types.len() implies trim((#[trigger] types[i]).reward_type@)
        == types[i].reward_type@ by {
        let rt = types[i].reward_type@;
        assert forall|k: int| 0 <= k < rt.len() implies !is_ws(#[trigger] rt[k]) by {
            lemma_name_char_plain(rt[k]);
        }
        lemma_trim_plain(rt);
    }
    assert forall|i: int, j: int| 0 <= i < j < types.len() implies trim(
        #[trigger] types[i].reward_type@,
    ) != trim(#[trigger] types[j].reward_type@) by {
        assert(trim(types[i].reward_type@) == types[i].reward_type@);
        assert(trim(types[j].reward_type@) == types[j].reward_type@);
    }
    lemma_generated_config_is_inert(types, excluded, weights);
    assert(parsed(generated(types, excluded), weights).types =~= Seq::new(
        types.len(),
        |i: int| (types[i].reward_type@, budgets_zero(), blacklisted(types[i].options@)),
    ));
}

} // verus!
