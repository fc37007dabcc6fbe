//! Reading the config file.
//!
//! Parsing never fails outright: problems are collected as messages, and a
//! reward type with any problem is dropped whole rather than half-applied,
//! so one bad type cannot disable the rest.
//!
//! Weights are decimal fractions, which this library does not compute with.
//! [`weight_fields`] hands out the weight texts in the order the parser meets
//! them, the caller turns each into the bits of a double (or `None` where it
//! is not a number), and [`parse`] takes those bits back in the same order.
use vstd::prelude::*;

use crate::config::{
    SCRAP, comment_start, eq_ignore_case, eq_ignore_case_exec, parse_section_spec, section_of,
    strip_comment_spec, word_global, word_vec, Budgets, Depth, Global, Tier,
};
use crate::picker::{Ranked, TypeConfig};
use crate::text::{
    chars_of, contains_char, decimal, find_char, first_index, lines, push_chars, push_decimal,
    push_str, seq_eq, slice_of, split_lines, string_of, trim, trim_bounds,
};

verus! {

// ------------------------------------------------------------- numbers

pub open spec fn is_digit(c: char) -> bool {
    '0' <= c && c <= '9'
}

pub open spec fn all_digits(s: Seq<char>) -> bool {
    forall|i: int| 0 <= i < s.len() ==> is_digit(#[trigger] s[i])
}

/// The number a run of decimal digits spells.
pub open spec fn digits_value(s: Seq<char>) -> nat
    decreases s.len(),
{
    if s.len() == 0 {
        0
    } else {
        digits_value(s.drop_last()) * 10 + ((s.last() as int) - 48) as nat
    }
}

/// What `str::parse::<u64>` accepts: an optional `+`, then one or more
/// digits, with a value that fits.
#[verifier::opaque]
pub open spec fn parse_u64_spec(s: Seq<char>) -> Option<u64> {
    let d = if s.len() > 0 && s[0] == '+' {
        s.drop_first()
    } else {
        s
    };
    if d.len() > 0 && all_digits(d) && digits_value(d) <= u64::MAX {
        Some(digits_value(d) as u64)
    } else {
        None
    }
}

/// What `str::parse::<i64>` accepts: an optional sign, then one or more
/// digits, with a value that fits.
#[verifier::opaque]
pub open spec fn parse_i64_spec(s: Seq<char>) -> Option<i64> {
    if s.len() > 0 && s[0] == '-' {
        let d = s.drop_first();
        if d.len() > 0 && all_digits(d) && digits_value(d) <= 0x8000_0000_0000_0000 {
            Some((0 - digits_value(d)) as i64)
        } else {
            None
        }
    } else {
        match parse_u64_spec(s) {
            Some(v) => if v <= i64::MAX {
                Some(v as i64)
            } else {
                None
            },
            None => None,
        }
    }
}

proof fn lemma_digits_take(s: Seq<char>, i: int)
    requires
        0 <= i < s.len(),
    ensures
        digits_value(s.take(i + 1)) == digits_value(s.take(i)) * 10 + ((s[i] as int) - 48) as nat,
{
    assert(s.take(i + 1).drop_last() == s.take(i));
}

proof fn lemma_digits_mono(s: Seq<char>, i: int, j: int)
    requires
        0 <= i <= j <= s.len(),
        all_digits(s),
    ensures
        digits_value(s.take(i)) <= digits_value(s.take(j)),
    decreases j - i,
{
    if i < j {
        lemma_digits_mono(s, i, j - 1);
        lemma_digits_take(s, j - 1);
        assert(is_digit(s[j - 1]));
    }
}

/// The value of the digits `s[lo..hi]`, if there is at least one, all are
/// digits, and the value fits in a `u64`.
fn digits_in(s: &Vec<char>, lo: usize, hi: usize) -> (r: Option<u64>)
    requires
        lo <= hi <= s.len(),
    ensures
        ({
            let d = s@.subrange(lo as int, hi as int);
            r == (if d.len() > 0 && all_digits(d) && digits_value(d) <= u64::MAX {
                Some(digits_value(d) as u64)
            } else {
                None::<u64>
            })
        }),
{
    let ghost d = s@.subrange(lo as int, hi as int);
    if lo == hi {
        return None;
    }
    let mut i = lo;
    while i < hi
        invariant
            lo <= i <= hi <= s.len(),
            d == s@.subrange(lo as int, hi as int),
            forall|j: int| 0 <= j < i - lo ==> is_digit(#[trigger] d[j]),
        decreases hi - i,
    {
        if !('0' <= s[i] && s[i] <= '9') {
            assert(!is_digit(d[i - lo]));
            return None;
        }
        i = i + 1;
    }
    assert(all_digits(d));
    let mut acc: u64 = 0;
    let mut i = lo;
    assert(d.take(0) == Seq::<char>::empty());
    while i < hi
        invariant
            lo <= i <= hi <= s.len(),
            d == s@.subrange(lo as int, hi as int),
            all_digits(d),
            acc as nat == digits_value(d.take(i - lo)),
        decreases hi - i,
    {
        proof {
            lemma_digits_take(d, i - lo);
            assert(d[i - lo] == s@[i as int]);
            assert(is_digit(d[i - lo]));
        }
        let dig = (s[i] as u32 - 48) as u64;
        match acc.checked_mul(10) {
            None => {
                proof {
                    lemma_digits_mono(d, i - lo + 1, d.len() as int);
                    assert(d.take(d.len() as int) == d);
                }
                return None;
            },
            Some(m) => match m.checked_add(dig) {
                None => {
                    proof {
                        lemma_digits_mono(d, i - lo + 1, d.len() as int);
                        assert(d.take(d.len() as int) == d);
                    }
                    return None;
                },
                Some(v) => {
                    acc = v;
                },
            },
        }
        i = i + 1;
    }
    assert(d.take(hi - lo) == d);
    Some(acc)
}

/// `str::parse::<u64>` on `s[lo..hi]`.
pub(crate) fn parse_u64_in(s: &Vec<char>, lo: usize, hi: usize) -> (r: Option<u64>)
    requires
        lo <= hi <= s.len(),
    ensures
        r == parse_u64_spec(s@.subrange(lo as int, hi as int)),
{
    reveal(parse_u64_spec);
    let ghost t = s@.subrange(lo as int, hi as int);
    if lo < hi && s[lo] == '+' {
        assert(t.drop_first() == s@.subrange(lo + 1, hi as int));
        digits_in(s, lo + 1, hi)
    } else {
        digits_in(s, lo, hi)
    }
}

/// `str::parse::<i64>` on `s[lo..hi]`.
fn parse_i64_in(s: &Vec<char>, lo: usize, hi: usize) -> (r: Option<i64>)
    requires
        lo <= hi <= s.len(),
    ensures
        r == parse_i64_spec(s@.subrange(lo as int, hi as int)),
{
    reveal(parse_i64_spec);
    reveal(parse_u64_spec);
    let ghost t = s@.subrange(lo as int, hi as int);
    if lo < hi && s[lo] == '-' {
        assert(t.drop_first() == s@.subrange(lo + 1, hi as int));
        match digits_in(s, lo + 1, hi) {
            None => {
                proof {
                    let d = t.drop_first();
                    if d.len() > 0 && all_digits(d) && digits_value(d) <= 0x8000_0000_0000_0000 {
                        assert(digits_value(d) <= u64::MAX);
                    }
                }
                None
            },
            Some(v) => {
                if v <= 0x8000_0000_0000_0000u64 {
                    if v == 0x8000_0000_0000_0000u64 {
                        Some(i64::MIN)
                    } else {
                        Some(-(v as i64))
                    }
                } else {
                    None
                }
            },
        }
    } else {
        match parse_u64_in(s, lo, hi) {
            Some(v) => if v <= 0x7FFF_FFFF_FFFF_FFFFu64 {
                Some(v as i64)
            } else {
                None
            },
            None => None,
        }
    }
}

// ------------------------------------------------------------ key = value

/// `line.split_once('=')`, both halves trimmed.
pub open spec fn kv_spec(line: Seq<char>) -> Option<(Seq<char>, Seq<char>)> {
    match first_index(line, '=') {
        Some(i) => Some((trim(line.take(i)), trim(line.skip(i + 1)))),
        None => None,
    }
}

/// Where the key and the value of `s[lo..hi]` lie, if it has an `=`.
fn kv_in(s: &Vec<char>, lo: usize, hi: usize) -> (r: Option<(usize, usize, usize, usize)>)
    requires
        lo <= hi <= s.len(),
    ensures
        match r {
            Some((a, b, c, d)) => lo <= a <= b <= hi && lo <= c <= d <= hi && kv_spec(
                s@.subrange(lo as int, hi as int),
            ) == Some((s@.subrange(a as int, b as int), s@.subrange(c as int, d as int))),
            None => kv_spec(s@.subrange(lo as int, hi as int)) == None::<
                (Seq<char>, Seq<char>),
            >,
        },
{
    let ghost t = s@.subrange(lo as int, hi as int);
    match find_char(s, lo, hi, '=') {
        None => None,
        Some(i) => {
            let ghost k = i - lo;
            assert(first_index(t, '=') == Some(k));
            assert(t.take(k) == s@.subrange(lo as int, i as int));
            assert(t.skip(k + 1) == s@.subrange(i + 1, hi as int));
            let (a, b) = trim_bounds(s, lo, i);
            let (c, d) = trim_bounds(s, i + 1, hi);
            assert(kv_spec(t) == Some((trim(t.take(k)), trim(t.skip(k + 1)))));
            Some((a, b, c, d))
        },
    }
}

/// Whether a setting's value reads as yes: `true`, `yes` or `1`, in any case.
pub open spec fn truthy(v: Seq<char>) -> bool {
    eq_ignore_case(v, "true"@) || eq_ignore_case(v, "yes"@) || eq_ignore_case(v, "1"@)
}

fn truthy_in(s: &Vec<char>, lo: usize, hi: usize) -> (r: bool)
    requires
        lo <= hi <= s.len(),
    ensures
        r == truthy(s@.subrange(lo as int, hi as int)),
{
    eq_ignore_case_exec(s, lo, hi, &chars_of("true")) || eq_ignore_case_exec(
        s,
        lo,
        hi,
        &chars_of("yes"),
    ) || eq_ignore_case_exec(s, lo, hi, &chars_of("1"))
}

/// Whether `s[lo..hi]` is exactly `word`.
fn is_word(s: &Vec<char>, lo: usize, hi: usize, word: &str) -> (r: bool)
    requires
        lo <= hi <= s.len(),
    ensures
        r == (s@.subrange(lo as int, hi as int) == word@),
{
    let w = chars_of(word);
    let k = slice_of(s, lo, hi);
    seq_eq(&k, &w)
}

// ------------------------------------------------------------ messages

/// `format!("{:?}", s)` for a string: what the messages quote a bad line or
/// value with.
pub uninterp spec fn debug_str(s: Seq<char>) -> Seq<char>;

/// `format!("{:?}", s)`: the string in double quotes, with quotes,
/// backslashes and control characters escaped. Claimed: the result is
/// `debug_str` of the text, the same text for the same input.
#[verifier::external_body]
fn debug_of(s: &str) -> (r: String)
    ensures
        r@ == debug_str(s@),
{
    format!("{:?}", s)
}

/// A problem on line `n`.
pub open spec fn line_msg(n: nat, e: Seq<char>) -> Seq<char> {
    "line "@ + decimal(n) + ": "@ + e
}

/// The end of the warning for an option in `wanted` or `fallback` that has
/// no weight.
pub const NO_WEIGHT: &'static str = "] had no weight; written back                          as `= 0`, the lowest. Change the number to rank it.";

/// The name of a tier as the messages print it.
pub open spec fn tier_name(t: Tier) -> Seq<char> {
    match t {
        Tier::Wanted => "Wanted"@,
        Tier::Fallback => "Fallback"@,
        Tier::Blacklist => "Blacklist"@,
    }
}

/// The warning for an option written without a weight outside the blacklist.
pub open spec fn no_weight_msg(n: nat, line: Seq<char>, ty: Seq<char>, t: Tier) -> Seq<char> {
    line_msg(
        n,
        line + " in ["@ + ty + "."@ + (if t == Tier::Wanted {
            "wanted"@
        } else {
            "fallback"@
        }) + NO_WEIGHT@,
    )
}

/// The message for an id in two tiers.
pub open spec fn twice_msg(id: Seq<char>, prev: Tier, t: Tier) -> Seq<char> {
    id + " is listed twice ("@ + tier_name(prev) + " and "@ + tier_name(t)
        + "); every id must be in exactly one tier"@
}

// ------------------------------------------------------------ settings

/// `[global]` with one `key = value` line applied, and the problem if the
/// line is not one.
pub open spec fn apply_global_spec(g: Global, line: Seq<char>) -> (Global, Option<Seq<char>>) {
    match kv_spec(line) {
        None => (g, Some("expected `key = value`, got "@ + debug_str(line))),
        Some((k, v)) => if k == "enabled"@ {
            (Global { enabled: truthy(v), ..g }, None)
        } else if k == "trace"@ {
            (Global { trace: truthy(v), ..g }, None)
        } else if k == "survey"@ {
            (Global { survey: truthy(v), ..g }, None)
        } else if k == "act"@ {
            (Global { act: truthy(v), ..g }, None)
        } else if k == "delay_ms"@ {
            match parse_u64_spec(v) {
                Some(n) => (Global { delay_ms: n, ..g }, None),
                None => (g, Some("delay_ms: "@ + debug_str(v) + " is not a number"@)),
            }
        } else {
            (g, Some("unknown setting in [global]: "@ + k))
        },
    }
}

/// Which budget a key names: 0 for `voodoo_depth`, 1 for `free_depth`, 2
/// for `paid_depth`, 3 for `denarii_floor`.
pub open spec fn budget_key(k: Seq<char>) -> Option<u8> {
    if k == "voodoo_depth"@ {
        Some(0)
    } else if k == "free_depth"@ {
        Some(1)
    } else if k == "paid_depth"@ {
        Some(2)
    } else if k == "denarii_floor"@ {
        Some(3)
    } else {
        None
    }
}

/// The budgets with the one a key names set from `n`.
pub open spec fn set_budget(b: Budgets, which: u8, n: i64) -> Budgets {
    if which == 0 {
        Budgets { voodoo_depth: Depth::spec_parse(n), ..b }
    } else if which == 1 {
        Budgets { free_depth: Depth::spec_parse(n), ..b }
    } else if which == 2 {
        Budgets { paid_depth: Depth::spec_parse(n), ..b }
    } else {
        Budgets { denarii_floor: n, ..b }
    }
}

/// A type's budgets with one `key = value` line applied, and the problem if
/// the line is not one.
pub open spec fn apply_budget_spec(b: Budgets, line: Seq<char>) -> (Budgets, Option<Seq<char>>) {
    match kv_spec(line) {
        None => (b, Some("expected `key = value`, got "@ + debug_str(line))),
        Some((k, v)) => match budget_key(k) {
            None => (b, Some("unknown setting: "@ + k)),
            Some(which) => match parse_i64_spec(v) {
                None => (b, Some(k + ": "@ + debug_str(v) + " is not a number"@)),
                Some(n) => (set_budget(b, which, n), None),
            },
        },
    }
}

// ------------------------------------------------------------ state

/// One reward type while its lines are read: its budgets, its options as
/// `(id, tier, weight bits)` in the order they were written, and the
/// problems found in it.
pub struct StageView {
    pub ty: Seq<char>,
    pub budgets: Budgets,
    pub options: Seq<(Seq<char>, Tier, u64)>,
    pub errs: Seq<Seq<char>>,
}

/// Everything the parser knows after some lines: the global settings, the
/// section it is in, the reward types in the order they first appeared, the
/// problems that do not belong to a type, and the weight texts met so far.
pub struct ParseState {
    pub global: Global,
    pub section: Option<(Seq<char>, Option<Tier>)>,
    pub staged: Seq<StageView>,
    pub errors: Seq<Seq<char>>,
    pub wtexts: Seq<Seq<char>>,
}

pub open spec fn budgets_zero() -> Budgets {
    Budgets {
        voodoo_depth: Depth::Zero,
        free_depth: Depth::Zero,
        paid_depth: Depth::Zero,
        denarii_floor: 0,
    }
}

pub open spec fn empty_stage(ty: Seq<char>) -> StageView {
    StageView { ty, budgets: budgets_zero(), options: Seq::empty(), errs: Seq::empty() }
}

pub open spec fn initial_state() -> ParseState {
    ParseState {
        global: Global::spec_default(),
        section: None,
        staged: Seq::empty(),
        errors: Seq::empty(),
        wtexts: Seq::empty(),
    }
}

/// Where the type `ty` is staged, if it is.
pub open spec fn find_stage(staged: Seq<StageView>, ty: Seq<char>) -> Option<int>
    decreases staged.len(),
{
    if staged.len() == 0 {
        None
    } else if staged.last().ty == ty {
        Some(staged.len() - 1)
    } else {
        find_stage(staged.drop_last(), ty)
    }
}

/// Where the option `id` is, if it is listed.
pub open spec fn find_option(opts: Seq<(Seq<char>, Tier, u64)>, id: Seq<char>) -> Option<int>
    decreases opts.len(),
{
    if opts.len() == 0 {
        None
    } else if opts.last().0 == id {
        Some(opts.len() - 1)
    } else {
        find_option(opts.drop_last(), id)
    }
}

/// The types staged, with `ty` added at the end if it was not yet.
pub open spec fn touch(staged: Seq<StageView>, ty: Seq<char>) -> Seq<StageView> {
    match find_stage(staged, ty) {
        Some(_) => staged,
        None => staged.push(empty_stage(ty)),
    }
}

/// The weight the caller read from the `k`-th weight text.
pub open spec fn weight_at(weights: Seq<Option<u64>>, k: int) -> Option<u64> {
    if 0 <= k < weights.len() {
        weights[k]
    } else {
        None
    }
}

pub open spec fn with_problem(errs: Seq<Seq<char>>, n: nat, e: Option<Seq<char>>) -> Seq<Seq<char>> {
    match e {
        Some(m) => errs.push(line_msg(n, m)),
        None => errs,
    }
}

/// `id` added to a type's tier `t` with weight `bits`, unless it is there
/// already.
pub open spec fn add_option(stg: StageView, n: nat, id: Seq<char>, t: Tier, bits: u64) -> StageView {
    match find_option(stg.options, id) {
        Some(j) => StageView {
            errs: stg.errs.push(line_msg(n, twice_msg(id, stg.options[j].1, t))),
            ..stg
        },
        None => StageView { options: stg.options.push((id, t, bits)), ..stg },
    }
}

/// One option line of tier `t`: the type afterwards, and the weight text it
/// used, if it wrote one.
pub open spec fn option_step(
    stg: StageView,
    n: nat,
    line: Seq<char>,
    t: Tier,
    weight: Option<u64>,
) -> (StageView, Option<Seq<char>>) {
    match kv_spec(line) {
        Some((id, w)) => (
            if id.len() == 0 {
                StageView { errs: stg.errs.push(line_msg(n, "empty option id"@)), ..stg }
            } else {
                match weight {
                    None => StageView {
                        errs: stg.errs.push(
                            line_msg(n, id + ": weight "@ + debug_str(w) + " is not a number"@),
                        ),
                        ..stg
                    },
                    Some(bits) => add_option(stg, n, id, t, bits),
                }
            },
            Some(w),
        ),
        None => (
            if line.len() == 0 {
                StageView { errs: stg.errs.push(line_msg(n, "empty option id"@)), ..stg }
            } else {
                add_option(stg, n, line, t, 0)
            },
            None,
        ),
    }
}

/// One line inside a reward type's section.
pub open spec fn stage_step(
    st: ParseState,
    n: nat,
    line: Seq<char>,
    ty: Seq<char>,
    tier: Option<Tier>,
    weights: Seq<Option<u64>>,
) -> ParseState {
    let staged = touch(st.staged, ty);
    let i = match find_stage(staged, ty) {
        Some(i) => i,
        None => 0,
    };
    let stg = staged[i];
    match tier {
        None => {
            let (b, e) = apply_budget_spec(stg.budgets, line);
            ParseState {
                staged: staged.update(
                    i,
                    StageView { budgets: b, errs: with_problem(stg.errs, n, e), ..stg },
                ),
                ..st
            }
        },
        Some(t) => {
            let errors = if t != Tier::Blacklist && !line.contains('=') {
                st.errors.push(no_weight_msg(n, line, ty, t))
            } else {
                st.errors
            };
            let (stg2, w) = option_step(stg, n, line, t, weight_at(weights, st.wtexts.len() as int));
            ParseState {
                staged: staged.update(i, stg2),
                errors,
                wtexts: match w {
                    Some(x) => st.wtexts.push(x),
                    None => st.wtexts,
                },
                ..st
            }
        },
    }
}

/// A `[name]` header on line `n`.
pub open spec fn header_step(st: ParseState, n: nat, name: Seq<char>) -> ParseState {
    match parse_section_spec(name) {
        Some(sec) => ParseState {
            section: Some(sec),
            staged: if sec.0 != word_global() {
                touch(st.staged, sec.0)
            } else {
                st.staged
            },
            ..st
        },
        None => ParseState {
            section: None,
            errors: st.errors.push(line_msg(n, "unknown section ["@ + name + "]"@)),
            ..st
        },
    }
}

/// Whether a trimmed line is a `[section]` header.
pub open spec fn header_line(t: Seq<char>) -> bool {
    t.len() >= 2 && t[0] == '[' && t.last() == ']'
}

/// Line `n` of the file, `raw` as written.
pub open spec fn step(st: ParseState, n: nat, raw: Seq<char>, weights: Seq<Option<u64>>) -> ParseState {
    let line = trim(strip_comment_spec(raw));
    if line.len() == 0 {
        st
    } else if header_line(line) {
        header_step(st, n, trim(line.subrange(1, line.len() - 1)))
    } else {
        match st.section {
            None => ParseState {
                errors: st.errors.push(line_msg(n, "setting outside any section"@)),
                ..st
            },
            Some((ty, tier)) => if ty == word_global() {
                let (g, e) = apply_global_spec(st.global, line);
                ParseState { global: g, errors: with_problem(st.errors, n, e), ..st }
            } else {
                stage_step(st, n, line, ty, tier, weights)
            },
        }
    }
}

/// The state after the lines `ls`, numbered from 1.
pub open spec fn run(ls: Seq<Seq<char>>, weights: Seq<Option<u64>>) -> ParseState
    decreases ls.len(),
{
    if ls.len() == 0 {
        initial_state()
    } else {
        step(run(ls.drop_last(), weights), ls.len(), ls.last(), weights)
    }
}

// ------------------------------------------------------------ exec state

/// A reward type while its lines are read.
struct Stage {
    ty: Vec<char>,
    budgets: Budgets,
    options: Vec<Ranked>,
    errs: Vec<String>,
}

/// The texts of a run of strings.
pub open spec fn strs(v: Seq<String>) -> Seq<Seq<char>> {
    Seq::new(v.len(), |i: int| v[i]@)
}

/// A type's options as `(id, tier, weight bits)`.
pub open spec fn ranked_view(v: Seq<Ranked>) -> Seq<(Seq<char>, Tier, u64)> {
    Seq::new(v.len(), |i: int| (v[i].id@, v[i].tier, v[i].weight_bits))
}

pub open spec fn opt_text(o: Option<String>) -> Option<Seq<char>> {
    match o {
        Some(s) => Some(s@),
        None => None,
    }
}

spec fn stage_view(s: Stage) -> StageView {
    StageView {
        ty: s.ty@,
        budgets: s.budgets,
        options: ranked_view(s.options@),
        errs: strs(s.errs@),
    }
}

spec fn stages_view(v: Seq<Stage>) -> Seq<StageView> {
    Seq::new(v.len(), |i: int| stage_view(v[i]))
}

fn push_msg(v: &mut Vec<String>, m: String)
    ensures
        strs(final(v)@) == strs(old(v)@).push(m@),
{
    v.push(m);
    assert(strs(v@) =~= strs(old(v)@).push(m@));
}

/// `line {n}: {e}`.
fn line_msg_of(n: usize, e: String) -> (r: String)
    ensures
        r@ == line_msg(n as nat, e@),
{
    let mut s = String::new();
    push_str(&mut s, "line ");
    push_decimal(&mut s, n as u64);
    push_str(&mut s, ": ");
    push_str(&mut s, e.as_str());
    s
}

/// An owned copy of `a`.
fn owned(a: &str) -> (r: String)
    ensures
        r@ == a@,
{
    let mut s = String::new();
    push_str(&mut s, a);
    s
}

/// A string of `a` followed by `b`.
fn cat(a: &str, b: &str) -> (r: String)
    ensures
        r@ == a@ + b@,
{
    let mut s = String::new();
    push_str(&mut s, a);
    push_str(&mut s, b);
    s
}

/// `format!("{:?}", s)` of a run of characters.
fn debug_chars(s: &Vec<char>, lo: usize, hi: usize) -> (r: String)
    requires
        lo <= hi <= s.len(),
    ensures
        r@ == debug_str(s@.subrange(lo as int, hi as int)),
{
    let t = string_of(&slice_of(s, lo, hi));
    debug_of(t.as_str())
}

fn find_stage_exec(staged: &Vec<Stage>, ty: &Vec<char>) -> (r: Option<usize>)
    ensures
        match r {
            Some(i) => i < staged.len() && find_stage(stages_view(staged@), ty@) == Some(i as int),
            None => find_stage(stages_view(staged@), ty@) == None::<int>,
        },
{
    let ghost v = stages_view(staged@);
    let mut j = staged.len();
    assert(v.take(j as int) == v);
    while j > 0
        invariant
            0 <= j <= staged.len(),
            v == stages_view(staged@),
            find_stage(v, ty@) == find_stage(v.take(j as int), ty@),
        decreases j,
    {
        let ghost w = v.take(j as int);
        assert(w.last() == stage_view(staged@[j - 1]));
        if seq_eq(&staged[j - 1].ty, ty) {
            return Some(j - 1);
        }
        assert(w.drop_last() == v.take(j - 1));
        j = j - 1;
    }
    None
}

fn find_option_exec(opts: &Vec<Ranked>, id: &Vec<char>) -> (r: Option<usize>)
    ensures
        match r {
            Some(i) => i < opts.len() && find_option(ranked_view(opts@), id@) == Some(i as int),
            None => find_option(ranked_view(opts@), id@) == None::<int>,
        },
{
    let ghost v = ranked_view(opts@);
    let mut j = opts.len();
    assert(v.take(j as int) == v);
    while j > 0
        invariant
            0 <= j <= opts.len(),
            v == ranked_view(opts@),
            find_option(v, id@) == find_option(v.take(j as int), id@),
        decreases j,
    {
        let ghost w = v.take(j as int);
        assert(w.last().0 == opts@[j - 1].id@);
        let have = chars_of(opts[j - 1].id.as_str());
        if seq_eq(&have, id) {
            return Some(j - 1);
        }
        assert(w.drop_last() == v.take(j - 1));
        j = j - 1;
    }
    None
}

/// Stage `ty` if it is not yet, and say where it is.
fn touch_exec(staged: &mut Vec<Stage>, ty: &Vec<char>) -> (r: usize)
    ensures
        stages_view(final(staged)@) == touch(stages_view(old(staged)@), ty@),
        r < final(staged).len(),
        find_stage(stages_view(final(staged)@), ty@) == Some(r as int),
{
    match find_stage_exec(staged, ty) {
        Some(i) => i,
        None => {
            let ghost before = stages_view(staged@);
            let e = Stage {
                ty: ty.clone(),
                budgets: Budgets::zero(),
                options: Vec::new(),
                errs: Vec::new(),
            };
            assert(stage_view(e) == empty_stage(ty@)) by {
                assert(ranked_view(e.options@) =~= Seq::<(Seq<char>, Tier, u64)>::empty());
                assert(strs(e.errs@) =~= Seq::<Seq<char>>::empty());
            }
            staged.push(e);
            assert(stages_view(staged@) =~= before.push(empty_stage(ty@)));
            let k = staged.len() - 1;
            assert(stages_view(staged@).last().ty == ty@);
            k
        },
    }
}

// ------------------------------------------------------------ exec settings

/// `[global]` with one line applied; the problem, if any.
fn apply_global_exec(g: &mut Global, line: &Vec<char>) -> (r: Option<String>)
    ensures
        (*final(g), opt_text(r)) == apply_global_spec(*old(g), line@),
{
    let n = line.len();
    assert(line@.subrange(0, n as int) == line@);
    match kv_in(line, 0, n) {
        None => {
            let d = debug_chars(line, 0, n);
            Some(cat("expected `key = value`, got ", d.as_str()))
        },
        Some((a, b, c, d)) => {
            if is_word(line, a, b, "enabled") {
                g.enabled = truthy_in(line, c, d);
                None
            } else if is_word(line, a, b, "trace") {
                g.trace = truthy_in(line, c, d);
                None
            } else if is_word(line, a, b, "survey") {
                g.survey = truthy_in(line, c, d);
                None
            } else if is_word(line, a, b, "act") {
                g.act = truthy_in(line, c, d);
                None
            } else if is_word(line, a, b, "delay_ms") {
                match parse_u64_in(line, c, d) {
                    Some(v) => {
                        g.delay_ms = v;
                        None
                    },
                    None => {
                        let dv = debug_chars(line, c, d);
                        let mut m = cat("delay_ms: ", dv.as_str());
                        push_str(&mut m, " is not a number");
                        Some(m)
                    },
                }
            } else {
                let k = string_of(&slice_of(line, a, b));
                Some(cat("unknown setting in [global]: ", k.as_str()))
            }
        },
    }
}

/// A type's budgets with one line applied; the problem, if any.
fn budget_key_in(s: &Vec<char>, lo: usize, hi: usize) -> (r: Option<u8>)
    requires
        lo <= hi <= s.len(),
    ensures
        r == budget_key(s@.subrange(lo as int, hi as int)),
{
    if is_word(s, lo, hi, "voodoo_depth") {
        Some(0)
    } else if is_word(s, lo, hi, "free_depth") {
        Some(1)
    } else if is_word(s, lo, hi, "paid_depth") {
        Some(2)
    } else if is_word(s, lo, hi, "denarii_floor") {
        Some(3)
    } else {
        None
    }
}

fn set_budget_exec(bud: &mut Budgets, which: u8, n: i64)
    ensures
        *final(bud) == set_budget(*old(bud), which, n),
{
    if which == 0 {
        bud.voodoo_depth = Depth::parse(n);
    } else if which == 1 {
        bud.free_depth = Depth::parse(n);
    } else if which == 2 {
        bud.paid_depth = Depth::parse(n);
    } else {
        bud.denarii_floor = n;
    }
}

fn apply_budget_exec(bud: &mut Budgets, line: &Vec<char>) -> (r: Option<String>)
    ensures
        (*final(bud), opt_text(r)) == apply_budget_spec(*old(bud), line@),
{
    let n = line.len();
    assert(line@.subrange(0, n as int) == line@);
    match kv_in(line, 0, n) {
        None => {
            let d = debug_chars(line, 0, n);
            Some(cat("expected `key = value`, got ", d.as_str()))
        },
        Some((a, b, c, d)) => {
            let k = string_of(&slice_of(line, a, b));
            match budget_key_in(line, a, b) {
                None => Some(cat("unknown setting: ", k.as_str())),
                Some(which) => match parse_i64_in(line, c, d) {
                    None => {
                        let dv = debug_chars(line, c, d);
                        let mut m = cat(k.as_str(), ": ");
                        push_str(&mut m, dv.as_str());
                        push_str(&mut m, " is not a number");
                        Some(m)
                    },
                    Some(v) => {
                        set_budget_exec(bud, which, v);
                        None
                    },
                },
            }
        },
    }
}

// ------------------------------------------------------------ exec steps

/// `id` added to tier `t` with weight `bits`, unless it is there already.
fn add_option_exec(stg: &mut Stage, n: usize, id: &Vec<char>, t: Tier, bits: u64)
    ensures
        stage_view(*final(stg)) == add_option(stage_view(*old(stg)), n as nat, id@, t, bits),
{
    match find_option_exec(&stg.options, id) {
        Some(j) => {
            let prev = stg.options[j].tier;
            let mut m = string_of(id);
            push_str(&mut m, " is listed twice (");
            push_str(&mut m, tier_text(prev));
            push_str(&mut m, " and ");
            push_str(&mut m, tier_text(t));
            push_str(&mut m, "); every id must be in exactly one tier");
            assert(m@ == twice_msg(id@, stage_view(*old(stg)).options[j as int].1, t));
            push_msg(&mut stg.errs, line_msg_of(n, m));
        },
        None => {
            let ghost before = ranked_view(stg.options@);
            stg.options.push(Ranked { id: string_of(id), tier: t, weight_bits: bits });
            assert(ranked_view(stg.options@) =~= before.push((id@, t, bits)));
        },
    }
}

/// The name of a tier as the messages print it.
fn tier_text(t: Tier) -> (r: &'static str)
    ensures
        r@ == tier_name(t),
{
    match t {
        Tier::Wanted => "Wanted",
        Tier::Fallback => "Fallback",
        Tier::Blacklist => "Blacklist",
    }
}

/// One option line of tier `t`; the weight text it wrote, if any.
#[verifier::rlimit(40)]
fn option_step_exec(stg: &mut Stage, n: usize, line: &Vec<char>, t: Tier, weight: Option<u64>) -> (r:
    Option<String>)
    ensures
        (stage_view(*final(stg)), opt_text(r)) == option_step(
            stage_view(*old(stg)),
            n as nat,
            line@,
            t,
            weight,
        ),
{
    let len = line.len();
    assert(line@.subrange(0, len as int) == line@);
    match kv_in(line, 0, len) {
        Some((a, b, c, d)) => {
            let ghost ids = line@.subrange(a as int, b as int);
            let ghost ws = line@.subrange(c as int, d as int);
            assert(kv_spec(line@) == Some((ids, ws)));
            let w = string_of(&slice_of(line, c, d));
            if a == b {
                push_msg(&mut stg.errs, line_msg_of(n, owned("empty option id")));
            } else {
                let id = slice_of(line, a, b);
                match weight {
                    None => {
                        let dv = debug_chars(line, c, d);
                        let mut m = string_of(&id);
                        push_str(&mut m, ": weight ");
                        push_str(&mut m, dv.as_str());
                        push_str(&mut m, " is not a number");
                        push_msg(&mut stg.errs, line_msg_of(n, m));
                    },
                    Some(bits) => {
                        add_option_exec(stg, n, &id, t, bits);
                    },
                }
            }
            Some(w)
        },
        None => {
            if len == 0 {
                push_msg(&mut stg.errs, line_msg_of(n, owned("empty option id")));
            } else {
                add_option_exec(stg, n, line, t, 0);
            }
            None
        },
    }
}

/// The parser's running state.
struct Parser {
    global: Global,
    section: Option<(Vec<char>, Option<Tier>)>,
    staged: Vec<Stage>,
    errors: Vec<String>,
    wtexts: Vec<String>,
}

spec fn parser_view(p: Parser) -> ParseState {
    ParseState {
        global: p.global,
        section: match p.section {
            Some((t, x)) => Some((t@, x)),
            None => None,
        },
        staged: stages_view(p.staged@),
        errors: strs(p.errors@),
        wtexts: strs(p.wtexts@),
    }
}

/// One line inside a reward type's section.
#[verifier::rlimit(60)]
fn stage_step_exec(
    p: &mut Parser,
    n: usize,
    line: &Vec<char>,
    ty: &Vec<char>,
    tier: Option<Tier>,
    weights: &[Option<u64>],
)
    ensures
        parser_view(*final(p)) == stage_step(
            parser_view(*old(p)),
            n as nat,
            line@,
            ty@,
            tier,
            weights@,
        ),
{
    let ghost st = parser_view(*p);
    let i = touch_exec(&mut p.staged, ty);
    let ghost staged1 = stages_view(p.staged@);
    let mut stg = p.staged.remove(i);
    assert(stage_view(stg) == staged1[i as int]);
    match tier {
        None => {
            let e = apply_budget_exec(&mut stg.budgets, line);
            match e {
                Some(m) => push_msg(&mut stg.errs, line_msg_of(n, m)),
                None => {},
            }
        },
        Some(t) => {
            let len = line.len();
            if t != Tier::Blacklist && !contains_char(line, 0, len, '=') {
                assert(line@.subrange(0, len as int) == line@);
                let mut m = string_of(line);
                push_str(&mut m, " in [");
                push_chars(&mut m, ty);
                push_str(&mut m, ".");
                push_str(&mut m, if t == Tier::Wanted { "wanted" } else { "fallback" });
                push_str(&mut m, NO_WEIGHT);
                push_msg(&mut p.errors, line_msg_of(n, m));
            } else {
                assert(line@.subrange(0, len as int) == line@);
            }
            let k = p.wtexts.len();
            let weight = if k < weights.len() {
                weights[k]
            } else {
                None
            };
            let w = option_step_exec(&mut stg, n, line, t, weight);
            match w {
                Some(x) => push_msg(&mut p.wtexts, x),
                None => {},
            }
        },
    }
    let ghost sv = stage_view(stg);
    p.staged.insert(i, stg);
    assert(stages_view(p.staged@) =~= staged1.update(i as int, sv));
}

/// A `[name]` header, `name` being `h[lo..hi]`.
fn header_step_exec(p: &mut Parser, n: usize, h: &Vec<char>, lo: usize, hi: usize)
    requires
        lo <= hi <= h.len(),
    ensures
        parser_view(*final(p)) == header_step(
            parser_view(*old(p)),
            n as nat,
            h@.subrange(lo as int, hi as int),
        ),
{
    match section_of(h, lo, hi) {
        Some((ty, t)) => {
            let g = word_vec(0);
            if !seq_eq(&ty, &g) {
                touch_exec(&mut p.staged, &ty);
            }
            p.section = Some((ty, t));
        },
        None => {
            let mut m = owned("unknown section [");
            push_chars(&mut m, &slice_of(h, lo, hi));
            push_str(&mut m, "]");
            push_msg(&mut p.errors, line_msg_of(n, m));
            p.section = None;
        },
    }
}

/// Line `n` of the file.
#[verifier::rlimit(30)]
fn step_exec(p: &mut Parser, n: usize, raw: &Vec<char>, weights: &[Option<u64>])
    ensures
        parser_view(*final(p)) == step(parser_view(*old(p)), n as nat, raw@, weights@),
{
    let k = comment_start(raw);
    let (a, b) = trim_bounds(raw, 0, k);
    assert(raw@.subrange(0, k as int) == raw@.take(k as int));
    let line = slice_of(raw, a, b);
    let len = line.len();
    if len == 0 {
        return;
    }
    if len >= 2 && line[0] == '[' && line[len - 1] == ']' {
        let (c, d) = trim_bounds(&line, 1, len - 1);
        assert(line@.subrange(1, len - 1) == line@.subrange(1, len as int - 1));
        header_step_exec(p, n, &line, c, d);
        return;
    }
    match &p.section {
        None => {
            push_msg(&mut p.errors, line_msg_of(n, owned("setting outside any section")));
        },
        Some((ty, tier)) => {
            let ty2 = ty.clone();
            let tier2 = *tier;
            let g = word_vec(0);
            if seq_eq(&ty2, &g) {
                let e = apply_global_exec(&mut p.global, &line);
                match e {
                    Some(m) => push_msg(&mut p.errors, line_msg_of(n, m)),
                    None => {},
                }
            } else {
                stage_step_exec(p, n, &line, &ty2, tier2, weights);
            }
        },
    }
}

/// The parser after every line of `text`.
fn run_exec(text: &str, weights: &[Option<u64>]) -> (p: Parser)
    ensures
        parser_view(p) == run(lines(text@), weights@),
{
    let cs = chars_of(text);
    let ls = split_lines(&cs);
    let ghost lsp = lines(text@);
    let mut p = Parser {
        global: Global::default(),
        section: None,
        staged: Vec::new(),
        errors: Vec::new(),
        wtexts: Vec::new(),
    };
    assert(parser_view(p) == initial_state()) by {
        assert(stages_view(p.staged@) =~= Seq::<StageView>::empty());
        assert(strs(p.errors@) =~= Seq::<Seq<char>>::empty());
        assert(strs(p.wtexts@) =~= Seq::<Seq<char>>::empty());
    }
    assert(lsp.take(0) =~= Seq::<Seq<char>>::empty());
    let mut i: usize = 0;
    while i < ls.len()
        invariant
            ls.len() == lsp.len(),
            lsp == lines(text@),
            forall|j: int| 0 <= j < ls.len() ==> #[trigger] ls@[j]@ == lsp[j],
            0 <= i <= ls.len(),
            parser_view(p) == run(lsp.take(i as int), weights@),
        decreases ls.len() - i,
    {
        step_exec(&mut p, i + 1, &ls[i], weights);
        assert(lsp.take(i + 1).drop_last() == lsp.take(i as int));
        assert(lsp.take(i + 1).last() == lsp[i as int]);
        i = i + 1;
    }
    assert(lsp.take(i as int) == lsp);
    p
}

// ------------------------------------------------------------ the result

/// The reward types that came through without a problem, in the order
/// they first appeared.
pub open spec fn kept(staged: Seq<StageView>) -> Seq<StageView>
    decreases staged.len(),
{
    if staged.len() == 0 {
        Seq::empty()
    } else if staged.last().errs.len() == 0 {
        kept(staged.drop_last()).push(staged.last())
    } else {
        kept(staged.drop_last())
    }
}

/// The heading for a reward type dropped for its problems.
pub open spec fn dropped_heading(s: StageView) -> Seq<char> {
    "["@ + s.ty + "] dropped, "@ + decimal(s.errs.len()) + " problem(s):"@
}

pub open spec fn indented(errs: Seq<Seq<char>>) -> Seq<Seq<char>> {
    Seq::new(errs.len(), |k: int| "    "@ + errs[k])
}

/// The messages for the reward types dropped: a heading for each, then its
/// problems indented under it.
pub open spec fn dropped(staged: Seq<StageView>) -> Seq<Seq<char>>
    decreases staged.len(),
{
    if staged.len() == 0 {
        Seq::empty()
    } else if staged.last().errs.len() == 0 {
        dropped(staged.drop_last())
    } else {
        dropped(staged.drop_last()) + seq![dropped_heading(staged.last())] + indented(
            staged.last().errs,
        )
    }
}

/// What a parsed config holds: the global settings, each reward type kept
/// with its budgets and its options as `(id, tier, weight bits)`, and every
/// problem found, in order.
pub struct ConfigView {
    pub global: Global,
    pub types: Seq<(Seq<char>, Budgets, Seq<(Seq<char>, Tier, u64)>)>,
    pub errors: Seq<Seq<char>>,
}

/// The types of a config, as `(name, budgets, options)`.
pub open spec fn types_view(k: Seq<StageView>) -> Seq<(Seq<char>, Budgets, Seq<(Seq<char>, Tier, u64)>)> {
    Seq::new(k.len(), |i: int| (k[i].ty, k[i].budgets, k[i].options))
}

/// What [`parse`] makes of `text`, the `k`-th weight text having been read
/// as `weights[k]`.
pub open spec fn parsed(text: Seq<char>, weights: Seq<Option<u64>>) -> ConfigView {
    let st = run(lines(text), weights);
    ConfigView {
        global: st.global,
        types: types_view(kept(st.staged)),
        errors: st.errors + dropped(st.staged),
    }
}

/// The weight texts of `text`, in the order [`parse`] uses them.
pub open spec fn weight_texts(text: Seq<char>) -> Seq<Seq<char>> {
    run(lines(text), Seq::empty()).wtexts
}

/// The parsed config.
pub struct Config {
    pub global: Global,
    /// Only types with a section and no problem. A type absent here is
    /// fully manual.
    pub types: Vec<(String, TypeConfig)>,
    /// Problems found while parsing, for the log.
    pub errors: Vec<String>,
}

impl View for Config {
    type V = ConfigView;

    open spec fn view(&self) -> ConfigView {
        ConfigView {
            global: self.global,
            types: Seq::new(
                self.types.len() as nat,
                |i: int|
                    (
                        self.types@[i].0@,
                        self.types@[i].1.budgets,
                        ranked_view(self.types@[i].1.options@),
                    ),
            ),
            errors: strs(self.errors@),
        }
    }
}

/// Turn the staged types into the config: those without problems kept,
/// the others dropped with their problems reported.
fn finish(p: Parser) -> (cfg: Config)
    ensures
        cfg@ == (ConfigView {
            global: parser_view(p).global,
            types: types_view(kept(parser_view(p).staged)),
            errors: parser_view(p).errors + dropped(parser_view(p).staged),
        }),
{
    let ghost sv = stages_view(p.staged@);
    let ghost errs0 = strs(p.errors@);
    let mut staged = p.staged;
    let mut cfg = Config { global: p.global, types: Vec::new(), errors: p.errors };
    let ghost mut j: int = 0;
    assert(sv.take(0) =~= Seq::<StageView>::empty());
    assert(cfg@.types =~= types_view(kept(sv.take(0))));
    assert(cfg@.errors =~= errs0 + dropped(sv.take(0)));
    while staged.len() > 0
        invariant
            0 <= j <= sv.len(),
            stages_view(staged@) == sv.skip(j),
            staged.len() == sv.len() - j,
            cfg.global == parser_view(p).global,
            cfg@.types == types_view(kept(sv.take(j))),
            cfg@.errors == errs0 + dropped(sv.take(j)),
        decreases staged.len(),
    {
        let ghost before = cfg@;
        let ghost old_staged = staged@;
        assert(stages_view(old_staged)[0] == sv.skip(j)[0]);
        let s = staged.remove(0);
        assert(stage_view(s) == sv[j]);
        assert(stages_view(staged@) =~= sv.skip(j + 1)) by {
            assert forall|q: int| 0 <= q < staged.len() implies stages_view(staged@)[q] == sv.skip(
                j + 1,
            )[q] by {
                assert(staged@[q] == old_staged[q + 1]);
                assert(stages_view(old_staged)[q + 1] == sv.skip(j)[q + 1]);
            }
        }
        assert(sv.take(j + 1).drop_last() == sv.take(j));
        assert(sv.take(j + 1).last() == sv[j]);
        if s.errs.len() == 0 {
            let name = string_of(&s.ty);
            assert(sv[j].errs.len() == 0);
            assert(kept(sv.take(j + 1)) == kept(sv.take(j)).push(sv[j]));
            let ghost kj = kept(sv.take(j));
            assert(types_view(kj.push(sv[j])) =~= types_view(kj).push(
                (sv[j].ty, sv[j].budgets, sv[j].options),
            ));
            cfg.types.push((name, TypeConfig { budgets: s.budgets, options: s.options }));
            assert(cfg@.types =~= before.types.push((sv[j].ty, sv[j].budgets, sv[j].options)));
            assert(cfg@.types =~= types_view(kept(sv.take(j + 1))));
            assert(cfg@.errors == errs0 + dropped(sv.take(j + 1)));
        } else {
            let mut h = owned("[");
            push_chars(&mut h, &s.ty);
            push_str(&mut h, "] dropped, ");
            push_decimal(&mut h, s.errs.len() as u64);
            push_str(&mut h, " problem(s):");
            push_msg(&mut cfg.errors, h);
            let ghost mid = cfg@.errors;
            let mut k: usize = 0;
            while k < s.errs.len()
                invariant
                    0 <= k <= s.errs.len(),
                    cfg@.errors == mid + indented(strs(s.errs@)).take(k as int),
                    cfg.global == before.global,
                    cfg@.types == before.types,
                decreases s.errs.len() - k,
            {
                let e = cat("    ", s.errs[k].as_str());
                push_msg(&mut cfg.errors, e);
                assert(indented(strs(s.errs@)).take(k + 1) =~= indented(strs(s.errs@)).take(
                    k as int,
                ).push(e@));
                k = k + 1;
            }
            assert(indented(strs(s.errs@)).take(k as int) == indented(strs(s.errs@)));
            assert(cfg@.errors =~= errs0 + dropped(sv.take(j + 1)));
            assert(cfg@.types == types_view(kept(sv.take(j + 1))));
        }
        proof {
            j = j + 1;
        }
    }
    assert(sv.take(j) == sv);
    cfg
}

/// Parse the config text. Never fails outright: problems are collected in
/// `errors` and the offending reward types dropped, so one bad type cannot
/// disable the rest.
///
/// `weights[k]` is the `k`-th of [`weight_fields`] read as a double, by its
/// bits, or `None` where that text is not a number.
pub fn parse(text: &str, weights: &[Option<u64>]) -> (cfg: Config)
    ensures
        cfg@ == parsed(text@, weights@),
        forall|i: int, j: int|
            0 <= i < j < cfg.types.len() ==> cfg.types@[i].0@ != cfg.types@[j].0@,
        forall|i: int| 0 <= i < cfg.types.len() ==> (#[trigger] cfg.types@[i]).1.wf(),
{
    let p = run_exec(text, weights);
    let cfg = finish(p);
    proof {
        lemma_parsed_is_well_formed(text@, weights@);
        assert forall|i: int| 0 <= i < cfg.types.len() implies (#[trigger] cfg.types@[i]).1.wf() by {
            let opts = cfg.types@[i].1.options@;
            assert(distinct_ids(parsed(text@, weights@).types[i].2));
            assert(cfg@.types[i].2 == ranked_view(opts));
            assert(distinct_ids(ranked_view(opts)));
            assert forall|a: int, b: int| 0 <= a < b < opts.len() implies opts[a].id@
                != opts[b].id@ by {
                assert(ranked_view(opts)[a].0 == opts[a].id@);
                assert(ranked_view(opts)[b].0 == opts[b].id@);
            }
        }
        assert forall|i: int, j: int| 0 <= i < j < cfg.types.len() implies cfg.types@[i].0@
            != cfg.types@[j].0@ by {
            assert(parsed(text@, weights@).types[i].0 != parsed(text@, weights@).types[j].0);
            assert(cfg@.types[i].0 == cfg.types@[i].0@);
            assert(cfg@.types[j].0 == cfg.types@[j].0@);
        }
    }
    cfg
}

/// The weight texts of `text`: what is written after the `=` of each option
/// in a tier, in the order [`parse`] reads them.
pub fn weight_fields(text: &str) -> (r: Vec<String>)
    ensures
        strs(r@) == weight_texts(text@),
{
    let none: Vec<Option<u64>> = Vec::new();
    let p = run_exec(text, none.as_slice());
    assert(none@ =~= Seq::<Option<u64>>::empty());
    p.wtexts
}

// ------------------------------------------------------------ lookups

impl Config {
    /// A config with the default global settings, no reward type and no
    /// problem: every reward type fully manual.
    pub fn default() -> (c: Config)
        ensures
            c@ == (ConfigView {
                global: Global::spec_default(),
                types: Seq::empty(),
                errors: Seq::empty(),
            }),
    {
        let c = Config { global: Global::default(), types: Vec::new(), errors: Vec::new() };
        assert(c@.types =~= Seq::<(Seq<char>, Budgets, Seq<(Seq<char>, Tier, u64)>)>::empty());
        assert(c@.errors =~= Seq::<Seq<char>>::empty());
        c
    }

    /// The preferences for `reward_type`, if the config has them. A type
    /// absent here is fully manual.
    pub fn for_type(&self, reward_type: &str) -> (r: Option<&TypeConfig>)
        ensures
            match r {
                Some(c) => exists|i: int|
                    0 <= i < self.types.len() && self.types@[i].0@ == reward_type@ && *c
                        == self.types@[i].1 && forall|j: int|
                        0 <= j < i ==> self.types@[j].0@ != reward_type@,
                None => forall|i: int|
                    0 <= i < self.types.len() ==> self.types@[i].0@ != reward_type@,
            },
    {
        let want = chars_of(reward_type);
        let mut i: usize = 0;
        while i < self.types.len()
            invariant
                0 <= i <= self.types.len(),
                want@ == reward_type@,
                forall|j: int| 0 <= j < i ==> self.types@[j].0@ != reward_type@,
            decreases self.types.len() - i,
        {
            let have = chars_of(self.types[i].0.as_str());
            if seq_eq(&have, &want) {
                return Some(&self.types[i].1);
            }
            i = i + 1;
        }
        None
    }
}

// ------------------------------------------------------------ completeness

/// `[{ty}] missing id: {id}` for each id of the vocabulary the config does
/// not classify, in vocabulary order.
pub open spec fn missing_msgs(ty: Seq<char>, ids: Seq<Seq<char>>, vocab: Seq<Seq<char>>) -> Seq<
    Seq<char>,
>
    decreases vocab.len(),
{
    if vocab.len() == 0 {
        Seq::empty()
    } else {
        missing_msgs(ty, ids, vocab.drop_last()) + if ids.contains(vocab.last()) {
            Seq::<Seq<char>>::empty()
        } else {
            seq!["["@ + ty + "] missing id: "@ + vocab.last()]
        }
    }
}

/// For each id the config classifies, in config order: scrap ranked where
/// the type cannot scrap, or an id outside the vocabulary.
pub open spec fn extra_msgs(ty: Seq<char>, ids: Seq<Seq<char>>, vocab: Seq<Seq<char>>, can_scrap: bool) -> Seq<
    Seq<char>,
>
    decreases ids.len(),
{
    if ids.len() == 0 {
        Seq::empty()
    } else {
        extra_msgs(ty, ids.drop_last(), vocab, can_scrap) + if ids.last() == SCRAP@ {
            if can_scrap {
                Seq::<Seq<char>>::empty()
            } else {
                seq![
                    "["@ + ty + "] ranks "@ + SCRAP@ + ", but this reward type has no scrap button"@,
                ]
            }
        } else if vocab.contains(ids.last()) {
            Seq::<Seq<char>>::empty()
        } else {
            seq!["["@ + ty + "] unknown id: "@ + ids.last()]
        }
    }
}

/// The ids a type's config classifies, in order.
pub open spec fn option_ids(conf: TypeConfig) -> Seq<Seq<char>> {
    Seq::new(conf.options.len() as nat, |i: int| conf.options@[i].id@)
}

pub open spec fn str_views(v: Seq<&str>) -> Seq<Seq<char>> {
    Seq::new(v.len(), |i: int| v[i]@)
}

fn classifies(conf: &TypeConfig, id: &str) -> (r: bool)
    ensures
        r == option_ids(*conf).contains(id@),
{
    let want = chars_of(id);
    let mut i: usize = 0;
    while i < conf.options.len()
        invariant
            0 <= i <= conf.options.len(),
            want@ == id@,
            forall|j: int| 0 <= j < i ==> conf.options@[j].id@ != id@,
        decreases conf.options.len() - i,
    {
        let have = chars_of(conf.options[i].id.as_str());
        if seq_eq(&have, &want) {
            assert(option_ids(*conf)[i as int] == id@);
            return true;
        }
        i = i + 1;
    }
    proof {
        if option_ids(*conf).contains(id@) {
            let j = choose|j: int| 0 <= j < option_ids(*conf).len() && option_ids(*conf)[j] == id@;
            assert(conf.options@[j].id@ != id@);
        }
    }
    false
}

fn in_vocabulary(vocabulary: &[&str], id: &str) -> (r: bool)
    ensures
        r == str_views(vocabulary@).contains(id@),
{
    let mut i: usize = 0;
    while i < vocabulary.len()
        invariant
            0 <= i <= vocabulary.len(),
            forall|j: int| 0 <= j < i ==> vocabulary@[j]@ != id@,
        decreases vocabulary.len() - i,
    {
        if crate::text::str_eq(vocabulary[i], id) {
            assert(str_views(vocabulary@)[i as int] == id@);
            return true;
        }
        i = i + 1;
    }
    proof {
        if str_views(vocabulary@).contains(id@) {
            let j = choose|j: int|
                0 <= j < str_views(vocabulary@).len() && str_views(vocabulary@)[j] == id@;
            assert(vocabulary@[j]@ != id@);
        }
    }
    false
}

/// Check a parsed type against the vocabulary it must cover.
///
/// Returns the problems; empty means the section is complete and usable.
/// First each id of the vocabulary the config leaves out, then, in config
/// order, scrap ranked where there is no scrap button and each id the
/// vocabulary does not know.
pub fn check_complete(ty: &str, conf: &TypeConfig, vocabulary: &[&str], can_scrap: bool) -> (r:
    Vec<String>)
    ensures
        strs(r@) == missing_msgs(ty@, option_ids(*conf), str_views(vocabulary@)) + extra_msgs(
            ty@,
            option_ids(*conf),
            str_views(vocabulary@),
            can_scrap,
        ),
{
    let ghost ids = option_ids(*conf);
    let ghost voc = str_views(vocabulary@);
    let mut problems: Vec<String> = Vec::new();
    let mut i: usize = 0;
    assert(voc.take(0) =~= Seq::<Seq<char>>::empty());
    assert(strs(problems@) =~= Seq::<Seq<char>>::empty());
    while i < vocabulary.len()
        invariant
            0 <= i <= vocabulary.len(),
            ids == option_ids(*conf),
            voc == str_views(vocabulary@),
            strs(problems@) == missing_msgs(ty@, ids, voc.take(i as int)),
        decreases vocabulary.len() - i,
    {
        let id = vocabulary[i];
        assert(voc.take(i + 1).drop_last() == voc.take(i as int));
        assert(voc.take(i + 1).last() == id@);
        if !classifies(conf, id) {
            let mut m = owned("[");
            push_str(&mut m, ty);
            push_str(&mut m, "] missing id: ");
            push_str(&mut m, id);
            push_msg(&mut problems, m);
        } else {
            assert(missing_msgs(ty@, ids, voc.take(i + 1)) =~= missing_msgs(ty@, ids, voc.take(i as int)));
        }
        i = i + 1;
    }
    assert(voc.take(i as int) == voc);
    let ghost miss = strs(problems@);
    let mut k: usize = 0;
    assert(ids.take(0) =~= Seq::<Seq<char>>::empty());
    assert(miss + extra_msgs(ty@, ids, voc, can_scrap).take(0) == miss);
    assert(strs(problems@) == miss + extra_msgs(ty@, ids.take(0), voc, can_scrap));
    while k < conf.options.len()
        invariant
            0 <= k <= conf.options.len(),
            ids == option_ids(*conf),
            voc == str_views(vocabulary@),
            strs(problems@) == miss + extra_msgs(ty@, ids.take(k as int), voc, can_scrap),
        decreases conf.options.len() - k,
    {
        let id = conf.options[k].id.as_str();
        assert(ids.take(k + 1).drop_last() == ids.take(k as int));
        assert(ids.take(k + 1).last() == id@);
        let ghost before = strs(problems@);
        if crate::text::str_eq(id, SCRAP) {
            if !can_scrap {
                let mut m = owned("[");
                push_str(&mut m, ty);
                push_str(&mut m, "] ranks ");
                push_str(&mut m, SCRAP);
                push_str(&mut m, ", but this reward type has no scrap button");
                push_msg(&mut problems, m);
                assert(strs(problems@) =~= miss + extra_msgs(ty@, ids.take(k + 1), voc, can_scrap));
            } else {
                assert(strs(problems@) =~= miss + extra_msgs(ty@, ids.take(k + 1), voc, can_scrap));
            }
        } else if !in_vocabulary(vocabulary, id) {
            let mut m = owned("[");
            push_str(&mut m, ty);
            push_str(&mut m, "] unknown id: ");
            push_str(&mut m, id);
            push_msg(&mut problems, m);
            assert(strs(problems@) =~= miss + extra_msgs(ty@, ids.take(k + 1), voc, can_scrap));
        } else {
            assert(strs(problems@) =~= miss + extra_msgs(ty@, ids.take(k + 1), voc, can_scrap));
        }
        k = k + 1;
    }
    assert(ids.take(k as int) == ids);
    problems
}

// ------------------------------------------------------------ laws

pub open spec fn distinct_types(staged: Seq<StageView>) -> bool {
    forall|i: int, j: int| 0 <= i < j < staged.len() ==> staged[i].ty != staged[j].ty
}

pub open spec fn distinct_ids(opts: Seq<(Seq<char>, Tier, u64)>) -> bool {
    forall|i: int, j: int| 0 <= i < j < opts.len() ==> opts[i].0 != opts[j].0
}

pub open spec fn staged_ok(staged: Seq<StageView>) -> bool {
    &&& distinct_types(staged)
    &&& forall|k: int| 0 <= k < staged.len() ==> distinct_ids(#[trigger] staged[k].options)
}

pub(crate) proof fn lemma_find_stage(staged: Seq<StageView>, ty: Seq<char>)
    ensures
        match find_stage(staged, ty) {
            Some(i) => 0 <= i < staged.len() && staged[i].ty == ty,
            None => forall|i: int| 0 <= i < staged.len() ==> staged[i].ty != ty,
        },
    decreases staged.len(),
{
    if staged.len() > 0 && staged.last().ty != ty {
        lemma_find_stage(staged.drop_last(), ty);
        if find_stage(staged, ty) is None {
            assert forall|i: int| 0 <= i < staged.len() implies staged[i].ty != ty by {
                if i < staged.len() - 1 {
                    assert(staged.drop_last()[i] == staged[i]);
                }
            }
        }
    }
}

pub(crate) proof fn lemma_find_option(opts: Seq<(Seq<char>, Tier, u64)>, id: Seq<char>)
    ensures
        match find_option(opts, id) {
            Some(i) => 0 <= i < opts.len() && opts[i].0 == id,
            None => forall|i: int| 0 <= i < opts.len() ==> opts[i].0 != id,
        },
    decreases opts.len(),
{
    if opts.len() > 0 && opts.last().0 != id {
        lemma_find_option(opts.drop_last(), id);
        if find_option(opts, id) is None {
            assert forall|i: int| 0 <= i < opts.len() implies opts[i].0 != id by {
                if i < opts.len() - 1 {
                    assert(opts.drop_last()[i] == opts[i]);
                }
            }
        }
    }
}

proof fn lemma_touch(staged: Seq<StageView>, ty: Seq<char>)
    requires
        staged_ok(staged),
    ensures
        staged_ok(touch(staged, ty)),
        find_stage(touch(staged, ty), ty) is Some,
        0 <= find_stage(touch(staged, ty), ty)->0 < touch(staged, ty).len(),
        touch(staged, ty)[find_stage(touch(staged, ty), ty)->0].ty == ty,
{
    lemma_find_stage(staged, ty);
    let t = touch(staged, ty);
    if find_stage(staged, ty) is None {
        assert(distinct_ids(empty_stage(ty).options));
        assert forall|k: int| 0 <= k < t.len() implies distinct_ids(#[trigger] t[k].options) by {
            if k < staged.len() {
                assert(t[k] == staged[k]);
            }
        }
    }
    lemma_find_stage(t, ty);
}

proof fn lemma_add_option(stg: StageView, n: nat, id: Seq<char>, t: Tier, bits: u64)
    requires
        distinct_ids(stg.options),
    ensures
        distinct_ids(add_option(stg, n, id, t, bits).options),
        add_option(stg, n, id, t, bits).ty == stg.ty,
{
    lemma_find_option(stg.options, id);
}

proof fn lemma_step_ok(st: ParseState, n: nat, raw: Seq<char>, weights: Seq<Option<u64>>)
    requires
        staged_ok(st.staged),
    ensures
        staged_ok(step(st, n, raw, weights).staged),
{
    let line = trim(strip_comment_spec(raw));
    if line.len() == 0 {
    } else if header_line(line) {
        let name = trim(line.subrange(1, line.len() - 1));
        match parse_section_spec(name) {
            Some(sec) => {
                lemma_touch(st.staged, sec.0);
            },
            None => {},
        }
    } else {
        match st.section {
            None => {},
            Some((ty, tier)) => if ty != word_global() {
                lemma_touch(st.staged, ty);
                let staged = touch(st.staged, ty);
                let i = find_stage(staged, ty)->0;
                let stg = staged[i];
                let after = step(st, n, raw, weights).staged;
                match tier {
                    None => {},
                    Some(t) => {
                        let (stg2, w) = option_step(
                            stg,
                            n,
                            line,
                            t,
                            weight_at(weights, st.wtexts.len() as int),
                        );
                        match kv_spec(line) {
                            Some((id, wt)) => {
                                if id.len() > 0 {
                                    match weight_at(weights, st.wtexts.len() as int) {
                                        Some(bits) => lemma_add_option(stg, n, id, t, bits),
                                        None => {},
                                    }
                                }
                            },
                            None => {
                                if line.len() > 0 {
                                    lemma_add_option(stg, n, line, t, 0);
                                }
                            },
                        }
                        assert(stg2.ty == stg.ty);
                        assert(distinct_ids(stg2.options));
                    },
                }
                assert(after == staged.update(i, after[i]));
                assert(after[i].ty == ty);
                assert forall|k: int| 0 <= k < after.len() implies distinct_ids(
                    #[trigger] after[k].options,
                ) by {
                    if k != i {
                        assert(after[k] == staged[k]);
                    }
                }
                assert(distinct_types(after)) by {
                    assert forall|a: int, b: int| 0 <= a < b < after.len() implies after[a].ty
                        != after[b].ty by {
                        if a != i && b != i {
                            assert(after[a] == staged[a] && after[b] == staged[b]);
                        } else if a == i {
                            assert(after[b] == staged[b]);
                            assert(staged[a].ty == ty);
                        } else {
                            assert(after[a] == staged[a]);
                            assert(staged[b].ty == ty);
                        }
                    }
                }
            },
        }
    }
}

proof fn lemma_run_ok(ls: Seq<Seq<char>>, weights: Seq<Option<u64>>)
    ensures
        staged_ok(run(ls, weights).staged),
    decreases ls.len(),
{
    if ls.len() > 0 {
        lemma_run_ok(ls.drop_last(), weights);
        lemma_step_ok(run(ls.drop_last(), weights), ls.len(), ls.last(), weights);
    }
}

proof fn lemma_kept(staged: Seq<StageView>)
    requires
        staged_ok(staged),
    ensures
        staged_ok(kept(staged)),
        forall|x: StageView| kept(staged).contains(x) ==> staged.contains(x),
    decreases staged.len(),
{
    if staged.len() > 0 {
        let s0 = staged.drop_last();
        assert(staged_ok(s0)) by {
            assert forall|k: int| 0 <= k < s0.len() implies distinct_ids(#[trigger] s0[k].options) by {
                assert(s0[k] == staged[k]);
            }
            assert forall|a: int, b: int| 0 <= a < b < s0.len() implies s0[a].ty != s0[b].ty by {
                assert(s0[a] == staged[a] && s0[b] == staged[b]);
            }
        }
        lemma_kept(s0);
        assert forall|x: StageView| s0.contains(x) implies staged.contains(x) by {
            let k = choose|k: int| 0 <= k < s0.len() && s0[k] == x;
            assert(staged[k] == x);
        }
        if staged.last().errs.len() == 0 {
            let k0 = kept(s0);
            let k1 = k0.push(staged.last());
            assert(staged.contains(staged.last())) by {
                assert(staged[staged.len() - 1] == staged.last());
            }
            assert forall|x: StageView| k1.contains(x) implies staged.contains(x) by {
                let k = choose|k: int| 0 <= k < k1.len() && k1[k] == x;
                if k < k0.len() {
                    assert(k0[k] == x);
                    assert(k0.contains(x));
                }
            }
            assert forall|a: int, b: int| 0 <= a < b < k1.len() implies k1[a].ty != k1[b].ty by {
                assert(k1[a] == k0[a]);
                if b == k0.len() {
                    assert(k0.contains(k0[a]));
                    assert(s0.contains(k0[a]));
                    let q = choose|q: int| 0 <= q < s0.len() && s0[q] == k0[a];
                    assert(staged[q] == s0[q]);
                    assert(k1[b] == staged[staged.len() - 1]);
                } else {
                    assert(k1[b] == k0[b]);
                }
            }
            assert forall|k: int| 0 <= k < k1.len() implies distinct_ids(#[trigger] k1[k].options) by {
                if k < k0.len() {
                    assert(k1[k] == k0[k]);
                }
            }
        }
    }
}

/// In a parsed config every reward type appears once, and every id once
/// within its type.
pub proof fn lemma_parsed_is_well_formed(text: Seq<char>, weights: Seq<Option<u64>>)
    ensures
        forall|i: int, j: int|
            0 <= i < j < parsed(text, weights).types.len() ==> parsed(text, weights).types[i].0
                != parsed(text, weights).types[j].0,
        forall|t: int|
            0 <= t < parsed(text, weights).types.len() ==> distinct_ids(
                #[trigger] parsed(text, weights).types[t].2,
            ),
{
    let st = run(lines(text), weights);
    lemma_run_ok(lines(text), weights);
    lemma_kept(st.staged);
    let k = kept(st.staged);
    assert forall|t: int| 0 <= t < parsed(text, weights).types.len() implies distinct_ids(
        #[trigger] parsed(text, weights).types[t].2,
    ) by {
        assert(parsed(text, weights).types[t].2 == k[t].options);
    }
}

proof fn lemma_option_step_wtext(
    stg: StageView,
    n: nat,
    line: Seq<char>,
    t: Tier,
    weight: Option<u64>,
)
    ensures
        option_step(stg, n, line, t, weight).1 == (match kv_spec(line) {
            Some(p) => Some(p.1),
            None => None::<Seq<char>>,
        }),
{
}

proof fn lemma_stage_step_wtexts(
    st: ParseState,
    n: nat,
    line: Seq<char>,
    ty: Seq<char>,
    tier: Option<Tier>,
    weights: Seq<Option<u64>>,
)
    ensures
        stage_step(st, n, line, ty, tier, weights).section == st.section,
        stage_step(st, n, line, ty, tier, weights).wtexts == (match tier {
            None => st.wtexts,
            Some(_) => match kv_spec(line) {
                Some(p) => st.wtexts.push(p.1),
                None => st.wtexts,
            },
        }),
{
    let staged = touch(st.staged, ty);
    let i = match find_stage(staged, ty) {
        Some(i) => i,
        None => 0,
    };
    match tier {
        None => {},
        Some(t) => {
            lemma_option_step_wtext(
                staged[i],
                n,
                line,
                t,
                weight_at(weights, st.wtexts.len() as int),
            );
        },
    }
}

proof fn lemma_step_wtexts(
    st1: ParseState,
    st2: ParseState,
    n: nat,
    raw: Seq<char>,
    w1: Seq<Option<u64>>,
    w2: Seq<Option<u64>>,
)
    requires
        st1.section == st2.section,
        st1.wtexts == st2.wtexts,
    ensures
        step(st1, n, raw, w1).section == step(st2, n, raw, w2).section,
        step(st1, n, raw, w1).wtexts == step(st2, n, raw, w2).wtexts,
{
    let line = trim(strip_comment_spec(raw));
    if line.len() == 0 {
    } else if header_line(line) {
    } else {
        match st1.section {
            None => {},
            Some((ty, tier)) => if ty != word_global() {
                lemma_stage_step_wtexts(st1, n, line, ty, tier, w1);
                lemma_stage_step_wtexts(st2, n, line, ty, tier, w2);
            },
        }
    }
}

proof fn lemma_run_wtexts(ls: Seq<Seq<char>>, w1: Seq<Option<u64>>, w2: Seq<Option<u64>>)
    ensures
        run(ls, w1).section == run(ls, w2).section,
        run(ls, w1).wtexts == run(ls, w2).wtexts,
    decreases ls.len(),
{
    if ls.len() > 0 {
        lemma_run_wtexts(ls.drop_last(), w1, w2);
        lemma_step_wtexts(
            run(ls.drop_last(), w1),
            run(ls.drop_last(), w2),
            ls.len(),
            ls.last(),
            w1,
            w2,
        );
    }
}

/// Whatever weights are handed to [`parse`], it reads the weight texts
/// [`weight_fields`] lists, in that order: the `k`-th weight it uses is the
/// one read from the `k`-th text.
pub proof fn lemma_weight_fields_are_what_parse_reads(text: Seq<char>, weights: Seq<Option<u64>>)
    ensures
        run(lines(text), weights).wtexts == weight_texts(text),
{
    lemma_run_wtexts(lines(text), weights, Seq::empty());
}

proof fn lemma_missing_none(ty: Seq<char>, ids: Seq<Seq<char>>, vocab: Seq<Seq<char>>)
    requires
        forall|i: int| 0 <= i < vocab.len() ==> ids.contains(#[trigger] vocab[i]),
    ensures
        missing_msgs(ty, ids, vocab) == Seq::<Seq<char>>::empty(),
    decreases vocab.len(),
{
    if vocab.len() > 0 {
        let p = vocab.drop_last();
        assert forall|i: int| 0 <= i < p.len() implies ids.contains(#[trigger] p[i]) by {
            assert(p[i] == vocab[i]);
        }
        lemma_missing_none(ty, ids, p);
        assert(ids.contains(vocab[vocab.len() - 1]));
    }
}

proof fn lemma_extra_none(ty: Seq<char>, ids: Seq<Seq<char>>, vocab: Seq<Seq<char>>, can_scrap: bool)
    requires
        forall|i: int| 0 <= i < ids.len() ==> vocab.contains(#[trigger] ids[i]),
        forall|i: int| 0 <= i < ids.len() ==> (#[trigger] ids[i]) == SCRAP@ ==> can_scrap,
    ensures
        extra_msgs(ty, ids, vocab, can_scrap) == Seq::<Seq<char>>::empty(),
    decreases ids.len(),
{
    if ids.len() > 0 {
        let p = ids.drop_last();
        assert forall|i: int| 0 <= i < p.len() implies vocab.contains(#[trigger] p[i]) by {
            assert(p[i] == ids[i]);
        }
        assert forall|i: int| 0 <= i < p.len() implies (#[trigger] p[i]) == SCRAP@ ==> can_scrap by {
            assert(p[i] == ids[i]);
        }
        lemma_extra_none(ty, p, vocab, can_scrap);
        assert(vocab.contains(ids[ids.len() - 1]));
    }
}

/// A type's config that lists exactly its vocabulary is complete: no id is
/// missing and none is unknown -- provided scrap is ranked only where the
/// type has a scrap button.
pub proof fn lemma_exact_listing_is_complete(
    ty: Seq<char>,
    ids: Seq<Seq<char>>,
    vocab: Seq<Seq<char>>,
    can_scrap: bool,
)
    requires
        forall|i: int| 0 <= i < vocab.len() ==> ids.contains(#[trigger] vocab[i]),
        forall|i: int| 0 <= i < ids.len() ==> vocab.contains(#[trigger] ids[i]),
        forall|i: int| 0 <= i < ids.len() ==> (#[trigger] ids[i]) == SCRAP@ ==> can_scrap,
    ensures
        missing_msgs(ty, ids, vocab) + extra_msgs(ty, ids, vocab, can_scrap) == Seq::<
            Seq<char>,
        >::empty(),
{
    lemma_missing_none(ty, ids, vocab);
    lemma_extra_none(ty, ids, vocab, can_scrap);
    assert(Seq::<Seq<char>>::empty() + Seq::<Seq<char>>::empty() =~= Seq::<Seq<char>>::empty());
}

} // verus!
