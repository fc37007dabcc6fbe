//! The config file: line-oriented INI, hand-edited by the player.
//!
//! One section per reward type, three tier sub-sections per type
//! (`[<type>.wanted]`, `[<type>.fallback]`, `[<type>.blacklist]`), and a
//! `[global]` section. Every id of a configured type must sit in exactly one
//! tier; the mod generates a complete, inert file so the player classifies
//! from a list rather than from memory.
//!
//! This module holds the text logic that needs no floating point: what a
//! section header means, stripping comments, the one-pass rewrite that gives
//! unvalued options an explicit weight, generation of the default file, and
//! the completeness check.
use vstd::prelude::*;

use crate::text::{
    push_char, join_nl, lemma_join_nl_push, decimal, padded, push_decimal, push_padded, push_str, utf8_len, chars_of, contains_char, find_char, first_index, lines, slice_of, split_lines, string_of, trail_ws,
    seq_eq, trim, trim_bounds, trim_end,
};

verus! {

/// The pseudo-option for scrapping the reward. Reserved so it cannot collide
/// with a game id.
pub const SCRAP: &'static str = "_scrap";

/// Where an option sits.
#[derive(Debug, Clone, Copy, PartialEq, Eq, Structural)]
pub enum Tier {
    /// Take immediately; highest weight wins.
    Wanted,
    /// Never while reroll budget remains; once it is spent, highest weight wins.
    Fallback,
    /// Never, at any depth.
    Blacklist,
}

/// How many rerolls of one kind the mod may spend on a single reward.
///
/// `-1` in the file means as many as the game will give, which is not the
/// same as unbounded: free rerolls still run out, paid ones still stop at
/// what the player can afford and at `denarii_floor`.
#[derive(Debug, Clone, Copy, PartialEq, Eq, Structural)]
pub enum Depth {
    /// No rerolls of this kind.
    Zero,
    Limit(u32),
    Unlimited,
}

impl Depth {
    pub open spec fn spec_allows(self, used: u32) -> bool {
        match self {
            Depth::Zero => false,
            Depth::Limit(n) => used < n,
            Depth::Unlimited => true,
        }
    }

    /// Whether one more reroll is within this budget, having already made `used`.
    pub fn allows(self, used: u32) -> (r: bool)
        ensures
            r == self.spec_allows(used),
    {
        match self {
            Depth::Zero => false,
            Depth::Limit(n) => used < n,
            Depth::Unlimited => true,
        }
    }

    pub open spec fn spec_parse(n: i64) -> Depth {
        if n < 0 {
            Depth::Unlimited
        } else if n == 0 {
            Depth::Zero
        } else if n > u32::MAX {
            Depth::Limit(u32::MAX)
        } else {
            Depth::Limit(n as u32)
        }
    }

    /// Any negative value means unlimited, so `-1` reads naturally and a
    /// stray `-2` is no surprise; zero means none; a positive value is a
    /// limit, saturated at `u32::MAX`.
    pub fn parse(n: i64) -> (d: Depth)
        ensures
            d == Self::spec_parse(n),
    {
        if n < 0 {
            Depth::Unlimited
        } else if n == 0 {
            Depth::Zero
        } else if n > 0xFFFF_FFFFi64 {
            Depth::Limit(0xFFFF_FFFFu32)
        } else {
            Depth::Limit(n as u32)
        }
    }
}

/// The reroll budgets of one reward type.
#[derive(Debug, Clone, Copy, PartialEq, Eq, Structural)]
pub struct Budgets {
    /// Rerolls taken via the per-reward freebie (Voodoo Beads).
    pub voodoo_depth: Depth,
    /// Rerolls taken from the reign-wide free pool.
    pub free_depth: Depth,
    /// Rerolls paid for in denarii.
    pub paid_depth: Depth,
    /// Never reroll if it would leave the balance below this.
    pub denarii_floor: i64,
}

impl Budgets {
    /// No rerolls of any kind, and no floor.
    pub fn zero() -> (b: Budgets)
        ensures
            b == (Budgets {
                voodoo_depth: Depth::Zero,
                free_depth: Depth::Zero,
                paid_depth: Depth::Zero,
                denarii_floor: 0,
            }),
    {
        Budgets {
            voodoo_depth: Depth::Zero,
            free_depth: Depth::Zero,
            paid_depth: Depth::Zero,
            denarii_floor: 0,
        }
    }
}

// ------------------------------------------------------------ comments

/// Everything before the first `#`.
pub open spec fn strip_comment_spec(s: Seq<char>) -> Seq<char> {
    match first_index(s, '#') {
        Some(i) => s.take(i),
        None => s,
    }
}

/// Where the comment starts, or the end of the line.
pub(crate) fn comment_start(s: &Vec<char>) -> (k: usize)
    ensures
        k <= s.len(),
        s@.take(k as int) == strip_comment_spec(s@),
        k < s.len() ==> first_index(s@, '#') == Some(k as int),
        k == s.len() ==> first_index(s@, '#') == None::<int>,
{
    assert(s@.subrange(0, s.len() as int) == s@);
    match find_char(s, 0, s.len(), '#') {
        Some(i) => i,
        None => {
            assert(s@.take(s.len() as int) == s@);
            s.len()
        },
    }
}

/// A line with its `#` comment removed.
pub fn strip_comment(line: &str) -> (r: String)
    ensures
        r@ == strip_comment_spec(line@),
{
    let cs = chars_of(line);
    let k = comment_start(&cs);
    let body = slice_of(&cs, 0, k);
    string_of(&body)
}

// ------------------------------------------------------------ sections

pub open spec fn ascii_lower(c: char) -> char {
    if 'A' <= c && c <= 'Z' {
        ((c as u32) + 32) as char
    } else {
        c
    }
}

fn lower_char(c: char) -> (r: char)
    ensures
        r == ascii_lower(c),
{
    if 'A' <= c && c <= 'Z' {
        ((c as u8) + 32) as char
    } else {
        c
    }
}

/// `s` matches `word` ignoring ASCII case, `word` being lower case already.
pub open spec fn eq_ignore_case(s: Seq<char>, word: Seq<char>) -> bool {
    s.len() == word.len() && forall|i: int| 0 <= i < s.len() ==> ascii_lower(s[i]) == word[i]
}

pub open spec fn word_global() -> Seq<char> {
    seq!['g', 'l', 'o', 'b', 'a', 'l']
}

pub open spec fn word_wanted() -> Seq<char> {
    seq!['w', 'a', 'n', 't', 'e', 'd']
}

pub open spec fn word_fallback() -> Seq<char> {
    seq!['f', 'a', 'l', 'l', 'b', 'a', 'c', 'k']
}

pub open spec fn word_blacklist() -> Seq<char> {
    seq!['b', 'l', 'a', 'c', 'k', 'l', 'i', 's', 't']
}

/// The tier a sub-section name spells, ignoring case and surrounding space.
pub open spec fn tier_word(w: Seq<char>) -> Option<Tier> {
    let t = trim(w);
    if eq_ignore_case(t, word_wanted()) {
        Some(Tier::Wanted)
    } else if eq_ignore_case(t, word_fallback()) {
        Some(Tier::Fallback)
    } else if eq_ignore_case(t, word_blacklist()) {
        Some(Tier::Blacklist)
    } else {
        None
    }
}

/// What a section name means: `global`, a reward type, or a reward type's
/// tier. `None` is a name with a dot that names no tier.
#[verifier::opaque]
pub open spec fn parse_section_spec(name: Seq<char>) -> Option<(Seq<char>, Option<Tier>)> {
    if eq_ignore_case(name, word_global()) {
        Some((word_global(), None))
    } else {
        match first_index(name, '.') {
            None => Some((name, None)),
            Some(i) => match tier_word(name.skip(i + 1)) {
                None => None,
                Some(t) => Some((trim(name.take(i)), Some(t))),
            },
        }
    }
}

/// The tier a header puts the lines under it in; `None` outside any tier,
/// and in the global section, whatever tier its header names: only a reward
/// type's tier holds options.
pub open spec fn section_tier(name: Seq<char>) -> Option<Tier> {
    match parse_section_spec(name) {
        Some((ty, t)) => if ty == word_global() {
            None
        } else {
            t
        },
        None => None,
    }
}

pub(crate) fn eq_ignore_case_exec(s: &Vec<char>, lo: usize, hi: usize, word: &Vec<char>) -> (r: bool)
    requires
        lo <= hi <= s.len(),
    ensures
        r == eq_ignore_case(s@.subrange(lo as int, hi as int), word@),
{
    if hi - lo != word.len() {
        return false;
    }
    let mut i: usize = 0;
    while i < word.len()
        invariant
            lo <= hi <= s.len(),
            hi - lo == word.len(),
            0 <= i <= word.len(),
            forall|j: int| 0 <= j < i ==> ascii_lower(s@[lo + j]) == word@[j],
        decreases word.len() - i,
    {
        if lower_char(s[lo + i]) != word[i] {
            return false;
        }
        i = i + 1;
    }
    true
}

pub(crate) fn word_vec(which: u8) -> (v: Vec<char>)
    ensures
        which == 0 ==> v@ == word_global(),
        which == 1 ==> v@ == word_wanted(),
        which == 2 ==> v@ == word_fallback(),
        which >= 3 ==> v@ == word_blacklist(),
{
    if which == 0 {
        let v = vec!['g', 'l', 'o', 'b', 'a', 'l'];
        assert(v@ == word_global());
        v
    } else if which == 1 {
        let v = vec!['w', 'a', 'n', 't', 'e', 'd'];
        assert(v@ == word_wanted());
        v
    } else if which == 2 {
        let v = vec!['f', 'a', 'l', 'l', 'b', 'a', 'c', 'k'];
        assert(v@ == word_fallback());
        v
    } else {
        let v = vec!['b', 'l', 'a', 'c', 'k', 'l', 'i', 's', 't'];
        assert(v@ == word_blacklist());
        v
    }
}

fn tier_word_exec(s: &Vec<char>, lo: usize, hi: usize) -> (r: Option<Tier>)
    requires
        lo <= hi <= s.len(),
    ensures
        r == tier_word(s@.subrange(lo as int, hi as int)),
{
    let (a, b) = trim_bounds(s, lo, hi);
    if eq_ignore_case_exec(s, a, b, &word_vec(1)) {
        Some(Tier::Wanted)
    } else if eq_ignore_case_exec(s, a, b, &word_vec(2)) {
        Some(Tier::Fallback)
    } else if eq_ignore_case_exec(s, a, b, &word_vec(3)) {
        Some(Tier::Blacklist)
    } else {
        None
    }
}

/// `parse_section` on `s[lo..hi]`, as characters.
pub(crate) fn section_of(s: &Vec<char>, lo: usize, hi: usize) -> (r: Option<(Vec<char>, Option<Tier>)>)
    requires
        lo <= hi <= s.len(),
    ensures
        match r {
            Some((n, t)) => parse_section_spec(s@.subrange(lo as int, hi as int)) == Some(
                (n@, t),
            ),
            None => parse_section_spec(s@.subrange(lo as int, hi as int)) == None::<
                (Seq<char>, Option<Tier>),
            >,
        },
{
    reveal(parse_section_spec);
    let ghost name = s@.subrange(lo as int, hi as int);
    if eq_ignore_case_exec(s, lo, hi, &word_vec(0)) {
        return Some((word_vec(0), None));
    }
    match find_char(s, lo, hi, '.') {
        None => Some((slice_of(s, lo, hi), None)),
        Some(i) => {
            assert(name.skip(i - lo + 1) == s@.subrange(i + 1, hi as int));
            match tier_word_exec(s, i + 1, hi) {
                None => None,
                Some(t) => {
                    assert(name.take(i - lo) == s@.subrange(lo as int, i as int));
                    let (a, b) = trim_bounds(s, lo, i);
                    Some((slice_of(s, a, b), Some(t)))
                },
            }
        },
    }
}

/// What a section header's name means: `("global", None)` for the global
/// section (any case), `(type, None)` for a type's budget section,
/// `(type, Some(tier))` for one of its tiers. `None` for a dotted name whose
/// second part is not a tier.
pub fn parse_section(name: &str) -> (r: Option<(String, Option<Tier>)>)
    ensures
        match r {
            Some((n, t)) => parse_section_spec(name@) == Some((n@, t)),
            None => parse_section_spec(name@) == None::<(Seq<char>, Option<Tier>)>,
        },
{
    let cs = chars_of(name);
    assert(cs@.subrange(0, cs.len() as int) == cs@);
    match section_of(&cs, 0, cs.len()) {
        Some((n, t)) => Some((string_of(&n), t)),
        None => None,
    }
}

// ------------------------------------------------------------ normalise

pub open spec fn eq_zero() -> Seq<char> {
    seq![' ', '=', ' ', '0']
}

pub open spec fn three_spaces() -> Seq<char> {
    seq![' ', ' ', ' ']
}

/// Whether a line, read as the parser reads it, is a `[section]` header.
pub open spec fn is_header(t: Seq<char>) -> bool {
    t.len() >= 2 && t[0] == '[' && t.last() == ']'
}

/// A line as the parser reads it: its comment cut off, trimmed.
pub open spec fn head_text(line: Seq<char>) -> Seq<char> {
    trim(strip_comment_spec(line))
}

/// Whether a line under `tier` is an option that has no weight written.
pub open spec fn needs_weight(line: Seq<char>, tier: Option<Tier>) -> bool {
    let t = trim(line);
    let body = trim_end(strip_comment_spec(line));
    &&& (tier == Some(Tier::Wanted) || tier == Some(Tier::Fallback))
    &&& trim(body).len() > 0
    &&& !(t.len() > 0 && t[0] == '#')
    &&& !body.contains('=')
}

/// One line of `normalise`: the line written back, whether it changed, and
/// the tier in force after it.
pub open spec fn norm_line(line: Seq<char>, tier: Option<Tier>) -> (Seq<char>, bool, Option<Tier>) {
    let h = head_text(line);
    if is_header(h) {
        (line, false, section_tier(trim(h.subrange(1, h.len() - 1))))
    } else if !needs_weight(line, tier) {
        (line, false, tier)
    } else {
        let body = trim_end(strip_comment_spec(line));
        let tail = match first_index(line, '#') {
            Some(i) => three_spaces() + line.skip(i),
            None => Seq::<char>::empty(),
        };
        (body + eq_zero() + tail, true, tier)
    }
}

/// `normalise` over a run of lines, each written back with a newline.
#[verifier::opaque]
pub open spec fn norm_lines(ls: Seq<Seq<char>>, tier: Option<Tier>) -> (Seq<char>, bool)
    decreases ls.len(),
{
    if ls.len() == 0 {
        (Seq::empty(), false)
    } else {
        let r = norm_line(ls[0], tier);
        let rest = norm_lines(ls.drop_first(), r.2);
        (r.0.push('\n') + rest.0, r.1 || rest.1)
    }
}

/// What `normalise` returns for `text`.
pub open spec fn normalised(text: Seq<char>) -> Option<Seq<char>> {
    let r = norm_lines(lines(text), None);
    let out = if text.len() > 0 && text.last() == '\n' {
        r.0
    } else if r.0.len() > 0 {
        r.0.drop_last()
    } else {
        r.0
    };
    if r.1 {
        Some(out)
    } else {
        None
    }
}

proof fn lemma_norm_lines_step(ls: Seq<Seq<char>>, k: int, tier: Option<Tier>)
    requires
        0 <= k < ls.len(),
    ensures
        ({
            let r = norm_line(ls[k], tier);
            let rest = norm_lines(ls.skip(k + 1), r.2);
            norm_lines(ls.skip(k), tier) == (r.0.push('\n') + rest.0, r.1 || rest.1)
        }),
{
    reveal(norm_lines);
    assert(ls.skip(k).drop_first() == ls.skip(k + 1));
    assert(ls.skip(k)[0] == ls[k]);
}

proof fn lemma_norm_lines_empty(ls: Seq<Seq<char>>, tier: Option<Tier>)
    requires
        ls.len() == 0,
    ensures
        norm_lines(ls, tier) == (Seq::<char>::empty(), false),
{
    reveal(norm_lines);
}

/// Whether the line needs a weight, with where its body ends and where its
/// comment starts.
#[verifier::rlimit(40)]
fn needs_weight_exec(line: &Vec<char>, tier: Option<Tier>) -> (r: (bool, usize, usize))
    ensures
        r.0 == needs_weight(line@, tier),
        r.1 <= r.2 <= line.len(),
        line@.take(r.1 as int) == trim_end(strip_comment_spec(line@)),
        r.2 < line.len() ==> first_index(line@, '#') == Some(r.2 as int),
        r.2 == line.len() ==> first_index(line@, '#') == None::<int>,
{
    let n = line.len();
    let (a, b) = trim_bounds(line, 0, n);
    assert(line@.subrange(0, n as int) == line@);
    let k = comment_start(line);
    let e = trail_ws(line, 0, k);
    assert(line@.subrange(0, k as int) == line@.take(k as int));
    assert(line@.subrange(0, e as int) == line@.take(e as int));
    let (ba, bb) = trim_bounds(line, 0, e);
    let starts_hash = a < b && line[a] == '#';
    let has_eq = contains_char(line, 0, e, '=');
    let in_tier = match tier {
        Some(Tier::Wanted) => true,
        Some(Tier::Fallback) => true,
        _ => false,
    };
    (in_tier && ba < bb && !starts_hash && !has_eq, e, k)
}

/// The line with ` = 0` written after its id, and its comment kept.
fn rewrite_line(line: &Vec<char>, e: usize, k: usize) -> (out: Vec<char>)
    requires
        e <= k <= line.len(),
    ensures
        out@ == line@.take(e as int) + eq_zero() + (if k < line.len() {
            three_spaces() + line@.skip(k as int)
        } else {
            Seq::<char>::empty()
        }),
{
    let mut out = slice_of(line, 0, e);
    out.push(' ');
    out.push('=');
    out.push(' ');
    out.push('0');
    assert(line@.subrange(0, e as int) == line@.take(e as int));
    assert(out@ == line@.take(e as int) + eq_zero());
    if k < line.len() {
        out.push(' ');
        out.push(' ');
        out.push(' ');
        let mut rest = slice_of(line, k, line.len());
        assert(rest@ == line@.skip(k as int));
        out.append(&mut rest);
        assert(out@ == line@.take(e as int) + eq_zero() + three_spaces() + line@.skip(k as int));
    } else {
        assert(out@ == line@.take(e as int) + eq_zero() + Seq::<char>::empty());
    }
    out
}

/// The tier a header line puts in force, if the line is a header.
fn header_tier(line: &Vec<char>) -> (r: Option<Option<Tier>>)
    ensures
        match r {
            Some(t) => is_header(head_text(line@)) && t == section_tier(
                trim(head_text(line@).subrange(1, head_text(line@).len() - 1)),
            ),
            None => !is_header(head_text(line@)),
        },
{
    let k = comment_start(line);
    let (a, b) = trim_bounds(line, 0, k);
    assert(line@.subrange(0, k as int) == strip_comment_spec(line@));
    let ghost h = head_text(line@);
    assert(h == line@.subrange(a as int, b as int));
    if b - a >= 2 && line[a] == '[' && line[b - 1] == ']' {
        let (c, d) = trim_bounds(line, a + 1, b - 1);
        assert(h.subrange(1, h.len() - 1) == line@.subrange(a + 1, b - 1));
        assert(trim(h.subrange(1, h.len() - 1)) == line@.subrange(c as int, d as int));
        let sec = section_of(line, c, d);
        match sec {
            Some((n, t2)) => {
                if seq_eq(&n, &word_vec(0)) {
                    Some(None)
                } else {
                    Some(t2)
                }
            },
            None => Some(None),
        }
    } else {
        None
    }
}

/// One line of `normalise`.
fn norm_line_exec(line: &Vec<char>, tier: Option<Tier>) -> (r: (Vec<char>, bool, Option<Tier>))
    ensures
        (r.0@, r.1, r.2) == norm_line(line@, tier),
{
    match header_tier(line) {
        Some(t) => {
            return (line.clone(), false, t);
        },
        None => {},
    }
    let (needs, e, k) = needs_weight_exec(line, tier);
    if !needs {
        return (line.clone(), false, tier);
    }
    let out = rewrite_line(line, e, k);
    proof {
        let body = trim_end(strip_comment_spec(line@));
        let tail = match first_index(line@, '#') {
            Some(i) => three_spaces() + line@.skip(i),
            None => Seq::<char>::empty(),
        };
        if k < line.len() {
            assert(tail == three_spaces() + line@.skip(k as int));
        } else {
            assert(tail == Seq::<char>::empty());
        }
        assert(out@ == body + eq_zero() + tail);
        assert(norm_line(line@, tier) == (body + eq_zero() + tail, true, tier));
    }
    (out, true, tier)
}

/// Give every unvalued option in `wanted` or `fallback` an explicit `= 0`.
///
/// The mod already treats a bare id there as weight 0; writing it back makes
/// the file say what the mod will do. Bare ids in `blacklist` are left as
/// they are, and nothing else in the file changes: the id keeps its
/// indentation, and a comment after it is kept, three spaces on.
///
/// Returns `None` when there was nothing to change, so the caller can leave
/// the file alone rather than rewriting it identically.
pub fn normalise(text: &str) -> (r: Option<String>)
    ensures
        match r {
            Some(s) => normalised(text@) == Some(s@),
            None => normalised(text@) == None::<Seq<char>>,
        },
{
    let cs = chars_of(text);
    let ls = split_lines(&cs);
    let ghost lsp = lines(text@);
    let mut out: Vec<char> = Vec::new();
    let mut tier: Option<Tier> = None;
    let mut changed = false;
    let mut i: usize = 0;
    assert(lsp.skip(0) == lsp);
    assert(Seq::<char>::empty() + norm_lines(lsp, None).0 == norm_lines(lsp, None).0);
    while i < ls.len()
        invariant
            ls.len() == lsp.len(),
            lsp == lines(text@),
            cs@ == text@,
            forall|j: int| 0 <= j < ls.len() ==> #[trigger] ls@[j]@ == lsp[j],
            0 <= i <= ls.len(),
            norm_lines(lsp, None) == (
                out@ + norm_lines(lsp.skip(i as int), tier).0,
                changed || norm_lines(lsp.skip(i as int), tier).1,
            ),
        decreases ls.len() - i,
    {
        let (o, c, t2) = norm_line_exec(&ls[i], tier);
        proof {
            lemma_norm_lines_step(lsp, i as int, tier);
        }
        let ghost prev = out@;
        let ghost ov = o@;
        let mut o2 = o;
        out.append(&mut o2);
        out.push('\n');
        assert(out@ == prev + ov.push('\n'));
        changed = changed || c;
        tier = t2;
        i = i + 1;
    }
    proof {
        assert(lsp.skip(i as int).len() == 0);
        lemma_norm_lines_empty(lsp.skip(i as int), tier);
        assert(out@ + Seq::<char>::empty() == out@);
    }
    let ends_nl = cs.len() > 0 && cs[cs.len() - 1] == '\n';
    if !ends_nl && out.len() > 0 {
        out.pop();
    }
    if changed {
        Some(string_of(&out))
    } else {
        None
    }
}

// ------------------------------------------------------------ generation

/// The settings outside any reward type.
#[derive(Debug, Clone, Copy, PartialEq, Eq, Structural)]
pub struct Global {
    pub enabled: bool,
    /// Milliseconds between button presses, at most.
    pub delay_ms: u64,
    /// Whether the mod may actually press buttons. Off by default: with
    /// `act = false` it decides and logs what it would do, and touches nothing.
    pub act: bool,
    /// Log each phase as it starts, so a crash names the operation in flight.
    pub trace: bool,
    /// The periodic diagnostic sweep over the whole reward UI. Off by default:
    /// it is the most expensive thing the mod does.
    pub survey: bool,
}

impl Global {
    /// The defaults a missing `[global]` section leaves in force.
    pub open spec fn spec_default() -> Global {
        Global { enabled: true, delay_ms: 100, act: false, trace: false, survey: false }
    }
}

impl Default for Global {
    fn default() -> (g: Global)
        ensures
            g == Global::spec_default(),
    {
        Global { enabled: true, delay_ms: 100, act: false, trace: false, survey: false }
    }
}

/// One reward type's generation input.
pub struct TypeVocab<'a> {
    pub reward_type: &'a str,
    pub display: &'a str,
    /// Every option id, with its display name where the game has one.
    pub options: Vec<(String, String)>,
    pub can_scrap: bool,
    /// One line saying where this list came from, so the player can judge it
    /// rather than take it on trust.
    pub note: String,
}

/// The preamble, line by line: what the file does, and everything in
/// `[global]`.
pub const HEADER_LINES: [&'static str; 55] = [
    "# tkiw auto reward picker -- configuration",
    "#",
    "# As generated, this file does NOTHING: every option is blacklisted and every",
    "# reroll budget is zero, so the mod stays out of the way until you edit it.",
    "#",
    "# To automate a reward type, move ids out of [<type>.blacklist] into",
    "#   [<type>.wanted]    take it immediately; highest weight wins, ties at random",
    "#   [<type>.fallback]  only once the reroll budget is spent; highest weight wins",
    "# and leave in [<type>.blacklist] anything you never want taken.",
    "#",
    "# Weights order options WITHIN a tier only: a wanted option always beats a",
    "# fallback one, whatever the numbers say. Equal weights mean you are indifferent.",
    "#",
    "# Every id must appear in exactly one tier. Delete a whole [<type>] section to",
    "# leave that reward type entirely manual -- that is also what happens to any",
    "# type not mentioned here.",
    "#",
    "# The reward at the head of the queue is the only one ever touched, and the mod",
    "# stops as soon as it reaches one it is not configured for.",
    "#",
    "# This file was generated from the libraries of the game it is installed in, so",
    "# the lists describe your build. Delete it and it will be written again.",
    "# ============================================================================",
    "",
    "[global]",
    "enabled  = true",
    "",
    "# How fast the mod is allowed to act, in milliseconds between button presses.",
    "# It is not a fixed wait: the mod watches for the queue or the cards changing",
    "# and reacts immediately, so this only caps the rate. 0 means as fast as the",
    "# game will accept (floored at 40ms so a reroll cannot be spammed).",
    "delay_ms = 100",
    "",
    "# act = false  -> decide and log \"[would PICK] ...\", but press nothing",
    "# act = true   -> actually press the buttons",
    "#",
    "# Ctrl+Alt+P toggles this while you play, and the toggle is WRITTEN BACK to",
    "# this line, so what you chose in game is what the next launch does. Editing",
    "# it here also takes effect immediately -- the file is re-read as you save it.",
    "#",
    "# Either way the mod keeps reading choices and logging what it would do, so",
    "# with pressing off you get a running commentary rather than silence.",
    "act      = false",
    "",
    "# trace = true logs each phase as it begins, so if the game crashes the last",
    "# line names what was underway rather than what last finished. Verbose -- turn",
    "# it on only when chasing a crash. It is NOT needed for a crash report: the",
    "# faulting address and the operation in flight are always recorded.",
    "trace    = false",
    "",
    "# survey = true adds a periodic sweep over the whole reward UI -- every card,",
    "# button and library -- to the log. It is what a bug report should carry, and",
    "# it is the most expensive thing the mod does. Picking, rerolling and opening",
    "# the queue do not use it, so leave it off unless you are diagnosing something.",
    "survey   = false",
];

/// The preamble's lines.
pub open spec fn header_lines() -> Seq<Seq<char>> {
    Seq::new(55, |i: int| HEADER_LINES@[i]@)
}

/// The rule that frames a type's heading.
pub const RULE: &'static str = "# --------------------------------------------------------------------------";

/// The zeroed budgets every generated type starts with, line by line.
pub const BUDGET_VOODOO: &'static str = "voodoo_depth  = 0    # rerolls using the per-reward freebie (Voodoo Beads)";
pub const BUDGET_FREE: &'static str = "free_depth    = 0    # rerolls from the reign-wide free pool";
pub const BUDGET_PAID: &'static str = "paid_depth    = 0    # rerolls paid for in denarii";
pub const BUDGET_FLOOR: &'static str = "denarii_floor = 0    # never reroll below this balance";
pub const BUDGET_NOTE: &'static str = "#                    any depth may be -1: as many as the game allows";

/// The commented-out scrap line, for a type with a scrap button.
pub const SCRAP_HINT: &'static str = "# _scrap = 1     # settle for scrapping the reward (+5 denarii)";

/// The note for a type without one.
pub const NO_SCRAP_HINT: &'static str = "# this reward type has no scrap button, so _scrap is unavailable";

/// The information block's banner.
pub const INFO_RULE: &'static str = "# ==========================================================================";
pub const INFO_TITLE: &'static str = "# FOR INFORMATION ONLY -- nothing below here is configurable";

/// The information block's count line, before and after the count.
pub const INFO_MARKS: &'static str = "# The game marks these ";
pub const INFO_MARKS_END: &'static str = " improvements `excluded_from_drop_pool`,";

/// The information block's explanation.
pub const INFO_MEANING: [&'static str; 5] = [
    "# meaning they can never be offered as a reward, so they are left out of",
    "# the improvement sections. They are listed here so that exclusion can be",
    "# checked: if you recognise one you HAVE been offered, the filter is wrong",
    "# and worth saying so.",
    "#",
];

/// The widest id in bytes, or 0 for none.
pub open spec fn id_width(opts: Seq<(String, String)>) -> nat
    decreases opts.len(),
{
    if opts.len() == 0 {
        0
    } else {
        let r = id_width(opts.drop_last());
        let l = utf8_len(opts.last().0@);
        if l > r {
            l
        } else {
            r
        }
    }
}

/// One blacklist line: the id, and its display name as a comment if it has
/// one.
pub open spec fn option_line(o: (String, String), width: nat) -> Seq<char> {
    if o.1@.len() == 0 {
        o.0@
    } else {
        padded(o.0@, width) + "   # "@ + o.1@
    }
}

pub open spec fn option_lines(opts: Seq<(String, String)>, width: nat) -> Seq<Seq<char>> {
    Seq::new(opts.len(), |i: int| option_line(opts[i], width))
}

/// One line of the information block: commented out, never an option.
pub open spec fn info_line(o: (String, String), width: nat) -> Seq<char> {
    "#   "@ + padded(o.0@, width) + "   "@ + o.1@
}

/// The budget lines.
pub open spec fn budget_lines() -> Seq<Seq<char>> {
    seq![BUDGET_VOODOO@, BUDGET_FREE@, BUDGET_PAID@, BUDGET_FLOOR@, BUDGET_NOTE@]
}

/// The line naming a type: display name, section name and option count.
pub open spec fn heading_line(t: TypeVocab) -> Seq<char> {
    "# "@ + t.display@ + "   ["@ + t.reward_type@ + "]   "@ + decimal(t.options.len() as nat)
        + " options"@
}

/// The heading of a type's block: framed by rules, with the note when
/// there is one.
pub open spec fn heading_lines(t: TypeVocab) -> Seq<Seq<char>> {
    seq![Seq::empty(), Seq::empty(), RULE@, heading_line(t)] + (if t.note@.len() == 0 {
        Seq::<Seq<char>>::empty()
    } else {
        seq!["# "@ + t.note@]
    }) + seq![RULE@, Seq::empty()]
}

/// A type's sections: zero budgets, empty wanted and fallback tiers, and
/// every id blacklisted.
pub open spec fn section_lines(t: TypeVocab) -> Seq<Seq<char>> {
    seq!["["@ + t.reward_type@ + "]"@] + budget_lines() + seq![
        Seq::empty(),
        "["@ + t.reward_type@ + ".wanted]"@,
        Seq::empty(),
        "["@ + t.reward_type@ + ".fallback]"@,
        if t.can_scrap {
            SCRAP_HINT@
        } else {
            NO_SCRAP_HINT@
        },
        Seq::empty(),
        "["@ + t.reward_type@ + ".blacklist]"@,
    ] + option_lines(t.options@, id_width(t.options@))
}

/// A type's block.
pub open spec fn block_lines(t: TypeVocab) -> Seq<Seq<char>> {
    heading_lines(t) + section_lines(t)
}

pub open spec fn type_lines(ts: Seq<TypeVocab>) -> Seq<Seq<char>>
    decreases ts.len(),
{
    if ts.len() == 0 {
        Seq::empty()
    } else {
        type_lines(ts.drop_last()) + block_lines(ts.last())
    }
}

/// The information block, present only when something is excluded.
pub open spec fn info_lines(excluded: Seq<(String, String)>) -> Seq<Seq<char>> {
    if excluded.len() == 0 {
        Seq::empty()
    } else {
        seq![
            Seq::empty(),
            Seq::empty(),
            INFO_RULE@,
            INFO_TITLE@,
            INFO_RULE@,
            "#"@,
            INFO_MARKS@ + decimal(excluded.len() as nat) + INFO_MARKS_END@,
        ] + Seq::new(5, |i: int| INFO_MEANING@[i]@) + Seq::new(
            excluded.len(),
            |i: int| info_line(excluded[i], id_width(excluded)),
        )
    }
}

/// The lines [`generate`] writes.
pub open spec fn gen_lines(types: Seq<TypeVocab>, excluded: Seq<(String, String)>) -> Seq<Seq<char>> {
    header_lines() + type_lines(types) + info_lines(excluded)
}

/// What [`generate`] writes: its lines, each with a newline.
pub open spec fn generated(types: Seq<TypeVocab>, excluded: Seq<(String, String)>) -> Seq<char> {
    join_nl(gen_lines(types, excluded))
}

/// The widest id in bytes.
fn width_of(opts: &Vec<(String, String)>) -> (w: usize)
    ensures
        w == id_width(opts@),
{
    let mut w: usize = 0;
    let mut i: usize = 0;
    while i < opts.len()
        invariant
            0 <= i <= opts.len(),
            w == id_width(opts@.take(i as int)),
        decreases opts.len() - i,
    {
        assert(opts@.take(i + 1).drop_last() == opts@.take(i as int));
        let id = opts[i].0.as_str();
        let l = id.len();
        assert(opts@.take(i + 1).last() == opts@[i as int]);
        assert(l == utf8_len(opts@[i as int].0@));
        if l > w {
            w = l;
        }
        i = i + 1;
    }
    assert(opts@.take(opts.len() as int) == opts@);
    w
}

/// Append a line and its newline.
fn push_line(out: &mut String, line: &str)
    ensures
        final(out)@ == old(out)@ + line@.push('\n'),
{
    push_str(out, line);
    push_char(out, '\n');
}

/// Append an empty line.
fn push_blank(out: &mut String)
    ensures
        final(out)@ == old(out)@ + Seq::<char>::empty().push('\n'),
{
    push_char(out, '\n');
}

/// Append the blacklist lines.
fn push_option_lines(out: &mut String, opts: &Vec<(String, String)>, width: usize)
    ensures
        final(out)@ == old(out)@ + join_nl(option_lines(opts@, width as nat)),
{
    let ghost all = option_lines(opts@, width as nat);
    let mut i: usize = 0;
    assert(all.take(0) =~= Seq::<Seq<char>>::empty());
    while i < opts.len()
        invariant
            0 <= i <= opts.len(),
            all == option_lines(opts@, width as nat),
            out@ == old(out)@ + join_nl(all.take(i as int)),
        decreases opts.len() - i,
    {
        let ghost before = out@;
        let mut line = String::new();
        let (id, display) = (&opts[i].0, &opts[i].1);
        if display.as_str().is_empty() {
            push_str(&mut line, id.as_str());
        } else {
            push_padded(&mut line, id.as_str(), width);
            push_str(&mut line, "   # ");
            push_str(&mut line, display.as_str());
        }
        assert(line@ == all[i as int]);
        push_line(out, line.as_str());
        proof {
            lemma_join_nl_push(all.take(i as int), all[i as int]);
            assert(all.take(i + 1) =~= all.take(i as int).push(all[i as int]));
        }
        i = i + 1;
    }
    assert(all.take(i as int) =~= all);
}

/// Append a run of lines, as the lines of `acc` so far are appended.
proof fn lemma_append_line(base: Seq<char>, acc: Seq<Seq<char>>, out: Seq<char>, x: Seq<char>)
    requires
        out == base + join_nl(acc),
    ensures
        out + x.push('\n') == base + join_nl(acc.push(x)),
{
    lemma_join_nl_push(acc, x);
    assert(out + x.push('\n') =~= base + (join_nl(acc) + x.push('\n')));
}

/// Append one type's heading.
fn push_heading(out: &mut String, t: &TypeVocab)
    ensures
        final(out)@ == old(out)@ + join_nl(heading_lines(*t)),
{
    let ghost base = out@;
    let ghost mut acc: Seq<Seq<char>> = Seq::empty();
    assert(out@ == base + join_nl(acc));
    push_blank(out);
    proof {
        lemma_append_line(base, acc, old(out)@, Seq::empty());
        acc = acc.push(Seq::empty());
    }
    let ghost o1 = out@;
    push_blank(out);
    proof {
        lemma_append_line(base, acc, o1, Seq::empty());
        acc = acc.push(Seq::empty());
    }
    let ghost o2 = out@;
    push_line(out, RULE);
    proof {
        lemma_append_line(base, acc, o2, RULE@);
        acc = acc.push(RULE@);
    }
    let mut h = String::new();
    push_str(&mut h, "# ");
    push_str(&mut h, t.display);
    push_str(&mut h, "   [");
    push_str(&mut h, t.reward_type);
    push_str(&mut h, "]   ");
    push_decimal(&mut h, t.options.len() as u64);
    push_str(&mut h, " options");
    assert(h@ =~= heading_line(*t));
    let ghost o3 = out@;
    push_line(out, h.as_str());
    proof {
        lemma_append_line(base, acc, o3, h@);
        acc = acc.push(h@);
    }
    if !t.note.as_str().is_empty() {
        let mut n = String::new();
        push_str(&mut n, "# ");
        push_str(&mut n, t.note.as_str());
        let ghost o4 = out@;
        push_line(out, n.as_str());
        proof {
            lemma_append_line(base, acc, o4, n@);
            acc = acc.push(n@);
        }
    }
    let ghost o5 = out@;
    push_line(out, RULE);
    proof {
        lemma_append_line(base, acc, o5, RULE@);
        acc = acc.push(RULE@);
    }
    let ghost o6 = out@;
    push_blank(out);
    proof {
        lemma_append_line(base, acc, o6, Seq::empty());
        acc = acc.push(Seq::empty());
    }
    assert(acc =~= heading_lines(*t));
}

/// Append one type's sections.
fn push_sections(out: &mut String, t: &TypeVocab)
    ensures
        final(out)@ == old(out)@ + join_nl(section_lines(*t)),
{
    let rt = t.reward_type;
    let ghost base = out@;
    let ghost mut acc: Seq<Seq<char>> = Seq::empty();
    assert(out@ == base + join_nl(acc));
    let mut l = String::new();
    push_str(&mut l, "[");
    push_str(&mut l, rt);
    push_str(&mut l, "]");
    let ghost o = out@;
    push_line(out, l.as_str());
    proof {
        lemma_append_line(base, acc, o, l@);
        acc = acc.push(l@);
    }
    let ghost o = out@;
    push_line(out, BUDGET_VOODOO);
    proof {
        lemma_append_line(base, acc, o, BUDGET_VOODOO@);
        acc = acc.push(BUDGET_VOODOO@);
    }
    let ghost o = out@;
    push_line(out, BUDGET_FREE);
    proof {
        lemma_append_line(base, acc, o, BUDGET_FREE@);
        acc = acc.push(BUDGET_FREE@);
    }
    let ghost o = out@;
    push_line(out, BUDGET_PAID);
    proof {
        lemma_append_line(base, acc, o, BUDGET_PAID@);
        acc = acc.push(BUDGET_PAID@);
    }
    let ghost o = out@;
    push_line(out, BUDGET_FLOOR);
    proof {
        lemma_append_line(base, acc, o, BUDGET_FLOOR@);
        acc = acc.push(BUDGET_FLOOR@);
    }
    let ghost o = out@;
    push_line(out, BUDGET_NOTE);
    proof {
        lemma_append_line(base, acc, o, BUDGET_NOTE@);
        acc = acc.push(BUDGET_NOTE@);
    }
    let ghost o = out@;
    push_blank(out);
    proof {
        lemma_append_line(base, acc, o, Seq::empty());
        acc = acc.push(Seq::empty());
    }
    let mut w = String::new();
    push_str(&mut w, "[");
    push_str(&mut w, rt);
    push_str(&mut w, ".wanted]");
    let ghost o = out@;
    push_line(out, w.as_str());
    proof {
        lemma_append_line(base, acc, o, w@);
        acc = acc.push(w@);
    }
    let ghost o = out@;
    push_blank(out);
    proof {
        lemma_append_line(base, acc, o, Seq::empty());
        acc = acc.push(Seq::empty());
    }
    let mut f = String::new();
    push_str(&mut f, "[");
    push_str(&mut f, rt);
    push_str(&mut f, ".fallback]");
    let ghost o = out@;
    push_line(out, f.as_str());
    proof {
        lemma_append_line(base, acc, o, f@);
        acc = acc.push(f@);
    }
    let hint = if t.can_scrap {
        SCRAP_HINT
    } else {
        NO_SCRAP_HINT
    };
    let ghost o = out@;
    push_line(out, hint);
    proof {
        lemma_append_line(base, acc, o, hint@);
        acc = acc.push(hint@);
    }
    let ghost o = out@;
    push_blank(out);
    proof {
        lemma_append_line(base, acc, o, Seq::empty());
        acc = acc.push(Seq::empty());
    }
    let mut b = String::new();
    push_str(&mut b, "[");
    push_str(&mut b, rt);
    push_str(&mut b, ".blacklist]");
    let ghost o = out@;
    push_line(out, b.as_str());
    proof {
        lemma_append_line(base, acc, o, b@);
        acc = acc.push(b@);
    }
    let width = width_of(&t.options);
    let ghost o = out@;
    push_option_lines(out, &t.options, width);
    proof {
        crate::text::lemma_join_nl_concat(acc, option_lines(t.options@, width as nat));
        assert(out@ =~= base + join_nl(acc + option_lines(t.options@, width as nat)));
    }
    assert(acc + option_lines(t.options@, width as nat) =~= section_lines(*t));
}

/// Generate a complete, **inert** config.
///
/// Every id goes in the blacklist and every budget is zero, so a freshly
/// installed mod resolves nothing at all: installing without configuring
/// changes nothing about the game. The file doubles as the reference for what
/// is configurable, so the player edits lines that already exist rather than
/// typing ids from memory.
///
/// `excluded` are listed at the end, commented out, so the exclusion of
/// improvements the game never offers can be checked by eye.
pub fn generate(types: &[TypeVocab], excluded: &[(String, String)]) -> (out: String)
    ensures
        out@ == generated(types@, excluded@),
{
    let mut out = String::new();
    let mut h: usize = 0;
    assert(header_lines().take(0) =~= Seq::<Seq<char>>::empty());
    while h < 55
        invariant
            0 <= h <= 55,
            out@ == join_nl(header_lines().take(h as int)),
        decreases 55 - h,
    {
        push_line(&mut out, HEADER_LINES[h]);
        proof {
            lemma_join_nl_push(header_lines().take(h as int), header_lines()[h as int]);
            assert(header_lines().take(h + 1) =~= header_lines().take(h as int).push(
                header_lines()[h as int],
            ));
        }
        h = h + 1;
    }
    assert(header_lines().take(55) =~= header_lines());
    let mut i: usize = 0;
    assert(type_lines(types@.take(0)) =~= Seq::<Seq<char>>::empty());
    assert(header_lines() + Seq::<Seq<char>>::empty() =~= header_lines());
    while i < types.len()
        invariant
            0 <= i <= types.len(),
            out@ == join_nl(header_lines() + type_lines(types@.take(i as int))),
        decreases types.len() - i,
    {
        let ghost before = out@;
        push_heading(&mut out, &types[i]);
        push_sections(&mut out, &types[i]);
        proof {
            let prev = header_lines() + type_lines(types@.take(i as int));
            let blk = block_lines(types@[i as int]);
            crate::text::lemma_join_nl_concat(heading_lines(types@[i as int]), section_lines(types@[i as int]));
            crate::text::lemma_join_nl_concat(prev, blk);
            assert(types@.take(i + 1).drop_last() == types@.take(i as int));
            assert(types@.take(i + 1).last() == types@[i as int]);
            assert(header_lines() + type_lines(types@.take(i + 1)) =~= prev + blk);
            assert(out@ =~= join_nl(prev + blk));
        }
        i = i + 1;
    }
    assert(types@.take(types.len() as int) == types@);
    let ghost pre = header_lines() + type_lines(types@);
    if excluded.len() > 0 {
        let ghost base = out@;
        let ghost mut acc: Seq<Seq<char>> = Seq::empty();
        assert(out@ == base + join_nl(acc));
        let ghost o = out@;
        push_blank(&mut out);
        proof {
            lemma_append_line(base, acc, o, Seq::empty());
            acc = acc.push(Seq::empty());
        }
        let ghost o = out@;
        push_blank(&mut out);
        proof {
            lemma_append_line(base, acc, o, Seq::empty());
            acc = acc.push(Seq::empty());
        }
        let ghost o = out@;
        push_line(&mut out, INFO_RULE);
        proof {
            lemma_append_line(base, acc, o, INFO_RULE@);
            acc = acc.push(INFO_RULE@);
        }
        let ghost o = out@;
        push_line(&mut out, INFO_TITLE);
        proof {
            lemma_append_line(base, acc, o, INFO_TITLE@);
            acc = acc.push(INFO_TITLE@);
        }
        let ghost o = out@;
        push_line(&mut out, INFO_RULE);
        proof {
            lemma_append_line(base, acc, o, INFO_RULE@);
            acc = acc.push(INFO_RULE@);
        }
        let ghost o = out@;
        push_line(&mut out, "#");
        proof {
            lemma_append_line(base, acc, o, "#"@);
            acc = acc.push("#"@);
        }
        let mut m = String::new();
        push_str(&mut m, INFO_MARKS);
        push_decimal(&mut m, excluded.len() as u64);
        push_str(&mut m, INFO_MARKS_END);
        let ghost o = out@;
        push_line(&mut out, m.as_str());
        proof {
            lemma_append_line(base, acc, o, m@);
            acc = acc.push(m@);
        }
        let mut k: usize = 0;
        while k < 5
            invariant
                0 <= k <= 5,
                out@ == base + join_nl(acc + Seq::new(k as nat, |q: int| INFO_MEANING@[q]@)),
            decreases 5 - k,
        {
            let ghost o = out@;
            push_line(&mut out, INFO_MEANING[k]);
            proof {
                let cur = acc + Seq::new(k as nat, |q: int| INFO_MEANING@[q]@);
                lemma_append_line(base, cur, o, INFO_MEANING@[k as int]@);
                assert(cur.push(INFO_MEANING@[k as int]@) =~= acc + Seq::new(
                    (k + 1) as nat,
                    |q: int| INFO_MEANING@[q]@,
                ));
            }
            k = k + 1;
        }
        let ghost acc2 = acc + Seq::new(5, |q: int| INFO_MEANING@[q]@);
        let mut w: usize = 0;
        let mut k: usize = 0;
        while k < excluded.len()
            invariant
                0 <= k <= excluded.len(),
                w == id_width(excluded@.take(k as int)),
            decreases excluded.len() - k,
        {
            assert(excluded@.take(k + 1).drop_last() == excluded@.take(k as int));
            let id = excluded[k].0.as_str();
            let l = id.len();
            assert(excluded@.take(k + 1).last() == excluded@[k as int]);
            assert(l == utf8_len(excluded@[k as int].0@));
            if l > w {
                w = l;
            }
            k = k + 1;
        }
        assert(excluded@.take(excluded.len() as int) == excluded@);
        let ghost info = Seq::new(excluded@.len(), |q: int| info_line(excluded@[q], id_width(excluded@)));
        let mut j: usize = 0;
        while j < excluded.len()
            invariant
                0 <= j <= excluded.len(),
                w == id_width(excluded@),
                info == Seq::new(excluded@.len(), |q: int| info_line(excluded@[q], id_width(excluded@))),
                out@ == base + join_nl(acc2 + info.take(j as int)),
            decreases excluded.len() - j,
        {
            let mut line = String::new();
            push_str(&mut line, "#   ");
            push_padded(&mut line, excluded[j].0.as_str(), w);
            push_str(&mut line, "   ");
            push_str(&mut line, excluded[j].1.as_str());
            assert(line@ =~= info[j as int]);
            let ghost o = out@;
            push_line(&mut out, line.as_str());
            proof {
                lemma_append_line(base, acc2 + info.take(j as int), o, line@);
                assert((acc2 + info.take(j as int)).push(line@) =~= acc2 + info.take(j + 1));
            }
            j = j + 1;
        }
        proof {
            assert(info.take(j as int) =~= info);
            assert(acc2 + info =~= info_lines(excluded@));
            crate::text::lemma_join_nl_concat(pre, info_lines(excluded@));
            assert(out@ =~= join_nl(pre + info_lines(excluded@)));
        }
    } else {
        assert(info_lines(excluded@) =~= Seq::<Seq<char>>::empty());
        assert(pre + info_lines(excluded@) =~= pre);
    }
    out
}

} // verus!
