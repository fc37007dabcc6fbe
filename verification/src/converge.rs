//! Why normalising the config converges: a file [`normalise`] has rewritten
//! needs nothing more the second time, so the mod never rewrites a player's
//! file on every reload.
//!
//! The argument, line by line: a header stays a header and puts the same
//! tier in force; a line that needed nothing still needs nothing; and a line
//! that was given ` = 0` now has its `=` before any comment, and has not
//! become a header. Reading the rewritten file back gives the rewritten lines
//! again, at most each without a trailing carriage return, which changes
//! none of that.
//!
//! [`normalise`]: crate::config::normalise
use vstd::prelude::*;

use crate::config::{
    eq_zero, head_text, is_header, needs_weight, norm_line, norm_lines, normalised, strip_comment_spec,
    three_spaces, Tier,
};
use crate::text::{first_index, is_ws, join_nl, lines, strip_cr, trim, trim_end, trim_start};

verus! {

// ------------------------------------------------------------ trimming

pub(crate) proof fn lemma_lead(s: Seq<char>) -> (k: int)
    ensures
        0 <= k <= s.len(),
        trim_start(s) == s.skip(k),
        forall|j: int| 0 <= j < k ==> is_ws(#[trigger] s[j]),
        k < s.len() ==> !is_ws(s[k]),
    decreases s.len(),
{
    if s.len() > 0 && is_ws(s[0]) {
        let k1 = lemma_lead(s.drop_first());
        assert(s.drop_first().skip(k1) =~= s.skip(k1 + 1));
        assert forall|j: int| 0 <= j < k1 + 1 implies is_ws(#[trigger] s[j]) by {
            if j > 0 {
                assert(s[j] == s.drop_first()[j - 1]);
            }
        }
        k1 + 1
    } else {
        assert(s.skip(0) =~= s);
        0
    }
}

pub(crate) proof fn lemma_trail(s: Seq<char>) -> (k: int)
    ensures
        0 <= k <= s.len(),
        trim_end(s) == s.take(k),
        forall|j: int| k <= j < s.len() ==> is_ws(#[trigger] s[j]),
        k > 0 ==> !is_ws(s[k - 1]),
    decreases s.len(),
{
    if s.len() > 0 && is_ws(s.last()) {
        let k1 = lemma_trail(s.drop_last());
        assert(s.drop_last().take(k1) =~= s.take(k1));
        assert forall|j: int| k1 <= j < s.len() implies is_ws(#[trigger] s[j]) by {
            if j < s.len() - 1 {
                assert(s[j] == s.drop_last()[j]);
            }
        }
        k1
    } else {
        assert(s.take(s.len() as int) =~= s);
        s.len() as int
    }
}

/// `trim(s)` is what lies between the first and the last character that is
/// not whitespace, or nothing.
pub(crate) proof fn lemma_trim_bounds(s: Seq<char>) -> (ab: (int, int))
    ensures
        0 <= ab.0 <= ab.1 <= s.len(),
        trim(s) == s.subrange(ab.0, ab.1),
        forall|j: int| 0 <= j < ab.0 ==> is_ws(#[trigger] s[j]),
        forall|j: int| ab.1 <= j < s.len() ==> is_ws(#[trigger] s[j]),
        ab.0 < ab.1 ==> !is_ws(s[ab.0]) && !is_ws(s[ab.1 - 1]),
        ab.0 == ab.1 ==> ab.0 == s.len(),
{
    let a = lemma_lead(s);
    let u = s.skip(a);
    let k = lemma_trail(u);
    assert(u.take(k) =~= s.subrange(a, a + k));
    assert forall|j: int| a + k <= j < s.len() implies is_ws(#[trigger] s[j]) by {
        assert(s[j] == u[j - a]);
    }
    if k > 0 {
        assert(s[a + k - 1] == u[k - 1]);
    }
    if a < s.len() && k == 0 {
        assert(s[a] == u[0]);
        assert(is_ws(u[0]));
    }
    (a, a + k)
}

/// Two runs that agree up to `n`, and hold only whitespace after it, trim
/// to the same thing.
pub(crate) proof fn lemma_trim_agree(x: Seq<char>, y: Seq<char>, n: int)
    requires
        0 <= n <= x.len(),
        n <= y.len(),
        forall|j: int| 0 <= j < n ==> x[j] == y[j],
        forall|j: int| n <= j < x.len() ==> is_ws(#[trigger] x[j]),
        forall|j: int| n <= j < y.len() ==> is_ws(#[trigger] y[j]),
    ensures
        trim(x) == trim(y),
{
    let (a, b) = lemma_trim_bounds(x);
    let (c, d) = lemma_trim_bounds(y);
    if a < b {
        assert(a < n);
        assert(!is_ws(y[a]));
        assert(c <= a) by {
            if c > a {
                assert(is_ws(y[a]));
            }
        }
        assert(c < d);
        assert(c >= a) by {
            if c < a {
                assert(!is_ws(y[c]));
                assert(c < n);
                assert(is_ws(x[c]));
            }
        }
        assert(b - 1 < n);
        assert(d - 1 < n);
        assert(d >= b) by {
            if d < b {
                assert(!is_ws(y[b - 1]));
            }
        }
        assert(b >= d) by {
            if b < d {
                assert(!is_ws(x[d - 1]));
            }
        }
        assert(x.subrange(a, b) =~= y.subrange(c, d));
    } else {
        if c < d {
            assert(c < n);
            assert(x[c] == y[c]);
            assert(is_ws(x[c]));
        }
        assert(x.subrange(a, b) =~= y.subrange(c, d));
    }
}

/// Dropping trailing whitespace does not change the trim.
pub(crate) proof fn lemma_trim_drop_ws(x: Seq<char>)
    requires
        x.len() > 0,
        is_ws(x.last()),
    ensures
        trim(x.drop_last()) == trim(x),
{
    lemma_trim_agree(x, x.drop_last(), x.len() - 1);
}

pub(crate) proof fn lemma_trim_strip_cr(x: Seq<char>)
    ensures
        trim(strip_cr(x)) == trim(x),
{
    if x.len() > 0 && x.last() == '\r' {
        assert(is_ws('\r'));
        lemma_trim_drop_ws(x);
    }
}

// ------------------------------------------------------------ comments

proof fn lemma_min_index(s: Seq<char>, c: char, k: int)
    requires
        0 <= k < s.len(),
        s[k] == c,
    ensures
        exists|i: int| 0 <= i <= k && s[i] == c && forall|j: int| 0 <= j < i ==> s[j] != c,
    decreases k,
{
    if exists|j: int| 0 <= j < k && s[j] == c {
        let j = choose|j: int| 0 <= j < k && s[j] == c;
        lemma_min_index(s, c, j);
    } else {
        assert(forall|j: int| 0 <= j < k ==> s[j] != c);
    }
}

pub(crate) proof fn lemma_first_index_props(s: Seq<char>, c: char)
    ensures
        match first_index(s, c) {
            Some(i) => 0 <= i < s.len() && s[i] == c && forall|j: int| 0 <= j < i ==> s[j] != c,
            None => forall|j: int| 0 <= j < s.len() ==> s[j] != c,
        },
{
    if exists|i: int| 0 <= i < s.len() && s[i] == c {
        let k = choose|i: int| 0 <= i < s.len() && s[i] == c;
        lemma_min_index(s, c, k);
    }
}

pub(crate) proof fn lemma_body_strip_cr(l: Seq<char>)
    ensures
        trim_end(strip_comment_spec(strip_cr(l))) == trim_end(strip_comment_spec(l)),
{
    if l.len() > 0 && l.last() == '\r' {
        let y = l.drop_last();
        lemma_first_index_props(l, '#');
        lemma_first_index_props(y, '#');
        match first_index(l, '#') {
            Some(i) => {
                assert(i < l.len() - 1);
                assert(y[i] == '#');
                match first_index(y, '#') {
                    Some(i2) => {
                        assert(i2 == i) by {
                            if i2 < i {
                                assert(l[i2] == y[i2]);
                            }
                            if i2 > i {
                                assert(y[i] != '#');
                            }
                        }
                    },
                    None => {},
                }
                assert(y.take(i) =~= l.take(i));
            },
            None => {
                match first_index(y, '#') {
                    Some(i2) => {
                        assert(l[i2] == y[i2]);
                    },
                    None => {},
                }
                assert(is_ws(l.last()));
                assert(trim_end(l) == trim_end(l.drop_last()));
            },
        }
    }
}

/// Whether a line needs a weight does not depend on a carriage return at
/// its end.
proof fn lemma_needs_weight_strip_cr(l: Seq<char>, tier: Option<Tier>)
    ensures
        needs_weight(strip_cr(l), tier) == needs_weight(l, tier),
{
    lemma_trim_strip_cr(l);
    lemma_body_strip_cr(l);
}

// ------------------------------------------------------------ one line

/// The body of a line and where it ends: everything before its comment,
/// without trailing whitespace, is `l.take(m)`, and `m` is at most where the
/// comment starts.
pub(crate) proof fn lemma_body(l: Seq<char>) -> (m: int)
    ensures
        0 <= m <= l.len(),
        trim_end(strip_comment_spec(l)) == l.take(m),
        forall|j: int| 0 <= j < m ==> l[j] != '#',
        match first_index(l, '#') {
            Some(i) => m <= i,
            None => true,
        },
{
    lemma_first_index_props(l, '#');
    let sc = strip_comment_spec(l);
    let k = lemma_trail(sc);
    match first_index(l, '#') {
        Some(i) => {
            assert(sc == l.take(i));
            assert(sc.take(k) =~= l.take(k));
        },
        None => {
            assert(sc.take(k) =~= l.take(k));
        },
    }
    k
}

pub(crate) proof fn lemma_trim_of_trim_end(y: Seq<char>)
    ensures
        trim(trim_end(y)) == trim(y),
{
    let k = lemma_trail(y);
    lemma_trim_agree(y, y.take(k), k);
}

/// A carriage return at the end of a line does not change how the parser
/// reads it.
pub(crate) proof fn lemma_head_text_strip_cr(x: Seq<char>)
    ensures
        head_text(strip_cr(x)) == head_text(x),
{
    lemma_body_strip_cr(x);
    lemma_trim_of_trim_end(strip_comment_spec(strip_cr(x)));
    lemma_trim_of_trim_end(strip_comment_spec(x));
}

/// A line given ` = 0` needs nothing more, and is not a header.
proof fn lemma_rewrite_settled(l: Seq<char>, tier: Option<Tier>)
    requires
        !is_header(head_text(l)),
        needs_weight(l, tier),
    ensures
        ({
            let body = trim_end(strip_comment_spec(l));
            let tail = match first_index(l, '#') {
                Some(i) => three_spaces() + l.skip(i),
                None => Seq::<char>::empty(),
            };
            let r = body + eq_zero() + tail;
            !needs_weight(r, tier) && !is_header(head_text(r))
        }),
{
    let m = lemma_body(l);
    let body = trim_end(strip_comment_spec(l));
    lemma_first_index_props(l, '#');
    let tail = match first_index(l, '#') {
        Some(i) => three_spaces() + l.skip(i),
        None => Seq::<char>::empty(),
    };
    let r = body + eq_zero() + tail;
    assert(body == l.take(m));
    assert(r.len() == m + 4 + tail.len());
    assert forall|j: int| 0 <= j < m implies r[j] == l[j] by {
        assert(r[j] == body[j]);
    }
    assert(r[m] == ' ' && r[m + 1] == '=' && r[m + 2] == ' ' && r[m + 3] == '0');
    // the body has something in it
    let (pa, pb) = lemma_trim_bounds(body);
    assert(pa < pb);
    assert(!is_ws(l[pa]));
    // (a) the rewritten line has its `=` before any comment
    lemma_first_index_props(r, '#');
    let scr = strip_comment_spec(r);
    let kr = lemma_trail(scr);
    match first_index(l, '#') {
        Some(i) => {
            assert(r[m + 7] == '#');
            assert(forall|j: int| 0 <= j < m + 7 ==> r[j] != '#');
            match first_index(r, '#') {
                Some(q) => {
                    assert(q == m + 7) by {
                        if q < m + 7 {
                            assert(r[q] != '#');
                        }
                        if q > m + 7 {
                            assert(r[m + 7] != '#');
                        }
                    }
                },
                None => {
                    assert(r[m + 7] != '#');
                },
            }
            assert(scr == r.take(m + 7));
        },
        None => {
            assert forall|j: int| 0 <= j < r.len() implies r[j] != '#' by {
                if j < m {
                    assert(r[j] == l[j]);
                }
            }
            assert(first_index(r, '#') is None);
            assert(scr == r);
        },
    }
    assert(scr[m + 3] == '0');
    assert(!is_ws('0'));
    assert(kr > m + 3) by {
        if kr <= m + 3 {
            assert(is_ws(scr[m + 3]));
        }
    }
    assert(scr.take(kr)[m + 1] == '=');
    assert(trim_end(strip_comment_spec(r)).contains('='));
    assert(!needs_weight(r, tier));
    // (b) and, its comment cut, it ends in the `0`: not a header
    assert(kr == m + 4) by {
        if kr > m + 4 {
            match first_index(l, '#') {
                Some(i) => {
                    assert(scr[kr - 1] == r[kr - 1]);
                    assert(r[kr - 1] == tail[kr - 1 - m - 4]);
                    assert(tail[kr - 1 - m - 4] == ' ');
                },
                None => {},
            }
        }
    }
    let y = scr.take(kr);
    lemma_trim_of_trim_end(scr);
    assert(head_text(r) == trim(y));
    let (ay, by) = lemma_trim_bounds(y);
    assert(y[kr - 1] == '0');
    assert(by == y.len()) by {
        if by < y.len() {
            assert(is_ws(y[y.len() - 1]));
        }
    }
    assert(ay < by) by {
        if ay == by {
            assert(ay == y.len());
        }
    }
    assert(trim(y).last() == '0');
}

/// Reading back what `normalise` wrote for a line -- with or without a
/// carriage return at its end -- needs no change, and leaves the same tier
/// in force as the line did.
proof fn lemma_line_settled(l: Seq<char>, tier: Option<Tier>, c: Seq<char>)
    requires
        c == norm_line(l, tier).0 || c == strip_cr(norm_line(l, tier).0),
    ensures
        !norm_line(c, tier).1,
        norm_line(c, tier).2 == norm_line(l, tier).2,
{
    let r = norm_line(l, tier).0;
    lemma_head_text_strip_cr(r);
    lemma_needs_weight_strip_cr(r, tier);
    if is_header(head_text(l)) {
    } else if !needs_weight(l, tier) {
    } else {
        lemma_rewrite_settled(l, tier);
    }
}

// ------------------------------------------------------------ lines

/// The lines `normalise` writes, one per line read.
pub open spec fn outs(ls: Seq<Seq<char>>, tier: Option<Tier>) -> Seq<Seq<char>>
    decreases ls.len(),
{
    if ls.len() == 0 {
        Seq::empty()
    } else {
        let r = norm_line(ls[0], tier);
        seq![r.0] + outs(ls.drop_first(), r.2)
    }
}

pub(crate) proof fn lemma_outs_len(ls: Seq<Seq<char>>, tier: Option<Tier>)
    ensures
        outs(ls, tier).len() == ls.len(),
    decreases ls.len(),
{
    if ls.len() > 0 {
        lemma_outs_len(ls.drop_first(), norm_line(ls[0], tier).2);
    }
}

proof fn lemma_norm_lines_join(ls: Seq<Seq<char>>, tier: Option<Tier>)
    ensures
        norm_lines(ls, tier).0 == join_nl(outs(ls, tier)),
        outs(ls, tier).len() == ls.len(),
    decreases ls.len(),
{
    reveal(norm_lines);
    if ls.len() > 0 {
        let r = norm_line(ls[0], tier);
        lemma_norm_lines_join(ls.drop_first(), r.2);
        let o = outs(ls, tier);
        assert(o[0] == r.0);
        assert(o.drop_first() =~= outs(ls.drop_first(), r.2));
    }
}

proof fn lemma_outs_index(ls: Seq<Seq<char>>, tier: Option<Tier>, i: int)
    requires
        0 <= i < ls.len(),
    ensures
        exists|t: Option<Tier>| #[trigger] norm_line(ls[i], t).0 == outs(ls, tier)[i],
    decreases i,
{
    lemma_norm_lines_join(ls, tier);
    if i == 0 {
        assert(norm_line(ls[0], tier).0 == outs(ls, tier)[0]);
    } else {
        let r = norm_line(ls[0], tier);
        lemma_norm_lines_join(ls.drop_first(), r.2);
        lemma_outs_index(ls.drop_first(), r.2, i - 1);
        assert(outs(ls, tier)[i] == outs(ls.drop_first(), r.2)[i - 1]);
        assert(ls[i] == ls.drop_first()[i - 1]);
    }
}

/// The second reading: each line is what was written, or that without a
/// carriage return at its end.
pub open spec fn read_back(ls2: Seq<Seq<char>>, ls: Seq<Seq<char>>, tier: Option<Tier>) -> bool {
    &&& ls2.len() == ls.len()
    &&& forall|i: int|
        0 <= i < ls.len() ==> #[trigger] ls2[i] == outs(ls, tier)[i] || ls2[i] == strip_cr(
            outs(ls, tier)[i],
        )
}

proof fn lemma_second_pass(ls2: Seq<Seq<char>>, ls: Seq<Seq<char>>, tier: Option<Tier>)
    requires
        read_back(ls2, ls, tier),
    ensures
        !norm_lines(ls2, tier).1,
    decreases ls.len(),
{
    reveal(norm_lines);
    if ls.len() > 0 {
        lemma_norm_lines_join(ls, tier);
        let r = norm_line(ls[0], tier);
        assert(outs(ls, tier)[0] == r.0);
        assert(ls2[0] == outs(ls, tier)[0] || ls2[0] == strip_cr(outs(ls, tier)[0]));
        lemma_line_settled(ls[0], tier, ls2[0]);
        let t2 = norm_line(ls2[0], tier).2;
        assert(t2 == r.2);
        assert(read_back(ls2.drop_first(), ls.drop_first(), r.2)) by {
            assert forall|i: int| 0 <= i < ls.len() - 1 implies #[trigger] ls2.drop_first()[i]
                == outs(ls.drop_first(), r.2)[i] || ls2.drop_first()[i] == strip_cr(
                outs(ls.drop_first(), r.2)[i],
            ) by {
                assert(ls2.drop_first()[i] == ls2[i + 1]);
                assert(outs(ls, tier)[i + 1] == outs(ls.drop_first(), r.2)[i]);
            }
        }
        lemma_second_pass(ls2.drop_first(), ls.drop_first(), r.2);
    }
}

proof fn lemma_out_line(l: Seq<char>, tier: Option<Tier>)
    requires
        !l.contains('\n'),
    ensures
        !norm_line(l, tier).0.contains('\n'),
        l.len() > 0 ==> norm_line(l, tier).0.len() > 0,
{
    if !is_header(head_text(l)) && needs_weight(l, tier) {
        let m = lemma_body(l);
        lemma_first_index_props(l, '#');
        let body = trim_end(strip_comment_spec(l));
        let tail = match first_index(l, '#') {
            Some(i) => three_spaces() + l.skip(i),
            None => Seq::<char>::empty(),
        };
        let r = body + eq_zero() + tail;
        assert(r == norm_line(l, tier).0);
        assert forall|j: int| 0 <= j < r.len() implies r[j] != '\n' by {
            if j < m {
                assert(r[j] == l[j]);
            } else if j >= m + 4 + 3 {
                let i = first_index(l, '#')->0;
                assert(r[j] == l[i + j - m - 7]);
            }
        }
        assert(r.len() >= 4);
    }
}

proof fn lemma_lines_no_nl(t: Seq<char>)
    ensures
        forall|i: int| 0 <= i < lines(t).len() ==> !(#[trigger] lines(t)[i]).contains('\n'),
    decreases t.len(),
{
    reveal(lines);
    lemma_first_index_props(t, '\n');
    if t.len() > 0 {
        match first_index(t, '\n') {
            None => {
                assert(lines(t) == seq![t]);
            },
            Some(k) => {
                lemma_lines_no_nl(t.skip(k + 1));
                let a = strip_cr(t.take(k));
                assert(!a.contains('\n')) by {
                    assert forall|j: int| 0 <= j < a.len() implies a[j] != '\n' by {
                        assert(a[j] == t[j]);
                    }
                }
                assert forall|i: int| 0 <= i < lines(t).len() implies !(
                #[trigger] lines(t)[i]).contains('\n') by {
                    if i > 0 {
                        assert(lines(t)[i] == lines(t.skip(k + 1))[i - 1]);
                    }
                }
            },
        }
    }
}

proof fn lemma_lines_last(t: Seq<char>)
    requires
        t.len() > 0,
        t.last() != '\n',
    ensures
        lines(t).len() > 0,
        lines(t).last().len() > 0,
    decreases t.len(),
{
    reveal(lines);
    lemma_first_index_props(t, '\n');
    match first_index(t, '\n') {
        None => {
            assert(lines(t) == seq![t]);
        },
        Some(k) => {
            assert(k < t.len() - 1);
            let rest = t.skip(k + 1);
            assert(rest.last() == t.last());
            lemma_lines_last(rest);
            assert(lines(t) == seq![strip_cr(t.take(k))] + lines(rest));
        },
    }
}

proof fn lemma_lines_cons(a: Seq<char>, x: Seq<char>)
    requires
        !a.contains('\n'),
    ensures
        lines(a + seq!['\n'] + x) == seq![strip_cr(a)] + lines(x),
{
    reveal(lines);
    let t = a + seq!['\n'] + x;
    assert(t[a.len() as int] == '\n');
    assert forall|j: int| 0 <= j < a.len() implies t[j] != '\n' by {
        assert(t[j] == a[j]);
    }
    crate::text::lemma_first_index(t, '\n', a.len() as int);
    assert(t.take(a.len() as int) =~= a);
    assert(t.skip(a.len() as int + 1) =~= x);
}

proof fn lemma_lines_single(a: Seq<char>)
    requires
        !a.contains('\n'),
        a.len() > 0,
    ensures
        lines(a) == seq![a],
{
    reveal(lines);
    lemma_first_index_props(a, '\n');
}

pub(crate) proof fn lemma_lines_join(c: Seq<Seq<char>>)
    requires
        forall|i: int| 0 <= i < c.len() ==> !(#[trigger] c[i]).contains('\n'),
    ensures
        lines(join_nl(c)) == Seq::new(c.len(), |i: int| strip_cr(c[i])),
    decreases c.len(),
{
    if c.len() == 0 {
        reveal(lines);
        assert(lines(join_nl(c)) =~= Seq::new(c.len(), |i: int| strip_cr(c[i])));
    } else {
        let rest = c.drop_first();
        assert forall|i: int| 0 <= i < rest.len() implies !(#[trigger] rest[i]).contains('\n') by {
            assert(rest[i] == c[i + 1]);
        }
        lemma_lines_join(rest);
        assert(c[0].push('\n') == c[0] + seq!['\n']);
        assert(join_nl(c) == c[0] + seq!['\n'] + join_nl(rest));
        lemma_lines_cons(c[0], join_nl(rest));
        assert(lines(join_nl(c)) =~= Seq::new(c.len(), |i: int| strip_cr(c[i])));
    }
}

proof fn lemma_lines_join_open(c: Seq<Seq<char>>)
    requires
        c.len() > 0,
        c.last().len() > 0,
        forall|i: int| 0 <= i < c.len() ==> !(#[trigger] c[i]).contains('\n'),
    ensures
        join_nl(c).len() > 0,
        lines(join_nl(c).drop_last()) == Seq::new(
            c.len(),
            |i: int|
                if i < c.len() - 1 {
                    strip_cr(c[i])
                } else {
                    c[i]
                },
        ),
    decreases c.len(),
{
    let rest = c.drop_first();
    assert(join_nl(c) == c[0].push('\n') + join_nl(rest));
    if c.len() == 1 {
        assert(join_nl(rest) == Seq::<char>::empty());
        assert(join_nl(c).drop_last() =~= c[0]);
        lemma_lines_single(c[0]);
        assert(lines(join_nl(c).drop_last()) =~= Seq::new(
            c.len(),
            |i: int|
                if i < c.len() - 1 {
                    strip_cr(c[i])
                } else {
                    c[i]
                },
        ));
    } else {
        assert forall|i: int| 0 <= i < rest.len() implies !(#[trigger] rest[i]).contains('\n') by {
            assert(rest[i] == c[i + 1]);
        }
        assert(rest.last() == c.last());
        lemma_lines_join_open(rest);
        assert(join_nl(c).drop_last() =~= c[0] + seq!['\n'] + join_nl(rest).drop_last());
        lemma_lines_cons(c[0], join_nl(rest).drop_last());
        assert(lines(join_nl(c).drop_last()) =~= Seq::new(
            c.len(),
            |i: int|
                if i < c.len() - 1 {
                    strip_cr(c[i])
                } else {
                    c[i]
                },
        ));
    }
}

/// The lines of what [`normalise`] writes are the rewritten lines of the
/// input, each possibly without a trailing carriage return.
///
/// [`normalise`]: crate::config::normalise
pub(crate) proof fn lemma_normalised_reads_back(text: Seq<char>)
    requires
        normalised(text) is Some,
    ensures
        read_back(lines(normalised(text)->0), lines(text), None),
{
    let ls = lines(text);
    lemma_norm_lines_join(ls, None);
    let o = outs(ls, None);
    let j = join_nl(o);
    lemma_lines_no_nl(text);
    assert forall|i: int| 0 <= i < o.len() implies !(#[trigger] o[i]).contains('\n') by {
        lemma_outs_index(ls, None, i);
        let t = choose|t: Option<Tier>| #[trigger] norm_line(ls[i], t).0 == outs(ls, None)[i];
        lemma_out_line(ls[i], t);
    }
    let out = normalised(text)->0;
    if text.len() > 0 && text.last() == '\n' {
        assert(out == j);
        lemma_lines_join(o);
        let ls2 = lines(out);
        assert forall|i: int| 0 <= i < ls.len() implies #[trigger] ls2[i] == outs(ls, None)[i]
            || ls2[i] == strip_cr(outs(ls, None)[i]) by {
            assert(ls2[i] == strip_cr(o[i]));
        }
    } else if text.len() == 0 {
        reveal(lines);
        reveal(norm_lines);
        assert(ls.len() == 0);
    } else {
        lemma_lines_last(text);
        let n = ls.len() as int;
        lemma_outs_index(ls, None, n - 1);
        let t = choose|t: Option<Tier>| #[trigger] norm_line(ls[n - 1], t).0 == outs(ls, None)[n - 1];
        lemma_out_line(ls[n - 1], t);
        assert(ls[n - 1] == ls.last());
        assert(o.last().len() > 0);
        lemma_lines_join_open(o);
        assert(out == j.drop_last());
        let ls2 = lines(out);
        assert forall|i: int| 0 <= i < ls.len() implies #[trigger] ls2[i] == outs(ls, None)[i]
            || ls2[i] == strip_cr(outs(ls, None)[i]) by {
            if i < n - 1 {
                assert(ls2[i] == strip_cr(o[i]));
            } else {
                assert(ls2[i] == o[i]);
            }
        }
    }
}

/// Normalising converges in one pass: whatever [`normalise`] writes,
/// normalising that again finds nothing to change -- so the mod never
/// rewrites a player's file on every reload.
///
/// [`normalise`]: crate::config::normalise
pub proof fn lemma_normalise_converges(text: Seq<char>)
    ensures
        match normalised(text) {
            Some(out) => normalised(out) == None::<Seq<char>>,
            None => true,
        },
{
    if normalised(text) is Some {
        lemma_normalised_reads_back(text);
        lemma_second_pass(lines(normalised(text)->0), lines(text), None);
    }
}

} // verus!
