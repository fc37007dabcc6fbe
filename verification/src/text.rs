//! Characters and strings: the small vocabulary every text-handling part of
//! the library is written in.
//!
//! Text is reasoned about as `Seq<char>`, the view of a `str` or `String`.
//! The helpers here mirror the few `str` operations the config code needs
//! (`lines`, `trim`, `find`, `contains`), each with a spec function that says
//! what it computes.
use vstd::prelude::*;

verus! {

// ------------------------------------------------------------------ std glue

/// `String::push`: appends one character.
#[verifier::external_body]
pub(crate) fn push_char(s: &mut String, c: char)
    ensures
        final(s)@ == old(s)@.push(c),
{
    s.push(c);
}

/// Appends a string slice.
pub(crate) fn push_str(s: &mut String, t: &str)
    ensures
        final(s)@ == old(s)@ + t@,
{
    s.append(t);
}

/// The characters of a string slice, in order.
pub fn chars_of(s: &str) -> (v: Vec<char>)
    ensures
        v@ == s@,
{
    let mut v: Vec<char> = Vec::new();
    for c in it: s.chars()
        invariant
            v@ == it.seq().take(it.index() as int),
    {
        v.push(c);
    }
    v
}

/// Append a run of characters to a string.
pub fn push_chars(s: &mut String, cs: &Vec<char>)
    ensures
        final(s)@ == old(s)@ + cs@,
{
    let mut i: usize = 0;
    while i < cs.len()
        invariant
            0 <= i <= cs.len(),
            s@ == old(s)@ + cs@.take(i as int),
        decreases cs.len() - i,
    {
        push_char(s, cs[i]);
        assert(cs@.take(i + 1) == cs@.take(i as int).push(cs@[i as int]));
        i = i + 1;
    }
    assert(cs@.take(cs.len() as int) == cs@);
}

/// A string holding exactly these characters.
pub fn string_of(cs: &Vec<char>) -> (s: String)
    ensures
        s@ == cs@,
{
    let mut s = String::new();
    push_chars(&mut s, cs);
    s
}

/// Whether two string slices hold the same characters.
pub fn str_eq(a: &str, b: &str) -> (r: bool)
    ensures
        r == (a@ == b@),
{
    let x = chars_of(a);
    let y = chars_of(b);
    seq_eq(&x, &y)
}

/// Whether two character runs are equal.
pub fn seq_eq(x: &Vec<char>, y: &Vec<char>) -> (r: bool)
    ensures
        r == (x@ == y@),
{
    if x.len() != y.len() {
        return false;
    }
    let mut i: usize = 0;
    while i < x.len()
        invariant
            x.len() == y.len(),
            0 <= i <= x.len(),
            forall|j: int| 0 <= j < i ==> x@[j] == y@[j],
        decreases x.len() - i,
    {
        if x[i] != y[i] {
            return false;
        }
        i = i + 1;
    }
    assert(x@ =~= y@);
    true
}

// ------------------------------------------------------------ whitespace

/// Unicode `White_Space`, which is what `char::is_whitespace` and
/// `str::trim` go by.
pub open spec fn is_ws(c: char) -> bool {
    let u = c as u32;
    u == 0x09 || u == 0x0A || u == 0x0B || u == 0x0C || u == 0x0D || u == 0x20 || u == 0x85
        || u == 0xA0 || u == 0x1680 || (0x2000 <= u && u <= 0x200A) || u == 0x2028 || u == 0x2029
        || u == 0x202F || u == 0x205F || u == 0x3000
}

pub fn is_whitespace(c: char) -> (r: bool)
    ensures
        r == is_ws(c),
{
    let u = c as u32;
    u == 0x09 || u == 0x0A || u == 0x0B || u == 0x0C || u == 0x0D || u == 0x20 || u == 0x85
        || u == 0xA0 || u == 0x1680 || (0x2000 <= u && u <= 0x200A) || u == 0x2028 || u == 0x2029
        || u == 0x202F || u == 0x205F || u == 0x3000
}

/// `s` with leading whitespace removed.
pub open spec fn trim_start(s: Seq<char>) -> Seq<char>
    decreases s.len(),
{
    if s.len() > 0 && is_ws(s[0]) {
        trim_start(s.drop_first())
    } else {
        s
    }
}

/// `s` with trailing whitespace removed.
pub open spec fn trim_end(s: Seq<char>) -> Seq<char>
    decreases s.len(),
{
    if s.len() > 0 && is_ws(s.last()) {
        trim_end(s.drop_last())
    } else {
        s
    }
}

/// `str::trim`.
pub open spec fn trim(s: Seq<char>) -> Seq<char> {
    trim_end(trim_start(s))
}

/// How many characters `trim_start` removes.
pub fn lead_ws(s: &Vec<char>, lo: usize, hi: usize) -> (k: usize)
    requires
        lo <= hi <= s.len(),
    ensures
        lo <= k <= hi,
        trim_start(s@.subrange(lo as int, hi as int)) == s@.subrange(k as int, hi as int),
{
    let mut k = lo;
    while k < hi && is_whitespace(s[k])
        invariant
            lo <= k <= hi <= s.len(),
            trim_start(s@.subrange(lo as int, hi as int)) == trim_start(
                s@.subrange(k as int, hi as int),
            ),
        decreases hi - k,
    {
        assert(s@.subrange(k as int, hi as int).drop_first() == s@.subrange(k + 1, hi as int));
        k = k + 1;
    }
    k
}

/// Where `trim_end` stops.
pub fn trail_ws(s: &Vec<char>, lo: usize, hi: usize) -> (k: usize)
    requires
        lo <= hi <= s.len(),
    ensures
        lo <= k <= hi,
        trim_end(s@.subrange(lo as int, hi as int)) == s@.subrange(lo as int, k as int),
{
    let mut k = hi;
    while k > lo && is_whitespace(s[k - 1])
        invariant
            lo <= k <= hi <= s.len(),
            trim_end(s@.subrange(lo as int, hi as int)) == trim_end(
                s@.subrange(lo as int, k as int),
            ),
        decreases k - lo,
    {
        assert(s@.subrange(lo as int, k as int).drop_last() == s@.subrange(lo as int, k - 1));
        k = k - 1;
    }
    k
}

pub proof fn lemma_trim_end_of_trim_start_empty(s: Seq<char>)
    requires
        s.len() == 0,
    ensures
        trim_end(s) == s,
        trim_start(s) == s,
{
}

/// `str::trim`, as the bounds of what remains.
pub fn trim_bounds(s: &Vec<char>, lo: usize, hi: usize) -> (r: (usize, usize))
    requires
        lo <= hi <= s.len(),
    ensures
        lo <= r.0 <= r.1 <= hi,
        trim(s@.subrange(lo as int, hi as int)) == s@.subrange(r.0 as int, r.1 as int),
{
    let a = lead_ws(s, lo, hi);
    let b = trail_ws(s, a, hi);
    (a, b)
}

/// The characters of `s` from `lo` to `hi`.
pub fn slice_of(s: &Vec<char>, lo: usize, hi: usize) -> (r: Vec<char>)
    requires
        lo <= hi <= s.len(),
    ensures
        r@ == s@.subrange(lo as int, hi as int),
{
    let mut r: Vec<char> = Vec::new();
    let mut i = lo;
    while i < hi
        invariant
            lo <= i <= hi <= s.len(),
            r@ == s@.subrange(lo as int, i as int),
        decreases hi - i,
    {
        r.push(s[i]);
        assert(s@.subrange(lo as int, i + 1) == s@.subrange(lo as int, i as int).push(s@[i as int]));
        i = i + 1;
    }
    r
}

/// `trim` of a whole run of characters.
pub fn trimmed(s: &Vec<char>) -> (r: Vec<char>)
    ensures
        r@ == trim(s@),
{
    let (a, b) = trim_bounds(s, 0, s.len());
    assert(s@.subrange(0, s.len() as int) == s@);
    slice_of(s, a, b)
}

// ------------------------------------------------------------- searching

/// Index of the first `c` in `s`, if any.
pub open spec fn first_index(s: Seq<char>, c: char) -> Option<int> {
    if exists|i: int| 0 <= i < s.len() && s[i] == c {
        Some(choose|i: int| 0 <= i < s.len() && s[i] == c && forall|j: int| 0 <= j < i ==> s[j] != c)
    } else {
        None
    }
}

pub proof fn lemma_first_index(s: Seq<char>, c: char, i: int)
    requires
        0 <= i < s.len(),
        s[i] == c,
        forall|j: int| 0 <= j < i ==> s[j] != c,
    ensures
        first_index(s, c) == Some(i),
{
    let k = choose|k: int| 0 <= k < s.len() && s[k] == c && forall|j: int| 0 <= j < k ==> s[j] != c;
    assert(0 <= k < s.len() && s[k] == c && forall|j: int| 0 <= j < k ==> s[j] != c);
    if k < i {
        assert(s[k] != c);
    } else if k > i {
        assert(s[i] != c);
    }
}

pub proof fn lemma_first_index_none(s: Seq<char>, c: char)
    requires
        forall|j: int| 0 <= j < s.len() ==> s[j] != c,
    ensures
        first_index(s, c) == None::<int>,
{
}

/// `str::find` for a single character, within `s[lo..hi]`, as an index into `s`.
pub fn find_char(s: &Vec<char>, lo: usize, hi: usize, c: char) -> (r: Option<usize>)
    requires
        lo <= hi <= s.len(),
    ensures
        match r {
            Some(i) => lo <= i < hi && s@[i as int] == c && first_index(
                s@.subrange(lo as int, hi as int),
                c,
            ) == Some(i - lo),
            None => first_index(s@.subrange(lo as int, hi as int), c) == None::<int>,
        },
{
    let mut i = lo;
    while i < hi
        invariant
            lo <= i <= hi <= s.len(),
            forall|j: int| lo <= j < i ==> s@[j] != c,
        decreases hi - i,
    {
        if s[i] == c {
            proof {
                lemma_first_index(s@.subrange(lo as int, hi as int), c, i - lo);
            }
            return Some(i);
        }
        i = i + 1;
    }
    proof {
        lemma_first_index_none(s@.subrange(lo as int, hi as int), c);
    }
    None
}

/// Whether `s[lo..hi]` holds `c`.
pub fn contains_char(s: &Vec<char>, lo: usize, hi: usize, c: char) -> (r: bool)
    requires
        lo <= hi <= s.len(),
    ensures
        r == s@.subrange(lo as int, hi as int).contains(c),
{
    match find_char(s, lo, hi, c) {
        Some(i) => {
            assert(s@.subrange(lo as int, hi as int)[i - lo] == c);
            true
        },
        None => {
            assert(!s@.subrange(lo as int, hi as int).contains(c));
            false
        },
    }
}

// ----------------------------------------------------------------- lines

/// One line as `str::lines` yields it: the `\n` is dropped, and a `\r`
/// directly before it goes too.
pub open spec fn strip_cr(s: Seq<char>) -> Seq<char> {
    if s.len() > 0 && s.last() == '\r' {
        s.drop_last()
    } else {
        s
    }
}

/// `str::lines`: split at `\n`, dropping a `\r` before each `\n`. A final
/// line without a `\n` is kept whole; an empty input has no lines, and a
/// trailing `\n` does not start another one.
#[verifier::opaque]
pub open spec fn lines(t: Seq<char>) -> Seq<Seq<char>>
    decreases t.len(),
{
    if t.len() == 0 {
        Seq::empty()
    } else {
        match first_index(t, '\n') {
            None => seq![t],
            Some(i) => if 0 <= i < t.len() {
                seq![strip_cr(t.take(i))] + lines(t.skip(i + 1))
            } else {
                Seq::empty()
            },
        }
    }
}

/// The lines of `t`, as `str::lines` gives them.
proof fn lemma_lines_last(rest: Seq<char>)
    requires
        rest.len() > 0,
        first_index(rest, '\n') == None::<int>,
    ensures
        lines(rest) == seq![rest],
{
    reveal(lines);
}

proof fn lemma_lines_empty()
    ensures
        lines(Seq::<char>::empty()) == Seq::<Seq<char>>::empty(),
{
    reveal(lines);
}

proof fn lemma_lines_next(rest: Seq<char>, j: int)
    requires
        rest.len() > 0,
        0 <= j < rest.len(),
        first_index(rest, '\n') == Some(j),
    ensures
        lines(rest) == seq![strip_cr(rest.take(j))] + lines(rest.skip(j + 1)),
{
    reveal(lines);
}

/// The lines of `t`, as `str::lines` gives them.
#[verifier::rlimit(50)]
pub fn split_lines(t: &Vec<char>) -> (r: Vec<Vec<char>>)
    ensures
        r.len() == lines(t@).len(),
        forall|i: int| 0 <= i < r.len() ==> #[trigger] r@[i]@ == lines(t@)[i],
{
    let mut r: Vec<Vec<char>> = Vec::new();
    let mut start: usize = 0;
    let ghost mut acc: Seq<Seq<char>> = Seq::empty();
    assert(t@.skip(0) == t@);
    assert(Seq::<Seq<char>>::empty() + lines(t@) == lines(t@));
    while start < t.len()
        invariant
            0 <= start <= t.len(),
            r.len() == acc.len(),
            forall|i: int| 0 <= i < r.len() ==> #[trigger] r@[i]@ == acc[i],
            lines(t@) == acc + lines(t@.skip(start as int)),
        decreases t.len() - start,
    {
        let ghost rest = t@.skip(start as int);
        assert(rest == t@.subrange(start as int, t.len() as int));
        match find_char(t, start, t.len(), '\n') {
            None => {
                let line = slice_of(t, start, t.len());
                proof {
                    lemma_lines_last(rest);
                    assert(t@.skip(t.len() as int) =~= Seq::<char>::empty());
                    lemma_lines_empty();
                    assert(acc + lines(rest) == acc.push(rest) + lines(
                        t@.skip(t.len() as int),
                    ));
                    acc = acc.push(rest);
                }
                r.push(line);
                start = t.len();
            },
            Some(i) => {
                let mut end = i;
                if end > start && t[end - 1] == '\r' {
                    end = end - 1;
                }
                let line = slice_of(t, start, end);
                proof {
                    assert(rest.take(i - start) == t@.subrange(start as int, i as int));
                    assert(line@ == strip_cr(rest.take(i - start)));
                    assert(rest.skip(i - start + 1) == t@.skip(i + 1));
                    lemma_lines_next(rest, i - start);
                    assert(acc + lines(rest) == acc.push(line@) + lines(t@.skip(i + 1)));
                    acc = acc.push(line@);
                }
                r.push(line);
                start = i + 1;
            },
        }
    }
    assert(t@.skip(start as int) =~= Seq::<char>::empty());
    proof {
        lemma_lines_empty();
    }
    assert(acc + Seq::<Seq<char>>::empty() == acc);
    r
}

// ------------------------------------------------------------ formatting

/// The decimal digit for `d`.
pub open spec fn digit(d: nat) -> char {
    (48 + d) as char
}

/// `n` written in decimal, as `format!("{n}")` writes it.
pub open spec fn decimal(n: nat) -> Seq<char>
    decreases n,
{
    if n < 10 {
        seq![digit(n)]
    } else {
        decimal(n / 10).push(digit(n % 10))
    }
}

/// Append `n` in decimal.
pub fn push_decimal(s: &mut String, n: u64)
    ensures
        final(s)@ == old(s)@ + decimal(n as nat),
    decreases n,
{
    if n >= 10 {
        push_decimal(s, n / 10);
    }
    let d = (n % 10) as u8;
    let c = (48u8 + d) as char;
    assert(c == digit((n % 10) as nat));
    push_char(s, c);
    proof {
        if n >= 10 {
            assert(old(s)@ + decimal(n as nat) =~= old(s)@ + decimal((n / 10) as nat) + seq![c]);
        } else {
            assert(old(s)@ + decimal(n as nat) =~= old(s)@.push(c));
        }
    }
}

/// `n` spaces.
pub open spec fn spaces(n: nat) -> Seq<char> {
    Seq::new(n, |i: int| ' ')
}

/// `t` left-aligned in a field `width` characters wide, as
/// `format!("{t:<width$}")` writes it: padded with spaces on the right, never
/// cut.
pub open spec fn padded(t: Seq<char>, width: nat) -> Seq<char> {
    if t.len() < width {
        t + spaces((width - t.len()) as nat)
    } else {
        t
    }
}

/// Append `t` left-aligned in a field `width` characters wide.
pub fn push_padded(s: &mut String, t: &str, width: usize)
    ensures
        final(s)@ == old(s)@ + padded(t@, width as nat),
{
    let cs = chars_of(t);
    push_str(s, t);
    let mut k: usize = cs.len();
    while k < width
        invariant
            cs@ == t@,
            cs.len() <= k || width <= k,
            k <= width || k == cs.len(),
            width > cs.len() ==> s@ == old(s)@ + t@ + spaces((k - cs.len()) as nat),
            width <= cs.len() ==> s@ == old(s)@ + t@,
        decreases width - k,
    {
        let ghost before = s@;
        push_char(s, ' ');
        assert(spaces((k + 1 - cs.len()) as nat) =~= spaces((k - cs.len()) as nat).push(' '));
        assert(s@ == before.push(' '));
        k = k + 1;
    }
    proof {
        if width > cs.len() {
            assert(k == width);
        }
    }
}

/// The length of `t` in bytes, encoded as UTF-8, as a `usize`: what
/// `str::len` returns.
pub open spec fn utf8_len(t: Seq<char>) -> nat {
    (vstd::utf8::encode_utf8(t).len() as usize) as nat
}

/// The lowercase hex digit for `d`.
pub open spec fn hex_digit(d: nat) -> char {
    if d < 10 {
        (48 + d) as char
    } else {
        (87 + d) as char
    }
}

/// `n` in lowercase hex, no leading zeros, as `format!("{n:x}")` writes it.
pub open spec fn hex_num(n: nat) -> Seq<char>
    decreases n,
{
    if n < 16 {
        seq![hex_digit(n)]
    } else {
        hex_num(n / 16).push(hex_digit(n % 16))
    }
}

/// `n` as `format!("{n:#x}")` writes it: `0x` and lowercase hex.
pub open spec fn hex_addr(n: nat) -> Seq<char> {
    seq!['0', 'x'] + hex_num(n)
}

fn hex_char(d: u64) -> (c: char)
    requires
        d < 16,
    ensures
        c == hex_digit(d as nat),
{
    if d < 10 {
        (48u8 + d as u8) as char
    } else {
        (87u8 + d as u8) as char
    }
}

/// Append `n` in lowercase hex.
pub fn push_hex(s: &mut String, n: u64)
    ensures
        final(s)@ == old(s)@ + hex_num(n as nat),
    decreases n,
{
    if n >= 16 {
        push_hex(s, n / 16);
    }
    let c = hex_char(n % 16);
    push_char(s, c);
    proof {
        if n >= 16 {
            assert(old(s)@ + hex_num(n as nat) =~= old(s)@ + hex_num((n / 16) as nat) + seq![c]);
        } else {
            assert(old(s)@ + hex_num(n as nat) =~= old(s)@.push(c));
        }
    }
}

/// Append `n` as `0x` and lowercase hex.
pub fn push_hex_addr(s: &mut String, n: u64)
    ensures
        final(s)@ == old(s)@ + hex_addr(n as nat),
{
    push_char(s, '0');
    push_char(s, 'x');
    push_hex(s, n);
    assert(final(s)@ =~= old(s)@ + hex_addr(n as nat));
}

/// A byte as two lowercase hex digits, as `format!("{b:02x}")` writes it.
pub open spec fn byte_hex(b: u8) -> Seq<char> {
    seq![hex_digit((b / 16) as nat), hex_digit((b % 16) as nat)]
}

/// Bytes as two-digit hex, separated by single spaces.
pub open spec fn hex_bytes(b: Seq<u8>) -> Seq<char>
    decreases b.len(),
{
    if b.len() == 0 {
        Seq::empty()
    } else if b.len() == 1 {
        byte_hex(b[0])
    } else {
        hex_bytes(b.drop_last()) + seq![' '] + byte_hex(b.last())
    }
}

/// Append bytes as two-digit hex, separated by single spaces.
pub fn push_hex_bytes(s: &mut String, b: &[u8])
    ensures
        final(s)@ == old(s)@ + hex_bytes(b@),
{
    let mut i: usize = 0;
    while i < b.len()
        invariant
            0 <= i <= b.len(),
            s@ == old(s)@ + hex_bytes(b@.take(i as int)),
        decreases b.len() - i,
    {
        let ghost before = s@;
        if i > 0 {
            push_char(s, ' ');
        }
        let x = b[i];
        let hi = hex_char((x / 16) as u64);
        let lo = hex_char((x % 16) as u64);
        push_char(s, hi);
        push_char(s, lo);
        assert(b@.take(i + 1).drop_last() =~= b@.take(i as int));
        assert(b@.take(i + 1).last() == x);
        if i == 0 {
            assert(b@.take(1) =~= seq![x]);
            assert(s@ =~= old(s)@ + hex_bytes(b@.take(i + 1)));
        } else {
            assert(s@ =~= old(s)@ + hex_bytes(b@.take(i + 1)));
        }
        i = i + 1;
    }
    assert(b@.take(b.len() as int) =~= b@);
}

// ------------------------------------------------------------ UTF-16

/// One character in UTF-16: one unit below `U+10000`, otherwise a surrogate
/// pair.
pub open spec fn utf16_char(c: char) -> Seq<u16> {
    let x = c as u32;
    if x < 0x1_0000 {
        seq![x as u16]
    } else {
        let y = x - 0x1_0000;
        seq![(0xD800 + y / 0x400) as u16, (0xDC00 + y % 0x400) as u16]
    }
}

/// A string in UTF-16, as `str::encode_utf16` yields it.
pub open spec fn utf16(s: Seq<char>) -> Seq<u16>
    decreases s.len(),
{
    if s.len() == 0 {
        Seq::empty()
    } else {
        utf16(s.drop_last()) + utf16_char(s.last())
    }
}

/// Append a string's UTF-16 units.
pub fn push_utf16(out: &mut Vec<u16>, s: &str)
    ensures
        final(out)@ == old(out)@ + utf16(s@),
{
    let cs = chars_of(s);
    let mut i: usize = 0;
    while i < cs.len()
        invariant
            0 <= i <= cs.len(),
            cs@ == s@,
            out@ == old(out)@ + utf16(cs@.take(i as int)),
        decreases cs.len() - i,
    {
        let ghost before = out@;
        let c = cs[i];
        let x = c as u32;
        if x < 0x1_0000 {
            out.push(x as u16);
        } else {
            let y = x - 0x1_0000;
            out.push((0xD800 + y / 0x400) as u16);
            out.push((0xDC00 + y % 0x400) as u16);
        }
        assert(cs@.take(i + 1).drop_last() =~= cs@.take(i as int));
        assert(cs@.take(i + 1).last() == c);
        assert(out@ =~= before + utf16_char(c));
        i = i + 1;
    }
    assert(cs@.take(cs.len() as int) =~= cs@);
}

/// Whether a unit opens a surrogate pair.
pub open spec fn is_high_surrogate(u: u16) -> bool {
    0xD800 <= u < 0xDC00
}

/// Whether a unit closes a surrogate pair.
pub open spec fn is_low_surrogate(u: u16) -> bool {
    0xDC00 <= u < 0xE000
}

/// The code point a surrogate pair stands for.
pub open spec fn pair_value(hi: u16, lo: u16) -> u32 {
    (0x1_0000 + (hi - 0xD800) * 0x400 + (lo - 0xDC00)) as u32
}

/// UTF-16 decoded as `String::from_utf16_lossy` decodes it: a unit outside
/// the surrogate range is itself, a high surrogate followed by a low one is
/// the pair's character, and any other surrogate becomes `U+FFFD`.
pub open spec fn utf16_lossy(u: Seq<u16>) -> Seq<char>
    decreases u.len(),
{
    if u.len() == 0 {
        Seq::empty()
    } else if !is_high_surrogate(u[0]) && !is_low_surrogate(u[0]) {
        seq![u[0] as char] + utf16_lossy(u.drop_first())
    } else if is_high_surrogate(u[0]) && u.len() >= 2 && is_low_surrogate(u[1]) {
        seq![pair_value(u[0], u[1]) as char] + utf16_lossy(u.subrange(2, u.len() as int))
    } else {
        seq!['\u{FFFD}'] + utf16_lossy(u.drop_first())
    }
}

/// `char::from_u32`: the character with this code point, if it is one.
pub assume_specification[ core::char::from_u32 ](i: u32) -> (c: Option<char>)
    ensures
        c == (if i < 0xD800 || (0xE000 <= i && i <= 0x10FFFF) {
            Some(i as char)
        } else {
            None
        }),
;

/// Decode UTF-16 the way `String::from_utf16_lossy` does.
pub fn decode_utf16_lossy(u: &[u16]) -> (s: String)
    ensures
        s@ == utf16_lossy(u@),
{
    let mut s = String::new();
    let mut i: usize = 0;
    assert(u@.subrange(0, u.len() as int) =~= u@);
    assert(s@ + utf16_lossy(u@) =~= utf16_lossy(u@));
    while i < u.len()
        invariant
            0 <= i <= u.len(),
            s@ + utf16_lossy(u@.subrange(i as int, u.len() as int)) == utf16_lossy(u@),
        decreases u.len() - i,
    {
        let rest = Ghost(u@.subrange(i as int, u.len() as int));
        let a = u[i];
        if a < 0xD800 || a >= 0xE000 {
            let c = match core::char::from_u32(a as u32) {
                Some(c) => c,
                None => '\u{FFFD}',
            };
            assert(c == a as char);
            let ghost before = s@;
            push_char(&mut s, c);
            assert(rest@.drop_first() =~= u@.subrange(i + 1, u.len() as int));
            assert(before + utf16_lossy(rest@) =~= s@ + utf16_lossy(rest@.drop_first()));
            i = i + 1;
        } else if a < 0xDC00 && i + 1 < u.len() && u[i + 1] >= 0xDC00 && u[i + 1] < 0xE000 {
            let b = u[i + 1];
            let v: u32 = 0x1_0000 + ((a - 0xD800) as u32) * 0x400 + ((b - 0xDC00) as u32);
            assert(v == pair_value(a, b));
            let c = match core::char::from_u32(v) {
                Some(c) => c,
                None => '\u{FFFD}',
            };
            assert(0x1_0000 <= v <= 0x10FFFF);
            let ghost before = s@;
            push_char(&mut s, c);
            assert(rest@.subrange(2, rest@.len() as int) =~= u@.subrange(i + 2, u.len() as int));
            assert(before + utf16_lossy(rest@) =~= s@ + utf16_lossy(rest@.subrange(2, rest@.len() as int)));
            i = i + 2;
        } else {
            let ghost before = s@;
            push_char(&mut s, '\u{FFFD}');
            assert(rest@.drop_first() =~= u@.subrange(i + 1, u.len() as int));
            assert(before + utf16_lossy(rest@) =~= s@ + utf16_lossy(rest@.drop_first()));
            i = i + 1;
        }
    }
    assert(u@.subrange(u.len() as int, u.len() as int) =~= Seq::<u16>::empty());
    assert(s@ + Seq::<char>::empty() =~= s@);
    s
}

// ------------------------------------------------------------ ASCII case

/// A character with ASCII upper case folded to lower case.
pub open spec fn fold_ascii(c: char) -> char {
    if 'A' <= c && c <= 'Z' {
        ((c as u32) + 32) as char
    } else {
        c
    }
}

/// Equality ignoring ASCII case, as `str::eq_ignore_ascii_case` has it.
pub open spec fn same_ignoring_case(a: Seq<char>, b: Seq<char>) -> bool {
    a.len() == b.len() && forall|i: int| 0 <= i < a.len() ==> fold_ascii(a[i]) == fold_ascii(b[i])
}

fn fold_char(c: char) -> (r: char)
    ensures
        r == fold_ascii(c),
{
    if 'A' <= c && c <= 'Z' {
        ((c as u8) + 32) as char
    } else {
        c
    }
}

/// Whether two strings are equal ignoring ASCII case.
pub fn eq_ignore_ascii(a: &str, b: &str) -> (r: bool)
    ensures
        r == same_ignoring_case(a@, b@),
{
    let x = chars_of(a);
    let y = chars_of(b);
    if x.len() != y.len() {
        return false;
    }
    let mut i: usize = 0;
    while i < x.len()
        invariant
            x@ == a@,
            y@ == b@,
            x.len() == y.len(),
            0 <= i <= x.len(),
            forall|j: int| 0 <= j < i ==> fold_ascii(x@[j]) == fold_ascii(y@[j]),
        decreases x.len() - i,
    {
        if fold_char(x[i]) != fold_char(y[i]) {
            return false;
        }
        i = i + 1;
    }
    true
}

// ------------------------------------------------------------ joining

/// Lines, each followed by a newline.
pub open spec fn join_nl(c: Seq<Seq<char>>) -> Seq<char>
    decreases c.len(),
{
    if c.len() == 0 {
        Seq::empty()
    } else {
        c[0].push('\n') + join_nl(c.drop_first())
    }
}

/// One more line at the end.
pub proof fn lemma_join_nl_push(c: Seq<Seq<char>>, x: Seq<char>)
    ensures
        join_nl(c.push(x)) == join_nl(c) + x.push('\n'),
    decreases c.len(),
{
    if c.len() == 0 {
        assert(c.push(x).drop_first() =~= Seq::<Seq<char>>::empty());
        assert(c.push(x)[0] == x);
        assert(join_nl(c.push(x).drop_first()) == Seq::<char>::empty());
        assert(join_nl(c) == Seq::<char>::empty());
        assert(join_nl(c.push(x)) =~= join_nl(c) + x.push('\n'));
    } else {
        lemma_join_nl_push(c.drop_first(), x);
        assert(c.push(x).drop_first() =~= c.drop_first().push(x));
        assert(c.push(x)[0] == c[0]);
        assert(join_nl(c.push(x)) == c[0].push('\n') + join_nl(c.drop_first().push(x)));
        assert(join_nl(c.push(x)) =~= join_nl(c) + x.push('\n'));
    }
}

/// Two runs of lines, one after the other.
pub proof fn lemma_join_nl_concat(a: Seq<Seq<char>>, b: Seq<Seq<char>>)
    ensures
        join_nl(a + b) == join_nl(a) + join_nl(b),
    decreases a.len(),
{
    if a.len() == 0 {
        assert(a + b =~= b);
        assert(join_nl(a) + join_nl(b) =~= join_nl(b));
    } else {
        lemma_join_nl_concat(a.drop_first(), b);
        assert((a + b).drop_first() =~= a.drop_first() + b);
        assert((a + b)[0] == a[0]);
        assert(join_nl(a + b) =~= join_nl(a) + join_nl(b));
    }
}

} // verus!
