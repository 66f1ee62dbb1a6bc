//! Character-level string helpers shared by the parsers of the library.

use vstd::prelude::*;

verus! {

pub assume_specification[ String::push ](s: &mut String, ch: char)
    ensures
        final(s)@ == old(s)@.push(ch),
;

/// The characters of `s`, in order.
pub fn chars_of(s: &str) -> (v: Vec<char>)
    ensures
        v@ == s@,
{
    broadcast use vstd::string::group_string_axioms;

    let mut v: Vec<char> = Vec::new();
    for c in it: s.chars()
        invariant
            v@ == it.seq().take(it.index()),
            it.seq() == s@,
    {
        v.push(c);
        assert(it.seq().take(it.index() + 1) =~= it.seq().take(it.index()).push(c));
    }
    assert(v@ =~= s@);
    v
}

/// A string holding exactly the characters of `v`.
pub fn string_of(v: &Vec<char>) -> (s: String)
    ensures
        s@ == v@,
{
    let mut s = String::new();
    let mut i: usize = 0;
    while i < v.len()
        invariant
            i <= v.len(),
            s@ == v@.take(i as int),
        decreases v.len() - i,
    {
        s.push(v[i]);
        assert(v@.take(i as int + 1) =~= v@.take(i as int).push(v@[i as int]));
        i = i + 1;
    }
    assert(v@.take(v.len() as int) =~= v@);
    s
}

/// The character of a decimal digit `d` (`0 <= d < 10`).
pub open spec fn digit_char(d: nat) -> char {
    (48 + d) as char
}

/// The decimal notation of `n`, without sign or leading zeros.
pub open spec fn decimal(n: nat) -> Seq<char>
    decreases n,
{
    if n < 10 {
        seq![digit_char(n)]
    } else {
        decimal(n / 10).push(digit_char(n % 10))
    }
}

/// The decimal notation of `n`, padded on the left with `0` to at least two digits.
pub open spec fn decimal_two(n: nat) -> Seq<char> {
    if n < 10 {
        seq!['0'].add(decimal(n))
    } else {
        decimal(n)
    }
}

fn digit(d: u64) -> (c: char)
    requires
        d < 10,
    ensures
        c == digit_char(d as nat),
{
    let b: u8 = 48u8 + (d as u8);
    b as char
}

/// Appends the decimal notation of `n` to `out`.
pub fn push_decimal(out: &mut String, n: u64)
    ensures
        final(out)@ == old(out)@ + decimal(n as nat),
    decreases n,
{
    if n >= 10 {
        push_decimal(out, n / 10);
    }
    out.push(digit(n % 10));
    proof {
        if n >= 10 {
            assert(decimal(n as nat) == decimal((n / 10) as nat).push(digit_char((n % 10) as nat)));
        }
    }
    assert(out@ =~= old(out)@ + decimal(n as nat)) by {
        if n < 10 {
            assert(decimal(n as nat) == seq![digit_char(n as nat)]);
        }
    }
}

/// Appends `n` with at least two digits (zero padded) to `out`.
pub fn push_decimal_two(out: &mut String, n: u64)
    ensures
        final(out)@ == old(out)@ + decimal_two(n as nat),
{
    if n < 10 {
        out.push('0');
    }
    push_decimal(out, n);
    assert(out@ =~= old(out)@ + decimal_two(n as nat));
}


pub open spec fn opt_seq(o: Option<String>) -> Option<Seq<char>> {
    match o {
        Some(s) => Some(s@),
        None => None,
    }
}

/// `char::is_whitespace`: the Unicode `White_Space` property.
pub open spec fn is_ws(c: char) -> bool {
    ||| ('\u{9}' <= c && c <= '\u{d}')
    ||| c == ' '
    ||| c == '\u{85}'
    ||| c == '\u{a0}'
    ||| c == '\u{1680}'
    ||| ('\u{2000}' <= c && c <= '\u{200a}')
    ||| c == '\u{2028}'
    ||| c == '\u{2029}'
    ||| c == '\u{202f}'
    ||| c == '\u{205f}'
    ||| c == '\u{3000}'
}

pub fn is_whitespace(c: char) -> (r: bool)
    ensures
        r == is_ws(c),
{
    ('\u{9}' <= c && c <= '\u{d}') || c == ' ' || c == '\u{85}' || c == '\u{a0}' || c == '\u{1680}'
        || ('\u{2000}' <= c && c <= '\u{200a}') || c == '\u{2028}' || c == '\u{2029}' || c
        == '\u{202f}' || c == '\u{205f}' || c == '\u{3000}'
}

/// `s` without leading whitespace.
pub open spec fn trim_start(s: Seq<char>) -> Seq<char>
    decreases s.len(),
{
    if s.len() > 0 && is_ws(s[0]) {
        trim_start(s.drop_first())
    } else {
        s
    }
}

/// `s` without trailing whitespace.
pub open spec fn trim_end(s: Seq<char>) -> Seq<char>
    decreases s.len(),
{
    if s.len() > 0 && is_ws(s.last()) {
        trim_end(s.drop_last())
    } else {
        s
    }
}

/// `str::trim`: `s` without leading or trailing whitespace.
pub open spec fn trim(s: Seq<char>) -> Seq<char> {
    trim_end(trim_start(s))
}

/// The characters `v[a..b]`.
pub fn slice_chars(v: &Vec<char>, a: usize, b: usize) -> (r: Vec<char>)
    requires
        a <= b <= v@.len(),
    ensures
        r@ == v@.subrange(a as int, b as int),
{
    let mut r: Vec<char> = Vec::new();
    let mut i = a;
    while i < b
        invariant
            a <= i <= b <= v@.len(),
            r@ == v@.subrange(a as int, i as int),
        decreases b - i,
    {
        r.push(v[i]);
        assert(v@.subrange(a as int, i + 1) =~= v@.subrange(a as int, i as int).push(v@[i as int]));
        i = i + 1;
    }
    r
}

/// Trimming the start never makes a sequence longer.
pub proof fn lemma_trim_start_len(s: Seq<char>)
    ensures
        trim_start(s).len() <= s.len(),
    decreases s.len(),
{
    if s.len() > 0 && is_ws(s[0]) {
        lemma_trim_start_len(s.drop_first());
    }
}

proof fn lemma_trim_start_is_suffix(s: Seq<char>)
    ensures
        exists|k: int| 0 <= k <= s.len() && trim_start(s) == s.subrange(k, s.len() as int)
            && (forall|m: int| 0 <= m < k ==> is_ws(#[trigger] s[m])) && (k < s.len() ==> !is_ws(
            s[k],
        )),
    decreases s.len(),
{
    if s.len() > 0 && is_ws(s[0]) {
        lemma_trim_start_is_suffix(s.drop_first());
        let k = choose|k: int| 0 <= k <= s.drop_first().len() && trim_start(s.drop_first()) == s.drop_first().subrange(k, s.drop_first().len() as int)
            && (forall|m: int| 0 <= m < k ==> is_ws(#[trigger] s.drop_first()[m])) && (k < s.drop_first().len() ==> !is_ws(s.drop_first()[k]));
        assert(s.drop_first().subrange(k, s.drop_first().len() as int) =~= s.subrange(k + 1, s.len() as int));
        assert forall|m: int| 0 <= m < k + 1 implies is_ws(#[trigger] s[m]) by {
            if m > 0 {
                assert(s[m] == s.drop_first()[m - 1]);
            }
        }
    } else {
        assert(s.subrange(0, s.len() as int) =~= s);
    }
}

proof fn lemma_trim_end_is_prefix(s: Seq<char>)
    ensures
        exists|k: int| 0 <= k <= s.len() && trim_end(s) == s.subrange(0, k)
            && (forall|m: int| k <= m < s.len() ==> is_ws(#[trigger] s[m])) && (k > 0 ==> !is_ws(s[k - 1])),
    decreases s.len(),
{
    if s.len() > 0 && is_ws(s.last()) {
        lemma_trim_end_is_prefix(s.drop_last());
        let k = choose|k: int| 0 <= k <= s.drop_last().len() && trim_end(s.drop_last()) == s.drop_last().subrange(0, k)
            && (forall|m: int| k <= m < s.drop_last().len() ==> is_ws(#[trigger] s.drop_last()[m])) && (k > 0 ==> !is_ws(s.drop_last()[k - 1]));
        assert(s.drop_last().subrange(0, k) =~= s.subrange(0, k));
        assert forall|m: int| k <= m < s.len() implies is_ws(#[trigger] s[m]) by {
            if m < s.len() - 1 {
                assert(s[m] == s.drop_last()[m]);
            }
        }
    } else {
        assert(s.subrange(0, s.len() as int) =~= s);
    }
}

/// The index of the first non-whitespace character of `v` (or its length).
fn start_of_text(v: &Vec<char>) -> (k: usize)
    ensures
        k <= v@.len(),
        trim_start(v@) == v@.subrange(k as int, v@.len() as int),
{
    let mut k: usize = 0;
    assert(v@.subrange(0, v@.len() as int) =~= v@);
    while k < v.len() && is_whitespace(v[k])
        invariant
            k <= v@.len(),
            trim_start(v@) == trim_start(v@.subrange(k as int, v@.len() as int)),
        decreases v@.len() - k,
    {
        assert(v@.subrange(k as int, v@.len() as int).drop_first() =~= v@.subrange(k + 1, v@.len() as int));
        k = k + 1;
    }
    assert(trim_start(v@.subrange(k as int, v@.len() as int)) == v@.subrange(k as int, v@.len() as int));
    k
}

/// The index just past the last non-whitespace character of `v[..end]` (or 0).
fn end_of_text(v: &Vec<char>, end: usize) -> (k: usize)
    requires
        end <= v@.len(),
    ensures
        k <= end,
        trim_end(v@.subrange(0, end as int)) == v@.subrange(0, k as int),
{
    let mut k: usize = end;
    while k > 0 && is_whitespace(v[k - 1])
        invariant
            k <= end <= v@.len(),
            trim_end(v@.subrange(0, end as int)) == trim_end(v@.subrange(0, k as int)),
        decreases k,
    {
        assert(v@.subrange(0, k as int).drop_last() =~= v@.subrange(0, k - 1));
        k = k - 1;
    }
    k
}

/// `v` without leading whitespace.
pub fn trim_start_chars(v: &Vec<char>) -> (r: Vec<char>)
    ensures
        r@ == trim_start(v@),
{
    let k = start_of_text(v);
    slice_chars(v, k, v.len())
}

/// `v` without trailing whitespace.
pub fn trim_end_chars(v: &Vec<char>) -> (r: Vec<char>)
    ensures
        r@ == trim_end(v@),
{
    let k = end_of_text(v, v.len());
    assert(v@.subrange(0, v@.len() as int) =~= v@);
    slice_chars(v, 0, k)
}

/// `v` without leading or trailing whitespace.
pub fn trim_chars(v: &Vec<char>) -> (r: Vec<char>)
    ensures
        r@ == trim(v@),
{
    let a = trim_start_chars(v);
    trim_end_chars(&a)
}

/// Whether `v` holds only whitespace (or nothing).
pub fn is_blank(v: &Vec<char>) -> (r: bool)
    ensures
        r == (trim(v@).len() == 0),
{
    let k = start_of_text(v);
    proof {
        lemma_trim_end_is_prefix(trim_start(v@));
        if k < v@.len() {
            assert(!is_ws(v@[k as int])) by {
                lemma_trim_start_is_suffix(v@);
            }
            let t = trim_start(v@);
            assert(t[0] == v@[k as int]);
            let j = choose|j: int| 0 <= j <= t.len() && trim_end(t) == t.subrange(0, j)
                && (forall|m: int| j <= m < t.len() ==> is_ws(#[trigger] t[m])) && (j > 0 ==> !is_ws(t[j - 1]));
            if j == 0 {
                assert(is_ws(t[0]));
            }
        } else {
            assert(trim_start(v@).len() == 0);
            assert(trim(v@) == trim_end(trim_start(v@)));
        }
    }
    k == v.len()
}

/// `str::split` on a single character: the pieces between the occurrences of `c`.
pub open spec fn split_on(s: Seq<char>, c: char) -> Seq<Seq<char>>
    decreases s.len(),
{
    if s.len() == 0 {
        seq![Seq::empty()]
    } else {
        let rest = split_on(s.drop_last(), c);
        if s.last() == c {
            rest.push(Seq::empty())
        } else {
            rest.update(rest.len() - 1, rest.last().push(s.last()))
        }
    }
}

proof fn lemma_split_on_nonempty(s: Seq<char>, c: char)
    ensures
        split_on(s, c).len() >= 1,
    decreases s.len(),
{
    if s.len() > 0 {
        lemma_split_on_nonempty(s.drop_last(), c);
    }
}

/// Splits `v` at every `c`.
pub fn split_chars(v: &Vec<char>, c: char) -> (r: Vec<Vec<char>>)
    ensures
        r@.map_values(|p: Vec<char>| p@) == split_on(v@, c),
{
    let mut parts: Vec<Vec<char>> = Vec::new();
    let mut cur: Vec<char> = Vec::new();
    let mut i: usize = 0;
    while i < v.len()
        invariant
            i <= v@.len(),
            parts@.map_values(|p: Vec<char>| p@).push(cur@) == split_on(v@.take(i as int), c),
        decreases v@.len() - i,
    {
        proof {
            assert(v@.take(i as int + 1).drop_last() =~= v@.take(i as int));
            lemma_split_on_nonempty(v@.take(i as int), c);
        }
        if v[i] == c {
            let done = cur;
            parts.push(done);
            cur = Vec::new();
            assert(parts@.map_values(|p: Vec<char>| p@).push(cur@) =~= split_on(v@.take(i as int + 1), c));
        } else {
            let ghost before = parts@.map_values(|p: Vec<char>| p@).push(cur@);
            cur.push(v[i]);
            assert(parts@.map_values(|p: Vec<char>| p@).push(cur@) =~= before.update(before.len() - 1, before.last().push(v@[i as int])));
        }
        i = i + 1;
    }
    assert(v@.take(v@.len() as int) =~= v@);
    parts.push(cur);
    assert(parts@.map_values(|p: Vec<char>| p@) =~= split_on(v@, c));
    parts
}

/// One piece of `str::lines`: a trailing `\r` is dropped when the piece ended at a `\n`.
pub open spec fn strip_cr(p: Seq<char>) -> Seq<char> {
    if p.len() > 0 && p.last() == '\r' {
        p.drop_last()
    } else {
        p
    }
}

/// `str::lines`: the pieces between `\n`, with a `\r` before a `\n` removed; a final line
/// ending is optional and an empty string has no lines.
pub open spec fn lines(s: Seq<char>) -> Seq<Seq<char>> {
    if s.len() == 0 {
        Seq::empty()
    } else {
        let parts = split_on(s, '\n');
        if s.last() == '\n' {
            parts.drop_last().map_values(|p: Seq<char>| strip_cr(p))
        } else {
            parts.drop_last().map_values(|p: Seq<char>| strip_cr(p)).push(parts.last())
        }
    }
}

/// The lines of `v`, as `str::lines` gives them.
pub fn lines_of(v: &Vec<char>) -> (r: Vec<Vec<char>>)
    ensures
        r@.map_values(|p: Vec<char>| p@) == lines(v@),
{
    if v.len() == 0 {
        let r: Vec<Vec<char>> = Vec::new();
        assert(r@.map_values(|p: Vec<char>| p@) =~= lines(v@));
        return r;
    }
    let parts = split_chars(v, '\n');
    proof {
        lemma_split_on_nonempty(v@, '\n');
    }
    let ends_with_newline = v[v.len() - 1] == '\n';
    let n = parts.len();
    let mut out: Vec<Vec<char>> = Vec::new();
    let mut i: usize = 0;
    while i + 1 < n
        invariant
            n == parts@.len(),
            n >= 1,
            i + 1 <= n,
            parts@.map_values(|p: Vec<char>| p@) == split_on(v@, '\n'),
            out@.map_values(|p: Vec<char>| p@) == split_on(v@, '\n').take(i as int).map_values(|p: Seq<char>| strip_cr(p)),
        decreases n - i,
    {
        let p = &parts[i];
        let piece = if p.len() > 0 && p[p.len() - 1] == '\r' {
            slice_chars(p, 0, p.len() - 1)
        } else {
            slice_chars(p, 0, p.len())
        };
        proof {
            assert(parts@.map_values(|p: Vec<char>| p@)[i as int] == p@);
            assert(p@.subrange(0, p@.len() as int) =~= p@);
            assert(p@.len() > 0 ==> p@.subrange(0, p@.len() - 1) =~= p@.drop_last());
            assert(piece@ == strip_cr(split_on(v@, '\n')[i as int]));
        }
        let ghost before = out@.map_values(|p: Vec<char>| p@);
        out.push(piece);
        assert(out@.map_values(|p: Vec<char>| p@) =~= before.push(piece@));
        assert(split_on(v@, '\n').take(i + 1) =~= split_on(v@, '\n').take(i as int).push(split_on(v@, '\n')[i as int]));
        assert(out@.map_values(|p: Vec<char>| p@) =~= split_on(v@, '\n').take(i + 1).map_values(|p: Seq<char>| strip_cr(p)));
        i = i + 1;
    }
    assert(split_on(v@, '\n').take(i as int) =~= split_on(v@, '\n').drop_last());
    if !ends_with_newline {
        let last = &parts[n - 1];
        let copy = slice_chars(last, 0, last.len());
        assert(last@.subrange(0, last@.len() as int) =~= last@);
        assert(parts@.map_values(|p: Vec<char>| p@)[n - 1] == last@);
        out.push(copy);
    }
    assert(out@.map_values(|p: Vec<char>| p@) =~= lines(v@));
    out
}

/// Whether `a` and `b` hold the same characters.
pub fn str_eq(a: &str, b: &str) -> (r: bool)
    ensures
        r == (a@ == b@),
{
    let x = chars_of(a);
    let y = chars_of(b);
    if x.len() != y.len() {
        return false;
    }
    let mut i: usize = 0;
    while i < x.len()
        invariant
            x@ == a@,
            y@ == b@,
            x@.len() == y@.len(),
            i <= x@.len(),
            forall|k: int| 0 <= k < i ==> x@[k] == y@[k],
        decreases x@.len() - i,
    {
        if x[i] != y[i] {
            assert(a@[i as int] != b@[i as int]);
            return false;
        }
        i = i + 1;
    }
    assert(x@ =~= y@);
    true
}

/// Whether `a` starts with the characters of `p`.
pub fn str_starts_with(a: &str, p: &str) -> (r: bool)
    ensures
        r == (a@.len() >= p@.len() && a@.take(p@.len() as int) == p@),
{
    let x = chars_of(a);
    let y = chars_of(p);
    if x.len() < y.len() {
        return false;
    }
    let mut i: usize = 0;
    while i < y.len()
        invariant
            x@ == a@,
            y@ == p@,
            x@.len() >= y@.len(),
            i <= y@.len(),
            forall|k: int| 0 <= k < i ==> x@[k] == y@[k],
        decreases y@.len() - i,
    {
        if x[i] != y[i] {
            assert(a@.take(p@.len() as int)[i as int] == a@[i as int]);
            assert(a@.take(p@.len() as int)[i as int] != p@[i as int]);
            return false;
        }
        i = i + 1;
    }
    assert(x@.take(y@.len() as int) =~= y@);
    true
}

/// The characters of `a` after the first `n`.
pub fn str_skip(a: &str, n: usize) -> (r: String)
    requires
        n <= a@.len(),
    ensures
        r@ == a@.skip(n as int),
{
    let x = chars_of(a);
    let y = slice_chars(&x, n, x.len());
    assert(y@ =~= a@.skip(n as int));
    string_of(&y)
}

/// What `str::to_lowercase` gives for a string.
pub uninterp spec fn lowercase(s: Seq<char>) -> Seq<char>;

/// `str::to_lowercase`: the string with every character mapped to its Unicode lowercase.
#[verifier::external_body]
pub(crate) fn lowercase_of(s: &str) -> (r: String)
    ensures
        r@ == lowercase(s@),
{
    s.to_lowercase()
}

} // verus!
