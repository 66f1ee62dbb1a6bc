//! Parsing of LRC lyrics: line timestamps, and word timestamps of the enhanced formats.
//!
//! Timestamps are kept as the text of their tags (such as `01:23.45`); lines are ordered by
//! the time of their tags in milliseconds. Turning tags into seconds is left to the caller.

use vstd::prelude::*;

use crate::metadata::LrcLine;
use crate::text::{chars_of, is_whitespace, is_ws, slice_chars, string_of, trim, trim_chars, trim_start, trim_start_chars};

verus! {

/// A word of an enhanced LRC line and the timestamp tag that starts it.
#[derive(Debug, Clone)]
pub struct WordTimestamp {
    pub stamp: String,
    pub word: String,
}

impl View for WordTimestamp {
    type V = (Seq<char>, Seq<char>);

    open spec fn view(&self) -> (Seq<char>, Seq<char>) {
        (self.stamp@, self.word@)
    }
}

pub open spec fn is_digit(c: char) -> bool {
    '0' <= c && c <= '9'
}

pub open spec fn is_sign(c: char) -> bool {
    c == '+' || c == '-'
}

/// Lowercasing `c` gives `p`, for an ASCII letter or punctuation `p`.
pub open spec fn ci_eq(c: char, p: char) -> bool {
    c == p || ('A' <= c && c <= 'Z' && (c as u32) + 32 == p as u32)
}

/// `s` equals `p` when lowercased (`p` lowercase ASCII).
pub open spec fn ci_equal(s: Seq<char>, p: Seq<char>) -> bool {
    s.len() == p.len() && forall|k: int| 0 <= k < p.len() ==> ci_eq(#[trigger] s[k], p[k])
}

/// `s` starts with `p` when lowercased (`p` lowercase ASCII).
pub open spec fn ci_starts_with(s: Seq<char>, p: Seq<char>) -> bool {
    s.len() >= p.len() && forall|k: int| 0 <= k < p.len() ==> ci_eq(#[trigger] s[k], p[k])
}

/// The number of decimal digits at the start of `s`.
pub open spec fn digits_len(s: Seq<char>) -> nat
    decreases s.len(),
{
    if s.len() > 0 && is_digit(s[0]) {
        1 + digits_len(s.drop_first())
    } else {
        0
    }
}

/// `e`, an optional sign, and one or more digits.
pub open spec fn is_exponent(t: Seq<char>) -> bool {
    t.len() >= 2 && ci_eq(t[0], 'e') && {
        let u = if is_sign(t[1]) { t.skip(2) } else { t.skip(1) };
        u.len() > 0 && digits_len(u) == u.len()
    }
}

/// `Digit+ | Digit+ '.' Digit* | Digit* '.' Digit+`, then an optional exponent.
pub open spec fn is_number(t: Seq<char>) -> bool {
    let a = digits_len(t);
    let r = t.skip(a as int);
    if r.len() > 0 && r[0] == '.' {
        let b = digits_len(r.skip(1));
        let r2 = r.skip(1).skip(b as int);
        a + b >= 1 && (r2.len() == 0 || is_exponent(r2))
    } else {
        a >= 1 && (r.len() == 0 || is_exponent(r))
    }
}

/// The strings that `f64::from_str` accepts: an optional sign, then `inf`, `infinity`, `nan`
/// (in any case) or a decimal number with an optional exponent; no surrounding whitespace.
pub open spec fn is_float_literal(s: Seq<char>) -> bool {
    let t = if s.len() > 0 && is_sign(s[0]) { s.skip(1) } else { s };
    ||| ci_equal(t, seq!['i', 'n', 'f'])
    ||| ci_equal(t, seq!['i', 'n', 'f', 'i', 'n', 'i', 't', 'y'])
    ||| ci_equal(t, seq!['n', 'a', 'n'])
    ||| is_number(t)
}

/// A timestamp tag: two or three colon-separated numbers (`mm:ss.xx` or `hh:mm:ss`).
pub open spec fn is_timestamp(tag: Seq<char>) -> bool {
    let parts = crate::text::split_on(tag, ':');
    (parts.len() == 2 || parts.len() == 3) && forall|k: int| 0 <= k < parts.len() ==> is_float_literal(#[trigger] parts[k])
}

fn ci_eq_exec(c: char, p: char) -> (r: bool)
    ensures
        r == ci_eq(c, p),
{
    c == p || ('A' <= c && c <= 'Z' && (c as u32) + 32 == p as u32)
}

/// Whether `v[start..]` equals `p` when lowercased.
fn ci_equal_from(v: &Vec<char>, start: usize, p: &[char]) -> (r: bool)
    requires
        start <= v@.len(),
    ensures
        r == ci_equal(v@.skip(start as int), p@),
{
    if v.len() - start != p.len() {
        return false;
    }
    let mut k: usize = 0;
    while k < p.len()
        invariant
            start <= v@.len(),
            v@.len() - start == p@.len(),
            v@.len() <= usize::MAX,
            k <= p@.len(),
            forall|m: int| 0 <= m < k ==> ci_eq(#[trigger] v@.skip(start as int)[m], p@[m]),
        decreases p@.len() - k,
    {
        assert(v@.skip(start as int)[k as int] == v@[start + k]);
        if !ci_eq_exec(v[start + k], p[k]) {
            return false;
        }
        k = k + 1;
    }
    true
}

/// Whether `v` starts with `p` when lowercased.
fn ci_starts_with_exec(v: &Vec<char>, p: &Vec<char>) -> (r: bool)
    ensures
        r == ci_starts_with(v@, p@),
{
    if v.len() < p.len() {
        return false;
    }
    let mut k: usize = 0;
    while k < p.len()
        invariant
            v@.len() >= p@.len(),
            k <= p@.len(),
            forall|m: int| 0 <= m < k ==> ci_eq(#[trigger] v@[m], p@[m]),
        decreases p@.len() - k,
    {
        if !ci_eq_exec(v[k], p[k]) {
            return false;
        }
        k = k + 1;
    }
    true
}

proof fn lemma_digits_len_bound(s: Seq<char>)
    ensures
        digits_len(s) <= s.len(),
        forall|k: int| 0 <= k < digits_len(s) ==> is_digit(#[trigger] s[k]),
        digits_len(s) < s.len() ==> !is_digit(s[digits_len(s) as int]),
    decreases s.len(),
{
    if s.len() > 0 && is_digit(s[0]) {
        lemma_digits_len_bound(s.drop_first());
        assert forall|k: int| 0 <= k < digits_len(s) implies is_digit(#[trigger] s[k]) by {
            if k > 0 {
                assert(s[k] == s.drop_first()[k - 1]);
            }
        }
    }
}

/// The index where the run of digits starting at `start` ends.
fn skip_digits(v: &Vec<char>, start: usize) -> (r: usize)
    requires
        start <= v@.len(),
    ensures
        start <= r <= v@.len(),
        r - start == digits_len(v@.skip(start as int)),
{
    let mut k = start;
    while k < v.len() && '0' <= v[k] && v[k] <= '9'
        invariant
            start <= k <= v@.len(),
            digits_len(v@.skip(start as int)) == (k - start) + digits_len(v@.skip(k as int)),
        decreases v@.len() - k,
    {
        assert(v@.skip(k as int).drop_first() =~= v@.skip(k + 1));
        k = k + 1;
    }
    r_digits_end(v, start, k)
}

fn r_digits_end(v: &Vec<char>, start: usize, k: usize) -> (r: usize)
    requires
        start <= k <= v@.len(),
        digits_len(v@.skip(start as int)) == (k - start) + digits_len(v@.skip(k as int)),
        !(k < v@.len() && is_digit(v@[k as int])),
    ensures
        r == k,
        r - start == digits_len(v@.skip(start as int)),
{
    if k < v.len() {
        assert(v@.skip(k as int)[0] == v@[k as int]);
    }
    k
}

fn is_exponent_at(v: &Vec<char>, start: usize) -> (r: bool)
    requires
        start <= v@.len(),
    ensures
        r == is_exponent(v@.skip(start as int)),
{
    let ghost t = v@.skip(start as int);
    if v.len() - start < 2 {
        return false;
    }
    if !ci_eq_exec(v[start], 'e') {
        return false;
    }
    let u_start = if v[start + 1] == '+' || v[start + 1] == '-' { start + 2 } else { start + 1 };
    assert(t.skip(if is_sign(t[1]) { 2int } else { 1int }) =~= v@.skip(u_start as int));
    if u_start >= v.len() {
        return false;
    }
    let e = skip_digits(v, u_start);
    e == v.len()
}

/// Whether `v[start..]` is a number in the sense of `is_number`.
fn is_number_at(v: &Vec<char>, start: usize) -> (r: bool)
    requires
        start <= v@.len(),
    ensures
        r == is_number(v@.skip(start as int)),
{
    let ghost t = v@.skip(start as int);
    let a_end = skip_digits(v, start);
    let a = a_end - start;
    assert(t.skip(a as int) =~= v@.skip(a_end as int));
    if a_end < v.len() && v[a_end] == '.' {
        let b_end = skip_digits(v, a_end + 1);
        let b = b_end - (a_end + 1);
        assert(t.skip(a as int).skip(1) =~= v@.skip(a_end + 1));
        assert(t.skip(a as int).skip(1).skip(b as int) =~= v@.skip(b_end as int));
        a + b >= 1 && (b_end == v.len() || is_exponent_at(v, b_end))
    } else {
        a >= 1 && (a_end == v.len() || is_exponent_at(v, a_end))
    }
}

/// Whether `f64::from_str` accepts the characters `v`.
pub fn float_literal(v: &Vec<char>) -> (r: bool)
    ensures
        r == is_float_literal(v@),
{
    let start: usize = if v.len() > 0 && (v[0] == '+' || v[0] == '-') { 1 } else { 0 };
    assert(v@.skip(0) =~= v@);
    ci_equal_from(v, start, &['i', 'n', 'f']) || ci_equal_from(v, start, &['i', 'n', 'f', 'i', 'n', 'i', 't', 'y'])
        || ci_equal_from(v, start, &['n', 'a', 'n']) || is_number_at(v, start)
}

/// Whether the characters `v` form a timestamp tag (see `is_timestamp`).
pub fn timestamp_chars(v: &Vec<char>) -> (r: bool)
    ensures
        r == is_timestamp(v@),
{
    let parts = crate::text::split_chars(v, ':');
    if parts.len() != 2 && parts.len() != 3 {
        return false;
    }
    let mut k: usize = 0;
    while k < parts.len()
        invariant
            k <= parts@.len(),
            parts@.map_values(|p: Vec<char>| p@) == crate::text::split_on(v@, ':'),
            forall|m: int| 0 <= m < k ==> is_float_literal(#[trigger] crate::text::split_on(v@, ':')[m]),
        decreases parts@.len() - k,
    {
        assert(parts@.map_values(|p: Vec<char>| p@)[k as int] == parts@[k as int]@);
        if !float_literal(&parts[k]) {
            return false;
        }
        k = k + 1;
    }
    true
}

/// Whether `ts` is a timestamp: `mm:ss.xx`, `hh:mm:ss` and the like, where each part is a
/// number that `f64::from_str` accepts.
pub fn is_timestamp_str(ts: &str) -> (r: bool)
    ensures
        r == is_timestamp(ts@),
{
    let v = chars_of(ts);
    timestamp_chars(&v)
}

/// The state of the word tokenizer of a line body.
pub struct TokState {
    /// Words found so far, each with its timestamp tag.
    pub words: Seq<(Seq<char>, Seq<char>)>,
    /// The text with timestamp and karaoke tags removed.
    pub clean: Seq<char>,
    /// Whether any timestamp tag was seen.
    pub explicit: bool,
    /// The word being read.
    pub word: Seq<char>,
    /// The timestamp of the word being read.
    pub cur: Option<Seq<char>>,
    /// A timestamp seen inside the word being read, for the next word.
    pub pending: Option<Seq<char>>,
}

pub open spec fn opt_chars(o: Option<Vec<char>>) -> Option<Seq<char>> {
    match o {
        Some(x) => Some(x@),
        None => None,
    }
}

pub open spec fn tok_init() -> TokState {
    TokState { words: Seq::empty(), clean: Seq::empty(), explicit: false, word: Seq::empty(), cur: None, pending: None }
}

pub open spec fn closing_of(c: char) -> char {
    if c == '<' {
        '>'
    } else if c == '[' {
        ']'
    } else if c == '(' {
        ')'
    } else {
        '}'
    }
}

/// A tag may open at `i`: `<`, `[`, `(`, or `{` followed by a backslash.
pub open spec fn opens_tag(s: Seq<char>, i: int) -> bool {
    let c = s[i];
    c == '<' || c == '[' || c == '(' || (c == '{' && i + 1 < s.len() && s[i + 1] == '\\')
}

/// The first index at or after `from` that holds `c`, or the length of `s`.
pub open spec fn find_char(s: Seq<char>, from: int, c: char) -> int
    decreases s.len() - from,
{
    if from >= s.len() {
        s.len() as int
    } else if s[from] == c {
        from
    } else {
        find_char(s, from + 1, c)
    }
}

/// The search for `c` from `from` stops at the first `c`, or at the end.
pub proof fn lemma_find_char(s: Seq<char>, from: int, c: char)
    requires
        0 <= from,
    ensures
        from <= find_char(s, from, c) || (from > s.len() && find_char(s, from, c) == s.len()),
        find_char(s, from, c) <= s.len() || find_char(s, from, c) == from,
        find_char(s, from, c) < s.len() ==> s[find_char(s, from, c)] == c,
        forall|k: int| from <= k < find_char(s, from, c) && k < s.len() ==> s[k] != c,
    decreases s.len() - from,
{
    if from < s.len() && s[from] != c {
        lemma_find_char(s, from + 1, c);
    }
}

/// A karaoke timing tag such as `\k50` (checked after trimming).
pub open spec fn is_karaoke(t: Seq<char>) -> bool {
    t.len() >= 2 && t[0] == '\\' && (t[1] == 'k' || t[1] == 'K')
}

/// The timestamp part of a tag's trimmed content: for a `(start,duration)` tag, the start.
pub open spec fn stamp_part(open: char, t: Seq<char>) -> Seq<char> {
    let k = find_char(t, 0, ',');
    if open == '(' && k < t.len() {
        trim(t.take(k))
    } else {
        t
    }
}

/// The tag opening at `i`, if it is a timestamp tag (with its timestamp) or a karaoke tag
/// (without), and the index just past it.
pub open spec fn tag_at(s: Seq<char>, i: int) -> Option<(int, Option<Seq<char>>)> {
    if opens_tag(s, i) {
        let j = find_char(s, i + 1, closing_of(s[i]));
        if j < s.len() {
            let t = trim(s.subrange(i + 1, j));
            let ts = stamp_part(s[i], t);
            if is_timestamp(ts) {
                Some((j + 1, Some(ts)))
            } else if is_karaoke(t) {
                Some((j + 1, None))
            } else {
                None
            }
        } else {
            None
        }
    } else {
        None
    }
}

/// The timestamp of the word being read: its own, else one seen inside it, else the line's.
pub open spec fn word_time(st: TokState, line_start: Seq<char>) -> Seq<char> {
    match st.cur {
        Some(t) => t,
        None => match st.pending {
            Some(p) => p,
            None => line_start,
        },
    }
}

/// One step of the tokenizer at index `i`: the new state and the next index.
pub open spec fn tok_step(s: Seq<char>, i: int, st: TokState, line_start: Seq<char>) -> (TokState, int) {
    match tag_at(s, i) {
        Some((next, Some(t))) => (
            TokState {
                explicit: true,
                cur: if st.cur is None { Some(t) } else { st.cur },
                pending: if st.cur is None { st.pending } else { Some(t) },
                ..st
            },
            next,
        ),
        Some((next, None)) => (st, next),
        None => {
            let c = s[i];
            if is_ws(c) {
                let w = st.word.push(c);
                (
                    TokState {
                        words: if trim(w).len() > 0 { st.words.push((word_time(st, line_start), w)) } else { st.words },
                        clean: st.clean.push(c),
                        explicit: st.explicit,
                        word: Seq::empty(),
                        cur: st.pending,
                        pending: None,
                    },
                    i + 1,
                )
            } else {
                (TokState { word: st.word.push(c), clean: st.clean.push(c), ..st }, i + 1)
            }
        },
    }
}

/// Each step of the tokenizer consumes at least one character.
pub proof fn lemma_tok_step_advances(s: Seq<char>, i: int, st: TokState, line_start: Seq<char>)
    requires
        0 <= i < s.len(),
    ensures
        i < tok_step(s, i, st, line_start).1 <= s.len(),
{
    if opens_tag(s, i) {
        lemma_find_char(s, i + 1, closing_of(s[i]));
    }
}

/// The tokenizer run from index `i` in state `st` to the end of `s`.
pub open spec fn tok_scan(s: Seq<char>, i: int, st: TokState, line_start: Seq<char>) -> TokState
    decreases s.len() - i,
{
    if i < 0 || i >= s.len() {
        st
    } else {
        let (st2, next) = tok_step(s, i, st, line_start);
        proof {
            lemma_tok_step_advances(s, i, st, line_start);
        }
        tok_scan(s, next, st2, line_start)
    }
}

/// The clean text and the timed words of a line body. Timestamp tags `<..>`, `[..]`,
/// `(..)` and karaoke tags `{\k..}` are removed from the text; each word takes the timestamp
/// tag before it (or inside it), or `line_start`. Words are kept only when the line has a
/// timestamp tag of its own.
pub open spec fn line_tokens(s: Seq<char>, line_start: Seq<char>) -> (Seq<char>, Seq<(Seq<char>, Seq<char>)>) {
    let st = tok_scan(s, 0, tok_init(), line_start);
    let words = if trim(st.word).len() > 0 { st.words.push((word_time(st, line_start), st.word)) } else { st.words };
    (trim(st.clean), if st.explicit { words } else { Seq::empty() })
}

/// The index of the first `c` at or after `from` in `v`, or the length of `v`.
fn find_char_exec(v: &Vec<char>, from: usize, c: char) -> (r: usize)
    requires
        from <= v@.len(),
    ensures
        r == find_char(v@, from as int, c),
        from <= r <= v@.len(),
{
    let mut j = from;
    while j < v.len() && v[j] != c
        invariant
            from <= j <= v@.len(),
            find_char(v@, from as int, c) == find_char(v@, j as int, c),
        decreases v@.len() - j,
    {
        j = j + 1;
    }
    j
}

/// The tag at `i`, computed (see `tag_at`).
fn tag_at_exec(v: &Vec<char>, i: usize) -> (r: Option<(usize, Option<Vec<char>>)>)
    requires
        i < v@.len(),
    ensures
        match tag_at(v@, i as int) {
            Some((next, t)) => r matches Some((n2, t2)) && n2 == next && match t {
                Some(ts) => t2 matches Some(x) && x@ == ts,
                None => t2 is None,
            },
            None => r is None,
        },
{
    let n = v.len();
    let ch = v[i];
    if ch == '<' || ch == '[' || ch == '(' || (ch == '{' && i + 1 < n && v[i + 1] == '\\') {
        let closing = if ch == '<' {
            '>'
        } else if ch == '[' {
            ']'
        } else if ch == '(' {
            ')'
        } else {
            '}'
        };
        let j = find_char_exec(v, i + 1, closing);
        if j < v.len() {
            let inner = slice_chars(v, i + 1, j);
            let t = trim_chars(&inner);
            let k = find_char_exec(&t, 0, ',');
            let ts = if ch == '(' && k < t.len() {
                let head = slice_chars(&t, 0, k);
                assert(head@ =~= t@.take(k as int));
                trim_chars(&head)
            } else {
                slice_chars(&t, 0, t.len())
            };
            assert(t@.subrange(0, t@.len() as int) =~= t@);
            if timestamp_chars(&ts) {
                return Some((j + 1, Some(ts)));
            } else if t.len() >= 2 && t[0] == '\\' && (t[1] == 'k' || t[1] == 'K') {
                return Some((j + 1, None));
            }
        }
    }
    None
}

/// Splits a line body into clean text and timed words (see `line_tokens`). Supports
/// `<mm:ss.xx>`, `[mm:ss.xx]`, `(mm:ss.xx,duration)` word timestamps and `{\k..}`
/// karaoke tags; a word split by timestamps inside it (syllable timing) stays one word.
pub fn parse_line_tokens(line_body: &str, line_start: &str) -> (r: (String, Vec<WordTimestamp>))
    ensures
        r.0@ == line_tokens(line_body@, line_start@).0,
        r.1@.map_values(|w: WordTimestamp| w@) == line_tokens(line_body@, line_start@).1,
{
    let chars = chars_of(line_body);
    let start_stamp = chars_of(line_start);
    let ghost s = chars@;
    let ghost ls = start_stamp@;
    let len = chars.len();
    let mut words: Vec<WordTimestamp> = Vec::new();
    let mut clean: Vec<char> = Vec::new();
    let mut explicit = false;
    let mut word: Vec<char> = Vec::new();
    let mut cur: Option<Vec<char>> = None;
    let mut pending: Option<Vec<char>> = None;
    let mut i: usize = 0;
    assert(words@.map_values(|w: WordTimestamp| w@) =~= Seq::<(Seq<char>, Seq<char>)>::empty());
    while i < len
        invariant
            len == s.len(),
            s == chars@,
            ls == start_stamp@,
            i <= len,
            tok_scan(s, i as int, TokState {
                words: words@.map_values(|w: WordTimestamp| w@),
                clean: clean@,
                explicit,
                word: word@,
                cur: opt_chars(cur),
                pending: opt_chars(pending),
            }, ls) == tok_scan(s, 0, tok_init(), ls),
        decreases len - i,
    {
        let ghost st = TokState {
            words: words@.map_values(|w: WordTimestamp| w@),
            clean: clean@,
            explicit,
            word: word@,
            cur: opt_chars(cur),
            pending: opt_chars(pending),
        };
        let ghost step = tok_step(s, i as int, st, ls);
        proof {
            lemma_tok_step_advances(s, i as int, st, ls);
        }
        match tag_at_exec(&chars, i) {
            Some((next, Some(t))) => {
                explicit = true;
                if cur.is_none() {
                    cur = Some(t);
                } else {
                    pending = Some(t);
                }
                i = next;
            },
            Some((next, None)) => {
                i = next;
            },
            None => {
                let ch = chars[i];
                if is_whitespace(ch) {
                    word.push(ch);
                    clean.push(ch);
                    let stamp = match &cur {
                        Some(x) => string_of(x),
                        None => match &pending {
                            Some(p) => string_of(p),
                            None => string_of(&start_stamp),
                        },
                    };
                    let ghost words_before = words@.map_values(|w: WordTimestamp| w@);
                    if !crate::text::is_blank(&word) {
                        let w = string_of(&word);
                        words.push(WordTimestamp { stamp, word: w });
                        assert(words@.map_values(|w: WordTimestamp| w@) =~= words_before.push((word_time(st, ls), st.word.push(ch))));
                    }
                    word = Vec::new();
                    cur = pending;
                    pending = None;
                } else {
                    word.push(ch);
                    clean.push(ch);
                }
                i = i + 1;
            },
        }
        proof {
            let st2 = TokState {
                words: words@.map_values(|w: WordTimestamp| w@),
                clean: clean@,
                explicit,
                word: word@,
                cur: opt_chars(cur),
                pending: opt_chars(pending),
            };
            assert(st2 == step.0);
            assert(i == step.1);
        }
    }
    let ghost st = TokState {
        words: words@.map_values(|w: WordTimestamp| w@),
        clean: clean@,
        explicit,
        word: word@,
        cur: opt_chars(cur),
        pending: opt_chars(pending),
    };
    assert(tok_scan(s, i as int, st, ls) == st);
    if !crate::text::is_blank(&word) {
        let stamp = match &cur {
            Some(x) => string_of(x),
            None => match &pending {
                Some(p) => string_of(p),
                None => string_of(&start_stamp),
            },
        };
        let w = string_of(&word);
        let ghost before = words@.map_values(|w: WordTimestamp| w@);
        words.push(WordTimestamp { stamp, word: w });
        assert(words@.map_values(|w: WordTimestamp| w@) =~= before.push((word_time(st, ls), st.word)));
    }
    if !explicit {
        words = Vec::new();
        assert(words@.map_values(|w: WordTimestamp| w@) =~= Seq::<(Seq<char>, Seq<char>)>::empty());
    }
    let clean_trimmed = trim_chars(&clean);
    (string_of(&clean_trimmed), words)
}

/// Complete lyrics data for a track, in the order of the source: each timed line with the
/// timestamp tag it was written with, and, for enhanced LRC, its timed words.
#[derive(Debug, Clone)]
pub struct LyricsData {
    pub lines: Vec<LrcLine>,
    pub is_timed: bool,
    /// Per-line word timestamps (only for enhanced LRC).
    pub word_timestamps: Vec<Vec<WordTimestamp>>,
}

/// One entry of parsed lyrics: timestamp tag, clean text, timed words.
pub type LyricEntry = (Seq<char>, Seq<char>, Seq<(Seq<char>, Seq<char>)>);

impl LyricsData {
    /// The entries of the lyrics, in order.
    pub open spec fn entries(self) -> Seq<LyricEntry> {
        Seq::new(
            self.lines@.len(),
            |i: int|
                (
                    self.lines@[i].stamp@,
                    self.lines@[i].text@,
                    self.word_timestamps@[i]@.map_values(|w: WordTimestamp| w@),
                ),
        )
    }

    /// Whether some line has word timestamps.
    pub fn has_word_timestamps(&self) -> (r: bool)
        ensures
            r == exists|i: int| 0 <= i < self.word_timestamps@.len() && #[trigger] self.word_timestamps@[i]@.len() > 0,
    {
        let mut i: usize = 0;
        while i < self.word_timestamps.len()
            invariant
                i <= self.word_timestamps@.len(),
                forall|k: int| 0 <= k < i ==> #[trigger] self.word_timestamps@[k]@.len() == 0,
            decreases self.word_timestamps@.len() - i,
        {
            if self.word_timestamps[i].len() > 0 {
                return true;
            }
            i = i + 1;
        }
        false
    }
}

/// The leading timestamp tags `[..]` of a line and what follows them: tags are read while
/// the rest starts with `[`, has a `]`, and the trimmed content is a timestamp.
pub open spec fn leading_stamps(rem: Seq<char>) -> (Seq<Seq<char>>, Seq<char>)
    decreases rem.len(),
{
    if rem.len() > 0 && rem[0] == '[' {
        let close = find_char(rem, 0, ']');
        if close < rem.len() {
            let tag = trim(rem.subrange(1, close));
            if is_timestamp(tag) {
                proof {
                    lemma_find_char(rem, 0, ']');
                    crate::text::lemma_trim_start_len(rem.subrange(close + 1, rem.len() as int));
                }
                let (ts, r) = leading_stamps(trim_start(rem.subrange(close + 1, rem.len() as int)));
                (seq![tag] + ts, r)
            } else {
                (Seq::empty(), rem)
            }
        } else {
            (Seq::empty(), rem)
        }
    } else {
        (Seq::empty(), rem)
    }
}

/// The metadata tags whose lines are skipped: artist, title, album, author, offset, tool,
/// version, length, id, language.
pub open spec fn is_metadata_line(line: Seq<char>) -> bool {
    ||| ci_starts_with(line, "[ar:"@)
    ||| ci_starts_with(line, "[ti:"@)
    ||| ci_starts_with(line, "[al:"@)
    ||| ci_starts_with(line, "[by:"@)
    ||| ci_starts_with(line, "[offset:"@)
    ||| ci_starts_with(line, "[re:"@)
    ||| ci_starts_with(line, "[ve:"@)
    ||| ci_starts_with(line, "[length:"@)
    ||| ci_starts_with(line, "[id:"@)
    ||| ci_starts_with(line, "[la:"@)
}

/// The entries a raw line gives: one per leading timestamp, all with the same text and words.
pub open spec fn line_entries(raw: Seq<char>) -> Seq<LyricEntry> {
    let line = trim(raw);
    if line.len() == 0 || is_metadata_line(line) || line[0] != '[' {
        Seq::empty()
    } else {
        let (ts, rem) = leading_stamps(line);
        if ts.len() == 0 {
            Seq::empty()
        } else {
            let (clean, words) = line_tokens(rem, ts[0]);
            if clean.len() == 0 && words.len() == 0 {
                Seq::empty()
            } else {
                ts.map_values(|t: Seq<char>| (t, clean, words))
            }
        }
    }
}

/// The entries of LRC content, line by line.
pub open spec fn lrc_entries(content: Seq<char>) -> Seq<LyricEntry> {
    crate::text::lines(content).map_values(|l: Seq<char>| line_entries(l)).flatten()
}

fn is_metadata_line_exec(line: &Vec<char>) -> (r: bool)
    ensures
        r == is_metadata_line(line@),
{
    ci_starts_with_exec(line, &chars_of("[ar:")) || ci_starts_with_exec(line, &chars_of("[ti:"))
        || ci_starts_with_exec(line, &chars_of("[al:")) || ci_starts_with_exec(line, &chars_of("[by:"))
        || ci_starts_with_exec(line, &chars_of("[offset:")) || ci_starts_with_exec(line, &chars_of("[re:"))
        || ci_starts_with_exec(line, &chars_of("[ve:")) || ci_starts_with_exec(line, &chars_of("[length:"))
        || ci_starts_with_exec(line, &chars_of("[id:")) || ci_starts_with_exec(line, &chars_of("[la:"))
}

/// Reads the leading timestamp tags of `line` (see `leading_stamps`).
fn leading_stamps_exec(line: &Vec<char>) -> (r: (Vec<Vec<char>>, Vec<char>))
    ensures
        r.0@.map_values(|t: Vec<char>| t@) == leading_stamps(line@).0,
        r.1@ == leading_stamps(line@).1,
{
    let mut stamps: Vec<Vec<char>> = Vec::new();
    let mut rem: Vec<char> = slice_chars(line, 0, line.len());
    assert(line@.subrange(0, line@.len() as int) =~= line@);
    assert(stamps@.map_values(|t: Vec<char>| t@) =~= Seq::<Seq<char>>::empty());
    loop
        invariant
            stamps@.map_values(|t: Vec<char>| t@) + leading_stamps(rem@).0 == leading_stamps(line@).0,
            leading_stamps(rem@).1 == leading_stamps(line@).1,
        decreases rem@.len(),
    {
        if rem.len() == 0 || rem[0] != '[' {
            assert(stamps@.map_values(|t: Vec<char>| t@) =~= leading_stamps(line@).0);
            return (stamps, rem);
        }
        let close = find_char_exec(&rem, 0, ']');
        proof {
            lemma_find_char(rem@, 0, ']');
        }
        if close >= rem.len() {
            assert(stamps@.map_values(|t: Vec<char>| t@) =~= leading_stamps(line@).0);
            return (stamps, rem);
        }
        let inner = slice_chars(&rem, 1, close);
        let tag = trim_chars(&inner);
        if !timestamp_chars(&tag) {
            assert(stamps@.map_values(|t: Vec<char>| t@) =~= leading_stamps(line@).0);
            return (stamps, rem);
        }
        let after = slice_chars(&rem, close + 1, rem.len());
        let next = trim_start_chars(&after);
        proof {
            crate::text::lemma_trim_start_len(rem@.subrange(close + 1, rem@.len() as int));
        }
        let ghost before = stamps@.map_values(|t: Vec<char>| t@);
        let ghost tag_view = tag@;
        stamps.push(tag);
        assert(stamps@.map_values(|t: Vec<char>| t@) =~= before.push(tag_view));
        assert(before + leading_stamps(rem@).0 =~= before.push(tag_view) + leading_stamps(next@).0);
        rem = next;
    }
}

/// The largest time key: keys saturate there.
pub open spec fn key_cap() -> int {
    u64::MAX as int
}

/// `x`, but no more than the largest time key.
pub open spec fn capped(x: int) -> int {
    if x > key_cap() {
        key_cap()
    } else {
        x
    }
}

pub open spec fn all_digits(s: Seq<char>) -> bool {
    forall|i: int| 0 <= i < s.len() ==> is_digit(#[trigger] s[i])
}

/// The value of a string of decimal digits.
pub open spec fn digits_value(s: Seq<char>) -> int
    decreases s.len(),
{
    if s.len() == 0 {
        0
    } else {
        digits_value(s.drop_last()) * 10 + (s.last() as int - 48)
    }
}

/// Thousandths of the fraction digits `f` (digits past the third are dropped).
pub open spec fn fraction_millis(f: Seq<char>) -> int {
    let d = |i: int| if i < f.len() { f[i] as int - 48 } else { 0 };
    d(0) * 100 + d(1) * 10 + d(2)
}

/// A plain decimal part of a timestamp: digits, optionally followed by `.` and digits, with
/// at least one digit.
pub open spec fn plain_part(p: Seq<char>) -> bool {
    let q = crate::text::split_on(p, '.');
    ||| q.len() == 1 && q[0].len() > 0 && all_digits(q[0])
    ||| q.len() == 2 && all_digits(q[0]) && all_digits(q[1]) && q[0].len() + q[1].len() > 0
}

/// The value of a part of a timestamp in thousandths, to the thousandth below; a part that
/// is not a plain decimal (a sign, an exponent, `inf`, `nan`) counts as 0.
pub open spec fn part_millis(p: Seq<char>) -> int {
    let q = crate::text::split_on(p, '.');
    if plain_part(p) {
        digits_value(q[0]) * 1000 + if q.len() == 2 { fraction_millis(q[1]) } else { 0 }
    } else {
        0
    }
}

/// The time of a timestamp tag (`mm:ss.xx` or `hh:mm:ss.xx`) in milliseconds, to the
/// millisecond below, as the sum of its parts: hours, minutes and seconds.
pub open spec fn stamp_millis(stamp: Seq<char>) -> int {
    let q = crate::text::split_on(stamp, ':');
    if q.len() == 2 {
        part_millis(q[0]) * 60 + part_millis(q[1])
    } else if q.len() == 3 {
        part_millis(q[0]) * 3600 + part_millis(q[1]) * 60 + part_millis(q[2])
    } else {
        0
    }
}

/// The key by which lines are ordered: the time of their timestamp in milliseconds,
/// saturating at the largest `u64`.
pub open spec fn time_key(stamp: Seq<char>) -> int {
    capped(stamp_millis(stamp))
}

/// A piece without `c` is not split.
proof fn lemma_split_none(s: Seq<char>, c: char)
    requires
        forall|i: int| 0 <= i < s.len() ==> s[i] != c,
    ensures
        crate::text::split_on(s, c) == seq![s],
    decreases s.len(),
{
    if s.len() > 0 {
        lemma_split_none(s.drop_last(), c);
        assert(s.drop_last().push(s.last()) =~= s);
        assert(seq![s.drop_last()].update(0, s.drop_last().push(s.last())) =~= seq![s]);
    } else {
        assert(s =~= Seq::<char>::empty());
    }
}

/// Splitting `a`, `c`, `b` where `b` holds no `c`: the pieces of `a`, then `b`.
proof fn lemma_split_after(a: Seq<char>, b: Seq<char>, c: char)
    requires
        forall|i: int| 0 <= i < b.len() ==> b[i] != c,
    ensures
        crate::text::split_on(a.push(c) + b, c) == crate::text::split_on(a, c).push(b),
    decreases b.len(),
{
    if b.len() == 0 {
        assert(a.push(c) + b =~= a.push(c));
        assert((a.push(c)).drop_last() =~= a);
        assert(b =~= Seq::<char>::empty());
    } else {
        let b0 = b.drop_last();
        lemma_split_after(a, b0, c);
        assert((a.push(c) + b).drop_last() =~= a.push(c) + b0);
        assert((a.push(c) + b).last() == b.last());
        let r = crate::text::split_on(a, c);
        assert(b0.push(b.last()) =~= b);
        assert(r.push(b0).update(r.len() as int, b0.push(b.last())) =~= r.push(b));
    }
}

/// A timestamp `mm:ss.ff` of decimal digits is `mm` minutes, `ss` seconds and the fraction
/// `ff` in thousandths (its first three digits): for `01:02.50`, 62 500 milliseconds.
pub proof fn lemma_stamp_millis(m: Seq<char>, sec: Seq<char>, f: Seq<char>)
    requires
        m.len() > 0,
        all_digits(m),
        all_digits(sec),
        all_digits(f),
        sec.len() + f.len() > 0,
    ensures
        stamp_millis(m + ":"@ + sec + "."@ + f) == digits_value(m) * 60000 + digits_value(sec) * 1000
            + fraction_millis(f),
{
    reveal_strlit(":");
    reveal_strlit(".");
    let frac = sec.push('.') + f;
    let stamp = m + ":"@ + sec + "."@ + f;
    assert(stamp =~= m.push(':') + frac);
    assert(sec + "."@ + f =~= frac);
    assert forall|i: int| 0 <= i < frac.len() implies frac[i] != ':' by {
        if i < sec.len() {
            assert(is_digit(sec[i]));
        } else if i > sec.len() {
            assert(frac[i] == f[i - sec.len() - 1]);
            assert(is_digit(f[i - sec.len() - 1]));
        }
    }
    assert forall|i: int| 0 <= i < m.len() implies m[i] != ':' && m[i] != '.' by {
        assert(is_digit(m[i]));
    }
    assert forall|i: int| 0 <= i < f.len() implies f[i] != '.' by {
        assert(is_digit(f[i]));
    }
    assert forall|i: int| 0 <= i < sec.len() implies sec[i] != '.' by {
        assert(is_digit(sec[i]));
    }
    lemma_split_none(m, ':');
    lemma_split_after(m, frac, ':');
    assert(crate::text::split_on(stamp, ':') =~= seq![m, frac]);
    lemma_split_none(m, '.');
    lemma_split_none(sec, '.');
    lemma_split_after(sec, f, '.');
    assert(crate::text::split_on(frac, '.') =~= seq![sec, f]);
    assert(part_millis(m) == digits_value(m) * 1000);
    assert(part_millis(frac) == digits_value(sec) * 1000 + fraction_millis(f));
}

proof fn lemma_digits_nonneg(s: Seq<char>)
    requires
        all_digits(s),
    ensures
        digits_value(s) >= 0,
    decreases s.len(),
{
    if s.len() > 0 {
        lemma_digits_nonneg(s.drop_last());
    }
}

proof fn lemma_capped_mul_add(a: int, m: int, b: int)
    requires
        a >= 0,
        b >= 0,
        m >= 1,
    ensures
        capped(a * m + b) == capped(capped(a) * m + capped(b)),
{
    if a > key_cap() {
        assert(a * m >= a) by (nonlinear_arith)
            requires
                a >= 0,
                m >= 1,
        ;
        assert(key_cap() * m >= key_cap()) by (nonlinear_arith)
            requires
                m >= 1,
        ;
    } else {
        assert(a * m >= 0) by (nonlinear_arith)
            requires
                a >= 0,
                m >= 1,
        ;
    }
}

fn cap_of(x: u128) -> (r: u64)
    ensures
        r == capped(x as int),
{
    if x > u64::MAX as u128 {
        u64::MAX
    } else {
        x as u64
    }
}

/// `capped(digits_value(v))` for a string of digits.
fn digits_key(v: &Vec<char>) -> (r: u64)
    requires
        all_digits(v@),
    ensures
        r == capped(digits_value(v@)),
{
    let mut acc: u64 = 0;
    let mut i: usize = 0;
    while i < v.len()
        invariant
            i <= v@.len(),
            all_digits(v@),
            acc == capped(digits_value(v@.take(i as int))),
        decreases v@.len() - i,
    {
        let d: u32 = v[i] as u32 - 48;
        proof {
            assert(is_digit(v@[i as int]));
            let t = v@.take(i as int + 1);
            assert(t.drop_last() =~= v@.take(i as int));
            assert(all_digits(v@.take(i as int)));
            lemma_digits_nonneg(v@.take(i as int));
            lemma_capped_mul_add(digits_value(v@.take(i as int)), 10, d as int);
        }
        acc = cap_of(acc as u128 * 10 + d as u128);
        i = i + 1;
    }
    assert(v@.take(v@.len() as int) =~= v@);
    acc
}

fn digit_at(f: &Vec<char>, i: usize) -> (r: u64)
    requires
        all_digits(f@),
    ensures
        r == if i < f@.len() { f@[i as int] as int - 48 } else { 0 },
{
    if i < f.len() {
        assert(is_digit(f@[i as int]));
        (f[i] as u32 - 48) as u64
    } else {
        0
    }
}

/// `capped(part_millis(p))`.
fn part_key(p: &Vec<char>) -> (r: u64)
    ensures
        r == capped(part_millis(p@)),
{
    let q = crate::text::split_chars(p, '.');
    let ghost qv = crate::text::split_on(p@, '.');
    assert(q@.len() == qv.len());
    if q.len() == 1 || q.len() == 2 {
        assert(q@[0]@ == qv[0]);
        let a = &q[0];
        let mut ok = all_digits_of(a);
        let mut frac: u64 = 0;
        if q.len() == 2 {
            assert(q@[1]@ == qv[1]);
            let f = &q[1];
            let fd = all_digits_of(f);
            ok = ok && fd && (a.len() > 0 || f.len() > 0);
            if fd {
                frac = digit_at(f, 0) * 100 + digit_at(f, 1) * 10 + digit_at(f, 2);
            }
        } else {
            ok = ok && a.len() > 0;
        }
        if ok {
            let ip = digits_key(a);
            proof {
                lemma_digits_nonneg(qv[0]);
                lemma_capped_mul_add(digits_value(qv[0]), 1000, frac as int);
            }
            cap_of(ip as u128 * 1000 + frac as u128)
        } else {
            0
        }
    } else {
        0
    }
}

fn all_digits_of(v: &Vec<char>) -> (r: bool)
    ensures
        r == all_digits(v@),
{
    let mut i: usize = 0;
    while i < v.len()
        invariant
            i <= v@.len(),
            forall|k: int| 0 <= k < i ==> is_digit(#[trigger] v@[k]),
        decreases v@.len() - i,
    {
        if !('0' <= v[i] && v[i] <= '9') {
            return false;
        }
        i = i + 1;
    }
    true
}

proof fn lemma_part_millis_nonneg(p: Seq<char>)
    ensures
        part_millis(p) >= 0,
{
    let q = crate::text::split_on(p, '.');
    if plain_part(p) {
        lemma_digits_nonneg(q[0]);
        if q.len() == 2 {
            assert(is_digit(q[1][0]) || q[1].len() == 0);
            let f = q[1];
            assert(forall|i: int| 0 <= i < f.len() ==> #[trigger] f[i] as int - 48 >= 0);
        }
    }
}

/// `time_key(stamp)`.
pub fn stamp_key(stamp: &str) -> (r: u64)
    ensures
        r == time_key(stamp@),
{
    let v = chars_of(stamp);
    let q = crate::text::split_chars(&v, ':');
    let ghost qv = crate::text::split_on(stamp@, ':');
    assert(q@.len() == qv.len());
    if q.len() == 2 {
        assert(q@[0]@ == qv[0]);
        assert(q@[1]@ == qv[1]);
        let a = part_key(&q[0]);
        let b = part_key(&q[1]);
        proof {
            lemma_part_millis_nonneg(qv[0]);
            lemma_part_millis_nonneg(qv[1]);
            lemma_capped_mul_add(part_millis(qv[0]), 60, part_millis(qv[1]));
        }
        cap_of(a as u128 * 60 + b as u128)
    } else if q.len() == 3 {
        assert(q@[0]@ == qv[0]);
        assert(q@[1]@ == qv[1]);
        assert(q@[2]@ == qv[2]);
        let a = part_key(&q[0]);
        let b = part_key(&q[1]);
        let c = part_key(&q[2]);
        proof {
            lemma_part_millis_nonneg(qv[0]);
            lemma_part_millis_nonneg(qv[1]);
            lemma_part_millis_nonneg(qv[2]);
            let x = part_millis(qv[0]);
            let y = part_millis(qv[1]);
            let z = part_millis(qv[2]);
            lemma_capped_mul_add(x, 3600, y * 60);
            lemma_capped_mul_add(y, 60, 0);
            lemma_capped_mul_add(x * 3600 + y * 60, 1, z);
        }
        let ab = cap_of(a as u128 * 3600 + cap_of(b as u128 * 60) as u128);
        cap_of(ab as u128 + c as u128)
    } else {
        0
    }
}

/// Where a stable insertion puts an entry with key `k` into `s`: before the first entry with
/// a larger key, after all others.
pub open spec fn insert_position(k: int, s: Seq<LyricEntry>) -> int
    decreases s.len(),
{
    if s.len() == 0 {
        0
    } else if k < time_key(s[0].0) {
        0
    } else {
        1 + insert_position(k, s.drop_first())
    }
}

/// `s` ordered by the time key of the entries' timestamps; entries with equal keys keep
/// their order.
pub open spec fn sorted_by_time(s: Seq<LyricEntry>) -> Seq<LyricEntry>
    decreases s.len(),
{
    if s.len() == 0 {
        s
    } else {
        let r = sorted_by_time(s.drop_last());
        r.insert(insert_position(time_key(s.last().0), r), s.last())
    }
}

proof fn lemma_insert_position_range(k: int, s: Seq<LyricEntry>)
    ensures
        0 <= insert_position(k, s) <= s.len(),
        forall|i: int| 0 <= i < insert_position(k, s) ==> !(k < #[trigger] time_key(s[i].0)),
        insert_position(k, s) < s.len() ==> k < time_key(s[insert_position(k, s)].0),
    decreases s.len(),
{
    if s.len() > 0 && !(k < time_key(s[0].0)) {
        lemma_insert_position_range(k, s.drop_first());
        assert forall|i: int| 0 <= i < insert_position(k, s) implies !(k < #[trigger] time_key(s[i].0)) by {
            if i > 0 {
                assert(s[i] == s.drop_first()[i - 1]);
            }
        }
    }
}

proof fn lemma_sorted_len(s: Seq<LyricEntry>)
    ensures
        sorted_by_time(s).len() == s.len(),
    decreases s.len(),
{
    if s.len() > 0 {
        lemma_sorted_len(s.drop_last());
        lemma_insert_position_range(time_key(s.last().0), sorted_by_time(s.drop_last()));
    }
}

/// Lyrics ordered by time: the time keys never go down.
pub open spec fn time_ordered(s: Seq<LyricEntry>) -> bool {
    forall|i: int, j: int| 0 <= i < j < s.len() ==> time_key(#[trigger] s[i].0) <= time_key(#[trigger] s[j].0)
}

/// The stable sort by time gives lyrics ordered by time.
pub proof fn lemma_sorted_by_time_is_ordered(s: Seq<LyricEntry>)
    ensures
        time_ordered(sorted_by_time(s)),
        sorted_by_time(s).len() == s.len(),
    decreases s.len(),
{
    lemma_sorted_len(s);
    if s.len() > 0 {
        let r = sorted_by_time(s.drop_last());
        lemma_sorted_by_time_is_ordered(s.drop_last());
        let x = s.last();
        let k = time_key(x.0);
        let p = insert_position(k, r);
        lemma_insert_position_range(k, r);
        let t = r.insert(p, x);
        assert forall|i: int, j: int| 0 <= i < j < t.len() implies time_key(#[trigger] t[i].0) <= time_key(#[trigger] t[j].0) by {
            if j < p {
                assert(t[i] == r[i] && t[j] == r[j]);
            } else if j == p {
                assert(t[i] == r[i] && t[j] == x);
            } else if i < p {
                assert(t[i] == r[i] && t[j] == r[j - 1]);
                assert(time_key(r[p].0) <= time_key(r[j - 1].0) || j - 1 == p);
            } else if i == p {
                assert(t[i] == x && t[j] == r[j - 1]);
                assert(time_key(r[p].0) <= time_key(r[j - 1].0) || j - 1 == p);
            } else {
                assert(t[i] == r[i - 1] && t[j] == r[j - 1]);
            }
        }
    }
}

/// Orders the lines (and their words) by the time of their timestamps, stably.
pub(crate) fn sort_lines(lines: Vec<LrcLine>, words: Vec<Vec<WordTimestamp>>) -> (r: (Vec<LrcLine>, Vec<Vec<WordTimestamp>>))
    requires
        lines@.len() == words@.len(),
    ensures
        r.0@.len() == r.1@.len(),
        (LyricsData { lines: r.0, is_timed: true, word_timestamps: r.1 }).entries()
            == sorted_by_time((LyricsData { lines, is_timed: true, word_timestamps: words }).entries()),
{
    let ghost input = (LyricsData { lines, is_timed: true, word_timestamps: words }).entries();
    let mut out_lines: Vec<LrcLine> = Vec::new();
    let mut out_words: Vec<Vec<WordTimestamp>> = Vec::new();
    let mut keys: Vec<u64> = Vec::new();
    let mut i: usize = 0;
    assert(input.take(0) =~= Seq::<LyricEntry>::empty());
    assert((LyricsData { lines: out_lines, is_timed: true, word_timestamps: out_words }).entries() =~= Seq::<LyricEntry>::empty());
    while i < lines.len()
        invariant
            i <= lines@.len(),
            lines@.len() == words@.len(),
            input == (LyricsData { lines, is_timed: true, word_timestamps: words }).entries(),
            out_lines@.len() == out_words@.len(),
            keys@.len() == out_lines@.len(),
            (LyricsData { lines: out_lines, is_timed: true, word_timestamps: out_words }).entries() == sorted_by_time(input.take(i as int)),
            forall|k: int| 0 <= k < keys@.len() ==> #[trigger] keys@[k] == time_key(out_lines@[k].stamp@),
        decreases lines@.len() - i,
    {
        let ghost cur = (LyricsData { lines: out_lines, is_timed: true, word_timestamps: out_words }).entries();
        let key = stamp_key(lines[i].stamp.as_str());
        let mut p: usize = 0;
        assert(cur.skip(0) =~= cur);
        while p < keys.len() && !(key < keys[p])
            invariant
                p <= keys@.len(),
                keys@.len() == cur.len(),
                forall|k: int| 0 <= k < keys@.len() ==> #[trigger] keys@[k] == time_key(cur[k].0),
                insert_position(key as int, cur) == p + insert_position(key as int, cur.skip(p as int)),
            decreases keys@.len() - p,
        {
            assert(cur.skip(p as int).drop_first() =~= cur.skip(p + 1));
            assert(cur.skip(p as int)[0] == cur[p as int]);
            p = p + 1;
        }
        proof {
            assert(cur.skip(0) =~= cur);
            if p < keys.len() {
                assert(cur.skip(p as int)[0] == cur[p as int]);
            }
        }
        let ghost old_keys = keys@;
        let ghost old_lines = out_lines@;
        let line = LrcLine { stamp: lines[i].stamp.clone(), text: lines[i].text.clone() };
        let ws = copy_words(&words[i]);
        let ghost entry = (line.stamp@, line.text@, ws@.map_values(|w: WordTimestamp| w@));
        assert(entry == input[i as int]);
        out_lines.insert(p, line);
        out_words.insert(p, ws);
        keys.insert(p, key);
        proof {
            assert(input.take(i + 1).drop_last() =~= input.take(i as int));
            assert(input.take(i + 1).last() == input[i as int]);
            assert((LyricsData { lines: out_lines, is_timed: true, word_timestamps: out_words }).entries() =~= cur.insert(p as int, entry));
            assert forall|k: int| 0 <= k < keys@.len() implies #[trigger] keys@[k] == time_key(out_lines@[k].stamp@) by {
                if k < p {
                    assert(keys@[k] == old_keys[k] && out_lines@[k] == old_lines[k]);
                } else if k == p {
                } else {
                    assert(keys@[k] == old_keys[k - 1] && out_lines@[k] == old_lines[k - 1]);
                }
            }
        }
        i = i + 1;
    }
    assert(input.take(lines@.len() as int) =~= input);
    (out_lines, out_words)
}

/// Parses LRC content into lyrics data with word-by-word timestamps. Metadata tag lines
/// (`[ar:..]`, `[ti:..]`, ...) and lines without a leading timestamp are skipped; a line with
/// several leading timestamps gives one line for each. Returns `None` when no line is left.
/// Lines are ordered by the time of their timestamps (to the millisecond); lines at the same
/// time keep the order of the content.
pub fn parse_lrc_content(content: &str) -> (r: Option<LyricsData>)
    ensures
        match r {
            None => lrc_entries(content@).len() == 0,
            Some(d) => {
                &&& lrc_entries(content@).len() > 0
                &&& d.is_timed
                &&& d.lines@.len() == d.word_timestamps@.len()
                &&& d.entries() == sorted_by_time(lrc_entries(content@))
                &&& time_ordered(d.entries())
            },
        },
{
    let chars = chars_of(content);
    let raw_lines = crate::text::lines_of(&chars);
    let ghost all = crate::text::lines(content@).map_values(|l: Seq<char>| line_entries(l));
    let mut lines: Vec<LrcLine> = Vec::new();
    let mut word_timestamps: Vec<Vec<WordTimestamp>> = Vec::new();
    let mut k: usize = 0;
    assert(all.take(0).flatten() =~= Seq::<LyricEntry>::empty());
    while k < raw_lines.len()
        invariant
            k <= raw_lines@.len(),
            raw_lines@.map_values(|p: Vec<char>| p@) == crate::text::lines(content@),
            all == crate::text::lines(content@).map_values(|l: Seq<char>| line_entries(l)),
            lines@.len() == word_timestamps@.len(),
            (LyricsData { lines, is_timed: true, word_timestamps }).entries() == all.take(k as int).flatten(),
        decreases raw_lines@.len() - k,
    {
        let ghost before = (LyricsData { lines, is_timed: true, word_timestamps }).entries();
        assert(raw_lines@.map_values(|p: Vec<char>| p@)[k as int] == raw_lines@[k as int]@);
        let line = trim_chars(&raw_lines[k]);
        let ghost expected = line_entries(raw_lines@[k as int]@);
        if line.len() > 0 && !is_metadata_line_exec(&line) && line[0] == '[' {
            let (stamps, rem) = leading_stamps_exec(&line);
            if stamps.len() > 0 {
                assert(stamps@.map_values(|t: Vec<char>| t@)[0] == stamps@[0]@);
                let rem_str = string_of(&rem);
                let first = string_of(&stamps[0]);
                let (clean, words) = parse_line_tokens(rem_str.as_str(), first.as_str());
                if !clean.as_str().is_empty() || words.len() > 0 {
                    let ghost wv = words@.map_values(|w: WordTimestamp| w@);
                    let mut t: usize = 0;
                    while t < stamps.len()
                        invariant
                            t <= stamps@.len(),
                            lines@.len() == word_timestamps@.len(),
                            wv == words@.map_values(|w: WordTimestamp| w@),
                            (LyricsData { lines, is_timed: true, word_timestamps }).entries() == before + stamps@.map_values(|x: Vec<char>| x@).take(t as int).map_values(|x: Seq<char>| (x, clean@, wv)),
                        decreases stamps@.len() - t,
                    {
                        let ghost prev = (LyricsData { lines, is_timed: true, word_timestamps }).entries();
                        let stamp = string_of(&stamps[t]);
                        let text = String::from_str(clean.as_str());
                        let ws = copy_words(&words);
                        lines.push(LrcLine { stamp, text });
                        word_timestamps.push(ws);
                        assert(stamps@.map_values(|x: Vec<char>| x@)[t as int] == stamps@[t as int]@);
                        assert((LyricsData { lines, is_timed: true, word_timestamps }).entries() =~= prev.push((stamps@[t as int]@, clean@, wv)));
                        assert(stamps@.map_values(|x: Vec<char>| x@).take(t + 1).map_values(|x: Seq<char>| (x, clean@, wv)) =~= stamps@.map_values(|x: Vec<char>| x@).take(t as int).map_values(|x: Seq<char>| (x, clean@, wv)).push((stamps@[t as int]@, clean@, wv)));
                        t = t + 1;
                    }
                    assert(stamps@.map_values(|x: Vec<char>| x@).take(stamps@.len() as int) =~= stamps@.map_values(|x: Vec<char>| x@));
                    assert(expected == stamps@.map_values(|x: Vec<char>| x@).map_values(|x: Seq<char>| (x, clean@, wv)));
                } else {
                    assert(expected =~= Seq::<LyricEntry>::empty());
                }
            } else {
                assert(expected =~= Seq::<LyricEntry>::empty());
            }
        } else {
            assert(expected =~= Seq::<LyricEntry>::empty());
        }
        proof {
            assert(all[k as int] == expected);
            assert(all.take(k + 1) =~= all.take(k as int).push(expected));
            all.take(k as int).lemma_flatten_push(expected);
        }
        k = k + 1;
    }
    assert(all.take(raw_lines@.len() as int) =~= all);
    if lines.len() == 0 {
        None
    } else {
        let (lines, word_timestamps) = sort_lines(lines, word_timestamps);
        proof {
            lemma_sorted_len(lrc_entries(content@));
            lemma_sorted_by_time_is_ordered(lrc_entries(content@));
        }
        Some(LyricsData { lines, is_timed: true, word_timestamps })
    }
}

fn copy_words(words: &Vec<WordTimestamp>) -> (r: Vec<WordTimestamp>)
    ensures
        r@.map_values(|w: WordTimestamp| w@) == words@.map_values(|w: WordTimestamp| w@),
{
    let mut r: Vec<WordTimestamp> = Vec::new();
    let mut i: usize = 0;
    while i < words.len()
        invariant
            i <= words@.len(),
            r@.map_values(|w: WordTimestamp| w@) == words@.take(i as int).map_values(|w: WordTimestamp| w@),
        decreases words@.len() - i,
    {
        let w = WordTimestamp { stamp: words[i].stamp.clone(), word: words[i].word.clone() };
        assert(w@ == words@[i as int]@);
        let ghost before = r@.map_values(|w: WordTimestamp| w@);
        r.push(w);
        assert(r@.map_values(|w: WordTimestamp| w@) =~= before.push(words@[i as int]@));
        assert(words@.take(i + 1).map_values(|w: WordTimestamp| w@) =~= words@.take(i as int).map_values(|w: WordTimestamp| w@).push(words@[i as int]@));
        assert(r@.map_values(|w: WordTimestamp| w@) =~= words@.take(i + 1).map_values(|w: WordTimestamp| w@));
        i = i + 1;
    }
    assert(words@.take(words@.len() as int) =~= words@);
    r
}

} // verus!
