//! Clean-up of track titles for display.

use vstd::prelude::*;

use crate::lyrics::ci_equal;
use crate::text::{chars_of, opt_seq, string_of, trim, trim_chars};

verus! {

/// The pattern of a leading track number: optional punctuation or spaces, digits, an
/// optional `-N`/`.N` disc part, then a separator (`-`, `.`, `,` with spaces, or spaces).
pub const TRACK_NUMBER_PATTERN: &'static str = r"^([\s\p{P}]*)(\d+)([-.]\d+)?(\s*[-.,]\s*|\s+)";

/// What follows the first match of the regular expression `pattern` in `haystack`, as the
/// `regex` crate finds it (`None` if there is no match or the pattern does not compile).
pub uninterp spec fn regex_rest_after_match(pattern: Seq<char>, haystack: Seq<char>) -> Option<Seq<char>>;

/// Compiles `pattern` with `regex::Regex::new` and returns the text after the end of its first
/// match in `haystack` (`Regex::find`), or `None` when the pattern does not compile or nothing
/// matches.
#[verifier::external_body]
pub(crate) fn rest_after_match(pattern: &str, haystack: &str) -> (r: Option<String>)
    ensures
        opt_seq(r) == regex_rest_after_match(pattern@, haystack@),
{
    let re = regex::Regex::new(pattern).ok()?;
    re.find(haystack).map(|m| haystack[m.end()..].to_string())
}

/// `char::is_control`: the general category `Cc`.
pub open spec fn is_control(c: char) -> bool {
    c <= '\u{1f}' || ('\u{7f}' <= c && c <= '\u{9f}')
}

/// `s` without its control characters.
pub open spec fn without_controls(s: Seq<char>) -> Seq<char> {
    s.filter(|c: char| !is_control(c))
}

/// Strips terminal control and escape characters to prevent OSC/ANSI sequence injection:
/// no control character is left.
pub fn sanitize_terminal_title(title: &str) -> (r: String)
    ensures
        r@ == without_controls(title@),
        forall|i: int| 0 <= i < r@.len() ==> !is_control(#[trigger] r@[i]),
{
    let v = chars_of(title);
    let mut out: Vec<char> = Vec::new();
    let mut i: usize = 0;
    while i < v.len()
        invariant
            i <= v@.len(),
            out@ == without_controls(v@.take(i as int)),
        decreases v@.len() - i,
    {
        let c = v[i];
        proof {
            assert(v@.take(i + 1).drop_last() =~= v@.take(i as int));
            v@.take(i as int).lemma_filter_push(c, |c: char| !is_control(c));
            assert(v@.take(i as int).push(c) =~= v@.take(i + 1));
        }
        if !(c <= '\u{1f}' || ('\u{7f}' <= c && c <= '\u{9f}')) {
            out.push(c);
        }
        i = i + 1;
    }
    assert(v@.take(v@.len() as int) =~= v@);
    assert forall|i: int| 0 <= i < out@.len() implies !is_control(#[trigger] out@[i]) by {
        v@.lemma_filter_pred(|c: char| !is_control(c), i);
    }
    string_of(&out)
}

/// The audio file extensions the player reads.
pub open spec fn is_audio_ext(e: Seq<char>) -> bool {
    ||| ci_equal(e, "mp3"@)
    ||| ci_equal(e, "flac"@)
    ||| ci_equal(e, "ogg"@)
    ||| ci_equal(e, "opus"@)
    ||| ci_equal(e, "wav"@)
    ||| ci_equal(e, "m4a"@)
    ||| ci_equal(e, "aac"@)
    ||| ci_equal(e, "wma"@)
    ||| ci_equal(e, "webm"@)
}

/// Whether `v[start..]` is one of the audio extensions (ASCII case ignored).
pub fn audio_ext_from(v: &Vec<char>, start: usize) -> (r: bool)
    requires
        start <= v@.len(),
    ensures
        r == is_audio_ext(v@.skip(start as int)),
{
    let e = crate::text::slice_chars(v, start, v.len());
    assert(e@ =~= v@.skip(start as int));
    ext_matches(&e, &chars_of("mp3")) || ext_matches(&e, &chars_of("flac")) || ext_matches(&e, &chars_of("ogg"))
        || ext_matches(&e, &chars_of("opus")) || ext_matches(&e, &chars_of("wav")) || ext_matches(&e, &chars_of("m4a"))
        || ext_matches(&e, &chars_of("aac")) || ext_matches(&e, &chars_of("wma")) || ext_matches(&e, &chars_of("webm"))
}

fn ext_matches(e: &Vec<char>, p: &Vec<char>) -> (r: bool)
    ensures
        r == ci_equal(e@, p@),
{
    if e.len() != p.len() {
        return false;
    }
    let mut k: usize = 0;
    while k < p.len()
        invariant
            e@.len() == p@.len(),
            k <= p@.len(),
            forall|m: int| 0 <= m < k ==> crate::lyrics::ci_eq(#[trigger] e@[m], p@[m]),
        decreases p@.len() - k,
    {
        let c = e[k];
        let q = p[k];
        if !(c == q || ('A' <= c && c <= 'Z' && (c as u32) + 32 == q as u32)) {
            return false;
        }
        k = k + 1;
    }
    true
}

/// The index of the last `c` in `s`, if any.
pub open spec fn last_index_of(s: Seq<char>, c: char) -> Option<int>
    decreases s.len(),
{
    if s.len() == 0 {
        None
    } else if s.last() == c {
        Some(s.len() - 1)
    } else {
        last_index_of(s.drop_last(), c)
    }
}

/// Underscores become spaces.
pub open spec fn underscores_to_spaces(s: Seq<char>) -> Seq<char> {
    s.map_values(|c: char| if c == '_' { ' ' } else { c })
}

/// `s` without a trailing audio file extension.
pub open spec fn strip_audio_ext(s: Seq<char>) -> Seq<char> {
    match last_index_of(s, '.') {
        Some(d) => if is_audio_ext(s.skip(d + 1)) {
            s.take(d)
        } else {
            s
        },
        None => s,
    }
}

/// The sanitized form of a title: underscores become spaces, an audio extension is removed,
/// a leading track number (see `TRACK_NUMBER_PATTERN`) is removed unless nothing but
/// whitespace would be left, and the result is trimmed.
pub open spec fn sanitized(title: Seq<char>) -> Seq<char> {
    let s1 = strip_audio_ext(underscores_to_spaces(title));
    let s2 = match regex_rest_after_match(TRACK_NUMBER_PATTERN@, s1) {
        Some(rest) => if trim(rest).len() > 0 {
            rest
        } else {
            s1
        },
        None => s1,
    };
    trim(s2)
}

/// Strips track numbers, underscores and audio extensions from a file-name-like title.
pub fn sanitize_title(title: &str) -> (r: String)
    ensures
        r@ == sanitized(title@),
{
    let v = chars_of(title);
    let mut s: Vec<char> = Vec::new();
    let mut i: usize = 0;
    while i < v.len()
        invariant
            i <= v@.len(),
            s@ == underscores_to_spaces(v@.take(i as int)),
        decreases v@.len() - i,
    {
        let c = v[i];
        s.push(if c == '_' { ' ' } else { c });
        assert(s@ =~= underscores_to_spaces(v@.take(i + 1)));
        i = i + 1;
    }
    assert(v@.take(v@.len() as int) =~= v@);
    let ghost u = s@;
    let mut k: usize = s.len();
    assert(u.take(k as int) =~= u);
    while k > 0 && s[k - 1] != '.'
        invariant
            k <= s@.len(),
            s@ == u,
            last_index_of(u, '.') == last_index_of(u.take(k as int), '.'),
        decreases k,
    {
        assert(u.take(k as int).drop_last() =~= u.take(k - 1));
        k = k - 1;
    }
    let stripped = if k > 0 {
        assert(u.take(k as int).last() == '.');
        if audio_ext_from(&s, k) {
            crate::text::slice_chars(&s, 0, k - 1)
        } else {
            crate::text::slice_chars(&s, 0, s.len())
        }
    } else {
        crate::text::slice_chars(&s, 0, s.len())
    };
    assert(u.subrange(0, u.len() as int) =~= u);
    assert(stripped@ == strip_audio_ext(u)) by {
        if k > 0 {
            assert(u.take(k - 1) =~= u.subrange(0, k - 1));
        }
    }
    let s1 = string_of(&stripped);
    let chosen = match rest_after_match(TRACK_NUMBER_PATTERN, s1.as_str()) {
        Some(rest) => {
            let rest_chars = chars_of(rest.as_str());
            if !crate::text::is_blank(&rest_chars) {
                rest_chars
            } else {
                stripped
            }
        },
        None => stripped,
    };
    let t = trim_chars(&chosen);
    string_of(&t)
}

} // verus!
