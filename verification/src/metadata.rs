//! Track metadata as the library keeps it, and how it is shown.

use vstd::prelude::*;

use crate::lyrics::{all_digits, digits_value, is_digit, find_char, is_timestamp, lemma_find_char, sort_lines, sorted_by_time, timestamp_chars, LyricEntry, LyricsData, WordTimestamp};
use crate::sanitizer::{sanitize_title, sanitized};
use crate::text::{chars_of, decimal, decimal_two, digit_char, lines, lines_of, opt_seq, push_decimal, push_decimal_two, slice_chars, string_of, trim, trim_chars};

verus! {

/// A length of time, as whole seconds plus the nanoseconds of the last second.
#[derive(Debug, Clone, Copy, PartialEq, Eq)]
pub struct TrackDuration {
    pub secs: u64,
    pub nanos: u32,
}

impl TrackDuration {
    /// Whole milliseconds of this duration.
    pub open spec fn millis(self) -> nat {
        (self.secs * 1000 + self.nanos / 1_000_000) as nat
    }

    /// Whole milliseconds of this duration.
    pub fn as_millis(&self) -> (r: u128)
        ensures
            r == self.millis(),
    {
        (self.secs as u128) * 1000 + (self.nanos as u128) / 1_000_000
    }

    /// True if the duration is longer than zero.
    pub fn is_nonzero(&self) -> (r: bool)
        ensures
            r == (self.secs > 0 || self.nanos > 0),
    {
        self.secs > 0 || self.nanos > 0
    }
}

/// A single timed line of lyrics: the timestamp as written in its tag, and the text.
#[derive(Debug, Clone)]
pub struct LrcLine {
    pub stamp: String,
    pub text: String,
}

/// How lyrics are stored.
#[derive(Debug, Clone)]
pub enum LyricsKind {
    /// Timestamped lines from embedded tags or a .lrc file.
    Timed(Vec<LrcLine>),
    /// Plain text lyrics without timestamps.
    Untimed(Vec<String>),
    /// No lyrics found.
    NotFound,
}

/// Complete metadata for a single audio track.
#[derive(Debug, Clone)]
pub struct TrackMetadata {
    pub title: Option<String>,
    pub sanitized_title: Option<String>,
    pub artist: Option<String>,
    pub album: Option<String>,
    pub year: Option<u32>,
    pub track_number: Option<u32>,
    pub disc_number: Option<u32>,
    pub duration: Option<TrackDuration>,
    /// Cover art is never kept with the metadata; it is read again when a track is played.
    pub cover_art: Option<Vec<u8>>,
    pub lyrics: LyricsKind,
    pub sample_rate: Option<u32>,
    pub bitrate: Option<u32>,
}

impl Default for TrackMetadata {
    /// Metadata with every field empty.
    fn default() -> (m: Self)
        ensures
            m.is_empty(),
    {
        TrackMetadata::empty()
    }
}

impl TrackMetadata {
    /// Metadata with every field empty.
    pub fn empty() -> (m: Self)
        ensures
            m.is_empty(),
    {
        TrackMetadata {
            title: None,
            sanitized_title: None,
            artist: None,
            album: None,
            year: None,
            track_number: None,
            disc_number: None,
            duration: None,
            cover_art: None,
            lyrics: LyricsKind::NotFound,
            sample_rate: None,
            bitrate: None,
        }
    }

    pub open spec fn is_empty(self) -> bool {
        &&& self.title is None
        &&& self.sanitized_title is None
        &&& self.artist is None
        &&& self.album is None
        &&& self.year is None
        &&& self.track_number is None
        &&& self.disc_number is None
        &&& self.duration is None
        &&& self.cover_art is None
        &&& self.lyrics is NotFound
        &&& self.sample_rate is None
        &&& self.bitrate is None
    }

    /// The title shown for the track.
    pub open spec fn title_text(self, strip_track_numbers: bool) -> Seq<char> {
        if strip_track_numbers && self.sanitized_title is Some {
            self.sanitized_title->0@
        } else if self.title is Some {
            self.title->0@
        } else {
            "Unknown Title"@
        }
    }

    pub open spec fn artist_text(self) -> Seq<char> {
        if self.artist is Some {
            self.artist->0@
        } else {
            "Unknown Artist"@
        }
    }

    pub open spec fn album_text(self) -> Seq<char> {
        if self.album is Some {
            self.album->0@
        } else {
            "Unknown Album"@
        }
    }

    /// The shown duration: minutes, a colon and two digits of seconds, or `--:--`.
    pub open spec fn duration_text(self) -> Seq<char> {
        match self.duration {
            Some(d) => decimal((d.secs / 60) as nat) + seq![':'] + decimal_two((d.secs % 60) as nat),
            None => "--:--"@,
        }
    }

    /// Returns the display title, preferring the sanitized title when track numbers are stripped.
    pub fn display_title(&self, strip_track_numbers: bool) -> (r: &str)
        ensures
            r@ == self.title_text(strip_track_numbers),
    {
        if strip_track_numbers {
            if let Some(s) = &self.sanitized_title {
                return s.as_str();
            }
        }
        match &self.title {
            Some(t) => t.as_str(),
            None => "Unknown Title",
        }
    }

    /// Returns the display artist.
    pub fn display_artist(&self) -> (r: &str)
        ensures
            r@ == self.artist_text(),
    {
        match &self.artist {
            Some(a) => a.as_str(),
            None => "Unknown Artist",
        }
    }

    /// Returns the display album.
    pub fn display_album(&self) -> (r: &str)
        ensures
            r@ == self.album_text(),
    {
        match &self.album {
            Some(a) => a.as_str(),
            None => "Unknown Album",
        }
    }

    /// The shown duration reads back as the track's length: minutes, a colon and exactly two
    /// digits of seconds below 60, which together make the whole seconds of the duration.
    pub proof fn lemma_duration_text_reads_back(self)
        requires
            self.duration is Some,
        ensures
            exists|a: Seq<char>, b: Seq<char>| {
                &&& self.duration_text() == a + seq![':'] + b
                &&& all_digits(a) && a.len() > 0
                &&& all_digits(b) && b.len() == 2
                &&& digits_value(b) < 60
                &&& digits_value(a) * 60 + digits_value(b) == self.duration->0.secs
            },
    {
        let secs = self.duration->0.secs;
        let mins = (secs / 60) as nat;
        let rest = (secs % 60) as nat;
        lemma_decimal_reads_back(mins);
        lemma_decimal_reads_back(rest);
        let a = decimal(mins);
        let b = decimal_two(rest);
        if rest < 10 {
            let z = seq!['0'];
            assert(b == z + decimal(rest));
            assert(decimal(rest) == seq![digit_char(rest)]);
            assert(b =~= seq!['0', digit_char(rest)]);
            assert(b.drop_last() =~= seq!['0']);
            assert(seq!['0'].drop_last() =~= Seq::<char>::empty());
            assert(('0' as int) == 48);
            assert(digits_value(seq!['0']) == digits_value(seq!['0'].drop_last()) * 10 + (seq!['0'].last() as int - 48));
            assert(digits_value(seq!['0']) == 0);
            assert(digits_value(b) == rest);
            assert forall|i: int| 0 <= i < b.len() implies is_digit(#[trigger] b[i]) by {}
        } else {
            assert(rest < 100);
            assert(decimal(rest) == decimal(rest / 10).push(digit_char(rest % 10)));
            assert(rest / 10 < 10);
            assert(decimal(rest).len() == 2);
        }
        assert(self.duration_text() == a + seq![':'] + b);
    }

    /// Returns a formatted duration string like "3:45".
    pub fn display_duration(&self) -> (r: String)
        ensures
            r@ == self.duration_text(),
    {
        match self.duration {
            Some(d) => {
                let total_secs = d.secs;
                let mut out = String::new();
                push_decimal(&mut out, total_secs / 60);
                out.push(':');
                push_decimal_two(&mut out, total_secs % 60);
                assert(out@ =~= self.duration_text());
                out
            },
            None => String::from_str("--:--"),
        }
    }
}

/// What the tag reader found in an audio file.
#[derive(Debug, Clone)]
pub struct ProbedTrack {
    /// The length of the audio (zero when the file does not say).
    pub duration: TrackDuration,
    pub sample_rate: Option<u32>,
    pub bitrate: Option<u32>,
    /// The primary tag of the file, or else its first tag.
    pub tag: Option<TagFields>,
}

/// The fields of a tag that the player uses.
#[derive(Debug, Clone)]
pub struct TagFields {
    pub title: Option<String>,
    pub artist: Option<String>,
    pub album: Option<String>,
    pub year: Option<u32>,
    pub track: Option<u32>,
    pub disk: Option<u32>,
    pub lyrics: Option<String>,
}

/// Lyrics as values.
pub enum LyricsView {
    Timed(Seq<(Seq<char>, Seq<char>)>),
    Untimed(Seq<Seq<char>>),
    NotFound,
}

impl LyricsKind {
    pub open spec fn view(self) -> LyricsView {
        match self {
            LyricsKind::Timed(v) => LyricsView::Timed(v@.map_values(|l: LrcLine| (l.stamp@, l.text@))),
            LyricsKind::Untimed(v) => LyricsView::Untimed(v@.map_values(|l: String| l@)),
            LyricsKind::NotFound => LyricsView::NotFound,
        }
    }
}

/// A line `[timestamp]text` of embedded lyrics: the timestamp as written between the first
/// `[` and `]` (it must be a timestamp without trimming), and the trimmed text after it.
pub open spec fn lrc_line(l: Seq<char>) -> Option<(Seq<char>, Seq<char>)> {
    if l.len() > 0 && l[0] == '[' {
        let end = find_char(l, 0, ']');
        if end < l.len() && is_timestamp(l.subrange(1, end)) {
            Some((l.subrange(1, end), trim(l.subrange(end + 1, l.len() as int))))
        } else {
            None
        }
    } else {
        None
    }
}

/// The timed lines among `ls`, each trimmed first; blank lines and lines that are not
/// timed are left out.
pub open spec fn timed_lines(ls: Seq<Seq<char>>) -> Seq<(Seq<char>, Seq<char>)>
    decreases ls.len(),
{
    if ls.len() == 0 {
        Seq::empty()
    } else {
        let rest = timed_lines(ls.drop_last());
        let l = trim(ls.last());
        if l.len() > 0 && lrc_line(l) is Some {
            rest.push(lrc_line(l)->0)
        } else {
            rest
        }
    }
}

/// Timed lines as lyric entries without words.
pub open spec fn with_no_words(s: Seq<(Seq<char>, Seq<char>)>) -> Seq<LyricEntry> {
    s.map_values(|l: (Seq<char>, Seq<char>)| (l.0, l.1, Seq::<(Seq<char>, Seq<char>)>::empty()))
}

/// Lyric entries as timed lines, their words left out.
pub open spec fn without_words(s: Seq<LyricEntry>) -> Seq<(Seq<char>, Seq<char>)> {
    s.map_values(|e: LyricEntry| (e.0, e.1))
}

/// Embedded lyrics that look timed: the timed lines ordered by the time of their timestamps
/// (lines at the same time in text order), or, when there are none, every line as untimed
/// text.
pub open spec fn embedded_lyrics(text: Seq<char>) -> LyricsView {
    let timed = timed_lines(lines(text));
    if timed.len() == 0 {
        LyricsView::Untimed(lines(text))
    } else {
        LyricsView::Timed(without_words(sorted_by_time(with_no_words(timed))))
    }
}

fn lrc_line_exec(l: &Vec<char>) -> (r: Option<(Vec<char>, Vec<char>)>)
    ensures
        match lrc_line(l@) {
            Some((ts, text)) => r matches Some((a, b)) && a@ == ts && b@ == text,
            None => r is None,
        },
{
    if l.len() == 0 || l[0] != '[' {
        return None;
    }
    let end = find_char_in(l, ']');
    proof {
        lemma_find_char(l@, 0, ']');
    }
    if end >= l.len() {
        return None;
    }
    let ts = slice_chars(l, 1, end);
    if !timestamp_chars(&ts) {
        return None;
    }
    let rest = slice_chars(l, end + 1, l.len());
    Some((ts, trim_chars(&rest)))
}

fn find_char_in(v: &Vec<char>, c: char) -> (r: usize)
    ensures
        r == find_char(v@, 0, c),
        r <= v@.len(),
{
    let mut j: usize = 0;
    while j < v.len() && v[j] != c
        invariant
            j <= v@.len(),
            find_char(v@, 0, c) == find_char(v@, j as int, c),
        decreases v@.len() - j,
    {
        j = j + 1;
    }
    j
}

/// Parses embedded timed lyrics (LRC format within tags).
pub fn parse_embedded_timed(text: &str) -> (r: LyricsKind)
    ensures
        r.view() == embedded_lyrics(text@),
{
    let chars = chars_of(text);
    let ls = lines_of(&chars);
    let ghost lv = ls@.map_values(|p: Vec<char>| p@);
    let mut timed: Vec<LrcLine> = Vec::new();
    let mut i: usize = 0;
    while i < ls.len()
        invariant
            i <= ls@.len(),
            lv == ls@.map_values(|p: Vec<char>| p@),
            timed@.map_values(|l: LrcLine| (l.stamp@, l.text@)) == timed_lines(lv.take(i as int)),
        decreases ls@.len() - i,
    {
        assert(lv.take(i + 1).drop_last() =~= lv.take(i as int));
        assert(lv[i as int] == ls@[i as int]@);
        let l = trim_chars(&ls[i]);
        if l.len() > 0 {
            match lrc_line_exec(&l) {
                Some((ts, body)) => {
                    let ghost before = timed@.map_values(|l: LrcLine| (l.stamp@, l.text@));
                    timed.push(LrcLine { stamp: string_of(&ts), text: string_of(&body) });
                    assert(timed@.map_values(|l: LrcLine| (l.stamp@, l.text@)) =~= before.push((ts@, body@)));
                },
                None => {},
            }
        }
        i = i + 1;
    }
    assert(lv.take(ls@.len() as int) =~= lv);
    if timed.len() == 0 {
        let mut out: Vec<String> = Vec::new();
        let mut k: usize = 0;
        while k < ls.len()
            invariant
                k <= ls@.len(),
                lv == ls@.map_values(|p: Vec<char>| p@),
                out@.map_values(|l: String| l@) == lv.take(k as int),
            decreases ls@.len() - k,
        {
            let ghost before = out@.map_values(|l: String| l@);
            out.push(string_of(&ls[k]));
            assert(out@.map_values(|l: String| l@) =~= before.push(lv[k as int]));
            assert(lv.take(k + 1) =~= lv.take(k as int).push(lv[k as int]));
            k = k + 1;
        }
        assert(lv.take(ls@.len() as int) =~= lv);
        LyricsKind::Untimed(out)
    } else {
        let ghost tv = timed@.map_values(|l: LrcLine| (l.stamp@, l.text@));
        let mut words: Vec<Vec<WordTimestamp>> = Vec::new();
        let mut k: usize = 0;
        while k < timed.len()
            invariant
                k <= timed@.len(),
                words@.len() == k,
                forall|j: int| 0 <= j < k ==> #[trigger] words@[j]@.len() == 0,
            decreases timed@.len() - k,
        {
            words.push(Vec::new());
            k = k + 1;
        }
        proof {
            let e = (LyricsData { lines: timed, is_timed: true, word_timestamps: words }).entries();
            assert forall|j: int| 0 <= j < e.len() implies #[trigger] e[j] == with_no_words(tv)[j] by {
                assert(words@[j]@.map_values(|w: WordTimestamp| w@) =~= Seq::<(Seq<char>, Seq<char>)>::empty());
            }
            assert(e =~= with_no_words(tv));
        }
        let (sorted, sorted_words) = sort_lines(timed, words);
        proof {
            assert(sorted@.map_values(|l: LrcLine| (l.stamp@, l.text@)) =~= without_words(
                (LyricsData { lines: sorted, is_timed: true, word_timestamps: sorted_words }).entries(),
            ));
        }
        LyricsKind::Timed(sorted)
    }
}

/// The lyrics found in a tag: text with both `[` and `]` is parsed as embedded timed lyrics;
/// other non-empty text becomes untimed lines; empty text means no lyrics.
pub open spec fn tag_lyrics(text: Seq<char>) -> LyricsView {
    if text.contains('[') && text.contains(']') {
        embedded_lyrics(text)
    } else if text.len() > 0 {
        LyricsView::Untimed(lines(text))
    } else {
        LyricsView::NotFound
    }
}

fn contains_char(v: &Vec<char>, c: char) -> (r: bool)
    ensures
        r == v@.contains(c),
{
    let mut i: usize = 0;
    while i < v.len()
        invariant
            i <= v@.len(),
            forall|k: int| 0 <= k < i ==> v@[k] != c,
        decreases v@.len() - i,
    {
        if v[i] == c {
            return true;
        }
        i = i + 1;
    }
    false
}

fn lyrics_from_tag(text: &str) -> (r: LyricsKind)
    ensures
        r.view() == tag_lyrics(text@),
{
    let v = chars_of(text);
    if contains_char(&v, '[') && contains_char(&v, ']') {
        parse_embedded_timed(text)
    } else if v.len() > 0 {
        let ls = lines_of(&v);
        let mut out: Vec<String> = Vec::new();
        let mut k: usize = 0;
        while k < ls.len()
            invariant
                k <= ls@.len(),
                out@.map_values(|l: String| l@) == ls@.take(k as int).map_values(|p: Vec<char>| p@),
            decreases ls@.len() - k,
        {
            let ghost before = out@.map_values(|l: String| l@);
            let line = string_of(&ls[k]);
            assert(line@ == ls@[k as int]@);
            out.push(line);
            assert(out@.map_values(|l: String| l@) =~= before.push(ls@[k as int]@));
            assert(ls@.take(k + 1).map_values(|p: Vec<char>| p@) =~= ls@.take(k as int).map_values(|p: Vec<char>| p@).push(ls@[k as int]@));
            k = k + 1;
        }
        assert(ls@.take(ls@.len() as int) =~= ls@);
        LyricsKind::Untimed(out)
    } else {
        LyricsKind::NotFound
    }
}

/// The sanitized title that goes with a title.
pub open spec fn sanitized_of(title: Option<Seq<char>>) -> Option<Seq<char>> {
    match title {
        Some(t) => Some(sanitized(t)),
        None => None,
    }
}

/// The title kept for a track: a non-empty tag title, else the file stem.
pub open spec fn chosen_title(stem: Option<Seq<char>>, probed: Option<ProbedTrack>) -> Option<Seq<char>> {
    match probed {
        Some(p) => match p.tag {
            Some(t) => match t.title {
                Some(x) => if x@.len() > 0 {
                    Some(x@)
                } else {
                    stem
                },
                None => stem,
            },
            None => stem,
        },
        None => stem,
    }
}

/// Builds the metadata of a track from its file stem and what the tag reader found
/// (`None` when the file could not be read).
pub fn metadata_from_tags(stem: Option<String>, probed: Option<ProbedTrack>) -> (m: TrackMetadata)
    ensures
        opt_seq(m.title) == chosen_title(opt_seq(stem), probed),
        opt_seq(m.sanitized_title) == sanitized_of(opt_seq(m.title)),
        m.cover_art is None,
        match probed {
            None => {
                &&& m.artist is None && m.album is None
                &&& m.year is None && m.track_number is None && m.disc_number is None
                &&& m.duration is None && m.sample_rate is None && m.bitrate is None
                &&& m.lyrics.view() == LyricsView::NotFound
            },
            Some(p) => {
                &&& m.duration == (if p.duration.secs > 0 || p.duration.nanos > 0 { Some(p.duration) } else { None })
                &&& m.sample_rate == p.sample_rate
                &&& m.bitrate == p.bitrate
                &&& match p.tag {
                    None => {
                        &&& m.artist is None && m.album is None
                        &&& m.year is None && m.track_number is None && m.disc_number is None
                        &&& m.lyrics.view() == LyricsView::NotFound
                    },
                    Some(t) => {
                        &&& opt_seq(m.artist) == opt_seq(t.artist)
                        &&& opt_seq(m.album) == opt_seq(t.album)
                        &&& m.year == t.year
                        &&& m.track_number == t.track
                        &&& m.disc_number == t.disk
                        &&& m.lyrics.view() == match t.lyrics {
                            Some(text) => tag_lyrics(text@),
                            None => LyricsView::NotFound,
                        }
                    },
                }
            },
        },
{
    let mut meta = TrackMetadata::empty();
    meta.title = stem;
    match probed {
        None => {},
        Some(p) => {
            if p.duration.is_nonzero() {
                meta.duration = Some(p.duration);
            }
            meta.sample_rate = p.sample_rate;
            meta.bitrate = p.bitrate;
            match p.tag {
                None => {},
                Some(t) => {
                    match t.title {
                        Some(x) => {
                            if !x.as_str().is_empty() {
                                meta.title = Some(x);
                            }
                        },
                        None => {},
                    }
                    meta.artist = t.artist;
                    meta.album = t.album;
                    meta.year = t.year;
                    meta.track_number = t.track;
                    meta.disc_number = t.disk;
                    match t.lyrics {
                        Some(text) => {
                            meta.lyrics = lyrics_from_tag(text.as_str());
                        },
                        None => {},
                    }
                },
            }
        },
    }
    meta.sanitized_title = match &meta.title {
        Some(t) => Some(sanitize_title(t.as_str())),
        None => None,
    };
    meta
}

/// Metadata as values.
pub struct MetaView {
    pub title: Option<Seq<char>>,
    pub sanitized_title: Option<Seq<char>>,
    pub artist: Option<Seq<char>>,
    pub album: Option<Seq<char>>,
    pub year: Option<u32>,
    pub track_number: Option<u32>,
    pub disc_number: Option<u32>,
    pub duration: Option<TrackDuration>,
    pub cover_art: Option<Seq<u8>>,
    pub lyrics: LyricsView,
    pub sample_rate: Option<u32>,
    pub bitrate: Option<u32>,
}

/// Decimal notation reads back as the number it was written for.
proof fn lemma_decimal_reads_back(n: nat)
    ensures
        all_digits(decimal(n)),
        decimal(n).len() > 0,
        digits_value(decimal(n)) == n,
    decreases n,
{
    if n < 10 {
        let s = decimal(n);
        assert(s.drop_last() =~= Seq::<char>::empty());
        assert(digit_char(n) as int == 48 + n);
        assert(s.last() == digit_char(n));
        assert(digits_value(s) == digits_value(s.drop_last()) * 10 + (s.last() as int - 48));
    } else {
        lemma_decimal_reads_back(n / 10);
        let s = decimal(n);
        assert(s.drop_last() =~= decimal(n / 10));
        assert(digit_char(n % 10) as int == 48 + n % 10);
        assert(s.last() == digit_char(n % 10));
        assert(digits_value(s) == digits_value(s.drop_last()) * 10 + (s.last() as int - 48));
        assert forall|i: int| 0 <= i < s.len() implies is_digit(#[trigger] s[i]) by {
            if i < s.len() - 1 {
                assert(s[i] == decimal(n / 10)[i]);
            }
        }
    }
}

impl View for TrackMetadata {
    type V = MetaView;

    open spec fn view(&self) -> MetaView {
        MetaView {
            title: opt_seq(self.title),
            sanitized_title: opt_seq(self.sanitized_title),
            artist: opt_seq(self.artist),
            album: opt_seq(self.album),
            year: self.year,
            track_number: self.track_number,
            disc_number: self.disc_number,
            duration: self.duration,
            cover_art: match self.cover_art {
                Some(v) => Some(v@),
                None => None,
            },
            lyrics: self.lyrics.view(),
            sample_rate: self.sample_rate,
            bitrate: self.bitrate,
        }
    }
}

fn copy_opt_string(o: &Option<String>) -> (r: Option<String>)
    ensures
        opt_seq(r) == opt_seq(*o),
{
    match o {
        Some(s) => Some(s.clone()),
        None => None,
    }
}

fn copy_strings(v: &Vec<String>) -> (r: Vec<String>)
    ensures
        r@.map_values(|l: String| l@) == v@.map_values(|l: String| l@),
{
    let mut out: Vec<String> = Vec::new();
    let mut i: usize = 0;
    while i < v.len()
        invariant
            i <= v@.len(),
            out@.map_values(|l: String| l@) == v@.take(i as int).map_values(|l: String| l@),
        decreases v@.len() - i,
    {
        let c = v[i].clone();
        let ghost before = out@.map_values(|l: String| l@);
        out.push(c);
        assert(out@.map_values(|l: String| l@) =~= before.push(v@[i as int]@));
        assert(v@.take(i + 1).map_values(|l: String| l@) =~= v@.take(i as int).map_values(|l: String| l@).push(v@[i as int]@));
        i = i + 1;
    }
    assert(v@.take(v@.len() as int) =~= v@);
    out
}

fn copy_bytes(v: &Vec<u8>) -> (r: Vec<u8>)
    ensures
        r@ == v@,
{
    let mut out: Vec<u8> = Vec::new();
    let mut i: usize = 0;
    while i < v.len()
        invariant
            i <= v@.len(),
            out@ == v@.take(i as int),
        decreases v@.len() - i,
    {
        out.push(v[i]);
        assert(out@ =~= v@.take(i + 1));
        i = i + 1;
    }
    assert(v@.take(v@.len() as int) =~= v@);
    out
}

impl LyricsKind {
    /// A copy of the lyrics.
    pub fn duplicate(&self) -> (r: Self)
        ensures
            r.view() == self.view(),
    {
        match self {
            LyricsKind::Timed(v) => {
                let mut out: Vec<LrcLine> = Vec::new();
                let mut i: usize = 0;
                while i < v.len()
                    invariant
                        i <= v@.len(),
                        out@.map_values(|l: LrcLine| (l.stamp@, l.text@)) == v@.take(i as int).map_values(|l: LrcLine| (l.stamp@, l.text@)),
                    decreases v@.len() - i,
                {
                    let c = LrcLine { stamp: v[i].stamp.clone(), text: v[i].text.clone() };
                    let ghost before = out@.map_values(|l: LrcLine| (l.stamp@, l.text@));
                    out.push(c);
                    assert(out@.map_values(|l: LrcLine| (l.stamp@, l.text@)) =~= before.push((v@[i as int].stamp@, v@[i as int].text@)));
                    assert(v@.take(i + 1).map_values(|l: LrcLine| (l.stamp@, l.text@)) =~= v@.take(i as int).map_values(|l: LrcLine| (l.stamp@, l.text@)).push((v@[i as int].stamp@, v@[i as int].text@)));
                    i = i + 1;
                }
                assert(v@.take(v@.len() as int) =~= v@);
                LyricsKind::Timed(out)
            },
            LyricsKind::Untimed(v) => LyricsKind::Untimed(copy_strings(v)),
            LyricsKind::NotFound => LyricsKind::NotFound,
        }
    }
}

impl TrackMetadata {
    /// A copy of the metadata.
    pub fn duplicate(&self) -> (r: Self)
        ensures
            r@ == self@,
    {
        TrackMetadata {
            title: copy_opt_string(&self.title),
            sanitized_title: copy_opt_string(&self.sanitized_title),
            artist: copy_opt_string(&self.artist),
            album: copy_opt_string(&self.album),
            year: self.year,
            track_number: self.track_number,
            disc_number: self.disc_number,
            duration: self.duration,
            cover_art: match &self.cover_art {
                Some(v) => Some(copy_bytes(v)),
                None => None,
            },
            lyrics: self.lyrics.duplicate(),
            sample_rate: self.sample_rate,
            bitrate: self.bitrate,
        }
    }
}

} // verus!
