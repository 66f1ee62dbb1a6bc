//! View state and layout arithmetic of the terminal interface.

use vstd::prelude::*;

use crate::lyrics::WordTimestamp;
use crate::text::{chars_of, decimal, decimal_two, push_decimal, push_decimal_two, string_of, trim, trim_chars};

verus! {

/// Which panel is currently active / focused.
#[derive(Debug, Clone, Copy, PartialEq, Eq, Structural)]
pub enum ActivePanel {
    Queue,
    Library,
    NowPlaying,
    Search,
    Help,
}

impl ActivePanel {
    /// The position of the panel in the tab order.
    pub open spec fn rank(self) -> int {
        match self {
            ActivePanel::Queue => 0,
            ActivePanel::Library => 1,
            ActivePanel::NowPlaying => 2,
            ActivePanel::Search => 3,
            ActivePanel::Help => 4,
        }
    }

    /// The next panel in tab order (after Help comes Queue).
    pub fn next(self) -> (r: Self)
        ensures
            r.rank() == (self.rank() + 1) % 5,
    {
        match self {
            ActivePanel::Queue => ActivePanel::Library,
            ActivePanel::Library => ActivePanel::NowPlaying,
            ActivePanel::NowPlaying => ActivePanel::Search,
            ActivePanel::Search => ActivePanel::Help,
            ActivePanel::Help => ActivePanel::Queue,
        }
    }

    /// The previous panel in tab order (before Queue comes Help).
    pub fn prev(self) -> (r: Self)
        ensures
            r.rank() == (self.rank() + 4) % 5,
    {
        match self {
            ActivePanel::Queue => ActivePanel::Help,
            ActivePanel::Library => ActivePanel::Queue,
            ActivePanel::NowPlaying => ActivePanel::Library,
            ActivePanel::Search => ActivePanel::NowPlaying,
            ActivePanel::Help => ActivePanel::Search,
        }
    }
}

/// Going to the next panel and then to the previous one (or the other way round) returns
/// to the panel one started from; five steps forward make a full round.
pub proof fn lemma_panel_cycle(p: ActivePanel, q: ActivePanel, r: ActivePanel)
    requires
        q.rank() == (p.rank() + 1) % 5,
        r.rank() == (q.rank() + 4) % 5,
    ensures
        r == p,
{
}

/// Visualizer mode.
#[derive(Debug, Clone, Copy, PartialEq, Eq, Structural)]
pub enum VisualizerMode {
    Spectrum,
    Braille,
}

impl VisualizerMode {
    /// The other mode.
    pub fn toggle(self) -> (r: Self)
        ensures
            r != self,
    {
        match self {
            VisualizerMode::Spectrum => VisualizerMode::Braille,
            VisualizerMode::Braille => VisualizerMode::Spectrum,
        }
    }
}

/// The width of the album art pane: none below 65 columns, else 35% of the terminal width
/// clamped to 20..=50 columns.
pub open spec fn art_width(terminal_width: int) -> int {
    if terminal_width < 65 {
        0
    } else {
        let w = (terminal_width * 35) / 100;
        if w < 20 {
            20
        } else if w > 50 {
            50
        } else {
            w
        }
    }
}

/// Returns the width of the album art pane, collapsing below 65 columns.
pub fn art_pane_width(terminal_width: u16) -> (r: u16)
    ensures
        r == art_width(terminal_width as int),
{
    if terminal_width < 65 {
        0
    } else {
        let width: u32 = (terminal_width as u32 * 35) / 100;
        if width < 20 {
            20
        } else if width > 50 {
            50
        } else {
            width as u16
        }
    }
}

/// The rows of the ASCII art logo.
pub const LOGO_ROWS: u16 = 6;

/// Returns the number of rows the logo occupies.
pub fn logo_height() -> (r: u16)
    ensures
        r == LOGO_ROWS,
{
    LOGO_ROWS
}

/// The time `ms` milliseconds as minutes, a colon and two digits of seconds.
pub open spec fn time_text(ms: nat) -> Seq<char> {
    decimal(ms / 1000 / 60) + seq![':'] + decimal_two(ms / 1000 % 60)
}

/// Formats a time in milliseconds as `m:ss`.
pub fn format_time(ms: u64) -> (r: String)
    ensures
        r@ == time_text(ms as nat),
{
    let total_secs = ms / 1000;
    let mut out = String::new();
    push_decimal(&mut out, total_secs / 60);
    out.push(':');
    push_decimal_two(&mut out, total_secs % 60);
    assert(out@ =~= time_text(ms as nat));
    out
}

/// The displayed width of a string in terminal columns, as `unicode-width` computes it.
pub uninterp spec fn display_width(s: Seq<char>) -> nat;

/// `UnicodeWidthStr::width` of `s`.
#[verifier::external_body]
pub(crate) fn str_width(s: &str) -> (r: usize)
    ensures
        r == display_width(s@),
{
    unicode_width::UnicodeWidthStr::width(s)
}

/// `n` spaces.
pub open spec fn spaces(n: nat) -> Seq<char> {
    Seq::new(n, |i: int| ' ')
}

/// `text` centered in `width` columns with spaces on both sides, or `text` alone when it is
/// as wide as `width` or wider.
pub open spec fn centered(text: Seq<char>, width: nat) -> Seq<char> {
    let w = display_width(text);
    if w >= width {
        text
    } else {
        let left = ((width - w) / 2) as nat;
        let right = if left + w <= width { (width - (left + w)) as nat } else { 0 };
        spaces(left) + text + spaces(right)
    }
}

fn push_spaces(out: &mut String, n: usize)
    ensures
        final(out)@ == old(out)@ + spaces(n as nat),
{
    let mut i: usize = 0;
    while i < n
        invariant
            i <= n,
            out@ == old(out)@ + spaces(i as nat),
        decreases n - i,
    {
        out.push(' ');
        assert(out@ =~= old(out)@ + spaces((i + 1) as nat));
        i = i + 1;
    }
}

/// Centers a single-span text within a given width, padding left and right with spaces.
pub fn center_pad(text: &str, width: usize) -> (r: String)
    ensures
        r@ == centered(text@, width as nat),
{
    let visual_width = str_width(text);
    if visual_width >= width {
        String::from_str(text)
    } else {
        let left_pad = (width - visual_width) / 2;
        let right_pad = width - (left_pad + visual_width);
        let mut out = String::new();
        push_spaces(&mut out, left_pad);
        out.append(text);
        push_spaces(&mut out, right_pad);
        assert(out@ =~= centered(text@, width as nat));
        out
    }
}

/// The first row shown of a list of `total` rows, `height` rows at a time: the list scrolls
/// just enough to keep row `cursor` on screen, and never past its last row.
pub open spec fn scroll_top(cursor: int, height: int, total: int) -> int {
    let s = if height > 0 && cursor >= height { cursor - height + 1 } else { 0 };
    let last = if total > 0 { total - 1 } else { 0 };
    if s < last { s } else { last }
}

/// The first row shown of a list (see `scroll_top`).
pub fn list_scroll(cursor: usize, height: usize, total: usize) -> (r: usize)
    ensures
        r == scroll_top(cursor as int, height as int, total as int),
{
    let s = if height > 0 && cursor >= height { cursor - height + 1 } else { 0 };
    let last = if total > 0 { total - 1 } else { 0 };
    if s < last { s } else { last }
}

/// The rows shown of a list: from the scroll top up to `height` rows further, within the list.
pub fn visible_rows(cursor: usize, height: usize, total: usize) -> (r: (usize, usize))
    requires
        total + height <= usize::MAX,
    ensures
        r.0 == scroll_top(cursor as int, height as int, total as int),
        r.1 == if r.0 + height < total { r.0 + height } else if r.0 < total { total as int } else { r.0 as int },
{
    let start = list_scroll(cursor, height, total);
    let end = if start + height < total { start + height } else { total };
    let end = if end < start { start } else { end };
    (start, end)
}

/// The tree lines drawn for the ancestors of a library row: a blank column under an
/// ancestor that was the last of its siblings, a vertical line otherwise.
pub open spec fn branch_lines(anc: Seq<bool>) -> Seq<char>
    decreases anc.len(),
{
    if anc.len() == 0 {
        Seq::empty()
    } else {
        branch_lines(anc.drop_last()) + if anc.last() { "    "@ } else { "│   "@ }
    }
}

/// What precedes the icon of a library row: the enqueue mark, the ancestors' tree lines and
/// the row's own branch (a corner for the last of its siblings).
pub open spec fn row_prefix(enqueued: bool, anc: Seq<bool>, is_last: bool) -> Seq<char> {
    (if enqueued { "  * "@ } else { "    "@ }) + branch_lines(anc) + if is_last { "└── "@ } else { "├── "@ }
}

/// The text before the icon of a library row (see `row_prefix`).
pub fn library_row_prefix(enqueued: bool, ancestor_last: &Vec<bool>, is_last: bool) -> (r: String)
    ensures
        r@ == row_prefix(enqueued, ancestor_last@, is_last),
{
    let mut out = if enqueued { String::from_str("  * ") } else { String::from_str("    ") };
    let ghost head = out@;
    let mut i: usize = 0;
    assert(ancestor_last@.take(0) =~= Seq::<bool>::empty());
    while i < ancestor_last.len()
        invariant
            i <= ancestor_last@.len(),
            out@ == head + branch_lines(ancestor_last@.take(i as int)),
        decreases ancestor_last@.len() - i,
    {
        assert(ancestor_last@.take(i + 1).drop_last() =~= ancestor_last@.take(i as int));
        if ancestor_last[i] {
            out.append("    ");
        } else {
            out.append("│   ");
        }
        assert(out@ =~= head + branch_lines(ancestor_last@.take(i + 1)));
        i = i + 1;
    }
    assert(ancestor_last@.take(ancestor_last@.len() as int) =~= ancestor_last@);
    if is_last {
        out.append("└── ");
    } else {
        out.append("├── ");
    }
    assert(out@ =~= row_prefix(enqueued, ancestor_last@, is_last));
    out
}

/// The icon of a library row: an open or closed folder for a directory, a note for a track.
pub fn library_row_icon(is_dir: bool, collapsed: bool) -> (r: &'static str)
    ensures
        r@ == if is_dir { if collapsed { "▶ 📁 "@ } else { "▼ 📁 "@ } } else { "♪  "@ },
{
    if is_dir {
        if collapsed { "▶ 📁 " } else { "▼ 📁 " }
    } else {
        "♪  "
    }
}

/// The header row of the library, marked when every track row is queued.
pub fn library_header(all_enqueued: bool) -> (r: &'static str)
    ensures
        r@ == if all_enqueued { "*- MUSIC LIBRARY -"@ } else { "  - MUSIC LIBRARY -"@ },
{
    if all_enqueued { "*- MUSIC LIBRARY -" } else { "  - MUSIC LIBRARY -" }
}

/// The icon of a search result: a folder for a directory, a note for a track.
pub fn search_row_icon(is_dir: bool) -> (r: &'static str)
    ensures
        r@ == if is_dir { "📁 "@ } else { "♪  "@ },
{
    if is_dir { "📁 " } else { "♪  " }
}

/// The hint line under each panel.
pub fn panel_hint(panel: ActivePanel) -> (r: &'static str)
    ensures
        r@ == match panel {
            ActivePanel::Queue => "Move: ↑/↓/k/j  •  Play: Enter  •  Remove: d"@,
            ActivePanel::Library => "Navigate: ↑/↓/k/j  •  Expand/Enqueue: Enter  •  Search: /"@,
            ActivePanel::Search => "Type to search  •  Select: ↑/↓  •  Enqueue: Enter"@,
            ActivePanel::NowPlaying => "Lyrics Mode: m  •  Visualizer Mode: v"@,
            ActivePanel::Help => "Switch Views: F2-F6 / Tab  •  Quit: q / Esc"@,
        },
{
    match panel {
        ActivePanel::Queue => "Move: ↑/↓/k/j  •  Play: Enter  •  Remove: d",
        ActivePanel::Library => "Navigate: ↑/↓/k/j  •  Expand/Enqueue: Enter  •  Search: /",
        ActivePanel::Search => "Type to search  •  Select: ↑/↓  •  Enqueue: Enter",
        ActivePanel::NowPlaying => "Lyrics Mode: m  •  Visualizer Mode: v",
        ActivePanel::Help => "Switch Views: F2-F6 / Tab  •  Quit: q / Esc",
    }
}

/// The text of a lyric line as shown: trimmed, with a note before the active line.
pub open spec fn lyric_text(text: Seq<char>, active: bool) -> Seq<char> {
    if active { "♪ "@ + trim(text) } else { trim(text) }
}

/// A lyric line as drawn: its text (see `lyric_text`) centered in `width` columns.
pub fn lyric_row(text: &str, active: bool, width: usize) -> (r: String)
    ensures
        r@ == centered(lyric_text(text@, active), width as nat),
{
    let v = chars_of(text);
    let t = string_of(&trim_chars(&v));
    if active {
        let mut s = String::from_str("♪ ");
        s.append(t.as_str());
        center_pad(s.as_str(), width)
    } else {
        center_pad(t.as_str(), width)
    }
}

/// The words of a timed line joined, as the word-highlighted line shows them after its note.
pub open spec fn joined_words(ws: Seq<WordTimestamp>) -> Seq<char>
    decreases ws.len(),
{
    if ws.len() == 0 {
        Seq::empty()
    } else {
        joined_words(ws.drop_last()) + ws.last().word@
    }
}

/// The spaces left and right of a word-highlighted line: the note and the trimmed joined
/// words are centered in `width` columns (nothing when they do not fit).
pub fn word_line_padding(words: &Vec<WordTimestamp>, width: usize) -> (r: (usize, usize))
    ensures
        ({
            let w = display_width("♪ "@ + trim(joined_words(words@)));
            let left = if width >= w { (width - w) / 2 } else { 0 };
            &&& r.0 == left
            &&& r.1 == if width >= left + w { width - (left + w) } else { 0 }
        }),
{
    let mut all = String::new();
    let mut i: usize = 0;
    while i < words.len()
        invariant
            i <= words@.len(),
            all@ == joined_words(words@.take(i as int)),
        decreases words@.len() - i,
    {
        assert(words@.take(i + 1).drop_last() =~= words@.take(i as int));
        all.append(words[i].word.as_str());
        i = i + 1;
    }
    assert(words@.take(words@.len() as int) =~= words@);
    let v = chars_of(all.as_str());
    let t = string_of(&trim_chars(&v));
    let mut s = String::from_str("♪ ");
    s.append(t.as_str());
    let w = str_width(s.as_str());
    let left = if width >= w { (width - w) / 2 } else { 0 };
    let right = if left <= width && w <= width - left { width - (left + w) } else { 0 };
    (left, right)
}

/// The logo is 40 columns wide.
pub const LOGO_WIDTH: usize = 40;

/// The spaces before the logo to center it, none when it does not fit.
pub fn logo_padding(total_width: usize) -> (r: usize)
    ensures
        r == if total_width > LOGO_WIDTH { (total_width - LOGO_WIDTH) / 2 } else { 0 },
{
    if total_width > LOGO_WIDTH { (total_width - LOGO_WIDTH) / 2 } else { 0 }
}

/// The song shown beside the middle row of the logo: a play mark and the name, cut to the
/// columns left (with an ellipsis) when it is longer. `None` when no column is left.
pub open spec fn song_beside_logo_spec(total_width: int, song: Seq<char>) -> Option<Seq<char>> {
    if total_width > LOGO_WIDTH as int {
        let padding = (total_width - LOGO_WIDTH as int) / 2;
        let room = total_width - (padding + LOGO_WIDTH as int + 5);
        let max = if room > 0 { room } else { 0 };
        if max > 0 {
            let shown = if song.len() > max && max > 3 { song.take(max - 3) + "..."@ } else { song };
            Some("▶ "@ + shown)
        } else {
            None
        }
    } else {
        None
    }
}

/// The song text beside the logo (see `song_beside_logo_spec`).
pub fn song_beside_logo(total_width: usize, song: &str) -> (r: Option<String>)
    requires
        total_width <= usize::MAX / 2,
    ensures
        match r {
            Some(s) => song_beside_logo_spec(total_width as int, song@) == Some(s@),
            None => song_beside_logo_spec(total_width as int, song@) is None,
        },
{
    if total_width <= LOGO_WIDTH {
        return None;
    }
    let padding = (total_width - LOGO_WIDTH) / 2;
    let used = padding + LOGO_WIDTH + 5;
    let max = if total_width > used { total_width - used } else { 0 };
    if max == 0 {
        return None;
    }
    let v = chars_of(song);
    let mut out = String::from_str("▶ ");
    if v.len() > max && max > 3 {
        let mut k: usize = 0;
        let mut cut: Vec<char> = Vec::new();
        while k < max - 3
            invariant
                k <= max - 3,
                max - 3 <= v@.len(),
                cut@ == v@.take(k as int),
            decreases max - 3 - k,
        {
            cut.push(v[k]);
            assert(cut@ =~= v@.take(k + 1));
            k = k + 1;
        }
        let c = string_of(&cut);
        out.append(c.as_str());
        out.append("...");
    } else {
        out.append(song);
    }
    Some(out)
}

} // verus!
