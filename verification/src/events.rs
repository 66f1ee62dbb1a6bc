//! Routing of key presses and mouse clicks: what each input does to the view state, and
//! which application action it asks for.

use vstd::prelude::*;

use crate::library::{entry_path, FlatLibraryItem, PathSet};
use crate::playlist::{removed_queue, Playlist, QueueVisualItem, RepeatMode, VisualItemView};
use crate::text::{chars_of, string_of};
use crate::ui::{list_scroll, scroll_top, ActivePanel};

verus! {

/// A key, as far as the interface distinguishes keys.
#[derive(Debug, Clone, Copy, PartialEq, Eq, Structural)]
pub enum Key {
    Char(char),
    F(u8),
    Esc,
    Tab,
    BackTab,
    Up,
    Down,
    Left,
    Right,
    Enter,
    Backspace,
    Delete,
    Other,
}

/// A key event: the key, whether it is a release, and whether Alt was held.
#[derive(Debug, Clone, Copy, PartialEq, Eq, Structural)]
pub struct KeyPress {
    pub key: Key,
    pub release: bool,
    pub alt: bool,
}

/// What the application is asked to do after an input.
#[derive(Debug, Clone, Copy, PartialEq, Eq, Structural)]
pub enum AppAction {
    Quit,
    TogglePause,
    NextTrack,
    PrevTrack,
    Stop,
    SeekBackward,
    SeekForward,
    VolumeUp,
    VolumeDown,
    ToggleShuffle,
    CycleRepeat,
    ToggleVisualizer,
    SearchArtistWeb,
    SearchSongWeb,
    /// Expand the directory of this library row.
    ExpandDir(usize),
    /// Collapse the directory of this library row.
    CollapseDir(usize),
    /// Play the queue entry under the queue cursor.
    PlayQueueEntry,
    /// Enqueue (or dequeue) the library selection; the flag asks to play it now.
    LibraryEnqueue(bool),
    /// Enqueue (or dequeue) the selected search result; the flag asks to play it now.
    SearchEnqueue(bool),
    /// Delete the queue entry under the queue cursor.
    DeleteQueueEntry,
    /// Move queue entry `i` one place up.
    MoveUp(usize),
    /// Move queue entry `i` one place down.
    MoveDown(usize),
    ClearPlaylist,
    RunSearch,
    FinalizeDirInput,
    /// Start playing the current entry of the queue.
    PlayCurrent,
    /// Flatten the library again (the queue changed, so the enqueue marks did).
    RebuildLibraryView,
    /// Move the cursor of the active list to where the scrollbar was clicked.
    ScrollbarJump,
    /// Seek to where the progress bar was clicked.
    ProgressSeek,
}

/// The view state that key presses and clicks change.
pub struct UiState {
    pub active_panel: ActivePanel,
    pub searching: bool,
    pub awaiting_dir_input: bool,
    pub player_loading: bool,
    pub search_query: String,
    pub dir_input: String,
    pub queue_cursor: usize,
    pub library_cursor: usize,
    pub search_cursor: usize,
    pub show_full_lyrics: bool,
    pub lyrics_scroll: u16,
    pub refresh_needed: bool,
}

/// The view state as values.
pub struct UiView {
    pub active_panel: ActivePanel,
    pub searching: bool,
    pub awaiting_dir_input: bool,
    pub player_loading: bool,
    pub search_query: Seq<char>,
    pub dir_input: Seq<char>,
    pub queue_cursor: usize,
    pub library_cursor: usize,
    pub search_cursor: usize,
    pub show_full_lyrics: bool,
    pub lyrics_scroll: u16,
    pub refresh_needed: bool,
}

impl View for UiState {
    type V = UiView;

    open spec fn view(&self) -> UiView {
        UiView {
            active_panel: self.active_panel,
            searching: self.searching,
            awaiting_dir_input: self.awaiting_dir_input,
            player_loading: self.player_loading,
            search_query: self.search_query@,
            dir_input: self.dir_input@,
            queue_cursor: self.queue_cursor,
            library_cursor: self.library_cursor,
            search_cursor: self.search_cursor,
            show_full_lyrics: self.show_full_lyrics,
            lyrics_scroll: self.lyrics_scroll,
            refresh_needed: self.refresh_needed,
        }
    }
}

/// The lengths of the three lists the cursors move over.
#[derive(Debug, Clone, Copy, PartialEq, Eq, Structural)]
pub struct ListSizes {
    /// Entries in the queue.
    pub queue: usize,
    /// Rows of the flattened library (the header row not counted).
    pub library: usize,
    /// Search results.
    pub results: usize,
}

/// The panel after `next_panel`.
pub open spec fn panel_after(p: ActivePanel) -> ActivePanel {
    match p {
        ActivePanel::Queue => ActivePanel::Library,
        ActivePanel::Library => ActivePanel::NowPlaying,
        ActivePanel::NowPlaying => ActivePanel::Search,
        ActivePanel::Search => ActivePanel::Help,
        ActivePanel::Help => ActivePanel::Queue,
    }
}

/// The panel after `prev_panel`.
pub open spec fn panel_before(p: ActivePanel) -> ActivePanel {
    match p {
        ActivePanel::Queue => ActivePanel::Help,
        ActivePanel::Library => ActivePanel::Queue,
        ActivePanel::NowPlaying => ActivePanel::Library,
        ActivePanel::Search => ActivePanel::NowPlaying,
        ActivePanel::Help => ActivePanel::Search,
    }
}

/// `s` without its last character (unchanged when empty).
pub open spec fn popped(s: Seq<char>) -> Seq<char> {
    if s.len() > 0 {
        s.drop_last()
    } else {
        s
    }
}

/// Removes the last character of `s`, if any.
pub fn pop_char(s: &mut String)
    ensures
        final(s)@ == popped(old(s)@),
{
    let mut v = chars_of(s.as_str());
    if v.len() > 0 {
        v.pop();
        *s = string_of(&v);
    }
}

/// The view state after moving the cursor of the active list one step up.
pub open spec fn scrolled_up(s: UiView) -> UiView {
    match s.active_panel {
        ActivePanel::Queue => if s.queue_cursor > 0 {
            UiView { queue_cursor: (s.queue_cursor - 1) as usize, ..s }
        } else {
            s
        },
        ActivePanel::Library => if s.library_cursor > 0 {
            UiView { library_cursor: (s.library_cursor - 1) as usize, ..s }
        } else {
            s
        },
        ActivePanel::Search => if s.search_cursor > 0 {
            UiView { search_cursor: (s.search_cursor - 1) as usize, ..s }
        } else {
            s
        },
        ActivePanel::NowPlaying => if s.show_full_lyrics && s.lyrics_scroll > 0 {
            UiView { lyrics_scroll: (s.lyrics_scroll - 1) as u16, ..s }
        } else {
            s
        },
        ActivePanel::Help => s,
    }
}

/// The view state after moving the cursor of the active list one step down. The queue cursor
/// stops at the last entry, the library cursor at the last row (row 0 is the header), the
/// search cursor at the last result; the full lyrics scroll stops at the largest offset.
pub open spec fn scrolled_down(s: UiView, n: ListSizes) -> UiView {
    match s.active_panel {
        ActivePanel::Queue => if s.queue_cursor + 1 < n.queue {
            UiView { queue_cursor: (s.queue_cursor + 1) as usize, ..s }
        } else {
            s
        },
        ActivePanel::Library => if s.library_cursor < n.library {
            UiView { library_cursor: (s.library_cursor + 1) as usize, ..s }
        } else {
            s
        },
        ActivePanel::Search => if s.search_cursor + 1 < n.results {
            UiView { search_cursor: (s.search_cursor + 1) as usize, ..s }
        } else {
            s
        },
        ActivePanel::NowPlaying => if s.show_full_lyrics && s.lyrics_scroll < u16::MAX {
            UiView { lyrics_scroll: (s.lyrics_scroll + 1) as u16, ..s }
        } else {
            s
        },
        ActivePanel::Help => s,
    }
}


/// The actions of Enter on a panel: with Alt, enqueue and play the selection of the library
/// or the search results; without, play the queue entry or enqueue the selection.
pub open spec fn enter_actions(p: ActivePanel, alt: bool) -> Seq<AppAction> {
    if alt {
        match p {
            ActivePanel::Library => seq![AppAction::LibraryEnqueue(true)],
            ActivePanel::Search => seq![AppAction::SearchEnqueue(true)],
            _ => Seq::empty(),
        }
    } else {
        match p {
            ActivePanel::Queue => seq![AppAction::PlayQueueEntry],
            ActivePanel::Library => seq![AppAction::LibraryEnqueue(false)],
            ActivePanel::Search => seq![AppAction::SearchEnqueue(false)],
            _ => Seq::empty(),
        }
    }
}

/// The state with the search panel open, search mode on and an empty query.
pub open spec fn open_search(s: UiView) -> UiView {
    UiView { active_panel: ActivePanel::Search, searching: true, search_query: Seq::empty(), ..s }
}

/// While the audio engine starts, only quitting and panel switching work; every other key
/// is swallowed. The view is marked for redraw unless the key quits.
pub open spec fn loading_key(s: UiView, k: Key) -> (UiView, Seq<AppAction>) {
    if k == Key::Char('q') || k == Key::Esc {
        (s, seq![AppAction::Quit])
    } else {
        let t = if k == Key::Tab {
            UiView { active_panel: panel_after(s.active_panel), ..s }
        } else if k == Key::BackTab {
            UiView { active_panel: panel_before(s.active_panel), ..s }
        } else if k == Key::F(2) {
            UiView { active_panel: ActivePanel::Queue, ..s }
        } else if k == Key::F(3) {
            UiView { active_panel: ActivePanel::Library, ..s }
        } else if k == Key::F(5) {
            open_search(s)
        } else if k == Key::F(6) {
            UiView { active_panel: ActivePanel::Help, ..s }
        } else {
            s
        };
        (UiView { refresh_needed: true, ..t }, Seq::empty())
    }
}

/// Panel keys end a search (clearing the query); F5 starts one.
pub open spec fn pre_route(s: UiView, k: Key) -> UiView {
    if k == Key::F(2) || k == Key::F(3) || k == Key::F(4) || k == Key::F(6) || k == Key::Tab || k == Key::BackTab {
        if s.searching || s.active_panel == ActivePanel::Search {
            UiView { searching: false, search_query: Seq::empty(), ..s }
        } else {
            s
        }
    } else if k == Key::F(5) {
        open_search(s)
    } else {
        s
    }
}

/// A key while typing a search query.
pub open spec fn search_key(s: UiView, k: Key, alt: bool, n: ListSizes) -> (UiView, Seq<AppAction>) {
    if k == Key::Esc {
        (UiView { searching: false, ..s }, Seq::empty())
    } else if k == Key::Enter {
        (UiView { searching: false, ..s }, enter_actions(s.active_panel, alt))
    } else if k == Key::Backspace {
        (UiView { search_query: popped(s.search_query), ..s }, seq![AppAction::RunSearch])
    } else if k == Key::Up {
        if s.search_cursor > 0 {
            (UiView { search_cursor: (s.search_cursor - 1) as usize, ..s }, Seq::empty())
        } else {
            (s, Seq::empty())
        }
    } else if k == Key::Down {
        if s.search_cursor + 1 < n.results {
            (UiView { search_cursor: (s.search_cursor + 1) as usize, ..s }, Seq::empty())
        } else {
            (s, Seq::empty())
        }
    } else {
        match k {
            Key::Char(c) => (UiView { search_query: s.search_query.push(c), ..s }, seq![AppAction::RunSearch]),
            _ => (s, Seq::empty()),
        }
    }
}

/// A key while typing the music directory on first run.
pub open spec fn dir_key(s: UiView, k: Key) -> (UiView, Seq<AppAction>) {
    if k == Key::Esc {
        (s, seq![AppAction::Quit])
    } else if k == Key::Enter {
        (s, seq![AppAction::FinalizeDirInput])
    } else if k == Key::Backspace {
        (UiView { dir_input: popped(s.dir_input), ..s }, Seq::empty())
    } else {
        match k {
            Key::Char(c) => (UiView { dir_input: s.dir_input.push(c), ..s }, Seq::empty()),
            _ => (s, Seq::empty()),
        }
    }
}

/// The library row under the cursor, if the library panel is active and the row is a
/// directory (row 0 of the cursor is the header, so row `i` sits at cursor `i + 1`).
pub open spec fn selected_dir_row(s: UiView, flat: Seq<FlatLibraryItem>) -> Option<usize> {
    if s.active_panel == ActivePanel::Library && s.library_cursor > 0 && s.library_cursor - 1 < flat.len()
        && flat[s.library_cursor - 1].entry is Directory {
        Some((s.library_cursor - 1) as usize)
    } else {
        None
    }
}

/// Whether the directory of a library row is collapsed.
pub open spec fn row_collapsed(flat: Seq<FlatLibraryItem>, i: int, collapsed: PathSet) -> bool {
    collapsed.has(entry_path(flat[i].entry))
}

pub open spec fn act(s: UiView, a: AppAction) -> (UiView, Seq<AppAction>) {
    (s, seq![a])
}

/// A key in the normal mode of the interface.
pub open spec fn main_key(s: UiView, k: KeyPress, n: ListSizes, flat: Seq<FlatLibraryItem>, collapsed: PathSet) -> (UiView, Seq<AppAction>) {
    let key = k.key;
    if key == Key::Char('q') || key == Key::Esc {
        act(s, AppAction::Quit)
    } else if key == Key::F(2) {
        (UiView { active_panel: ActivePanel::Queue, ..s }, Seq::empty())
    } else if key == Key::F(3) {
        (UiView { active_panel: ActivePanel::Library, ..s }, Seq::empty())
    } else if key == Key::F(4) {
        (UiView { active_panel: ActivePanel::NowPlaying, ..s }, Seq::empty())
    } else if key == Key::F(5) || key == Key::Char('/') {
        (open_search(s), Seq::empty())
    } else if key == Key::F(6) {
        (UiView { active_panel: ActivePanel::Help, ..s }, Seq::empty())
    } else if key == Key::Tab {
        (UiView { active_panel: panel_after(s.active_panel), refresh_needed: true, ..s }, Seq::empty())
    } else if key == Key::BackTab {
        (UiView { active_panel: panel_before(s.active_panel), refresh_needed: true, ..s }, Seq::empty())
    } else if key == Key::Char(' ') || key == Key::Char('p') {
        act(s, AppAction::TogglePause)
    } else if key == Key::Char('l') || key == Key::Right {
        match selected_dir_row(s, flat) {
            Some(i) => act(UiView { refresh_needed: true, ..s }, AppAction::ExpandDir(i)),
            None => act(s, AppAction::NextTrack),
        }
    } else if key == Key::Char('n') {
        act(s, AppAction::NextTrack)
    } else if key == Key::Char('h') || key == Key::Left {
        match selected_dir_row(s, flat) {
            Some(i) => act(UiView { refresh_needed: true, ..s }, AppAction::CollapseDir(i)),
            None => act(s, AppAction::PrevTrack),
        }
    } else if key == Key::Char('S') {
        act(s, AppAction::Stop)
    } else if key == Key::Char('a') {
        act(UiView { refresh_needed: true, ..s }, AppAction::SeekBackward)
    } else if key == Key::Char('d') {
        act(UiView { refresh_needed: true, ..s }, AppAction::SeekForward)
    } else if key == Key::Char('+') || key == Key::Char('=') {
        act(s, AppAction::VolumeUp)
    } else if key == Key::Char('-') || key == Key::Char('[') {
        act(s, AppAction::VolumeDown)
    } else if key == Key::Char('s') {
        act(s, AppAction::ToggleShuffle)
    } else if key == Key::Char('r') {
        act(s, AppAction::CycleRepeat)
    } else if key == Key::Char('v') {
        act(s, AppAction::ToggleVisualizer)
    } else if key == Key::Char('b') || key == Key::Char('B') {
        act(s, AppAction::SearchArtistWeb)
    } else if key == Key::Char('m') {
        if s.active_panel == ActivePanel::NowPlaying {
            (UiView { show_full_lyrics: !s.show_full_lyrics, lyrics_scroll: 0, ..s }, Seq::empty())
        } else {
            (s, Seq::empty())
        }
    } else if key == Key::Up || key == Key::Char('k') {
        (scrolled_up(s), Seq::empty())
    } else if key == Key::Down || key == Key::Char('j') {
        (scrolled_down(s, n), Seq::empty())
    } else if key == Key::Enter {
        (s, enter_actions(s.active_panel, k.alt))
    } else if key == Key::Char('G') {
        (s, enter_actions(s.active_panel, false))
    } else if key == Key::Char('o') || key == Key::Char('O') {
        match selected_dir_row(s, flat) {
            Some(i) => if row_collapsed(flat, i as int, collapsed) {
                act(UiView { refresh_needed: true, ..s }, AppAction::ExpandDir(i))
            } else {
                act(UiView { refresh_needed: true, ..s }, AppAction::CollapseDir(i))
            },
            None => (s, Seq::empty()),
        }
    } else if key == Key::Delete {
        act(s, AppAction::DeleteQueueEntry)
    } else if key == Key::Char('f') {
        if s.active_panel == ActivePanel::Queue {
            let c = if s.queue_cursor > 0 { (s.queue_cursor - 1) as usize } else { 0usize };
            act(UiView { queue_cursor: c, refresh_needed: true, ..s }, AppAction::MoveUp(s.queue_cursor))
        } else {
            (s, Seq::empty())
        }
    } else if key == Key::Char('g') {
        if s.active_panel == ActivePanel::Queue {
            let c = if s.queue_cursor + 1 < n.queue { (s.queue_cursor + 1) as usize } else { s.queue_cursor };
            act(UiView { queue_cursor: c, refresh_needed: true, ..s }, AppAction::MoveDown(s.queue_cursor))
        } else {
            (s, Seq::empty())
        }
    } else if key == Key::Backspace {
        act(s, AppAction::ClearPlaylist)
    } else {
        (s, Seq::empty())
    }
}

/// What a key event does: releases do nothing; while the audio engine starts only panel keys
/// and quitting work; panel keys end a search; a search or the first-run prompt takes typed
/// keys; otherwise the normal key map applies.
pub open spec fn key_outcome(s: UiView, k: KeyPress, n: ListSizes, flat: Seq<FlatLibraryItem>, collapsed: PathSet) -> (UiView, Seq<AppAction>) {
    if k.release {
        (s, Seq::empty())
    } else if s.player_loading && !s.awaiting_dir_input && !s.searching {
        loading_key(s, k.key)
    } else {
        let t = pre_route(s, k.key);
        if t.searching {
            search_key(t, k.key, k.alt, n)
        } else if t.awaiting_dir_input {
            dir_key(t, k.key)
        } else {
            main_key(t, k, n, flat, collapsed)
        }
    }
}


/// Every list cursor names an item of its list, or is 0 for an empty list; the library
/// cursor may also stand on the header row 0.
pub open spec fn cursors_in_lists(s: UiView, n: ListSizes) -> bool {
    &&& (s.queue_cursor < n.queue || s.queue_cursor == 0)
    &&& s.library_cursor <= n.library
    &&& (s.search_cursor < n.results || s.search_cursor == 0)
}

/// A key press never moves a list cursor past the end of its list.
pub proof fn lemma_keys_keep_cursors_in_lists(s: UiView, k: KeyPress, n: ListSizes, flat: Seq<FlatLibraryItem>, collapsed: PathSet)
    requires
        cursors_in_lists(s, n),
    ensures
        cursors_in_lists(key_outcome(s, k, n, flat, collapsed).0, n),
{
}

/// In normal mode (no search being typed, no directory prompt, the audio engine ready) a
/// player key asks for exactly its own action: `d` seeks forward and `a` backward, `q` and Esc
/// quit, space and `p` toggle pause, `n` skips to the next track, `S` stops, `+`/`=` raise and
/// `-`/`[` lower the volume, `s` toggles shuffle, `r` cycles repeat, `v` toggles the
/// visualizer, `b`/`B` look the artist up on the web, Delete deletes the queue entry under the
/// cursor and Backspace clears the queue.
pub proof fn lemma_player_keys(s: UiView, k: KeyPress, n: ListSizes, flat: Seq<FlatLibraryItem>, collapsed: PathSet)
    requires
        !k.release,
        !s.searching,
        !s.awaiting_dir_input,
        !s.player_loading,
    ensures
        ({
            let a = key_outcome(s, k, n, flat, collapsed).1;
            &&& k.key == Key::Char('d') ==> a == seq![AppAction::SeekForward]
            &&& k.key == Key::Char('a') ==> a == seq![AppAction::SeekBackward]
            &&& (k.key == Key::Char('q') || k.key == Key::Esc) ==> a == seq![AppAction::Quit]
            &&& (k.key == Key::Char(' ') || k.key == Key::Char('p')) ==> a == seq![AppAction::TogglePause]
            &&& k.key == Key::Char('n') ==> a == seq![AppAction::NextTrack]
            &&& k.key == Key::Char('S') ==> a == seq![AppAction::Stop]
            &&& (k.key == Key::Char('+') || k.key == Key::Char('=')) ==> a == seq![AppAction::VolumeUp]
            &&& (k.key == Key::Char('-') || k.key == Key::Char('[')) ==> a == seq![AppAction::VolumeDown]
            &&& k.key == Key::Char('s') ==> a == seq![AppAction::ToggleShuffle]
            &&& k.key == Key::Char('r') ==> a == seq![AppAction::CycleRepeat]
            &&& k.key == Key::Char('v') ==> a == seq![AppAction::ToggleVisualizer]
            &&& (k.key == Key::Char('b') || k.key == Key::Char('B')) ==> a == seq![AppAction::SearchArtistWeb]
            &&& k.key == Key::Delete ==> a == seq![AppAction::DeleteQueueEntry]
            &&& k.key == Key::Backspace ==> a == seq![AppAction::ClearPlaylist]
        }),
{
}

/// In normal mode the navigation keys: F2, F3, F4 and F6 show the queue, the library, the
/// now-playing panel and the help; F5 and `/` open an empty search; `l`/Right and `h`/Left
/// expand and collapse the directory under the library cursor, and elsewhere skip to the next
/// and previous track; in the queue, Up/`k` and Down/`j` move the cursor one entry, `f` and `g`
/// move the entry under it up and down, and Enter plays it; in the library Enter enqueues the
/// selection, and Alt+Enter enqueues and plays it.
pub proof fn lemma_navigation_keys(s: UiView, k: KeyPress, n: ListSizes, flat: Seq<FlatLibraryItem>, collapsed: PathSet)
    requires
        !k.release,
        !s.searching,
        !s.awaiting_dir_input,
        !s.player_loading,
    ensures
        ({
            let (t, a) = key_outcome(s, k, n, flat, collapsed);
            &&& k.key == Key::F(2) ==> t.active_panel == ActivePanel::Queue && a.len() == 0
            &&& k.key == Key::F(3) ==> t.active_panel == ActivePanel::Library && a.len() == 0
            &&& k.key == Key::F(4) ==> t.active_panel == ActivePanel::NowPlaying && a.len() == 0
            &&& k.key == Key::F(6) ==> t.active_panel == ActivePanel::Help && a.len() == 0
            &&& (k.key == Key::F(5) || k.key == Key::Char('/')) ==> t.active_panel == ActivePanel::Search
                && t.searching && t.search_query.len() == 0 && a.len() == 0
            &&& (k.key == Key::Char('l') || k.key == Key::Right) ==> a == (match selected_dir_row(s, flat) {
                Some(i) => seq![AppAction::ExpandDir(i)],
                None => seq![AppAction::NextTrack],
            })
            &&& (k.key == Key::Char('h') || k.key == Key::Left) ==> a == (match selected_dir_row(s, flat) {
                Some(i) => seq![AppAction::CollapseDir(i)],
                None => seq![AppAction::PrevTrack],
            })
            &&& s.active_panel == ActivePanel::Queue && (k.key == Key::Up || k.key == Key::Char('k')) ==> a.len() == 0
                && t.queue_cursor == (if s.queue_cursor > 0 { s.queue_cursor - 1 } else { 0 })
            &&& s.active_panel == ActivePanel::Queue && (k.key == Key::Down || k.key == Key::Char('j')) ==> a.len() == 0
                && t.queue_cursor == (if s.queue_cursor + 1 < n.queue { s.queue_cursor + 1 } else { s.queue_cursor as int })
            &&& s.active_panel == ActivePanel::Queue && k.key == Key::Char('f') ==> a == seq![AppAction::MoveUp(s.queue_cursor)]
            &&& s.active_panel == ActivePanel::Queue && k.key == Key::Char('g') ==> a == seq![AppAction::MoveDown(s.queue_cursor)]
            &&& s.active_panel == ActivePanel::Queue && k.key == Key::Enter ==> (k.alt ==> a.len() == 0) && (!k.alt
                ==> a == seq![AppAction::PlayQueueEntry])
            &&& s.active_panel == ActivePanel::Library && k.key == Key::Enter ==> a == seq![AppAction::LibraryEnqueue(k.alt)]
        }),
{
}

/// While the audio engine starts (and neither a search nor the directory prompt is open),
/// `q` and Esc still quit and every other key asks for nothing.
pub proof fn lemma_loading_keys(s: UiView, k: KeyPress, n: ListSizes, flat: Seq<FlatLibraryItem>, collapsed: PathSet)
    requires
        !k.release,
        !s.searching,
        !s.awaiting_dir_input,
        s.player_loading,
    ensures
        (k.key == Key::Char('q') || k.key == Key::Esc) ==> key_outcome(s, k, n, flat, collapsed).1 == seq![AppAction::Quit],
        !(k.key == Key::Char('q') || k.key == Key::Esc) ==> key_outcome(s, k, n, flat, collapsed).1.len() == 0,
{
}

/// While a search is typed, a character is added to the query and the search runs again,
/// Backspace takes the last character off and runs it again, and Esc leaves the search
/// asking for nothing; `q` is typed, it does not quit.
pub proof fn lemma_search_typing_keys(s: UiView, k: KeyPress, n: ListSizes, flat: Seq<FlatLibraryItem>, collapsed: PathSet)
    requires
        !k.release,
        s.searching,
    ensures
        ({
            let (t, a) = key_outcome(s, k, n, flat, collapsed);
            &&& (k.key matches Key::Char(c) ==> t.search_query == s.search_query.push(c) && a == seq![AppAction::RunSearch])
            &&& k.key == Key::Backspace ==> t.search_query == popped(s.search_query) && a == seq![AppAction::RunSearch]
            &&& k.key == Key::Esc ==> !t.searching && a.len() == 0
        }),
{
}

/// A key that seeks moves the playback position without touching the lists: `d` and `a`
/// leave the panel, the cursors, the search and the queue as they were.
pub proof fn lemma_seek_keys_keep_view(s: UiView, k: KeyPress, n: ListSizes, flat: Seq<FlatLibraryItem>, collapsed: PathSet)
    requires
        !k.release,
        !s.searching,
        !s.awaiting_dir_input,
        !s.player_loading,
        k.key == Key::Char('d') || k.key == Key::Char('a'),
    ensures
        key_outcome(s, k, n, flat, collapsed).0 == (UiView { refresh_needed: true, ..s }),
{
}

/// Builds `enter_actions(p, alt)`.
fn enter_actions_of(p: ActivePanel, alt: bool) -> (r: Vec<AppAction>)
    ensures
        r@ == enter_actions(p, alt),
{
    let mut v: Vec<AppAction> = Vec::new();
    if alt {
        match p {
            ActivePanel::Library => v.push(AppAction::LibraryEnqueue(true)),
            ActivePanel::Search => v.push(AppAction::SearchEnqueue(true)),
            _ => {},
        }
    } else {
        match p {
            ActivePanel::Queue => v.push(AppAction::PlayQueueEntry),
            ActivePanel::Library => v.push(AppAction::LibraryEnqueue(false)),
            ActivePanel::Search => v.push(AppAction::SearchEnqueue(false)),
            _ => {},
        }
    }
    assert(v@ =~= enter_actions(p, alt));
    v
}

fn one(a: AppAction) -> (r: Vec<AppAction>)
    ensures
        r@ == seq![a],
{
    let mut v: Vec<AppAction> = Vec::new();
    v.push(a);
    assert(v@ =~= seq![a]);
    v
}

fn none() -> (r: Vec<AppAction>)
    ensures
        r@ == Seq::<AppAction>::empty(),
{
    Vec::new()
}

fn panel_after_of(p: ActivePanel) -> (r: ActivePanel)
    ensures
        r == panel_after(p),
{
    match p {
        ActivePanel::Queue => ActivePanel::Library,
        ActivePanel::Library => ActivePanel::NowPlaying,
        ActivePanel::NowPlaying => ActivePanel::Search,
        ActivePanel::Search => ActivePanel::Help,
        ActivePanel::Help => ActivePanel::Queue,
    }
}

fn panel_before_of(p: ActivePanel) -> (r: ActivePanel)
    ensures
        r == panel_before(p),
{
    match p {
        ActivePanel::Queue => ActivePanel::Help,
        ActivePanel::Library => ActivePanel::Queue,
        ActivePanel::NowPlaying => ActivePanel::Library,
        ActivePanel::Search => ActivePanel::NowPlaying,
        ActivePanel::Help => ActivePanel::Search,
    }
}


/// A rectangle of terminal cells.
#[derive(Debug, Clone, Copy, PartialEq, Eq, Structural)]
pub struct Area {
    pub x: u16,
    pub y: u16,
    pub width: u16,
    pub height: u16,
}

/// Where the clickable parts of the last frame were drawn.
#[derive(Debug, Clone, Copy, PartialEq, Eq, Structural)]
pub struct UiBounds {
    pub scrollbar: Option<Area>,
    pub progress_bar: Option<Area>,
    pub footer_tabs: Option<Area>,
    pub mini_controls: Option<Area>,
    pub title: Option<Area>,
    pub artist: Option<Area>,
    pub left_panel: Option<Area>,
}

/// The kinds of mouse event the interface reacts to.
#[derive(Debug, Clone, Copy, PartialEq, Eq, Structural)]
pub enum MouseKind {
    LeftDown,
    LeftDrag,
    ScrollUp,
    ScrollDown,
    Other,
}

/// A mouse event at a terminal cell.
#[derive(Debug, Clone, Copy, PartialEq, Eq, Structural)]
pub struct MouseInput {
    pub kind: MouseKind,
    pub column: u16,
    pub row: u16,
}

pub open spec fn inside(a: Area, x: int, y: int) -> bool {
    a.x <= x < a.x + a.width && a.y <= y < a.y + a.height
}

/// On the one row of `a`, within its columns.
pub open spec fn on_row(a: Area, x: int, y: int) -> bool {
    y == a.y && a.x <= x < a.x + a.width
}

fn inside_of(a: Area, x: u16, y: u16) -> (r: bool)
    ensures
        r == inside(a, x as int, y as int),
{
    a.x <= x && (x as u32) < (a.x as u32) + (a.width as u32) && a.y <= y && (y as u32) < (a.y as u32) + (a.height as u32)
}

fn on_row_of(a: Area, x: u16, y: u16) -> (r: bool)
    ensures
        r == on_row(a, x as int, y as int),
{
    y == a.y && a.x <= x && (x as u32) < (a.x as u32) + (a.width as u32)
}

/// The panel of footer tab `i` (0 to 4).
pub open spec fn tab_panel(i: int) -> ActivePanel {
    if i == 0 {
        ActivePanel::Queue
    } else if i == 1 {
        ActivePanel::Library
    } else if i == 2 {
        ActivePanel::NowPlaying
    } else if i == 3 {
        ActivePanel::Search
    } else {
        ActivePanel::Help
    }
}

/// The footer is split in five equal tabs; a click past the fifth counts for the fifth.
pub open spec fn tab_at(a: Area, x: int) -> int {
    let w = a.width / 5;
    if w > 0 {
        let t = (x - a.x) / (w as int);
        if t < 4 { t } else { 4 }
    } else {
        0
    }
}

/// The view state after a click on footer tab `t`: that panel opens (the search panel in
/// search mode); leaving the search panel ends the search and clears the query.
pub open spec fn tab_clicked(s: UiView, t: int) -> UiView {
    let p = tab_panel(t);
    let s1 = if p == ActivePanel::Search {
        UiView { active_panel: p, searching: true, ..s }
    } else {
        UiView { active_panel: p, ..s }
    };
    let s2 = if s.active_panel == ActivePanel::Search && p != ActivePanel::Search {
        UiView { searching: false, search_query: Seq::empty(), ..s1 }
    } else {
        s1
    };
    UiView { refresh_needed: true, ..s2 }
}

/// The mini controls are six buttons, 21 columns in all, centered in their area: previous,
/// play/pause, next, volume up, volume down, clear.
pub open spec fn mini_button(a: Area, x: int) -> AppAction {
    let total_w = 21int;
    let indent = a.x + (if a.width > total_w { a.width - total_w } else { 0 }) / 2;
    if x < indent + 2 {
        AppAction::PrevTrack
    } else if x < indent + 6 {
        AppAction::TogglePause
    } else if x < indent + 10 {
        AppAction::NextTrack
    } else if x < indent + 14 {
        AppAction::VolumeUp
    } else if x < indent + 18 {
        AppAction::VolumeDown
    } else {
        AppAction::ClearPlaylist
    }
}

/// The first row of the queue view that shows entry `e`, or row 0 when none does.
pub open spec fn row_of_entry(items: Seq<VisualItemView>, e: usize, k: int) -> int
    decreases items.len() - k,
{
    if k < 0 || k >= items.len() {
        0
    } else if items[k] matches VisualItemView::Track(i, _, _) && i == e {
        k
    } else {
        row_of_entry(items, e, k + 1)
    }
}

/// A click on a list row: a row other than the cursor's moves the cursor there, the cursor's
/// own row acts as Enter.
pub open spec fn pick(s: UiView, cursor: usize, target: usize, moved: UiView) -> (UiView, Seq<AppAction>) {
    if cursor == target {
        (s, enter_actions(s.active_panel, false))
    } else {
        (moved, Seq::empty())
    }
}

/// A click on row `row` of the list in the left panel.
pub open spec fn list_clicked(s: UiView, a: Area, row: int, n: ListSizes, items: Seq<VisualItemView>) -> (UiView, Seq<AppAction>) {
    match s.active_panel {
        ActivePanel::Queue => {
            let half = (a.height as int) / 2;
            let hi = row_of_entry(items, s.queue_cursor, 0);
            let last = if items.len() > 0 { items.len() - 1 } else { 0 };
            let scroll0 = if hi > half { hi - half } else { 0 };
            let scroll = if scroll0 < last { scroll0 } else { last };
            let k = scroll + row;
            if k < items.len() {
                match items[k] {
                    VisualItemView::Track(e, _, _) => pick(s, s.queue_cursor, e, UiView { queue_cursor: e, ..s }),
                    _ => (s, Seq::empty()),
                }
            } else {
                (s, Seq::empty())
            }
        },
        ActivePanel::Library => {
            let total = n.library + 1;
            let target = scroll_top(s.library_cursor as int, a.height as int, total) + row;
            if target < total {
                pick(s, s.library_cursor, target as usize, UiView { library_cursor: target as usize, ..s })
            } else {
                (s, Seq::empty())
            }
        },
        ActivePanel::Search => {
            if row >= 2 {
                let h = if a.height >= 2 { a.height - 2 } else { 0 };
                let target = scroll_top(s.search_cursor as int, h, n.results as int) + row - 2;
                if target < n.results {
                    pick(s, s.search_cursor, target as usize, UiView { search_cursor: target as usize, ..s })
                } else {
                    (s, Seq::empty())
                }
            } else {
                (s, Seq::empty())
            }
        },
        _ => (s, Seq::empty()),
    }
}

/// Within the area, if there is one.
pub open spec fn hit(o: Option<Area>, x: int, y: int) -> bool {
    match o {
        Some(a) => inside(a, x, y),
        None => false,
    }
}

/// On the row of the area, if there is one.
pub open spec fn hit_row(o: Option<Area>, x: int, y: int) -> bool {
    match o {
        Some(a) => on_row(a, x, y),
        None => false,
    }
}

/// Right of the left edge of the scrollbar, if there is one.
pub open spec fn past_scrollbar(o: Option<Area>, x: int) -> bool {
    match o {
        Some(a) => x >= a.x,
        None => false,
    }
}

/// A press on the left panel, away from its last column and the scrollbar.
pub open spec fn panel_clicked(s: UiView, lp: Area, sb: Option<Area>, x: int, y: int, n: ListSizes, items: Seq<VisualItemView>) -> (UiView, Seq<AppAction>) {
    let on_bar = past_scrollbar(sb, x) || x >= lp.x + (if lp.width > 0 { lp.width - 1 } else { 0 });
    if !on_bar && inside(lp, x, y) {
        let r = list_clicked(s, lp, y - lp.y, n, items);
        (UiView { refresh_needed: true, ..r.0 }, r.1)
    } else {
        (s, Seq::empty())
    }
}

/// What a mouse event does. A press or drag on the scrollbar or the progress bar jumps there;
/// the other targets react to presses only: footer tabs, the mini controls, the title and
/// artist (on the now-playing panel, to search the web) and the rows of the left panel
/// (away from its last column and the scrollbar). The wheel moves the cursor.
pub open spec fn mouse_outcome(s: UiView, m: MouseInput, b: UiBounds, n: ListSizes, items: Seq<VisualItemView>) -> (UiView, Seq<AppAction>) {
    let x = m.column as int;
    let y = m.row as int;
    if m.kind == MouseKind::ScrollUp {
        (scrolled_up(s), Seq::empty())
    } else if m.kind == MouseKind::ScrollDown {
        (scrolled_down(s, n), Seq::empty())
    } else if m.kind == MouseKind::Other {
        (s, Seq::empty())
    } else if hit(b.scrollbar, x, y) {
        (UiView { refresh_needed: true, ..s }, seq![AppAction::ScrollbarJump])
    } else if hit_row(b.progress_bar, x, y) {
        (UiView { refresh_needed: true, ..s }, seq![AppAction::ProgressSeek])
    } else if m.kind == MouseKind::LeftDrag {
        (s, Seq::empty())
    } else if hit_row(b.footer_tabs, x, y) {
        (tab_clicked(s, tab_at(b.footer_tabs->0, x)), Seq::empty())
    } else if hit_row(b.mini_controls, x, y) {
        (UiView { refresh_needed: true, ..s }, seq![mini_button(b.mini_controls->0, x)])
    } else if s.active_panel == ActivePanel::NowPlaying && hit_row(b.title, x, y) {
        (s, seq![AppAction::SearchSongWeb])
    } else if s.active_panel == ActivePanel::NowPlaying && hit_row(b.artist, x, y) {
        (s, seq![AppAction::SearchArtistWeb])
    } else {
        match b.left_panel {
            Some(lp) => panel_clicked(s, lp, b.scrollbar, x, y, n, items),
            None => (s, Seq::empty()),
        }
    }
}


/// The wheel moves the cursor of the active list: up one entry towards the top, down one
/// entry while there is one below, and it asks for nothing.
pub proof fn lemma_mouse_wheel(s: UiView, m: MouseInput, b: UiBounds, n: ListSizes, items: Seq<VisualItemView>)
    ensures
        ({
            let (t, a) = mouse_outcome(s, m, b, n, items);
            &&& (m.kind == MouseKind::ScrollUp || m.kind == MouseKind::ScrollDown) ==> a.len() == 0
            &&& m.kind == MouseKind::ScrollUp && s.active_panel == ActivePanel::Queue ==> t.queue_cursor == (if s.queue_cursor > 0 {
                s.queue_cursor - 1
            } else {
                0
            })
            &&& m.kind == MouseKind::ScrollDown && s.active_panel == ActivePanel::Queue ==> t.queue_cursor == (if s.queue_cursor + 1
                < n.queue {
                s.queue_cursor + 1
            } else {
                s.queue_cursor as int
            })
            &&& m.kind == MouseKind::ScrollUp && s.active_panel == ActivePanel::Search ==> t.search_cursor == (if s.search_cursor > 0 {
                s.search_cursor - 1
            } else {
                0
            })
            &&& m.kind == MouseKind::ScrollDown && s.active_panel == ActivePanel::Search ==> t.search_cursor == (if s.search_cursor
                + 1 < n.results {
                s.search_cursor + 1
            } else {
                s.search_cursor as int
            })
        }),
{
}

/// A press on the footer or on the mini controls (off the scrollbar and the progress bar).
/// The footer is five equal tabs, left to right: queue, library, now playing, search (which
/// starts a search) and help, the last one also taking any columns left over; a press opens
/// the tab's panel and asks for nothing. The mini controls, 21 columns centered in their row,
/// are from the left: previous track (2 columns), play/pause, next track, volume up, volume
/// down (4 columns each) and clear the queue.
pub proof fn lemma_mouse_buttons(s: UiView, m: MouseInput, b: UiBounds, n: ListSizes, items: Seq<VisualItemView>)
    requires
        m.kind == MouseKind::LeftDown,
        !hit(b.scrollbar, m.column as int, m.row as int),
        !hit_row(b.progress_bar, m.column as int, m.row as int),
    ensures
        ({
            let x = m.column as int;
            let y = m.row as int;
            let (t, a) = mouse_outcome(s, m, b, n, items);
            &&& (b.footer_tabs is Some && on_row(b.footer_tabs->0, x, y) && b.footer_tabs->0.width >= 5) ==> ({
                let f = b.footer_tabs->0;
                let w = f.width / 5;
                let rel = x - f.x;
                &&& a.len() == 0
                &&& rel < w ==> t.active_panel == ActivePanel::Queue
                &&& w <= rel < 2 * w ==> t.active_panel == ActivePanel::Library
                &&& 2 * w <= rel < 3 * w ==> t.active_panel == ActivePanel::NowPlaying
                &&& 3 * w <= rel < 4 * w ==> t.active_panel == ActivePanel::Search && t.searching
                &&& 4 * w <= rel ==> t.active_panel == ActivePanel::Help
            })
            &&& (!hit_row(b.footer_tabs, x, y) && b.mini_controls is Some && on_row(b.mini_controls->0, x, y)) ==> ({
                let c = b.mini_controls->0;
                let d = x - (c.x + (if c.width > 21 { c.width - 21 } else { 0 }) / 2);
                &&& d < 2 ==> a == seq![AppAction::PrevTrack]
                &&& 2 <= d < 6 ==> a == seq![AppAction::TogglePause]
                &&& 6 <= d < 10 ==> a == seq![AppAction::NextTrack]
                &&& 10 <= d < 14 ==> a == seq![AppAction::VolumeUp]
                &&& 14 <= d < 18 ==> a == seq![AppAction::VolumeDown]
                &&& 18 <= d ==> a == seq![AppAction::ClearPlaylist]
            })
        }),
{
    let x = m.column as int;
    let y = m.row as int;
    if b.footer_tabs is Some && on_row(b.footer_tabs->0, x, y) && b.footer_tabs->0.width >= 5 {
        let f = b.footer_tabs->0;
        let w = (f.width / 5) as int;
        let rel = x - f.x;
        assert(w > 0);
        assert(0 <= rel);
        let q = rel / w;
        assert(q * w <= rel < q * w + w) by (nonlinear_arith)
            requires
                w > 0,
                q == rel / w,
                rel >= 0,
        ;
        assert(rel < w ==> q < 1) by (nonlinear_arith)
            requires
                q * w <= rel,
                w > 0,
        ;
        assert(w <= rel < 2 * w ==> q == 1) by (nonlinear_arith)
            requires
                q * w <= rel < q * w + w,
                w > 0,
        ;
        assert(2 * w <= rel < 3 * w ==> q == 2) by (nonlinear_arith)
            requires
                q * w <= rel < q * w + w,
                w > 0,
        ;
        assert(3 * w <= rel < 4 * w ==> q == 3) by (nonlinear_arith)
            requires
                q * w <= rel < q * w + w,
                w > 0,
        ;
        assert(4 * w <= rel ==> q >= 4) by (nonlinear_arith)
            requires
                rel < q * w + w,
                w > 0,
        ;
        assert(tab_at(f, x) == (if q < 4 { q } else { 4 }));
    }
}

/// Every track row of the queue view names an entry of the queue.
pub open spec fn rows_name_entries(items: Seq<VisualItemView>, n: ListSizes) -> bool {
    forall|k: int| 0 <= k < items.len() ==> (#[trigger] items[k] matches VisualItemView::Track(e, _, _) ==> e < n.queue)
}

/// A mouse event never moves a list cursor past the end of its list.
pub proof fn lemma_mouse_keeps_cursors_in_lists(s: UiView, m: MouseInput, b: UiBounds, n: ListSizes, items: Seq<VisualItemView>)
    requires
        cursors_in_lists(s, n),
        rows_name_entries(items, n),
    ensures
        cursors_in_lists(mouse_outcome(s, m, b, n, items).0, n),
{
}

/// The rows of the queue view as values.
pub open spec fn item_views(v: Seq<QueueVisualItem>) -> Seq<VisualItemView> {
    v.map_values(|i: QueueVisualItem| i@)
}

fn row_of_entry_in(items: &Vec<QueueVisualItem>, e: usize) -> (r: usize)
    ensures
        r == row_of_entry(item_views(items@), e, 0),
{
    let ghost iv = item_views(items@);
    let mut k: usize = 0;
    while k < items.len()
        invariant
            k <= items@.len(),
            iv == item_views(items@),
            row_of_entry(iv, e, k as int) == row_of_entry(iv, e, 0),
        decreases items@.len() - k,
    {
        assert(iv[k as int] == items@[k as int]@);
        match &items[k] {
            QueueVisualItem::Track { entry_idx, .. } => {
                if *entry_idx == e {
                    return k;
                }
            },
            _ => {},
        }
        k = k + 1;
    }
    0
}

fn tab_panel_of(i: u16) -> (r: ActivePanel)
    ensures
        r == tab_panel(i as int),
{
    if i == 0 {
        ActivePanel::Queue
    } else if i == 1 {
        ActivePanel::Library
    } else if i == 2 {
        ActivePanel::NowPlaying
    } else if i == 3 {
        ActivePanel::Search
    } else {
        ActivePanel::Help
    }
}

fn tab_at_of(a: Area, x: u16) -> (r: u16)
    requires
        a.x <= x,
    ensures
        r == tab_at(a, x as int),
{
    let w = a.width / 5;
    if w > 0 {
        let t = (x - a.x) / w;
        if t < 4 { t } else { 4 }
    } else {
        0
    }
}

fn mini_button_of(a: Area, x: u16) -> (r: AppAction)
    ensures
        r == mini_button(a, x as int),
{
    let total_w: u32 = 21;
    let w = a.width as u32;
    let indent: u32 = a.x as u32 + (if w > total_w { w - total_w } else { 0 }) / 2;
    let x = x as u32;
    if x < indent + 2 {
        AppAction::PrevTrack
    } else if x < indent + 6 {
        AppAction::TogglePause
    } else if x < indent + 10 {
        AppAction::NextTrack
    } else if x < indent + 14 {
        AppAction::VolumeUp
    } else if x < indent + 18 {
        AppAction::VolumeDown
    } else {
        AppAction::ClearPlaylist
    }
}

impl UiState {
    fn open_search(&mut self)
        ensures
            final(self)@ == open_search(old(self)@),
    {
        self.active_panel = ActivePanel::Search;
        self.searching = true;
        self.search_query = String::new();
    }

    fn loading_key(&mut self, k: Key) -> (r: Vec<AppAction>)
        ensures
            (final(self)@, r@) == loading_key(old(self)@, k),
    {
        if k == Key::Char('q') || k == Key::Esc {
            return one(AppAction::Quit);
        }
        if k == Key::Tab {
            self.active_panel = panel_after_of(self.active_panel);
        } else if k == Key::BackTab {
            self.active_panel = panel_before_of(self.active_panel);
        } else if k == Key::F(2) {
            self.active_panel = ActivePanel::Queue;
        } else if k == Key::F(3) {
            self.active_panel = ActivePanel::Library;
        } else if k == Key::F(5) {
            self.open_search();
        } else if k == Key::F(6) {
            self.active_panel = ActivePanel::Help;
        }
        self.refresh_needed = true;
        none()
    }

    fn pre_route(&mut self, k: Key)
        ensures
            final(self)@ == pre_route(old(self)@, k),
    {
        if k == Key::F(2) || k == Key::F(3) || k == Key::F(4) || k == Key::F(6) || k == Key::Tab || k == Key::BackTab {
            if self.searching || self.active_panel == ActivePanel::Search {
                self.searching = false;
                self.search_query = String::new();
            }
        } else if k == Key::F(5) {
            self.open_search();
        }
    }

    fn search_key(&mut self, k: Key, alt: bool, n: ListSizes) -> (r: Vec<AppAction>)
        ensures
            (final(self)@, r@) == search_key(old(self)@, k, alt, n),
    {
        if k == Key::Esc {
            self.searching = false;
            none()
        } else if k == Key::Enter {
            self.searching = false;
            enter_actions_of(self.active_panel, alt)
        } else if k == Key::Backspace {
            pop_char(&mut self.search_query);
            one(AppAction::RunSearch)
        } else if k == Key::Up {
            if self.search_cursor > 0 {
                self.search_cursor = self.search_cursor - 1;
            }
            none()
        } else if k == Key::Down {
            if n.results > 0 && self.search_cursor < n.results - 1 {
                self.search_cursor = self.search_cursor + 1;
            }
            none()
        } else {
            match k {
                Key::Char(c) => {
                    self.search_query.push(c);
                    one(AppAction::RunSearch)
                },
                _ => none(),
            }
        }
    }

    fn dir_key(&mut self, k: Key) -> (r: Vec<AppAction>)
        ensures
            (final(self)@, r@) == dir_key(old(self)@, k),
    {
        if k == Key::Esc {
            one(AppAction::Quit)
        } else if k == Key::Enter {
            one(AppAction::FinalizeDirInput)
        } else if k == Key::Backspace {
            pop_char(&mut self.dir_input);
            none()
        } else {
            match k {
                Key::Char(c) => {
                    self.dir_input.push(c);
                    none()
                },
                _ => none(),
            }
        }
    }

    fn selected_dir_row(&self, flat: &Vec<FlatLibraryItem>) -> (r: Option<usize>)
        ensures
            r == selected_dir_row(self@, flat@),
    {
        if self.active_panel == ActivePanel::Library && self.library_cursor > 0 && self.library_cursor - 1 < flat.len()
            && flat[self.library_cursor - 1].entry.is_dir() {
            Some(self.library_cursor - 1)
        } else {
            None
        }
    }

    fn main_key(&mut self, k: KeyPress, n: ListSizes, flat: &Vec<FlatLibraryItem>, collapsed: &PathSet) -> (r: Vec<AppAction>)
        ensures
            (final(self)@, r@) == main_key(old(self)@, k, n, flat@, *collapsed),
    {
        let key = k.key;
        if key == Key::Char('q') || key == Key::Esc {
            one(AppAction::Quit)
        } else if key == Key::F(2) {
            self.active_panel = ActivePanel::Queue;
            none()
        } else if key == Key::F(3) {
            self.active_panel = ActivePanel::Library;
            none()
        } else if key == Key::F(4) {
            self.active_panel = ActivePanel::NowPlaying;
            none()
        } else if key == Key::F(5) || key == Key::Char('/') {
            self.open_search();
            none()
        } else if key == Key::F(6) {
            self.active_panel = ActivePanel::Help;
            none()
        } else if key == Key::Tab {
            self.active_panel = panel_after_of(self.active_panel);
            self.refresh_needed = true;
            none()
        } else if key == Key::BackTab {
            self.active_panel = panel_before_of(self.active_panel);
            self.refresh_needed = true;
            none()
        } else if key == Key::Char(' ') || key == Key::Char('p') {
            one(AppAction::TogglePause)
        } else if key == Key::Char('l') || key == Key::Right {
            match self.selected_dir_row(flat) {
                Some(i) => {
                    self.refresh_needed = true;
                    one(AppAction::ExpandDir(i))
                },
                None => one(AppAction::NextTrack),
            }
        } else if key == Key::Char('n') {
            one(AppAction::NextTrack)
        } else if key == Key::Char('h') || key == Key::Left {
            match self.selected_dir_row(flat) {
                Some(i) => {
                    self.refresh_needed = true;
                    one(AppAction::CollapseDir(i))
                },
                None => one(AppAction::PrevTrack),
            }
        } else if key == Key::Char('S') {
            one(AppAction::Stop)
        } else if key == Key::Char('a') {
            self.refresh_needed = true;
            one(AppAction::SeekBackward)
        } else if key == Key::Char('d') {
            self.refresh_needed = true;
            one(AppAction::SeekForward)
        } else if key == Key::Char('+') || key == Key::Char('=') {
            one(AppAction::VolumeUp)
        } else if key == Key::Char('-') || key == Key::Char('[') {
            one(AppAction::VolumeDown)
        } else if key == Key::Char('s') {
            one(AppAction::ToggleShuffle)
        } else if key == Key::Char('r') {
            one(AppAction::CycleRepeat)
        } else if key == Key::Char('v') {
            one(AppAction::ToggleVisualizer)
        } else if key == Key::Char('b') || key == Key::Char('B') {
            one(AppAction::SearchArtistWeb)
        } else if key == Key::Char('m') {
            if self.active_panel == ActivePanel::NowPlaying {
                self.show_full_lyrics = !self.show_full_lyrics;
                self.lyrics_scroll = 0;
            }
            none()
        } else if key == Key::Up || key == Key::Char('k') {
            self.scroll_up();
            none()
        } else if key == Key::Down || key == Key::Char('j') {
            self.scroll_down(n);
            none()
        } else if key == Key::Enter {
            enter_actions_of(self.active_panel, k.alt)
        } else if key == Key::Char('G') {
            enter_actions_of(self.active_panel, false)
        } else if key == Key::Char('o') || key == Key::Char('O') {
            match self.selected_dir_row(flat) {
                Some(i) => {
                    self.refresh_needed = true;
                    if collapsed.contains(flat[i].entry.path()) {
                        one(AppAction::ExpandDir(i))
                    } else {
                        one(AppAction::CollapseDir(i))
                    }
                },
                None => none(),
            }
        } else if key == Key::Delete {
            one(AppAction::DeleteQueueEntry)
        } else if key == Key::Char('f') {
            if self.active_panel == ActivePanel::Queue {
                let idx = self.queue_cursor;
                if self.queue_cursor > 0 {
                    self.queue_cursor = self.queue_cursor - 1;
                }
                self.refresh_needed = true;
                one(AppAction::MoveUp(idx))
            } else {
                none()
            }
        } else if key == Key::Char('g') {
            if self.active_panel == ActivePanel::Queue {
                let idx = self.queue_cursor;
                if n.queue > 0 && self.queue_cursor < n.queue - 1 {
                    self.queue_cursor = self.queue_cursor + 1;
                }
                self.refresh_needed = true;
                one(AppAction::MoveDown(idx))
            } else {
                none()
            }
        } else if key == Key::Backspace {
            one(AppAction::ClearPlaylist)
        } else {
            none()
        }
    }

    /// Applies a key event to the view state and returns the actions it asks of the
    /// application, in order. `n` gives the lengths of the lists, `flat` the library rows
    /// and `collapsed` the collapsed directories.
    pub fn handle_key(&mut self, k: KeyPress, n: ListSizes, flat: &Vec<FlatLibraryItem>, collapsed: &PathSet) -> (r: Vec<AppAction>)
        ensures
            (final(self)@, r@) == key_outcome(old(self)@, k, n, flat@, *collapsed),
    {
        if k.release {
            return none();
        }
        if self.player_loading && !self.awaiting_dir_input && !self.searching {
            return self.loading_key(k.key);
        }
        self.pre_route(k.key);
        if self.searching {
            self.search_key(k.key, k.alt, n)
        } else if self.awaiting_dir_input {
            self.dir_key(k.key)
        } else {
            self.main_key(k, n, flat, collapsed)
        }
    }

    fn pick(&mut self, cursor: usize, target: usize, which: ActivePanel) -> (r: Vec<AppAction>)
        requires
            which == old(self).active_panel,
            which == ActivePanel::Queue ==> cursor == old(self).queue_cursor,
            which == ActivePanel::Library ==> cursor == old(self).library_cursor,
            which == ActivePanel::Search ==> cursor == old(self).search_cursor,
        ensures
            (final(self)@, r@) == pick(old(self)@, cursor, target, match which {
                ActivePanel::Queue => UiView { queue_cursor: target, ..old(self)@ },
                ActivePanel::Library => UiView { library_cursor: target, ..old(self)@ },
                ActivePanel::Search => UiView { search_cursor: target, ..old(self)@ },
                _ => old(self)@,
            }),
    {
        if cursor == target {
            enter_actions_of(self.active_panel, false)
        } else {
            match which {
                ActivePanel::Queue => self.queue_cursor = target,
                ActivePanel::Library => self.library_cursor = target,
                ActivePanel::Search => self.search_cursor = target,
                _ => {},
            }
            none()
        }
    }

    fn list_clicked(&mut self, a: Area, row: u16, n: ListSizes, items: &Vec<QueueVisualItem>) -> (r: Vec<AppAction>)
        requires
            n.library < usize::MAX,
        ensures
            (final(self)@, r@) == list_clicked(old(self)@, a, row as int, n, item_views(items@)),
    {
        let ghost iv = item_views(items@);
        let row = row as usize;
        match self.active_panel {
            ActivePanel::Queue => {
                let half = (a.height as usize) / 2;
                let hi = row_of_entry_in(items, self.queue_cursor);
                let last = if items.len() > 0 { items.len() - 1 } else { 0 };
                let scroll0 = if hi > half { hi - half } else { 0 };
                let scroll = if scroll0 < last { scroll0 } else { last };
                if items.len() > 0 && row < items.len() - scroll {
                    let k = scroll + row;
                    assert(iv[k as int] == items@[k as int]@);
                    match &items[k] {
                        QueueVisualItem::Track { entry_idx, .. } => {
                            let e = *entry_idx;
                            let c = self.queue_cursor;
                            self.pick(c, e, ActivePanel::Queue)
                        },
                        _ => none(),
                    }
                } else {
                    none()
                }
            },
            ActivePanel::Library => {
                let total = n.library + 1;
                let scroll = list_scroll(self.library_cursor, a.height as usize, total);
                if row <= n.library - scroll {
                    let target = scroll + row;
                    let c = self.library_cursor;
                    self.pick(c, target, ActivePanel::Library)
                } else {
                    none()
                }
            },
            ActivePanel::Search => {
                if row >= 2 {
                    let h: usize = if a.height >= 2 { (a.height - 2) as usize } else { 0 };
                    let scroll = list_scroll(self.search_cursor, h, n.results);
                    if n.results > scroll && row - 2 < n.results - scroll {
                        let target = scroll + (row - 2);
                        let c = self.search_cursor;
                        self.pick(c, target, ActivePanel::Search)
                    } else {
                        none()
                    }
                } else {
                    none()
                }
            },
            _ => none(),
        }
    }

    /// Applies a mouse event to the view state and returns the actions it asks of the
    /// application. `b` gives where the last frame drew its clickable parts, `n` the lengths
    /// of the lists and `items` the rows of the queue view.
    pub fn handle_mouse(&mut self, m: MouseInput, b: &UiBounds, n: ListSizes, items: &Vec<QueueVisualItem>) -> (r: Vec<AppAction>)
        requires
            n.library < usize::MAX,
        ensures
            (final(self)@, r@) == mouse_outcome(old(self)@, m, *b, n, item_views(items@)),
    {
        let x = m.column;
        let y = m.row;
        if m.kind == MouseKind::ScrollUp {
            self.scroll_up();
            return none();
        }
        if m.kind == MouseKind::ScrollDown {
            self.scroll_down(n);
            return none();
        }
        if m.kind == MouseKind::Other {
            return none();
        }
        if let Some(sb) = b.scrollbar {
            if inside_of(sb, x, y) {
                self.refresh_needed = true;
                return one(AppAction::ScrollbarJump);
            }
        }
        if let Some(pb) = b.progress_bar {
            if on_row_of(pb, x, y) {
                self.refresh_needed = true;
                return one(AppAction::ProgressSeek);
            }
        }
        if m.kind == MouseKind::LeftDrag {
            return none();
        }
        if let Some(ft) = b.footer_tabs {
            if on_row_of(ft, x, y) {
                let t = tab_at_of(ft, x);
                let p = tab_panel_of(t);
                let prev = self.active_panel;
                self.active_panel = p;
                if p == ActivePanel::Search {
                    self.searching = true;
                }
                if prev == ActivePanel::Search && p != ActivePanel::Search {
                    self.searching = false;
                    self.search_query = String::new();
                }
                self.refresh_needed = true;
                return none();
            }
        }
        if let Some(mc) = b.mini_controls {
            if on_row_of(mc, x, y) {
                self.refresh_needed = true;
                return one(mini_button_of(mc, x));
            }
        }
        if self.active_panel == ActivePanel::NowPlaying {
            if let Some(t) = b.title {
                if on_row_of(t, x, y) {
                    return one(AppAction::SearchSongWeb);
                }
            }
            if let Some(t) = b.artist {
                if on_row_of(t, x, y) {
                    return one(AppAction::SearchArtistWeb);
                }
            }
        }
        match b.left_panel {
            Some(lp) => {
                let past_bar = match b.scrollbar {
                    Some(sb) => x >= sb.x,
                    None => false,
                };
                let edge: u32 = lp.x as u32 + (if lp.width > 0 { lp.width - 1 } else { 0 }) as u32;
                let on_bar = past_bar || (x as u32) >= edge;
                if !on_bar && inside_of(lp, x, y) {
                    let r = self.list_clicked(lp, y - lp.y, n, items);
                    self.refresh_needed = true;
                    r
                } else {
                    none()
                }
            },
            None => none(),
        }
    }

    /// The view state at start-up: the library panel, the audio engine still loading, and
    /// the first-run prompt when no music directory is configured (prefilled with `dir`).
    pub fn initial(music_dir: Option<String>) -> (s: Self)
        ensures
            s.active_panel == ActivePanel::Library,
            s.awaiting_dir_input == (music_dir is None),
            s.dir_input@ == (match music_dir {
                Some(d) => d@,
                None => Seq::<char>::empty(),
            }),
            s.player_loading,
            s.refresh_needed,
            !s.searching && !s.show_full_lyrics,
            s.search_query@.len() == 0,
            s.queue_cursor == 0 && s.library_cursor == 0 && s.search_cursor == 0 && s.lyrics_scroll == 0,
    {
        let awaiting = music_dir.is_none();
        let dir_input = match music_dir {
            Some(d) => d,
            None => String::new(),
        };
        UiState {
            active_panel: ActivePanel::Library,
            searching: false,
            awaiting_dir_input: awaiting,
            player_loading: true,
            search_query: String::new(),
            dir_input,
            queue_cursor: 0,
            library_cursor: 0,
            search_cursor: 0,
            show_full_lyrics: false,
            lyrics_scroll: 0,
            refresh_needed: true,
        }
    }

    /// After the library rows were rebuilt, the library cursor stays within them (the
    /// header row is cursor 0, so the last row is cursor `rows`).
    pub fn clamp_library_cursor(&mut self, rows: usize)
        ensures
            final(self)@ == (UiView {
                library_cursor: if old(self).library_cursor <= rows { old(self).library_cursor } else { rows },
                ..old(self)@
            }),
    {
        if self.library_cursor > rows {
            self.library_cursor = rows;
        }
    }

    /// After the queue was cleared: the cursor goes back to the top and the full lyrics close.
    pub fn queue_cleared(&mut self)
        ensures
            final(self)@ == (UiView {
                queue_cursor: 0,
                show_full_lyrics: false,
                lyrics_scroll: 0,
                refresh_needed: true,
                ..old(self)@
            }),
    {
        self.queue_cursor = 0;
        self.show_full_lyrics = false;
        self.lyrics_scroll = 0;
        self.refresh_needed = true;
    }

    /// Moves the cursor of the active list one step up.
    pub fn scroll_up(&mut self)
        ensures
            final(self)@ == scrolled_up(old(self)@),
    {
        match self.active_panel {
            ActivePanel::Queue => {
                if self.queue_cursor > 0 {
                    self.queue_cursor = self.queue_cursor - 1;
                }
            },
            ActivePanel::Library => {
                if self.library_cursor > 0 {
                    self.library_cursor = self.library_cursor - 1;
                }
            },
            ActivePanel::Search => {
                if self.search_cursor > 0 {
                    self.search_cursor = self.search_cursor - 1;
                }
            },
            ActivePanel::NowPlaying => {
                if self.show_full_lyrics && self.lyrics_scroll > 0 {
                    self.lyrics_scroll = self.lyrics_scroll - 1;
                }
            },
            ActivePanel::Help => {},
        }
    }

    /// Moves the cursor of the active list one step down.
    pub fn scroll_down(&mut self, n: ListSizes)
        ensures
            final(self)@ == scrolled_down(old(self)@, n),
    {
        match self.active_panel {
            ActivePanel::Queue => {
                if n.queue > 0 && self.queue_cursor < n.queue - 1 {
                    self.queue_cursor = self.queue_cursor + 1;
                }
            },
            ActivePanel::Library => {
                if self.library_cursor < n.library {
                    self.library_cursor = self.library_cursor + 1;
                }
            },
            ActivePanel::Search => {
                if n.results > 0 && self.search_cursor < n.results - 1 {
                    self.search_cursor = self.search_cursor + 1;
                }
            },
            ActivePanel::NowPlaying => {
                if self.show_full_lyrics && self.lyrics_scroll < u16::MAX {
                    self.lyrics_scroll = self.lyrics_scroll + 1;
                }
            },
            ActivePanel::Help => {},
        }
    }
}

/// "Next track": the queue moves on in play order (see `Playlist::advance_track`); the new
/// current track is played, or, with nothing left to play (an empty queue, or the end of the
/// queue with repeat off), playback stops.
pub fn next_track_action(playlist: &mut Playlist) -> (a: AppAction)
    requires
        old(playlist).wf(),
    ensures
        a == if old(playlist).next_possible() { AppAction::PlayCurrent } else { AppAction::Stop },
        final(playlist).wf(),
        final(playlist).entries == old(playlist).entries,
        final(playlist).play_order == old(playlist).play_order,
        final(playlist).repeat == old(playlist).repeat,
        final(playlist).shuffle == old(playlist).shuffle,
        final(playlist).current == if old(playlist).play_order@.len() == 0 {
            old(playlist).current
        } else {
            match old(playlist).repeat {
                RepeatMode::Track => old(playlist).current,
                RepeatMode::Queue => ((old(playlist).current + 1) % (old(playlist).play_order@.len() as int)) as usize,
                RepeatMode::Off => if old(playlist).current + 1 < old(playlist).play_order@.len() {
                    (old(playlist).current + 1) as usize
                } else {
                    old(playlist).current
                },
            }
        },
{
    if playlist.advance_track() {
        AppAction::PlayCurrent
    } else {
        AppAction::Stop
    }
}

/// Enter on the queue panel: the entry under the cursor becomes current (its place in the
/// play order). Returns whether it is to be played; a cursor past the end changes nothing.
pub fn play_queue_entry(ui: &UiState, playlist: &mut Playlist) -> (play: bool)
    requires
        old(playlist).wf(),
    ensures
        play == (ui.queue_cursor < old(playlist).entries@.len()),
        final(playlist).wf(),
        play ==> {
            &&& final(playlist).entries == old(playlist).entries
            &&& final(playlist).play_order == old(playlist).play_order
            &&& final(playlist).repeat == old(playlist).repeat
            &&& final(playlist).shuffle == old(playlist).shuffle
            &&& final(playlist).real_index() == Some(ui.queue_cursor)
            &&& old(playlist).play_order@.index_of_first(ui.queue_cursor) == Some(final(playlist).current as int)
        },
        !play ==> *final(playlist) == *old(playlist),
{
    if ui.queue_cursor < playlist.len() {
        playlist.jump_to_entry(ui.queue_cursor);
        true
    } else {
        false
    }
}

/// Delete on the queue panel removes the entry under the cursor. When the queue becomes
/// empty the application is asked to clear it; otherwise the cursor steps back if it fell
/// off the end, the current entry is played again if it was the one removed, and the library
/// view is rebuilt. Elsewhere, or past the end, nothing happens.
pub fn delete_queue_entry(ui: &mut UiState, playlist: &mut Playlist) -> (r: Vec<AppAction>)
    requires
        old(playlist).wf(),
    ensures
        final(playlist).wf(),
        ({
            let qc = old(ui).queue_cursor;
            if old(ui).active_panel == ActivePanel::Queue && qc < old(playlist).entries@.len() {
                &&& final(playlist)@ == removed_queue(old(playlist)@, qc)
                &&& if final(playlist).entries@.len() == 0 {
                    &&& r@ == seq![AppAction::ClearPlaylist]
                    &&& final(ui)@ == old(ui)@
                } else {
                    &&& final(ui)@ == UiView {
                        queue_cursor: if qc >= final(playlist).entries@.len() && qc > 0 { (qc - 1) as usize } else { qc },
                        ..old(ui)@
                    }
                    &&& r@ == (if old(playlist).real_index() == Some(qc) { seq![AppAction::PlayCurrent] } else { Seq::empty() })
                        + seq![AppAction::RebuildLibraryView]
                }
            } else {
                &&& final(ui)@ == old(ui)@
                &&& *final(playlist) == *old(playlist)
                &&& r@.len() == 0
            }
        }),
{
    let mut r: Vec<AppAction> = Vec::new();
    if ui.active_panel == ActivePanel::Queue && ui.queue_cursor < playlist.len() {
        let is_current = match playlist.current_real_index() {
            Some(c) => c == ui.queue_cursor,
            None => false,
        };
        playlist.remove(ui.queue_cursor);
        if playlist.is_empty() {
            r.push(AppAction::ClearPlaylist);
            assert(r@ =~= seq![AppAction::ClearPlaylist]);
            return r;
        }
        if ui.queue_cursor >= playlist.len() && ui.queue_cursor > 0 {
            ui.queue_cursor = ui.queue_cursor - 1;
        }
        if is_current {
            r.push(AppAction::PlayCurrent);
        }
        r.push(AppAction::RebuildLibraryView);
        assert(r@ =~= (if old(playlist).real_index() == Some(old(ui).queue_cursor) { seq![AppAction::PlayCurrent] } else { Seq::<AppAction>::empty() })
            + seq![AppAction::RebuildLibraryView]);
    }
    r
}

} // verus!
