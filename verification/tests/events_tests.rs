use mixed::events::{
    delete_queue_entry, play_queue_entry, AppAction, Area, Key, KeyPress, ListSizes, MouseInput, MouseKind, UiBounds, UiState,
};
use mixed::library::{FlatLibraryItem, LibraryEntry, PathSet};
use mixed::metadata::TrackMetadata;
use mixed::playlist::{Playlist, QueueVisualItem, RepeatMode};
use mixed::ui::ActivePanel;

fn press(k: Key) -> KeyPress {
    KeyPress { key: k, release: false, alt: false }
}

fn ready_state() -> UiState {
    let mut ui = UiState::initial(Some("/mock/music".to_string()));
    ui.player_loading = false;
    ui
}

fn sizes(queue: usize, library: usize, results: usize) -> ListSizes {
    ListSizes { queue, library, results }
}

fn no_bounds() -> UiBounds {
    UiBounds { scrollbar: None, progress_bar: None, footer_tabs: None, mini_controls: None, title: None, artist: None, left_panel: None }
}

fn track_row(path: &str, is_last: bool) -> FlatLibraryItem {
    FlatLibraryItem {
        entry: LibraryEntry::Track { name: path.to_string(), path: path.to_string(), metadata: TrackMetadata::default() },
        depth: 0,
        is_last,
        ancestor_last: vec![],
        enqueued: false,
    }
}

fn dir_row(path: &str) -> FlatLibraryItem {
    FlatLibraryItem {
        entry: LibraryEntry::Directory { name: path.to_string(), path: path.to_string(), children: vec![] },
        depth: 0,
        is_last: false,
        ancestor_last: vec![],
        enqueued: false,
    }
}

#[test]
fn test_logical_edge_cases_and_navigation() {
    // 1. End of the queue with repeat off: there is no next track, so playback stops.
    let mut playlist = Playlist::new();
    playlist.repeat = RepeatMode::Off;
    playlist.add("/mock/song1.mp3".to_string(), TrackMetadata::default());
    playlist.add("/mock/song2.mp3".to_string(), TrackMetadata::default());
    playlist.current = 1;
    assert!(!playlist.advance_track(), "next_track on last song with repeat off must stop playback");

    // 2. Deleting the only remaining track clears the queue and asks to stop everything.
    playlist.clear();
    playlist.add("/mock/only_song.mp3".to_string(), TrackMetadata::default());
    let mut ui = ready_state();
    ui.active_panel = ActivePanel::Queue;
    ui.queue_cursor = 0;
    let flat: Vec<FlatLibraryItem> = vec![];
    let collapsed = PathSet::new();
    let actions = ui.handle_key(press(Key::Delete), sizes(playlist.len(), 0, 0), &flat, &collapsed);
    assert_eq!(actions, vec![AppAction::DeleteQueueEntry]);
    let follow = delete_queue_entry(&mut ui, &mut playlist);
    assert!(playlist.is_empty(), "Deleting only track must empty playlist");
    assert_eq!(follow, vec![AppAction::ClearPlaylist], "Deleting only track must stop playback");

    // 3. Search cursor clamping on Down arrow.
    ui.active_panel = ActivePanel::Search;
    ui.searching = true;
    ui.search_cursor = 0;
    for _ in 0..10 {
        ui.handle_key(press(Key::Down), sizes(0, 0, 2), &flat, &collapsed);
    }
    assert_eq!(ui.search_cursor, 1, "Down arrow must not exceed search_results.len() - 1");

    // 4. Clamping the library cursor when the rows shrink.
    ui.active_panel = ActivePanel::Library;
    ui.library_cursor = 50;
    ui.clamp_library_cursor(0);
    assert_eq!(ui.library_cursor, 0, "rebuild_flat_library_view must clamp library_cursor to flat_library.len()");
}

#[test]
fn key_release_and_loading_guard() {
    let flat: Vec<FlatLibraryItem> = vec![];
    let c = PathSet::new();
    let mut ui = UiState::initial(Some("/m".to_string()));
    ui.refresh_needed = false;
    let r = ui.handle_key(KeyPress { key: Key::Char('q'), release: true, alt: false }, sizes(0, 0, 0), &flat, &c);
    assert!(r.is_empty());
    assert!(!ui.refresh_needed);
    // While loading, playback keys are swallowed but panel keys work.
    let r = ui.handle_key(press(Key::Char(' ')), sizes(0, 0, 0), &flat, &c);
    assert!(r.is_empty());
    assert!(ui.refresh_needed);
    ui.handle_key(press(Key::Tab), sizes(0, 0, 0), &flat, &c);
    assert_eq!(ui.active_panel, ActivePanel::NowPlaying);
    ui.handle_key(press(Key::F(5)), sizes(0, 0, 0), &flat, &c);
    assert_eq!(ui.active_panel, ActivePanel::Search);
    assert!(ui.searching);
    assert_eq!(ui.handle_key(press(Key::Esc), sizes(0, 0, 0), &flat, &c), vec![]);
    assert!(!ui.searching);
    assert_eq!(ui.handle_key(press(Key::Esc), sizes(0, 0, 0), &flat, &c), vec![AppAction::Quit]);
}

#[test]
fn keys_map_to_actions() {
    let flat: Vec<FlatLibraryItem> = vec![];
    let c = PathSet::new();
    let mut ui = ready_state();
    ui.active_panel = ActivePanel::Queue;
    let n = sizes(3, 0, 0);
    assert_eq!(ui.handle_key(press(Key::Char(' ')), n, &flat, &c), vec![AppAction::TogglePause]);
    assert_eq!(ui.handle_key(press(Key::Char('n')), n, &flat, &c), vec![AppAction::NextTrack]);
    assert_eq!(ui.handle_key(press(Key::Left), n, &flat, &c), vec![AppAction::PrevTrack]);
    assert_eq!(ui.handle_key(press(Key::Char('S')), n, &flat, &c), vec![AppAction::Stop]);
    assert_eq!(ui.handle_key(press(Key::Char('=')), n, &flat, &c), vec![AppAction::VolumeUp]);
    assert_eq!(ui.handle_key(press(Key::Char('[')), n, &flat, &c), vec![AppAction::VolumeDown]);
    assert_eq!(ui.handle_key(press(Key::Char('s')), n, &flat, &c), vec![AppAction::ToggleShuffle]);
    assert_eq!(ui.handle_key(press(Key::Char('r')), n, &flat, &c), vec![AppAction::CycleRepeat]);
    assert_eq!(ui.handle_key(press(Key::Char('B')), n, &flat, &c), vec![AppAction::SearchArtistWeb]);
    assert_eq!(ui.handle_key(press(Key::Backspace), n, &flat, &c), vec![AppAction::ClearPlaylist]);
    assert_eq!(ui.handle_key(press(Key::Enter), n, &flat, &c), vec![AppAction::PlayQueueEntry]);
    // 'g' moves the entry down and the cursor with it; 'f' moves it back up.
    assert_eq!(ui.handle_key(press(Key::Char('g')), n, &flat, &c), vec![AppAction::MoveDown(0)]);
    assert_eq!(ui.queue_cursor, 1);
    assert_eq!(ui.handle_key(press(Key::Char('f')), n, &flat, &c), vec![AppAction::MoveUp(1)]);
    assert_eq!(ui.queue_cursor, 0);
    // Alt+Enter on the library enqueues and plays.
    ui.active_panel = ActivePanel::Library;
    let r = ui.handle_key(KeyPress { key: Key::Enter, release: false, alt: true }, n, &flat, &c);
    assert_eq!(r, vec![AppAction::LibraryEnqueue(true)]);
    // 'm' on the now-playing panel toggles the full lyrics.
    ui.active_panel = ActivePanel::NowPlaying;
    ui.handle_key(press(Key::Char('m')), n, &flat, &c);
    assert!(ui.show_full_lyrics);
    ui.handle_key(press(Key::Down), n, &flat, &c);
    ui.handle_key(press(Key::Down), n, &flat, &c);
    assert_eq!(ui.lyrics_scroll, 2);
    ui.handle_key(press(Key::Char('k')), n, &flat, &c);
    assert_eq!(ui.lyrics_scroll, 1);
}

#[test]
fn library_keys_expand_and_collapse_directories() {
    let flat = vec![dir_row("/m/a"), track_row("/m/a/x.mp3", true)];
    let mut collapsed = PathSet::new();
    let mut ui = ready_state();
    ui.active_panel = ActivePanel::Library;
    ui.library_cursor = 1;
    let n = sizes(0, flat.len(), 0);
    assert_eq!(ui.handle_key(press(Key::Right), n, &flat, &collapsed), vec![AppAction::ExpandDir(0)]);
    assert_eq!(ui.handle_key(press(Key::Char('h')), n, &flat, &collapsed), vec![AppAction::CollapseDir(0)]);
    assert_eq!(ui.handle_key(press(Key::Char('o')), n, &flat, &collapsed), vec![AppAction::CollapseDir(0)]);
    collapsed.insert("/m/a".to_string());
    assert_eq!(ui.handle_key(press(Key::Char('O')), n, &flat, &collapsed), vec![AppAction::ExpandDir(0)]);
    // On a track row the arrows change tracks.
    ui.library_cursor = 2;
    assert_eq!(ui.handle_key(press(Key::Char('l')), n, &flat, &collapsed), vec![AppAction::NextTrack]);
}

#[test]
fn search_typing_and_dir_prompt() {
    let flat: Vec<FlatLibraryItem> = vec![];
    let c = PathSet::new();
    let mut ui = ready_state();
    ui.handle_key(press(Key::Char('/')), sizes(0, 0, 0), &flat, &c);
    assert!(ui.searching);
    assert_eq!(ui.handle_key(press(Key::Char('a')), sizes(0, 0, 0), &flat, &c), vec![AppAction::RunSearch]);
    ui.handle_key(press(Key::Char('b')), sizes(0, 0, 0), &flat, &c);
    assert_eq!(ui.search_query, "ab");
    ui.handle_key(press(Key::Backspace), sizes(0, 0, 0), &flat, &c);
    assert_eq!(ui.search_query, "a");
    let r = ui.handle_key(press(Key::Enter), sizes(0, 0, 1), &flat, &c);
    assert_eq!(r, vec![AppAction::SearchEnqueue(false)]);
    assert!(!ui.searching);
    // Leaving the search panel clears the query.
    ui.handle_key(press(Key::F(2)), sizes(0, 0, 0), &flat, &c);
    assert_eq!(ui.search_query, "");
    assert_eq!(ui.active_panel, ActivePanel::Queue);

    let mut first = UiState::initial(None);
    first.player_loading = false;
    assert!(first.awaiting_dir_input);
    first.handle_key(press(Key::Char('/')), sizes(0, 0, 0), &flat, &c);
    first.handle_key(press(Key::Char('m')), sizes(0, 0, 0), &flat, &c);
    assert_eq!(first.dir_input, "/m");
    assert_eq!(first.handle_key(press(Key::Enter), sizes(0, 0, 0), &flat, &c), vec![AppAction::FinalizeDirInput]);
}

#[test]
fn queue_enter_and_delete() {
    let mut playlist = Playlist::new();
    for name in ["a.mp3", "b.mp3", "c.mp3"] {
        playlist.add(name.to_string(), TrackMetadata::default());
    }
    let mut ui = ready_state();
    ui.active_panel = ActivePanel::Queue;
    ui.queue_cursor = 2;
    assert!(play_queue_entry(&ui, &mut playlist));
    assert_eq!(playlist.current_real_index(), Some(2));
    // Deleting the playing last entry: the cursor steps back, the current entry plays.
    let r = delete_queue_entry(&mut ui, &mut playlist);
    assert_eq!(r, vec![AppAction::PlayCurrent, AppAction::RebuildLibraryView]);
    assert_eq!(playlist.len(), 2);
    assert_eq!(ui.queue_cursor, 1);
    assert_eq!(playlist.current_real_index(), Some(1));
    // Past the end nothing happens.
    ui.queue_cursor = 5;
    assert!(!play_queue_entry(&ui, &mut playlist));
    assert!(delete_queue_entry(&mut ui, &mut playlist).is_empty());
}

#[test]
fn mouse_targets() {
    let mut ui = ready_state();
    ui.active_panel = ActivePanel::Queue;
    let n = sizes(3, 0, 0);
    let items = vec![
        QueueVisualItem::Track { entry_idx: 0, title: "a".to_string(), duration: String::new() },
        QueueVisualItem::Track { entry_idx: 1, title: "b".to_string(), duration: String::new() },
        QueueVisualItem::Track { entry_idx: 2, title: "c".to_string(), duration: String::new() },
    ];
    let mut b = no_bounds();
    b.footer_tabs = Some(Area { x: 40, y: 39, width: 60, height: 1 });
    b.mini_controls = Some(Area { x: 0, y: 30, width: 35, height: 1 });
    b.left_panel = Some(Area { x: 40, y: 0, width: 60, height: 30 });
    b.scrollbar = Some(Area { x: 99, y: 0, width: 1, height: 30 });
    let click = |x: u16, y: u16| MouseInput { kind: MouseKind::LeftDown, column: x, row: y };
    // Footer: five tabs of 12 columns; the third is the now-playing panel.
    ui.handle_mouse(click(40 + 25, 39), &b, n, &items);
    assert_eq!(ui.active_panel, ActivePanel::NowPlaying);
    ui.handle_mouse(click(40, 39), &b, n, &items);
    assert_eq!(ui.active_panel, ActivePanel::Queue);
    // Mini controls: 21 columns centered in 35, so they start at column 7.
    assert_eq!(ui.handle_mouse(click(7, 30), &b, n, &items), vec![AppAction::PrevTrack]);
    assert_eq!(ui.handle_mouse(click(7 + 4, 30), &b, n, &items), vec![AppAction::TogglePause]);
    assert_eq!(ui.handle_mouse(click(7 + 8, 30), &b, n, &items), vec![AppAction::NextTrack]);
    assert_eq!(ui.handle_mouse(click(7 + 12, 30), &b, n, &items), vec![AppAction::VolumeUp]);
    assert_eq!(ui.handle_mouse(click(7 + 16, 30), &b, n, &items), vec![AppAction::VolumeDown]);
    assert_eq!(ui.handle_mouse(click(7 + 20, 30), &b, n, &items), vec![AppAction::ClearPlaylist]);
    // Scrollbar presses and drags jump.
    assert_eq!(ui.handle_mouse(click(99, 29), &b, n, &items), vec![AppAction::ScrollbarJump]);
    let drag = MouseInput { kind: MouseKind::LeftDrag, column: 99, row: 3 };
    assert_eq!(ui.handle_mouse(drag, &b, n, &items), vec![AppAction::ScrollbarJump]);
    // A row click moves the cursor; a second click on it plays.
    assert!(ui.handle_mouse(click(50, 2), &b, n, &items).is_empty());
    assert_eq!(ui.queue_cursor, 2);
    assert_eq!(ui.handle_mouse(click(50, 2), &b, n, &items), vec![AppAction::PlayQueueEntry]);
    // Drags elsewhere do nothing; the wheel moves the cursor.
    let drag_row = MouseInput { kind: MouseKind::LeftDrag, column: 50, row: 0 };
    assert!(ui.handle_mouse(drag_row, &b, n, &items).is_empty());
    assert_eq!(ui.queue_cursor, 2);
    ui.handle_mouse(MouseInput { kind: MouseKind::ScrollUp, column: 0, row: 0 }, &b, n, &items);
    assert_eq!(ui.queue_cursor, 1);
    // Title and artist search the web only on the now-playing panel.
    b.title = Some(Area { x: 40, y: 5, width: 20, height: 1 });
    assert!(ui.handle_mouse(click(45, 5), &b, n, &items).is_empty() || ui.active_panel != ActivePanel::NowPlaying);
    ui.active_panel = ActivePanel::NowPlaying;
    assert_eq!(ui.handle_mouse(click(45, 5), &b, n, &items), vec![AppAction::SearchSongWeb]);
}

#[test]
fn test_mouse_interaction_and_navigation() {
    // A 100 x 40 terminal: the art pane takes 35 columns, the footer is the last row of the
    // right side.
    let mut ui = ready_state();
    ui.awaiting_dir_input = false;
    let art = mixed::ui::art_pane_width(100);
    let mut b = no_bounds();
    b.footer_tabs = Some(Area { x: art, y: 39, width: 100 - art, height: 1 });
    let n = sizes(0, 0, 0);
    let items: Vec<QueueVisualItem> = Vec::new();
    let click = |x: u16, y: u16| MouseInput { kind: MouseKind::LeftDown, column: x, row: y };

    // Click footer tab 3 (Search).
    let footer = b.footer_tabs.unwrap();
    let tab_width = footer.width / 5;
    let search_tab_x = footer.x + (tab_width * 3) + 2;
    ui.handle_mouse(click(search_tab_x, footer.y), &b, n, &items);
    assert_eq!(ui.active_panel, ActivePanel::Search);
    assert!(ui.searching);

    // Type a query.
    ui.search_query.push_str("rena uehara");
    assert_eq!(ui.search_query, "rena uehara");

    // Switch away to the library with a click on tab 1: the search ends and its input is cleared.
    let library_tab_x = footer.x + tab_width + 2;
    ui.handle_mouse(click(library_tab_x, footer.y), &b, n, &items);
    assert_eq!(ui.active_panel, ActivePanel::Library);
    assert!(!ui.searching);
    assert_eq!(ui.search_query, "");
    assert!(ui.refresh_needed);

    // Mini controls: play/pause sits four columns into the centered buttons.
    b.mini_controls = Some(Area { x: 20, y: 10, width: 30, height: 1 });
    let mini = b.mini_controls.unwrap();
    let total_w: u16 = 21;
    let indent = mini.x + (mini.width.saturating_sub(total_w)) / 2;
    let actions = ui.handle_mouse(click(indent + 4, mini.y), &b, n, &items);
    assert_eq!(actions, vec![AppAction::TogglePause]);

    // The wheel.
    let down = MouseInput { kind: MouseKind::ScrollDown, column: 10, row: 10 };
    assert!(ui.handle_mouse(down, &b, n, &items).is_empty());
    let up = MouseInput { kind: MouseKind::ScrollUp, column: 10, row: 10 };
    assert!(ui.handle_mouse(up, &b, n, &items).is_empty());
    assert_eq!(ui.library_cursor, 0);
}

#[test]
fn cursors_stay_in_lists() {
    let flat: Vec<FlatLibraryItem> = vec![track_row("/m/a.mp3", false), track_row("/m/b.mp3", true)];
    let collapsed = PathSet::new();
    let n = sizes(2, 2, 3);
    let mut ui = ready_state();
    ui.awaiting_dir_input = false;
    for (panel, limit) in [(ActivePanel::Queue, 1usize), (ActivePanel::Library, 2usize)] {
        ui.active_panel = panel;
        for _ in 0..10 {
            ui.handle_key(press(Key::Down), n, &flat, &collapsed);
        }
        let cursor = if panel == ActivePanel::Queue { ui.queue_cursor } else { ui.library_cursor };
        assert_eq!(cursor, limit);
    }
    ui.handle_key(press(Key::F(5)), n, &flat, &collapsed);
    assert!(ui.searching);
    for _ in 0..10 {
        ui.handle_key(press(Key::Down), n, &flat, &collapsed);
    }
    assert_eq!(ui.search_cursor, 2);
    let b = no_bounds();
    let items: Vec<QueueVisualItem> = Vec::new();
    for _ in 0..10 {
        ui.handle_mouse(MouseInput { kind: MouseKind::ScrollDown, column: 0, row: 0 }, &b, n, &items);
    }
    assert_eq!(ui.search_cursor, 2);
}

#[test]
fn test_mini_controls_placement_and_scrollbar_interaction() {
    // The six mini controls under the art pane of a 100-column terminal, and a playlist of
    // fifty tracks shown with a scrollbar.
    let mut ui = ready_state();
    ui.awaiting_dir_input = false;
    ui.active_panel = ActivePanel::Queue;
    let mut b = no_bounds();
    b.scrollbar = Some(Area { x: 95, y: 5, width: 1, height: 20 });
    b.mini_controls = Some(Area { x: 0, y: 36, width: 35, height: 1 });
    let n = sizes(50, 0, 0);
    let items: Vec<QueueVisualItem> = Vec::new();
    assert_eq!(ui.queue_cursor, 0);
    // Presses and drags on the scrollbar ask for a jump there.
    let press_bar = MouseInput { kind: MouseKind::LeftDown, column: 95, row: 20 };
    assert_eq!(ui.handle_mouse(press_bar, &b, n, &items), vec![AppAction::ScrollbarJump]);
    let drag_bar = MouseInput { kind: MouseKind::LeftDrag, column: 95, row: 15 };
    assert_eq!(ui.handle_mouse(drag_bar, &b, n, &items), vec![AppAction::ScrollbarJump]);
    // All six buttons.
    let mc = b.mini_controls.unwrap();
    let total_w: u16 = 21;
    let indent = mc.x + (mc.width.saturating_sub(total_w)) / 2;
    let click = |x: u16| MouseInput { kind: MouseKind::LeftDown, column: x, row: mc.y };
    assert_eq!(ui.handle_mouse(click(indent), &b, n, &items), vec![AppAction::PrevTrack]);
    assert_eq!(ui.handle_mouse(click(indent + 4), &b, n, &items), vec![AppAction::TogglePause]);
    assert_eq!(ui.handle_mouse(click(indent + 8), &b, n, &items), vec![AppAction::NextTrack]);
    assert_eq!(ui.handle_mouse(click(indent + 12), &b, n, &items), vec![AppAction::VolumeUp]);
    assert_eq!(ui.handle_mouse(click(indent + 16), &b, n, &items), vec![AppAction::VolumeDown]);
    // The last one clears the playlist.
    assert_eq!(ui.handle_mouse(click(indent + 20), &b, n, &items), vec![AppAction::ClearPlaylist]);
    let mut playlist = Playlist::new();
    playlist.add("/fake/song_0.mp3".to_string(), TrackMetadata::default());
    playlist.clear();
    assert!(playlist.is_empty());
}
