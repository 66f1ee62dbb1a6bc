use mixed::enqueue::{album_sorted, enqueue_tracks, library_all_enqueued, library_enqueue_selected, search_enqueue_selected};
use mixed::events::{AppAction, UiState};
use mixed::library::{audio_records, build_library, flatten_library, is_audio_file, LibraryEntry, PathSet, WalkRecord};
use mixed::metadata::TrackMetadata;
use mixed::playlist::{Playlist, PlaylistEntry};
use mixed::search::{rank_matches, run_search};
use mixed::ui::ActivePanel;

fn meta(title: &str, disc: Option<u32>, track: Option<u32>) -> TrackMetadata {
    let mut m = TrackMetadata::default();
    m.title = Some(title.to_string());
    m.artist = Some("Band".to_string());
    m.disc_number = disc;
    m.track_number = track;
    m
}

fn entry(path: &str, m: TrackMetadata) -> PlaylistEntry {
    PlaylistEntry { path: path.to_string(), metadata: m }
}

fn rec(is_dir: bool, path: &str) -> WalkRecord {
    let name = path.rsplit('/').next().unwrap().to_string();
    WalkRecord { is_dir, path: path.to_string(), name }
}

fn ready() -> UiState {
    let mut ui = UiState::initial(Some("/m".to_string()));
    ui.player_loading = false;
    ui
}

#[test]
fn audio_files_by_extension() {
    assert!(is_audio_file("/music/a/song.MP3"));
    assert!(is_audio_file("x.flac"));
    assert!(is_audio_file("/m/track.webm"));
    assert!(!is_audio_file("/music/cover.jpg"));
    assert!(!is_audio_file("/music/mp3"));
    assert!(!is_audio_file("/music/notes.txt.bak"));
}

#[test]
fn walk_records_keep_dirs_and_audio() {
    let walk = vec![rec(true, "/m/a"), rec(false, "/m/a/1.mp3"), rec(false, "/m/a/cover.png"), rec(false, "/m/a/2.ogg")];
    let (recs, paths) = audio_records(walk);
    assert_eq!(recs.len(), 3);
    assert_eq!(paths, vec!["/m/a/1.mp3".to_string(), "/m/a/2.ogg".to_string()]);
}

#[test]
fn library_tree_nests_and_drops_empty_dirs() {
    let recs = vec![
        rec(true, "/m/a"),
        rec(false, "/m/a/1.mp3"),
        rec(true, "/m/a/sub"),
        rec(false, "/m/a/sub/2.mp3"),
        rec(true, "/m/empty"),
        rec(false, "/m/top.mp3"),
    ];
    let metas = vec![meta("One", None, None), meta("Two", None, None), meta("Top", None, None)];
    let tree = build_library(recs, metas, false);
    assert_eq!(tree.len(), 2);
    match &tree[0] {
        LibraryEntry::Directory { name, children, .. } => {
            assert_eq!(name, "a");
            assert_eq!(children.len(), 2);
            assert_eq!(children[0].name(), "One - Band");
            match &children[1] {
                LibraryEntry::Directory { name, children, .. } => {
                    assert_eq!(name, "sub");
                    assert_eq!(children.len(), 1);
                    assert_eq!(children[0].path(), "/m/a/sub/2.mp3");
                }
                _ => panic!("expected the sub directory"),
            }
        }
        _ => panic!("expected a directory first"),
    }
    assert_eq!(tree[1].name(), "Top - Band");
    // A track record past the end of the metadata gets empty metadata.
    let tree = build_library(vec![rec(false, "/m/x.mp3")], vec![], false);
    assert_eq!(tree[0].name(), "Unknown Title - Unknown Artist");
}

#[test]
fn flattened_rows_follow_collapse() {
    let recs = vec![rec(true, "/m/a"), rec(false, "/m/a/1.mp3"), rec(false, "/m/a/2.mp3"), rec(false, "/m/b.mp3")];
    let metas = vec![meta("One", None, None), meta("Two", None, None), meta("B", None, None)];
    let tree = build_library(recs, metas, false);
    let q = Playlist::new();
    let mut collapsed = PathSet::new();
    let rows = flatten_library(&tree, 0, vec![], &collapsed, &q);
    assert_eq!(rows.len(), 4);
    assert_eq!(rows[1].depth, 1);
    assert_eq!(rows[1].ancestor_last, vec![false]);
    assert!(rows[2].is_last);
    assert!(rows[3].is_last);
    assert!(collapsed.insert("/m/a".to_string()));
    assert!(!collapsed.insert("/m/a/".to_string()));
    let rows = flatten_library(&tree, 0, vec![], &collapsed, &q);
    assert_eq!(rows.len(), 2);
    assert!(collapsed.remove("/m/a"));
    assert!(!collapsed.contains("/m/a"));
}

#[test]
fn album_order_is_disc_track_name_and_stable() {
    let tracks = vec![
        entry("/m/z.mp3", meta("z", Some(2), Some(1))),
        entry("/m/b.mp3", meta("b", None, Some(2))),
        entry("/m/a.mp3", meta("a", None, None)),
        entry("/m/c.mp3", meta("c", Some(1), Some(2))),
        entry("/m/x/c.mp3", meta("c2", Some(1), Some(2))),
        entry("/m/a0.mp3", meta("a0", Some(1), Some(1))),
    ];
    let sorted = album_sorted(tracks);
    let titles: Vec<String> = sorted.iter().map(|e| e.metadata.title.clone().unwrap()).collect();
    // Same disc and track and same file name keep their order (c, then c2); a missing track
    // number sorts last on its disc.
    assert_eq!(titles, vec!["a0", "b", "c", "c2", "a", "z"]);
}

#[test]
fn enqueue_skips_queued_and_plays_when_empty() {
    let mut q = Playlist::new();
    let play = enqueue_tracks(&mut q, vec![entry("/m/2.mp3", meta("2", None, Some(2))), entry("/m/1.mp3", meta("1", None, Some(1)))], false);
    assert!(play);
    assert_eq!(q.paths(), vec!["/m/1.mp3".to_string(), "/m/2.mp3".to_string()]);
    let play = enqueue_tracks(&mut q, vec![entry("/m/1.mp3", meta("1", None, Some(1)))], true);
    assert!(!play);
    assert_eq!(q.len(), 2);
    let play = enqueue_tracks(&mut q, vec![entry("/m/3.mp3", meta("3", None, Some(3)))], true);
    assert!(play);
    assert_eq!(q.current_real_index(), Some(2));
}

#[test]
fn library_selection_enqueues_then_dequeues() {
    let recs = vec![rec(true, "/m/a"), rec(false, "/m/a/2.mp3"), rec(false, "/m/a/1.mp3")];
    let metas = vec![meta("Two", None, Some(2)), meta("One", None, Some(1))];
    let tree = build_library(recs, metas, false);
    let mut q = Playlist::new();
    let rows = flatten_library(&tree, 0, vec![], &PathSet::new(), &q);
    let mut ui = ready();
    ui.library_cursor = 1; // the directory
    let r = library_enqueue_selected(&mut ui, &mut q, &rows, false);
    assert_eq!(r, vec![AppAction::PlayCurrent, AppAction::RebuildLibraryView]);
    assert_eq!(ui.active_panel, ActivePanel::NowPlaying);
    assert_eq!(q.paths(), vec!["/m/a/1.mp3".to_string(), "/m/a/2.mp3".to_string()]);
    let rows = flatten_library(&tree, 0, vec![], &PathSet::new(), &q);
    assert!(rows[0].enqueued);
    assert!(library_all_enqueued(&rows, &q));
    // Selecting it again removes its tracks; the queue is left empty, so it is cleared.
    let r = library_enqueue_selected(&mut ui, &mut q, &rows, false);
    assert_eq!(r, vec![AppAction::ClearPlaylist, AppAction::RebuildLibraryView]);
    assert!(q.is_empty());
    // The header row toggles every track row.
    ui.library_cursor = 0;
    let r = library_enqueue_selected(&mut ui, &mut q, &rows, false);
    assert_eq!(r, vec![AppAction::PlayCurrent, AppAction::RebuildLibraryView]);
    assert_eq!(q.len(), 2);
    // A cursor past the rows only asks for a redraw.
    ui.library_cursor = 9;
    ui.refresh_needed = false;
    assert!(library_enqueue_selected(&mut ui, &mut q, &rows, false).is_empty());
    assert!(ui.refresh_needed);
}

#[test]
fn search_ranks_and_selects() {
    let recs = vec![rec(false, "/m/sun.mp3"), rec(false, "/m/moon.mp3"), rec(false, "/m/sunset.mp3")];
    let metas = vec![meta("Sun", None, None), meta("Moon", None, None), meta("Sunset Boulevard", None, None)];
    let tree = build_library(recs, metas, false);
    let rows = flatten_library(&tree, 0, vec![], &PathSet::new(), &Playlist::new());
    let mut ui = ready();
    ui.search_cursor = 3;
    ui.search_query = "sun".to_string();
    let results = run_search(&mut ui, &rows);
    assert_eq!(ui.search_cursor, 0);
    assert_eq!(results.len(), 2);
    assert!(results.iter().all(|e| e.name().starts_with("Sun")));
    ui.search_query = String::new();
    assert!(run_search(&mut ui, &rows).is_empty());
    // Ranking: best score first, ties in their order.
    let t = |n: &str| LibraryEntry::Track { name: n.to_string(), path: n.to_string(), metadata: TrackMetadata::default() };
    let ranked = rank_matches(vec![(5, t("a")), (9, t("b")), (5, t("c")), (7, t("d"))]);
    let names: Vec<&str> = ranked.iter().map(|e| e.name()).collect();
    assert_eq!(names, vec!["b", "d", "a", "c"]);
    // Selecting a result enqueues it.
    let mut q = Playlist::new();
    ui.search_cursor = 0;
    let r = search_enqueue_selected(&mut ui, &mut q, &results, false);
    assert_eq!(r, vec![AppAction::PlayCurrent, AppAction::RebuildLibraryView]);
    assert_eq!(q.len(), 1);
}

#[test]
fn dequeuing_the_last_playing_track_clears_the_queue() {
    let recs = vec![rec(true, "/m/a"), rec(false, "/m/a/1.mp3"), rec(false, "/m/a/2.mp3")];
    let metas = vec![meta("One", None, Some(1)), meta("Two", None, Some(2))];
    let tree = build_library(recs, metas, false);
    let mut q = Playlist::new();
    q.add("/m/a/1.mp3".to_string(), meta("One", None, Some(1)));
    let rows = flatten_library(&tree, 0, vec![], &PathSet::new(), &q);
    let mut ui = ready();
    // Row 2 is the first track, the only entry of the queue and the playing one.
    ui.library_cursor = 2;
    let r = library_enqueue_selected(&mut ui, &mut q, &rows, false);
    assert_eq!(r, vec![AppAction::ClearPlaylist, AppAction::RebuildLibraryView]);
    assert!(q.is_empty());
    // With another track left in the queue, the playing one is replaced instead.
    q.add("/m/a/1.mp3".to_string(), meta("One", None, Some(1)));
    q.add("/m/a/2.mp3".to_string(), meta("Two", None, Some(2)));
    let rows = flatten_library(&tree, 0, vec![], &PathSet::new(), &q);
    let r = library_enqueue_selected(&mut ui, &mut q, &rows, false);
    assert_eq!(r, vec![AppAction::PlayCurrent, AppAction::RebuildLibraryView]);
    assert_eq!(q.paths(), vec!["/m/a/2.mp3".to_string()]);
}

#[test]
fn library_hides_dot_entries_and_sorts_siblings_by_lowercase_name() {
    let recs = vec![
        rec(true, "/m/Zeta"),
        rec(false, "/m/Zeta/b.mp3"),
        rec(false, "/m/Zeta/A.mp3"),
        rec(true, "/m/.hidden"),
        rec(false, "/m/.hidden/x.mp3"),
        rec(true, "/m/only_hidden"),
        rec(false, "/m/only_hidden/.secret.mp3"),
        rec(false, "/m/alpha.mp3"),
    ];
    let metas = vec![meta("B", None, None), meta("A", None, None), meta("X", None, None), meta("S", None, None), meta("Alpha", None, None)];
    let tree = build_library(recs, metas, false);
    let names: Vec<&str> = tree.iter().map(|e| e.path()).collect();
    assert_eq!(names, vec!["/m/alpha.mp3", "/m/Zeta"]);
    match &tree[1] {
        LibraryEntry::Directory { children, .. } => {
            let paths: Vec<&str> = children.iter().map(|e| e.path()).collect();
            assert_eq!(paths, vec!["/m/Zeta/A.mp3", "/m/Zeta/b.mp3"]);
        }
        _ => panic!("expected a directory"),
    }
}
