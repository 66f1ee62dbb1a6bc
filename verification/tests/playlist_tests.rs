use mixed::config::SessionState;
use mixed::library::{LibraryEntry, PathSet};
use mixed::metadata::TrackMetadata;
use mixed::playlist::{Playlist, QueueVisualItem, RepeatMode};

fn add_track(playlist: &mut Playlist, name: &str) {
    playlist.add(name.to_string(), TrackMetadata::default());
}

#[test]
fn navigation_capabilities_single_track_no_repeat() {
    let mut playlist = Playlist::new();
    add_track(&mut playlist, "one.mp3");
    playlist.current = 0;
    playlist.repeat = RepeatMode::Off;
    assert!(!playlist.can_go_next());
    assert!(!playlist.can_go_previous());
}

#[test]
fn navigation_capabilities_follow_play_order_and_repeat() {
    let mut playlist = Playlist::new();
    assert!(!playlist.can_go_next());
    assert!(!playlist.can_go_previous());

    add_track(&mut playlist, "one.mp3");
    add_track(&mut playlist, "two.mp3");

    playlist.current = 0;
    assert!(playlist.can_go_next());
    assert!(!playlist.can_go_previous());

    playlist.current = 1;
    assert!(!playlist.can_go_next());
    assert!(playlist.can_go_previous());

    playlist.repeat = RepeatMode::Queue;
    assert!(playlist.can_go_next());
    assert!(playlist.can_go_previous());

    playlist.repeat = RepeatMode::Track;
    assert!(playlist.can_go_next());
    assert!(playlist.can_go_previous());
}

fn queue_of(names: &[&str]) -> Playlist {
    let mut playlist = Playlist::new();
    for n in names {
        add_track(&mut playlist, n);
    }
    playlist
}

fn current_path(playlist: &Playlist) -> Option<String> {
    playlist.current_entry().map(|e| e.path.clone())
}

#[test]
fn move_up_then_down_restores_queue() {
    let mut playlist = queue_of(&["a.mp3", "b.mp3", "c.mp3"]);
    playlist.move_up(2);
    assert_eq!(playlist.paths(), vec!["a.mp3", "c.mp3", "b.mp3"]);
    playlist.move_down(1);
    assert_eq!(playlist.paths(), vec!["a.mp3", "b.mp3", "c.mp3"]);
}

#[test]
fn next_then_previous_returns_with_repeat_queue() {
    let mut playlist = queue_of(&["a.mp3", "b.mp3", "c.mp3"]);
    playlist.repeat = RepeatMode::Queue;
    playlist.current = 2;
    assert!(playlist.advance_track());
    assert_eq!(current_path(&playlist).as_deref(), Some("a.mp3"));
    assert!(playlist.prev());
    assert_eq!(current_path(&playlist).as_deref(), Some("c.mp3"));
}

#[test]
fn removing_another_entry_keeps_the_playing_track() {
    let mut playlist = queue_of(&["a.mp3", "b.mp3", "c.mp3"]);
    playlist.current = 2;
    playlist.remove(0);
    assert_eq!(playlist.paths(), vec!["b.mp3", "c.mp3"]);
    assert_eq!(current_path(&playlist).as_deref(), Some("c.mp3"));
    playlist.remove(7);
    assert_eq!(playlist.len(), 2);
}

#[test]
fn removing_paths_reports_the_playing_track() {
    let mut playlist = queue_of(&["a.mp3", "b.mp3", "c.mp3"]);
    playlist.current = 1;
    let mut gone = PathSet::new();
    gone.insert("a.mp3".to_string());
    assert!(!playlist.remove_paths(&gone));
    assert_eq!(playlist.paths(), vec!["b.mp3", "c.mp3"]);
    assert_eq!(current_path(&playlist).as_deref(), Some("b.mp3"));
    let mut gone = PathSet::new();
    gone.insert("b.mp3".to_string());
    assert!(playlist.remove_paths(&gone));
    assert_eq!(playlist.paths(), vec!["c.mp3"]);
}

#[test]
fn shuffle_keeps_every_entry_once_and_the_current_first() {
    let mut playlist = queue_of(&["a.mp3", "b.mp3", "c.mp3", "d.mp3", "e.mp3"]);
    playlist.current = 3;
    playlist.set_shuffle_seeded(true, 12345);
    assert_eq!(playlist.current, 0);
    assert_eq!(playlist.play_order[0], 3);
    let mut order = playlist.play_order.clone();
    order.sort();
    assert_eq!(order, vec![0, 1, 2, 3, 4]);
    assert_eq!(current_path(&playlist).as_deref(), Some("d.mp3"));
}

#[test]
fn queue_view_lists_each_entry_once_in_order() {
    let playlist = queue_of(&["/m/x/1.mp3", "/m/x/2.mp3", "/m/y/3.mp3"]);
    for show_folders in [false, true] {
        let rows: Vec<usize> = playlist
            .get_visual_items(show_folders, true)
            .iter()
            .filter_map(|i| match i {
                QueueVisualItem::Track { entry_idx, .. } => Some(*entry_idx),
                _ => None,
            })
            .collect();
        assert_eq!(rows, vec![0, 1, 2]);
    }
    let grouped = playlist.get_visual_items(true, true);
    assert!(matches!(&grouped[0], QueueVisualItem::Header { name } if name == "x"));
    assert!(matches!(grouped[3], QueueVisualItem::Separator));
    assert!(matches!(&grouped[4], QueueVisualItem::Header { name } if name == "y"));
}

#[test]
fn session_round_trip_restores_track_repeat_and_shuffle() {
    let mut playlist = queue_of(&["a.mp3", "b.mp3", "c.mp3"]);
    playlist.current = 1;
    playlist.repeat = RepeatMode::Track;
    let saved = SessionState::capture(&playlist, 4_200, true, 55);
    assert_eq!(saved.playlist_paths, vec!["a.mp3", "b.mp3", "c.mp3"]);
    assert_eq!(saved.current_index, 1);
    assert_eq!(saved.position_ms, 4_200);
    assert_eq!(saved.volume, 55);
    let mut rebuilt = Playlist::new();
    for p in &saved.playlist_paths {
        rebuilt.add(p.clone(), TrackMetadata::default());
    }
    rebuilt.restore_session(&saved);
    assert_eq!(current_path(&rebuilt).as_deref(), Some("b.mp3"));
    assert_eq!(rebuilt.repeat, RepeatMode::Track);
    assert!(!rebuilt.shuffle);
}

#[test]
fn shuffle_seed_from_the_clock() {
    assert_eq!(mixed::playlist::seed_from_clock(Some(1_700_000_000)), 1_700_000_000);
    assert_eq!(mixed::playlist::seed_from_clock(Some(0x1_0000_0005)), 5);
    assert_eq!(mixed::playlist::seed_from_clock(None), 12345);
}

#[test]
fn next_track_plays_on_or_stops() {
    let mut empty = Playlist::new();
    assert_eq!(mixed::events::next_track_action(&mut empty), mixed::events::AppAction::Stop);
    let mut playlist = queue_of(&["a.mp3", "b.mp3"]);
    assert_eq!(mixed::events::next_track_action(&mut playlist), mixed::events::AppAction::PlayCurrent);
    assert_eq!(current_path(&playlist).as_deref(), Some("b.mp3"));
    assert_eq!(mixed::events::next_track_action(&mut playlist), mixed::events::AppAction::Stop);
    assert_eq!(current_path(&playlist).as_deref(), Some("b.mp3"));
    playlist.repeat = RepeatMode::Queue;
    assert_eq!(mixed::events::next_track_action(&mut playlist), mixed::events::AppAction::PlayCurrent);
    assert_eq!(current_path(&playlist).as_deref(), Some("a.mp3"));
}

#[test]
fn entry_enqueued_exactly_when_all_its_tracks_are_queued() {
    let track = |p: &str| LibraryEntry::Track { name: p.to_string(), path: p.to_string(), metadata: TrackMetadata::default() };
    let dir = LibraryEntry::Directory {
        name: "a".to_string(),
        path: "/m/a".to_string(),
        children: vec![track("/m/a/1.mp3"), track("/m/a/2.mp3")],
    };
    let mut playlist = queue_of(&["/m/a/1.mp3"]);
    assert!(!dir.all_tracks_enqueued(&playlist));
    add_track(&mut playlist, "/m/a/2.mp3");
    assert!(dir.all_tracks_enqueued(&playlist));
    let empty = LibraryEntry::Directory { name: "e".to_string(), path: "/m/e".to_string(), children: vec![] };
    assert!(!empty.all_tracks_enqueued(&playlist));
}
