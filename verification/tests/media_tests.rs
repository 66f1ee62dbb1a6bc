use mixed::media::{cover_file_name, mpris_changes, web_search_url, window_title, AndroidMediaHandle, MprisProperty, MprisState};
use mixed::metadata::{TrackDuration, TrackMetadata};
use mixed::player::{restarts_on_previous, seek_back_target, seek_forward_target, should_advance, shown_position, take_reply_lines};
use mixed::playlist::{Playlist, RepeatMode};
use mixed::ring::SampleRing;

#[test]
fn ring_reads_back_what_was_written() {
    let mut ring = SampleRing::new(4, 0i32);
    assert_eq!(ring.capacity(), 4);
    assert_eq!(ring.read_latest(10), vec![0, 0, 0, 0]);
    ring.push_batch(&[1, 2, 3]);
    assert_eq!(ring.read_latest(3), vec![1, 2, 3]);
    ring.push(4);
    ring.push(5);
    assert_eq!(ring.read_latest(4), vec![2, 3, 4, 5]);
    assert_eq!(ring.read_latest(2), vec![4, 5]);
    let mut dest = vec![9, 9, 9, 9, 9, 9];
    ring.read_latest_into(&mut dest);
    assert_eq!(dest, vec![2, 3, 4, 5, 9, 9]);
    let mut small = vec![0; 2];
    ring.read_latest_into(&mut small);
    assert_eq!(small, vec![4, 5]);
    assert_eq!(ring.sample_rate, 44100);
}

#[test]
fn mpris_state_publishes_track_and_playback() {
    let mut st = MprisState::default();
    assert_eq!(st.seek_target, -1);
    assert_eq!(st.volume_percent, 80);
    let mut m = TrackMetadata::default();
    m.title = Some("Song".to_string());
    m.artist = Some("Artist".to_string());
    m.duration = Some(TrackDuration { secs: 2, nanos: 500_000_000 });
    let mut q = Playlist::new();
    q.add("/a.mp3".to_string(), TrackMetadata::default());
    q.add("/b.mp3".to_string(), TrackMetadata::default());
    q.repeat = RepeatMode::Queue;
    st.publish_track(&m, false, 0, &q);
    assert_eq!(st.metadata.title, "Song");
    assert_eq!(st.metadata.artist, "Artist");
    assert_eq!(st.metadata.album, "Unknown Album");
    assert_eq!(st.length_us, 2_500_000);
    assert_eq!(st.loop_status, 2);
    assert!(st.can_play && st.can_pause && st.can_go_next && st.can_go_previous);
    st.publish_playback(true, true, 55);
    assert_eq!(st.playback_status, 2);
    st.publish_playback(false, true, 55);
    assert_eq!(st.playback_status, 1);
    assert_eq!(st.volume_percent, 55);
    assert!(!st.publish_position(1_000, 2_500));
    assert_eq!(st.position_us, 1_000_000);
    assert!(st.publish_position(1_000, 3_000));
    assert_eq!(st.length_us, 3_000_000);
    // Without a tagged duration the player's length is used.
    m.duration = None;
    st.publish_track(&m, false, 4_000, &q);
    assert_eq!(st.length_us, 4_000_000);
}

#[test]
fn android_notification_arguments() {
    let h = AndroidMediaHandle { sock: "/tmp/mixed.sock".to_string() };
    let args = h.notification_args("It's", "Band");
    assert_eq!(args.len(), 22);
    assert_eq!(args[5], "It'\\''s");
    assert_eq!(args[7], "Band");
    assert_eq!(args[11], "echo prev > '/tmp/mixed.sock'");
    assert_eq!(args[21], "echo quit > '/tmp/mixed.sock'");
}

#[test]
fn track_change_texts() {
    assert_eq!(window_title("A", "T"), "mixed: A - T");
    assert_eq!(cover_file_name(Some("My Song/Live")), "mixed_cover_My_Song_Live.png");
    assert_eq!(cover_file_name(None), "mixed_cover_unknown.png");
}

#[test]
fn seeking_and_advancing() {
    assert_eq!(seek_back_target(3_000), 0);
    assert_eq!(seek_back_target(12_000), 7_000);
    assert_eq!(seek_forward_target(1_000, 10_000), 6_000);
    assert_eq!(seek_forward_target(8_000, 10_000), 10_000);
    assert_eq!(shown_position(Some(42), 7), 42);
    assert_eq!(shown_position(None, 7), 7);
    assert!(should_advance(false, false, true, false));
    assert!(!should_advance(true, false, true, false));
    assert!(!should_advance(false, false, true, true));
    assert!(restarts_on_previous(3_001));
    assert!(!restarts_on_previous(3_000));
    assert!(!restarts_on_previous(0));
}

#[test]
fn reply_lines_are_framed() {
    let mut buf = b"{\"a\":1}\n{\"b\":2}\n{\"c\"".to_vec();
    let lines = take_reply_lines(&mut buf);
    assert_eq!(lines, vec![b"{\"a\":1}\n".to_vec(), b"{\"b\":2}\n".to_vec()]);
    assert_eq!(buf, b"{\"c\"".to_vec());
    buf.extend_from_slice(b":3}\n");
    let lines = take_reply_lines(&mut buf);
    assert_eq!(lines, vec![b"{\"c\":3}\n".to_vec()]);
    assert!(buf.is_empty());
}

#[test]
fn web_search_addresses() {
    assert_eq!(web_search_url("Daft Punk"), "https://www.google.com/search?q=Daft+Punk");
    assert_eq!(web_search_url("AC/DC & Co."), "https://www.google.com/search?q=AC%2FDC+%26+Co.");
    assert_eq!(web_search_url("Sigur Rós"), "https://www.google.com/search?q=Sigur+Rós");
    assert_eq!(web_search_url(""), "https://www.google.com/search?q=");
}

#[test]
fn mpris_announces_what_changed() {
    let last = MprisState::unpublished();
    let mut now = MprisState::default();
    assert_eq!(mpris_changes(&last, &now), vec![MprisProperty::Volume]);
    now.seek_target = 5_000_000;
    now.playback_status = 1;
    now.metadata.title = "Song".to_string();
    now.shuffle = true;
    now.can_play = true;
    assert_eq!(
        mpris_changes(&last, &now),
        vec![
            MprisProperty::Position,
            MprisProperty::PlaybackStatus,
            MprisProperty::Metadata,
            MprisProperty::Volume,
            MprisProperty::Shuffle,
            MprisProperty::CanPlay,
        ]
    );
    let same = now.clone();
    now.seek_target = -1;
    assert!(mpris_changes(&same, &now).is_empty());
}
