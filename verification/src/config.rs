//! Persistent settings and the saved session.

use vstd::prelude::*;

use crate::playlist::{lemma_real_index_in_range, Playlist, RepeatMode};

verus! {

/// Application configuration persisted to disk.
#[derive(Debug, Clone)]
pub struct AppConfig {
    /// Path to the music library directory.
    pub music_dir: Option<String>,
    /// Default volume (0-100).
    pub volume: u8,
    /// Whether the visualizer is enabled by default.
    pub visualizer_enabled: bool,
    /// Visualizer height in rows.
    pub visualizer_height: u16,
    /// Whether cover art display is enabled.
    pub cover_enabled: bool,
    /// Color scheme index.
    pub color_scheme: usize,
    /// Whether to strip track numbers from display titles.
    pub strip_track_numbers: bool,
}

impl Default for AppConfig {
    fn default() -> (c: Self)
        ensures
            c.music_dir is None,
            c.volume == 80,
            c.visualizer_enabled,
            c.visualizer_height == 5,
            c.cover_enabled,
            c.color_scheme == 0,
            c.strip_track_numbers,
    {
        AppConfig {
            music_dir: None,
            volume: 80,
            visualizer_enabled: true,
            visualizer_height: 5,
            cover_enabled: true,
            color_scheme: 0,
            strip_track_numbers: true,
        }
    }
}

/// Persistent session state saved on exit, restored on launch.
#[derive(Debug, Clone)]
pub struct SessionState {
    /// List of file paths in the queue.
    pub playlist_paths: Vec<String>,
    /// Index of the currently playing track.
    pub current_index: usize,
    /// Playback position in milliseconds.
    pub position_ms: u64,
    /// Whether playback was active when the session was saved.
    pub was_playing: bool,
    /// Volume at save time.
    pub volume: u8,
    /// Repeat mode.
    pub repeat_mode: RepeatMode,
    /// Shuffle state.
    pub shuffle: bool,
}

impl Default for SessionState {
    fn default() -> (s: Self)
        ensures
            s.playlist_paths@.len() == 0,
            s.current_index == 0,
            s.position_ms == 0,
            !s.was_playing,
            s.volume == 80,
            s.repeat_mode == RepeatMode::Off,
            !s.shuffle,
    {
        SessionState {
            playlist_paths: Vec::new(),
            current_index: 0,
            position_ms: 0,
            was_playing: false,
            volume: 80,
            repeat_mode: RepeatMode::Off,
            shuffle: false,
        }
    }
}

/// `s` is the session saved for `playlist`: its paths, the entry index of the current track
/// (0 when there is none), repeat and shuffle, with the player's position, playing state and
/// volume.
pub open spec fn captured(playlist: Playlist, position_ms: u64, was_playing: bool, volume: u8, s: SessionState) -> bool {
    &&& s.playlist_paths@.len() == playlist.entries@.len()
    &&& forall|i: int| 0 <= i < s.playlist_paths@.len() ==> #[trigger] s.playlist_paths@[i]@ == playlist.entries@[i].path@
    &&& s.current_index == match playlist.real_index() {
        Some(r) => r,
        None => 0usize,
    }
    &&& s.position_ms == position_ms
    &&& s.was_playing == was_playing
    &&& s.volume == volume
    &&& s.repeat_mode == playlist.repeat
    &&& s.shuffle == playlist.shuffle
}

/// `r` is the queue `q` after restoring `state`: the same entries; for a non-empty queue the
/// saved index (clamped to the last entry) as the current position of the play order, and
/// the saved repeat and shuffle; an empty queue stays as it was.
pub open spec fn restored(q: Playlist, state: SessionState, r: Playlist) -> bool {
    &&& r.wf()
    &&& r.entries == q.entries
    &&& q.entries@.len() == 0 ==> r == q
    &&& q.entries@.len() > 0 ==> {
        &&& r.repeat == state.repeat_mode
        &&& r.shuffle == state.shuffle
        &&& r.real_index() == Some(
            q.play_order@[if state.current_index < q.entries@.len() {
                state.current_index as int
            } else {
                q.entries@.len() - 1
            }],
        )
    }
}

/// Saving a session of a non-empty queue and restoring it into the queue rebuilt from the
/// saved paths (in order, unshuffled) brings back the current track, the repeat mode and
/// shuffle.
pub proof fn lemma_session_round_trip(p: Playlist, position_ms: u64, was_playing: bool, volume: u8, s: SessionState, q: Playlist, r: Playlist)
    requires
        p.wf(),
        p.entries@.len() > 0,
        captured(p, position_ms, was_playing, volume, s),
        q.wf(),
        q.entries@.len() == s.playlist_paths@.len(),
        forall|i: int| 0 <= i < q.entries@.len() ==> #[trigger] q.entries@[i].path@ == s.playlist_paths@[i]@,
        forall|i: int| 0 <= i < q.play_order@.len() ==> #[trigger] q.play_order@[i] == i,
        restored(q, s, r),
    ensures
        r.entries@.len() == p.entries@.len(),
        forall|i: int| 0 <= i < r.entries@.len() ==> #[trigger] r.entries@[i].path@ == p.entries@[i].path@,
        r.real_index() == p.real_index(),
        r.repeat == p.repeat,
        r.shuffle == p.shuffle,
{
    lemma_real_index_in_range(p);
    assert forall|i: int| 0 <= i < r.entries@.len() implies #[trigger] r.entries@[i].path@ == p.entries@[i].path@ by {
        assert(q.entries@[i].path@ == s.playlist_paths@[i]@);
    }
}

impl SessionState {
    /// The session to save for `playlist`: its paths, the entry index of the current track
    /// (0 when there is none), repeat and shuffle, with the player's position, playing state
    /// and volume.
    pub fn capture(playlist: &Playlist, position_ms: u64, was_playing: bool, volume: u8) -> (s: Self)
        ensures
            captured(*playlist, position_ms, was_playing, volume, s),
    {
        SessionState {
            playlist_paths: playlist.paths(),
            current_index: match playlist.current_real_index() {
                Some(r) => r,
                None => 0,
            },
            position_ms,
            was_playing,
            volume,
            repeat_mode: playlist.repeat,
            shuffle: playlist.shuffle,
        }
    }
}

impl Playlist {
    /// Applies a restored session to a queue rebuilt from its paths: the saved index
    /// (clamped to the last entry) becomes the current position, then repeat and shuffle are
    /// set as saved. Nothing happens to an empty queue.
    pub fn restore_session(&mut self, state: &SessionState)
        requires
            old(self).wf(),
        ensures
            restored(*old(self), *state, *final(self)),
    {
        if self.entries.len() > 0 {
            let last = self.entries.len() - 1;
            self.current = if state.current_index < last { state.current_index } else { last };
            self.repeat = state.repeat_mode;
            let ghost placed = *self;
            self.set_shuffle(state.shuffle);
            assert(placed.real_index() == Some(old(self).play_order@[placed.current as int]));
        }
    }
}

} // verus!
