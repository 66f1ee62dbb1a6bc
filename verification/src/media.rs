//! What the desktop and phone media controls see of the player, and what they send back.

use vstd::prelude::*;

use crate::metadata::TrackMetadata;
use crate::playlist::{Playlist, RepeatMode};
use crate::text::{chars_of, is_whitespace, slice_chars, str_eq, string_of, trim, trim_chars};

verus! {

/// The track strings published to MPRIS.
#[derive(Debug, Clone)]
pub struct MprisMetadataStrings {
    pub title: String,
    pub artist: String,
    pub album: String,
    /// e.g. "file:///tmp/cover.png"
    pub art_url: String,
}

impl Default for MprisMetadataStrings {
    fn default() -> (m: Self)
        ensures
            m.title@.len() == 0,
            m.artist@.len() == 0,
            m.album@.len() == 0,
            m.art_url@.len() == 0,
    {
        MprisMetadataStrings {
            title: String::new(),
            artist: String::new(),
            album: String::new(),
            art_url: String::new(),
        }
    }
}

/// The MPRIS playback status code: 2 when paused, 1 when playing, 0 when stopped.
pub fn playback_status_code(paused: bool, playing: bool) -> (r: u8)
    ensures
        r == if paused { 2u8 } else if playing { 1u8 } else { 0u8 },
{
    if paused {
        2
    } else if playing {
        1
    } else {
        0
    }
}

/// The MPRIS `PlaybackStatus` name of a status code.
pub fn playback_status_name(code: u8) -> (r: &'static str)
    ensures
        r@ == if code == 1 { "Playing"@ } else if code == 2 { "Paused"@ } else { "Stopped"@ },
{
    if code == 1 {
        "Playing"
    } else if code == 2 {
        "Paused"
    } else {
        "Stopped"
    }
}

pub open spec fn loop_code(mode: RepeatMode) -> u8 {
    match mode {
        RepeatMode::Off => 0,
        RepeatMode::Track => 1,
        RepeatMode::Queue => 2,
    }
}

/// The MPRIS loop status code of a repeat mode: 0 none, 1 track, 2 playlist.
pub fn loop_status_code(mode: RepeatMode) -> (r: u8)
    ensures
        r == loop_code(mode),
{
    match mode {
        RepeatMode::Off => 0,
        RepeatMode::Track => 1,
        RepeatMode::Queue => 2,
    }
}

pub open spec fn loop_name(code: u8) -> Seq<char> {
    if code == 1 {
        "Track"@
    } else if code == 2 {
        "Playlist"@
    } else {
        "None"@
    }
}

/// The MPRIS `LoopStatus` name of a loop status code.
pub fn loop_status_name(code: u8) -> (r: &'static str)
    ensures
        r@ == loop_name(code),
{
    if code == 1 {
        "Track"
    } else if code == 2 {
        "Playlist"
    } else {
        "None"
    }
}

pub open spec fn repeat_of(name: Seq<char>) -> RepeatMode {
    if name == "Track"@ {
        RepeatMode::Track
    } else if name == "Playlist"@ {
        RepeatMode::Queue
    } else {
        RepeatMode::Off
    }
}

/// The repeat mode an MPRIS `LoopStatus` asks for: `Track`, `Playlist`, anything else is off.
pub fn repeat_from_loop_status(name: &str) -> (r: RepeatMode)
    ensures
        r == repeat_of(name@),
{
    if str_eq(name, "Track") {
        RepeatMode::Track
    } else if str_eq(name, "Playlist") {
        RepeatMode::Queue
    } else {
        RepeatMode::Off
    }
}

/// Publishing a repeat mode and reading it back gives the same mode.
pub proof fn lemma_loop_status_round_trip(mode: RepeatMode)
    ensures
        repeat_of(loop_name(loop_code(mode))) == mode,
{
    reveal_strlit("Track");
    reveal_strlit("Playlist");
    reveal_strlit("None");
    assert("Playlist"@.len() != "Track"@.len());
    assert("None"@.len() != "Track"@.len());
    assert("None"@.len() != "Playlist"@.len());
}

/// Integer division rounding toward zero, as Rust's `/` on signed integers.
pub open spec fn div_toward_zero(a: int, b: int) -> int {
    if a >= 0 {
        a / b
    } else {
        -((-a) / b)
    }
}

/// The position to seek to after an MPRIS relative seek of `offset_us` microseconds from
/// `current_ms`: the new position in milliseconds, not below zero.
pub fn relative_seek_target(current_ms: u64, offset_us: i64) -> (r: u64)
    requires
        current_ms <= i64::MAX,
        i64::MIN <= current_ms + div_toward_zero(offset_us as int, 1000) <= i64::MAX,
    ensures
        r == if current_ms + div_toward_zero(offset_us as int, 1000) < 0 {
            0
        } else {
            current_ms + div_toward_zero(offset_us as int, 1000)
        },
{
    let target = current_ms as i64 + offset_us / 1000;
    if target < 0 {
        0
    } else {
        target as u64
    }
}

/// The position to seek to for an MPRIS `SetPosition` of `pos_us` microseconds, in
/// milliseconds, not below zero.
pub fn absolute_seek_target(pos_us: i64) -> (r: u64)
    ensures
        r == if pos_us < 0 { 0 } else { div_toward_zero(pos_us as int, 1000) },
{
    let t = pos_us / 1000;
    if t < 0 {
        0
    } else {
        t as u64
    }
}

/// The body of a desktop notification: the artist, and on a second line the album when it
/// is known.
pub fn notification_body(artist: &str, album: &str) -> (r: String)
    ensures
        r@ == if album@.len() > 0 && album@ != "Unknown Album"@ {
            artist@ + "\n"@ + album@
        } else {
            artist@
        },
{
    if !album.is_empty() && !str_eq(album, "Unknown Album") {
        let mut s = String::from_str(artist);
        s.append("\n");
        s.append(album);
        s
    } else {
        String::from_str(artist)
    }
}

/// A command that the phone's notification buttons send over the socket.
#[derive(Debug, Clone, Copy, PartialEq, Eq, Structural)]
pub enum SocketCommand {
    PlayPause,
    Play,
    Pause,
    Next,
    Previous,
    Stop,
    Quit,
}

/// `c` with ASCII letters lowercased.
pub open spec fn ascii_lower(c: char) -> char {
    if 'A' <= c && c <= 'Z' {
        ((c as u32) + 32) as char
    } else {
        c
    }
}

pub open spec fn socket_command_of(word: Seq<char>) -> Option<SocketCommand> {
    if word == "playpause"@ {
        Some(SocketCommand::PlayPause)
    } else if word == "play"@ {
        Some(SocketCommand::Play)
    } else if word == "pause"@ {
        Some(SocketCommand::Pause)
    } else if word == "next"@ {
        Some(SocketCommand::Next)
    } else if word == "prev"@ || word == "previous"@ {
        Some(SocketCommand::Previous)
    } else if word == "stop"@ {
        Some(SocketCommand::Stop)
    } else if word == "quit"@ {
        Some(SocketCommand::Quit)
    } else {
        None
    }
}

fn lower_char(c: char) -> (r: char)
    ensures
        r == ascii_lower(c),
{
    if 'A' <= c && c <= 'Z' {
        let b: u8 = (c as u32) as u8 + 32;
        b as char
    } else {
        c
    }
}

/// The command on a line read from the socket: the line is trimmed and ASCII-lowercased,
/// then must be one of `playpause`, `play`, `pause`, `next`, `prev`/`previous`, `stop`, `quit`.
pub fn socket_command(line: &str) -> (r: Option<SocketCommand>)
    ensures
        r == socket_command_of(trim(line@).map_values(|c: char| ascii_lower(c))),
{
    let v = chars_of(line);
    let t = trim_chars(&v);
    let mut low: Vec<char> = Vec::new();
    let mut i: usize = 0;
    while i < t.len()
        invariant
            i <= t@.len(),
            low@ == t@.take(i as int).map_values(|c: char| ascii_lower(c)),
        decreases t@.len() - i,
    {
        low.push(lower_char(t[i]));
        assert(low@ =~= t@.take(i + 1).map_values(|c: char| ascii_lower(c)));
        i = i + 1;
    }
    assert(t@.take(t@.len() as int) =~= t@);
    let w = string_of(&low);
    let w = w.as_str();
    if str_eq(w, "playpause") {
        Some(SocketCommand::PlayPause)
    } else if str_eq(w, "play") {
        Some(SocketCommand::Play)
    } else if str_eq(w, "pause") {
        Some(SocketCommand::Pause)
    } else if str_eq(w, "next") {
        Some(SocketCommand::Next)
    } else if str_eq(w, "prev") || str_eq(w, "previous") {
        Some(SocketCommand::Previous)
    } else if str_eq(w, "stop") {
        Some(SocketCommand::Stop)
    } else if str_eq(w, "quit") {
        Some(SocketCommand::Quit)
    } else {
        None
    }
}

/// Each word of the socket protocol names its own command: `prev` and `previous` go back,
/// `next` goes forward, `play`, `pause` and `playpause` drive playback, `stop` stops and `quit`
/// quits; any other word is no command.
pub proof fn lemma_socket_words(word: Seq<char>)
    ensures
        socket_command_of("prev"@) == Some(SocketCommand::Previous),
        socket_command_of("previous"@) == Some(SocketCommand::Previous),
        socket_command_of("next"@) == Some(SocketCommand::Next),
        socket_command_of("play"@) == Some(SocketCommand::Play),
        socket_command_of("pause"@) == Some(SocketCommand::Pause),
        socket_command_of("playpause"@) == Some(SocketCommand::PlayPause),
        socket_command_of("stop"@) == Some(SocketCommand::Stop),
        socket_command_of("quit"@) == Some(SocketCommand::Quit),
        word != "prev"@ && word != "previous"@ && word != "next"@ && word != "play"@ && word
            != "pause"@ && word != "playpause"@ && word != "stop"@ && word != "quit"@
            ==> socket_command_of(word) is None,
{
    reveal_strlit("prev");
    reveal_strlit("previous");
    reveal_strlit("next");
    reveal_strlit("play");
    reveal_strlit("pause");
    reveal_strlit("playpause");
    reveal_strlit("stop");
    reveal_strlit("quit");
    assert("prev"@[2] != "play"@[2] && "prev"@[0] != "next"@[0]);
    assert("prev"@ != "playpause"@ && "prev"@ != "play"@ && "prev"@ != "pause"@ && "prev"@ != "next"@);
    assert("previous"@.len() != "playpause"@.len());
    assert("previous"@ != "playpause"@ && "previous"@ != "play"@ && "previous"@ != "pause"@
        && "previous"@ != "next"@);
    assert("next"@ != "playpause"@ && "next"@ != "play"@ && "next"@ != "pause"@);
    assert("pause"@ != "playpause"@ && "pause"@ != "play"@);
    assert("play"@ != "playpause"@);
    assert("stop"@[0] != "play"@[0] && "stop"@[0] != "next"@[0] && "stop"@[0] != "prev"@[0]);
    assert("quit"@[0] != "play"@[0] && "quit"@[0] != "next"@[0] && "quit"@[0] != "prev"@[0]
        && "quit"@[0] != "stop"@[0]);
    assert("stop"@ != "playpause"@ && "stop"@ != "play"@ && "stop"@ != "pause"@ && "stop"@ != "next"@
        && "stop"@ != "prev"@ && "stop"@ != "previous"@);
    assert("quit"@ != "playpause"@ && "quit"@ != "play"@ && "quit"@ != "pause"@ && "quit"@ != "next"@
        && "quit"@ != "prev"@ && "quit"@ != "previous"@ && "quit"@ != "stop"@);
}

/// A line read from the socket names its command whatever its case and surrounding blanks:
/// `prev`/`previous` is `Previous`, `next` is `Next`, and so on for every word of the protocol.
pub proof fn lemma_socket_line(line: Seq<char>)
    ensures
        ({
            let w = trim(line).map_values(|c: char| ascii_lower(c));
            &&& (w == "prev"@ || w == "previous"@) ==> socket_command_of(w) == Some(SocketCommand::Previous)
            &&& w == "next"@ ==> socket_command_of(w) == Some(SocketCommand::Next)
            &&& w == "play"@ ==> socket_command_of(w) == Some(SocketCommand::Play)
            &&& w == "pause"@ ==> socket_command_of(w) == Some(SocketCommand::Pause)
            &&& w == "playpause"@ ==> socket_command_of(w) == Some(SocketCommand::PlayPause)
            &&& w == "stop"@ ==> socket_command_of(w) == Some(SocketCommand::Stop)
            &&& w == "quit"@ ==> socket_command_of(w) == Some(SocketCommand::Quit)
        }),
{
    lemma_socket_words(trim(line).map_values(|c: char| ascii_lower(c)));
}

/// `s` with every `'` written as `'\''`, for use inside a single-quoted shell string.
pub open spec fn shell_escaped(s: Seq<char>) -> Seq<char>
    decreases s.len(),
{
    if s.len() == 0 {
        s
    } else {
        let rest = shell_escaped(s.drop_last());
        if s.last() == '\'' {
            rest + seq!['\'', '\\', '\'', '\'']
        } else {
            rest.push(s.last())
        }
    }
}

/// Minimal shell escaping: replaces single quotes so they are safe inside single-quoted
/// shell strings.
pub fn shell_escape(s: &str) -> (r: String)
    ensures
        r@ == shell_escaped(s@),
{
    let v = chars_of(s);
    let mut out = String::new();
    let mut i: usize = 0;
    while i < v.len()
        invariant
            i <= v@.len(),
            out@ == shell_escaped(v@.take(i as int)),
        decreases v@.len() - i,
    {
        assert(v@.take(i + 1).drop_last() =~= v@.take(i as int));
        if v[i] == '\'' {
            out.push('\'');
            out.push('\\');
            out.push('\'');
            out.push('\'');
        } else {
            out.push(v[i]);
        }
        assert(out@ =~= shell_escaped(v@.take(i + 1)));
        i = i + 1;
    }
    assert(v@.take(v@.len() as int) =~= v@);
    out
}

/// What the desktop media controls (MPRIS) are told about the player.
#[derive(Debug, Clone)]
pub struct MprisState {
    /// 0 stopped, 1 playing, 2 paused.
    pub playback_status: u8,
    /// 0 none, 1 track, 2 playlist.
    pub loop_status: u8,
    pub shuffle: bool,
    /// Volume in percent; MPRIS shows it divided by 100.
    pub volume_percent: u8,
    pub position_us: i64,
    pub length_us: i64,
    pub can_go_next: bool,
    pub can_go_previous: bool,
    pub can_play: bool,
    pub can_pause: bool,
    /// A seek the controls asked for, in microseconds; -1 for none.
    pub seek_target: i64,
    pub metadata: MprisMetadataStrings,
}

impl Default for MprisState {
    /// Stopped, nothing playing, volume 80%, no seek asked for.
    fn default() -> (m: Self)
        ensures
            m.playback_status == 0,
            m.loop_status == 0,
            !m.shuffle,
            m.volume_percent == 80,
            m.position_us == 0,
            m.length_us == 0,
            !m.can_go_next && !m.can_go_previous && !m.can_play && !m.can_pause,
            m.seek_target == -1,
            m.metadata.title@.len() == 0,
            m.metadata.artist@.len() == 0,
            m.metadata.album@.len() == 0,
            m.metadata.art_url@.len() == 0,
    {
        MprisState {
            playback_status: 0,
            loop_status: 0,
            shuffle: false,
            volume_percent: 80,
            position_us: 0,
            length_us: 0,
            can_go_next: false,
            can_go_previous: false,
            can_play: false,
            can_pause: false,
            seek_target: -1,
            metadata: MprisMetadataStrings::default(),
        }
    }
}

/// Microseconds of a track's length: from its tags when they give a duration, else from the
/// player.
pub open spec fn track_length_us(meta: TrackMetadata, player_duration_ms: u64) -> int {
    match meta.duration {
        Some(d) => d.secs * 1_000_000 + d.nanos / 1000,
        None => player_duration_ms * 1000,
    }
}

impl MprisState {
    /// Publishes a new track: its title, artist and album, its length, the repeat mode and
    /// whether the queue can move on or back. Play and pause become possible.
    pub fn publish_track(&mut self, meta: &TrackMetadata, strip_track_numbers: bool, player_duration_ms: u64, playlist: &Playlist)
        requires
            track_length_us(*meta, player_duration_ms) <= i64::MAX,
        ensures
            final(self).metadata.title@ == meta.title_text(strip_track_numbers),
            final(self).metadata.artist@ == meta.artist_text(),
            final(self).metadata.album@ == meta.album_text(),
            final(self).metadata.art_url == old(self).metadata.art_url,
            final(self).length_us == track_length_us(*meta, player_duration_ms),
            final(self).loop_status == loop_code(playlist.repeat),
            final(self).can_play && final(self).can_pause,
            final(self).can_go_next == playlist.next_possible(),
            final(self).can_go_previous == playlist.previous_possible(),
            final(self).playback_status == old(self).playback_status,
            final(self).shuffle == old(self).shuffle,
            final(self).volume_percent == old(self).volume_percent,
            final(self).position_us == old(self).position_us,
            final(self).seek_target == old(self).seek_target,
    {
        self.metadata.title = String::from_str(meta.display_title(strip_track_numbers));
        self.metadata.artist = String::from_str(meta.display_artist());
        self.metadata.album = String::from_str(meta.display_album());
        self.length_us = match meta.duration {
            Some(d) => (d.secs * 1_000_000 + (d.nanos / 1000) as u64) as i64,
            None => (player_duration_ms * 1000) as i64,
        };
        self.loop_status = loop_status_code(playlist.repeat);
        self.can_play = true;
        self.can_pause = true;
        self.can_go_next = playlist.can_go_next();
        self.can_go_previous = playlist.can_go_previous();
    }

    /// Publishes whether the player is paused or playing, and its volume.
    pub fn publish_playback(&mut self, paused: bool, playing: bool, volume_percent: u8)
        ensures
            final(self).playback_status == if paused { 2u8 } else if playing { 1u8 } else { 0u8 },
            final(self).volume_percent == volume_percent,
            final(self).metadata == old(self).metadata,
            final(self).length_us == old(self).length_us,
            final(self).position_us == old(self).position_us,
    {
        self.playback_status = playback_status_code(paused, playing);
        self.volume_percent = volume_percent;
    }

    /// Publishes the position; a length decoded by the player that differs from the published
    /// one replaces it. Returns whether the length changed.
    pub fn publish_position(&mut self, elapsed_ms: u64, duration_ms: u64) -> (changed: bool)
        requires
            elapsed_ms * 1000 <= i64::MAX,
            duration_ms * 1000 <= i64::MAX,
        ensures
            final(self).position_us == elapsed_ms * 1000,
            changed == (duration_ms > 0 && old(self).length_us != duration_ms * 1000),
            final(self).length_us == if changed { (duration_ms * 1000) as i64 } else { old(self).length_us },
            final(self).metadata == old(self).metadata,
            final(self).playback_status == old(self).playback_status,
    {
        self.position_us = (elapsed_ms * 1000) as i64;
        let decoded = (duration_ms * 1000) as i64;
        if decoded > 0 && self.length_us != decoded {
            self.length_us = decoded;
            true
        } else {
            false
        }
    }
}

/// The phone media bridge: where its notification buttons write their commands.
pub struct AndroidMediaHandle {
    /// The path of the Unix socket the buttons write to.
    pub sock: String,
}

/// `echo <word> > '<sock>'`: the shell action of a notification button.
pub open spec fn echo_action(word: Seq<char>, sock: Seq<char>) -> Seq<char> {
    "echo "@ + word + " > '"@ + sock + "'"@
}

fn echo_to(word: &str, sock: &str) -> (r: String)
    ensures
        r@ == echo_action(word@, sock@),
{
    let mut s = String::from_str("echo ");
    s.append(word);
    s.append(" > '");
    s.append(sock);
    s.append("'");
    s
}

fn push_arg(v: &mut Vec<String>, a: &str)
    ensures
        final(v)@.len() == old(v)@.len() + 1,
        forall|i: int| 0 <= i < old(v)@.len() ==> final(v)@[i] == old(v)@[i],
        final(v)@[old(v)@.len() as int]@ == a@,
{
    v.push(String::from_str(a));
}

/// The arguments of `termux-notification` for the media notification.
pub open spec fn notification_args_spec(sock: Seq<char>, title: Seq<char>, artist: Seq<char>) -> Seq<Seq<char>> {
    seq![
        "--id"@, "mixed_player"@,
        "--type"@, "media"@,
        "--title"@, shell_escaped(title),
        "--content"@, shell_escaped(artist),
        "--button1"@, "⏮"@,
        "--button1-action"@, echo_action("prev"@, sock),
        "--button2"@, "⏯"@,
        "--button2-action"@, echo_action("playpause"@, sock),
        "--button3"@, "⏭"@,
        "--button3-action"@, echo_action("next"@, sock),
        "--on-delete"@, echo_action("quit"@, sock),
    ]
}

/// Each button of the notification writes a word that the socket reads back as that button's
/// command: the first button goes to the previous track, the second toggles pause, the third
/// goes to the next track, and dismissing the notification quits.
pub proof fn lemma_notification_buttons(sock: Seq<char>, title: Seq<char>, artist: Seq<char>)
    ensures
        ({
            let a = notification_args_spec(sock, title, artist);
            &&& a[10] == "--button1-action"@
            &&& exists|w: Seq<char>| a[11] == echo_action(w, sock) && socket_command_of(w) == Some(SocketCommand::Previous)
            &&& a[14] == "--button2-action"@
            &&& exists|w: Seq<char>| a[15] == echo_action(w, sock) && socket_command_of(w) == Some(SocketCommand::PlayPause)
            &&& a[18] == "--button3-action"@
            &&& exists|w: Seq<char>| a[19] == echo_action(w, sock) && socket_command_of(w) == Some(SocketCommand::Next)
            &&& a[20] == "--on-delete"@
            &&& exists|w: Seq<char>| a[21] == echo_action(w, sock) && socket_command_of(w) == Some(SocketCommand::Quit)
        }),
{
    lemma_socket_words(Seq::empty());
    let a = notification_args_spec(sock, title, artist);
    assert(a[11] == echo_action("prev"@, sock));
    assert(a[15] == echo_action("playpause"@, sock));
    assert(a[19] == echo_action("next"@, sock));
    assert(a[21] == echo_action("quit"@, sock));
}

impl AndroidMediaHandle {
    /// The arguments of the `termux-notification` call that shows the track: its title and
    /// artist (shell-escaped) and three buttons (previous, play/pause, next) that write their
    /// command to the socket; dismissing the notification writes `quit`.
    pub fn notification_args(&self, title: &str, artist: &str) -> (r: Vec<String>)
        ensures
            r@.map_values(|a: String| a@) == notification_args_spec(self.sock@, title@, artist@),
    {
        let sock = self.sock.as_str();
        let t = shell_escape(title);
        let a = shell_escape(artist);
        let prev = echo_to("prev", sock);
        let pp = echo_to("playpause", sock);
        let next = echo_to("next", sock);
        let quit = echo_to("quit", sock);
        let mut v: Vec<String> = Vec::new();
        push_arg(&mut v, "--id");
        push_arg(&mut v, "mixed_player");
        push_arg(&mut v, "--type");
        push_arg(&mut v, "media");
        push_arg(&mut v, "--title");
        push_arg(&mut v, t.as_str());
        push_arg(&mut v, "--content");
        push_arg(&mut v, a.as_str());
        push_arg(&mut v, "--button1");
        push_arg(&mut v, "⏮");
        push_arg(&mut v, "--button1-action");
        push_arg(&mut v, prev.as_str());
        push_arg(&mut v, "--button2");
        push_arg(&mut v, "⏯");
        push_arg(&mut v, "--button2-action");
        push_arg(&mut v, pp.as_str());
        push_arg(&mut v, "--button3");
        push_arg(&mut v, "⏭");
        push_arg(&mut v, "--button3-action");
        push_arg(&mut v, next.as_str());
        push_arg(&mut v, "--on-delete");
        push_arg(&mut v, quit.as_str());
        assert(v@.map_values(|a: String| a@) =~= notification_args_spec(self.sock@, title@, artist@));
        v
    }
}

/// The terminal window title while a track plays.
pub fn window_title(artist: &str, title: &str) -> (r: String)
    ensures
        r@ == "mixed: "@ + artist@ + " - "@ + title@,
{
    let mut s = String::from_str("mixed: ");
    s.append(artist);
    s.append(" - ");
    s.append(title);
    s
}

/// `s` with spaces and slashes replaced by underscores.
pub open spec fn file_safe(s: Seq<char>) -> Seq<char> {
    s.map_values(|c: char| if c == ' ' || c == '/' { '_' } else { c })
}

/// The file name under which the cover of a track is cached: its title made safe for a file
/// name, or `unknown` for a track without a title.
pub fn cover_file_name(title: Option<&str>) -> (r: String)
    ensures
        r@ == "mixed_cover_"@ + file_safe(match title {
            Some(t) => t@,
            None => "unknown"@,
        }) + ".png"@,
{
    let t = match title {
        Some(t) => t,
        None => "unknown",
    };
    let v = chars_of(t);
    let mut out: Vec<char> = Vec::new();
    let mut i: usize = 0;
    while i < v.len()
        invariant
            i <= v@.len(),
            out@ == file_safe(v@.take(i as int)),
        decreases v@.len() - i,
    {
        let c = v[i];
        out.push(if c == ' ' || c == '/' { '_' } else { c });
        assert(out@ =~= file_safe(v@.take(i + 1)));
        i = i + 1;
    }
    assert(v@.take(v@.len() as int) =~= v@);
    let mut s = String::from_str("mixed_cover_");
    let safe = string_of(&out);
    s.append(safe.as_str());
    s.append(".png");
    s
}


/// Characters that stand for themselves in a query string.
pub open spec fn is_unreserved(c: char) -> bool {
    ('a' <= c && c <= 'z') || ('A' <= c && c <= 'Z') || ('0' <= c && c <= '9') || c == '-' || c == '_'
        || c == '.' || c == '~'
}

/// The upper-case hexadecimal digit of `d` (`0 <= d < 16`).
pub open spec fn hex_digit(d: nat) -> char {
    if d < 10 {
        (48 + d) as char
    } else {
        (55 + d) as char
    }
}

/// How one character of a search is written in the query string: a space as `+`,
/// unreserved and non-ASCII characters as they are, any other ASCII character as `%XX`.
pub open spec fn query_char(c: char) -> Seq<char> {
    if c == ' ' {
        seq!['+']
    } else if is_unreserved(c) || (c as u32) >= 128 {
        seq![c]
    } else {
        seq!['%', hex_digit(((c as u32) / 16) as nat), hex_digit(((c as u32) % 16) as nat)]
    }
}

/// A search written as a query string, character by character.
pub open spec fn query_encoded(s: Seq<char>) -> Seq<char>
    decreases s.len(),
{
    if s.len() == 0 {
        Seq::empty()
    } else {
        query_encoded(s.drop_last()) + query_char(s.last())
    }
}

fn hex_char(d: u32) -> (c: char)
    requires
        d < 16,
    ensures
        c == hex_digit(d as nat),
{
    let b: u8 = if d < 10 { 48u8 + (d as u8) } else { 55u8 + (d as u8) };
    b as char
}

/// The web search (Google) for `query`, as the address a browser opens.
pub fn web_search_url(query: &str) -> (r: String)
    ensures
        r@ == "https://www.google.com/search?q="@ + query_encoded(query@),
{
    let v = chars_of(query);
    let mut out = String::from_str("https://www.google.com/search?q=");
    let ghost prefix = out@;
    let mut i: usize = 0;
    while i < v.len()
        invariant
            i <= v@.len(),
            out@ == prefix + query_encoded(v@.take(i as int)),
        decreases v@.len() - i,
    {
        let c = v[i];
        let n = c as u32;
        if c == ' ' {
            out.push('+');
        } else if ('a' <= c && c <= 'z') || ('A' <= c && c <= 'Z') || ('0' <= c && c <= '9') || c == '-'
            || c == '_' || c == '.' || c == '~' || n >= 128 {
            out.push(c);
        } else {
            out.push('%');
            out.push(hex_char(n / 16));
            out.push(hex_char(n % 16));
        }
        assert(out@ == prefix + query_encoded(v@.take(i as int)) + query_char(c));
        assert(v@.take(i + 1).drop_last() =~= v@.take(i as int));
        assert(out@ =~= prefix + query_encoded(v@.take(i + 1)));
        i = i + 1;
    }
    assert(v@.take(v@.len() as int) =~= v@);
    out
}


/// A property of the MPRIS player interface that a `PropertiesChanged` signal can carry.
#[derive(Debug, Clone, Copy, PartialEq, Eq, Structural)]
pub enum MprisProperty {
    Position,
    PlaybackStatus,
    Metadata,
    Volume,
    Shuffle,
    LoopStatus,
    CanGoNext,
    CanGoPrevious,
    CanPlay,
    CanPause,
}

/// The track strings differ somewhere.
pub open spec fn metadata_differs(a: MprisMetadataStrings, b: MprisMetadataStrings) -> bool {
    a.title@ != b.title@ || a.artist@ != b.artist@ || a.album@ != b.album@ || a.art_url@ != b.art_url@
}

/// `p` when `c` holds, else nothing.
pub open spec fn when(c: bool, p: MprisProperty) -> Seq<MprisProperty> {
    if c {
        seq![p]
    } else {
        Seq::empty()
    }
}

/// The properties to announce after `last` was announced and the state is now `now`, in this
/// order: the position when a seek is pending, then each of playback status, metadata (title,
/// artist, album, art), volume, shuffle, loop status and the four capabilities that differs.
pub open spec fn mpris_change_set(last: MprisState, now: MprisState) -> Seq<MprisProperty> {
    when(now.seek_target != -1, MprisProperty::Position)
        + when(now.playback_status != last.playback_status, MprisProperty::PlaybackStatus)
        + when(metadata_differs(now.metadata, last.metadata), MprisProperty::Metadata)
        + when(now.volume_percent != last.volume_percent, MprisProperty::Volume)
        + when(now.shuffle != last.shuffle, MprisProperty::Shuffle)
        + when(now.loop_status != last.loop_status, MprisProperty::LoopStatus)
        + when(now.can_go_next != last.can_go_next, MprisProperty::CanGoNext)
        + when(now.can_go_previous != last.can_go_previous, MprisProperty::CanGoPrevious)
        + when(now.can_play != last.can_play, MprisProperty::CanPlay)
        + when(now.can_pause != last.can_pause, MprisProperty::CanPause)
}

fn push_when(v: &mut Vec<MprisProperty>, c: bool, p: MprisProperty)
    ensures
        final(v)@ == old(v)@ + when(c, p),
{
    if c {
        v.push(p);
    }
    assert(v@ =~= old(v)@ + when(c, p));
}

/// The properties whose change is announced: see `mpris_change_set`.
pub fn mpris_changes(last: &MprisState, now: &MprisState) -> (r: Vec<MprisProperty>)
    ensures
        r@ == mpris_change_set(*last, *now),
{
    let mut v: Vec<MprisProperty> = Vec::new();
    push_when(&mut v, now.seek_target != -1, MprisProperty::Position);
    push_when(&mut v, now.playback_status != last.playback_status, MprisProperty::PlaybackStatus);
    let meta = !str_eq(now.metadata.title.as_str(), last.metadata.title.as_str())
        || !str_eq(now.metadata.artist.as_str(), last.metadata.artist.as_str())
        || !str_eq(now.metadata.album.as_str(), last.metadata.album.as_str())
        || !str_eq(now.metadata.art_url.as_str(), last.metadata.art_url.as_str());
    push_when(&mut v, meta, MprisProperty::Metadata);
    push_when(&mut v, now.volume_percent != last.volume_percent, MprisProperty::Volume);
    push_when(&mut v, now.shuffle != last.shuffle, MprisProperty::Shuffle);
    push_when(&mut v, now.loop_status != last.loop_status, MprisProperty::LoopStatus);
    push_when(&mut v, now.can_go_next != last.can_go_next, MprisProperty::CanGoNext);
    push_when(&mut v, now.can_go_previous != last.can_go_previous, MprisProperty::CanGoPrevious);
    push_when(&mut v, now.can_play != last.can_play, MprisProperty::CanPlay);
    push_when(&mut v, now.can_pause != last.can_pause, MprisProperty::CanPause);
    assert(v@ =~= mpris_change_set(*last, *now));
    v
}

impl MprisState {
    /// What the media controls know before the first announcement: stopped, no track strings,
    /// volume 0, shuffle and repeat off, no capability, nothing else set.
    pub fn unpublished() -> (m: Self)
        ensures
            m.playback_status == 0,
            m.loop_status == 0,
            !m.shuffle,
            m.volume_percent == 0,
            m.position_us == 0,
            m.length_us == 0,
            !m.can_go_next && !m.can_go_previous && !m.can_play && !m.can_pause,
            m.seek_target == -1,
            m.metadata.title@.len() == 0,
            m.metadata.artist@.len() == 0,
            m.metadata.album@.len() == 0,
            m.metadata.art_url@.len() == 0,
    {
        let mut m = MprisState::default();
        m.volume_percent = 0;
        m
    }
}

} // verus!
