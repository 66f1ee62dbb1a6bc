//! The playback state that the audio thread and the interface share, and the commands
//! between them.

use vstd::prelude::*;

verus! {

/// Commands sent to the background player thread.
#[derive(Debug)]
pub enum PlayerCmd {
    Load { path: String, start_pos_ms: Option<u64> },
    Play,
    Pause,
    Seek(u64),
    Stop,
    SetVolume(u8),
}

/// The state of playback that the player publishes.
#[derive(Debug, Clone, Copy, PartialEq, Eq, Structural)]
pub struct PlayerStatus {
    pub is_paused: bool,
    pub is_playing: bool,
    pub is_finished: bool,
    /// Volume in percent (0 to 100).
    pub volume: u8,
    pub elapsed_ms: u64,
    pub duration_ms: u64,
}

impl PlayerStatus {
    /// The state before anything was played: stopped, finished, volume 80.
    pub fn initial() -> (s: Self)
        ensures
            !s.is_paused && !s.is_playing && s.is_finished,
            s.volume == 80,
            s.elapsed_ms == 0 && s.duration_ms == 0,
    {
        PlayerStatus { is_paused: false, is_playing: false, is_finished: true, volume: 80, elapsed_ms: 0, duration_ms: 0 }
    }

    /// Starts loading `path` at `start_pos_ms` (or the start); returns the command to send.
    pub fn load(&mut self, path: String, start_pos_ms: Option<u64>) -> (c: PlayerCmd)
        ensures
            !final(self).is_paused && final(self).is_playing && !final(self).is_finished,
            final(self).elapsed_ms == match start_pos_ms {
                Some(p) => p,
                None => 0,
            },
            final(self).volume == old(self).volume,
            final(self).duration_ms == old(self).duration_ms,
            c == (PlayerCmd::Load { path, start_pos_ms }),
    {
        self.is_paused = false;
        self.is_playing = true;
        self.is_finished = false;
        self.elapsed_ms = match start_pos_ms {
            Some(p) => p,
            None => 0,
        };
        PlayerCmd::Load { path, start_pos_ms }
    }

    /// Resumes playback.
    pub fn play(&mut self) -> (c: PlayerCmd)
        ensures
            !final(self).is_paused && final(self).is_playing && !final(self).is_finished,
            final(self).volume == old(self).volume,
            final(self).elapsed_ms == old(self).elapsed_ms,
            final(self).duration_ms == old(self).duration_ms,
            c == PlayerCmd::Play,
    {
        self.is_paused = false;
        self.is_playing = true;
        self.is_finished = false;
        PlayerCmd::Play
    }

    /// Pauses playback.
    pub fn pause(&mut self) -> (c: PlayerCmd)
        ensures
            final(self).is_paused && !final(self).is_playing,
            final(self).is_finished == old(self).is_finished,
            final(self).volume == old(self).volume,
            final(self).elapsed_ms == old(self).elapsed_ms,
            final(self).duration_ms == old(self).duration_ms,
            c == PlayerCmd::Pause,
    {
        self.is_paused = true;
        self.is_playing = false;
        PlayerCmd::Pause
    }

    /// Plays when paused, pauses otherwise.
    pub fn toggle_pause(&mut self) -> (c: PlayerCmd)
        ensures
            final(self).is_paused == !old(self).is_paused,
            final(self).is_playing == old(self).is_paused,
            final(self).volume == old(self).volume,
            final(self).elapsed_ms == old(self).elapsed_ms,
            c == if old(self).is_paused { PlayerCmd::Play } else { PlayerCmd::Pause },
    {
        if self.is_paused {
            self.play()
        } else {
            self.pause()
        }
    }

    /// Seeks to `pos_ms`.
    pub fn seek(&mut self, pos_ms: u64) -> (c: PlayerCmd)
        ensures
            *final(self) == (PlayerStatus { elapsed_ms: pos_ms, ..*old(self) }),
            c == PlayerCmd::Seek(pos_ms),
    {
        self.elapsed_ms = pos_ms;
        PlayerCmd::Seek(pos_ms)
    }

    /// Stops playback.
    pub fn stop(&mut self) -> (c: PlayerCmd)
        ensures
            !final(self).is_paused && !final(self).is_playing && final(self).is_finished,
            final(self).volume == old(self).volume,
            final(self).elapsed_ms == old(self).elapsed_ms,
            final(self).duration_ms == old(self).duration_ms,
            c == PlayerCmd::Stop,
    {
        self.is_paused = false;
        self.is_playing = false;
        self.is_finished = true;
        PlayerCmd::Stop
    }

    /// Raises the volume by 5, at most to 100.
    pub fn volume_up(&mut self) -> (c: PlayerCmd)
        requires
            old(self).volume <= 100,
        ensures
            final(self).volume == if old(self).volume + 5 > 100 { 100 } else { old(self).volume + 5 },
            *final(self) == (PlayerStatus { volume: final(self).volume, ..*old(self) }),
            c == PlayerCmd::SetVolume(final(self).volume),
    {
        let next = if self.volume + 5 > 100 { 100 } else { self.volume + 5 };
        self.volume = next;
        PlayerCmd::SetVolume(next)
    }

    /// Lowers the volume by 5, not below 0.
    pub fn volume_down(&mut self) -> (c: PlayerCmd)
        ensures
            final(self).volume == if old(self).volume < 5 { 0 } else { old(self).volume - 5 },
            *final(self) == (PlayerStatus { volume: final(self).volume, ..*old(self) }),
            c == PlayerCmd::SetVolume(final(self).volume),
    {
        let next = if self.volume < 5 { 0 } else { self.volume - 5 };
        self.volume = next;
        PlayerCmd::SetVolume(next)
    }

    /// Sets the volume, at most 100.
    pub fn set_volume(&mut self, vol: u8) -> (c: PlayerCmd)
        ensures
            final(self).volume == if vol > 100 { 100 } else { vol },
            *final(self) == (PlayerStatus { volume: final(self).volume, ..*old(self) }),
            c == PlayerCmd::SetVolume(final(self).volume),
    {
        let v = if vol > 100 { 100 } else { vol };
        self.volume = v;
        PlayerCmd::SetVolume(v)
    }

    /// What the audio thread records after handling `cmd`; `loaded` tells whether a `Load`
    /// opened its file.
    pub fn after_command(&mut self, cmd: &PlayerCmd, loaded: bool)
        ensures
            match *cmd {
                PlayerCmd::Load { .. } => if loaded {
                    *final(self) == (PlayerStatus { is_paused: false, is_playing: true, is_finished: false, ..*old(self) })
                } else {
                    *final(self) == *old(self)
                },
                PlayerCmd::Play => *final(self) == (PlayerStatus { is_paused: false, is_playing: true, ..*old(self) }),
                PlayerCmd::Pause => *final(self) == (PlayerStatus { is_paused: true, is_playing: false, ..*old(self) }),
                PlayerCmd::Stop => *final(self) == (PlayerStatus { is_paused: false, is_playing: false, is_finished: true, ..*old(self) }),
                _ => *final(self) == *old(self),
            },
    {
        match cmd {
            PlayerCmd::Load { .. } => {
                if loaded {
                    self.is_paused = false;
                    self.is_playing = true;
                    self.is_finished = false;
                }
            },
            PlayerCmd::Play => {
                self.is_paused = false;
                self.is_playing = true;
            },
            PlayerCmd::Pause => {
                self.is_paused = true;
                self.is_playing = false;
            },
            PlayerCmd::Stop => {
                self.is_paused = false;
                self.is_playing = false;
                self.is_finished = true;
            },
            _ => {},
        }
    }

    /// What the audio thread records from its backend after each poll: the position, the
    /// duration when known, whether the track is finished (then it is no longer playing),
    /// and the volume when known.
    pub fn after_poll(&mut self, position_ms: u64, duration_ms: Option<u64>, finished: bool, volume: Option<u8>)
        ensures
            final(self).elapsed_ms == position_ms,
            final(self).duration_ms == match duration_ms {
                Some(d) => d,
                None => old(self).duration_ms,
            },
            final(self).is_finished == finished,
            final(self).is_playing == (old(self).is_playing && !finished),
            final(self).is_paused == old(self).is_paused,
            final(self).volume == match volume {
                Some(v) => v,
                None => old(self).volume,
            },
    {
        self.elapsed_ms = position_ms;
        if let Some(d) = duration_ms {
            self.duration_ms = d;
        }
        self.is_finished = finished;
        if finished {
            self.is_playing = false;
        }
        if let Some(v) = volume {
            self.volume = v;
        }
    }
}

/// Toggling pause twice restores both the paused and the playing flag of a player that was
/// either paused or playing.
pub proof fn lemma_toggle_pause_twice(s: PlayerStatus, t: PlayerStatus, u: PlayerStatus)
    requires
        s.is_paused != s.is_playing,
        t.is_paused == !s.is_paused && t.is_playing == s.is_paused,
        u.is_paused == !t.is_paused && u.is_playing == t.is_paused,
    ensures
        u.is_paused == s.is_paused,
        u.is_playing == s.is_playing,
{
}

/// The position shown and sought from: a seek still pending wins over the player's position.
pub fn shown_position(pending_seek_ms: Option<u64>, elapsed_ms: u64) -> (r: u64)
    ensures
        r == match pending_seek_ms {
            Some(p) => p,
            None => elapsed_ms,
        },
{
    match pending_seek_ms {
        Some(p) => p,
        None => elapsed_ms,
    }
}

/// The target of a five-second step back, not before the start.
pub fn seek_back_target(from_ms: u64) -> (r: u64)
    ensures
        r == if from_ms >= 5000 { from_ms - 5000 } else { 0 },
{
    from_ms.saturating_sub(5000)
}

/// The target of a five-second step forward, not past the end.
pub fn seek_forward_target(from_ms: u64, duration_ms: u64) -> (r: u64)
    requires
        from_ms + 5000 <= u64::MAX,
    ensures
        r == if from_ms + 5000 < duration_ms { from_ms + 5000 } else { duration_ms as int },
{
    let t = from_ms + 5000;
    if t < duration_ms { t } else { duration_ms }
}

/// Whether "previous" restarts the playing track instead of going back: more than three
/// seconds of it have played.
pub fn restarts_on_previous(elapsed_ms: u64) -> (r: bool)
    ensures
        r == (elapsed_ms > 3000),
{
    elapsed_ms > 3000
}

/// Whether the periodic tick moves on to the next track: the track finished by itself
/// (not paused, not stopped by the user) and the queue is not empty.
pub fn should_advance(stopped: bool, queue_empty: bool, finished: bool, paused: bool) -> (r: bool)
    ensures
        r == (!stopped && !queue_empty && finished && !paused),
{
    !stopped && !queue_empty && finished && !paused
}

/// The position of the first newline byte of `b` at or after `k`, if any.
pub open spec fn newline_from(b: Seq<u8>, k: int) -> Option<int>
    decreases b.len() - k,
{
    if k < 0 || k >= b.len() {
        None
    } else if b[k] == 10 {
        Some(k)
    } else {
        newline_from(b, k + 1)
    }
}

/// The complete lines (each with its newline) at the front of `b`, in order.
pub open spec fn complete_lines(b: Seq<u8>) -> Seq<Seq<u8>>
    decreases b.len(),
{
    match newline_from(b, 0) {
        Some(p) => {
            proof {
                lemma_newline_from_range(b, 0);
            }
            seq![b.take(p + 1)] + complete_lines(b.skip(p + 1))
        },
        None => Seq::empty(),
    }
}

/// What is left of `b` after its complete lines.
pub open spec fn partial_line(b: Seq<u8>) -> Seq<u8>
    decreases b.len(),
{
    match newline_from(b, 0) {
        Some(p) => {
            proof {
                lemma_newline_from_range(b, 0);
            }
            partial_line(b.skip(p + 1))
        },
        None => b,
    }
}

/// The newline search from `k` finds the first newline at or after `k`, if any.
pub proof fn lemma_newline_from_range(b: Seq<u8>, k: int)
    requires
        k >= 0,
    ensures
        match newline_from(b, k) {
            Some(p) => k <= p < b.len() && b[p] == 10 && forall|j: int| k <= j < p ==> b[j] != 10,
            None => forall|j: int| k <= j < b.len() && 0 <= j ==> b[j] != 10,
        },
    decreases b.len() - k,
{
    if 0 <= k < b.len() && b[k] != 10 {
        lemma_newline_from_range(b, k + 1);
    }
}

fn find_newline(b: &Vec<u8>, from: usize) -> (r: Option<usize>)
    ensures
        match r {
            Some(p) => newline_from(b@, from as int) == Some(p as int),
            None => newline_from(b@, from as int) is None,
        },
{
    let mut k = from;
    while k < b.len()
        invariant
            from <= k,
            newline_from(b@, k as int) == newline_from(b@, from as int),
        decreases b@.len() - k,
    {
        if b[k] == 10 {
            return Some(k);
        }
        k = k + 1;
    }
    None
}

/// Takes the complete lines of the replies received so far (each with its newline) off the
/// front of `buf`, leaving the unfinished last line in it.
pub fn take_reply_lines(buf: &mut Vec<u8>) -> (r: Vec<Vec<u8>>)
    ensures
        r@.map_values(|l: Vec<u8>| l@) == complete_lines(old(buf)@),
        final(buf)@ == partial_line(old(buf)@),
{
    let mut out: Vec<Vec<u8>> = Vec::new();
    let mut rest: Vec<u8> = Vec::new();
    let mut i: usize = 0;
    let n = buf.len();
    assert(buf@.skip(0) =~= buf@);
    while i < buf.len()
        invariant
            i <= buf@.len(),
            n == buf@.len(),
            rest@.len() == 0,
            buf@ == old(buf)@,
            out@.map_values(|l: Vec<u8>| l@) + complete_lines(buf@.skip(i as int)) == complete_lines(old(buf)@),
            partial_line(buf@.skip(i as int)) == partial_line(old(buf)@),
        decreases buf@.len() - i,
    {
        let ghost s = buf@.skip(i as int);
        match find_newline(buf, i) {
            Some(p) => {
                proof {
                    lemma_newline_from_range(buf@, i as int);
                    lemma_newline_shift(buf@, i as int);
                    assert(newline_from(s, 0) == Some(p - i));
                    assert(s.skip(p - i + 1) =~= buf@.skip(p + 1));
                }
                let mut line: Vec<u8> = Vec::new();
                let mut j = i;
                while j <= p
                    invariant
                        i <= j <= p + 1,
                        p < n,
                        n == buf@.len(),
                        line@ == buf@.subrange(i as int, j as int),
                    decreases p + 1 - j,
                {
                    line.push(buf[j]);
                    assert(line@ =~= buf@.subrange(i as int, j + 1));
                    j = j + 1;
                }
                assert(line@ =~= s.take(p - i + 1));
                let ghost before = out@;
                out.push(line);
                assert(out@.map_values(|l: Vec<u8>| l@) =~= before.map_values(|l: Vec<u8>| l@) + seq![s.take(p - i + 1)]);
                i = p + 1;
            },
            None => {
                proof {
                    lemma_newline_shift(buf@, i as int);
                }
                let mut j = i;
                while j < buf.len()
                    invariant
                        i <= j <= buf@.len(),
                        rest@ == buf@.subrange(i as int, j as int),
                    decreases buf@.len() - j,
                {
                    rest.push(buf[j]);
                    assert(rest@ =~= buf@.subrange(i as int, j + 1));
                    j = j + 1;
                }
                assert(rest@ =~= s);
                assert(out@.map_values(|l: Vec<u8>| l@) =~= out@.map_values(|l: Vec<u8>| l@) + complete_lines(s));
                *buf = rest;
                return out;
            },
        }
    }
    proof {
        assert(buf@.skip(i as int) =~= Seq::<u8>::empty());
        assert(out@.map_values(|l: Vec<u8>| l@) =~= out@.map_values(|l: Vec<u8>| l@) + complete_lines(buf@.skip(i as int)));
    }
    *buf = rest;
    assert(rest@ =~= partial_line(Seq::<u8>::empty()));
    out
}

proof fn lemma_newline_shift(b: Seq<u8>, i: int)
    requires
        0 <= i <= b.len(),
    ensures
        match newline_from(b, i) {
            Some(p) => newline_from(b.skip(i), 0) == Some(p - i),
            None => newline_from(b.skip(i), 0) is None,
        },
{
    lemma_newline_from_range(b, i);
    lemma_newline_from_range(b.skip(i), 0);
    match newline_from(b.skip(i), 0) {
        Some(q) => {
            assert(b[i + q] == 10);
        },
        None => {},
    }
    match newline_from(b, i) {
        Some(p) => {
            assert(b.skip(i)[p - i] == 10);
        },
        None => {},
    }
}

} // verus!
