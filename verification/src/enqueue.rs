//! Enqueueing and dequeueing a selection of the library: tracks are added in album order
//! (disc, then track number, then file name), or removed when all of them are queued already.

use vstd::prelude::*;

use crate::events::{AppAction, UiState, UiView};
use crate::library::{entry_tracks, FlatLibraryItem, LibraryEntry, PathSet};
use crate::metadata::{MetaView, TrackMetadata};
use crate::paths::{file_name_of, path_eq, path_file_name, same_path};
use crate::playlist::{dequeued, removed_queue};
use crate::ui::ActivePanel;
use crate::playlist::{is_permutation, lemma_real_index_in_range, lemma_real_index_in_range_or_none, Playlist, PlaylistEntry};
use crate::text::chars_of;

verus! {

/// A track as values: its path and its metadata.
pub open spec fn entry_value(e: PlaylistEntry) -> (Seq<char>, MetaView) {
    (e.path@, e.metadata@)
}

/// The tracks of a sequence as values.
pub open spec fn values_of(s: Seq<PlaylistEntry>) -> Seq<(Seq<char>, MetaView)> {
    s.map_values(|e: PlaylistEntry| entry_value(e))
}

/// The key by which tracks are put in album order.
pub struct AlbumKey {
    pub disc: u32,
    pub track: u32,
    pub name: Option<Seq<char>>,
}

/// Disc number (1 when unknown), track number (last when unknown), file name.
pub open spec fn album_key(t: (Seq<char>, MetaView)) -> AlbumKey {
    AlbumKey {
        disc: match t.1.disc_number {
            Some(d) => d,
            None => 1,
        },
        track: match t.1.track_number {
            Some(n) => n,
            None => u32::MAX,
        },
        name: path_file_name(t.0),
    }
}

/// Lexicographic order of character sequences by code point (which is the byte order of
/// their UTF-8 encodings).
pub open spec fn chars_before(a: Seq<char>, b: Seq<char>) -> bool
    decreases a.len(),
{
    if b.len() == 0 {
        false
    } else if a.len() == 0 {
        true
    } else if a[0] != b[0] {
        a[0] < b[0]
    } else {
        chars_before(a.drop_first(), b.drop_first())
    }
}

/// File names in order; a missing name comes first.
pub open spec fn name_before(a: Option<Seq<char>>, b: Option<Seq<char>>) -> bool {
    match (a, b) {
        (None, Some(_)) => true,
        (Some(x), Some(y)) => chars_before(x, y),
        _ => false,
    }
}

pub open spec fn key_before(a: AlbumKey, b: AlbumKey) -> bool {
    ||| a.disc < b.disc
    ||| a.disc == b.disc && a.track < b.track
    ||| a.disc == b.disc && a.track == b.track && name_before(a.name, b.name)
}

/// Order by key, and by position in the input among equal keys.
pub open spec fn pair_before(ka: AlbumKey, ia: usize, kb: AlbumKey, ib: usize) -> bool {
    key_before(ka, kb) || (ka == kb && ia < ib)
}

/// `r` is `s` sorted by album key, tracks with equal keys keeping their order: `p` gives
/// the position in `s` of each track of `r`.
pub open spec fn stably_sorted(s: Seq<(Seq<char>, MetaView)>, r: Seq<(Seq<char>, MetaView)>, p: Seq<usize>) -> bool {
    &&& is_permutation(p, s.len())
    &&& r.len() == s.len()
    &&& forall|i: int| 0 <= i < r.len() ==> r[i] == s[p[i] as int]
    &&& forall|i: int, j: int|
        0 <= i < j < r.len() ==> pair_before(#[trigger] album_key(r[i]), p[i], #[trigger] album_key(r[j]), p[j])
}

pub(crate) proof fn lemma_chars_order(a: Seq<char>, b: Seq<char>, c: Seq<char>)
    ensures
        !chars_before(a, a),
        chars_before(a, b) || chars_before(b, a) || a == b,
        chars_before(a, b) ==> !chars_before(b, a),
        chars_before(a, b) && chars_before(b, c) ==> chars_before(a, c),
    decreases a.len(),
{
    if a.len() > 0 && b.len() > 0 && c.len() > 0 {
        lemma_chars_order(a.drop_first(), b.drop_first(), c.drop_first());
        if a[0] == b[0] && !chars_before(a.drop_first(), b.drop_first()) && !chars_before(b.drop_first(), a.drop_first()) {
            assert(a =~= seq![a[0]] + a.drop_first());
            assert(b =~= seq![b[0]] + b.drop_first());
        }
    } else if a.len() > 0 && b.len() > 0 {
        lemma_chars_order(a.drop_first(), b.drop_first(), b.drop_first());
        if a[0] == b[0] && !chars_before(a.drop_first(), b.drop_first()) && !chars_before(b.drop_first(), a.drop_first()) {
            assert(a =~= seq![a[0]] + a.drop_first());
            assert(b =~= seq![b[0]] + b.drop_first());
        }
    } else if a.len() > 0 {
        lemma_chars_order(a.drop_first(), a.drop_first(), a.drop_first());
    } else {
        if b.len() == 0 {
            assert(a =~= b);
        }
    }
}

/// Album order is a strict total order on keys.
pub proof fn lemma_key_order(a: AlbumKey, b: AlbumKey, c: AlbumKey)
    ensures
        !key_before(a, a),
        key_before(a, b) || key_before(b, a) || a == b,
        key_before(a, b) ==> !key_before(b, a),
        key_before(a, b) && key_before(b, c) ==> key_before(a, c),
{
    match (a.name, b.name, c.name) {
        (Some(x), Some(y), Some(z)) => {
            lemma_chars_order(x, y, z);
        },
        (Some(x), Some(y), None) => {
            lemma_chars_order(x, y, y);
        },
        (Some(x), None, _) => {
            lemma_chars_order(x, x, x);
        },
        (None, Some(y), _) => {
            lemma_chars_order(y, y, y);
        },
        (None, None, _) => {},
    }
}

/// What puts one track before another in album order: a lower disc first, whatever the track
/// numbers (a track without a disc number is on disc 1); on the same disc a lower track number
/// first, compared as numbers, and a numbered track before one without a number; with equal
/// disc and track numbers, the file name that comes first by code point.
pub proof fn lemma_album_order_rules(a: (Seq<char>, MetaView), b: (Seq<char>, MetaView))
    ensures
        ({
            let da: int = match a.1.disc_number { Some(d) => d as int, None => 1 };
            let db: int = match b.1.disc_number { Some(d) => d as int, None => 1 };
            &&& da < db ==> key_before(album_key(a), album_key(b))
            &&& (da == db && a.1.track_number is Some && b.1.track_number is Some
                && a.1.track_number->0 < b.1.track_number->0) ==> key_before(album_key(a), album_key(b))
            &&& (da == db && a.1.track_number is Some && a.1.track_number->0 < u32::MAX && b.1.track_number is None)
                ==> key_before(album_key(a), album_key(b))
            &&& (da == db && a.1.track_number == b.1.track_number && path_file_name(a.0) is Some
                && path_file_name(b.0) is Some && chars_before(path_file_name(a.0)->0, path_file_name(b.0)->0))
                ==> key_before(album_key(a), album_key(b))
        }),
{
}

/// Album-sorted tracks never list a track after one that album order puts after it.
pub proof fn lemma_album_sorted_in_order(s: Seq<(Seq<char>, MetaView)>, r: Seq<(Seq<char>, MetaView)>)
    requires
        album_order_of(s, r),
    ensures
        forall|i: int, j: int| 0 <= i < j < r.len() ==> !key_before(#[trigger] album_key(r[j]), #[trigger] album_key(r[i])),
{
    let p = choose|p: Seq<usize>| #[trigger] stably_sorted(s, r, p);
    assert forall|i: int, j: int| 0 <= i < j < r.len() implies !key_before(#[trigger] album_key(r[j]), #[trigger] album_key(r[i])) by {
        lemma_key_order(album_key(r[i]), album_key(r[j]), album_key(r[j]));
        assert(pair_before(album_key(r[i]), p[i], album_key(r[j]), p[j]));
    }
}

/// The album key of a track, held as values that can be compared.
struct SortKey {
    disc: u32,
    track: u32,
    name: Option<Vec<char>>,
}

impl SortKey {
    spec fn key(&self) -> AlbumKey {
        AlbumKey {
            disc: self.disc,
            track: self.track,
            name: match self.name {
                Some(v) => Some(v@),
                None => None,
            },
        }
    }
}

fn sort_key_of(e: &PlaylistEntry) -> (k: SortKey)
    ensures
        k.key() == album_key(entry_value(*e)),
{
    let disc = match e.metadata.disc_number {
        Some(d) => d,
        None => 1,
    };
    let track = match e.metadata.track_number {
        Some(n) => n,
        None => u32::MAX,
    };
    let name = match file_name_of(e.path.as_str()) {
        Some(s) => Some(chars_of(s.as_str())),
        None => None,
    };
    SortKey { disc, track, name }
}

pub(crate) fn chars_before_of(a: &Vec<char>, b: &Vec<char>) -> (r: bool)
    ensures
        r == chars_before(a@, b@),
{
    let mut i: usize = 0;
    assert(a@.skip(0) =~= a@);
    assert(b@.skip(0) =~= b@);
    while i < a.len() && i < b.len()
        invariant
            i <= a@.len(),
            i <= b@.len(),
            chars_before(a@, b@) == chars_before(a@.skip(i as int), b@.skip(i as int)),
        decreases a@.len() - i,
    {
        if a[i] != b[i] {
            return a[i] < b[i];
        }
        assert(a@.skip(i as int).drop_first() =~= a@.skip(i + 1));
        assert(b@.skip(i as int).drop_first() =~= b@.skip(i + 1));
        i = i + 1;
    }
    i < b.len()
}

fn key_before_of(a: &SortKey, b: &SortKey) -> (r: bool)
    ensures
        r == key_before(a.key(), b.key()),
{
    if a.disc != b.disc {
        return a.disc < b.disc;
    }
    if a.track != b.track {
        return a.track < b.track;
    }
    match (&a.name, &b.name) {
        (None, Some(_)) => true,
        (Some(x), Some(y)) => chars_before_of(x, y),
        _ => false,
    }
}

/// Puts tracks in album order (disc, track number, file name); tracks with equal keys keep
/// their order.
pub fn album_sorted(tracks: Vec<PlaylistEntry>) -> (r: Vec<PlaylistEntry>)
    ensures
        exists|p: Seq<usize>| #[trigger] stably_sorted(values_of(tracks@), values_of(r@), p),
{
    let ghost s = tracks@;
    let ghost sv = values_of(tracks@);
    let n = tracks.len();
    let mut src = tracks;
    let mut out: Vec<PlaylistEntry> = Vec::new();
    let mut keys: Vec<SortKey> = Vec::new();
    let ghost mut p: Seq<usize> = Seq::empty();
    while src.len() > 0
        invariant
            n == s.len(),
            sv == values_of(s),
            src@ == s.take(src@.len() as int),
            src@.len() <= n,
            out@.len() == keys@.len(),
            out@.len() == p.len(),
            out@.len() == n - src@.len(),
            forall|k: int| 0 <= k < out@.len() ==> #[trigger] out@[k] == s[p[k] as int],
            forall|k: int| 0 <= k < out@.len() ==> #[trigger] keys@[k].key() == album_key(sv[p[k] as int]),
            forall|k: int| 0 <= k < p.len() ==> src@.len() <= #[trigger] p[k] < n,
            p.no_duplicates(),
            forall|i: int, j: int|
                0 <= i < j < p.len() ==> pair_before(#[trigger] album_key(sv[p[i] as int]), p[i], #[trigger] album_key(sv[p[j] as int]), p[j]),
        decreases src@.len(),
    {
        let m = src.len() - 1;
        let e = src.pop().unwrap();
        assert(e == s[m as int]);
        assert(src@ =~= s.take(m as int));
        let key = sort_key_of(&e);
        assert(key.key() == album_key(sv[m as int]));
        let mut k: usize = 0;
        while k < out.len() && key_before_of(&keys[k], &key)
            invariant
                k <= out@.len(),
                out@.len() == keys@.len(),
                forall|t: int| 0 <= t < k ==> key_before(#[trigger] keys@[t].key(), key.key()),
            decreases out@.len() - k,
        {
            k = k + 1;
        }
        let ghost oldp = p;
        let ghost oldkeys = keys@;
        let ghost oldout = out@;
        proof {
            assert forall|t: int| k <= t < oldp.len() implies pair_before(key.key(), m, #[trigger] album_key(sv[oldp[t] as int]), oldp[t]) by {
                let kk = album_key(sv[oldp[k as int] as int]);
                let kt = album_key(sv[oldp[t] as int]);
                assert(oldkeys[k as int].key() == kk);
                lemma_key_order(key.key(), kk, kt);
                lemma_key_order(kk, key.key(), kt);
                if t > k {
                    assert(pair_before(kk, oldp[k as int], kt, oldp[t]));
                }
            }
        }
        out.insert(k, e);
        keys.insert(k, key);
        proof {
            p = oldp.insert(k as int, m);
            assert forall|i: int, j: int|
                0 <= i < j < p.len() implies pair_before(#[trigger] album_key(sv[p[i] as int]), p[i], #[trigger] album_key(sv[p[j] as int]), p[j]) by {
                if i < k && j == k {
                    assert(oldkeys[i].key() == album_key(sv[oldp[i] as int]));
                } else if i < k && j > k {
                    assert(p[j] == oldp[j - 1]);
                } else if i == k {
                    assert(p[j] == oldp[j - 1]);
                } else if i > k {
                    assert(p[j] == oldp[j - 1]);
                    assert(p[i] == oldp[i - 1]);
                }
            }
            assert forall|a: int, b: int| 0 <= a < p.len() && 0 <= b < p.len() && a != b implies p[a] != p[b] by {
                if a < k && b < k {
                    assert(oldp[a] != oldp[b]);
                } else if a < k && b > k {
                    assert(oldp[a] != oldp[b - 1]);
                } else if a > k && b < k {
                    assert(oldp[a - 1] != oldp[b]);
                } else if a > k && b > k {
                    assert(oldp[a - 1] != oldp[b - 1]);
                }
            }
            assert forall|t: int| 0 <= t < out@.len() implies #[trigger] out@[t] == s[p[t] as int] by {
                if t > k {
                    assert(out@[t] == oldout[t - 1]);
                    assert(p[t] == oldp[t - 1]);
                } else if t < k {
                    assert(out@[t] == oldout[t]);
                    assert(p[t] == oldp[t]);
                }
            }
        }
    }
    proof {
        let rv = values_of(out@);
        assert forall|i: int| 0 <= i < rv.len() implies rv[i] == sv[p[i] as int] by {
            assert(out@[i] == s[p[i] as int]);
        }
        assert forall|i: int, j: int| 0 <= i < j < rv.len() implies pair_before(#[trigger] album_key(rv[i]), p[i], #[trigger] album_key(rv[j]), p[j]) by {
            assert(rv[i] == sv[p[i] as int]);
            assert(rv[j] == sv[p[j] as int]);
        }
        assert(stably_sorted(sv, rv, p));
    }
    out
}

/// The tracks of `s` whose path is not in the queue `q`, in order.
pub open spec fn not_queued(s: Seq<(Seq<char>, MetaView)>, q: Playlist) -> Seq<(Seq<char>, MetaView)> {
    s.filter(|t: (Seq<char>, MetaView)| !q.holds_path(t.0))
}

/// `r` is the album-sorted `s`.
pub open spec fn album_order_of(s: Seq<(Seq<char>, MetaView)>, r: Seq<(Seq<char>, MetaView)>) -> bool {
    exists|p: Seq<usize>| #[trigger] stably_sorted(s, r, p)
}

/// Whether a selection that added `added` tracks to a queue of `old_len` starts playback:
/// when asked to play now and something was added, or when the queue was empty before.
pub open spec fn starts_playing(play_now: bool, old_len: nat, added: nat) -> bool {
    added > 0 && (play_now || old_len == 0)
}

/// `v` in reverse order.
pub fn reversed<T>(v: Vec<T>) -> (r: Vec<T>)
    ensures
        r@ == v@.reverse(),
{
    let ghost orig = v@;
    let mut src = v;
    let mut out: Vec<T> = Vec::new();
    while src.len() > 0
        invariant
            src@.len() <= orig.len(),
            src@ == orig.take(src@.len() as int),
            out@ == orig.skip(src@.len() as int).reverse(),
        decreases src@.len(),
    {
        let ghost k = src@.len() - 1;
        let ghost before = src@;
        let x = src.pop().unwrap();
        proof {
            assert(before[k] == orig[k]);
            assert(x == orig[k]);
            assert(src@ =~= orig.take(k));
            assert(orig.skip(k).reverse() =~= orig.skip(k + 1).reverse().push(orig[k]));
        }
        out.push(x);
    }
    assert(orig.skip(0) =~= orig);
    out
}

/// What `enqueue_tracks(old, ts, play_now)` leaves in the queue `new`: the tracks of `ts`
/// whose path was not queued, appended in album order; without shuffle the play order
/// grows by the new entries in that order and the current position stays, with shuffle the
/// current track stays current; with `play_now` the first new entry becomes current.
pub open spec fn enqueued(old: Playlist, new: Playlist, ts: Seq<(Seq<char>, MetaView)>, play_now: bool) -> bool {
    let n = old.entries@.len();
    let grew = new.entries@.len() > n;
    let added = values_of(new.entries@).skip(n as int);
    &&& new.wf()
    &&& new.repeat == old.repeat
    &&& new.shuffle == old.shuffle
    &&& values_of(new.entries@) == values_of(old.entries@) + added
    &&& album_order_of(not_queued(ts, old), added)
    &&& !old.shuffle ==> new.play_order@ == old.play_order@ + Seq::new(
        (new.entries@.len() - n) as nat,
        |k: int| (n + k) as usize,
    )
    &&& play_now && grew ==> {
        &&& new.real_index() == Some(n as usize)
        &&& new.play_order@.index_of_first(n as usize) == Some(new.current as int)
    }
    &&& !(play_now && grew) ==> {
        &&& !old.shuffle ==> new.current == old.current
        &&& old.shuffle && n > 0 ==> new.real_index() == old.real_index()
        &&& old.shuffle && n == 0 ==> new.current == 0
    }
}

/// Appends, in album order, the tracks whose path is not in the queue yet. With `play_now`,
/// the first track added becomes current. Returns whether playback is to start: when
/// something was added and either `play_now` was asked or the queue was empty before.
pub fn enqueue_tracks(playlist: &mut Playlist, tracks: Vec<PlaylistEntry>, play_now: bool) -> (play: bool)
    requires
        old(playlist).wf(),
        old(playlist).entries@.len() + tracks@.len() < usize::MAX,
    ensures
        enqueued(*old(playlist), *final(playlist), values_of(tracks@), play_now),
        play == starts_playing(play_now, old(playlist).entries@.len(), (final(playlist).entries@.len() - old(playlist).entries@.len()) as nat),
{
    let ghost q0 = *playlist;
    let ghost tv = values_of(tracks@);
    let ghost keep = |t: (Seq<char>, MetaView)| !q0.holds_path(t.0);
    let old_len = playlist.len();
    let ghost orig = tracks@;
    let mut src = reversed(tracks);
    let mut to_add: Vec<PlaylistEntry> = Vec::new();
    let ghost mut k: int = 0;
    assert(values_of(orig.take(0)).filter(keep) =~= Seq::<(Seq<char>, MetaView)>::empty());
    assert(orig.skip(0).reverse() =~= orig.reverse());
    while src.len() > 0
        invariant
            *playlist == q0,
            tv == values_of(orig),
            keep == (|t: (Seq<char>, MetaView)| !q0.holds_path(t.0)),
            0 <= k <= orig.len(),
            src@ == orig.skip(k).reverse(),
            values_of(to_add@) == values_of(orig.take(k)).filter(keep),
            to_add@.len() <= k,
        decreases src@.len(),
    {
        let ghost before_src = src@;
        let t = src.pop().unwrap();
        proof {
            assert(before_src.last() == orig[k]);
            assert(t == orig[k]);
            assert(src@ =~= orig.skip(k + 1).reverse());
            assert(values_of(orig.take(k + 1)) =~= values_of(orig.take(k)).push(entry_value(orig[k])));
            values_of(orig.take(k)).lemma_filter_push(entry_value(orig[k]), keep);
        }
        let queued = playlist.contains_path(t.path.as_str());
        if !queued {
            let ghost before = to_add@;
            to_add.push(t);
            assert(values_of(to_add@) =~= values_of(before).push(entry_value(t)));
        }
        proof {
            k = k + 1;
        }
    }
    proof {
        assert(orig.take(k) =~= orig);
    }
    let sorted = album_sorted(to_add);
    let ghost sorted0 = sorted@;
    let mut rest = reversed(sorted);
    let ghost mut j: int = 0;
    assert(values_of(playlist.entries@) + values_of(sorted0.take(0)) =~= values_of(q0.entries@));
    assert(sorted0.skip(0).reverse() =~= sorted0.reverse());
    while rest.len() > 0
        invariant
            playlist.wf(),
            playlist.repeat == q0.repeat,
            playlist.shuffle == q0.shuffle,
            q0.wf(),
            old_len == q0.entries@.len(),
            0 <= j <= sorted0.len(),
            sorted0.len() <= tv.len(),
            q0.entries@.len() + tv.len() < usize::MAX,
            rest@ == sorted0.skip(j).reverse(),
            playlist.entries@.len() == q0.entries@.len() + j,
            values_of(playlist.entries@) == values_of(q0.entries@) + values_of(sorted0.take(j)),
            !q0.shuffle ==> playlist.play_order@ == q0.play_order@ + Seq::new(j as nat, |m: int| (q0.entries@.len() + m) as usize)
                && playlist.current == q0.current,
            q0.shuffle && q0.entries@.len() > 0 ==> playlist.real_index() == q0.real_index(),
            q0.shuffle && q0.entries@.len() == 0 ==> playlist.current == 0 && (j > 0 ==> playlist.real_index() == Some(0usize)),
        decreases rest@.len(),
    {
        let ghost before_rest = rest@;
        let t = rest.pop().unwrap();
        let ghost pbefore = *playlist;
        proof {
            assert(before_rest.last() == sorted0[j]);
            assert(t == sorted0[j]);
            assert(rest@ =~= sorted0.skip(j + 1).reverse());
            if q0.entries@.len() > 0 {
                lemma_real_index_in_range(q0);
            }
        }
        playlist.add(t.path, t.metadata);
        proof {
            assert(values_of(sorted0.take(j + 1)) =~= values_of(sorted0.take(j)).push(entry_value(sorted0[j])));
            assert(values_of(playlist.entries@) =~= values_of(pbefore.entries@).push(entry_value(sorted0[j])));
            if !q0.shuffle {
                assert(playlist.play_order@ =~= q0.play_order@ + Seq::new((j + 1) as nat, |m: int| (q0.entries@.len() + m) as usize));
            }
            j = j + 1;
        }
    }
    proof {
        assert(sorted0.take(j) =~= sorted0);
        assert(values_of(playlist.entries@).skip(q0.entries@.len() as int) =~= values_of(sorted0));
    }
    let grew = playlist.len() > old_len;
    if play_now && grew {
        playlist.jump_to_entry(old_len);
        true
    } else {
        old_len == 0 && grew
    }
}

/// The tracks among the rows of the flattened library, in row order.
pub open spec fn row_tracks(flat: Seq<FlatLibraryItem>) -> Seq<(Seq<char>, MetaView)>
    decreases flat.len(),
{
    if flat.len() == 0 {
        Seq::empty()
    } else {
        row_tracks(flat.drop_last()) + match flat.last().entry {
            LibraryEntry::Track { path, metadata, .. } => seq![(path@, metadata@)],
            LibraryEntry::Directory { .. } => Seq::empty(),
        }
    }
}

/// Some track of `ts` has a path equal to `p`.
pub open spec fn in_paths(ts: Seq<(Seq<char>, MetaView)>, p: Seq<char>) -> bool {
    exists|i: int| 0 <= i < ts.len() && path_eq(#[trigger] ts[i].0, p)
}

/// Every track of `ts` is in the queue.
pub open spec fn all_queued(ts: Seq<(Seq<char>, MetaView)>, q: Playlist) -> bool {
    forall|i: int| 0 <= i < ts.len() ==> q.holds_path(#[trigger] ts[i].0)
}

/// The current track of `q` has its path among `ts`.
pub open spec fn playing_among(q: Playlist, ts: Seq<(Seq<char>, MetaView)>) -> bool {
    match q.real_index() {
        Some(c) => c < q.entries@.len() && in_paths(ts, q.entries@[c as int].path@),
        None => false,
    }
}

/// The actions after removing tracks from the queue `old`, leaving `new`: a queue emptied by
/// the removal is cleared (playback stops); otherwise the current track is played again when
/// it was removed (`removed_current`).
pub open spec fn dequeue_actions(old: Playlist, new: Playlist, removed_current: bool) -> Seq<AppAction> {
    if old.entries@.len() > 0 && new.entries@.len() == 0 {
        seq![AppAction::ClearPlaylist]
    } else if removed_current {
        seq![AppAction::PlayCurrent]
    } else {
        Seq::empty()
    }
}

/// Removing the tracks `ts` from `old` gives `new`, front to back; an emptied queue is
/// cleared, else the current track is played again when it was among them.
pub open spec fn dequeue_outcome(old: Playlist, new: Playlist, ts: Seq<(Seq<char>, MetaView)>, actions: Seq<AppAction>) -> bool {
    &&& new.wf()
    &&& new@ == dequeued(old@, 0, |p: Seq<char>| in_paths(ts, p))
    &&& actions == dequeue_actions(old, new, playing_among(old, ts))
}

/// Enqueueing the tracks `ts` into `old` gives `new`; when playback starts, the current track
/// is played and the now-playing panel shown.
pub open spec fn enqueue_outcome(
    old: Playlist,
    new: Playlist,
    ui0: UiView,
    ui1: UiView,
    ts: Seq<(Seq<char>, MetaView)>,
    play_now: bool,
    actions: Seq<AppAction>,
) -> bool {
    let play = starts_playing(play_now, old.entries@.len(), (new.entries@.len() - old.entries@.len()) as nat);
    &&& enqueued(old, new, ts, play_now)
    &&& ui1 == if play { UiView { active_panel: ActivePanel::NowPlaying, ..ui0 } } else { ui0 }
    &&& actions == if play { seq![AppAction::PlayCurrent] } else { Seq::empty() }
}

/// The first entry of the queue whose path equals `p`.
pub open spec fn first_with_path(q: Playlist, p: Seq<char>) -> Option<int> {
    if q.holds_path(p) {
        Some(choose|i: int| 0 <= i < q.entries@.len() && path_eq(q.entries@[i].path@, p)
            && forall|k: int| 0 <= k < i ==> !path_eq(#[trigger] q.entries@[k].path@, p))
    } else {
        None
    }
}

/// What selecting an entry does: a directory whose tracks (at least one) are all queued is
/// dequeued, a queued track is removed; anything else is enqueued in album order.
pub open spec fn entry_toggled(
    old: Playlist,
    new: Playlist,
    ui0: UiView,
    ui1: UiView,
    e: LibraryEntry,
    play_now: bool,
    actions: Seq<AppAction>,
) -> bool {
    let ts = entry_tracks(e);
    match e {
        LibraryEntry::Directory { .. } => if ts.len() > 0 && all_queued(ts, old) {
            ui1 == ui0 && dequeue_outcome(old, new, ts, actions)
        } else {
            enqueue_outcome(old, new, ui0, ui1, ts, play_now, actions)
        },
        LibraryEntry::Track { path, .. } => if old.holds_path(path@) {
            match first_with_path(old, path@) {
                Some(i) => {
                    &&& ui1 == ui0
                    &&& new.wf()
                    &&& new@ == removed_queue(old@, i as usize)
                    &&& actions == dequeue_actions(old, new, old.real_index() == Some(i as usize))
                },
                None => false,
            }
        } else {
            enqueue_outcome(old, new, ui0, ui1, ts, play_now, actions)
        },
    }
}

/// What selecting the library header does: when every track row is queued, those tracks are
/// dequeued; otherwise the track rows are enqueued in album order.
pub open spec fn rows_toggled(
    old: Playlist,
    new: Playlist,
    ui0: UiView,
    ui1: UiView,
    flat: Seq<FlatLibraryItem>,
    play_now: bool,
    actions: Seq<AppAction>,
) -> bool {
    let ts = row_tracks(flat);
    if all_queued(ts, old) {
        ui1 == ui0 && dequeue_outcome(old, new, ts, actions)
    } else {
        enqueue_outcome(old, new, ui0, ui1, ts, play_now, actions)
    }
}

/// Moves tracks into queue entries.
fn entries_from(tracks: Vec<(String, TrackMetadata)>) -> (r: Vec<PlaylistEntry>)
    ensures
        values_of(r@) == tracks@.map_values(|t: (String, TrackMetadata)| (t.0@, t.1@)),
{
    let ghost orig = tracks@;
    let ghost tv = tracks@.map_values(|t: (String, TrackMetadata)| (t.0@, t.1@));
    let mut src = reversed(tracks);
    let mut out: Vec<PlaylistEntry> = Vec::new();
    assert(orig.skip(0).reverse() =~= orig.reverse());
    while src.len() > 0
        invariant
            tv == orig.map_values(|t: (String, TrackMetadata)| (t.0@, t.1@)),
            out@.len() <= orig.len(),
            src@ == orig.skip(out@.len() as int).reverse(),
            values_of(out@) == tv.take(out@.len() as int),
        decreases src@.len(),
    {
        let ghost k = out@.len() as int;
        let ghost before = src@;
        let (path, metadata) = src.pop().unwrap();
        proof {
            assert(before.last() == orig[k]);
            assert(src@ =~= orig.skip(k + 1).reverse());
        }
        let ghost outb = out@;
        out.push(PlaylistEntry { path, metadata });
        assert(values_of(out@) =~= tv.take(k + 1));
    }
    assert(tv.take(orig.len() as int) =~= tv);
    out
}

/// The paths of the tracks, as a set of paths.
fn path_set_of(tracks: &Vec<PlaylistEntry>) -> (r: PathSet)
    ensures
        forall|p: Seq<char>| r.has(p) == in_paths(values_of(tracks@), p),
{
    let mut paths: Vec<String> = Vec::new();
    let mut i: usize = 0;
    while i < tracks.len()
        invariant
            i <= tracks@.len(),
            paths@.len() == i,
            forall|k: int| 0 <= k < i ==> #[trigger] paths@[k]@ == tracks@[k].path@,
        decreases tracks@.len() - i,
    {
        paths.push(tracks[i].path.clone());
        i = i + 1;
    }
    let r = PathSet { paths };
    proof {
        let tv = values_of(tracks@);
        assert forall|p: Seq<char>| r.has(p) == in_paths(tv, p) by {
            if r.has(p) {
                let k = choose|k: int| 0 <= k < r.paths@.len() && path_eq(#[trigger] r.paths@[k]@, p);
                assert(tv[k].0 == r.paths@[k]@);
            }
            if in_paths(tv, p) {
                let k = choose|k: int| 0 <= k < tv.len() && path_eq(#[trigger] tv[k].0, p);
                assert(tv[k].0 == r.paths@[k]@);
            }
        }
    }
    r
}

/// Whether every track is in the queue.
fn all_in_queue(tracks: &Vec<PlaylistEntry>, q: &Playlist) -> (r: bool)
    ensures
        r == all_queued(values_of(tracks@), *q),
{
    let mut i: usize = 0;
    while i < tracks.len()
        invariant
            i <= tracks@.len(),
            forall|k: int| 0 <= k < i ==> q.holds_path(#[trigger] values_of(tracks@)[k].0),
        decreases tracks@.len() - i,
    {
        if !q.contains_path(tracks[i].path.as_str()) {
            assert(values_of(tracks@)[i as int].0 == tracks@[i as int].path@);
            return false;
        }
        i = i + 1;
    }
    true
}

/// Dequeues `tracks` (all entries with one of their paths).
fn dequeue_tracks(playlist: &mut Playlist, tracks: &Vec<PlaylistEntry>) -> (r: Vec<AppAction>)
    requires
        old(playlist).wf(),
    ensures
        dequeue_outcome(*old(playlist), *final(playlist), values_of(tracks@), r@),
{
    let ghost ts = values_of(tracks@);
    let old_len = playlist.len();
    let set = path_set_of(tracks);
    let removed = playlist.remove_paths(&set);
    proof {
        assert((|p: Seq<char>| set.has(p)) =~= (|p: Seq<char>| in_paths(ts, p)));
        lemma_real_index_in_range_or_none(*old(playlist));
    }
    let mut r: Vec<AppAction> = Vec::new();
    if old_len > 0 && playlist.len() == 0 {
        r.push(AppAction::ClearPlaylist);
    } else if removed {
        r.push(AppAction::PlayCurrent);
    }
    assert(r@ =~= dequeue_actions(*old(playlist), *playlist, playing_among(*old(playlist), ts)));
    r
}

/// Enqueues `tracks` and, when playback starts, shows the now-playing panel.
fn enqueue_and_show(ui: &mut UiState, playlist: &mut Playlist, tracks: Vec<PlaylistEntry>, play_now: bool) -> (r: Vec<AppAction>)
    requires
        old(playlist).wf(),
        old(playlist).entries@.len() + tracks@.len() < usize::MAX,
    ensures
        enqueue_outcome(*old(playlist), *final(playlist), old(ui)@, final(ui)@, values_of(tracks@), play_now, r@),
{
    let play = enqueue_tracks(playlist, tracks, play_now);
    let mut r: Vec<AppAction> = Vec::new();
    if play {
        ui.active_panel = ActivePanel::NowPlaying;
        r.push(AppAction::PlayCurrent);
    }
    assert(r@ =~= if play { seq![AppAction::PlayCurrent] } else { Seq::<AppAction>::empty() });
    r
}

/// The index of the first entry of the queue whose path equals `path`.
fn position_of_path(q: &Playlist, path: &str) -> (r: Option<usize>)
    ensures
        match r {
            Some(i) => first_with_path(*q, path@) == Some(i as int),
            None => first_with_path(*q, path@) is None,
        },
{
    let mut i: usize = 0;
    while i < q.entries.len()
        invariant
            i <= q.entries@.len(),
            forall|k: int| 0 <= k < i ==> !path_eq(#[trigger] q.entries@[k].path@, path@),
        decreases q.entries@.len() - i,
    {
        if same_path(q.entries[i].path.as_str(), path) {
            proof {
                assert(q.holds_path(path@));
                let c = choose|c: int| 0 <= c < q.entries@.len() && path_eq(q.entries@[c].path@, path@)
                    && forall|k: int| 0 <= k < c ==> !path_eq(#[trigger] q.entries@[k].path@, path@);
                if c < i {
                } else if c > i {
                    assert(!path_eq(q.entries@[i as int].path@, path@));
                }
            }
            return Some(i);
        }
        i = i + 1;
    }
    None
}

/// Enqueues or dequeues a library entry (see `entry_toggled`).
pub fn toggle_entry(ui: &mut UiState, playlist: &mut Playlist, e: &LibraryEntry, play_now: bool) -> (r: Vec<AppAction>)
    requires
        old(playlist).wf(),
        old(playlist).entries@.len() + entry_tracks(*e).len() < usize::MAX,
    ensures
        entry_toggled(*old(playlist), *final(playlist), old(ui)@, final(ui)@, *e, play_now, r@),
{
    match e {
        LibraryEntry::Directory { .. } => {
            let tracks = entries_from(e.get_all_tracks());
            if tracks.len() > 0 && all_in_queue(&tracks, playlist) {
                dequeue_tracks(playlist, &tracks)
            } else {
                enqueue_and_show(ui, playlist, tracks, play_now)
            }
        },
        LibraryEntry::Track { path, metadata, .. } => {
            if playlist.contains_path(path.as_str()) {
                match position_of_path(playlist, path.as_str()) {
                    Some(pos) => {
                        let is_current = match playlist.current_real_index() {
                            Some(c) => c == pos,
                            None => false,
                        };
                        let old_len = playlist.len();
                        playlist.remove(pos);
                        let mut r: Vec<AppAction> = Vec::new();
                        if old_len > 0 && playlist.len() == 0 {
                            r.push(AppAction::ClearPlaylist);
                        } else if is_current {
                            r.push(AppAction::PlayCurrent);
                        }
                        assert(r@ =~= dequeue_actions(*old(playlist), *playlist, old(playlist).real_index() == Some(pos)));
                        r
                    },
                    None => Vec::new(),
                }
            } else {
                let mut v: Vec<PlaylistEntry> = Vec::new();
                v.push(PlaylistEntry { path: path.clone(), metadata: metadata.duplicate() });
                assert(values_of(v@) =~= entry_tracks(*e));
                enqueue_and_show(ui, playlist, v, play_now)
            }
        },
    }
}

/// The track rows of the flattened library as queue entries.
fn row_entries(flat: &Vec<FlatLibraryItem>) -> (r: Vec<PlaylistEntry>)
    ensures
        values_of(r@) == row_tracks(flat@),
{
    let mut out: Vec<PlaylistEntry> = Vec::new();
    let mut i: usize = 0;
    while i < flat.len()
        invariant
            i <= flat@.len(),
            values_of(out@) == row_tracks(flat@.take(i as int)),
        decreases flat@.len() - i,
    {
        let ghost before = out@;
        assert(flat@.take(i + 1).drop_last() =~= flat@.take(i as int));
        match &flat[i].entry {
            LibraryEntry::Track { path, metadata, .. } => {
                out.push(PlaylistEntry { path: path.clone(), metadata: metadata.duplicate() });
                assert(values_of(out@) =~= values_of(before) + seq![(path@, metadata@)]);
            },
            LibraryEntry::Directory { .. } => {
                assert(values_of(out@) =~= values_of(before) + Seq::<(Seq<char>, MetaView)>::empty());
            },
        }
        i = i + 1;
    }
    assert(flat@.take(flat@.len() as int) =~= flat@);
    out
}

/// Enqueues or dequeues all track rows of the flattened library (see `rows_toggled`).
pub fn toggle_rows(ui: &mut UiState, playlist: &mut Playlist, flat: &Vec<FlatLibraryItem>, play_now: bool) -> (r: Vec<AppAction>)
    requires
        old(playlist).wf(),
        old(playlist).entries@.len() + row_tracks(flat@).len() < usize::MAX,
    ensures
        rows_toggled(*old(playlist), *final(playlist), old(ui)@, final(ui)@, flat@, play_now, r@),
{
    let tracks = row_entries(flat);
    if all_in_queue(&tracks, playlist) {
        dequeue_tracks(playlist, &tracks)
    } else {
        enqueue_and_show(ui, playlist, tracks, play_now)
    }
}

/// Selecting in the library panel: the header row (cursor 0) toggles all track rows, any
/// other row toggles its entry; the library view is rebuilt afterwards. A cursor past the
/// last row does nothing but ask for a redraw.
pub fn library_enqueue_selected(ui: &mut UiState, playlist: &mut Playlist, flat: &Vec<FlatLibraryItem>, play_now: bool) -> (r: Vec<AppAction>)
    requires
        old(playlist).wf(),
        old(playlist).entries@.len() + row_tracks(flat@).len() < usize::MAX,
        old(ui).library_cursor > 0 && old(ui).library_cursor - 1 < flat@.len() ==>
            old(playlist).entries@.len() + entry_tracks(flat@[old(ui).library_cursor - 1].entry).len() < usize::MAX,
    ensures
        ({
            let ui0 = UiView { refresh_needed: true, ..old(ui)@ };
            let c = old(ui).library_cursor;
            if c == 0 {
                &&& r@.len() > 0
                &&& r@.last() == AppAction::RebuildLibraryView
                &&& rows_toggled(*old(playlist), *final(playlist), ui0, final(ui)@, flat@, play_now, r@.drop_last())
            } else if c - 1 < flat@.len() {
                &&& r@.len() > 0
                &&& r@.last() == AppAction::RebuildLibraryView
                &&& entry_toggled(*old(playlist), *final(playlist), ui0, final(ui)@, flat@[c - 1].entry, play_now, r@.drop_last())
            } else {
                &&& final(ui)@ == ui0
                &&& *final(playlist) == *old(playlist)
                &&& r@.len() == 0
            }
        }),
{
    ui.refresh_needed = true;
    if ui.library_cursor == 0 {
        let mut r = toggle_rows(ui, playlist, flat, play_now);
        let ghost before = r@;
        r.push(AppAction::RebuildLibraryView);
        assert(r@.drop_last() =~= before);
        return r;
    }
    let idx = ui.library_cursor - 1;
    if idx >= flat.len() {
        return Vec::new();
    }
    let mut r = toggle_entry(ui, playlist, &flat[idx].entry, play_now);
    let ghost before = r@;
    r.push(AppAction::RebuildLibraryView);
    assert(r@.drop_last() =~= before);
    r
}

/// Selecting in the search panel toggles the result under the cursor; the library view is
/// rebuilt afterwards. A cursor past the last result does nothing but ask for a redraw.
pub fn search_enqueue_selected(ui: &mut UiState, playlist: &mut Playlist, results: &Vec<LibraryEntry>, play_now: bool) -> (r: Vec<AppAction>)
    requires
        old(playlist).wf(),
        old(ui).search_cursor < results@.len() ==>
            old(playlist).entries@.len() + entry_tracks(results@[old(ui).search_cursor as int]).len() < usize::MAX,
    ensures
        ({
            let ui0 = UiView { refresh_needed: true, ..old(ui)@ };
            let c = old(ui).search_cursor;
            if c < results@.len() {
                &&& r@.len() > 0
                &&& r@.last() == AppAction::RebuildLibraryView
                &&& entry_toggled(*old(playlist), *final(playlist), ui0, final(ui)@, results@[c as int], play_now, r@.drop_last())
            } else {
                &&& final(ui)@ == ui0
                &&& *final(playlist) == *old(playlist)
                &&& r@.len() == 0
            }
        }),
{
    ui.refresh_needed = true;
    if ui.search_cursor >= results.len() {
        return Vec::new();
    }
    let mut r = toggle_entry(ui, playlist, &results[ui.search_cursor], play_now);
    let ghost before = r@;
    r.push(AppAction::RebuildLibraryView);
    assert(r@.drop_last() =~= before);
    r
}

/// Whether every track row of the flattened library is in the queue (the mark of the
/// library header).
pub fn library_all_enqueued(flat: &Vec<FlatLibraryItem>, playlist: &Playlist) -> (r: bool)
    ensures
        r == all_queued(row_tracks(flat@), *playlist),
{
    let tracks = row_entries(flat);
    all_in_queue(&tracks, playlist)
}

} // verus!
