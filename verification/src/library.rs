//! The music library: a tree of directories and tracks, and its flattened rows.

use vstd::prelude::*;

use crate::metadata::{LyricsKind, MetaView, TrackMetadata};
use crate::enqueue::{chars_before, chars_before_of, lemma_chars_order};
use crate::paths::{extension_of, file_name_of, path_eq, path_extension, path_file_name, path_starts_with, same_path, starts_with_path};
use crate::sanitizer::{audio_ext_from, is_audio_ext};
use crate::text::{chars_of, lowercase, lowercase_of};
use crate::playlist::Playlist;

verus! {

/// A single entry in the music library tree.
#[derive(Debug)]
pub enum LibraryEntry {
    Directory { name: String, path: String, children: Vec<LibraryEntry> },
    Track { name: String, path: String, metadata: TrackMetadata },
}

/// A library entry as values.
pub enum EntryView {
    Dir(Seq<char>, Seq<char>, Seq<EntryView>),
    Track(Seq<char>, Seq<char>, MetaView),
}

pub open spec fn entry_view(e: LibraryEntry) -> EntryView
    decreases e,
{
    match e {
        LibraryEntry::Directory { name, path, children } => EntryView::Dir(name@, path@, entries_view(children@)),
        LibraryEntry::Track { name, path, metadata } => EntryView::Track(name@, path@, metadata@),
    }
}

pub open spec fn entries_view(cs: Seq<LibraryEntry>) -> Seq<EntryView>
    decreases cs,
{
    if cs.len() == 0 {
        Seq::empty()
    } else {
        entries_view(cs.drop_last()).push(entry_view(cs.last()))
    }
}

pub open spec fn entry_name(e: LibraryEntry) -> Seq<char> {
    match e {
        LibraryEntry::Directory { name, .. } => name@,
        LibraryEntry::Track { name, .. } => name@,
    }
}

pub open spec fn entry_path(e: LibraryEntry) -> Seq<char> {
    match e {
        LibraryEntry::Directory { path, .. } => path@,
        LibraryEntry::Track { path, .. } => path@,
    }
}

/// The tracks under an entry, depth first in tree order: path and metadata.
pub open spec fn entry_tracks(e: LibraryEntry) -> Seq<(Seq<char>, MetaView)>
    decreases e,
{
    match e {
        LibraryEntry::Directory { children, .. } => children_tracks(children@),
        LibraryEntry::Track { path, metadata, .. } => seq![(path@, metadata@)],
    }
}

pub open spec fn children_tracks(cs: Seq<LibraryEntry>) -> Seq<(Seq<char>, MetaView)>
    decreases cs,
{
    if cs.len() == 0 {
        Seq::empty()
    } else {
        children_tracks(cs.drop_last()) + entry_tracks(cs.last())
    }
}

/// Whether every track under an entry is in the queue; a directory with no entries counts
/// as not enqueued, and so does one with an empty directory under it.
pub open spec fn all_enqueued(e: LibraryEntry, q: Playlist) -> bool
    decreases e,
{
    match e {
        LibraryEntry::Directory { children, .. } => children@.len() > 0 && children_all_enqueued(children@, q),
        LibraryEntry::Track { path, .. } => q.holds_path(path@),
    }
}

pub open spec fn children_all_enqueued(cs: Seq<LibraryEntry>, q: Playlist) -> bool
    decreases cs,
{
    if cs.len() == 0 {
        true
    } else {
        children_all_enqueued(cs.drop_last(), q) && all_enqueued(cs.last(), q)
    }
}

impl LibraryEntry {
    /// Returns the display name.
    pub fn name(&self) -> (r: &str)
        ensures
            r@ == entry_name(*self),
    {
        match self {
            LibraryEntry::Directory { name, .. } => name.as_str(),
            LibraryEntry::Track { name, .. } => name.as_str(),
        }
    }

    /// Returns the path.
    pub fn path(&self) -> (r: &str)
        ensures
            r@ == entry_path(*self),
    {
        match self {
            LibraryEntry::Directory { path, .. } => path.as_str(),
            LibraryEntry::Track { path, .. } => path.as_str(),
        }
    }

    /// Returns true if this is a directory.
    pub fn is_dir(&self) -> (r: bool)
        ensures
            r == (*self is Directory),
    {
        match self {
            LibraryEntry::Directory { .. } => true,
            LibraryEntry::Track { .. } => false,
        }
    }

    /// A copy of the entry and everything under it.
    #[verifier::loop_isolation(false)]
    pub fn duplicate(&self) -> (r: Self)
        ensures
            entry_view(r) == entry_view(*self),
        decreases self,
    {
        match self {
            LibraryEntry::Directory { name, path, children } => {
                let mut out: Vec<LibraryEntry> = Vec::new();
                let mut i: usize = 0;
                while i < children.len()
                    invariant
                        i <= children@.len(),
                        entries_view(out@) == entries_view(children@.take(i as int)),
                    decreases children@.len() - i,
                {
                    proof {
                        assert(decreases_to!(*self => *children));
                        assert(decreases_to!(*children => children@));
                        assert(decreases_to!(children@ => children@[i as int]));
                    }
                    let c = children[i].duplicate();
                    let ghost before = out@;
                    out.push(c);
                    assert(out@.drop_last() =~= before);
                    assert(children@.take(i + 1).drop_last() =~= children@.take(i as int));
                    i = i + 1;
                }
                assert(children@.take(children@.len() as int) =~= children@);
                LibraryEntry::Directory { name: name.clone(), path: path.clone(), children: out }
            },
            LibraryEntry::Track { name, path, metadata } => LibraryEntry::Track {
                name: name.clone(),
                path: path.clone(),
                metadata: metadata.duplicate(),
            },
        }
    }

    #[verifier::loop_isolation(false)]
    fn collect_tracks(&self, out: &mut Vec<(String, TrackMetadata)>)
        ensures
            final(out)@.map_values(|t: (String, TrackMetadata)| (t.0@, t.1@)) == old(out)@.map_values(|t: (String, TrackMetadata)| (t.0@, t.1@)) + entry_tracks(*self),
        decreases self,
    {
        match self {
            LibraryEntry::Track { path, metadata, .. } => {
                let item = (path.clone(), metadata.duplicate());
                out.push(item);
                assert(final(out)@.map_values(|t: (String, TrackMetadata)| (t.0@, t.1@)) =~= old(out)@.map_values(|t: (String, TrackMetadata)| (t.0@, t.1@)) + entry_tracks(*self));
            },
            LibraryEntry::Directory { children, .. } => {
                let mut i: usize = 0;
                while i < children.len()
                    invariant
                        i <= children@.len(),
                        out@.map_values(|t: (String, TrackMetadata)| (t.0@, t.1@)) == old(out)@.map_values(|t: (String, TrackMetadata)| (t.0@, t.1@)) + children_tracks(children@.take(i as int)),
                    decreases children@.len() - i,
                {
                    proof {
                        assert(decreases_to!(*self => *children));
                        assert(decreases_to!(*children => children@));
                        assert(decreases_to!(children@ => children@[i as int]));
                    }
                    children[i].collect_tracks(out);
                    assert(children@.take(i + 1).drop_last() =~= children@.take(i as int));
                    i = i + 1;
                }
                assert(children@.take(children@.len() as int) =~= children@);
            },
        }
    }

    /// Returns all tracks (path and metadata) under this entry, depth first.
    pub fn get_all_tracks(&self) -> (r: Vec<(String, TrackMetadata)>)
        ensures
            r@.map_values(|t: (String, TrackMetadata)| (t.0@, t.1@)) == entry_tracks(*self),
    {
        let mut out: Vec<(String, TrackMetadata)> = Vec::new();
        self.collect_tracks(&mut out);
        assert(out@.map_values(|t: (String, TrackMetadata)| (t.0@, t.1@)) =~= entry_tracks(*self));
        out
    }

    /// Returns all audio file paths under this entry, depth first.
    pub fn get_all_files(&self) -> (r: Vec<String>)
        ensures
            r@.len() == entry_tracks(*self).len(),
            forall|i: int| 0 <= i < r@.len() ==> #[trigger] r@[i]@ == entry_tracks(*self)[i].0,
    {
        let tracks = self.get_all_tracks();
        let mut out: Vec<String> = Vec::new();
        let mut i: usize = 0;
        while i < tracks.len()
            invariant
                i <= tracks@.len(),
                out@.len() == i,
                tracks@.map_values(|t: (String, TrackMetadata)| (t.0@, t.1@)) == entry_tracks(*self),
                forall|k: int| 0 <= k < i ==> #[trigger] out@[k]@ == entry_tracks(*self)[k].0,
            decreases tracks@.len() - i,
        {
            assert(tracks@.map_values(|t: (String, TrackMetadata)| (t.0@, t.1@))[i as int] == (tracks@[i as int].0@, tracks@[i as int].1@));
            out.push(tracks[i].0.clone());
            i = i + 1;
        }
        out
    }

    /// True if all audio tracks under this entry are in `queue`; empty directories count
    /// as not enqueued. For an entry with no empty directory under it, that is: it has at
    /// least one track and every one of its tracks is in the queue.
    pub fn all_tracks_enqueued(&self, queue: &Playlist) -> (r: bool)
        ensures
            r == all_enqueued(*self, *queue),
            no_empty_dirs(*self) ==> r == (entry_tracks(*self).len() > 0 && tracks_held(entry_tracks(*self), *queue)),
    {
        proof {
            if no_empty_dirs(*self) {
                lemma_all_tracks_enqueued(*self, *queue);
            }
        }
        self.tracks_enqueued(queue)
    }

    #[verifier::loop_isolation(false)]
    fn tracks_enqueued(&self, queue: &Playlist) -> (r: bool)
        ensures
            r == all_enqueued(*self, *queue),
        decreases self,
    {
        match self {
            LibraryEntry::Track { path, .. } => queue.contains_path(path.as_str()),
            LibraryEntry::Directory { children, .. } => {
                let mut i: usize = 0;
                while i < children.len()
                    invariant
                        i <= children@.len(),
                        children_all_enqueued(children@.take(i as int), *queue),
                    decreases children@.len() - i,
                {
                    proof {
                        assert(decreases_to!(*self => *children));
                        assert(decreases_to!(*children => children@));
                        assert(decreases_to!(children@ => children@[i as int]));
                    }
                    assert(children@.take(i + 1).drop_last() =~= children@.take(i as int));
                    if !children[i].tracks_enqueued(queue) {
                        proof {
                            if children_all_enqueued(children@, *queue) {
                                lemma_children_all_prefix(children@, (i + 1) as int, *queue);
                            }
                        }
                        return false;
                    }
                    i = i + 1;
                }
                assert(children@.take(children@.len() as int) =~= children@);
                children.len() > 0
            },
        }
    }
}

/// If all children are enqueued, so are those of every prefix.
proof fn lemma_children_all_prefix(cs: Seq<LibraryEntry>, k: int, q: Playlist)
    requires
        0 <= k <= cs.len(),
        children_all_enqueued(cs, q),
    ensures
        children_all_enqueued(cs.take(k), q),
    decreases cs.len(),
{
    if k < cs.len() {
        assert(cs.drop_last().take(k) =~= cs.take(k));
        lemma_children_all_prefix(cs.drop_last(), k, q);
    } else {
        assert(cs.take(k) =~= cs);
    }
}

/// A set of paths, where paths that are equal as `Path` values count as one.
#[derive(Debug, Clone)]
pub struct PathSet {
    pub paths: Vec<String>,
}

impl PathSet {
    /// Some member is equal to `p` as a path.
    pub open spec fn has(self, p: Seq<char>) -> bool {
        exists|i: int| 0 <= i < self.paths@.len() && path_eq(#[trigger] self.paths@[i]@, p)
    }

    /// An empty set.
    pub fn new() -> (s: Self)
        ensures
            s.paths@.len() == 0,
            forall|p: Seq<char>| !s.has(p),
    {
        PathSet { paths: Vec::new() }
    }

    /// Whether a member is equal to `p` as a path.
    pub fn contains(&self, p: &str) -> (r: bool)
        ensures
            r == self.has(p@),
    {
        let mut i: usize = 0;
        while i < self.paths.len()
            invariant
                i <= self.paths@.len(),
                forall|k: int| 0 <= k < i ==> !path_eq(#[trigger] self.paths@[k]@, p@),
            decreases self.paths@.len() - i,
        {
            if same_path(self.paths[i].as_str(), p) {
                return true;
            }
            i = i + 1;
        }
        false
    }

    /// Adds `p` unless a member equals it; returns whether it was added.
    pub fn insert(&mut self, p: String) -> (r: bool)
        ensures
            r == !old(self).has(p@),
            r ==> final(self).paths@ == old(self).paths@.push(p),
            !r ==> final(self).paths@ == old(self).paths@,
    {
        if self.contains(p.as_str()) {
            false
        } else {
            self.paths.push(p);
            true
        }
    }

    /// Removes every member equal to `p`; returns whether one was there.
    pub fn remove(&mut self, p: &str) -> (r: bool)
        ensures
            r == old(self).has(p@),
            final(self).paths@.map_values(|x: String| x@) == old(self).paths@.map_values(|x: String| x@).filter(|x: Seq<char>| !path_eq(x, p@)),
    {
        let ghost olds = self.paths@.map_values(|x: String| x@);
        let mut kept: Vec<String> = Vec::new();
        let mut found = false;
        let mut i: usize = 0;
        while i < self.paths.len()
            invariant
                i <= self.paths@.len(),
                self.paths@ == old(self).paths@,
                olds == self.paths@.map_values(|x: String| x@),
                kept@.map_values(|x: String| x@) == olds.take(i as int).filter(|x: Seq<char>| !path_eq(x, p@)),
                found == exists|k: int| 0 <= k < i && path_eq(#[trigger] self.paths@[k]@, p@),
            decreases self.paths@.len() - i,
        {
            let ghost before = kept@.map_values(|x: String| x@);
            assert(olds[i as int] == self.paths@[i as int]@);
            assert(olds.take(i as int).push(olds[i as int]) =~= olds.take(i + 1));
            proof {
                olds.take(i as int).lemma_filter_push(olds[i as int], |x: Seq<char>| !path_eq(x, p@));
            }
            if same_path(self.paths[i].as_str(), p) {
                found = true;
            } else {
                let c = self.paths[i].clone();
                kept.push(c);
                assert(kept@.map_values(|x: String| x@) =~= before.push(olds[i as int]));
            }
            i = i + 1;
        }
        assert(olds.take(olds.len() as int) =~= olds);
        self.paths = kept;
        found
    }
}

/// A flattened row of the library tree.
#[derive(Debug)]
pub struct FlatLibraryItem {
    pub entry: LibraryEntry,
    pub depth: usize,
    pub is_last: bool,
    pub ancestor_last: Vec<bool>,
    /// True when all tracks under this item are in the queue.
    pub enqueued: bool,
}

/// A row of the flattened library as values.
pub struct FlatView {
    pub entry: EntryView,
    pub depth: int,
    pub is_last: bool,
    pub ancestor_last: Seq<bool>,
    pub enqueued: bool,
}

impl FlatLibraryItem {
    pub open spec fn view(self) -> FlatView {
        FlatView {
            entry: entry_view(self.entry),
            depth: self.depth as int,
            is_last: self.is_last,
            ancestor_last: self.ancestor_last@,
            enqueued: self.enqueued,
        }
    }
}

pub open spec fn rows_view(rows: Seq<FlatLibraryItem>) -> Seq<FlatView> {
    rows.map_values(|r: FlatLibraryItem| r.view())
}

/// The rows for `cs[k..]`: each entry, then (for a directory that is not collapsed) the rows
/// of its children one level deeper, the ancestors list extended by whether the entry was
/// the last of its siblings.
pub open spec fn flat_from(cs: Seq<LibraryEntry>, k: int, depth: int, anc: Seq<bool>, collapsed: PathSet, q: Playlist) -> Seq<FlatView>
    decreases cs, cs.len() - k,
{
    if k < 0 || k >= cs.len() {
        Seq::empty()
    } else {
        let e = cs[k];
        let last = k == cs.len() - 1;
        let row = FlatView { entry: entry_view(e), depth, is_last: last, ancestor_last: anc, enqueued: all_enqueued(e, q) };
        let sub = match e {
            LibraryEntry::Directory { path, children, .. } => if !collapsed.has(path@) {
                flat_from(children@, 0, depth + 1, anc.push(last), collapsed, q)
            } else {
                Seq::empty()
            },
            LibraryEntry::Track { .. } => Seq::empty(),
        };
        seq![row] + sub + flat_from(cs, k + 1, depth, anc, collapsed, q)
    }
}

/// The depth of nesting of a forest: 0 for no entries, one more than the deepest directory.
pub open spec fn forest_height(cs: Seq<LibraryEntry>) -> nat
    decreases cs,
{
    if cs.len() == 0 {
        0
    } else {
        let h = match cs.last() {
            LibraryEntry::Directory { children, .. } => 1 + forest_height(children@),
            LibraryEntry::Track { .. } => 1,
        };
        let rest = forest_height(cs.drop_last());
        if h > rest {
            h
        } else {
            rest
        }
    }
}

proof fn lemma_forest_height(cs: Seq<LibraryEntry>, k: int)
    requires
        0 <= k < cs.len(),
    ensures
        match cs[k] {
            LibraryEntry::Directory { children, .. } => forest_height(children@) + 1 <= forest_height(cs),
            LibraryEntry::Track { .. } => true,
        },
    decreases cs,
{
    if k < cs.len() - 1 {
        lemma_forest_height(cs.drop_last(), k);
    }
}

fn copy_bools(v: &Vec<bool>) -> (r: Vec<bool>)
    ensures
        r@ == v@,
{
    let mut out: Vec<bool> = Vec::new();
    let mut i: usize = 0;
    while i < v.len()
        invariant
            i <= v@.len(),
            out@ == v@.take(i as int),
        decreases v@.len() - i,
    {
        out.push(v[i]);
        assert(out@ =~= v@.take(i + 1));
        i = i + 1;
    }
    assert(v@.take(v@.len() as int) =~= v@);
    out
}

/// Flattens the library tree for display. Collapsed directories are not expanded. Each
/// row carries whether all tracks under it are in the queue.
#[verifier::loop_isolation(false)]
pub fn flatten_library(entries: &[LibraryEntry], depth: usize, ancestor_last: Vec<bool>, collapsed_dirs: &PathSet, queue: &Playlist) -> (r: Vec<FlatLibraryItem>)
    requires
        depth + forest_height(entries@) <= usize::MAX,
    ensures
        rows_view(r@) == flat_from(entries@, 0, depth as int, ancestor_last@, *collapsed_dirs, *queue),
    decreases entries@,
{
    let mut result: Vec<FlatLibraryItem> = Vec::new();
    let len = entries.len();
    let mut i: usize = 0;
    assert(rows_view(result@) =~= Seq::<FlatView>::empty());
    while i < len
        invariant
            i <= len,
            len == entries@.len(),
            rows_view(result@) + flat_from(entries@, i as int, depth as int, ancestor_last@, *collapsed_dirs, *queue)
                == flat_from(entries@, 0, depth as int, ancestor_last@, *collapsed_dirs, *queue),
        decreases len - i,
    {
        let entry = &entries[i];
        let is_last = i == len - 1;
        let mut current_ancestors = copy_bools(&ancestor_last);
        let enqueued = entry.all_tracks_enqueued(queue);
        let ghost before = rows_view(result@);
        let ghost e = entries@[i as int];
        result.push(FlatLibraryItem { entry: entry.duplicate(), depth, is_last, ancestor_last: copy_bools(&current_ancestors), enqueued });
        assert(rows_view(result@) =~= before.push(FlatView { entry: entry_view(e), depth: depth as int, is_last, ancestor_last: ancestor_last@, enqueued: all_enqueued(e, *queue) }));
        let ghost mid = rows_view(result@);
        match entry {
            LibraryEntry::Directory { path, children, .. } => {
                if !collapsed_dirs.contains(path.as_str()) {
                    current_ancestors.push(is_last);
                    proof {
                        lemma_forest_height(entries@, i as int);
                        assert(decreases_to!(entries@ => entries@[i as int]));
                        assert(decreases_to!(entries@[i as int] => *children));
                        assert(decreases_to!(*children => children@));
                    }
                    let mut sub = flatten_library(children.as_slice(), depth + 1, current_ancestors, collapsed_dirs, queue);
                    let ghost subv = rows_view(sub@);
                    result.append(&mut sub);
                    assert(rows_view(result@) =~= mid + subv);
                }
            },
            LibraryEntry::Track { .. } => {},
        }
        proof {
            let fv = flat_from(entries@, i as int, depth as int, ancestor_last@, *collapsed_dirs, *queue);
            assert(fv == seq![FlatView { entry: entry_view(e), depth: depth as int, is_last, ancestor_last: ancestor_last@, enqueued: all_enqueued(e, *queue) }] + (match e {
                LibraryEntry::Directory { path, children, .. } => if !collapsed_dirs.has(path@) {
                    flat_from(children@, 0, depth + 1, ancestor_last@.push(is_last), *collapsed_dirs, *queue)
                } else {
                    Seq::empty()
                },
                LibraryEntry::Track { .. } => Seq::empty(),
            }) + flat_from(entries@, i + 1, depth as int, ancestor_last@, *collapsed_dirs, *queue));
            assert(rows_view(result@) + flat_from(entries@, i + 1, depth as int, ancestor_last@, *collapsed_dirs, *queue) =~= before + fv);
        }
        i = i + 1;
    }
    assert(rows_view(result@) =~= flat_from(entries@, 0, depth as int, ancestor_last@, *collapsed_dirs, *queue));
    result
}

/// Whether the path names an audio file: its extension is one of the supported formats,
/// ASCII case ignored.
pub fn is_audio_file(path: &str) -> (r: bool)
    ensures
        r == match path_extension(path@) {
            Some(e) => is_audio_ext(e),
            None => false,
        },
{
    match extension_of(path) {
        Some(e) => {
            let v = chars_of(e.as_str());
            assert(v@.skip(0) =~= v@);
            audio_ext_from(&v, 0)
        },
        None => false,
    }
}

/// A record of the directory walk, in walk order: a directory, or a file.
pub struct WalkRecord {
    pub is_dir: bool,
    pub path: String,
    pub name: String,
}

/// The records to build the library from: every directory, and the files that are audio
/// files. The paths of those files, in order, are the ones whose metadata is to be read.
pub fn audio_records(walk: Vec<WalkRecord>) -> (r: (Vec<WalkRecord>, Vec<String>))
    ensures
        r.0@ == walk@.filter(|w: WalkRecord| w.is_dir || is_audio_path(w.path@)),
        r.1@.len() == track_count(r.0@, r.0@.len() as int),
        forall|k: int| 0 <= k < r.1@.len() ==> #[trigger] r.1@[k]@ == track_paths(r.0@)[k],
{
    let ghost orig = walk@;
    let ghost keep = |w: WalkRecord| w.is_dir || is_audio_path(w.path@);
    let mut src = crate::enqueue::reversed(walk);
    let mut recs: Vec<WalkRecord> = Vec::new();
    let mut paths: Vec<String> = Vec::new();
    let ghost mut k: int = 0;
    assert(orig.take(0).filter(keep) =~= Seq::<WalkRecord>::empty());
    assert(orig.skip(0).reverse() =~= orig.reverse());
    while src.len() > 0
        invariant
            keep == (|w: WalkRecord| w.is_dir || is_audio_path(w.path@)),
            0 <= k <= orig.len(),
            src@ == orig.skip(k).reverse(),
            recs@ == orig.take(k).filter(keep),
            paths@.len() == track_count(recs@, recs@.len() as int),
            forall|j: int| 0 <= j < paths@.len() ==> #[trigger] paths@[j]@ == track_paths(recs@)[j],
        decreases src@.len(),
    {
        let ghost before_src = src@;
        let w = src.pop().unwrap();
        proof {
            assert(before_src.last() == orig[k]);
            assert(src@ =~= orig.skip(k + 1).reverse());
            assert(orig.take(k + 1) =~= orig.take(k).push(orig[k]));
            orig.take(k).lemma_filter_push(orig[k], keep);
        }
        let keep_it = w.is_dir || is_audio_file(w.path.as_str());
        if keep_it {
            let ghost rb = recs@;
            if !w.is_dir {
                paths.push(w.path.clone());
            }
            recs.push(w);
            proof {
                assert(recs@.drop_last() =~= rb);
                lemma_track_paths_push(rb, recs@.last());
                assert(track_count(recs@, recs@.len() as int) == track_paths(recs@).len()) by {
                    lemma_track_count_paths(recs@);
                }
                assert(track_count(rb, rb.len() as int) == track_paths(rb).len()) by {
                    lemma_track_count_paths(rb);
                }
            }
        }
        proof {
            k = k + 1;
        }
    }
    proof {
        assert(orig.take(k) =~= orig);
    }
    (recs, paths)
}

/// Whether a path names an audio file (see `is_audio_file`).
pub open spec fn is_audio_path(p: Seq<char>) -> bool {
    match path_extension(p) {
        Some(e) => is_audio_ext(e),
        None => false,
    }
}

/// The number of file records among the first `k`.
pub open spec fn track_count(recs: Seq<WalkRecord>, k: int) -> int
    decreases k,
{
    if k <= 0 || k > recs.len() {
        0
    } else {
        track_count(recs, k - 1) + if recs[k - 1].is_dir { 0int } else { 1int }
    }
}

/// The paths of the file records, in order.
pub open spec fn track_paths(recs: Seq<WalkRecord>) -> Seq<Seq<char>>
    decreases recs.len(),
{
    if recs.len() == 0 {
        Seq::empty()
    } else {
        track_paths(recs.drop_last()) + if recs.last().is_dir { Seq::<Seq<char>>::empty() } else { seq![recs.last().path@] }
    }
}

proof fn lemma_track_paths_push(recs: Seq<WalkRecord>, w: WalkRecord)
    ensures
        track_paths(recs.push(w)) == track_paths(recs) + if w.is_dir { Seq::<Seq<char>>::empty() } else { seq![w.path@] },
{
    assert(recs.push(w).drop_last() =~= recs);
}

proof fn lemma_track_count_paths(recs: Seq<WalkRecord>)
    ensures
        track_count(recs, recs.len() as int) == track_paths(recs).len(),
    decreases recs.len(),
{
    if recs.len() > 0 {
        lemma_track_count_paths(recs.drop_last());
        lemma_track_count_prefix(recs, recs.len() - 1);
    }
}

proof fn lemma_track_count_prefix(recs: Seq<WalkRecord>, k: int)
    requires
        0 <= k <= recs.len(),
    ensures
        track_count(recs, k) == track_count(recs.take(k), k),
    decreases k,
{
    if k > 0 {
        lemma_track_count_prefix(recs, k - 1);
        lemma_track_count_prefix(recs.take(k), k - 1);
        assert(recs.take(k).take(k - 1) =~= recs.take(k - 1));
        assert(recs.take(k)[k - 1] == recs[k - 1]);
    }
}

/// The state of the tree builder as values: the open directories, innermost last, each with
/// its path, name and the entries found in it so far; and the finished top-level entries.
pub struct BuildView {
    pub stack: Seq<(Seq<char>, Seq<char>, Seq<EntryView>)>,
    pub roots: Seq<EntryView>,
}

/// Adds an entry to the innermost open directory, or to the top level.
pub open spec fn attach_entry(b: BuildView, e: EntryView) -> BuildView {
    if b.stack.len() > 0 {
        let top = b.stack.last();
        BuildView { stack: b.stack.drop_last().push((top.0, top.1, top.2.push(e))), ..b }
    } else {
        BuildView { roots: b.roots.push(e), ..b }
    }
}

/// Closes the innermost open directory; it is kept only if something was found in it.
pub open spec fn close_top(b: BuildView) -> BuildView {
    let top = b.stack.last();
    let rest = BuildView { stack: b.stack.drop_last(), ..b };
    if top.2.len() > 0 {
        attach_entry(rest, EntryView::Dir(top.1, top.0, top.2))
    } else {
        rest
    }
}

/// Closes the open directories that do not contain `p`, innermost first, up to the first
/// one that does.
pub open spec fn unwind_to(b: BuildView, p: Seq<char>) -> BuildView
    decreases b.stack.len(),
{
    if b.stack.len() > 0 && !path_starts_with(p, b.stack.last().0) {
        proof {
            assert(close_top(b).stack.len() == b.stack.len() - 1);
        }
        unwind_to(close_top(b), p)
    } else {
        b
    }
}

/// Closes every open directory.
pub open spec fn drain_all(b: BuildView) -> BuildView
    decreases b.stack.len(),
{
    if b.stack.len() > 0 {
        proof {
            assert(close_top(b).stack.len() == b.stack.len() - 1);
        }
        drain_all(close_top(b))
    } else {
        b
    }
}

/// The name shown for a track in the library: title, a dash, artist.
pub open spec fn track_label_of(m: TrackMetadata, strip_track_numbers: bool) -> Seq<char> {
    m.title_text(strip_track_numbers) + " - "@ + m.artist_text()
}

/// Metadata with every field empty.
pub open spec fn no_metadata() -> TrackMetadata {
    TrackMetadata {
        title: None,
        sanitized_title: None,
        artist: None,
        album: None,
        year: None,
        track_number: None,
        disc_number: None,
        duration: None,
        cover_art: None,
        lyrics: LyricsKind::NotFound,
        sample_rate: None,
        bitrate: None,
    }
}

/// The metadata of the `j`-th file record: `metas[j]`, or empty metadata past the end.
pub open spec fn meta_at(metas: Seq<TrackMetadata>, j: int) -> TrackMetadata {
    if 0 <= j < metas.len() {
        metas[j]
    } else {
        no_metadata()
    }
}

/// One record: the directories that do not contain it are closed; a directory is opened,
/// a file becomes a track entry of the innermost open directory.
pub open spec fn build_step(b: BuildView, r: WalkRecord, m: TrackMetadata, strip_track_numbers: bool) -> BuildView {
    let u = unwind_to(b, r.path@);
    if r.is_dir {
        BuildView { stack: u.stack.push((r.path@, r.name@, Seq::empty())), ..u }
    } else {
        attach_entry(u, EntryView::Track(track_label_of(m, strip_track_numbers), r.path@, m@))
    }
}

/// The builder after the first `k` records.
pub open spec fn build_prefix(recs: Seq<WalkRecord>, metas: Seq<TrackMetadata>, strip_track_numbers: bool, k: int) -> BuildView
    decreases k,
{
    if k <= 0 || k > recs.len() {
        BuildView { stack: Seq::empty(), roots: Seq::empty() }
    } else {
        build_step(
            build_prefix(recs, metas, strip_track_numbers, k - 1),
            recs[k - 1],
            meta_at(metas, track_count(recs, k - 1)),
            strip_track_numbers,
        )
    }
}

/// The library tree of the walk records: directories nest by path, empty directories are
/// dropped, and the `j`-th file record is a track with metadata `metas[j]`.
pub open spec fn library_tree(recs: Seq<WalkRecord>, metas: Seq<TrackMetadata>, strip_track_numbers: bool) -> Seq<EntryView> {
    drain_all(build_prefix(recs, metas, strip_track_numbers, recs.len() as int)).roots
}

struct Frame {
    path: String,
    name: String,
    children: Vec<LibraryEntry>,
}

spec fn frames_view(st: Seq<Frame>) -> Seq<(Seq<char>, Seq<char>, Seq<EntryView>)> {
    st.map_values(|f: Frame| (f.path@, f.name@, entries_view(f.children@)))
}

spec fn state_view(st: Seq<Frame>, roots: Seq<LibraryEntry>) -> BuildView {
    BuildView { stack: frames_view(st), roots: entries_view(roots) }
}

proof fn lemma_entries_view_push(s: Seq<LibraryEntry>, e: LibraryEntry)
    ensures
        entries_view(s.push(e)) == entries_view(s).push(entry_view(e)),
{
    assert(s.push(e).drop_last() =~= s);
}

fn attach(stack: &mut Vec<Frame>, roots: &mut Vec<LibraryEntry>, e: LibraryEntry)
    ensures
        state_view(final(stack)@, final(roots)@) == attach_entry(state_view(old(stack)@, old(roots)@), entry_view(e)),
        final(stack)@.len() == old(stack)@.len(),
{
    if stack.len() > 0 {
        let ghost before = stack@;
        let mut top = stack.pop().unwrap();
        let ghost oldc = top.children@;
        top.children.push(e);
        proof {
            lemma_entries_view_push(oldc, e);
        }
        stack.push(top);
        assert(frames_view(stack@) =~= frames_view(before).drop_last().push((top.path@, top.name@, entries_view(oldc).push(entry_view(e)))));
    } else {
        let ghost oldr = roots@;
        roots.push(e);
        proof {
            lemma_entries_view_push(oldr, e);
        }
        assert(frames_view(stack@) =~= frames_view(old(stack)@));
    }
}

fn close_innermost(stack: &mut Vec<Frame>, roots: &mut Vec<LibraryEntry>)
    requires
        old(stack)@.len() > 0,
    ensures
        state_view(final(stack)@, final(roots)@) == close_top(state_view(old(stack)@, old(roots)@)),
        final(stack)@.len() == old(stack)@.len() - 1,
{
    let top = stack.pop().unwrap();
    assert(frames_view(stack@) =~= frames_view(old(stack)@).drop_last());
    if top.children.len() > 0 {
        let ghost cv = entries_view(top.children@);
        let d = LibraryEntry::Directory { name: top.name, path: top.path, children: top.children };
        assert(entry_view(d) == EntryView::Dir(frames_view(old(stack)@).last().1, frames_view(old(stack)@).last().0, cv));
        attach(stack, roots, d);
    }
}

fn unwind(stack: &mut Vec<Frame>, roots: &mut Vec<LibraryEntry>, p: &str)
    ensures
        state_view(final(stack)@, final(roots)@) == unwind_to(state_view(old(stack)@, old(roots)@), p@),
{
    while stack.len() > 0 && !starts_with_path(p, stack[stack.len() - 1].path.as_str())
        invariant
            unwind_to(state_view(stack@, roots@), p@) == unwind_to(state_view(old(stack)@, old(roots)@), p@),
        decreases stack@.len(),
    {
        proof {
            assert(frames_view(stack@).last().0 == stack@.last().path@);
        }
        close_innermost(stack, roots);
    }
    proof {
        if stack@.len() > 0 {
            assert(frames_view(stack@).last().0 == stack@.last().path@);
        }
    }
}

/// Builds the library tree from the walk records (see `library_tree`) and arranges it (see
/// `arranged`): hidden entries left out, empty directories dropped, siblings in order of
/// their lowercase file names. `metas[j]` is the metadata read for the `j`-th file record; a
/// file record past the end of `metas` gets empty metadata.
#[verifier::loop_isolation(false)]
pub fn build_library(records: Vec<WalkRecord>, metas: Vec<TrackMetadata>, strip_track_numbers: bool) -> (r: Vec<LibraryEntry>)
    ensures
        entries_view(r@) == arranged(library_tree(records@, metas@, strip_track_numbers)),
        well_arranged(entries_view(r@)),
        tracks_labelled(entries_view(r@), strip_track_numbers),
        forall|x: (Seq<char>, MetaView)| #[trigger] view_tracks(entries_view(r@)).contains(x)
            ==> walk_tracks(records@, metas@, records@.len() as int).contains(x),
        (forall|i: int| 0 <= i < records@.len() ==> !hidden_path(#[trigger] records@[i].path@)) ==> forall|x: (Seq<char>, MetaView)|
            #[trigger] walk_tracks(records@, metas@, records@.len() as int).contains(x) ==> view_tracks(entries_view(r@)).contains(x),
{
    let ghost recs = records@;
    let ghost ms = metas@;
    let n = records.len();
    let mut rest = crate::enqueue::reversed(records);
    let mut mrest = crate::enqueue::reversed(metas);
    let mut stack: Vec<Frame> = Vec::new();
    let mut roots: Vec<LibraryEntry> = Vec::new();
    let mut k: usize = 0;
    assert(recs.skip(0).reverse() =~= recs.reverse());
    assert(ms.skip(0).reverse() =~= ms.reverse());
    assert(frames_view(stack@) =~= Seq::<(Seq<char>, Seq<char>, Seq<EntryView>)>::empty());
    assert(entries_view(roots@) =~= Seq::<EntryView>::empty());
    while k < n
        invariant
            n == recs.len(),
            k <= n,
            rest@ == recs.skip(k as int).reverse(),
            ({
                let t = track_count(recs, k as int);
                mrest@ == ms.skip(if t <= ms.len() { t } else { ms.len() as int }).reverse()
            }),
            0 <= track_count(recs, k as int) <= k,
            state_view(stack@, roots@) == build_prefix(recs, ms, strip_track_numbers, k as int),
        decreases n - k,
    {
        let ghost before_rest = rest@;
        let rec = rest.pop().unwrap();
        proof {
            assert(before_rest.last() == recs[k as int]);
            assert(rest@ =~= recs.skip(k + 1).reverse());
        }
        unwind(&mut stack, &mut roots, rec.path.as_str());
        if rec.is_dir {
            let ghost before = stack@;
            stack.push(Frame { path: rec.path, name: rec.name, children: Vec::new() });
            assert(entries_view(Seq::<LibraryEntry>::empty()) =~= Seq::<EntryView>::empty());
            assert(frames_view(stack@) =~= frames_view(before).push((recs[k as int].path@, recs[k as int].name@, Seq::<EntryView>::empty())));
        } else {
            let ghost t = track_count(recs, k as int);
            let ghost before_m = mrest@;
            let meta = if mrest.len() > 0 {
                let m = mrest.pop().unwrap();
                proof {
                    assert(t < ms.len());
                    assert(before_m.last() == ms[t]);
                    assert(mrest@ =~= ms.skip(t + 1).reverse());
                }
                m
            } else {
                let m = TrackMetadata::empty();
                proof {
                    assert(t >= ms.len());
                    assert(m == no_metadata());
                }
                m
            };
            let mut label = String::from_str(meta.display_title(strip_track_numbers));
            label.append(" - ");
            label.append(meta.display_artist());
            let e = LibraryEntry::Track { name: label, path: rec.path, metadata: meta };
            attach(&mut stack, &mut roots, e);
        }
        k = k + 1;
    }
    while stack.len() > 0
        invariant
            drain_all(state_view(stack@, roots@)) == drain_all(build_prefix(recs, ms, strip_track_numbers, n as int)),
        decreases stack@.len(),
    {
        close_innermost(&mut stack, &mut roots);
    }
    assert(entries_view(roots@) == library_tree(recs, ms, strip_track_numbers));
    proof {
        lemma_library_labels(recs, ms, strip_track_numbers);
        lemma_library_tracks_from_walk(recs, ms, strip_track_numbers);
        if forall|i: int| 0 <= i < recs.len() ==> !hidden_path(#[trigger] recs[i].path@) {
            lemma_visible_tracks_kept(recs, ms, strip_track_numbers);
        }
    }
    arrange_library(roots.as_slice())
}


/// The path of an entry.
pub open spec fn view_path(e: EntryView) -> Seq<char> {
    match e {
        EntryView::Dir(_, p, _) => p,
        EntryView::Track(_, p, _) => p,
    }
}

/// The last component of an entry's path (empty when the path has none).
pub open spec fn file_name(e: EntryView) -> Seq<char> {
    match path_file_name(view_path(e)) {
        Some(n) => n,
        None => Seq::empty(),
    }
}

/// A hidden entry: its file name starts with `.`.
pub open spec fn is_hidden(e: EntryView) -> bool {
    file_name(e).len() > 0 && file_name(e)[0] == '.'
}

/// The key by which siblings are ordered: the lowercase file name.
pub open spec fn sibling_key(e: EntryView) -> Seq<char> {
    lowercase(file_name(e))
}

/// Where a stable insertion puts `x` into `s`: before the first entry with a larger key.
pub open spec fn sibling_position(x: EntryView, s: Seq<EntryView>) -> int
    decreases s.len(),
{
    if s.len() == 0 {
        0
    } else if chars_before(sibling_key(x), sibling_key(s[0])) {
        0
    } else {
        1 + sibling_position(x, s.drop_first())
    }
}

/// `s` ordered by lowercase file name; siblings with equal keys keep their order.
pub open spec fn sorted_siblings(s: Seq<EntryView>) -> Seq<EntryView>
    decreases s.len(),
{
    if s.len() == 0 {
        s
    } else {
        let r = sorted_siblings(s.drop_last());
        r.insert(sibling_position(s.last(), r), s.last())
    }
}

/// The entries left of `es` once hidden entries (with everything under them) are removed and
/// directories left without entries are dropped; the entries of each directory are sorted.
pub open spec fn pruned(es: Seq<EntryView>) -> Seq<EntryView>
    decreases es,
{
    if es.len() == 0 {
        Seq::empty()
    } else {
        pruned(es.drop_last()) + pruned_one(es.last())
    }
}

/// What is left of one entry (nothing, or the entry with its directory arranged).
pub open spec fn pruned_one(e: EntryView) -> Seq<EntryView>
    decreases e,
{
    if is_hidden(e) {
        Seq::empty()
    } else {
        match e {
            EntryView::Dir(n, p, cs) => {
                let c = sorted_siblings(pruned(cs));
                if c.len() == 0 {
                    Seq::empty()
                } else {
                    seq![EntryView::Dir(n, p, c)]
                }
            },
            EntryView::Track(..) => seq![e],
        }
    }
}

/// The library as shown: hidden entries removed, empty directories dropped, siblings sorted
/// by lowercase file name at every level.
pub open spec fn arranged(es: Seq<EntryView>) -> Seq<EntryView> {
    sorted_siblings(pruned(es))
}

/// At every level: siblings ordered by lowercase file name, no hidden entry, no empty
/// directory.
pub open spec fn well_arranged(es: Seq<EntryView>) -> bool
    decreases es,
{
    &&& forall|i: int, j: int| 0 <= i < j < es.len() ==> !chars_before(sibling_key(#[trigger] es[j]), sibling_key(#[trigger] es[i]))
    &&& forall|i: int| 0 <= i < es.len() ==> !is_hidden(#[trigger] es[i])
    &&& forall|i: int| 0 <= i < es.len() ==> (#[trigger] es[i] matches EntryView::Dir(_, _, cs) ==> cs.len() > 0 && well_arranged_dir(es[i]))
}

pub open spec fn well_arranged_dir(e: EntryView) -> bool
    decreases e,
{
    match e {
        EntryView::Dir(_, _, cs) => well_arranged(cs),
        EntryView::Track(..) => true,
    }
}

fn sibling_key_of(e: &LibraryEntry) -> (r: Vec<char>)
    ensures
        r@ == sibling_key(entry_view(*e)),
{
    let path = match e {
        LibraryEntry::Directory { path, .. } => path,
        LibraryEntry::Track { path, .. } => path,
    };
    let name = match file_name_of(path.as_str()) {
        Some(n) => n,
        None => String::new(),
    };
    chars_of(lowercase_of(name.as_str()).as_str())
}

fn is_hidden_of(e: &LibraryEntry) -> (r: bool)
    ensures
        r == is_hidden(entry_view(*e)),
{
    let path = match e {
        LibraryEntry::Directory { path, .. } => path,
        LibraryEntry::Track { path, .. } => path,
    };
    match file_name_of(path.as_str()) {
        Some(n) => {
            let v = chars_of(n.as_str());
            v.len() > 0 && v[0] == '.'
        },
        None => false,
    }
}

/// Sorts entries by lowercase file name, stably.
fn sort_siblings(es: Vec<LibraryEntry>) -> (r: Vec<LibraryEntry>)
    ensures
        entries_view(r@) == sorted_siblings(entries_view(es@)),
{
    let ghost input = entries_view(es@);
    let ghost orig = es@;
    let n = es.len();
    let mut src = crate::enqueue::reversed(es);
    let mut out: Vec<LibraryEntry> = Vec::new();
    let mut keys: Vec<Vec<char>> = Vec::new();
    let mut i: usize = 0;
    assert(orig.skip(0).reverse() =~= orig.reverse());
    assert(entries_view(orig.take(0)) =~= Seq::<EntryView>::empty());
    assert(entries_view(out@) =~= Seq::<EntryView>::empty());
    while src.len() > 0
        invariant
            i <= orig.len(),
            n == orig.len(),
            i + src@.len() == orig.len(),
            src@ == orig.skip(i as int).reverse(),
            input == entries_view(orig),
            keys@.len() == out@.len(),
            entries_view(out@) == sorted_siblings(entries_view(orig.take(i as int))),
            forall|k: int| 0 <= k < keys@.len() ==> #[trigger] keys@[k]@ == sibling_key(entry_view(out@[k])),
        decreases src@.len(),
    {
        let ghost before_src = src@;
        let e = src.pop().unwrap();
        proof {
            assert(before_src.last() == orig[i as int]);
            assert(src@ =~= orig.skip(i + 1).reverse());
        }
        let ghost cur = entries_view(out@);
        let ghost ev = entry_view(e);
        proof {
            lemma_entries_view_index(out@);
        }
        let key = sibling_key_of(&e);
        let mut p: usize = 0;
        assert(cur.skip(0) =~= cur);
        while p < keys.len() && !chars_before_of(&key, &keys[p])
            invariant
                p <= keys@.len(),
                keys@.len() == cur.len(),
                key@ == sibling_key(ev),
                forall|k: int| 0 <= k < keys@.len() ==> #[trigger] keys@[k]@ == sibling_key(cur[k]),
                sibling_position(ev, cur) == p + sibling_position(ev, cur.skip(p as int)),
            decreases keys@.len() - p,
        {
            assert(cur.skip(p as int).drop_first() =~= cur.skip(p + 1));
            assert(cur.skip(p as int)[0] == cur[p as int]);
            p = p + 1;
        }
        proof {
            if p < keys.len() {
                assert(cur.skip(p as int)[0] == cur[p as int]);
            }
        }
        let ghost old_keys = keys@;
        let ghost old_out = out@;
        out.insert(p, e);
        keys.insert(p, key);
        proof {
            assert(orig.take(i + 1).drop_last() =~= orig.take(i as int));
            lemma_entries_view_push(orig.take(i as int), orig[i as int]);
            assert(orig.take(i as int).push(orig[i as int]) =~= orig.take(i + 1));
            let iv = entries_view(orig.take(i + 1));
            assert(iv.drop_last() =~= entries_view(orig.take(i as int)));
            assert(iv.last() == ev);
            assert(sibling_position(ev, cur) == p);
            lemma_entries_view_index(out@);
            lemma_entries_view_index(old_out);
            assert(entries_view(out@) =~= cur.insert(p as int, ev));
            assert forall|k: int| 0 <= k < keys@.len() implies #[trigger] keys@[k]@ == sibling_key(entry_view(out@[k])) by {
                if k < p {
                    assert(keys@[k] == old_keys[k] && out@[k] == old_out[k]);
                } else if k > p {
                    assert(keys@[k] == old_keys[k - 1] && out@[k] == old_out[k - 1]);
                }
            }
        }
        i = i + 1;
    }
    assert(orig.take(orig.len() as int) =~= orig);
    out
}

proof fn lemma_entries_view_index(s: Seq<LibraryEntry>)
    ensures
        entries_view(s).len() == s.len(),
        forall|k: int| 0 <= k < s.len() ==> #[trigger] entries_view(s)[k] == entry_view(s[k]),
    decreases s.len(),
{
    if s.len() > 0 {
        lemma_entries_view_index(s.drop_last());
        assert forall|k: int| 0 <= k < s.len() implies #[trigger] entries_view(s)[k] == entry_view(s[k]) by {
            if k < s.len() - 1 {
                assert(s.drop_last()[k] == s[k]);
            }
        }
    }
}

/// `pruned` of the entries: hidden entries removed, directories arranged, empty ones dropped.
fn prune(entries: &[LibraryEntry]) -> (r: Vec<LibraryEntry>)
    ensures
        entries_view(r@) == pruned(entries_view(entries@)),
    decreases entries@,
{
    let mut out: Vec<LibraryEntry> = Vec::new();
    let mut i: usize = 0;
    assert(entries_view(entries@.take(0)) =~= Seq::<EntryView>::empty());
    assert(entries_view(out@) =~= Seq::<EntryView>::empty());
    while i < entries.len()
        invariant
            i <= entries@.len(),
            entries_view(out@) == pruned(entries_view(entries@.take(i as int))),
        decreases entries@.len() - i,
    {
        let e = &entries[i];
        let ghost ev = entry_view(*e);
        let ghost before = entries_view(out@);
        proof {
            assert(entries@.take(i + 1) =~= entries@.take(i as int).push(entries@[i as int]));
            lemma_entries_view_push(entries@.take(i as int), entries@[i as int]);
            let tv = entries_view(entries@.take(i + 1));
            assert(tv.drop_last() =~= entries_view(entries@.take(i as int)));
            assert(tv.last() == ev);
        }
        if !is_hidden_of(e) {
            match e {
                LibraryEntry::Directory { name, path, children } => {
                    proof {
                        assert(decreases_to!(entries@ => entries@[i as int]));
                        assert(decreases_to!(entries@[i as int] => *children));
                        assert(decreases_to!(*children => children@));
                    }
                    let c = sort_siblings(prune(children.as_slice()));
                    if c.len() > 0 {
                        let d = LibraryEntry::Directory { name: name.clone(), path: path.clone(), children: c };
                        let ghost prev = out@;
                        let ghost dv = entry_view(d);
                        out.push(d);
                        proof {
                            lemma_entries_view_push(prev, out@.last());
                            assert(out@ =~= prev.push(out@.last()));
                            assert(pruned_one(ev) == seq![dv]);
                        }
                        assert(entries_view(out@) =~= before + pruned_one(ev));
                    } else {
                        assert(pruned_one(ev) =~= Seq::<EntryView>::empty());
                        assert(before + pruned_one(ev) =~= before);
                    }
                },
                LibraryEntry::Track { .. } => {
                    let ghost prev = out@;
                    out.push(e.duplicate());
                    proof {
                        lemma_entries_view_push(prev, out@.last());
                        assert(out@ =~= prev.push(out@.last()));
                    }
                    assert(entries_view(out@) =~= before + pruned_one(ev));
                },
            }
        } else {
            assert(before + pruned_one(ev) =~= before);
        }
        i = i + 1;
    }
    assert(entries@.take(entries@.len() as int) =~= entries@);
    out
}

/// What each entry of an arranged level satisfies: it is not hidden, and a directory has
/// entries, themselves arranged.
pub open spec fn entry_arranged(e: EntryView) -> bool {
    !is_hidden(e) && (e matches EntryView::Dir(_, _, cs) ==> cs.len() > 0 && well_arranged_dir(e))
}

proof fn lemma_sibling_position_range(x: EntryView, s: Seq<EntryView>)
    ensures
        0 <= sibling_position(x, s) <= s.len(),
        forall|i: int| 0 <= i < sibling_position(x, s) ==> !chars_before(sibling_key(x), sibling_key(#[trigger] s[i])),
        sibling_position(x, s) < s.len() ==> chars_before(sibling_key(x), sibling_key(s[sibling_position(x, s)])),
    decreases s.len(),
{
    if s.len() > 0 && !chars_before(sibling_key(x), sibling_key(s[0])) {
        lemma_sibling_position_range(x, s.drop_first());
        assert forall|i: int| 0 <= i < sibling_position(x, s) implies !chars_before(sibling_key(x), sibling_key(#[trigger] s[i])) by {
            if i > 0 {
                assert(s[i] == s.drop_first()[i - 1]);
            }
        }
    }
}

/// Sorting siblings orders them by key and keeps every property that all of them had.
proof fn lemma_sorted_siblings(s: Seq<EntryView>)
    ensures
        sorted_siblings(s).len() == s.len(),
        forall|i: int, j: int| 0 <= i < j < sorted_siblings(s).len() ==>
            !chars_before(sibling_key(#[trigger] sorted_siblings(s)[j]), sibling_key(#[trigger] sorted_siblings(s)[i])),
        forall|k: int| 0 <= k < sorted_siblings(s).len() ==> exists|m: int| 0 <= m < s.len() && #[trigger] sorted_siblings(s)[k] == s[m],
    decreases s.len(),
{
    if s.len() > 0 {
        let r = sorted_siblings(s.drop_last());
        lemma_sorted_siblings(s.drop_last());
        let x = s.last();
        let p = sibling_position(x, r);
        lemma_sibling_position_range(x, r);
        let t = r.insert(p, x);
        assert(sorted_siblings(s) == t);
        assert forall|i: int, j: int| 0 <= i < j < t.len() implies !chars_before(sibling_key(#[trigger] t[j]), sibling_key(#[trigger] t[i])) by {
            if j < p {
                assert(t[i] == r[i] && t[j] == r[j]);
            } else if j == p {
                assert(t[i] == r[i] && t[j] == x);
                lemma_chars_order(sibling_key(r[i]), sibling_key(x), sibling_key(x));
            } else if i < p {
                assert(t[i] == r[i] && t[j] == r[j - 1]);
            } else if i == p {
                assert(t[i] == x && t[j] == r[j - 1]);
                lemma_chars_order(sibling_key(x), sibling_key(r[p]), sibling_key(r[j - 1]));
                lemma_chars_order(sibling_key(r[j - 1]), sibling_key(x), sibling_key(r[p]));
                if j - 1 > p {
                    assert(!chars_before(sibling_key(r[j - 1]), sibling_key(r[p])));
                }
            } else {
                assert(t[i] == r[i - 1] && t[j] == r[j - 1]);
            }
        }
        assert forall|k: int| 0 <= k < t.len() implies exists|m: int| 0 <= m < s.len() && #[trigger] t[k] == s[m] by {
            if k < p {
                assert(t[k] == r[k]);
                let m = choose|m: int| 0 <= m < s.drop_last().len() && r[k] == s.drop_last()[m];
                assert(s[m] == s.drop_last()[m]);
            } else if k == p {
                assert(t[k] == s[s.len() - 1]);
            } else {
                assert(t[k] == r[k - 1]);
                let m = choose|m: int| 0 <= m < s.drop_last().len() && r[k - 1] == s.drop_last()[m];
                assert(s[m] == s.drop_last()[m]);
            }
        }
    }
}

proof fn lemma_pruned_entries(es: Seq<EntryView>)
    ensures
        forall|k: int| 0 <= k < pruned(es).len() ==> entry_arranged(#[trigger] pruned(es)[k]),
    decreases es, 0int,
{
    if es.len() > 0 {
        lemma_pruned_entries(es.drop_last());
        let a = pruned(es.drop_last());
        let b = pruned_one(es.last());
        let e = es.last();
        if !is_hidden(e) {
            match e {
                EntryView::Dir(n, p, cs) => {
                    assert(decreases_to!(es => es.last()));
                    lemma_arranged(cs);
                    let c = sorted_siblings(pruned(cs));
                    if c.len() > 0 {
                        assert(b == seq![EntryView::Dir(n, p, c)]);
                        assert(entry_arranged(EntryView::Dir(n, p, c)));
                    }
                },
                EntryView::Track(..) => {},
            }
        }
        assert forall|k: int| 0 <= k < pruned(es).len() implies entry_arranged(#[trigger] pruned(es)[k]) by {
            assert(pruned(es) == a + b);
            if k >= a.len() {
                assert(pruned(es)[k] == b[k - a.len()]);
            } else {
                assert(pruned(es)[k] == a[k]);
            }
        }
    }
}

/// An arranged level holds no hidden entry and no empty directory, and its siblings are in
/// order, at every depth.
pub proof fn lemma_arranged(es: Seq<EntryView>)
    ensures
        well_arranged(arranged(es)),
    decreases es, 1int,
{
    lemma_pruned_entries(es);
    let p = pruned(es);
    lemma_sorted_siblings(p);
    let t = sorted_siblings(p);
    assert forall|i: int| 0 <= i < t.len() implies entry_arranged(#[trigger] t[i]) by {
        let m = choose|m: int| 0 <= m < p.len() && t[i] == p[m];
        assert(entry_arranged(p[m]));
    }
    assert forall|i: int| 0 <= i < t.len() implies !is_hidden(#[trigger] t[i]) by {
        assert(entry_arranged(t[i]));
    }
    assert forall|i: int| 0 <= i < t.len() implies (#[trigger] t[i] matches EntryView::Dir(_, _, cs) ==> cs.len() > 0 && well_arranged_dir(t[i])) by {
        assert(entry_arranged(t[i]));
    }
}

/// Arranges the library: hidden entries (file names starting with `.`, with everything
/// under them) are removed, directories left without entries are dropped, and at every level
/// siblings are sorted by lowercase file name, keeping the order of equal names.
pub fn arrange_library(entries: &[LibraryEntry]) -> (r: Vec<LibraryEntry>)
    ensures
        entries_view(r@) == arranged(entries_view(entries@)),
        well_arranged(entries_view(r@)),
{
    proof {
        lemma_arranged(entries_view(entries@));
    }
    sort_siblings(prune(entries))
}

/// The tracks of a level of the tree, depth first in tree order: path and metadata.
pub open spec fn view_tracks(es: Seq<EntryView>) -> Seq<(Seq<char>, MetaView)>
    decreases es,
{
    if es.len() == 0 {
        Seq::empty()
    } else {
        view_tracks(es.drop_last()) + view_entry_tracks(es.last())
    }
}

pub open spec fn view_entry_tracks(e: EntryView) -> Seq<(Seq<char>, MetaView)>
    decreases e,
{
    match e {
        EntryView::Dir(_, _, cs) => view_tracks(cs),
        EntryView::Track(_, p, m) => seq![(p, m)],
    }
}

/// The file records among the first `k` records of a walk, in order, each with the metadata
/// read for it: the `j`-th file record gets `metas[j]`, or empty metadata past the end.
pub open spec fn walk_tracks(recs: Seq<WalkRecord>, metas: Seq<TrackMetadata>, k: int) -> Seq<(Seq<char>, MetaView)>
    decreases k,
{
    if k <= 0 || k > recs.len() {
        Seq::empty()
    } else {
        walk_tracks(recs, metas, k - 1) + if recs[k - 1].is_dir {
            Seq::<(Seq<char>, MetaView)>::empty()
        } else {
            seq![(recs[k - 1].path@, meta_at(metas, track_count(recs, k - 1))@)]
        }
    }
}

/// The tracks held by the open directories, outermost first.
spec fn stack_tracks(st: Seq<(Seq<char>, Seq<char>, Seq<EntryView>)>) -> Seq<(Seq<char>, MetaView)>
    decreases st.len(),
{
    if st.len() == 0 {
        Seq::empty()
    } else {
        stack_tracks(st.drop_last()) + view_tracks(st.last().2)
    }
}

/// Every track the builder holds, in walk order: the finished entries, then the open
/// directories from the outermost in.
spec fn builder_tracks(b: BuildView) -> Seq<(Seq<char>, MetaView)> {
    view_tracks(b.roots) + stack_tracks(b.stack)
}

proof fn lemma_view_tracks_push(es: Seq<EntryView>, e: EntryView)
    ensures
        view_tracks(es.push(e)) == view_tracks(es) + view_entry_tracks(e),
{
    assert(es.push(e).drop_last() =~= es);
}

proof fn lemma_attach_tracks(b: BuildView, e: EntryView)
    ensures
        builder_tracks(attach_entry(b, e)) == builder_tracks(b) + view_entry_tracks(e),
{
    if b.stack.len() > 0 {
        let top = b.stack.last();
        let st = b.stack.drop_last().push((top.0, top.1, top.2.push(e)));
        assert(st.drop_last() =~= b.stack.drop_last());
        lemma_view_tracks_push(top.2, e);
        assert(stack_tracks(st) == stack_tracks(b.stack.drop_last()) + view_tracks(top.2.push(e)));
        assert(stack_tracks(b.stack) == stack_tracks(b.stack.drop_last()) + view_tracks(top.2));
        assert(builder_tracks(attach_entry(b, e)) =~= builder_tracks(b) + view_entry_tracks(e));
    } else {
        lemma_view_tracks_push(b.roots, e);
        assert(stack_tracks(b.stack) =~= Seq::<(Seq<char>, MetaView)>::empty());
        assert(builder_tracks(attach_entry(b, e)) =~= builder_tracks(b) + view_entry_tracks(e));
    }
}

proof fn lemma_close_tracks(b: BuildView)
    requires
        b.stack.len() > 0,
    ensures
        builder_tracks(close_top(b)) == builder_tracks(b),
{
    let top = b.stack.last();
    let rest = BuildView { stack: b.stack.drop_last(), ..b };
    assert(stack_tracks(b.stack) == stack_tracks(b.stack.drop_last()) + view_tracks(top.2));
    if top.2.len() > 0 {
        lemma_attach_tracks(rest, EntryView::Dir(top.1, top.0, top.2));
        assert(builder_tracks(close_top(b)) =~= builder_tracks(b));
    } else {
        assert(view_tracks(top.2) =~= Seq::<(Seq<char>, MetaView)>::empty());
        assert(builder_tracks(close_top(b)) =~= builder_tracks(b));
    }
}

proof fn lemma_unwind_tracks(b: BuildView, p: Seq<char>)
    ensures
        builder_tracks(unwind_to(b, p)) == builder_tracks(b),
    decreases b.stack.len(),
{
    if b.stack.len() > 0 && !path_starts_with(p, b.stack.last().0) {
        lemma_close_tracks(b);
        assert(close_top(b).stack.len() == b.stack.len() - 1);
        lemma_unwind_tracks(close_top(b), p);
    }
}

proof fn lemma_drain_tracks(b: BuildView)
    ensures
        builder_tracks(drain_all(b)) == builder_tracks(b),
        drain_all(b).stack.len() == 0,
    decreases b.stack.len(),
{
    if b.stack.len() > 0 {
        lemma_close_tracks(b);
        assert(close_top(b).stack.len() == b.stack.len() - 1);
        lemma_drain_tracks(close_top(b));
    }
}

proof fn lemma_prefix_tracks(recs: Seq<WalkRecord>, metas: Seq<TrackMetadata>, strip: bool, k: int)
    requires
        0 <= k <= recs.len(),
    ensures
        builder_tracks(build_prefix(recs, metas, strip, k)) == walk_tracks(recs, metas, k),
    decreases k,
{
    if k == 0 {
        assert(builder_tracks(build_prefix(recs, metas, strip, k)) =~= Seq::<(Seq<char>, MetaView)>::empty());
    } else {
        let b = build_prefix(recs, metas, strip, k - 1);
        lemma_prefix_tracks(recs, metas, strip, k - 1);
        let r = recs[k - 1];
        let m = meta_at(metas, track_count(recs, k - 1));
        let u = unwind_to(b, r.path@);
        lemma_unwind_tracks(b, r.path@);
        if r.is_dir {
            let st = u.stack.push((r.path@, r.name@, Seq::<EntryView>::empty()));
            assert(st.drop_last() =~= u.stack);
            assert(view_tracks(Seq::<EntryView>::empty()) =~= Seq::<(Seq<char>, MetaView)>::empty());
            assert(stack_tracks(st) =~= stack_tracks(u.stack));
            assert(walk_tracks(recs, metas, k) =~= walk_tracks(recs, metas, k - 1));
        } else {
            lemma_attach_tracks(u, EntryView::Track(track_label_of(m, strip), r.path@, m@));
        }
    }
}

/// Building the tree loses and invents no track: its tracks, depth first, are the file records
/// of the walk in walk order, the `j`-th with the metadata `metas[j]` read for it (before
/// hidden entries are left out and siblings are sorted).
pub proof fn lemma_library_tree_tracks(recs: Seq<WalkRecord>, metas: Seq<TrackMetadata>, strip_track_numbers: bool)
    ensures
        view_tracks(library_tree(recs, metas, strip_track_numbers)) == walk_tracks(recs, metas, recs.len() as int),
{
    let b = build_prefix(recs, metas, strip_track_numbers, recs.len() as int);
    lemma_prefix_tracks(recs, metas, strip_track_numbers, recs.len() as int);
    lemma_drain_tracks(b);
    assert(stack_tracks(drain_all(b).stack) =~= Seq::<(Seq<char>, MetaView)>::empty());
    assert(builder_tracks(drain_all(b)) =~= view_tracks(drain_all(b).roots));
}

proof fn lemma_view_tracks_concat(a: Seq<EntryView>, b: Seq<EntryView>)
    ensures
        view_tracks(a + b) == view_tracks(a) + view_tracks(b),
    decreases b.len(),
{
    if b.len() == 0 {
        assert(a + b =~= a);
        assert(view_tracks(a) + view_tracks(b) =~= view_tracks(a));
    } else {
        lemma_view_tracks_concat(a, b.drop_last());
        assert((a + b).drop_last() =~= a + b.drop_last());
        assert((a + b).last() == b.last());
        assert(view_tracks(a + b) =~= view_tracks(a) + view_tracks(b));
    }
}

/// A track is held by a level exactly when it is held by one of its entries.
proof fn lemma_view_tracks_member(es: Seq<EntryView>, x: (Seq<char>, MetaView))
    ensures
        view_tracks(es).contains(x) <==> exists|i: int| 0 <= i < es.len() && view_entry_tracks(#[trigger] es[i]).contains(x),
    decreases es.len(),
{
    if es.len() > 0 {
        let pre = es.drop_last();
        lemma_view_tracks_member(pre, x);
        let a = view_tracks(pre);
        let b = view_entry_tracks(es.last());
        assert(view_tracks(es) == a + b);
        if view_tracks(es).contains(x) {
            let k = choose|k: int| 0 <= k < (a + b).len() && (a + b)[k] == x;
            if k < a.len() {
                assert(a[k] == x);
                assert(a.contains(x));
                let i = choose|i: int| 0 <= i < pre.len() && view_entry_tracks(#[trigger] pre[i]).contains(x);
                assert(pre[i] == es[i]);
            } else {
                assert(b[k - a.len()] == x);
                assert(es[es.len() - 1] == es.last());
            }
        }
        if exists|i: int| 0 <= i < es.len() && view_entry_tracks(#[trigger] es[i]).contains(x) {
            let i = choose|i: int| 0 <= i < es.len() && view_entry_tracks(#[trigger] es[i]).contains(x);
            if i < pre.len() {
                assert(pre[i] == es[i]);
                assert(a.contains(x));
                let k = choose|k: int| 0 <= k < a.len() && a[k] == x;
                assert((a + b)[k] == x);
            } else {
                assert(es[i] == es.last());
                let k = choose|k: int| 0 <= k < b.len() && b[k] == x;
                assert((a + b)[a.len() + k] == x);
            }
        }
    }
}

proof fn lemma_sorted_tracks_within(es: Seq<EntryView>, x: (Seq<char>, MetaView))
    requires
        view_tracks(sorted_siblings(es)).contains(x),
    ensures
        view_tracks(es).contains(x),
{
    lemma_sorted_siblings(es);
    let t = sorted_siblings(es);
    lemma_view_tracks_member(t, x);
    let i = choose|i: int| 0 <= i < t.len() && view_entry_tracks(#[trigger] t[i]).contains(x);
    let m = choose|m: int| 0 <= m < es.len() && t[i] == es[m];
    assert(view_entry_tracks(es[m]).contains(x));
    lemma_view_tracks_member(es, x);
}

proof fn lemma_pruned_tracks_within(es: Seq<EntryView>, x: (Seq<char>, MetaView))
    requires
        view_tracks(pruned(es)).contains(x),
    ensures
        view_tracks(es).contains(x),
    decreases es, 0int,
{
    if es.len() > 0 {
        let pre = es.drop_last();
        let e = es.last();
        let a = pruned(pre);
        let b = pruned_one(e);
        assert(pruned(es) == a + b);
        lemma_view_tracks_concat(a, b);
        assert(view_tracks(es) == view_tracks(pre) + view_entry_tracks(e));
        let va = view_tracks(a);
        let vb = view_tracks(b);
        let k = choose|k: int| 0 <= k < (va + vb).len() && (va + vb)[k] == x;
        if k < va.len() {
            assert(va[k] == x);
            lemma_pruned_tracks_within(pre, x);
            let j = choose|j: int| 0 <= j < view_tracks(pre).len() && view_tracks(pre)[j] == x;
            assert((view_tracks(pre) + view_entry_tracks(e))[j] == x);
        } else {
            assert(vb[k - va.len()] == x);
            assert(vb.contains(x));
            assert(!is_hidden(e));
            match e {
                EntryView::Dir(n, p, cs) => {
                    let c = sorted_siblings(pruned(cs));
                    assert(c.len() > 0);
                    assert(b == seq![EntryView::Dir(n, p, c)]);
                    lemma_view_tracks_push(Seq::<EntryView>::empty(), EntryView::Dir(n, p, c));
                    assert(seq![EntryView::Dir(n, p, c)] =~= Seq::<EntryView>::empty().push(EntryView::Dir(n, p, c)));
                    assert(view_tracks(Seq::<EntryView>::empty()) =~= Seq::<(Seq<char>, MetaView)>::empty());
                    assert(vb =~= view_tracks(c));
                    assert(decreases_to!(es => es.last()));
                    lemma_arranged_tracks_within(cs, x);
                },
                EntryView::Track(..) => {
                    assert(b == seq![e]);
                    lemma_view_tracks_push(Seq::<EntryView>::empty(), e);
                    assert(seq![e] =~= Seq::<EntryView>::empty().push(e));
                    assert(view_tracks(Seq::<EntryView>::empty()) =~= Seq::<(Seq<char>, MetaView)>::empty());
                    assert(vb =~= view_entry_tracks(e));
                },
            }
            let j = choose|j: int| 0 <= j < view_entry_tracks(e).len() && view_entry_tracks(e)[j] == x;
            assert((view_tracks(pre) + view_entry_tracks(e))[view_tracks(pre).len() + j] == x);
        }
    }
}

proof fn lemma_arranged_tracks_within(es: Seq<EntryView>, x: (Seq<char>, MetaView))
    requires
        view_tracks(arranged(es)).contains(x),
    ensures
        view_tracks(es).contains(x),
    decreases es, 1int,
{
    lemma_sorted_tracks_within(pruned(es), x);
    lemma_pruned_tracks_within(es, x);
}

/// Every track of the library built from a walk is one of the walk's audio files, with the
/// metadata read for it: building and arranging invent no track.
pub proof fn lemma_library_tracks_from_walk(recs: Seq<WalkRecord>, metas: Seq<TrackMetadata>, strip_track_numbers: bool)
    ensures
        forall|x: (Seq<char>, MetaView)| #[trigger] view_tracks(arranged(library_tree(recs, metas, strip_track_numbers))).contains(x)
            ==> walk_tracks(recs, metas, recs.len() as int).contains(x),
{
    lemma_library_tree_tracks(recs, metas, strip_track_numbers);
    assert forall|x: (Seq<char>, MetaView)| #[trigger] view_tracks(arranged(library_tree(recs, metas, strip_track_numbers))).contains(x)
        implies walk_tracks(recs, metas, recs.len() as int).contains(x) by {
        lemma_arranged_tracks_within(library_tree(recs, metas, strip_track_numbers), x);
    }
}

/// No entry of `es`, at any depth, is hidden.
pub open spec fn none_hidden(es: Seq<EntryView>) -> bool
    decreases es,
{
    forall|i: int| 0 <= i < es.len() ==> entry_none_hidden(#[trigger] es[i])
}

pub open spec fn entry_none_hidden(e: EntryView) -> bool
    decreases e,
{
    !is_hidden(e) && match e {
        EntryView::Dir(_, _, cs) => none_hidden(cs),
        EntryView::Track(..) => true,
    }
}

proof fn lemma_sorted_keeps_all(s: Seq<EntryView>)
    ensures
        forall|m: int| 0 <= m < s.len() ==> sorted_siblings(s).contains(#[trigger] s[m]),
    decreases s.len(),
{
    if s.len() > 0 {
        let pre = s.drop_last();
        lemma_sorted_keeps_all(pre);
        let r = sorted_siblings(pre);
        let x = s.last();
        lemma_sibling_position_range(x, r);
        let p = sibling_position(x, r);
        let t = r.insert(p, x);
        assert(sorted_siblings(s) == t);
        assert forall|m: int| 0 <= m < s.len() implies sorted_siblings(s).contains(#[trigger] s[m]) by {
            if m == s.len() - 1 {
                assert(t[p] == x);
            } else {
                assert(pre[m] == s[m]);
                assert(r.contains(pre[m]));
                let k = choose|k: int| 0 <= k < r.len() && r[k] == pre[m];
                if k < p {
                    assert(t[k] == r[k]);
                } else {
                    assert(t[k + 1] == r[k]);
                }
            }
        }
    }
}

proof fn lemma_sorted_tracks_kept(es: Seq<EntryView>, x: (Seq<char>, MetaView))
    requires
        view_tracks(es).contains(x),
    ensures
        view_tracks(sorted_siblings(es)).contains(x),
{
    lemma_view_tracks_member(es, x);
    let m = choose|m: int| 0 <= m < es.len() && view_entry_tracks(#[trigger] es[m]).contains(x);
    lemma_sorted_keeps_all(es);
    let t = sorted_siblings(es);
    assert(t.contains(es[m]));
    let k = choose|k: int| 0 <= k < t.len() && t[k] == es[m];
    assert(view_entry_tracks(t[k]).contains(x));
    lemma_view_tracks_member(t, x);
}

proof fn lemma_pruned_tracks_kept(es: Seq<EntryView>, x: (Seq<char>, MetaView))
    requires
        none_hidden(es),
        view_tracks(es).contains(x),
    ensures
        view_tracks(pruned(es)).contains(x),
    decreases es, 0int,
{
    if es.len() > 0 {
        let pre = es.drop_last();
        let e = es.last();
        let a = pruned(pre);
        let b = pruned_one(e);
        assert(pruned(es) == a + b);
        lemma_view_tracks_concat(a, b);
        assert(view_tracks(es) == view_tracks(pre) + view_entry_tracks(e));
        assert(entry_none_hidden(es[es.len() - 1]));
        let vp = view_tracks(pre);
        let ve = view_entry_tracks(e);
        let k = choose|k: int| 0 <= k < (vp + ve).len() && (vp + ve)[k] == x;
        if k < vp.len() {
            assert(vp[k] == x);
            assert forall|i: int| 0 <= i < pre.len() implies entry_none_hidden(#[trigger] pre[i]) by {
                assert(pre[i] == es[i]);
            }
            lemma_pruned_tracks_kept(pre, x);
            let j = choose|j: int| 0 <= j < view_tracks(a).len() && view_tracks(a)[j] == x;
            assert((view_tracks(a) + view_tracks(b))[j] == x);
        } else {
            assert(ve[k - vp.len()] == x);
            assert(ve.contains(x));
            match e {
                EntryView::Dir(n, p, cs) => {
                    assert(decreases_to!(es => es.last()));
                    lemma_arranged_tracks_kept(cs, x);
                    let c = sorted_siblings(pruned(cs));
                    assert(c.len() > 0) by {
                        if c.len() == 0 {
                            assert(view_tracks(c) =~= Seq::<(Seq<char>, MetaView)>::empty());
                        }
                    }
                    assert(b == seq![EntryView::Dir(n, p, c)]);
                    lemma_view_tracks_push(Seq::<EntryView>::empty(), EntryView::Dir(n, p, c));
                    assert(seq![EntryView::Dir(n, p, c)] =~= Seq::<EntryView>::empty().push(EntryView::Dir(n, p, c)));
                    assert(view_tracks(Seq::<EntryView>::empty()) =~= Seq::<(Seq<char>, MetaView)>::empty());
                    assert(view_tracks(b) =~= view_tracks(c));
                },
                EntryView::Track(..) => {
                    assert(b == seq![e]);
                    lemma_view_tracks_push(Seq::<EntryView>::empty(), e);
                    assert(seq![e] =~= Seq::<EntryView>::empty().push(e));
                    assert(view_tracks(Seq::<EntryView>::empty()) =~= Seq::<(Seq<char>, MetaView)>::empty());
                    assert(view_tracks(b) =~= ve);
                },
            }
            let j = choose|j: int| 0 <= j < view_tracks(b).len() && view_tracks(b)[j] == x;
            assert((view_tracks(a) + view_tracks(b))[view_tracks(a).len() + j] == x);
        }
    }
}

proof fn lemma_arranged_tracks_kept(es: Seq<EntryView>, x: (Seq<char>, MetaView))
    requires
        none_hidden(es),
        view_tracks(es).contains(x),
    ensures
        view_tracks(arranged(es)).contains(x),
    decreases es, 1int,
{
    lemma_pruned_tracks_kept(es, x);
    lemma_sorted_tracks_kept(pruned(es), x);
}

/// A path whose last component starts with `.`.
pub open spec fn hidden_path(p: Seq<char>) -> bool {
    match path_file_name(p) {
        Some(n) => n.len() > 0 && n[0] == '.',
        None => false,
    }
}

/// The builder holds no hidden entry, and no open directory is hidden.
spec fn builder_none_hidden(b: BuildView) -> bool {
    &&& none_hidden(b.roots)
    &&& forall|k: int| 0 <= k < b.stack.len() ==> none_hidden(#[trigger] b.stack[k].2) && !hidden_path(b.stack[k].0)
}

proof fn lemma_none_hidden_push(a: Seq<EntryView>, e: EntryView)
    requires
        none_hidden(a),
        entry_none_hidden(e),
    ensures
        none_hidden(a.push(e)),
{
    assert forall|i: int| 0 <= i < a.push(e).len() implies entry_none_hidden(#[trigger] a.push(e)[i]) by {
        if i < a.len() {
            assert(a.push(e)[i] == a[i]);
        }
    }
}

proof fn lemma_attach_none_hidden(b: BuildView, e: EntryView)
    requires
        builder_none_hidden(b),
        entry_none_hidden(e),
    ensures
        builder_none_hidden(attach_entry(b, e)),
{
    if b.stack.len() > 0 {
        let top = b.stack.last();
        assert(none_hidden(b.stack[b.stack.len() - 1].2));
        lemma_none_hidden_push(top.2, e);
        let st = b.stack.drop_last().push((top.0, top.1, top.2.push(e)));
        assert forall|k: int| 0 <= k < st.len() implies none_hidden(#[trigger] st[k].2) && !hidden_path(st[k].0) by {
            if k < b.stack.len() - 1 {
                assert(st[k] == b.stack[k]);
            } else {
                assert(!hidden_path(b.stack[b.stack.len() - 1].0));
            }
        }
    } else {
        lemma_none_hidden_push(b.roots, e);
    }
}

proof fn lemma_close_none_hidden(b: BuildView)
    requires
        builder_none_hidden(b),
        b.stack.len() > 0,
    ensures
        builder_none_hidden(close_top(b)),
{
    let top = b.stack.last();
    let rest = BuildView { stack: b.stack.drop_last(), ..b };
    assert(none_hidden(b.stack[b.stack.len() - 1].2) && !hidden_path(b.stack[b.stack.len() - 1].0));
    assert forall|k: int| 0 <= k < rest.stack.len() implies none_hidden(#[trigger] rest.stack[k].2) && !hidden_path(rest.stack[k].0) by {
        assert(rest.stack[k] == b.stack[k]);
    }
    if top.2.len() > 0 {
        let d = EntryView::Dir(top.1, top.0, top.2);
        assert(is_hidden(d) == hidden_path(top.0));
        assert(entry_none_hidden(d));
        lemma_attach_none_hidden(rest, d);
    }
}

proof fn lemma_unwind_none_hidden(b: BuildView, p: Seq<char>)
    requires
        builder_none_hidden(b),
    ensures
        builder_none_hidden(unwind_to(b, p)),
    decreases b.stack.len(),
{
    if b.stack.len() > 0 && !path_starts_with(p, b.stack.last().0) {
        lemma_close_none_hidden(b);
        assert(close_top(b).stack.len() == b.stack.len() - 1);
        lemma_unwind_none_hidden(close_top(b), p);
    }
}

proof fn lemma_drain_none_hidden(b: BuildView)
    requires
        builder_none_hidden(b),
    ensures
        builder_none_hidden(drain_all(b)),
    decreases b.stack.len(),
{
    if b.stack.len() > 0 {
        lemma_close_none_hidden(b);
        assert(close_top(b).stack.len() == b.stack.len() - 1);
        lemma_drain_none_hidden(close_top(b));
    }
}

proof fn lemma_prefix_none_hidden(recs: Seq<WalkRecord>, metas: Seq<TrackMetadata>, strip: bool, k: int)
    requires
        forall|i: int| 0 <= i < recs.len() ==> !hidden_path(#[trigger] recs[i].path@),
    ensures
        builder_none_hidden(build_prefix(recs, metas, strip, k)),
    decreases k,
{
    if k <= 0 || k > recs.len() {
        assert(none_hidden(Seq::<EntryView>::empty()));
    } else {
        let b = build_prefix(recs, metas, strip, k - 1);
        lemma_prefix_none_hidden(recs, metas, strip, k - 1);
        let r = recs[k - 1];
        let m = meta_at(metas, track_count(recs, k - 1));
        let u = unwind_to(b, r.path@);
        lemma_unwind_none_hidden(b, r.path@);
        assert(!hidden_path(r.path@));
        if r.is_dir {
            let st = u.stack.push((r.path@, r.name@, Seq::<EntryView>::empty()));
            assert forall|j: int| 0 <= j < st.len() implies none_hidden(#[trigger] st[j].2) && !hidden_path(st[j].0) by {
                if j < u.stack.len() {
                    assert(st[j] == u.stack[j]);
                }
            }
        } else {
            let t = EntryView::Track(track_label_of(m, strip), r.path@, m@);
            assert(is_hidden(t) == hidden_path(r.path@));
            assert(entry_none_hidden(t));
            lemma_attach_none_hidden(u, t);
        }
    }
}

/// Where no file or directory of the walk is hidden, every audio file of the walk is a track
/// of the library, with the metadata read for it.
pub proof fn lemma_visible_tracks_kept(recs: Seq<WalkRecord>, metas: Seq<TrackMetadata>, strip_track_numbers: bool)
    requires
        forall|i: int| 0 <= i < recs.len() ==> !hidden_path(#[trigger] recs[i].path@),
    ensures
        forall|x: (Seq<char>, MetaView)| #[trigger] walk_tracks(recs, metas, recs.len() as int).contains(x)
            ==> view_tracks(arranged(library_tree(recs, metas, strip_track_numbers))).contains(x),
{
    lemma_library_tree_tracks(recs, metas, strip_track_numbers);
    let b = build_prefix(recs, metas, strip_track_numbers, recs.len() as int);
    lemma_prefix_none_hidden(recs, metas, strip_track_numbers, recs.len() as int);
    lemma_drain_none_hidden(b);
    assert forall|x: (Seq<char>, MetaView)| #[trigger] walk_tracks(recs, metas, recs.len() as int).contains(x)
        implies view_tracks(arranged(library_tree(recs, metas, strip_track_numbers))).contains(x) by {
        lemma_arranged_tracks_kept(library_tree(recs, metas, strip_track_numbers), x);
    }
}

/// The label under which a track is listed: its title (the title with the track number
/// taken off when numbers are stripped and such a title was read, `Unknown Title` when there
/// is none), ` - `, and its artist (`Unknown Artist` when there is none).
pub open spec fn shown_label(m: MetaView, strip_track_numbers: bool) -> Seq<char> {
    let title = if strip_track_numbers && m.sanitized_title is Some {
        m.sanitized_title->0
    } else if m.title is Some {
        m.title->0
    } else {
        "Unknown Title"@
    };
    let artist = if m.artist is Some {
        m.artist->0
    } else {
        "Unknown Artist"@
    };
    title + " - "@ + artist
}

/// Every track in `es`, at any depth, is named by `shown_label` of its own metadata.
pub open spec fn tracks_labelled(es: Seq<EntryView>, strip_track_numbers: bool) -> bool
    decreases es,
{
    forall|i: int| 0 <= i < es.len() ==> entry_labelled(#[trigger] es[i], strip_track_numbers)
}

pub open spec fn entry_labelled(e: EntryView, strip_track_numbers: bool) -> bool
    decreases e,
{
    match e {
        EntryView::Dir(_, _, cs) => tracks_labelled(cs, strip_track_numbers),
        EntryView::Track(name, _, m) => name == shown_label(m, strip_track_numbers),
    }
}

/// Every entry the builder holds, open or finished, has its tracks labelled.
spec fn build_labelled(b: BuildView, strip_track_numbers: bool) -> bool {
    &&& tracks_labelled(b.roots, strip_track_numbers)
    &&& forall|k: int| 0 <= k < b.stack.len() ==> tracks_labelled(#[trigger] b.stack[k].2, strip_track_numbers)
}

proof fn lemma_labelled_concat(a: Seq<EntryView>, b: Seq<EntryView>, strip: bool)
    requires
        tracks_labelled(a, strip),
        tracks_labelled(b, strip),
    ensures
        tracks_labelled(a + b, strip),
{
    assert forall|i: int| 0 <= i < (a + b).len() implies entry_labelled(#[trigger] (a + b)[i], strip) by {
        if i < a.len() {
            assert((a + b)[i] == a[i]);
        } else {
            assert((a + b)[i] == b[i - a.len()]);
        }
    }
}

proof fn lemma_labelled_push(a: Seq<EntryView>, e: EntryView, strip: bool)
    requires
        tracks_labelled(a, strip),
        entry_labelled(e, strip),
    ensures
        tracks_labelled(a.push(e), strip),
{
    assert forall|i: int| 0 <= i < a.push(e).len() implies entry_labelled(#[trigger] a.push(e)[i], strip) by {
        if i < a.len() {
            assert(a.push(e)[i] == a[i]);
        }
    }
}

proof fn lemma_attach_labelled(b: BuildView, e: EntryView, strip: bool)
    requires
        build_labelled(b, strip),
        entry_labelled(e, strip),
    ensures
        build_labelled(attach_entry(b, e), strip),
{
    if b.stack.len() > 0 {
        let top = b.stack.last();
        assert(tracks_labelled(b.stack[b.stack.len() - 1].2, strip));
        lemma_labelled_push(top.2, e, strip);
        let st = b.stack.drop_last().push((top.0, top.1, top.2.push(e)));
        assert forall|k: int| 0 <= k < st.len() implies tracks_labelled(#[trigger] st[k].2, strip) by {
            if k < b.stack.len() - 1 {
                assert(st[k] == b.stack[k]);
            }
        }
    } else {
        lemma_labelled_push(b.roots, e, strip);
    }
}

proof fn lemma_close_labelled(b: BuildView, strip: bool)
    requires
        build_labelled(b, strip),
        b.stack.len() > 0,
    ensures
        build_labelled(close_top(b), strip),
{
    let top = b.stack.last();
    let rest = BuildView { stack: b.stack.drop_last(), ..b };
    assert(tracks_labelled(b.stack[b.stack.len() - 1].2, strip));
    assert forall|k: int| 0 <= k < rest.stack.len() implies tracks_labelled(#[trigger] rest.stack[k].2, strip) by {
        assert(rest.stack[k] == b.stack[k]);
    }
    if top.2.len() > 0 {
        assert(entry_labelled(EntryView::Dir(top.1, top.0, top.2), strip));
        lemma_attach_labelled(rest, EntryView::Dir(top.1, top.0, top.2), strip);
    }
}

proof fn lemma_unwind_labelled(b: BuildView, p: Seq<char>, strip: bool)
    requires
        build_labelled(b, strip),
    ensures
        build_labelled(unwind_to(b, p), strip),
    decreases b.stack.len(),
{
    if b.stack.len() > 0 && !path_starts_with(p, b.stack.last().0) {
        lemma_close_labelled(b, strip);
        assert(close_top(b).stack.len() == b.stack.len() - 1);
        lemma_unwind_labelled(close_top(b), p, strip);
    }
}

proof fn lemma_drain_labelled(b: BuildView, strip: bool)
    requires
        build_labelled(b, strip),
    ensures
        build_labelled(drain_all(b), strip),
    decreases b.stack.len(),
{
    if b.stack.len() > 0 {
        lemma_close_labelled(b, strip);
        assert(close_top(b).stack.len() == b.stack.len() - 1);
        lemma_drain_labelled(close_top(b), strip);
    }
}

proof fn lemma_prefix_labelled(recs: Seq<WalkRecord>, metas: Seq<TrackMetadata>, strip: bool, k: int)
    ensures
        build_labelled(build_prefix(recs, metas, strip, k), strip),
    decreases k,
{
    if k <= 0 || k > recs.len() {
        assert(tracks_labelled(Seq::<EntryView>::empty(), strip));
    } else {
        let b = build_prefix(recs, metas, strip, k - 1);
        lemma_prefix_labelled(recs, metas, strip, k - 1);
        let r = recs[k - 1];
        let m = meta_at(metas, track_count(recs, k - 1));
        let u = unwind_to(b, r.path@);
        lemma_unwind_labelled(b, r.path@, strip);
        if r.is_dir {
            let st = u.stack.push((r.path@, r.name@, Seq::<EntryView>::empty()));
            assert forall|j: int| 0 <= j < st.len() implies tracks_labelled(#[trigger] st[j].2, strip) by {
                if j < u.stack.len() {
                    assert(st[j] == u.stack[j]);
                }
            }
        } else {
            assert(track_label_of(m, strip) == shown_label(m@, strip));
            assert(entry_labelled(EntryView::Track(track_label_of(m, strip), r.path@, m@), strip));
            lemma_attach_labelled(u, EntryView::Track(track_label_of(m, strip), r.path@, m@), strip);
        }
    }
}

proof fn lemma_pruned_labelled(es: Seq<EntryView>, strip: bool)
    requires
        tracks_labelled(es, strip),
    ensures
        tracks_labelled(pruned(es), strip),
    decreases es, 0int,
{
    if es.len() > 0 {
        let pre = es.drop_last();
        assert forall|i: int| 0 <= i < pre.len() implies entry_labelled(#[trigger] pre[i], strip) by {
            assert(pre[i] == es[i]);
        }
        lemma_pruned_labelled(pre, strip);
        let e = es.last();
        assert(entry_labelled(es[es.len() - 1], strip));
        let b = pruned_one(e);
        if !is_hidden(e) {
            match e {
                EntryView::Dir(n, p, cs) => {
                    assert(decreases_to!(es => es.last()));
                    lemma_arranged_labelled(cs, strip);
                    let c = sorted_siblings(pruned(cs));
                    if c.len() > 0 {
                        assert(b == seq![EntryView::Dir(n, p, c)]);
                        assert(entry_labelled(EntryView::Dir(n, p, c), strip));
                        lemma_labelled_push(Seq::<EntryView>::empty(), EntryView::Dir(n, p, c), strip);
                        assert(seq![EntryView::Dir(n, p, c)] =~= Seq::<EntryView>::empty().push(EntryView::Dir(n, p, c)));
                    }
                },
                EntryView::Track(..) => {
                    lemma_labelled_push(Seq::<EntryView>::empty(), e, strip);
                    assert(seq![e] =~= Seq::<EntryView>::empty().push(e));
                },
            }
        }
        lemma_labelled_concat(pruned(pre), b, strip);
    }
}

proof fn lemma_arranged_labelled(es: Seq<EntryView>, strip: bool)
    requires
        tracks_labelled(es, strip),
    ensures
        tracks_labelled(arranged(es), strip),
    decreases es, 1int,
{
    lemma_pruned_labelled(es, strip);
    let p = pruned(es);
    lemma_sorted_siblings(p);
    let t = sorted_siblings(p);
    assert forall|i: int| 0 <= i < t.len() implies entry_labelled(#[trigger] t[i], strip) by {
        let m = choose|m: int| 0 <= m < p.len() && t[i] == p[m];
        assert(entry_labelled(p[m], strip));
    }
}

/// Every track of the library built from a walk, at any depth, is listed as its title, a dash
/// and its artist, the title chosen by the caller's `strip_track_numbers`: with stripping on,
/// the title read without its track number where there is one.
pub proof fn lemma_library_labels(recs: Seq<WalkRecord>, metas: Seq<TrackMetadata>, strip_track_numbers: bool)
    ensures
        tracks_labelled(arranged(library_tree(recs, metas, strip_track_numbers)), strip_track_numbers),
{
    lemma_prefix_labelled(recs, metas, strip_track_numbers, recs.len() as int);
    lemma_drain_labelled(build_prefix(recs, metas, strip_track_numbers, recs.len() as int), strip_track_numbers);
    lemma_arranged_labelled(library_tree(recs, metas, strip_track_numbers), strip_track_numbers);
}

/// No directory under (or at) the entry is empty.
pub open spec fn no_empty_dirs(e: LibraryEntry) -> bool
    decreases e,
{
    match e {
        LibraryEntry::Directory { children, .. } => children@.len() > 0 && children_no_empty_dirs(children@),
        LibraryEntry::Track { .. } => true,
    }
}

pub open spec fn children_no_empty_dirs(cs: Seq<LibraryEntry>) -> bool
    decreases cs,
{
    if cs.len() == 0 {
        true
    } else {
        children_no_empty_dirs(cs.drop_last()) && no_empty_dirs(cs.last())
    }
}

/// Every track of `ts` is in the queue.
pub open spec fn tracks_held(ts: Seq<(Seq<char>, MetaView)>, q: Playlist) -> bool {
    forall|i: int| 0 <= i < ts.len() ==> q.holds_path(#[trigger] ts[i].0)
}

proof fn lemma_tracks_held_concat(a: Seq<(Seq<char>, MetaView)>, b: Seq<(Seq<char>, MetaView)>, q: Playlist)
    ensures
        tracks_held(a + b, q) == (tracks_held(a, q) && tracks_held(b, q)),
{
    if tracks_held(a + b, q) {
        assert forall|i: int| 0 <= i < a.len() implies q.holds_path(#[trigger] a[i].0) by {
            assert((a + b)[i] == a[i]);
        }
        assert forall|i: int| 0 <= i < b.len() implies q.holds_path(#[trigger] b[i].0) by {
            assert((a + b)[a.len() + i] == b[i]);
        }
    }
    if tracks_held(a, q) && tracks_held(b, q) {
        assert forall|i: int| 0 <= i < (a + b).len() implies q.holds_path(#[trigger] (a + b)[i].0) by {
            if i < a.len() {
                assert((a + b)[i] == a[i]);
            } else {
                assert((a + b)[i] == b[i - a.len()]);
            }
        }
    }
}

proof fn lemma_children_enqueued(cs: Seq<LibraryEntry>, q: Playlist)
    requires
        children_no_empty_dirs(cs),
    ensures
        children_all_enqueued(cs, q) == tracks_held(children_tracks(cs), q),
        children_tracks(cs).len() >= cs.len(),
    decreases cs,
{
    if cs.len() > 0 {
        lemma_children_enqueued(cs.drop_last(), q);
        lemma_all_tracks_enqueued(cs.last(), q);
        lemma_tracks_held_concat(children_tracks(cs.drop_last()), entry_tracks(cs.last()), q);
    }
}

/// For an entry with no empty directory under it: all its tracks are enqueued exactly when it
/// has at least one track and every one of its tracks is in the queue.
pub proof fn lemma_all_tracks_enqueued(e: LibraryEntry, q: Playlist)
    requires
        no_empty_dirs(e),
    ensures
        all_enqueued(e, q) == (entry_tracks(e).len() > 0 && tracks_held(entry_tracks(e), q)),
        entry_tracks(e).len() > 0,
    decreases e,
{
    match e {
        LibraryEntry::Directory { children, .. } => {
            lemma_children_enqueued(children@, q);
        },
        LibraryEntry::Track { path, .. } => {
            let ts = entry_tracks(e);
            assert(ts[0].0 == path@);
        },
    }
}

} // verus!
