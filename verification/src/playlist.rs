//! The play queue: its entries, the order in which they play, repeat and shuffle.

use vstd::prelude::*;

use crate::library::PathSet;
use crate::metadata::TrackMetadata;
use crate::paths::{file_name_of, parent_of, path_eq, path_file_name, path_parent, same_path};
use crate::text::opt_seq;

verus! {

/// Repeat mode for the player.
#[derive(Debug, Clone, Copy, PartialEq, Eq, Structural, Default)]
pub enum RepeatMode {
    #[default]
    Off,
    Track,
    Queue,
}

impl RepeatMode {
    pub open spec fn following(self) -> RepeatMode {
        match self {
            RepeatMode::Off => RepeatMode::Track,
            RepeatMode::Track => RepeatMode::Queue,
            RepeatMode::Queue => RepeatMode::Off,
        }
    }

    /// The mode that follows this one: off, track, queue, and back to off.
    pub fn next(self) -> (r: Self)
        ensures
            r == self.following(),
    {
        match self {
            RepeatMode::Off => RepeatMode::Track,
            RepeatMode::Track => RepeatMode::Queue,
            RepeatMode::Queue => RepeatMode::Off,
        }
    }

    /// A label for the mode.
    pub fn label(self) -> (r: &'static str)
        ensures
            r@ == (match self {
                RepeatMode::Off => "Repeat: Off"@,
                RepeatMode::Track => "Repeat: Track"@,
                RepeatMode::Queue => "Repeat: Queue"@,
            }),
    {
        match self {
            RepeatMode::Off => "Repeat: Off",
            RepeatMode::Track => "Repeat: Track",
            RepeatMode::Queue => "Repeat: Queue",
        }
    }

    /// The symbol shown for the mode (nothing when repeat is off).
    pub fn symbol(self) -> (r: &'static str)
        ensures
            r@ == (match self {
                RepeatMode::Off => ""@,
                RepeatMode::Track => "🔂"@,
                RepeatMode::Queue => "🔁"@,
            }),
    {
        match self {
            RepeatMode::Off => "",
            RepeatMode::Track => "🔂",
            RepeatMode::Queue => "🔁",
        }
    }
}

/// A visual item for folder-grouped queue rendering.
#[derive(Debug, Clone)]
pub enum QueueVisualItem {
    Header { name: String },
    Separator,
    Track { entry_idx: usize, title: String, duration: String },
}

/// A single entry in the playlist / queue.
#[derive(Debug, Clone)]
pub struct PlaylistEntry {
    pub path: String,
    pub metadata: TrackMetadata,
}

/// The playlist / queue manager.
///
/// `current` is a position in `play_order`; `play_order` lists indices into `entries`.
#[derive(Debug, Clone)]
pub struct Playlist {
    pub entries: Vec<PlaylistEntry>,
    pub current: usize,
    pub repeat: RepeatMode,
    pub shuffle: bool,
    pub play_order: Vec<usize>,
}


/// A queue as values.
pub struct QueueView {
    pub entries: Seq<PlaylistEntry>,
    pub current: usize,
    pub repeat: RepeatMode,
    pub shuffle: bool,
    pub play_order: Seq<usize>,
}

impl View for Playlist {
    type V = QueueView;

    open spec fn view(&self) -> QueueView {
        QueueView {
            entries: self.entries@,
            current: self.current,
            repeat: self.repeat,
            shuffle: self.shuffle,
            play_order: self.play_order@,
        }
    }
}

/// The entry index at the current position of the play order, if there is one.
pub open spec fn queue_real_index(v: QueueView) -> Option<usize> {
    if v.play_order.len() == 0 || v.current >= v.play_order.len() {
        None
    } else {
        Some(v.play_order[v.current as int])
    }
}

/// The queue after entry `idx` is removed. The play order loses `idx` and renumbers the
/// entries behind it; the current position follows the track that was current, or the one
/// before it in the queue when the current one is removed.
pub open spec fn removed_queue(v: QueueView, idx: usize) -> QueueView {
    if idx >= v.entries.len() {
        v
    } else {
        let order = removed_order(v.play_order, idx);
        let cur0: int = match queue_real_index(v) {
            Some(r) => {
                let t: usize = if r >= idx {
                    if r > 0 { (r - 1) as usize } else { 0usize }
                } else {
                    r
                };
                match order.index_of_first(t) {
                    Some(p) => p,
                    None => 0,
                }
            },
            None => 0,
        };
        let cur: int = if cur0 >= order.len() && order.len() > 0 { order.len() - 1 } else { cur0 };
        QueueView { entries: v.entries.remove(idx as int), current: cur as usize, play_order: order, ..v }
    }
}

/// The queue after every entry from position `i` on whose path satisfies `gone` is removed,
/// one at a time, front to back.
pub open spec fn dequeued(v: QueueView, i: int, gone: spec_fn(Seq<char>) -> bool) -> QueueView
    decreases v.entries.len() - i,
{
    if i < 0 || i >= v.entries.len() || v.entries.len() > usize::MAX {
        v
    } else if gone(v.entries[i].path@) {
        proof {
            assert(removed_queue(v, i as usize).entries.len() == v.entries.len() - 1);
        }
        dequeued(removed_queue(v, i as usize), i, gone)
    } else {
        dequeued(v, i + 1, gone)
    }
}

/// What a queue row shows, as values.
pub enum VisualItemView {
    Header(Seq<char>),
    Separator,
    Track(usize, Seq<char>, Seq<char>),
}

impl View for QueueVisualItem {
    type V = VisualItemView;

    open spec fn view(&self) -> VisualItemView {
        match self {
            QueueVisualItem::Header { name } => VisualItemView::Header(name@),
            QueueVisualItem::Separator => VisualItemView::Separator,
            QueueVisualItem::Track { entry_idx, title, duration } => VisualItemView::Track(
                *entry_idx,
                title@,
                duration@,
            ),
        }
    }
}

/// The row text of an entry: its title, " - ", its artist.
pub open spec fn track_label(e: PlaylistEntry, strip_track_numbers: bool) -> Seq<char> {
    e.metadata.title_text(strip_track_numbers) + " - "@ + e.metadata.artist_text()
}

/// The folder name shown above a group: the last component of the parent directory.
pub open spec fn folder_name(parent: Option<Seq<char>>) -> Seq<char> {
    match parent {
        Some(p) => match path_file_name(p) {
            Some(n) => n,
            None => "Unknown"@,
        },
        None => "Unknown"@,
    }
}

/// The queue rows for `entries`, and the parent directory of the last group started.
/// With folders shown, a header starts each run of entries whose parent directories are
/// equal paths, and a separator comes before every header but the first one that follows a
/// known directory.
pub open spec fn visual_state(entries: Seq<PlaylistEntry>, show_folders: bool, strip_track_numbers: bool) -> (Seq<VisualItemView>, Option<Seq<char>>)
    decreases entries.len(),
{
    if entries.len() == 0 {
        (Seq::empty(), None)
    } else {
        let (items, prev) = visual_state(entries.drop_last(), show_folders, strip_track_numbers);
        let e = entries.last();
        let (items2, prev2) = if show_folders {
            let parent = path_parent(e.path@);
            let same = prev is Some && parent is Some && path_eq(prev->0, parent->0);
            if !same {
                let with_sep = if prev is Some { items.push(VisualItemView::Separator) } else { items };
                (with_sep.push(VisualItemView::Header(folder_name(parent))), parent)
            } else {
                (items, prev)
            }
        } else {
            (items, prev)
        };
        (items2.push(VisualItemView::Track((entries.len() - 1) as usize, track_label(e, strip_track_numbers), Seq::empty())), prev2)
    }
}

pub open spec fn visual_items(entries: Seq<PlaylistEntry>, show_folders: bool, strip_track_numbers: bool) -> Seq<VisualItemView> {
    visual_state(entries, show_folders, strip_track_numbers).0
}

/// Every track row of the queue view names an entry of the queue.
pub proof fn lemma_visual_rows_name_entries(entries: Seq<PlaylistEntry>, show_folders: bool, strip_track_numbers: bool)
    ensures
        forall|k: int| 0 <= k < visual_items(entries, show_folders, strip_track_numbers).len() ==>
            (#[trigger] visual_items(entries, show_folders, strip_track_numbers)[k] matches VisualItemView::Track(e, _, _)
                ==> e < entries.len()),
    decreases entries.len(),
{
    if entries.len() > 0 {
        lemma_visual_rows_name_entries(entries.drop_last(), show_folders, strip_track_numbers);
    }
}

/// The entries that the track rows of a queue view name, top to bottom.
pub open spec fn track_rows(items: Seq<VisualItemView>) -> Seq<usize>
    decreases items.len(),
{
    if items.len() == 0 {
        Seq::empty()
    } else {
        let r = track_rows(items.drop_last());
        match items.last() {
            VisualItemView::Track(e, _, _) => r.push(e),
            _ => r,
        }
    }
}

/// The queue view shows every entry of the queue exactly once, in queue order.
pub proof fn lemma_visual_rows_follow_queue(entries: Seq<PlaylistEntry>, show_folders: bool, strip_track_numbers: bool)
    ensures
        track_rows(visual_items(entries, show_folders, strip_track_numbers)) =~= Seq::new(entries.len(), |i: int| i as usize),
    decreases entries.len(),
{
    if entries.len() > 0 {
        let rest = entries.drop_last();
        lemma_visual_rows_follow_queue(rest, show_folders, strip_track_numbers);
        let (items, prev) = visual_state(rest, show_folders, strip_track_numbers);
        let e = entries.last();
        let parent = path_parent(e.path@);
        let sep = items.push(VisualItemView::Separator);
        assert(sep.drop_last() =~= items);
        let with_sep = if prev is Some { sep } else { items };
        let head = with_sep.push(VisualItemView::Header(folder_name(parent)));
        assert(head.drop_last() =~= with_sep);
        let items2 = visual_state(entries, show_folders, strip_track_numbers).0;
        let before = items2.drop_last();
        assert(track_rows(before) =~= track_rows(items)) by {
            if show_folders {
                let same = prev is Some && parent is Some && path_eq(prev->0, parent->0);
                if !same {
                    assert(before =~= head);
                    assert(track_rows(head) == track_rows(with_sep));
                    if prev is Some {
                        assert(track_rows(sep) == track_rows(items));
                    }
                } else {
                    assert(before =~= items);
                }
            } else {
                assert(before =~= items);
            }
        }
    }
}

/// `s` lists each of `0..n` exactly once.
pub open spec fn is_permutation(s: Seq<usize>, n: nat) -> bool {
    &&& s.len() == n
    &&& forall|i: int| 0 <= i < s.len() ==> #[trigger] s[i] < n
    &&& s.no_duplicates()
}

pub open spec fn swap_seq<A>(s: Seq<A>, i: int, j: int) -> Seq<A> {
    s.update(i, s[j]).update(j, s[i])
}

/// One step of the xorshift generator.
pub open spec fn xorshift_step(x: u32) -> u32 {
    let a = x ^ (x << 13u32);
    let b = a ^ (a >> 17u32);
    b ^ (b << 5u32)
}

/// The generator's state for a seed (a zero seed would stay zero forever, so it becomes 1).
pub open spec fn seed_state(seed: u32) -> u32 {
    if seed == 0 {
        1
    } else {
        seed
    }
}

/// Fisher-Yates over positions `k, k - 1, ..., 1` of `s`, the generator starting in `state`.
pub open spec fn fisher_yates(s: Seq<usize>, k: nat, state: u32) -> Seq<usize>
    decreases k,
{
    if k == 0 {
        s
    } else {
        let st = xorshift_step(state);
        let j = (st as nat) % (k + 1);
        fisher_yates(swap_seq(s, k as int, j as int), (k - 1) as nat, st)
    }
}

/// The indices `0..n` without `cur`, in increasing order.
pub open spec fn others_of(n: nat, cur: nat) -> Seq<usize> {
    Seq::new((n - 1) as nat, |k: int| (if k < cur { k } else { k + 1 }) as usize)
}

/// The shuffled play order of `n` entries: `cur` first, then the others shuffled by `seed`.
pub open spec fn shuffled_order(n: nat, cur: nat, seed: u32) -> Seq<usize> {
    let others = others_of(n, cur);
    seq![cur as usize] + if others.len() == 0 {
        others
    } else {
        fisher_yates(others, (others.len() - 1) as nat, seed_state(seed))
    }
}


/// Every element of `s` is below `n` and differs from `cur`.
pub open spec fn all_in_except(s: Seq<usize>, n: nat, cur: nat) -> bool {
    forall|k: int| 0 <= k < s.len() ==> #[trigger] s[k] < n && s[k] != cur
}

/// Taking an element out and putting it back one place up or down swaps it with its neighbour.
proof fn lemma_remove_insert_swaps<A>(s: Seq<A>, i: int, j: int)
    requires
        0 <= i < s.len(),
        0 <= j < s.len(),
        j == i + 1 || j == i - 1,
    ensures
        s.remove(i).insert(j, s[i]) =~= swap_seq(s, i, j),
{
    let r = s.remove(i);
    let t = r.insert(j, s[i]);
    let u = s.update(i, s[j]);
    let w = u.update(j, s[i]);
    assert(t.len() == w.len());
    assert forall|k: int| 0 <= k < t.len() implies t[k] == w[k] by {
        if k == j {
            assert(t[k] == s[i]);
            assert(w[k] == s[i]);
        } else if k == i {
            assert(u[k] == s[j]);
            assert(w[k] == u[k]);
            if j == i + 1 {
                assert(t[k] == r[k]);
                assert(r[k] == s[k + 1]);
            } else {
                assert(t[k] == r[k - 1]);
                assert(r[k - 1] == s[k - 1]);
            }
        } else {
            assert(u[k] == s[k]);
            assert(w[k] == u[k]);
            if k < i && k < j {
                assert(t[k] == r[k]);
                assert(r[k] == s[k]);
            } else {
                assert(t[k] == r[k - 1]);
                assert(r[k - 1] == s[k]);
            }
        }
    }
}

proof fn lemma_swap_at(s: Seq<usize>, i: int, j: int, k: int)
    requires
        0 <= i < s.len(),
        0 <= j < s.len(),
        0 <= k < s.len(),
    ensures
        swap_seq(s, i, j)[k] == s[if k == j { i } else if k == i { j } else { k }],
{
    let u = s.update(i, s[j]);
    assert(swap_seq(s, i, j) == u.update(j, s[i]));
    if k == j {
        assert(u.update(j, s[i])[k] == s[i]);
    } else if k == i {
        assert(u[k] == s[j]);
        assert(u.update(j, s[i])[k] == u[k]);
    } else {
        assert(u[k] == s[k]);
        assert(u.update(j, s[i])[k] == u[k]);
    }
}

proof fn lemma_swap_keeps(s: Seq<usize>, i: int, j: int, n: nat, cur: nat)
    requires
        0 <= i < s.len(),
        0 <= j < s.len(),
        all_in_except(s, n, cur),
        s.no_duplicates(),
    ensures
        swap_seq(s, i, j).len() == s.len(),
        all_in_except(swap_seq(s, i, j), n, cur),
        swap_seq(s, i, j).no_duplicates(),
{
    let t = swap_seq(s, i, j);
    assert forall|k: int| 0 <= k < t.len() implies #[trigger] t[k] < n && t[k] != cur by {
        lemma_swap_at(s, i, j, k);
    }
    assert forall|a: int, b: int| 0 <= a < t.len() && 0 <= b < t.len() && a != b implies t[a]
        != t[b] by {
        lemma_swap_at(s, i, j, a);
        lemma_swap_at(s, i, j, b);
        let sa = if a == j { i } else if a == i { j } else { a };
        let sb = if b == j { i } else if b == i { j } else { b };
        assert(sa != sb);
    }
}

proof fn lemma_fisher_yates_keeps(s: Seq<usize>, k: nat, state: u32, n: nat, cur: nat)
    requires
        k < s.len(),
        all_in_except(s, n, cur),
        s.no_duplicates(),
    ensures
        fisher_yates(s, k, state).len() == s.len(),
        all_in_except(fisher_yates(s, k, state), n, cur),
        fisher_yates(s, k, state).no_duplicates(),
    decreases k,
{
    if k > 0 {
        let st = xorshift_step(state);
        let j = (st as nat) % (k + 1);
        lemma_swap_keeps(s, k as int, j as int, n, cur);
        lemma_fisher_yates_keeps(swap_seq(s, k as int, j as int), (k - 1) as nat, st, n, cur);
    }
}

/// One pass of the shuffle from position `k` down: the positions above `k` are left alone,
/// and position `k` receives the element at position `x % (k + 1)`, where `x` is the
/// generator's next number after `state`; the positions below are then shuffled in turn.
pub proof fn lemma_fisher_yates_draws(s: Seq<usize>, k: nat, state: u32)
    requires
        k < s.len(),
    ensures
        fisher_yates(s, k, state).len() == s.len(),
        forall|i: int| k < i < s.len() ==> #[trigger] fisher_yates(s, k, state)[i] == s[i],
        fisher_yates(s, k, state)[k as int] == s[((xorshift_step(state) as nat) % (k + 1)) as int],
    decreases k,
{
    if k > 0 {
        let st = xorshift_step(state);
        let j = (st as nat) % (k + 1);
        let t = swap_seq(s, k as int, j as int);
        lemma_fisher_yates_draws(t, (k - 1) as nat, st);
        lemma_swap_at(s, k as int, j as int, k as int);
        assert forall|i: int| k < i < s.len() implies #[trigger] fisher_yates(s, k, state)[i] == s[i] by {
            lemma_swap_at(s, k as int, j as int, i);
        }
        assert(fisher_yates(s, k, state)[k as int] == t[k as int]);
        if j == k {
            assert(t[k as int] == s[k as int]);
        } else {
            assert(t[k as int] == s[j as int]);
        }
    } else {
        assert(((xorshift_step(state) as nat) % 1) == 0);
    }
}

/// The shuffle draws the last place of the play order first: with `x` the generator's first
/// number for `seed`, the last entry played is the `(x % (n - 1))`-th of the entries other
/// than `cur`, counted in queue order. So different seeds give different orders, not the
/// queue order every time.
pub proof fn lemma_shuffle_draws_last(n: nat, cur: nat, seed: u32)
    requires
        cur < n,
        2 <= n <= usize::MAX,
    ensures
        ({
            let j = (xorshift_step(seed_state(seed)) as nat) % ((n - 1) as nat);
            shuffled_order(n, cur, seed)[n - 1] == (if j < cur { j } else { j + 1 })
        }),
{
    let others = others_of(n, cur);
    let k = (others.len() - 1) as nat;
    lemma_fisher_yates_draws(others, k, seed_state(seed));
    let f = fisher_yates(others, k, seed_state(seed));
    let r = shuffled_order(n, cur, seed);
    assert(r == seq![cur as usize] + f);
    assert(r[n - 1] == f[k as int]);
}

/// A worked example of the shuffle: five entries, the fourth current, seed 12345: the order is
/// the fourth entry, then the second, fifth, first and third.
pub proof fn lemma_shuffle_example()
    ensures
        shuffled_order(5, 3, 12345) == seq![3usize, 1, 4, 0, 2],
{
    let x1: u32 = 12345;
    let x2: u32 = 3336926330;
    let x3: u32 = 1697253807;
    let x4: u32 = 2816511904;
    assert(xorshift_step(12345u32) == 3336926330u32) by (bit_vector);
    assert(xorshift_step(3336926330u32) == 1697253807u32) by (bit_vector);
    assert(xorshift_step(1697253807u32) == 2816511904u32) by (bit_vector);
    assert((x2 as nat) % 4 == 2 && (x3 as nat) % 3 == 0 && (x4 as nat) % 2 == 0);
    let others = others_of(5, 3);
    assert(others =~= seq![0usize, 1, 2, 4]);
    let s1 = swap_seq(others, 3, 2);
    assert(s1 =~= seq![0usize, 1, 4, 2]);
    let s2 = swap_seq(s1, 2, 0);
    assert(s2 =~= seq![4usize, 1, 0, 2]);
    let s3 = swap_seq(s2, 1, 0);
    assert(s3 =~= seq![1usize, 4, 0, 2]);
    assert(fisher_yates(s3, 0, x4) == s3);
    assert(fisher_yates(s2, 1, x3) == s3);
    assert(fisher_yates(s1, 2, x2) == s3);
    assert(fisher_yates(others, 3, x1) == s3);
    assert(shuffled_order(5, 3, 12345) =~= seq![3usize, 1, 4, 0, 2]);
}

/// The shuffled order starts with `cur` and lists each of `0..n` exactly once.
pub proof fn lemma_shuffled_order_is_permutation(n: nat, cur: nat, seed: u32)
    requires
        cur < n,
        n <= usize::MAX,
    ensures
        is_permutation(shuffled_order(n, cur, seed), n),
        shuffled_order(n, cur, seed)[0] == cur,
{
    let others = others_of(n, cur);
    assert(all_in_except(others, n, cur));
    assert(others.no_duplicates()) by {
        assert forall|a: int, b: int| 0 <= a < others.len() && 0 <= b < others.len() && a != b
            implies others[a] != others[b] by {}
    }
    let rest = if others.len() == 0 {
        others
    } else {
        lemma_fisher_yates_keeps(others, (others.len() - 1) as nat, seed_state(seed), n, cur);
        fisher_yates(others, (others.len() - 1) as nat, seed_state(seed))
    };
    let r = shuffled_order(n, cur, seed);
    assert(r == seq![cur as usize] + rest);
    assert(r[0] == cur);
    assert forall|i: int| 0 <= i < r.len() implies #[trigger] r[i] < n by {
        if i > 0 {
            assert(r[i] == rest[i - 1]);
        }
    }
    assert forall|a: int, b: int| 0 <= a < r.len() && 0 <= b < r.len() && a != b implies r[a]
        != r[b] by {
        if a > 0 {
            assert(r[a] == rest[a - 1]);
        }
        if b > 0 {
            assert(r[b] == rest[b - 1]);
        }
    }
}

spec fn below(n: nat) -> Set<usize> {
    Set::new(|x: usize| x < n)
}

proof fn lemma_below_len(n: nat)
    requires
        n <= usize::MAX + 1,
    ensures
        below(n).finite(),
        below(n).len() == n,
    decreases n,
{
    if n == 0 {
        assert(below(n) =~= Set::empty());
    } else {
        lemma_below_len((n - 1) as nat);
        assert(below(n) =~= below((n - 1) as nat).insert((n - 1) as usize));
    }
}

/// A permutation of `0..n` contains every index below `n`.
pub proof fn lemma_permutation_contains_all(s: Seq<usize>, n: nat)
    requires
        is_permutation(s, n),
        n <= usize::MAX,
    ensures
        forall|x: usize| x < n ==> #[trigger] s.contains(x),
{
    lemma_below_len(n);
    s.unique_seq_to_set();
    let st = s.to_set();
    assert(st.subset_of(below(n))) by {
        assert forall|x: usize| st.contains(x) implies below(n).contains(x) by {
            let k = choose|k: int| 0 <= k < s.len() && s[k] == x;
        }
    }
    s.lemma_cardinality_of_set();
    vstd::set_lib::lemma_subset_equality(st, below(n));
    assert forall|x: usize| x < n implies #[trigger] s.contains(x) by {
        assert(below(n).contains(x));
        assert(st.contains(x));
    }
}

struct Xorshift {
    state: u32,
}

impl Xorshift {
    fn new(seed: u32) -> (r: Self)
        ensures
            r.state == seed_state(seed),
    {
        Self { state: if seed == 0 { 1 } else { seed } }
    }

    fn next(&mut self) -> (r: u32)
        ensures
            r == xorshift_step(old(self).state),
            final(self).state == r,
    {
        let mut x = self.state;
        x ^= x << 13u32;
        x ^= x >> 17u32;
        x ^= x << 5u32;
        self.state = x;
        x
    }

    fn gen_range(&mut self, limit: usize) -> (r: usize)
        ensures
            limit == 0 ==> r == 0 && final(self).state == old(self).state,
            limit > 0 ==> final(self).state == xorshift_step(old(self).state) && r as nat
                == (final(self).state as nat) % (limit as nat),
    {
        if limit == 0 {
            return 0;
        }
        (self.next() as usize) % limit
    }
}


/// `0, 1, ..., n - 1`.
pub open spec fn identity_order(n: nat) -> Seq<usize> {
    Seq::new(n, |i: int| i as usize)
}

/// The play order after entry `idx` is removed: `idx` leaves, higher indices move down by one.
pub open spec fn removed_order(order: Seq<usize>, idx: usize) -> Seq<usize>
    decreases order.len(),
{
    if order.len() == 0 {
        order
    } else {
        let rest = removed_order(order.drop_last(), idx);
        let o = order.last();
        if o == idx {
            rest
        } else if o > idx {
            rest.push((o - 1) as usize)
        } else {
            rest.push(o)
        }
    }
}

/// The play order with indices `idx` and `other` exchanged.
pub open spec fn exchanged_order(order: Seq<usize>, idx: usize, other: usize) -> Seq<usize> {
    order.map_values(
        |o: usize|
            if o == idx {
                other
            } else if o == other {
                idx
            } else {
                o
            },
    )
}

/// The seed of a shuffle made by `add`: the clock seconds plus the index of the new entry.
pub open spec fn add_seed(clock: u32, new_idx: usize) -> u32 {
    clock.wrapping_add(new_idx as u32)
}

/// The clock: whole seconds since the Unix epoch (`SystemTime::now`, `duration_since`), or
/// `None` when the clock is before the epoch. Nothing is promised of the value.
#[verifier::external_body]
fn clock_secs() -> Option<u64> {
    std::time::SystemTime::now().duration_since(std::time::UNIX_EPOCH).ok().map(|d| d.as_secs())
}

/// The shuffle seed from a clock reading: the seconds truncated to 32 bits, or 12345 when
/// the clock is before the epoch.
pub fn seed_from_clock(secs: Option<u64>) -> (r: u32)
    ensures
        r == match secs {
            Some(s) => s % 0x1_0000_0000,
            None => 12345,
        },
{
    match secs {
        Some(s) => (s % 0x1_0000_0000) as u32,
        None => 12345,
    }
}

/// The shuffle seed from the clock (see `seed_from_clock`).
fn clock_seed() -> u32 {
    seed_from_clock(clock_secs())
}

proof fn lemma_removed_order(order: Seq<usize>, idx: usize, n: nat)
    requires
        forall|k: int| 0 <= k < order.len() ==> #[trigger] order[k] < n,
        order.no_duplicates(),
        idx < n,
    ensures
        removed_order(order, idx).len() == order.len() - (if order.contains(idx) { 1int } else { 0 }),
        forall|k: int| 0 <= k < removed_order(order, idx).len() ==> #[trigger] removed_order(order, idx)[k] < n - 1,
        removed_order(order, idx).no_duplicates(),
        forall|x: usize| #[trigger] removed_order(order, idx).contains(x) ==> (x < idx && order.contains(x)) || (x >= idx && order.contains((x + 1) as usize)),
    decreases order.len(),
{
    if order.len() > 0 {
        let init = order.drop_last();
        assert forall|k: int| 0 <= k < init.len() implies #[trigger] init[k] < n by {
            assert(init[k] == order[k]);
        }
        assert(init.no_duplicates()) by {
            assert forall|a: int, b: int| 0 <= a < init.len() && 0 <= b < init.len() && a != b implies init[a] != init[b] by {
                assert(init[a] == order[a]);
                assert(init[b] == order[b]);
            }
        }
        lemma_removed_order(init, idx, n);
        let rest = removed_order(init, idx);
        let o = order.last();
        assert(order =~= init.push(o));
        assert(!init.contains(o)) by {
            if init.contains(o) {
                let k = choose|k: int| 0 <= k < init.len() && init[k] == o;
                assert(order[k] == order[order.len() - 1]);
            }
        }
        assert(order.contains(idx) == (init.contains(idx) || o == idx));
        assert(order[order.len() - 1] < n);
        let r = removed_order(order, idx);
        if o != idx {
            let v = if o > idx { (o - 1) as usize } else { o };
            assert(r == rest.push(v));
            assert(!rest.contains(v)) by {
                if rest.contains(v) {
                    let k = choose|k: int| 0 <= k < rest.len() && rest[k] == v;
                    assert(rest.contains(rest[k]));
                    if v < idx {
                        assert(init.contains(v));
                    } else {
                        assert(init.contains((v + 1) as usize));
                    }
                }
            }
            assert forall|x: usize| #[trigger] r.contains(x) implies (x < idx && order.contains(x)) || (x >= idx && order.contains((x + 1) as usize)) by {
                if x == v {
                    assert(order[order.len() - 1] == o);
                } else {
                    let k = choose|k: int| 0 <= k < r.len() && r[k] == x;
                    assert(rest[k] == x);
                    assert(rest.contains(x));
                    if x < idx {
                        let m = choose|m: int| 0 <= m < init.len() && init[m] == x;
                        assert(order[m] == x);
                    } else {
                        let m = choose|m: int| 0 <= m < init.len() && init[m] == (x + 1) as usize;
                        assert(order[m] == (x + 1) as usize);
                    }
                }
            }
            assert forall|a: int, b: int| 0 <= a < r.len() && 0 <= b < r.len() && a != b implies r[a] != r[b] by {
                if a < rest.len() && b < rest.len() {
                } else if a < rest.len() {
                    assert(rest.contains(r[a]));
                } else {
                    assert(rest.contains(r[b]));
                }
            }
            assert forall|k: int| 0 <= k < r.len() implies #[trigger] r[k] < n - 1 by {
                if k < rest.len() {
                    assert(r[k] == rest[k]);
                }
            }
        } else {
            assert(r == rest);
            assert forall|x: usize| #[trigger] r.contains(x) implies (x < idx && order.contains(x)) || (x >= idx && order.contains((x + 1) as usize)) by {
                if x < idx {
                    let m = choose|m: int| 0 <= m < init.len() && init[m] == x;
                    assert(order[m] == x);
                } else {
                    let m = choose|m: int| 0 <= m < init.len() && init[m] == (x + 1) as usize;
                    assert(order[m] == (x + 1) as usize);
                }
            }
        }
    }
}

proof fn lemma_exchanged_order(order: Seq<usize>, idx: usize, other: usize, n: nat)
    requires
        is_permutation(order, n),
        idx < n,
        other < n,
    ensures
        is_permutation(exchanged_order(order, idx, other), n),
{
    let r = exchanged_order(order, idx, other);
    assert forall|a: int, b: int| 0 <= a < r.len() && 0 <= b < r.len() && a != b implies r[a] != r[b] by {
        assert(order[a] != order[b]);
    }
}


/// The first position of `x` in `v`, if `x` occurs.
fn position_of(v: &Vec<usize>, x: usize) -> (r: Option<usize>)
    ensures
        match r {
            Some(p) => p < v@.len() && v@[p as int] == x && forall|m: int| 0 <= m < p ==> v@[m] != x,
            None => !v@.contains(x),
        },
{
    let mut k: usize = 0;
    while k < v.len()
        invariant
            k <= v@.len(),
            forall|m: int| 0 <= m < k ==> v@[m] != x,
        decreases v@.len() - k,
    {
        if v[k] == x {
            return Some(k);
        }
        k = k + 1;
    }
    None
}


/// The invariant of a queue: the play order lists each entry exactly once, and the position
/// lies inside the play order unless that is empty.
pub open spec fn queue_invariant(p: Playlist) -> bool {
    &&& is_permutation(p.play_order@, p.entries@.len())
    &&& (p.play_order@.len() == 0 || p.current < p.play_order@.len())
}

/// Well-formedness, which every operation on a queue requires and keeps, is the queue
/// invariant with the position at 0 on an empty queue.
pub proof fn lemma_wf_is_queue_invariant(p: Playlist)
    ensures
        p.wf() == (queue_invariant(p) && (p.entries@.len() > 0 || p.current == 0)),
{
}

/// In a well-formed, non-empty queue the current position names an entry.
pub proof fn lemma_real_index_in_range(p: Playlist)
    requires
        p.wf(),
        p.entries@.len() > 0,
    ensures
        p.real_index() matches Some(r) && r < p.entries@.len(),
{
}

/// In a well-formed queue the current position names an entry, or the queue is empty.
pub proof fn lemma_real_index_in_range_or_none(p: Playlist)
    requires
        p.wf(),
    ensures
        match p.real_index() {
            Some(r) => r < p.entries@.len(),
            None => p.entries@.len() == 0,
        },
{
}

/// Moving an entry up and then moving it back down restores the queue and its play order.
pub proof fn lemma_move_up_then_down_restores(p: Playlist, q: Playlist, r: Playlist, idx: usize)
    requires
        p.wf(),
        0 < idx < p.entries@.len(),
        q.entries@ == swap_seq(p.entries@, idx as int, idx - 1),
        q.play_order@ == exchanged_order(p.play_order@, idx, (idx - 1) as usize),
        r.entries@ == swap_seq(q.entries@, idx - 1, idx as int),
        r.play_order@ == exchanged_order(q.play_order@, (idx - 1) as usize, idx),
    ensures
        r.entries@ == p.entries@,
        r.play_order@ == p.play_order@,
{
    assert(r.entries@ =~= p.entries@);
    assert(r.play_order@ =~= p.play_order@);
}

/// With repeat-queue on a non-empty queue, going to the next track and then back to the
/// previous one returns to the same position, and so does the opposite.
pub proof fn lemma_next_then_previous_restores(p: Playlist)
    requires
        p.wf(),
        p.repeat == RepeatMode::Queue,
        p.play_order@.len() > 0,
    ensures
        ({
            let n = p.play_order@.len() as int;
            let after_next = (p.current + 1) % n;
            let back = if after_next == 0 { n - 1 } else { after_next - 1 };
            back == p.current
        }),
        ({
            let n = p.play_order@.len() as int;
            let after_prev = if p.current == 0 { n - 1 } else { p.current - 1 };
            (after_prev + 1) % n == p.current
        }),
{
    let n = p.play_order@.len() as int;
    let c = p.current as int;
    assert(c < n);
    if c + 1 < n {
        assert((c + 1) % n == c + 1) by (nonlinear_arith)
            requires
                0 <= c + 1 < n,
        ;
    } else {
        assert((c + 1) % n == 0) by (nonlinear_arith)
            requires
                c + 1 == n,
                n > 0,
        ;
    }
    if c == 0 {
        assert(n % n == 0) by (nonlinear_arith)
            requires
                n > 0,
        ;
    } else {
        assert(c % n == c) by (nonlinear_arith)
            requires
                0 <= c < n,
        ;
    }
}

/// Builds `shuffled_order(n, cur, seed)`.
fn shuffled(n: usize, cur: usize, seed: u32) -> (r: Vec<usize>)
    requires
        cur < n,
    ensures
        r@ == shuffled_order(n as nat, cur as nat, seed),
{
    let mut others: Vec<usize> = Vec::new();
    let mut i: usize = 0;
    while i < n
        invariant
            cur < n,
            i <= n,
            others@ == others_of(n as nat, cur as nat).take(if i <= cur { i as int } else { i - 1 }),
        decreases n - i,
    {
        if i != cur {
            proof {
                let idx = if i < cur { i as int } else { i - 1 };
                assert(others_of(n as nat, cur as nat)[idx] == i);
                assert(others_of(n as nat, cur as nat).take(idx + 1) =~= others_of(n as nat, cur as nat).take(idx).push(i));
            }
            others.push(i);
        }
        i = i + 1;
    }
    assert(others@ =~= others_of(n as nat, cur as nat));
    let ghost start = others@;
    let mut rng = Xorshift::new(seed);
    if others.len() > 0 {
        let mut k: usize = others.len() - 1;
        while k >= 1
            invariant
                k < others.len(),
                others.len() == start.len(),
                start.len() > 0,
                fisher_yates(others@, k as nat, rng.state) == fisher_yates(start, (start.len() - 1) as nat, seed_state(seed)),
            decreases k,
        {
            let ghost before = others@;
            let ghost st = rng.state;
            let j = rng.gen_range(k + 1);
            let a = others[k];
            let b = others[j];
            others.set(k, b);
            others.set(j, a);
            assert(others@ =~= swap_seq(before, k as int, j as int));
            k = k - 1;
        }
    }
    let mut order: Vec<usize> = vec![cur];
    order.append(&mut others);
    order
}

impl Default for Playlist {
    fn default() -> (p: Self)
        ensures
            p.entries@.len() == 0,
            p.current == 0,
            p.repeat == RepeatMode::Off,
            !p.shuffle,
            p.play_order@.len() == 0,
    {
        Playlist {
            entries: Vec::new(),
            current: 0,
            repeat: RepeatMode::Off,
            shuffle: false,
            play_order: Vec::new(),
        }
    }
}

impl Playlist {
    /// The play order lists each entry exactly once, and the current position lies inside it
    /// (or is 0 when the queue is empty).
    pub open spec fn wf(self) -> bool {
        &&& is_permutation(self.play_order@, self.entries@.len())
        &&& (self.current < self.entries@.len() || self.current == 0)
    }

    /// The entry index at the current position of the play order, if there is one.
    pub open spec fn real_index(self) -> Option<usize> {
        if self.play_order@.len() == 0 || self.current >= self.play_order@.len() {
            None
        } else {
            Some(self.play_order@[self.current as int])
        }
    }

    /// Some entry of the queue has a path equal to `p`.
    pub open spec fn holds_path(self, p: Seq<char>) -> bool {
        exists|i: int| 0 <= i < self.entries@.len() && path_eq(#[trigger] self.entries@[i].path@, p)
    }

    pub open spec fn next_possible(self) -> bool {
        self.play_order@.len() > 0 && match self.repeat {
            RepeatMode::Off => self.current + 1 < self.play_order@.len(),
            _ => true,
        }
    }

    pub open spec fn previous_possible(self) -> bool {
        self.play_order@.len() > 0 && match self.repeat {
            RepeatMode::Off => self.current > 0,
            _ => true,
        }
    }

    /// An empty queue.
    pub fn new() -> (p: Self)
        ensures
            p.wf(),
            p.entries@.len() == 0,
            p.current == 0,
            p.repeat == RepeatMode::Off,
            !p.shuffle,
            p.play_order@.len() == 0,
    {
        Self::default()
    }

    pub fn len(&self) -> (r: usize)
        ensures
            r == self.entries@.len(),
    {
        self.entries.len()
    }

    pub fn is_empty(&self) -> (r: bool)
        ensures
            r == (self.entries@.len() == 0),
    {
        self.entries.len() == 0
    }

    /// The index into `entries` of the current track, if any.
    pub fn current_real_index(&self) -> (r: Option<usize>)
        ensures
            r == self.real_index(),
    {
        if self.play_order.len() == 0 || self.current >= self.play_order.len() {
            None
        } else {
            Some(self.play_order[self.current])
        }
    }

    /// The current entry, if any.
    pub fn current_entry(&self) -> (r: Option<&PlaylistEntry>)
        ensures
            match self.real_index() {
                Some(i) => if i < self.entries@.len() {
                    r == Some(&self.entries@[i as int])
                } else {
                    r is None
                },
                None => r is None,
            },
    {
        match self.current_real_index() {
            Some(i) => if i < self.entries.len() {
                Some(&self.entries[i])
            } else {
                None
            },
            None => None,
        }
    }

    /// Whether some entry of the queue has the path `path`.
    pub fn contains_path(&self, path: &str) -> (r: bool)
        ensures
            r == self.holds_path(path@),
    {
        let mut i: usize = 0;
        while i < self.entries.len()
            invariant
                i <= self.entries@.len(),
                forall|k: int| 0 <= k < i ==> !path_eq(#[trigger] self.entries@[k].path@, path@),
            decreases self.entries@.len() - i,
        {
            if same_path(self.entries[i].path.as_str(), path) {
                return true;
            }
            i = i + 1;
        }
        false
    }

    /// Whether a next track can be reached.
    pub fn can_go_next(&self) -> (r: bool)
        ensures
            r == self.next_possible(),
    {
        if self.play_order.len() == 0 {
            return false;
        }
        match self.repeat {
            RepeatMode::Track | RepeatMode::Queue => true,
            RepeatMode::Off => self.current < self.play_order.len() - 1,
        }
    }

    /// Whether a previous track can be reached.
    pub fn can_go_previous(&self) -> (r: bool)
        ensures
            r == self.previous_possible(),
    {
        if self.play_order.len() == 0 {
            return false;
        }
        match self.repeat {
            RepeatMode::Track | RepeatMode::Queue => true,
            RepeatMode::Off => self.current > 0,
        }
    }

    /// Appends a track; with shuffle on, the order is shuffled anew, the current track first.
    /// `clock` seeds the shuffle.
    pub fn add_seeded(&mut self, path: String, metadata: TrackMetadata, clock: u32)
        requires
            old(self).wf(),
            old(self).entries@.len() < usize::MAX,
        ensures
            final(self).wf(),
            final(self).entries@ == old(self).entries@.push(PlaylistEntry { path, metadata }),
            final(self).repeat == old(self).repeat,
            final(self).shuffle == old(self).shuffle,
            ({
                let n = old(self).entries@.len();
                let pushed = old(self).play_order@.push(n as usize);
                let cur = if pushed.len() == 0 || old(self).current >= pushed.len() {
                    0
                } else {
                    pushed[old(self).current as int]
                };
                if old(self).shuffle && pushed.len() > 1 {
                    &&& final(self).play_order@ == shuffled_order(n + 1, cur as nat, add_seed(clock, n as usize))
                    &&& final(self).current == 0
                } else {
                    &&& final(self).play_order@ == pushed
                    &&& final(self).current == old(self).current
                }
            }),
    {
        let new_idx = self.entries.len();
        self.entries.push(PlaylistEntry { path, metadata });
        self.play_order.push(new_idx);
        proof {
            let o = self.play_order@;
            assert forall|a: int, b: int| 0 <= a < o.len() && 0 <= b < o.len() && a != b implies o[a] != o[b] by {
                if a < o.len() - 1 && b < o.len() - 1 {
                    assert(old(self).play_order@[a] == o[a]);
                    assert(old(self).play_order@[b] == o[b]);
                } else if a < o.len() - 1 {
                    assert(o[a] == old(self).play_order@[a]);
                } else if b < o.len() - 1 {
                    assert(o[b] == old(self).play_order@[b]);
                }
            }
            assert forall|i: int| 0 <= i < o.len() implies #[trigger] o[i] < self.entries@.len() by {
                if i < o.len() - 1 {
                    assert(o[i] == old(self).play_order@[i]);
                }
            }
        }
        if self.shuffle && self.play_order.len() > 1 {
            let current_real = match self.current_real_index() {
                Some(r) => r,
                None => 0,
            };
            let seed = clock.wrapping_add(new_idx as u32);
            let n = self.entries.len();
            proof {
                lemma_shuffled_order_is_permutation(n as nat, current_real as nat, seed);
            }
            self.play_order = shuffled(n, current_real, seed);
            self.current = 0;
        }
    }

    /// Appends a track; with shuffle on, the order is shuffled anew, the current track first.
    pub fn add(&mut self, path: String, metadata: TrackMetadata)
        requires
            old(self).wf(),
            old(self).entries@.len() < usize::MAX,
        ensures
            final(self).wf(),
            final(self).entries@ == old(self).entries@.push(PlaylistEntry { path, metadata }),
            final(self).repeat == old(self).repeat,
            final(self).shuffle == old(self).shuffle,
            !(old(self).shuffle && old(self).play_order@.len() > 0) ==> final(self).play_order@
                == old(self).play_order@.push(old(self).entries@.len() as usize) && final(self).current
                == old(self).current,
            old(self).shuffle && old(self).play_order@.len() > 0 ==> final(self).current == 0 && (
            old(self).real_index() matches Some(r) ==> final(self).play_order@[0] == r),
    {
        let clock = clock_seed();
        self.add_seeded(path, metadata, clock);
        proof {
            let n = old(self).entries@.len();
            if old(self).shuffle && old(self).play_order@.len() > 0 {
                let pushed = old(self).play_order@.push(n as usize);
                let cur = if old(self).current >= pushed.len() { 0 } else { pushed[old(self).current as int] };
                assert(cur < n + 1);
                lemma_shuffled_order_is_permutation(n + 1, cur as nat, add_seed(clock, n as usize));
            }
        }
    }

    /// Turns shuffle on or off. On: the order is shuffled by `clock`, the current track first.
    /// Off: the order becomes the queue order and the current track stays current.
    pub fn set_shuffle_seeded(&mut self, shuffle: bool, clock: u32)
        requires
            old(self).wf(),
        ensures
            final(self).wf(),
            final(self).shuffle == shuffle,
            final(self).entries == old(self).entries,
            final(self).repeat == old(self).repeat,
            old(self).entries@.len() == 0 ==> final(self).play_order@.len() == 0 && final(self).current
                == old(self).current,
            old(self).entries@.len() > 0 ==> ({
                let cur = match old(self).real_index() {
                    Some(r) => r,
                    None => 0,
                };
                if shuffle {
                    &&& final(self).play_order@ == shuffled_order(old(self).entries@.len(), cur as nat, clock)
                    &&& final(self).current == 0
                    &&& old(self).entries@.len() >= 2 ==> ({
                        let n = old(self).entries@.len();
                        let j = (xorshift_step(seed_state(clock)) as nat) % ((n - 1) as nat);
                        final(self).play_order@[n - 1] == (if j < cur { j } else { j + 1 })
                    })
                } else {
                    &&& final(self).play_order@ == identity_order(old(self).entries@.len())
                    &&& final(self).current == cur
                }
            }),
    {
        self.shuffle = shuffle;
        if self.entries.len() == 0 {
            self.play_order.clear();
            return;
        }
        let current_real = match self.current_real_index() {
            Some(r) => r,
            None => 0,
        };
        let n = self.entries.len();
        if shuffle {
            proof {
                lemma_shuffled_order_is_permutation(n as nat, current_real as nat, clock);
                if n >= 2 {
                    lemma_shuffle_draws_last(n as nat, current_real as nat, clock);
                }
            }
            self.play_order = shuffled(n, current_real, clock);
            self.current = 0;
        } else {
            let mut order: Vec<usize> = Vec::new();
            let mut i: usize = 0;
            while i < n
                invariant
                    i <= n,
                    order@ == identity_order(i as nat),
                decreases n - i,
            {
                order.push(i);
                assert(order@ =~= identity_order((i + 1) as nat));
                i = i + 1;
            }
            self.play_order = order;
            self.current = current_real;
        }
    }

    /// Turns shuffle on or off; a new shuffle is seeded by the clock.
    pub fn set_shuffle(&mut self, shuffle: bool)
        requires
            old(self).wf(),
        ensures
            final(self).wf(),
            final(self).shuffle == shuffle,
            final(self).entries == old(self).entries,
            final(self).repeat == old(self).repeat,
            old(self).entries@.len() == 0 ==> final(self).play_order@.len() == 0,
            old(self).entries@.len() > 0 && !shuffle ==> final(self).play_order@ == identity_order(
                old(self).entries@.len(),
            ) && final(self).real_index() == Some(
                match old(self).real_index() {
                    Some(r) => r,
                    None => 0usize,
                },
            ),
            old(self).entries@.len() > 0 && shuffle ==> final(self).current == 0 && final(self).real_index()
                == Some(
                match old(self).real_index() {
                    Some(r) => r,
                    None => 0usize,
                },
            ),
    {
        let clock = clock_seed();
        let n = self.entries.len();
        self.set_shuffle_seeded(shuffle, clock);
        proof {
            if n > 0 {
                let cur = match old(self).real_index() {
                    Some(r) => r,
                    None => 0usize,
                };
                lemma_shuffled_order_is_permutation(n as nat, cur as nat, clock);
            }
        }
    }

    /// Moves to the next track in play order. Returns whether there is a track to play:
    /// with repeat-track it stays, with repeat-queue it wraps, otherwise it stops at the end.
    pub fn advance_track(&mut self) -> (r: bool)
        requires
            old(self).wf(),
        ensures
            final(self).wf(),
            final(self).entries == old(self).entries,
            final(self).play_order == old(self).play_order,
            final(self).repeat == old(self).repeat,
            final(self).shuffle == old(self).shuffle,
            r == old(self).next_possible(),
            final(self).current == if old(self).play_order@.len() == 0 {
                old(self).current
            } else {
                match old(self).repeat {
                    RepeatMode::Track => old(self).current,
                    RepeatMode::Queue => ((old(self).current + 1) % (old(self).play_order@.len() as int)) as usize,
                    RepeatMode::Off => if old(self).current + 1 < old(self).play_order@.len() {
                        (old(self).current + 1) as usize
                    } else {
                        old(self).current
                    },
                }
            },
    {
        if self.play_order.len() == 0 {
            return false;
        }
        match self.repeat {
            RepeatMode::Track => true,
            RepeatMode::Queue => {
                self.current = (self.current + 1) % self.play_order.len();
                true
            },
            RepeatMode::Off => {
                if self.current + 1 < self.play_order.len() {
                    self.current = self.current + 1;
                    true
                } else {
                    false
                }
            },
        }
    }

    /// Moves to the previous track in play order, with the same rules as `advance_track`.
    pub fn prev(&mut self) -> (r: bool)
        requires
            old(self).wf(),
        ensures
            final(self).wf(),
            final(self).entries == old(self).entries,
            final(self).play_order == old(self).play_order,
            final(self).repeat == old(self).repeat,
            final(self).shuffle == old(self).shuffle,
            r == old(self).previous_possible(),
            final(self).current == if old(self).play_order@.len() == 0 {
                old(self).current
            } else {
                match old(self).repeat {
                    RepeatMode::Track => old(self).current,
                    RepeatMode::Queue => if old(self).current == 0 {
                        (old(self).play_order@.len() - 1) as usize
                    } else {
                        (old(self).current - 1) as usize
                    },
                    RepeatMode::Off => if old(self).current > 0 {
                        (old(self).current - 1) as usize
                    } else {
                        old(self).current
                    },
                }
            },
    {
        if self.play_order.len() == 0 {
            return false;
        }
        match self.repeat {
            RepeatMode::Track => true,
            RepeatMode::Queue => {
                if self.current == 0 {
                    self.current = self.play_order.len() - 1;
                } else {
                    self.current = self.current - 1;
                }
                true
            },
            RepeatMode::Off => {
                if self.current > 0 {
                    self.current = self.current - 1;
                    true
                } else {
                    false
                }
            },
        }
    }

    /// Empties the queue.
    pub fn clear(&mut self)
        ensures
            final(self).wf(),
            final(self).entries@.len() == 0,
            final(self).play_order@.len() == 0,
            final(self).current == 0,
            final(self).repeat == old(self).repeat,
            final(self).shuffle == old(self).shuffle,
    {
        self.entries.clear();
        self.play_order.clear();
        self.current = 0;
    }

    /// Removes entry `idx` (an index into `entries`). The track that was current stays current
    /// unless it is the one removed; then the entry before it becomes current.
    pub fn remove(&mut self, idx: usize)
        requires
            old(self).wf(),
        ensures
            final(self).wf(),
            final(self).repeat == old(self).repeat,
            final(self).shuffle == old(self).shuffle,
            final(self)@ == removed_queue(old(self)@, idx),
            idx >= old(self).entries@.len() ==> *final(self) == *old(self),
            idx < old(self).entries@.len() ==> {
                &&& final(self).entries@ == old(self).entries@.remove(idx as int)
                &&& final(self).play_order@ == removed_order(old(self).play_order@, idx)
                &&& match old(self).real_index() {
                    Some(r) => if final(self).entries@.len() > 0 {
                        final(self).real_index() == Some(
                            if r >= idx {
                                if r > 0 { (r - 1) as usize } else { 0usize }
                            } else {
                                r
                            },
                        )
                    } else {
                        final(self).current == 0
                    },
                    None => final(self).current == 0,
                }
            },
            idx < old(self).entries@.len() ==> match old(self).real_index() {
                Some(r) => r != idx ==> match final(self).real_index() {
                    Some(s) => final(self).entries@[s as int] == old(self).entries@[r as int],
                    None => false,
                },
                None => true,
            },
    {
        if idx < self.entries.len() {
            let playing_real = self.current_real_index();
            let ghost n = self.entries@.len();
            proof {
                lemma_permutation_contains_all(self.play_order@, n);
                assert(self.play_order@.contains(idx));
                lemma_removed_order(self.play_order@, idx, n);
            }
            self.entries.remove(idx);
            let mut new_order: Vec<usize> = Vec::new();
            let mut j: usize = 0;
            while j < self.play_order.len()
                invariant
                    j <= self.play_order@.len(),
                    new_order@ == removed_order(self.play_order@.take(j as int), idx),
                decreases self.play_order@.len() - j,
            {
                let o = self.play_order[j];
                proof {
                    assert(self.play_order@.take(j as int + 1).drop_last() =~= self.play_order@.take(j as int));
                }
                if o == idx {
                } else if o > idx {
                    new_order.push(o - 1);
                } else {
                    new_order.push(o);
                }
                j = j + 1;
            }
            proof {
                assert(self.play_order@.take(self.play_order@.len() as int) =~= self.play_order@);
            }
            self.play_order = new_order;
            assert(is_permutation(self.play_order@, self.entries@.len()));
            match playing_real {
                Some(real_idx) => {
                    let target_real = if real_idx >= idx {
                        if real_idx > 0 { real_idx - 1 } else { 0 }
                    } else {
                        real_idx
                    };
                    let found = position_of(&self.play_order, target_real);
                    proof {
                        self.play_order@.index_of_first_ensures(target_real);
                        match found {
                            Some(pos) => {
                                match self.play_order@.index_of_first(target_real) {
                                    Some(q) => {
                                        if q < pos {
                                        } else if pos < q {
                                        }
                                    },
                                    None => {
                                        assert(self.play_order@[pos as int] == target_real);
                                    },
                                }
                            },
                            None => {},
                        }
                    }
                    match found {
                        Some(pos) => {
                            self.current = pos;
                        },
                        None => {
                            proof {
                                if self.entries@.len() > 0 {
                                    lemma_permutation_contains_all(self.play_order@, self.entries@.len());
                                    assert(self.play_order@.contains(target_real));
                                }
                            }
                            self.current = 0;
                        },
                    }
                },
                None => {
                    self.current = 0;
                },
            }
            if self.current >= self.play_order.len() && self.play_order.len() > 0 {
                self.current = self.play_order.len() - 1;
            }
        }
    }

    /// Makes entry `idx` current: the current position becomes the place of `idx` in the play
    /// order.
    pub fn jump_to_entry(&mut self, idx: usize)
        requires
            old(self).wf(),
            idx < old(self).entries@.len(),
        ensures
            final(self).wf(),
            final(self).entries == old(self).entries,
            final(self).play_order == old(self).play_order,
            final(self).repeat == old(self).repeat,
            final(self).shuffle == old(self).shuffle,
            final(self).real_index() == Some(idx),
            old(self).play_order@.index_of_first(idx) == Some(final(self).current as int),
    {
        let n = self.entries.len();
        proof {
            lemma_permutation_contains_all(self.play_order@, n as nat);
            self.play_order@.index_of_first_ensures(idx);
        }
        match position_of(&self.play_order, idx) {
            Some(pos) => {
                proof {
                    match self.play_order@.index_of_first(idx) {
                        Some(q) => {
                            if q < pos {
                            } else if pos < q {
                            }
                        },
                        None => {},
                    }
                }
                self.current = pos;
            },
            None => {
                self.current = idx;
            },
        }
    }

    /// Removes every entry whose path is in `paths`, front to back. Returns whether the track
    /// that was current is among them; when it is not, it stays current.
    pub fn remove_paths(&mut self, paths: &PathSet) -> (r: bool)
        requires
            old(self).wf(),
        ensures
            final(self).wf(),
            final(self)@ == dequeued(old(self)@, 0, |p: Seq<char>| paths.has(p)),
            final(self).entries@ == old(self).entries@.filter(|e: PlaylistEntry| !paths.has(e.path@)),
            final(self).repeat == old(self).repeat,
            final(self).shuffle == old(self).shuffle,
            r == match old(self).real_index() {
                Some(c) => paths.has(old(self).entries@[c as int].path@),
                None => false,
            },
            !r ==> match old(self).real_index() {
                Some(c) => match final(self).real_index() {
                    Some(d) => final(self).entries@[d as int] == old(self).entries@[c as int],
                    None => false,
                },
                None => true,
            },
    {
        let ghost keep = |e: PlaylistEntry| !paths.has(e.path@);
        let ghost olde = self.entries@;
        let ghost r0 = self.real_index();
        let ghost mut cur: int = match r0 {
            Some(c) => c as int,
            None => 0,
        };
        let ghost mut j: int = 0;
        let n = self.entries.len();
        proof {
            lemma_permutation_contains_all(self.play_order@, n as nat);
            assert(olde.take(0).filter(keep) =~= Seq::<PlaylistEntry>::empty());
            assert(olde.take(0).filter(keep) + olde.skip(0) =~= olde);
            if let Some(c) = r0 {
                assert(self.play_order@.contains(c));
            }
        }
        let mut found = false;
        let mut i: usize = 0;
        while i < self.entries.len()
            invariant
                self.wf(),
                dequeued(self@, i as int, |p: Seq<char>| paths.has(p)) == dequeued(old(self)@, 0, |p: Seq<char>| paths.has(p)),
                self.repeat == old(self).repeat,
                self.shuffle == old(self).shuffle,
                olde == old(self).entries@,
                r0 == old(self).real_index(),
                keep == (|e: PlaylistEntry| !paths.has(e.path@)),
                0 <= j <= olde.len(),
                self.entries@ == olde.take(j).filter(keep) + olde.skip(j),
                i == olde.take(j).filter(keep).len(),
                found ==> (r0 matches Some(c) && paths.has(olde[c as int].path@)),
                !found ==> (r0 matches Some(c) ==> {
                    &&& c < olde.len()
                    &&& 0 <= cur < self.entries@.len()
                    &&& self.real_index() == Some(cur as usize)
                    &&& self.entries@[cur] == olde[c as int]
                    &&& cur < i ==> !paths.has(olde[c as int].path@)
                    &&& cur >= i ==> cur - i == c - j
                }),
                r0 is None ==> olde.len() == 0,
            decreases self.entries@.len() - i,
        {
            let ghost before = self.entries@;
            let ghost a = olde.take(j).filter(keep);
            proof {
                assert(before[i as int] == olde[j]);
                assert(olde.take(j + 1) =~= olde.take(j).push(olde[j]));
                olde.take(j).lemma_filter_push(olde[j], keep);
            }
            if paths.contains(self.entries[i].path.as_str()) {
                let is_current = match self.current_real_index() {
                    Some(c) => c == i,
                    None => false,
                };
                self.remove(i);
                proof {
                    assert(self.entries@ =~= a + olde.skip(j + 1));
                    j = j + 1;
                    if !found {
                        if let Some(c) = r0 {
                            if cur > i {
                                cur = cur - 1;
                            }
                        }
                    }
                }
                if is_current {
                    found = true;
                }
            } else {
                proof {
                    assert(a.push(olde[j]) + olde.skip(j + 1) =~= before);
                    j = j + 1;
                }
                i = i + 1;
            }
        }
        proof {
            assert(olde.skip(j).len() == 0);
            assert(j == olde.len());
            assert(olde.take(j) =~= olde);
        }
        found
    }

    /// Moves entry `idx` one place up in the queue (towards the start). The play order keeps
    /// pointing at the same tracks.
    pub fn move_up(&mut self, idx: usize)
        requires
            old(self).wf(),
        ensures
            final(self).wf(),
            final(self).current == old(self).current,
            final(self).repeat == old(self).repeat,
            final(self).shuffle == old(self).shuffle,
            !(0 < idx < old(self).entries@.len()) ==> *final(self) == *old(self),
            0 < idx < old(self).entries@.len() ==> {
                &&& final(self).entries@ == swap_seq(old(self).entries@, idx as int, idx - 1)
                &&& final(self).play_order@ == exchanged_order(old(self).play_order@, idx, (idx - 1) as usize)
            },
            forall|k: int| 0 <= k < final(self).play_order@.len() ==> final(self).entries@[final(self).play_order@[k] as int]
                == old(self).entries@[old(self).play_order@[k] as int],
    {
        if idx > 0 && idx < self.entries.len() {
            let ghost n = self.entries@.len();
            let e = self.entries.remove(idx);
            self.entries.insert(idx - 1, e);
            proof {
                lemma_remove_insert_swaps(old(self).entries@, idx as int, idx - 1);
            }
            proof {
                lemma_exchanged_order(self.play_order@, idx, (idx - 1) as usize, n);
            }
            self.exchange_in_order(idx, idx - 1);
        }
    }

    /// Moves entry `idx` one place down in the queue (towards the end). The play order keeps
    /// pointing at the same tracks.
    pub fn move_down(&mut self, idx: usize)
        requires
            old(self).wf(),
            idx < usize::MAX,
        ensures
            final(self).wf(),
            final(self).current == old(self).current,
            final(self).repeat == old(self).repeat,
            final(self).shuffle == old(self).shuffle,
            !(idx + 1 < old(self).entries@.len()) ==> *final(self) == *old(self),
            idx + 1 < old(self).entries@.len() ==> {
                &&& final(self).entries@ == swap_seq(old(self).entries@, idx as int, idx + 1)
                &&& final(self).play_order@ == exchanged_order(old(self).play_order@, idx, (idx + 1) as usize)
            },
            forall|k: int| 0 <= k < final(self).play_order@.len() ==> final(self).entries@[final(self).play_order@[k] as int]
                == old(self).entries@[old(self).play_order@[k] as int],
    {
        if idx + 1 < self.entries.len() {
            let ghost n = self.entries@.len();
            let e = self.entries.remove(idx);
            self.entries.insert(idx + 1, e);
            proof {
                lemma_remove_insert_swaps(old(self).entries@, idx as int, idx + 1);
            }
            proof {
                lemma_exchanged_order(self.play_order@, idx, (idx + 1) as usize, n);
            }
            self.exchange_in_order(idx, idx + 1);
        }
    }

    fn exchange_in_order(&mut self, idx: usize, other: usize)
        ensures
            final(self).play_order@ == exchanged_order(old(self).play_order@, idx, other),
            final(self).entries == old(self).entries,
            final(self).current == old(self).current,
            final(self).repeat == old(self).repeat,
            final(self).shuffle == old(self).shuffle,
    {
        let mut k: usize = 0;
        while k < self.play_order.len()
            invariant
                k <= self.play_order@.len(),
                self.play_order@.len() == old(self).play_order@.len(),
                self.entries == old(self).entries,
                self.current == old(self).current,
                self.repeat == old(self).repeat,
                self.shuffle == old(self).shuffle,
                forall|m: int| 0 <= m < k ==> self.play_order@[m] == exchanged_order(old(self).play_order@, idx, other)[m],
                forall|m: int| k <= m < self.play_order@.len() ==> self.play_order@[m] == old(self).play_order@[m],
            decreases self.play_order@.len() - k,
        {
            let o = self.play_order[k];
            if o == idx {
                self.play_order.set(k, other);
            } else if o == other {
                self.play_order.set(k, idx);
            }
            k = k + 1;
        }
        assert(self.play_order@ =~= exchanged_order(old(self).play_order@, idx, other));
    }

    /// The paths of the entries, in queue order.
    pub fn paths(&self) -> (r: Vec<String>)
        ensures
            r@.len() == self.entries@.len(),
            forall|i: int| 0 <= i < r@.len() ==> #[trigger] r@[i]@ == self.entries@[i].path@,
    {
        let mut r: Vec<String> = Vec::new();
        let mut i: usize = 0;
        while i < self.entries.len()
            invariant
                i <= self.entries@.len(),
                r@.len() == i,
                forall|k: int| 0 <= k < i ==> #[trigger] r@[k]@ == self.entries@[k].path@,
            decreases self.entries@.len() - i,
        {
            r.push(self.entries[i].path.clone());
            i = i + 1;
        }
        r
    }


    /// The rows of the queue view, optionally grouped under folder headers.
    pub fn get_visual_items(&self, show_folders: bool, strip_track_numbers: bool) -> (r: Vec<QueueVisualItem>)
        ensures
            r@.map_values(|it: QueueVisualItem| it@) == visual_items(self.entries@, show_folders, strip_track_numbers),
    {
        let mut items: Vec<QueueVisualItem> = Vec::new();
        let mut prev_parent: Option<String> = None;
        let mut idx: usize = 0;
        while idx < self.entries.len()
            invariant
                idx <= self.entries@.len(),
                items@.map_values(|it: QueueVisualItem| it@) == visual_state(self.entries@.take(idx as int), show_folders, strip_track_numbers).0,
                opt_seq(prev_parent) == visual_state(self.entries@.take(idx as int), show_folders, strip_track_numbers).1,
            decreases self.entries@.len() - idx,
        {
            let ghost pre = self.entries@.take(idx as int);
            let ghost items_before = items@;
            assert(self.entries@.take(idx as int + 1).drop_last() =~= pre);
            let entry = &self.entries[idx];
            if show_folders {
                let parent = parent_of(entry.path.as_str());
                let same = match (&prev_parent, &parent) {
                    (Some(a), Some(b)) => same_path(a.as_str(), b.as_str()),
                    _ => false,
                };
                if !same {
                    if prev_parent.is_some() {
                        items.push(QueueVisualItem::Separator);
                    }
                    let name = match &parent {
                        Some(p) => match file_name_of(p.as_str()) {
                            Some(n) => n,
                            None => String::from_str("Unknown"),
                        },
                        None => String::from_str("Unknown"),
                    };
                    items.push(QueueVisualItem::Header { name });
                    prev_parent = parent;
                }
            }
            let mut title = String::from_str(entry.metadata.display_title(strip_track_numbers));
            title.append(" - ");
            title.append(entry.metadata.display_artist());
            items.push(QueueVisualItem::Track { entry_idx: idx, title, duration: String::new() });
            proof {
                let views = items@.map_values(|it: QueueVisualItem| it@);
                let expected = visual_state(self.entries@.take(idx as int + 1), show_folders, strip_track_numbers).0;
                assert(views =~= expected);
            }
            idx = idx + 1;
        }
        assert(self.entries@.take(self.entries@.len() as int) =~= self.entries@);
        items
    }

    /// The entry index shown at row `visual_idx` of the queue view, if that row is a track.
    pub fn visual_to_real(&self, visual_idx: usize, show_folders: bool, strip_track_numbers: bool) -> (r: Option<usize>)
        ensures
            r == (if visual_idx < visual_items(self.entries@, show_folders, strip_track_numbers).len() {
                match visual_items(self.entries@, show_folders, strip_track_numbers)[visual_idx as int] {
                    VisualItemView::Track(i, _, _) => Some(i),
                    _ => None,
                }
            } else {
                None
            }),
    {
        let items = self.get_visual_items(show_folders, strip_track_numbers);
        if visual_idx < items.len() {
            proof {
                assert(items@.map_values(|it: QueueVisualItem| it@)[visual_idx as int] == items@[visual_idx as int]@);
            }
            match &items[visual_idx] {
                QueueVisualItem::Track { entry_idx, .. } => Some(*entry_idx),
                _ => None,
            }
        } else {
            None
        }
    }

}

} // verus!
