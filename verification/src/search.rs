//! Fuzzy search over the library: rows whose name matches the query, best score first.

use vstd::prelude::*;

use crate::events::{UiState, UiView};
use crate::library::{entry_name, entry_view, EntryView, FlatLibraryItem, LibraryEntry};
use crate::playlist::{is_permutation, lemma_permutation_contains_all};

verus! {

/// The score `SkimMatcherV2::default().fuzzy_match(choice, pattern)` gives, if the pattern
/// matches.
pub uninterp spec fn skim_score(choice: Seq<char>, pattern: Seq<char>) -> Option<i64>;

/// `fuzzy_match` of a default `SkimMatcherV2` (fuzzy-matcher): the score of `choice` for
/// `pattern`, or `None` when the pattern does not match. An empty pattern matches with
/// score 0.
#[verifier::external_body]
fn fuzzy_score(choice: &str, pattern: &str) -> (r: Option<i64>)
    ensures
        r == skim_score(choice@, pattern@),
        pattern@.len() == 0 ==> r == Some(0i64),
{
    fuzzy_matcher::FuzzyMatcher::fuzzy_match(&fuzzy_matcher::skim::SkimMatcherV2::default(), choice, pattern)
}

/// The rows whose entry name matches `query`, in row order, each with its score.
pub open spec fn scored_rows(rows: Seq<FlatLibraryItem>, query: Seq<char>) -> Seq<(i64, EntryView)>
    decreases rows.len(),
{
    if rows.len() == 0 {
        Seq::empty()
    } else {
        let e = rows.last().entry;
        scored_rows(rows.drop_last(), query) + match skim_score(entry_name(e), query) {
            Some(s) => seq![(s, entry_view(e))],
            None => Seq::empty(),
        }
    }
}

/// The scored rows are exactly the rows whose entry name the query matches: each carries the
/// score of its row's name, and every row with a score is there.
proof fn lemma_scored_rows_members(rows: Seq<FlatLibraryItem>, query: Seq<char>)
    ensures
        scored_rows(rows, query).len() <= rows.len(),
        forall|k: int| 0 <= k < scored_rows(rows, query).len() ==> exists|i: int|
            0 <= i < rows.len() && skim_score(entry_name(#[trigger] rows[i].entry), query) == Some((#[trigger] scored_rows(rows, query)[k]).0)
                && scored_rows(rows, query)[k].1 == entry_view(rows[i].entry),
        forall|i: int| 0 <= i < rows.len() && skim_score(entry_name(#[trigger] rows[i].entry), query) is Some ==> exists|k: int|
            0 <= k < scored_rows(rows, query).len() && scored_rows(rows, query)[k] == (
            skim_score(entry_name(rows[i].entry), query)->0, entry_view(rows[i].entry)),
    decreases rows.len(),
{
    if rows.len() > 0 {
        let pre = rows.drop_last();
        lemma_scored_rows_members(pre, query);
        let a = scored_rows(pre, query);
        let e = rows.last().entry;
        let t = match skim_score(entry_name(e), query) {
            Some(sc) => seq![(sc, entry_view(e))],
            None => Seq::<(i64, EntryView)>::empty(),
        };
        let sr = scored_rows(rows, query);
        assert(sr == a + t);
        assert forall|k: int| 0 <= k < sr.len() implies exists|i: int|
            0 <= i < rows.len() && skim_score(entry_name(#[trigger] rows[i].entry), query) == Some((#[trigger] sr[k]).0)
                && sr[k].1 == entry_view(rows[i].entry) by {
            if k < a.len() {
                assert(sr[k] == a[k]);
                let i = choose|i: int| 0 <= i < pre.len() && skim_score(entry_name(#[trigger] pre[i].entry), query) == Some(a[k].0)
                    && a[k].1 == entry_view(pre[i].entry);
                assert(pre[i] == rows[i]);
            } else {
                assert(sr[k] == t[k - a.len()]);
                assert(rows[rows.len() - 1] == rows.last());
            }
        }
        assert forall|i: int| 0 <= i < rows.len() && skim_score(entry_name(#[trigger] rows[i].entry), query) is Some implies exists|k: int|
            0 <= k < sr.len() && sr[k] == (skim_score(entry_name(rows[i].entry), query)->0, entry_view(rows[i].entry)) by {
            if i < pre.len() {
                assert(pre[i] == rows[i]);
                let k = choose|k: int| 0 <= k < a.len() && a[k] == (
                    skim_score(entry_name(pre[i].entry), query)->0, entry_view(pre[i].entry));
                assert(sr[k] == a[k]);
            } else {
                assert(rows[i] == rows.last());
                assert(sr[a.len() as int] == t[0]);
            }
        }
    }
}

/// A search finds exactly the library rows whose shown name the query matches: every result
/// is the entry of a row whose name (not its path) has a fuzzy score for the query, and the
/// entry of every such row is among the results.
pub proof fn lemma_search_results_match_names(rows: Seq<FlatLibraryItem>, query: Seq<char>, r: Seq<EntryView>)
    requires
        ranked(scored_rows(rows, query), r),
        rows.len() <= usize::MAX,
    ensures
        forall|j: int| 0 <= j < r.len() ==> exists|i: int|
            0 <= i < rows.len() && #[trigger] r[j] == entry_view(rows[i].entry) && skim_score(entry_name(rows[i].entry), query) is Some,
        forall|i: int| 0 <= i < rows.len() && skim_score(entry_name(#[trigger] rows[i].entry), query) is Some ==> exists|j: int|
            0 <= j < r.len() && r[j] == entry_view(rows[i].entry),
{
    lemma_scored_rows_members(rows, query);
    let sr = scored_rows(rows, query);
    let p = choose|p: Seq<usize>| #[trigger] ranked_by(sr, r, p);
    assert forall|j: int| 0 <= j < r.len() implies exists|i: int|
        0 <= i < rows.len() && #[trigger] r[j] == entry_view(rows[i].entry) && skim_score(entry_name(rows[i].entry), query) is Some by {
        let k = p[j] as int;
        assert(r[j] == sr[k].1);
        let i = choose|i: int| 0 <= i < rows.len() && skim_score(entry_name(#[trigger] rows[i].entry), query) == Some(sr[k].0)
            && sr[k].1 == entry_view(rows[i].entry);
    }
    lemma_permutation_contains_all(p, sr.len());
    assert forall|i: int| 0 <= i < rows.len() && skim_score(entry_name(#[trigger] rows[i].entry), query) is Some implies exists|j: int|
        0 <= j < r.len() && r[j] == entry_view(rows[i].entry) by {
        let k = choose|k: int| 0 <= k < sr.len() && sr[k] == (skim_score(entry_name(rows[i].entry), query)->0, entry_view(rows[i].entry));
        assert(p.contains(k as usize));
        let j = choose|j: int| 0 <= j < p.len() && p[j] == k as usize;
        assert(r[j] == sr[k].1);
    }
}

/// Search results come best first: each result is one of the scored entries, each scored
/// entry is one result, and no result has a lower score than a result after it.
pub proof fn lemma_results_best_first(s: Seq<(i64, EntryView)>, r: Seq<EntryView>)
    requires
        ranked(s, r),
    ensures
        exists|p: Seq<usize>| {
            &&& is_permutation(p, s.len())
            &&& forall|i: int| 0 <= i < r.len() ==> r[i] == #[trigger] s[p[i] as int].1
            &&& forall|i: int, j: int| 0 <= i < j < r.len() ==> #[trigger] s[p[i] as int].0 >= #[trigger] s[p[j] as int].0
        },
{
    let p = choose|p: Seq<usize>| #[trigger] ranked_by(s, r, p);
    assert forall|i: int, j: int| 0 <= i < j < r.len() implies #[trigger] s[p[i] as int].0 >= #[trigger] s[p[j] as int].0 by {
        assert(s[p[i] as int].0 > s[p[j] as int].0 || (s[p[i] as int].0 == s[p[j] as int].0 && p[i] < p[j]));
    }
}

/// `r` lists the entries of `s` by descending score, entries with equal scores in their
/// order in `s`; `p` gives the position in `s` of each.
pub open spec fn ranked_by(s: Seq<(i64, EntryView)>, r: Seq<EntryView>, p: Seq<usize>) -> bool {
    &&& is_permutation(p, s.len())
    &&& r.len() == s.len()
    &&& forall|i: int| 0 <= i < r.len() ==> r[i] == s[p[i] as int].1
    &&& forall|i: int, j: int|
        0 <= i < j < r.len() ==> (#[trigger] s[p[i] as int]).0 > (#[trigger] s[p[j] as int]).0 || (s[p[i] as int].0 == s[p[j] as int].0 && p[i] < p[j])
}

pub open spec fn ranked(s: Seq<(i64, EntryView)>, r: Seq<EntryView>) -> bool {
    exists|p: Seq<usize>| #[trigger] ranked_by(s, r, p)
}

pub open spec fn scored_view(v: Seq<(i64, LibraryEntry)>) -> Seq<(i64, EntryView)> {
    v.map_values(|t: (i64, LibraryEntry)| (t.0, entry_view(t.1)))
}

pub open spec fn entry_views(v: Seq<LibraryEntry>) -> Seq<EntryView> {
    v.map_values(|e: LibraryEntry| entry_view(e))
}

/// Orders scored entries by descending score; entries with equal scores keep their order.
pub fn rank_matches(scored: Vec<(i64, LibraryEntry)>) -> (r: Vec<LibraryEntry>)
    ensures
        ranked(scored_view(scored@), entry_views(r@)),
{
    let ghost s = scored@;
    let ghost sv = scored_view(scored@);
    let n = scored.len();
    let mut src = scored;
    let mut out: Vec<LibraryEntry> = Vec::new();
    let mut scores: Vec<i64> = Vec::new();
    let ghost mut p: Seq<usize> = Seq::empty();
    assert(s.take(n as int) =~= s);
    while src.len() > 0
        invariant
            n == s.len(),
            sv == scored_view(s),
            src@.len() <= n,
            src@ == s.take(src@.len() as int),
            out@.len() == scores@.len(),
            out@.len() == p.len(),
            out@.len() == n - src@.len(),
            forall|k: int| 0 <= k < out@.len() ==> #[trigger] entry_view(out@[k]) == sv[p[k] as int].1,
            forall|k: int| 0 <= k < out@.len() ==> #[trigger] scores@[k] == sv[p[k] as int].0,
            forall|k: int| 0 <= k < p.len() ==> src@.len() <= #[trigger] p[k] < n,
            p.no_duplicates(),
            forall|i: int, j: int|
                0 <= i < j < p.len() ==> (#[trigger] sv[p[i] as int]).0 > (#[trigger] sv[p[j] as int]).0 || (sv[p[i] as int].0 == sv[p[j] as int].0 && p[i] < p[j]),
        decreases src@.len(),
    {
        let m = src.len() - 1;
        let ghost before_src = src@;
        let (score, e) = src.pop().unwrap();
        proof {
            assert(before_src.last() == s[m as int]);
            assert(src@ =~= s.take(m as int));
            assert(sv[m as int] == (score, entry_view(e)));
        }
        let mut k: usize = 0;
        while k < out.len() && scores[k] > score
            invariant
                k <= out@.len(),
                out@.len() == scores@.len(),
                forall|t: int| 0 <= t < k ==> #[trigger] scores@[t] > score,
            decreases out@.len() - k,
        {
            k = k + 1;
        }
        let ghost oldp = p;
        let ghost oldout = out@;
        let ghost oldscores = scores@;
        out.insert(k, e);
        scores.insert(k, score);
        proof {
            p = oldp.insert(k as int, m);
            assert forall|i: int, j: int|
                0 <= i < j < p.len() implies (#[trigger] sv[p[i] as int]).0 > (#[trigger] sv[p[j] as int]).0 || (sv[p[i] as int].0 == sv[p[j] as int].0 && p[i] < p[j]) by {
                if i < k && j == k {
                    assert(oldscores[i] == sv[oldp[i] as int].0);
                } else if i < k && j > k {
                    assert(p[j] == oldp[j - 1]);
                } else if i == k {
                    assert(p[j] == oldp[j - 1]);
                    assert(oldscores[k as int] == sv[oldp[k as int] as int].0);
                    if j - 1 > k {
                        assert(sv[oldp[k as int] as int].0 >= sv[oldp[j - 1] as int].0);
                    }
                } else if i > k {
                    assert(p[j] == oldp[j - 1]);
                    assert(p[i] == oldp[i - 1]);
                }
            }
            assert forall|a: int, b: int| 0 <= a < p.len() && 0 <= b < p.len() && a != b implies p[a] != p[b] by {
                if a < k && b < k {
                    assert(oldp[a] != oldp[b]);
                } else if a < k && b > k {
                    assert(oldp[a] != oldp[b - 1]);
                } else if a > k && b < k {
                    assert(oldp[a - 1] != oldp[b]);
                } else if a > k && b > k {
                    assert(oldp[a - 1] != oldp[b - 1]);
                }
            }
            assert forall|t: int| 0 <= t < out@.len() implies #[trigger] entry_view(out@[t]) == sv[p[t] as int].1 by {
                if t > k {
                    assert(out@[t] == oldout[t - 1]);
                    assert(p[t] == oldp[t - 1]);
                } else if t < k {
                    assert(out@[t] == oldout[t]);
                    assert(p[t] == oldp[t]);
                }
            }
            assert forall|t: int| 0 <= t < out@.len() implies #[trigger] scores@[t] == sv[p[t] as int].0 by {
                if t > k {
                    assert(scores@[t] == oldscores[t - 1]);
                    assert(p[t] == oldp[t - 1]);
                } else if t < k {
                    assert(scores@[t] == oldscores[t]);
                    assert(p[t] == oldp[t]);
                }
            }
        }
    }
    proof {
        let rv = entry_views(out@);
        assert forall|i: int| 0 <= i < rv.len() implies rv[i] == sv[p[i] as int].1 by {
            assert(entry_view(out@[i]) == sv[p[i] as int].1);
        }
        assert(ranked_by(sv, rv, p));
    }
    out
}

/// The rows whose name matches `query`, in row order, with their scores.
pub fn score_rows(rows: &Vec<FlatLibraryItem>, query: &str) -> (r: Vec<(i64, LibraryEntry)>)
    ensures
        scored_view(r@) == scored_rows(rows@, query@),
{
    let mut out: Vec<(i64, LibraryEntry)> = Vec::new();
    let mut i: usize = 0;
    while i < rows.len()
        invariant
            i <= rows@.len(),
            scored_view(out@) == scored_rows(rows@.take(i as int), query@),
        decreases rows@.len() - i,
    {
        let ghost before = out@;
        assert(rows@.take(i + 1).drop_last() =~= rows@.take(i as int));
        let e = &rows[i].entry;
        match fuzzy_score(e.name(), query) {
            Some(score) => {
                out.push((score, e.duplicate()));
                assert(scored_view(out@) =~= scored_view(before) + seq![(score, entry_view(*e))]);
            },
            None => {
                assert(scored_view(out@) =~= scored_view(before) + Seq::<(i64, EntryView)>::empty());
            },
        }
        i = i + 1;
    }
    assert(rows@.take(rows@.len() as int) =~= rows@);
    out
}

/// Runs the search query of the view state over the fully expanded library rows: no results
/// for an empty query, otherwise the matching entries, best score first. The cursor returns
/// to the first result.
pub fn run_search(ui: &mut UiState, rows: &Vec<FlatLibraryItem>) -> (r: Vec<LibraryEntry>)
    ensures
        final(ui)@ == (UiView { refresh_needed: true, search_cursor: 0, ..old(ui)@ }),
        old(ui).search_query@.len() == 0 ==> r@.len() == 0,
        old(ui).search_query@.len() > 0 ==> ranked(scored_rows(rows@, old(ui).search_query@), entry_views(r@)),
        forall|j: int| 0 <= j < r@.len() ==> exists|i: int|
            0 <= i < rows@.len() && entry_view(#[trigger] r@[j]) == entry_view(rows@[i].entry)
                && skim_score(entry_name(rows@[i].entry), old(ui).search_query@) is Some,
        old(ui).search_query@.len() > 0 ==> forall|i: int|
            0 <= i < rows@.len() && skim_score(entry_name(#[trigger] rows@[i].entry), old(ui).search_query@) is Some
                ==> exists|j: int| 0 <= j < r@.len() && entry_view(r@[j]) == entry_view(rows@[i].entry),
{
    let row_count: usize = rows.len();
    ui.refresh_needed = true;
    ui.search_cursor = 0;
    if ui.search_query.as_str().is_empty() {
        return Vec::new();
    }
    let scored = score_rows(rows, ui.search_query.as_str());
    let r = rank_matches(scored);
    proof {
        let v = entry_views(r@);
        assert(rows@.len() == row_count);
        lemma_search_results_match_names(rows@, old(ui).search_query@, v);
        assert forall|j: int| 0 <= j < r@.len() implies exists|i: int|
            0 <= i < rows@.len() && entry_view(#[trigger] r@[j]) == entry_view(rows@[i].entry)
                && skim_score(entry_name(rows@[i].entry), old(ui).search_query@) is Some by {
            assert(v[j] == entry_view(r@[j]));
        }
        assert forall|i: int|
            0 <= i < rows@.len() && skim_score(entry_name(#[trigger] rows@[i].entry), old(ui).search_query@) is Some
                implies exists|j: int| 0 <= j < r@.len() && entry_view(r@[j]) == entry_view(rows@[i].entry) by {
            let j = choose|j: int| 0 <= j < v.len() && v[j] == entry_view(rows@[i].entry);
            assert(v[j] == entry_view(r@[j]));
        }
    }
    r
}

} // verus!
