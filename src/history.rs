//! The commit log: the walk's commits, kept in walk order when no filter is
//! given, or fuzzy-matched against a filter text and ranked best match first.

use vstd::prelude::*;
use crate::date::CommitDate;

verus! {

/// The number of commits on one page of the log.
pub const PAGE_SIZE: usize = 100;

/// What the skim matcher of fuzzy-matcher scores a text against a pattern:
/// it depends on the two texts alone. None means no match.
pub uninterp spec fn skim_score(choice: Seq<char>, pattern: Seq<char>) -> Option<i64>;

/// Relies on `SkimMatcherV2::fuzzy_match` of fuzzy-matcher with its default
/// settings; an empty pattern scores `Some(0)`.
#[verifier::external_body]
fn fuzzy_score(choice: &str, pattern: &str) -> (r: Option<i64>)
    ensures
        r == skim_score(choice@, pattern@),
        pattern@.len() == 0 ==> r == Some(0i64),
{
    fuzzy_matcher::FuzzyMatcher::fuzzy_match(
        &fuzzy_matcher::skim::SkimMatcherV2::default(),
        choice,
        pattern,
    )
}

/// Lexicographic order of pairs.
pub open spec fn pair_le(a: (u64, usize), b: (u64, usize)) -> bool {
    a.0 < b.0 || (a.0 == b.0 && a.1 <= b.1)
}

/// Relies on `slice::sort`: the same elements, in ascending order; tuples of
/// integers compare lexicographically.
#[verifier::external_body]
fn sort_pairs(v: &mut Vec<(u64, usize)>)
    ensures
        final(v)@.to_multiset() == old(v)@.to_multiset(),
        forall|i: int, j: int| 0 <= i < j < final(v)@.len() ==> pair_le(final(v)@[i], final(v)@[j]),
{
    v.sort();
}

/// One commit of the walk, as read from the repository.
pub struct WalkedCommit {
    pub id: String,
    /// The full message; none where it is not valid UTF-8.
    pub message: Option<String>,
    pub summary: Option<String>,
    pub body: Option<String>,
    pub author: String,
    pub date: CommitDate,
}

/// One commit of the log.
pub struct Commit {
    pub id: String,
    pub summary: Option<String>,
    pub body: Option<String>,
    pub author: String,
    pub date: CommitDate,
    /// The relevance score against the filter; none when no filter is active.
    pub sort_score: Option<i64>,
}

impl Commit {
    /// The commit as shown without a filter: no score.
    pub fn from_walked(w: WalkedCommit) -> (r: Commit)
        ensures
            commit_from(w, None, r),
    {
        commit_moved(w)
    }

    /// The relevance score against the filter; none when no filter is active.
    pub fn sort_score(&self) -> (r: Option<i64>)
        ensures
            r == self.sort_score,
    {
        self.sort_score
    }
}

/// `c` is the walked commit `w` with the relevance score `score`.
pub open spec fn commit_from(w: WalkedCommit, score: Option<i64>, c: Commit) -> bool {
    &&& c.id == w.id
    &&& c.summary == w.summary
    &&& c.body == w.body
    &&& c.author == w.author
    &&& c.date == w.date
    &&& c.sort_score == score
}

/// An empty filter text is no filter.
pub open spec fn active_filter(filter: Option<Seq<char>>) -> Option<Seq<char>> {
    match filter {
        Some(p) => if p.len() == 0 {
            None
        } else {
            Some(p)
        },
        None => None,
    }
}

/// A filter as text.
pub open spec fn filter_view(filter: Option<&str>) -> Option<Seq<char>> {
    match filter {
        Some(p) => Some(p@),
        None => None,
    }
}

/// The filter that takes effect: none for an absent or empty text.
pub fn effective_filter(filter: Option<&str>) -> (r: Option<&str>)
    ensures
        filter_view(r) == active_filter(filter_view(filter)),
{
    match filter {
        Some(p) => if p.is_empty() {
            None
        } else {
            Some(p)
        },
        None => None,
    }
}

/// The score of a walked commit's message against a pattern; none where the
/// message cannot be read.
pub open spec fn message_score(w: WalkedCommit, pattern: Seq<char>) -> Option<i64> {
    match w.message {
        Some(m) => skim_score(m@, pattern),
        None => None,
    }
}

/// The scores of all walked commits against a pattern.
pub open spec fn scores_for(walked: Seq<WalkedCommit>, pattern: Seq<char>) -> Seq<Option<i64>> {
    Seq::new(walked.len(), |i: int| message_score(walked[i], pattern))
}

/// Scores each walked commit's message against a pattern.
pub fn match_scores(walked: &Vec<WalkedCommit>, pattern: &str) -> (r: Vec<Option<i64>>)
    ensures
        r@ == scores_for(walked@, pattern@),
{
    let mut r: Vec<Option<i64>> = Vec::new();
    let mut i: usize = 0;
    while i < walked.len()
        invariant
            i <= walked.len(),
            r@ == scores_for(walked@, pattern@).take(i as int),
        decreases walked.len() - i,
    {
        let s = match &walked[i].message {
            Some(m) => fuzzy_score(m.as_str(), pattern),
            None => None,
        };
        r.push(s);
        i = i + 1;
        assert(r@ =~= scores_for(walked@, pattern@).take(i as int));
    }
    assert(r@ =~= scores_for(walked@, pattern@));
    r
}

/// Commit `i` ranks before commit `j`: a higher score, or an equal score and
/// an earlier place in the walk.
pub open spec fn rank_before(scores: Seq<Option<i64>>, i: int, j: int) -> bool {
    let a = scores[i]->Some_0;
    let b = scores[j]->Some_0;
    a > b || (a == b && i < j)
}

/// `idx` lists exactly the matched commits, best match first, ties in walk
/// order.
pub open spec fn is_ranking(scores: Seq<Option<i64>>, idx: Seq<usize>) -> bool {
    &&& forall|k: int| 0 <= k < idx.len() ==> #[trigger] idx[k] < scores.len() && scores[idx[k] as int] is Some
    &&& forall|a: int, b: int| 0 <= a < b < idx.len() ==> rank_before(scores, #[trigger] idx[a] as int, #[trigger] idx[b] as int)
    &&& forall|j: int| 0 <= j < scores.len() && (#[trigger] scores[j]) is Some ==> idx.contains(j as usize)
}

/// The sort key of a score: higher scores get lower keys.
pub open spec fn key_of(s: i64) -> u64 {
    (i64::MAX as int - s as int) as u64
}

/// A sort pair names a matched commit and carries the key of its score.
pub open spec fn valid_pair(scores: Seq<Option<i64>>, p: (u64, usize)) -> bool {
    &&& p.1 < scores.len()
    &&& scores[p.1 as int] is Some
    &&& p.0 == key_of(scores[p.1 as int]->Some_0)
}

/// The positions of the matched commits, best match first, ties in walk
/// order.
pub fn rank_matches(scores: &Vec<Option<i64>>) -> (r: Vec<usize>)
    ensures
        is_ranking(scores@, r@),
{
    let mut pairs: Vec<(u64, usize)> = Vec::new();
    let mut i: usize = 0;
    while i < scores.len()
        invariant
            i <= scores.len(),
            forall|k: int| 0 <= k < pairs@.len() ==> valid_pair(scores@, #[trigger] pairs@[k]) && pairs@[k].1 < i,
            forall|a: int, b: int| 0 <= a < b < pairs@.len() ==> (#[trigger] pairs@[a]).1 < (#[trigger] pairs@[b]).1,
            forall|j: int| 0 <= j < i && (#[trigger] scores@[j]) is Some ==> exists|k: int| 0 <= k < pairs@.len() && (#[trigger] pairs@[k]).1 == j,
        decreases scores.len() - i,
    {
        let ghost before = pairs@;
        match scores[i] {
            Some(s) => {
                let key: u64 = (i64::MAX as i128 - s as i128) as u64;
                pairs.push((key, i));
                assert(valid_pair(scores@, pairs@[pairs@.len() - 1]));
                assert(pairs@[pairs@.len() - 1].1 == i);
            },
            None => {},
        }
        assert forall|j: int| 0 <= j < i && (#[trigger] scores@[j]) is Some implies exists|k: int| 0 <= k < pairs@.len() && (#[trigger] pairs@[k]).1 == j by {
            let k0 = choose|k: int| 0 <= k < before.len() && (#[trigger] before[k]).1 == j;
            assert(pairs@[k0] == before[k0]);
        }
        i = i + 1;
    }
    let ghost unsorted = pairs@;
    proof {
        assert(unsorted.no_duplicates());
        unsorted.lemma_multiset_has_no_duplicates();
    }
    sort_pairs(&mut pairs);
    proof {
        broadcast use vstd::seq_lib::group_to_multiset_ensures;
        assert(forall|x: (u64, usize)| pairs@.to_multiset().contains(x) ==> pairs@.to_multiset().count(x) == 1);
        pairs@.lemma_multiset_has_no_duplicates_conv();
        assert forall|k: int| 0 <= k < pairs@.len() implies valid_pair(scores@, #[trigger] pairs@[k]) by {
            assert(pairs@.to_multiset().count(pairs@[k]) > 0);
            assert(unsorted.contains(pairs@[k]));
        }
        assert forall|j: int| 0 <= j < scores@.len() && (#[trigger] scores@[j]) is Some implies exists|k: int| 0 <= k < pairs@.len() && (#[trigger] pairs@[k]).1 == j by {
            let k0 = choose|k: int| 0 <= k < unsorted.len() && (#[trigger] unsorted[k]).1 == j;
            assert(unsorted.contains(unsorted[k0]));
            assert(unsorted.to_multiset().count(unsorted[k0]) > 0);
            assert(pairs@.contains(unsorted[k0]));
        }
    }
    let mut r: Vec<usize> = Vec::new();
    let mut k: usize = 0;
    while k < pairs.len()
        invariant
            k <= pairs.len(),
            r@.len() == k,
            forall|m: int| 0 <= m < k ==> r@[m] == (#[trigger] pairs@[m]).1,
        decreases pairs.len() - k,
    {
        r.push(pairs[k].1);
        k = k + 1;
    }
    proof {
        assert forall|k: int| 0 <= k < r@.len() implies #[trigger] r@[k] < scores@.len() && scores@[r@[k] as int] is Some by {
            assert(valid_pair(scores@, pairs@[k]));
        }
        assert forall|a: int, b: int| 0 <= a < b < r@.len() implies rank_before(scores@, #[trigger] r@[a] as int, #[trigger] r@[b] as int) by {
            let pa = pairs@[a];
            let pb = pairs@[b];
            assert(valid_pair(scores@, pa));
            assert(valid_pair(scores@, pb));
            assert(pair_le(pa, pb));
            assert(pa != pb);
            let sa = scores@[pa.1 as int]->Some_0;
            let sb = scores@[pb.1 as int]->Some_0;
            assert(0 <= i64::MAX as int - sa as int <= u64::MAX as int);
            assert(0 <= i64::MAX as int - sb as int <= u64::MAX as int);
            if pa.1 == pb.1 {
                assert(pa == pb);
            }
        }
        assert forall|j: int| 0 <= j < scores@.len() && (#[trigger] scores@[j]) is Some implies r@.contains(j as usize) by {
            let k0 = choose|k: int| 0 <= k < pairs@.len() && (#[trigger] pairs@[k]).1 == j;
            assert(r@[k0] == j);
        }
    }
    r
}

fn copy_text(s: &Option<String>) -> (r: Option<String>)
    ensures
        r == *s,
{
    match s {
        Some(t) => Some(t.clone()),
        None => None,
    }
}

fn commit_copied(w: &WalkedCommit, score: Option<i64>) -> (r: Commit)
    ensures
        commit_from(*w, score, r),
{
    Commit {
        id: w.id.clone(),
        summary: copy_text(&w.summary),
        body: copy_text(&w.body),
        author: w.author.clone(),
        date: w.date,
        sort_score: score,
    }
}

fn commit_moved(w: WalkedCommit) -> (r: Commit)
    ensures
        commit_from(w, None, r),
{
    Commit {
        id: w.id,
        summary: w.summary,
        body: w.body,
        author: w.author,
        date: w.date,
        sort_score: None,
    }
}

/// `r` holds the matched commits `idx` of the walk, in that order, each
/// with its score.
pub open spec fn ranked_log(
    walked: Seq<WalkedCommit>,
    pattern: Seq<char>,
    idx: Seq<usize>,
    r: Seq<Commit>,
) -> bool {
    let scores = scores_for(walked, pattern);
    &&& is_ranking(scores, idx)
    &&& r.len() == idx.len()
    &&& forall|k: int| 0 <= k < r.len() ==> commit_from(walked[#[trigger] idx[k] as int], scores[idx[k] as int], r[k])
}

/// `r` is the log of the walk under the filter: with no active filter every
/// walked commit in walk order and without a score; otherwise the matched
/// commits with their scores, best match first, ties in walk order.
pub open spec fn arranged(walked: Seq<WalkedCommit>, filter: Option<Seq<char>>, r: Seq<Commit>) -> bool {
    match active_filter(filter) {
        None => {
            &&& r.len() == walked.len()
            &&& forall|i: int| 0 <= i < walked.len() ==> commit_from(walked[i], None, #[trigger] r[i])
        },
        Some(p) => exists|idx: Seq<usize>| ranked_log(walked, p, idx, r),
    }
}

/// The log of the walk under the filter (see `arranged`).
pub fn arrange_commits(walked: Vec<WalkedCommit>, filter: Option<&str>) -> (r: Vec<Commit>)
    ensures
        arranged(walked@, filter_view(filter), r@),
{
    match effective_filter(filter) {
        None => {
            let ghost all = walked@;
            let mut r: Vec<Commit> = Vec::new();
            for w in it: walked.into_iter()
                invariant
                    it.seq() == all,
                    r@.len() == it.index(),
                    forall|i: int| 0 <= i < it.index() ==> commit_from(all[i], None, #[trigger] r@[i]),
            {
                assert(w == all[it.index()]);
                r.push(commit_moved(w));
            }
            r
        },
        Some(pattern) => {
            let scores = match_scores(&walked, pattern);
            let idx = rank_matches(&scores);
            let mut r: Vec<Commit> = Vec::new();
            let mut k: usize = 0;
            while k < idx.len()
                invariant
                    k <= idx.len(),
                    scores@ == scores_for(walked@, pattern@),
                    is_ranking(scores@, idx@),
                    r@.len() == k,
                    forall|m: int| 0 <= m < k ==> commit_from(walked@[#[trigger] idx@[m] as int], scores@[idx@[m] as int], r@[m]),
                decreases idx.len() - k,
            {
                let j = idx[k];
                assert(j < scores@.len());
                r.push(commit_copied(&walked[j], scores[j]));
                k = k + 1;
            }
            assert(ranked_log(walked@, pattern@, idx@, r@));
            r
        },
    }
}

/// An empty filter text is no filter: it gives the same log as none.
pub proof fn lemma_empty_filter_is_no_filter(walked: Seq<WalkedCommit>, r: Seq<Commit>)
    ensures
        arranged(walked, Some(Seq::empty()), r) <==> arranged(walked, None, r),
{
}

/// Without a filter the log is the walk itself: the same commits in the same
/// order, so whatever order the walk has (children before their parents) the
/// log has too.
pub proof fn lemma_unfiltered_log_keeps_walk_order(walked: Seq<WalkedCommit>, r: Seq<Commit>)
    requires
        arranged(walked, None, r),
    ensures
        r.len() == walked.len(),
        forall|i: int| 0 <= i < r.len() ==> (#[trigger] r[i]).id == walked[i].id,
{
    assert forall|i: int| 0 <= i < r.len() implies (#[trigger] r[i]).id == walked[i].id by {
        assert(commit_from(walked[i], None, r[i]));
    }
}

/// Under a non-empty filter every commit of the log matches it, with the
/// score that the matcher gives its message, and the log runs from the best
/// score down, commits with equal scores in walk order.
pub proof fn lemma_filtered_log_is_ranked(walked: Seq<WalkedCommit>, pattern: Seq<char>, r: Seq<Commit>)
    requires
        pattern.len() > 0,
        arranged(walked, Some(pattern), r),
    ensures
        exists|idx: Seq<usize>|
            {
                &&& idx.len() == r.len()
                &&& forall|k: int| 0 <= k < r.len() ==> {
                    &&& #[trigger] idx[k] < walked.len()
                    &&& r[k].id == walked[idx[k] as int].id
                    &&& r[k].sort_score is Some
                    &&& r[k].sort_score == message_score(walked[idx[k] as int], pattern)
                }
                &&& forall|a: int, b: int| 0 <= a < b < r.len() ==> {
                    ||| (#[trigger] r[a]).sort_score->Some_0 > (#[trigger] r[b]).sort_score->Some_0
                    ||| (r[a].sort_score == r[b].sort_score && idx[a] < idx[b])
                }
            },
{
    let idx = choose|idx: Seq<usize>| ranked_log(walked, pattern, idx, r);
    let scores = scores_for(walked, pattern);
    assert forall|k: int| 0 <= k < r.len() implies {
        &&& #[trigger] idx[k] < walked.len()
        &&& r[k].id == walked[idx[k] as int].id
        &&& r[k].sort_score is Some
        &&& r[k].sort_score == message_score(walked[idx[k] as int], pattern)
    } by {
        assert(commit_from(walked[idx[k] as int], scores[idx[k] as int], r[k]));
    }
    assert forall|a: int, b: int| 0 <= a < b < r.len() implies {
        ||| (#[trigger] r[a]).sort_score->Some_0 > (#[trigger] r[b]).sort_score->Some_0
        ||| (r[a].sort_score == r[b].sort_score && idx[a] < idx[b])
    } by {
        assert(commit_from(walked[idx[a] as int], scores[idx[a] as int], r[a]));
        assert(commit_from(walked[idx[b] as int], scores[idx[b] as int], r[b]));
        assert(rank_before(scores, idx[a] as int, idx[b] as int));
    }
}

/// The first and end positions of a page of the log.
pub open spec fn page_range(total: int, page: int) -> (int, int) {
    let start = page * PAGE_SIZE;
    let end = start + PAGE_SIZE;
    (if start < total { start } else { total }, if end < total { end } else { total })
}

/// Where page `page` of a log of `total` commits starts and ends.
pub fn page_bounds(total: usize, page: usize) -> (r: (usize, usize))
    ensures
        r.0 as int == page_range(total as int, page as int).0,
        r.1 as int == page_range(total as int, page as int).1,
{
    match page.checked_mul(PAGE_SIZE) {
        Some(start) => {
            if start >= total {
                (total, total)
            } else if total - start <= PAGE_SIZE {
                (start, total)
            } else {
                (start, start + PAGE_SIZE)
            }
        },
        None => (total, total),
    }
}

/// `i` held within `lo` and `hi`.
pub open spec fn clamp(i: int, lo: int, hi: int) -> int {
    if i < lo {
        lo
    } else if i < hi {
        i
    } else {
        hi
    }
}

/// Page `page` of a log.
pub fn page_of(commits: Vec<Commit>, page: usize) -> (r: Vec<Commit>)
    ensures
        r@ == commits@.subrange(
            page_range(commits@.len() as int, page as int).0,
            page_range(commits@.len() as int, page as int).1,
        ),
{
    let (start, end) = page_bounds(commits.len(), page);
    let ghost all = commits@;
    let n = commits.len();
    let mut r: Vec<Commit> = Vec::new();
    let mut i: usize = 0;
    for c in it: commits.into_iter()
        invariant
            it.seq() == all,
            i == it.index(),
            i <= all.len(),
            all.len() == n,
            start <= end <= all.len(),
            r@ == all.subrange(start as int, clamp(i as int, start as int, end as int)),
    {
        assert(c == all[i as int]);
        assert(i < n);
        if start <= i && i < end {
            r.push(c);
        }
        i = i + 1;
        assert(r@ =~= all.subrange(start as int, clamp(i as int, start as int, end as int)));
    }
    r
}

} // verus!
