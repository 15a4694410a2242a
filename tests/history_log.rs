use htmx_git_client::history::{
    arrange_commits, effective_filter, match_scores, page_bounds, page_of, rank_matches, PAGE_SIZE,
};
use htmx_git_client::{Commit, CommitDate, WalkedCommit};

fn walked(id: &str, message: &str) -> WalkedCommit {
    let summary = message.lines().next().map(|s| s.to_string());
    WalkedCommit {
        id: id.to_string(),
        message: Some(message.to_string()),
        summary,
        body: None,
        author: "Dev <dev@example.com>".to_string(),
        date: CommitDate::new(1_700_000_000, 60),
    }
}

fn three_commits() -> Vec<WalkedCommit> {
    // Walk order from `main`: C, then B, then the root A.
    vec![walked("C", "fix typo"), walked("B", "add feature"), walked("A", "fix bug")]
}

fn ids(commits: &[Commit]) -> Vec<&str> {
    commits.iter().map(|c| c.id.as_str()).collect()
}

#[test]
fn filtered_log_keeps_matches_best_first() {
    let log = arrange_commits(three_commits(), Some("fix"));
    assert_eq!(ids(&log), vec!["C", "A"]);
    assert!(log.iter().all(|c| c.sort_score().is_some()));
    assert!(log[0].sort_score() >= log[1].sort_score());
}

#[test]
fn unfiltered_log_keeps_walk_order() {
    let log = arrange_commits(three_commits(), None);
    assert_eq!(ids(&log), vec!["C", "B", "A"]);
    assert!(log.iter().all(|c| c.sort_score().is_none()));
    assert_eq!(log[0].summary.as_deref(), Some("fix typo"));
    assert_eq!(log[0].author, "Dev <dev@example.com>");
    assert_eq!(log[0].date, CommitDate::new(1_700_000_000, 60));
}

#[test]
fn empty_filter_is_no_filter() {
    let a = arrange_commits(three_commits(), Some(""));
    let b = arrange_commits(three_commits(), None);
    assert_eq!(ids(&a), ids(&b));
    assert!(a.iter().all(|c| c.sort_score().is_none()));
    assert_eq!(effective_filter(Some("")), None);
    assert_eq!(effective_filter(Some("x")), Some("x"));
    assert_eq!(effective_filter(None), None);
}

#[test]
fn filter_without_match_gives_empty_log() {
    let log = arrange_commits(three_commits(), Some("zzz"));
    assert!(log.is_empty());
}

#[test]
fn unreadable_message_never_matches() {
    let mut w = three_commits();
    w[0].message = None;
    let log = arrange_commits(w, Some("fix"));
    assert_eq!(ids(&log), vec!["A"]);
    let mut w = three_commits();
    w[1].message = None;
    assert_eq!(ids(&arrange_commits(w, None)), vec!["C", "B", "A"]);
}

#[test]
fn stronger_match_ranks_first() {
    let w = vec![walked("1", "f x i x x"), walked("2", "fix the build")];
    let scores = match_scores(&w, "fix");
    assert!(scores[1].unwrap() > scores[0].unwrap());
    let log = arrange_commits(w, Some("fix"));
    assert_eq!(ids(&log), vec!["2", "1"]);
    assert!(log[0].sort_score().unwrap() > log[1].sort_score().unwrap());
}

#[test]
fn scores_follow_the_matcher() {
    let w = three_commits();
    let scores = match_scores(&w, "fix");
    assert!(scores[0].is_some());
    assert_eq!(scores[1], None);
    assert!(scores[2].is_some());
    assert_eq!(match_scores(&w, ""), vec![Some(0), Some(0), Some(0)]);
}

#[test]
fn ranking_orders_by_score_then_walk() {
    assert_eq!(rank_matches(&vec![Some(1), None, Some(5), Some(1), Some(i64::MIN), Some(i64::MAX)]), vec![5, 2, 0, 3, 4]);
    assert_eq!(rank_matches(&vec![None, None]), Vec::<usize>::new());
    assert_eq!(rank_matches(&vec![]), Vec::<usize>::new());
}

#[test]
fn page_bounds_clip_to_the_log() {
    assert_eq!(PAGE_SIZE, 100);
    assert_eq!(page_bounds(250, 0), (0, 100));
    assert_eq!(page_bounds(250, 2), (200, 250));
    assert_eq!(page_bounds(250, 3), (250, 250));
    assert_eq!(page_bounds(0, 0), (0, 0));
    assert_eq!(page_bounds(250, usize::MAX), (250, 250));
}

#[test]
fn page_of_takes_one_page() {
    let w: Vec<WalkedCommit> = (0..205).map(|i| walked(&i.to_string(), "m")).collect();
    let log = arrange_commits(w, None);
    let page = page_of(log, 2);
    assert_eq!(ids(&page), vec!["200", "201", "202", "203", "204"]);
    let w: Vec<WalkedCommit> = (0..205).map(|i| walked(&i.to_string(), "m")).collect();
    let first = page_of(arrange_commits(w, None), 0);
    assert_eq!(first.len(), 100);
    assert_eq!(first[99].id, "99");
}
