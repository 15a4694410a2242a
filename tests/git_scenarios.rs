use htmx_git_client::history::arrange_commits;
use htmx_git_client::refs::local_branch_ref;
use htmx_git_client::{CommitDate, WalkedCommit};

fn chain_repo(dir: &str) -> git2::Repository {
    let repo = git2::Repository::init_bare(dir).unwrap();
    let mut parent: Option<git2::Oid> = None;
    {
        let tree_id = repo.treebuilder(None).unwrap().write().unwrap();
        let tree = repo.find_tree(tree_id).unwrap();
        for (i, message) in ["fix bug", "add feature", "fix typo"].iter().enumerate() {
            let sig = git2::Signature::new("Dev", "dev@example.com", &git2::Time::new(1_700_000_000 + i as i64, 0)).unwrap();
            let parents: Vec<git2::Commit> = parent.iter().map(|p| repo.find_commit(*p).unwrap()).collect();
            let refs: Vec<&git2::Commit> = parents.iter().collect();
            let oid = repo.commit(None, &sig, &sig, message, &tree, &refs).unwrap();
            parent = Some(oid);
        }
    }
    repo.reference("refs/heads/main", parent.unwrap(), true, "test").unwrap();
    repo.set_head("refs/heads/main").unwrap();
    repo
}

fn walk(repo: &git2::Repository, reference: &str) -> Vec<WalkedCommit> {
    let start = repo.revparse_single(reference).unwrap();
    let mut revwalk = repo.revwalk().unwrap();
    revwalk.set_sorting(git2::Sort::TOPOLOGICAL).unwrap();
    revwalk.push(start.id()).unwrap();
    revwalk
        .map(|id| {
            let c = repo.find_commit(id.unwrap()).unwrap();
            let author = c.author().to_string();
            let w = WalkedCommit {
                id: c.id().to_string(),
                message: c.message().map(|m| m.to_string()),
                summary: c.summary().map(|m| m.to_string()),
                body: c.body().map(|m| m.to_string()),
                author,
                date: CommitDate::new(c.time().seconds(), c.time().offset_minutes()),
            };
            w
        })
        .collect()
}

#[test]
fn history_of_three_commits() {
    let repo = chain_repo("/tmp/htmx_git_client_history_scenario");
    let all: Vec<String> = arrange_commits(walk(&repo, "main"), None).into_iter().map(|c| c.summary.unwrap()).collect();
    assert_eq!(all, vec!["fix typo", "add feature", "fix bug"]);
    let fixes: Vec<String> = arrange_commits(walk(&repo, "main"), Some("fix")).into_iter().map(|c| c.summary.unwrap()).collect();
    assert_eq!(fixes, vec!["fix typo", "fix bug"]);
}

#[test]
fn checkout_of_missing_branch_is_unresolvable() {
    let repo = chain_repo("/tmp/htmx_git_client_checkout_scenario");
    let missing = local_branch_ref("nonexistent");
    assert!(repo.revparse_single(&missing).is_err());
    assert_eq!(repo.head().unwrap().name(), Some("refs/heads/main"));
    assert!(repo.revparse_single(&local_branch_ref("main")).is_ok());
}
