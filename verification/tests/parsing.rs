use git_wt::inspect::{
    age_days_at, branch_age_days, branch_untouched, merge_check, remote_gone,
    status_shows_changes, without_main_checkout, MergeCheck,
};
use git_wt::porcelain::{
    parse_worktree_list, records_of_answer, worktree_from_record, BranchFacts, WorktreeRecord,
};
use git_wt::worktree::Worktree;
use std::path::PathBuf;

fn pairs(input: &str) -> Vec<(String, Option<String>)> {
    parse_worktree_list(input)
        .into_iter()
        .map(|r| (r.path, r.branch))
        .collect()
}

fn p(path: &str, branch: Option<&str>) -> (String, Option<String>) {
    (path.to_string(), branch.map(|b| b.to_string()))
}

fn wt(path: &str) -> Worktree {
    Worktree {
        repo: "api".to_string(),
        repo_path: PathBuf::from("/dev/api"),
        path: PathBuf::from(path),
        branch: None,
        dirty: false,
        merged: false,
        remote_gone: false,
        age_days: None,
    }
}

#[test]
fn porcelain_listing_with_main_and_linked_worktrees() {
    let listing = "worktree /dev/api\nHEAD 1111111111111111111111111111111111111111\nbranch refs/heads/main\n\nworktree /dev/api-auth\nHEAD 2222222222222222222222222222222222222222\nbranch refs/heads/feature/auth\n\nworktree /dev/api-spike\nHEAD 3333333333333333333333333333333333333333\ndetached\n\n";
    assert_eq!(
        pairs(listing),
        vec![
            p("/dev/api", Some("main")),
            p("/dev/api-auth", Some("feature/auth")),
            p("/dev/api-spike", None),
        ]
    );
}

#[test]
fn porcelain_empty_listing_has_no_records() {
    assert_eq!(pairs(""), vec![]);
    assert_eq!(pairs("\n\n\n\n"), vec![]);
}

#[test]
fn porcelain_block_without_worktree_line_is_skipped() {
    assert_eq!(
        pairs("bare\n\nworktree /x\nbranch refs/heads/y"),
        vec![p("/x", Some("y"))]
    );
}

#[test]
fn porcelain_crlf_line_endings_are_removed() {
    assert_eq!(
        pairs("worktree /a\r\nbranch refs/heads/x\r\n"),
        vec![p("/a", Some("x"))]
    );
}

#[test]
fn porcelain_final_carriage_return_is_kept() {
    assert_eq!(pairs("worktree /a\r"), vec![p("/a\r", None)]);
}

#[test]
fn porcelain_last_line_wins() {
    assert_eq!(
        pairs("worktree /a\nbranch refs/heads/one\nworktree /b\nbranch refs/heads/two"),
        vec![p("/b", Some("two"))]
    );
}

#[test]
fn porcelain_three_newlines_split_once() {
    assert_eq!(
        pairs("worktree /a\n\n\nworktree /b"),
        vec![p("/a", None), p("/b", None)]
    );
}

#[test]
fn porcelain_other_branch_refs_are_not_local_branches() {
    assert_eq!(
        pairs("worktree /a\nbranch refs/remotes/origin/x"),
        vec![p("/a", None)]
    );
    assert_eq!(pairs("  worktree /a"), vec![]);
}

#[test]
fn main_checkout_is_dropped() {
    let linked = without_main_checkout(vec![wt("/main"), wt("/one"), wt("/two")]);
    let paths: Vec<PathBuf> = linked.into_iter().map(|w| w.path).collect();
    assert_eq!(paths, vec![PathBuf::from("/one"), PathBuf::from("/two")]);
    assert!(without_main_checkout(vec![]).is_empty());
    assert!(without_main_checkout(vec![wt("/main")]).is_empty());
}

#[test]
fn record_becomes_worktree() {
    let rec = WorktreeRecord { path: "/x".to_string(), branch: Some("b".to_string()) };
    let facts = BranchFacts { merged: true, remote_gone: true, age_days: Some(4) };
    let w = worktree_from_record("api".to_string(), PathBuf::from("/dev/api"), rec, true, Some(facts));
    assert_eq!(w.path, PathBuf::from("/x"));
    assert_eq!(w.repo_path, PathBuf::from("/dev/api"));
    assert_eq!(w.branch, Some("b".to_string()));
    assert!(w.dirty && w.merged && w.remote_gone);
    assert_eq!(w.age_days, Some(4));

    let detached = WorktreeRecord { path: "/y".to_string(), branch: None };
    let facts = BranchFacts { merged: true, remote_gone: true, age_days: Some(4) };
    let w = worktree_from_record("api".to_string(), PathBuf::from("/dev/api"), detached, false, Some(facts));
    assert!(!w.merged && !w.remote_gone && w.age_days.is_none());
}

#[test]
fn dirty_status() {
    assert!(status_shows_changes(true, &b" M src/lib.rs\n".to_vec()));
    assert!(!status_shows_changes(true, &Vec::new()));
    assert!(!status_shows_changes(false, &b"fatal: not a git repository".to_vec()));
}

#[test]
fn gone_upstream() {
    let listing = "* main      abc1234 [origin/main] tip\n  feature/x def5678 [origin/feature/x: gone] old work\n  fix/y     0123456 [origin/fix/y] fix\n";
    assert!(remote_gone(listing, "feature/x"));
    assert!(!remote_gone(listing, "fix/y"));
    assert!(!remote_gone(listing, "main"));
    assert!(!remote_gone("", "main"));
    // a name contained in a gone line counts, as with `str::contains`
    assert!(remote_gone(listing, "feature"));
}

#[test]
fn untouched_branch() {
    assert!(branch_untouched("abc123\n", "abc123"));
    assert!(branch_untouched(" \t abc123 \r\n", "abc123"));
    assert!(!branch_untouched("abc123\n", "abc124\n"));
    assert!(branch_untouched("", "\n"));
}

#[test]
fn age_in_days() {
    let t: i64 = 1_700_000_000;
    assert_eq!(age_days_at("1700000000\n", t + 86_400), Some(1));
    assert_eq!(age_days_at("1700000000", t + 86_399), Some(0));
    assert_eq!(age_days_at("1700000000", t + 10 * 86_400 + 5), Some(10));
    assert_eq!(age_days_at("  +1700000000  ", t + 2 * 86_400), Some(2));
    // a commit in the future: rounded toward zero, then wrapped by `as u64`
    assert_eq!(age_days_at("1700000000", t - 1), Some(0));
    assert_eq!(age_days_at("1700000000", t - 86_400), Some(u64::MAX));
    assert_eq!(age_days_at("1700000000", t - 2 * 86_400 - 1), Some(u64::MAX - 1));
    assert_eq!(
        age_days_at("-9223372036854775808", -1),
        Some(9_223_372_036_854_775_807 / 86_400)
    );
}

#[test]
fn age_of_unreadable_output() {
    assert_eq!(age_days_at("", 0), None);
    assert_eq!(age_days_at("\n", 0), None);
    assert_eq!(age_days_at("-", 0), None);
    assert_eq!(age_days_at("+", 0), None);
    assert_eq!(age_days_at("12a", 0), None);
    assert_eq!(age_days_at("1 2", 0), None);
    assert_eq!(age_days_at("--1", 0), None);
    assert_eq!(age_days_at("9223372036854775808", 0), None);
    assert_eq!(age_days_at("99999999999999999999999999", 0), None);
    assert_eq!(age_days_at("fatal: bad revision", 0), None);
}

#[test]
fn age_against_the_clock() {
    // The epoch is more than 19000 days ago.
    let days = branch_age_days("0\n").unwrap();
    assert!(days > 19_000);
    assert_eq!(branch_age_days("not a time"), None);
    // A commit a day ago is one day old, whatever the clock says exactly.
    let now = std::time::SystemTime::now()
        .duration_since(std::time::UNIX_EPOCH)
        .unwrap()
        .as_secs() as i64;
    let d = branch_age_days(&format!("{}", now - 86_400 - 60)).unwrap();
    assert_eq!(d, 1);
    // The difference would not fit in an i64.
    assert_eq!(branch_age_days("-9223372036854775808"), None);
    // A commit time before the epoch that still fits gives an age.
    assert!(branch_age_days("-86400").unwrap() > 19_000);
}

#[test]
fn merge_check_of_revisions() {
    assert!(matches!(merge_check("abc\n", "abc\n"), MergeCheck::NotMerged));
    assert!(matches!(merge_check("abc\n", " abc"), MergeCheck::NotMerged));
    assert!(matches!(merge_check("abc\n", "abd\n"), MergeCheck::MergedIfAncestor));
}

#[test]
fn failed_listing_has_no_records() {
    assert!(records_of_answer(false, "worktree /a\n").is_empty());
    assert_eq!(records_of_answer(true, "worktree /a\n").len(), 1);
}

#[test]
fn joined_listings_give_both_record_lists() {
    let a = "worktree /a\nbranch refs/heads/x";
    let b = "worktree /b\n\nworktree /c\ndetached\n";
    let mut expected = pairs(a);
    expected.extend(pairs(b));
    assert_eq!(pairs(&format!("{}\n\n{}", a, b)), expected);
    assert_eq!(expected.len(), 3);
    assert_eq!(pairs(&format!("{}\n\n{}", "", b)), pairs(b));
}
