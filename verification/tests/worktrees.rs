use git_wt::config::Config;
use git_wt::discovery::{select_repositories, ScannedEntry, SEARCH_DEPTH};
use git_wt::worktree::Worktree;
use std::path::PathBuf;

fn base() -> Worktree {
    Worktree {
        repo: "api".to_string(),
        repo_path: PathBuf::from("/dev/api"),
        path: PathBuf::from("/dev/api-auth"),
        branch: Some("feature/auth".to_string()),
        dirty: false,
        merged: false,
        remote_gone: false,
        age_days: None,
    }
}

#[test]
fn display_name_plain() {
    assert_eq!(base().display_name(), "api :: feature/auth");
}

#[test]
fn display_name_detached() {
    let w = Worktree { branch: None, ..base() };
    assert_eq!(w.display_name(), "api :: detached");
}

#[test]
fn display_name_all_tags() {
    let w = Worktree {
        age_days: Some(3),
        merged: true,
        remote_gone: true,
        dirty: true,
        ..base()
    };
    assert_eq!(w.display_name(), "api :: feature/auth [3d] [merged] [gone] [DIRTY]");
}

#[test]
fn display_name_some_tags() {
    let w = Worktree { dirty: true, ..base() };
    assert_eq!(w.display_name(), "api :: feature/auth [DIRTY]");
    let w = Worktree { age_days: Some(0), remote_gone: true, ..base() };
    assert_eq!(w.display_name(), "api :: feature/auth [0d] [gone]");
    let w = Worktree { age_days: Some(1234567), merged: true, ..base() };
    assert_eq!(w.display_name(), "api :: feature/auth [1234567d] [merged]");
    let w = Worktree { age_days: Some(u64::MAX), ..base() };
    assert_eq!(w.display_name(), format!("api :: feature/auth [{}d]", u64::MAX));
}

#[test]
fn choice_label_shows_only_branch_and_dirtiness() {
    assert_eq!(base().choice_label(), "api :: feature/auth");
    let w = Worktree {
        age_days: Some(5),
        merged: true,
        remote_gone: true,
        dirty: true,
        ..base()
    };
    assert_eq!(w.choice_label(), "api :: feature/auth [DIRTY]");
    let w = Worktree { branch: None, age_days: Some(5), ..base() };
    assert_eq!(w.choice_label(), "api :: detached");
    let w = Worktree { dirty: true, age_days: Some(5), ..base() };
    assert_eq!(w.heading(), "api :: feature/auth");
}

#[test]
fn stale_threshold() {
    let w = Worktree { age_days: Some(30), ..base() };
    assert!(w.stale(30));
    assert!(w.stale(7));
    assert!(w.stale(0));
    assert!(!w.stale(31));
    let unknown = base();
    assert!(!unknown.stale(0));
    assert!(!unknown.stale(30));
}

fn entry(path: &str, is_dir: bool, has_git_dir: bool) -> ScannedEntry {
    ScannedEntry { path: PathBuf::from(path), is_dir, has_git_dir }
}

#[test]
fn repositories_are_directories_with_git() {
    let entries = vec![
        entry("/dev", true, false),
        entry("/dev/api", true, true),
        entry("/dev/notes.txt", false, false),
        entry("/dev/odd", false, true),
        entry("/dev/web", true, true),
    ];
    assert_eq!(
        select_repositories(&entries),
        vec![PathBuf::from("/dev/api"), PathBuf::from("/dev/web")]
    );
    assert!(select_repositories(&vec![]).is_empty());
    assert_eq!(SEARCH_DEPTH, 3);
}

#[test]
fn initial_config_has_no_roots() {
    assert!(Config::initial().roots.is_empty());
}
