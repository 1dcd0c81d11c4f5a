use git_wt::clean::{CleanAction, CleanEnd, CleanEvent, CleanState};
use git_wt::doctor::{DoctorAction, DoctorEnd, DoctorEvent, DoctorState};
use git_wt::worktree::Worktree;
use std::path::{Path, PathBuf};

fn wt(path: &str, dirty: bool) -> Worktree {
    Worktree {
        repo: "api".to_string(),
        repo_path: PathBuf::from("/dev/api"),
        path: PathBuf::from(path),
        branch: Some(format!("b{}", path.len())),
        dirty,
        merged: false,
        remote_gone: false,
        age_days: Some(7),
    }
}

fn repos(names: &[&str]) -> Vec<PathBuf> {
    names.iter().map(PathBuf::from).collect()
}

#[test]
fn clean_without_repositories() {
    let (s, a) = CleanState::new().step(CleanEvent::ReposFound(vec![]));
    assert!(matches!(a, CleanAction::Finish(CleanEnd::NoRepos)));
    assert!(matches!(s, CleanState::Finished));
}

#[test]
fn clean_without_linked_worktrees() {
    let (s, a) = CleanState::new().step(CleanEvent::ReposFound(repos(&["/a", "/b"])));
    assert!(matches!(a, CleanAction::ListWorktrees(ref r) if r == Path::new("/a")));
    let (s, a) = s.step(CleanEvent::WorktreesListed(vec![]));
    assert!(matches!(a, CleanAction::ListWorktrees(ref r) if r == Path::new("/b")));
    let (_, a) = s.step(CleanEvent::WorktreesListed(vec![]));
    assert!(matches!(a, CleanAction::Finish(CleanEnd::NoWorktrees)));
}

#[test]
fn clean_nothing_selected() {
    let (s, _) = CleanState::new().step(CleanEvent::ReposFound(repos(&["/a"])));
    let (s, a) = s.step(CleanEvent::WorktreesListed(vec![wt("/a-x", false)]));
    match a {
        CleanAction::Select(items) => assert_eq!(items, vec!["api :: b4".to_string()]),
        _ => panic!("expected a selection"),
    }
    assert_eq!(s.offered(), 1);
    let (_, a) = s.step(CleanEvent::Selected(vec![]));
    assert!(matches!(a, CleanAction::Finish(CleanEnd::NothingSelected)));
}

#[test]
fn clean_declined() {
    let (s, _) = CleanState::new().step(CleanEvent::ReposFound(repos(&["/a"])));
    let (s, _) = s.step(CleanEvent::WorktreesListed(vec![wt("/a-x", false)]));
    let (s, a) = s.step(CleanEvent::Selected(vec![0]));
    match a {
        CleanAction::Confirm(shown) => {
            assert_eq!(shown.len(), 1);
            assert_eq!(shown[0].heading, "api :: b4");
            assert_eq!(shown[0].path, PathBuf::from("/a-x"));
            assert!(!shown[0].dirty);
        }
        _ => panic!("expected a confirmation"),
    }
    let (s, a) = s.step(CleanEvent::Confirmed(false));
    assert!(matches!(a, CleanAction::Finish(CleanEnd::Aborted)));
    assert!(matches!(s, CleanState::Finished));
}

#[test]
fn clean_skips_dirty_and_removes_clean_in_order() {
    let (s, _) = CleanState::new().step(CleanEvent::ReposFound(repos(&["/a", "/b"])));
    let (s, _) = s.step(CleanEvent::WorktreesListed(vec![wt("/a-1", false), wt("/a-22", true)]));
    let (s, _) = s.step(CleanEvent::WorktreesListed(vec![wt("/b-333", false)]));
    assert_eq!(s.offered(), 3);
    let (s, _) = s.step(CleanEvent::Selected(vec![2, 1, 0]));
    let (s, a) = s.step(CleanEvent::Confirmed(true));
    assert!(matches!(a, CleanAction::Remove { index: 2, ref path, ref repo_path } if path == Path::new("/b-333") && repo_path == Path::new("/dev/api")));
    let (s, a) = s.step(CleanEvent::Done);
    assert!(matches!(a, CleanAction::SkipDirty { index: 1, ref path } if path == Path::new("/a-22")));
    let (s, a) = s.step(CleanEvent::Done);
    assert!(matches!(a, CleanAction::Remove { index: 0, ref path, .. } if path == Path::new("/a-1")));
    let (s, a) = s.step(CleanEvent::Done);
    assert!(matches!(a, CleanAction::Finish(CleanEnd::Completed)));
    let (_, a) = s.step(CleanEvent::Done);
    assert!(matches!(a, CleanAction::Rejected));
}

#[test]
fn clean_rejects_events_out_of_turn() {
    let (s, a) = CleanState::new().step(CleanEvent::Confirmed(true));
    assert!(matches!(a, CleanAction::Rejected));
    let (s, a) = s.step(CleanEvent::Done);
    assert!(matches!(a, CleanAction::Rejected));
    assert!(matches!(s, CleanState::AwaitingRepos));
    let (s, _) = s.step(CleanEvent::ReposFound(repos(&["/a"])));
    let (s, a) = s.step(CleanEvent::Confirmed(true));
    assert!(matches!(a, CleanAction::Rejected));
    assert!(matches!(s, CleanState::Listing { .. }));
}

#[test]
fn doctor_missing_config() {
    let (s, a) = DoctorState::new().step(DoctorEvent::ConfigPresent(false));
    assert!(matches!(a, DoctorAction::Finish(DoctorEnd::MissingConfig)));
    assert!(matches!(s, DoctorState::Finished));
}

#[test]
fn doctor_no_repositories() {
    let (s, a) = DoctorState::new().step(DoctorEvent::ConfigPresent(true));
    assert!(matches!(a, DoctorAction::Inspect));
    let (_, a) = s.step(DoctorEvent::ReposFound(vec![]));
    assert!(matches!(a, DoctorAction::Finish(DoctorEnd::NoRepos)));
}

fn doctor_total(counts: &[usize]) -> DoctorEnd {
    let names: Vec<PathBuf> = (0..counts.len()).map(|i| PathBuf::from(format!("/r{}", i))).collect();
    let (s, _) = DoctorState::new().step(DoctorEvent::ConfigPresent(true));
    let (mut s, mut a) = s.step(DoctorEvent::ReposFound(names.clone()));
    for (i, c) in counts.iter().enumerate() {
        match a {
            DoctorAction::ListWorktrees(ref r) => assert_eq!(r, &names[i]),
            _ => panic!("expected a listing"),
        }
        let (s1, a1) = s.step(DoctorEvent::WorktreeCount(*c));
        match a1 {
            DoctorAction::ReportRepo { ref repo, count } => {
                assert_eq!(repo, &names[i]);
                assert_eq!(count, *c);
            }
            _ => panic!("expected a report"),
        }
        let (s2, a2) = s1.step(DoctorEvent::Done);
        s = s2;
        a = a2;
    }
    match a {
        DoctorAction::Finish(end) => end,
        _ => panic!("expected the end"),
    }
}

#[test]
fn doctor_summary_totals() {
    assert!(matches!(doctor_total(&[3, 1]), DoctorEnd::Summary { total: 4, no_additional: false }));
    assert!(matches!(doctor_total(&[1, 0]), DoctorEnd::Summary { total: 1, no_additional: false }));
    assert!(matches!(doctor_total(&[1, 1]), DoctorEnd::Summary { total: 2, no_additional: false }));
    assert!(matches!(doctor_total(&[0]), DoctorEnd::Summary { total: 0, no_additional: true }));
    assert!(matches!(doctor_total(&[0, 0, 0]), DoctorEnd::Summary { total: 0, no_additional: true }));
    assert!(matches!(doctor_total(&[2]), DoctorEnd::Summary { total: 2, no_additional: false }));
}

#[test]
fn clean_offers_every_listed_worktree_in_order() {
    let (s, _) = CleanState::new().step(CleanEvent::ReposFound(repos(&["/a", "/b", "/c"])));
    let (s, _) = s.step(CleanEvent::WorktreesListed(vec![wt("/1", false)]));
    let (s, _) = s.step(CleanEvent::WorktreesListed(vec![]));
    let (s, a) = s.step(CleanEvent::WorktreesListed(vec![wt("/22", true), wt("/333", false)]));
    match a {
        CleanAction::Select(items) => assert_eq!(
            items,
            vec![
                "api :: b2".to_string(),
                "api :: b3 [DIRTY]".to_string(),
                "api :: b4".to_string(),
            ]
        ),
        _ => panic!("expected a selection"),
    }
    assert_eq!(s.offered(), 3);
}

#[test]
fn clean_shows_dirtiness_apart_from_the_heading() {
    let (s, _) = CleanState::new().step(CleanEvent::ReposFound(repos(&["/a"])));
    let (s, _) = s.step(CleanEvent::WorktreesListed(vec![wt("/a-x", true), wt("/a-yy", false)]));
    let (_, a) = s.step(CleanEvent::Selected(vec![1, 0]));
    match a {
        CleanAction::Confirm(shown) => {
            assert_eq!(shown.len(), 2);
            assert_eq!(shown[0].heading, "api :: b5");
            assert!(!shown[0].dirty);
            assert_eq!(shown[1].heading, "api :: b4");
            assert_eq!(shown[1].path, PathBuf::from("/a-x"));
            assert!(shown[1].dirty);
        }
        _ => panic!("expected a confirmation"),
    }
}
