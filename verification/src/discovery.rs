//! Which directories under the configured roots are repositories.
use vstd::prelude::*;

use std::path::PathBuf;

verus! {

/// How many levels below each configured root the search looks.
pub const SEARCH_DEPTH: usize = 3;

/// What the directory walk learnt of one entry below a root.
pub struct ScannedEntry {
    /// The entry's path.
    pub path: PathBuf,
    /// The entry is a directory.
    pub is_dir: bool,
    /// The entry holds a `.git` directory.
    pub has_git_dir: bool,
}

/// An entry is a repository when it is a directory that holds a `.git`
/// directory.
pub open spec fn is_repository(e: ScannedEntry) -> bool {
    e.is_dir && e.has_git_dir
}

/// The paths of the repositories among `entries`, in the order of the walk.
pub open spec fn repository_paths(entries: Seq<ScannedEntry>) -> Seq<PathBuf>
    decreases entries.len(),
{
    if entries.len() == 0 {
        seq![]
    } else {
        repository_paths(entries.drop_last()) + if is_repository(entries.last()) {
            seq![entries.last().path]
        } else {
            seq![]
        }
    }
}

/// An entry that is a directory holding a `.git` directory.
pub open spec fn holds_repository(e: ScannedEntry) -> bool {
    e.is_dir && e.has_git_dir
}

/// `p` is the path of an entry of the walk that is a directory holding a
/// `.git` directory.
pub open spec fn walked_repository(entries: Seq<ScannedEntry>, p: PathBuf) -> bool {
    exists|k: int|
        0 <= k < entries.len() && entries[k].is_dir && entries[k].has_git_dir && entries[k].path
            == p
}

/// The repositories found are exactly the entries that are directories
/// holding a `.git` directory, each of them, in the order of the walk: the
/// paths of the walk's entries kept by that test. So every such entry is
/// found, and nothing else is.
pub proof fn lemma_repositories_are_kept_entries(entries: Seq<ScannedEntry>)
    ensures
        repository_paths(entries) == entries.filter(|e: ScannedEntry| holds_repository(e)).map_values(
            |e: ScannedEntry| e.path,
        ),
        forall|k: int|
            0 <= k < entries.len() && (#[trigger] entries[k]).is_dir && entries[k].has_git_dir
                ==> repository_paths(entries).contains(entries[k].path),
        forall|j: int|
            0 <= j < repository_paths(entries).len() ==> walked_repository(
                entries,
                #[trigger] repository_paths(entries)[j],
            ),
    decreases entries.len(),
{
    let pred = |e: ScannedEntry| holds_repository(e);
    reveal(Seq::filter);
    if entries.len() == 0 {
        assert(entries.filter(pred) =~= seq![]);
        assert(entries.filter(pred).map_values(|e: ScannedEntry| e.path) =~= seq![]);
        assert(repository_paths(entries).len() == 0);
    } else {
        let init = entries.drop_last();
        let last = entries.last();
        lemma_repositories_are_kept_entries(init);
        assert(entries.filter(pred) == if pred(last) {
            init.filter(pred).push(last)
        } else {
            init.filter(pred)
        });
        let tail = if is_repository(last) {
            seq![last.path]
        } else {
            seq![]
        };
        assert(repository_paths(entries) == repository_paths(init) + tail);
        assert(repository_paths(entries) =~= entries.filter(pred).map_values(
            |e: ScannedEntry| e.path,
        ));
        assert forall|k: int|
            0 <= k < entries.len() && (#[trigger] entries[k]).is_dir && entries[k].has_git_dir
                implies repository_paths(entries).contains(entries[k].path) by {
            if k < entries.len() - 1 {
                assert(init[k] == entries[k]);
                let j = choose|j: int|
                    0 <= j < repository_paths(init).len() && repository_paths(init)[j]
                        == init[k].path;
                assert(repository_paths(entries)[j] == repository_paths(init)[j]);
            } else {
                assert(repository_paths(entries)[repository_paths(init).len() as int]
                    == entries[k].path);
            }
        }
        assert forall|j: int| 0 <= j < repository_paths(entries).len() implies walked_repository(
            entries,
            #[trigger] repository_paths(entries)[j],
        ) by {
            if j < repository_paths(init).len() {
                assert(repository_paths(entries)[j] == repository_paths(init)[j]);
                assert(walked_repository(init, repository_paths(init)[j]));
                let k = choose|k: int|
                    0 <= k < init.len() && init[k].is_dir && init[k].has_git_dir && init[k].path
                        == repository_paths(init)[j];
                assert(entries[k] == init[k]);
            } else {
                assert(tail.len() > 0);
                assert(repository_paths(entries)[j] == last.path);
                let k = entries.len() - 1;
                assert(entries[k] == last);
                assert(last.is_dir && last.has_git_dir);
            }
        }
    }
}

/// The repositories among the entries of the walk, in the order of the walk.
pub fn select_repositories(entries: &Vec<ScannedEntry>) -> (repos: Vec<PathBuf>)
    ensures
        repos@ == repository_paths(entries@),
        repos@ == entries@.filter(|e: ScannedEntry| holds_repository(e)).map_values(
            |e: ScannedEntry| e.path,
        ),
        forall|k: int|
            0 <= k < entries@.len() && (#[trigger] entries@[k]).is_dir && entries@[k].has_git_dir
                ==> repos@.contains(entries@[k].path),
        forall|j: int| 0 <= j < repos@.len() ==> walked_repository(entries@, #[trigger] repos@[j]),
{
    let mut repos: Vec<PathBuf> = Vec::new();
    let mut i: usize = 0;
    assert(entries@.take(0) =~= seq![]);
    while i < entries.len()
        invariant
            i <= entries.len(),
            repos@ == repository_paths(entries@.take(i as int)),
        decreases entries.len() - i,
    {
        let e = &entries[i];
        assert(entries@.take(i + 1).drop_last() =~= entries@.take(i as int));
        assert(entries@.take(i + 1).last() == entries@[i as int]);
        let ghost before = repos@;
        if e.is_dir && e.has_git_dir {
            repos.push(e.path.clone());
            assert(repos@ =~= before.push(e.path));
        } else {
            assert(repository_paths(entries@.take(i + 1)) =~= repository_paths(entries@.take(i as int)));
        }
        i = i + 1;
    }
    assert(entries@.take(entries.len() as int) =~= entries@);
    proof {
        lemma_repositories_are_kept_entries(entries@);
    }
    repos
}

} // verus!
