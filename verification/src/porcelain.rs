//! Reading `git worktree list --porcelain`.
//!
//! The listing is a sequence of blocks separated by an empty line. A block
//! describes one worktree: its `worktree <path>` line names it, and a
//! `branch refs/heads/<name>` line names the branch checked out there.
use vstd::prelude::*;

use crate::paths::{path_from, path_named};
use crate::worktree::Worktree;
use std::path::PathBuf;

use crate::text::{
    chars_of, is_first_match, lemma_split_joined, lines, lines_chars, matches_at, split_chars,
    split_on, starts_with, string_from, strip_cr, strip_prefix, strip_prefix_chars, views,
};

verus! {

/// What one block of the listing says of a worktree.
pub struct WorktreeRecord {
    /// The worktree's path.
    pub path: String,
    /// The local branch checked out there, if any.
    pub branch: Option<String>,
}

/// The text of an optional string.
pub open spec fn opt_view(o: Option<String>) -> Option<Seq<char>> {
    match o {
        Some(s) => Some(s@),
        None => None,
    }
}

/// A record as plain values: the path and the branch.
pub open spec fn record_view(r: WorktreeRecord) -> (Seq<char>, Option<Seq<char>>) {
    (r.path@, opt_view(r.branch))
}

/// The prefix of the line that names a worktree.
pub open spec fn worktree_prefix() -> Seq<char> {
    "worktree "@
}

/// The prefix of the line that names a local branch.
pub open spec fn branch_prefix() -> Seq<char> {
    "branch refs/heads/"@
}

/// The separator between blocks: an empty line.
pub open spec fn block_separator() -> Seq<char> {
    "\n\n"@
}

/// What follows `pat` on the last of `ls` that begins with it.
pub open spec fn last_with_prefix(ls: Seq<Seq<char>>, pat: Seq<char>) -> Option<Seq<char>>
    decreases ls.len(),
{
    if ls.len() == 0 {
        None
    } else {
        match strip_prefix(ls.last(), pat) {
            Some(v) => Some(v),
            None => last_with_prefix(ls.drop_last(), pat),
        }
    }
}

/// The record that a block describes: none when no line names a worktree;
/// otherwise the path of the last `worktree` line and the branch of the last
/// `branch refs/heads/` line.
pub open spec fn block_record(block: Seq<char>) -> Option<(Seq<char>, Option<Seq<char>>)> {
    let ls = lines(block);
    match last_with_prefix(ls, worktree_prefix()) {
        Some(path) => Some((path, last_with_prefix(ls, branch_prefix()))),
        None => None,
    }
}

/// The records of the blocks, in order, blocks that name no worktree left out.
pub open spec fn records_of_blocks(blocks: Seq<Seq<char>>) -> Seq<(Seq<char>, Option<Seq<char>>)>
    decreases blocks.len(),
{
    if blocks.len() == 0 {
        seq![]
    } else {
        records_of_blocks(blocks.drop_last()) + match block_record(blocks.last()) {
            Some(r) => seq![r],
            None => seq![],
        }
    }
}

/// The records of a whole listing.
pub open spec fn listing_records(input: Seq<char>) -> Seq<(Seq<char>, Option<Seq<char>>)> {
    records_of_blocks(split_on(input, block_separator()))
}

/// The records of consecutive runs of blocks follow one another.
proof fn lemma_records_concat(x: Seq<Seq<char>>, y: Seq<Seq<char>>)
    ensures
        records_of_blocks(x + y) == records_of_blocks(x) + records_of_blocks(y),
    decreases y.len(),
{
    if y.len() == 0 {
        assert(x + y =~= x);
        assert(records_of_blocks(x) + records_of_blocks(y) =~= records_of_blocks(x));
    } else {
        lemma_records_concat(x, y.drop_last());
        assert((x + y).drop_last() =~= x + y.drop_last());
        assert((x + y).last() == y.last());
        let tail = match block_record(y.last()) {
            Some(r) => seq![r],
            None => seq![],
        };
        assert(records_of_blocks(x) + records_of_blocks(y) =~= records_of_blocks(x)
            + records_of_blocks(y.drop_last()) + tail);
    }
}

/// Two listings joined by an empty line describe the worktrees of the first
/// followed by those of the second, provided the first does not end with a
/// line break.
pub proof fn lemma_joined_listings(a: Seq<char>, b: Seq<char>)
    requires
        a.len() == 0 || a.last() != '\n',
    ensures
        listing_records(a + block_separator() + b) == listing_records(a) + listing_records(b),
{
    reveal_strlit("\n\n");
    assert(block_separator() =~= seq!['\n', '\n']);
    lemma_split_joined(a, b);
    lemma_records_concat(split_on(a, block_separator()), split_on(b, block_separator()));
}

/// `s` holds no line break.
pub open spec fn one_line(s: Seq<char>) -> bool {
    forall|i: int| 0 <= i < s.len() ==> s[i] != '\n'
}

/// A text without line breaks is a single line, and holds no empty line.
proof fn lemma_one_line(s: Seq<char>)
    requires
        s.len() > 0,
        one_line(s),
    ensures
        lines(s) == seq![s],
        split_on(s, block_separator()) == seq![s],
{
    assert forall|i: int| !is_first_match(s, seq!['\n'], i) by {
        if matches_at(s, seq!['\n'], i) {
            assert(s.subrange(i, i + 1)[0] == s[i]);
        }
    }
    reveal_strlit("\n\n");
    assert(block_separator() =~= seq!['\n', '\n']);
    assert forall|i: int| !is_first_match(s, block_separator(), i) by {
        if matches_at(s, block_separator(), i) {
            assert(s.subrange(i, i + 2)[0] == s[i]);
        }
    }
}

proof fn lemma_prefixes()
    ensures
        worktree_prefix().len() == 9,
        worktree_prefix()[0] == 'w',
        one_line(worktree_prefix()),
        worktree_prefix().last() == ' ',
        branch_prefix().len() == 18,
        branch_prefix()[0] == 'b',
        one_line(branch_prefix()),
{
    reveal_strlit("worktree ");
    reveal_strlit("branch refs/heads/");
}

/// The line `worktree ` + `p` names the worktree at `p`, exactly, whatever
/// `p` holds (spaces included), and a listing made of that line alone
/// describes that one worktree, with no branch.
pub proof fn lemma_worktree_line_names_path(p: Seq<char>)
    requires
        one_line(p),
    ensures
        block_record(worktree_prefix() + p) == Some((p, None::<Seq<char>>)),
        listing_records(worktree_prefix() + p) == seq![(p, None::<Seq<char>>)],
{
    lemma_prefixes();
    let w = worktree_prefix() + p;
    assert(one_line(w)) by {
        assert forall|i: int| 0 <= i < w.len() implies w[i] != '\n' by {
            if i < 9 {
                assert(w[i] == worktree_prefix()[i]);
            } else {
                assert(w[i] == p[i - 9]);
            }
        }
    }
    lemma_one_line(w);
    assert(w.take(9) =~= worktree_prefix());
    assert(w.skip(9) =~= p);
    assert(strip_prefix(w, worktree_prefix()) == Some(p));
    assert(!starts_with(w, branch_prefix())) by {
        if starts_with(w, branch_prefix()) {
            assert(w.take(18)[0] == w[0]);
        }
    }
    assert(seq![w].drop_last() =~= seq![]);
    assert(seq![w].last() == w);
    assert(strip_prefix(w, branch_prefix()) is None);
    assert(last_with_prefix(seq![w], worktree_prefix()) == Some(p));
    assert(last_with_prefix(seq![w].drop_last(), branch_prefix()) is None);
    assert(last_with_prefix(seq![w], branch_prefix()) is None);
    assert(lines(w) == seq![w]);
    assert(block_record(w) == Some((p, None::<Seq<char>>)));
    assert(records_of_blocks(seq![w]) =~= seq![(p, None::<Seq<char>>)]) by {
        assert(records_of_blocks(seq![w].drop_last()) == Seq::<(Seq<char>, Option<Seq<char>>)>::empty());
    }
}

/// A block of a `worktree ` line and a `branch refs/heads/` line names the
/// worktree at exactly the path that follows `worktree ` and the branch that
/// follows `refs/heads/`, whatever they hold.
pub proof fn lemma_worktree_and_branch_lines(p: Seq<char>, b: Seq<char>)
    requires
        one_line(p),
        one_line(b),
        p.len() == 0 || p.last() != '\r',
    ensures
        ({
            let block = worktree_prefix() + p + seq!['\n'] + branch_prefix() + b;
            &&& block_record(block) == Some((p, Some(b)))
            &&& listing_records(block) == seq![(p, Some(b))]
        }),
{
    lemma_prefixes();
    let w = worktree_prefix() + p;
    let l = branch_prefix() + b;
    let block = worktree_prefix() + p + seq!['\n'] + branch_prefix() + b;
    assert(block =~= w + seq!['\n'] + l);
    assert(one_line(w)) by {
        assert forall|i: int| 0 <= i < w.len() implies w[i] != '\n' by {
            if i < 9 {
                assert(w[i] == worktree_prefix()[i]);
            } else {
                assert(w[i] == p[i - 9]);
            }
        }
    }
    assert(one_line(l)) by {
        assert forall|i: int| 0 <= i < l.len() implies l[i] != '\n' by {
            if i < 18 {
                assert(l[i] == branch_prefix()[i]);
            } else {
                assert(l[i] == b[i - 18]);
            }
        }
    }
    lemma_one_line(l);
    // The lines of the block are the two lines.
    let n = w.len() as int;
    assert(block.subrange(n, n + 1) =~= seq!['\n']);
    assert forall|j: int| 0 <= j < n implies !matches_at(block, seq!['\n'], j) by {
        assert(block.subrange(j, j + 1)[0] == w[j]);
    }
    assert(is_first_match(block, seq!['\n'], n));
    crate::text::lemma_first_match_unique(block, seq!['\n'], n);
    assert(block.take(n) =~= w);
    assert(block.skip(n + 1) =~= l);
    assert(w.last() != '\r') by {
        if p.len() > 0 {
            assert(w.last() == p.last());
        } else {
            assert(w =~= worktree_prefix());
        }
    }
    assert(strip_cr(w) == w);
    assert(lines(block) == seq![w] + seq![l]);
    assert(lines(block) =~= seq![w, l]);
    // What each line names.
    assert(w.take(9) =~= worktree_prefix());
    assert(w.skip(9) =~= p);
    assert(l.take(18) =~= branch_prefix());
    assert(l.skip(18) =~= b);
    assert(!starts_with(l, worktree_prefix())) by {
        if starts_with(l, worktree_prefix()) {
            assert(l.take(9)[0] == l[0]);
        }
    }
    assert(seq![w, l].drop_last() =~= seq![w]);
    assert(seq![w].drop_last() =~= seq![]);
    assert(seq![w, l].last() == l);
    assert(seq![w].last() == w);
    assert(strip_prefix(l, worktree_prefix()) is None);
    assert(strip_prefix(w, worktree_prefix()) == Some(p));
    assert(last_with_prefix(seq![w], worktree_prefix()) == Some(p));
    assert(last_with_prefix(seq![w, l], worktree_prefix()) == Some(p));
    assert(last_with_prefix(seq![w, l], branch_prefix()) == Some(b));
    // The block holds no empty line, so it is the whole listing.
    reveal_strlit("\n\n");
    assert(block_separator() =~= seq!['\n', '\n']);
    assert forall|j: int| !is_first_match(block, block_separator(), j) by {
        if matches_at(block, block_separator(), j) {
            assert(block.subrange(j, j + 2)[0] == block[j]);
            assert(block.subrange(j, j + 2)[1] == block[j + 1]);
            if j < n {
                assert(block[j] == w[j]);
            } else if j == n {
                assert(block[j + 1] == l[0]);
            } else {
                assert(block[j] == l[j - n - 1]);
            }
        }
    }
    assert(split_on(block, block_separator()) == seq![block]);
    assert(seq![block].drop_last() =~= seq![]);
    assert(seq![block].last() == block);
    assert(block_record(block) == Some((p, Some(b))));
    assert(records_of_blocks(seq![block]) =~= seq![(p, Some(b))]) by {
        assert(records_of_blocks(seq![block].drop_last()) == Seq::<(Seq<char>, Option<Seq<char>>)>::empty());
    }
}

/// The last of `ls` that begins with `pat`, with `pat` removed.
fn last_stripped(ls: &Vec<Vec<char>>, pat: &Vec<char>) -> (r: Option<Vec<char>>)
    ensures
        match r {
            Some(v) => last_with_prefix(views(ls@), pat@) == Some(v@),
            None => last_with_prefix(views(ls@), pat@) is None,
        },
{
    let mut found: Option<Vec<char>> = None;
    let mut i: usize = 0;
    assert(views(ls@).take(0) =~= seq![]);
    while i < ls.len()
        invariant
            i <= ls.len(),
            match found {
                Some(v) => last_with_prefix(views(ls@).take(i as int), pat@) == Some(v@),
                None => last_with_prefix(views(ls@).take(i as int), pat@) is None,
            },
        decreases ls.len() - i,
    {
        let stripped = strip_prefix_chars(&ls[i], pat);
        assert(views(ls@).take(i + 1).drop_last() =~= views(ls@).take(i as int));
        assert(views(ls@).take(i + 1).last() == ls@[i as int]@);
        match stripped {
            Some(v) => {
                found = Some(v);
            },
            None => {},
        }
        i = i + 1;
    }
    assert(views(ls@).take(ls.len() as int) =~= views(ls@));
    found
}

/// The record of one block, if it names a worktree.
fn parse_block(block: &Vec<char>, wt_prefix: &Vec<char>, br_prefix: &Vec<char>) -> (r: Option<
    WorktreeRecord,
>)
    requires
        wt_prefix@ == worktree_prefix(),
        br_prefix@ == branch_prefix(),
    ensures
        match r {
            Some(rec) => block_record(block@) == Some(record_view(rec)),
            None => block_record(block@) is None,
        },
{
    let ls = lines_chars(block);
    match last_stripped(&ls, wt_prefix) {
        Some(path) => {
            let branch = match last_stripped(&ls, br_prefix) {
                Some(b) => Some(string_from(&b)),
                None => None,
            };
            Some(WorktreeRecord { path: string_from(&path), branch })
        },
        None => None,
    }
}

/// Reads a `git worktree list --porcelain` listing: one record for each block
/// that names a worktree, in the order of the listing.
pub fn parse_worktree_list(input: &str) -> (records: Vec<WorktreeRecord>)
    ensures
        records@.map_values(|r: WorktreeRecord| record_view(r)) == listing_records(input@),
{
    let text = chars_of(input);
    let separator = chars_of("\n\n");
    let wt_prefix = chars_of("worktree ");
    let br_prefix = chars_of("branch refs/heads/");
    proof {
        reveal_strlit("\n\n");
        assert(separator@.len() == 2);
    }
    let blocks = split_chars(&text, &separator);
    let mut records: Vec<WorktreeRecord> = Vec::new();
    let mut i: usize = 0;
    assert(views(blocks@).take(0) =~= seq![]);
    while i < blocks.len()
        invariant
            i <= blocks.len(),
            wt_prefix@ == worktree_prefix(),
            br_prefix@ == branch_prefix(),
            records@.map_values(|r: WorktreeRecord| record_view(r)) == records_of_blocks(
                views(blocks@).take(i as int),
            ),
        decreases blocks.len() - i,
    {
        let rec = parse_block(&blocks[i], &wt_prefix, &br_prefix);
        let ghost prefix = views(blocks@).take(i + 1);
        assert(prefix.drop_last() =~= views(blocks@).take(i as int));
        assert(prefix.last() == blocks@[i as int]@);
        let ghost before = records@;
        match rec {
            Some(r) => {
                records.push(r);
                assert(records@.map_values(|r: WorktreeRecord| record_view(r)) =~= before.map_values(
                    |r: WorktreeRecord| record_view(r),
                ).push(record_view(records@.last())));
            },
            None => {},
        }
        i = i + 1;
    }
    assert(views(blocks@).take(blocks.len() as int) =~= views(blocks@));
    records
}

/// The records of the answer of `git worktree list --porcelain`: none when
/// the command failed, otherwise those of its output.
pub fn records_of_answer(succeeded: bool, stdout: &str) -> (records: Vec<WorktreeRecord>)
    ensures
        !succeeded ==> records@.len() == 0,
        succeeded ==> records@.map_values(|r: WorktreeRecord| record_view(r)) == listing_records(
            stdout@,
        ),
{
    if succeeded {
        parse_worktree_list(stdout)
    } else {
        Vec::new()
    }
}

/// What `git` said of a worktree's branch: merged into `main`, upstream
/// gone, and its age in days where it could be read.
pub struct BranchFacts {
    pub merged: bool,
    pub remote_gone: bool,
    pub age_days: Option<u64>,
}

/// The worktree that a record describes, in repository `repo` at
/// `repo_path`; its path is the one the record's text names. What is known of the branch counts only when a branch is
/// checked out; a detached worktree is neither merged nor gone and has no age.
pub fn worktree_from_record(
    repo: String,
    repo_path: PathBuf,
    record: WorktreeRecord,
    dirty: bool,
    facts: Option<BranchFacts>,
) -> (wt: Worktree)
    ensures
        wt.repo == repo,
        wt.repo_path == repo_path,
        wt.path == path_named(record.path@),
        wt.branch == record.branch,
        wt.dirty == dirty,
        record.branch is None ==> !wt.merged && !wt.remote_gone && wt.age_days is None,
        record.branch is Some && facts is Some ==> wt.merged == facts->0.merged && wt.remote_gone
            == facts->0.remote_gone && wt.age_days == facts->0.age_days,
        record.branch is Some && facts is None ==> !wt.merged && !wt.remote_gone
            && wt.age_days is None,
{
    let (merged, remote_gone, age_days) = match (&record.branch, facts) {
        (Some(_), Some(f)) => (f.merged, f.remote_gone, f.age_days),
        _ => (false, false, None),
    };
    Worktree {
        repo,
        repo_path,
        path: path_from(record.path),
        branch: record.branch,
        dirty,
        merged,
        remote_gone,
        age_days,
    }
}

} // verus!
