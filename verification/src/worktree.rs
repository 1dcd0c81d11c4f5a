//! A linked Git worktree and how it is shown to the user.
use vstd::prelude::*;

use crate::text::push_chars;
use std::path::PathBuf;

verus! {

/// A linked worktree of a repository, with what was learnt about it.
#[derive(Debug, Clone)]
pub struct Worktree {
    /// The repository's name (the last component of its path).
    pub repo: String,
    /// The repository's path.
    pub repo_path: PathBuf,
    /// The worktree's path.
    pub path: PathBuf,
    /// The branch checked out there; `None` for a detached HEAD.
    pub branch: Option<String>,
    /// The worktree has uncommitted changes.
    pub dirty: bool,
    /// The branch has been merged into `main`.
    pub merged: bool,
    /// The branch's upstream is gone.
    pub remote_gone: bool,
    /// Whole days since the branch's last commit, where known.
    pub age_days: Option<u64>,
}

/// The decimal digit `d` as a character.
pub open spec fn digit_char(d: nat) -> char {
    if d == 0 {
        '0'
    } else if d == 1 {
        '1'
    } else if d == 2 {
        '2'
    } else if d == 3 {
        '3'
    } else if d == 4 {
        '4'
    } else if d == 5 {
        '5'
    } else if d == 6 {
        '6'
    } else if d == 7 {
        '7'
    } else if d == 8 {
        '8'
    } else {
        '9'
    }
}

/// The decimal notation of `n`, without leading zeros (as `{}` formats it).
pub open spec fn decimal(n: nat) -> Seq<char>
    decreases n,
{
    if n < 10 {
        seq![digit_char(n)]
    } else {
        decimal(n / 10).push(digit_char(n % 10))
    }
}

/// The branch as shown: its name, or `detached`.
pub open spec fn branch_label(branch: Option<String>) -> Seq<char> {
    match branch {
        Some(b) => b@,
        None => "detached"@,
    }
}

/// `text` preceded by a space when `shown`, nothing otherwise.
pub open spec fn tag(shown: bool, text: Seq<char>) -> Seq<char> {
    if shown {
        " "@ + text
    } else {
        seq![]
    }
}

/// The label of a worktree: `repo :: branch`, then, separated by spaces,
/// `[Nd]` for its age, `[merged]`, `[gone]` and `[DIRTY]` where they apply.
pub open spec fn display_text(wt: Worktree) -> Seq<char> {
    wt.repo@ + " :: "@ + branch_label(wt.branch) + match wt.age_days {
        Some(age) => tag(true, "["@ + decimal(age as nat) + "d]"@),
        None => seq![],
    } + tag(wt.merged, "[merged]"@) + tag(wt.remote_gone, "[gone]"@) + tag(wt.dirty, "[DIRTY]"@)
}

/// The label under which a worktree is offered for removal:
/// `repo :: branch`, followed by ` [DIRTY]` when it has uncommitted changes.
pub open spec fn choice_text(wt: Worktree) -> Seq<char> {
    heading_text(wt) + tag(wt.dirty, "[DIRTY]"@)
}

/// A worktree's heading: `repo :: branch`.
pub open spec fn heading_text(wt: Worktree) -> Seq<char> {
    wt.repo@ + " :: "@ + branch_label(wt.branch)
}

/// Whether a worktree counts as stale for a threshold of `days`: its age is
/// known and at least `days`.
pub open spec fn is_stale(wt: Worktree, days: u64) -> bool {
    match wt.age_days {
        Some(age) => age >= days,
        None => false,
    }
}

fn digit_to_char(d: u64) -> (c: char)
    requires
        d < 10,
    ensures
        c == digit_char(d as nat),
{
    if d == 0 {
        '0'
    } else if d == 1 {
        '1'
    } else if d == 2 {
        '2'
    } else if d == 3 {
        '3'
    } else if d == 4 {
        '4'
    } else if d == 5 {
        '5'
    } else if d == 6 {
        '6'
    } else if d == 7 {
        '7'
    } else if d == 8 {
        '8'
    } else {
        '9'
    }
}

/// Appends the decimal notation of `n` to `out`.
pub fn push_decimal(out: &mut Vec<char>, n: u64)
    ensures
        final(out)@ == old(out)@ + decimal(n as nat),
    decreases n,
{
    if n >= 10 {
        push_decimal(out, n / 10);
    }
    let ghost before = out@;
    out.push(digit_to_char(n % 10));
    proof {
        if n >= 10 {
            assert(decimal(n as nat) == decimal((n / 10) as nat).push(digit_char((n % 10) as nat)));
            assert(out@ =~= old(out)@ + decimal(n as nat));
        } else {
            assert(out@ =~= old(out)@ + decimal(n as nat));
        }
    }
}

impl Worktree {
    /// Whether the worktree is stale: its branch's age is known and at least
    /// `days`. A worktree of unknown age is never stale.
    pub fn stale(&self, days: u64) -> (r: bool)
        ensures
            r == is_stale(*self, days),
    {
        match self.age_days {
            Some(age) => age >= days,
            None => false,
        }
    }

    /// The worktree's heading, `repo :: branch` (`detached` for no branch).
    pub fn heading(&self) -> (text: String)
        ensures
            text@ == heading_text(*self),
    {
        let mut text = String::new();
        text.append(self.repo.as_str());
        text.append(" :: ");
        match &self.branch {
            Some(b) => text.append(b.as_str()),
            None => text.append("detached"),
        }
        assert(text@ =~= self.repo@ + " :: "@ + branch_label(self.branch));
        text
    }

    /// The label under which the worktree is offered for removal:
    /// `repo :: branch`, plus ` [DIRTY]`.
    pub fn choice_label(&self) -> (label: String)
        ensures
            label@ == choice_text(*self),
    {
        let mut label = self.heading();
        let ghost head = label@;
        if self.dirty {
            label.append(" [DIRTY]");
            assert(label@ =~= head + tag(true, "[DIRTY]"@)) by {
                reveal_strlit(" [DIRTY]");
                reveal_strlit(" ");
                reveal_strlit("[DIRTY]");
            }
        }
        assert(label@ =~= head + tag(self.dirty, "[DIRTY]"@));
        label
    }

    /// The full one-line description of the worktree, with its age,
    /// whether it is merged, whether its upstream is gone and whether it is
    /// dirty.
    pub fn display_name(&self) -> (name: String)
        ensures
            name@ == display_text(*self),
    {
        let mut name = String::new();
        name.append(self.repo.as_str());
        name.append(" :: ");
        match &self.branch {
            Some(b) => name.append(b.as_str()),
            None => name.append("detached"),
        }
        let ghost head = name@;
        assert(head =~= self.repo@ + " :: "@ + branch_label(self.branch));
        match self.age_days {
            Some(age) => {
                name.append(" [");
                let mut digits: Vec<char> = Vec::new();
                push_decimal(&mut digits, age);
                push_chars(&mut name, &digits);
                name.append("d]");
                assert(name@ =~= head + tag(true, "["@ + decimal(age as nat) + "d]"@)) by {
                    reveal_strlit(" [");
                    reveal_strlit(" ");
                    reveal_strlit("[");
                }
            },
            None => {
                assert(name@ =~= head + seq![]);
            },
        }
        let ghost with_age = name@;
        if self.merged {
            name.append(" [merged]");
            assert(name@ =~= with_age + tag(true, "[merged]"@)) by {
                reveal_strlit(" [merged]");
                reveal_strlit(" ");
                reveal_strlit("[merged]");
            }
        }
        let ghost with_merged = name@;
        assert(with_merged =~= with_age + tag(self.merged, "[merged]"@));
        if self.remote_gone {
            name.append(" [gone]");
            assert(name@ =~= with_merged + tag(true, "[gone]"@)) by {
                reveal_strlit(" [gone]");
                reveal_strlit(" ");
                reveal_strlit("[gone]");
            }
        }
        let ghost with_gone = name@;
        assert(with_gone =~= with_merged + tag(self.remote_gone, "[gone]"@));
        if self.dirty {
            name.append(" [DIRTY]");
            assert(name@ =~= with_gone + tag(true, "[DIRTY]"@)) by {
                reveal_strlit(" [DIRTY]");
                reveal_strlit(" ");
                reveal_strlit("[DIRTY]");
            }
        }
        assert(name@ =~= with_gone + tag(self.dirty, "[DIRTY]"@));
        name
    }
}

} // verus!
