//! The decisions of the diagnostics command, as a state machine.
//!
//! The caller checks the configuration file, lists each repository's linked
//! worktrees and prints what it is told to; the machine decides when to stop
//! and sums up what was found.
use vstd::prelude::*;

use std::path::PathBuf;

verus! {

/// How the diagnostics ended.
pub enum DoctorEnd {
    /// There is no configuration file.
    MissingConfig,
    /// No repository was found under the roots.
    NoRepos,
    /// Every repository was listed: `total` linked worktrees in all;
    /// `no_additional` when there are none at all, and the user is shown how
    /// to create one.
    Summary { total: usize, no_additional: bool },
}

/// Where the diagnostics stand.
pub enum DoctorState {
    /// Waiting to learn whether the configuration file exists.
    CheckingConfig,
    /// Waiting for the repositories found under the roots.
    AwaitingRepos,
    /// Waiting for the number of linked worktrees of `repos[next]`; `total`
    /// counts those of the repositories before it.
    Listing { repos: Vec<PathBuf>, next: usize, total: usize },
    /// The count of `repos[next]` is being reported; `total` includes it.
    Reporting { repos: Vec<PathBuf>, next: usize, total: usize },
    /// Over.
    Finished,
}

/// What the caller reports back.
pub enum DoctorEvent {
    /// Whether the configuration file exists.
    ConfigPresent(bool),
    /// The repositories found under the configured roots, in order.
    ReposFound(Vec<PathBuf>),
    /// How many linked worktrees the repository that was to be listed has.
    WorktreeCount(usize),
    /// The last report has been printed.
    Done,
}

/// What the caller is to do next.
pub enum DoctorAction {
    /// Load the configuration, report its roots and search them.
    Inspect,
    /// Count the linked worktrees of this repository.
    ListWorktrees(PathBuf),
    /// Report this repository with its number of linked worktrees.
    ReportRepo { repo: PathBuf, count: usize },
    /// Stop.
    Finish(DoctorEnd),
    /// The event does not fit the state; nothing changes.
    Rejected,
}

/// A state as plain values.
pub enum DoctorModel {
    CheckingConfig,
    AwaitingRepos,
    Listing { repos: Seq<PathBuf>, next: nat, total: nat },
    Reporting { repos: Seq<PathBuf>, next: nat, total: nat },
    Finished,
}

/// An event as plain values.
pub enum DoctorEventModel {
    ConfigPresent(bool),
    ReposFound(Seq<PathBuf>),
    WorktreeCount(nat),
    Done,
}

/// An action as plain values.
pub enum DoctorActionModel {
    Inspect,
    ListWorktrees(PathBuf),
    ReportRepo { repo: PathBuf, count: nat },
    Finish(DoctorEnd),
    Rejected,
}

impl View for DoctorState {
    type V = DoctorModel;

    open spec fn view(&self) -> DoctorModel {
        match self {
            DoctorState::CheckingConfig => DoctorModel::CheckingConfig,
            DoctorState::AwaitingRepos => DoctorModel::AwaitingRepos,
            DoctorState::Listing { repos, next, total } => DoctorModel::Listing {
                repos: repos@,
                next: *next as nat,
                total: *total as nat,
            },
            DoctorState::Reporting { repos, next, total } => DoctorModel::Reporting {
                repos: repos@,
                next: *next as nat,
                total: *total as nat,
            },
            DoctorState::Finished => DoctorModel::Finished,
        }
    }
}

impl View for DoctorEvent {
    type V = DoctorEventModel;

    open spec fn view(&self) -> DoctorEventModel {
        match self {
            DoctorEvent::ConfigPresent(yes) => DoctorEventModel::ConfigPresent(*yes),
            DoctorEvent::ReposFound(repos) => DoctorEventModel::ReposFound(repos@),
            DoctorEvent::WorktreeCount(n) => DoctorEventModel::WorktreeCount(*n as nat),
            DoctorEvent::Done => DoctorEventModel::Done,
        }
    }
}

impl View for DoctorAction {
    type V = DoctorActionModel;

    open spec fn view(&self) -> DoctorActionModel {
        match self {
            DoctorAction::Inspect => DoctorActionModel::Inspect,
            DoctorAction::ListWorktrees(repo) => DoctorActionModel::ListWorktrees(*repo),
            DoctorAction::ReportRepo { repo, count } => DoctorActionModel::ReportRepo {
                repo: *repo,
                count: *count as nat,
            },
            DoctorAction::Finish(end) => DoctorActionModel::Finish(*end),
            DoctorAction::Rejected => DoctorActionModel::Rejected,
        }
    }
}

/// The summary once every repository has been counted.
pub open spec fn summary(total: nat) -> DoctorEnd {
    DoctorEnd::Summary { total: total as usize, no_additional: total == 0 }
}

/// The transition: the next state and the action, from a state and an event.
pub open spec fn doctor_next(s: DoctorModel, e: DoctorEventModel) -> (
    DoctorModel,
    DoctorActionModel,
) {
    match s {
        DoctorModel::CheckingConfig => match e {
            DoctorEventModel::ConfigPresent(present) => if present {
                (DoctorModel::AwaitingRepos, DoctorActionModel::Inspect)
            } else {
                (DoctorModel::Finished, DoctorActionModel::Finish(DoctorEnd::MissingConfig))
            },
            _ => (s, DoctorActionModel::Rejected),
        },
        DoctorModel::AwaitingRepos => match e {
            DoctorEventModel::ReposFound(repos) => if repos.len() == 0 {
                (DoctorModel::Finished, DoctorActionModel::Finish(DoctorEnd::NoRepos))
            } else {
                (
                    DoctorModel::Listing { repos, next: 0, total: 0 },
                    DoctorActionModel::ListWorktrees(repos[0]),
                )
            },
            _ => (s, DoctorActionModel::Rejected),
        },
        DoctorModel::Listing { repos, next, total } => match e {
            DoctorEventModel::WorktreeCount(n) => (
                DoctorModel::Reporting { repos, next, total: total + n },
                DoctorActionModel::ReportRepo { repo: repos[next as int], count: n },
            ),
            _ => (s, DoctorActionModel::Rejected),
        },
        DoctorModel::Reporting { repos, next, total } => match e {
            DoctorEventModel::Done => if next + 1 < repos.len() {
                (
                    DoctorModel::Listing { repos, next: next + 1, total },
                    DoctorActionModel::ListWorktrees(repos[next + 1 as int]),
                )
            } else {
                (DoctorModel::Finished, DoctorActionModel::Finish(summary(total)))
            },
            _ => (s, DoctorActionModel::Rejected),
        },
        DoctorModel::Finished => (s, DoctorActionModel::Rejected),
    }
}

/// The invariant of the states the machine can be in.
pub open spec fn doctor_wf(s: DoctorModel) -> bool {
    match s {
        DoctorModel::Listing { repos, next, total } => next < repos.len() && total <= usize::MAX,
        DoctorModel::Reporting { repos, next, total } => next < repos.len() && total
            <= usize::MAX,
        _ => true,
    }
}

/// The event can be handed to the machine: a count does not carry the total
/// past `usize::MAX`.
pub open spec fn doctor_event_allowed(s: DoctorModel, e: DoctorEventModel) -> bool {
    match (s, e) {
        (DoctorModel::Listing { total, .. }, DoctorEventModel::WorktreeCount(n)) => total + n
            <= usize::MAX,
        _ => true,
    }
}

/// The actions of a run of the machine from `s` over the events `es`, one
/// action for each event, and the state it ends in.
pub open spec fn doctor_run(s: DoctorModel, es: Seq<DoctorEventModel>) -> (
    DoctorModel,
    Seq<DoctorActionModel>,
)
    decreases es.len(),
{
    if es.len() == 0 {
        (s, seq![])
    } else {
        let (s1, a) = doctor_next(s, es[0]);
        let (last, rest) = doctor_run(s1, es.drop_first());
        (last, seq![a] + rest)
    }
}

/// The events of listing repositories with these counts of linked
/// worktrees: each count, then the report of it done.
pub open spec fn count_events(counts: Seq<nat>) -> Seq<DoctorEventModel>
    decreases counts.len(),
{
    if counts.len() == 0 {
        seq![]
    } else {
        seq![DoctorEventModel::WorktreeCount(counts[0]), DoctorEventModel::Done] + count_events(
            counts.drop_first(),
        )
    }
}

/// The sum of some counts.
pub open spec fn sum(counts: Seq<nat>) -> nat
    decreases counts.len(),
{
    if counts.len() == 0 {
        0
    } else {
        counts[0] + sum(counts.drop_first())
    }
}

/// Once the repositories are listed, the diagnostics end with a summary
/// whose total is the sum of the counts of linked worktrees of all the
/// repositories, and which shows how to create a worktree exactly when that
/// total is zero.
pub proof fn lemma_summary_totals(repos: Seq<PathBuf>, counts: Seq<nat>)
    requires
        repos.len() > 0,
        counts.len() == repos.len(),
        sum(counts) <= usize::MAX,
    ensures
        doctor_run(DoctorModel::Listing { repos, next: 0, total: 0 }, count_events(counts)).0
            == DoctorModel::Finished,
        doctor_run(DoctorModel::Listing { repos, next: 0, total: 0 }, count_events(counts)).1.last()
            == DoctorActionModel::Finish(summary(sum(counts))),
{
    lemma_listing_run(repos, 0, 0, counts);
}

proof fn lemma_listing_run(repos: Seq<PathBuf>, next: nat, total: nat, counts: Seq<nat>)
    requires
        next < repos.len(),
        counts.len() == repos.len() - next,
        total + sum(counts) <= usize::MAX,
    ensures
        doctor_run(DoctorModel::Listing { repos, next, total }, count_events(counts)).0
            == DoctorModel::Finished,
        doctor_run(DoctorModel::Listing { repos, next, total }, count_events(counts)).1.len() > 0,
        doctor_run(DoctorModel::Listing { repos, next, total }, count_events(counts)).1.last()
            == DoctorActionModel::Finish(summary(total + sum(counts))),
    decreases repos.len() - next,
{
    let s = DoctorModel::Listing { repos, next, total };
    let es = count_events(counts);
    let c = counts[0];
    let rest = counts.drop_first();
    assert(es[0] == DoctorEventModel::WorktreeCount(c));
    assert(es.drop_first()[0] == DoctorEventModel::Done);
    assert(es.drop_first().drop_first() =~= count_events(rest));
    let s1 = DoctorModel::Reporting { repos, next, total: total + c };
    let a1 = DoctorActionModel::ReportRepo { repo: repos[next as int], count: c };
    assert(doctor_next(s, es[0]) == (s1, a1));
    let (s2, a2) = doctor_next(s1, DoctorEventModel::Done);
    let tail = doctor_run(s2, count_events(rest));
    assert(doctor_run(s1, es.drop_first()) == (tail.0, seq![a2] + tail.1));
    assert(doctor_run(s, es) == (tail.0, seq![a1] + (seq![a2] + tail.1)));
    if next + 1 < repos.len() {
        lemma_listing_run(repos, next + 1, total + c, rest);
        assert((seq![a1] + (seq![a2] + tail.1)).last() == tail.1.last());
    } else {
        assert(rest.len() == 0);
        assert(sum(rest) == 0);
        assert(count_events(rest) =~= seq![]);
        assert((seq![a1] + (seq![a2] + tail.1)).last() == a2);
    }
}

impl DoctorState {
    /// Diagnostics about to start: they wait to learn whether the
    /// configuration file exists.
    pub fn new() -> (s: DoctorState)
        ensures
            s@ == DoctorModel::CheckingConfig,
    {
        DoctorState::CheckingConfig
    }

    /// The linked worktrees counted so far.
    pub fn counted(&self) -> (n: usize)
        ensures
            match self@ {
                DoctorModel::Listing { total, .. } => n == total,
                DoctorModel::Reporting { total, .. } => n == total,
                _ => n == 0,
            },
    {
        match self {
            DoctorState::Listing { total, .. } => *total,
            DoctorState::Reporting { total, .. } => *total,
            _ => 0,
        }
    }

    /// One step: the next state and what the caller is to do.
    pub fn step(self, event: DoctorEvent) -> (out: (DoctorState, DoctorAction))
        requires
            doctor_wf(self@),
            doctor_event_allowed(self@, event@),
        ensures
            doctor_wf(out.0@),
            (out.0@, out.1@) == doctor_next(self@, event@),
    {
        match self {
            DoctorState::CheckingConfig => match event {
                DoctorEvent::ConfigPresent(present) => {
                    if present {
                        (DoctorState::AwaitingRepos, DoctorAction::Inspect)
                    } else {
                        (DoctorState::Finished, DoctorAction::Finish(DoctorEnd::MissingConfig))
                    }
                },
                _ => (DoctorState::CheckingConfig, DoctorAction::Rejected),
            },
            DoctorState::AwaitingRepos => match event {
                DoctorEvent::ReposFound(repos) => {
                    if repos.len() == 0 {
                        (DoctorState::Finished, DoctorAction::Finish(DoctorEnd::NoRepos))
                    } else {
                        let first = repos[0].clone();
                        (
                            DoctorState::Listing { repos, next: 0, total: 0 },
                            DoctorAction::ListWorktrees(first),
                        )
                    }
                },
                _ => (DoctorState::AwaitingRepos, DoctorAction::Rejected),
            },
            DoctorState::Listing { repos, next, total } => match event {
                DoctorEvent::WorktreeCount(n) => {
                    assert(next < repos.len());
                    let repo = repos[next].clone();
                    (
                        DoctorState::Reporting { repos, next, total: total + n },
                        DoctorAction::ReportRepo { repo, count: n },
                    )
                },
                _ => (DoctorState::Listing { repos, next, total }, DoctorAction::Rejected),
            },
            DoctorState::Reporting { repos, next, total } => match event {
                DoctorEvent::Done => {
                    assert(next < repos.len());
                    if next + 1 < repos.len() {
                        let repo = repos[next + 1].clone();
                        (
                            DoctorState::Listing { repos, next: next + 1, total },
                            DoctorAction::ListWorktrees(repo),
                        )
                    } else {
                        let no_additional = total == 0;
                        (
                            DoctorState::Finished,
                            DoctorAction::Finish(DoctorEnd::Summary { total, no_additional }),
                        )
                    }
                },
                _ => (DoctorState::Reporting { repos, next, total }, DoctorAction::Rejected),
            },
            DoctorState::Finished => (DoctorState::Finished, DoctorAction::Rejected),
        }
    }
}

} // verus!
