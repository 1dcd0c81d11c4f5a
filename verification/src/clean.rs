//! The decisions of the interactive clean-up, as a state machine.
//!
//! The caller performs each action (listing worktrees, asking the user,
//! removing a worktree) and hands back what came of it as the next event.
//! The machine decides what happens next: it stops when nothing is there to
//! remove, when nothing was chosen or when the user declines; otherwise it
//! goes through the chosen worktrees in the order they were chosen, skipping
//! each dirty one and removing each clean one.
use vstd::prelude::*;

use crate::worktree::{choice_text, heading_text, Worktree};
use std::path::PathBuf;

verus! {

/// How a clean-up ended.
pub enum CleanEnd {
    /// No repository was found under the configured roots.
    NoRepos,
    /// The repositories have no linked worktrees.
    NoWorktrees,
    /// The user chose no worktree.
    NothingSelected,
    /// The user declined to delete the chosen worktrees.
    Aborted,
    /// Every chosen worktree has been dealt with.
    Completed,
}

/// Where a clean-up stands.
pub enum CleanState {
    /// Waiting for the repositories found under the roots.
    AwaitingRepos,
    /// Waiting for the linked worktrees of `repos[next]`; `found` holds those
    /// of the repositories before it.
    Listing { repos: Vec<PathBuf>, next: usize, found: Vec<Worktree> },
    /// Waiting for the user's choice among `found`.
    AwaitingSelection { found: Vec<Worktree> },
    /// Waiting for the user to confirm the deletion of `chosen`.
    AwaitingConfirmation { found: Vec<Worktree>, chosen: Vec<usize> },
    /// Dealing with the chosen worktrees; `chosen[next - 1]` is under way.
    Removing { found: Vec<Worktree>, chosen: Vec<usize>, next: usize },
    /// The clean-up is over.
    Finished,
}

/// What the caller reports back.
pub enum CleanEvent {
    /// The repositories found under the roots, in order.
    ReposFound(Vec<PathBuf>),
    /// The linked worktrees of the repository that was to be listed.
    WorktreesListed(Vec<Worktree>),
    /// The positions of the worktrees the user chose, in the order chosen.
    Selected(Vec<usize>),
    /// The user's answer to the confirmation.
    Confirmed(bool),
    /// The last skip or removal has been carried out.
    Done,
}

/// A chosen worktree as shown before the confirmation.
pub struct Shown {
    /// Its heading, `repo :: branch`.
    pub heading: String,
    /// Its path.
    pub path: PathBuf,
    /// It has uncommitted changes, and is shown as such.
    pub dirty: bool,
}

/// What the caller is to do next.
pub enum CleanAction {
    /// List the linked worktrees of this repository.
    ListWorktrees(PathBuf),
    /// Ask the user to choose among worktrees with these labels.
    Select(Vec<String>),
    /// Show the chosen worktrees and ask whether to delete them.
    Confirm(Vec<Shown>),
    /// Leave the dirty worktree at `found[index]` alone, telling the user.
    SkipDirty { index: usize, path: PathBuf },
    /// Remove the worktree at `found[index]` from its repository.
    Remove { index: usize, repo_path: PathBuf, path: PathBuf },
    /// Stop.
    Finish(CleanEnd),
    /// The event does not fit the state; nothing changes.
    Rejected,
}

// ---------------------------------------------------------------------------
// The model
// ---------------------------------------------------------------------------

/// A state as plain values.
pub enum CleanModel {
    AwaitingRepos,
    Listing { repos: Seq<PathBuf>, next: nat, found: Seq<Worktree> },
    AwaitingSelection { found: Seq<Worktree> },
    AwaitingConfirmation { found: Seq<Worktree>, chosen: Seq<usize> },
    Removing { found: Seq<Worktree>, chosen: Seq<usize>, next: nat },
    Finished,
}

/// An event as plain values.
pub enum EventModel {
    ReposFound(Seq<PathBuf>),
    WorktreesListed(Seq<Worktree>),
    Selected(Seq<usize>),
    Confirmed(bool),
    Done,
}

/// An action as plain values.
pub enum ActionModel {
    ListWorktrees(PathBuf),
    Select(Seq<Seq<char>>),
    Confirm(Seq<(Seq<char>, PathBuf, bool)>),
    SkipDirty { index: nat, path: PathBuf },
    Remove { index: nat, repo_path: PathBuf, path: PathBuf },
    Finish(CleanEnd),
    Rejected,
}

/// The texts of some strings.
pub open spec fn texts(v: Seq<String>) -> Seq<Seq<char>> {
    v.map_values(|s: String| s@)
}

impl View for CleanState {
    type V = CleanModel;

    open spec fn view(&self) -> CleanModel {
        match self {
            CleanState::AwaitingRepos => CleanModel::AwaitingRepos,
            CleanState::Listing { repos, next, found } => CleanModel::Listing {
                repos: repos@,
                next: *next as nat,
                found: found@,
            },
            CleanState::AwaitingSelection { found } => CleanModel::AwaitingSelection {
                found: found@,
            },
            CleanState::AwaitingConfirmation { found, chosen } => CleanModel::AwaitingConfirmation {
                found: found@,
                chosen: chosen@,
            },
            CleanState::Removing { found, chosen, next } => CleanModel::Removing {
                found: found@,
                chosen: chosen@,
                next: *next as nat,
            },
            CleanState::Finished => CleanModel::Finished,
        }
    }
}

impl View for CleanEvent {
    type V = EventModel;

    open spec fn view(&self) -> EventModel {
        match self {
            CleanEvent::ReposFound(repos) => EventModel::ReposFound(repos@),
            CleanEvent::WorktreesListed(ws) => EventModel::WorktreesListed(ws@),
            CleanEvent::Selected(chosen) => EventModel::Selected(chosen@),
            CleanEvent::Confirmed(yes) => EventModel::Confirmed(*yes),
            CleanEvent::Done => EventModel::Done,
        }
    }
}

/// The pairs of label and path shown for some chosen worktrees.
pub open spec fn shown_texts(v: Seq<Shown>) -> Seq<(Seq<char>, PathBuf, bool)> {
    v.map_values(|s: Shown| (s.heading@, s.path, s.dirty))
}

impl View for CleanAction {
    type V = ActionModel;

    open spec fn view(&self) -> ActionModel {
        match self {
            CleanAction::ListWorktrees(repo) => ActionModel::ListWorktrees(*repo),
            CleanAction::Select(labels) => ActionModel::Select(texts(labels@)),
            CleanAction::Confirm(shown) => ActionModel::Confirm(shown_texts(shown@)),
            CleanAction::SkipDirty { index, path } => ActionModel::SkipDirty {
                index: *index as nat,
                path: *path,
            },
            CleanAction::Remove { index, repo_path, path } => ActionModel::Remove {
                index: *index as nat,
                repo_path: *repo_path,
                path: *path,
            },
            CleanAction::Finish(end) => ActionModel::Finish(*end),
            CleanAction::Rejected => ActionModel::Rejected,
        }
    }
}

/// Every position in `chosen` is a position of `found`.
pub open spec fn all_below(chosen: Seq<usize>, n: nat) -> bool {
    forall|i: int| 0 <= i < chosen.len() ==> #[trigger] chosen[i] < n
}

/// The labels of the worktrees offered for choice.
pub open spec fn labels(found: Seq<Worktree>) -> Seq<Seq<char>> {
    found.map_values(|w: Worktree| choice_text(w))
}

/// The heading, path and dirtiness of each chosen worktree.
pub open spec fn shown_for(found: Seq<Worktree>, chosen: Seq<usize>) -> Seq<(Seq<char>, PathBuf, bool)> {
    chosen.map_values(
        |i: usize| (heading_text(found[i as int]), found[i as int].path, found[i as int].dirty),
    )
}

/// What is done with the chosen worktree `found[i]`: a dirty one is skipped,
/// a clean one removed.
pub open spec fn removal_step(found: Seq<Worktree>, i: usize) -> ActionModel {
    if found[i as int].dirty {
        ActionModel::SkipDirty { index: i as nat, path: found[i as int].path }
    } else {
        ActionModel::Remove {
            index: i as nat,
            repo_path: found[i as int].repo_path,
            path: found[i as int].path,
        }
    }
}

/// The transition: the next state and the action, from a state and an event.
pub open spec fn clean_next(s: CleanModel, e: EventModel) -> (CleanModel, ActionModel) {
    match s {
        CleanModel::AwaitingRepos => match e {
            EventModel::ReposFound(repos) => if repos.len() == 0 {
                (CleanModel::Finished, ActionModel::Finish(CleanEnd::NoRepos))
            } else {
                (
                    CleanModel::Listing { repos, next: 0, found: seq![] },
                    ActionModel::ListWorktrees(repos[0]),
                )
            },
            _ => (s, ActionModel::Rejected),
        },
        CleanModel::Listing { repos, next, found } => match e {
            EventModel::WorktreesListed(ws) => {
                let found2 = found + ws;
                if next + 1 < repos.len() {
                    (
                        CleanModel::Listing { repos, next: next + 1, found: found2 },
                        ActionModel::ListWorktrees(repos[next + 1 as int]),
                    )
                } else if found2.len() == 0 {
                    (CleanModel::Finished, ActionModel::Finish(CleanEnd::NoWorktrees))
                } else {
                    (
                        CleanModel::AwaitingSelection { found: found2 },
                        ActionModel::Select(labels(found2)),
                    )
                }
            },
            _ => (s, ActionModel::Rejected),
        },
        CleanModel::AwaitingSelection { found } => match e {
            EventModel::Selected(chosen) => if !all_below(chosen, found.len()) {
                (s, ActionModel::Rejected)
            } else if chosen.len() == 0 {
                (CleanModel::Finished, ActionModel::Finish(CleanEnd::NothingSelected))
            } else {
                (
                    CleanModel::AwaitingConfirmation { found, chosen },
                    ActionModel::Confirm(shown_for(found, chosen)),
                )
            },
            _ => (s, ActionModel::Rejected),
        },
        CleanModel::AwaitingConfirmation { found, chosen } => match e {
            EventModel::Confirmed(yes) => if !yes {
                (CleanModel::Finished, ActionModel::Finish(CleanEnd::Aborted))
            } else {
                (CleanModel::Removing { found, chosen, next: 1 }, removal_step(found, chosen[0]))
            },
            _ => (s, ActionModel::Rejected),
        },
        CleanModel::Removing { found, chosen, next } => match e {
            EventModel::Done => if next >= chosen.len() {
                (CleanModel::Finished, ActionModel::Finish(CleanEnd::Completed))
            } else {
                (
                    CleanModel::Removing { found, chosen, next: next + 1 },
                    removal_step(found, chosen[next as int]),
                )
            },
            _ => (s, ActionModel::Rejected),
        },
        CleanModel::Finished => (s, ActionModel::Rejected),
    }
}

/// The invariant of the states the machine can be in.
pub open spec fn clean_wf(s: CleanModel) -> bool {
    match s {
        CleanModel::Listing { repos, next, found } => next < repos.len(),
        CleanModel::AwaitingConfirmation { found, chosen } => chosen.len() > 0 && all_below(
            chosen,
            found.len(),
        ),
        CleanModel::Removing { found, chosen, next } => 1 <= next <= chosen.len() && all_below(
            chosen,
            found.len(),
        ),
        _ => true,
    }
}

/// The event can be handed to the machine: a selection only names
/// worktrees that were offered.
pub open spec fn event_allowed(s: CleanModel, e: EventModel) -> bool {
    match (s, e) {
        (CleanModel::AwaitingSelection { found }, EventModel::Selected(chosen)) => all_below(
            chosen,
            found.len(),
        ),
        _ => true,
    }
}

/// The actions of a run of the machine from `s` over the events `es`, one
/// action for each event, and the state it ends in.
pub open spec fn clean_run(s: CleanModel, es: Seq<EventModel>) -> (CleanModel, Seq<ActionModel>)
    decreases es.len(),
{
    if es.len() == 0 {
        (s, seq![])
    } else {
        let (s1, a) = clean_next(s, es[0]);
        let (last, rest) = clean_run(s1, es.drop_first());
        (last, seq![a] + rest)
    }
}

/// The action decides a chosen worktree's fate.
pub open spec fn is_removal(a: ActionModel) -> bool {
    a is Remove || a is SkipDirty
}

// ---------------------------------------------------------------------------
// Laws
// ---------------------------------------------------------------------------

/// Every step keeps the machine's invariant.
pub proof fn lemma_clean_step_keeps_wf(s: CleanModel, e: EventModel)
    requires
        clean_wf(s),
    ensures
        clean_wf(clean_next(s, e).0),
{
}

/// A removal is decided only for a worktree the user chose and that is
/// clean, and it names that worktree's repository and path; a skip is
/// decided only for a chosen worktree that is dirty. So a dirty worktree is
/// never removed.
pub proof fn lemma_only_clean_chosen_removed(s: CleanModel, e: EventModel)
    requires
        clean_wf(s),
    ensures
        clean_next(s, e).1 matches ActionModel::Remove { index, repo_path, path } ==> {
            &&& s is AwaitingConfirmation || s is Removing
            &&& exists|k: int|
                0 <= k < chosen_of(s).len() && #[trigger] chosen_of(s)[k] as nat == index
            &&& index < found_of(s).len()
            &&& !found_of(s)[index as int].dirty
            &&& found_of(s)[index as int].repo_path == repo_path
            &&& found_of(s)[index as int].path == path
        },
        clean_next(s, e).1 matches ActionModel::SkipDirty { index, path } ==> {
            &&& s is AwaitingConfirmation || s is Removing
            &&& exists|k: int|
                0 <= k < chosen_of(s).len() && #[trigger] chosen_of(s)[k] as nat == index
            &&& index < found_of(s).len()
            &&& found_of(s)[index as int].dirty
            &&& found_of(s)[index as int].path == path
        },
{
    match s {
        CleanModel::AwaitingConfirmation { found, chosen } => {
            assert(chosen[0] < found.len());
            assert(chosen_of(s)[0] == chosen[0]);
        },
        CleanModel::Removing { found, chosen, next } => {
            if next < chosen.len() {
                assert(chosen[next as int] < found.len());
                assert(chosen_of(s)[next as int] == chosen[next as int]);
            }
        },
        _ => {},
    }
}

/// The worktrees offered, in the states that hold them.
pub open spec fn found_of(s: CleanModel) -> Seq<Worktree> {
    match s {
        CleanModel::Listing { found, .. } => found,
        CleanModel::AwaitingSelection { found } => found,
        CleanModel::AwaitingConfirmation { found, .. } => found,
        CleanModel::Removing { found, .. } => found,
        _ => seq![],
    }
}

/// The positions the user chose, in the states that hold them.
pub open spec fn chosen_of(s: CleanModel) -> Seq<usize> {
    match s {
        CleanModel::AwaitingConfirmation { chosen, .. } => chosen,
        CleanModel::Removing { chosen, .. } => chosen,
        _ => seq![],
    }
}

/// Worktrees are dealt with only once the user has said yes: a skip or a
/// removal, and the removing phase itself, follow either a `yes` to the
/// confirmation or an earlier step of the removing phase.
pub proof fn lemma_removal_needs_yes(s: CleanModel, e: EventModel)
    requires
        clean_wf(s),
    ensures
        is_removal(clean_next(s, e).1) || clean_next(s, e).0 is Removing ==> s is Removing || (
        s is AwaitingConfirmation && e == EventModel::Confirmed(true)),
{
}

/// In any run from the start, each skip or removal comes at or after a
/// `yes` to the confirmation: nothing is deleted unless the user confirmed.
pub proof fn lemma_run_removal_needs_yes(es: Seq<EventModel>, k: int)
    requires
        0 <= k < es.len(),
        is_removal(clean_run(CleanModel::AwaitingRepos, es).1[k]),
    ensures
        exists|j: int| 0 <= j <= k && es[j] == EventModel::Confirmed(true),
{
    lemma_run_removal_needs_yes_from(CleanModel::AwaitingRepos, es, k);
}

proof fn lemma_run_length(s: CleanModel, es: Seq<EventModel>)
    ensures
        clean_run(s, es).1.len() == es.len(),
    decreases es.len(),
{
    if es.len() > 0 {
        lemma_run_length(clean_next(s, es[0]).0, es.drop_first());
    }
}

proof fn lemma_run_removal_needs_yes_from(s: CleanModel, es: Seq<EventModel>, k: int)
    requires
        clean_wf(s),
        !(s is Removing),
        0 <= k < es.len(),
        is_removal(clean_run(s, es).1[k]),
    ensures
        exists|j: int| 0 <= j <= k && es[j] == EventModel::Confirmed(true),
    decreases k,
{
    let s1 = clean_next(s, es[0]).0;
    lemma_removal_needs_yes(s, es[0]);
    lemma_clean_step_keeps_wf(s, es[0]);
    if k == 0 {
        assert(es[0] == EventModel::Confirmed(true));
    } else if s1 is Removing {
        assert(es[0] == EventModel::Confirmed(true));
    } else {
        let rest = es.drop_first();
        lemma_run_length(s1, rest);
        assert(clean_run(s, es).1[k] == clean_run(s1, rest).1[k - 1]);
        lemma_run_removal_needs_yes_from(s1, rest, k - 1);
        let j = choose|j: int| 0 <= j <= k - 1 && rest[j] == EventModel::Confirmed(true);
        assert(es[j + 1] == EventModel::Confirmed(true));
    }
}

/// The events that report the linked worktrees of each repository in turn.
pub open spec fn listed_events(lists: Seq<Seq<Worktree>>) -> Seq<EventModel> {
    lists.map_values(|ws: Seq<Worktree>| EventModel::WorktreesListed(ws))
}

/// Once the repositories are found and each one's linked worktrees are
/// reported, every one of those worktrees is offered for choice, in the order
/// of the repositories and of each listing; when there are none, the clean-up
/// ends there.
pub proof fn lemma_all_listed_offered(repos: Seq<PathBuf>, lists: Seq<Seq<Worktree>>)
    requires
        repos.len() > 0,
        lists.len() == repos.len(),
    ensures
        ({
            let run = clean_run(
                CleanModel::AwaitingRepos,
                seq![EventModel::ReposFound(repos)] + listed_events(lists),
            );
            &&& lists.flatten().len() > 0 ==> run.0 == CleanModel::AwaitingSelection {
                found: lists.flatten(),
            } && run.1.last() == ActionModel::Select(labels(lists.flatten()))
            &&& lists.flatten().len() == 0 ==> run.0 == CleanModel::Finished && run.1.last()
                == ActionModel::Finish(CleanEnd::NoWorktrees)
        }),
{
    let es = seq![EventModel::ReposFound(repos)] + listed_events(lists);
    assert(es.drop_first() =~= listed_events(lists));
    let s1 = CleanModel::Listing { repos, next: 0, found: seq![] };
    assert(clean_next(CleanModel::AwaitingRepos, es[0]).0 == s1);
    lemma_listing_offers(repos, 0, seq![], lists);
    assert(seq![] + lists.flatten() =~= lists.flatten());
    let tail = clean_run(s1, listed_events(lists));
    assert(clean_run(CleanModel::AwaitingRepos, es).1 == seq![
        clean_next(CleanModel::AwaitingRepos, es[0]).1,
    ] + tail.1);
}

proof fn lemma_listing_offers(
    repos: Seq<PathBuf>,
    next: nat,
    found: Seq<Worktree>,
    lists: Seq<Seq<Worktree>>,
)
    requires
        next < repos.len(),
        lists.len() == repos.len() - next,
    ensures
        ({
            let run = clean_run(CleanModel::Listing { repos, next, found }, listed_events(lists));
            let all = found + lists.flatten();
            &&& run.1.len() > 0
            &&& all.len() > 0 ==> run.0 == CleanModel::AwaitingSelection { found: all }
                && run.1.last() == ActionModel::Select(labels(all))
            &&& all.len() == 0 ==> run.0 == CleanModel::Finished && run.1.last()
                == ActionModel::Finish(CleanEnd::NoWorktrees)
        }),
    decreases repos.len() - next,
{
    let s = CleanModel::Listing { repos, next, found };
    let es = listed_events(lists);
    let ws = lists[0];
    let found2 = found + ws;
    assert(es[0] == EventModel::WorktreesListed(ws));
    assert(es.drop_first() =~= listed_events(lists.drop_first()));
    assert(lists.flatten() == ws + lists.drop_first().flatten());
    assert(found + lists.flatten() =~= found2 + lists.drop_first().flatten());
    let (s1, a1) = clean_next(s, es[0]);
    let tail = clean_run(s1, es.drop_first());
    assert(clean_run(s, es) == (tail.0, seq![a1] + tail.1));
    if next + 1 < repos.len() {
        lemma_listing_offers(repos, next + 1, found2, lists.drop_first());
        assert((seq![a1] + tail.1).last() == tail.1.last());
    } else {
        assert(lists.drop_first().len() == 0);
        assert(lists.drop_first().flatten() =~= seq![]);
        assert(found2 + lists.drop_first().flatten() =~= found2);
        assert(es.drop_first() =~= seq![]);
        assert((seq![a1] + tail.1).last() == a1);
    }
}

/// The decision for the chosen worktree at position `i` of `found`, spelled
/// out: a dirty one is skipped, a clean one removed from its repository.
pub open spec fn fate_of(found: Seq<Worktree>, i: usize) -> ActionModel {
    if found[i as int].dirty {
        ActionModel::SkipDirty { index: i as nat, path: found[i as int].path }
    } else {
        ActionModel::Remove {
            index: i as nat,
            repo_path: found[i as int].repo_path,
            path: found[i as int].path,
        }
    }
}

/// A non-empty choice among the offered worktrees is kept as it is: the
/// machine asks to confirm exactly the chosen worktrees, each shown by its
/// heading, path and dirtiness, in the order chosen, and keeps that very
/// choice for the removals.
pub proof fn lemma_choice_kept(found: Seq<Worktree>, chosen: Seq<usize>)
    requires
        chosen.len() > 0,
        forall|k: int| 0 <= k < chosen.len() ==> #[trigger] chosen[k] < found.len(),
    ensures
        clean_next(CleanModel::AwaitingSelection { found }, EventModel::Selected(chosen)) == (
            CleanModel::AwaitingConfirmation { found, chosen },
            ActionModel::Confirm(
                Seq::new(
                    chosen.len(),
                    |k: int|
                        (
                            heading_text(found[chosen[k] as int]),
                            found[chosen[k] as int].path,
                            found[chosen[k] as int].dirty,
                        ),
                ),
            ),
        ),
{
    assert(shown_for(found, chosen) =~= Seq::new(
        chosen.len(),
        |k: int|
            (
                heading_text(found[chosen[k] as int]),
                found[chosen[k] as int].path,
                found[chosen[k] as int].dirty,
            ),
    ));
}

/// The whole clean-up once the user has chosen: choosing a non-empty set of
/// offered worktrees, saying yes, and reporting each step done, shows every
/// chosen worktree for confirmation, then deals with every one of them, in
/// the order chosen, skipping the dirty and removing the clean, and then
/// completes. No chosen worktree is left out and nothing else is touched.
pub proof fn lemma_chosen_all_dealt_with(found: Seq<Worktree>, chosen: Seq<usize>)
    requires
        chosen.len() > 0,
        forall|k: int| 0 <= k < chosen.len() ==> #[trigger] chosen[k] < found.len(),
    ensures
        ({
            let run = clean_run(
                CleanModel::AwaitingSelection { found },
                seq![EventModel::Selected(chosen), EventModel::Confirmed(true)] + dones(
                    chosen.len(),
                ),
            );
            &&& run.0 == CleanModel::Finished
            &&& run.1.len() == chosen.len() + 2
            &&& run.1[0] == ActionModel::Confirm(
                Seq::new(
                    chosen.len(),
                    |k: int|
                        (
                            heading_text(found[chosen[k] as int]),
                            found[chosen[k] as int].path,
                            found[chosen[k] as int].dirty,
                        ),
                ),
            )
            &&& forall|k: int|
                0 <= k < chosen.len() ==> run.1[k + 1] == fate_of(found, #[trigger] chosen[k])
            &&& run.1[chosen.len() + 1 as int] == ActionModel::Finish(CleanEnd::Completed)
        }),
{
    lemma_choice_kept(found, chosen);
    let s0 = CleanModel::AwaitingSelection { found };
    let es = seq![EventModel::Selected(chosen), EventModel::Confirmed(true)] + dones(chosen.len());
    let s1 = CleanModel::AwaitingConfirmation { found, chosen };
    assert(es[0] == EventModel::Selected(chosen));
    assert(es.drop_first() =~= seq![EventModel::Confirmed(true)] + dones(chosen.len()));
    lemma_confirmed_run(found, chosen);
    let a0 = clean_next(s0, es[0]).1;
    let steps = chosen.map_values(|i: usize| removal_step(found, i));
    let rest = steps + seq![ActionModel::Finish(CleanEnd::Completed)];
    assert(clean_run(s0, es) == (CleanModel::Finished, seq![a0] + rest));
    let run = seq![a0] + rest;
    assert forall|k: int| 0 <= k < chosen.len() implies run[k + 1] == fate_of(
        found,
        #[trigger] chosen[k],
    ) by {
        assert(run[k + 1] == steps[k]);
    }
    assert(run[chosen.len() + 1 as int] == rest[chosen.len() as int]);
}

/// `n` events that report the last action carried out.
pub open spec fn dones(n: nat) -> Seq<EventModel> {
    Seq::new(n, |i: int| EventModel::Done)
}

/// Once the user says yes, and each skip or removal is reported done, the
/// chosen worktrees are dealt with one after another, each exactly once and
/// in the order chosen, and the clean-up completes.
pub proof fn lemma_confirmed_run(found: Seq<Worktree>, chosen: Seq<usize>)
    requires
        clean_wf(CleanModel::AwaitingConfirmation { found, chosen }),
    ensures
        clean_run(
            CleanModel::AwaitingConfirmation { found, chosen },
            seq![EventModel::Confirmed(true)] + dones(chosen.len()),
        ) == (CleanModel::Finished, chosen.map_values(|i: usize| removal_step(found, i)) + seq![
            ActionModel::Finish(CleanEnd::Completed),
        ]),
{
    let es = seq![EventModel::Confirmed(true)] + dones(chosen.len());
    assert(es.drop_first() =~= dones((chosen.len() - 1 + 1) as nat));
    lemma_removing_run(found, chosen, 1);
    assert(chosen.skip(1).map_values(|i: usize| removal_step(found, i)) =~= chosen.map_values(
        |i: usize| removal_step(found, i),
    ).drop_first());
    assert(seq![removal_step(found, chosen[0])] + (chosen.skip(1).map_values(
        |i: usize| removal_step(found, i),
    ) + seq![ActionModel::Finish(CleanEnd::Completed)]) =~= chosen.map_values(
        |i: usize| removal_step(found, i),
    ) + seq![ActionModel::Finish(CleanEnd::Completed)]);
}

proof fn lemma_removing_run(found: Seq<Worktree>, chosen: Seq<usize>, next: nat)
    requires
        clean_wf(CleanModel::Removing { found, chosen, next }),
    ensures
        clean_run(CleanModel::Removing { found, chosen, next }, dones((chosen.len() - next + 1) as nat))
            == (CleanModel::Finished, chosen.skip(next as int).map_values(
            |i: usize| removal_step(found, i),
        ) + seq![ActionModel::Finish(CleanEnd::Completed)]),
    decreases chosen.len() - next,
{
    let s = CleanModel::Removing { found, chosen, next };
    let es = dones((chosen.len() - next + 1) as nat);
    assert(es[0] == EventModel::Done);
    let s1 = clean_next(s, es[0]).0;
    let a = clean_next(s, es[0]).1;
    assert(clean_run(s, es) == (clean_run(s1, es.drop_first()).0, seq![a] + clean_run(
        s1,
        es.drop_first(),
    ).1));
    if next == chosen.len() {
        // The last chosen worktree was dealt with; the final report completes.
        assert(es.drop_first() =~= seq![]);
        assert(chosen.skip(next as int).map_values(|i: usize| removal_step(found, i)) =~= seq![]);
    } else {
        lemma_removing_run(found, chosen, next + 1);
        assert(es.drop_first() =~= dones((chosen.len() - (next + 1) + 1) as nat));
        assert(chosen.skip(next as int).map_values(|i: usize| removal_step(found, i)) =~= seq![
            removal_step(found, chosen[next as int]),
        ] + chosen.skip(next + 1 as int).map_values(|i: usize| removal_step(found, i)));
    }
}

/// Once over, the machine stays over and does nothing more.
pub proof fn lemma_finished_stays(es: Seq<EventModel>)
    ensures
        clean_run(CleanModel::Finished, es).0 == CleanModel::Finished,
        forall|k: int|
            0 <= k < es.len() ==> clean_run(CleanModel::Finished, es).1[k]
                == ActionModel::Rejected,
    decreases es.len(),
{
    if es.len() > 0 {
        lemma_finished_stays(es.drop_first());
        lemma_run_length(CleanModel::Finished, es.drop_first());
    }
}

// ---------------------------------------------------------------------------
// Executable machine
// ---------------------------------------------------------------------------

fn labels_of(found: &Vec<Worktree>) -> (out: Vec<String>)
    ensures
        texts(out@) == labels(found@),
{
    let mut out: Vec<String> = Vec::new();
    let mut i: usize = 0;
    while i < found.len()
        invariant
            i <= found.len(),
            texts(out@) == labels(found@.take(i as int)),
        decreases found.len() - i,
    {
        let label = found[i].choice_label();
        let ghost before = out@;
        out.push(label);
        assert(texts(out@) =~= texts(before).push(choice_text(found@[i as int])));
        assert(labels(found@.take(i + 1)) =~= labels(found@.take(i as int)).push(
            choice_text(found@[i as int]),
        ));
        i = i + 1;
    }
    assert(found@.take(found.len() as int) =~= found@);
    out
}

fn shown_of(found: &Vec<Worktree>, chosen: &Vec<usize>) -> (out: Vec<Shown>)
    requires
        all_below(chosen@, found@.len()),
    ensures
        shown_texts(out@) == shown_for(found@, chosen@),
{
    let mut out: Vec<Shown> = Vec::new();
    let mut i: usize = 0;
    while i < chosen.len()
        invariant
            i <= chosen.len(),
            all_below(chosen@, found@.len()),
            shown_texts(out@) == shown_for(found@, chosen@.take(i as int)),
        decreases chosen.len() - i,
    {
        let idx = chosen[i];
        assert(chosen@[i as int] < found@.len());
        let w = &found[idx];
        let shown = Shown { heading: w.heading(), path: w.path.clone(), dirty: w.dirty };
        let ghost before = out@;
        out.push(shown);
        assert(shown_texts(out@) =~= shown_texts(before).push(
            (heading_text(found@[idx as int]), found@[idx as int].path, found@[idx as int].dirty),
        ));
        assert(shown_for(found@, chosen@.take(i + 1)) =~= shown_for(found@, chosen@.take(i as int)).push(
            (heading_text(found@[idx as int]), found@[idx as int].path, found@[idx as int].dirty),
        ));
        i = i + 1;
    }
    assert(chosen@.take(chosen.len() as int) =~= chosen@);
    out
}

fn removal_action(found: &Vec<Worktree>, i: usize) -> (a: CleanAction)
    requires
        i < found@.len(),
    ensures
        a@ == removal_step(found@, i),
{
    let w = &found[i];
    if w.dirty {
        CleanAction::SkipDirty { index: i, path: w.path.clone() }
    } else {
        CleanAction::Remove { index: i, repo_path: w.repo_path.clone(), path: w.path.clone() }
    }
}

impl CleanState {
    /// A clean-up about to start: it waits for the repositories.
    pub fn new() -> (s: CleanState)
        ensures
            s@ == CleanModel::AwaitingRepos,
    {
        CleanState::AwaitingRepos
    }

    /// How many worktrees are offered for choice, while a choice is awaited.
    pub fn offered(&self) -> (n: usize)
        ensures
            match self@ {
                CleanModel::AwaitingSelection { found } => n == found.len(),
                _ => n == 0,
            },
    {
        match self {
            CleanState::AwaitingSelection { found } => found.len(),
            _ => 0,
        }
    }

    /// One step: the next state and what the caller is to do.
    pub fn step(self, event: CleanEvent) -> (out: (CleanState, CleanAction))
        requires
            clean_wf(self@),
            event_allowed(self@, event@),
        ensures
            clean_wf(out.0@),
            (out.0@, out.1@) == clean_next(self@, event@),
    {
        match self {
            CleanState::AwaitingRepos => match event {
                CleanEvent::ReposFound(repos) => {
                    if repos.len() == 0 {
                        (CleanState::Finished, CleanAction::Finish(CleanEnd::NoRepos))
                    } else {
                        let first = repos[0].clone();
                        (
                            CleanState::Listing { repos, next: 0, found: Vec::new() },
                            CleanAction::ListWorktrees(first),
                        )
                    }
                },
                _ => (CleanState::AwaitingRepos, CleanAction::Rejected),
            },
            CleanState::Listing { repos, next, mut found } => match event {
                CleanEvent::WorktreesListed(mut ws) => {
                    assert(next < repos.len());
                    found.append(&mut ws);
                    if next + 1 < repos.len() {
                        let repo = repos[next + 1].clone();
                        (
                            CleanState::Listing { repos, next: next + 1, found },
                            CleanAction::ListWorktrees(repo),
                        )
                    } else if found.len() == 0 {
                        (CleanState::Finished, CleanAction::Finish(CleanEnd::NoWorktrees))
                    } else {
                        let items = labels_of(&found);
                        (CleanState::AwaitingSelection { found }, CleanAction::Select(items))
                    }
                },
                _ => (CleanState::Listing { repos, next, found }, CleanAction::Rejected),
            },
            CleanState::AwaitingSelection { found } => match event {
                CleanEvent::Selected(chosen) => {
                    if chosen.len() == 0 {
                        (CleanState::Finished, CleanAction::Finish(CleanEnd::NothingSelected))
                    } else {
                        let shown = shown_of(&found, &chosen);
                        (
                            CleanState::AwaitingConfirmation { found, chosen },
                            CleanAction::Confirm(shown),
                        )
                    }
                },
                _ => (CleanState::AwaitingSelection { found }, CleanAction::Rejected),
            },
            CleanState::AwaitingConfirmation { found, chosen } => match event {
                CleanEvent::Confirmed(yes) => {
                    if !yes {
                        (CleanState::Finished, CleanAction::Finish(CleanEnd::Aborted))
                    } else {
                        let action = removal_action(&found, chosen[0]);
                        (CleanState::Removing { found, chosen, next: 1 }, action)
                    }
                },
                _ => (CleanState::AwaitingConfirmation { found, chosen }, CleanAction::Rejected),
            },
            CleanState::Removing { found, chosen, next } => match event {
                CleanEvent::Done => {
                    if next >= chosen.len() {
                        (CleanState::Finished, CleanAction::Finish(CleanEnd::Completed))
                    } else {
                        let action = removal_action(&found, chosen[next]);
                        (CleanState::Removing { found, chosen, next: next + 1 }, action)
                    }
                },
                _ => (CleanState::Removing { found, chosen, next }, CleanAction::Rejected),
            },
            CleanState::Finished => (CleanState::Finished, CleanAction::Rejected),
        }
    }
}

} // verus!
