//! The reconstruction controller: a durable, resumable state machine that
//! drives commit-by-commit extraction, verification, model-assisted repair,
//! human escalation, and a final reconciliation pass.
//!
//! The controller owns the plan document and decides; collaborators act.  A
//! run is a sequence of exchanges: the caller feeds an [`Event`] (what the
//! collaborator observed) into [`Controller::step`] and receives a
//! [`Directive`]: whether to persist the document now, and the next
//! [`Action`] to perform.  All mutation of the document is append-only, one
//! history entry at a time, and every appending step asks the caller to
//! persist before acting — the document is the run's only recovery point.

use vstd::prelude::*;

use crate::plan::{CommitSpec, HistoryEntry, HistoryEntryView, HistorySpec, HistorySpecView};

verus! {

/// Configuration of the two verification steps.  `None` skips a step.
#[derive(Debug, Clone)]
pub struct ExecuteConfig {
    /// Command run after each commit to check that the tree builds.
    pub build_command: Option<String>,
    /// Command run after the build passes.
    pub test_command: Option<String>,
}

/// Reportable status of one commit, for progress reporting.
#[derive(Debug, Clone, Copy, PartialEq, Eq)]
pub enum CommitStatus {
    Pending,
    InProgress,
    Completed,
    Stuck,
}

/// The derived status of a commit for reporting: completion and stuckness
/// come from the history log; `in_progress` marks the commit the controller
/// is currently attempting.
pub fn commit_status(c: &CommitSpec, in_progress: bool) -> (r: CommitStatus)
    ensures
        r == (if c@.is_complete() {
            CommitStatus::Completed
        } else if c@.is_stuck() {
            CommitStatus::Stuck
        } else if in_progress {
            CommitStatus::InProgress
        } else {
            CommitStatus::Pending
        }),
{
    if c.is_complete() {
        CommitStatus::Completed
    } else if c.is_stuck() {
        CommitStatus::Stuck
    } else if in_progress {
        CommitStatus::InProgress
    } else {
        CommitStatus::Pending
    }
}

/// Which verification step is underway.
#[derive(Debug, Clone, Copy, PartialEq, Eq)]
pub enum VerifyStep {
    Build,
    Test,
}

/// Where the controller stands between exchanges.
#[derive(Debug, Clone, Copy, PartialEq, Eq)]
pub enum Phase {
    /// Not yet started; expects [`Event::Started`].
    Boot,
    /// Asked whether the working branch exists.
    AwaitRefCheck,
    /// Asked for the merge-base of source and remote.
    AwaitMergeBase,
    /// Asked to check out or create the working branch.
    AwaitBranch,
    /// Asked for the difference to source before extracting the current
    /// commit.
    AwaitDiff,
    /// Asked the model to extract the current commit's changes.
    AwaitExtract,
    /// Asked for the current commit's main version-control commit.
    AwaitMainCommit,
    /// Asked to run the current verification command.
    AwaitVerify,
    /// Verification failed; asked for a fresh difference for the repair
    /// prompt.
    AwaitRepairDiff,
    /// Asked the model to repair the verification failure.
    AwaitRepair,
    /// Asked for the repair's version-control commit.
    AwaitRepairCommit,
    /// All commits complete; asked for the difference before finalisation.
    AwaitFinalDiff,
    /// Asked the model to distribute the remaining difference.
    AwaitCatchall,
    /// Asked for the difference again after the model's distribution.
    AwaitRecheckDiff,
    /// Asked to force the tree to match the source branch.
    AwaitSync,
    /// Asked for the catch-all version-control commit.
    AwaitSyncCommit,
    /// The run has stopped: a commit is stuck or a collaborator failed.
    Halted,
    /// The run finished; the working tree matches the source branch.
    Done,
}

/// What a collaborator observed, fed back into the controller.
#[derive(Debug, Clone, PartialEq)]
pub enum Event {
    /// Begin the run.
    Started,
    /// Whether the working branch exists.
    RefChecked { exists: bool },
    /// The merge-base of source and remote.
    MergeBased { base: String },
    /// The working branch is checked out.
    BranchReady,
    /// The text difference between the working and source branches.
    DiffComputed { diff: String },
    /// Whether the model reported applying any changes.
    Extracted { applied: bool },
    /// A version-control commit was created; carries its identifier.
    Committed { hash: String },
    /// A verification command finished; carries its merged output.
    CommandRan { success: bool, output: String },
    /// The model's answer to a repair request.
    Repaired { can_progress: bool, reason: Option<String> },
    /// The model finished distributing the remaining difference.
    CatchallDone,
    /// The working tree now holds the source branch's content.
    Synced,
    /// A collaborator failed fatally; carries its message.
    Failed { message: String },
}

/// What the caller must do next.
#[derive(Debug, Clone, PartialEq)]
pub enum Action {
    /// Check whether the named ref exists.
    CheckRef { name: String },
    /// Compute the merge-base of the two named refs.
    ComputeMergeBase { ours: String, theirs: String },
    /// Create the named branch at the given start point and check it out.
    CreateBranch { name: String, start: String },
    /// Check out the named branch.
    Checkout { name: String },
    /// Compute the text difference `from..to`.
    ComputeDiff { from: String, to: String },
    /// Ask the model to apply only this commit's changes to the tree.
    AskExtract { message: String, hints: Option<String>, resolution: Option<String>, diff: String },
    /// Stage everything and create a commit with the given message.
    CreateCommit { message: String },
    /// Run a verification command in the repository root.
    RunCommand { command: String },
    /// Ask the model to repair a verification failure.
    AskRepair { message: String, hints: Option<String>, output: String, diff: String },
    /// Ask the model to distribute the remaining difference among the
    /// numbered commits.
    AskCatchall { messages: Vec<String>, diff: String },
    /// Take every file's content from the source branch.
    SyncFromSource { from: String },
    /// Stop: the commit at `index` is stuck and needs a human resolution.
    HaltStuck { index: usize },
    /// Stop: a collaborator failed fatally.
    Aborted,
    /// The run is finished.  `catchall` says whether a forced catch-all
    /// commit was created that a human should redistribute.
    Finished { catchall: bool },
}

/// One controller answer: persist the document now (if `save`), then
/// perform `action`.
#[derive(Debug, Clone, PartialEq)]
pub struct Directive {
    /// The document changed; persist it before acting.
    pub save: bool,
    /// The next action to perform.
    pub action: Action,
}

/// The document with one entry appended to the history of commit `i`.
pub open spec fn with_appended(s: HistorySpecView, i: int, e: HistoryEntryView) -> HistorySpecView {
    HistorySpecView {
        commits: s.commits.update(
            i,
            crate::plan::CommitSpecView {
                history: s.commits[i].history.push(e),
                ..s.commits[i]
            },
        ),
        ..s
    }
}

/// The configured command of a verification step.
pub open spec fn spec_step_command(config: ExecuteConfig, step: VerifyStep) -> Option<String> {
    match step {
        VerifyStep::Build => config.build_command,
        VerifyStep::Test => config.test_command,
    }
}

/// The reconstruction controller.  Owns the plan document; decides one
/// action per observed event.
pub struct Controller {
    /// The plan-and-state document; only ever appended to.
    pub spec: HistorySpec,
    /// The two verification commands.
    pub config: ExecuteConfig,
    /// The commit currently being processed.
    pub idx: usize,
    /// Where the controller stands.
    pub phase: Phase,
    /// The verification step underway, meaningful in the verify and repair
    /// phases.
    pub step: VerifyStep,
    /// The failed verification command's output, kept for the repair
    /// prompt.
    pub saved_output: String,
    /// Finalisation observed an empty difference.
    pub clean_finish: Ghost<bool>,
    /// Finalisation forced the tree to the source branch's content.
    pub forced_sync: Ghost<bool>,
}

impl Controller {
    /// Phases during which the controller is working on commit `idx`.
    pub open spec fn in_commit_phase(self) -> bool {
        self.phase is AwaitDiff || self.phase is AwaitExtract || self.phase is AwaitMainCommit
            || self.phase is AwaitVerify || self.phase is AwaitRepairDiff || self.phase
            is AwaitRepair || self.phase is AwaitRepairCommit
    }

    /// Phases of the finalisation pass.
    pub open spec fn in_final_phase(self) -> bool {
        self.phase is AwaitFinalDiff || self.phase is AwaitCatchall || self.phase
            is AwaitRecheckDiff || self.phase is AwaitSync || self.phase is AwaitSyncCommit
    }

    /// The controller's structural invariant.
    pub open spec fn wf(self) -> bool {
        &&& self.idx <= self.spec.commits@.len()
        &&& ((self.phase is Boot || self.phase is AwaitRefCheck || self.phase is AwaitMergeBase
            || self.phase is AwaitBranch) ==> self.idx == 0)
        &&& (self.in_commit_phase() ==> {
            &&& self.idx < self.spec.commits@.len()
            &&& !self.spec@.commits[self.idx as int].is_complete()
            &&& forall|j: int| 0 <= j < self.idx ==> self.spec@.commits[j].is_complete()
        })
        &&& ((self.phase is AwaitVerify || self.phase is AwaitRepairDiff || self.phase
            is AwaitRepair || self.phase is AwaitRepairCommit) ==> spec_step_command(
            self.config,
            self.step,
        ) is Some)
        &&& (self.in_final_phase() ==> self.spec@.all_complete())
        &&& (self.phase is AwaitSyncCommit ==> self.forced_sync@)
        &&& (self.phase is Done ==> self.clean_finish@ || self.forced_sync@)
    }

    /// A fresh controller, ready for [`Event::Started`].
    pub fn new(spec: HistorySpec, config: ExecuteConfig) -> (r: Controller)
        ensures
            r.wf(),
            r.spec == spec,
            r.config == config,
            r.phase is Boot,
            r.idx == 0,
    {
        Controller {
            spec,
            config,
            idx: 0,
            phase: Phase::Boot,
            step: VerifyStep::Build,
            saved_output: String::new(),
            clean_finish: Ghost(false),
            forced_sync: Ghost(false),
        }
    }

    /// Appends one entry to the current commit's history.
    fn append_entry(&mut self, e: HistoryEntry)
        requires
            old(self).idx < old(self).spec.commits@.len(),
        ensures
            final(self).spec@ == with_appended(
                old(self).spec@,
                old(self).idx as int,
                e@,
            ),
            final(self).spec.source == old(self).spec.source,
            final(self).spec.remote == old(self).spec.remote,
            final(self).spec.cleaned == old(self).spec.cleaned,
            final(self).spec.commits@.len() == old(self).spec.commits@.len(),
            final(self).config == old(self).config,
            final(self).idx == old(self).idx,
            final(self).phase == old(self).phase,
            final(self).step == old(self).step,
            final(self).saved_output == old(self).saved_output,
            final(self).clean_finish == old(self).clean_finish,
            final(self).forced_sync == old(self).forced_sync,
    {
        let ghost ev = e@;
        let i = self.idx;
        let mut c = self.spec.commits.remove(i);
        let ghost h0 = c.history@;
        c.history.push(e);
        proof {
            assert(c.history@ =~= h0.push(e));
        }
        self.spec.commits.insert(i, c);
        proof {
            let pre = old(self).spec@;
            let post = self.spec@;
            assert(post =~~= with_appended(pre, i as int, ev)) by {
                assert(post.commits.len() == pre.commits.len());
                assert forall|j: int|
                    0 <= j < post.commits.len() implies post.commits[j] =~~= with_appended(
                    pre,
                    i as int,
                    ev,
                ).commits[j] by {
                    if j < i {
                        assert(self.spec.commits@[j] == old(self).spec.commits@[j]);
                    } else if j == i {
                        assert(self.spec.commits@[j] == c);
                    } else {
                        assert(self.spec.commits@[j] == old(self).spec.commits@[j]);
                    }
                }
            }
        }
    }

    /// Moves past complete commits to the first commit still to process,
    /// and decides the next action: extract it, halt on a stuck commit, or
    /// begin finalisation when every commit is complete.
    fn advance(&mut self) -> (d: Action)
        requires
            old(self).idx <= old(self).spec.commits@.len(),
            forall|j: int| 0 <= j < old(self).idx ==> old(self).spec@.commits[j].is_complete(),
        ensures
            final(self).spec == old(self).spec,
            final(self).config == old(self).config,
            final(self).step == old(self).step,
            final(self).saved_output == old(self).saved_output,
            final(self).clean_finish == old(self).clean_finish,
            final(self).forced_sync == old(self).forced_sync,
            final(self).wf(),
            old(self).idx <= final(self).idx,
            forall|j: int| 0 <= j < final(self).idx ==> final(self).spec@.commits[j].is_complete(),
            if final(self).spec@.all_complete() {
                &&& final(self).phase is AwaitFinalDiff
                &&& final(self).idx == final(self).spec.commits@.len()
                &&& (d matches Action::ComputeDiff { from, to }
                    && from@ == final(self).spec@.cleaned
                    && to@ == final(self).spec@.source)
            } else {
                &&& final(self).spec@.is_next_pending(final(self).idx as int)
                &&& if final(self).spec@.commits[final(self).idx as int].is_stuck() {
                    &&& final(self).phase is Halted
                    &&& d == (Action::HaltStuck { index: final(self).idx })
                } else {
                    &&& final(self).phase is AwaitDiff
                    &&& (d matches Action::ComputeDiff { from, to }
                        && from@ == final(self).spec@.cleaned
                        && to@ == final(self).spec@.source)
                }
            },
    {
        while self.idx < self.spec.commits.len() && self.spec.commits[self.idx].is_complete()
            invariant
                old(self).idx <= self.idx <= self.spec.commits@.len(),
                self.spec == old(self).spec,
                self.config == old(self).config,
                self.step == old(self).step,
                self.saved_output == old(self).saved_output,
                self.clean_finish == old(self).clean_finish,
                self.forced_sync == old(self).forced_sync,
                self.phase == old(self).phase,
                forall|j: int| 0 <= j < self.idx ==> self.spec@.commits[j].is_complete(),
            decreases self.spec.commits@.len() - self.idx,
        {
            self.idx = self.idx + 1;
        }
        if self.idx == self.spec.commits.len() {
            self.phase = Phase::AwaitFinalDiff;
            proof {
                assert(self.spec@.all_complete());
            }
            Action::ComputeDiff {
                from: self.spec.cleaned.clone(),
                to: self.spec.source.clone(),
            }
        } else if self.spec.commits[self.idx].is_stuck() {
            self.phase = Phase::Halted;
            proof {
                assert(self.spec@.commits[self.idx as int].is_stuck());
                assert(!self.spec@.commits[self.idx as int].is_complete());
                assert(!self.spec@.all_complete());
            }
            Action::HaltStuck { index: self.idx }
        } else {
            self.phase = Phase::AwaitDiff;
            proof {
                assert(!self.spec@.commits[self.idx as int].is_complete());
                assert(!self.spec@.all_complete());
            }
            Action::ComputeDiff {
                from: self.spec.cleaned.clone(),
                to: self.spec.source.clone(),
            }
        }
    }
}

/// The resolution note of a commit, when its last history entry is
/// `Resolved`.
pub open spec fn resolution_of(c: crate::plan::CommitSpecView) -> Option<Seq<char>> {
    if c.history.len() > 0 {
        match c.history.last() {
            HistoryEntryView::Resolved(n) => Some(n),
            _ => None,
        }
    } else {
        None
    }
}

/// Which events a controller in a given phase accepts.
pub open spec fn event_ok(pre: Controller, ev: Event) -> bool {
    match (pre.phase, ev) {
        (Phase::Boot, Event::Started) => true,
        (Phase::AwaitRefCheck, Event::RefChecked { .. }) => true,
        (Phase::AwaitMergeBase, Event::MergeBased { .. }) => true,
        (Phase::AwaitBranch, Event::BranchReady) => true,
        (Phase::AwaitDiff, Event::DiffComputed { .. }) => true,
        (Phase::AwaitExtract, Event::Extracted { .. }) => true,
        (Phase::AwaitMainCommit, Event::Committed { .. }) => true,
        (Phase::AwaitVerify, Event::CommandRan { .. }) => true,
        (Phase::AwaitRepairDiff, Event::DiffComputed { .. }) => true,
        (Phase::AwaitRepair, Event::Repaired { .. }) => true,
        (Phase::AwaitRepairCommit, Event::Committed { .. }) => true,
        (Phase::AwaitFinalDiff, Event::DiffComputed { .. }) => true,
        (Phase::AwaitCatchall, Event::CatchallDone) => true,
        (Phase::AwaitRecheckDiff, Event::DiffComputed { .. }) => true,
        (Phase::AwaitSync, Event::Synced) => true,
        (Phase::AwaitSyncCommit, Event::Committed { .. }) => true,
        (Phase::Halted, _) => false,
        (Phase::Done, _) => false,
        (_, Event::Failed { .. }) => true,
        _ => false,
    }
}

/// The document and configuration are untouched.
pub open spec fn doc_unchanged(pre: Controller, post: Controller) -> bool {
    &&& post.spec == pre.spec
    &&& post.config == pre.config
}

/// Everything but the phase is untouched.
pub open spec fn core_unchanged(pre: Controller, post: Controller) -> bool {
    &&& doc_unchanged(pre, post)
    &&& post.idx == pre.idx
    &&& post.step == pre.step
    &&& post.saved_output == pre.saved_output
    &&& post.clean_finish == pre.clean_finish
    &&& post.forced_sync == pre.forced_sync
}

/// The document changed only by appending `e` to the current commit's
/// history; configuration and bookkeeping are untouched.
pub open spec fn doc_appended(pre: Controller, post: Controller, e: HistoryEntryView) -> bool {
    &&& post.spec@ == with_appended(pre.spec@, pre.idx as int, e)
    &&& post.spec.source == pre.spec.source
    &&& post.spec.remote == pre.spec.remote
    &&& post.spec.cleaned == pre.spec.cleaned
    &&& post.spec.commits@.len() == pre.spec.commits@.len()
    &&& post.config == pre.config
    &&& post.clean_finish == pre.clean_finish
    &&& post.forced_sync == pre.forced_sync
}

/// What the advance decision leaves behind: the index has moved over
/// complete commits, and the action either begins extraction of the next
/// pending commit, halts on a stuck commit, or begins finalisation.
pub open spec fn advance_out(start: int, post: Controller, a: Action) -> bool {
    &&& start <= post.idx <= post.spec.commits@.len()
    &&& (forall|j: int| 0 <= j < post.idx ==> post.spec@.commits[j].is_complete())
    &&& if post.spec@.all_complete() {
        &&& post.phase is AwaitFinalDiff
        &&& post.idx == post.spec.commits@.len()
        &&& (a matches Action::ComputeDiff { from, to } && from@ == post.spec@.cleaned && to@
            == post.spec@.source)
    } else {
        &&& post.spec@.is_next_pending(post.idx as int)
        &&& if post.spec@.commits[post.idx as int].is_stuck() {
            &&& post.phase is Halted
            &&& a == (Action::HaltStuck { index: post.idx })
        } else {
            &&& post.phase is AwaitDiff
            &&& (a matches Action::ComputeDiff { from, to } && from@ == post.spec@.cleaned
                && to@ == post.spec@.source)
        }
    }
}

/// The controller's transition relation: what one [`Controller::step`] call
/// does for each accepted phase/event pair.
pub open spec fn next_directive(pre: Controller, ev: Event, post: Controller, d: Directive) -> bool {
    let cur = pre.spec@.commits[pre.idx as int];
    match (pre.phase, ev) {
        (Phase::Boot, Event::Started) => {
            &&& core_unchanged(pre, post)
            &&& post.phase is AwaitRefCheck
            &&& d.save == false
            &&& (d.action matches Action::CheckRef { name } && name@ == pre.spec@.cleaned)
        },
        (Phase::AwaitRefCheck, Event::RefChecked { exists }) => {
            &&& core_unchanged(pre, post)
            &&& d.save == false
            &&& if exists {
                &&& post.phase is AwaitBranch
                &&& (d.action matches Action::Checkout { name } && name@ == pre.spec@.cleaned)
            } else {
                &&& post.phase is AwaitMergeBase
                &&& (d.action matches Action::ComputeMergeBase { ours, theirs } && ours@
                    == pre.spec@.source && theirs@ == pre.spec@.remote)
            }
        },
        (Phase::AwaitMergeBase, Event::MergeBased { base }) => {
            &&& core_unchanged(pre, post)
            &&& post.phase is AwaitBranch
            &&& d.save == false
            &&& (d.action matches Action::CreateBranch { name, start } && name@
                == pre.spec@.cleaned && start@ == base@)
        },
        (Phase::AwaitBranch, Event::BranchReady) => {
            &&& doc_unchanged(pre, post)
            &&& post.step == pre.step
            &&& post.saved_output == pre.saved_output
            &&& post.clean_finish == pre.clean_finish
            &&& post.forced_sync == pre.forced_sync
            &&& d.save == false
            &&& advance_out(pre.idx as int, post, d.action)
        },
        (Phase::AwaitDiff, Event::DiffComputed { diff }) => {
            if diff@.len() == 0 {
                &&& doc_appended(pre, post, HistoryEntryView::Complete)
                &&& post.step == pre.step
                &&& post.saved_output == pre.saved_output
                &&& d.save == true
                &&& advance_out(pre.idx as int, post, d.action)
            } else {
                &&& core_unchanged(pre, post)
                &&& post.phase is AwaitExtract
                &&& d.save == false
                &&& (d.action matches Action::AskExtract { message, hints, resolution, diff: dv }
                    && message@ == cur.message && (match (hints, cur.hints) {
                    (Some(h), Some(hc)) => h@ == hc,
                    (None, None) => true,
                    _ => false,
                }) && (match (resolution, resolution_of(cur)) {
                    (Some(n), Some(nc)) => n@ == nc,
                    (None, None) => true,
                    _ => false,
                }) && dv@ == diff@)
            }
        },
        (Phase::AwaitExtract, Event::Extracted { applied }) => {
            if !applied {
                &&& doc_appended(
                    pre,
                    post,
                    HistoryEntryView::Stuck(("could not extract changes")@),
                )
                &&& post.idx == pre.idx
                &&& post.phase is Halted
                &&& d.save == true
                &&& d.action == (Action::HaltStuck { index: pre.idx })
            } else {
                &&& core_unchanged(pre, post)
                &&& post.phase is AwaitMainCommit
                &&& d.save == false
                &&& (d.action matches Action::CreateCommit { message } && message@ == cur.message)
            }
        },
        (Phase::AwaitMainCommit, Event::Committed { hash }) => {
            let after = with_appended(
                pre.spec@,
                pre.idx as int,
                HistoryEntryView::CommitCreated(hash@),
            );
            if pre.config.build_command is Some {
                &&& doc_appended(pre, post, HistoryEntryView::CommitCreated(hash@))
                &&& post.idx == pre.idx
                &&& post.phase is AwaitVerify
                &&& post.step is Build
                &&& d.save == true
                &&& (d.action matches Action::RunCommand { command } && command@
                    == pre.config.build_command->0@)
            } else if pre.config.test_command is Some {
                &&& doc_appended(pre, post, HistoryEntryView::CommitCreated(hash@))
                &&& post.idx == pre.idx
                &&& post.phase is AwaitVerify
                &&& post.step is Test
                &&& d.save == true
                &&& (d.action matches Action::RunCommand { command } && command@
                    == pre.config.test_command->0@)
            } else {
                &&& post.spec@ == with_appended(
                    after,
                    pre.idx as int,
                    HistoryEntryView::Complete,
                )
                &&& post.config == pre.config
                &&& post.clean_finish == pre.clean_finish
                &&& post.forced_sync == pre.forced_sync
                &&& d.save == true
                &&& advance_out(pre.idx as int, post, d.action)
            }
        },
        (Phase::AwaitVerify, Event::CommandRan { success, output }) => {
            if success {
                if pre.step is Build && pre.config.test_command is Some {
                    &&& doc_unchanged(pre, post)
                    &&& post.idx == pre.idx
                    &&& post.saved_output == pre.saved_output
                    &&& post.clean_finish == pre.clean_finish
                    &&& post.forced_sync == pre.forced_sync
                    &&& post.phase is AwaitVerify
                    &&& post.step is Test
                    &&& d.save == false
                    &&& (d.action matches Action::RunCommand { command } && command@
                        == pre.config.test_command->0@)
                } else {
                    &&& doc_appended(pre, post, HistoryEntryView::Complete)
                    &&& d.save == true
                    &&& advance_out(pre.idx as int, post, d.action)
                }
            } else {
                &&& doc_unchanged(pre, post)
                &&& post.idx == pre.idx
                &&& post.step == pre.step
                &&& post.saved_output@ == output@
                &&& post.clean_finish == pre.clean_finish
                &&& post.forced_sync == pre.forced_sync
                &&& post.phase is AwaitRepairDiff
                &&& d.save == false
                &&& (d.action matches Action::ComputeDiff { from, to } && from@
                    == pre.spec@.cleaned && to@ == pre.spec@.source)
            }
        },
        (Phase::AwaitRepairDiff, Event::DiffComputed { diff }) => {
            &&& core_unchanged(pre, post)
            &&& post.phase is AwaitRepair
            &&& d.save == false
            &&& (d.action matches Action::AskRepair { message, hints, output, diff: dv }
                && message@ == cur.message && (match (hints, cur.hints) {
                (Some(h), Some(hc)) => h@ == hc,
                (None, None) => true,
                _ => false,
            }) && output@ == pre.saved_output@ && dv@ == diff@)
        },
        (Phase::AwaitRepair, Event::Repaired { can_progress, reason }) => {
            if !can_progress {
                let why = match reason {
                    Some(r) => r@,
                    None => ("Unknown reason")@,
                };
                &&& doc_appended(pre, post, HistoryEntryView::Stuck(why))
                &&& post.idx == pre.idx
                &&& post.phase is Halted
                &&& d.save == true
                &&& d.action == (Action::HaltStuck { index: pre.idx })
            } else {
                &&& core_unchanged(pre, post)
                &&& post.phase is AwaitRepairCommit
                &&& d.save == false
                &&& (d.action matches Action::CreateCommit { message } && message@ == ("WIP: fix for ")@
                    + cur.message)
            }
        },
        (Phase::AwaitRepairCommit, Event::Committed { hash }) => {
            &&& doc_appended(pre, post, HistoryEntryView::CommitCreated(hash@))
            &&& post.idx == pre.idx
            &&& post.step == pre.step
            &&& post.phase is AwaitVerify
            &&& d.save == true
            &&& (d.action matches Action::RunCommand { command } && Some(command@) == (
            match spec_step_command(pre.config, pre.step) {
                Some(cmd) => Some(cmd@),
                None => None,
            }))
        },
        (Phase::AwaitFinalDiff, Event::DiffComputed { diff }) => {
            if diff@.len() == 0 {
                &&& doc_unchanged(pre, post)
                &&& post.clean_finish@ == true
                &&& post.phase is Done
                &&& d.save == false
                &&& d.action == (Action::Finished { catchall: false })
            } else {
                &&& core_unchanged(pre, post)
                &&& post.phase is AwaitCatchall
                &&& d.save == false
                &&& (d.action matches Action::AskCatchall { messages, diff: dv } && dv@ == diff@
                    && messages@.len() == pre.spec.commits@.len() && (forall|j: int|
                    0 <= j < messages@.len() ==> messages@[j]@ == pre.spec@.commits[j].message))
            }
        },
        (Phase::AwaitCatchall, Event::CatchallDone) => {
            &&& core_unchanged(pre, post)
            &&& post.phase is AwaitRecheckDiff
            &&& d.save == false
            &&& (d.action matches Action::ComputeDiff { from, to } && from@ == pre.spec@.cleaned
                && to@ == pre.spec@.source)
        },
        (Phase::AwaitRecheckDiff, Event::DiffComputed { diff }) => {
            if diff@.len() == 0 {
                &&& doc_unchanged(pre, post)
                &&& post.clean_finish@ == true
                &&& post.phase is Done
                &&& d.save == false
                &&& d.action == (Action::Finished { catchall: false })
            } else {
                &&& core_unchanged(pre, post)
                &&& post.phase is AwaitSync
                &&& d.save == false
                &&& (d.action matches Action::SyncFromSource { from } && from@
                    == pre.spec@.source)
            }
        },
        (Phase::AwaitSync, Event::Synced) => {
            &&& doc_unchanged(pre, post)
            &&& post.forced_sync@ == true
            &&& post.clean_finish == pre.clean_finish
            &&& post.phase is AwaitSyncCommit
            &&& d.save == false
            &&& (d.action matches Action::CreateCommit { message } && message@ == (
            "WIP--remaining changes (review manually)")@)
        },
        (Phase::AwaitSyncCommit, Event::Committed { .. }) => {
            &&& doc_unchanged(pre, post)
            &&& post.clean_finish == pre.clean_finish
            &&& post.forced_sync == pre.forced_sync
            &&& post.phase is Done
            &&& d.save == false
            &&& d.action == (Action::Finished { catchall: true })
        },
        (_, Event::Failed { message }) => {
            if pre.in_commit_phase() {
                &&& doc_appended(pre, post, HistoryEntryView::Stuck(message@))
                &&& post.phase is Halted
                &&& d.save == true
                &&& d.action is Aborted
            } else {
                &&& doc_unchanged(pre, post)
                &&& post.phase is Halted
                &&& d.save == false
                &&& d.action is Aborted
            }
        },
        _ => false,
    }
}

impl Controller {
    /// A copy of the current commit's message.
    fn cur_message(&self) -> (r: String)
        requires
            self.idx < self.spec.commits@.len(),
        ensures
            r@ == self.spec@.commits[self.idx as int].message,
    {
        self.spec.commits[self.idx].message.clone()
    }

    /// A copy of the current commit's hints.
    fn cur_hints(&self) -> (r: Option<String>)
        requires
            self.idx < self.spec.commits@.len(),
        ensures
            match (r, self.spec@.commits[self.idx as int].hints) {
                (Some(h), Some(hc)) => h@ == hc,
                (None, None) => true,
                _ => false,
            },
    {
        match &self.spec.commits[self.idx].hints {
            Some(h) => Some(h.clone()),
            None => None,
        }
    }

    /// Feeds one observed event to the controller and returns what to do
    /// next.  The exchange follows [`next_directive`]; the caller persists
    /// the document whenever the directive says so.
    pub fn step(&mut self, event: Event) -> (d: Directive)
        requires
            old(self).wf(),
            event_ok(*old(self), event),
        ensures
            final(self).wf(),
            next_directive(*old(self), event, *final(self), d),
    {
        let phase = self.phase;
        match (phase, event) {
            (Phase::Boot, Event::Started) => {
                self.phase = Phase::AwaitRefCheck;
                Directive {
                    save: false,
                    action: Action::CheckRef { name: self.spec.cleaned.clone() },
                }
            },
            (Phase::AwaitRefCheck, Event::RefChecked { exists }) => {
                if exists {
                    self.phase = Phase::AwaitBranch;
                    Directive {
                        save: false,
                        action: Action::Checkout { name: self.spec.cleaned.clone() },
                    }
                } else {
                    self.phase = Phase::AwaitMergeBase;
                    Directive {
                        save: false,
                        action: Action::ComputeMergeBase {
                            ours: self.spec.source.clone(),
                            theirs: self.spec.remote.clone(),
                        },
                    }
                }
            },
            (Phase::AwaitMergeBase, Event::MergeBased { base }) => {
                self.phase = Phase::AwaitBranch;
                Directive {
                    save: false,
                    action: Action::CreateBranch {
                        name: self.spec.cleaned.clone(),
                        start: base,
                    },
                }
            },
            (Phase::AwaitBranch, Event::BranchReady) => {
                let a = self.advance();
                Directive { save: false, action: a }
            },
            (Phase::AwaitDiff, Event::DiffComputed { diff }) => {
                if diff.as_str().is_empty() {
                    self.append_entry(HistoryEntry::Complete);
                    proof {
                        assert(self.spec@.commits[self.idx as int].is_complete());
                        assert forall|j: int|
                            0 <= j < self.idx implies self.spec@.commits[j].is_complete() by {
                            assert(self.spec@.commits[j] == old(self).spec@.commits[j]);
                            assert(old(self).spec@.commits[j].is_complete());
                        }
                    }
                    let a = self.advance();
                    Directive { save: true, action: a }
                } else {
                    let message = self.cur_message();
                    let hints = self.cur_hints();
                    let resolution: Option<String> =
                        match self.spec.commits[self.idx].resolution_note() {
                        Some(n) => Some(String::from_str(n)),
                        None => None,
                    };
                    self.phase = Phase::AwaitExtract;
                    Directive {
                        save: false,
                        action: Action::AskExtract { message, hints, resolution, diff },
                    }
                }
            },
            (Phase::AwaitExtract, Event::Extracted { applied }) => {
                if !applied {
                    self.append_entry(
                        HistoryEntry::Stuck(String::from_str("could not extract changes")),
                    );
                    self.phase = Phase::Halted;
                    Directive { save: true, action: Action::HaltStuck { index: self.idx } }
                } else {
                    let message = self.cur_message();
                    self.phase = Phase::AwaitMainCommit;
                    Directive { save: false, action: Action::CreateCommit { message } }
                }
            },
            (Phase::AwaitMainCommit, Event::Committed { hash }) => {
                self.append_entry(HistoryEntry::CommitCreated(hash));
                match &self.config.build_command {
                    Some(cmd) => {
                        let command = cmd.clone();
                        self.step = VerifyStep::Build;
                        self.phase = Phase::AwaitVerify;
                        proof {
                            assert(!self.spec@.commits[self.idx as int].is_complete());
                            assert forall|j: int|
                                0 <= j < self.idx implies self.spec@.commits[j].is_complete() by {
                                assert(self.spec@.commits[j] == old(self).spec@.commits[j]);
                            }
                        }
                        Directive { save: true, action: Action::RunCommand { command } }
                    },
                    None => {
                        match &self.config.test_command {
                            Some(cmd) => {
                                let command = cmd.clone();
                                self.step = VerifyStep::Test;
                                self.phase = Phase::AwaitVerify;
                                proof {
                                    assert(!self.spec@.commits[self.idx as int].is_complete());
                                    assert forall|j: int|
                                        0 <= j < self.idx implies self.spec@.commits[
                                    j].is_complete() by {
                                        assert(self.spec@.commits[j] == old(
                                            self,
                                        ).spec@.commits[j]);
                                    }
                                }
                                Directive { save: true, action: Action::RunCommand { command } }
                            },
                            None => {
                                self.append_entry(HistoryEntry::Complete);
                                proof {
                                    assert(self.spec@.commits[self.idx as int].is_complete());
                                    assert forall|j: int|
                                        0 <= j < self.idx implies self.spec@.commits[
                                        j].is_complete() by {
                                        assert(self.spec@.commits[j] == old(
                                            self,
                                        ).spec@.commits[j]);
                                        assert(old(self).spec@.commits[j].is_complete());
                                    }
                                }
                                let a = self.advance();
                                Directive { save: true, action: a }
                            },
                        }
                    },
                }
            },
            (Phase::AwaitVerify, Event::CommandRan { success, output }) => {
                if success {
                    let run_test: Option<String> = match (self.step, &self.config.test_command) {
                        (VerifyStep::Build, Some(cmd)) => Some(cmd.clone()),
                        _ => None,
                    };
                    match run_test {
                        Some(command) => {
                            self.step = VerifyStep::Test;
                            Directive { save: false, action: Action::RunCommand { command } }
                        },
                        None => {
                            self.append_entry(HistoryEntry::Complete);
                            proof {
                                assert(self.spec@.commits[self.idx as int].is_complete());
                                assert forall|j: int|
                                    0 <= j < self.idx implies self.spec@.commits[
                                    j].is_complete() by {
                                    assert(self.spec@.commits[j] == old(self).spec@.commits[j]);
                                    assert(old(self).spec@.commits[j].is_complete());
                                }
                            }
                            let a = self.advance();
                            Directive { save: true, action: a }
                        },
                    }
                } else {
                    self.saved_output = output;
                    self.phase = Phase::AwaitRepairDiff;
                    Directive {
                        save: false,
                        action: Action::ComputeDiff {
                            from: self.spec.cleaned.clone(),
                            to: self.spec.source.clone(),
                        },
                    }
                }
            },
            (Phase::AwaitRepairDiff, Event::DiffComputed { diff }) => {
                let message = self.cur_message();
                let hints = self.cur_hints();
                let output = self.saved_output.clone();
                self.phase = Phase::AwaitRepair;
                Directive {
                    save: false,
                    action: Action::AskRepair { message, hints, output, diff },
                }
            },
            (Phase::AwaitRepair, Event::Repaired { can_progress, reason }) => {
                if !can_progress {
                    let why = match reason {
                        Some(r) => r,
                        None => String::from_str("Unknown reason"),
                    };
                    self.append_entry(HistoryEntry::Stuck(why));
                    self.phase = Phase::Halted;
                    Directive { save: true, action: Action::HaltStuck { index: self.idx } }
                } else {
                    let message = String::from_str("WIP: fix for ").concat(
                        self.spec.commits[self.idx].message.as_str(),
                    );
                    self.phase = Phase::AwaitRepairCommit;
                    Directive { save: false, action: Action::CreateCommit { message } }
                }
            },
            (Phase::AwaitRepairCommit, Event::Committed { hash }) => {
                self.append_entry(HistoryEntry::CommitCreated(hash));
                let command = match (self.step, &self.config.build_command,
                    &self.config.test_command) {
                    (VerifyStep::Build, Some(cmd), _) => cmd.clone(),
                    (VerifyStep::Test, _, Some(cmd)) => cmd.clone(),
                    _ => {
                        proof {
                            assert(false);
                        }
                        String::new()
                    },
                };
                self.phase = Phase::AwaitVerify;
                proof {
                    assert(!self.spec@.commits[self.idx as int].is_complete());
                    assert forall|j: int|
                        0 <= j < self.idx implies self.spec@.commits[j].is_complete() by {
                        assert(self.spec@.commits[j] == old(self).spec@.commits[j]);
                    }
                }
                Directive { save: true, action: Action::RunCommand { command } }
            },
            (Phase::AwaitFinalDiff, Event::DiffComputed { diff }) => {
                if diff.as_str().is_empty() {
                    self.clean_finish = Ghost(true);
                    self.phase = Phase::Done;
                    Directive { save: false, action: Action::Finished { catchall: false } }
                } else {
                    let messages = self.spec.commit_messages();
                    self.phase = Phase::AwaitCatchall;
                    Directive { save: false, action: Action::AskCatchall { messages, diff } }
                }
            },
            (Phase::AwaitCatchall, Event::CatchallDone) => {
                self.phase = Phase::AwaitRecheckDiff;
                Directive {
                    save: false,
                    action: Action::ComputeDiff {
                        from: self.spec.cleaned.clone(),
                        to: self.spec.source.clone(),
                    },
                }
            },
            (Phase::AwaitRecheckDiff, Event::DiffComputed { diff }) => {
                if diff.as_str().is_empty() {
                    self.clean_finish = Ghost(true);
                    self.phase = Phase::Done;
                    Directive { save: false, action: Action::Finished { catchall: false } }
                } else {
                    self.phase = Phase::AwaitSync;
                    Directive {
                        save: false,
                        action: Action::SyncFromSource { from: self.spec.source.clone() },
                    }
                }
            },
            (Phase::AwaitSync, Event::Synced) => {
                self.forced_sync = Ghost(true);
                self.phase = Phase::AwaitSyncCommit;
                Directive {
                    save: false,
                    action: Action::CreateCommit {
                        message: String::from_str("WIP--remaining changes (review manually)"),
                    },
                }
            },
            (Phase::AwaitSyncCommit, Event::Committed { .. }) => {
                self.phase = Phase::Done;
                Directive { save: false, action: Action::Finished { catchall: true } }
            },
            (_, Event::Failed { message }) => {
                let in_commit = match phase {
                    Phase::AwaitDiff | Phase::AwaitExtract | Phase::AwaitMainCommit
                        | Phase::AwaitVerify | Phase::AwaitRepairDiff | Phase::AwaitRepair
                        | Phase::AwaitRepairCommit => true,
                    _ => false,
                };
                if in_commit {
                    self.append_entry(HistoryEntry::Stuck(message));
                    self.phase = Phase::Halted;
                    Directive { save: true, action: Action::Aborted }
                } else {
                    self.phase = Phase::Halted;
                    Directive { save: false, action: Action::Aborted }
                }
            },
            _ => {
                proof {
                    assert(false);
                }
                Directive { save: false, action: Action::Aborted }
            },
        }
    }
}

/// The message the fixup label names: the commit the group belongs to by
/// its 1-indexed number, the first commit for zero, or `unknown` when the
/// number is out of range.
pub open spec fn fixup_target(messages: Seq<Seq<char>>, n: int) -> Seq<char> {
    let idx = if n == 0 {
        0
    } else {
        n - 1
    };
    if 0 <= idx < messages.len() {
        messages[idx]
    } else {
        ("unknown")@
    }
}

/// The label of a grouped fixup commit created during finalisation:
/// `WIP--merge into <number>: <message>`, naming the 1-indexed commit the
/// group should be folded into during interactive history editing.
pub fn fixup_label(messages: &Vec<String>, target_number: usize) -> (r: String)
    ensures
        r@ == ("WIP--merge into ")@ + crate::text::decimal_digits(target_number as int) + (": ")@
            + fixup_target(
            messages@.map_values(|m: String| m@),
            target_number as int,
        ),
{
    let idx: usize = if target_number == 0 {
        0
    } else {
        target_number - 1
    };
    let mut out: Vec<char> = Vec::new();
    crate::text::append_lit(&mut out, "WIP--merge into ");
    crate::text::push_decimal(&mut out, target_number);
    crate::text::append_lit(&mut out, ": ");
    if idx < messages.len() {
        crate::text::append_lit(&mut out, messages[idx].as_str());
        proof {
            assert(messages@.map_values(|m: String| m@)[idx as int] == messages@[idx as int]@);
        }
    } else {
        crate::text::append_lit(&mut out, "unknown");
    }
    crate::text::string_of(&out)
}

// ---------------------------------------------------------------------------
// Laws of the controller
// ---------------------------------------------------------------------------
/// Idempotent resume: when the difference to the source branch is already
/// empty for the commit under way, the exchange appends exactly one
/// `Complete` entry to that commit, asks to persist, and never asks for a
/// version-control commit or an extraction.
pub proof fn law_idempotent_resume(pre: Controller, ev: Event, post: Controller, d: Directive)
    requires
        pre.wf(),
        pre.phase is AwaitDiff,
        ev matches Event::DiffComputed { diff } && diff@.len() == 0,
        next_directive(pre, ev, post, d),
    ensures
        post.spec@.commits[pre.idx as int].is_complete(),
        post.spec@.commits[pre.idx as int].history == pre.spec@.commits[pre.idx as int]
            .history.push(HistoryEntryView::Complete),
        d.save == true,
        !(d.action is CreateCommit),
        !(d.action is AskExtract),
{
}

/// Stuck/Resolved protocol, retry side: a commit whose last history entry
/// is `Resolved` is retry-eligible — with a difference left to extract, the
/// controller asks for extraction, and the extraction request carries the
/// resolution note.
pub proof fn law_resolved_retry(pre: Controller, ev: Event, post: Controller, d: Directive)
    requires
        pre.wf(),
        pre.phase is AwaitDiff,
        pre.spec@.commits[pre.idx as int].is_resolved(),
        ev matches Event::DiffComputed { diff } && diff@.len() > 0,
        next_directive(pre, ev, post, d),
    ensures
        (d.action matches Action::AskExtract { resolution, .. } && resolution matches Some(n)
            && pre.spec@.commits[pre.idx as int].history.last() == HistoryEntryView::Resolved(n@)),
{
    let cur = pre.spec@.commits[pre.idx as int];
    assert(resolution_of(cur) is Some);
}

/// Stuck/Resolved protocol, halt side: when the first commit still to
/// process is stuck, the run halts right after branch setup, before any
/// extraction is attempted, and the document is untouched.
pub proof fn law_stuck_halts(pre: Controller, ev: Event, post: Controller, d: Directive, i: int)
    requires
        pre.wf(),
        pre.phase is AwaitBranch,
        ev is BranchReady,
        next_directive(pre, ev, post, d),
        pre.spec@.is_next_pending(i),
        pre.spec@.commits[i].is_stuck(),
    ensures
        post.phase is Halted,
        d.action == (Action::HaltStuck { index: post.idx }),
        post.idx == i,
        post.spec == pre.spec,
{
    assert(!pre.spec@.all_complete());
    assert(post.spec@.is_next_pending(post.idx as int));
    lemma_next_pending_unique(post.spec@, post.idx as int, i);
}

/// The resumption point is unique: only one index can be the first
/// commit that is not complete.
pub proof fn lemma_next_pending_unique(s: HistorySpecView, i: int, j: int)
    requires
        s.is_next_pending(i),
        s.is_next_pending(j),
    ensures
        i == j,
{
    if i < j {
        assert(s.commits[i].is_complete());
    }
    if j < i {
        assert(s.commits[j].is_complete());
    }
}

/// Finalisation comes clean: a run reaches `Done` only after finalisation
/// observed an empty difference between the working and source branches, or
/// after every remaining difference was forced over from the source branch;
/// and a finish without a catch-all commit means the last observed
/// difference was empty.
pub proof fn law_finalisation_clean(pre: Controller, ev: Event, post: Controller, d: Directive)
    requires
        pre.wf(),
        event_ok(pre, ev),
        next_directive(pre, ev, post, d),
    ensures
        post.phase is Done ==> post.clean_finish@ || post.forced_sync@,
        (d.action matches Action::Finished { catchall } && !catchall) ==> (ev
            matches Event::DiffComputed { diff } && diff@.len() == 0),
        (d.action matches Action::Finished { catchall } && catchall) ==> post.forced_sync@,
{
}

/// Durability discipline: an exchange never rewrites the document — the
/// branch names and every commit's message, hints and history prefix are
/// kept, at most one history entry is appended to the commit under way —
/// and whenever the document changed, the directive asks to persist it
/// before acting.
pub proof fn law_append_only(pre: Controller, ev: Event, post: Controller, d: Directive)
    requires
        pre.wf(),
        event_ok(pre, ev),
        next_directive(pre, ev, post, d),
    ensures
        post.spec@.source == pre.spec@.source,
        post.spec@.remote == pre.spec@.remote,
        post.spec@.cleaned == pre.spec@.cleaned,
        post.spec@.commits.len() == pre.spec@.commits.len(),
        forall|j: int|
            0 <= j < pre.spec@.commits.len() ==> {
                &&& (#[trigger] post.spec@.commits[j]).message == pre.spec@.commits[j].message
                &&& post.spec@.commits[j].hints == pre.spec@.commits[j].hints
                &&& post.spec@.commits[j].history.len() >= pre.spec@.commits[j].history.len()
                &&& forall|k: int|
                    0 <= k < pre.spec@.commits[j].history.len()
                        ==> #[trigger] post.spec@.commits[j].history[k]
                        == pre.spec@.commits[j].history[k]
            },
        post.spec@ != pre.spec@ ==> d.save,
{
    let n = pre.spec@.commits.len() as int;
    match (pre.phase, ev) {
        (Phase::AwaitMainCommit, Event::Committed { hash }) => {
            if pre.config.build_command is None && pre.config.test_command is None {
                let after = with_appended(
                    pre.spec@,
                    pre.idx as int,
                    HistoryEntryView::CommitCreated(hash@),
                );
                assert(forall|j: int|
                    0 <= j < n && j != pre.idx ==> #[trigger] after.commits[j]
                        == pre.spec@.commits[j]);
            }
        },
        _ => {},
    }
}

} // verus!