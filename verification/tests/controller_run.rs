//! Driving the reconstruction controller through whole runs with scripted
//! collaborator events.

use pravda::execute::commit_status;
use pravda::{
    Action, CommitSpec, CommitStatus, Controller, Directive, Event, ExecuteConfig, HistoryEntry,
    HistorySpec,
};

fn plan(commits: Vec<CommitSpec>) -> HistorySpec {
    HistorySpec {
        source: "messy".to_string(),
        remote: "origin/main".to_string(),
        cleaned: "clean".to_string(),
        commits,
    }
}

fn pending(message: &str) -> CommitSpec {
    CommitSpec { message: message.to_string(), hints: None, history: vec![] }
}

fn skip_checks() -> ExecuteConfig {
    ExecuteConfig { build_command: None, test_command: None }
}

/// Drives the branch setup exchange for a fresh repository (the working
/// branch does not exist yet) and returns the first per-commit directive.
fn boot(ctl: &mut Controller) -> Directive {
    let d = ctl.step(Event::Started);
    assert_eq!(
        d.action,
        Action::CheckRef { name: "clean".to_string() },
        "setup starts by checking the working branch"
    );
    let d = ctl.step(Event::RefChecked { exists: false });
    assert_eq!(
        d.action,
        Action::ComputeMergeBase {
            ours: "messy".to_string(),
            theirs: "origin/main".to_string(),
        }
    );
    let d = ctl.step(Event::MergeBased { base: "basebase".to_string() });
    assert_eq!(
        d.action,
        Action::CreateBranch { name: "clean".to_string(), start: "basebase".to_string() }
    );
    ctl.step(Event::BranchReady)
}

#[test]
fn scenario_two_pending_commits_with_empty_diffs_complete_without_commits() {
    let mut ctl = Controller::new(plan(vec![pending("one"), pending("two")]), skip_checks());
    let d = boot(&mut ctl);
    assert_eq!(
        d.action,
        Action::ComputeDiff { from: "clean".to_string(), to: "messy".to_string() }
    );

    // First commit: nothing left to extract.
    let d = ctl.step(Event::DiffComputed { diff: String::new() });
    assert!(d.save, "appending an entry persists the document");
    assert_eq!(
        d.action,
        Action::ComputeDiff { from: "clean".to_string(), to: "messy".to_string() }
    );
    // Second commit: nothing left to extract; then finalisation's diff.
    let d = ctl.step(Event::DiffComputed { diff: String::new() });
    assert!(d.save);
    assert_eq!(
        d.action,
        Action::ComputeDiff { from: "clean".to_string(), to: "messy".to_string() }
    );
    // Finalisation sees an empty difference: done, no catch-all.
    let d = ctl.step(Event::DiffComputed { diff: String::new() });
    assert!(!d.save);
    assert_eq!(d.action, Action::Finished { catchall: false });

    for c in &ctl.spec.commits {
        assert_eq!(c.history, vec![HistoryEntry::Complete]);
    }
}

#[test]
fn scenario_failed_extraction_records_stuck_and_halts() {
    let mut ctl = Controller::new(plan(vec![pending("only")]), skip_checks());
    let d = boot(&mut ctl);
    assert!(matches!(d.action, Action::ComputeDiff { .. }));

    let d = ctl.step(Event::DiffComputed { diff: "diff --git a b".to_string() });
    assert!(!d.save);
    match d.action {
        Action::AskExtract { message, hints, resolution, diff } => {
            assert_eq!(message, "only");
            assert_eq!(hints, None);
            assert_eq!(resolution, None);
            assert_eq!(diff, "diff --git a b");
        },
        other => panic!("expected an extraction request, got {:?}", other),
    }
    let d = ctl.step(Event::Extracted { applied: false });
    assert!(d.save);
    assert_eq!(d.action, Action::HaltStuck { index: 0 });
    assert_eq!(
        ctl.spec.commits[0].history,
        vec![HistoryEntry::Stuck("could not extract changes".to_string())]
    );

    // Re-running on the stuck document halts again before any extraction.
    let mut again = Controller::new(ctl.spec.clone(), skip_checks());
    let d = boot(&mut again);
    assert_eq!(d.action, Action::HaltStuck { index: 0 });
    assert_eq!(
        again.spec.commits[0].history,
        vec![HistoryEntry::Stuck("could not extract changes".to_string())]
    );
}

#[test]
fn scenario_resolved_commit_retries_with_note_and_completes() {
    let stuck_then_resolved = CommitSpec {
        message: "only".to_string(),
        hints: None,
        history: vec![
            HistoryEntry::Stuck("could not extract changes".to_string()),
            HistoryEntry::Resolved("manually fixed conflict".to_string()),
        ],
    };
    let mut ctl = Controller::new(plan(vec![stuck_then_resolved]), skip_checks());
    let d = boot(&mut ctl);
    assert!(matches!(d.action, Action::ComputeDiff { .. }));

    let d = ctl.step(Event::DiffComputed { diff: "diff --git a b".to_string() });
    match d.action {
        Action::AskExtract { resolution, .. } => {
            assert_eq!(resolution, Some("manually fixed conflict".to_string()));
        },
        other => panic!("expected an extraction request, got {:?}", other),
    }
    let d = ctl.step(Event::Extracted { applied: true });
    assert!(!d.save);
    assert_eq!(d.action, Action::CreateCommit { message: "only".to_string() });
    let d = ctl.step(Event::Committed { hash: "abc12345".to_string() });
    assert!(d.save);
    // No verification is configured, so the commit completes at once and
    // finalisation begins.
    assert!(matches!(d.action, Action::ComputeDiff { .. }));
    assert_eq!(
        ctl.spec.commits[0].history,
        vec![
            HistoryEntry::Stuck("could not extract changes".to_string()),
            HistoryEntry::Resolved("manually fixed conflict".to_string()),
            HistoryEntry::CommitCreated("abc12345".to_string()),
            HistoryEntry::Complete,
        ]
    );
}

#[test]
fn verify_and_repair_cycle_creates_repair_commits_until_green() {
    let config = ExecuteConfig {
        build_command: Some("cargo check --all --workspace".to_string()),
        test_command: Some("cargo test --all --workspace".to_string()),
    };
    let mut ctl = Controller::new(plan(vec![pending("feature")]), config);
    let d = boot(&mut ctl);
    assert!(matches!(d.action, Action::ComputeDiff { .. }));

    let d = ctl.step(Event::DiffComputed { diff: "nonempty".to_string() });
    assert!(matches!(d.action, Action::AskExtract { .. }));
    let d = ctl.step(Event::Extracted { applied: true });
    assert!(matches!(d.action, Action::CreateCommit { .. }));
    let d = ctl.step(Event::Committed { hash: "11111111".to_string() });
    assert_eq!(
        d.action,
        Action::RunCommand { command: "cargo check --all --workspace".to_string() }
    );

    // The build fails; the controller gathers a fresh diff and asks for a
    // repair.
    let d = ctl.step(Event::CommandRan { success: false, output: "boom".to_string() });
    assert!(matches!(d.action, Action::ComputeDiff { .. }));
    let d = ctl.step(Event::DiffComputed { diff: "rest".to_string() });
    match d.action {
        Action::AskRepair { message, output, diff, .. } => {
            assert_eq!(message, "feature");
            assert_eq!(output, "boom");
            assert_eq!(diff, "rest");
        },
        other => panic!("expected a repair request, got {:?}", other),
    }
    let d = ctl.step(Event::Repaired { can_progress: true, reason: None });
    assert_eq!(
        d.action,
        Action::CreateCommit { message: "WIP: fix for feature".to_string() }
    );
    let d = ctl.step(Event::Committed { hash: "22222222".to_string() });
    assert_eq!(
        d.action,
        Action::RunCommand { command: "cargo check --all --workspace".to_string() }
    );

    // The build now passes; the test step runs and passes; the commit is
    // complete.
    let d = ctl.step(Event::CommandRan { success: true, output: String::new() });
    assert_eq!(
        d.action,
        Action::RunCommand { command: "cargo test --all --workspace".to_string() }
    );
    let d = ctl.step(Event::CommandRan { success: true, output: String::new() });
    assert!(d.save);
    assert!(matches!(d.action, Action::ComputeDiff { .. }));
    assert_eq!(
        ctl.spec.commits[0].history,
        vec![
            HistoryEntry::CommitCreated("11111111".to_string()),
            HistoryEntry::CommitCreated("22222222".to_string()),
            HistoryEntry::Complete,
        ]
    );
}

#[test]
fn repair_refusal_records_the_model_reason() {
    let config = ExecuteConfig {
        build_command: Some("make".to_string()),
        test_command: None,
    };
    let mut ctl = Controller::new(plan(vec![pending("feature")]), config);
    boot(&mut ctl);
    ctl.step(Event::DiffComputed { diff: "nonempty".to_string() });
    ctl.step(Event::Extracted { applied: true });
    ctl.step(Event::Committed { hash: "11111111".to_string() });
    ctl.step(Event::CommandRan { success: false, output: "boom".to_string() });
    ctl.step(Event::DiffComputed { diff: "rest".to_string() });
    let d = ctl.step(Event::Repaired {
        can_progress: false,
        reason: Some("circular dependency".to_string()),
    });
    assert!(d.save);
    assert_eq!(d.action, Action::HaltStuck { index: 0 });
    assert_eq!(
        ctl.spec.commits[0].history,
        vec![
            HistoryEntry::CommitCreated("11111111".to_string()),
            HistoryEntry::Stuck("circular dependency".to_string()),
        ]
    );
}

#[test]
fn finalisation_forces_the_tree_when_the_model_leaves_a_difference() {
    let done = CommitSpec {
        message: "one".to_string(),
        hints: None,
        history: vec![HistoryEntry::Complete],
    };
    let mut ctl = Controller::new(plan(vec![done]), skip_checks());
    let d = boot(&mut ctl);
    // The only commit is already complete, so finalisation begins at once.
    assert!(matches!(d.action, Action::ComputeDiff { .. }));

    let d = ctl.step(Event::DiffComputed { diff: "leftover".to_string() });
    match d.action {
        Action::AskCatchall { messages, diff } => {
            assert_eq!(messages, vec!["one".to_string()]);
            assert_eq!(diff, "leftover");
        },
        other => panic!("expected a catch-all request, got {:?}", other),
    }
    let d = ctl.step(Event::CatchallDone);
    assert!(matches!(d.action, Action::ComputeDiff { .. }));
    let d = ctl.step(Event::DiffComputed { diff: "still left".to_string() });
    assert_eq!(d.action, Action::SyncFromSource { from: "messy".to_string() });
    let d = ctl.step(Event::Synced);
    assert_eq!(
        d.action,
        Action::CreateCommit {
            message: "WIP--remaining changes (review manually)".to_string(),
        }
    );
    let d = ctl.step(Event::Committed { hash: "33333333".to_string() });
    assert_eq!(d.action, Action::Finished { catchall: true });
    // Finalisation never touches the history log.
    assert_eq!(ctl.spec.commits[0].history, vec![HistoryEntry::Complete]);
}

#[test]
fn checkout_of_existing_branch_resumes() {
    let mut ctl = Controller::new(plan(vec![pending("one")]), skip_checks());
    ctl.step(Event::Started);
    let d = ctl.step(Event::RefChecked { exists: true });
    assert_eq!(d.action, Action::Checkout { name: "clean".to_string() });
}

#[test]
fn collaborator_failure_mid_commit_records_stuck_and_aborts() {
    let mut ctl = Controller::new(plan(vec![pending("one")]), skip_checks());
    boot(&mut ctl);
    let d = ctl.step(Event::Failed { message: "transport closed".to_string() });
    assert!(d.save);
    assert_eq!(d.action, Action::Aborted);
    assert_eq!(
        ctl.spec.commits[0].history,
        vec![HistoryEntry::Stuck("transport closed".to_string())]
    );
}

#[test]
fn commit_status_reflects_the_derived_state() {
    let c = pending("a");
    assert_eq!(commit_status(&c, false), CommitStatus::Pending);
    assert_eq!(commit_status(&c, true), CommitStatus::InProgress);
    let c = CommitSpec {
        message: "a".to_string(),
        hints: None,
        history: vec![HistoryEntry::Complete],
    };
    assert_eq!(commit_status(&c, false), CommitStatus::Completed);
    let c = CommitSpec {
        message: "a".to_string(),
        hints: None,
        history: vec![HistoryEntry::Stuck("x".to_string())],
    };
    assert_eq!(commit_status(&c, true), CommitStatus::Stuck);
}

#[test]
fn skipping_the_build_step_runs_only_the_tests() {
    let config = ExecuteConfig {
        build_command: None,
        test_command: Some("cargo test".to_string()),
    };
    let mut ctl = Controller::new(plan(vec![pending("feature")]), config);
    boot(&mut ctl);
    ctl.step(Event::DiffComputed { diff: "nonempty".to_string() });
    ctl.step(Event::Extracted { applied: true });
    let d = ctl.step(Event::Committed { hash: "11111111".to_string() });
    assert_eq!(d.action, Action::RunCommand { command: "cargo test".to_string() });
    let d = ctl.step(Event::CommandRan { success: true, output: String::new() });
    assert!(d.save);
    assert!(matches!(d.action, Action::ComputeDiff { .. }));
    assert_eq!(
        ctl.spec.commits[0].history,
        vec![
            HistoryEntry::CommitCreated("11111111".to_string()),
            HistoryEntry::Complete,
        ]
    );
}

#[test]
fn fixup_labels_name_the_target_commit() {
    let messages = vec!["add parser".to_string(), "wire cli".to_string()];
    assert_eq!(
        pravda::execute::fixup_label(&messages, 1),
        "WIP--merge into 1: add parser"
    );
    assert_eq!(
        pravda::execute::fixup_label(&messages, 2),
        "WIP--merge into 2: wire cli"
    );
    // Zero falls back to the first commit, like a saturating decrement.
    assert_eq!(
        pravda::execute::fixup_label(&messages, 0),
        "WIP--merge into 0: add parser"
    );
    // An out-of-range number is labelled but left unattributed.
    assert_eq!(
        pravda::execute::fixup_label(&messages, 12),
        "WIP--merge into 12: unknown"
    );
}
