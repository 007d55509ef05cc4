//! Derived status of commits and the resumption point.

use pravda::{CommitSpec, HistoryEntry, HistorySpec};

fn commit(message: &str, history: Vec<HistoryEntry>) -> CommitSpec {
    CommitSpec { message: message.to_string(), hints: None, history }
}

#[test]
fn empty_history_is_pending() {
    let c = commit("a", vec![]);
    assert!(!c.is_complete());
    assert!(!c.is_stuck());
    assert!(!c.is_resolved());
    assert_eq!(c.resolution_note(), None);
}

#[test]
fn complete_iff_last_entry_complete() {
    let c = commit("a", vec![
        HistoryEntry::CommitCreated("abc123".to_string()),
        HistoryEntry::Complete,
    ]);
    assert!(c.is_complete());
    assert!(!c.is_stuck());
    assert!(!c.is_resolved());

    let c2 = commit("a", vec![
        HistoryEntry::Complete,
        HistoryEntry::CommitCreated("abc123".to_string()),
    ]);
    assert!(!c2.is_complete());
}

#[test]
fn stuck_iff_last_entry_stuck() {
    let c = commit("a", vec![HistoryEntry::Stuck("no idea".to_string())]);
    assert!(c.is_stuck());
    assert!(!c.is_complete());
    assert!(!c.is_resolved());
}

#[test]
fn resolved_clears_stuck_and_carries_note() {
    let c = commit("a", vec![
        HistoryEntry::Stuck("no idea".to_string()),
        HistoryEntry::Resolved("fixed by hand".to_string()),
    ]);
    assert!(!c.is_stuck());
    assert!(!c.is_complete());
    assert!(c.is_resolved());
    assert_eq!(c.resolution_note(), Some("fixed by hand"));
}

#[test]
fn next_pending_commit_returns_first_incomplete() {
    let spec = HistorySpec {
        source: "messy".to_string(),
        remote: "origin/main".to_string(),
        cleaned: "clean".to_string(),
        commits: vec![
            commit("one", vec![HistoryEntry::Complete]),
            commit("two", vec![HistoryEntry::Complete]),
            commit("three", vec![HistoryEntry::Stuck("why".to_string())]),
            commit("four", vec![]),
        ],
    };
    assert_eq!(spec.next_pending_commit(), Some(2));
}

#[test]
fn next_pending_commit_none_iff_all_complete() {
    let all_done = HistorySpec {
        source: "messy".to_string(),
        remote: "origin/main".to_string(),
        cleaned: "clean".to_string(),
        commits: vec![
            commit("one", vec![HistoryEntry::Complete]),
            commit("two", vec![
                HistoryEntry::CommitCreated("beef".to_string()),
                HistoryEntry::Complete,
            ]),
        ],
    };
    assert_eq!(all_done.next_pending_commit(), None);

    let none_at_all = HistorySpec {
        source: "messy".to_string(),
        remote: "origin/main".to_string(),
        cleaned: "clean".to_string(),
        commits: vec![],
    };
    assert_eq!(none_at_all.next_pending_commit(), None);

    let first_pending = HistorySpec {
        source: "messy".to_string(),
        remote: "origin/main".to_string(),
        cleaned: "clean".to_string(),
        commits: vec![commit("one", vec![])],
    };
    assert_eq!(first_pending.next_pending_commit(), Some(0));
}

#[test]
fn commit_messages_in_order() {
    let spec = HistorySpec {
        source: "s".to_string(),
        remote: "r".to_string(),
        cleaned: "c".to_string(),
        commits: vec![commit("first", vec![]), commit("second", vec![])],
    };
    assert_eq!(spec.commit_messages(), vec!["first".to_string(), "second".to_string()]);
}
