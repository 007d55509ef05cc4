//! The plan-and-state document: an ordered list of logical commits to
//! reconstruct, each carrying an append-only history log.
//!
//! A commit's status is never stored; it is derived from the tail of its
//! history log, so a cached flag can never fall out of step with the
//! authoritative record.

use vstd::prelude::*;

verus! {

/// One record in a commit's append-only execution history.
#[derive(Debug, Clone, PartialEq)]
pub enum HistoryEntry {
    /// A version-control commit (main or repair) was created; carries its
    /// identifier.
    CommitCreated(String),
    /// The model collaborator declared it cannot proceed; carries the reason.
    /// Human action is required before the run may continue.
    Stuck(String),
    /// A human supplied context that unblocks a previously stuck commit;
    /// carries the resolution note.
    Resolved(String),
    /// This logical commit is finished.
    Complete,
}

/// Mathematical model of a [`HistoryEntry`].
#[verifier::ext_equal]
pub enum HistoryEntryView {
    CommitCreated(Seq<char>),
    Stuck(Seq<char>),
    Resolved(Seq<char>),
    Complete,
}

impl View for HistoryEntry {
    type V = HistoryEntryView;

    open spec fn view(&self) -> HistoryEntryView {
        match self {
            HistoryEntry::CommitCreated(h) => HistoryEntryView::CommitCreated(h@),
            HistoryEntry::Stuck(r) => HistoryEntryView::Stuck(r@),
            HistoryEntry::Resolved(n) => HistoryEntryView::Resolved(n@),
            HistoryEntry::Complete => HistoryEntryView::Complete,
        }
    }
}

/// One logical commit to produce: its final message, optional free-text
/// guidance for the model, and the append-only history of attempts.
#[derive(Debug, Clone, PartialEq)]
pub struct CommitSpec {
    /// The commit message.
    pub message: String,
    /// Optional guidance on which changes belong to this commit.
    pub hints: Option<String>,
    /// Execution history; the controller only ever appends to it.
    pub history: Vec<HistoryEntry>,
}

/// Mathematical model of a [`CommitSpec`].
#[verifier::ext_equal]
pub struct CommitSpecView {
    pub message: Seq<char>,
    pub hints: Option<Seq<char>>,
    pub history: Seq<HistoryEntryView>,
}

impl View for CommitSpec {
    type V = CommitSpecView;

    open spec fn view(&self) -> CommitSpecView {
        CommitSpecView {
            message: self.message@,
            hints: match self.hints {
                Some(h) => Some(h@),
                None => None,
            },
            history: self.history@.map_values(|e: HistoryEntry| e@),
        }
    }
}

impl CommitSpecView {
    /// A commit is complete exactly when the last history entry is `Complete`.
    pub open spec fn is_complete(self) -> bool {
        self.history.len() > 0 && self.history.last() is Complete
    }

    /// A commit is stuck exactly when the last history entry is `Stuck`.
    pub open spec fn is_stuck(self) -> bool {
        self.history.len() > 0 && self.history.last() is Stuck
    }

    /// A commit is resolved exactly when the last history entry is `Resolved`.
    pub open spec fn is_resolved(self) -> bool {
        self.history.len() > 0 && self.history.last() is Resolved
    }
}

/// The persisted plan-and-state document.
#[derive(Debug, Clone, PartialEq)]
pub struct HistorySpec {
    /// Branch containing all messy changes.
    pub source: String,
    /// Upstream branch the result will be based on.
    pub remote: String,
    /// Branch being constructed.
    pub cleaned: String,
    /// Commits to create, in authoritative processing order.
    pub commits: Vec<CommitSpec>,
}

/// Mathematical model of a [`HistorySpec`].
#[verifier::ext_equal]
pub struct HistorySpecView {
    pub source: Seq<char>,
    pub remote: Seq<char>,
    pub cleaned: Seq<char>,
    pub commits: Seq<CommitSpecView>,
}

impl View for HistorySpec {
    type V = HistorySpecView;

    open spec fn view(&self) -> HistorySpecView {
        HistorySpecView {
            source: self.source@,
            remote: self.remote@,
            cleaned: self.cleaned@,
            commits: self.commits@.map_values(|c: CommitSpec| c@),
        }
    }
}

impl HistorySpecView {
    /// What it means for `i` to be the resumption point: the first commit
    /// whose derived status is not `Complete`.
    pub open spec fn is_next_pending(self, i: int) -> bool {
        &&& 0 <= i < self.commits.len()
        &&& !self.commits[i].is_complete()
        &&& forall|j: int| 0 <= j < i ==> self.commits[j].is_complete()
    }

    /// Whether every commit in the plan is complete.
    pub open spec fn all_complete(self) -> bool {
        forall|j: int| 0 <= j < self.commits.len() ==> self.commits[j].is_complete()
    }
}

impl CommitSpec {
    /// Whether this commit is complete: its last history entry is `Complete`.
    pub fn is_complete(&self) -> (r: bool)
        ensures
            r == self@.is_complete(),
    {
        match self.history.last() {
            Some(e) => matches!(e, HistoryEntry::Complete),
            None => false,
        }
    }

    /// Whether this commit is stuck awaiting human resolution: its last
    /// history entry is `Stuck`.  A `Resolved` entry appended after the
    /// `Stuck` entry clears this.
    pub fn is_stuck(&self) -> (r: bool)
        ensures
            r == self@.is_stuck(),
    {
        match self.history.last() {
            Some(e) => matches!(e, HistoryEntry::Stuck(_)),
            None => false,
        }
    }

    /// Whether this commit was stuck and has since been resolved by a human:
    /// its last history entry is `Resolved`.  Such a commit is retry-eligible.
    pub fn is_resolved(&self) -> (r: bool)
        ensures
            r == self@.is_resolved(),
    {
        match self.history.last() {
            Some(e) => matches!(e, HistoryEntry::Resolved(_)),
            None => false,
        }
    }

    /// The resolution note, when the last history entry is `Resolved`.
    pub fn resolution_note(&self) -> (r: Option<&str>)
        ensures
            match r {
                Some(n) => self@.is_resolved() && self@.history.last() == HistoryEntryView::Resolved(
                    n@,
                ),
                None => !self@.is_resolved(),
            },
    {
        match self.history.last() {
            Some(HistoryEntry::Resolved(note)) => Some(note.as_str()),
            _ => None,
        }
    }
}

impl HistorySpec {
    /// The index of the first commit whose derived status is not `Complete`,
    /// or `None` when every commit is complete.
    pub fn next_pending_commit(&self) -> (r: Option<usize>)
        ensures
            match r {
                Some(i) => self@.is_next_pending(i as int),
                None => self@.all_complete(),
            },
    {
        let mut i: usize = 0;
        while i < self.commits.len()
            invariant
                0 <= i <= self@.commits.len(),
                self@.commits.len() == self.commits.len(),
                forall|j: int| 0 <= j < i ==> self@.commits[j].is_complete(),
            decreases self.commits.len() - i,
        {
            if !self.commits[i].is_complete() {
                return Some(i);
            }
            i += 1;
        }
        None
    }

    /// The ordered list of commit messages, for progress reporting and for
    /// the finalisation prompt.
    pub fn commit_messages(&self) -> (r: Vec<String>)
        ensures
            r@.len() == self@.commits.len(),
            forall|j: int| 0 <= j < r@.len() ==> r@[j]@ == self@.commits[j].message,
    {
        let mut r: Vec<String> = Vec::new();
        let mut i: usize = 0;
        while i < self.commits.len()
            invariant
                0 <= i <= self@.commits.len(),
                self@.commits.len() == self.commits.len(),
                r@.len() == i,
                forall|j: int| 0 <= j < i ==> r@[j]@ == self@.commits[j].message,
            decreases self.commits.len() - i,
        {
            r.push(self.commits[i].message.clone());
            i += 1;
        }
        r
    }
}

/// Appending a `Resolved` entry — the human unstick procedure — makes a
/// commit retry-eligible: it is then resolved, no longer stuck, and not
/// complete, whatever its history held before.
pub proof fn law_resolution_unblocks(c: CommitSpecView, note: Seq<char>)
    ensures
        ({
            let c2 = CommitSpecView {
                history: c.history.push(HistoryEntryView::Resolved(note)),
                ..c
            };
            &&& c2.is_resolved()
            &&& !c2.is_stuck()
            &&& !c2.is_complete()
        }),
{
}

} // verus!
