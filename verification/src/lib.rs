//! Reconstruction of a clean, reviewable commit sequence from a messy
//! development branch.
//!
//! The crate is organised around a persisted plan-and-state document and a
//! resumable controller:
//!
//! - [`plan`] holds the document's data model: the ordered commit plan and the
//!   append-only history log from which every commit's status is derived.
//! - [`codec`] parses and serialises the persisted document, with a proved
//!   round-trip law.
//! - [`execute`] is the reconstruction controller: a state machine that turns
//!   collaborator events (diffs, model replies, command results) into the next
//!   action, appending to the history log as it goes.
//! - [`git`] wraps version-control operations around a caller-supplied
//!   command runner and verifies the interpretation of its output.
//! - [`command`] splits a configured verification command into a program and
//!   argument list.
//! - [`prompt`] emits the static guidance text for authoring a plan.

pub mod codec;
pub mod command;
pub mod execute;
pub mod git;
pub mod plan;
pub mod prompt;
pub mod text;

pub use crate::execute::{Action, CommitStatus, Controller, Directive, Event, ExecuteConfig};
pub use crate::plan::{CommitSpec, HistoryEntry, HistorySpec};
pub use crate::prompt::prompt;
