//! `commitor commit`: from an analyzed diff to approved commits.

use vstd::prelude::*;

pub mod changes;
pub mod branch;
pub mod answers;
pub mod approval;
pub mod execute;
pub mod execution;
pub mod picker;
pub mod planning;
pub mod proposal;
pub mod run;
pub mod offline;
pub mod offline_laws;

verus! {

/// How the command was called.
#[derive(Debug, Clone, Copy, Default)]
pub struct CommitFlags {
    /// Use unstaged changes, though there are staged ones.
    pub all: bool,
    /// Make the plan without the backend.
    pub offline: bool,
    /// Pick the branch to commit to first.
    pub branch: bool,
}

} // verus!
