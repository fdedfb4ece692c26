//! The working diff and its analysis by the backend.

use vstd::prelude::*;

use crate::text::{text, texts};

pub mod collect;
pub mod reply;
pub mod request;
pub mod untracked;

verus! {

/// The working diff that a command operates on.
#[derive(Debug, Clone)]
pub struct CollectedDiff {
    /// Whether the staged diff was used.
    pub staged_used: bool,
    /// Changed paths: the tracked ones first, then the untracked ones.
    pub files: Vec<String>,
    /// The patch: tracked changes, then a section for each untracked file.
    pub patch: String,
    /// Untracked files that are part of the patch.
    pub untracked: Vec<String>,
}

/// A collected diff as texts.
pub struct DiffView {
    pub staged_used: bool,
    pub files: Seq<Seq<char>>,
    pub patch: Seq<char>,
    pub untracked: Seq<Seq<char>>,
}

impl View for CollectedDiff {
    type V = DiffView;

    open spec fn view(&self) -> DiffView {
        DiffView {
            staged_used: self.staged_used,
            files: texts(self.files@),
            patch: self.patch@,
            untracked: texts(self.untracked@),
        }
    }
}

/// A file whose changes are split among commits.
#[derive(Debug, Clone)]
pub struct PartialFile {
    pub path: String,
    /// Hunk numbers of the path, counted from one.
    pub hunks: Vec<usize>,
}

/// A group of changes that the backend proposes as one commit.
#[derive(Debug, Clone)]
pub struct ChangeGroup {
    /// Paths that belong to the group as a whole.
    pub files: Vec<String>,
    pub commit_message: String,
    /// Why these files belong together.
    pub rationale: String,
    /// Paths of which only some hunks belong to the group.
    pub partial_files: Vec<PartialFile>,
}

/// A change group as texts.
pub struct ChangeGroupView {
    pub files: Seq<Seq<char>>,
    pub commit_message: Seq<char>,
    pub rationale: Seq<char>,
    pub partial_files: Seq<(Seq<char>, Seq<usize>)>,
}

impl View for PartialFile {
    type V = (Seq<char>, Seq<usize>);

    open spec fn view(&self) -> (Seq<char>, Seq<usize>) {
        (self.path@, self.hunks@)
    }
}

/// The partial files as texts and numbers.
pub open spec fn partial_file_views(partial: Seq<PartialFile>) -> Seq<(Seq<char>, Seq<usize>)> {
    partial.map_values(|p: PartialFile| p@)
}

impl View for ChangeGroup {
    type V = ChangeGroupView;

    open spec fn view(&self) -> ChangeGroupView {
        ChangeGroupView {
            files: texts(self.files@),
            commit_message: self.commit_message@,
            rationale: self.rationale@,
            partial_files: partial_file_views(self.partial_files@),
        }
    }
}

/// The change groups as texts.
pub open spec fn change_group_views(groups: Seq<ChangeGroup>) -> Seq<ChangeGroupView> {
    groups.map_values(|g: ChangeGroup| g@)
}

/// The answer of the backend. One group means one logical change.
#[derive(Debug, Clone)]
pub struct AnalyzeResponse {
    pub groups: Vec<ChangeGroup>,
    /// The confidence of the model, written with two decimals.
    pub confidence: Option<String>,
    pub model_tier: Option<String>,
    /// A proposed branch name.
    pub branch_name: Option<String>,
}

/// An answer as texts.
pub struct ResponseView {
    pub groups: Seq<ChangeGroupView>,
    pub confidence: Option<Seq<char>>,
    pub model_tier: Option<Seq<char>>,
    pub branch_name: Option<Seq<char>>,
}

impl View for AnalyzeResponse {
    type V = ResponseView;

    open spec fn view(&self) -> ResponseView {
        ResponseView {
            groups: change_group_views(self.groups@),
            confidence: text(self.confidence),
            model_tier: text(self.model_tier),
            branch_name: text(self.branch_name),
        }
    }
}

/// What is sent to the backend.
#[derive(Debug, Clone, Copy)]
pub struct AnalyzeRequest<'a> {
    pub diff: &'a str,
    pub context: Option<&'a str>,
    pub mode: Option<&'a str>,
}

} // verus!
