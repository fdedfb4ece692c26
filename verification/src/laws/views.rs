//! Values with the same view hold the same texts and numbers.

use vstd::prelude::*;

use crate::analysis::{
    change_group_views, partial_file_views, AnalyzeResponse, ChangeGroup, CollectedDiff,
    PartialFile,
};
use crate::auth::MeResponse;
use crate::changelog::{category_views, entry_views, ChangelogReport, CommitEntry};
use crate::commit::changes::{change_views, FileChange};
use crate::engine::git::{literals, GitCommand};
use crate::engine::grouping::{proposed_views, GroupingResult, ProposedCommit};
use crate::engine::history::{commit_views, session_views, Session, SessionCommit};
use crate::engine::hunks::{file_views, hunk_views, FileDiff, Hunk};
use crate::engine::plan::{group_views, partial_views, PlanGroup};
use crate::heuristics::Verdict;
use crate::text::{part, parts, text, text_ref, texts};

verus! {

/// A list of strings and its view have the same texts in the same order.
pub proof fn lemma_lists_of_texts(strings: Seq<String>, slices: Seq<&[char]>, i: int)
    ensures
        texts(strings).len() == strings.len(),
        parts(slices).len() == slices.len(),
        0 <= i < strings.len() ==> texts(strings)[i] == strings[i]@,
        0 <= i < slices.len() ==> parts(slices)[i] == slices[i]@,
{
}

/// An optional text is there in the view where it is there.
pub proof fn lemma_optional_texts(a: Option<String>, b: Option<&str>, c: Option<&[char]>)
    ensures
        text(a) is Some <==> a is Some,
        a matches Some(s) ==> text(a) == Some(s@),
        text_ref(b) is Some <==> b is Some,
        b matches Some(s) ==> text_ref(b) == Some(s@),
        part(c) is Some <==> c is Some,
        c matches Some(s) ==> part(c) == Some(s@),
{
}

/// Records of files with the same view are the same in path, header, hunks and
/// whether they can be split.
pub proof fn lemma_file_records(a: FileDiff, b: FileDiff, g: Hunk, h: Hunk, i: int)
    ensures
        a@ == b@ ==> a.path@ == b.path@ && a.atomic == b.atomic && texts(a.header@) == texts(b.header@)
            && hunk_views(a.hunks@) == hunk_views(b.hunks@),
        a@.path == a.path@ && a@.atomic == a.atomic,
        g@ == h@ ==> g.header@ == h.header@ && texts(g.body_lines@) == texts(h.body_lines@),
        g@.header == g.header@,
        hunk_views(a.hunks@).len() == a.hunks@.len(),
        0 <= i < a.hunks@.len() ==> hunk_views(a.hunks@)[i] == a.hunks@[i]@,
{
}

/// Groups of a plan with the same view are the same in message, files and
/// hunks.
pub proof fn lemma_plan_groups(a: PlanGroup, b: PlanGroup, plan: Seq<PlanGroup>, i: int)
    ensures
        a@ == b@ ==> a.message@ == b.message@ && texts(a.whole@) == texts(b.whole@)
            && partial_views(a.partial@) == partial_views(b.partial@),
        a@.message == a.message@,
        partial_views(a.partial@).len() == a.partial@.len(),
        0 <= i < a.partial@.len() ==> partial_views(a.partial@)[i] == (
            a.partial@[i].0@,
            a.partial@[i].1@,
        ),
        group_views(plan).len() == plan.len(),
        0 <= i < plan.len() ==> group_views(plan)[i] == plan[i]@,
{
}

/// Diffs, answers and proposed groups with the same view are the same.
pub proof fn lemma_diffs_and_answers(
    a: CollectedDiff,
    b: CollectedDiff,
    c: ChangeGroup,
    d: ChangeGroup,
    e: AnalyzeResponse,
    f: AnalyzeResponse,
    p: PartialFile,
    i: int,
)
    ensures
        a@ == b@ ==> a.staged_used == b.staged_used && a.patch@ == b.patch@ && texts(a.files@)
            == texts(b.files@) && texts(a.untracked@) == texts(b.untracked@),
        a@.patch == a.patch@,
        c@ == d@ ==> c.commit_message@ == d.commit_message@ && c.rationale@ == d.rationale@ && texts(
            c.files@,
        ) == texts(d.files@) && partial_file_views(c.partial_files@) == partial_file_views(
            d.partial_files@,
        ),
        c@.commit_message == c.commit_message@ && c@.rationale == c.rationale@,
        e@ == f@ ==> change_group_views(e.groups@) == change_group_views(f.groups@) && text(
            e.confidence,
        ) == text(f.confidence) && text(e.model_tier) == text(f.model_tier) && text(e.branch_name)
            == text(f.branch_name),
        change_group_views(e.groups@).len() == e.groups@.len(),
        0 <= i < e.groups@.len() ==> change_group_views(e.groups@)[i] == e.groups@[i]@,
        partial_file_views(c.partial_files@).len() == c.partial_files@.len(),
        0 <= i < c.partial_files@.len() ==> partial_file_views(c.partial_files@)[i]
            == c.partial_files@[i]@,
        p@ == (p.path@, p.hunks@),
{
}

/// Changes, sessions and their commits with the same view are the same.
pub proof fn lemma_changes_and_sessions(
    a: FileChange,
    b: FileChange,
    c: SessionCommit,
    d: SessionCommit,
    s: Session,
    t: Session,
    i: int,
)
    ensures
        a@ == b@ ==> a.path@ == b.path@ && a.kind == b.kind && a.added == b.added && a.removed
            == b.removed,
        a@.path == a.path@ && a@.added == a.added && a@.removed == a.removed,
        c@ == d@ ==> c.sha@ == d.sha@ && c.message@ == d.message@ && texts(c.files@) == texts(
            d.files@,
        ),
        c@.sha == c.sha@ && c@.message == c.message@,
        s@ == t@ ==> s.session_id@ == t.session_id@ && s.timestamp@ == t.timestamp@ && text(s.branch)
            == text(t.branch) && text(s.base_branch) == text(t.base_branch) && commit_views(
            s.commits@,
        ) == commit_views(t.commits@) && s.pushed == t.pushed && s.reverted == t.reverted && text(
            s.reverted_at,
        ) == text(t.reverted_at),
        s@.session_id == s.session_id@ && s@.timestamp == s.timestamp@ && s@.reverted == s.reverted,
        commit_views(s.commits@).len() == s.commits@.len(),
        0 <= i < s.commits@.len() ==> commit_views(s.commits@)[i] == s.commits@[i]@,
{
}

/// Lists of changes, sessions and files have the views of their items.
pub proof fn lemma_lists_of_values(
    changes: Seq<FileChange>,
    sessions: Seq<Session>,
    files: Seq<FileDiff>,
    entries: Seq<CommitEntry>,
    proposed: Seq<ProposedCommit>,
    words: Seq<&str>,
    i: int,
)
    ensures
        change_views(changes).len() == changes.len(),
        0 <= i < changes.len() ==> change_views(changes)[i] == changes[i]@,
        session_views(sessions).len() == sessions.len(),
        0 <= i < sessions.len() ==> session_views(sessions)[i] == sessions[i]@,
        file_views(files).len() == files.len(),
        0 <= i < files.len() ==> file_views(files)[i] == files[i]@,
        entry_views(entries).len() == entries.len(),
        0 <= i < entries.len() ==> entry_views(entries)[i] == entries[i]@,
        proposed_views(proposed).len() == proposed.len(),
        0 <= i < proposed.len() ==> proposed_views(proposed)[i] == proposed[i]@,
        literals(words).len() == words.len(),
        0 <= i < words.len() ==> literals(words)[i] == words[i]@,
{
}

/// Commits of a changelog, reports, accounts and proposed commits with the same
/// view are the same.
pub proof fn lemma_commits_reports_and_accounts(
    a: CommitEntry,
    b: CommitEntry,
    c: ChangelogReport,
    d: ChangelogReport,
    e: MeResponse,
    f: MeResponse,
    g: ProposedCommit,
    h: ProposedCommit,
)
    ensures
        a@ == b@ ==> a.hash@ == b.hash@ && a.commit_type@ == b.commit_type@ && text(a.scope) == text(
            b.scope,
        ) && a.summary@ == b.summary@ && a.is_breaking == b.is_breaking && a.author@ == b.author@
            && a.date@ == b.date@,
        a@.hash == a.hash@ && a@.summary == a.summary@ && a@.commit_type == a.commit_type@
            && a@.author == a.author@ && a@.date == a.date@,
        c@ == d@ ==> c.range@ == d.range@ && c.total_commits == d.total_commits && category_views(
            c.categories@,
        ) == category_views(d.categories@) && entry_views(c.breaking_changes@) == entry_views(
            d.breaking_changes@,
        ),
        e@ == f@ ==> e.email@ == f.email@ && text(e.plan) == text(f.plan) && e.admin == f.admin,
        g@ == h@ ==> g.message@ == h.message@ && texts(g.files@) == texts(h.files@) && g.reasoning@
            == h.reasoning@ && text(g.bundling_warning) == text(h.bundling_warning),
        g@.message == g.message@ && g@.reasoning == g.reasoning@,
{
}

/// Groupings, calls of git and verdicts with the same view are the same.
pub proof fn lemma_groupings_calls_and_verdicts(
    a: GroupingResult,
    b: GroupingResult,
    c: GitCommand,
    d: GitCommand,
    v: Verdict,
    w: Verdict,
)
    ensures
        a@ == b@ ==> a.summary@ == b.summary@ && proposed_views(a.commits@) == proposed_views(
            b.commits@,
        ),
        c@ == d@ ==> texts(c.args@) == texts(d.args@) && text(c.input) == text(d.input),
        v@ == w@ ==> (v is Clean <==> w is Clean),
        v matches Verdict::Clean { summary } ==> v@->summary == summary@ && v@ is Clean,
        v matches Verdict::Inconclusive { reason } ==> v@->reason == reason@ && v@ is Inconclusive,
{
}

} // verus!
