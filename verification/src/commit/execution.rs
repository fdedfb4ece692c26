//! The steps that carry out an approved plan.

use vstd::prelude::*;

use crate::commit::answers::{prompt_confirm, says_yes};
use crate::commit::approval::{has_partial, splits_a_file};
use crate::commit::execute::{
    build_staging_patch, committed_text, ensure_tree_unchanged, failure_report,
    has_other_staged_work, record_commit, recorded_commit, report_partial_failure, say_committed,
    say_staging_error, something_staged, staging_error, staging_patch, stale_text,
};
use crate::engine::history::{commit_views, SessionCommit, SessionCommitView};
use crate::engine::hunks::{file_views, FileDiff, FileView};
use crate::engine::plan::{group_views, GroupView, PlanGroup};
use crate::number::{count, decimal_of};
use crate::text::{copy_texts, texts};

verus! {

/// What is waited for.
#[derive(Debug, Clone, Copy, PartialEq, Eq, Structural)]
pub enum ExecStage {
    /// The status of the tree, to see that nothing changed.
    CheckTree,
    /// The status of the tree, to see that nothing else is staged.
    CheckIndex,
    /// The reset of the index.
    Reset,
    /// The staging of hunks.
    Apply,
    /// The staging of files.
    Add,
    /// The commit.
    Commit,
    /// The identifier of the commit.
    Head,
    /// The record of the session.
    Record,
    /// Whether there is a remote.
    Remote,
    /// Whether to push.
    Confirm,
    /// The push.
    Push,
    /// Nothing: every commit was made.
    Done,
    /// Nothing: a commit could not be made.
    Stopped,
    /// Nothing: the run ended in an error.
    Failed,
}

/// A plan that is being carried out.
#[derive(Debug)]
pub struct Execution {
    pub plan: Vec<PlanGroup>,
    pub files: Vec<FileDiff>,
    pub staged_used: bool,
    /// The status of the tree when the diff was collected.
    pub baseline: String,
    pub stage: ExecStage,
    /// The group that is worked on.
    pub index: usize,
    /// The messages of the commits that were made.
    pub committed: Vec<String>,
    pub recorded: Vec<SessionCommit>,
    /// What went wrong, where the run ended in an error.
    pub error: String,
}

/// What came of the last action.
#[derive(Debug)]
pub enum ExecEvent {
    /// What `git status --porcelain -uno` printed.
    Status(String),
    /// What an operation printed, or why it failed.
    Done(Result<String, String>),
    /// Whether there is an upstream branch or a remote to push to.
    Remote(bool),
    /// The line that was typed.
    Line(String),
}

/// What to do next.
#[derive(Debug)]
pub enum ExecAction {
    ReadStatus,
    ResetIndex,
    /// Stage a patch.
    Apply(String),
    /// Stage files.
    Add(Vec<String>),
    /// Commit what is staged.
    Commit(String),
    ReadHead,
    /// Record the session.
    Record(Vec<SessionCommit>),
    ReadRemote,
    Ask(String),
    Push,
    /// Leave, with success or without.
    Exit(bool),
    /// Leave with an error.
    Fail(String),
}

/// What to print, and what to print as an error.
#[derive(Debug)]
pub struct Said {
    pub out: String,
    pub err: String,
}

/// An execution as texts.
pub struct ExecView {
    pub plan: Seq<GroupView>,
    pub files: Seq<FileView>,
    pub staged_used: bool,
    pub baseline: Seq<char>,
    pub stage: ExecStage,
    pub index: int,
    pub committed: Seq<Seq<char>>,
    pub recorded: Seq<SessionCommitView>,
    pub error: Seq<char>,
}

/// An event as texts.
pub enum ExecEventView {
    Status(Seq<char>),
    Done(Result<Seq<char>, Seq<char>>),
    Remote(bool),
    Line(Seq<char>),
}

/// An action as texts.
pub enum ExecActionView {
    ReadStatus,
    ResetIndex,
    Apply(Seq<char>),
    Add(Seq<Seq<char>>),
    Commit(Seq<char>),
    ReadHead,
    Record(Seq<SessionCommitView>),
    ReadRemote,
    Ask(Seq<char>),
    Push,
    Exit(bool),
    Fail(Seq<char>),
}

/// What is said, as texts.
pub struct SaidView {
    pub out: Seq<char>,
    pub err: Seq<char>,
}

impl View for Execution {
    type V = ExecView;

    open spec fn view(&self) -> ExecView {
        ExecView {
            plan: group_views(self.plan@),
            files: file_views(self.files@),
            staged_used: self.staged_used,
            baseline: self.baseline@,
            stage: self.stage,
            index: self.index as int,
            committed: texts(self.committed@),
            recorded: commit_views(self.recorded@),
            error: self.error@,
        }
    }
}

impl View for ExecEvent {
    type V = ExecEventView;

    open spec fn view(&self) -> ExecEventView {
        match self {
            ExecEvent::Status(status) => ExecEventView::Status(status@),
            ExecEvent::Done(outcome) => ExecEventView::Done(
                match outcome {
                    Ok(output) => Ok(output@),
                    Err(why) => Err(why@),
                },
            ),
            ExecEvent::Remote(known) => ExecEventView::Remote(*known),
            ExecEvent::Line(line) => ExecEventView::Line(line@),
        }
    }
}

impl View for ExecAction {
    type V = ExecActionView;

    open spec fn view(&self) -> ExecActionView {
        match self {
            ExecAction::ReadStatus => ExecActionView::ReadStatus,
            ExecAction::ResetIndex => ExecActionView::ResetIndex,
            ExecAction::Apply(patch) => ExecActionView::Apply(patch@),
            ExecAction::Add(paths) => ExecActionView::Add(texts(paths@)),
            ExecAction::Commit(message) => ExecActionView::Commit(message@),
            ExecAction::ReadHead => ExecActionView::ReadHead,
            ExecAction::Record(commits) => ExecActionView::Record(commit_views(commits@)),
            ExecAction::ReadRemote => ExecActionView::ReadRemote,
            ExecAction::Ask(question) => ExecActionView::Ask(question@),
            ExecAction::Push => ExecActionView::Push,
            ExecAction::Exit(success) => ExecActionView::Exit(*success),
            ExecAction::Fail(why) => ExecActionView::Fail(why@),
        }
    }
}

impl View for Said {
    type V = SaidView;

    open spec fn view(&self) -> SaidView {
        SaidView { out: self.out@, err: self.err@ }
    }
}

// ── actions ─────────────────────────────────────────────────────────

/// The action that a state waits for.
pub open spec fn action_of(v: ExecView) -> ExecActionView {
    match v.stage {
        ExecStage::CheckTree => ExecActionView::ReadStatus,
        ExecStage::CheckIndex => ExecActionView::ReadStatus,
        ExecStage::Reset => ExecActionView::ResetIndex,
        ExecStage::Apply => ExecActionView::Apply(staging_patch(v.files, v.plan[v.index].partial)),
        ExecStage::Add => ExecActionView::Add(v.plan[v.index].whole),
        ExecStage::Commit => ExecActionView::Commit(v.plan[v.index].message),
        ExecStage::Head => ExecActionView::ReadHead,
        ExecStage::Record => ExecActionView::Record(v.recorded),
        ExecStage::Remote => ExecActionView::ReadRemote,
        ExecStage::Confirm => ExecActionView::Ask("Push these commits to the remote? [y/N] "@),
        ExecStage::Push => ExecActionView::Push,
        ExecStage::Done => ExecActionView::Exit(true),
        ExecStage::Stopped => ExecActionView::Exit(false),
        ExecStage::Failed => ExecActionView::Fail(v.error),
    }
}

// ── transitions ─────────────────────────────────────────────────────

/// Nothing is said.
pub open spec fn nothing() -> SaidView {
    SaidView { out: Seq::empty(), err: Seq::empty() }
}

/// The run ends in an error.
pub open spec fn failed(v: ExecView, why: Seq<char>) -> (ExecView, SaidView) {
    (ExecView { stage: ExecStage::Failed, error: why, ..v }, nothing())
}

/// The stage that follows the staging of hunks.
pub open spec fn stage_after_hunks(group: GroupView) -> ExecStage {
    if group.whole.len() > 0 {
        ExecStage::Add
    } else {
        ExecStage::Commit
    }
}

/// The first stage of a group.
pub open spec fn first_stage(group: GroupView) -> ExecStage {
    if group.partial.len() > 0 {
        ExecStage::Apply
    } else {
        stage_after_hunks(group)
    }
}

/// Go on with the group that the index names, or end the run where there is
/// none left.
pub open spec fn at_group(v: ExecView) -> (ExecView, SaidView) {
    if v.index < v.plan.len() {
        (ExecView { stage: first_stage(v.plan[v.index]), ..v }, nothing())
    } else {
        (
            ExecView {
                stage: if v.recorded.len() > 0 {
                    ExecStage::Record
                } else {
                    ExecStage::Remote
                },
                ..v
            },
            SaidView {
                out: "\nDone — created "@ + decimal_of(v.plan.len()) + " commit(s).\n"@,
                err: Seq::empty(),
            },
        )
    }
}

/// The guards are passed: rebuild the index where hunks are split out of staged
/// changes, else begin with the first group.
pub open spec fn guarded(v: ExecView) -> (ExecView, SaidView) {
    if v.staged_used && splits_a_file(v.plan) {
        (
            ExecView { stage: ExecStage::Reset, ..v },
            SaidView {
                out: "Splitting hunks separately — rebuilding the index first…\n"@,
                err: Seq::empty(),
            },
        )
    } else {
        at_group(v)
    }
}

/// Why a plan is not carried out over other staged changes.
pub open spec fn swept_text() -> Seq<char> {
    "You have other staged-but-uncommitted changes outside what was analyzed.\nCommit or stash them first — otherwise they would be swept into these\ncommits as a side effect. Then re-run `commitor commit`."@
}

/// The run stops at the group that the index names.
pub open spec fn stopped(v: ExecView, complaint: Seq<char>) -> (ExecView, SaidView) {
    (
        ExecView { stage: ExecStage::Stopped, ..v },
        SaidView { out: failure_report(v.committed, v.plan.skip(v.index)), err: complaint },
    )
}

/// A session that could not be recorded is only warned of: the commits are made.
pub open spec fn not_recorded(v: ExecView, why: Seq<char>) -> (ExecView, SaidView) {
    (
        ExecView { stage: ExecStage::Remote, ..v },
        SaidView { out: Seq::empty(), err: "warning: didn't record the session — "@ + why + "\n"@ },
    )
}

/// A push that did not come about is only warned of.
pub open spec fn not_pushed(v: ExecView, why: Seq<char>) -> (ExecView, SaidView) {
    (
        ExecView { stage: ExecStage::Done, ..v },
        SaidView { out: Seq::empty(), err: "warning: didn't push — "@ + why + "\n"@ },
    )
}

/// What follows the outcome of an operation.
pub open spec fn after_operation(v: ExecView, outcome: Result<Seq<char>, Seq<char>>) -> (
    ExecView,
    SaidView,
) {
    let group = v.plan[v.index];
    let number = (v.index + 1) as nat;
    let total = v.plan.len();
    match (v.stage, outcome) {
        (ExecStage::Reset, Ok(_)) => at_group(v),
        (ExecStage::Reset, Err(why)) => failed(v, why),
        (ExecStage::Apply, Ok(_)) => (
            ExecView { stage: stage_after_hunks(group), ..v },
            nothing(),
        ),
        (ExecStage::Apply, Err(why)) => stopped(v, staging_error("hunks"@, number, total, why)),
        (ExecStage::Add, Ok(_)) => (ExecView { stage: ExecStage::Commit, ..v }, nothing()),
        (ExecStage::Add, Err(why)) => stopped(v, staging_error("files"@, number, total, why)),
        (ExecStage::Commit, Ok(output)) => (
            ExecView {
                stage: ExecStage::Head,
                committed: v.committed.push(group.message),
                ..v
            },
            SaidView {
                out: committed_text(group.message, number, total, output),
                err: Seq::empty(),
            },
        ),
        (ExecStage::Commit, Err(why)) => stopped(v, "error: "@ + why + "\n"@),
        (ExecStage::Head, Ok(sha)) => at_group(
            ExecView {
                index: v.index + 1,
                recorded: v.recorded.push(recorded_commit(group, sha)),
                ..v
            },
        ),
        (ExecStage::Head, Err(why)) => failed(v, why),
        (ExecStage::Record, Ok(_)) => (ExecView { stage: ExecStage::Remote, ..v }, nothing()),
        (ExecStage::Record, Err(why)) => not_recorded(v, why),
        (ExecStage::Confirm, Err(why)) => not_pushed(v, why),
        (ExecStage::Push, Ok(_)) => (ExecView { stage: ExecStage::Done, ..v }, nothing()),
        (ExecStage::Push, Err(why)) => not_pushed(v, why),
        _ => (v, nothing()),
    }
}

/// What follows an event. An event that is not waited for changes nothing.
pub open spec fn after_event(v: ExecView, event: ExecEventView) -> (ExecView, SaidView) {
    match event {
        ExecEventView::Status(status) => match v.stage {
            ExecStage::CheckTree => if status != v.baseline {
                failed(v, stale_text())
            } else if !v.staged_used {
                (ExecView { stage: ExecStage::CheckIndex, ..v }, nothing())
            } else {
                guarded(v)
            },
            ExecStage::CheckIndex => if something_staged(status) {
                failed(v, swept_text())
            } else {
                guarded(v)
            },
            _ => (v, nothing()),
        },
        ExecEventView::Done(outcome) => after_operation(v, outcome),
        ExecEventView::Remote(known) => if v.stage == ExecStage::Remote {
            (
                ExecView {
                    stage: if known {
                        ExecStage::Confirm
                    } else {
                        ExecStage::Done
                    },
                    ..v
                },
                nothing(),
            )
        } else {
            (v, nothing())
        },
        ExecEventView::Line(line) => if v.stage == ExecStage::Confirm {
            if says_yes(line) {
                (
                    ExecView { stage: ExecStage::Push, ..v },
                    SaidView { out: "Pushing…\n"@, err: Seq::empty() },
                )
            } else {
                (ExecView { stage: ExecStage::Done, ..v }, nothing())
            }
        } else {
            (v, nothing())
        },
    }
}

/// The index names a group wherever a group is worked on.
pub open spec fn exec_wf(v: ExecView) -> bool {
    &&& 0 <= v.index <= v.plan.len()
    &&& (v.stage == ExecStage::Apply || v.stage == ExecStage::Add || v.stage == ExecStage::Commit
        || v.stage == ExecStage::Head) ==> v.index < v.plan.len()
}

// ── the machine ─────────────────────────────────────────────────────

fn quiet() -> (r: Said)
    ensures
        r@ == nothing(),
{
    let out = String::new();
    let err = String::new();
    assert(out@ =~= Seq::empty());
    assert(err@ =~= Seq::empty());
    Said { out, err }
}

fn aloud(out: String) -> (r: Said)
    ensures
        r@ == (SaidView { out: out@, err: Seq::empty() }),
{
    let err = String::new();
    assert(err@ =~= Seq::empty());
    Said { out, err }
}

fn copy_commits(commits: &[SessionCommit]) -> (r: Vec<SessionCommit>)
    ensures
        commit_views(r@) == commit_views(commits@),
{
    let mut out: Vec<SessionCommit> = Vec::new();
    for i in 0..commits.len()
        invariant
            out@.len() == i,
            forall|j: int| 0 <= j < i ==> (#[trigger] out@[j])@ == commits@[j]@,
    {
        let c = &commits[i];
        out.push(
            SessionCommit {
                sha: c.sha.clone(),
                message: c.message.clone(),
                files: copy_texts(c.files.as_slice()),
            },
        );
    }
    assert(commit_views(out@) =~= commit_views(commits@));
    out
}

/// Begin to carry out an approved plan.
pub fn execute_commits(
    plan: Vec<PlanGroup>,
    files: Vec<FileDiff>,
    staged_used: bool,
    baseline: String,
) -> (r: Execution)
    ensures
        r@ == (ExecView {
            plan: group_views(plan@),
            files: file_views(files@),
            staged_used,
            baseline: baseline@,
            stage: ExecStage::CheckTree,
            index: 0,
            committed: Seq::empty(),
            recorded: Seq::empty(),
            error: Seq::empty(),
        }),
        exec_wf(r@),
{
    let r = Execution {
        plan,
        files,
        staged_used,
        baseline,
        stage: ExecStage::CheckTree,
        index: 0,
        committed: Vec::new(),
        recorded: Vec::new(),
        error: String::new(),
    };
    assert(texts(r.committed@) =~= Seq::empty());
    assert(commit_views(r.recorded@) =~= Seq::empty());
    assert(r.error@ =~= Seq::empty());
    r
}

impl Execution {
    /// The action that is waited for.
    pub fn action(&self) -> (r: ExecAction)
        requires
            exec_wf(self@),
        ensures
            r@ == action_of(self@),
    {
        assert(self@.plan.len() == self.plan@.len());
        match self.stage {
            ExecStage::CheckTree => ExecAction::ReadStatus,
            ExecStage::CheckIndex => ExecAction::ReadStatus,
            ExecStage::Reset => ExecAction::ResetIndex,
            ExecStage::Apply => {
                let group = &self.plan[self.index];
                assert(self@.plan[self.index as int] == group@);
                ExecAction::Apply(
                    build_staging_patch(self.files.as_slice(), group.partial.as_slice()),
                )
            },
            ExecStage::Add => {
                let group = &self.plan[self.index];
                assert(self@.plan[self.index as int] == group@);
                ExecAction::Add(copy_texts(group.whole.as_slice()))
            },
            ExecStage::Commit => {
                let group = &self.plan[self.index];
                assert(self@.plan[self.index as int] == group@);
                ExecAction::Commit(group.message.clone())
            },
            ExecStage::Head => ExecAction::ReadHead,
            ExecStage::Record => ExecAction::Record(copy_commits(self.recorded.as_slice())),
            ExecStage::Remote => ExecAction::ReadRemote,
            ExecStage::Confirm => ExecAction::Ask(
                "Push these commits to the remote? [y/N] ".to_owned(),
            ),
            ExecStage::Push => ExecAction::Push,
            ExecStage::Done => ExecAction::Exit(true),
            ExecStage::Stopped => ExecAction::Exit(false),
            ExecStage::Failed => ExecAction::Fail(self.error.clone()),
        }
    }

    fn fail(&mut self, why: String) -> (r: Said)
        ensures
            (final(self)@, r@) == failed(old(self)@, why@),
    {
        self.stage = ExecStage::Failed;
        self.error = why;
        quiet()
    }

    fn go_to(&mut self, stage: ExecStage) -> (r: Said)
        ensures
            (final(self)@, r@) == ((ExecView { stage, ..old(self)@ }), nothing()),
    {
        self.stage = stage;
        quiet()
    }

    fn after_hunks(&self) -> (r: ExecStage)
        requires
            self.index < self.plan@.len(),
        ensures
            r == stage_after_hunks(self@.plan[self.index as int]),
    {
        assert(self@.plan[self.index as int] == self.plan@[self.index as int]@);
        assert(self.plan@[self.index as int]@.whole.len() == self.plan@[self.index as int].whole@.len());
        if self.plan[self.index].whole.len() > 0 {
            ExecStage::Add
        } else {
            ExecStage::Commit
        }
    }

    fn enter_group(&mut self) -> (r: Said)
        requires
            old(self).index <= old(self).plan@.len(),
        ensures
            (final(self)@, r@) == at_group(old(self)@),
    {
        let total = self.plan.len();
        assert(self@.plan.len() == total);
        if self.index < total {
            assert(self@.plan[self.index as int] == self.plan@[self.index as int]@);
            assert(self.plan@[self.index as int]@.partial.len() == self.plan@[self.index as int].partial@.len());
            let stage = if self.plan[self.index].partial.len() > 0 {
                ExecStage::Apply
            } else {
                self.after_hunks()
            };
            self.go_to(stage)
        } else {
            assert(self@.recorded.len() == self.recorded@.len());
            if self.recorded.len() > 0 {
                self.stage = ExecStage::Record;
            } else {
                self.stage = ExecStage::Remote;
            }
            let mut out = "\nDone — created ".to_owned();
            out.append(count(total).as_str());
            out.append(" commit(s).\n");
            aloud(out)
        }
    }

    fn pass_guards(&mut self) -> (r: Said)
        requires
            old(self).index <= old(self).plan@.len(),
        ensures
            (final(self)@, r@) == guarded(old(self)@),
    {
        if self.staged_used && has_partial(self.plan.as_slice()) {
            self.stage = ExecStage::Reset;
            aloud("Splitting hunks separately — rebuilding the index first…\n".to_owned())
        } else {
            self.enter_group()
        }
    }

    fn stop(&mut self, complaint: String) -> (r: Said)
        requires
            old(self).index <= old(self).plan@.len(),
        ensures
            (final(self)@, r@) == stopped(old(self)@, complaint@),
    {
        let n = self.plan.len();
        let pending = &self.plan.as_slice()[self.index..n];
        assert(group_views(pending@) =~= group_views(self.plan@).skip(self.index as int));
        let out = report_partial_failure(self.committed.as_slice(), pending);
        self.stage = ExecStage::Stopped;
        Said { out, err: complaint }
    }

    fn warn_not_recorded(&mut self, why: String) -> (r: Said)
        ensures
            (final(self)@, r@) == not_recorded(old(self)@, why@),
    {
        self.stage = ExecStage::Remote;
        let out = String::new();
        assert(out@ =~= Seq::empty());
        let mut err = "warning: didn't record the session — ".to_owned();
        err.append(why.as_str());
        err.append("\n");
        Said { out, err }
    }

    fn warn_not_pushed(&mut self, why: String) -> (r: Said)
        ensures
            (final(self)@, r@) == not_pushed(old(self)@, why@),
    {
        self.stage = ExecStage::Done;
        let out = String::new();
        assert(out@ =~= Seq::empty());
        let mut err = "warning: didn't push — ".to_owned();
        err.append(why.as_str());
        err.append("\n");
        Said { out, err }
    }

    fn note_commit(&mut self, output: String) -> (r: Said)
        requires
            exec_wf(old(self)@),
            old(self).stage == ExecStage::Commit,
        ensures
            (final(self)@, r@) == after_operation(old(self)@, Ok(output@)),
    {
        let ghost before = self@;
        let total = self.plan.len();
        assert(before.plan.len() == total);
        assert(before.plan[self.index as int] == self.plan@[self.index as int]@);
        let message = self.plan[self.index].message.clone();
        let out = say_committed(message.as_str(), self.index + 1, total, output.as_str());
        let ghost so_far = self.committed@;
        self.committed.push(message);
        assert(texts(self.committed@) =~= texts(so_far).push(message@));
        self.stage = ExecStage::Head;
        aloud(out)
    }

    fn note_head(&mut self, sha: String) -> (r: Said)
        requires
            exec_wf(old(self)@),
            old(self).stage == ExecStage::Head,
        ensures
            (final(self)@, r@) == after_operation(old(self)@, Ok(sha@)),
    {
        let ghost before = self@;
        let total = self.plan.len();
        assert(before.plan.len() == total);
        assert(before.plan[self.index as int] == self.plan@[self.index as int]@);
        let commit = record_commit(&self.plan[self.index], sha);
        let ghost so_far = self.recorded@;
        self.recorded.push(commit);
        assert(commit_views(self.recorded@) =~= commit_views(so_far).push(commit@));
        self.index = self.index + 1;
        self.enter_group()
    }

    fn finish_operation(&mut self, outcome: Result<String, String>) -> (r: Said)
        requires
            exec_wf(old(self)@),
        ensures
            (final(self)@, r@) == after_operation(
                old(self)@,
                match outcome {
                    Ok(output) => Ok(output@),
                    Err(why) => Err(why@),
                },
            ),
    {
        assert(self@.plan.len() == self.plan@.len());
        let total = self.plan.len();
        match (self.stage, outcome) {
            (ExecStage::Reset, Ok(_)) => self.enter_group(),
            (ExecStage::Reset, Err(why)) => self.fail(why),
            (ExecStage::Apply, Ok(_)) => {
                let stage = self.after_hunks();
                self.go_to(stage)
            },
            (ExecStage::Apply, Err(why)) => {
                let complaint = say_staging_error("hunks", self.index + 1, total, why.as_str());
                self.stop(complaint)
            },
            (ExecStage::Add, Ok(_)) => self.go_to(ExecStage::Commit),
            (ExecStage::Add, Err(why)) => {
                let complaint = say_staging_error("files", self.index + 1, total, why.as_str());
                self.stop(complaint)
            },
            (ExecStage::Commit, Ok(output)) => self.note_commit(output),
            (ExecStage::Commit, Err(why)) => {
                let mut complaint = "error: ".to_owned();
                complaint.append(why.as_str());
                complaint.append("\n");
                self.stop(complaint)
            },
            (ExecStage::Head, Ok(sha)) => self.note_head(sha),
            (ExecStage::Head, Err(why)) => self.fail(why),
            (ExecStage::Record, Ok(_)) => self.go_to(ExecStage::Remote),
            (ExecStage::Record, Err(why)) => self.warn_not_recorded(why),
            (ExecStage::Confirm, Err(why)) => self.warn_not_pushed(why),
            (ExecStage::Push, Ok(_)) => self.go_to(ExecStage::Done),
            (ExecStage::Push, Err(why)) => self.warn_not_pushed(why),
            _ => quiet(),
        }
    }

    /// Take note of what came of the last action. An event that is not waited
    /// for changes nothing.
    pub fn handle(&mut self, event: ExecEvent) -> (r: Said)
        requires
            exec_wf(old(self)@),
        ensures
            (final(self)@, r@) == after_event(old(self)@, event@),
            exec_wf(final(self)@),
    {
        assert(self@.plan.len() == self.plan@.len());
        match event {
            ExecEvent::Status(status) => match self.stage {
                ExecStage::CheckTree => match ensure_tree_unchanged(
                    self.baseline.as_str(),
                    status.as_str(),
                ) {
                    Err(why) => self.fail(why),
                    Ok(_) => if !self.staged_used {
                        self.go_to(ExecStage::CheckIndex)
                    } else {
                        self.pass_guards()
                    },
                },
                ExecStage::CheckIndex => if has_other_staged_work(status.as_str()) {
                    self.fail(
                        "You have other staged-but-uncommitted changes outside what was analyzed.\nCommit or stash them first — otherwise they would be swept into these\ncommits as a side effect. Then re-run `commitor commit`.".to_owned(),
                    )
                } else {
                    self.pass_guards()
                },
                _ => quiet(),
            },
            ExecEvent::Done(outcome) => self.finish_operation(outcome),
            ExecEvent::Remote(known) => if self.stage == ExecStage::Remote {
                if known {
                    self.go_to(ExecStage::Confirm)
                } else {
                    self.go_to(ExecStage::Done)
                }
            } else {
                quiet()
            },
            ExecEvent::Line(line) => if self.stage == ExecStage::Confirm {
                if prompt_confirm(line.as_str()) {
                    self.stage = ExecStage::Push;
                    aloud("Pushing…\n".to_owned())
                } else {
                    self.go_to(ExecStage::Done)
                }
            } else {
                quiet()
            },
        }
    }
}

// ── laws ────────────────────────────────────────────────────────────

/// The action changes the repository or its remote.
pub open spec fn is_change(action: ExecActionView) -> bool {
    match action {
        ExecActionView::ResetIndex => true,
        ExecActionView::Apply(_) => true,
        ExecActionView::Add(_) => true,
        ExecActionView::Commit(_) => true,
        ExecActionView::Push => true,
        _ => false,
    }
}

/// From the start, the first event that leads to a change of the repository is
/// a status that is the same as when the diff was collected.
pub proof fn lemma_nothing_changes_on_a_stale_tree(v: ExecView, event: ExecEventView)
    requires
        v.stage == ExecStage::CheckTree,
        is_change(action_of(after_event(v, event).0)),
    ensures
        event == ExecEventView::Status(v.baseline),
{
}

/// Unstaged changes are committed only over an index without other staged
/// changes.
pub proof fn lemma_staged_work_is_never_swept_in(v: ExecView, event: ExecEventView)
    requires
        v.stage == ExecStage::CheckTree || v.stage == ExecStage::CheckIndex,
        !v.staged_used,
        is_change(action_of(after_event(v, event).0)),
    ensures
        v.stage == ExecStage::CheckIndex,
        event matches ExecEventView::Status(status) && !something_staged(status),
{
}

/// The messages of the first groups.
pub open spec fn messages(plan: Seq<GroupView>, n: int) -> Seq<Seq<char>> {
    Seq::new(n as nat, |i: int| plan[i].message)
}

/// The commits that were made are those of the first groups of the plan, in
/// order, and each was recorded once its identifier was known. The session is
/// recorded, and a push offered, only after the last of them.
pub open spec fn in_order(v: ExecView) -> bool {
    let made = if v.stage == ExecStage::Head {
        v.index + 1
    } else {
        v.index
    };
    &&& exec_wf(v)
    &&& v.stage != ExecStage::Failed ==> v.committed == messages(v.plan, made)
    &&& v.recorded.len() == v.index
    &&& forall|i: int|
        0 <= i < v.index ==> (#[trigger] v.recorded[i]).message == v.plan[i].message
            && v.recorded[i] == recorded_commit(v.plan[i], v.recorded[i].sha)
    &&& (v.stage == ExecStage::Record || v.stage == ExecStage::Remote || v.stage
        == ExecStage::Confirm || v.stage == ExecStage::Push || v.stage == ExecStage::Done)
        ==> v.index == v.plan.len()
    &&& (v.stage == ExecStage::CheckTree || v.stage == ExecStage::CheckIndex || v.stage
        == ExecStage::Reset) ==> v.index == 0
}

/// Whatever happens, the commits of a plan are made in its order, none left
/// out, and the plan itself stays as it was approved.
pub proof fn lemma_commits_follow_the_plan(v: ExecView, event: ExecEventView)
    requires
        in_order(v),
    ensures
        in_order(after_event(v, event).0),
        after_event(v, event).0.plan == v.plan,
        after_event(v, event).0.files == v.files,
{
    let next = after_event(v, event).0;
    if v.stage == ExecStage::Commit && next.stage == ExecStage::Head {
        assert(next.committed =~= messages(v.plan, v.index + 1));
    }
    if v.stage == ExecStage::Head && next.index == v.index + 1 {
        assert forall|i: int| 0 <= i < next.index implies (#[trigger] next.recorded[i]).message
            == next.plan[i].message && next.recorded[i] == recorded_commit(
            next.plan[i],
            next.recorded[i].sha,
        ) by {
            if i < v.index {
                assert(next.recorded[i] == v.recorded[i]);
            }
        }
    }
}

/// A plan begins in order: nothing is committed yet.
pub proof fn lemma_execution_begins_in_order(v: ExecView)
    requires
        v.stage == ExecStage::CheckTree,
        v.index == 0,
        v.committed.len() == 0,
        v.recorded.len() == 0,
    ensures
        in_order(v),
{
    assert(v.committed =~= messages(v.plan, 0));
}

/// A run that has ended stays ended, whatever comes: after a failure nothing
/// more is staged or committed.
pub proof fn lemma_an_ended_run_stays_ended(v: ExecView, event: ExecEventView)
    requires
        v.stage == ExecStage::Done || v.stage == ExecStage::Stopped || v.stage
            == ExecStage::Failed,
    ensures
        after_event(v, event).0 == v,
        !is_change(action_of(v)),
{
}

/// A failed operation on a group stops the run and is reported with the
/// commits that were made and everything that is in none of them.
pub proof fn lemma_first_failure_stops_the_run(v: ExecView, why: Seq<char>)
    requires
        v.stage == ExecStage::Apply || v.stage == ExecStage::Add || v.stage == ExecStage::Commit,
    ensures
        after_event(v, ExecEventView::Done(Err(why))).0.stage == ExecStage::Stopped,
        after_event(v, ExecEventView::Done(Err(why))).1.out == failure_report(
            v.committed,
            v.plan.skip(v.index),
        ),
        action_of(after_event(v, ExecEventView::Done(Err(why))).0) == ExecActionView::Exit(false),
{
}

/// Once every commit was made, nothing can fail the run any more: a session
/// that cannot be recorded is warned of, a push is offered only where there is
/// a remote, made only on a yes, and where it fails the run is still a success.
pub proof fn lemma_made_commits_are_a_success(v: ExecView, event: ExecEventView)
    requires
        after_the_commits(v.stage),
    ensures
        ({
            let next = after_event(v, event).0.stage;
            &&& after_the_commits(next) || next == ExecStage::Done
            &&& v.stage != ExecStage::Confirm && next == ExecStage::Confirm ==> event
                == ExecEventView::Remote(true)
            &&& v.stage != ExecStage::Push && next == ExecStage::Push ==> v.stage
                == ExecStage::Confirm && (event matches ExecEventView::Line(line) && says_yes(line))
        }),
{
}

/// The stages that follow the last commit.
pub open spec fn after_the_commits(stage: ExecStage) -> bool {
    stage == ExecStage::Record || stage == ExecStage::Remote || stage == ExecStage::Confirm || stage
        == ExecStage::Push
}

} // verus!
