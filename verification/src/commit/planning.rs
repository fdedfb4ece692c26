//! From the working diff to a plan that covers it exactly once.

use vstd::prelude::*;

use crate::analysis::{
    change_group_views, AnalyzeResponse, ChangeGroup, ChangeGroupView, CollectedDiff, DiffView,
};
use crate::analysis::reply::{error_message, AnalyzeError, AnalyzeErrorView, RateStatus};
use crate::commit::CommitFlags;
use crate::commit::answers::{prompt_retry, retry_of, RetryDecision};
use crate::commit::branch::{propose_branch, proposed_branch, suggest_branch_name, suggestion_of};
use crate::commit::execute::{ensure_tree_unchanged, stale_text};
use crate::commit::offline::{offline_groups, offline_plan, plan_files};
use crate::commit::proposal::{build_plan, groups_resolved, normalize_group_paths, plan_of};
use crate::engine::coverage::{lemma_accepted_iff_partition, partitions, whole_paths};
use crate::engine::hunks::{file_views, parse, parsed, FileDiff, FileView};
use crate::engine::plan::{
    group_views, plan_fault, refusal_text, validate, GroupView, PlanErrorView, PlanGroup,
};
use crate::number::{count, decimal_of};
use crate::text::{text, texts};

verus! {

/// How often the backend is asked before an offline plan is made.
pub const MAX_AI_ATTEMPTS: usize = 4;

/// How many proposals may be inconsistent before an offline plan is made.
pub const MAX_PLAN_ATTEMPTS: usize = 3;

/// What is waited for.
#[derive(Debug, Clone, Copy, PartialEq, Eq, Structural)]
pub enum PlanPhase {
    /// The diff.
    Collect,
    /// The branch that is checked out.
    Branch,
    /// A branch name from the backend.
    BranchName,
    /// The choice of a branch.
    Pick,
    /// The diff on the chosen branch.
    Recollect,
    /// The status of the tree, to compare with later.
    Baseline,
    /// The analysis.
    Analyze,
    /// Whether to ask the backend again.
    Retry,
    /// The status of the tree, before the proposal is used.
    CheckTree,
    /// The status of the tree, before an offline plan is made.
    CheckOffline,
    /// Whether to ask for another proposal.
    PlanRetry,
    /// Another analysis.
    Reanalyze,
    /// Nothing: the plan is there.
    Ready,
    /// Nothing: there is nothing to do.
    Over,
    /// Nothing: the run ended in an error.
    Failed,
}

/// A plan in the making.
#[derive(Debug)]
pub struct Planning {
    pub flags: CommitFlags,
    pub phase: PlanPhase,
    pub diff: CollectedDiff,
    /// The branch that was checked out at the start.
    pub starting_branch: Option<String>,
    /// The branch name to propose.
    pub suggestion: String,
    /// The status of the tree when the diff was collected.
    pub baseline: String,
    /// How often the analysis failed.
    pub attempts: usize,
    /// How many proposals were inconsistent.
    pub plan_attempts: usize,
    /// The question that is asked.
    pub question: String,
    /// The proposal of the backend.
    pub groups: Vec<ChangeGroup>,
    /// What is left of the quota, after an analysis.
    pub rate: RateStatus,
    pub plan: Vec<PlanGroup>,
    /// The records of the diff that the plan covers.
    pub files: Vec<FileDiff>,
    /// What went wrong, where the run ended in an error.
    pub error: String,
}

/// What came of the last action.
#[derive(Debug)]
pub enum PlanEvent {
    Collected(CollectedDiff),
    /// The branch that is checked out.
    Branch(Option<String>),
    /// The branch name that the backend recommends, where it does.
    Suggested(Option<String>),
    /// A branch was picked.
    Picked,
    /// What `git status --porcelain -uno` printed.
    Status(String),
    Analyzed(Result<(AnalyzeResponse, RateStatus), AnalyzeError>),
    /// The line that was typed.
    Line(String),
}

/// What to do next.
#[derive(Debug)]
pub enum PlanAction {
    /// Collect the diff.
    Collect,
    ReadBranch,
    /// Ask the backend for a branch name.
    SuggestBranch,
    /// Let the user pick a branch.
    PickBranch(String),
    ReadStatus,
    /// Ask the backend for an analysis.
    Analyze,
    Ask(String),
    /// Ask the user to approve the plan.
    Propose,
    /// Leave with success.
    Exit,
    /// Leave with an error.
    Fail(String),
}

/// A plan in the making, as texts.
pub struct PlanningView {
    pub flags: CommitFlags,
    pub phase: PlanPhase,
    pub diff: DiffView,
    pub starting_branch: Option<Seq<char>>,
    pub suggestion: Seq<char>,
    pub baseline: Seq<char>,
    pub attempts: int,
    pub plan_attempts: int,
    pub question: Seq<char>,
    pub groups: Seq<ChangeGroupView>,
    pub remaining: Option<u32>,
    pub plan: Seq<GroupView>,
    pub files: Seq<FileView>,
    pub error: Seq<char>,
}

/// The outcome of an analysis as texts: the groups and what is left of the
/// quota, or the error.
pub type OutcomeView = Result<(Seq<ChangeGroupView>, Option<u32>), AnalyzeErrorView>;

/// An event as texts.
pub enum PlanEventView {
    Collected(DiffView),
    Branch(Option<Seq<char>>),
    Suggested(Option<Seq<char>>),
    Picked,
    Status(Seq<char>),
    Analyzed(OutcomeView),
    Line(Seq<char>),
}

/// An action as texts.
pub enum PlanActionView {
    Collect,
    ReadBranch,
    SuggestBranch,
    PickBranch(Seq<char>),
    ReadStatus,
    Analyze,
    Ask(Seq<char>),
    Propose,
    Exit,
    Fail(Seq<char>),
}

impl View for Planning {
    type V = PlanningView;

    open spec fn view(&self) -> PlanningView {
        PlanningView {
            flags: self.flags,
            phase: self.phase,
            diff: self.diff@,
            starting_branch: text(self.starting_branch),
            suggestion: self.suggestion@,
            baseline: self.baseline@,
            attempts: self.attempts as int,
            plan_attempts: self.plan_attempts as int,
            question: self.question@,
            groups: change_group_views(self.groups@),
            remaining: self.rate.remaining,
            plan: group_views(self.plan@),
            files: file_views(self.files@),
            error: self.error@,
        }
    }
}

/// The outcome of an analysis as texts.
pub open spec fn outcome_view(
    outcome: Result<(AnalyzeResponse, RateStatus), AnalyzeError>,
) -> OutcomeView {
    match outcome {
        Ok(answer) => Ok((change_group_views(answer.0.groups@), answer.1.remaining)),
        Err(e) => Err(e@),
    }
}

impl View for PlanEvent {
    type V = PlanEventView;

    open spec fn view(&self) -> PlanEventView {
        match self {
            PlanEvent::Collected(diff) => PlanEventView::Collected(diff@),
            PlanEvent::Branch(name) => PlanEventView::Branch(text(*name)),
            PlanEvent::Suggested(name) => PlanEventView::Suggested(text(*name)),
            PlanEvent::Picked => PlanEventView::Picked,
            PlanEvent::Status(status) => PlanEventView::Status(status@),
            PlanEvent::Analyzed(outcome) => PlanEventView::Analyzed(outcome_view(*outcome)),
            PlanEvent::Line(line) => PlanEventView::Line(line@),
        }
    }
}

impl View for PlanAction {
    type V = PlanActionView;

    open spec fn view(&self) -> PlanActionView {
        match self {
            PlanAction::Collect => PlanActionView::Collect,
            PlanAction::ReadBranch => PlanActionView::ReadBranch,
            PlanAction::SuggestBranch => PlanActionView::SuggestBranch,
            PlanAction::PickBranch(suggestion) => PlanActionView::PickBranch(suggestion@),
            PlanAction::ReadStatus => PlanActionView::ReadStatus,
            PlanAction::Analyze => PlanActionView::Analyze,
            PlanAction::Ask(question) => PlanActionView::Ask(question@),
            PlanAction::Propose => PlanActionView::Propose,
            PlanAction::Exit => PlanActionView::Exit,
            PlanAction::Fail(why) => PlanActionView::Fail(why@),
        }
    }
}

// ── actions ─────────────────────────────────────────────────────────

/// The action that a state waits for.
pub open spec fn plan_action_of(v: PlanningView) -> PlanActionView {
    match v.phase {
        PlanPhase::Collect => PlanActionView::Collect,
        PlanPhase::Branch => PlanActionView::ReadBranch,
        PlanPhase::BranchName => PlanActionView::SuggestBranch,
        PlanPhase::Pick => PlanActionView::PickBranch(v.suggestion),
        PlanPhase::Recollect => PlanActionView::Collect,
        PlanPhase::Baseline => PlanActionView::ReadStatus,
        PlanPhase::Analyze => PlanActionView::Analyze,
        PlanPhase::Retry => PlanActionView::Ask(v.question),
        PlanPhase::CheckTree => PlanActionView::ReadStatus,
        PlanPhase::CheckOffline => PlanActionView::ReadStatus,
        PlanPhase::PlanRetry => PlanActionView::Ask(v.question),
        PlanPhase::Reanalyze => PlanActionView::Analyze,
        PlanPhase::Ready => PlanActionView::Propose,
        PlanPhase::Over => PlanActionView::Exit,
        PlanPhase::Failed => PlanActionView::Fail(v.error),
    }
}

// ── transitions ─────────────────────────────────────────────────────

/// A state and what is said on the way to it.
pub type Planned = (PlanningView, Seq<char>);

/// Go to a phase without a word.
pub open spec fn move_to(v: PlanningView, phase: PlanPhase) -> Planned {
    (PlanningView { phase, ..v }, Seq::empty())
}

/// Say something and go to a phase.
pub open spec fn say_and_move(v: PlanningView, said: Seq<char>, phase: PlanPhase) -> Planned {
    (PlanningView { phase, ..v }, said)
}

/// The run ends in an error.
pub open spec fn plan_failed(v: PlanningView, why: Seq<char>) -> Planned {
    (PlanningView { phase: PlanPhase::Failed, error: why, ..v }, Seq::empty())
}

/// Begin with the diff that was collected.
pub open spec fn begin_analysis(v: PlanningView) -> Planned {
    say_and_move(
        v,
        "Analyzing "@ + decimal_of(v.diff.files.len()) + " changed file(s) ("@ + (
        if v.diff.staged_used {
            "staged"@
        } else {
            "unstaged"@
        }) + ")…\n"@,
        PlanPhase::Baseline,
    )
}

/// The choices after a failure.
pub open spec fn retry_menu(message: Seq<char>) -> Seq<char> {
    message + "\n[r]etry · [o]ffline fallback · [c]ancel (r): "@
}

/// What is said of an offline plan that does not cover the diff.
pub open spec fn offline_refusal(fault: PlanErrorView) -> Seq<char> {
    "The offline plan doesn't match the actual diff:\n  "@ + refusal_text(fault)
        + "\n\nNothing was staged or committed."@
}

/// Make the plan from the diff alone, after `said`.
pub open spec fn go_offline(v: PlanningView, said: Seq<char>) -> Planned {
    let plan = offline_plan(v.diff.patch, v.diff.files);
    let files = parsed(v.diff.patch);
    match plan_fault(files, plan, whole_paths(plan)) {
        Some(fault) => (
            PlanningView { phase: PlanPhase::Failed, error: offline_refusal(fault), ..v },
            said,
        ),
        None => (
            PlanningView {
                phase: PlanPhase::Ready,
                groups: Seq::empty(),
                remaining: None,
                plan,
                files,
                ..v
            },
            said,
        ),
    }
}

/// What is said where no proposal was consistent.
pub open spec fn still_inconsistent(fault: PlanErrorView) -> Seq<char> {
    "\nnote: the suggested split was still inconsistent ("@ + refusal_text(fault)
        + "), so all changes\nwill be committed in a single commit instead of being refused.\nRe-run later (or use `commitor commit --offline`) for an AI split.\n"@
}

/// Use the proposal where it covers the diff exactly once, else ask for another
/// one, and after too many make the plan offline.
pub open spec fn use_proposal(v: PlanningView) -> Planned {
    let groups = groups_resolved(v.groups, v.diff.files);
    let plan = plan_of(groups);
    let files = parsed(v.diff.patch);
    let w = PlanningView { groups, ..v };
    match plan_fault(files, plan, v.diff.files) {
        None => (
            PlanningView { phase: PlanPhase::Ready, plan, files, ..w },
            Seq::empty(),
        ),
        Some(fault) => {
            let tried = PlanningView { plan_attempts: v.plan_attempts + 1, ..w };
            if tried.plan_attempts >= MAX_PLAN_ATTEMPTS {
                go_offline(tried, still_inconsistent(fault))
            } else {
                (
                    PlanningView {
                        phase: PlanPhase::PlanRetry,
                        question: retry_menu(
                            "The suggested split was inconsistent ("@ + refusal_text(fault)
                                + "). Retry for a fresh split?"@,
                        ),
                        ..tried
                    },
                    Seq::empty(),
                )
            }
        },
    }
}

/// Why the backend is unavailable, where it may be asked again.
pub open spec fn transient(error: AnalyzeErrorView) -> Option<Seq<char>> {
    match error {
        AnalyzeErrorView::RateLimited(reason) => Some(reason),
        AnalyzeErrorView::Unavailable(reason) => Some(reason),
        _ => None,
    }
}

/// What follows an analysis.
pub open spec fn after_analysis(v: PlanningView, outcome: OutcomeView) -> Planned {
    match outcome {
        Ok(answer) => move_to(
            PlanningView { groups: answer.0, remaining: answer.1, ..v },
            PlanPhase::CheckTree,
        ),
        Err(e) => match transient(e) {
            None => plan_failed(v, error_message(e)),
            Some(reason) => {
                let tried = PlanningView { attempts: v.attempts + 1, ..v };
                if tried.attempts >= MAX_AI_ATTEMPTS {
                    say_and_move(
                        tried,
                        "\nAI analysis still unavailable after "@ + decimal_of(
                            tried.attempts as nat,
                        ) + " tries — "@ + reason
                            + "\nFalling back to an offline plan; rerun later for an AI-crafted message.\n"@,
                        PlanPhase::CheckOffline,
                    )
                } else {
                    move_to(
                        PlanningView {
                            question: retry_menu("AI analysis unavailable — "@ + reason),
                            ..tried
                        },
                        PlanPhase::Retry,
                    )
                }
            },
        },
    }
}

/// What follows another analysis.
pub open spec fn after_reanalysis(v: PlanningView, outcome: OutcomeView) -> Planned {
    match outcome {
        Ok(answer) => use_proposal(
            PlanningView { groups: answer.0, remaining: answer.1, ..v },
        ),
        Err(e) => match transient(e) {
            None => plan_failed(v, error_message(e)),
            Some(reason) => go_offline(
                v,
                "AI unavailable ("@ + reason + ") — falling back to an offline plan.\n"@,
            ),
        },
    }
}

/// What is said where the user cancels.
pub open spec fn cancelled_text() -> Seq<char> {
    "Commit cancelled, nothing was changed.\n"@
}

/// What follows a line that answers none of the choices.
pub open spec fn ask_retry_again(v: PlanningView) -> Planned {
    (v, "Please answer r, o, or c (Enter = retry).\n"@)
}

/// What follows an event. An event that is not waited for changes nothing.
pub open spec fn next_plan(v: PlanningView, event: PlanEventView) -> Planned {
    match (v.phase, event) {
        (PlanPhase::Collect, PlanEventView::Collected(diff)) => {
            let w = PlanningView { diff, ..v };
            if diff.files.len() == 0 {
                say_and_move(
                    w,
                    "Nothing to commit — no staged, unstaged, or untracked changes.\n"@,
                    PlanPhase::Over,
                )
            } else {
                move_to(w, PlanPhase::Branch)
            }
        },
        (PlanPhase::Branch, PlanEventView::Branch(name)) => {
            let w = PlanningView { starting_branch: name, ..v };
            if !v.flags.branch {
                begin_analysis(w)
            } else if v.flags.offline {
                move_to(
                    PlanningView { suggestion: suggestion_of(v.diff.patch), ..w },
                    PlanPhase::Pick,
                )
            } else {
                move_to(w, PlanPhase::BranchName)
            }
        },
        (PlanPhase::BranchName, PlanEventView::Suggested(name)) => move_to(
            PlanningView { suggestion: proposed_branch(name, v.diff.patch), ..v },
            PlanPhase::Pick,
        ),
        (PlanPhase::Pick, PlanEventView::Picked) => move_to(v, PlanPhase::Recollect),
        (PlanPhase::Recollect, PlanEventView::Collected(diff)) => {
            let w = PlanningView { diff, ..v };
            if diff.files.len() == 0 {
                say_and_move(w, "Nothing to commit after switching branches.\n"@, PlanPhase::Over)
            } else {
                begin_analysis(w)
            }
        },
        (PlanPhase::Baseline, PlanEventView::Status(status)) => {
            let w = PlanningView { baseline: status, ..v };
            if v.flags.offline {
                say_and_move(
                    w,
                    "Offline mode — building a basic local plan (no AI).\n"@,
                    PlanPhase::CheckOffline,
                )
            } else {
                move_to(w, PlanPhase::Analyze)
            }
        },
        (PlanPhase::Analyze, PlanEventView::Analyzed(outcome)) => after_analysis(v, outcome),
        (PlanPhase::Retry, PlanEventView::Line(line)) => match retry_of(line) {
            None => ask_retry_again(v),
            Some(RetryDecision::Retry) => move_to(v, PlanPhase::Analyze),
            Some(RetryDecision::Offline) => say_and_move(
                v,
                "Falling back to an offline plan.\n"@,
                PlanPhase::CheckOffline,
            ),
            Some(RetryDecision::Cancel) => say_and_move(v, cancelled_text(), PlanPhase::Over),
        },
        (PlanPhase::CheckTree, PlanEventView::Status(status)) => if status != v.baseline {
            plan_failed(v, stale_text())
        } else {
            use_proposal(v)
        },
        (PlanPhase::CheckOffline, PlanEventView::Status(status)) => if status != v.baseline {
            plan_failed(v, stale_text())
        } else {
            go_offline(v, Seq::empty())
        },
        (PlanPhase::PlanRetry, PlanEventView::Line(line)) => match retry_of(line) {
            None => ask_retry_again(v),
            Some(RetryDecision::Retry) => say_and_move(
                v,
                "Re-requesting an analysis…\n"@,
                PlanPhase::Reanalyze,
            ),
            Some(RetryDecision::Offline) => go_offline(v, Seq::empty()),
            Some(RetryDecision::Cancel) => say_and_move(v, cancelled_text(), PlanPhase::Over),
        },
        (PlanPhase::Reanalyze, PlanEventView::Analyzed(outcome)) => after_reanalysis(v, outcome),
        _ => (v, Seq::empty()),
    }
}

/// The attempts are within their limits.
pub open spec fn planning_wf(v: PlanningView) -> bool {
    &&& 0 <= v.attempts <= MAX_AI_ATTEMPTS
    &&& 0 <= v.plan_attempts <= MAX_PLAN_ATTEMPTS
    &&& (v.phase == PlanPhase::Analyze || v.phase == PlanPhase::Retry) ==> v.attempts
        < MAX_AI_ATTEMPTS
    &&& (v.phase == PlanPhase::PlanRetry || v.phase == PlanPhase::Reanalyze || v.phase
        == PlanPhase::CheckTree) ==> v.plan_attempts < MAX_PLAN_ATTEMPTS
    &&& (v.phase == PlanPhase::Collect || v.phase == PlanPhase::Branch || v.phase
        == PlanPhase::BranchName || v.phase == PlanPhase::Pick || v.phase == PlanPhase::Recollect
        || v.phase == PlanPhase::Baseline) ==> v.attempts == 0
    &&& v.phase != PlanPhase::PlanRetry && v.phase != PlanPhase::Reanalyze && v.phase
        != PlanPhase::Ready && v.phase != PlanPhase::Over && v.phase != PlanPhase::Failed
        ==> v.plan_attempts == 0
}

// ── the machine ─────────────────────────────────────────────────────

fn silence() -> (r: String)
    ensures
        r@ == Seq::<char>::empty(),
{
    let r = String::new();
    assert(r@ =~= Seq::empty());
    r
}

fn write_retry_menu(message: String) -> (r: String)
    ensures
        r@ == retry_menu(message@),
{
    let mut out = message;
    out.append("\n[r]etry · [o]ffline fallback · [c]ancel (r): ");
    out
}

/// A plan of which nothing is known yet.
pub open spec fn unplanned(flags: CommitFlags) -> PlanningView {
    PlanningView {
        flags,
        phase: PlanPhase::Collect,
        diff: DiffView {
            staged_used: false,
            files: Seq::empty(),
            patch: Seq::empty(),
            untracked: Seq::empty(),
        },
        starting_branch: None,
        suggestion: Seq::empty(),
        baseline: Seq::empty(),
        attempts: 0,
        plan_attempts: 0,
        question: Seq::empty(),
        groups: Seq::empty(),
        remaining: None,
        plan: Seq::empty(),
        files: Seq::empty(),
        error: Seq::empty(),
    }
}

/// Begin to make a plan.
pub fn start_planning(flags: CommitFlags) -> (r: Planning)
    ensures
        r@ == unplanned(flags),
        planning_wf(r@),
{
    let r = Planning {
        flags,
        phase: PlanPhase::Collect,
        diff: CollectedDiff {
            staged_used: false,
            files: Vec::new(),
            patch: String::new(),
            untracked: Vec::new(),
        },
        starting_branch: None,
        suggestion: String::new(),
        baseline: String::new(),
        attempts: 0,
        plan_attempts: 0,
        question: String::new(),
        groups: Vec::new(),
        rate: RateStatus { remaining: None },
        plan: Vec::new(),
        files: Vec::new(),
        error: String::new(),
    };
    assert(texts(r.diff.files@) =~= Seq::empty());
    assert(texts(r.diff.untracked@) =~= Seq::empty());
    assert(r.diff.patch@ =~= Seq::empty());
    assert(r.suggestion@ =~= Seq::empty());
    assert(r.baseline@ =~= Seq::empty());
    assert(r.question@ =~= Seq::empty());
    assert(change_group_views(r.groups@) =~= Seq::empty());
    assert(group_views(r.plan@) =~= Seq::empty());
    assert(file_views(r.files@) =~= Seq::empty());
    assert(r.error@ =~= Seq::empty());
    r
}

impl Planning {
    /// The action that is waited for.
    pub fn action(&self) -> (r: PlanAction)
        ensures
            r@ == plan_action_of(self@),
    {
        match self.phase {
            PlanPhase::Collect => PlanAction::Collect,
            PlanPhase::Branch => PlanAction::ReadBranch,
            PlanPhase::BranchName => PlanAction::SuggestBranch,
            PlanPhase::Pick => PlanAction::PickBranch(self.suggestion.clone()),
            PlanPhase::Recollect => PlanAction::Collect,
            PlanPhase::Baseline => PlanAction::ReadStatus,
            PlanPhase::Analyze => PlanAction::Analyze,
            PlanPhase::Retry => PlanAction::Ask(self.question.clone()),
            PlanPhase::CheckTree => PlanAction::ReadStatus,
            PlanPhase::CheckOffline => PlanAction::ReadStatus,
            PlanPhase::PlanRetry => PlanAction::Ask(self.question.clone()),
            PlanPhase::Reanalyze => PlanAction::Analyze,
            PlanPhase::Ready => PlanAction::Propose,
            PlanPhase::Over => PlanAction::Exit,
            PlanPhase::Failed => PlanAction::Fail(self.error.clone()),
        }
    }

    fn go_to(&mut self, phase: PlanPhase) -> (r: String)
        ensures
            (final(self)@, r@) == move_to(old(self)@, phase),
    {
        self.phase = phase;
        silence()
    }

    fn say(&mut self, said: String, phase: PlanPhase) -> (r: String)
        ensures
            (final(self)@, r@) == say_and_move(old(self)@, said@, phase),
    {
        self.phase = phase;
        said
    }

    fn fail(&mut self, why: String) -> (r: String)
        ensures
            (final(self)@, r@) == plan_failed(old(self)@, why@),
    {
        self.phase = PlanPhase::Failed;
        self.error = why;
        silence()
    }

    fn begin(&mut self) -> (r: String)
        ensures
            (final(self)@, r@) == begin_analysis(old(self)@),
    {
        assert(self@.diff.files.len() == self.diff.files@.len());
        let mut out = "Analyzing ".to_owned();
        out.append(count(self.diff.files.len()).as_str());
        out.append(" changed file(s) (");
        if self.diff.staged_used {
            out.append("staged");
        } else {
            out.append("unstaged");
        }
        out.append(")…\n");
        self.phase = PlanPhase::Baseline;
        out
    }

    /// Make the plan from the diff alone, after `said`.
    fn commit_offline(&mut self, said: String) -> (r: String)
        ensures
            (final(self)@, r@) == go_offline(old(self)@, said@),
    {
        let plan = offline_groups(&self.diff);
        let files = parse(self.diff.patch.as_str());
        let expected = plan_files(plan.as_slice());
        match validate(files.as_slice(), plan.as_slice(), expected.as_slice()) {
            Err(fault) => {
                let mut why = "The offline plan doesn't match the actual diff:\n  ".to_owned();
                why.append(fault.describe().as_str());
                why.append("\n\nNothing was staged or committed.");
                self.phase = PlanPhase::Failed;
                self.error = why;
                said
            },
            Ok(_) => {
                self.phase = PlanPhase::Ready;
                self.groups = Vec::new();
                assert(change_group_views(self.groups@) =~= Seq::empty());
                self.rate = RateStatus { remaining: None };
                self.plan = plan;
                self.files = files;
                said
            },
        }
    }

    fn try_proposal(&mut self) -> (r: String)
        requires
            old(self).plan_attempts < MAX_PLAN_ATTEMPTS,
        ensures
            (final(self)@, r@) == use_proposal(old(self)@),
    {
        normalize_group_paths(&mut self.groups, self.diff.files.as_slice());
        let plan = build_plan(self.groups.as_slice());
        let files = parse(self.diff.patch.as_str());
        match validate(files.as_slice(), plan.as_slice(), self.diff.files.as_slice()) {
            Ok(_) => {
                self.plan = plan;
                self.files = files;
                self.phase = PlanPhase::Ready;
                silence()
            },
            Err(fault) => {
                self.plan_attempts = self.plan_attempts + 1;
                let described = fault.describe();
                if self.plan_attempts >= MAX_PLAN_ATTEMPTS {
                    let mut said = "\nnote: the suggested split was still inconsistent (".to_owned();
                    said.append(described.as_str());
                    said.append(
                        "), so all changes\nwill be committed in a single commit instead of being refused.\nRe-run later (or use `commitor commit --offline`) for an AI split.\n",
                    );
                    self.commit_offline(said)
                } else {
                    let mut message = "The suggested split was inconsistent (".to_owned();
                    message.append(described.as_str());
                    message.append("). Retry for a fresh split?");
                    self.question = write_retry_menu(message);
                    self.phase = PlanPhase::PlanRetry;
                    silence()
                }
            },
        }
    }

    fn unavailable(&mut self, reason: String) -> (r: String)
        requires
            old(self).attempts < MAX_AI_ATTEMPTS,
        ensures
            forall|e: AnalyzeErrorView|
                transient(e) == Some(reason@) ==> (final(self)@, r@) == #[trigger] after_analysis(
                    old(self)@,
                    Err(e),
                ),
    {
        self.attempts = self.attempts + 1;
        if self.attempts >= MAX_AI_ATTEMPTS {
            let mut said = "\nAI analysis still unavailable after ".to_owned();
            said.append(count(self.attempts).as_str());
            said.append(" tries — ");
            said.append(reason.as_str());
            said.append(
                "\nFalling back to an offline plan; rerun later for an AI-crafted message.\n",
            );
            self.say(said, PlanPhase::CheckOffline)
        } else {
            let mut message = "AI analysis unavailable — ".to_owned();
            message.append(reason.as_str());
            self.question = write_retry_menu(message);
            self.go_to(PlanPhase::Retry)
        }
    }

    fn take_analysis(
        &mut self,
        outcome: Result<(AnalyzeResponse, RateStatus), AnalyzeError>,
    ) -> (r: String)
        requires
            old(self).attempts < MAX_AI_ATTEMPTS,
        ensures
            (final(self)@, r@) == after_analysis(old(self)@, outcome_view(outcome)),
    {
        match outcome {
            Ok(answer) => {
                self.groups = answer.0.groups;
                self.rate = answer.1;
                self.go_to(PlanPhase::CheckTree)
            },
            Err(e) => match e {
                AnalyzeError::RateLimited(reason) => self.unavailable(reason),
                AnalyzeError::Unavailable(reason) => self.unavailable(reason),
                AnalyzeError::InvalidKey(why) => self.fail(why),
                AnalyzeError::Other(why) => self.fail(why),
            },
        }
    }

    fn fall_back(&mut self, reason: String) -> (r: String)
        ensures
            (final(self)@, r@) == go_offline(
                old(self)@,
                "AI unavailable ("@ + reason@ + ") — falling back to an offline plan.\n"@,
            ),
    {
        let mut said = "AI unavailable (".to_owned();
        said.append(reason.as_str());
        said.append(") — falling back to an offline plan.\n");
        self.commit_offline(said)
    }

    fn take_reanalysis(
        &mut self,
        outcome: Result<(AnalyzeResponse, RateStatus), AnalyzeError>,
    ) -> (r: String)
        requires
            old(self).plan_attempts < MAX_PLAN_ATTEMPTS,
        ensures
            (final(self)@, r@) == after_reanalysis(old(self)@, outcome_view(outcome)),
    {
        match outcome {
            Ok(answer) => {
                self.groups = answer.0.groups;
                self.rate = answer.1;
                self.try_proposal()
            },
            Err(e) => match e {
                AnalyzeError::RateLimited(reason) => self.fall_back(reason),
                AnalyzeError::Unavailable(reason) => self.fall_back(reason),
                AnalyzeError::InvalidKey(why) => self.fail(why),
                AnalyzeError::Other(why) => self.fail(why),
            },
        }
    }

    fn take_diff(&mut self, diff: CollectedDiff, again: bool) -> (r: String)
        requires
            old(self).phase == if again {
                PlanPhase::Recollect
            } else {
                PlanPhase::Collect
            },
        ensures
            (final(self)@, r@) == next_plan(old(self)@, PlanEventView::Collected(diff@)),
    {
        assert(diff@.files.len() == diff.files@.len());
        let empty = diff.files.len() == 0;
        self.diff = diff;
        if again {
            if empty {
                self.say(
                    "Nothing to commit after switching branches.\n".to_owned(),
                    PlanPhase::Over,
                )
            } else {
                self.begin()
            }
        } else if empty {
            self.say(
                "Nothing to commit — no staged, unstaged, or untracked changes.\n".to_owned(),
                PlanPhase::Over,
            )
        } else {
            self.go_to(PlanPhase::Branch)
        }
    }

    fn take_branch(&mut self, name: Option<String>) -> (r: String)
        requires
            old(self).phase == PlanPhase::Branch,
        ensures
            (final(self)@, r@) == next_plan(old(self)@, PlanEventView::Branch(text(name))),
    {
        self.starting_branch = name;
        if !self.flags.branch {
            self.begin()
        } else if self.flags.offline {
            self.suggestion = suggest_branch_name(&self.diff);
            self.go_to(PlanPhase::Pick)
        } else {
            self.go_to(PlanPhase::BranchName)
        }
    }

    fn take_suggestion(&mut self, name: Option<String>) -> (r: String)
        requires
            old(self).phase == PlanPhase::BranchName,
        ensures
            (final(self)@, r@) == next_plan(old(self)@, PlanEventView::Suggested(text(name))),
    {
        self.suggestion = match &name {
            Some(n) => propose_branch(Some(n.as_str()), &self.diff),
            None => propose_branch(None, &self.diff),
        };
        self.go_to(PlanPhase::Pick)
    }

    fn take_status(&mut self, status: String) -> (r: String)
        requires
            planning_wf(old(self)@),
        ensures
            (final(self)@, r@) == next_plan(old(self)@, PlanEventView::Status(status@)),
    {
        match self.phase {
            PlanPhase::Baseline => {
                self.baseline = status;
                if self.flags.offline {
                    self.say(
                        "Offline mode — building a basic local plan (no AI).\n".to_owned(),
                        PlanPhase::CheckOffline,
                    )
                } else {
                    self.go_to(PlanPhase::Analyze)
                }
            },
            PlanPhase::CheckTree => match ensure_tree_unchanged(
                self.baseline.as_str(),
                status.as_str(),
            ) {
                Err(why) => self.fail(why),
                Ok(_) => self.try_proposal(),
            },
            PlanPhase::CheckOffline => match ensure_tree_unchanged(
                self.baseline.as_str(),
                status.as_str(),
            ) {
                Err(why) => self.fail(why),
                Ok(_) => self.commit_offline(silence()),
            },
            _ => silence(),
        }
    }

    fn take_line(&mut self, line: String) -> (r: String)
        ensures
            (final(self)@, r@) == next_plan(old(self)@, PlanEventView::Line(line@)),
    {
        match self.phase {
            PlanPhase::Retry => match prompt_retry(line.as_str()) {
                None => "Please answer r, o, or c (Enter = retry).\n".to_owned(),
                Some(RetryDecision::Retry) => self.go_to(PlanPhase::Analyze),
                Some(RetryDecision::Offline) => self.say(
                    "Falling back to an offline plan.\n".to_owned(),
                    PlanPhase::CheckOffline,
                ),
                Some(RetryDecision::Cancel) => self.say(
                    "Commit cancelled, nothing was changed.\n".to_owned(),
                    PlanPhase::Over,
                ),
            },
            PlanPhase::PlanRetry => match prompt_retry(line.as_str()) {
                None => "Please answer r, o, or c (Enter = retry).\n".to_owned(),
                Some(RetryDecision::Retry) => self.say(
                    "Re-requesting an analysis…\n".to_owned(),
                    PlanPhase::Reanalyze,
                ),
                Some(RetryDecision::Offline) => self.commit_offline(silence()),
                Some(RetryDecision::Cancel) => self.say(
                    "Commit cancelled, nothing was changed.\n".to_owned(),
                    PlanPhase::Over,
                ),
            },
            _ => silence(),
        }
    }

    /// Take note of what came of the last action, and return what to print.
    /// An event that is not waited for changes nothing.
    pub fn handle(&mut self, event: PlanEvent) -> (r: String)
        requires
            planning_wf(old(self)@),
        ensures
            (final(self)@, r@) == next_plan(old(self)@, event@),
            planning_wf(final(self)@),
    {
        match event {
            PlanEvent::Collected(diff) => match self.phase {
                PlanPhase::Collect => self.take_diff(diff, false),
                PlanPhase::Recollect => self.take_diff(diff, true),
                _ => silence(),
            },
            PlanEvent::Branch(name) => match self.phase {
                PlanPhase::Branch => self.take_branch(name),
                _ => silence(),
            },
            PlanEvent::Suggested(name) => match self.phase {
                PlanPhase::BranchName => self.take_suggestion(name),
                _ => silence(),
            },
            PlanEvent::Picked => match self.phase {
                PlanPhase::Pick => self.go_to(PlanPhase::Recollect),
                _ => silence(),
            },
            PlanEvent::Status(status) => self.take_status(status),
            PlanEvent::Analyzed(outcome) => match self.phase {
                PlanPhase::Analyze => self.take_analysis(outcome),
                PlanPhase::Reanalyze => self.take_reanalysis(outcome),
                _ => silence(),
            },
            PlanEvent::Line(line) => self.take_line(line),
        }
    }
}

// ── laws ────────────────────────────────────────────────────────────

/// The plan takes every file of the collected diff whole, or every hunk of it,
/// and nothing twice.
pub open spec fn covers_diff(v: PlanningView) -> bool {
    &&& v.files == parsed(v.diff.patch)
    &&& partitions(v.files, v.plan, Seq::empty())
}

/// A plan that is proposed to the user covers the diff exactly once: one that
/// loses or doubles a change is refused.
pub proof fn lemma_only_covering_plans_are_proposed(v: PlanningView, event: PlanEventView)
    requires
        v.phase == PlanPhase::Ready ==> covers_diff(v),
        next_plan(v, event).0.phase == PlanPhase::Ready,
    ensures
        covers_diff(next_plan(v, event).0),
{
    let next = next_plan(v, event).0;
    lemma_accepted_iff_partition(next.files, next.plan, next.diff.files);
    lemma_accepted_iff_partition(next.files, next.plan, whole_paths(next.plan));
}

/// A plan that the backend proposed holds every changed path, also one of which
/// the diff has no record.
pub proof fn lemma_proposals_hold_every_changed_path(v: PlanningView)
    requires
        use_proposal(v).0.phase == PlanPhase::Ready,
        use_proposal(v).0.groups.len() > 0,
    ensures
        partitions(parsed(v.diff.patch), use_proposal(v).0.plan, v.diff.files),
{
    let next = use_proposal(v).0;
    lemma_accepted_iff_partition(next.files, next.plan, v.diff.files);
}

/// How many analyses may still be asked for.
pub open spec fn analyses_left(v: PlanningView) -> int {
    match v.phase {
        PlanPhase::Ready => 0,
        PlanPhase::Over => 0,
        PlanPhase::Failed => 0,
        PlanPhase::CheckOffline => 0,
        PlanPhase::CheckTree => MAX_PLAN_ATTEMPTS - 1,
        PlanPhase::PlanRetry => MAX_PLAN_ATTEMPTS - v.plan_attempts,
        PlanPhase::Reanalyze => MAX_PLAN_ATTEMPTS - v.plan_attempts,
        _ => MAX_AI_ATTEMPTS - v.attempts + MAX_PLAN_ATTEMPTS - 1,
    }
}

/// The backend is asked for an analysis at most six times: each analysis uses
/// up one of those that are left, and nothing gives one back.
pub proof fn lemma_analyses_are_bounded(v: PlanningView, event: PlanEventView)
    requires
        planning_wf(v),
    ensures
        0 <= analyses_left(v) <= MAX_AI_ATTEMPTS + MAX_PLAN_ATTEMPTS - 1,
        analyses_left(next_plan(v, event).0) <= analyses_left(v),
        plan_action_of(v) == PlanActionView::Analyze ==> analyses_left(v) > 0,
        plan_action_of(v) == PlanActionView::Analyze && event is Analyzed ==> analyses_left(
            next_plan(v, event).0,
        ) < analyses_left(v),
{
}

/// A plan is never made for a tree that changed since the diff was collected.
pub proof fn lemma_stale_plans_are_refused(v: PlanningView, status: Seq<char>)
    requires
        v.phase == PlanPhase::CheckTree || v.phase == PlanPhase::CheckOffline,
        status != v.baseline,
    ensures
        plan_action_of(next_plan(v, PlanEventView::Status(status)).0) == PlanActionView::Fail(
            stale_text(),
        ),
{
}

/// Offline, the backend is never asked.
pub proof fn lemma_offline_never_asks_the_backend(v: PlanningView, event: PlanEventView)
    requires
        v.flags.offline,
        !asks_backend(v.phase),
    ensures
        !asks_backend(next_plan(v, event).0.phase),
        next_plan(v, event).0.flags == v.flags,
{
}

/// The phases that ask the backend or follow from its answer.
pub open spec fn asks_backend(phase: PlanPhase) -> bool {
    phase == PlanPhase::BranchName || phase == PlanPhase::Analyze || phase == PlanPhase::Retry
        || phase == PlanPhase::CheckTree || phase == PlanPhase::PlanRetry || phase
        == PlanPhase::Reanalyze
}

} // verus!
