//! The whole run of `commitor commit`: a plan is made, approved and carried
//! out, in this order.

use vstd::prelude::*;

use crate::analysis::reply::{quota_hint, RateStatus};
use crate::commit::CommitFlags;
use crate::commit::answers::{choice_of, Choice};
use crate::commit::approval::{
    approval_action_of, commit_single, commit_split, lemma_answers_change_only_messages,
    lemma_hunks_are_no_more_than_characters, lemma_messages_do_not_matter, next_approval,
    single_refusal, single_text, split_text, Approval, ApprovalAction, ApprovalActionView,
    ApprovalEvent, ApprovalEventView, ApprovalStage, ApprovalView,
};
use crate::commit::execution::{
    action_of, after_event, exec_wf, execute_commits, nothing, ExecAction, ExecActionView,
    ExecEvent, ExecEventView, ExecStage, ExecView, Execution, Said, SaidView,
};
use crate::commit::planning::{
    next_plan, plan_action_of, planning_wf, start_planning, unplanned, PlanAction, PlanActionView,
    PlanEvent, PlanEventView, PlanPhase, Planning, PlanningView,
};
use crate::engine::coverage::{lemma_accepted_iff_partition, partitions};
use crate::engine::hunks::{file_views, parsed, FileDiff, FileView};
use crate::engine::plan::GroupView;
use crate::heuristics::{evaluate, verdict_of, Verdict, VerdictView};
use crate::text::{chars_of, text};

verus! {

/// What an approved plan needs to be carried out.
#[derive(Debug)]
pub struct Context {
    pub files: Vec<FileDiff>,
    pub staged_used: bool,
    pub baseline: String,
    /// The branch that the new branch was made from, where one was made.
    pub base_branch: Option<String>,
    pub rate: RateStatus,
}

/// A context as texts.
pub struct ContextView {
    pub files: Seq<FileView>,
    pub staged_used: bool,
    pub baseline: Seq<char>,
    pub base_branch: Option<Seq<char>>,
    pub remaining: Option<u32>,
}

impl View for Context {
    type V = ContextView;

    open spec fn view(&self) -> ContextView {
        ContextView {
            files: file_views(self.files@),
            staged_used: self.staged_used,
            baseline: self.baseline@,
            base_branch: text(self.base_branch),
            remaining: self.rate.remaining,
        }
    }
}

/// Where a run stands.
#[derive(Debug)]
pub enum CommitRun {
    /// A plan is made.
    Planning(Planning),
    /// A plan waits for approval.
    Approving(Approval, Context),
    /// An approved plan is carried out. The branch is the one that the new
    /// branch was made from.
    Executing(Execution, Option<String>, RateStatus),
    /// The run is over, with success or without.
    Ended(bool),
    /// The run ended in an error.
    Failed(String),
}

/// Where a run stands, as texts.
pub enum CommitRunView {
    Planning(PlanningView),
    Approving(ApprovalView, ContextView),
    Executing(ExecView, Option<Seq<char>>, Option<u32>),
    Ended(bool),
    Failed(Seq<char>),
}

impl View for CommitRun {
    type V = CommitRunView;

    open spec fn view(&self) -> CommitRunView {
        match self {
            CommitRun::Planning(p) => CommitRunView::Planning(p@),
            CommitRun::Approving(a, c) => CommitRunView::Approving(a@, c@),
            CommitRun::Executing(e, b, rate) => CommitRunView::Executing(
                e@,
                text(*b),
                rate.remaining,
            ),
            CommitRun::Ended(success) => CommitRunView::Ended(*success),
            CommitRun::Failed(why) => CommitRunView::Failed(why@),
        }
    }
}

/// What came of the last action.
#[derive(Debug)]
pub enum CommitEvent {
    Plan(PlanEvent),
    Approval(ApprovalEvent),
    Exec(ExecEvent),
}

/// What came of the last action, as texts.
pub enum CommitEventView {
    Plan(PlanEventView),
    Approval(ApprovalEventView),
    Exec(ExecEventView),
}

impl View for CommitEvent {
    type V = CommitEventView;

    open spec fn view(&self) -> CommitEventView {
        match self {
            CommitEvent::Plan(e) => CommitEventView::Plan(e@),
            CommitEvent::Approval(e) => CommitEventView::Approval(e@),
            CommitEvent::Exec(e) => CommitEventView::Exec(e@),
        }
    }
}

/// What to do next.
#[derive(Debug)]
pub enum CommitAction {
    Plan(PlanAction),
    Approval(ApprovalAction),
    Exec(ExecAction),
    /// Leave, with success or without.
    Exit(bool),
    /// Leave with an error.
    Fail(String),
}

/// What to do next, as texts.
pub enum CommitActionView {
    Plan(PlanActionView),
    Approval(ApprovalActionView),
    Exec(ExecActionView),
    Exit(bool),
    Fail(Seq<char>),
}

impl View for CommitAction {
    type V = CommitActionView;

    open spec fn view(&self) -> CommitActionView {
        match self {
            CommitAction::Plan(a) => CommitActionView::Plan(a@),
            CommitAction::Approval(a) => CommitActionView::Approval(a@),
            CommitAction::Exec(a) => CommitActionView::Exec(a@),
            CommitAction::Exit(success) => CommitActionView::Exit(*success),
            CommitAction::Fail(why) => CommitActionView::Fail(why@),
        }
    }
}

/// The action that a run waits for.
pub open spec fn run_action_of(v: CommitRunView) -> CommitActionView {
    match v {
        CommitRunView::Planning(p) => CommitActionView::Plan(plan_action_of(p)),
        CommitRunView::Approving(a, _) => CommitActionView::Approval(approval_action_of(a)),
        CommitRunView::Executing(e, _, _) => CommitActionView::Exec(action_of(e)),
        CommitRunView::Ended(success) => CommitActionView::Exit(success),
        CommitRunView::Failed(why) => CommitActionView::Fail(why),
    }
}

// ── transitions ─────────────────────────────────────────────────────

/// Something is printed, and nothing as an error.
pub open spec fn printed(out: Seq<char>) -> SaidView {
    SaidView { out, err: Seq::empty() }
}

/// The local hint on a mixed changeset, for a plan of the backend.
pub open spec fn local_hint(files: Seq<Seq<char>>) -> Option<Seq<char>> {
    match verdict_of(files) {
        VerdictView::Inconclusive { reason } => Some(reason),
        VerdictView::Clean { .. } => None,
    }
}

/// The hint that is shown with a plan: none with an offline plan.
pub open spec fn shown_hint(p: PlanningView) -> Option<Seq<char>> {
    if p.groups.len() > 0 {
        local_hint(p.diff.files)
    } else {
        None
    }
}

/// The branch to record as the one that a new branch was made from.
pub open spec fn base_branch_of(p: PlanningView) -> Option<Seq<char>> {
    if p.flags.branch {
        p.starting_branch
    } else {
        None
    }
}

/// What an approved plan needs.
pub open spec fn context_of(p: PlanningView) -> ContextView {
    ContextView {
        files: p.files,
        staged_used: p.diff.staged_used,
        baseline: p.baseline,
        base_branch: base_branch_of(p),
        remaining: p.remaining,
    }
}

/// Propose the plan, after `said`.
pub open spec fn proposed(p: PlanningView, said: Seq<char>) -> (CommitRunView, SaidView) {
    let single = p.plan.len() <= 1;
    let approval = ApprovalView { plan: p.plan, single, stage: ApprovalStage::Choosing };
    if single {
        match single_refusal(p.plan) {
            Some(why) => (CommitRunView::Failed(why), printed(said)),
            None => (
                CommitRunView::Approving(approval, context_of(p)),
                printed(said + single_text(p.plan)),
            ),
        }
    } else {
        (
            CommitRunView::Approving(approval, context_of(p)),
            printed(said + split_text(p.plan, p.groups, shown_hint(p), p.files)),
        )
    }
}

/// What follows an event while a plan is made.
pub open spec fn after_planning(p: PlanningView, event: PlanEventView) -> (CommitRunView, SaidView) {
    let (next, said) = next_plan(p, event);
    match next.phase {
        PlanPhase::Ready => proposed(next, said),
        PlanPhase::Over => (CommitRunView::Ended(true), printed(said)),
        PlanPhase::Failed => (CommitRunView::Failed(next.error), printed(said)),
        _ => (CommitRunView::Planning(next), printed(said)),
    }
}

/// A plan that begins to be carried out.
pub open spec fn begun(plan: Seq<GroupView>, c: ContextView) -> ExecView {
    ExecView {
        plan,
        files: c.files,
        staged_used: c.staged_used,
        baseline: c.baseline,
        stage: ExecStage::CheckTree,
        index: 0,
        committed: Seq::empty(),
        recorded: Seq::empty(),
        error: Seq::empty(),
    }
}

/// What follows an event while a plan waits for approval.
pub open spec fn after_approval(a: ApprovalView, c: ContextView, event: ApprovalEventView) -> (
    CommitRunView,
    SaidView,
) {
    let (next, step) = next_approval(a, event);
    let run = match step.action {
        ApprovalActionView::Execute => CommitRunView::Executing(
            begun(next.plan, c),
            c.base_branch,
            c.remaining,
        ),
        ApprovalActionView::Cancel => CommitRunView::Ended(true),
        _ => CommitRunView::Approving(next, c),
    };
    (run, printed(step.say))
}

/// What is printed as an error after a run with success.
pub open spec fn closing_hint(remaining: Option<u32>) -> Seq<char> {
    match quota_hint(remaining) {
        Some(hint) => "\n"@ + hint + "\n"@,
        None => Seq::empty(),
    }
}

/// What follows an event while a plan is carried out.
pub open spec fn after_execution(
    e: ExecView,
    base_branch: Option<Seq<char>>,
    remaining: Option<u32>,
    event: ExecEventView,
) -> (CommitRunView, SaidView) {
    let (next, said) = after_event(e, event);
    match next.stage {
        ExecStage::Done => (
            CommitRunView::Ended(true),
            SaidView { out: said.out, err: said.err + closing_hint(remaining) },
        ),
        ExecStage::Stopped => (CommitRunView::Ended(false), said),
        ExecStage::Failed => (CommitRunView::Failed(next.error), said),
        _ => (CommitRunView::Executing(next, base_branch, remaining), said),
    }
}

/// What follows an event. An event that is not waited for changes nothing.
pub open spec fn next_run(v: CommitRunView, event: CommitEventView) -> (CommitRunView, SaidView) {
    match (v, event) {
        (CommitRunView::Planning(p), CommitEventView::Plan(e)) => after_planning(p, e),
        (CommitRunView::Approving(a, c), CommitEventView::Approval(e)) => after_approval(a, c, e),
        (CommitRunView::Executing(x, b, r), CommitEventView::Exec(e)) => after_execution(
            x,
            b,
            r,
            e,
        ),
        _ => (v, nothing()),
    }
}

/// The run is at no impossible place.
pub open spec fn run_wf(v: CommitRunView) -> bool {
    match v {
        CommitRunView::Planning(p) => planning_wf(p) && p.phase != PlanPhase::Ready && p.phase
            != PlanPhase::Over && p.phase != PlanPhase::Failed,
        CommitRunView::Approving(_, _) => true,
        CommitRunView::Executing(e, _, _) => exec_wf(e),
        _ => true,
    }
}

// ── the machine ─────────────────────────────────────────────────────

fn said(out: String) -> (r: Said)
    ensures
        r@ == printed(out@),
{
    let err = String::new();
    assert(err@ =~= Seq::empty());
    Said { out, err }
}

fn silent() -> (r: Said)
    ensures
        r@ == nothing(),
{
    let out = String::new();
    let err = String::new();
    assert(out@ =~= Seq::empty());
    assert(err@ =~= Seq::empty());
    Said { out, err }
}

/// Begin a run.
pub fn run(flags: CommitFlags) -> (r: CommitRun)
    ensures
        r@ == CommitRunView::Planning(unplanned(flags)),
        run_wf(r@),
{
    CommitRun::Planning(start_planning(flags))
}

fn propose(p: Planning, before: String) -> (r: (CommitRun, Said))
    requires
        p@.files == parsed(p@.diff.patch),
    ensures
        (r.0@, r.1@) == proposed(p@, before@),
{
    let ghost v = p@;
    proof {
        lemma_hunks_are_no_more_than_characters(v.diff.patch);
    }
    let length = chars_of(p.diff.patch.as_str()).len();
    assert(v.diff.patch.len() == length);
    assert(v.plan.len() == p.plan@.len());
    assert(v.groups.len() == p.groups@.len());
    let single = p.plan.len() <= 1;
    let hint: Option<String> = if p.groups.len() > 0 {
        match evaluate(p.diff.files.as_slice()) {
            Verdict::Inconclusive { reason } => Some(reason),
            Verdict::Clean { summary: _ } => None,
        }
    } else {
        None
    };
    assert(text(hint) == shown_hint(v));
    let base_branch = if p.flags.branch {
        p.starting_branch
    } else {
        None
    };
    let mut out = before;
    if single {
        match commit_single(p.plan) {
            Err(why) => (CommitRun::Failed(why), said(out)),
            Ok((approval, step)) => {
                out.append(step.say.as_str());
                let context = Context {
                    files: p.files,
                    staged_used: p.diff.staged_used,
                    baseline: p.baseline,
                    base_branch,
                    rate: p.rate,
                };
                (CommitRun::Approving(approval, context), said(out))
            },
        }
    } else {
        let shown: Option<&str> = match &hint {
            Some(h) => Some(h.as_str()),
            None => None,
        };
        let (approval, step) = commit_split(
            p.plan,
            p.groups.as_slice(),
            shown,
            p.files.as_slice(),
        );
        out.append(step.say.as_str());
        let context = Context {
            files: p.files,
            staged_used: p.diff.staged_used,
            baseline: p.baseline,
            base_branch,
            rate: p.rate,
        };
        (CommitRun::Approving(approval, context), said(out))
    }
}

fn plan_further(p: Planning, event: PlanEvent) -> (r: (CommitRun, Said))
    requires
        run_wf(CommitRunView::Planning(p@)),
    ensures
        (r.0@, r.1@) == after_planning(p@, event@),
        run_wf(r.0@),
{
    let mut p = p;
    let out = p.handle(event);
    match p.phase {
        PlanPhase::Ready => propose(p, out),
        PlanPhase::Over => (CommitRun::Ended(true), said(out)),
        PlanPhase::Failed => (CommitRun::Failed(p.error), said(out)),
        _ => (CommitRun::Planning(p), said(out)),
    }
}

fn approve_further(a: Approval, c: Context, event: ApprovalEvent) -> (r: (CommitRun, Said))
    ensures
        (r.0@, r.1@) == after_approval(a@, c@, event@),
        run_wf(r.0@),
{
    let mut a = a;
    let step = a.answer(event);
    match step.action {
        ApprovalAction::Execute => {
            let execution = execute_commits(a.plan, c.files, c.staged_used, c.baseline);
            (CommitRun::Executing(execution, c.base_branch, c.rate), said(step.say))
        },
        ApprovalAction::Cancel => (CommitRun::Ended(true), said(step.say)),
        ApprovalAction::Ask(_) => (CommitRun::Approving(a, c), said(step.say)),
        ApprovalAction::AskEach(_) => (CommitRun::Approving(a, c), said(step.say)),
    }
}

fn execute_further(
    e: Execution,
    base_branch: Option<String>,
    rate: RateStatus,
    event: ExecEvent,
) -> (r: (CommitRun, Said))
    requires
        exec_wf(e@),
    ensures
        (r.0@, r.1@) == after_execution(e@, text(base_branch), rate.remaining, event@),
        run_wf(r.0@),
{
    let mut e = e;
    let told = e.handle(event);
    match e.stage {
        ExecStage::Done => {
            let mut err = told.err;
            let ghost before = err@;
            match rate.low_quota_message() {
                Some(hint) => {
                    err.append("\n");
                    err.append(hint.as_str());
                    err.append("\n");
                    assert(err@ =~= before + ("\n"@ + hint@ + "\n"@));
                },
                None => {
                    assert(err@ =~= before + Seq::empty());
                },
            }
            (CommitRun::Ended(true), Said { out: told.out, err })
        },
        ExecStage::Stopped => (CommitRun::Ended(false), told),
        ExecStage::Failed => (CommitRun::Failed(e.error), told),
        _ => (CommitRun::Executing(e, base_branch, rate), told),
    }
}

impl CommitRun {
    /// The action that is waited for.
    pub fn action(&self) -> (r: CommitAction)
        requires
            run_wf(self@),
        ensures
            r@ == run_action_of(self@),
    {
        match self {
            CommitRun::Planning(p) => CommitAction::Plan(p.action()),
            CommitRun::Approving(a, _) => CommitAction::Approval(a.action()),
            CommitRun::Executing(e, _, _) => CommitAction::Exec(e.action()),
            CommitRun::Ended(success) => CommitAction::Exit(*success),
            CommitRun::Failed(why) => CommitAction::Fail(why.clone()),
        }
    }

    /// Take note of what came of the last action. An event that is not waited
    /// for changes nothing.
    pub fn advance(self, event: CommitEvent) -> (r: (CommitRun, Said))
        requires
            run_wf(self@),
        ensures
            (r.0@, r.1@) == next_run(self@, event@),
            run_wf(r.0@),
    {
        match (self, event) {
            (CommitRun::Planning(p), CommitEvent::Plan(e)) => plan_further(p, e),
            (CommitRun::Approving(a, c), CommitEvent::Approval(e)) => approve_further(a, c, e),
            (CommitRun::Executing(x, b, rate), CommitEvent::Exec(e)) => execute_further(
                x,
                b,
                rate,
                e,
            ),
            (same, _) => (same, silent()),
        }
    }
}

// ── laws ────────────────────────────────────────────────────────────

/// The plan of a run that waits for approval, or is carried out, takes every
/// file of the diff whole, or every hunk of it, and nothing twice.
pub open spec fn plan_is_covered(v: CommitRunView) -> bool {
    match v {
        CommitRunView::Approving(a, c) => partitions(c.files, a.plan, Seq::empty()),
        CommitRunView::Executing(e, _, _) => partitions(e.files, e.plan, Seq::empty()),
        _ => true,
    }
}

/// Whatever happens in a run, only a plan that covers the diff exactly once is
/// ever proposed or carried out.
pub proof fn lemma_only_covering_plans_are_carried_out(v: CommitRunView, event: CommitEventView)
    requires
        run_wf(v),
        plan_is_covered(v),
    ensures
        plan_is_covered(next_run(v, event).0),
{
    match (v, event) {
        (CommitRunView::Planning(p), CommitEventView::Plan(e)) => {
            let q = next_plan(p, e).0;
            if q.phase == PlanPhase::Ready {
                crate::commit::planning::lemma_only_covering_plans_are_proposed(p, e);
            }
        },
        (CommitRunView::Approving(a, c), CommitEventView::Approval(e)) => {
            let b = next_approval(a, e).0;
            lemma_answers_change_only_messages(a, e);
            lemma_accepted_iff_partition(c.files, a.plan, Seq::empty());
            lemma_messages_do_not_matter(c.files, a.plan, b.plan, Seq::empty());
            lemma_accepted_iff_partition(c.files, b.plan, Seq::empty());
        },
        (CommitRunView::Executing(x, b, r), CommitEventView::Exec(e)) => {
            let y = after_event(x, e).0;
            assert(y.plan == x.plan && y.files == x.files);
        },
        _ => {},
    }
}

/// The action stages, commits or pushes something.
pub open spec fn writes(action: CommitActionView) -> bool {
    action matches CommitActionView::Exec(a) && crate::commit::execution::is_change(a)
}

/// Nothing is staged or committed before the user accepts the plan: a run
/// begins to carry a plan out only on a line that accepts it, and then the very
/// plan that was accepted; before that no action changes the repository.
pub proof fn lemma_nothing_is_committed_without_approval(v: CommitRunView, event: CommitEventView)
    requires
        !(v is Executing),
    ensures
        !writes(run_action_of(v)),
        next_run(v, event).0 matches CommitRunView::Executing(e, _, _) ==> {
            &&& v matches CommitRunView::Approving(a, _) && e.plan == a.plan
            &&& event matches CommitEventView::Approval(ApprovalEventView::Line(line)) && choice_of(
                line,
            ) == Some(Choice::Accept)
        },
        !writes(run_action_of(next_run(v, event).0)),
{
    if let (CommitRunView::Approving(a, c), CommitEventView::Approval(e)) = (v, event) {
        if next_approval(a, e).1.action == ApprovalActionView::Execute {
            crate::commit::approval::lemma_only_an_answer_approves(a, e);
        }
    }
}

/// A run that is over stays over, and leaves the repository alone.
pub proof fn lemma_an_ended_run_does_nothing(v: CommitRunView, event: CommitEventView)
    requires
        v is Ended || v is Failed,
    ensures
        next_run(v, event).0 == v,
        !writes(run_action_of(v)),
{
}

} // verus!
