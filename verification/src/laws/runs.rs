//! The steps of a commit run.

use vstd::prelude::*;
use crate::analysis::{ChangeGroupView, DiffView};
use crate::analysis::reply::{error_message, quota_hint, AnalyzeErrorView};
use crate::commit::answers::{choice_of, retry_of, says_yes, Choice, RetryDecision};
use crate::commit::approval::{
    next_approval, split_text, splits_a_file, ApprovalActionView, ApprovalEventView, ApprovalStage,
    ApprovalView,
};
use crate::commit::branch::{proposed_branch, suggestion_of, valid_branch_name};
use crate::commit::execute::{failure_report, recorded_commit, something_staged, staging_patch};
use crate::commit::execution::{
    action_of, after_event, exec_wf, ExecActionView, ExecEventView, ExecStage, ExecView,
};
use crate::commit::offline::offline_plan;
use crate::commit::picker::{next_branch_step, BranchActionView, BranchEventView};
use crate::commit::planning::{
    next_plan, plan_action_of, planning_wf, PlanActionView, PlanEventView, PlanPhase, PlanningView,
};
use crate::commit::proposal::{groups_resolved, plan_of};
use crate::commit::run::{
    next_run, proposed, run_action_of, CommitActionView, CommitEventView, CommitRunView,
    ContextView,
};
use crate::engine::coverage::whole_paths;
use crate::engine::hunks::parsed;
use crate::engine::plan::plan_fault;
use crate::heuristics::verdict_of;
use crate::laws::reports::lemma_proposed_splits_are_shown_in_full;
use crate::laws::texts::{
    blank, lemma_numbers_are_told_apart, lemma_occurs_in_part, lemma_occurs_inside, lemma_trimmed,
    tight,
};
use crate::number::{decimal_of, lemma_decimal_digits, lemma_decimal_is_read_back};
use crate::text::{occurs, trimmed};

verus! {

// ── answers ─────────────────────────────────────────────────────────

/// What a line means, with any white space around the answer: nothing and `a`
/// accept, `e` edits, `c` cancels; the end of the input cancels, and every other
/// line is asked for again.
pub proof fn lemma_what_a_choice_means(a: Seq<char>, answer: Seq<char>, b: Seq<char>)
    requires
        blank(a),
        blank(b),
        tight(answer),
        (a + answer + b).len() > 0,
    ensures
        ({
            let line = a + answer + b;
            &&& choice_of(line) == Some(Choice::Accept) <==> answer.len() == 0 || answer == "a"@
                || answer == "A"@
            &&& choice_of(line) == Some(Choice::Edit) <==> answer == "e"@ || answer == "E"@
            &&& choice_of(line) == Some(Choice::Cancel) <==> answer == "c"@ || answer == "C"@
            &&& retry_of(line) == Some(RetryDecision::Retry) <==> answer.len() == 0 || answer
                == "r"@ || answer == "R"@
            &&& retry_of(line) == Some(RetryDecision::Offline) <==> answer == "o"@ || answer
                == "O"@
            &&& retry_of(line) == Some(RetryDecision::Cancel) <==> answer == "c"@ || answer
                == "C"@
        }),
        choice_of(Seq::empty()) == Some(Choice::Cancel),
        retry_of(Seq::empty()) == Some(RetryDecision::Cancel),
{
    lemma_trimmed(a, answer, b);
    reveal_strlit("");
    reveal_strlit("a");
    reveal_strlit("A");
    reveal_strlit("e");
    reveal_strlit("E");
    reveal_strlit("c");
    reveal_strlit("C");
    reveal_strlit("r");
    reveal_strlit("R");
    reveal_strlit("o");
    reveal_strlit("O");
    assert("a"@[0] == 'a' && "A"@[0] == 'A' && "e"@[0] == 'e' && "E"@[0] == 'E');
    assert("c"@[0] == 'c' && "C"@[0] == 'C' && "r"@[0] == 'r' && "R"@[0] == 'R');
    assert("o"@[0] == 'o' && "O"@[0] == 'O');
    if answer.len() == 0 {
        assert(answer =~= ""@);
    }
}

// ── planning ────────────────────────────────────────────────────────

/// A run collects the diff, and ends where there is no changed file. Else it
/// reads the branch; without the wish for another branch it goes on to the
/// status of the tree, and with it a branch is picked first.
pub proof fn lemma_how_a_run_begins(
    v: PlanningView,
    diff: DiffView,
    branch: Option<Seq<char>>,
    name: Option<Seq<char>>,
)
    requires
        v.phase == PlanPhase::Collect,
    ensures
        plan_action_of(v) == PlanActionView::Collect,
        ({
            let w = next_plan(v, PlanEventView::Collected(diff)).0;
            let x = next_plan(w, PlanEventView::Branch(branch)).0;
            let y = next_plan(x, PlanEventView::Suggested(name)).0;
            &&& diff.files.len() == 0 <==> plan_action_of(w) == PlanActionView::Exit
            &&& diff.files.len() > 0 ==> plan_action_of(w) == PlanActionView::ReadBranch && w.diff
                == diff
            &&& diff.files.len() > 0 && !v.flags.branch ==> plan_action_of(x)
                == PlanActionView::ReadStatus
            &&& diff.files.len() > 0 && v.flags.branch && v.flags.offline ==> plan_action_of(x)
                == PlanActionView::PickBranch(suggestion_of(diff.patch))
            &&& diff.files.len() > 0 && v.flags.branch && !v.flags.offline ==> plan_action_of(x)
                == PlanActionView::SuggestBranch && plan_action_of(y)
                == PlanActionView::PickBranch(proposed_branch(name, diff.patch))
            &&& diff.files.len() > 0 ==> x.starting_branch == branch && x.diff == diff
        }),
{
}

/// After a branch was picked the diff is collected anew, and the new one counts.
pub proof fn lemma_a_picked_branch_has_its_own_diff(v: PlanningView, diff: DiffView)
    requires
        v.phase == PlanPhase::Pick,
    ensures
        ({
            let w = next_plan(v, PlanEventView::Picked).0;
            let x = next_plan(w, PlanEventView::Collected(diff)).0;
            &&& plan_action_of(w) == PlanActionView::Collect
            &&& x.diff == diff
            &&& diff.files.len() == 0 ==> plan_action_of(x) == PlanActionView::Exit
            &&& diff.files.len() > 0 ==> plan_action_of(x) == PlanActionView::ReadStatus
            &&& x.starting_branch == v.starting_branch
        }),
{
}

/// The first status is what later ones are compared with; then the backend is
/// asked, unless the run is offline.
pub proof fn lemma_the_first_status_counts(v: PlanningView, status: Seq<char>)
    requires
        v.phase == PlanPhase::Baseline,
    ensures
        ({
            let w = next_plan(v, PlanEventView::Status(status)).0;
            &&& w.baseline == status
            &&& !v.flags.offline ==> plan_action_of(w) == PlanActionView::Analyze
            &&& v.flags.offline ==> plan_action_of(w) == PlanActionView::ReadStatus && w.phase
                == PlanPhase::CheckOffline
            &&& w.diff == v.diff
        }),
{
}

/// An analysis that covers the diff is proposed as it is, with its paths
/// repaired, once the tree is found unchanged.
pub proof fn lemma_good_analyses_are_proposed(
    v: PlanningView,
    groups: Seq<ChangeGroupView>,
    remaining: Option<u32>,
)
    requires
        v.phase == PlanPhase::Analyze,
        plan_fault(
            parsed(v.diff.patch),
            plan_of(groups_resolved(groups, v.diff.files)),
            v.diff.files,
        ) is None,
    ensures
        ({
            let w = next_plan(v, PlanEventView::Analyzed(Ok((groups, remaining)))).0;
            let x = next_plan(w, PlanEventView::Status(v.baseline)).0;
            &&& plan_action_of(w) == PlanActionView::ReadStatus
            &&& plan_action_of(x) == PlanActionView::Propose
            &&& x.plan == plan_of(groups_resolved(groups, v.diff.files))
            &&& x.remaining == remaining
            &&& x.files == parsed(v.diff.patch)
            &&& x.baseline == v.baseline
        }),
{
}

/// An analysis that does not cover the diff is never proposed: another one is
/// asked for, or an offline plan is made, at the third one without asking.
pub proof fn lemma_bad_analyses_are_not_proposed(
    v: PlanningView,
    groups: Seq<ChangeGroupView>,
    remaining: Option<u32>,
)
    requires
        planning_wf(v),
        v.phase == PlanPhase::Reanalyze,
        plan_fault(
            parsed(v.diff.patch),
            plan_of(groups_resolved(groups, v.diff.files)),
            v.diff.files,
        ) is Some,
    ensures
        ({
            let w = next_plan(v, PlanEventView::Analyzed(Ok((groups, remaining)))).0;
            &&& v.plan_attempts < 2 ==> plan_action_of(w) is Ask
            &&& v.plan_attempts == 2 ==> plan_action_of(w) == PlanActionView::Propose && w.plan
                == offline_plan(v.diff.patch, v.diff.files) || plan_action_of(w) is Fail
            &&& w.plan_attempts == v.plan_attempts + 1
        }),
{
}

/// Where the backend is not available it may be asked again, up to four times
/// in all; then an offline plan is made. Other failures end the run with their
/// message.
pub proof fn lemma_failed_analyses(v: PlanningView, error: AnalyzeErrorView)
    requires
        planning_wf(v),
        v.phase == PlanPhase::Analyze,
    ensures
        ({
            let w = next_plan(v, PlanEventView::Analyzed(Err(error))).0;
            &&& error is InvalidKey || error is Other ==> plan_action_of(w) == PlanActionView::Fail(
                error_message(error),
            )
            &&& (error is RateLimited || error is Unavailable) && v.attempts < 3
                ==> plan_action_of(w) is Ask
            &&& (error is RateLimited || error is Unavailable) && v.attempts == 3 ==> w.phase
                == PlanPhase::CheckOffline
            &&& (error is RateLimited || error is Unavailable) ==> w.attempts == v.attempts + 1
        }),
{
}

/// An answer to the offer of another try is followed: another analysis, an
/// offline plan, or the end of the run; any other line is asked for again.
pub proof fn lemma_the_offer_of_another_try(v: PlanningView, line: Seq<char>)
    requires
        v.phase == PlanPhase::Retry || v.phase == PlanPhase::PlanRetry,
    ensures
        ({
            let w = next_plan(v, PlanEventView::Line(line)).0;
            &&& plan_action_of(v) is Ask
            &&& retry_of(line) == Some(RetryDecision::Retry) ==> plan_action_of(w)
                == PlanActionView::Analyze
            &&& retry_of(line) == Some(RetryDecision::Cancel) ==> plan_action_of(w)
                == PlanActionView::Exit
            &&& retry_of(line) is None ==> w == v
            &&& retry_of(line) == Some(RetryDecision::Offline) ==> plan_action_of(w)
                != PlanActionView::Analyze && !(plan_action_of(w) is Ask)
        }),
{
}

/// An offline plan is made from the diff alone, once the tree is found
/// unchanged.
pub proof fn lemma_offline_plans_come_from_the_diff(v: PlanningView)
    requires
        v.phase == PlanPhase::CheckOffline,
    ensures
        ({
            let w = next_plan(v, PlanEventView::Status(v.baseline)).0;
            let plan = offline_plan(v.diff.patch, v.diff.files);
            &&& plan_fault(parsed(v.diff.patch), plan, whole_paths(plan)) is None ==> plan_action_of(
                w,
            ) == PlanActionView::Propose && w.plan == plan && w.remaining is None
            &&& plan_fault(parsed(v.diff.patch), plan, whole_paths(plan)) is Some ==> plan_action_of(
                w,
            ) is Fail
        }),
{
}

// ── approval ────────────────────────────────────────────────────────

/// One commit is proposed by its message and several as a split; what is
/// proposed is the plan itself, with what is needed to carry it out.
pub proof fn lemma_what_is_proposed(p: PlanningView, said: Seq<char>)
    ensures
        match proposed(p, said).0 {
            CommitRunView::Approving(a, c) => a.plan == p.plan && (a.single <==> p.plan.len() == 1)
                && a.stage == ApprovalStage::Choosing && c.files == p.files && c.staged_used
                == p.diff.staged_used && c.baseline == p.baseline && c.remaining == p.remaining
                && c.base_branch == (if p.flags.branch {
                p.starting_branch
            } else {
                None
            }),
            CommitRunView::Failed(_) => p.plan.len() == 0 || p.plan.len() == 1 && trimmed(
                p.plan[0].message,
            ).len() == 0,
            _ => false,
        },
{
}

/// A new message replaces the old one, without the white space around it; a
/// blank one keeps the old one; and the plan is asked for again.
pub proof fn lemma_new_messages(
    v: ApprovalView,
    line: Seq<char>,
    answers: Seq<Option<Seq<char>>>,
    i: int,
)
    requires
        v.stage == ApprovalStage::Editing,
        0 <= i < v.plan.len(),
    ensures
        v.single ==> {
            let w = next_approval(v, ApprovalEventView::Line(line)).0;
            &&& w.stage == ApprovalStage::Choosing
            &&& w.plan[0].message == if trimmed(line).len() > 0 {
                trimmed(line)
            } else {
                v.plan[0].message
            }
            &&& i > 0 ==> w.plan[i] == v.plan[i]
        },
        !v.single ==> {
            let w = next_approval(v, ApprovalEventView::Messages(answers)).0;
            &&& w.stage == ApprovalStage::Choosing
            &&& w.plan.len() == v.plan.len()
            &&& w.plan[i].message == if i < answers.len() && answers[i] is Some && trimmed(
                answers[i]->0,
            ).len() > 0 {
                trimmed(answers[i]->0)
            } else {
                v.plan[i].message
            }
            &&& w.plan[i].whole == v.plan[i].whole && w.plan[i].partial == v.plan[i].partial
        },
{
}

/// A choice is followed: the plan is carried out as it stands, edited, or given
/// up; any other line is asked for again.
pub proof fn lemma_choices_are_followed(v: ApprovalView, line: Seq<char>)
    requires
        v.stage == ApprovalStage::Choosing,
    ensures
        ({
            let (w, step) = next_approval(v, ApprovalEventView::Line(line));
            &&& choice_of(line) == Some(Choice::Accept) ==> step.action
                == ApprovalActionView::Execute && w.plan == v.plan
            &&& choice_of(line) == Some(Choice::Cancel) ==> step.action
                == ApprovalActionView::Cancel
            &&& choice_of(line) == Some(Choice::Edit) ==> w.stage == ApprovalStage::Editing && w.plan
                == v.plan
            &&& choice_of(line) is None ==> w == v && step.action is Ask
        }),
{
}

// ── carrying out ────────────────────────────────────────────────────

/// The first thing that is done for a group: its hunks are staged, else its
/// files, else it is committed.
pub open spec fn first_action(v: ExecView, i: int) -> ExecActionView {
    let group = v.plan[i];
    if group.partial.len() > 0 {
        ExecActionView::Apply(staging_patch(v.files, group.partial))
    } else if group.whole.len() > 0 {
        ExecActionView::Add(group.whole)
    } else {
        ExecActionView::Commit(group.message)
    }
}

/// Once the tree is found unchanged, and nothing else staged, the first group is
/// begun; where hunks are split out of staged changes, the index is rebuilt
/// before that.
pub proof fn lemma_how_a_plan_is_begun(v: ExecView, status: Seq<char>, out: Seq<char>)
    requires
        v.stage == ExecStage::CheckTree,
        v.index == 0,
        v.plan.len() > 0,
        !something_staged(status),
    ensures
        ({
            let w = after_event(v, ExecEventView::Status(v.baseline)).0;
            let x = after_event(w, ExecEventView::Status(status)).0;
            let y = after_event(w, ExecEventView::Done(Ok(out))).0;
            &&& action_of(v) == ExecActionView::ReadStatus
            &&& !v.staged_used ==> action_of(w) == ExecActionView::ReadStatus && action_of(x)
                == first_action(v, 0)
            &&& v.staged_used && !splits_a_file(v.plan) ==> action_of(w) == first_action(v, 0)
            &&& v.staged_used && splits_a_file(v.plan) ==> action_of(w)
                == ExecActionView::ResetIndex && action_of(y) == first_action(v, 0)
        }),
{
}

/// A group is staged in full before it is committed: its hunks, then its whole
/// files, then the commit with its message; and the commit is recorded.
pub proof fn lemma_a_group_is_staged_and_committed(v: ExecView, out: Seq<char>, sha: Seq<char>)
    requires
        exec_wf(v),
        v.index < v.plan.len(),
    ensures
        v.stage == ExecStage::Apply ==> action_of(v) == ExecActionView::Apply(
            staging_patch(v.files, v.plan[v.index].partial),
        ) && action_of(after_event(v, ExecEventView::Done(Ok(out))).0) == (if v.plan[v.index].whole.len()
            > 0 {
            ExecActionView::Add(v.plan[v.index].whole)
        } else {
            ExecActionView::Commit(v.plan[v.index].message)
        }),
        v.stage == ExecStage::Add ==> action_of(v) == ExecActionView::Add(v.plan[v.index].whole)
            && action_of(after_event(v, ExecEventView::Done(Ok(out))).0) == ExecActionView::Commit(
            v.plan[v.index].message,
        ),
        v.stage == ExecStage::Commit ==> action_of(after_event(v, ExecEventView::Done(Ok(out))).0)
            == ExecActionView::ReadHead && after_event(v, ExecEventView::Done(Ok(out))).0.index
            == v.index,
        v.stage == ExecStage::Head ==> {
            let w = after_event(v, ExecEventView::Done(Ok(sha))).0;
            &&& w.index == v.index + 1
            &&& w.recorded == v.recorded.push(recorded_commit(v.plan[v.index], sha))
            &&& v.index + 1 < v.plan.len() ==> action_of(w) == first_action(v, v.index + 1)
            &&& v.index + 1 == v.plan.len() ==> action_of(w) == ExecActionView::Record(w.recorded)
        },
{
}

/// After the record a push is offered where there is a remote, and made on a
/// yes alone; then the run is over with success.
pub proof fn lemma_pushing_is_offered(v: ExecView, known: bool, line: Seq<char>, out: Seq<char>)
    requires
        v.stage == ExecStage::Record,
    ensures
        ({
            let w = after_event(v, ExecEventView::Done(Ok(out))).0;
            let x = after_event(w, ExecEventView::Remote(known)).0;
            let y = after_event(x, ExecEventView::Line(line)).0;
            let z = after_event(y, ExecEventView::Done(Ok(out))).0;
            &&& action_of(w) == ExecActionView::ReadRemote
            &&& !known ==> action_of(x) == ExecActionView::Exit(true)
            &&& known ==> action_of(x) is Ask
            &&& known && says_yes(line) ==> action_of(y) == ExecActionView::Push && action_of(z)
                == ExecActionView::Exit(true)
            &&& known && !says_yes(line) ==> action_of(y) == ExecActionView::Exit(true)
        }),
{
}

// ── picking a branch ────────────────────────────────────────────────

/// A name that is typed is made a branch, without the white space around it; a
/// name that is not allowed is asked for again; and without a name, or without
/// an answer, the run goes on where it is.
pub proof fn lemma_typed_names_are_made_branches(
    branches: Seq<Seq<char>>,
    current: Option<Seq<char>>,
    a: Seq<char>,
    name: Seq<char>,
    b: Seq<char>,
    why: Seq<char>,
)
    requires
        blank(a),
        blank(b),
        tight(name),
    ensures
        next_branch_step(branches, current, BranchEventView::Name(Some(a + name + b))).action
            == if valid_branch_name(name) {
            BranchActionView::Create(name)
        } else {
            next_branch_step(branches, current, BranchEventView::Start).action
        },
        next_branch_step(branches, current, BranchEventView::Name(None)).action
            == BranchActionView::Finish,
        next_branch_step(branches, current, BranchEventView::Start).action is Ask,
        next_branch_step(branches, current, BranchEventView::Answer(a)).action
            == BranchActionView::Finish,
        next_branch_step(
            branches,
            current,
            BranchEventView::Created { name, failure: None },
        ).action == BranchActionView::Finish,
        next_branch_step(
            branches,
            current,
            BranchEventView::Switched { name, failure: None },
        ).action == BranchActionView::Finish,
        next_branch_step(
            branches,
            current,
            BranchEventView::Created { name, failure: Some(why) },
        ).action is Ask,
        next_branch_step(
            branches,
            current,
            BranchEventView::Switched { name, failure: Some(why) },
        ).action is Ask,
{
    let none: Seq<char> = Seq::empty();
    lemma_trimmed(a, name, b);
    lemma_trimmed(a, none, none);
    assert(a + none + none =~= a);
}

/// The letter `n`, and the number behind the last branch, ask for a new branch.
pub proof fn lemma_how_a_new_branch_is_asked_for(
    branches: Seq<Seq<char>>,
    current: Option<Seq<char>>,
    line: Seq<char>,
)
    requires
        trimmed(line) == "n"@ || trimmed(line) == "N"@ || trimmed(line)
            == crate::number::decimal_of(branches.len() + 1),
    ensures
        next_branch_step(branches, current, BranchEventView::Answer(line)).action
            == BranchActionView::AskName,
{
    reveal_strlit("n");
    reveal_strlit("N");
    crate::number::lemma_decimal_digits(branches.len() + 1);
}

/// A number names the branch of that number in the list, counted from one. The
/// current branch stays as it is, and any other one is switched to.
pub proof fn lemma_numbers_name_branches(
    branches: Seq<Seq<char>>,
    current: Option<Seq<char>>,
    line: Seq<char>,
    i: int,
)
    requires
        0 <= i < branches.len(),
        branches.len() < usize::MAX,
        trimmed(line) == decimal_of((i + 1) as nat),
    ensures
        next_branch_step(branches, current, BranchEventView::Answer(line)).action == if current
            == Some(branches[i]) {
            BranchActionView::Finish
        } else {
            BranchActionView::Checkout(branches[i])
        },
{
    let k = (i + 1) as nat;
    reveal_strlit("n");
    reveal_strlit("N");
    lemma_decimal_digits(k);
    lemma_decimal_is_read_back(k, usize::MAX as nat);
    if decimal_of(k) == decimal_of(branches.len() + 1) {
        lemma_numbers_are_told_apart(k, branches.len() + 1);
    }
    assert(decimal_of(k)[0] != 'n' && decimal_of(k)[0] != 'N');
}

/// A session that cannot be recorded does not stop the run: that is said, and
/// the run goes on to the remote. The same holds of a push that fails, which
/// ends the run.
pub proof fn lemma_late_failures_are_only_told(v: ExecView, why: Seq<char>)
    ensures
        v.stage == ExecStage::Record ==> ({
            let (next, said) = after_event(v, ExecEventView::Done(Err(why)));
            next.stage == ExecStage::Remote && next.recorded == v.recorded && next.committed
                == v.committed && occurs(said.err, why) && said.out.len() == 0
        }),
        v.stage == ExecStage::Push ==> ({
            let (next, said) = after_event(v, ExecEventView::Done(Err(why)));
            next.stage == ExecStage::Done && next.recorded == v.recorded && next.committed
                == v.committed && occurs(said.err, why) && said.out.len() == 0
        }),
{
    lemma_occurs_inside("warning: didn't record the session — "@, why, "\n"@);
    lemma_occurs_inside("warning: didn't push — "@, why, "\n"@);
}

/// A second analysis that fails for good ends the planning with its reason, and
/// one that fails for now leads to the offline plan.
pub proof fn lemma_failed_second_analyses(v: PlanningView, error: AnalyzeErrorView)
    requires
        v.phase == PlanPhase::Reanalyze,
    ensures
        ({
            let next = next_plan(v, PlanEventView::Analyzed(Err(error))).0;
            let lasting = !(error is RateLimited) && !(error is Unavailable);
            let plan = offline_plan(v.diff.patch, v.diff.files);
            let good = plan_fault(parsed(v.diff.patch), plan, whole_paths(plan)) is None;
            &&& lasting ==> next.phase == PlanPhase::Failed && next.error == error_message(error)
            &&& !lasting && good ==> next.phase == PlanPhase::Ready && next.plan == plan
                && next.groups.len() == 0
            &&& !lasting && !good ==> next.phase == PlanPhase::Failed
        }),
{
}

/// A run whose planning is over without a plan ends well, and one whose planning
/// fails fails for the same reason.
pub proof fn lemma_how_planning_ends(p: PlanningView, event: PlanEventView)
    ensures
        ({
            let (next, said) = next_plan(p, event);
            let (run, told) = next_run(CommitRunView::Planning(p), CommitEventView::Plan(event));
            &&& next.phase == PlanPhase::Over ==> run == CommitRunView::Ended(true) && told.out
                == said
            &&& next.phase == PlanPhase::Failed ==> run == CommitRunView::Failed(next.error)
                && told.out == said
            &&& next.phase != PlanPhase::Over && next.phase != PlanPhase::Failed && next.phase
                != PlanPhase::Ready ==> run == CommitRunView::Planning(next) && told.out == said
        }),
{
}

/// A run ends with what its last step said, and then the hint at the quota.
pub proof fn lemma_how_execution_ends(
    e: ExecView,
    base_branch: Option<Seq<char>>,
    remaining: Option<u32>,
    event: ExecEventView,
)
    ensures
        ({
            let (next, said) = after_event(e, event);
            let (run, told) = next_run(
                CommitRunView::Executing(e, base_branch, remaining),
                CommitEventView::Exec(event),
            );
            &&& told.out == said.out
            &&& said.err.is_prefix_of(told.err)
            &&& next.stage != ExecStage::Done ==> told.err == said.err
            &&& next.stage == ExecStage::Done ==> run == CommitRunView::Ended(true) && (
            quota_hint(remaining) matches Some(hint) ==> occurs(
                told.err.skip(said.err.len() as int),
                hint,
            ))
            &&& next.stage == ExecStage::Done && quota_hint(remaining) is None ==> told.err
                == said.err
            &&& next.stage == ExecStage::Stopped ==> run == CommitRunView::Ended(false)
            &&& next.stage == ExecStage::Failed ==> run == CommitRunView::Failed(next.error)
        }),
{
    let (next, said) = after_event(e, event);
    let (run, told) = next_run(
        CommitRunView::Executing(e, base_branch, remaining),
        CommitEventView::Exec(event),
    );
    assert(said.err =~= told.err.subrange(0, said.err.len() as int));
    if next.stage == ExecStage::Done {
        if let Some(hint) = quota_hint(remaining) {
            lemma_occurs_inside("\n"@, hint, "\n"@);
            assert(told.err.skip(said.err.len() as int) =~= "\n"@ + hint + "\n"@);
        } else {
            assert(told.err =~= said.err);
        }
    }
}

/// A plan of the analysis that splits the change is shown with the reason why
/// the local rules found it mixed, where they did. An offline plan is not.
pub proof fn lemma_the_local_reason_is_shown(p: PlanningView, said: Seq<char>)
    requires
        p.plan.len() > 1,
        p.groups.len() > 0,
        verdict_of(p.diff.files) is Inconclusive,
    ensures
        occurs(proposed(p, said).1.out, verdict_of(p.diff.files)->reason),
{
    let hint = Some(verdict_of(p.diff.files)->reason);
    let none: Seq<char> = Seq::empty();
    let shown = split_text(p.plan, p.groups, hint, p.files);
    lemma_proposed_splits_are_shown_in_full(p.plan, p.groups, hint, p.files, 0);
    lemma_occurs_in_part(said, shown, none, hint->0);
}

/// A single commit is proposed exactly where there is one and its message is not
/// blank; the message is shown without the white space around it.
pub proof fn lemma_single_commits_need_a_message(
    p: PlanningView,
    said: Seq<char>,
    a: Seq<char>,
    message: Seq<char>,
    b: Seq<char>,
)
    requires
        p.plan.len() == 1,
        p.plan[0].message == a + message + b,
        blank(a),
        blank(b),
        tight(message),
    ensures
        proposed(p, said).0 is Failed <==> message.len() == 0,
        message.len() > 0 ==> proposed(p, said).0 is Approving && occurs(
            proposed(p, said).1.out,
            "\n  "@ + message + "\n"@,
        ),
{
    lemma_trimmed(a, message, b);
    if message.len() > 0 {
        reveal_strlit("\nProposed commit message:\n  ");
        reveal_strlit("\n  ");
        let part = "\n  "@ + message + "\n"@;
        let head = said + "\nProposed commit message:\n  "@.take(25);
        let none: Seq<char> = Seq::empty();
        assert(proposed(p, said).1.out =~= head + part + none);
        lemma_occurs_inside(head, part, none);
    }
}

/// An approved plan is carried out as it was approved, on the files and the
/// state of the tree that it was made for; a cancelled one ends the run well;
/// and else the dialogue goes on.
pub proof fn lemma_an_approved_plan_is_carried_out(
    a: ApprovalView,
    c: ContextView,
    event: ApprovalEventView,
)
    ensures
        ({
            let (next, step) = next_approval(a, event);
            let (run, told) = next_run(
                CommitRunView::Approving(a, c),
                CommitEventView::Approval(event),
            );
            &&& told.out == step.say && told.err.len() == 0
            &&& step.action is Execute ==> (run matches CommitRunView::Executing(e, base, remaining)
                && e.plan == next.plan && e.files == c.files && e.staged_used == c.staged_used
                && e.baseline == c.baseline && e.stage == ExecStage::CheckTree && e.index == 0
                && e.committed.len() == 0 && e.recorded.len() == 0 && base == c.base_branch
                && remaining == c.remaining)
            &&& step.action is Cancel ==> run == CommitRunView::Ended(true)
            &&& !(step.action is Execute) && !(step.action is Cancel) ==> run
                == CommitRunView::Approving(next, c)
        }),
{
}

/// What a run does next is what the part that it is in does next.
pub proof fn lemma_each_part_of_a_run_acts(
    p: PlanningView,
    a: ApprovalView,
    c: ContextView,
    e: ExecView,
    base: Option<Seq<char>>,
    remaining: Option<u32>,
    success: bool,
    why: Seq<char>,
)
    ensures
        run_action_of(CommitRunView::Planning(p)) == CommitActionView::Plan(plan_action_of(p)),
        run_action_of(CommitRunView::Executing(e, base, remaining)) == CommitActionView::Exec(
            action_of(e),
        ),
        run_action_of(CommitRunView::Ended(success)) == CommitActionView::Exit(success),
        run_action_of(CommitRunView::Failed(why)) == CommitActionView::Fail(why),
        run_action_of(CommitRunView::Approving(a, c)) is Approval,
{
}

/// A group that cannot be staged or committed stops the run with a report of
/// what was committed and what was not, and the reason is told. Where the index
/// cannot be reset or a commit cannot be read back, the run fails for that
/// reason.
pub proof fn lemma_early_failures_end_the_run(v: ExecView, why: Seq<char>)
    ensures
        ({
            let (next, said) = after_event(v, ExecEventView::Done(Err(why)));
            &&& v.stage == ExecStage::Apply || v.stage == ExecStage::Add || v.stage
                == ExecStage::Commit ==> next.stage == ExecStage::Stopped && occurs(said.err, why)
                && said.out == failure_report(v.committed, v.plan.skip(v.index))
                && next.committed == v.committed
            &&& v.stage == ExecStage::Reset || v.stage == ExecStage::Head ==> next.stage
                == ExecStage::Failed && next.error == why && next.committed == v.committed
        }),
{
    let number = decimal_of((v.index + 1) as nat);
    let total = decimal_of(v.plan.len());
    lemma_occurs_inside("error: "@, why, "\n"@);
    let a = "error: couldn't stage "@ + "hunks"@ + " for commit "@ + number + "/"@ + total + ": "@;
    let b = "error: couldn't stage "@ + "files"@ + " for commit "@ + number + "/"@ + total + ": "@;
    lemma_occurs_inside(a, why, "\n"@);
    lemma_occurs_inside(b, why, "\n"@);
}

} // verus!
