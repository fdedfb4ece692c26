//! What a run says of itself is true.

use vstd::prelude::*;
use crate::analysis::DiffView;
use crate::analysis::reply::AnalyzeErrorView;
use crate::commit::approval::{next_approval, ApprovalEventView, ApprovalStage, ApprovalView};
use crate::commit::execution::{after_event, ExecEventView, ExecStage, ExecView};
use crate::commit::offline::offline_plan;
use crate::commit::picker::{next_branch_step, BranchActionView, BranchEventView};
use crate::commit::planning::{
    next_plan, plan_action_of, retry_menu, PlanActionView, PlanEventView, PlanPhase, PlanningView,
};
use crate::commit::proposal::{groups_resolved, plan_of};
use crate::engine::coverage::whole_paths;
use crate::engine::hunks::parsed;
use crate::engine::plan::{plan_fault, refusal_text};
use crate::laws::texts::{blank, lemma_occurs_in_part, lemma_occurs_inside, lemma_trimmed, tight};
use crate::number::decimal_of;
use crate::revert::{
    next_revert, reset_preview, revert_action_of, short_sha, RevertActionView, RevertEventView,
    RevertStage, RevertView,
};
use crate::text::occurs;

verus! {

/// The question for a branch names the largest number that it takes: one more
/// than there are branches, which stands for a new one.
pub proof fn lemma_the_question_for_a_branch(branches: Seq<Seq<char>>, current: Option<Seq<char>>)
    ensures
        next_branch_step(branches, current, BranchEventView::Start).action matches BranchActionView::Ask(
            question,
        ) && occurs(question, "[1-"@ + decimal_of(branches.len() + 1) + "]"@),
{
    reveal_strlit("Enter a number [1-");
    reveal_strlit("[1-");
    reveal_strlit("] (or 'n' for a new branch): ");
    reveal_strlit("]");
    let n = decimal_of(branches.len() + 1);
    let head = "Enter a number [1-"@;
    let tail = "] (or 'n' for a new branch): "@;
    let part = "[1-"@ + n + "]"@;
    assert(head.skip(15) =~= "[1-"@);
    assert(tail.take(1) =~= "]"@);
    assert(head + n + tail =~= head.take(15) + part + tail.skip(1));
    lemma_occurs_inside(head.take(15), part, tail.skip(1));
}

/// An analysis begins by saying how many files changed, and whether the staged
/// or the unstaged changes are taken.
pub proof fn lemma_the_beginning_is_told(v: PlanningView, name: Option<Seq<char>>, diff: DiffView)
    ensures
        v.phase == PlanPhase::Branch && !v.flags.branch ==> occurs(
            next_plan(v, PlanEventView::Branch(name)).1,
            "Analyzing "@ + decimal_of(v.diff.files.len()) + " changed file(s) ("@ + (
            if v.diff.staged_used {
                "staged"@
            } else {
                "unstaged"@
            }) + ")"@,
        ),
        v.phase == PlanPhase::Recollect && diff.files.len() > 0 ==> occurs(
            next_plan(v, PlanEventView::Collected(diff)).1,
            "Analyzing "@ + decimal_of(diff.files.len()) + " changed file(s) ("@ + (
            if diff.staged_used {
                "staged"@
            } else {
                "unstaged"@
            }) + ")"@,
        ),
{
    lemma_beginning(v.diff);
    lemma_beginning(diff);
}

proof fn lemma_beginning(diff: DiffView)
    ensures
        ({
            let start = "Analyzing "@ + decimal_of(diff.files.len()) + " changed file(s) ("@ + (
            if diff.staged_used {
                "staged"@
            } else {
                "unstaged"@
            });
            occurs(start + ")…\n"@, start + ")"@)
        }),
{
    reveal_strlit(")…\n");
    reveal_strlit(")");
    let start = "Analyzing "@ + decimal_of(diff.files.len()) + " changed file(s) ("@ + (
    if diff.staged_used {
        "staged"@
    } else {
        "unstaged"@
    });
    let tail = ")…\n"@;
    let none: Seq<char> = Seq::empty();
    assert(start + tail =~= none + (start + ")"@) + tail.skip(1));
    lemma_occurs_inside(none, start + ")"@, tail.skip(1));
}

/// When the last commit is made, the number of commits of the plan is told.
pub proof fn lemma_the_number_of_commits_is_told(v: ExecView, sha: Seq<char>)
    requires
        v.stage == ExecStage::Head,
        v.index + 1 == v.plan.len(),
    ensures
        occurs(
            after_event(v, ExecEventView::Done(Ok(sha))).1.out,
            "created "@ + decimal_of(v.plan.len()) + " commit(s)"@,
        ),
{
    reveal_strlit("\nDone — created ");
    reveal_strlit("created ");
    reveal_strlit(" commit(s).\n");
    reveal_strlit(" commit(s)");
    let head = "\nDone — created "@;
    let tail = " commit(s).\n"@;
    let n = decimal_of(v.plan.len());
    let part = "created "@ + n + " commit(s)"@;
    let k = head.len() - 8;
    assert(head.skip(k) =~= "created "@);
    assert(tail.take(10) =~= " commit(s)"@);
    assert(head + n + tail =~= head.take(k) + part + tail.skip(10));
    lemma_occurs_inside(head.take(k), part, tail.skip(10));
}

// ── undoing ─────────────────────────────────────────────────────────

/// Before a reset, the number of commits that it discards and the commit that
/// it goes back to are told.
pub proof fn lemma_a_reset_is_announced(v: RevertView, parent: Seq<char>)
    requires
        v.stage == RevertStage::Parent,
    ensures
        ({
            let (next, said) = next_revert(v, RevertEventView::Done(Ok(parent)));
            &&& next.stage == RevertStage::Confirm && next.parent == parent
            &&& occurs(
                said,
                " "@ + decimal_of(v.target.commits.len()) + " commit(s) in this session"@,
            )
            &&& occurs(said, "reset to "@ + short_sha(parent) + "\n"@)
        }),
{
    let w = RevertView { parent, ..v };
    let n = decimal_of(v.target.commits.len());
    let head = "\nThis will DISCARD the "@;
    let middle = " commit(s) in this session with a hard reset to "@;
    let tail =
        "\nWarning: the commits will be gone, not just unstaged. This cannot be undone for commits that have no other ref pointing at them.\n"@;
    let to = short_sha(parent);
    reveal_strlit("\nThis will DISCARD the ");
    reveal_strlit(" ");
    reveal_strlit(" commit(s) in this session with a hard reset to ");
    reveal_strlit(" commit(s) in this session");
    reveal_strlit("reset to ");
    reveal_strlit("\n");
    reveal_strlit(
        "\nWarning: the commits will be gone, not just unstaged. This cannot be undone for commits that have no other ref pointing at them.\n",
    );
    let s = reset_preview(w);
    assert(s == head + n + middle + to + tail);
    let a = " "@ + n + " commit(s) in this session"@;
    let h = head.len() - 1;
    assert(head.skip(h) =~= " "@);
    assert(middle.take(26) =~= " commit(s) in this session"@);
    assert(s =~= head.take(h) + a + (middle.skip(26) + to + tail));
    lemma_occurs_inside(head.take(h), a, middle.skip(26) + to + tail);
    let b = "reset to "@ + to + "\n"@;
    let m = middle.len() - 9;
    assert(middle.skip(m) =~= "reset to "@);
    assert(tail.take(1) =~= "\n"@);
    assert(s =~= (head + n + middle.take(m)) + b + tail.skip(1));
    lemma_occurs_inside(head + n + middle.take(m), b, tail.skip(1));
}

/// Before commits are reverted one by one, their number is told, and that only
/// some of them are pushed exactly where one is not.
pub proof fn lemma_reverts_are_announced(v: RevertView, pushed: bool)
    requires
        v.stage == RevertStage::Pushed,
        v.index + 1 == v.target.commits.len(),
        v.any_pushed || pushed,
    ensures
        ({
            let (next, said) = next_revert(v, RevertEventView::Answer(Ok(pushed)));
            &&& next.stage == RevertStage::Confirm
            &&& occurs(
                said,
                "create "@ + decimal_of(v.target.commits.len()) + " new revert commit(s)"@,
            )
            &&& v.any_local || !pushed ==> occurs(said, "Some commits were already pushed"@)
            &&& !v.any_local && pushed ==> occurs(
                said,
                "At least one commit is already on a remote"@,
            )
        }),
{
    let (next, said) = next_revert(v, RevertEventView::Answer(Ok(pushed)));
    let n = decimal_of(v.target.commits.len());
    let head = "\nThis will create "@;
    let middle = " new revert commit(s) for the session's commits (newest first).\n"@;
    reveal_strlit("\nThis will create ");
    reveal_strlit("create ");
    reveal_strlit(" new revert commit(s) for the session's commits (newest first).\n");
    reveal_strlit(" new revert commit(s)");
    let h = head.len() - 7;
    assert(head.skip(h) =~= "create "@);
    assert(middle.take(21) =~= " new revert commit(s)"@);
    let a = "create "@ + n + " new revert commit(s)"@;
    let none: Seq<char> = Seq::empty();
    let some =
        "Some commits were already pushed, so a reset would rewrite shared history — `git revert` is used instead to stay safe.\n"@;
    let all = "At least one commit is already on a remote; rewriting history is unsafe.\n"@;
    let why = if next.any_local {
        some
    } else {
        all
    };
    assert(said == head + n + middle + why);
    assert(said =~= head.take(h) + a + (middle.skip(21) + why));
    lemma_occurs_inside(head.take(h), a, middle.skip(21) + why);
    if next.any_local {
        reveal_strlit(
            "Some commits were already pushed, so a reset would rewrite shared history — `git revert` is used instead to stay safe.\n",
        );
        let b = "Some commits were already pushed"@;
        reveal_strlit("Some commits were already pushed");
        assert(some.take(32) =~= b);
        assert(said =~= (head + n + middle) + b + some.skip(32));
        lemma_occurs_inside(head + n + middle, b, some.skip(32));
    } else {
        reveal_strlit("At least one commit is already on a remote; rewriting history is unsafe.\n");
        let b = "At least one commit is already on a remote"@;
        reveal_strlit("At least one commit is already on a remote");
        assert(all.take(42) =~= b);
        assert(said =~= (head + n + middle) + b + all.skip(42));
        lemma_occurs_inside(head + n + middle, b, all.skip(42));
    }
}

/// Each step of the undoing names the commit that it is about: the one that is
/// reverted next, the one that the branch is reset to, or the session that is
/// marked.
pub proof fn lemma_steps_name_their_commit(v: RevertView, event: RevertEventView)
    ensures
        ({
            let (next, said) = next_revert(v, event);
            &&& next.stage == RevertStage::Undo && v.stage != RevertStage::Over && said.len() > 0
                ==> (revert_action_of(next) matches RevertActionView::RevertCommit(sha) && occurs(
                said,
                short_sha(sha),
            ))
            &&& next.stage == RevertStage::Reset && v.stage == RevertStage::Confirm && said.len()
                > 0 ==> (revert_action_of(next) matches RevertActionView::ResetHard(sha) && occurs(
                said,
                short_sha(sha),
            ))
            &&& v.stage == RevertStage::Mark && next.stage == RevertStage::Over ==> occurs(
                said,
                v.target.session_id,
            )
        }),
{
    let (next, said) = next_revert(v, event);
    if next.stage == RevertStage::Undo && said.len() > 0 {
        let sha = revert_action_of(next)->RevertCommit_0;
        let rest = said.skip(("Reverting "@ + short_sha(sha)).len() as int);
        assert(said =~= "Reverting "@ + short_sha(sha) + rest);
        lemma_occurs_inside("Reverting "@, short_sha(sha), rest);
    }
    if next.stage == RevertStage::Reset && v.stage == RevertStage::Confirm && said.len() > 0 {
        lemma_occurs_inside("Resetting to "@, short_sha(v.parent), "…\n"@);
    }
    lemma_occurs_inside("Marked session "@, v.target.session_id, " as reverted.\n"@);
}

// ── editing ─────────────────────────────────────────────────────────

/// A new message is shown without the white space around it. A blank one is
/// told to change nothing, and the message that stays is shown.
pub proof fn lemma_edited_messages_are_shown(
    v: ApprovalView,
    a: Seq<char>,
    message: Seq<char>,
    b: Seq<char>,
)
    requires
        v.single,
        v.stage == ApprovalStage::Editing,
        v.plan.len() == 1,
        blank(a),
        blank(b),
        tight(message),
    ensures
        ({
            let said = next_approval(v, ApprovalEventView::Line(a + message + b)).1.say;
            if message.len() > 0 {
                said == "\nMessage:\n  "@ + message + "\n"@
            } else {
                said == "Empty input — keeping the current message.\n"@ + "\nMessage:\n  "@
                    + v.plan[0].message + "\n"@
            }
        }),
{
    lemma_trimmed(a, message, b);
    let said = next_approval(v, ApprovalEventView::Line(a + message + b)).1.say;
    if message.len() > 0 {
        assert(said =~= "\nMessage:\n  "@ + message + "\n"@);
    }
}

// ── failed analyses ─────────────────────────────────────────────────

/// The reason of a failed analysis is told with the offer of another try, and
/// after the last try together with the number of tries.
pub proof fn lemma_the_reason_of_a_failure_is_told(
    v: PlanningView,
    error: AnalyzeErrorView,
    reason: Seq<char>,
)
    requires
        v.phase == PlanPhase::Analyze || v.phase == PlanPhase::Reanalyze,
        error == AnalyzeErrorView::RateLimited(reason) || error == AnalyzeErrorView::Unavailable(
            reason,
        ),
    ensures
        ({
            let (next, said) = next_plan(v, PlanEventView::Analyzed(Err(error)));
            &&& v.phase == PlanPhase::Analyze && v.attempts < 3 ==> (plan_action_of(
                next,
            ) matches PlanActionView::Ask(question) && occurs(question, reason))
            &&& v.phase == PlanPhase::Analyze && v.attempts >= 3 ==> occurs(
                said,
                "after "@ + decimal_of((v.attempts + 1) as nat) + " tries — "@ + reason + "\n"@,
            )
            &&& v.phase == PlanPhase::Reanalyze ==> occurs(said, reason)
        }),
{
    let (next, said) = next_plan(v, PlanEventView::Analyzed(Err(error)));
    if v.phase == PlanPhase::Analyze {
        if v.attempts < 3 {
            lemma_menu("AI analysis unavailable — "@, reason, Seq::empty());
            assert("AI analysis unavailable — "@ + reason + Seq::<char>::empty()
                =~= "AI analysis unavailable — "@ + reason);
        } else {
            let n = decimal_of((v.attempts + 1) as nat);
            let head = "\nAI analysis still unavailable after "@;
            let tail =
                "\nFalling back to an offline plan; rerun later for an AI-crafted message.\n"@;
            reveal_strlit("\nAI analysis still unavailable after ");
            reveal_strlit("after ");
            reveal_strlit("\n");
            reveal_strlit(
                "\nFalling back to an offline plan; rerun later for an AI-crafted message.\n",
            );
            let k = head.len() - 6;
            assert(head.skip(k) =~= "after "@);
            assert(tail.take(1) =~= "\n"@);
            let part = "after "@ + n + " tries — "@ + reason + "\n"@;
            assert(said =~= head.take(k) + part + tail.skip(1));
            lemma_occurs_inside(head.take(k), part, tail.skip(1));
        }
    } else {
        lemma_occurs_inside(
            "AI unavailable ("@,
            reason,
            ") — falling back to an offline plan.\n"@,
        );
    }
}

proof fn lemma_menu(a: Seq<char>, reason: Seq<char>, b: Seq<char>)
    ensures
        occurs(retry_menu(a + reason + b), reason),
{
    let none: Seq<char> = Seq::empty();
    let menu = retry_menu(none);
    lemma_occurs_inside(a, reason, b);
    lemma_occurs_in_part(none, a + reason + b, menu, reason);
    assert(retry_menu(a + reason + b) =~= (a + reason + b) + menu);
}

/// Why a plan was refused is told: with the offer of a fresh one, or when the
/// offline plan is taken in its place, or when that one is refused too.
pub proof fn lemma_the_reason_of_a_refusal_is_told(v: PlanningView, status: Seq<char>)
    requires
        v.phase == PlanPhase::CheckTree || v.phase == PlanPhase::CheckOffline,
        status == v.baseline,
    ensures
        ({
            let (next, said) = next_plan(v, PlanEventView::Status(status));
            let files = parsed(v.diff.patch);
            let plan = plan_of(groups_resolved(v.groups, v.diff.files));
            let local = offline_plan(v.diff.patch, v.diff.files);
            let fault = plan_fault(files, plan, v.diff.files);
            let local_fault = plan_fault(files, local, whole_paths(local));
            &&& v.phase == PlanPhase::CheckTree && v.plan_attempts < 2 ==> (fault matches Some(e)
                ==> plan_action_of(next) matches PlanActionView::Ask(question) && occurs(
                question,
                refusal_text(e),
            ))
            &&& v.phase == PlanPhase::CheckTree && v.plan_attempts >= 2 ==> (fault matches Some(e)
                ==> occurs(said, refusal_text(e)))
            &&& v.phase == PlanPhase::CheckOffline ==> (local_fault matches Some(e)
                ==> next.phase == PlanPhase::Failed && occurs(next.error, refusal_text(e)))
        }),
{
    let (next, said) = next_plan(v, PlanEventView::Status(status));
    let files = parsed(v.diff.patch);
    let plan = plan_of(groups_resolved(v.groups, v.diff.files));
    let local = offline_plan(v.diff.patch, v.diff.files);
    if v.phase == PlanPhase::CheckTree {
        if let Some(e) = plan_fault(files, plan, v.diff.files) {
            let why = refusal_text(e);
            if v.plan_attempts < 2 {
                lemma_menu(
                    "The suggested split was inconsistent ("@,
                    why,
                    "). Retry for a fresh split?"@,
                );
            } else {
                lemma_occurs_inside(
                    "\nnote: the suggested split was still inconsistent ("@,
                    why,
                    "), so all changes\nwill be committed in a single commit instead of being refused.\nRe-run later (or use `commitor commit --offline`) for an AI split.\n"@,
                );
            }
        }
    } else if let Some(e) = plan_fault(files, local, whole_paths(local)) {
        lemma_occurs_inside(
            "The offline plan doesn't match the actual diff:\n  "@,
            refusal_text(e),
            "\n\nNothing was staged or committed."@,
        );
    }
}

} // verus!
