//! Which session is undone, and how.

use vstd::prelude::*;
use vstd::utf8::{is_ascii_chars, is_ascii_chars_encode_utf8};

use crate::bytes::lemma_ascii_can_be_cut;
use crate::commit::answers::says_yes;
use crate::engine::history::SessionView;
use crate::laws::texts::lemma_occurs_inside;
use crate::number::decimal_of;
use crate::revert::{
    already_text, holds_commit, index_by_commit, index_by_id, list_text, listed_session,
    listed_sessions, next_revert, revert_action_of, revert_start, revert_wf, short_sha,
    RevertActionView, RevertEventView, RevertFlags, RevertStage, RevertStartView, RevertView,
};
use crate::text::{occurs, text};

verus! {

/// The command begins with this session: it is undone, or, where it was undone
/// before, that is said.
pub open spec fn begins_with(start: RevertStartView, session: SessionView) -> bool {
    match start {
        RevertStartView::Undo(v, _) => !session.reverted && v.target == session,
        RevertStartView::Over(said) => session.reverted && occurs(said, session.session_id),
        RevertStartView::Failed(_) => false,
    }
}

proof fn lemma_already(session: SessionView)
    ensures
        occurs(already_text(session), session.session_id),
{
    let rest = already_text(session).skip(("Session "@ + session.session_id).len() as int);
    assert(already_text(session) =~= "Session "@ + session.session_id + rest);
    lemma_occurs_inside("Session "@, session.session_id, rest);
}

/// Where no session is named, the one that was recorded last is undone.
pub proof fn lemma_the_last_session_is_undone(flags: RevertFlags, sessions: Seq<SessionView>)
    requires
        sessions.len() > 0,
        !flags.list,
        flags.session is None,
    ensures
        begins_with(revert_start(flags, sessions), sessions.last()),
{
    lemma_already(sessions.last());
    assert(sessions.reverse()[0] == sessions.last());
}

/// What is recorded earlier does not matter to which session is undone.
pub proof fn lemma_earlier_sessions_do_not_matter(
    flags: RevertFlags,
    earlier: Seq<SessionView>,
    last: SessionView,
)
    requires
        !flags.list,
        flags.session is None,
    ensures
        revert_start(flags, earlier.push(last)) == revert_start(flags, seq![last]),
{
    assert(earlier.push(last).reverse()[0] == last);
    assert(seq![last].reverse()[0] == last);
}

proof fn lemma_index_by_id(sessions: Seq<SessionView>, id: Seq<char>)
    ensures
        match index_by_id(sessions, id) {
            Some(i) => 0 <= i < sessions.len() && sessions[i].session_id == id && forall|j: int|
                0 <= j < i ==> (#[trigger] sessions[j]).session_id != id,
            None => forall|j: int| 0 <= j < sessions.len() ==> (#[trigger] sessions[j]).session_id != id,
        },
    decreases sessions.len(),
{
    if sessions.len() > 0 {
        let front = sessions.drop_last();
        lemma_index_by_id(front, id);
        assert forall|j: int| 0 <= j < front.len() implies sessions[j] == #[trigger] front[j] by {}
        match index_by_id(front, id) {
            Some(i) => {
                assert forall|j: int| 0 <= j < i implies (#[trigger] sessions[j]).session_id != id by {
                    assert(front[j].session_id != id);
                }
            },
            None => {
                assert forall|j: int| 0 <= j < front.len() implies (#[trigger] sessions[j]).session_id
                    != id by {
                    assert(front[j].session_id != id);
                }
            },
        }
    }
}

proof fn lemma_index_by_commit(sessions: Seq<SessionView>, id: Seq<char>)
    ensures
        match index_by_commit(sessions, id) {
            Some(i) => 0 <= i < sessions.len() && holds_commit(sessions[i], id) && forall|j: int|
                0 <= j < i ==> !holds_commit(#[trigger] sessions[j], id),
            None => forall|j: int| 0 <= j < sessions.len() ==> !holds_commit(#[trigger] sessions[j], id),
        },
    decreases sessions.len(),
{
    if sessions.len() > 0 {
        let front = sessions.drop_last();
        lemma_index_by_commit(front, id);
        match index_by_commit(front, id) {
            Some(i) => {
                assert forall|j: int| 0 <= j < i implies !holds_commit(#[trigger] sessions[j], id) by {
                    assert(sessions[j] == front[j]);
                }
            },
            None => {
                assert forall|j: int| 0 <= j < front.len() implies !holds_commit(
                    #[trigger] sessions[j],
                    id,
                ) by {
                    assert(sessions[j] == front[j]);
                }
            },
        }
    }
}

/// The session has a commit whose identifier is `id`, or `id` and more.
pub open spec fn has_commit_of(session: SessionView, id: Seq<char>) -> bool {
    exists|i: int, rest: Seq<char>|
        0 <= i < session.commits.len() && #[trigger] session.commits[i].sha == #[trigger] (id + rest)
}

proof fn lemma_commit_of(session: SessionView, id: Seq<char>)
    ensures
        holds_commit(session, id) <==> has_commit_of(session, id),
{
    if holds_commit(session, id) {
        let i = choose|i: int|
            0 <= i < session.commits.len() && id.is_prefix_of((#[trigger] session.commits[i]).sha);
        let sha = session.commits[i].sha;
        let rest = sha.skip(id.len() as int);
        assert(sha =~= id + rest);
    }
    if has_commit_of(session, id) {
        let (i, rest) = choose|i: int, rest: Seq<char>|
            0 <= i < session.commits.len() && #[trigger] session.commits[i].sha == #[trigger] (id + rest);
        let sha = session.commits[i].sha;
        assert(sha.subrange(0, id.len() as int) =~= id);
        assert(id.is_prefix_of(session.commits[i].sha));
    }
}

/// A session that is named is undone: the last one with that identifier; where
/// none has it, the last one with a commit that begins with it; and where none
/// has such a commit, that is an error.
pub proof fn lemma_the_named_session_is_undone(
    flags: RevertFlags,
    sessions: Seq<SessionView>,
    i: int,
)
    requires
        sessions.len() > 0,
        !flags.list,
        flags.session is Some,
    ensures
        ({
            let id = text(flags.session)->0;
            &&& 0 <= i < sessions.len() && sessions[i].session_id == id && (forall|j: int|
                i < j < sessions.len() ==> (#[trigger] sessions[j]).session_id != id)
                ==> begins_with(revert_start(flags, sessions), sessions[i])
            &&& 0 <= i < sessions.len() && has_commit_of(sessions[i], id) && (forall|j: int|
                0 <= j < sessions.len() ==> (#[trigger] sessions[j]).session_id != id) && (forall|
                j: int,
            |
                i < j < sessions.len() ==> !has_commit_of(#[trigger] sessions[j], id))
                ==> begins_with(revert_start(flags, sessions), sessions[i])
            &&& (forall|j: int|
                0 <= j < sessions.len() ==> (#[trigger] sessions[j]).session_id != id
                    && !has_commit_of(sessions[j], id)) ==> revert_start(flags, sessions) is Failed
        }),
{
    let id = text(flags.session)->0;
    let n = sessions.len();
    let newest = sessions.reverse();
    assert forall|j: int| 0 <= j < n implies newest[j] == sessions[n - 1 - j] by {}
    lemma_index_by_id(newest, id);
    lemma_index_by_commit(newest, id);
    assert forall|j: int| 0 <= j < n implies holds_commit(#[trigger] sessions[j], id)
        == has_commit_of(sessions[j], id) by {
        lemma_commit_of(sessions[j], id);
    }
    if 0 <= i < n {
        lemma_already(sessions[i]);
        assert(newest[n - 1 - i] == sessions[i]);
    }
    if let Some(k) = index_by_id(newest, id) {
        let at = n - 1 - k;
        assert(newest[k] == sessions[at]);
        assert(sessions[at].session_id == id);
        if 0 <= i < at {
        } else if i > at && i < n {
            assert(newest[n - 1 - i].session_id != id);
        }
    } else {
        if 0 <= i < n {
            assert(newest[n - 1 - i].session_id != id);
        }
        if let Some(k) = index_by_commit(newest, id) {
            let at = n - 1 - k;
            assert(newest[k] == sessions[at]);
            assert(has_commit_of(sessions[at], id));
            if i > at && i < n {
                assert(!holds_commit(newest[n - 1 - i], id));
            }
        } else if 0 <= i < n {
            assert(!holds_commit(newest[n - 1 - i], id));
        }
    }
}

// ── the list ────────────────────────────────────────────────────────

proof fn lemma_listed(sessions: Seq<SessionView>, k: int)
    requires
        0 <= k < sessions.len(),
    ensures
        occurs(
            listed_sessions(sessions),
            decimal_of((k + 1) as nat) + ". "@ + sessions[k].session_id + " — "@,
        ),
    decreases sessions.len(),
{
    let front = sessions.drop_last();
    let mark = decimal_of((k + 1) as nat) + ". "@ + sessions[k].session_id + " — "@;
    let last = listed_session(sessions.last(), sessions.len());
    if k < front.len() {
        lemma_listed(front, k);
        crate::laws::texts::lemma_occurrence_splits(listed_sessions(front), mark);
        let (a, b) = choose|a: Seq<char>, b: Seq<char>|
            listed_sessions(front) == #[trigger] (a + mark + b);
        assert(listed_sessions(sessions) =~= a + mark + (b + last));
        lemma_occurs_inside(a, mark, b + last);
    } else {
        let rest = last.skip(mark.len() as int);
        assert(last =~= mark + rest);
        assert(listed_sessions(sessions) =~= listed_sessions(front) + mark + rest);
        lemma_occurs_inside(listed_sessions(front), mark, rest);
    }
}

/// The list numbers the sessions from the last one back.
pub proof fn lemma_the_list_begins_with_the_last_session(
    flags: RevertFlags,
    sessions: Seq<SessionView>,
    k: int,
)
    requires
        flags.list,
        1 <= k <= sessions.len(),
        flags.limit matches Some(limit) ==> k <= limit,
        flags.limit is None ==> k <= 10,
    ensures
        revert_start(flags, sessions) matches RevertStartView::Over(said) && occurs(
            said,
            decimal_of(k as nat) + ". "@ + sessions[sessions.len() - k].session_id + " — "@,
        ),
{
    let newest = sessions.reverse();
    let limit: int = match flags.limit {
        Some(n) => n as int,
        None => 10,
    };
    let shown = if newest.len() <= limit {
        newest
    } else {
        newest.take(limit)
    };
    assert(shown[k - 1] == sessions[sessions.len() - k]);
    lemma_listed(shown, k - 1);
    let mark = decimal_of(k as nat) + ". "@ + sessions[sessions.len() - k].session_id + " — "@;
    crate::laws::texts::lemma_occurrence_splits(listed_sessions(shown), mark);
    let (a, b) = choose|a: Seq<char>, b: Seq<char>|
        listed_sessions(shown) == #[trigger] (a + mark + b);
    let said = list_text(newest, limit);
    let head = "Recent commitor sessions (newest first):\n\n"@;
    let tail = "\nPass `commitor revert <session_id>` to undo a specific session.\n"@;
    assert(said =~= (head + a) + mark + (b + tail));
    lemma_occurs_inside(head + a, mark, b + tail);
}

/// The list shows no more than the sessions that are asked for, and ten where
/// no number is given: what was recorded before these does not matter.
pub proof fn lemma_the_list_is_cut(
    flags: RevertFlags,
    earlier: Seq<SessionView>,
    shown: Seq<SessionView>,
)
    requires
        flags.list,
        shown.len() > 0,
        flags.limit matches Some(limit) ==> shown.len() == limit,
        flags.limit is None ==> shown.len() == 10,
    ensures
        revert_start(flags, earlier + shown) == revert_start(flags, shown),
{
    let limit = shown.len() as int;
    let all = (earlier + shown).reverse();
    assert(all.take(limit) =~= shown.reverse());
    if earlier.len() == 0 {
        assert(earlier + shown =~= shown);
    }
}

// ── the run ─────────────────────────────────────────────────────────

/// The state after these answers on which commits are pushed.
pub open spec fn told(v: RevertView, answers: Seq<bool>) -> RevertView
    decreases answers.len(),
{
    if answers.len() == 0 {
        v
    } else {
        next_revert(
            told(v, answers.drop_last()),
            RevertEventView::Answer(Ok(answers.last())),
        ).0
    }
}

/// Unless it is forced, a run first asks for uncommitted changes; with none, or
/// forced, it looks at the first commit.
pub proof fn lemma_a_run_begins(flags: RevertFlags, sessions: Seq<SessionView>)
    requires
        revert_start(flags, sessions) is Undo,
    ensures
        revert_start(flags, sessions) matches RevertStartView::Undo(v, _) && {
            &&& !flags.force ==> revert_action_of(v) == RevertActionView::ReadDirty
            &&& flags.force ==> revert_action_of(v) == RevertActionView::CheckPushed(
                v.target.commits[0].sha,
            )
            &&& !flags.force ==> revert_action_of(
                next_revert(v, RevertEventView::Answer(Ok(false))).0,
            ) == RevertActionView::CheckPushed(v.target.commits[0].sha)
        },
{
}

proof fn lemma_told(v: RevertView, answers: Seq<bool>)
    requires
        revert_wf(v),
        v.stage == RevertStage::Pushed,
        v.index == 0,
        !v.any_pushed,
        !v.any_local,
        answers.len() < v.target.commits.len(),
    ensures
        told(v, answers).stage == RevertStage::Pushed,
        told(v, answers).index == answers.len(),
        told(v, answers).target == v.target,
        told(v, answers).any_pushed == answers.contains(true),
        told(v, answers).any_local == answers.contains(false),
    decreases answers.len(),
{
    if answers.len() > 0 {
        let front = answers.drop_last();
        lemma_told(v, front);
        assert(answers =~= front.push(answers.last()));
        crate::engine::coverage::lemma_contains_push(front, answers.last(), true);
        crate::engine::coverage::lemma_contains_push(front, answers.last(), false);
    }
}

/// Every commit is looked at, in order; and then the session is reset away
/// exactly where none of them is pushed, which asks for the commit before the
/// first one.
pub proof fn lemma_the_answers_decide(v: RevertView, answers: Seq<bool>)
    requires
        revert_wf(v),
        v.stage == RevertStage::Pushed,
        v.index == 0,
        !v.any_pushed,
        !v.any_local,
        answers.len() <= v.target.commits.len(),
    ensures
        answers.len() < v.target.commits.len() ==> revert_action_of(told(v, answers))
            == RevertActionView::CheckPushed(v.target.commits[answers.len() as int].sha),
        answers.len() == v.target.commits.len() && !answers.contains(true) ==> revert_action_of(
            told(v, answers),
        ) == RevertActionView::ReadParent(v.target.commits[0].sha),
        answers.len() == v.target.commits.len() && answers.contains(true) ==> revert_action_of(
            told(v, answers),
        ) is Ask && told(v, answers).any_pushed,
        told(v, answers).target == v.target,
{
    if answers.len() < v.target.commits.len() {
        lemma_told(v, answers);
    } else {
        let front = answers.drop_last();
        lemma_told(v, front);
        assert(answers =~= front.push(answers.last()));
        crate::engine::coverage::lemma_contains_push(front, answers.last(), true);
    }
}

/// After a yes, local commits are reset to the commit that stands before them,
/// and pushed ones reverted, beginning with the newest.
pub proof fn lemma_a_yes_undoes(v: RevertView, parent: Seq<char>, line: Seq<char>)
    requires
        revert_wf(v),
        says_yes(line),
    ensures
        v.stage == RevertStage::Parent && !v.any_pushed ==> {
            let asked = next_revert(v, RevertEventView::Done(Ok(parent))).0;
            &&& revert_action_of(asked) is Ask
            &&& revert_action_of(next_revert(asked, RevertEventView::Line(line)).0)
                == RevertActionView::ResetHard(parent)
        },
        v.stage == RevertStage::Confirm && v.any_pushed ==> revert_action_of(
            next_revert(v, RevertEventView::Line(line)).0,
        ) == RevertActionView::RevertCommit(v.target.commits.last().sha),
{
}

/// A session is marked once it was undone, and only then; whatever fails ends
/// the run in an error that tells why.
pub proof fn lemma_a_session_is_marked_last(
    v: RevertView,
    event: RevertEventView,
    why: Seq<char>,
)
    requires
        revert_wf(v),
    ensures
        revert_action_of(next_revert(v, event).0) is MarkReverted && v.stage != RevertStage::Mark
            ==> (v.stage == RevertStage::Reset || v.stage == RevertStage::Undo && v.index + 1
            == v.target.commits.len()) && event is Done,
        revert_action_of(v) matches RevertActionView::MarkReverted(id) ==> id
            == v.target.session_id,
        v.stage == RevertStage::Reset || v.stage == RevertStage::Undo || v.stage
            == RevertStage::Mark || v.stage == RevertStage::Parent ==> {
            let after = revert_action_of(next_revert(v, RevertEventView::Done(Err(why))).0);
            after matches RevertActionView::Fail(told) && why.is_suffix_of(told)
        },
        v.stage == RevertStage::Dirty || v.stage == RevertStage::Pushed ==> {
            let after = revert_action_of(next_revert(v, RevertEventView::Answer(Err(why))).0);
            after matches RevertActionView::Fail(told) && why.is_suffix_of(told)
        },
{
    let a = next_revert(v, RevertEventView::Done(Err(why))).0.error;
    let b = next_revert(v, RevertEventView::Answer(Err(why))).0.error;
    if v.stage == RevertStage::Parent || v.stage == RevertStage::Reset || v.stage
        == RevertStage::Undo || v.stage == RevertStage::Mark {
        assert(a.subrange(a.len() - why.len(), a.len() as int) =~= why);
    }
    if v.stage == RevertStage::Dirty || v.stage == RevertStage::Pushed {
        assert(b.subrange(b.len() - why.len(), b.len() as int) =~= why);
    }
}

/// A commit is shown by the first seven characters of its identifier, or by all
/// of them where there are fewer.
pub proof fn lemma_short_identifiers(sha: Seq<char>)
    requires
        is_ascii_chars(sha),
    ensures
        sha.len() >= 7 ==> short_sha(sha) == sha.take(7),
        sha.len() < 7 ==> short_sha(sha) == sha,
{
    is_ascii_chars_encode_utf8(sha);
    if sha.len() >= 7 {
        lemma_ascii_can_be_cut(sha, 7);
    } else {
        lemma_ascii_can_be_cut(sha, sha.len() as int);
        assert(sha.take(sha.len() as int) =~= sha);
    }
}

} // verus!
