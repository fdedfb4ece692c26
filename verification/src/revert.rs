//! `commitor revert`: undo the commits of an earlier session.

use vstd::prelude::*;
use vstd::utf8::{encode_utf8, encode_utf8_valid_utf8};

use crate::bytes::{byte_prefix, can_cut, first_bytes};
use crate::commit::answers::{prompt_confirm, says_yes};
use crate::engine::history::{
    commit_views, session_views, Session, SessionCommit, SessionCommitView, SessionView,
};
use crate::number::{count, decimal_of};
use crate::pieces::{join, joined, lines, lines_of};
use crate::text::{chars_of, parts, same_text, starts_with, text, text_of};

verus! {

/// How the command was called.
#[derive(Debug, Clone, Default)]
pub struct RevertFlags {
    /// List the last sessions.
    pub list: bool,
    /// Go on though there are uncommitted changes.
    pub force: bool,
    /// The session to undo, or a commit of it.
    pub session: Option<String>,
    /// How many sessions to list.
    pub limit: Option<usize>,
}

// ── sessions ────────────────────────────────────────────────────────

/// How many bytes of an identifier are shown.
pub open spec fn shown_bytes(sha: Seq<char>) -> int {
    if encode_utf8(sha).len() < 7 {
        encode_utf8(sha).len() as int
    } else {
        7
    }
}

/// The identifier of a commit as it is shown.
pub open spec fn short_sha(sha: Seq<char>) -> Seq<char> {
    byte_prefix(sha, shown_bytes(sha))
}

/// The identifier of a commit can be cut for display.
pub open spec fn sha_ok(sha: Seq<char>) -> bool {
    can_cut(sha, shown_bytes(sha))
}

/// The identifiers of all commits of a session can be cut for display.
pub open spec fn session_ok(session: SessionView) -> bool {
    forall|i: int| 0 <= i < session.commits.len() ==> sha_ok((#[trigger] session.commits[i]).sha)
}

/// The identifier of the first commit of each of the first `limit` sessions can
/// be cut for display.
pub open spec fn list_ok(sessions: Seq<SessionView>, limit: int) -> bool {
    forall|i: int|
        0 <= i < sessions.len() && i < limit ==> ((#[trigger] sessions[i]).commits.len() > 0
            ==> sha_ok(sessions[i].commits[0].sha))
}

fn shorten(sha: &str) -> (r: String)
    requires
        sha_ok(sha@),
    ensures
        r@ == short_sha(sha@),
{
    let bytes = sha.as_bytes();
    let n: usize = if bytes.len() < 7 {
        bytes.len()
    } else {
        7
    };
    first_bytes(sha, n)
}

/// Whether the identifier of a commit can be cut for display.
pub fn can_shorten(sha: &str) -> (r: bool)
    ensures
        r == sha_ok(sha@),
{
    let bytes = sha.as_bytes();
    let n: usize = if bytes.len() < 7 {
        bytes.len()
    } else {
        7
    };
    sha.is_char_boundary(n)
}

/// The first line of a message.
pub open spec fn summary_of(message: Seq<char>) -> Seq<char> {
    if lines_of(message).len() > 0 {
        lines_of(message)[0]
    } else {
        Seq::empty()
    }
}

fn summarize(message: &str) -> (r: String)
    ensures
        r@ == summary_of(message@),
{
    let chars = chars_of(message);
    let all = lines(chars.as_slice());
    assert(parts(all@).len() == all@.len());
    if all.len() > 0 {
        assert(parts(all@)[0] == all@[0]@);
        text_of(all[0])
    } else {
        let out = String::new();
        assert(out@ =~= Seq::empty());
        out
    }
}

/// The session holds a commit whose identifier begins with `id`.
pub open spec fn holds_commit(session: SessionView, id: Seq<char>) -> bool {
    exists|i: int|
        0 <= i < session.commits.len() && id.is_prefix_of((#[trigger] session.commits[i]).sha)
}

/// Where the first session with this identifier stands.
pub open spec fn index_by_id(sessions: Seq<SessionView>, id: Seq<char>) -> Option<int>
    decreases sessions.len(),
{
    if sessions.len() == 0 {
        None
    } else {
        match index_by_id(sessions.drop_last(), id) {
            Some(i) => Some(i),
            None => if sessions.last().session_id == id {
                Some(sessions.len() - 1)
            } else {
                None
            },
        }
    }
}

/// Where the first session with such a commit stands.
pub open spec fn index_by_commit(sessions: Seq<SessionView>, id: Seq<char>) -> Option<int>
    decreases sessions.len(),
{
    if sessions.len() == 0 {
        None
    } else {
        match index_by_commit(sessions.drop_last(), id) {
            Some(i) => Some(i),
            None => if holds_commit(sessions.last(), id) {
                Some(sessions.len() - 1)
            } else {
                None
            },
        }
    }
}

/// Where the session stands that `id` names: the session with that identifier,
/// else the first one with a commit that begins with it.
pub open spec fn session_at(sessions: Seq<SessionView>, id: Seq<char>) -> Option<int> {
    match index_by_id(sessions, id) {
        Some(i) => Some(i),
        None => index_by_commit(sessions, id),
    }
}

fn has_commit(session: &Session, id: &str) -> (r: bool)
    ensures
        r == holds_commit(session@, id@),
{
    let ghost views = session@.commits;
    for i in 0..session.commits.len()
        invariant
            views == commit_views(session.commits@),
            views == session@.commits,
            forall|j: int| 0 <= j < i ==> !id@.is_prefix_of((#[trigger] views[j]).sha),
    {
        assert(views[i as int] == session.commits@[i as int]@);
        let chars = chars_of(session.commits[i].sha.as_str());
        if starts_with(chars.as_slice(), id) {
            assert(id@.is_prefix_of(session@.commits[i as int].sha));
            return true;
        }
    }
    false
}

/// Find the session that `id` names.
pub fn find_session(sessions: &[Session], id: &str) -> (r: Result<usize, String>)
    ensures
        match r {
            Ok(i) => i < sessions@.len() && session_at(session_views(sessions@), id@) == Some(
                i as int,
            ),
            Err(why) => session_at(session_views(sessions@), id@) is None && why@
                == "no commitor session matches `"@ + id@ + "` in this repo's history"@,
        },
{
    let ghost all = session_views(sessions@);
    let mut by_id: Option<usize> = None;
    let mut by_commit: Option<usize> = None;
    for i in 0..sessions.len()
        invariant
            all == session_views(sessions@),
            match by_id {
                Some(k) => k < i && index_by_id(all.take(i as int), id@) == Some(k as int),
                None => index_by_id(all.take(i as int), id@) is None,
            },
            match by_commit {
                Some(k) => k < i && index_by_commit(all.take(i as int), id@) == Some(k as int),
                None => index_by_commit(all.take(i as int), id@) is None,
            },
    {
        assert(all.take(i + 1).drop_last() =~= all.take(i as int));
        assert(all.take(i + 1).last() == sessions@[i as int]@);
        if by_id.is_none() && same_text(sessions[i].session_id.as_str(), id) {
            by_id = Some(i);
        }
        if by_commit.is_none() && has_commit(&sessions[i], id) {
            by_commit = Some(i);
        }
    }
    assert(all.take(all.len() as int) =~= all);
    match by_id {
        Some(i) => Ok(i),
        None => match by_commit {
            Some(i) => Ok(i),
            None => {
                let mut why = "no commitor session matches `".to_owned();
                why.append(id);
                why.append("` in this repo's history");
                Err(why)
            },
        },
    }
}

// ── what is shown ───────────────────────────────────────────────────

/// One session of the list.
pub open spec fn listed_session(session: SessionView, number: nat) -> Seq<char> {
    decimal_of(number) + ". "@ + session.session_id + " — "@ + decimal_of(session.commits.len())
        + " commit(s)"@ + (match session.branch {
        Some(b) => " on "@ + b,
        None => Seq::empty(),
    }) + " at "@ + session.timestamp + (if session.reverted {
        " (reverted)"@
    } else {
        Seq::empty()
    }) + "\n"@ + (if session.commits.len() > 0 {
        "   first commit: "@ + short_sha(session.commits[0].sha) + " "@ + summary_of(
            session.commits[0].message,
        ) + " (use `commitor revert "@ + session.session_id + "` to target this session)\n"@
    } else {
        Seq::empty()
    })
}

/// The sessions of the list.
pub open spec fn listed_sessions(sessions: Seq<SessionView>) -> Seq<char>
    decreases sessions.len(),
{
    if sessions.len() == 0 {
        Seq::empty()
    } else {
        listed_sessions(sessions.drop_last()) + listed_session(sessions.last(), sessions.len())
    }
}

/// The list of the first `limit` sessions.
pub open spec fn list_text(sessions: Seq<SessionView>, limit: int) -> Seq<char> {
    "Recent commitor sessions (newest first):\n\n"@ + listed_sessions(
        if sessions.len() <= limit {
            sessions
        } else {
            sessions.take(limit)
        },
    ) + "\nPass `commitor revert <session_id>` to undo a specific session.\n"@
}

/// One commit of a session.
pub open spec fn shown_commit(commit: SessionCommitView) -> Seq<char> {
    "  "@ + short_sha(commit.sha) + " "@ + summary_of(commit.message) + "\n"@ + (
    if commit.files.len() > 0 {
        "    files: "@ + joined(commit.files, ", "@) + "\n"@
    } else {
        Seq::empty()
    })
}

/// The commits of a session.
pub open spec fn shown_commits(commits: Seq<SessionCommitView>) -> Seq<char>
    decreases commits.len(),
{
    if commits.len() == 0 {
        Seq::empty()
    } else {
        shown_commits(commits.drop_last()) + shown_commit(commits.last())
    }
}

/// A session as it is shown.
pub open spec fn session_text(session: SessionView) -> Seq<char> {
    "Session "@ + session.session_id + " — "@ + decimal_of(session.commits.len())
        + " commit(s), recorded at "@ + session.timestamp + "\n"@ + (match session.branch {
        Some(b) => "Branch: "@ + b + "\n"@,
        None => "Branch: (detached HEAD)\n"@,
    }) + (match session.base_branch {
        Some(b) => "Forked from: "@ + b + "\n"@,
        None => Seq::empty(),
    }) + shown_commits(session.commits)
}

fn write_listed(session: &Session, number: usize) -> (r: String)
    requires
        session@.commits.len() > 0 ==> sha_ok(session@.commits[0].sha),
    ensures
        r@ == listed_session(session@, number as nat),
{
    assert(session@.commits.len() == session.commits@.len());
    let mut out = count(number);
    out.append(". ");
    out.append(session.session_id.as_str());
    out.append(" — ");
    out.append(count(session.commits.len()).as_str());
    out.append(" commit(s)");
    let ghost a = out@;
    match &session.branch {
        Some(b) => {
            out.append(" on ");
            out.append(b.as_str());
            assert(out@ =~= a + (" on "@ + b@));
        },
        None => {
            assert(out@ =~= a + Seq::empty());
        },
    }
    out.append(" at ");
    out.append(session.timestamp.as_str());
    let ghost b = out@;
    if session.reverted {
        out.append(" (reverted)");
    } else {
        assert(out@ =~= b + Seq::empty());
    }
    out.append("\n");
    let ghost c = out@;
    if session.commits.len() > 0 {
        let first = &session.commits[0];
        assert(session@.commits[0] == first@);
        let mut line = "   first commit: ".to_owned();
        line.append(shorten(first.sha.as_str()).as_str());
        line.append(" ");
        line.append(summarize(first.message.as_str()).as_str());
        line.append(" (use `commitor revert ");
        line.append(session.session_id.as_str());
        line.append("` to target this session)\n");
        out.append(line.as_str());
    } else {
        assert(out@ =~= c + Seq::empty());
    }
    out
}

/// List the first `limit` sessions.
pub fn list_sessions(sessions: &[Session], limit: usize) -> (r: String)
    requires
        list_ok(session_views(sessions@), limit as int),
    ensures
        r@ == list_text(session_views(sessions@), limit as int),
{
    let ghost all = session_views(sessions@);
    let n: usize = if sessions.len() <= limit {
        sessions.len()
    } else {
        limit
    };
    let mut out = "Recent commitor sessions (newest first):\n\n".to_owned();
    let ghost head = out@;
    assert(head + listed_sessions(all.take(0)) =~= head);
    for i in 0..n
        invariant
            all == session_views(sessions@),
            list_ok(all, limit as int),
            n <= sessions@.len(),
            n <= limit,
            out@ == head + listed_sessions(all.take(i as int)),
    {
        assert(all.take(i + 1).drop_last() =~= all.take(i as int));
        assert(all.take(i + 1).last() == sessions@[i as int]@);
        assert(all[i as int] == sessions@[i as int]@);
        out.append(write_listed(&sessions[i], i + 1).as_str());
        assert(out@ =~= head + listed_sessions(all.take(i + 1)));
    }
    if sessions.len() <= limit {
        assert(all.take(n as int) =~= all);
    }
    out.append("\nPass `commitor revert <session_id>` to undo a specific session.\n");
    out
}

fn write_commit(commit: &SessionCommit) -> (r: String)
    requires
        sha_ok(commit.sha@),
    ensures
        r@ == shown_commit(commit@),
{
    let mut out = "  ".to_owned();
    out.append(shorten(commit.sha.as_str()).as_str());
    out.append(" ");
    out.append(summarize(commit.message.as_str()).as_str());
    out.append("\n");
    let ghost head = out@;
    assert(commit@.files.len() == commit.files@.len());
    if commit.files.len() > 0 {
        out.append("    files: ");
        out.append(join(commit.files.as_slice(), ", ").as_str());
        out.append("\n");
        assert(out@ =~= head + ("    files: "@ + joined(commit@.files, ", "@) + "\n"@));
    } else {
        assert(out@ =~= head + Seq::empty());
    }
    out
}

/// Show a session.
pub fn show_session(session: &Session) -> (r: String)
    requires
        session_ok(session@),
    ensures
        r@ == session_text(session@),
{
    let ghost all = session@.commits;
    assert(all.len() == session.commits@.len());
    let mut out = "Session ".to_owned();
    out.append(session.session_id.as_str());
    out.append(" — ");
    out.append(count(session.commits.len()).as_str());
    out.append(" commit(s), recorded at ");
    out.append(session.timestamp.as_str());
    out.append("\n");
    let ghost a = out@;
    match &session.branch {
        Some(b) => {
            out.append("Branch: ");
            out.append(b.as_str());
            out.append("\n");
            assert(out@ =~= a + ("Branch: "@ + b@ + "\n"@));
        },
        None => {
            out.append("Branch: (detached HEAD)\n");
        },
    }
    let ghost b = out@;
    match &session.base_branch {
        Some(base) => {
            out.append("Forked from: ");
            out.append(base.as_str());
            out.append("\n");
            assert(out@ =~= b + ("Forked from: "@ + base@ + "\n"@));
        },
        None => {
            assert(out@ =~= b + Seq::empty());
        },
    }
    let ghost head = out@;
    assert(head + shown_commits(all.take(0)) =~= head);
    for i in 0..session.commits.len()
        invariant
            all == commit_views(session.commits@),
            all == session@.commits,
            session_ok(session@),
            out@ == head + shown_commits(all.take(i as int)),
    {
        assert(all.take(i + 1).drop_last() =~= all.take(i as int));
        assert(all.take(i + 1).last() == session.commits@[i as int]@);
        assert(sha_ok(session@.commits[i as int].sha));
        out.append(write_commit(&session.commits[i]).as_str());
        assert(out@ =~= head + shown_commits(all.take(i + 1)));
    }
    assert(all.take(all.len() as int) =~= all);
    out
}

// ── the command ─────────────────────────────────────────────────────

/// What is waited for.
#[derive(Debug, Clone, Copy, PartialEq, Eq, Structural)]
pub enum RevertStage {
    /// Whether there are uncommitted changes.
    Dirty,
    /// Whether a commit is pushed.
    Pushed,
    /// The commit before the session.
    Parent,
    /// Whether to go on.
    Confirm,
    /// The reset.
    Reset,
    /// The revert of a commit.
    Undo,
    /// The mark in the log.
    Mark,
    /// Nothing: the run is over.
    Over,
    /// Nothing: the run ended in an error.
    Failed,
}

/// A session that is being undone.
#[derive(Debug)]
pub struct RevertRun {
    pub target: Session,
    pub stage: RevertStage,
    /// How many commits were looked at, or undone.
    pub index: usize,
    pub any_pushed: bool,
    pub any_local: bool,
    /// The commit before the session.
    pub parent: String,
    /// What went wrong, where the run ended in an error.
    pub error: String,
}

/// A session that is being undone, as texts.
pub struct RevertView {
    pub target: SessionView,
    pub stage: RevertStage,
    pub index: int,
    pub any_pushed: bool,
    pub any_local: bool,
    pub parent: Seq<char>,
    pub error: Seq<char>,
}

impl View for RevertRun {
    type V = RevertView;

    open spec fn view(&self) -> RevertView {
        RevertView {
            target: self.target@,
            stage: self.stage,
            index: self.index as int,
            any_pushed: self.any_pushed,
            any_local: self.any_local,
            parent: self.parent@,
            error: self.error@,
        }
    }
}

/// What came of the last action.
#[derive(Debug)]
pub enum RevertEvent {
    /// A yes or a no, or why it could not be told.
    Answer(Result<bool, String>),
    /// What an operation printed, or why it failed.
    Done(Result<String, String>),
    /// The line that was typed.
    Line(String),
}

/// What came of the last action, as texts.
pub enum RevertEventView {
    Answer(Result<bool, Seq<char>>),
    Done(Result<Seq<char>, Seq<char>>),
    Line(Seq<char>),
}

impl View for RevertEvent {
    type V = RevertEventView;

    open spec fn view(&self) -> RevertEventView {
        match self {
            RevertEvent::Answer(answer) => RevertEventView::Answer(
                match answer {
                    Ok(b) => Ok(*b),
                    Err(why) => Err(why@),
                },
            ),
            RevertEvent::Done(outcome) => RevertEventView::Done(
                match outcome {
                    Ok(out) => Ok(out@),
                    Err(why) => Err(why@),
                },
            ),
            RevertEvent::Line(line) => RevertEventView::Line(line@),
        }
    }
}

/// What to do next.
#[derive(Debug)]
pub enum RevertAction {
    /// Find out whether there are uncommitted changes.
    ReadDirty,
    /// Find out whether a commit is on a remote.
    CheckPushed(String),
    /// Find out which commit stands before this one.
    ReadParent(String),
    Ask(String),
    /// Reset the branch, the index and the tree to a commit.
    ResetHard(String),
    /// Make a commit that undoes this one.
    RevertCommit(String),
    /// Mark the session in the log.
    MarkReverted(String),
    /// Leave with success.
    Exit,
    /// Leave with an error.
    Fail(String),
}

/// What to do next, as texts.
pub enum RevertActionView {
    ReadDirty,
    CheckPushed(Seq<char>),
    ReadParent(Seq<char>),
    Ask(Seq<char>),
    ResetHard(Seq<char>),
    RevertCommit(Seq<char>),
    MarkReverted(Seq<char>),
    Exit,
    Fail(Seq<char>),
}

impl View for RevertAction {
    type V = RevertActionView;

    open spec fn view(&self) -> RevertActionView {
        match self {
            RevertAction::ReadDirty => RevertActionView::ReadDirty,
            RevertAction::CheckPushed(sha) => RevertActionView::CheckPushed(sha@),
            RevertAction::ReadParent(sha) => RevertActionView::ReadParent(sha@),
            RevertAction::Ask(question) => RevertActionView::Ask(question@),
            RevertAction::ResetHard(sha) => RevertActionView::ResetHard(sha@),
            RevertAction::RevertCommit(sha) => RevertActionView::RevertCommit(sha@),
            RevertAction::MarkReverted(id) => RevertActionView::MarkReverted(id@),
            RevertAction::Exit => RevertActionView::Exit,
            RevertAction::Fail(why) => RevertActionView::Fail(why@),
        }
    }
}

/// The commit that is to be undone after `index` others, the newest first.
pub open spec fn undone_at(v: RevertView, index: int) -> SessionCommitView {
    v.target.commits[v.target.commits.len() - 1 - index]
}

/// The action that a state waits for.
pub open spec fn revert_action_of(v: RevertView) -> RevertActionView {
    match v.stage {
        RevertStage::Dirty => RevertActionView::ReadDirty,
        RevertStage::Pushed => RevertActionView::CheckPushed(v.target.commits[v.index].sha),
        RevertStage::Parent => RevertActionView::ReadParent(v.target.commits[0].sha),
        RevertStage::Confirm => RevertActionView::Ask("Proceed with the revert? [y/N] "@),
        RevertStage::Reset => RevertActionView::ResetHard(v.parent),
        RevertStage::Undo => RevertActionView::RevertCommit(undone_at(v, v.index).sha),
        RevertStage::Mark => RevertActionView::MarkReverted(v.target.session_id),
        RevertStage::Over => RevertActionView::Exit,
        RevertStage::Failed => RevertActionView::Fail(v.error),
    }
}

/// A state and what is said on the way to it.
pub type Reverted = (RevertView, Seq<char>);

/// Go to a stage without a word.
pub open spec fn revert_to(v: RevertView, stage: RevertStage) -> Reverted {
    (RevertView { stage, ..v }, Seq::empty())
}

/// The run ends in an error.
pub open spec fn revert_failed(v: RevertView, why: Seq<char>) -> Reverted {
    (RevertView { stage: RevertStage::Failed, error: why, ..v }, Seq::empty())
}

/// Why a session is not undone over uncommitted changes.
pub open spec fn dirty_text() -> Seq<char> {
    "Your working tree has uncommitted changes, so `commitor revert` could destroy or clash with that work (a hard reset would discard it entirely).\nCommit or stash your changes first, or pass --force to proceed anyway."@
}

/// Show the session, and look at its commits one by one.
pub open spec fn look(v: RevertView) -> Reverted {
    (RevertView { stage: RevertStage::Pushed, index: 0, ..v }, session_text(v.target))
}

/// What a reset would do.
pub open spec fn reset_preview(v: RevertView) -> Seq<char> {
    "\nThis will DISCARD the "@ + decimal_of(v.target.commits.len())
        + " commit(s) in this session with a hard reset to "@ + short_sha(v.parent)
        + "\nWarning: the commits will be gone, not just unstaged. This cannot be undone for commits that have no other ref pointing at them.\n"@
}

/// What reverting the commits would do.
pub open spec fn undo_preview(v: RevertView) -> Seq<char> {
    "\nThis will create "@ + decimal_of(v.target.commits.len())
        + " new revert commit(s) for the session's commits (newest first).\n"@ + (
    if v.any_local {
        "Some commits were already pushed, so a reset would rewrite shared history — `git revert` is used instead to stay safe.\n"@
    } else {
        "At least one commit is already on a remote; rewriting history is unsafe.\n"@
    })
}

/// Every commit was looked at: commits that are all local are reset away, and
/// others are reverted.
pub open spec fn decide(v: RevertView) -> Reverted {
    if v.any_pushed {
        (RevertView { stage: RevertStage::Confirm, ..v }, undo_preview(v))
    } else {
        revert_to(v, RevertStage::Parent)
    }
}

/// Go on with the next commit that is to be undone, or mark the session.
pub open spec fn undo_next(v: RevertView) -> Reverted {
    if v.index < v.target.commits.len() {
        let commit = undone_at(v, v.index);
        (
            RevertView { stage: RevertStage::Undo, ..v },
            "Reverting "@ + short_sha(commit.sha) + " — "@ + summary_of(commit.message) + "\n"@,
        )
    } else {
        revert_to(v, RevertStage::Mark)
    }
}

/// What is said of a session without a commit before it.
pub open spec fn root_text(why: Seq<char>) -> Seq<char> {
    "the first commit in this session is the repository's root commit — there is nothing before it to reset back to. Revert it manually with `git revert <sha>`, or reset the branch ref yourself.: "@
        + why
}

/// What follows an event. An event that is not waited for changes nothing.
pub open spec fn next_revert(v: RevertView, event: RevertEventView) -> Reverted {
    match (v.stage, event) {
        (RevertStage::Dirty, RevertEventView::Answer(Ok(dirty))) => if dirty {
            revert_failed(v, dirty_text())
        } else {
            look(v)
        },
        (RevertStage::Dirty, RevertEventView::Answer(Err(why))) => revert_failed(v, why),
        (RevertStage::Pushed, RevertEventView::Answer(Ok(pushed))) => {
            let w = RevertView {
                index: v.index + 1,
                any_pushed: v.any_pushed || pushed,
                any_local: v.any_local || !pushed,
                ..v
            };
            if w.index < v.target.commits.len() {
                (w, Seq::empty())
            } else {
                decide(w)
            }
        },
        (RevertStage::Pushed, RevertEventView::Answer(Err(why))) => revert_failed(
            v,
            "couldn't check whether "@ + v.target.commits[v.index].sha + " is pushed: "@ + why,
        ),
        (RevertStage::Parent, RevertEventView::Done(Ok(parent))) => {
            let w = RevertView { parent, ..v };
            (RevertView { stage: RevertStage::Confirm, ..w }, reset_preview(w))
        },
        (RevertStage::Parent, RevertEventView::Done(Err(why))) => revert_failed(v, root_text(why)),
        (RevertStage::Confirm, RevertEventView::Line(line)) => if !says_yes(line) {
            (
                RevertView { stage: RevertStage::Over, ..v },
                "Aborted — nothing was changed.\n"@,
            )
        } else if v.any_pushed {
            undo_next(RevertView { index: 0, ..v })
        } else {
            (
                RevertView { stage: RevertStage::Reset, ..v },
                "Resetting to "@ + short_sha(v.parent) + "…\n"@,
            )
        },
        (RevertStage::Reset, RevertEventView::Done(Ok(_))) => revert_to(v, RevertStage::Mark),
        (RevertStage::Reset, RevertEventView::Done(Err(why))) => revert_failed(v, why),
        (RevertStage::Undo, RevertEventView::Done(Ok(_))) => undo_next(
            RevertView { index: v.index + 1, ..v },
        ),
        (RevertStage::Undo, RevertEventView::Done(Err(why))) => revert_failed(v, why),
        (RevertStage::Mark, RevertEventView::Done(Ok(_))) => (
            RevertView { stage: RevertStage::Over, ..v },
            "Marked session "@ + v.target.session_id + " as reverted.\n"@,
        ),
        (RevertStage::Mark, RevertEventView::Done(Err(why))) => revert_failed(v, why),
        _ => (v, Seq::empty()),
    }
}

/// The run is at no impossible place, and every identifier it shows can be
/// cut.
pub open spec fn revert_wf(v: RevertView) -> bool {
    &&& session_ok(v.target)
    &&& v.target.commits.len() > 0
    &&& 0 <= v.index <= v.target.commits.len()
    &&& (v.stage == RevertStage::Pushed || v.stage == RevertStage::Undo) ==> v.index
        < v.target.commits.len()
    &&& sha_ok(v.parent)
}

/// A parent that git names can be cut for display.
pub open spec fn event_ok(v: RevertView, event: RevertEventView) -> bool {
    v.stage == RevertStage::Parent ==> (event matches RevertEventView::Done(Ok(parent))
        ==> sha_ok(parent))
}

// ── the start ───────────────────────────────────────────────────────

/// What the command begins with.
#[derive(Debug)]
pub enum RevertStart {
    /// Something is printed, and the run is over.
    Over(String),
    /// A session is undone.
    Undo(RevertRun, String),
    /// The run ends in an error.
    Failed(String),
}

/// What the command begins with, as texts.
pub enum RevertStartView {
    Over(Seq<char>),
    Undo(RevertView, Seq<char>),
    Failed(Seq<char>),
}

impl View for RevertStart {
    type V = RevertStartView;

    open spec fn view(&self) -> RevertStartView {
        match self {
            RevertStart::Over(out) => RevertStartView::Over(out@),
            RevertStart::Undo(run, out) => RevertStartView::Undo(run@, out@),
            RevertStart::Failed(why) => RevertStartView::Failed(why@),
        }
    }
}

/// The session to undo: the one that is named, else the newest.
pub open spec fn target_of(flags: RevertFlags, newest_first: Seq<SessionView>) -> Option<int> {
    match text(flags.session) {
        Some(id) => session_at(newest_first, id),
        None => Some(0),
    }
}

/// What is said of a session that was undone before.
pub open spec fn already_text(session: SessionView) -> Seq<char> {
    "Session "@ + session.session_id + " was already reverted"@ + (match session.reverted_at {
        Some(at) => " at "@ + at,
        None => Seq::empty(),
    }) + " — nothing to do.\n"@
}

/// A session of which nothing was undone yet.
pub open spec fn untouched(target: SessionView) -> RevertView {
    RevertView {
        target,
        stage: RevertStage::Dirty,
        index: 0,
        any_pushed: false,
        any_local: false,
        parent: Seq::empty(),
        error: Seq::empty(),
    }
}

/// How many sessions are listed.
pub open spec fn list_limit(flags: RevertFlags) -> int {
    match flags.limit {
        Some(n) => n as int,
        None => 10,
    }
}

/// What the command begins with. The sessions come in the order in which they
/// were recorded.
pub open spec fn revert_start(flags: RevertFlags, sessions: Seq<SessionView>) -> RevertStartView {
    let newest_first = sessions.reverse();
    if sessions.len() == 0 {
        RevertStartView::Over("No commitor commit history found for this repo\n"@)
    } else if flags.list {
        RevertStartView::Over(list_text(newest_first, list_limit(flags)))
    } else {
        match target_of(flags, newest_first) {
            None => RevertStartView::Failed(
                "no commitor session matches `"@ + text(flags.session)->0
                    + "` in this repo's history"@,
            ),
            Some(i) => {
                let target = newest_first[i];
                if target.reverted {
                    RevertStartView::Over(already_text(target))
                } else if flags.force {
                    let (v, said) = look(untouched(target));
                    RevertStartView::Undo(v, said)
                } else {
                    RevertStartView::Undo(untouched(target), Seq::empty())
                }
            },
        }
    }
}

/// The command can show what it has to show: the identifiers that it cuts can
/// be cut, and the session that it undoes has commits.
pub open spec fn newest_ok(flags: RevertFlags, newest_first: Seq<SessionView>) -> bool {
    if newest_first.len() == 0 {
        true
    } else if flags.list {
        list_ok(newest_first, list_limit(flags))
    } else {
        target_of(flags, newest_first) matches Some(i) ==> (!newest_first[i].reverted
            ==> session_ok(newest_first[i]) && newest_first[i].commits.len() > 0)
    }
}

/// The command can show what it has to show of sessions in the order in which
/// they were recorded.
pub open spec fn start_ok(flags: RevertFlags, sessions: Seq<SessionView>) -> bool {
    newest_ok(flags, sessions.reverse())
}

// ── the machine ─────────────────────────────────────────────────────

fn silence() -> (r: String)
    ensures
        r@ == Seq::<char>::empty(),
{
    let r = String::new();
    assert(r@ =~= Seq::empty());
    r
}

impl RevertRun {
    /// The action that is waited for.
    pub fn action(&self) -> (r: RevertAction)
        requires
            revert_wf(self@),
        ensures
            r@ == revert_action_of(self@),
    {
        let n = self.target.commits.len();
        assert(self@.target.commits.len() == n);
        match self.stage {
            RevertStage::Dirty => RevertAction::ReadDirty,
            RevertStage::Pushed => RevertAction::CheckPushed(
                self.target.commits[self.index].sha.clone(),
            ),
            RevertStage::Parent => RevertAction::ReadParent(self.target.commits[0].sha.clone()),
            RevertStage::Confirm => RevertAction::Ask("Proceed with the revert? [y/N] ".to_owned()),
            RevertStage::Reset => RevertAction::ResetHard(self.parent.clone()),
            RevertStage::Undo => RevertAction::RevertCommit(
                self.target.commits[n - 1 - self.index].sha.clone(),
            ),
            RevertStage::Mark => RevertAction::MarkReverted(self.target.session_id.clone()),
            RevertStage::Over => RevertAction::Exit,
            RevertStage::Failed => RevertAction::Fail(self.error.clone()),
        }
    }

    fn go_to(&mut self, stage: RevertStage) -> (r: String)
        ensures
            (final(self)@, r@) == revert_to(old(self)@, stage),
    {
        self.stage = stage;
        silence()
    }

    fn fail(&mut self, why: String) -> (r: String)
        ensures
            (final(self)@, r@) == revert_failed(old(self)@, why@),
    {
        self.stage = RevertStage::Failed;
        self.error = why;
        silence()
    }

    fn show(&mut self) -> (r: String)
        requires
            session_ok(old(self)@.target),
        ensures
            (final(self)@, r@) == look(old(self)@),
    {
        self.stage = RevertStage::Pushed;
        self.index = 0;
        show_session(&self.target)
    }

    fn preview(&mut self) -> (r: String)
        ensures
            (final(self)@, r@) == decide(old(self)@),
    {
        assert(self@.target.commits.len() == self.target.commits@.len());
        if self.any_pushed {
            self.stage = RevertStage::Confirm;
            let mut out = "\nThis will create ".to_owned();
            out.append(count(self.target.commits.len()).as_str());
            out.append(" new revert commit(s) for the session's commits (newest first).\n");
            if self.any_local {
                out.append(
                    "Some commits were already pushed, so a reset would rewrite shared history — `git revert` is used instead to stay safe.\n",
                );
            } else {
                out.append(
                    "At least one commit is already on a remote; rewriting history is unsafe.\n",
                );
            }
            out
        } else {
            self.go_to(RevertStage::Parent)
        }
    }

    fn take_pushed(&mut self, pushed: bool) -> (r: String)
        requires
            revert_wf(old(self)@),
            old(self).stage == RevertStage::Pushed,
        ensures
            (final(self)@, r@) == next_revert(old(self)@, RevertEventView::Answer(Ok(pushed))),
            revert_wf(final(self)@),
    {
        let n = self.target.commits.len();
        assert(self@.target.commits.len() == n);
        self.index = self.index + 1;
        if pushed {
            self.any_pushed = true;
        } else {
            self.any_local = true;
        }
        if self.index < n {
            silence()
        } else {
            self.preview()
        }
    }

    fn take_parent(&mut self, parent: String) -> (r: String)
        requires
            revert_wf(old(self)@),
            old(self).stage == RevertStage::Parent,
            sha_ok(parent@),
        ensures
            (final(self)@, r@) == next_revert(old(self)@, RevertEventView::Done(Ok(parent@))),
            revert_wf(final(self)@),
    {
        assert(self@.target.commits.len() == self.target.commits@.len());
        let mut out = "\nThis will DISCARD the ".to_owned();
        out.append(count(self.target.commits.len()).as_str());
        out.append(" commit(s) in this session with a hard reset to ");
        out.append(shorten(parent.as_str()).as_str());
        out.append(
            "\nWarning: the commits will be gone, not just unstaged. This cannot be undone for commits that have no other ref pointing at them.\n",
        );
        self.parent = parent;
        self.stage = RevertStage::Confirm;
        out
    }

    fn undo(&mut self) -> (r: String)
        requires
            session_ok(old(self)@.target),
            old(self).index <= old(self).target.commits@.len(),
        ensures
            (final(self)@, r@) == undo_next(old(self)@),
    {
        let n = self.target.commits.len();
        assert(self@.target.commits.len() == n);
        if self.index < n {
            let commit = &self.target.commits[n - 1 - self.index];
            assert(self@.target.commits[n - 1 - self.index] == commit@);
            let mut out = "Reverting ".to_owned();
            out.append(shorten(commit.sha.as_str()).as_str());
            out.append(" — ");
            out.append(summarize(commit.message.as_str()).as_str());
            out.append("\n");
            self.stage = RevertStage::Undo;
            out
        } else {
            self.go_to(RevertStage::Mark)
        }
    }

    fn take_answer(&mut self, answer: Result<bool, String>) -> (r: String)
        requires
            revert_wf(old(self)@),
        ensures
            (final(self)@, r@) == next_revert(
                old(self)@,
                RevertEventView::Answer(
                    match answer {
                        Ok(b) => Ok(b),
                        Err(why) => Err(why@),
                    },
                ),
            ),
            revert_wf(final(self)@),
    {
        assert(self@.target.commits.len() == self.target.commits@.len());
        match (self.stage, answer) {
            (RevertStage::Dirty, Ok(dirty)) => if dirty {
                self.fail(
                    "Your working tree has uncommitted changes, so `commitor revert` could destroy or clash with that work (a hard reset would discard it entirely).\nCommit or stash your changes first, or pass --force to proceed anyway.".to_owned(),
                )
            } else {
                self.show()
            },
            (RevertStage::Dirty, Err(why)) => self.fail(why),
            (RevertStage::Pushed, Ok(pushed)) => self.take_pushed(pushed),
            (RevertStage::Pushed, Err(why)) => {
                let mut out = "couldn't check whether ".to_owned();
                out.append(self.target.commits[self.index].sha.as_str());
                out.append(" is pushed: ");
                out.append(why.as_str());
                self.fail(out)
            },
            _ => silence(),
        }
    }

    fn take_outcome(&mut self, outcome: Result<String, String>) -> (r: String)
        requires
            revert_wf(old(self)@),
            old(self).stage == RevertStage::Parent ==> (outcome matches Ok(parent) ==> sha_ok(
                parent@,
            )),
        ensures
            (final(self)@, r@) == next_revert(
                old(self)@,
                RevertEventView::Done(
                    match outcome {
                        Ok(out) => Ok(out@),
                        Err(why) => Err(why@),
                    },
                ),
            ),
            revert_wf(final(self)@),
    {
        let n = self.target.commits.len();
        assert(self@.target.commits.len() == n);
        match (self.stage, outcome) {
            (RevertStage::Parent, Ok(parent)) => self.take_parent(parent),
            (RevertStage::Parent, Err(why)) => {
                let mut out =
                    "the first commit in this session is the repository's root commit — there is nothing before it to reset back to. Revert it manually with `git revert <sha>`, or reset the branch ref yourself.: ".to_owned();
                out.append(why.as_str());
                self.fail(out)
            },
            (RevertStage::Reset, Ok(_)) => self.go_to(RevertStage::Mark),
            (RevertStage::Reset, Err(why)) => self.fail(why),
            (RevertStage::Undo, Ok(_)) => {
                self.index = self.index + 1;
                self.undo()
            },
            (RevertStage::Undo, Err(why)) => self.fail(why),
            (RevertStage::Mark, Ok(_)) => {
                let mut out = "Marked session ".to_owned();
                out.append(self.target.session_id.as_str());
                out.append(" as reverted.\n");
                self.stage = RevertStage::Over;
                out
            },
            (RevertStage::Mark, Err(why)) => self.fail(why),
            _ => silence(),
        }
    }

    fn take_line(&mut self, line: String) -> (r: String)
        requires
            revert_wf(old(self)@),
        ensures
            (final(self)@, r@) == next_revert(old(self)@, RevertEventView::Line(line@)),
            revert_wf(final(self)@),
    {
        assert(self@.target.commits.len() == self.target.commits@.len());
        match self.stage {
            RevertStage::Confirm => if !prompt_confirm(line.as_str()) {
                self.stage = RevertStage::Over;
                "Aborted — nothing was changed.\n".to_owned()
            } else if self.any_pushed {
                self.index = 0;
                self.undo()
            } else {
                let mut out = "Resetting to ".to_owned();
                out.append(shorten(self.parent.as_str()).as_str());
                out.append("…\n");
                self.stage = RevertStage::Reset;
                out
            },
            _ => silence(),
        }
    }

    /// Take note of what came of the last action, and return what to print. An
    /// event that is not waited for changes nothing.
    pub fn handle(&mut self, event: RevertEvent) -> (r: String)
        requires
            revert_wf(old(self)@),
            event_ok(old(self)@, event@),
        ensures
            (final(self)@, r@) == next_revert(old(self)@, event@),
            revert_wf(final(self)@),
    {
        match event {
            RevertEvent::Answer(answer) => self.take_answer(answer),
            RevertEvent::Done(outcome) => self.take_outcome(outcome),
            RevertEvent::Line(line) => self.take_line(line),
        }
    }
}

fn newest_first(sessions: Vec<Session>) -> (r: Vec<Session>)
    ensures
        r@ == sessions@.reverse(),
{
    let ghost all = sessions@;
    let mut rest = sessions;
    let mut out: Vec<Session> = Vec::new();
    while rest.len() > 0
        invariant
            rest@.len() + out@.len() == all.len(),
            rest@ == all.take(rest@.len() as int),
            out@ == all.reverse().take(out@.len() as int),
        decreases rest@.len(),
    {
        let ghost done = out@;
        let ghost n = rest@.len();
        match rest.pop() {
            Some(s) => {
                assert(s == all[n - 1]);
                out.push(s);
                assert(all.reverse()[done.len() as int] == s);
                assert(all.reverse().take(done.len() as int + 1) =~= all.reverse().take(
                    done.len() as int,
                ).push(s));
            },
            None => {},
        }
        assert(rest@ =~= all.take(rest@.len() as int));
    }
    assert(all.reverse().take(all.len() as int) =~= all.reverse());
    out
}

proof fn lemma_empty_sha_is_ok(s: Seq<char>)
    requires
        s.len() == 0,
    ensures
        sha_ok(s),
{
    encode_utf8_valid_utf8(s);
}

fn begin(target: Session, force: bool) -> (r: (RevertRun, String))
    requires
        session_ok(target@),
        target@.commits.len() > 0,
    ensures
        (r.0@, r.1@) == if force {
            look(untouched(target@))
        } else {
            (untouched(target@), Seq::empty())
        },
        revert_wf(r.0@),
{
    let mut run = RevertRun {
        target,
        stage: RevertStage::Dirty,
        index: 0,
        any_pushed: false,
        any_local: false,
        parent: silence(),
        error: silence(),
    };
    proof {
        lemma_empty_sha_is_ok(run.parent@);
    }
    if force {
        let said = run.show();
        (run, said)
    } else {
        (run, silence())
    }
}

fn can_show(session: &Session) -> (r: bool)
    ensures
        r == session_ok(session@),
{
    let ghost views = session@.commits;
    for i in 0..session.commits.len()
        invariant
            views == session@.commits,
            views == commit_views(session.commits@),
            forall|j: int| 0 <= j < i ==> sha_ok((#[trigger] views[j]).sha),
    {
        assert(views[i as int] == session.commits@[i as int]@);
        if !can_shorten(session.commits[i].sha.as_str()) {
            assert(!sha_ok(session@.commits[i as int].sha));
            return false;
        }
    }
    true
}

fn can_list(sessions: &[Session], limit: usize) -> (r: bool)
    ensures
        r == list_ok(session_views(sessions@), limit as int),
{
    let ghost all = session_views(sessions@);
    let n: usize = if sessions.len() < limit {
        sessions.len()
    } else {
        limit
    };
    for i in 0..n
        invariant
            all == session_views(sessions@),
            n <= sessions@.len(),
            n <= limit,
            forall|j: int|
                0 <= j < i ==> ((#[trigger] all[j]).commits.len() > 0 ==> sha_ok(
                    all[j].commits[0].sha,
                )),
    {
        let commits = &sessions[i].commits;
        assert(all[i as int] == sessions@[i as int]@);
        assert(all[i as int].commits.len() == commits@.len());
        if commits.len() > 0 {
            assert(all[i as int].commits[0] == commits@[0]@);
            if !can_shorten(commits[0].sha.as_str()) {
                return false;
            }
        }
    }
    true
}

/// Whether the command can show what it has to show. The sessions come with the
/// newest first.
pub fn can_start(flags: &RevertFlags, newest_first: &[Session]) -> (r: bool)
    ensures
        r == newest_ok(*flags, session_views(newest_first@)),
{
    if newest_first.len() == 0 {
        return true;
    }
    if flags.list {
        let limit: usize = match flags.limit {
            Some(n) => n,
            None => 10,
        };
        return can_list(newest_first, limit);
    }
    let found: Result<usize, String> = match &flags.session {
        Some(id) => find_session(newest_first, id.as_str()),
        None => Ok(0),
    };
    match found {
        Err(_) => true,
        Ok(i) => {
            let target = &newest_first[i];
            assert(session_views(newest_first@)[i as int] == target@);
            assert(target@.commits.len() == target.commits@.len());
            target.reverted || (target.commits.len() > 0 && can_show(target))
        },
    }
}

/// Begin to undo a session, or list the sessions.
pub fn run(flags: &RevertFlags, sessions: Vec<Session>) -> (r: RevertStart)
    requires
        start_ok(*flags, session_views(sessions@)),
    ensures
        r@ == revert_start(*flags, session_views(sessions@)),
        r matches RevertStart::Undo(run, _) ==> revert_wf(run@),
{
    let ghost all = session_views(sessions@);
    if sessions.len() == 0 {
        return RevertStart::Over("No commitor commit history found for this repo\n".to_owned());
    }
    let sessions = newest_first(sessions);
    assert(session_views(sessions@) =~= all.reverse());
    if flags.list {
        let limit: usize = match flags.limit {
            Some(n) => n,
            None => 10,
        };
        return RevertStart::Over(list_sessions(sessions.as_slice(), limit));
    }
    let found: Result<usize, String> = match &flags.session {
        Some(id) => find_session(sessions.as_slice(), id.as_str()),
        None => Ok(0),
    };
    match found {
        Err(why) => RevertStart::Failed(why),
        Ok(i) => {
            let mut sessions = sessions;
            assert(all.reverse()[i as int] == sessions@[i as int]@);
            let target = sessions.remove(i);
            if target.reverted {
                let mut out = "Session ".to_owned();
                out.append(target.session_id.as_str());
                out.append(" was already reverted");
                let ghost head = out@;
                match &target.reverted_at {
                    Some(at) => {
                        out.append(" at ");
                        out.append(at.as_str());
                        assert(out@ =~= head + (" at "@ + at@));
                    },
                    None => {
                        assert(out@ =~= head + Seq::empty());
                    },
                }
                out.append(" — nothing to do.\n");
                return RevertStart::Over(out);
            }
            let (run, said) = begin(target, flags.force);
            RevertStart::Undo(run, said)
        },
    }
}

// ── laws ────────────────────────────────────────────────────────────

/// The action changes the repository.
pub open spec fn is_change(action: RevertActionView) -> bool {
    match action {
        RevertActionView::ResetHard(_) => true,
        RevertActionView::RevertCommit(_) => true,
        RevertActionView::MarkReverted(_) => true,
        _ => false,
    }
}

/// What was found out of the commits that were looked at stays true: there is a
/// pushed commit once one was seen, and until then every commit is local. A
/// reset is at hand only where all commits were looked at and none is pushed.
pub open spec fn told_truly(v: RevertView) -> bool {
    &&& revert_wf(v)
    &&& (v.stage == RevertStage::Parent || v.stage == RevertStage::Reset) ==> !v.any_pushed
    &&& v.stage == RevertStage::Undo ==> v.any_pushed
}

/// Shared history is never rewritten: once a commit of the session is known to
/// be pushed, no reset follows.
pub proof fn lemma_pushed_commits_are_never_reset(v: RevertView, event: RevertEventView)
    requires
        told_truly(v),
        event_ok(v, event),
    ensures
        v.any_pushed ==> !(revert_action_of(v) is ResetHard),
        v.any_pushed ==> next_revert(v, event).0.any_pushed,
        v.stage == RevertStage::Pushed && event == RevertEventView::Answer(Ok(true))
            ==> next_revert(v, event).0.any_pushed,
        told_truly(next_revert(v, event).0),
        next_revert(v, event).0.target == v.target,
{
}

/// Nothing is changed before the user confirms: the first change follows a line
/// that says yes.
pub proof fn lemma_nothing_is_undone_without_a_yes(v: RevertView, event: RevertEventView)
    requires
        !is_change(revert_action_of(v)),
        is_change(revert_action_of(next_revert(v, event).0)),
    ensures
        v.stage == RevertStage::Confirm,
        event matches RevertEventView::Line(line) && says_yes(line),
{
}

/// Uncommitted changes stop the run before anything is shown or changed.
pub proof fn lemma_uncommitted_changes_stop_the_run(v: RevertView)
    requires
        v.stage == RevertStage::Dirty,
    ensures
        revert_action_of(next_revert(v, RevertEventView::Answer(Ok(true))).0)
            == RevertActionView::Fail(dirty_text()),
{
}

/// Pushed commits are reverted from the newest to the oldest, and the session
/// is marked after the last of them.
pub proof fn lemma_commits_are_undone_newest_first(v: RevertView, out: Seq<char>)
    requires
        told_truly(v),
        v.stage == RevertStage::Undo,
    ensures
        revert_action_of(v) == RevertActionView::RevertCommit(
            v.target.commits[v.target.commits.len() - 1 - v.index].sha,
        ),
        ({
            let w = next_revert(v, RevertEventView::Done(Ok(out))).0;
            &&& w.index == v.index + 1
            &&& v.index + 1 < v.target.commits.len() ==> w.stage == RevertStage::Undo
            &&& v.index + 1 == v.target.commits.len() ==> w.stage == RevertStage::Mark
        }),
{
}

/// A session that was undone before is left alone.
pub proof fn lemma_reverted_sessions_are_left_alone(
    flags: RevertFlags,
    sessions: Seq<SessionView>,
    i: int,
)
    requires
        sessions.len() > 0,
        !flags.list,
        target_of(flags, sessions.reverse()) == Some(i),
        sessions.reverse()[i].reverted,
    ensures
        revert_start(flags, sessions) is Over,
{
}

} // verus!
