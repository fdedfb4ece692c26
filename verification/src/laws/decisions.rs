//! Decisions: whom a command concerns, when it fails, and what it does first.

use vstd::prelude::*;
use vstd::utf8::is_ascii_chars;

use crate::admin::{grant_admin, is_admin, revoke_admin};
use crate::analysis::{AnalyzeRequest, AnalyzeResponse};
use crate::analysis::collect::{collect_diff, Collection, UntrackedFile, WorkingChanges};
use crate::analysis::reply::{
    analyze_request, error_message, unreachable_text, AnalyzeError, RateStatus, Reply,
};
use crate::analysis::request::{analyze_with_key, analyze_with_mode};
use crate::auth::{
    backend_is_admin, check_auth_status, login, logout, plan_for_key, MeResponse, Removal,
};
use crate::bytes::byte_prefix;
use crate::changelog::{changelog_output, ChangelogFlags, ChangelogOutputView, EntryView};
use crate::cli::{
    is_server_facing, notify_update_available, run_update, Command, Notice, UpdateStep,
};
use crate::commit::answers::prompt_confirm;
use crate::commit::branch::{hint_of, typed_name};
use crate::commit::execute::ensure_tree_unchanged;
use crate::engine::gemini::{call_gemini, GenerateResponse};
use crate::engine::git::{add, apply_cached, commit, GitCommand};
use crate::engine::history::{record_session, session_id_of, Session, SessionCommit};
use crate::engine::update::{
    newer, pending_version, record_pending_version, update_check_due, Pending, ReleaseInfo,
};
use crate::laws::texts::{
    blank, lemma_occurs_inside, lemma_prefix_is_taken_off, lemma_trimmed, tight,
};
use crate::letters::ascii_lowered;
use crate::login::{callback_url, waiting_text};
use crate::scan::{check_flags, ensure_work_tree, report, ScanFlags, ScanReport};
use crate::text::{occurs, text, text_ref, texts, trimmed};

verus! {

// ── commands ────────────────────────────────────────────────────────

/// Users are told of a newer release before the commands that have to do with
/// the backend, and before no others.
pub proof fn lemma_who_is_told_of_releases(command: Command, told: bool)
    requires
        call_ensures(is_server_facing, (command,), told),
    ensures
        told <==> command == Command::Login || command == Command::Logout || command
            == Command::Whoami || command == Command::Scan || command == Command::Commit,
{
}

/// A yes is `y` or `yes`, in any case of letters and with any white space
/// around it; nothing else in ASCII is.
pub proof fn lemma_what_a_yes_is(line: &str, yes: bool)
    requires
        call_ensures(prompt_confirm, (line,), yes),
        is_ascii_chars(trimmed(line@)),
    ensures
        yes <==> ascii_lowered(trimmed(line@)) == "y"@ || ascii_lowered(trimmed(line@)) == "yes"@,
{
}

/// A scan of a range cannot also ask for all unstaged changes; any other flags
/// go together, and a scan outside a repository is refused.
pub proof fn lemma_which_scans_are_refused(
    flags: &ScanFlags,
    checked: Result<(), String>,
    inside: bool,
    placed: Result<(), String>,
    listed: Result<(), String>,
)
    requires
        call_ensures(check_flags, (flags,), checked),
        call_ensures(ensure_work_tree, (inside,), placed),
        call_ensures(crate::changelog::ensure_work_tree, (inside,), listed),
    ensures
        checked is Err <==> flags.diff_range is Some && flags.all,
        placed is Ok <==> inside,
        listed is Ok <==> inside,
{
}

/// A strict scan fails exactly where the backend finds more than one change;
/// any other scan succeeds.
pub proof fn lemma_which_scans_fail(
    flags: &ScanFlags,
    files: &[String],
    response: &AnalyzeResponse,
    rate: &RateStatus,
    color: bool,
    r: ScanReport,
)
    requires
        call_ensures(report, (flags, files, response, rate, color), r),
    ensures
        r.success <==> !flags.strict || response.groups@.len() <= 1,
        r.json ==> flags.json,
{
}

/// The changelog is printed as JSON, as Markdown or for the terminal, as it is
/// asked for, and from all commits; without a commit that is said, with the
/// range.
pub proof fn lemma_how_a_changelog_is_printed(
    flags: ChangelogFlags,
    entries: Seq<EntryView>,
    color: bool,
)
    ensures
        entries.len() > 0 ==> (changelog_output(flags, entries, color) is Json <==> flags.json),
        changelog_output(flags, entries, color) matches ChangelogOutputView::Json(report)
            ==> report.total_commits == entries.len() && (flags.range matches Some(range)
            ==> report.range == range@),
        entries.len() == 0 ==> (changelog_output(flags, entries, color) is Json <==> flags.json
            && !flags.markdown),
        entries.len() == 0 && flags.markdown && flags.range is Some ==> (changelog_output(
            flags,
            entries,
            color,
        ) matches ChangelogOutputView::Text(said) && occurs(said, flags.range->0@)),
{
    if entries.len() == 0 && flags.markdown && flags.range is Some {
        let range = flags.range->0@;
        lemma_occurs_inside(
            "# Changelog\n\n_No Conventional Commits found in range `"@,
            range,
            "`._\n"@,
        );
    }
}

// ── the backend ─────────────────────────────────────────────────────

/// An analysis is had exactly from a good answer that can be read, and it is
/// that answer. Without an answer the backend counts as unavailable.
pub proof fn lemma_when_there_is_an_analysis(
    url: &str,
    reply: Reply,
    r: Result<(AnalyzeResponse, RateStatus), AnalyzeError>,
)
    requires
        call_ensures(analyze_request, (url, reply), r),
    ensures
        r is Ok <==> (reply matches Reply::Answer { status, parsed, .. } && status == 200 && parsed
            is Ok),
        r matches Ok(answer) ==> (reply matches Reply::Answer { parsed, .. } && parsed == Ok::<
            AnalyzeResponse,
            String,
        >(answer.0)),
        reply is Unreachable ==> (r matches Err(e) && e@ is Unavailable),
        reply matches Reply::Unreachable(cause) ==> (r matches Err(e) && occurs(
            error_message(e@),
            cause@,
        ) && occurs(error_message(e@), url@)),
{
    if let Reply::Unreachable(cause) = reply {
        let s = unreachable_text(url@, cause@);
        let a = "couldn't reach the Commitor API at "@;
        let b = "). Is your backend running? Set COMMITOR_API_URL if it lives elsewhere."@;
        assert(s =~= (a + url@ + " ("@) + cause@ + b);
        lemma_occurs_inside(a + url@ + " ("@, cause@, b);
        assert(s =~= a + url@ + (" ("@ + cause@ + b));
        lemma_occurs_inside(a, url@, " ("@ + cause@ + b);
    }
}

/// A request holds the patch, the context and the mode that are given; a scan
/// asks in the mode of a scan; and a patch of up to 190000 characters is never
/// refused for its size.
pub proof fn lemma_what_is_asked_of_the_backend(
    plan: Option<&str>,
    patch: &'static str,
    mode: &'static str,
    context: Option<&'static str>,
    r: Result<AnalyzeRequest<'static>, AnalyzeError>,
    s: Result<AnalyzeRequest<'static>, AnalyzeError>,
)
    requires
        call_ensures(analyze_with_mode, (plan, patch, mode, context), r),
        call_ensures(analyze_with_key, (plan, patch, context), s),
    ensures
        patch@.len() <= 190_000 ==> r is Ok && s is Ok,
        r matches Ok(request) ==> request.diff@ == patch@ && text_ref(request.context) == text_ref(
            context,
        ) && text_ref(request.mode) == Some(mode@),
        s matches Ok(request) ==> request.diff@ == patch@ && text_ref(request.context) == text_ref(
            context,
        ) && text_ref(request.mode) == Some("scan"@),
        r is Ok <==> s is Ok,
{
}

/// An account is had exactly from a good answer that can be read.
pub proof fn lemma_when_there_is_an_account(
    status: u16,
    status_text: &str,
    url: &str,
    body: &str,
    parsed: Result<MeResponse, String>,
    r: Result<MeResponse, String>,
)
    requires
        call_ensures(check_auth_status, (status, status_text, url, body, parsed), r),
    ensures
        r is Ok <==> status == 200 && parsed is Ok,
        r is Ok ==> r == parsed,
{
}

/// The plan and the role are those of the account, and unknown where the
/// account is.
pub proof fn lemma_what_an_account_tells(
    me: &Result<MeResponse, String>,
    plan: Result<String, String>,
    admin: Result<bool, String>,
)
    requires
        call_ensures(plan_for_key, (me,), plan),
        call_ensures(backend_is_admin, (me,), admin),
    ensures
        plan is Ok <==> me is Ok,
        admin is Ok <==> me is Ok,
        me matches Ok(account) ==> (admin == Ok::<bool, String>(account.admin == Some(true))),
        me matches Ok(account) ==> (account.plan matches Some(p) ==> (plan matches Ok(q) && q@
            == p@)),
{
}

/// A key is logged in with exactly where it is not blank, without the white
/// space around it.
pub proof fn lemma_which_keys_are_tried(raw: &str, r: Result<String, String>)
    requires
        call_ensures(login, (raw,), r),
    ensures
        r is Ok <==> trimmed(raw@).len() > 0,
        r matches Ok(key) ==> key@ == trimmed(raw@),
{
}

/// The role of an admin is granted exactly where the backend verified it, and
/// it is active exactly where a record says so; removing a file that is not
/// there is no error.
pub proof fn lemma_the_role_must_be_verified(
    verified: &Result<bool, String>,
    granted: Result<String, String>,
    state: Option<bool>,
    active: bool,
    removal: &Removal,
    path: &str,
    revoked: Result<String, String>,
    left: Result<String, String>,
)
    requires
        call_ensures(grant_admin, (verified,), granted),
        call_ensures(is_admin, (state,), active),
        call_ensures(revoke_admin, (removal, path), revoked),
        call_ensures(logout, (removal, path), left),
    ensures
        granted is Ok <==> *verified == Ok::<bool, String>(true),
        active <==> state == Some(true),
        revoked is Err <==> removal is Failed,
        left is Err <==> removal is Failed,
{
}

/// A model's text is the first one of its first answer, where the call
/// succeeded and the reply could be read.
pub proof fn lemma_what_a_model_said(
    success: bool,
    status: u16,
    body: &str,
    parsed: &Result<GenerateResponse, String>,
    r: Result<String, String>,
)
    requires
        call_ensures(call_gemini, (success, status, body, parsed), r),
    ensures
        r is Ok <==> success && (parsed matches Ok(reply) && reply.candidates@.len() > 0
            && reply.candidates@[0].parts@.len() > 0),
        r matches Ok(said) ==> (parsed matches Ok(reply) && said@
            == reply.candidates@[0].parts@[0]@),
{
}

// ── releases ────────────────────────────────────────────────────────

/// A release is looked for when none was before, and then once a day has
/// passed.
pub proof fn lemma_when_a_release_is_looked_for(
    seconds: u64,
    first: bool,
    later: bool,
)
    requires
        call_ensures(update_check_due, (None,), first),
        call_ensures(update_check_due, (Some(seconds),), later),
    ensures
        first,
        later <==> seconds >= 24 * 60 * 60,
{
}

/// Before a command nothing is done for those who do not want to be told; a
/// release that is known to be newer is told of; and only else is one looked
/// for.
pub proof fn lemma_what_is_done_before_a_command(
    allowed: bool,
    pending: &Pending,
    elapsed: Result<Option<u64>, String>,
    notice: Notice,
)
    requires
        call_ensures(notify_update_available, (allowed, pending, elapsed), notice),
    ensures
        allowed ==> notice is Nothing,
        notice is Print <==> !allowed && pending is Newer,
        notice is Check <==> !allowed && !(pending is Newer) && (elapsed matches Ok(since) && (since
            matches Some(secs) ==> secs >= 86_400)),
{
}

/// What is written down of a release is the tag without white space around it;
/// it counts as waiting exactly where it is newer than this program.
pub proof fn lemma_waiting_releases(
    tag: &str,
    kept: String,
    stored: Option<&str>,
    pending: Pending,
)
    requires
        call_ensures(record_pending_version, (tag,), kept),
        call_ensures(pending_version, (stored,), pending),
    ensures
        kept@ == trimmed(tag@),
        stored is None <==> pending is Absent,
        pending matches Pending::Newer(version) ==> (stored matches Some(s) && version@ == trimmed(
            s@,
        ) && newer(version@, "0.5.1"@)),
        pending is Stale ==> (stored matches Some(s) && (trimmed(s@).len() == 0 || !newer(
            trimmed(s@),
            "0.5.1"@,
        ))),
{
}

/// An update is offered exactly where the release is newer and has a file for
/// the platform, and the offer is that file.
pub proof fn lemma_which_updates_are_offered(
    release: &ReleaseInfo,
    os: &str,
    arch: &str,
    step: UpdateStep,
)
    requires
        call_ensures(run_update, (release, os, arch), step),
    ensures
        step is Latest <==> !newer(release.tag_name@, "0.5.1"@),
        step matches UpdateStep::Offer { name, url, .. } ==> exists|i: int|
            0 <= i < release.assets@.len() && (#[trigger] release.assets@[i]).name@ == name@
                && release.assets@[i].browser_download_url@ == url@ && ("commitor-"@ + arch@)
                .is_prefix_of(name@),
        step is NoFile ==> forall|i: int|
            0 <= i < release.assets@.len() ==> (#[trigger] release.assets@[i]).name@
                != crate::engine::update::asset_name_of(os@, arch@),
{
    let wanted = crate::engine::update::asset_name_of(os@, arch@);
    crate::laws::updates::lemma_the_file_has_its_name(release.assets@, wanted);
    crate::laws::updates::lemma_the_file_names_the_architecture(os@, arch@);
}

// ── git ─────────────────────────────────────────────────────────────

/// Nothing empty is handed to git: no commit with a blank message, no empty list
/// of files and no blank patch; and what is handed over is what was given.
pub proof fn lemma_what_git_is_given(
    message: &str,
    committed: Result<GitCommand, String>,
    paths: &[String],
    added: Result<GitCommand, String>,
    patch: &str,
    applied: Result<GitCommand, String>,
)
    requires
        call_ensures(commit, (message,), committed),
        call_ensures(add, (paths,), added),
        call_ensures(apply_cached, (patch,), applied),
    ensures
        committed is Ok <==> trimmed(message@).len() > 0,
        committed matches Ok(c) ==> c@.args.last() == message@,
        added is Ok <==> paths@.len() > 0,
        added matches Ok(c) ==> texts(paths@).is_suffix_of(c@.args) && c@.args.contains("--"@),
        applied is Ok <==> trimmed(patch@).len() > 0,
        applied matches Ok(c) ==> c@.input == Some(patch@),
{
    if let Ok(c) = added {
        let args = c@.args;
        let names = texts(paths@);
        assert(args.subrange(args.len() - names.len(), args.len() as int) =~= names);
        assert(args[1] == "--"@);
    }
}

/// A plan goes on exactly where the status is the one that it was made for.
pub proof fn lemma_when_a_tree_is_unchanged(
    baseline: &str,
    current: &str,
    r: Result<(), String>,
)
    requires
        call_ensures(ensure_tree_unchanged, (baseline, current), r),
    ensures
        r is Ok <==> baseline@ == current@,
{
}

/// A fall back to unstaged changes is told exactly where nothing is staged and
/// they were not asked for.
pub proof fn lemma_when_a_fall_back_is_told(
    all: bool,
    include_untracked: bool,
    staged: WorkingChanges,
    unstaged: WorkingChanges,
    untracked: &[UntrackedFile],
    r: Collection,
)
    requires
        call_ensures(collect_diff, (all, include_untracked, staged, unstaged, untracked), r),
    ensures
        r.fell_back <==> !all && staged.files@.len() == 0,
        r.diff@.staged_used <==> !all && staged.files@.len() > 0,
        !include_untracked ==> r.diff@.untracked.len() == 0 && r.warnings@.len() == 0,
{
    assert(texts(staged.files@).len() == staged.files@.len());
    assert(texts(r.warnings@).len() == r.warnings@.len());
    let wanted = crate::analysis::collect::wanted_untracked(include_untracked, untracked@);
    if wanted.len() > 0 {
        crate::laws::repository::lemma_untracked_files_are_added(
            crate::analysis::collect::tracked_diff(all, staged, unstaged),
            wanted,
            0,
        );
    }
}

// ── sessions ────────────────────────────────────────────────────────

/// A session is recorded exactly where there are commits: as it is given, not
/// pushed and not undone.
pub proof fn lemma_what_is_recorded(
    session_id: String,
    timestamp: String,
    branch: Option<String>,
    base_branch: Option<String>,
    commits: Vec<SessionCommit>,
    r: Option<Session>,
)
    requires
        call_ensures(record_session, (session_id, timestamp, branch, base_branch, commits), r),
    ensures
        r is Some <==> commits@.len() > 0,
        r matches Some(s) ==> s@.session_id == session_id@ && s@.timestamp == timestamp@
            && s@.branch == text(branch) && s@.base_branch == text(base_branch)
            && s@.commits.len() == commits@.len() && !s@.pushed && !s@.reverted
            && s@.reverted_at is None && (forall|i: int|
            0 <= i < commits@.len() ==> (#[trigger] s@.commits[i]).sha == commits@[i].sha@
                && s@.commits[i].message == commits@[i].message@),
{
}

/// The identifier of a session ends with the beginning of its first commit.
pub proof fn lemma_session_identifiers(nanos: i64, sha: Seq<char>)
    ensures
        ("-"@ + byte_prefix(sha, 8)).is_suffix_of(session_id_of(nanos, sha)),
        crate::number::hex_of(0) + "-"@ + byte_prefix(sha, 8) == session_id_of(0, sha),
        nanos >= 0 ==> crate::number::hex_of(nanos as nat).is_prefix_of(session_id_of(nanos, sha)),
{
    let id = session_id_of(nanos, sha);
    let tail = "-"@ + byte_prefix(sha, 8);
    assert(id.subrange(id.len() - tail.len(), id.len() as int) =~= tail);
    if nanos >= 0 {
        let head = crate::number::hex_of(nanos as nat);
        assert(id.subrange(0, head.len() as int) =~= head);
    }
}

// ── typing a branch name ────────────────────────────────────────────

/// A blank line takes the suggestion, and any other the name that was typed,
/// without the white space around it.
pub proof fn lemma_what_was_typed(
    suggestion: Seq<char>,
    a: Seq<char>,
    name: Seq<char>,
    b: Seq<char>,
)
    requires
        blank(a),
        blank(b),
        tight(name),
    ensures
        typed_name(suggestion, a + name + b) == if name.len() > 0 {
            name
        } else {
            suggestion
        },
{
    lemma_trimmed(a, name, b);
}

/// The hint is what is missing of the only candidate: together with what was
/// typed it is that candidate.
pub proof fn lemma_hints_complete_the_input(candidate: Seq<char>, line: Seq<char>)
    ensures
        hint_of(seq![candidate], line) matches Some(rest) ==> line + rest == candidate
            && rest.len() > 0,
        hint_of(seq![candidate], line) is None ==> candidate == line || !line.is_prefix_of(
            candidate,
        ),
{
    let none: Seq<Seq<char>> = Seq::empty();
    assert(seq![candidate].drop_last() =~= none);
    assert(hint_of(none, line) is None);
    if let Some(rest) = hint_of(seq![candidate], line) {
        lemma_prefix_is_taken_off(line, rest, candidate);
        if rest.len() == 0 {
            assert(line + rest =~= line);
        }
    }
}

/// The browser is sent back to this machine, and without a server that is told.
pub proof fn lemma_where_the_browser_returns()
    ensures
        occurs(callback_url(), "127.0.0.1:"@ + crate::number::decimal_of(18745)),
        waiting_text(true) != waiting_text(false),
{
    reveal_strlit("http://127.0.0.1:");
    reveal_strlit("http://");
    reveal_strlit("127.0.0.1:");
    let port = crate::number::decimal_of(18745);
    let mark = "127.0.0.1:"@ + port;
    assert(callback_url() =~= "http://"@ + mark + "/callback"@);
    lemma_occurs_inside("http://"@, mark, "/callback"@);
    reveal_strlit("If your browser redirects back here automatically, you're all set.\n");
    reveal_strlit("(Couldn't start a local callback server; you'll need to paste your key.)\n");
    assert(waiting_text(true)[0] == 'I');
    assert(waiting_text(false)[0] == '(');
}

} // verus!
