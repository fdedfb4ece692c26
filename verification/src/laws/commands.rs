//! The calls of git, the addresses, and the messages about them.

use vstd::prelude::*;

use crate::analysis::reply::analyze_url;
use crate::auth::{login_report, me_url, unreachable_error, validating_text, MeResponse};
use crate::bytes::lossy_text;
use crate::cli::{after_release_check, installed_text};
use crate::engine::git::{
    apply_outcome, branches_command, changed_files_command, checkout_branch, commit_outcome,
    create_branch, diff_patch, get_branch_diff, head_command, log_outcome, reset_index, run_git,
    status_porcelain, untracked_files_command, GitCommand, GitOutput,
};
use crate::engine::grouping::unreadable_answer;
use crate::engine::history::malformed_entry;
use crate::engine::update::{download_error, newer, release_error};
use crate::laws::texts::lemma_occurs_inside;
use crate::login::login_url;
use crate::number::decimal_of;
use crate::pieces::joined;
use crate::style::{bold, green, red, yellow};
use crate::text::{occurs, texts, trimmed};

verus! {

/// Git is asked for staged changes only where they are wanted, and for names
/// only where they are. It is given no input.
pub proof fn lemma_how_changes_are_asked_for(staged: bool, patch: GitCommand, names: GitCommand)
    requires
        call_ensures(diff_patch, (staged,), patch),
        call_ensures(changed_files_command, (staged,), names),
    ensures
        patch@.args[0] == "diff"@ && names@.args[0] == "diff"@,
        patch@.args.contains("--staged"@) <==> staged,
        names@.args.contains("--staged"@) <==> staged,
        names@.args.contains("--name-only"@),
        !patch@.args.contains("--name-only"@),
        patch@.input is None && names@.input is None,
        names@.args.len() == patch@.args.len() + 1,
        patch@.args.len() <= 2,
{
    reveal_strlit("diff");
    reveal_strlit("--staged");
    reveal_strlit("--name-only");
    assert(names@.args.last() == "--name-only"@);
    if staged {
        assert(patch@.args[1] == "--staged"@);
        assert(names@.args[1] == "--staged"@);
    }
}

/// A branch is compared from where it left its base.
pub proof fn lemma_how_a_branch_is_compared(base: &str, r: GitCommand)
    requires
        call_ensures(get_branch_diff, (base,), r),
    ensures
        r@.args.len() == 2,
        r@.args[0] == "diff"@,
        r@.args[1] == base@ + "...HEAD"@,
        r@.input is None,
{
}

/// A branch is switched to, or made and switched to, by its name.
pub proof fn lemma_how_branches_are_switched(branch: &str, old_one: GitCommand, new_one: GitCommand)
    requires
        call_ensures(checkout_branch, (branch,), old_one),
        call_ensures(create_branch, (branch,), new_one),
    ensures
        old_one@.args == seq!["checkout"@, branch@],
        new_one@.args.len() == 3,
        new_one@.args.take(1) == old_one@.args.take(1),
        new_one@.args[1] == "-b"@,
        new_one@.args.last() == old_one@.args.last(),
        old_one@.input is None && new_one@.input is None,
{
}

/// The state of the repository is read without changing it: the status leaves
/// untracked files out, and these are listed without the ignored ones.
pub proof fn lemma_how_the_state_is_read(
    status: GitCommand,
    untracked: GitCommand,
    branches: GitCommand,
    head: GitCommand,
)
    requires
        call_ensures(status_porcelain, (), status),
        call_ensures(untracked_files_command, (), untracked),
        call_ensures(branches_command, (), branches),
        call_ensures(head_command, (), head),
    ensures
        status@.args[0] == "status"@ && status@.args.contains("--porcelain"@)
            && status@.args.contains("-uno"@) && status@.args.len() == 3,
        untracked@.args[0] == "ls-files"@ && untracked@.args.contains("--others"@)
            && untracked@.args.contains("--exclude-standard"@) && untracked@.args.len() == 3,
        branches@.args[0] == "branch"@ && branches@.args.contains("--format=%(refname:short)"@)
            && branches@.args.len() == 2,
        head@.args[0] == "rev-parse"@ && head@.args.last() == "HEAD"@ && head@.args.contains(
            "--abbrev-ref"@,
        ) && head@.args.len() == 3,
        status@.input is None && untracked@.input is None && branches@.input is None
            && head@.input is None,
{
    assert(status@.args[1] == "--porcelain"@ && status@.args[2] == "-uno"@);
    assert(untracked@.args[1] == "--others"@ && untracked@.args[2] == "--exclude-standard"@);
    assert(branches@.args[1] == "--format=%(refname:short)"@);
    assert(head@.args[1] == "--abbrev-ref"@);
}

/// Resetting the index leaves the files alone.
pub proof fn lemma_how_the_index_is_reset(r: GitCommand)
    requires
        call_ensures(reset_index, (), r),
    ensures
        r@.args[0] == "reset"@,
        !r@.args.contains("--hard"@),
        r@.args.len() == 2,
        r@.args[1] == "-q"@,
        r@.input is None,
{
    reveal_strlit("reset");
    reveal_strlit("-q");
    reveal_strlit("--hard");
    assert("reset"@.len() == 5 && "-q"@.len() == 2 && "--hard"@.len() == 6);
    if r@.args.contains("--hard"@) {
        let i = r@.args.index_of("--hard"@);
        assert(r@.args[i].len() == 6);
    }
}

/// A call of git gives its output where it succeeds, and else a complaint that
/// ends with what git said.
pub proof fn lemma_what_git_says_is_told(
    args: &[String],
    output: &GitOutput,
    r: Result<String, String>,
)
    requires
        call_ensures(run_git, (args, output), r) || call_ensures(commit_outcome, (output,), r)
            || call_ensures(apply_outcome, (output,), r) || call_ensures(log_outcome, (output,), r),
    ensures
        r is Ok <==> output.success,
        r matches Ok(out) ==> out@ == lossy_text(output.stdout@),
        r matches Err(why) ==> trimmed(lossy_text(output.stderr@)).is_suffix_of(why@),
        call_ensures(run_git, (args, output), r) ==> (r matches Err(why) ==> occurs(
            why@,
            joined(texts(args@), " "@),
        )),
{
    if let Err(why) = r {
        let said = trimmed(lossy_text(output.stderr@));
        assert(said =~= why@.subrange(why@.len() - said.len(), why@.len() as int));
        if call_ensures(run_git, (args, output), r) {
            let words = joined(texts(args@), " "@);
            assert(why@ =~= "git "@ + words + (" failed: "@ + said));
            lemma_occurs_inside("git "@, words, " failed: "@ + said);
        }
    }
}

/// The addresses of the backend are below the address that is given.
pub proof fn lemma_addresses(base: &str, analyze: String, me: String, login: String)
    requires
        call_ensures(analyze_url, (base,), analyze),
        call_ensures(me_url, (base,), me),
        call_ensures(login_url, (), login),
    ensures
        analyze@ == base@ + "/analyze"@,
        me@ == base@ + "/auth/me"@,
        occurs(login@, "/login?redirect=http://127.0.0.1:"@),
        "/callback"@.is_suffix_of(login@),
{
    reveal_strlit("/login?redirect=");
    reveal_strlit("http://127.0.0.1:");
    reveal_strlit("/login?redirect=http://127.0.0.1:");
    let a = crate::auth::FRONTEND_URL@;
    let n = decimal_of(crate::auth::CALLBACK_PORT as nat);
    let b = n + "/callback"@;
    assert("/login?redirect="@ + "http://127.0.0.1:"@ =~= "/login?redirect=http://127.0.0.1:"@);
    assert(login@ =~= a + "/login?redirect=http://127.0.0.1:"@ + b);
    lemma_occurs_inside(a, "/login?redirect=http://127.0.0.1:"@, b);
    assert("/callback"@ =~= login@.subrange(
        login@.len() - "/callback"@.len(),
        login@.len() as int,
    ));
}

/// Messages about the account name the address, its cause, the account and the
/// place of its key.
pub proof fn lemma_messages_about_the_account(
    url: &str,
    cause: &str,
    failed: String,
    trying: String,
    me: &MeResponse,
    path: &str,
    done: String,
)
    requires
        call_ensures(unreachable_error, (url, cause), failed),
        call_ensures(validating_text, (url,), trying),
        call_ensures(login_report, (me, path), done),
    ensures
        occurs(failed@, url@ + " ("@ + cause@ + ")"@),
        occurs(trying@, url@),
        occurs(done@, "as "@ + me.email@ + " ("@),
        occurs(done@, " at "@ + path@ + "\n"@),
        me.plan matches Some(plan) ==> occurs(done@, "("@ + plan@ + " plan)"@),
        me.plan is None ==> occurs(done@, "("@ + "free"@ + " plan)"@),
{
    let rest = "). Is your server running? Set COMMITOR_API_URL if it lives elsewhere."@;
    reveal_strlit("). Is your server running? Set COMMITOR_API_URL if it lives elsewhere.");
    reveal_strlit(")");
    let a = "Couldn't reach the Commitor API at "@;
    let part = url@ + " ("@ + cause@ + ")"@;
    assert(failed@ =~= a + part + rest.skip(1));
    lemma_occurs_inside(a, part, rest.skip(1));
    lemma_occurs_inside("Validating key against "@, url@, "…\n"@);
    lemma_login_report(me, path, done);
}

proof fn lemma_login_report(me: &MeResponse, path: &str, done: String)
    requires
        call_ensures(login_report, (me, path), done),
    ensures
        occurs(done@, "as "@ + me.email@ + " ("@),
        occurs(done@, " at "@ + path@ + "\n"@),
        me.plan matches Some(plan) ==> occurs(done@, "("@ + plan@ + " plan)"@),
        me.plan is None ==> occurs(done@, "("@ + "free"@ + " plan)"@),
{
    let plan = match me.plan {
        Some(p) => p@,
        None => "free"@,
    };
    let stored = " plan).\nCredentials stored at "@;
    reveal_strlit("Logged in as ");
    reveal_strlit("as ");
    reveal_strlit(" (");
    reveal_strlit("(");
    reveal_strlit(" plan)");
    reveal_strlit(" at ");
    reveal_strlit(" plan).\nCredentials stored at ");
    let none: Seq<char> = Seq::empty();
    let head = "Logged in as "@;
    let tail = path@ + "\n"@;
    assert(done@ == head + me.email@ + " ("@ + plan + stored + path@ + "\n"@);
    let a = "as "@ + me.email@ + " ("@;
    assert(done@ =~= head.take(10) + a + (plan + stored + tail));
    lemma_occurs_inside(head.take(10), a, plan + stored + tail);
    let b = "("@ + plan + " plan)"@;
    let before = head + me.email@ + seq![' '];
    assert(done@ =~= before + b + (stored.skip(6) + tail));
    lemma_occurs_inside(before, b, stored.skip(6) + tail);
    let c = " at "@ + path@ + "\n"@;
    let front = head + me.email@ + " ("@ + plan + stored.take(stored.len() - 4);
    assert(stored.skip(stored.len() - 4) =~= " at "@);
    assert(done@ =~= front + c + none);
    lemma_occurs_inside(front, c, none);
}

/// Messages about a release and about a line of the history name what they are
/// about.
pub proof fn lemma_messages_name_their_subject(
    status: u16,
    body: &str,
    release: String,
    download: String,
    tag: &str,
    installed: String,
    number: usize,
    path: &str,
    why: &str,
    malformed: String,
    raw: &str,
    unreadable: String,
)
    requires
        call_ensures(release_error, (status, body), release),
        call_ensures(download_error, (status,), download),
        call_ensures(installed_text, (tag,), installed),
        call_ensures(malformed_entry, (number, path, why), malformed),
        call_ensures(unreadable_answer, (raw, why), unreadable),
    ensures
        occurs(release@, decimal_of(status as nat) + ": "@ + body@),
        decimal_of(status as nat).is_suffix_of(download@),
        occurs(installed@, tag@),
        occurs(
            malformed@,
            "line "@ + decimal_of(number as nat) + " in "@ + path@ + ": "@ + why@,
        ),
        occurs(unreadable@, trimmed(raw@) + ": "@ + why@),
{
    let none: Seq<char> = Seq::empty();
    let n = decimal_of(status as nat);
    let a = "GitHub API returned HTTP "@;
    assert(release@ =~= a + (n + ": "@ + body@) + none);
    lemma_occurs_inside(a, n + ": "@ + body@, none);
    assert(n =~= download@.subrange(download@.len() - n.len(), download@.len() as int));
    lemma_occurs_inside(
        "Installed "@,
        tag@,
        ". Run `commitor --version` in a new shell to confirm.\n"@,
    );
    reveal_strlit("warning: ignoring malformed history line ");
    reveal_strlit("line ");
    let head = "warning: ignoring malformed history line "@;
    let part = "line "@ + decimal_of(number as nat) + " in "@ + path@ + ": "@ + why@;
    assert(head.skip(head.len() - 5) =~= "line "@);
    assert(malformed@ =~= head.take(head.len() - 5) + part + none);
    lemma_occurs_inside(head.take(head.len() - 5), part, none);
    let b = "failed to parse JSON from model response:\n"@;
    assert(unreadable@ =~= b + (trimmed(raw@) + ": "@ + why@) + none);
    lemma_occurs_inside(b, trimmed(raw@) + ": "@ + why@, none);
}

/// After a check, a notice that names the release is shown exactly where the
/// release is newer than this program.
pub proof fn lemma_newer_releases_are_told(tag: &str, r: Option<String>)
    requires
        call_ensures(after_release_check, (tag,), r),
    ensures
        r is Some <==> newer(tag@, "0.5.1"@),
        r matches Some(s) ==> occurs(s@, tag@),
{
    if let Some(s) = r {
        let tail = " is available — run `commitor update` to upgrade (current: v"@ + "0.5.1"@
            + ").\n"@;
        assert(s@ =~= "note: commitor "@ + tag@ + tail);
        lemma_occurs_inside("note: commitor "@, tag@, tail);
    }
}

/// Without color a text stays as it is; in color it is marked, with another mark
/// for each style, and the mark ends with it.
pub proof fn lemma_styles(
    text: &str,
    color: bool,
    strong: String,
    good: String,
    bad: String,
    note: String,
)
    requires
        call_ensures(bold, (text, color), strong),
        call_ensures(green, (text, color), good),
        call_ensures(red, (text, color), bad),
        call_ensures(yellow, (text, color), note),
    ensures
        !color ==> strong@ == text@ && good@ == text@ && bad@ == text@ && note@ == text@,
        color ==> strong@ == "\x1b[1m"@ + text@ + "\x1b[0m"@ && good@ == "\x1b[32m"@ + text@
            + "\x1b[0m"@ && bad@ == "\x1b[31m"@ + text@ + "\x1b[0m"@ && note@ == "\x1b[33m"@ + text@
            + "\x1b[0m"@,
{
    reveal_strlit("\x1b[");
    reveal_strlit("m");
    reveal_strlit("1");
    reveal_strlit("32");
    reveal_strlit("31");
    reveal_strlit("33");
    reveal_strlit("\x1b[1m");
    reveal_strlit("\x1b[32m");
    reveal_strlit("\x1b[31m");
    reveal_strlit("\x1b[33m");
    assert("\x1b["@ + "1"@ + "m"@ =~= "\x1b[1m"@);
    assert("\x1b["@ + "32"@ + "m"@ =~= "\x1b[32m"@);
    assert("\x1b["@ + "31"@ + "m"@ =~= "\x1b[31m"@);
    assert("\x1b["@ + "33"@ + "m"@ =~= "\x1b[33m"@);
}

} // verus!
