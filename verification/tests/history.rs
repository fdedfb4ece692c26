//! The log of sessions and the calls of git.

use commitor::engine::git::{
    add, apply_cached, apply_outcome, branches_command, changed_files, changed_files_command,
    checkout_branch, commit, commit_outcome, create_branch, current_branch, diff_patch,
    get_branch_diff, get_diff, head_command, list_branches, read_texts, reset_index, run_git,
    status_porcelain, untracked_files, untracked_files_command, GitOutput,
};
use commitor::engine::history::{
    log_entries, malformed_entry, mark_reverted, new_session_id, now_iso, record_session,
    record_session_now, repo_id, session_id_at, Session, SessionCommit,
};
use commitor::style::use_color;

fn made(sha: &str) -> SessionCommit {
    SessionCommit { sha: sha.to_string(), message: "m".to_string(), files: vec!["f".to_string()] }
}

fn session(id: &str) -> Session {
    record_session(id.to_string(), "t".to_string(), None, None, vec![made("0123456789")]).unwrap()
}

#[test]
fn a_repository_is_identified_by_its_remote_or_root() {
    assert_eq!(repo_id(None, ""), "cbf29ce484222325");
    assert_eq!(repo_id(None, "a"), "af63dc4c8601ec8c");
    assert_eq!(repo_id(Some("a"), "/root"), "af63dc4c8601ec8c");
    assert_eq!(repo_id(Some(" "), "a"), "af63dc4c8601ec8c");
    assert_eq!(repo_id(None, "foobar"), "85944171f73967e8");
    for key in ["x", "/home/me/repo", "git@host:a/b.git"] {
        let id = repo_id(Some(key), "");
        assert_eq!(id.len(), 16);
        assert!(id.chars().all(|c| c.is_ascii_hexdigit()));
    }
}

#[test]
fn sessions_are_named_by_time_and_first_commit() {
    assert_eq!(session_id_at(255, "0123456789ab"), "ff-01234567");
    assert_eq!(session_id_at(0, "01234567"), "0-01234567");
    assert_eq!(session_id_at(-1, "01234567"), "ffffffffffffffff-01234567");
    let id = new_session_id("89abcdef00");
    assert!(id.ends_with("-89abcdef"));
    assert!(id.len() > "-89abcdef".len());
}

#[test]
fn the_time_is_written_as_a_date() {
    let now = now_iso();
    assert_eq!(now.len(), 20);
    let shape: String = now.chars().map(|c| if c.is_ascii_digit() { '0' } else { c }).collect();
    assert_eq!(shape, "0000-00-00T00:00:00Z");
}

#[test]
fn a_session_is_recorded_once_it_has_commits() {
    let none = record_session("i".to_string(), "t".to_string(), None, None, Vec::new());
    assert!(none.is_none());
    assert!(record_session_now(None, None, Vec::new()).is_none());
    let session = record_session_now(
        Some("dev".to_string()),
        Some("main".to_string()),
        vec![made("0123456789"), made("abc")],
    )
    .unwrap();
    assert!(session.session_id.ends_with("-01234567"));
    assert_eq!(session.branch.as_deref(), Some("dev"));
    assert_eq!(session.base_branch.as_deref(), Some("main"));
    assert_eq!(session.commits.len(), 2);
    assert!(!session.pushed && !session.reverted && session.reverted_at.is_none());
}

#[test]
fn marking_touches_one_session() {
    let mut sessions = vec![session("a"), session("b"), session("b")];
    assert!(mark_reverted(&mut sessions, "b", "now".to_string()));
    assert!(!sessions[0].reverted && !sessions[2].reverted);
    assert!(sessions[1].reverted);
    assert_eq!(sessions[1].reverted_at.as_deref(), Some("now"));
    assert_eq!(sessions[1].commits.len(), 1);
    assert!(!mark_reverted(&mut sessions, "zzz", "now".to_string()));
    assert_eq!(sessions.len(), 3);
}

#[test]
fn a_log_is_read_by_its_full_lines() {
    assert_eq!(
        log_entries("{a}\n\n  {b} \n"),
        vec![(1, "{a}".to_string()), (3, "{b}".to_string())]
    );
    assert_eq!(
        malformed_entry(3, "/p", "why"),
        "warning: ignoring malformed history line 3 in /p: why"
    );
}

#[test]
fn git_gets_exactly_these_arguments() {
    assert_eq!(diff_patch(true).args, vec!["diff", "--staged"]);
    assert_eq!(diff_patch(false).args, vec!["diff"]);
    assert_eq!(get_branch_diff("main").args, vec!["diff", "main...HEAD"]);
    assert_eq!(changed_files_command(true).args, vec!["diff", "--staged", "--name-only"]);
    assert_eq!(changed_files_command(false).args, vec!["diff", "--name-only"]);
    assert_eq!(status_porcelain().args, vec!["status", "--porcelain", "-uno"]);
    assert_eq!(untracked_files_command().args, vec!["ls-files", "--others", "--exclude-standard"]);
    assert_eq!(reset_index().args, vec!["reset", "-q"]);
    assert_eq!(checkout_branch("b").args, vec!["checkout", "b"]);
    assert_eq!(create_branch("b").args, vec!["checkout", "-b", "b"]);
    assert_eq!(branches_command().args, vec!["branch", "--format=%(refname:short)"]);
    assert_eq!(head_command().args, vec!["rev-parse", "--abbrev-ref", "HEAD"]);
    assert_eq!(add(&["-x".to_string()]).unwrap().args, vec!["add", "--", "-x"]);
    assert_eq!(commit("m").unwrap().args, vec!["commit", "-m", "m"]);
    let apply = apply_cached("p\n").unwrap();
    assert_eq!(apply.args, vec!["apply", "--cached", "-"]);
    assert_eq!(apply.input.as_deref(), Some("p\n"));
}

#[test]
fn empty_work_is_refused() {
    assert!(add(&[]).unwrap_err().starts_with("no files to stage"));
    assert_eq!(commit(" \n").unwrap_err(), "refusing to create a commit with an empty message");
    assert!(apply_cached("\n").unwrap_err().starts_with("no changes to stage"));
}

#[test]
fn outcomes_of_git_are_read() {
    let output = |success: bool| GitOutput {
        success,
        stdout: b"out\xff\n".to_vec(),
        stderr: b" err\n".to_vec(),
    };
    let args = vec!["a".to_string(), "b".to_string()];
    assert_eq!(run_git(&args, &output(true)), Ok("out\u{fffd}\n".to_string()));
    assert_eq!(run_git(&args, &output(false)), Err("git a b failed: err".to_string()));
    assert_eq!(commit_outcome(&output(false)), Err("git rejected the commit: err".to_string()));
    assert_eq!(apply_outcome(&output(false)), Err("git rejected staging: err".to_string()));
    assert_eq!(changed_files(" a \n\nb\n"), vec!["a", "b"]);
    assert_eq!(untracked_files("x\n"), vec!["x"]);
}

#[test]
fn a_failed_call_is_told_with_its_complaint() {
    let read = |success: bool| read_texts(success, "out".to_string(), " why\n", "no: ".to_string());
    assert_eq!(read(true), Ok("out".to_string()));
    assert_eq!(read(false), Err("no: why".to_string()));
}

#[test]
fn patches_are_put_together() {
    assert_eq!(get_diff(false, "s", "u"), "s\nu");
    assert_eq!(get_diff(true, "s", "u"), "s");
    assert_eq!(get_diff(false, "", "u"), "u");
    assert_eq!(get_diff(false, "s", ""), "s");
    assert_eq!(get_diff(false, "", ""), "");
}

#[test]
fn branches_are_listed() {
    let ok = |s: &str| Ok::<String, String>(s.to_string());
    let failed = || Err::<String, String>("x".to_string());
    assert_eq!(
        list_branches(&ok("main\n dev\n\n"), &ok("dev\n")),
        (vec!["main".to_string(), "dev".to_string()], Some("dev".to_string()))
    );
    assert_eq!(list_branches(&failed(), &failed()), (Vec::new(), None));
    assert_eq!(current_branch(&ok("HEAD\n")), None);
    assert_eq!(current_branch(&ok(" \n")), None);
}

#[test]
fn colors_need_a_terminal() {
    assert!(use_color(true, false));
    assert!(!use_color(false, false) && !use_color(true, true));
}
