//! Undoing a session.

use commitor::engine::history::{Session, SessionCommit};
use commitor::revert::{
    can_shorten, can_start, find_session, list_sessions, run, show_session, RevertAction, RevertEvent,
    RevertFlags, RevertRun, RevertStage, RevertStart,
};

fn session(id: &str, shas: &[&str]) -> Session {
    Session {
        session_id: id.to_string(),
        timestamp: "T".to_string(),
        branch: Some("dev".to_string()),
        base_branch: None,
        commits: shas
            .iter()
            .map(|sha| SessionCommit {
                sha: sha.to_string(),
                message: format!("feat: {sha}\n\nbody"),
                files: vec!["a".to_string(), "b".to_string()],
            })
            .collect(),
        pushed: false,
        reverted: false,
        reverted_at: None,
    }
}

fn begin(flags: RevertFlags, sessions: Vec<Session>) -> (RevertRun, String) {
    match run(&flags, sessions) {
        RevertStart::Undo(run, said) => (run, said),
        other => panic!("{other:?}"),
    }
}

fn yes() -> RevertEvent {
    RevertEvent::Line("y\n".to_string())
}

fn done() -> RevertEvent {
    RevertEvent::Done(Ok(String::new()))
}

#[test]
fn without_a_history_there_is_nothing_to_do() {
    assert!(matches!(
        run(&RevertFlags::default(), Vec::new()),
        RevertStart::Over(t) if t == "No commitor commit history found for this repo\n"
    ));
}

#[test]
fn sessions_are_listed_newest_first() {
    let flags = RevertFlags { list: true, limit: Some(1), ..RevertFlags::default() };
    let mut old = session("old", &["1111111111"]);
    old.reverted = true;
    let sessions = vec![old.clone(), session("new", &["2222222222"])];
    match run(&flags, sessions.clone()) {
        RevertStart::Over(text) => assert_eq!(
            text,
            "Recent commitor sessions (newest first):\n\n1. new — 1 commit(s) on dev at T\n   first commit: 2222222 feat: 2222222222 (use `commitor revert new` to target this session)\n\nPass `commitor revert <session_id>` to undo a specific session.\n"
        ),
        other => panic!("{other:?}"),
    }
    assert!(list_sessions(&sessions, 10).contains("1. old — 1 commit(s) on dev at T (reverted)\n"));
}

#[test]
fn a_session_is_found_by_name_or_commit() {
    let sessions = vec![session("a", &["111", "222"]), session("b", &["333"])];
    assert_eq!(find_session(&sessions, "b"), Ok(1));
    assert_eq!(find_session(&sessions, "22"), Ok(0));
    assert_eq!(
        find_session(&sessions, "9"),
        Err("no commitor session matches `9` in this repo's history".to_string())
    );
    let flags = RevertFlags { session: Some("9".to_string()), ..RevertFlags::default() };
    assert!(matches!(run(&flags, sessions), RevertStart::Failed(_)));
}

#[test]
fn a_session_is_shown_with_its_commits() {
    assert_eq!(
        show_session(&session("a", &["1234567890", "abc"])),
        "Session a — 2 commit(s), recorded at T\nBranch: dev\n  1234567 feat: 1234567890\n    files: a, b\n  abc feat: abc\n    files: a, b\n"
    );
}

#[test]
fn local_commits_are_reset_away() {
    let (mut run, said) = begin(RevertFlags::default(), vec![session("a", &["c1", "c2"])]);
    assert_eq!(said, "");
    assert!(matches!(run.action(), RevertAction::ReadDirty));
    assert!(run.handle(RevertEvent::Answer(Ok(false))).starts_with("Session a — 2 commit(s)"));
    assert!(matches!(run.action(), RevertAction::CheckPushed(s) if s == "c1"));
    assert_eq!(run.handle(RevertEvent::Answer(Ok(false))), "");
    assert!(matches!(run.action(), RevertAction::CheckPushed(s) if s == "c2"));
    run.handle(RevertEvent::Answer(Ok(false)));
    assert!(matches!(run.action(), RevertAction::ReadParent(s) if s == "c1"));
    let preview = run.handle(RevertEvent::Done(Ok("parent00".to_string())));
    assert!(preview.starts_with("\nThis will DISCARD the 2 commit(s) in this session with a hard reset to parent0\n"));
    assert!(matches!(run.action(), RevertAction::Ask(q) if q == "Proceed with the revert? [y/N] "));
    assert_eq!(run.handle(yes()), "Resetting to parent0…\n");
    assert!(matches!(run.action(), RevertAction::ResetHard(s) if s == "parent00"));
    run.handle(done());
    assert!(matches!(run.action(), RevertAction::MarkReverted(s) if s == "a"));
    assert_eq!(run.handle(done()), "Marked session a as reverted.\n");
    assert!(matches!(run.action(), RevertAction::Exit));
}

#[test]
fn pushed_commits_are_reverted_newest_first_and_never_reset() {
    let flags = RevertFlags { force: true, ..RevertFlags::default() };
    let (mut run, said) = begin(flags, vec![session("a", &["c1", "c2", "c3"])]);
    assert!(said.starts_with("Session a — 3 commit(s)"));
    run.handle(RevertEvent::Answer(Ok(true)));
    run.handle(RevertEvent::Answer(Ok(false)));
    let preview = run.handle(RevertEvent::Answer(Ok(false)));
    assert!(preview.contains("This will create 3 new revert commit(s)"));
    assert!(preview.contains("Some commits were already pushed"));
    let mut undone: Vec<String> = Vec::new();
    let mut said = run.handle(yes());
    assert_eq!(said, "Reverting c3 — feat: c3\n");
    while let RevertAction::RevertCommit(sha) = run.action() {
        undone.push(sha);
        said = run.handle(done());
    }
    assert_eq!(undone, vec!["c3", "c2", "c1"]);
    assert_eq!(said, "");
    assert_eq!(run.stage, RevertStage::Mark);
}

#[test]
fn nothing_is_undone_without_a_yes() {
    let flags = RevertFlags { force: true, ..RevertFlags::default() };
    let (mut run, _) = begin(flags, vec![session("a", &["c1"])]);
    assert!(run.handle(RevertEvent::Answer(Ok(true))).contains("At least one commit is already on a remote"));
    assert_eq!(run.handle(RevertEvent::Line("\n".to_string())), "Aborted — nothing was changed.\n");
    assert!(matches!(run.action(), RevertAction::Exit));
}

#[test]
fn uncommitted_changes_stop_the_run() {
    let (mut run, _) = begin(RevertFlags::default(), vec![session("a", &["c1"])]);
    run.handle(RevertEvent::Answer(Ok(true)));
    assert!(matches!(run.action(), RevertAction::Fail(w) if w.starts_with("Your working tree has uncommitted changes")));
}

#[test]
fn a_reverted_session_is_left_alone() {
    let mut s = session("a", &["c1"]);
    s.reverted = true;
    s.reverted_at = Some("noon".to_string());
    assert!(matches!(
        run(&RevertFlags::default(), vec![s]),
        RevertStart::Over(t) if t == "Session a was already reverted at noon — nothing to do.\n"
    ));
}

#[test]
fn failures_end_the_run() {
    let flags = || RevertFlags { force: true, ..RevertFlags::default() };
    let (mut run, _) = begin(flags(), vec![session("a", &["c1"])]);
    run.handle(RevertEvent::Answer(Err("x".to_string())));
    assert!(matches!(run.action(), RevertAction::Fail(w) if w == "couldn't check whether c1 is pushed: x"));
    let (mut run, _) = begin(flags(), vec![session("a", &["c1"])]);
    run.handle(RevertEvent::Answer(Ok(false)));
    run.handle(RevertEvent::Done(Err("root".to_string())));
    assert!(matches!(run.action(), RevertAction::Fail(w) if w.starts_with("the first commit in this session is the repository's root commit") && w.ends_with(": root")));
}

#[test]
fn identifiers_are_cut_between_characters() {
    assert!(can_shorten("0123456789") && can_shorten("abc") && can_shorten(""));
    assert!(!can_shorten("012345é"));
}

#[test]
fn only_what_is_shown_must_be_showable() {
    let list = RevertFlags { list: true, ..RevertFlags::default() };
    let sessions = vec![session("s1", &["aé"]), session("s2", &[]), session("s3", &["abcdefgh"])];
    assert!(can_start(&list, &sessions));
    assert!(can_start(&RevertFlags::default(), &sessions));
    assert!(matches!(run(&list, sessions), RevertStart::Over(t) if t.contains("s2 — 0 commit(s)")));
    let cut = vec![session("s1", &["abcdefé"])];
    assert!(!can_start(&list, &cut));
    assert!(can_start(&RevertFlags { limit: Some(0), ..list }, &cut));
    assert!(!can_start(&RevertFlags::default(), &cut));
    assert!(!can_start(&RevertFlags::default(), &[session("s1", &[])]));
    assert!(can_start(&RevertFlags::default(), &[]));
    let named = RevertFlags { session: Some("s9".to_string()), ..RevertFlags::default() };
    assert!(can_start(&named, &cut));
}
