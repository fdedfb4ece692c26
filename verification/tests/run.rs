//! A whole run of the commit command.

use commitor::analysis::reply::{AnalyzeError, RateStatus};
use commitor::analysis::{AnalyzeResponse, ChangeGroup, CollectedDiff, PartialFile};
use commitor::commit::approval::{ApprovalAction, ApprovalEvent};
use commitor::commit::execute::{
    ensure_tree_unchanged, has_other_staged_work, report_partial_failure,
};
use commitor::commit::execution::{execute_commits, ExecAction, ExecEvent, ExecStage};
use commitor::commit::planning::{PlanAction, PlanEvent, MAX_AI_ATTEMPTS, MAX_PLAN_ATTEMPTS};
use commitor::commit::run::{run, CommitAction, CommitEvent, CommitRun};
use commitor::commit::CommitFlags;
use commitor::engine::hunks::parse;
use commitor::engine::plan::PlanGroup;

const PATCH: &str = "diff --git a/src/a.rs b/src/a.rs\n--- a/src/a.rs\n+++ b/src/a.rs\n@@ -1 +1 @@\n-a\n+b\n@@ -9 +9 @@\n-c\n+d\ndiff --git a/docs/x.md b/docs/x.md\n--- a/docs/x.md\n+++ b/docs/x.md\n@@ -1 +1 @@\n-x\n+y\n";

fn diff() -> CollectedDiff {
    CollectedDiff {
        staged_used: true,
        files: vec!["src/a.rs".to_string(), "docs/x.md".to_string()],
        patch: PATCH.to_string(),
        untracked: Vec::new(),
    }
}

fn no_diff() -> CollectedDiff {
    CollectedDiff {
        staged_used: false,
        files: Vec::new(),
        patch: String::new(),
        untracked: Vec::new(),
    }
}

fn change(message: &str, files: &[&str], partial: &[(&str, &[usize])]) -> ChangeGroup {
    ChangeGroup {
        files: files.iter().map(|f| f.to_string()).collect(),
        commit_message: message.to_string(),
        rationale: "why".to_string(),
        partial_files: partial
            .iter()
            .map(|(p, h)| PartialFile { path: p.to_string(), hunks: h.to_vec() })
            .collect(),
    }
}

fn analyzed(groups: Vec<ChangeGroup>) -> PlanEvent {
    PlanEvent::Analyzed(Ok((
        AnalyzeResponse { groups, confidence: None, model_tier: None, branch_name: None },
        RateStatus { remaining: Some(1) },
    )))
}

fn unavailable() -> PlanEvent {
    PlanEvent::Analyzed(Err(AnalyzeError::Unavailable("down".to_string())))
}

/// Feed events to a run; returns the run and everything that was printed.
fn feed(mut run: CommitRun, events: Vec<CommitEvent>) -> (CommitRun, String, String) {
    let mut out = String::new();
    let mut err = String::new();
    for event in events {
        let (next, said) = run.advance(event);
        run = next;
        out.push_str(&said.out);
        err.push_str(&said.err);
    }
    (run, out, err)
}

fn plan(events: Vec<PlanEvent>) -> Vec<CommitEvent> {
    events.into_iter().map(CommitEvent::Plan).collect()
}

fn line(text: &str) -> CommitEvent {
    CommitEvent::Approval(ApprovalEvent::Line(text.to_string()))
}

fn status(text: &str) -> CommitEvent {
    CommitEvent::Exec(ExecEvent::Status(text.to_string()))
}

fn ok(text: &str) -> CommitEvent {
    CommitEvent::Exec(ExecEvent::Done(Ok(text.to_string())))
}

fn failed(text: &str) -> CommitEvent {
    CommitEvent::Exec(ExecEvent::Done(Err(text.to_string())))
}

fn start() -> Vec<PlanEvent> {
    vec![
        PlanEvent::Collected(diff()),
        PlanEvent::Branch(Some("main".to_string())),
        PlanEvent::Status("base".to_string()),
    ]
}

fn unchanged() -> PlanEvent {
    PlanEvent::Status("base".to_string())
}

#[test]
fn nothing_to_commit_ends_the_run() {
    let (run, out, _) = feed(run(CommitFlags::default()), plan(vec![PlanEvent::Collected(no_diff())]));
    assert_eq!(out, "Nothing to commit — no staged, unstaged, or untracked changes.\n");
    assert!(matches!(run.action(), CommitAction::Exit(true)));
}

#[test]
fn a_split_is_proposed_approved_and_carried_out() {
    let mut events = start();
    events.push(analyzed(vec![
        change("feat: one", &[], &[("a.rs", &[2])]),
        change("docs: two", &["docs/x.md"], &[("src/a.rs", &[1])]),
    ]));
    events.push(unchanged());
    let (run, out, _) = feed(run(CommitFlags::default()), plan(events));
    assert_eq!(
        out,
        "Analyzing 2 changed file(s) (staged)…\n\nThis changeset looks mixed — proposed split into 2 commits:\n  local hint: touches both documentation and code\n\n1. feat: one\n   files: src/a.rs (hunks 2)\n   why:   why\n\n2. docs: two\n   files: docs/x.md, src/a.rs (hunks 1)\n   why:   why\n\nAll 3 hunks across 2 changed files are accounted for.\n\n"
    );
    assert!(matches!(run.action(), CommitAction::Approval(ApprovalAction::Ask(_))));
    let (run, _, _) = feed(run, vec![line("\n"), status("base")]);
    assert!(matches!(run.action(), CommitAction::Exec(ExecAction::ResetIndex)));
    let (run, _, _) = feed(run, vec![ok("")]);
    match run.action() {
        CommitAction::Exec(ExecAction::Apply(patch)) => {
            assert!(patch.contains("@@ -9 +9 @@\n-c\n+d\n") && !patch.contains("@@ -1 +1 @@"))
        }
        other => panic!("{other:?}"),
    }
    let (run, _, _) = feed(run, vec![ok("")]);
    assert!(matches!(run.action(), CommitAction::Exec(ExecAction::Commit(m)) if m == "feat: one"));
    let (run, out, _) = feed(run, vec![ok(" [main 1] feat: one\n 1 file changed \n")]);
    assert_eq!(out, "[1/2] Committed: feat: one\n  [main 1] feat: one\n   1 file changed\n");
    assert!(matches!(run.action(), CommitAction::Exec(ExecAction::ReadHead)));
    let (run, _, _) = feed(run, vec![ok("sha1"), ok("")]);
    assert!(matches!(run.action(), CommitAction::Exec(ExecAction::Add(p)) if p == vec!["docs/x.md"]));
    let (run, out, _) = feed(run, vec![ok(""), ok(""), ok("sha2")]);
    assert!(out.ends_with("\nDone — created 2 commit(s).\n"), "{out}");
    match run.action() {
        CommitAction::Exec(ExecAction::Record(commits)) => {
            assert_eq!(commits.len(), 2);
            assert_eq!((commits[0].sha.as_str(), commits[0].message.as_str()), ("sha1", "feat: one"));
            assert_eq!(commits[1].files, vec!["docs/x.md", "src/a.rs"]);
        }
        other => panic!("{other:?}"),
    }
    let (run, _, _) = feed(run, vec![ok("")]);
    assert!(matches!(run.action(), CommitAction::Exec(ExecAction::ReadRemote)));
    let (run, _, err) = feed(run, vec![CommitEvent::Exec(ExecEvent::Remote(false))]);
    assert_eq!(err, "\n1 analysis left today\n");
    assert!(matches!(run.action(), CommitAction::Exit(true)));
}

#[test]
fn nothing_is_committed_without_an_accepting_line() {
    let mut events = start();
    events.push(analyzed(vec![change("one", &["src/a.rs", "docs/x.md"], &[])]));
    events.push(unchanged());
    for (answer, says) in [("", "Commit cancelled, nothing was changed.\n"), ("c\n", "Commit cancelled, nothing was changed.\n")] {
        let mut again = start();
        again.push(analyzed(vec![change("one", &["src/a.rs", "docs/x.md"], &[])]));
        again.push(unchanged());
        let (run, _, _) = feed(run(CommitFlags::default()), plan(again));
        let (run, out, _) = feed(run, vec![line(answer)]);
        assert_eq!(out, says);
        assert!(matches!(run.action(), CommitAction::Exit(true)));
    }
    let (run, out, _) = feed(run(CommitFlags::default()), plan(events));
    assert!(out.ends_with("\nProposed commit message:\n  one\n"));
    let (run, out, _) = feed(run, vec![line("what\n")]);
    assert_eq!(out, "Please answer a, e, or c (Enter = accept).\n");
    assert!(matches!(run, CommitRun::Approving(_, _)));
}

#[test]
fn a_single_message_can_be_edited() {
    let mut events = start();
    events.push(analyzed(vec![change("one", &["src/a.rs", "docs/x.md"], &[])]));
    events.push(unchanged());
    let (run, _, _) = feed(run(CommitFlags::default()), plan(events));
    let (run, _, _) = feed(run, vec![line("e\n")]);
    assert!(matches!(run.action(), CommitAction::Approval(ApprovalAction::Ask(q)) if q == "New message: "));
    let (run, out, _) = feed(run, vec![line(" \n")]);
    assert_eq!(out, "Empty input — keeping the current message.\n\nMessage:\n  one\n");
    let (run, out, _) = feed(run, vec![line("e\n"), line("two\n")]);
    assert_eq!(out, "\nMessage:\n  two\n");
    let (run, _, _) = feed(run, vec![line("a\n"), status("base"), ok("")]);
    assert!(matches!(run.action(), CommitAction::Exec(ExecAction::Commit(m)) if m == "two"));
}

#[test]
fn messages_of_a_split_can_be_edited() {
    let mut events = start();
    events.push(analyzed(vec![change("one", &["src/a.rs"], &[]), change("two", &["docs/x.md"], &[])]));
    events.push(unchanged());
    let (run, _, _) = feed(run(CommitFlags::default()), plan(events));
    let (run, _, _) = feed(run, vec![line("e\n")]);
    match run.action() {
        CommitAction::Approval(ApprovalAction::AskEach(q)) => {
            assert_eq!(q, vec!["Message 1/2 (current: \"one\"): ", "Message 2/2 (current: \"two\"): "])
        }
        other => panic!("{other:?}"),
    }
    let answers = ApprovalEvent::Messages(vec![Some("\n".to_string()), Some(" new \n".to_string())]);
    let (run, out, _) = feed(run, vec![CommitEvent::Approval(answers)]);
    assert_eq!(out, "\nUpdated plan:\n1. one — files: src/a.rs\n2. new — files: docs/x.md\n");
    assert!(matches!(run.action(), CommitAction::Approval(ApprovalAction::Ask(q)) if q.starts_with("Approve whole plan?")));
}

#[test]
fn an_unavailable_backend_is_asked_at_most_four_times() {
    let mut events = start();
    for _ in 0..MAX_AI_ATTEMPTS - 1 {
        events.push(unavailable());
        events.push(PlanEvent::Line("r\n".to_string()));
    }
    let (run, _, _) = feed(run(CommitFlags::default()), plan(events));
    assert!(matches!(run.action(), CommitAction::Plan(PlanAction::Analyze)));
    let (run, out, _) = feed(run, plan(vec![unavailable()]));
    assert!(out.starts_with("\nAI analysis still unavailable after 4 tries — down\n"), "{out}");
    let (run, out, _) = feed(run, plan(vec![unchanged()]));
    assert!(out.contains("fix(src): update a") && out.contains("docs(docs): update x"), "{out}");
    assert!(matches!(run, CommitRun::Approving(_, _)));
}

#[test]
fn an_unavailable_backend_can_be_left() {
    let mut events = start();
    events.push(unavailable());
    let (run, _, _) = feed(run(CommitFlags::default()), plan(events));
    assert!(matches!(run.action(), CommitAction::Plan(PlanAction::Ask(q)) if q == "AI analysis unavailable — down\n[r]etry · [o]ffline fallback · [c]ancel (r): "));
    let (run, out, _) = feed(run, plan(vec![PlanEvent::Line("?\n".to_string())]));
    assert_eq!(out, "Please answer r, o, or c (Enter = retry).\n");
    let (run, out, _) = feed(run, plan(vec![PlanEvent::Line(String::new())]));
    assert_eq!(out, "Commit cancelled, nothing was changed.\n");
    assert!(matches!(run.action(), CommitAction::Exit(true)));
}

#[test]
fn a_rejected_key_is_not_retried() {
    let mut events = start();
    events.push(PlanEvent::Analyzed(Err(AnalyzeError::InvalidKey("bad key".to_string()))));
    let (run, _, _) = feed(run(CommitFlags::default()), plan(events));
    assert!(matches!(run.action(), CommitAction::Fail(w) if w == "bad key"));
}

#[test]
fn inconsistent_proposals_end_in_an_offline_plan() {
    let lossy = || analyzed(vec![change("one", &["src/a.rs"], &[])]);
    let mut events = start();
    events.push(lossy());
    events.push(unchanged());
    let (mut run, _, _) = feed(run(CommitFlags::default()), plan(events));
    for _ in 0..MAX_PLAN_ATTEMPTS - 1 {
        assert!(matches!(run.action(), CommitAction::Plan(PlanAction::Ask(q)) if q.starts_with("The suggested split was inconsistent (")));
        let (next, out, _) = feed(run, plan(vec![PlanEvent::Line("r\n".to_string()), lossy()]));
        assert!(out.starts_with("Re-requesting an analysis…\n"));
        run = next;
    }
    assert!(matches!(&run, CommitRun::Approving(a, _) if a.plan.len() == 2));
}

#[test]
fn a_changed_tree_is_refused() {
    let mut events = start();
    events.push(analyzed(vec![change("one", &["src/a.rs", "docs/x.md"], &[])]));
    events.push(PlanEvent::Status("other".to_string()));
    let (run, _, _) = feed(run(CommitFlags::default()), plan(events));
    assert!(matches!(run.action(), CommitAction::Fail(w) if w.starts_with("The working tree changed since the analysis started.")));
    assert!(ensure_tree_unchanged("a", "a").is_ok());
    assert!(ensure_tree_unchanged("a", "b").is_err());
}

#[test]
fn offline_runs_never_ask_the_backend() {
    let flags = CommitFlags { offline: true, branch: true, ..CommitFlags::default() };
    let (run, _, _) = feed(run(flags), plan(vec![PlanEvent::Collected(diff()), PlanEvent::Branch(Some("main".to_string()))]));
    assert!(matches!(run.action(), CommitAction::Plan(PlanAction::PickBranch(s)) if s == "update-a-rs-update-x-md"));
    let (run, out, _) = feed(run, plan(vec![PlanEvent::Picked, PlanEvent::Collected(diff()), PlanEvent::Status("base".to_string())]));
    assert!(out.ends_with("Offline mode — building a basic local plan (no AI).\n"));
    let (run, out, _) = feed(run, plan(vec![unchanged()]));
    assert!(out.contains("proposed split into 2 commits:\n\n1. fix(src): update a\n   files: src/a.rs\n\n"), "{out}");
    assert!(matches!(&run, CommitRun::Approving(_, c) if c.base_branch.as_deref() == Some("main")));
}

#[test]
fn a_branch_name_of_the_backend_is_used() {
    let flags = CommitFlags { branch: true, ..CommitFlags::default() };
    let (run, _, _) = feed(run(flags), plan(vec![PlanEvent::Collected(diff()), PlanEvent::Branch(None)]));
    assert!(matches!(run.action(), CommitAction::Plan(PlanAction::SuggestBranch)));
    let (run, _, _) = feed(run, plan(vec![PlanEvent::Suggested(Some("My Branch".to_string()))]));
    assert!(matches!(run.action(), CommitAction::Plan(PlanAction::PickBranch(s)) if s == "my-branch"));
    let (run, out, _) = feed(run, plan(vec![PlanEvent::Picked, PlanEvent::Collected(no_diff())]));
    assert_eq!(out, "Nothing to commit after switching branches.\n");
    assert!(matches!(run.action(), CommitAction::Exit(true)));
}

#[test]
fn an_offline_plan_that_misses_the_diff_fails() {
    let mut odd = diff();
    odd.patch = "diff --git a/x b/y\n--- a/x\n+++ b/z\n@@ -1 +1 @@\n-a\n+b\n".to_string();
    let flags = CommitFlags { offline: true, ..CommitFlags::default() };
    let (run, _, _) = feed(run(flags), plan(vec![PlanEvent::Collected(odd), PlanEvent::Branch(None), PlanEvent::Status("base".to_string()), unchanged()]));
    assert!(matches!(run.action(), CommitAction::Fail(w) if w.starts_with("The offline plan doesn't match the actual diff:\n  ") && w.ends_with("\n\nNothing was staged or committed.")));
}

#[test]
fn an_empty_message_is_refused() {
    let mut events = start();
    events.push(analyzed(vec![change(" ", &["src/a.rs", "docs/x.md"], &[])]));
    events.push(unchanged());
    let (run, _, _) = feed(run(CommitFlags::default()), plan(events));
    assert!(matches!(run.action(), CommitAction::Fail(w) if w.starts_with("The analysis returned an empty commit message")));
}

fn two_groups() -> Vec<PlanGroup> {
    vec![
        PlanGroup { message: "one".to_string(), whole: vec!["src/a.rs".to_string()], partial: vec![] },
        PlanGroup { message: "two".to_string(), whole: vec!["docs/x.md".to_string()], partial: vec![("p".to_string(), vec![3])] },
    ]
}

#[test]
fn the_first_failure_stops_a_run_and_is_reported() {
    let mut exec = execute_commits(two_groups(), parse(PATCH), false, "base".to_string());
    assert!(matches!(exec.action(), ExecAction::ReadStatus));
    exec.handle(ExecEvent::Status("base".to_string()));
    assert_eq!(exec.stage, ExecStage::CheckIndex);
    exec.handle(ExecEvent::Status(" M src/a.rs\n".to_string()));
    exec.handle(ExecEvent::Done(Ok(String::new())));
    exec.handle(ExecEvent::Done(Ok(String::new())));
    exec.handle(ExecEvent::Done(Ok("sha".to_string())));
    assert_eq!(exec.stage, ExecStage::Apply);
    let said = exec.handle(ExecEvent::Done(Err("bad patch".to_string())));
    assert_eq!(said.err, "error: couldn't stage hunks for commit 2/2: bad patch\n");
    assert_eq!(said.out, report_partial_failure(&["one".to_string()], &two_groups()[1..]));
    assert!(said.out.starts_with("\nCommits that succeeded before the failure:\n  - one\nFiles not included in any commit:\n  - docs/x.md\n  - p (hunks 3)\nSome of them may already be staged"));
    assert!(matches!(exec.action(), ExecAction::Exit(false)));
    exec.handle(ExecEvent::Done(Ok(String::new())));
    assert!(matches!(exec.action(), ExecAction::Exit(false)));
    assert!(report_partial_failure(&[], &[]).starts_with("\nNo commits were created.\n"));
}

#[test]
fn other_staged_work_is_never_swept_in() {
    assert!(has_other_staged_work("M  x\n") && has_other_staged_work(" M a\nA  b\n"));
    assert!(!has_other_staged_work(" M a\n") && !has_other_staged_work(""));
    let mut exec = execute_commits(two_groups(), Vec::new(), false, "s".to_string());
    exec.handle(ExecEvent::Status("s".to_string()));
    exec.handle(ExecEvent::Status("M  x\n".to_string()));
    assert!(matches!(exec.action(), ExecAction::Fail(w) if w.starts_with("You have other staged-but-uncommitted changes")));
}

#[test]
fn a_session_that_cannot_be_recorded_is_only_a_warning() {
    let mut events = start();
    events.push(analyzed(vec![change("one", &["src/a.rs", "docs/x.md"], &[])]));
    events.push(unchanged());
    let (run, _, _) = feed(run(CommitFlags::default()), plan(events));
    let (run, _, _) = feed(run, vec![line("\n"), status("base"), ok(""), ok(""), ok("sha1")]);
    assert!(matches!(run.action(), CommitAction::Exec(ExecAction::Record(_))));
    let (run, out, err) = feed(run, vec![failed("no home")]);
    assert_eq!((out.as_str(), err.as_str()), ("", "warning: didn't record the session — no home\n"));
    let (run, _, _) = feed(run, vec![CommitEvent::Exec(ExecEvent::Remote(false))]);
    assert!(matches!(run.action(), CommitAction::Exit(true)));
}

#[test]
fn a_failed_push_is_only_a_warning() {
    let one = vec![PlanGroup { message: "one".to_string(), whole: vec!["f".to_string()], partial: vec![] }];
    let mut exec = execute_commits(one, Vec::new(), true, "s".to_string());
    exec.handle(ExecEvent::Status("s".to_string()));
    for _ in 0..2 {
        exec.handle(ExecEvent::Done(Ok(String::new())));
    }
    exec.handle(ExecEvent::Done(Ok("sha".to_string())));
    exec.handle(ExecEvent::Done(Ok(String::new())));
    exec.handle(ExecEvent::Remote(true));
    assert!(matches!(exec.action(), ExecAction::Ask(q) if q == "Push these commits to the remote? [y/N] "));
    assert_eq!(exec.handle(ExecEvent::Line("yes\n".to_string())).out, "Pushing…\n");
    let said = exec.handle(ExecEvent::Done(Err("no".to_string())));
    assert_eq!(said.err, "warning: didn't push — no\n");
    assert!(matches!(exec.action(), ExecAction::Exit(true)));
}

#[test]
fn a_rejected_commit_leaves_the_rest_uncommitted() {
    let events = vec![status("base"), ok(""), failed("hook said no")];
    let mut all = start();
    all.push(analyzed(vec![change("one", &["src/a.rs"], &[]), change("two", &["docs/x.md"], &[])]));
    all.push(unchanged());
    let (run, _, _) = feed(run(CommitFlags::default()), plan(all));
    let (run, _, _) = feed(run, vec![line("a\n")]);
    let (run, out, err) = feed(run, events);
    assert_eq!(err, "error: hook said no\n");
    assert!(out.contains("No commits were created.\nFiles not included in any commit:\n  - src/a.rs\n  - docs/x.md\n"));
    assert!(matches!(run.action(), CommitAction::Exit(false)));
}
