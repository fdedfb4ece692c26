//! The scan of a working diff.

use commitor::analysis::reply::RateStatus;
use commitor::analysis::{AnalyzeResponse, ChangeGroup, CollectedDiff, PartialFile};
use commitor::heuristics::{evaluate, Verdict};
use commitor::scan::{check_flags, ensure_work_tree, report, run, scan_escalates, ScanFlags};

fn paths(values: &[&str]) -> Vec<String> {
    values.iter().map(|v| v.to_string()).collect()
}

#[test]
fn working_tree_clean_short_circuits() {
    let verdict = Verdict::Clean {
        summary: "all changes under src".into(),
    };
    assert!(!scan_escalates(&verdict, false));
}

#[test]
fn working_tree_inconclusive_escalates() {
    let verdict = Verdict::Inconclusive {
        reason: "spreads across areas".into(),
    };
    assert!(scan_escalates(&verdict, false));
}

#[test]
fn diff_range_never_short_circuits_on_clean() {
    let verdict = Verdict::Clean {
        summary: "all changes under src".into(),
    };
    assert!(scan_escalates(&verdict, true));
}

#[test]
fn diff_range_inconclusive_escalates() {
    let verdict = Verdict::Inconclusive {
        reason: "spreads across areas".into(),
    };
    assert!(scan_escalates(&verdict, true));
}

#[test]
fn root_dependency_bump_plus_feature_looks_clean_to_heuristic() {
    let verdict = evaluate(&paths(&[
        "Cargo.toml",
        "Cargo.lock",
        "src/feature/login.rs",
    ]));
    assert_eq!(
        verdict,
        Verdict::Clean {
            summary: "all changes under src".to_string()
        },
        "heuristic blind spot assumption must hold for the diff-range fix to matter"
    );
}

#[test]
fn mixed_pr_with_root_bump_is_clean_locally_but_must_escalate() {
    let verdict = evaluate(&paths(&[
        "Cargo.toml",
        "Cargo.lock",
        "src/feature/login.rs",
    ]));
    assert!(matches!(verdict, Verdict::Clean { .. }));
    assert!(scan_escalates(&verdict, true));
}

fn diff(files: &[&str]) -> CollectedDiff {
    CollectedDiff {
        staged_used: true,
        files: paths(files),
        patch: String::new(),
        untracked: Vec::new(),
    }
}

fn change(message: &str, files: &[&str], rationale: &str) -> ChangeGroup {
    ChangeGroup {
        files: paths(files),
        commit_message: message.to_string(),
        rationale: rationale.to_string(),
        partial_files: Vec::new(),
    }
}

fn answer(groups: Vec<ChangeGroup>) -> AnalyzeResponse {
    AnalyzeResponse {
        groups,
        confidence: Some("0.87".to_string()),
        model_tier: Some("fast".to_string()),
        branch_name: None,
    }
}

#[test]
fn an_empty_working_tree_is_told() {
    let (said, ask) = run(&ScanFlags::default(), &diff(&[]), false);
    assert_eq!(said, "Nothing to scan — no staged or unstaged changes.\n");
    assert!(!ask);
}

#[test]
fn an_empty_range_is_told() {
    let mut flags = ScanFlags { diff_range: Some("a..b".to_string()), ..ScanFlags::default() };
    assert_eq!(run(&flags, &diff(&[]), false).0, "No changes to analyze for range `a..b`.\n");
    flags.markdown = true;
    let said = run(&flags, &diff(&[]), false).0;
    assert!(said.starts_with("<!-- commitor-analysis -->\n\n## 🔍 Commitor Analysis\n\n_No changes"));
    assert!(said.ends_with("before they're buried.</sub>\n"));
}

#[test]
fn a_clean_tree_is_reported_without_the_backend() {
    let (said, ask) = run(&ScanFlags::default(), &diff(&["src/a.rs"]), false);
    assert!(!ask);
    assert_eq!(
        said,
        "Scanning 1 changed file(s) (staged).\n✓ Looks like a single logical change\n  Looks like a single logical change — all changes under src.\n"
    );
}

#[test]
fn colors_are_used_where_they_are_wanted() {
    let (said, _) = run(&ScanFlags::default(), &diff(&["src/a.rs"]), true);
    assert!(said.contains("\x1b[32m✓ Looks like a single logical change\x1b[0m\n"));
}

#[test]
fn a_mixed_tree_is_put_to_the_backend() {
    let (said, ask) = run(&ScanFlags::default(), &diff(&["a/x.sql", "b/y.sql"]), false);
    assert!(ask);
    assert_eq!(said, "Scanning 2 changed file(s) (staged).\n");
}

#[test]
fn a_range_is_always_put_to_the_backend() {
    let flags = ScanFlags { diff_range: Some("r".to_string()), ..ScanFlags::default() };
    let (said, ask) = run(&flags, &diff(&["src/a.rs"]), false);
    assert!(ask);
    assert_eq!(said, "Analyzing 1 changed file(s) in range `r`.\n");
}

#[test]
fn an_offline_scan_never_asks() {
    let flags = ScanFlags { offline: true, ..ScanFlags::default() };
    let (said, ask) = run(&flags, &diff(&["a/x.sql", "b/y.sql"]), false);
    assert!(!ask);
    assert!(said.contains("could not confirm one logical change (spreads across 2 areas: a, b)."));
    assert!(!run(&flags, &diff(&["src/a.rs"]), false).1);
}

#[test]
fn json_of_a_clean_tree_is_exact() {
    let flags = ScanFlags { json: true, ..ScanFlags::default() };
    let (said, ask) = run(&flags, &diff(&["a \"b\"/x.rs"]), false);
    assert!(!ask);
    assert_eq!(
        said,
        "{\"groups\":[{\"commit_message\":\"all changes under a \\\"b\\\"\",\"files\":[],\"rationale\":\"local heuristics found a single cluster\"}],\"model_tier\":\"local\"}\n"
    );
    let value: serde_json::Value = serde_json::from_str(&said).unwrap();
    assert_eq!(value["groups"][0]["commit_message"], "all changes under a \"b\"");
}

#[test]
fn control_characters_are_escaped_in_json() {
    let flags = ScanFlags { json: true, ..ScanFlags::default() };
    let (said, _) = run(&flags, &diff(&["a\t\u{1}\u{1f}é\\/x.rs"]), false);
    assert!(said.contains("all changes under a\\t\\u0001\\u001fé\\\\\""), "{said}");
}

#[test]
fn machine_output_has_no_progress_lines() {
    let mut flags = ScanFlags { markdown: true, ..ScanFlags::default() };
    assert_eq!(run(&flags, &diff(&["a/x.sql", "b/y.sql"]), false).0, "");
    flags.markdown = false;
    flags.json = true;
    assert_eq!(run(&flags, &diff(&["a/x.sql", "b/y.sql"]), false).0, "");
}

#[test]
fn contradicting_flags_are_refused() {
    let flags = ScanFlags {
        all: true,
        diff_range: Some("a..b".to_string()),
        ..ScanFlags::default()
    };
    assert!(check_flags(&flags).unwrap_err().contains("incompatible"));
    assert!(check_flags(&ScanFlags { all: true, ..ScanFlags::default() }).is_ok());
}

#[test]
fn a_mixed_answer_is_reported_in_full() {
    let files = paths(&["a/x.sql", "b/y.sql"]);
    let response = answer(vec![
        change("feat: one", &["a/x.sql"], "because"),
        change("fix: two", &[], ""),
    ]);
    let rate = RateStatus { remaining: Some(2) };
    let got = report(&ScanFlags::default(), &files, &response, &rate, false);
    assert_eq!(
        got.said.out,
        "✗ This commit looks mixed\n  local hint: spreads across 2 areas: a, b\n\n1. feat: one\n   files: a/x.sql\n   why:   because\n\n2. fix: two\n\n(confidence 0.87, model tier: fast)\nRun `commitor commit` to split this into separate commits.\n"
    );
    assert_eq!(got.said.err, "\n2 analyses left today\n");
    assert!(got.success && !got.json);
}

#[test]
fn a_mixed_answer_in_markdown_is_a_table() {
    let mut split = change("fix: b", &[], "one | two");
    split.partial_files = vec![PartialFile { path: "p.rs".to_string(), hunks: vec![1] }];
    let response = answer(vec![change("feat: a", &["x", "y"], ""), split]);
    let flags = ScanFlags { markdown: true, ..ScanFlags::default() };
    let got = report(&flags, &paths(&["x"]), &response, &RateStatus { remaining: Some(1) }, false);
    assert!(got.said.out.contains("| 1 | feat: a | Medium | x, y | — |\n| 2 | fix: b | Medium | p.rs | one \\| two |\n"), "{}", got.said.out);
    assert_eq!(got.said.err, "");
}

#[test]
fn only_a_mixed_answer_fails_a_strict_scan() {
    let strict = ScanFlags { strict: true, ..ScanFlags::default() };
    let rate = RateStatus { remaining: None };
    let mixed = answer(vec![change("a", &[], ""), change("b", &[], "")]);
    let single = answer(vec![change("a", &[], "")]);
    let none = answer(vec![]);
    assert!(!report(&strict, &[], &mixed, &rate, false).success);
    assert!(report(&strict, &[], &single, &rate, false).success);
    assert!(report(&strict, &[], &none, &rate, false).success);
    assert!(report(&ScanFlags::default(), &[], &mixed, &rate, false).success);
    assert_eq!(
        report(&strict, &[], &none, &rate, false).said.out,
        "✓ Looks like a single logical change\n  single logical change\n"
    );
}

#[test]
fn json_of_an_answer_is_left_to_the_caller() {
    let flags = ScanFlags { json: true, ..ScanFlags::default() };
    let got = report(&flags, &[], &answer(vec![]), &RateStatus { remaining: Some(0) }, false);
    assert!(got.json);
    assert_eq!(got.said.out, "");
    assert_eq!(got.said.err, "");
}

#[test]
fn a_scan_needs_a_repository() {
    assert!(ensure_work_tree(true).is_ok());
    assert!(ensure_work_tree(false).unwrap_err().starts_with("not a git repository"));
}

#[test]
fn markdown_opens_with_the_marker() {
    let marker = "<!-- commitor-analysis -->\n";
    for offline in [false, true] {
        for files in [&["src/a.rs"][..], &["a/x.sql", "b/y.sql"][..]] {
            let flags = ScanFlags { markdown: true, offline, ..ScanFlags::default() };
            let (said, ask) = run(&flags, &diff(files), false);
            assert!(ask || said.starts_with(marker));
            for groups in [vec![], vec![change("a", &[], ""), change("b", &[], "")]] {
                let rate = RateStatus { remaining: None };
                let got = report(&flags, &paths(files), &answer(groups), &rate, false);
                assert!(got.said.out.starts_with(marker));
            }
        }
    }
}
