//! Changelogs from the history.

use commitor::changelog::{
    build_report, ensure_work_tree, fetch_commits, log_args, make_entry, parse_conventional,
    parse_log, render_markdown, render_terminal, run, split_subject, ChangelogFlags,
    ChangelogOutput,
};
use commitor::engine::git::GitOutput;

#[test]
fn parses_simple_conventional_commit() {
    let entry = parse_conventional(
        "abc1234".into(),
        "Alice".into(),
        "2026-08-30".into(),
        "feat: add user authentication flow",
    )
    .unwrap();

    assert_eq!(entry.commit_type, "feat");
    assert_eq!(entry.scope, None);
    assert_eq!(entry.summary, "add user authentication flow");
    assert!(!entry.is_breaking);
}

#[test]
fn parses_scoped_conventional_commit() {
    let entry = parse_conventional(
        "def5678".into(),
        "Bob".into(),
        "2026-08-30".into(),
        "fix(cli): resolve race condition in scan",
    )
    .unwrap();

    assert_eq!(entry.commit_type, "fix");
    assert_eq!(entry.scope, Some("cli".into()));
    assert_eq!(entry.summary, "resolve race condition in scan");
    assert!(!entry.is_breaking);
}

#[test]
fn parses_breaking_change_commit() {
    let entry = parse_conventional(
        "9998887".into(),
        "Charlie".into(),
        "2026-08-30".into(),
        "feat(api)!: breaking API endpoint restructuring",
    )
    .unwrap();

    assert_eq!(entry.commit_type, "feat");
    assert_eq!(entry.scope, Some("api".into()));
    assert_eq!(entry.summary, "breaking API endpoint restructuring");
    assert!(entry.is_breaking);
}

#[test]
fn ignores_non_conventional_commit() {
    let entry = parse_conventional(
        "1112223".into(),
        "David".into(),
        "2026-08-30".into(),
        "updated README and fixed typos",
    );

    assert!(entry.is_none());
}

const LOG: &str = "aaa|Ann|2026-01-01|feat(cli): one\nbbb | Bob | 2026-01-02 | fix!: two | three\nccc|Cy|2026-01-03|wip\nddd|Di|2026-01-04|chore: BREAKING CHANGE here\nshort|line\neee|Ed|2026-01-05|FEAT: four\n";

#[test]
fn a_log_is_read_line_by_line() {
    let entries = parse_log(LOG);
    let found: Vec<(&str, &str, &str, bool)> = entries
        .iter()
        .map(|e| (e.hash.as_str(), e.commit_type.as_str(), e.summary.as_str(), e.is_breaking))
        .collect();
    assert_eq!(
        found,
        vec![
            ("aaa", "feat", "one", false),
            ("bbb", "fix", "two | three", true),
            ("ddd", "chore", "BREAKING CHANGE here", true),
            ("eee", "feat", "four", false),
        ]
    );
    assert_eq!(entries[1].author, "Bob");
    assert_eq!(entries[1].date, "2026-01-02");
}

#[test]
fn subjects_are_taken_apart() {
    let s = split_subject("Feat( api )!: do it ").unwrap();
    assert_eq!((s.kind.as_str(), s.scope.as_deref(), s.breaking, s.summary.as_str()), ("Feat", Some("api"), true, "do it"));
    assert!(split_subject("feat(x: y").is_none());
    assert!(split_subject("feat)x(: y").is_none());
    assert!(split_subject("no colon").is_none());
    let parse = |s: &str| parse_conventional(String::new(), String::new(), String::new(), s);
    assert!(parse(": nothing").is_none());
    assert!(parse("feat:  ").is_none());
    assert!(make_entry(String::new(), String::new(), String::new(), split_subject("a: b").unwrap(), String::new()).is_none());
}

#[test]
fn types_are_in_lower_case() {
    let entry = parse_conventional("h".into(), "a".into(), "d".into(), "FIX(Core): It").unwrap();
    assert_eq!(entry.commit_type, "fix");
    assert_eq!(entry.scope.as_deref(), Some("Core"));
}

#[test]
fn a_report_lists_every_commit_once_by_category() {
    let report = build_report(None, &parse_log(LOG));
    assert_eq!(report.range, "Last 4 commits");
    assert_eq!(report.total_commits, 4);
    let names: Vec<&str> = report.categories.iter().map(|(n, _)| n.as_str()).collect();
    assert_eq!(names, vec!["Bug Fixes", "Chores & Maintenance", "Features"]);
    let total: usize = report.categories.iter().map(|(_, e)| e.len()).sum();
    assert_eq!(total, report.total_commits);
    let breaking: Vec<&str> = report.breaking_changes.iter().map(|e| e.hash.as_str()).collect();
    assert_eq!(breaking, vec!["bbb", "ddd"]);
}

#[test]
fn every_type_has_a_category() {
    let types = ["feat", "fix", "docs", "refactor", "perf", "test", "style", "chore", "ci", "build", "odd"];
    let names = [
        "Features", "Bug Fixes", "Documentation", "Refactoring", "Performance Improvements",
        "Tests", "Styles", "Chores & Maintenance", "Continuous Integration", "Build System",
        "Other Changes",
    ];
    for (kind, name) in types.iter().zip(names) {
        let report = build_report(Some("r"), &parse_log(&format!("h|a|d|{kind}: x\n")));
        assert_eq!(report.categories[0].0, name);
        assert_eq!(report.range, "r");
    }
}

#[test]
fn reports_are_rendered_exactly() {
    let report = build_report(Some("v1..v2"), &parse_log("aaa|Ann|d|feat(cli)!: one\nbbb|Bob|d|fix: two\n"));
    assert_eq!(
        render_terminal(&report, false),
        "📋 Commitor Changelog (v1..v2)\nTotal Conventional Commits: 2\n\n🚨 BREAKING CHANGES:\n  • feat(cli): one [aaa]\n\n### Bug Fixes\n  • fix: two (bbb)\n\n### Features\n  • feat(cli): one (aaa)\n\n"
    );
    assert_eq!(
        render_markdown(&report),
        "# Changelog (v1..v2)\n\n## 🚨 BREAKING CHANGES\n\n- **cli**: one (`aaa`)\n\n## Bug Fixes\n\n- two (`bbb`)\n\n## Features\n\n- **cli**: one (`aaa`)\n\n---\n_Generated by [Commitor](https://github.com/Commitor-AI/commitor)_\n"
    );
    let colored = render_terminal(&report, true);
    assert!(colored.starts_with("\x1b[1m📋 Commitor Changelog (v1..v2)\x1b[0m\n"));
    assert!(colored.contains("\x1b[33m🚨 BREAKING CHANGES:\x1b[0m\n"));
    assert!(colored.contains("\x1b[32m### Features\x1b[0m\n"));
}

#[test]
fn an_empty_history_is_told() {
    let mut flags = ChangelogFlags::default();
    assert!(matches!(run(&flags, &[], false), ChangelogOutput::Text(t) if t == "No Conventional Commits found.\n"));
    flags.json = true;
    assert!(matches!(run(&flags, &[], false), ChangelogOutput::Json(r) if r.range == "HEAD" && r.total_commits == 0));
    flags.markdown = true;
    flags.range = Some("a..b".to_string());
    assert!(matches!(run(&flags, &[], false), ChangelogOutput::Text(t) if t == "# Changelog\n\n_No Conventional Commits found in range `a..b`._\n"));
}

#[test]
fn the_output_follows_the_flags() {
    let entries = parse_log(LOG);
    let mut flags = ChangelogFlags { markdown: true, ..ChangelogFlags::default() };
    assert!(matches!(run(&flags, &entries, false), ChangelogOutput::Text(t) if t.starts_with("# Changelog (Last 4 commits)")));
    flags.json = true;
    assert!(matches!(run(&flags, &entries, false), ChangelogOutput::Json(_)));
    assert!(matches!(run(&ChangelogFlags::default(), &entries, false), ChangelogOutput::Text(t) if t.starts_with("📋")));
}

#[test]
fn git_is_asked_for_a_range_or_a_number() {
    let pretty = "--pretty=format:%h|%an|%ad|%s";
    assert_eq!(log_args(Some("a..b"), Some(3)), vec!["log", pretty, "--date=short", "a..b"]);
    assert_eq!(log_args(None, Some(3)), vec!["log", pretty, "--date=short", "-n3"]);
    assert_eq!(log_args(None, None), vec!["log", pretty, "--date=short", "-n20"]);
}

#[test]
fn a_failed_log_is_an_error() {
    let output = |success: bool| GitOutput {
        success,
        stdout: LOG.as_bytes().to_vec(),
        stderr: b" bad range \n".to_vec(),
    };
    assert_eq!(fetch_commits(&output(true)).unwrap().len(), 4);
    assert_eq!(fetch_commits(&output(false)).unwrap_err(), "git log failed: bad range");
    assert!(ensure_work_tree(true).is_ok());
    assert!(ensure_work_tree(false).unwrap_err().contains("doesn't look like a git repository"));
}

#[test]
fn a_type_outside_ascii_makes_a_commit() {
    let parse = |subject: &str| parse_conventional("h".into(), "a".into(), "d".into(), subject);
    assert_eq!(parse("ÄRA: x").unwrap().commit_type, "ära");
    assert!(parse(": x").is_none());
    assert!(parse("feat:").is_none());
}
