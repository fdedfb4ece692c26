//! Offline plans, branch names and the repair of proposed paths.

use commitor::analysis::{ChangeGroup, CollectedDiff, PartialFile};
use commitor::commit::answers::{
    prompt_choice, prompt_confirm, prompt_line, prompt_retry, Choice, RetryDecision,
};
use commitor::commit::branch::{
    branch_candidates, complete, diff_actions, hint, is_valid_branch_name, propose_branch,
    push_unique, read_branch_name, slugify, suggest_branch_name,
};
use commitor::commit::changes::{
    categorize, classify_change, is_code_like, parse_file_changes, subject_line, Category,
    ChangeType, FileChange, FileKind,
};
use commitor::commit::offline::{
    file_scope, offline_commit_message, offline_groups, plan_files, scope_for, trim_source_root,
};
use commitor::commit::picker::{select_branch, BranchAction, BranchEvent};
use commitor::commit::proposal::{build_plan, describe_group, normalize_group_paths};
use commitor::engine::hunks::parse;
use commitor::engine::plan::validate;

fn collected(patch: &str, files: &[&str]) -> CollectedDiff {
    CollectedDiff {
        staged_used: true,
        files: files.iter().map(|s| s.to_string()).collect(),
        patch: patch.to_string(),
        untracked: Vec::new(),
    }
}

#[test]
fn new_source_file_is_feat() {
    let patch = "diff --git a/src/auth.rs b/src/auth.rs\nnew file mode 100644\n--- /dev/null\n+++ b/src/auth.rs\n@@ -0,0 +1,3 @@\n+fn login() {}\n";
    let msg = offline_commit_message(&collected(patch, &["src/auth.rs"]));
    assert!(msg.starts_with("feat("), "got: {msg}");
    assert!(msg.contains("add auth"), "got: {msg}");
}

#[test]
fn modifying_source_is_fix() {
    let patch = "diff --git a/src/parser.rs b/src/parser.rs\n--- a/src/parser.rs\n+++ b/src/parser.rs\n@@ -1,2 +1,2 @@\n-old\n+new\n";
    let msg = offline_commit_message(&collected(patch, &["src/parser.rs"]));
    assert!(msg.starts_with("fix("), "got: {msg}");
}

#[test]
fn feature_added_to_existing_file_is_feat() {
    let patch = "diff --git a/src/foo.rs b/src/foo.rs\n--- a/src/foo.rs\n+++ b/src/foo.rs\n@@ -1 +1,3 @@\n fn existing() {}\n+fn new_feature() {}\n+fn another() {}\n";
    let msg = offline_commit_message(&collected(patch, &["src/foo.rs"]));
    assert!(msg.starts_with("feat("), "got: {msg}");
}

#[test]
fn only_tests_is_test() {
    let patch = "diff --git a/tests/auth_test.rs b/tests/auth_test.rs\nnew file mode 100644\n--- /dev/null\n+++ b/tests/auth_test.rs\n@@ -0,0 +1 @@\n+test\n";
    let msg = offline_commit_message(&collected(patch, &["tests/auth_test.rs"]));
    assert!(msg.starts_with("test"), "got: {msg}");
}

#[test]
fn only_docs_is_docs() {
    let patch = "diff --git a/README.md b/README.md\n--- a/README.md\n+++ b/README.md\n@@ -1 +1 @@\n-old\n+new\n";
    let msg = offline_commit_message(&collected(patch, &["README.md"]));
    assert!(msg.starts_with("docs"), "got: {msg}");
}

#[test]
fn splits_multi_file_fixes_into_separate_commits() {
    let patch = "diff --git a/src/a.rs b/src/a.rs\n--- a/src/a.rs\n+++ b/src/a.rs\n@@ -1,5 +1,2 @@\n-a\n-b\n-c\n-d\n+e\n\
                diff --git a/lib/b.rs b/lib/b.rs\n--- a/lib/b.rs\n+++ b/lib/b.rs\n@@ -1,5 +1,2 @@\n-f\n-g\n-h\n-i\n+j\n";
    let groups = offline_groups(&collected(&patch, &["src/a.rs", "lib/b.rs"]));
    assert_eq!(groups.len(), 2, "got: {groups:?}");
    assert!(groups.iter().all(|g| g.message.starts_with("fix(")));
}

#[test]
fn empty_changeset_is_chore() {
    let msg = offline_commit_message(&collected("", &[]));
    assert_eq!(msg, "chore: update working changes");
}

#[test]
fn scope_strips_source_root() {
    let patch = "diff --git a/src/auth/login.rs b/src/auth/login.rs\nnew file mode 100644\n--- /dev/null\n+++ b/src/auth/login.rs\n@@ -0,0 +1 @@\n+fn x() {}\n";
    let msg = offline_commit_message(&collected(patch, &["src/auth/login.rs"]));
    assert!(msg.starts_with("feat(auth):"), "got: {msg}");
}

#[test]
fn crate_layout_scope_is_crate_name_not_src() {
    let patch = "diff --git a/crates/cli/src/admin.rs b/crates/cli/src/admin.rs\nnew file mode 100644\n--- /dev/null\n+++ b/crates/cli/src/admin.rs\n@@ -0,0 +1 @@\n+fn grant() {}\n";
    let msg = offline_commit_message(&collected(patch, &["crates/cli/src/admin.rs"]));
    assert!(msg.starts_with("feat(cli):"), "got: {msg}");

    let patch2 = "diff --git a/crates/cli/src/auth/login.rs b/crates/cli/src/auth/login.rs\nnew file mode 100644\n--- /dev/null\n+++ b/crates/cli/src/auth/login.rs\n@@ -0,0 +1 @@\n+fn login() {}\n";
    let msg2 = offline_commit_message(&collected(patch2, &["crates/cli/src/auth/login.rs"]));
    assert!(msg2.starts_with("feat(cli/auth):"), "got: {msg2}");
}

#[test]
fn normalize_repairs_abbreviated_model_paths() {
    let actual: Vec<String> = ["crates/cli/src/analysis.rs", "crates/cli/src/auth/login.rs"].iter().map(|s| s.to_string()).collect();

    let mut groups = vec![ChangeGroup {
        files: vec![
            "analysis.rs".to_string(),       // basename
            "./crates/cli/src/auth/login.rs".to_string(), // ./ prefix
        ],
        commit_message: "x".into(),
        rationale: String::new(),
        partial_files: vec![PartialFile {
            path: "b/crates/cli/src/analysis.rs".to_string(), // b/ prefix
            hunks: vec![1],
        }],
    }];

    normalize_group_paths(&mut groups, &actual);

    assert_eq!(groups[0].files[0], "crates/cli/src/analysis.rs");
    assert_eq!(groups[0].files[1], "crates/cli/src/auth/login.rs");
    assert_eq!(groups[0].partial_files[0].path, "crates/cli/src/analysis.rs");
}

#[test]
fn splits_features_fixes_and_remainder_into_separate_commits() {
    let patch = "\
diff --git a/src/auth/login.rs b/src/auth/login.rs\nnew file mode 100644\n--- /dev/null\n+++ b/src/auth/login.rs\n@@ -0,0 +1 @@\n+fn login() {}\n\
diff --git a/src/parser/grammar.rs b/src/parser/grammar.rs\nnew file mode 100644\n--- /dev/null\n+++ b/src/parser/grammar.rs\n@@ -0,0 +1 @@\n+fn parse() {}\n\
diff --git a/src/cache.rs b/src/cache.rs\n--- a/src/cache.rs\n+++ b/src/cache.rs\n@@ -1,2 +1,2 @@\n-old\n+new\n\
diff --git a/README.md b/README.md\n--- a/README.md\n+++ b/README.md\n@@ -1 +1 @@\n-old\n+new\n";
    let groups = offline_groups(&collected(
        patch,
        &["src/auth/login.rs", "src/parser/grammar.rs", "src/cache.rs", "README.md"],
    ));
    let types: Vec<&str> = groups.iter().map(|g| g.message.split(':').next().unwrap()).collect();
    assert_eq!(types.len(), 4, "groups: {groups:?}");
    assert!(types.iter().filter(|t| t.starts_with("feat")).count() == 2);
    assert!(types.iter().any(|t| t.starts_with("fix")));
    assert!(types.iter().any(|t| t.starts_with("docs")));
}

#[test]
fn same_scope_features_merge_into_one_commit() {
    let patch = "\
diff --git a/src/auth/login.rs b/src/auth/login.rs\nnew file mode 100644\n--- /dev/null\n+++ b/src/auth/login.rs\n@@ -0,0 +1 @@\n+fn login() {}\n\
diff --git a/src/auth/token.rs b/src/auth/token.rs\nnew file mode 100644\n--- /dev/null\n+++ b/src/auth/token.rs\n@@ -0,0 +1 @@\n+fn token() {}\n";
    let groups = offline_groups(&collected(
        patch,
        &["src/auth/login.rs", "src/auth/token.rs"],
    ));
    assert_eq!(groups.len(), 1, "expected one merged feat commit: {groups:?}");
    assert!(groups[0].message.starts_with("feat(auth):"));
}

fn change(path: &str, kind: FileKind, added: usize, removed: usize) -> FileChange {
    FileChange { path: path.to_string(), kind, added, removed }
}

fn texts(values: &[&str]) -> Vec<String> {
    values.iter().map(|v| v.to_string()).collect()
}

#[test]
fn a_patch_is_read_file_by_file() {
    let patch = "noise\ndiff --git a/x b/x\nnew file mode 100644\n--- /dev/null\n+++ b/x\n+one\n+two\ndiff --git a/y b/y\ndeleted file mode 100644\n--- a/y\n+++ /dev/null\n-gone\ndiff --git a/z b/z\n-a\n+b\n";
    let changes = parse_file_changes(patch);
    assert_eq!(changes.len(), 3);
    assert_eq!((changes[0].path.as_str(), changes[0].kind), ("x", FileKind::Added));
    assert_eq!((changes[0].added, changes[0].removed), (2, 0));
    assert_eq!((changes[1].path.as_str(), changes[1].kind), ("y", FileKind::Deleted));
    assert_eq!((changes[1].added, changes[1].removed), (0, 1));
    assert_eq!((changes[2].path.as_str(), changes[2].kind), ("z", FileKind::Modified));
    assert_eq!((changes[2].added, changes[2].removed), (1, 1));
}

#[test]
fn paths_fall_into_categories() {
    assert_eq!(categorize("a/tests/x.py"), Category::Test);
    assert_eq!(categorize("src/Test_login.py"), Category::Test);
    assert_eq!(categorize("src/login_spec.rs"), Category::Test);
    assert_eq!(categorize("README"), Category::Docs);
    assert_eq!(categorize("a/docs/x.rs"), Category::Docs);
    assert_eq!(categorize("Cargo.lock"), Category::Build);
    assert_eq!(categorize("x/.github/workflows"), Category::Build);
    assert_eq!(categorize("infra/main.tf"), Category::Build);
    assert_eq!(categorize("src/main.rs"), Category::Source);
    assert_eq!(categorize("dart"), Category::Source);
    assert_eq!(categorize("data.bin"), Category::Other);
    assert!(is_code_like(Category::Source) && is_code_like(Category::Other));
    assert!(!is_code_like(Category::Docs));
}

#[test]
fn changes_have_a_conventional_type() {
    let one = |c: FileChange| classify_change(&[c]);
    assert_eq!(one(change("src/a.rs", FileKind::Added, 0, 0)), ChangeType::Feat);
    assert_eq!(one(change("logo.png", FileKind::Added, 0, 0)), ChangeType::Refactor);
    assert_eq!(one(change("data.bin", FileKind::Added, 1, 0)), ChangeType::Feat);
    assert_eq!(one(change("data.bin", FileKind::Added, 1, 1)), ChangeType::Fix);
    assert_eq!(one(change("src/a.rs", FileKind::Modified, 2, 0)), ChangeType::Feat);
    assert_eq!(one(change("src/a.rs", FileKind::Modified, 2, 1)), ChangeType::Fix);
    assert_eq!(one(change("src/a.rs", FileKind::Deleted, 0, 0)), ChangeType::Fix);
    assert_eq!(one(change("src/a.rs", FileKind::Modified, 0, 0)), ChangeType::Refactor);
    assert_eq!(one(change("Cargo.toml", FileKind::Modified, 1, 1)), ChangeType::Build);
    assert_eq!(
        classify_change(&[
            change("src/a.rs", FileKind::Modified, 1, 5),
            change("src/b.rs", FileKind::Modified, 1, 1),
        ]),
        ChangeType::Refactor
    );
    assert_eq!(classify_change(&[]), ChangeType::Refactor);
}

#[test]
fn subjects_name_the_primary_file() {
    assert_eq!(subject_line(&[]), "update working changes");
    assert_eq!(subject_line(&[change("a/.env", FileKind::Deleted, 0, 1)]), "remove .env");
    assert_eq!(
        subject_line(&[
            change("README.md", FileKind::Modified, 1, 0),
            change("src/x.tar.gz", FileKind::Modified, 1, 0),
            change("src/new.rs", FileKind::Added, 1, 0),
        ]),
        "add new and 2 more"
    );
    assert_eq!(
        subject_line(&[change("a.md", FileKind::Modified, 1, 0), change("b.md", FileKind::Added, 1, 0)]),
        "update a and 1 more"
    );
}

#[test]
fn scopes_shed_boilerplate() {
    assert_eq!(file_scope("main.rs"), None);
    assert_eq!(file_scope("a/b/c.rs").as_deref(), Some("a/b"));
    assert_eq!(trim_source_root("crates/cli"), "cli");
    assert_eq!(trim_source_root("crates/cli/src/"), "cli");
    assert_eq!(trim_source_root("crates/cli/tests/x"), "cli/tests/x");
    assert_eq!(trim_source_root("src/src/x"), "src/x");
    assert_eq!(trim_source_root("other/src"), "other/src");
    assert_eq!(scope_for("src/auth/login.rs").as_deref(), Some("auth"));
    assert_eq!(scope_for("src/main.rs").as_deref(), Some("src"));
    assert_eq!(scope_for("/x").as_deref(), None);
    assert_eq!(scope_for("x"), None);
}

#[test]
fn an_offline_plan_keeps_every_file_and_is_accepted() {
    let patch = "diff --git a/src/a.rs b/src/a.rs\n--- a/src/a.rs\n+++ b/src/a.rs\n@@ -1 +1 @@\n-a\n+b\ndiff --git a/docs/x.md b/docs/x.md\n--- a/docs/x.md\n+++ b/docs/x.md\n@@ -1 +1 @@\n-a\n+b\ndiff --git a/src/b.rs b/src/b.rs\n--- a/src/b.rs\n+++ b/src/b.rs\n@@ -1 +1 @@\n-a\n+b\n";
    let groups = offline_groups(&collected(patch, &["src/a.rs", "docs/x.md", "src/b.rs"]));
    let messages: Vec<&str> = groups.iter().map(|g| g.message.as_str()).collect();
    assert_eq!(messages, vec!["fix(src): update a and 1 more", "docs(docs): update x"]);
    let mut files = plan_files(&groups);
    assert_eq!(files, texts(&["src/a.rs", "src/b.rs", "docs/x.md"]));
    assert!(validate(&parse(patch), &groups, &files).is_ok());
    files.sort();
    assert_eq!(files, texts(&["docs/x.md", "src/a.rs", "src/b.rs"]));
}

#[test]
fn a_diff_without_sections_is_one_chore() {
    let groups = offline_groups(&collected("nothing here", &["a", "b"]));
    assert_eq!(groups.len(), 1);
    assert_eq!(groups[0].message, "chore: update working changes");
    assert_eq!(groups[0].whole, texts(&["a", "b"]));
}

#[test]
fn actions_tell_what_happens_to_files() {
    let patch = "diff --git a/x/new.rs b/x/new.rs\n--- /dev/null\n+++ b/x/new.rs\ndiff --git a/old.rs b/old.rs\n--- a/old.rs\n+++ /dev/null\ndiff --git a/m.rs b/m.rs\n--- a/m.rs\n+++ b/m.rs\ndiff --git a/y/m.rs b/y/m.rs\n--- a/y/m.rs\n+++ b/y/m.rs\n+++ /dev/null\n";
    assert_eq!(
        diff_actions(&collected(patch, &[])),
        texts(&["add new.rs", "remove old.rs", "update m.rs", "remove m.rs"])
    );
    assert_eq!(diff_actions(&collected("+++ /dev/null\n", &[])), texts(&["remove file"]));
}

#[test]
fn branch_names_are_suggested_from_the_diff() {
    let patch = "diff --git a/auth.py b/auth.py\n--- a/auth.py\n+++ b/auth.py\ndiff --git a/api.py b/api.py\n--- a/api.py\n+++ b/api.py\n";
    assert_eq!(suggest_branch_name(&collected(patch, &[])), "update-auth-py-update-api-py");
    assert_eq!(suggest_branch_name(&collected("", &[])), "changes");
}

#[test]
fn a_recommended_branch_name_is_made_safe() {
    let diff = collected("", &[]);
    assert_eq!(propose_branch(Some("Fix The Bug!"), &diff), "fix-the-bug");
    assert_eq!(propose_branch(Some("!!!"), &diff), "changes");
    assert_eq!(propose_branch(None, &diff), "changes");
}

#[test]
fn slugs_are_short_and_plain() {
    assert_eq!(slugify("Add auth.py; update API"), "add-auth-py-update-api");
    assert_eq!(slugify("--a--b--"), "a-b");
    assert_eq!(slugify("é"), "");
    let long = "a".repeat(49) + " bcd";
    assert_eq!(slugify(&long), "a".repeat(49));
    assert_eq!(slugify(&"x".repeat(80)).len(), 50);
}

#[test]
fn actions_are_listed_once() {
    let mut actions = texts(&["a"]);
    push_unique(&mut actions, "a".to_string());
    push_unique(&mut actions, "b".to_string());
    assert_eq!(actions, texts(&["a", "b"]));
}

#[test]
fn branch_names_are_checked() {
    for good in ["main", "feature/login-flow", "v1.2"] {
        assert!(is_valid_branch_name(good), "{good}");
    }
    for bad in ["", "/a", "a/", "a..b", "a b", "a~", "a^", "a:", "a?", "a*", "a[", "a\\"] {
        assert!(!is_valid_branch_name(bad), "{bad}");
    }
}

#[test]
fn completion_offers_what_continues_the_input() {
    let names = branch_candidates("fix-it");
    assert_eq!(names, texts(&["fix-it"]));
    assert_eq!(complete(&names, "fi"), names);
    assert_eq!(complete(&names, "x"), Vec::<String>::new());
    assert_eq!(hint(&names, "fix").as_deref(), Some("-it"));
    assert_eq!(hint(&names, "fix-it"), None);
    assert_eq!(hint(&names, "y"), None);
    assert_eq!(read_branch_name("fix-it", Some("  ")).as_deref(), Some("fix-it"));
    assert_eq!(read_branch_name("fix-it", Some(" own ")).as_deref(), Some("own"));
    assert_eq!(read_branch_name("fix-it", None), None);
}

#[test]
fn lines_are_read_as_answers() {
    assert_eq!(prompt_choice(""), Some(Choice::Cancel));
    assert_eq!(prompt_choice("\n"), Some(Choice::Accept));
    assert_eq!(prompt_choice(" A \n"), Some(Choice::Accept));
    assert_eq!(prompt_choice("e\n"), Some(Choice::Edit));
    assert_eq!(prompt_choice("C\n"), Some(Choice::Cancel));
    assert_eq!(prompt_choice("yes\n"), None);
    assert_eq!(prompt_retry(""), Some(RetryDecision::Cancel));
    assert_eq!(prompt_retry("\n"), Some(RetryDecision::Retry));
    assert_eq!(prompt_retry("o\n"), Some(RetryDecision::Offline));
    assert_eq!(prompt_retry("c\n"), Some(RetryDecision::Cancel));
    assert_eq!(prompt_retry("x\n"), None);
    assert!(prompt_confirm(" YES\n") && prompt_confirm("y\n"));
    assert!(!prompt_confirm("\n") && !prompt_confirm("") && !prompt_confirm("yep\n"));
    assert_eq!(prompt_line("  a b \n"), "a b");
}

#[test]
fn paths_that_stand_for_nothing_are_kept() {
    let mut groups = vec![ChangeGroup {
        files: texts(&["a/a/b/x.rs", "././y.rs", "z.rs"]),
        commit_message: String::new(),
        rationale: String::new(),
        partial_files: Vec::new(),
    }];
    normalize_group_paths(&mut groups, &texts(&["b/x.rs", "q/y.rs"]));
    assert_eq!(groups[0].files, texts(&["b/x.rs", "q/y.rs", "z.rs"]));
}

#[test]
fn a_plan_takes_split_files_whole_nowhere() {
    let part = |path: &str, hunks: Vec<usize>| PartialFile { path: path.to_string(), hunks };
    let plan = build_plan(&[
        ChangeGroup {
            files: texts(&["a", "b", "a"]),
            commit_message: "one".to_string(),
            rationale: String::new(),
            partial_files: Vec::new(),
        },
        ChangeGroup {
            files: texts(&["c"]),
            commit_message: "two".to_string(),
            rationale: String::new(),
            partial_files: vec![part("b", vec![2, 1])],
        },
    ]);
    assert_eq!(plan[0].whole, texts(&["a"]));
    assert!(plan[0].partial.is_empty());
    assert_eq!(plan[1].whole, texts(&["c"]));
    assert_eq!(plan[1].partial, vec![("b".to_string(), vec![2, 1])]);
    assert_eq!(describe_group(&plan[1]), "c, b (hunks 2, 1)");
    assert_eq!(describe_group(&plan[0]), "a");
}

#[test]
fn the_branch_list_is_shown_and_numbers_pick_from_it() {
    let branches = texts(&["main", "dev"]);
    let current = Some("main".to_string());
    let step = select_branch(&branches, &current, BranchEvent::Start);
    assert_eq!(
        step.say,
        "\nChoose a branch to commit to:\n  1: main (current)\n  2: dev\n  3: create a new branch\n\n"
    );
    assert!(matches!(step.action, BranchAction::Ask(q) if q == "Enter a number [1-3] (or 'n' for a new branch): "));
    let answer = |line: &str| select_branch(&branches, &current, BranchEvent::Answer(line.to_string()));
    assert!(matches!(answer("2\n").action, BranchAction::Checkout(b) if b == "dev"));
    let same = answer("1\n");
    assert_eq!(same.say, "Already on 'main'.\n");
    assert!(matches!(same.action, BranchAction::Finish));
    assert!(matches!(answer("3\n").action, BranchAction::AskName));
    assert!(matches!(answer("N").action, BranchAction::AskName));
    assert!(answer("9").say.starts_with("Please enter a number between 1 and 3.\n"));
    assert!(answer("x").say.starts_with("Please enter a number or 'n'.\n"));
    assert_eq!(answer("\n").say, "No selection — committing on the current branch.\n");
}

#[test]
fn a_new_branch_is_made_only_with_a_valid_name() {
    let branches = texts(&["main"]);
    let name = |n: Option<&str>| {
        select_branch(&branches, &None, BranchEvent::Name(n.map(str::to_string)))
    };
    assert!(matches!(name(Some(" ok ")).action, BranchAction::Create(b) if b == "ok"));
    assert!(name(Some("a b")).say.starts_with("'a b' is not a valid branch name.\n"));
    assert!(name(Some(" ")).say.starts_with("Branch name can't be empty.\n"));
    assert!(matches!(name(None).action, BranchAction::Finish));
    let made = select_branch(
        &branches,
        &None,
        BranchEvent::Created { name: "ok".to_string(), failure: None },
    );
    assert_eq!(made.say, "Switched to new branch 'ok'.\n");
    let failed = select_branch(
        &branches,
        &None,
        BranchEvent::Switched { name: "main".to_string(), failure: Some("why".to_string()) },
    );
    assert!(failed.say.starts_with("Couldn't switch: why\nCommit or stash the conflicting changes first.\n"));
    assert!(matches!(failed.action, BranchAction::Ask(_)));
}

#[test]
fn lines_that_look_like_headers_are_counted_inside_a_hunk() {
    let patch = "diff --git a/q.sql b/q.sql\n--- a/q.sql\n+++ b/q.sql\n@@ -1,2 +1 @@\n--- old note\n-SELECT 1;\n+SELECT 2;\n";
    let changes = parse_file_changes(patch);
    assert_eq!(changes.len(), 1);
    assert_eq!(changes[0].path, "q.sql");
    assert_eq!(changes[0].kind, FileKind::Modified);
    assert_eq!((changes[0].added, changes[0].removed), (1, 2));
    let patch = "diff --git a/x b/x\n--- a/x\n+++ b/x\n@@ -1 +1,2 @@\n+++ i;\n+j\ndiff --git a/y b/y\n--- a/y\n+++ b/y\n@@ -1 +0,0 @@\n-k\n";
    let changes = parse_file_changes(patch);
    assert_eq!((changes[0].added, changes[0].removed), (2, 0));
    assert_eq!((changes[1].added, changes[1].removed), (0, 1));
}

#[test]
fn lines_of_a_hunk_are_no_actions() {
    let patch = "diff --git a/x.rs b/x.rs\n--- a/x.rs\n+++ b/x.rs\n@@ -1,2 +1,2 @@\n--- a/gone\n+++ b/y.rs\n+++ /dev/null\ndiff --git a/z.rs b/z.rs\n--- a/z.rs\n+++ /dev/null\n";
    assert_eq!(diff_actions(&collected(patch, &[])), texts(&["update x.rs", "remove z.rs"]));
}

#[test]
fn an_offline_plan_takes_a_pure_rename() {
    let patch = "diff --git a/src/old.rs b/src/new.rs\nsimilarity index 100%\nrename from src/old.rs\nrename to src/new.rs\n";
    let plan = offline_groups(&collected(patch, &["src/new.rs"]));
    assert_eq!(plan_files(&plan), texts(&["src/new.rs"]));
    assert!(validate(&parse(patch), &plan, &plan_files(&plan)).is_ok());
}
