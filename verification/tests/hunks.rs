//! Diffs, plans and the check that a plan covers a diff.

use commitor::engine::hunks::{build_patch, parse, FileDiff};
use commitor::engine::plan::{join_ids, validate, PlanError, PlanGroup};

fn paths(values: &[&str]) -> Vec<String> {
    values.iter().map(|v| v.to_string()).collect()
}

fn group(message: &str, whole: &[&str], partial: &[(&str, &[usize])]) -> PlanGroup {
    PlanGroup {
        message: message.to_string(),
        whole: paths(whole),
        partial: partial.iter().map(|(p, ids)| (p.to_string(), ids.to_vec())).collect(),
    }
}

const TWO_FILES: &str = "\
diff --git a/src/a.rs b/src/a.rs
index 1111111..2222222 100644
--- a/src/a.rs
+++ b/src/a.rs
@@ -1,3 +1,4 @@ imports
 use one;
+use two;
 use three;
@@ -10,3 +11,4 @@ body
 fn a() {}
+fn b() {}
 }
diff --git a/src/b.rs b/src/b.rs
index 3333333..4444444 100644
--- a/src/b.rs
+++ b/src/b.rs
@@ -1,2 +1,3 @@
 x
+y
 z";

#[test]
fn parses_multiple_files_and_hunks() {
    let files = parse(TWO_FILES);
    assert_eq!(files.len(), 2);
    assert_eq!(files[0].path, "src/a.rs");
    assert_eq!(files[1].path, "src/b.rs");
    assert_eq!(files[0].hunks.len(), 2);
    assert_eq!(files[0].hunks[0].header, "@@ -1,3 +1,4 @@ imports");
    assert!(files[0]
        .hunks[0]
        .body_lines
        .iter()
        .any(|l| l == "+use two;"));
    // The second hunk's body runs until the next diff --git line.
    assert!(files[0].hunks[1].body_lines.iter().any(|l| l == " }"));
    assert!(!files[0].atomic && !files[1].atomic);
}

#[test]
fn no_newline_marker_stays_in_body() {
    let diff = "\
diff --git a/f.txt b/f.txt
--- a/f.txt
+++ b/f.txt
@@ -1 +1 @@
-old
\\ No newline at end of file
+new";
    let files = parse(diff);
    let body = &files[0].hunks[0].body_lines;
    assert!(body.iter().any(|l| l.starts_with('\\')));
}

#[test]
fn deleted_file_is_atomic_with_a_side_path() {
    let diff = "\
diff --git a/gone.txt b/gone.txt
deleted file mode 100644
index 1111111..0000000
--- a/gone.txt
+++ /dev/null
@@ -1 +0,0 @@
-bye";
    let files = parse(diff);
    assert_eq!(files[0].path, "gone.txt");
    assert!(files[0].atomic);
}

#[test]
fn binary_file_is_atomic_without_hunks() {
    let diff = "\
diff --git a/img.png b/img.png
index 1111111..2222222 100644
Binary files a/img.png and b/img.png differ";
    let files = parse(diff);
    assert_eq!(files[0].path, "img.png");
    assert!(files[0].atomic);
    assert!(files[0].hunks.is_empty());
}

#[test]
fn rename_with_edits_is_atomic_despite_hunks() {
    let diff = "\
diff --git a/old.rs b/new.rs
similarity index 90%
rename from old.rs
rename to new.rs
--- a/old.rs
+++ b/new.rs
@@ -1 +1 @@
-a
+b";
    let files = parse(diff);
    assert!(files[0].atomic);
    assert_eq!(files[0].path, "new.rs");
}

#[test]
fn mode_only_diff_has_path_from_git_line() {
    let diff = "\
diff --git a/script.sh b/script.sh
old mode 100644
new mode 100755";
    let files = parse(diff);
    assert_eq!(files[0].path, "script.sh");
    assert!(files[0].atomic); // zero hunks
}

#[test]
fn synthetic_new_file_section_parses() {
    let diff = "\
diff --git a/new.txt b/new.txt
new file mode 100644
--- /dev/null
+++ b/new.txt
@@ -0,0 +1,2 @@
+hello
+world";
    let files = parse(diff);
    assert_eq!(files[0].path, "new.txt");
    assert!(files[0].atomic);
    assert_eq!(files[0].hunks.len(), 1);
}

fn two_files_fixture() -> Vec<FileDiff> {
    parse(TWO_FILES)
}

#[test]
fn valid_whole_file_plan_passes() {
    let files = two_files_fixture();
    let groups = vec![
        PlanGroup {
            message: "one".into(),
            whole: vec!["src/a.rs".into()],
            partial: vec![],
        },
        PlanGroup {
            message: "two".into(),
            whole: vec!["src/b.rs".into()],
            partial: vec![],
        },
    ];
    assert!(validate(&files, &groups, &paths(&["src/a.rs", "src/b.rs"])).is_ok());
}

#[test]
fn valid_hunk_split_of_one_file_passes() {
    let files = two_files_fixture();
    let groups = vec![
        PlanGroup {
            message: "one".into(),
            whole: vec![],
            partial: vec![("src/a.rs".into(), vec![1])],
        },
        PlanGroup {
            message: "two".into(),
            whole: vec!["src/b.rs".into()],
            partial: vec![("src/a.rs".into(), vec![2])],
        },
    ];
    assert!(validate(&files, &groups, &paths(&["src/a.rs", "src/b.rs"])).is_ok());
}

#[test]
fn unclaimed_hunk_is_refused() {
    let files = two_files_fixture();
    let groups = vec![
        PlanGroup {
            message: "one".into(),
            whole: vec!["src/b.rs".into()],
            partial: vec![("src/a.rs".into(), vec![1])], // hunk 2 missing
        },
    ];
    let err = validate(&files, &groups, &paths(&["src/a.rs", "src/b.rs"])).unwrap_err();
    assert!(err.describe().contains("unclaimed"), "{}", err.describe());
}

#[test]
fn duplicate_hunk_assignment_is_refused() {
    let files = two_files_fixture();
    let groups = vec![
        PlanGroup {
            message: "one".into(),
            whole: vec![],
            partial: vec![("src/a.rs".into(), vec![1])],
        },
        PlanGroup {
            message: "two".into(),
            whole: vec!["src/b.rs".into()],
            partial: vec![("src/a.rs".into(), vec![1, 2])], // hunk 1 twice
        },
    ];
    let err = validate(&files, &groups, &paths(&["src/a.rs", "src/b.rs"])).unwrap_err();
    assert!(err.describe().contains("more than once"), "{}", err.describe());
}

#[test]
fn out_of_range_hunk_is_refused() {
    let files = two_files_fixture();
    let groups = vec![PlanGroup {
        message: "one".into(),
        whole: vec!["src/b.rs".into()],
        partial: vec![("src/a.rs".into(), vec![1, 2, 3])], // no hunk 3
    }];
    let err = validate(&files, &groups, &paths(&["src/a.rs", "src/b.rs"])).unwrap_err();
    assert!(err.describe().contains("references hunk 3"), "{}", err.describe());
}

#[test]
fn unknown_path_is_refused() {
    let files = two_files_fixture();
    let groups = vec![PlanGroup {
        message: "one".into(),
        whole: vec!["src/a.rs".into(), "phantom.rs".into()],
        partial: vec![],
    }];
    assert!(validate(&files, &groups, &[]).is_err());
}

#[test]
fn splitting_an_atomic_file_is_refused() {
    let binary = parse(
        "diff --git a/img.png b/img.png\nBinary files a/img.png and b/img.png differ",
    );
    let groups = vec![PlanGroup {
        message: "one".into(),
        whole: vec![],
        partial: vec![("img.png".into(), vec![1])],
    }];
    let err = validate(&binary, &groups, &paths(&["img.png"])).unwrap_err();
    assert!(err.describe().contains("cannot be split"), "{}", err.describe());
}

#[test]
fn mixed_whole_and_partial_claim_is_refused() {
    let files = two_files_fixture();
    let groups = vec![
        PlanGroup {
            message: "one".into(),
            whole: vec!["src/a.rs".into()],
            partial: vec![],
        },
        PlanGroup {
            message: "two".into(),
            whole: vec![],
            partial: vec![("src/a.rs".into(), vec![2])], // also partially
        },
    ];
    let err = validate(&files, &groups, &paths(&["src/a.rs"])).unwrap_err();
    assert!(err.describe().contains("ambiguous"), "{}", err.describe());
}

#[test]
fn omitted_changed_file_is_refused() {
    // Only src/a.rs is part of the parsed diff, but the collection
    // step reported src/b.rs as changed too — the plan must
    // include it somewhere.
    let files = &two_files_fixture()[..1];
    let groups = vec![PlanGroup {
        message: "one".into(),
        whole: vec!["src/a.rs".into()],
        partial: vec![],
    }];
    let err = validate(files, &groups, &paths(&["src/a.rs", "src/b.rs"])).unwrap_err();
    assert!(err.describe().contains("not included in any group"), "{}", err.describe());
}

#[test]
fn empty_group_is_refused() {
    let files = two_files_fixture();
    let groups = vec![
        PlanGroup {
            message: "one".into(),
            whole: vec!["src/a.rs".into(), "src/b.rs".into()],
            partial: vec![],
        },
        PlanGroup {
            message: "empty".into(),
            whole: vec![],
            partial: vec![],
        },
    ];
    let err = validate(&files, &groups, &[]).unwrap_err();
    assert!(err.describe().contains("no files or hunks"), "{}", err.describe());
}

#[test]
fn build_patch_emits_only_selected_hunks() {
    let files = two_files_fixture();
    let patch = build_patch(&files, &("src/a.rs".into(), vec![2]));
    assert!(patch.starts_with("diff --git a/src/a.rs b/src/a.rs"));
    assert!(!patch.contains("@@ -1,3 +1,4 @@")); // hunk 1 excluded
    assert!(patch.contains("@@ -10,3 +11,4 @@ body"));
    assert!(patch.contains("+fn b() {}"));
    assert!(patch.ends_with('\n'));
    assert!(patch.lines().all(|l| !l.starts_with("+use two;")));
}

#[test]
fn nothing_of_a_diff_is_lost_in_its_records() {
    let files = two_files_fixture();
    let mut lines: Vec<String> = Vec::new();
    for file in &files {
        lines.extend(file.header.iter().cloned());
        for hunk in &file.hunks {
            lines.push(hunk.header.clone());
            lines.extend(hunk.body_lines.iter().cloned());
        }
    }
    let expected: Vec<String> = TWO_FILES.lines().map(str::to_string).collect();
    assert_eq!(lines, expected);
}

#[test]
fn a_patch_of_all_hunks_is_the_section() {
    let files = two_files_fixture();
    let patch = build_patch(&files, &("src/a.rs".to_string(), vec![1, 2]));
    let section = &TWO_FILES[..TWO_FILES.find("diff --git a/src/b.rs").unwrap()];
    assert_eq!(patch, section);
}

#[test]
fn a_patch_of_an_unknown_path_is_empty() {
    let files = two_files_fixture();
    assert_eq!(build_patch(&files, &("nope.rs".to_string(), vec![1])), "");
}

#[test]
fn a_patch_of_a_hunk_that_is_not_there_is_empty() {
    let files = two_files_fixture();
    assert_eq!(build_patch(&files, &("src/b.rs".to_string(), vec![1, 7])), "");
    assert_eq!(build_patch(&files, &("src/b.rs".to_string(), vec![0])), "");
    assert_eq!(
        build_patch(&files, &("src/b.rs".to_string(), vec![])),
        "diff --git a/src/b.rs b/src/b.rs\nindex 3333333..4444444 100644\n--- a/src/b.rs\n+++ b/src/b.rs\n"
    );
}

#[test]
fn lines_before_the_first_section_belong_to_no_file() {
    let files = parse("warning: something\ndiff --git a/x b/x\n--- a/x\n+++ b/x\n@@ -1 +1 @@\n-a\n+b\n");
    assert_eq!(files.len(), 1);
    assert_eq!(files[0].header[0], "diff --git a/x b/x");
}

#[test]
fn an_empty_diff_has_no_files() {
    assert!(parse("").is_empty());
}

#[test]
fn a_path_claimed_whole_twice_is_refused() {
    let files = two_files_fixture();
    let groups = vec![
        group("one", &["src/a.rs", "src/b.rs"], &[]),
        group("two", &["src/a.rs"], &[]),
    ];
    let err = validate(&files, &groups, &[]).unwrap_err();
    assert!(matches!(&err, PlanError::WholeTwice { path, group: 2 } if path == "src/a.rs"));
}

#[test]
fn every_refusal_names_its_kind() {
    let files = two_files_fixture();
    let refuse = |groups: Vec<PlanGroup>, expected: &[&str]| {
        validate(&files, &groups, &paths(expected)).unwrap_err()
    };
    assert!(matches!(refuse(vec![group("m", &[], &[])], &[]), PlanError::EmptyGroup { group: 1, .. }));
    assert!(matches!(refuse(vec![group("m", &["x"], &[])], &[]), PlanError::UnknownPath { .. }));
    assert!(matches!(
        refuse(vec![group("m", &["src/a.rs"], &[("src/a.rs", &[1])])], &[]),
        PlanError::Ambiguous { .. }
    ));
    assert!(matches!(
        refuse(vec![group("m", &[], &[("src/a.rs", &[0])])], &[]),
        PlanError::HunkOutOfRange { .. }
    ));
    assert!(matches!(
        refuse(vec![group("m", &[], &[("src/a.rs", &[1, 1])])], &[]),
        PlanError::HunkTwice { .. }
    ));
    let err = refuse(vec![group("m", &["src/b.rs"], &[("src/a.rs", &[2])])], &[]);
    assert!(err.describe().contains("unclaimed hunk(s): 1"), "{}", err.describe());
    assert!(matches!(
        refuse(vec![group("m", &["src/a.rs", "src/b.rs"], &[])], &["src/c.rs"]),
        PlanError::NotIncluded { .. }
    ));
}

#[test]
fn splitting_a_renamed_file_is_refused() {
    let files = parse(
        "diff --git a/o.rs b/n.rs\nrename from o.rs\nrename to n.rs\n--- a/o.rs\n+++ b/n.rs\n@@ -1 +1 @@\n-a\n+b\n",
    );
    let err = validate(&files, &[group("m", &[], &[("n.rs", &[1])])], &[]).unwrap_err();
    assert!(matches!(err, PlanError::NotSplittable { .. }));
}

#[test]
fn an_accepted_plan_claims_every_hunk_once() {
    let files = two_files_fixture();
    let groups = vec![
        group("one", &[], &[("src/a.rs", &[2])]),
        group("two", &["src/b.rs"], &[("src/a.rs", &[1])]),
    ];
    assert!(validate(&files, &groups, &paths(&["src/a.rs", "src/b.rs"])).is_ok());
    for file in &files {
        for hunk in 1..=file.hunks.len() {
            let whole = groups.iter().filter(|g| g.whole.contains(&file.path)).count();
            let parts: usize = groups
                .iter()
                .flat_map(|g| g.partial.iter())
                .filter(|(p, _)| *p == file.path)
                .map(|(_, ids)| ids.iter().filter(|id| **id == hunk).count())
                .sum();
            assert_eq!(whole + parts, 1);
        }
    }
}

#[test]
fn hunk_numbers_are_joined_with_commas() {
    assert_eq!(join_ids(&[]), "");
    assert_eq!(join_ids(&[3]), "3");
    assert_eq!(join_ids(&[1, 20, 300]), "1, 20, 300");
}

#[test]
fn the_patches_of_a_split_stage_every_line_once() {
    let diff = "diff --git a/x b/x\n--- a/x\n+++ b/x\n@@ -1 +1 @@\n-a\n+b\n@@ -5 +5 @@\n-c\n+d\n@@ -9 +9 @@\n-a\n+b\n";
    let files = parse(diff);
    let groups = vec![group("one", &[], &[("x", &[3, 1])]), group("two", &[], &[("x", &[2])])];
    assert!(validate(&files, &groups, &paths(&["x"])).is_ok());
    let mut staged: Vec<String> = Vec::new();
    for g in &groups {
        for claim in &g.partial {
            let patch = build_patch(&files, claim);
            assert!(patch.starts_with("diff --git a/x b/x\n--- a/x\n+++ b/x\n@@ "));
            staged.extend(patch.lines().skip(3).map(str::to_string));
        }
    }
    let mut wanted: Vec<String> = diff.lines().skip(3).map(str::to_string).collect();
    staged.sort();
    wanted.sort();
    assert_eq!(staged, wanted);
}

#[test]
fn a_pure_rename_has_the_new_path_and_goes_whole() {
    let files = parse("diff --git a/old.rs b/new.rs\nsimilarity index 100%\nrename from old.rs\nrename to new.rs");
    assert_eq!(files.len(), 1);
    assert_eq!(files[0].path, "new.rs");
    assert!(files[0].atomic);
    let groups = vec![group("one", &["new.rs"], &[])];
    assert!(validate(&files, &groups, &paths(&["new.rs"])).is_ok());
}

#[test]
fn a_section_without_side_lines_is_named_by_its_first_line() {
    let path = |diff: &str| parse(diff)[0].path.clone();
    assert_eq!(path("diff --git a/a/x b/a/x\nold mode 100644\nnew mode 100755\n"), "a/x");
    assert_eq!(path("diff --git a/my file b/my file\nold mode 100644\nnew mode 100755\n"), "my file");
    assert_eq!(path("diff --git x x\nold mode 100644\nnew mode 100755\n"), "x");
    assert_eq!(path("diff --git a/x b/y\n+++ /dev/null\n"), "x");
    assert_eq!(path("diff --git a/x b/y\n--- a/x\n+++ /dev/null\n"), "x");
    assert_eq!(path("diff --git a/x b/y\n--- a/x\n+++ b/y\n"), "y");
}

#[test]
fn the_order_of_a_plan_does_not_matter() {
    let files = two_files_fixture();
    let good = [group("one", &["src/b.rs"], &[("src/a.rs", &[2])]), group("two", &[], &[("src/a.rs", &[1])])];
    let turned = [group("x", &[], &[("src/a.rs", &[1])]), group("y", &["src/b.rs"], &[("src/a.rs", &[2])])];
    assert!(validate(&files, &good, &paths(&["src/a.rs", "src/b.rs"])).is_ok());
    assert!(validate(&files, &turned, &paths(&["src/b.rs", "src/a.rs"])).is_ok());
    let bad = [group("one", &["src/b.rs"], &[]), group("two", &[], &[("src/a.rs", &[1])])];
    let turned = [group("two", &[], &[("src/a.rs", &[1])]), group("one", &["src/b.rs"], &[])];
    assert!(validate(&files, &bad, &paths(&["src/a.rs", "src/b.rs"])).is_err());
    assert!(validate(&files, &turned, &paths(&["src/b.rs", "src/a.rs"])).is_err());
}

#[test]
fn a_patch_of_some_hunks_is_read_back() {
    let files = two_files_fixture();
    let read = parse(&build_patch(&files, &("src/a.rs".to_string(), vec![2, 1])));
    assert_eq!(read.len(), 1);
    assert_eq!(read[0].path, "src/a.rs");
    assert_eq!(read[0].header, files[0].header);
    assert_eq!(read[0].hunks, vec![files[0].hunks[1].clone(), files[0].hunks[0].clone()]);
    assert!(!read[0].atomic);
    let none = parse(&build_patch(&files, &("src/a.rs".to_string(), vec![])));
    assert!(none.len() == 1 && none[0].hunks.is_empty() && none[0].atomic);
}
