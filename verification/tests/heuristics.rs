//! Local rules on changed paths.

use commitor::heuristics::{evaluate, Verdict};

fn paths(values: &[&str]) -> Vec<String> {
    values.iter().map(|v| v.to_string()).collect()
}

#[test]
fn empty_changeset_is_clean() {
    assert!(matches!(
        evaluate(&[]),
        Verdict::Clean { .. }
    ));
}

#[test]
fn single_module_is_clean() {
    let verdict = evaluate(&paths(&["src/auth/login.rs", "src/auth/session.rs"]));
    assert_eq!(
        verdict,
        Verdict::Clean {
            summary: "all changes under src".to_string()
        }
    );
}

#[test]
fn root_level_files_are_clean() {
    let verdict = evaluate(&paths(&["Cargo.toml", "README.md"]));
    assert!(matches!(verdict, Verdict::Clean { .. }));
}

#[test]
fn docs_only_change_is_clean() {
    let verdict = evaluate(&paths(&["docs/setup.md", "README.md"]));
    assert_eq!(
        verdict,
        Verdict::Clean {
            summary: "documentation-only change".to_string()
        }
    );
}

#[test]
fn frontend_plus_backend_is_flagged() {
    let verdict = evaluate(&paths(&["web/app.css", "src/auth/login.rs", "server/api.py"]));
    assert!(matches!(verdict, Verdict::Inconclusive { .. }));
}

#[test]
fn css_with_rust_is_flagged_even_without_js() {
    let verdict = evaluate(&paths(&["assets/main.css", "src/main.rs"]));
    assert!(
        matches!(&verdict, Verdict::Inconclusive { reason }
            if reason.contains("frontend") && reason.contains("backend")
        ),
        "{:?}",
        verdict
    );
}

#[test]
fn docs_dir_plus_code_dir_is_flagged() {
    let verdict = evaluate(&paths(&["docs/guide.md", "src/auth/login.rs"]));
    assert!(matches!(verdict, Verdict::Inconclusive { .. }));
}

#[test]
fn readme_alongside_own_module_code_is_clean() {
    let verdict = evaluate(&paths(&["engine/README.md", "engine/src/lib.rs"]));
    assert!(matches!(verdict, Verdict::Clean { .. }));
}

#[test]
fn several_code_dirs_are_flagged() {
    let verdict = evaluate(&paths(&["src/auth/login.rs", "src/billing/invoice.rs", "migrations/0001.sql"]));
    assert!(matches!(&verdict, Verdict::Inconclusive { reason } if reason.contains("areas")));
}

#[test]
fn dotfiles_have_no_extension() {
    // Dotfile-only changesets must not panic or misclassify.
    let verdict = evaluate(&paths(&[".gitignore", ".github/workflows/ci.yml"]));
    assert_eq!(
        verdict,
        Verdict::Clean {
            summary: "all changes under .github".to_string()
        }
    );
}

#[test]
fn the_reasons_are_worded_exactly() {
    assert_eq!(
        evaluate(&paths(&["web/app.css", "web/app.ts", "server/api.py"])),
        Verdict::Inconclusive {
            reason: "mixes frontend (css/ts) with backend (py) files".to_string()
        }
    );
    assert_eq!(
        evaluate(&paths(&["b/x.sql", "a/y.sql", "b/z.sql"])),
        Verdict::Inconclusive { reason: "spreads across 2 areas: a, b".to_string() }
    );
    assert_eq!(
        evaluate(&paths(&["docs/guide.md", "src/main.rs"])),
        Verdict::Inconclusive { reason: "touches both documentation and code".to_string() }
    );
    assert_eq!(
        evaluate(&paths(&["engine/README.md", "engine/src/lib.rs"])),
        Verdict::Clean { summary: "code and its docs under engine".to_string() }
    );
    assert_eq!(evaluate(&[]), Verdict::Clean { summary: "no files changed".to_string() });
    assert_eq!(
        evaluate(&paths(&["Makefile"])),
        Verdict::Clean { summary: "all changes under the repo root".to_string() }
    );
}

#[test]
fn extensions_are_compared_without_case() {
    assert_eq!(
        evaluate(&paths(&["a/X.CSS", "a/Y.Rs"])),
        Verdict::Inconclusive {
            reason: "mixes frontend (css) with backend (rs) files".to_string()
        }
    );
}

#[test]
fn order_and_repetition_of_paths_do_not_matter() {
    let a = evaluate(&paths(&["x/a.rs", "y/b.rs", "x/c.rs"]));
    let b = evaluate(&paths(&["y/b.rs", "x/c.rs", "x/a.rs", "y/b.rs"]));
    assert_eq!(a, b);
}
