//! Collecting a diff, asking for its analysis and reading the reply.

use commitor::analysis::collect::{
    collect_diff, synthesize_untracked_section, text_section, wants_unstaged, UntrackedFile, WorkingChanges,
};
use commitor::analysis::reply::{
    analyze_request, analyze_timeout, analyze_url, describe_diff_too_large, describe_rate_limit,
    diff_too_large, enforce_size_guard, is_pro, parse_rate_status, rate_limit_message, snippet,
    AnalyzeError, RateStatus, Reply,
};
use commitor::analysis::request::{analyze_patch, analyze_with_key, analyze_with_mode};
use commitor::analysis::AnalyzeResponse;
use commitor::engine::hunks::parse;

fn changes(files: &[&str], patch: &str) -> WorkingChanges {
    WorkingChanges {
        files: files.iter().map(|f| f.to_string()).collect(),
        patch: patch.to_string(),
    }
}

fn untracked(path: &str, content: Result<&[u8], &str>) -> UntrackedFile {
    UntrackedFile {
        path: path.to_string(),
        content: content.map(|b| b.to_vec()).map_err(|e| e.to_string()),
    }
}

#[test]
fn staged_changes_come_first() {
    let staged = changes(&["a"], "STAGED\n");
    let unstaged = changes(&["b"], "UNSTAGED\n");
    assert!(!wants_unstaged(false, &staged.files));
    let got = collect_diff(false, false, staged.clone(), unstaged.clone(), &[]);
    assert!(got.diff.staged_used && !got.fell_back);
    assert_eq!((got.diff.files, got.diff.patch), (vec!["a".to_string()], "STAGED\n".to_string()));
    let all = collect_diff(true, false, staged, unstaged, &[]);
    assert!(!all.diff.staged_used && !all.fell_back);
    assert_eq!(all.diff.patch, "UNSTAGED\n");
}

#[test]
fn unstaged_changes_stand_in_for_missing_staged_ones() {
    let got = collect_diff(false, false, changes(&[], "x"), changes(&["b"], "U\n"), &[]);
    assert!(got.fell_back && !got.diff.staged_used);
    assert_eq!(got.diff.files, vec!["b"]);
    let none = collect_diff(false, false, changes(&[], ""), changes(&[], "left over"), &[]);
    assert_eq!(none.diff.patch, "");
    assert!(none.diff.files.is_empty());
}

#[test]
fn untracked_files_follow_and_unreadable_ones_are_left_out() {
    let files = [
        untracked("n.txt", Ok(b"one\ntwo\n")),
        untracked("bad", Err("denied")),
        untracked("e", Ok(b"")),
    ];
    let got = collect_diff(false, true, changes(&["a"], "P\n"), changes(&[], ""), &files);
    assert_eq!(got.diff.files, vec!["a", "n.txt", "e"]);
    assert_eq!(got.diff.untracked, vec!["n.txt", "e"]);
    assert_eq!(got.warnings, vec!["warning: skipping unreadable file bad: denied"]);
    assert_eq!(
        got.diff.patch,
        "P\ndiff --git a/n.txt b/n.txt\nnew file mode 100644\n--- /dev/null\n+++ b/n.txt\n@@ -0,0 +1,2 @@\n+one\n+two\ndiff --git a/e b/e\nnew file mode 100644\n--- /dev/null\n+++ b/e\n"
    );
    let left_out = collect_diff(false, false, changes(&["a"], "P\n"), changes(&[], ""), &files);
    assert_eq!(left_out.diff.patch, "P\n");
    assert!(left_out.warnings.is_empty());
}

#[test]
fn a_section_of_an_untracked_file_parses_as_one_new_file() {
    let text = parse(&synthesize_untracked_section("dir/new.txt", b"hello\nworld"));
    assert_eq!(text.len(), 1);
    assert_eq!(text[0].path, "dir/new.txt");
    assert!(text[0].atomic);
    assert_eq!(text[0].hunks.len(), 1);
    assert_eq!(text[0].hunks[0].body_lines, vec!["+hello", "+world"]);
    let binary = parse(&synthesize_untracked_section("img.png", b"\x89PNG\0"));
    assert_eq!((binary[0].path.as_str(), binary[0].atomic, binary[0].hunks.len()), ("img.png", true, 0));
    let empty = parse(&synthesize_untracked_section("empty", b""));
    assert_eq!((empty[0].path.as_str(), empty[0].atomic, empty[0].hunks.len()), ("empty", true, 0));
}

#[test]
fn content_is_binary_by_its_first_bytes_only() {
    let mut bytes = vec![b'x'; 8192];
    bytes.push(0);
    assert!(synthesize_untracked_section("f", &bytes).contains("@@ -0,0 +1,1 @@"));
    bytes[8191] = 0;
    assert!(synthesize_untracked_section("f", &bytes).ends_with("Binary files /dev/null and b/f differ\n"));
}

#[test]
fn bytes_that_are_no_text_are_replaced() {
    assert!(synthesize_untracked_section("f", b"a\xffb").ends_with("+a\u{fffd}b\n"));
    assert!(synthesize_untracked_section("f", "é\r\n".as_bytes()).ends_with("+é\n"));
}

#[test]
fn paid_plans_have_no_limit() {
    assert!(is_pro(Some("pro")) && is_pro(Some("team")));
    assert!(!is_pro(Some("FREE")) && !is_pro(Some("")) && !is_pro(None));
    let at_limit = "é".repeat(190_000);
    let over = "é".repeat(190_001);
    assert!(enforce_size_guard(None, &at_limit).is_ok());
    assert!(enforce_size_guard(Some("pro"), &over).is_ok());
    let err = enforce_size_guard(Some("free"), &over).unwrap_err();
    assert_eq!(
        err.message(),
        "The change is too large for analysis (>190000 characters).\nLarge diffs are a Commitor Pro feature — upgrade at https://commitor.dev/pricing to analyze\nchanges this big. Or split the changes into smaller commits manually."
    );
    assert!(matches!(err, AnalyzeError::Other(_)));
}

#[test]
fn the_timeout_can_be_set() {
    assert_eq!(analyze_timeout(None), 180);
    assert_eq!(analyze_timeout(Some(" 42 ")), 42);
    assert_eq!(analyze_timeout(Some("0")), 180);
    assert_eq!(analyze_timeout(Some("-1")), 180);
    assert_eq!(analyze_timeout(Some("18446744073709551616")), 180);
    assert_eq!(analyze_url("http://x"), "http://x/analyze");
}

#[test]
fn requests_carry_patch_mode_and_context() {
    let request = analyze_with_mode(None, "p", "commit", Some("c")).unwrap();
    assert_eq!((request.diff, request.mode, request.context), ("p", Some("commit"), Some("c")));
    assert_eq!(analyze_with_key(None, "p", None).unwrap().mode, Some("scan"));
    let over = "x".repeat(190_001);
    assert!(analyze_with_key(None, &over, None).is_err());
    let missing: Result<String, String> = Err("no key".to_string());
    assert_eq!(analyze_patch(&missing, None, "p", None).unwrap_err().message(), "no key");
    let key: Result<String, String> = Ok("k".to_string());
    assert_eq!(analyze_patch(&key, None, "p", Some("c")).unwrap().context, Some("c"));
}

#[test]
fn the_quota_is_read_and_hinted_at() {
    assert_eq!(parse_rate_status(Some("7")).remaining, Some(7));
    assert_eq!(parse_rate_status(Some("4294967296")).remaining, None);
    assert_eq!(parse_rate_status(Some("x")).remaining, None);
    assert_eq!(parse_rate_status(None).remaining, None);
    let hint = |n: Option<u32>| RateStatus { remaining: n }.low_quota_message();
    assert_eq!(hint(Some(4)), None);
    assert_eq!(hint(Some(3)).as_deref(), Some("3 analyses left today"));
    assert_eq!(hint(Some(1)).as_deref(), Some("1 analysis left today"));
    assert_eq!(hint(Some(0)).as_deref(), Some("0 analyses left today"));
    assert_eq!(hint(None), None);
}

#[test]
fn a_refusal_for_quota_is_put_in_words() {
    assert_eq!(
        describe_rate_limit("{\"limit\": 5, \"reset_at\": \"noon\", \"message\": \"m\"}"),
        "You've hit your daily limit (5/5 analyses) — resets at noon. Upgrade at https://commitor.dev/pricing for more."
    );
    assert_eq!(
        describe_rate_limit("{\"limit\": \"5\", \"reset_at\": \"noon\", \"message\": \"m\"}"),
        "m See https://commitor.dev/pricing for higher limits."
    );
    assert_eq!(
        describe_rate_limit("[]"),
        "You've hit your usage limit. See https://commitor.dev/pricing for higher limits."
    );
    assert_eq!(
        describe_rate_limit(""),
        "You've hit your usage limit. Wait a bit and try again, or see https://commitor.dev/pricing for higher limits."
    );
    assert_eq!(
        rate_limit_message(true, Some(1), None, Some("w".to_string())),
        "w See https://commitor.dev/pricing for higher limits."
    );
}

#[test]
fn a_refusal_for_size_is_put_in_words() {
    let fallback = "This change is too large to analyze on your plan. Upgrade at https://commitor.dev/pricing for larger diffs.";
    assert_eq!(describe_diff_too_large("{\"message\": \"too big\"}"), "too big");
    assert_eq!(describe_diff_too_large("{\"message\": 3}"), fallback);
    assert_eq!(describe_diff_too_large("oops"), fallback);
    assert_eq!(diff_too_large(None), fallback);
    assert_eq!(diff_too_large(Some("m".to_string())), "m");
}

fn answer(status: u16, text: &str, body: &str) -> Reply {
    Reply::Answer {
        status,
        status_text: text.to_string(),
        remaining: Some("2".to_string()),
        body: body.to_string(),
        parsed: Ok(AnalyzeResponse {
            groups: Vec::new(),
            confidence: None,
            model_tier: Some("t".to_string()),
            branch_name: None,
        }),
    }
}

#[test]
fn replies_are_told_apart() {
    let (response, rate) = analyze_request("u", answer(200, "200 OK", "")).unwrap();
    assert_eq!(response.model_tier.as_deref(), Some("t"));
    assert_eq!(rate.remaining, Some(2));
    let err = |r: Reply| analyze_request("u", r).unwrap_err();
    assert!(matches!(err(answer(401, "401 Unauthorized", "")), AnalyzeError::InvalidKey(m) if m.starts_with("Your stored API key was rejected (HTTP 401 Unauthorized)")));
    assert!(matches!(err(answer(403, "403 Forbidden", "")), AnalyzeError::InvalidKey(_)));
    assert!(matches!(err(answer(429, "429", "")), AnalyzeError::RateLimited(_)));
    assert!(matches!(err(answer(413, "413", "{\"message\":\"m\"}")), AnalyzeError::Other(m) if m == "m"));
    assert!(matches!(err(answer(500, "500 Oops", "")), AnalyzeError::Unavailable(m) if m == "Commitor API returned HTTP 500 Oops for u"));
    assert!(matches!(err(answer(502, "502 Bad", "why")), AnalyzeError::Unavailable(m) if m == "Commitor API returned HTTP 502 Bad for u\nServer said: why"));
    assert!(matches!(
        err(Reply::Unreachable("refused".to_string())),
        AnalyzeError::Unavailable(m) if m == "couldn't reach the Commitor API at u (refused). Is your backend running? Set COMMITOR_API_URL if it lives elsewhere."
    ));
    let mut unreadable = answer(200, "200 OK", "");
    if let Reply::Answer { parsed, .. } = &mut unreadable {
        *parsed = Err("bad".to_string());
    }
    assert!(matches!(err(unreadable), AnalyzeError::Other(m) if m == "u returned a response that doesn't match the analyze schema: bad"));
}

#[test]
fn only_the_first_characters_of_a_body_are_quoted() {
    assert_eq!(snippet("abc"), "abc");
    assert_eq!(snippet(&"é".repeat(300)), "é".repeat(200));
}

#[test]
fn a_text_is_presented_as_a_new_file() {
    let head = "diff --git a/f b/f\nnew file mode 100644\n--- /dev/null\n+++ b/f\n";
    assert_eq!(text_section("f", ""), head);
    assert_eq!(text_section("f", "a\n\nb"), format!("{head}@@ -0,0 +1,3 @@\n+a\n+\n+b\n"));
}
