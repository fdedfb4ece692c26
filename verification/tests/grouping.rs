//! Grouping of changed files, and the answers of a model.

use commitor::engine::gemini::{api_url, call_gemini, first_text, Candidate, GenerateResponse};
use commitor::engine::grouping::{
    build_commit_prompt, group_files_locally, model_json, unreadable_answer,
};

fn read(raw: &str) -> Result<serde_json::Value, String> {
    serde_json::from_str(&model_json(raw)).map_err(|e| unreadable_answer(raw, &e.to_string()))
}

#[test]
fn parse_valid_json() {
    let json = r#"{
        "commits": [
            {
                "message": "feat: add login",
                "files": ["src/auth.rs", "src/main.rs"],
                "reasoning": "authentication related",
                "bundling_warning": null
            }
        ],
        "summary": "adds login feature"
    }"#;

    let result = read(json).unwrap();
    assert_eq!(result["commits"].as_array().unwrap().len(), 1);
    assert_eq!(result["commits"][0]["message"], "feat: add login");
    assert!(result["commits"][0]["bundling_warning"].is_null());
    assert_eq!(result["summary"], "adds login feature");
}

#[test]
fn parse_json_inside_markdown_fences() {
    let input = r#"```json
{
"commits": [
    {
        "message": "fix: resolve crash",
        "files": ["bug.rs"],
        "reasoning": "single file fix",
        "bundling_warning": null
    }
],
"summary": "hotfix"
}
```"#;

    let result = read(input).unwrap();
    assert_eq!(result["commits"][0]["message"], "fix: resolve crash");
    assert_eq!(result["summary"], "hotfix");
}

#[test]
fn parse_json_inside_plain_fences() {
    let input = "```\n{\"commits\":[],\"summary\":\"empty\"}\n```";
    let result = read(input).unwrap();
    assert!(result["commits"].as_array().unwrap().is_empty());
    assert_eq!(result["summary"], "empty");
}

#[test]
fn parse_malformed_json_returns_err() {
    let input = "this is not json at all";
    let result = read(input);
    assert!(result.is_err());
}

#[test]
fn parse_bundling_warning_preserved() {
    let json = r#"{
        "commits": [
            {
                "message": "feat: add feature",
                "files": ["a.rs", "b.rs"],
                "reasoning": "related",
                "bundling_warning": "these files seem unrelated"
            }
        ],
        "summary": "mixed changes"
    }"#;

    let result = read(json).unwrap();
    assert_eq!(
        result["commits"][0]["bundling_warning"].as_str(),
        Some("these files seem unrelated")
    );
}


#[test]
fn local_grouping_by_top_dir() {
    let files: Vec<String> = vec![
        "src/main.rs".into(),
        "src/lib.rs".into(),
        "tests/integration.rs".into(),
        "README.md".into(),
    ];

    let result = group_files_locally(&files);
    assert_eq!(result.commits.len(), 3);

    let messages: Vec<&str> = result.commits.iter().map(|c| c.message.as_str()).collect();
    assert!(messages.contains(&"chore: update 2 file(s) in src"));
    assert!(messages.contains(&"chore: update 1 file(s) in tests"));
    assert!(messages.contains(&"chore: update 1 file(s) in README.md"));

    assert_eq!(
        result.summary,
        "locally grouped 4 file(s) by top-level directory"
    );
}

#[test]
fn local_grouping_single_top_level_file() {
    let files: Vec<String> = vec!["Cargo.toml".into()];
    let result = group_files_locally(&files);
    assert_eq!(result.commits.len(), 1);
    assert_eq!(
        result.commits[0].message,
        "chore: update 1 file(s) in Cargo.toml"
    );
    assert_eq!(result.commits[0].files, vec!["Cargo.toml"]);
}

#[test]
fn local_grouping_empty_input() {
    let result = group_files_locally(&[]);
    assert!(result.commits.is_empty());
    assert_eq!(
        result.summary,
        "locally grouped 0 file(s) by top-level directory"
    );
}

#[test]
fn local_grouping_is_exact_and_keeps_every_file() {
    let files: Vec<String> = vec!["b/x".into(), "a".into(), "b/y".into()];
    let result = group_files_locally(&files);
    assert_eq!(result.commits[0].files, vec!["a"]);
    assert_eq!(result.commits[0].reasoning, "all files under the a directory");
    assert_eq!(result.commits[1].files, vec!["b/x", "b/y"]);
    assert_eq!(result.commits[1].bundling_warning, None);
    let mut all: Vec<String> = result.commits.iter().flat_map(|c| c.files.clone()).collect();
    all.sort();
    assert_eq!(all, vec!["a", "b/x", "b/y"]);
}

#[test]
fn the_question_to_a_model_holds_the_diff() {
    let prompt = build_commit_prompt("+x");
    assert!(prompt.starts_with("You are Commitor, a tool that catches unrelated changes"));
    assert!(prompt.contains("Diffs:\n+x\n\nRespond with **only** valid JSON"));
    assert!(prompt.ends_with("diff accomplishes\"\n}"));
}

#[test]
fn an_unreadable_answer_is_quoted() {
    assert_eq!(
        unreadable_answer(" nope \n", "why"),
        "failed to parse JSON from model response:\nnope: why"
    );
    assert_eq!(model_json("  ```json\n{}\n```  "), "{}");
    assert_eq!(model_json("{}```"), "{}");
}

#[test]
fn rejects_empty_response_body() {
    let parsed = GenerateResponse { candidates: vec![] };
    assert!(first_text(&parsed).is_err());
}

#[test]
fn replies_of_the_model_are_told_apart() {
    let reply = |parts: &[&str]| {
        Ok(GenerateResponse {
            candidates: vec![Candidate { parts: parts.iter().map(|p| p.to_string()).collect() }],
        })
    };
    assert_eq!(call_gemini(true, 200, "", &reply(&["a", "b"])), Ok("a".to_string()));
    assert_eq!(
        call_gemini(true, 200, "", &reply(&[])),
        Err("Gemini API response contained no text".to_string())
    );
    assert_eq!(
        call_gemini(false, 503, "busy", &reply(&["a"])),
        Err("Gemini API returned HTTP 503: busy".to_string())
    );
    assert_eq!(
        call_gemini(true, 200, "", &Err("bad".to_string())),
        Err("failed to parse Gemini API response: bad".to_string())
    );
    assert_eq!(
        api_url(),
        "https://generativelanguage.googleapis.com/v1beta/models/gemini-3.7-flash:generateContent"
    );
}
