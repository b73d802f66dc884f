use ai_review::adapters::{
    RawRecommendation, RawLocation, RawSuggestion, advisor_user_prompt, review_user_prompt,
    convert_recommendation, convert_suggestion, extract_json,
};
use ai_review::models::{RecommendedAction, ReviewContext, Severity, SuggestionType};
use ai_review::suppressions::{Suppression, Suppressions};

#[test]
fn test_extract_json_from_code_block() {
    let content = r#"Here's my analysis:

```json
{"recommendations": []}
```

Done!"#;
    let result = extract_json(content).unwrap();
    assert_eq!(result, r#"{"recommendations": []}"#);
}

#[test]
fn test_extract_json_raw() {
    let content = r#"{"recommendations": []}"#;
    let result = extract_json(content).unwrap();
    assert_eq!(result, r#"{"recommendations": []}"#);
}

#[test]
fn extract_json_fenced_suggestions() {
    let content = "Here:\n```json\n{\"suggestions\": []}\n```\nDone";
    assert_eq!(extract_json(content).unwrap(), "{\"suggestions\": []}");
    let raw = "{\"suggestions\": []}";
    assert_eq!(extract_json(raw).unwrap(), raw);
}

#[test]
fn extract_json_outermost_braces_and_passthrough() {
    assert_eq!(extract_json("noise {\"a\": {\"b\": 1}} tail").unwrap(), "{\"a\": {\"b\": 1}}");
    assert_eq!(extract_json("no json here").unwrap(), "no json here");
    assert_eq!(extract_json("} backwards {").unwrap(), "} backwards {");
}

#[test]
fn test_convert_recommendation() {
    let claude_rec = RawRecommendation {
        suggestion_id: "S001".to_string(),
        action: "accept".to_string(),
        confidence_bp: 9500,
        rationale: "Valid security issue".to_string(),
        modified_fix: None,
    };
    let rec = convert_recommendation(claude_rec);
    assert_eq!(rec.suggestion_id, "S001");
    assert_eq!(rec.action, RecommendedAction::Accept);
    assert_eq!(rec.confidence_bp, 9500);
}

#[test]
fn recommendation_confidence_is_clamped_and_unknown_action_rejects() {
    let high = convert_recommendation(RawRecommendation {
        suggestion_id: "S002".to_string(),
        action: "shrug".to_string(),
        confidence_bp: 12000,
        rationale: String::new(),
        modified_fix: None,
    });
    assert_eq!(high.confidence_bp, 10000);
    assert_eq!(high.action, RecommendedAction::Reject);
    let low = convert_recommendation(RawRecommendation {
        suggestion_id: "S003".to_string(),
        action: "modify".to_string(),
        confidence_bp: -5,
        rationale: String::new(),
        modified_fix: Some("x".to_string()),
    });
    assert_eq!(low.confidence_bp, 0);
    assert_eq!(low.action, RecommendedAction::Modify);
}

#[test]
fn test_convert_suggestion() {
    let codex_suggestion = RawSuggestion {
        id: "S001".to_string(),
        suggestion_type: "security".to_string(),
        severity: "critical".to_string(),
        location: RawLocation { file: "src/main.rs".to_string(), line_start: 10, line_end: 15 },
        description: "SQL injection vulnerability".to_string(),
        proposed_fix: Some("Use parameterized queries".to_string()),
    };
    let suggestion = convert_suggestion(codex_suggestion);
    assert_eq!(suggestion.id, "S001");
    assert_eq!(suggestion.suggestion_type, SuggestionType::Security);
    assert_eq!(suggestion.severity, Severity::Critical);
    assert_eq!(suggestion.location.file, "src/main.rs");
}

#[test]
fn unknown_type_and_severity_fall_back() {
    let s = convert_suggestion(RawSuggestion {
        id: "S9".to_string(),
        suggestion_type: "typo".to_string(),
        severity: "urgent".to_string(),
        location: RawLocation { file: "a".to_string(), line_start: 1, line_end: 1 },
        description: String::new(),
        proposed_fix: None,
    });
    assert_eq!(s.suggestion_type, SuggestionType::Logic);
    assert_eq!(s.severity, Severity::Low);
}

#[test]
fn codex_prompt_names_target_and_suppressions() {
    let ctx = ReviewContext {
        pr_number: None,
        repo: "o/r".to_string(),
        branch: None,
        commit_sha: "abcdef123456".to_string(),
        base_sha: None,
    };
    let plain = review_user_prompt("+x", &ctx, None, 0);
    assert_eq!(plain, "Review this diff from commit abcdef1 in o/r:\n\n```diff\n+x\n```");
    let mut store = Suppressions::new();
    store.items.push(Suppression {
        id: "1".to_string(),
        file: "src/a.rs".to_string(),
        line_start: 3,
        line_end: 4,
        finding_type: Some(SuggestionType::Style),
        pattern: None,
        reason: "fine".to_string(),
        suppressed_by: "me".to_string(),
        suppressed_at: 0,
        content_hash: None,
        expires: None,
    });
    let ctx_pr = ReviewContext { pr_number: Some(7), ..ctx };
    let p = review_user_prompt("+x", &ctx_pr, Some(&store), 0);
    assert!(p.starts_with("Review this diff from PR #7 in o/r:"));
    assert!(p.ends_with("- src/a.rs (lines 3-4) [style]: fine\n"));
}

#[test]
fn claude_prompt_frames_inputs() {
    let p = advisor_user_prompt("[]", "+y");
    assert!(p.contains("```json\n[]\n```"));
    assert!(p.contains("```diff\n+y\n```"));
}
