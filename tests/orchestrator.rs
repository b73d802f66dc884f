use ai_review::ledger::JsonLedger;
use ai_review::models::{
    Location, Review, ReviewContext, ReviewStatus, Severity, Suggestion, SuggestionItem,
    SuggestionType,
};
use ai_review::orchestrator::{Orchestrator, build_review, generate_summary, render_summary};

fn context(pr: Option<u64>, sha: &str) -> ReviewContext {
    ReviewContext {
        pr_number: pr,
        repo: "test/repo".to_string(),
        branch: None,
        commit_sha: sha.to_string(),
        base_sha: None,
    }
}

fn finding(id: &str, severity: Severity, fix: Option<&str>) -> Suggestion {
    Suggestion {
        id: id.to_string(),
        suggestion_type: SuggestionType::Security,
        severity,
        location: Location { file: "src/db.rs".to_string(), line_start: 3, line_end: 4 },
        description: "Unsanitised input".to_string(),
        proposed_fix: fix.map(|f| f.to_string()),
    }
}

/// Drives one request the way the pipeline does, counting review service calls.
fn run(orch: &mut Orchestrator, ctx: &ReviewContext, calls: &mut usize, id: u128) -> Review {
    if let Some(existing) = orch.find_existing(ctx) {
        return existing;
    }
    *calls += 1;
    let found = vec![finding("S001", Severity::High, None)];
    orch.record_review(ctx, id, 0, &found)
}

#[test]
fn second_request_for_same_commit_is_deduplicated() {
    let mut orch = Orchestrator::new(JsonLedger::new());
    let ctx = context(Some(4), "abc");
    let mut calls = 0;
    let first = run(&mut orch, &ctx, &mut calls, 11);
    let second = run(&mut orch, &ctx, &mut calls, 12);
    assert_eq!(calls, 1);
    assert_eq!(first.id, second.id);
    let newer = run(&mut orch, &context(Some(4), "def"), &mut calls, 13);
    assert_eq!(calls, 2);
    assert_eq!(newer.id, 13);
    assert_eq!(orch.ledger().reviews.len(), 2);
}

#[test]
fn empty_findings_give_decided_review() {
    let r = build_review(&context(None, "abc"), 1, 0, &vec![]);
    assert_eq!(r.status, ReviewStatus::Decided);
    let r = build_review(&context(None, "abc"), 1, 0, &vec![finding("S1", Severity::Low, None)]);
    assert_eq!(r.status, ReviewStatus::Pending);
    assert!(r.suggestions[0].decision.is_none());
}

#[test]
fn test_generate_summary_empty() {
    let review = Review::new(context(Some(1), "abc"));
    let summary = generate_summary(&review);
    assert!(summary.contains("No issues found"));
}

#[test]
fn test_generate_summary_empty_no_pr() {
    let review = Review::new(ReviewContext {
        pr_number: None,
        repo: "test/repo".to_string(),
        branch: Some("main".to_string()),
        commit_sha: "abc".to_string(),
        base_sha: None,
    });
    let summary = generate_summary(&review);
    assert!(summary.contains("No issues found"));
}

#[test]
fn summary_lists_counts_details_and_id() {
    let mut review = Review::with_identity(context(Some(1), "abc"), 0x0123456789abcdef0123456789abcdef, 0);
    review.suggestions = vec![
        SuggestionItem { suggestion: finding("S001", Severity::High, Some("escape it")), recommendation: None, decision: None },
        SuggestionItem { suggestion: finding("S002", Severity::Low, None), recommendation: None, decision: None },
    ];
    let md = generate_summary(&review);
    assert!(md.contains("| Critical | 0 |\n| High | 1 |\n| Medium | 0 |\n| Low | 1 |"));
    assert!(md.contains("#### 🟠 HIGH `S001` - Security\n**File:** `src/db.rs` (lines 3-4)\n\nUnsanitised input\n\n**Proposed fix:**\n```\nescape it\n```\n\n---\n\n"));
    assert!(md.contains("#### 🟢 LOW `S002` - Security\n"));
    assert!(md.contains("**Review ID:** `01234567-89ab-cdef-0123-456789abcdef`"));
    assert_eq!(render_summary(&review, "X"), md.replace("01234567-89ab-cdef-0123-456789abcdef", "X"));
}
