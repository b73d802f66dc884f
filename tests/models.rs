use ai_review::models::{
    DecisionRecord, HumanDecision, Location, Review, ReviewContext, ReviewError, ReviewStatus,
    Severity, Suggestion, SuggestionItem, SuggestionType,
};

fn item(id: &str, severity: Severity) -> SuggestionItem {
    SuggestionItem {
        suggestion: Suggestion {
            id: id.to_string(),
            suggestion_type: SuggestionType::Logic,
            severity,
            location: Location { file: "f.rs".to_string(), line_start: 1, line_end: 2 },
            description: "d".to_string(),
            proposed_fix: None,
        },
        recommendation: None,
        decision: None,
    }
}

fn record(id: &str) -> DecisionRecord {
    DecisionRecord {
        suggestion_id: id.to_string(),
        decision: HumanDecision::Accepted,
        reason: None,
        decided_by: "alice".to_string(),
        decided_at: 5,
    }
}

fn context() -> ReviewContext {
    ReviewContext {
        pr_number: Some(3),
        repo: "o/r".to_string(),
        branch: Some("main".to_string()),
        commit_sha: "abc".to_string(),
        base_sha: None,
    }
}

#[test]
fn status_becomes_decided_at_last_verdict() {
    let mut r = Review::new(context());
    r.suggestions = vec![item("S1", Severity::High), item("S2", Severity::Low)];
    assert!(!r.is_fully_decided());
    assert_eq!(r.pending_suggestions().len(), 2);
    r.decide("S1", record("S1")).unwrap();
    assert!(!r.is_fully_decided());
    assert_eq!(r.status, ReviewStatus::Pending);
    assert_eq!(r.pending_suggestions().len(), 1);
    r.decide("S2", record("S2")).unwrap();
    assert!(r.is_fully_decided());
    assert_eq!(r.status, ReviewStatus::Decided);
}

#[test]
fn deciding_unknown_suggestion_is_not_found() {
    let mut r = Review::new(context());
    r.suggestions = vec![item("S1", Severity::High)];
    assert_eq!(r.decide("S9", record("S9")), Err(ReviewError::NotFound));
    assert!(r.suggestions[0].decision.is_none());
}

#[test]
fn empty_review_is_fully_decided() {
    let r = Review::new(context());
    assert!(r.is_fully_decided());
    assert_eq!(r.status, ReviewStatus::Pending);
    assert_eq!(r.repo, "o/r");
}

#[test]
fn suggestions_grouped_by_severity() {
    let mut r = Review::with_identity(context(), 1, 0);
    r.suggestions = vec![item("A", Severity::High), item("B", Severity::Low), item("C", Severity::High)];
    let high = r.suggestions_by_severity(Severity::High);
    assert_eq!(high.len(), 2);
    assert_eq!(high[1].suggestion.id, "C");
    assert_eq!(r.suggestions_by_severity(Severity::Critical).len(), 0);
}
