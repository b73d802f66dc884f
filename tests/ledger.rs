use ai_review::ledger::JsonLedger;
use ai_review::models::{
    DecisionRecord, HumanDecision, Location, Review, ReviewContext, ReviewStatus, Severity,
    Suggestion, SuggestionItem, SuggestionType,
};

fn ctx(pr: Option<u64>, repo: &str, branch: Option<&str>, sha: &str) -> ReviewContext {
    ReviewContext {
        pr_number: pr,
        repo: repo.to_string(),
        branch: branch.map(|b| b.to_string()),
        commit_sha: sha.to_string(),
        base_sha: None,
    }
}

fn item(id: &str, severity: Severity) -> SuggestionItem {
    SuggestionItem {
        suggestion: Suggestion {
            id: id.to_string(),
            suggestion_type: SuggestionType::Logic,
            severity,
            location: Location { file: "f.rs".to_string(), line_start: 1, line_end: 1 },
            description: "d".to_string(),
            proposed_fix: None,
        },
        recommendation: None,
        decision: None,
    }
}

#[test]
fn test_save_and_load() {
    let mut ledger = JsonLedger::new();
    let review = Review::new(ctx(Some(123), "owner/repo", Some("feature"), "abc123"));
    ledger.save(&review);
    let loaded = ledger.load(review.id).unwrap();
    assert_eq!(loaded.pr_number, Some(123));
    assert_eq!(loaded.repo, "owner/repo");
}

#[test]
fn test_load_by_pr() {
    let mut ledger = JsonLedger::new();
    let review = Review::new(ctx(Some(456), "owner/repo", None, "def456"));
    ledger.save(&review);
    let loaded = ledger.load_by_pr("owner/repo", 456).unwrap();
    assert_eq!(loaded.id, review.id);
}

#[test]
fn test_load_by_commit() {
    let mut ledger = JsonLedger::new();
    let review = Review::new(ctx(None, "owner/repo", Some("main"), "abc789"));
    ledger.save(&review);
    let loaded = ledger.load_by_commit("owner/repo", "abc789").unwrap();
    assert_eq!(loaded.id, review.id);
    assert_eq!(loaded.pr_number, None);
}

#[test]
fn resave_updates_in_place() {
    let mut ledger = JsonLedger::new();
    let mut review = Review::with_identity(ctx(Some(1), "o/r", None, "s1"), 42, 0);
    review.suggestions = vec![item("S1", Severity::High)];
    ledger.save(&review);
    review
        .decide(
            "S1",
            DecisionRecord {
                suggestion_id: "S1".to_string(),
                decision: HumanDecision::Rejected,
                reason: None,
                decided_by: "me".to_string(),
                decided_at: 1,
            },
        )
        .unwrap();
    ledger.save(&review);
    assert_eq!(ledger.reviews.len(), 1);
    assert_eq!(ledger.index.reviews.len(), 1);
    let loaded = ledger.load(42).unwrap();
    assert_eq!(loaded.suggestions.len(), 1);
    assert!(loaded.suggestions[0].decision.is_some());
    assert_eq!(loaded.status, ReviewStatus::Decided);
    assert!(ledger.list_pending().is_empty());
}

#[test]
fn latest_save_wins_lookups() {
    let mut ledger = JsonLedger::new();
    let first = Review::with_identity(ctx(Some(9), "o/r", None, "a"), 1, 0);
    let second = Review::with_identity(ctx(Some(9), "o/r", None, "b"), 2, 10);
    ledger.save(&first);
    ledger.save(&second);
    assert_eq!(ledger.load_by_pr("o/r", 9).unwrap().id, 2);
    ledger.save(&first);
    assert_eq!(ledger.load_by_pr("o/r", 9).unwrap().id, 1);
    assert_eq!(ledger.load_by_commit("o/r", "b").unwrap().id, 2);
    assert!(ledger.load_by_pr("o/r", 10).is_none());
    assert!(ledger.load(3).is_none());
    assert_eq!(ledger.list_by_repo("o/r").len(), 2);
    assert_eq!(ledger.list_by_repo("x/y").len(), 0);
}

#[test]
fn mark_stale_and_stats() {
    let mut ledger = JsonLedger::new();
    let mut a = Review::with_identity(ctx(Some(5), "o/r", None, "a"), 1, 0);
    a.suggestions = vec![item("S1", Severity::Critical), item("S2", Severity::Low)];
    let b = Review::with_identity(ctx(Some(5), "o/r", None, "b"), 2, 1);
    let mut c = Review::with_identity(ctx(Some(6), "o/r", None, "c"), 3, 2);
    c.status = ReviewStatus::Decided;
    ledger.save(&a);
    ledger.save(&b);
    ledger.save(&c);
    let stats = ledger.get_stats("o/r");
    assert_eq!(stats.pending_reviews, 2);
    assert_eq!(stats.decided_reviews, 1);
    assert_eq!(stats.total_reviews, 3);
    assert_eq!(stats.pending_suggestions, 2);
    assert_eq!(stats.critical_pending, 1);
    assert_eq!(ledger.mark_stale("o/r", 5, 2), 1);
    assert_eq!(ledger.load(1).unwrap().status, ReviewStatus::Stale);
    assert_eq!(ledger.load(2).unwrap().status, ReviewStatus::Pending);
    assert_eq!(ledger.list_pending().len(), 1);
    assert_eq!(ledger.get_stats("o/r").pending_suggestions, 0);
}
