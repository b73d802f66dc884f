use ai_review::config::{AutoAction, AutoRule, Config};
use ai_review::models::{
    HumanDecision, Location, Review, ReviewContext, ReviewStatus, Severity, Suggestion,
    SuggestionItem, SuggestionType,
};
use ai_review::rules::{RuleContext, RulesEngine, parse_number};

fn make_suggestion(severity: Severity, stype: SuggestionType) -> SuggestionItem {
    SuggestionItem {
        suggestion: Suggestion {
            id: "S001".to_string(),
            suggestion_type: stype,
            severity,
            location: Location { file: "src/main.rs".to_string(), line_start: 10, line_end: 15 },
            description: "Test suggestion".to_string(),
            proposed_fix: None,
        },
        recommendation: None,
        decision: None,
    }
}

fn rule(condition: &str, action: AutoAction, reason: &str) -> AutoRule {
    AutoRule { condition: condition.to_string(), action, reason: reason.to_string() }
}

const NOW: i64 = 1_700_000_000;
const DAY: i64 = 86_400;

#[test]
fn test_severity_match() {
    let rules = vec![rule("severity == 'low'", AutoAction::AutoDismiss, "Low severity auto-dismissed")];
    let engine = RulesEngine::new(rules);
    let mut item = make_suggestion(Severity::Low, SuggestionType::Style);
    let created_at = chrono::Utc::now().timestamp();
    let result = engine.evaluate_rules(&item, created_at);
    assert!(result.is_some());
    assert_eq!(result.unwrap().0, AutoAction::AutoDismiss);
    item.suggestion.severity = Severity::High;
    let result = engine.evaluate_rules(&item, created_at);
    assert!(result.is_none());
}

#[test]
fn test_compound_condition() {
    let rules = vec![rule(
        "severity == 'low' AND type == 'style'",
        AutoAction::AutoDismiss,
        "Low style auto-dismissed",
    )];
    let engine = RulesEngine::new(rules);
    let created_at = chrono::Utc::now().timestamp();
    let item = make_suggestion(Severity::Low, SuggestionType::Style);
    assert!(engine.evaluate_rules(&item, created_at).is_some());
    let item = make_suggestion(Severity::Low, SuggestionType::Security);
    assert!(engine.evaluate_rules(&item, created_at).is_none());
}

fn review_with(items: Vec<SuggestionItem>, created_at: i64) -> Review {
    let mut r = Review::with_identity(
        ReviewContext {
            pr_number: Some(1),
            repo: "o/r".to_string(),
            branch: None,
            commit_sha: "c".to_string(),
            base_sha: None,
        },
        7,
        created_at,
    );
    r.suggestions = items;
    r
}

#[test]
fn auto_dismiss_low_style_records_rejection() {
    let engine = RulesEngine::new(vec![rule(
        "severity == 'low' AND type == 'style'",
        AutoAction::AutoDismiss,
        "noise",
    )]);
    let mut review = review_with(
        vec![
            make_suggestion(Severity::Low, SuggestionType::Style),
            make_suggestion(Severity::High, SuggestionType::Style),
        ],
        NOW,
    );
    let n = engine.apply_at(&mut review, NOW);
    assert_eq!(n, 1);
    let d = review.suggestions[0].decision.as_ref().unwrap();
    assert_eq!(d.decision, HumanDecision::Rejected);
    assert_eq!(d.decided_by, "auto-rules");
    assert_eq!(d.reason.as_deref(), Some("[Auto] noise"));
    assert_eq!(d.decided_at, NOW);
    assert!(review.suggestions[1].decision.is_none());
    assert_eq!(review.status, ReviewStatus::Pending);
    assert_eq!(engine.apply_at(&mut review, NOW), 0);
}

#[test]
fn applying_rules_to_every_item_decides_the_review() {
    let engine = RulesEngine::new(vec![rule("type == \"style\"", AutoAction::AutoDefer, "later")]);
    let mut review = review_with(vec![make_suggestion(Severity::Medium, SuggestionType::Style)], NOW);
    assert_eq!(engine.apply(&mut review), 1);
    assert_eq!(review.suggestions[0].decision.as_ref().unwrap().decision, HumanDecision::Deferred);
    assert_eq!(review.status, ReviewStatus::Decided);
}

#[test]
fn age_rule_matches_old_reviews_only() {
    let engine = RulesEngine::new(vec![rule("age_days > 7", AutoAction::AutoAccept, "old")]);
    let item = make_suggestion(Severity::Low, SuggestionType::Logic);
    assert!(engine.evaluate_rules_at(&item, NOW - 10 * DAY, NOW).is_some());
    assert!(engine.evaluate_rules_at(&item, NOW - 3 * DAY, NOW).is_none());
}

#[test]
fn numeric_operators_and_malformed_rules() {
    let item = make_suggestion(Severity::Low, SuggestionType::Logic);
    let ctx = RuleContext::from_suggestion(&item, NOW - 10 * DAY, NOW);
    let engine = RulesEngine::new(vec![]);
    assert_eq!(ctx.age_days, 10);
    assert!(engine.matches_condition("age_days >= 10", &ctx));
    assert!(!engine.matches_condition("age_days >= 10.5", &ctx));
    assert!(engine.matches_condition("age_days < 10.5", &ctx));
    assert!(!engine.matches_condition("age_days < 10", &ctx));
    assert!(!engine.matches_condition("age_days <= 10", &ctx));
    assert!(!engine.matches_condition("age_days > seven", &ctx));
    assert!(!engine.matches_condition("severity > 1", &ctx));
    assert!(!engine.matches_condition("colour == 'red'", &ctx));
    assert!(engine.matches_condition("colour == ''", &ctx));
    assert!(engine.matches_condition("file_path == 'src/main.rs' AND severity == low", &ctx));
    assert!(!engine.matches_condition("severity == 'low' == 'low'", &ctx));
}

#[test]
fn first_matching_rule_wins() {
    let engine = RulesEngine::new(vec![
        rule("severity == 'high'", AutoAction::AutoAccept, "a"),
        rule("type == 'logic'", AutoAction::AutoDefer, "b"),
        rule("severity == 'low'", AutoAction::AutoDismiss, "c"),
    ]);
    let item = make_suggestion(Severity::Low, SuggestionType::Logic);
    let (action, reason) = engine.evaluate_rules_at(&item, NOW, NOW).unwrap();
    assert_eq!(action, AutoAction::AutoDefer);
    assert_eq!(reason, "b");
}

#[test]
fn rules_come_from_config_in_order() {
    let mut config = Config::default();
    config.auto_rules.push(rule("severity == 'low'", AutoAction::AutoDismiss, "x"));
    let engine = RulesEngine::from_config(&config);
    assert_eq!(engine.rules.len(), 1);
    assert_eq!(engine.rules[0].reason, "x");
}

#[test]
fn decimal_numbers_are_scaled() {
    let v: Vec<char> = "-2.5".chars().collect();
    assert_eq!(parse_number(&v), Some(-2_500_000_000_000_000_000));
    let v: Vec<char> = ".5".chars().collect();
    assert_eq!(parse_number(&v), Some(500_000_000_000_000_000));
    let v: Vec<char> = "1e3".chars().collect();
    assert_eq!(parse_number(&v), None);
    let v: Vec<char> = "".chars().collect();
    assert_eq!(parse_number(&v), None);
}
