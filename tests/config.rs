use ai_review::config::Config;

#[test]
fn test_default_config() {
    let config = Config::default();
    assert!(!config.review.include_patterns.is_empty());
    assert!(!config.review.exclude_patterns.is_empty());
    assert_eq!(config.staleness.warn_after_days, 3);
}

#[test]
fn test_should_review_file() {
    let config = Config::default();
    assert!(config.should_review_file("src/main.rs"));
    assert!(config.should_review_file("lib/utils.py"));
    assert!(config.should_review_file("components/Button.tsx"));
    assert!(!config.should_review_file("test_utils.py"));
    assert!(!config.should_review_file("node_modules/lodash/index.js"));
    assert!(!config.should_review_file("target/debug/main"));
}

#[test]
fn test_severity_checks() {
    let config = Config::default();
    assert!(config.is_blocking_severity("critical"));
    assert!(config.is_blocking_severity("CRITICAL"));
    assert!(!config.is_blocking_severity("high"));
    assert!(config.is_warning_severity("high"));
    assert!(config.is_warning_severity("medium"));
    assert!(!config.is_warning_severity("low"));
}
