use ai_review::models::SuggestionType;
use ai_review::suppressions::{
    RejectedFinding, Rejections, SourceFile, Suppression, Suppressions, content_hash_of,
    extract_finding_type, parse_file_line, parse_rejections,
};

fn suppression(file: &str, start: u32, end: u32) -> Suppression {
    Suppression {
        id: "sup-1".to_string(),
        file: file.to_string(),
        line_start: start,
        line_end: end,
        finding_type: None,
        pattern: None,
        reason: "accepted risk".to_string(),
        suppressed_by: "bob".to_string(),
        suppressed_at: 0,
        content_hash: None,
        expires: None,
    }
}

fn fixture() -> Vec<String> {
    (1..=30).map(|i| format!("line number {}", i)).collect()
}

#[test]
fn overlapping_ranges_match_and_others_do_not() {
    let mut store = Suppressions::new();
    store.items.push(suppression("src/f.rs", 10, 20));
    let hit = |s: u32, e: u32, f: &str| {
        store.is_suppressed(f, s, e, SuggestionType::Logic, "anything", 0, None).is_some()
    };
    assert!(hit(15, 18, "src/f.rs"));
    assert!(hit(5, 12, "src/f.rs"));
    assert!(hit(18, 25, "src/f.rs"));
    assert!(!hit(25, 30, "src/f.rs"));
    assert!(!hit(10, 20, "src/g.rs"));
}

#[test]
fn type_and_pattern_constraints() {
    let mut s = suppression("a.rs", 1, 5);
    s.finding_type = Some(SuggestionType::Security);
    s.pattern = Some("SQL Injection".to_string());
    let mut store = Suppressions::new();
    store.items.push(s);
    assert!(store
        .is_suppressed("a.rs", 2, 2, SuggestionType::Security, "possible sql injection here", 0, None)
        .is_some());
    assert!(store
        .is_suppressed("a.rs", 2, 2, SuggestionType::Style, "possible sql injection here", 0, None)
        .is_none());
    assert!(store.is_suppressed("a.rs", 2, 2, SuggestionType::Security, "buffer overflow", 0, None).is_none());
}

#[test]
fn expired_suppressions_are_inactive() {
    let mut s = suppression("a.rs", 1, 5);
    s.expires = Some(100);
    let mut store = Suppressions::new();
    store.items.push(s);
    assert_eq!(store.active(100, None).len(), 1);
    assert_eq!(store.active(101, None).len(), 0);
    assert!(store.is_suppressed("a.rs", 1, 1, SuggestionType::Logic, "", 101, None).is_none());
}

#[test]
fn edited_lines_invalidate_hash_anchored_suppression() {
    let lines = fixture();
    let mut s = suppression("src/f.rs", 10, 20);
    s.content_hash = content_hash_of(&lines, 10, 20);
    assert!(s.content_hash.is_some());
    let mut store = Suppressions::new();
    store.items.push(s);
    let unchanged = vec![SourceFile { path: "src/f.rs".to_string(), lines: lines.clone() }];
    assert_eq!(store.active(0, Some(&unchanged)).len(), 1);
    assert_eq!(store.cleanup(0, Some(&unchanged)), 0);
    let mut edited_lines = lines.clone();
    edited_lines[14] = "line number 1X".to_string();
    let edited = vec![SourceFile { path: "src/f.rs".to_string(), lines: edited_lines }];
    assert_eq!(store.active(0, Some(&edited)).len(), 0);
    assert_eq!(store.cleanup(0, Some(&edited)), 1);
    assert!(store.items.is_empty());
}

#[test]
fn edits_outside_range_or_unreadable_files_keep_suppression() {
    let lines = fixture();
    let mut s = suppression("src/f.rs", 10, 20);
    s.content_hash = content_hash_of(&lines, 10, 20);
    let mut store = Suppressions::new();
    store.items.push(s);
    let mut outside = lines.clone();
    outside[25] = "changed".to_string();
    let files = vec![SourceFile { path: "src/f.rs".to_string(), lines: outside }];
    assert_eq!(store.active(0, Some(&files)).len(), 1);
    let other = vec![SourceFile { path: "src/other.rs".to_string(), lines: vec![] }];
    assert_eq!(store.active(0, Some(&other)).len(), 1);
    let short = vec![SourceFile { path: "src/f.rs".to_string(), lines: vec!["x".to_string()] }];
    assert_eq!(store.active(0, Some(&short)).len(), 1);
}

#[test]
fn hash_range_is_clamped() {
    let lines = vec!["a".to_string(), "b".to_string()];
    assert_eq!(content_hash_of(&lines, 1, 99), content_hash_of(&lines, 1, 2));
    assert_ne!(content_hash_of(&lines, 1, 1), content_hash_of(&lines, 1, 2));
    assert_eq!(content_hash_of(&lines, 3, 4), None);
    assert_eq!(content_hash_of(&lines, 0, 1), None);
    assert_eq!(content_hash_of(&vec!["".to_string()], 1, 1), Some(0xcbf29ce484222325));
}

#[test]
fn prompt_lists_active_suppressions() {
    let mut store = Suppressions::new();
    assert_eq!(store.to_prompt(0, None), "");
    let mut s = suppression("src/f.rs", 10, 20);
    s.finding_type = Some(SuggestionType::Security);
    store.items.push(s);
    assert_eq!(
        store.to_prompt(0, None),
        "\n\nPreviously suppressed findings (DO NOT report these again):\n- src/f.rs (lines 10-20) [security]: accepted risk\n"
    );
}

#[test]
fn test_parse_rejections() {
    let content = r#"## AI Code Review Summary

#### 🟠 HIGH `S001` - Security
**File:** `src/main.rs` (lines 10-15)

This is a security issue description.

**Proposed fix:**
```
Fix the issue
```

**Decision:** ❌ REJECTED by maintainer
> This is intentional behavior for testing purposes.

---

#### 🟢 LOW `S002` - Style
**File:** `src/lib.rs` (lines 20-25)

This is a style issue.

**Proposed fix:**
```
Format better
```

---
"#;
    let findings = parse_rejections(content);
    assert_eq!(findings.len(), 1);
    assert_eq!(findings[0].file, "src/main.rs");
    assert_eq!(findings[0].line_start, 10);
    assert_eq!(findings[0].line_end, 15);
    assert_eq!(findings[0].finding_type, "security");
    assert!(findings[0].reason.contains("intentional behavior"));
}

#[test]
fn rejection_description_and_reason_are_joined() {
    let content = "#### x `S1` - Logic\n**File:** `a.rs` (lines 1-2)\nfirst\n\nsecond\n**Decision:** ❌ REJECTED\n> one\n>> two\n";
    let f = parse_rejections(content);
    assert_eq!(f.len(), 1);
    assert_eq!(f[0].description, "first second");
    assert_eq!(f[0].reason, "one two");
    assert_eq!(f[0].finding_type, "logic");
}

#[test]
fn test_parse_file_line() {
    let line = "**File:** `src/adapters/codex.rs` (lines 195-200)";
    let result = parse_file_line(line);
    assert!(result.is_some());
    let (file, start, end) = result.unwrap();
    assert_eq!(file, "src/adapters/codex.rs");
    assert_eq!(start, 195);
    assert_eq!(end, 200);
}

#[test]
fn file_line_without_range_is_none() {
    assert!(parse_file_line("**File:** `a.rs`").is_none());
    assert!(parse_file_line("**File:** `a.rs` (lines 5)").is_none());
}

#[test]
fn finding_type_is_lowercased_tail() {
    assert_eq!(extract_finding_type("#### 🟠 HIGH `S001` - Performance "), "performance");
    assert_eq!(extract_finding_type("#### no dash"), "unknown");
}

#[test]
fn rejections_prompt() {
    let r = Rejections::new(vec![RejectedFinding {
        file: "a.rs".to_string(),
        line_start: 1,
        line_end: 2,
        finding_type: "logic".to_string(),
        description: "d".to_string(),
        reason: "r".to_string(),
    }]);
    assert_eq!(
        r.to_prompt(),
        "\n\nPreviously reviewed and REJECTED findings (DO NOT report these again):\n- a.rs (lines 1-2) [logic]: d [Rejection reason: r]\n"
    );
    assert_eq!(Rejections::new(vec![]).to_prompt(), "");
}
