use ai_review::github::{parse_diff, parse_hunk_header, parse_repo};
use ai_review::models::ReviewError;

#[test]
fn test_parse_repo() {
    let (owner, repo) = parse_repo("octocat/hello-world").unwrap();
    assert_eq!(owner, "octocat");
    assert_eq!(repo, "hello-world");
}

#[test]
fn test_parse_repo_invalid() {
    assert!(parse_repo("invalid").is_err());
    assert!(parse_repo("too/many/parts").is_err());
}

#[test]
fn parse_repo_error_names_input() {
    assert_eq!(parse_repo("x").unwrap_err(), ReviewError::InvalidRepo("x".to_string()));
}

#[test]
fn test_parse_diff() {
    let diff = r#"diff --git a/src/main.rs b/src/main.rs
index 1234567..abcdefg 100644
--- a/src/main.rs
+++ b/src/main.rs
@@ -1,3 +1,4 @@
 fn main() {
+    println!("Hello");
     println!("World");
 }
"#;
    let files = parse_diff(diff);
    assert_eq!(files.len(), 1);
    assert_eq!(files[0].path, "src/main.rs");
    assert_eq!(files[0].hunks.len(), 1);
    assert_eq!(files[0].hunks[0].new_start, 1);
    assert_eq!(files[0].hunks[0].new_count, 4);
}

#[test]
fn parse_diff_two_files_and_hunk_content() {
    let diff = "diff --git a/a.txt b/a.txt\n@@ -1 +1,2 @@\n-x\n+y\n+z\ndiff --git a/b.txt b/b.txt\n@@ -5,2 +5 @@\n ctx\n";
    let files = parse_diff(diff);
    assert_eq!(files.len(), 2);
    assert_eq!(files[0].path, "a.txt");
    assert_eq!(files[0].hunks[0].old_count, 1);
    assert_eq!(files[0].hunks[0].new_count, 2);
    assert_eq!(files[0].hunks[0].content, "-x\n+y\n+z\n");
    assert_eq!(files[1].path, "b.txt");
    assert_eq!(files[1].hunks[0].old_start, 5);
    assert_eq!(files[1].hunks[0].new_count, 1);
    assert_eq!(files[1].hunks[0].content, " ctx\n");
    assert!(parse_diff("").is_empty());
}

#[test]
fn test_parse_hunk_header() {
    let hunk = parse_hunk_header("@@ -10,5 +10,7 @@ fn example()").unwrap();
    assert_eq!(hunk.old_start, 10);
    assert_eq!(hunk.old_count, 5);
    assert_eq!(hunk.new_start, 10);
    assert_eq!(hunk.new_count, 7);
}

#[test]
fn hunk_header_rejects_garbage() {
    assert!(parse_hunk_header("@@ nonsense @@").is_none());
    assert!(parse_hunk_header("@@").is_none());
}
