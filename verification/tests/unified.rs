//! Unified diffs: headers, hunks, the two sides and what differs between them.

use helix_agent::ui::hunks::{compute_hunks, parse_and_compute_hunks, try_parse_and_compute_hunks};
use helix_agent::ui::unified::{parse_diff_hunks, parse_hunk_header, parse_range_spec, reconstruct_from_diff};
use ropey::Rope;

#[test]
fn test_parse_hunk_header_standard() {
    let result = parse_hunk_header("@@ -10,5 +20,7 @@");
    assert_eq!(result, Some((10, 5, 20, 7)));
}

#[test]
fn test_parse_hunk_header_implied_count() {
    let result = parse_hunk_header("@@ -10 +20 @@");
    assert_eq!(result, Some((10, 1, 20, 1)));
}

#[test]
fn test_parse_hunk_header_with_context() {
    let result = parse_hunk_header("@@ -10,5 +20,7 @@ fn main() {");
    assert_eq!(result, Some((10, 5, 20, 7)));
}

#[test]
fn test_parse_hunk_header_pure_addition() {
    let result = parse_hunk_header("@@ -10,0 +11,3 @@");
    assert_eq!(result, Some((10, 0, 11, 3)));
}

#[test]
fn test_parse_hunk_header_pure_deletion() {
    let result = parse_hunk_header("@@ -10,3 +9,0 @@");
    assert_eq!(result, Some((10, 3, 9, 0)));
}

#[test]
fn test_parse_diff_hunks_simple() {
    let diff = "\
diff --git a/foo.rs b/foo.rs
index abc1234..def5678 100644
--- a/foo.rs
+++ b/foo.rs
@@ -1,3 +1,4 @@
 fn main() {
-    println!(\"hello\");
+    println!(\"hello world\");
+    println!(\"goodbye\");
 }
";
    let hunks = parse_diff_hunks(diff);
    assert_eq!(hunks.len(), 1);
    assert_eq!(hunks[0].old_start, 1);
    assert_eq!(hunks[0].old_count, 3);
    assert_eq!(hunks[0].new_start, 1);
    assert_eq!(hunks[0].new_count, 4);
    assert_eq!(hunks[0].lines.len(), 5);
}

#[test]
fn test_parse_diff_hunks_multiple() {
    let diff = "\
@@ -1,3 +1,3 @@
 line1
-line2
+line2_modified
 line3
@@ -10,2 +10,3 @@
 line10
+line10.5
 line11
";
    let hunks = parse_diff_hunks(diff);
    assert_eq!(hunks.len(), 2);
    assert_eq!(hunks[0].old_start, 1);
    assert_eq!(hunks[1].old_start, 10);
}

#[test]
fn test_reconstruct_simple_modification() {
    let diff = "\
@@ -1,3 +1,3 @@
 fn main() {
-    println!(\"hello\");
+    println!(\"hello world\");
 }
";
    let (before, after) = reconstruct_from_diff(diff);
    assert!(before.contains("println!(\"hello\");"));
    assert!(!before.contains("hello world"));
    assert!(after.contains("println!(\"hello world\");"));
    assert!(!after.contains("println!(\"hello\");"));
}

#[test]
fn test_reconstruct_pure_addition() {
    let diff = "\
@@ -1,2 +1,4 @@
 line1
+added1
+added2
 line2
";
    let (before, after) = reconstruct_from_diff(diff);
    let before_lines: Vec<&str> = before.lines().collect();
    let after_lines: Vec<&str> = after.lines().collect();
    assert_eq!(before_lines, vec!["line1", "line2"]);
    assert_eq!(after_lines, vec!["line1", "added1", "added2", "line2"]);
}

#[test]
fn test_reconstruct_pure_deletion() {
    let diff = "\
@@ -1,4 +1,2 @@
 line1
-removed1
-removed2
 line2
";
    let (before, after) = reconstruct_from_diff(diff);
    let before_lines: Vec<&str> = before.lines().collect();
    let after_lines: Vec<&str> = after.lines().collect();
    assert_eq!(before_lines, vec!["line1", "removed1", "removed2", "line2"]);
    assert_eq!(after_lines, vec!["line1", "line2"]);
}

#[test]
fn test_reconstruct_empty_diff_fallback() {
    let diff = "some random text that is not a diff";
    let (before, after) = reconstruct_from_diff(diff);
    assert!(before.is_empty());
    assert_eq!(after, diff);
}

#[test]
fn test_compute_hunks_detects_changes() {
    let before = Rope::from("line1\nline2\nline3\n");
    let after = Rope::from("line1\nmodified\nline3\n");
    let hunks = compute_hunks(&before, &after);
    assert_eq!(hunks.len(), 1);
    // Hunk should cover line index 1 (0-indexed) in both before and after
    assert_eq!(hunks[0].before.start, 1);
    assert_eq!(hunks[0].before.end, 2);
    assert_eq!(hunks[0].after.start, 1);
    assert_eq!(hunks[0].after.end, 2);
}

#[test]
fn test_compute_hunks_no_changes() {
    let content = Rope::from("line1\nline2\nline3\n");
    let hunks = compute_hunks(&content, &content);
    assert!(hunks.is_empty());
}

#[test]
fn test_parse_and_compute_hunks_roundtrip() {
    let diff = "\
@@ -1,3 +1,3 @@
 fn main() {
-    println!(\"hello\");
+    println!(\"hello world\");
 }
";
    let (before, after, hunks) = parse_and_compute_hunks(diff);
    assert!(!hunks.is_empty());
    assert!(before.len_chars() > 0);
    assert!(after.len_chars() > 0);
}

#[test]
fn test_parse_range_spec_with_comma() {
    assert_eq!(parse_range_spec("10,5"), Some((10, 5)));
}

#[test]
fn test_parse_range_spec_without_comma() {
    assert_eq!(parse_range_spec("10"), Some((10, 1)));
}

#[test]
fn test_parse_range_spec_zero_count() {
    assert_eq!(parse_range_spec("10,0"), Some((10, 0)));
}

#[test]
fn test_parse_range_spec_invalid() {
    assert_eq!(parse_range_spec("abc"), None);
}

#[test]
fn test_no_newline_at_end_marker() {
    let diff = "\
@@ -1,2 +1,2 @@
-old line
+new line
 context
\\ No newline at end of file
";
    let hunks = parse_diff_hunks(diff);
    assert_eq!(hunks.len(), 1);
    // The "\ No newline" marker should be skipped, not added as a line
    assert_eq!(hunks[0].lines.len(), 3);
}

#[test]
fn texts_differ_by_their_changes() {
    let diff = "@@ -1,3 +1,2 @@\n a\n-b\n-c\n+d\n@@ -6,1 +5,2 @@\n e\n+f";
    let (before, after) = reconstruct_from_diff(diff);
    assert_eq!(before, "a\nb\nc\n\n\ne\n");
    assert_eq!(after, "a\nd\n\n\ne\nf\n");
    let feeds = |s: &str| s.chars().filter(|c| *c == '\n').count();
    assert_eq!(feeds(&before), feeds(&after));
    let (before, after) = reconstruct_from_diff("@@ -1,2 +1,2 @@\n a\nb\n");
    assert_eq!(before, "a\nb\n");
    assert_eq!(before, after);
    let (before, after) = reconstruct_from_diff("@@ -1,2 +0,0 @@\n-a\n-b\n");
    assert_eq!((before.as_str(), after.as_str()), ("a\nb\n", ""));
}

#[test]
fn hunks_that_can_be_compared() {
    let found = try_parse_and_compute_hunks("@@ -1,2 +1,2 @@\n a\n-b\n+c\n");
    let (before, after, hunks) = found.unwrap();
    assert_eq!((before.to_string(), after.to_string()), ("a\nb\n".to_string(), "a\nc\n".to_string()));
    assert_eq!(hunks.len(), 1);
    assert_eq!((hunks[0].before.start, hunks[0].before.end), (1, 2));
    assert_eq!((hunks[0].after.start, hunks[0].after.end), (1, 2));
    let (_, _, hunks) = try_parse_and_compute_hunks("@@ -1,1 +1,1 @@\n a\n").unwrap();
    assert!(hunks.is_empty());
}
