//! Paths as git quotes them.

use helix_agent::git::porcelain::unquote_porcelain_path;

/// `unquote_porcelain_path` function directly
#[test]
fn unquote_porcelain_path_basic() {
    // Test unquoted path
    assert_eq!(unquote_porcelain_path("simple.txt"), "simple.txt");

    // Test quoted path with spaces
    assert_eq!(
        unquote_porcelain_path("\"file with spaces.txt\""),
        "file with spaces.txt"
    );

    // Test escaped characters
    assert_eq!(
        unquote_porcelain_path("\"file\\ttab.txt\""),
        "file\ttab.txt"
    );
    assert_eq!(
        unquote_porcelain_path("\"file\\nnewline.txt\""),
        "file\nnewline.txt"
    );
    assert_eq!(
        unquote_porcelain_path("\"file\\rcarriage.txt\""),
        "file\rcarriage.txt"
    );
    assert_eq!(
        unquote_porcelain_path("\"file\\\"quote.txt\""),
        "file\"quote.txt"
    );
    assert_eq!(
        unquote_porcelain_path("\"file\\\\backslash.txt\""),
        "file\\backslash.txt"
    );
}

/// `unquote_porcelain_path` with truncated quoted string (missing closing quote)
#[test]
fn adversarial_unquote_truncated_quote() {
    // Only opening quote, no closing quote - should return as-is
    assert_eq!(unquote_porcelain_path("\"incomplete"), "\"incomplete");
}

/// `unquote_porcelain_path` with empty quoted string
#[test]
fn adversarial_unquote_empty_quoted() {
    // Empty quoted string "" should return empty string
    assert_eq!(unquote_porcelain_path("\"\""), "");
}

/// `unquote_porcelain_path` with single character quoted
#[test]
fn adversarial_unquote_single_char_quoted() {
    assert_eq!(unquote_porcelain_path("\"a\""), "a");
}

/// `unquote_porcelain_path` with lone backslash at end (incomplete quote)
#[test]
fn adversarial_unquote_trailing_backslash() {
    // Trailing backslash in incomplete quoted string - returns as-is
    // Function requires both opening AND closing quotes to process
    assert_eq!(unquote_porcelain_path("\"trailing\\"), "\"trailing\\");
}

/// `unquote_porcelain_path` with incomplete escape sequence (incomplete quote)
#[test]
fn adversarial_unquote_incomplete_escape() {
    // Backslash at end of string with incomplete quote - returns as-is
    // Function requires both opening AND closing quotes to process
    assert_eq!(unquote_porcelain_path("\"end\\"), "\"end\\");
}

/// `unquote_porcelain_path` with trailing backslash in properly quoted string
#[test]
fn adversarial_unquote_trailing_backslash_quoted() {
    // Trailing backslash in properly quoted string - backslash preserved
    assert_eq!(unquote_porcelain_path("\"trailing\\\""), "trailing\\");
}

/// `unquote_porcelain_path` with escape at end of properly quoted string
#[test]
fn adversarial_unquote_escape_at_end_quoted() {
    // Escape sequence at end of properly quoted string
    assert_eq!(unquote_porcelain_path("\"end\\n\""), "end\n");
}

/// `unquote_porcelain_path` with unknown escape sequence
#[test]
fn adversarial_unquote_unknown_escape() {
    // Unknown escape \x should keep the backslash
    assert_eq!(
        unquote_porcelain_path("\"unknown\\xescape\""),
        "unknown\\xescape"
    );
}

/// `unquote_porcelain_path` with path traversal sequences
#[test]
fn adversarial_unquote_path_traversal() {
    // Path traversal should be passed through as-is (git handles this)
    assert_eq!(
        unquote_porcelain_path("\"../../../etc/passwd\""),
        "../../../etc/passwd"
    );
    assert_eq!(
        unquote_porcelain_path("\"..\\..\\..\\windows\\system32\""),
        "..\\..\\..\\windows\\system32"
    );
}

/// `unquote_porcelain_path` with mixed path traversal and normal chars
#[test]
fn adversarial_unquote_mixed_traversal() {
    assert_eq!(
        unquote_porcelain_path("\"foo/../../../bar\""),
        "foo/../../../bar"
    );
}

/// `unquote_porcelain_path` with emoji in path
#[test]
fn adversarial_unquote_emoji() {
    // Emoji should pass through
    assert_eq!(
        unquote_porcelain_path("\"file_🎉_name.txt\""),
        "file_🎉_name.txt"
    );
}

/// `unquote_porcelain_path` with various unicode characters
#[test]
fn adversarial_unquote_unicode() {
    // Various unicode scripts
    assert_eq!(unquote_porcelain_path("\"文件.txt\""), "文件.txt");
    assert_eq!(unquote_porcelain_path("\"файл.txt\""), "файл.txt");
    assert_eq!(unquote_porcelain_path("\"αρχείο.txt\""), "αρχείο.txt");
}

/// `unquote_porcelain_path` with RTL override character (U+202E)
#[test]
fn adversarial_unquote_rtl_override() {
    // RTL override could be used to spoof filenames
    // The function should pass it through (git handles this)
    let rtl = "\u{202E}";
    let input = format!("\"{}txt.exe\"", rtl);
    let result = unquote_porcelain_path(&input);
    assert!(result.contains(rtl), "RTL override should be preserved");
}

/// `unquote_porcelain_path` with zero-width characters
#[test]
fn adversarial_unquote_zero_width() {
    // Zero-width space U+200B
    let zwsp = "\u{200B}";
    let input = format!("\"file{}name.txt\"", zwsp);
    let result = unquote_porcelain_path(&input);
    assert!(
        result.contains(zwsp),
        "Zero-width space should be preserved"
    );

    // Zero-width joiner U+200D
    let zwj = "\u{200D}";
    let input2 = format!("\"file{}name.txt\"", zwj);
    let result2 = unquote_porcelain_path(&input2);
    assert!(
        result2.contains(zwj),
        "Zero-width joiner should be preserved"
    );
}

/// `unquote_porcelain_path` with control characters via escape
#[test]
fn adversarial_unquote_control_chars() {
    // Newline via escape
    assert_eq!(unquote_porcelain_path("\"file\\nname\""), "file\nname");
    // Tab via escape
    assert_eq!(unquote_porcelain_path("\"file\\tname\""), "file\tname");
    // Carriage return via escape
    assert_eq!(unquote_porcelain_path("\"file\\rname\""), "file\rname");
}

/// `unquote_porcelain_path` with very long path
#[test]
fn adversarial_unquote_long_path() {
    // Create a path that's 4096 characters (typical PATH_MAX)
    let long_segment = "a".repeat(255);
    let long_path = long_segment.repeat(16); // ~4080 chars
    let input = format!("\"{}.txt\"", long_path);

    let result = unquote_porcelain_path(&input);
    assert_eq!(result.len(), long_path.len() + 4); // +4 for ".txt"
}

/// `unquote_porcelain_path` with extremely long path (potential overflow)
#[test]
fn adversarial_unquote_extreme_length() {
    // Create a path that's 65536 characters
    let long_path = "x".repeat(65536);
    let input = format!("\"{}\"", long_path);

    let result = unquote_porcelain_path(&input);
    assert_eq!(result.len(), 65536);
}

/// `unquote_porcelain_path` with many escape sequences
#[test]
fn adversarial_unquote_many_escapes() {
    // 1000 escaped newlines
    let escapes: String = "\\n".repeat(1000);
    let input = format!("\"{}\"", escapes);

    let result = unquote_porcelain_path(&input);
    assert_eq!(result.len(), 1000); // Each \n becomes single \n
    assert!(result.chars().all(|c| c == '\n'));
}

/// `unquote_porcelain_path` handles all valid escape sequences
#[test]
fn adversarial_unquote_all_escapes() {
    // Test all recognized escape sequences
    assert_eq!(unquote_porcelain_path("\"\\n\""), "\n");
    assert_eq!(unquote_porcelain_path("\"\\t\""), "\t");
    assert_eq!(unquote_porcelain_path("\"\\r\""), "\r");
    assert_eq!(unquote_porcelain_path("\"\\\"\""), "\"");
    assert_eq!(unquote_porcelain_path("\"\\\\\""), "\\");
}

/// `unquote_porcelain_path` with mixed escape and normal chars
#[test]
fn adversarial_unquote_mixed_escapes() {
    assert_eq!(
        unquote_porcelain_path("\"path\\tto\\nfile\\r\\\"name\\\"\""),
        "path\tto\nfile\r\"name\""
    );
}

/// `unquote_porcelain_path` with deeply nested path
#[test]
fn adversarial_unquote_deeply_nested() {
    // Create a deeply nested path
    let nested: String = (0..100).map(|_| "dir/").collect::<String>();
    let path = format!("\"{}file.txt\"", nested);

    let result = unquote_porcelain_path(&path);
    assert!(result.starts_with("dir/dir/dir"));
    assert!(result.ends_with("file.txt"));
}

/// `unquote_porcelain_path` with spaces (unquoted)
#[test]
fn adversarial_unquote_unquoted_spaces() {
    // Unquoted path with spaces should be returned as-is
    assert_eq!(
        unquote_porcelain_path("file with spaces.txt"),
        "file with spaces.txt"
    );
}

/// `unquote_porcelain_path` with special characters unquoted
#[test]
fn adversarial_unquote_special_unquoted() {
    // These would normally be quoted by git, but test handling anyway
    assert_eq!(
        unquote_porcelain_path("file\ttab.txt"),
        "file\ttab.txt"
    );
    assert_eq!(
        unquote_porcelain_path("file\nnewline.txt"),
        "file\nnewline.txt"
    );
}

/// `unquote_porcelain_path` with only opening quote
#[test]
fn adversarial_unquote_only_opening_quote() {
    assert_eq!(
        unquote_porcelain_path("\"only_opening"),
        "\"only_opening"
    );
}

/// `unquote_porcelain_path` with only closing quote
#[test]
fn adversarial_unquote_only_closing_quote() {
    assert_eq!(
        unquote_porcelain_path("only_closing\""),
        "only_closing\""
    );
}

/// `unquote_porcelain_path` with quotes in middle (unquoted)
#[test]
fn adversarial_unquote_middle_quotes() {
    assert_eq!(
        unquote_porcelain_path("file\"middle\"name.txt"),
        "file\"middle\"name.txt"
    );
}

/// `unquote_porcelain_path` produces valid strings from escape-heavy input
#[test]
fn adversarial_unquote_escape_heavy() {
    // Mix of all escape types
    let input = "\"\\n\\t\\r\\\"\\\\\\n\\t\"";
    let result = unquote_porcelain_path(input);
    assert_eq!(result, "\n\t\r\"\\\n\t");
}

/// `unquote_porcelain_path` with shell metacharacters
#[test]
fn adversarial_unquote_shell_metacharacters() {
    // Shell metacharacters should pass through (git handles escaping)
    assert_eq!(
        unquote_porcelain_path("\"file;rm -rf /\""),
        "file;rm -rf /"
    );
    assert_eq!(unquote_porcelain_path("\"$(whoami)\""), "$(whoami)");
    assert_eq!(unquote_porcelain_path("\"`id`\""), "`id`");
    assert_eq!(unquote_porcelain_path("\"file|cat\""), "file|cat");
    assert_eq!(unquote_porcelain_path("\"file>out\""), "file>out");
    assert_eq!(unquote_porcelain_path("\"file<in\""), "file<in");
    assert_eq!(unquote_porcelain_path("\"file&bg\""), "file&bg");
}

/// Test real file with null-byte-like pattern (escaped)
#[test]
fn adversarial_unquote_null_byte_pattern() {
    // Git doesn't allow actual null bytes, but test the escape handling
    // Note: \0 is not a standard git escape, so it should be passed through
    assert_eq!(
        unquote_porcelain_path("\"file\\0null\""),
        "file\\0null"
    );
}

/// `unquote_porcelain_path` with alternating escapes
#[test]
fn adversarial_unquote_alternating_escapes() {
    let input = "\"\\n\\t\\n\\t\\n\\t\\n\\t\"";
    let result = unquote_porcelain_path(input);
    assert_eq!(result, "\n\t\n\t\n\t\n\t");
}

/// `unquote_porcelain_path` with consecutive backslashes
#[test]
fn adversarial_unquote_consecutive_backslashes() {
    // \\\\ should become \\
    assert_eq!(unquote_porcelain_path("\"\\\\\\\\\""), "\\\\");
    // \\\\\\ should become \\\
    assert_eq!(unquote_porcelain_path("\"\\\\\\\\\\\\\""), "\\\\\\");
}

/// `unquote_porcelain_path` with escape at boundary
#[test]
fn adversarial_unquote_escape_at_boundary() {
    // Escape sequence at very end
    assert_eq!(unquote_porcelain_path("\"end\\n\""), "end\n");
    assert_eq!(unquote_porcelain_path("\"end\\t\""), "end\t");
}

/// `unquote_porcelain_path` with empty string
#[test]
fn adversarial_unquote_empty_string() {
    assert_eq!(unquote_porcelain_path(""), "");
}

/// `unquote_porcelain_path` with single character
#[test]
fn adversarial_unquote_single_char() {
    assert_eq!(unquote_porcelain_path("a"), "a");
}

/// `unquote_porcelain_path` with only backslash
#[test]
fn adversarial_unquote_only_backslash() {
    assert_eq!(unquote_porcelain_path("\\"), "\\");
}

/// `unquote_porcelain_path` with only quote
#[test]
fn adversarial_unquote_only_quote() {
    assert_eq!(unquote_porcelain_path("\""), "\"");
}
