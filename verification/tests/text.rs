//! Text: wrapping, formatting and the input line.

use helix_agent::bytes::char_index;
use helix_agent::lines::{split_lines, split_words, trim, trim_start};
use helix_agent::number::{decimal_i64_text, decimal_text, parse_i64, parse_usize};
use helix_agent::text::chars_of;
use helix_agent::ui::draw::{Color, Style};
use helix_agent::ui::input::LineInput;
use helix_agent::ui::markdown::{parse_markdown_segments, Palette};
use helix_agent::ui::wrap::{width_of, word_wrap};

fn texts(v: Vec<Vec<char>>) -> Vec<String> {
    v.into_iter().map(|t| t.into_iter().collect()).collect()
}

fn palette() -> Palette {
    Palette {
        base: Style::new(),
        code: Style::new().with_fg(Color::Cyan),
        bold: Style::new().bold(),
        inline_code: Style::new().with_fg(Color::Magenta),
    }
}

fn formatted(line: &str) -> Vec<(String, Style)> {
    let mut in_code = false;
    parse_markdown_segments(line, &mut in_code, &palette())
}

#[test]
fn lines_as_the_standard_library_has_them() {
    for text in ["", "\n", "a", "a\n", "a\r\nb", "a\n\nb\n", "\r\n", "a\r", "é\n日"] {
        let want: Vec<String> = text.lines().map(String::from).collect();
        assert_eq!(texts(split_lines(&chars_of(text))), want, "{:?}", text);
    }
}

#[test]
fn words_as_the_standard_library_has_them() {
    for text in ["", "  ", "a b", "  a\t b\u{a0}c\u{3000}d \u{200b}e", "a\u{85}b\u{2028}c"] {
        let want: Vec<String> = text.split_whitespace().map(String::from).collect();
        assert_eq!(texts(split_words(&chars_of(text))), want, "{:?}", text);
        assert_eq!(trim(&chars_of(text)), chars_of(text.trim()), "{:?}", text);
        assert_eq!(trim_start(&chars_of(text)), chars_of(text.trim_start()), "{:?}", text);
    }
}

#[test]
fn numbers() {
    for text in ["", "0", "007", "+5", "-5", "12a", " 1", "18446744073709551616", "99"] {
        let t = chars_of(text);
        assert_eq!(parse_usize(&t), text.parse::<usize>().ok(), "{:?}", text);
        assert_eq!(parse_i64(&t), text.parse::<i64>().ok(), "{:?}", text);
    }
    let least = "-9223372036854775808";
    assert_eq!(parse_i64(&chars_of(least)), Some(i64::MIN));
    assert_eq!(decimal_text(0), chars_of("0"));
    assert_eq!(decimal_text(u64::MAX), chars_of("18446744073709551615"));
    assert_eq!(decimal_i64_text(-42), chars_of("-42"));
    assert_eq!(decimal_i64_text(i64::MIN), chars_of(least));
}

#[test]
fn byte_offsets() {
    let t = chars_of("aé日𝄞");
    assert_eq!(char_index(&t, 0), Some(0));
    assert_eq!(char_index(&t, 1), Some(1));
    assert_eq!(char_index(&t, 2), None);
    assert_eq!(char_index(&t, 3), Some(2));
    assert_eq!(char_index(&t, 6), Some(3));
    assert_eq!(char_index(&t, 10), Some(4));
    assert_eq!(char_index(&t, 11), None);
}

#[test]
fn widths() {
    assert_eq!(width_of(&chars_of("abc")), 3);
    assert_eq!(width_of(&chars_of("日本")), 4);
    assert_eq!(width_of(&chars_of("")), 0);
}

#[test]
fn words_are_wrapped() {
    assert_eq!(word_wrap("the quick brown fox", 10), vec!["the quick", "brown fox"]);
    assert_eq!(word_wrap("a  b", 10), vec!["a b"]);
    assert_eq!(word_wrap("日本 語", 5), vec!["日本", "語"]);
    let wrapped = word_wrap("one two three four five six", 9);
    assert_eq!(wrapped.join(" "), "one two three four five six");
    assert!(wrapped.iter().all(|line| line.len() <= 9));
}

#[test]
fn bold_and_code() {
    let p = palette();
    assert_eq!(
        formatted("a **b** `c`"),
        vec![
            ("a ".to_string(), p.base),
            ("b".to_string(), p.bold),
            (" ".to_string(), p.base),
            ("c".to_string(), p.inline_code),
        ]
    );
    assert_eq!(formatted("plain"), vec![("plain".to_string(), p.base)]);
    assert_eq!(
        formatted("un`closed").into_iter().map(|s| s.0).collect::<String>(),
        "un`closed"
    );
    assert_eq!(
        formatted("un**closed").into_iter().map(|s| s.0).collect::<String>(),
        "un**closed"
    );
}

#[test]
fn code_blocks() {
    let p = palette();
    let mut in_code = false;
    parse_markdown_segments("```rust", &mut in_code, &p);
    assert!(in_code);
    assert_eq!(
        parse_markdown_segments("let **x** = 1;", &mut in_code, &p),
        vec![("let **x** = 1;".to_string(), p.code)]
    );
    assert!(in_code);
    parse_markdown_segments("```", &mut in_code, &p);
    assert!(!in_code);
}

#[test]
fn input_line() {
    let mut line = LineInput::new();
    assert!(line.is_empty());
    for c in "aé日".chars() {
        assert!(line.takes(c));
        line.insert(c);
    }
    assert_eq!(line.text(), "aé日");
    assert_eq!(line.cursor, 6);
    assert_eq!(line.column(), 4);
    line.left();
    assert_eq!(line.cursor, 3);
    line.insert('x');
    assert_eq!(line.text(), "aéx日");
    line.backspace();
    assert_eq!(line.text(), "aé日");
    line.right();
    line.right();
    assert_eq!(line.cursor, 6);
    line.home();
    line.backspace();
    line.left();
    assert_eq!(line.cursor, 0);
    assert_eq!(line.text(), "aé日");
    line.end();
    line.backspace();
    assert_eq!(line.text(), "aé");
    line.clear();
    assert!(line.is_empty());
    assert_eq!(line.cursor, 0);
}
