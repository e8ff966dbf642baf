use globignore::pattern::{Pattern, Segment};

fn assert_segments(pattern: &str, expected: Vec<Segment>) {
    let result = Pattern::parse_segments(pattern).unwrap();
    assert_eq!(result, expected);
}

#[test]
fn test_literal() {
    assert_segments("hello.txt", vec![Segment::Literal("hello.txt".to_string())]);
}

#[test]
fn test_single_wildcard() {
    assert_segments(
        "hello?.txt",
        vec![
            Segment::Literal("hello".to_string()),
            Segment::SingleWildcard,
            Segment::Literal(".txt".to_string()),
        ],
    );
}

#[test]
fn test_wildcard() {
    assert_segments(
        "*.txt",
        vec![Segment::Wildcard, Segment::Literal(".txt".to_string())],
    );
}

#[test]
fn test_double_star() {
    assert_segments(
        "**/build",
        vec![
            Segment::DoubleWildcard,
            Segment::Separator,
            Segment::Literal("build".to_string()),
        ],
    );
}

#[test]
fn test_separators() {
    assert_segments(
        "src/main.rs",
        vec![
            Segment::Literal("src".to_string()),
            Segment::Separator,
            Segment::Literal("main.rs".to_string()),
        ],
    );
}

#[test]
fn test_escaped_characters() {
    assert_segments(
        r"hello\.txt",
        vec![
            Segment::Literal("hello".to_string()),
            Segment::Literal(".".to_string()),
            Segment::Literal("txt".to_string()),
        ],
    );
}

#[test]
fn test_complex_pattern() {
    assert_segments(
        "src/**/test/*.rs",
        vec![
            Segment::Literal("src".to_string()),
            Segment::Separator,
            Segment::DoubleWildcard,
            Segment::Separator,
            Segment::Literal("test".to_string()),
            Segment::Separator,
            Segment::Wildcard,
            Segment::Literal(".rs".to_string()),
        ],
    );
}

#[test]
fn test_pattern_new() {
    let pattern = Pattern::new("src/**/*.rs".to_string(), false, false, false, false).unwrap();

    assert_eq!(pattern.raw, "src/**/*.rs");
    assert!(!pattern.is_negated);
    assert!(!pattern.has_leading_slash);
    assert!(!pattern.has_trailing_slash);
    assert!(!pattern.was_escaped);

    assert_eq!(
        pattern.segments,
        vec![
            Segment::Literal("src".to_string()),
            Segment::Separator,
            Segment::DoubleWildcard,
            Segment::Separator,
            Segment::Wildcard,
            Segment::Literal(".rs".to_string()),
        ]
    );
}

#[test]
fn test_consecutive_separators() {
    assert_segments(
        "a//b",
        vec![
            Segment::Literal("a".to_string()),
            Segment::Separator,
            Segment::Separator,
            Segment::Literal("b".to_string()),
        ],
    );
}

#[test]
fn test_trailing_escape() {
    // Make sure we handle a trailing backslash correctly
    assert_segments("hello\\", vec![Segment::Literal("hello".to_string())]);
}

#[test]
fn test_empty_pattern() {
    assert_segments("", vec![]);
}

#[test]
fn test_only_wildcards() {
    assert_segments(
        "***?**",
        vec![
            Segment::Wildcard,
            Segment::Wildcard,
            Segment::Wildcard,
            Segment::SingleWildcard,
            Segment::Wildcard,
            Segment::Wildcard,
        ],
    );
}

#[test]
fn test_only_separators() {
    assert_segments(
        "///",
        vec![Segment::Separator, Segment::Separator, Segment::Separator],
    );
}

#[test]
fn test_escaped_special_chars() {
    assert_segments(
        r"\?\*\[\/\\",
        vec![
            Segment::Literal("?".to_string()),
            Segment::Literal("*".to_string()),
            Segment::Literal("[".to_string()),
            Segment::Literal("/".to_string()),
            Segment::Literal("\\".to_string()),
        ],
    );
}

#[test]
fn test_bracket_starts_literal() {
    assert_segments(
        "[ab[cd",
        vec![
            Segment::Literal("[ab".to_string()),
            Segment::Literal("[cd".to_string()),
        ],
    );
}

#[test]
fn test_mid_word_double_star() {
    // No separator boundary on either side, so `**` degrades to two
    // ordinary wildcards.
    assert_segments(
        "**?**",
        vec![
            Segment::Wildcard,
            Segment::Wildcard,
            Segment::SingleWildcard,
            Segment::Wildcard,
            Segment::Wildcard,
        ],
    );
}
