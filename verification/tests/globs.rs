use globignore::glob::{convert_to_globs, pattern_to_glob, GlobPattern};
use globignore::parser::{GitignoreEntry, Parser};
use globignore::pattern::{Pattern, Segment};

fn pattern_of_line(line: &str) -> Pattern {
    match Parser::parse_line(line).unwrap() {
        GitignoreEntry::Pattern(p) => p,
        _ => panic!("expected a pattern line"),
    }
}

#[test]
fn anchored_pattern_gets_dot_prefix() {
    let glob = pattern_to_glob(pattern_of_line("/foo"));
    assert_eq!(glob.pattern, "./foo");
    assert!(!glob.is_negated);
}

#[test]
fn unanchored_pattern_gets_any_depth_prefix() {
    let glob = pattern_to_glob(pattern_of_line("**/baz"));
    assert_eq!(glob.pattern, "**/**/baz");
}

#[test]
fn directory_pattern_gets_double_star_suffix() {
    let glob = pattern_to_glob(pattern_of_line("dir/"));
    assert_eq!(glob.pattern, "**/dir/**");
}

#[test]
fn negation_flag_is_carried_through() {
    let glob = pattern_to_glob(pattern_of_line("!build/"));
    assert!(glob.is_negated);
    assert_eq!(glob.pattern, "**/build/**");
}

#[test]
fn rendering_is_deterministic() {
    let first = pattern_to_glob(pattern_of_line("src/**/*.rs"));
    let second = pattern_to_glob(pattern_of_line("src/**/*.rs"));
    assert_eq!(first.pattern, second.pattern);
    assert_eq!(first, second);
}

#[test]
fn segments_of_escape_free_body_render_back_to_it() {
    // With no anchoring flags the glob is the any-depth prefix followed by
    // the rendered segments, which reproduce the body exactly.
    let body = "a*b?c/d[e/**/f";
    let glob = pattern_to_glob(pattern_of_line(body));
    assert_eq!(glob.pattern, format!("**/{}", body));
}

#[test]
fn character_class_renders_brackets() {
    let pattern = Pattern {
        raw: String::new(),
        is_negated: false,
        has_leading_slash: false,
        has_trailing_slash: false,
        was_escaped: false,
        segments: vec![Segment::CharacterClass {
            negated: true,
            chars: vec!['a', 'b'],
            ranges: vec![('0', '9')],
        }],
    };
    let glob = pattern_to_glob(pattern);
    assert_eq!(glob.pattern, "**/[^ab0-9]");
}

#[test]
fn convert_filters_and_preserves_order() {
    let mut parser = Parser::new(
        ["/foo", "", "#comment", "!bar", "dir/"]
            .iter()
            .map(|l| l.to_string())
            .collect(),
    );
    let mut entries = Vec::new();
    while let Some(entry) = parser.parse_next_line() {
        entries.push(entry.unwrap());
    }
    let globs = convert_to_globs(entries);
    assert_eq!(
        globs,
        vec![
            GlobPattern { pattern: "./foo".to_string(), is_negated: false },
            GlobPattern { pattern: "**/bar".to_string(), is_negated: true },
            GlobPattern { pattern: "**/dir/**".to_string(), is_negated: false },
        ]
    );
}

#[test]
fn lone_separator_is_anchored_directory_pattern() {
    let pattern = pattern_of_line("/");
    assert!(pattern.has_leading_slash);
    assert!(pattern.has_trailing_slash);
    let glob = pattern_to_glob(pattern);
    assert_eq!(glob.pattern, "./**");
}

#[test]
fn convert_of_no_entries_is_empty() {
    let globs = convert_to_globs(Vec::new());
    assert!(globs.is_empty());
}
