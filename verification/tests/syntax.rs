use medit::syntax::{StyledSegment, SyntaxCache, SyntaxHighlighter};
use medit::view::Color;

fn highlighter() -> SyntaxHighlighter {
    SyntaxHighlighter::new(None, None).unwrap()
}

fn rust_grammar(cache: &SyntaxCache) -> String {
    cache.syntax_set().find_syntax_for_file("test.rs").ok().flatten().unwrap().name.clone()
}

fn fg_for(segments: &[StyledSegment], needle: &str) -> Option<Color> {
    segments
        .iter()
        .find(|segment| segment.text.contains(needle))
        .and_then(|segment| segment.fg)
}

#[test]
fn highlights_multiline_blocks_with_prior_line_state() {
    let highlighter = highlighter();
    let lines = [
        "fn main() {",
        "    /* comment",
        "       still comment */ let x = 1;",
        "}",
    ];

    let text = lines.join("\n");
    let mut cache = SyntaxCache::default();
    let syntax = rust_grammar(&cache);
    cache.ensure_highlighted(highlighter.theme(), &syntax, Some("test.rs"), 0, lines.len(), 2, &text);
    let comment_start = fg_for(cache.line(1), "comment");
    let continued_comment = fg_for(cache.line(2), "still");
    let code_after_comment = fg_for(cache.line(2), "let");

    assert_eq!(continued_comment, comment_start);
    assert_ne!(continued_comment, code_after_comment);
}

#[test]
fn strips_parser_newlines_from_rendered_segments() {
    let highlighter = highlighter();
    let lines = ["// comment", "let x = 1;"];

    let text = lines.join("\n");
    let mut cache = SyntaxCache::default();
    let syntax = rust_grammar(&cache);
    cache.ensure_highlighted(highlighter.theme(), &syntax, Some("test.rs"), 0, lines.len(), 0, &text);
    let rendered: String = cache
        .line(0)
        .iter()
        .map(|segment| segment.text.as_str())
        .collect();

    assert_eq!(rendered, lines[0]);
    assert!(!rendered.contains('\n'));
}

#[test]
fn cache_highlights_only_what_is_asked_and_restarts_on_change() {
    let highlighter = highlighter();
    let theme = highlighter.theme();
    let text = "a\nb\nc";
    let syntax = "Plain Text";
    let mut cache = SyntaxCache::default();
    assert!(cache.needs_highlighting(Some("x.txt"), 1, 3, 0));
    cache.ensure_highlighted(theme, syntax, Some("x.txt"), 1, 3, 1, text);
    assert_eq!(cache.lines().len(), 2);
    assert_eq!(cache.line(1).iter().map(|s| s.text.as_str()).collect::<String>(), "b");
    assert!(cache.line(2).is_empty());
    assert!(!cache.needs_highlighting(Some("x.txt"), 1, 3, 1));
    assert!(cache.needs_highlighting(Some("x.txt"), 1, 3, 2));
    cache.ensure_highlighted(theme, syntax, Some("x.txt"), 1, 3, 99, text);
    assert_eq!(cache.lines().len(), 3);
    assert_eq!(cache.line(2).iter().map(|s| s.text.as_str()).collect::<String>(), "c");
    assert!(cache.needs_highlighting(Some("x.txt"), 2, 3, 0));
    cache.ensure_highlighted(theme, syntax, Some("x.txt"), 2, 3, 0, "z\nb\nc");
    assert_eq!(cache.lines().len(), 1);
    assert_eq!(cache.line(0).iter().map(|s| s.text.as_str()).collect::<String>(), "z");
}

#[test]
fn theme_choice() {
    let default = SyntaxHighlighter::new(None, None).unwrap();
    assert_eq!(default.theme_name(), "base16-ocean.dark");
    let bundled = SyntaxHighlighter::new(Some("InspiredGitHub"), None).unwrap();
    assert_eq!(bundled.theme_name(), "InspiredGitHub");
    let unknown = SyntaxHighlighter::new(Some("no such theme"), None).unwrap();
    assert_eq!(unknown.theme_name(), "base16-ocean.dark");
    let unreadable = SyntaxHighlighter::new(Some("InspiredGitHub"), Some(None)).unwrap();
    assert_eq!(unreadable.theme_name(), "base16-ocean.dark");
    let from_file = SyntaxHighlighter::new(Some("mine.tmTheme"), Some(Some(bundled.theme.clone()))).unwrap();
    assert_eq!(from_file.theme_name(), "mine.tmTheme");
}

#[test]
fn a_grammar_not_in_the_set_leaves_lines_unstyled() {
    let highlighter = highlighter();
    let mut cache = SyntaxCache::default();
    cache.ensure_highlighted(highlighter.theme(), "No Such Grammar", None, 0, 2, 5, "ab\ncd");
    assert_eq!(cache.lines().len(), 2);
    assert_eq!(cache.line(0).len(), 1);
    assert_eq!(cache.line(0)[0].text, "ab");
    assert_eq!(cache.line(0)[0].fg, None);
}
