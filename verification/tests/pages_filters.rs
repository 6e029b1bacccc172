use observation_tools::filters::{page_number, render_markdown, unescape_filter};

#[test]
fn unescape_resolves_newlines_tabs_and_backslashes() {
    assert_eq!(unescape_filter("a\\nb\\tc\\rd"), "a\nb\tc\rd");
    assert_eq!(unescape_filter("x\\\\y"), "x\\y");
    // `\\n` is read as a newline escape first, leaving the backslash.
    assert_eq!(unescape_filter("\\\\n"), "\\\n");
    assert_eq!(unescape_filter("plain"), "plain");
}

#[test]
fn list_pages_are_numbered_from_one() {
    assert_eq!(page_number(0, 100), 1);
    assert_eq!(page_number(99, 100), 1);
    assert_eq!(page_number(100, 100), 2);
    assert_eq!(page_number(250, 50), 6);
}

#[test]
fn markdown_is_rendered_and_sanitized() {
    assert_eq!(render_markdown("**bold**".to_string()), "<p><strong>bold</strong></p>\n");
    assert_eq!(render_markdown("~~gone~~".to_string()), "<p><del>gone</del></p>\n");
    let html = render_markdown("<script>alert(1)</script>hi".to_string());
    assert!(!html.contains("<script>"));
    assert!(render_markdown("| a | b |\n|---|---|\n| 1 | 2 |\n".to_string()).contains("<table>"));
}
