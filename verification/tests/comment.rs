use acdc_parser::comment::{
    is_attaching_content, is_line_comment, is_setext_underline, is_title_line,
    is_verbatim_delimiter, try_pass_through, CommentScanner,
};
use acdc_parser::lines::normalize;

#[test]
fn verbatim_delimiters() {
    assert_eq!(is_verbatim_delimiter("----"), Some("----".to_string()));
    assert_eq!(is_verbatim_delimiter("  ......  "), Some("......".to_string()));
    assert_eq!(is_verbatim_delimiter("```rust"), Some("```".to_string()));
    assert_eq!(is_verbatim_delimiter("---"), None);
    assert_eq!(is_verbatim_delimiter("++++x"), Some("++++".to_string()));
    assert_eq!(is_verbatim_delimiter("===="), None);
}

#[test]
fn comment_line_classes() {
    assert!(is_line_comment("// note"));
    assert!(!is_line_comment("/// literal"));
    assert!(!is_line_comment("  // indented"));
    assert!(is_setext_underline("~~~~"));
    assert!(!is_setext_underline("~~-~"));
    assert!(is_title_line("== Section", false));
    assert!(!is_title_line("====", false));
    assert!(is_title_line("====", true));
    assert!(is_attaching_content("Some text", false));
    assert!(!is_attaching_content("  ", false));
    assert!(!is_attaching_content(" + ", false));
    assert!(!is_attaching_content("= Title", false));
}

#[test]
fn adjacent_comments_are_dropped_outside_verbatim_blocks() {
    let mut scanner = CommentScanner::new(false);
    assert!(!scanner.drops("// first"));
    scanner.record("Paragraph text.");
    assert!(scanner.drops("// attached"));
    assert!(!scanner.drops("// tag::x[]"));
    assert!(scanner.at_verbatim_delimiter("----"));
    scanner.record("----");
    assert!(!scanner.drops("// inside"));
    assert!(scanner.at_verbatim_delimiter("----"));
    scanner.record("----");
    assert!(scanner.verbatim.is_none());
}

#[test]
fn pass_through_detection() {
    assert!(try_pass_through("Plain text.\n\n// standalone", false));
    assert!(!try_pass_through("Text.\n// attached", false));
    assert!(!try_pass_through("include::x.adoc[]", false));
    assert!(!try_pass_through(":a: b \\\nc", false));
    assert!(!try_pass_through("\\ifdef::x[]", false));
    assert!(try_pass_through("----\nText.\n// inside\n----", false));
    assert_eq!(normalize("a  \r\nb\n"), "a\nb");
}
