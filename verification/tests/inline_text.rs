use acdc_parser::inline_text::{inlines_to_string, write_inlines, TextMacro, TextNode};

fn text(s: &str) -> TextNode {
    TextNode::Text(s.to_string())
}

#[test]
fn plain_text_reads_through_formatting() {
    let inlines = vec![
        text("Hello "),
        TextNode::Formatted(vec![text("bold "), TextNode::Formatted(vec![text("and italic")])]),
        TextNode::StandaloneCurvedApostrophe,
        TextNode::LineBreak,
        TextNode::Anchor,
        TextNode::CalloutRef(12),
    ];
    assert_eq!(inlines_to_string(&inlines), "Hello bold and italic' <12>");
}

#[test]
fn plain_text_of_macros_uses_link_text_or_target() {
    let inlines = vec![
        TextNode::Macro(TextMacro::Url { target: "https://a.example".to_string(), text: vec![] }),
        text(" "),
        TextNode::Macro(TextMacro::Mailto {
            target: "me@example.com".to_string(),
            text: vec![text("mail me")],
        }),
        text(" "),
        TextNode::Macro(TextMacro::CrossReference { target: "sec".to_string(), text: vec![] }),
        TextNode::Macro(TextMacro::IndexTerm { visible: true, term: vec![text("!")] }),
        TextNode::Macro(TextMacro::IndexTerm { visible: false, term: vec![text("hidden")] }),
        TextNode::Macro(TextMacro::Autolink { url: " auto".to_string() }),
    ];
    assert_eq!(inlines_to_string(&inlines), "https://a.example mail me sec! auto");
}

#[test]
fn plain_text_skips_buttons_keys_menus_and_passthroughs() {
    let inlines = vec![
        TextNode::Macro(TextMacro::Button { label: "OK".to_string() }),
        TextNode::Macro(TextMacro::Keyboard { keys: vec!["Ctrl".to_string()] }),
        TextNode::Macro(TextMacro::Menu { items: vec!["File".to_string()] }),
        TextNode::Macro(TextMacro::Pass { text: Some("raw".to_string()) }),
        TextNode::Macro(TextMacro::Other),
    ];
    assert_eq!(inlines_to_string(&inlines), "");
}

#[test]
fn writing_appends_to_what_is_there() {
    let mut out = "> ".to_string();
    write_inlines(&mut out, &[text("a"), text("b")]);
    assert_eq!(out, "> ab");
}
