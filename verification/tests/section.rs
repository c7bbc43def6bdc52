use acdc_parser::anchor::Anchor;
use acdc_parser::inline_text::{
    generate_id, generate_id_string, id_from_title, section_id, TextMacro, TextNode,
};
use acdc_parser::location::Location;
use acdc_parser::metadata::BlockMetadata;
use acdc_parser::section::{
    to_upper_roman, NumberingState, SafeId, SectionKind,
};

fn plain(text: &str) -> Vec<TextNode> {
    vec![TextNode::Text(text.to_string())]
}

fn anchor(id: &str) -> Anchor {
    Anchor::new(id.to_string(), Location::default())
}

#[test]
fn test_id_from_title() {
    assert_eq!(id_from_title(&plain("This is a title.")), "this_is_a_title".to_string());
    assert_eq!(id_from_title(&plain("This is a----title.")), "this_is_a_title".to_string());
}

#[test]
fn test_id_from_title_strips_leading_separators() {
    let inlines = plain("--  Specialized Environments");
    assert_eq!(id_from_title(&inlines), "specialized_environments".to_string());
    assert_eq!(
        generate_id_string(&BlockMetadata::new(), &inlines),
        "_specialized_environments".to_string()
    );
}

#[test]
fn test_id_from_title_all_separators_is_empty() {
    let inlines = plain("---");
    assert_eq!(id_from_title(&inlines), String::new());
    let metadata = BlockMetadata::new();
    assert_eq!(generate_id_string(&metadata, &inlines), String::new());
    let safe_id = generate_id(&metadata, &inlines);
    assert_eq!(safe_id, SafeId::Generated(String::new()));
    assert_eq!(safe_id.to_string(), String::new());
}

#[test]
fn test_id_from_title_preserves_underscores() {
    assert_eq!(id_from_title(&plain("CHART_BOT")), "chart_bot".to_string());
    assert_eq!(id_from_title(&plain("haiku_robot")), "haiku_robot".to_string());
    assert_eq!(id_from_title(&plain("meme_transcriber")), "meme_transcriber".to_string());
}

#[test]
fn test_section_generate_id() {
    let inlines = plain("This is a b__i__g title.");
    let metadata = BlockMetadata::new();
    assert_eq!(
        generate_id(&metadata, &inlines),
        SafeId::Generated("this_is_a_b_i_g_title".to_string())
    );

    let metadata = BlockMetadata::new().with_id(Some(anchor("custom_id")));
    assert_eq!(
        generate_id(&metadata, &inlines),
        SafeId::Explicit("custom_id".to_string())
    );

    let mut metadata = BlockMetadata::new();
    metadata.anchors = vec![anchor("anchor_id")];
    assert_eq!(
        generate_id(&metadata, &inlines),
        SafeId::Explicit("anchor_id".to_string())
    );

    // With several anchors, the last one is used.
    let mut metadata = BlockMetadata::new();
    metadata.anchors = vec![anchor("first_anchor"), anchor("last_anchor")];
    assert_eq!(
        generate_id(&metadata, &inlines),
        SafeId::Explicit("last_anchor".to_string())
    );

    // The explicit id comes before the anchors.
    let mut metadata = BlockMetadata::new().with_id(Some(anchor("from_id")));
    metadata.anchors = vec![anchor("from_anchors")];
    assert_eq!(
        generate_id(&metadata, &inlines),
        SafeId::Explicit("from_id".to_string())
    );
}

#[test]
fn generated_ids_from_a_title_collapse_separators() {
    assert_eq!(
        id_from_title(&plain("This is a b__i__g title.")),
        "this_is_a_b_i_g_title".to_string()
    );
}

#[test]
fn ids_read_through_formatting_and_macros() {
    let title = vec![
        TextNode::Formatted(vec![TextNode::Text("Hello".to_string())]),
        TextNode::LineBreak,
        TextNode::Macro(TextMacro::Keyboard { keys: vec!["Ctrl".to_string(), "T".to_string()] }),
        TextNode::Anchor,
        TextNode::Macro(TextMacro::Link { target: "https://x.org".to_string(), text: vec![] }),
        TextNode::CalloutRef(2),
    ];
    assert_eq!(id_from_title(&title), "hello_ctrlthttpsx_org2".to_string());
    // The id of a title is the id of its text.
    assert_eq!(
        id_from_title(&title),
        id_from_title(&plain("Hello Ctrl+Thttps://x.org<2>"))
    );
}

#[test]
fn section_kinds_round_trip_through_their_style() {
    for kind in [
        SectionKind::Preface,
        SectionKind::Abstract,
        SectionKind::Dedication,
        SectionKind::Colophon,
        SectionKind::Appendix,
        SectionKind::Glossary,
        SectionKind::Bibliography,
        SectionKind::Index,
    ] {
        assert_eq!(SectionKind::from_style(kind.as_style()), kind);
        assert!(kind.is_special());
    }
    assert_eq!(SectionKind::from_style(Some("chapter")), SectionKind::Normal);
    assert_eq!(SectionKind::Normal.as_style(), None);
    assert!(!SectionKind::Normal.is_special());
}

#[test]
fn roman_numerals() {
    assert_eq!(to_upper_roman(1), "I");
    assert_eq!(to_upper_roman(4), "IV");
    assert_eq!(to_upper_roman(9), "IX");
    assert_eq!(to_upper_roman(14), "XIV");
    assert_eq!(to_upper_roman(1994), "MCMXCIV");
}

#[test]
fn section_numbers_advance_and_reset() {
    let mut state = NumberingState::default();
    assert_eq!(state.next_section(1).unwrap().as_str(), "1");
    assert_eq!(state.next_section(2).unwrap().as_str(), "1.1");
    assert_eq!(state.next_section(2).unwrap().as_str(), "1.2");
    assert_eq!(state.next_section(1).unwrap().as_str(), "2");
    assert_eq!(state.next_section(2).unwrap().as_str(), "2.1");
    assert!(state.next_section(0).is_none());
    assert!(state.next_section(6).is_none());
    assert_eq!(state.next_appendix().as_str(), "A");
    assert_eq!(state.next_section(2).unwrap().as_str(), "A.1");
    assert_eq!(state.next_appendix().as_str(), "B");
    assert_eq!(state.next_part().as_str(), "I");
    assert_eq!(state.next_part().as_str(), "II");
}

#[test]
fn section_ids_prefer_explicit_then_given_then_generated() {
    let inlines = plain("Getting Started");
    let explicit = BlockMetadata::new().with_id(Some(anchor("custom")));
    assert_eq!(section_id(&explicit, Some("given"), &inlines), "custom");
    assert_eq!(section_id(&BlockMetadata::new(), Some("given"), &inlines), "given");
    assert_eq!(section_id(&BlockMetadata::new(), None, &inlines), "_getting_started");
}
