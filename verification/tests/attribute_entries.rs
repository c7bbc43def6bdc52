use acdc_parser::attributes::{AttributeValue, DocumentAttributes};
use acdc_parser::expansion::declare_attribute;

fn text(attributes: &DocumentAttributes, name: &str) -> Option<String> {
    match attributes.get(name) {
        Some(AttributeValue::String(value)) => Some(value.clone()),
        _ => None,
    }
}

fn is_presence(attributes: &DocumentAttributes, name: &str) -> bool {
    matches!(attributes.get(name), Some(AttributeValue::Bool(true)))
}

#[test]
fn test_parse_simple_attribute() {
    let mut attributes = DocumentAttributes::new();
    declare_attribute(&mut attributes, ":name: value");
    assert_eq!(text(&attributes, "name").as_deref(), Some("value"));
}

#[test]
fn test_parse_unset_attribute() {
    let mut attributes = DocumentAttributes::new();
    declare_attribute(&mut attributes, ":name: value");
    declare_attribute(&mut attributes, ":!name:");
    assert!(attributes.get("name").is_none());
    declare_attribute(&mut attributes, ":other: value");
    declare_attribute(&mut attributes, ":other!:");
    assert!(attributes.get("other").is_none());
}

#[test]
fn test_parse_empty_value() {
    let mut attributes = DocumentAttributes::new();
    declare_attribute(&mut attributes, ":name:");
    assert!(is_presence(&attributes, "name"));
}

#[test]
fn empty_expansion_becomes_presence_during_preprocessing() {
    let mut attributes = DocumentAttributes::new();
    declare_attribute(&mut attributes, ":source:");
    declare_attribute(&mut attributes, ":expanded: {source}");
    assert!(is_presence(&attributes, "expanded"));
}

#[test]
fn test_parse_complex_name() {
    let mut attributes = DocumentAttributes::new();
    declare_attribute(&mut attributes, ":complex-name_123: value");
    assert_eq!(text(&attributes, "complex-name_123").as_deref(), Some("value"));
}

#[test]
fn test_definition_time_attribute_expansion() {
    let mut attributes = DocumentAttributes::new();
    declare_attribute(&mut attributes, ":bar: resolved-bar");
    declare_attribute(&mut attributes, ":foo: {bar}");
    assert_eq!(text(&attributes, "foo").as_deref(), Some("resolved-bar"));
}

#[test]
fn test_undefined_attribute_kept_literal() {
    let mut attributes = DocumentAttributes::new();
    declare_attribute(&mut attributes, ":foo: {bar}");
    assert_eq!(text(&attributes, "foo").as_deref(), Some("{bar}"));
}
