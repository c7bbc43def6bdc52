use acdc_parser::anchor::Anchor;
use acdc_parser::attributes::{AttributeValue, ElementAttributes};
use acdc_parser::location::Location;
use acdc_parser::metadata::{overlay_positional_slots, BlockMetadata, PositionalAttribute};

fn slot(value: &str) -> PositionalAttribute {
    PositionalAttribute { value: value.to_string(), substitutions: false, location: None }
}

fn values(slots: &[PositionalAttribute]) -> Vec<String> {
    slots.iter().map(|s| s.value.clone()).collect()
}

#[test]
fn overlaying_slots_replaces_by_index_and_keeps_the_tail() {
    let mut destination = vec![slot("a"), slot("b"), slot("c")];
    overlay_positional_slots(&mut destination, &[slot("x"), slot("")]);
    assert_eq!(values(&destination), vec!["x", "", "c"]);

    let mut destination = vec![slot("a")];
    overlay_positional_slots(&mut destination, &[slot("x"), slot("y"), slot("z")]);
    assert_eq!(values(&destination), vec!["x", "y", "z"]);
}

#[test]
fn positional_attributes_skip_empty_slots() {
    let mut metadata = BlockMetadata::new();
    metadata.positional_attributes = vec![slot(""), slot("svg")];
    assert_eq!(metadata.positional_attributes(), vec![None, Some("svg".to_string())]);
    assert_eq!(metadata.positional_attribute(0), None);
    assert_eq!(metadata.positional_attribute(1), Some("svg".to_string()));
    assert_eq!(metadata.positional_attribute(7), None);
    // Retained slots take precedence once kept.
    metadata.retain_positional_attributes();
    metadata.positional_attributes = vec![slot("other")];
    assert_eq!(metadata.positional_attribute(1), Some("svg".to_string()));
}

#[test]
fn merge_lets_the_later_metadata_win() {
    let mut first = BlockMetadata::new().with_style(Some("source".to_string()));
    first.roles = vec!["lead".to_string()];
    first.anchors = vec![Anchor::new("a".to_string(), Location::default())];
    let mut attributes = ElementAttributes::new();
    attributes.insert("k".to_string(), AttributeValue::String("1".to_string()));
    first.attributes = attributes;

    let mut second = BlockMetadata::new();
    second.options = vec!["nowrap".to_string()];
    second.anchors = vec![Anchor::new("b".to_string(), Location::default())];
    let mut attributes = ElementAttributes::new();
    attributes.insert("k".to_string(), AttributeValue::String("2".to_string()));
    second.attributes = attributes;
    second.positional_attributes = vec![slot("x")];

    first.merge(&second);
    assert_eq!(first.style.as_deref(), Some("source"));
    assert_eq!(first.roles, vec!["lead".to_string()]);
    assert_eq!(first.options, vec!["nowrap".to_string()]);
    let ids: Vec<&str> = first.anchors.iter().map(|a| a.id.as_str()).collect();
    assert_eq!(ids, vec!["a", "b"]);
    assert!(matches!(first.attributes.get("k"), Some(AttributeValue::String(v)) if v == "2"));
    assert_eq!(values(&first.positional_attributes), vec!["x"]);
    assert!(first.retained_positional_attributes.is_none());
}

#[test]
fn moving_slots_to_attributes_names_them() {
    let mut metadata = BlockMetadata::new();
    metadata.positional_attributes = vec![slot("width"), slot(""), slot("height")];
    metadata.move_positional_attributes_to_attributes();
    assert!(metadata.positional_attributes.is_empty());
    assert!(matches!(metadata.attributes.get("width"), Some(AttributeValue::Null)));
    assert!(matches!(metadata.attributes.get("height"), Some(AttributeValue::Null)));
    assert_eq!(metadata.positional_attribute(2), Some("height".to_string()));

    let mut source = BlockMetadata::new().with_style(Some("source".to_string()));
    source.positional_attributes = vec![slot("ruby")];
    source.move_positional_attributes_to_attributes();
    assert!(source.attributes.is_empty());
    assert_eq!(source.positional_attribute(0), Some("ruby".to_string()));
}

#[test]
fn default_metadata_shows_nothing() {
    let metadata = BlockMetadata::new();
    assert!(metadata.is_default());
    assert!(!BlockMetadata::new().with_roles(vec!["x".to_string()]).is_default());
    let anchor = Anchor::new("id".to_string(), Location::default())
        .with_xreflabel(Some("Label".to_string()));
    assert_eq!(anchor.xreflabel.as_deref(), Some("Label"));
    assert!(!anchor.is_bibliography());
    let metadata = BlockMetadata::new().with_id(Some(anchor));
    assert_eq!(metadata.id_anchor().map(|a| a.id.as_str()), Some("id"));
    assert!(!metadata.is_default());
}
