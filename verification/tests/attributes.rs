use acdc_parser::attributes::{AttributeValue, DocumentAttributes, ElementAttributes};

#[test]
fn iterating_gives_each_attribute_once_with_its_last_value() {
    let mut document = DocumentAttributes::new();
    document.set("a".to_string(), AttributeValue::Bool(true));
    document.set("b".to_string(), AttributeValue::String("x".to_string()));
    document.set("a".to_string(), AttributeValue::String("y".to_string()));
    let mut names: Vec<&str> = document.iter().iter().map(|(name, _)| name.as_str()).collect();
    names.sort();
    assert_eq!(names, vec!["a", "b"]);
    assert!(document
        .iter()
        .iter()
        .any(|(name, value)| name == "a" && matches!(value, AttributeValue::String(v) if v == "y")));

    let mut element = ElementAttributes::new();
    element.insert("role".to_string(), AttributeValue::String("lead".to_string()));
    element.insert("role".to_string(), AttributeValue::String("other".to_string()));
    assert_eq!(element.iter().len(), 1);
    assert!(matches!(&element.iter()[0].1, AttributeValue::String(v) if v == "lead"));
}

#[test]
fn insert_set_and_merge_preserve_existing_value_rules() {
    let text = |t: &str| AttributeValue::String(t.to_string());
    let mut attributes = ElementAttributes::new();
    assert!(attributes.is_empty());
    attributes.insert("role".to_string(), text("first"));
    attributes.insert("role".to_string(), text("ignored"));
    assert_eq!(attributes.get_string("role").as_deref(), Some("first"));

    attributes.set("role".to_string(), text("replacement"));
    let mut defaults = ElementAttributes::new();
    defaults.set("role".to_string(), text("default"));
    defaults.set("width".to_string(), text("50%"));
    attributes.merge(defaults);
    assert_eq!(attributes.iter().len(), 2);
    assert_eq!(attributes.get_string("role").as_deref(), Some("replacement"));
    assert_eq!(attributes.get_string("width").as_deref(), Some("50%"));

    assert!(matches!(attributes.remove("role"), Some(AttributeValue::String(v)) if v == "replacement"));
    assert!(!attributes.contains_key("role"));
    assert!(matches!(attributes.remove("width"), Some(AttributeValue::String(v)) if v == "50%"));
    assert!(attributes.remove("missing").is_none());
    assert!(attributes.is_empty());
    assert!(attributes.iter().is_empty());
}
