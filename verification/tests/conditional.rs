use acdc_parser::attributes::{AttributeValue, DocumentAttributes};
use acdc_parser::conditional::{
    evaluate_attributes, parse_endif, parse_line, AttributeCondition, Condition, Conditional,
    ConditionalError, Operation, Operator,
};

fn attrs(c: &Conditional) -> (&Vec<String>, Option<Operation>) {
    match &c.condition {
        Condition::Ifdef(a) | Condition::Ifndef(a) => (&a.attributes, a.operation),
        Condition::Ifeval(_) => panic!("expected an attribute condition"),
    }
}

#[test]
fn test_ifdef_single_attribute() -> Result<(), ConditionalError> {
    let conditional = parse_line("ifdef::attribute[]", 1, None)?;
    assert!(matches!(conditional.condition, Condition::Ifdef(_)));
    assert_eq!(conditional.content, None);
    let (names, op) = attrs(&conditional);
    assert_eq!(names, &vec!["attribute".to_string()]);
    assert!(op.is_none());
    Ok(())
}

#[test]
fn test_ifdef_or_attributes() -> Result<(), ConditionalError> {
    let conditional = parse_line("ifdef::attr1,attr2[]", 1, None)?;
    assert!(matches!(conditional.condition, Condition::Ifdef(_)));
    assert_eq!(conditional.content, None);
    let (names, op) = attrs(&conditional);
    assert_eq!(names, &vec!["attr1".to_string(), "attr2".to_string()]);
    assert_eq!(op, Some(Operation::Or));
    Ok(())
}

#[test]
fn test_ifdef_and_attributes() -> Result<(), ConditionalError> {
    let conditional = parse_line("ifdef::attr1+attr2[]", 1, None)?;
    assert_eq!(conditional.content, None);
    let (names, op) = attrs(&conditional);
    assert_eq!(names, &vec!["attr1".to_string(), "attr2".to_string()]);
    assert_eq!(op, Some(Operation::And));
    Ok(())
}

#[test]
fn test_ifdef_three_or_attributes() -> Result<(), ConditionalError> {
    let conditional = parse_line("ifdef::attr1,attr2,attr3[]", 1, None)?;
    let (names, op) = attrs(&conditional);
    assert_eq!(
        names,
        &vec!["attr1".to_string(), "attr2".to_string(), "attr3".to_string()]
    );
    assert_eq!(op, Some(Operation::Or));
    Ok(())
}

#[test]
fn test_ifdef_three_and_attributes() -> Result<(), ConditionalError> {
    let conditional = parse_line("ifdef::attr1+attr2+attr3[]", 1, None)?;
    let (names, op) = attrs(&conditional);
    assert_eq!(
        names,
        &vec!["attr1".to_string(), "attr2".to_string(), "attr3".to_string()]
    );
    assert_eq!(op, Some(Operation::And));
    Ok(())
}

#[test]
fn test_ifdef_rejects_mixed_attribute_operators() {
    assert!(matches!(
        parse_line("ifdef::attr1,attr2+attr3[]", 1, None),
        Err(ConditionalError::InvalidConditionalDirective(..))
    ));
}

#[test]
fn test_ifndef() -> Result<(), ConditionalError> {
    let conditional = parse_line("ifndef::attribute[]", 1, None)?;
    assert!(matches!(conditional.condition, Condition::Ifndef(_)));
    assert_eq!(conditional.content, None);
    let (names, op) = attrs(&conditional);
    assert_eq!(names, &vec!["attribute".to_string()]);
    assert!(op.is_none());
    Ok(())
}

#[test]
fn test_ifeval_simple_math() -> Result<(), ConditionalError> {
    let conditional = parse_line("ifeval::[1 + 1 == 2]", 1, None)?;
    match &conditional.condition {
        Condition::Ifeval(e) => {
            assert_eq!(e.left, "1 + 1");
            assert_eq!(e.operator, Operator::Equal);
            assert_eq!(e.right, "2");
        }
        _ => panic!("expected ifeval"),
    }
    assert_eq!(conditional.content, None);
    Ok(())
}

#[test]
fn test_ifeval_str_equality() -> Result<(), ConditionalError> {
    let conditional = parse_line("ifeval::['ASDF' == ASDF]", 1, None)?;
    match &conditional.condition {
        Condition::Ifeval(e) => {
            assert_eq!(e.left, "'ASDF'");
            assert_eq!(e.operator, Operator::Equal);
            assert_eq!(e.right, "ASDF");
        }
        _ => panic!("expected ifeval"),
    }
    Ok(())
}

#[test]
fn test_ifeval_greater_than_string_vs_number() -> Result<(), ConditionalError> {
    let conditional = parse_line("ifeval::['1+1' >= 2]", 1, None)?;
    match &conditional.condition {
        Condition::Ifeval(e) => {
            assert_eq!(e.left, "'1+1'");
            assert_eq!(e.operator, Operator::GreaterThanOrEqual);
            assert_eq!(e.right, "2");
        }
        _ => panic!("expected ifeval"),
    }
    Ok(())
}

#[test]
fn test_ifdef_with_content() -> Result<(), ConditionalError> {
    let conditional = parse_line("ifdef::attribute[Some content here]", 1, None)?;
    let (names, op) = attrs(&conditional);
    assert_eq!(names, &vec!["attribute".to_string()]);
    assert!(op.is_none());
    assert_eq!(conditional.content, Some("Some content here".to_string()));
    Ok(())
}

#[test]
fn test_endif() -> Result<(), ConditionalError> {
    let endif = parse_endif("endif::attribute[]", 1, None)?;
    let condition = endif.condition.expect("a named endif");
    assert_eq!(condition.attributes, vec!["attribute".to_string()]);
    assert!(condition.operation.is_none());
    Ok(())
}

#[test]
fn test_endif_no_attribute() -> Result<(), ConditionalError> {
    let endif = parse_endif("endif::[]", 1, None)?;
    assert!(endif.condition.is_none());
    Ok(())
}

#[test]
fn test_endif_matches_complete_condition_case_insensitively() -> Result<(), ConditionalError> {
    let conditional = parse_line("ifdef::Backend-PDF,Backend-DocBook5[]", 1, None)?;
    let endif = parse_endif("endif::backend-pdf,backend-docbook5[]", 2, None)?;
    assert!(endif.closes(&conditional));
    Ok(())
}

#[test]
fn test_endif_rejects_partial_or_reordered_condition() -> Result<(), ConditionalError> {
    let conditional = parse_line("ifdef::backend-pdf,backend-docbook5[]", 1, None)?;
    let partial = parse_endif("endif::backend-pdf[]", 2, None)?;
    let reordered = parse_endif("endif::backend-docbook5,backend-pdf[]", 2, None)?;
    let different_operation = parse_endif("endif::backend-pdf+backend-docbook5[]", 2, None)?;
    assert!(!partial.closes(&conditional));
    assert!(!reordered.closes(&conditional));
    assert!(!different_operation.closes(&conditional));
    Ok(())
}

#[test]
fn directive_errors_carry_the_line_and_file() {
    match parse_line("ifdef::[]", 7, Some("doc.adoc")) {
        Err(ConditionalError::InvalidConditionalDirective(loc)) => {
            assert_eq!(loc.file, Some("doc.adoc".to_string()));
            assert_eq!(loc.location.start.line, 7);
            assert_eq!(loc.location.start.column, 1);
        }
        Ok(_) => panic!("expected an error"),
    }
    assert!(parse_line("ifdef::a[]trailing", 1, None).is_err());
    assert!(parse_endif("endif::a[] ", 1, None).is_err());
    assert!(parse_line("ifeval::[a b]", 1, None).is_err());
}

#[test]
fn conditions_evaluate_against_the_attributes() {
    let mut attributes = DocumentAttributes::new();
    attributes.insert("a".to_string(), AttributeValue::Bool(true));
    let names = vec!["a".to_string(), "b".to_string()];
    assert!(evaluate_attributes(&names, Some(Operation::Or), &attributes, false));
    assert!(!evaluate_attributes(&names, Some(Operation::And), &attributes, false));
    assert!(evaluate_attributes(&names, Some(Operation::And), &attributes, true));
    assert!(!evaluate_attributes(&[], None, &attributes, false));
    assert!(evaluate_attributes(&[], None, &attributes, true));

    let conditional = parse_line("ifdef::a[extra]", 1, None).unwrap();
    let mut content = String::from("x");
    assert!(conditional.is_true(&attributes, &mut content, false));
    assert_eq!(content, "xextra");
    let conditional = parse_line("ifndef::a[extra]", 1, None).unwrap();
    let mut content = String::new();
    assert!(!conditional.is_true(&attributes, &mut content, true));
    assert_eq!(content, "");
}

#[test]
fn attribute_conditions_match_up_to_ascii_case() {
    let a = AttributeCondition::new(vec!["PDF".to_string()], None);
    let b = AttributeCondition::new(vec!["pdf".to_string()], None);
    let c = AttributeCondition::new(vec!["pdf".to_string()], Some(Operation::Or));
    assert!(a.matches(&b));
    assert!(!a.matches(&c));
}
