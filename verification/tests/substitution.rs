use acdc_parser::attributes::{AttributeValue, DocumentAttributes};
use acdc_parser::substitution::{
    parse_subs_attribute, resolve_passthrough_substitutions, substitute, Substitution,
    SubstitutionOp, SubstitutionPlan, SubstitutionSpec, HEADER, NORMAL, VERBATIM,
};

fn explicit(spec: &SubstitutionSpec) -> &Vec<Substitution> {
    match spec {
        SubstitutionSpec::Explicit(subs) => subs,
        SubstitutionSpec::Modifiers(_) => panic!("Expected Explicit, got Modifiers"),
    }
}

fn modifiers(spec: &SubstitutionSpec) -> &Vec<SubstitutionOp> {
    match spec {
        SubstitutionSpec::Modifiers(ops) => ops,
        SubstitutionSpec::Explicit(_) => panic!("Expected Modifiers, got Explicit"),
    }
}

fn text(value: &str) -> AttributeValue {
    AttributeValue::String(value.to_string())
}

#[test]
fn normal_group_uses_reference_order() {
    assert_eq!(
        NORMAL,
        [
            Substitution::SpecialChars,
            Substitution::Quotes,
            Substitution::Attributes,
            Substitution::Replacements,
            Substitution::Macros,
            Substitution::PostReplacements,
        ]
    );
}

#[test]
fn passthrough_groups_use_inline_policies() {
    assert_eq!(
        resolve_passthrough_substitutions(&[Substitution::Normal]),
        NORMAL
    );
    assert_eq!(
        resolve_passthrough_substitutions(&[Substitution::Verbatim]),
        [Substitution::SpecialChars]
    );
}

#[test]
fn passthrough_group_expansion_preserves_first_occurrence() {
    assert_eq!(
        resolve_passthrough_substitutions(&[
            Substitution::Attributes,
            Substitution::Normal,
            Substitution::Quotes,
        ]),
        [
            Substitution::Attributes,
            Substitution::SpecialChars,
            Substitution::Quotes,
            Substitution::Replacements,
            Substitution::Macros,
            Substitution::PostReplacements,
        ]
    );
}

#[test]
fn test_parse_subs_none() {
    let result = parse_subs_attribute("none");
    assert!(explicit(&result).is_empty());
}

#[test]
fn test_parse_subs_empty_string() {
    let result = parse_subs_attribute("");
    assert!(explicit(&result).is_empty());
}

#[test]
fn test_parse_subs_none_with_whitespace() {
    let result = parse_subs_attribute("  none  ");
    assert!(explicit(&result).is_empty());
}

#[test]
fn test_parse_subs_specialchars() {
    let result = parse_subs_attribute("specialchars");
    assert_eq!(explicit(&result), &vec![Substitution::SpecialChars]);
}

#[test]
fn test_parse_subs_specialchars_shorthand() {
    let result = parse_subs_attribute("c");
    assert_eq!(explicit(&result), &vec![Substitution::SpecialChars]);
}

#[test]
fn test_parse_subs_specialcharacters_alias() {
    let result = parse_subs_attribute("specialcharacters");
    assert_eq!(explicit(&result), &vec![Substitution::SpecialChars]);
}

#[test]
fn test_parse_subs_normal_expands() {
    let result = parse_subs_attribute("normal");
    assert_eq!(explicit(&result), &NORMAL.to_vec());
}

#[test]
fn test_parse_subs_verbatim_expands() {
    let result = parse_subs_attribute("verbatim");
    assert_eq!(explicit(&result), &VERBATIM.to_vec());
}

#[test]
fn test_parse_subs_append_modifier() {
    let result = parse_subs_attribute("+quotes");
    let ops = modifiers(&result);
    assert_eq!(ops, &vec![SubstitutionOp::Append(Substitution::Quotes)]);

    let resolved = result.resolve(&VERBATIM);
    assert!(resolved.contains(&Substitution::SpecialChars));
    assert!(resolved.contains(&Substitution::Callouts));
    assert!(resolved.contains(&Substitution::Quotes));
    assert_eq!(resolved.last(), Some(&Substitution::Quotes));
}

#[test]
fn test_parse_subs_prepend_modifier() {
    let result = parse_subs_attribute("quotes+");
    let ops = modifiers(&result);
    assert_eq!(ops, &vec![SubstitutionOp::Prepend(Substitution::Quotes)]);

    let resolved = result.resolve(&VERBATIM);
    assert_eq!(resolved.first(), Some(&Substitution::Quotes));
    assert!(resolved.contains(&Substitution::SpecialChars));
    assert!(resolved.contains(&Substitution::Callouts));
}

#[test]
fn test_parse_subs_remove_modifier() {
    let result = parse_subs_attribute("-specialchars");
    let ops = modifiers(&result);
    assert_eq!(
        ops,
        &vec![SubstitutionOp::Remove(Substitution::SpecialChars)]
    );

    let resolved = result.resolve(&VERBATIM);
    assert!(!resolved.contains(&Substitution::SpecialChars));
    assert!(resolved.contains(&Substitution::Callouts));
}

#[test]
fn test_parse_subs_remove_all_verbatim() {
    let result = parse_subs_attribute("-specialchars,-callouts");
    let ops = modifiers(&result);
    assert_eq!(ops.len(), 2);

    let resolved = result.resolve(&VERBATIM);
    assert!(resolved.is_empty());
}

#[test]
fn test_parse_subs_combined_modifiers() {
    let result = parse_subs_attribute("+quotes,-callouts");
    let ops = modifiers(&result);
    assert_eq!(ops.len(), 2);

    let resolved = result.resolve(&VERBATIM);
    assert!(resolved.contains(&Substitution::SpecialChars));
    assert!(resolved.contains(&Substitution::Quotes));
    assert!(!resolved.contains(&Substitution::Callouts));
}

#[test]
fn test_parse_subs_ordering_preserved() {
    let result = parse_subs_attribute("quotes,attributes,specialchars");
    assert_eq!(
        explicit(&result),
        &vec![
            Substitution::Quotes,
            Substitution::Attributes,
            Substitution::SpecialChars
        ]
    );
}

#[test]
fn test_parse_subs_shorthand_list() {
    let result = parse_subs_attribute("q,a,c");
    assert_eq!(
        explicit(&result),
        &vec![
            Substitution::Quotes,
            Substitution::Attributes,
            Substitution::SpecialChars
        ]
    );
}

#[test]
fn test_parse_subs_with_spaces() {
    let result = parse_subs_attribute(" quotes , attributes ");
    assert_eq!(
        explicit(&result),
        &vec![Substitution::Quotes, Substitution::Attributes]
    );
}

#[test]
fn test_parse_subs_duplicates_ignored() {
    let result = parse_subs_attribute("quotes,quotes,quotes");
    assert_eq!(explicit(&result), &vec![Substitution::Quotes]);
}

#[test]
fn test_parse_subs_normal_in_list_expands() {
    let result = parse_subs_attribute("normal");
    let subs = explicit(&result);
    assert_eq!(subs.len(), NORMAL.len());
    for sub in NORMAL {
        assert!(subs.contains(&sub));
    }
}

#[test]
fn test_parse_subs_append_normal_group() {
    let result = parse_subs_attribute("+normal");
    let resolved = result.resolve(&[Substitution::Callouts]);
    assert!(resolved.contains(&Substitution::Callouts));
    for sub in NORMAL {
        assert!(resolved.contains(&sub));
    }
}

#[test]
fn test_parse_subs_remove_normal_group() {
    let result = parse_subs_attribute("-normal");
    let resolved = result.resolve(&NORMAL);
    assert!(resolved.is_empty());
}

#[test]
fn test_parse_subs_unknown_is_skipped() {
    let result = parse_subs_attribute("unknown");
    assert!(explicit(&result).is_empty());
}

#[test]
fn test_parse_subs_unknown_mixed_with_valid() {
    let result = parse_subs_attribute("quotes,typo,attributes");
    assert_eq!(
        explicit(&result),
        &vec![Substitution::Quotes, Substitution::Attributes]
    );
}

#[test]
fn test_parse_subs_all_individual_types() {
    assert_eq!(
        explicit(&parse_subs_attribute("attributes")),
        &vec![Substitution::Attributes]
    );
    assert_eq!(
        explicit(&parse_subs_attribute("replacements")),
        &vec![Substitution::Replacements]
    );
    assert_eq!(
        explicit(&parse_subs_attribute("macros")),
        &vec![Substitution::Macros]
    );
    assert_eq!(
        explicit(&parse_subs_attribute("post_replacements")),
        &vec![Substitution::PostReplacements]
    );
    assert_eq!(
        explicit(&parse_subs_attribute("quotes")),
        &vec![Substitution::Quotes]
    );
    assert_eq!(
        explicit(&parse_subs_attribute("callouts")),
        &vec![Substitution::Callouts]
    );
}

#[test]
fn test_parse_subs_shorthand_types() {
    assert_eq!(
        explicit(&parse_subs_attribute("a")),
        &vec![Substitution::Attributes]
    );
    assert_eq!(
        explicit(&parse_subs_attribute("r")),
        &vec![Substitution::Replacements]
    );
    assert_eq!(
        explicit(&parse_subs_attribute("m")),
        &vec![Substitution::Macros]
    );
    assert_eq!(
        explicit(&parse_subs_attribute("p")),
        &vec![Substitution::PostReplacements]
    );
    assert_eq!(
        explicit(&parse_subs_attribute("q")),
        &vec![Substitution::Quotes]
    );
    assert_eq!(
        explicit(&parse_subs_attribute("c")),
        &vec![Substitution::SpecialChars]
    );
}

#[test]
fn test_parse_subs_mixed_modifier_list() {
    let result = parse_subs_attribute("specialchars,+quotes");
    let ops = modifiers(&result);
    assert_eq!(ops.len(), 2);

    let resolved = result.resolve(&VERBATIM);
    assert!(resolved.contains(&Substitution::SpecialChars));
    assert!(resolved.contains(&Substitution::Callouts));
    assert!(resolved.contains(&Substitution::Quotes));
}

#[test]
fn test_parse_subs_modifier_in_middle() {
    let result = parse_subs_attribute("attributes,+quotes,-callouts");
    let ops = modifiers(&result);
    assert_eq!(ops.len(), 3);

    let resolved = result.resolve(&VERBATIM);
    assert!(resolved.contains(&Substitution::Attributes));
    assert!(resolved.contains(&Substitution::Quotes));
    assert!(!resolved.contains(&Substitution::Callouts));
}

#[test]
fn test_parse_subs_asciidoctor_example() {
    let result = parse_subs_attribute("attributes+,+replacements,-callouts");
    let ops = modifiers(&result);
    assert_eq!(ops.len(), 3);

    let resolved = result.resolve(&VERBATIM);
    assert_eq!(resolved.first(), Some(&Substitution::Attributes));
    assert!(resolved.contains(&Substitution::Replacements));
    assert!(!resolved.contains(&Substitution::Callouts));
}

#[test]
fn test_parse_subs_modifier_only_at_end() {
    let result = parse_subs_attribute("quotes,-specialchars");
    let ops = modifiers(&result);
    assert_eq!(ops.len(), 2);

    let resolved = result.resolve(&VERBATIM);
    assert!(resolved.contains(&Substitution::Quotes));
    assert!(!resolved.contains(&Substitution::SpecialChars));
    assert!(resolved.contains(&Substitution::Callouts));
}

#[test]
fn test_resolve_modifiers_with_normal_baseline() {
    let result = parse_subs_attribute("-quotes");
    let resolved = result.resolve(&NORMAL);

    assert!(resolved.contains(&Substitution::SpecialChars));
    assert!(resolved.contains(&Substitution::Attributes));
    assert!(!resolved.contains(&Substitution::Quotes));
    assert!(resolved.contains(&Substitution::Replacements));
    assert!(resolved.contains(&Substitution::Macros));
    assert!(resolved.contains(&Substitution::PostReplacements));
}

#[test]
fn test_resolve_modifiers_with_verbatim_baseline() {
    let result = parse_subs_attribute("-quotes");
    let resolved = result.resolve(&VERBATIM);

    assert!(resolved.contains(&Substitution::SpecialChars));
    assert!(resolved.contains(&Substitution::Callouts));
    assert!(!resolved.contains(&Substitution::Quotes));
}

#[test]
fn test_resolve_explicit_ignores_baseline() {
    let result = parse_subs_attribute("quotes,attributes");
    let resolved_normal = result.resolve(&NORMAL);
    let resolved_verbatim = result.resolve(&VERBATIM);

    assert_eq!(resolved_normal, resolved_verbatim);
    assert_eq!(
        resolved_normal,
        vec![Substitution::Quotes, Substitution::Attributes]
    );
}

#[test]
fn test_resolve_attribute_references() {
    let attribute_weight = text("weight");
    let attribute_mass = text("mass");

    let attribute_volume_repeat = "value {attribute_volume}";

    let mut attributes = DocumentAttributes::new();
    attributes.insert("weight".into(), attribute_weight.clone());
    attributes.insert("mass".into(), attribute_mass.clone());

    let resolved = substitute("{weight}", &HEADER, &attributes);
    assert_eq!(resolved, "weight");

    let resolved = substitute("{weight} {mass}", &HEADER, &attributes);
    assert_eq!(resolved, "weight mass");

    let resolved = substitute("value {attribute_volume}", &HEADER, &attributes);
    assert_eq!(resolved, attribute_volume_repeat);
}

#[test]
fn test_substitute_single_pass_expansion() {
    let mut attributes = DocumentAttributes::new();
    attributes.insert("foo".into(), text("{bar}"));
    attributes.insert("bar".into(), text("should-not-appear"));

    let resolved = substitute("{foo}", &HEADER, &attributes);
    assert_eq!(resolved, "{bar}");
}

#[test]
fn test_utf8_boundary_handling() {
    let attributes = DocumentAttributes::new();

    let values = [
        ":J::~\x01\x00\x00Ô",
        "{attr}Ô{missing}日本語",
        "{attrÔ}test",
    ];
    for value in values {
        let resolved = substitute(value, &HEADER, &attributes);
        assert_eq!(resolved, value);
    }
}

// Own tests.

#[test]
fn is_disabled_matches_spec_cases() {
    let cases: [(&str, Substitution, bool); 12] = [
        ("specialchars", Substitution::Macros, true),
        ("specialchars", Substitution::Callouts, true),
        ("macros", Substitution::Macros, false),
        ("p", Substitution::PostReplacements, false),
        ("normal", Substitution::Quotes, false),
        ("verbatim", Substitution::Callouts, false),
        ("-macros", Substitution::Macros, true),
        ("-quotes", Substitution::Quotes, true),
        ("+macros", Substitution::Macros, false),
        ("+callouts", Substitution::Callouts, false),
        ("none", Substitution::Macros, true),
        ("none", Substitution::Attributes, true),
    ];
    for (attr, sub, expected) in cases {
        let spec = parse_subs_attribute(attr);
        assert_eq!(spec.is_disabled(&sub), expected, "spec={attr:?} sub={sub:?}");
    }
}

#[test]
fn boolean_true_reference_expands_to_nothing_and_false_is_kept() {
    let mut attributes = DocumentAttributes::new();
    attributes.insert("on".into(), AttributeValue::Bool(true));
    attributes.insert("off".into(), AttributeValue::Bool(false));
    assert_eq!(substitute("a{on}b{off}c", &HEADER, &attributes), "abc".replace("c", "{off}c"));
    assert_eq!(substitute("x{unclosed", &HEADER, &attributes), "x{unclosed");
}

#[test]
fn groups_apply_their_members() {
    let mut attributes = DocumentAttributes::new();
    attributes.insert("v".into(), text("1"));
    assert_eq!(substitute("{v}", &[Substitution::Normal], &attributes), "1");
    assert_eq!(substitute("{v}", &[Substitution::Verbatim], &attributes), "{v}");
    assert_eq!(substitute("{v}", &[Substitution::Quotes], &attributes), "{v}");
}

#[test]
fn substitution_names_and_operations_display() {
    assert_eq!(Substitution::PostReplacements.to_string(), "post_replacements");
    assert_eq!(SubstitutionOp::Append(Substitution::Quotes).to_string(), "+quotes");
    assert_eq!(SubstitutionOp::Prepend(Substitution::Quotes).to_string(), "quotes+");
    assert_eq!(SubstitutionOp::Remove(Substitution::Callouts).to_string(), "-callouts");
}

#[test]
fn plan_enables_listed_stages_in_order() {
    let plan = SubstitutionPlan::default_plan();
    assert!(plan.enabled(&Substitution::Callouts));
    assert!(!plan.enabled(&Substitution::Normal));
    assert!(plan.precedes(&Substitution::SpecialChars, &Substitution::Quotes));
    assert!(!plan.precedes(&Substitution::Quotes, &Substitution::SpecialChars));
    let only = SubstitutionPlan::only(&Substitution::Macros);
    assert!(only.enabled(&Substitution::Macros));
    assert!(!only.enabled(&Substitution::Quotes));
    let spec = parse_subs_attribute("-quotes");
    let block = SubstitutionPlan::for_block_spec(&spec);
    assert!(!block.enabled(&Substitution::Quotes));
    assert!(block.enabled(&Substitution::Callouts));
    let explicit_spec = parse_subs_attribute("macros");
    let explicit_plan = SubstitutionPlan::for_block_spec(&explicit_spec);
    assert!(explicit_plan.enabled(&Substitution::Macros));
    assert!(!explicit_plan.enabled(&Substitution::Callouts));
}

#[test]
fn modifiers_keep_untouched_defaults_in_order() {
    let default = NORMAL.to_vec();
    let ops = vec![
        SubstitutionOp::Remove(Substitution::Replacements),
        SubstitutionOp::Append(Substitution::Callouts),
        SubstitutionOp::Prepend(Substitution::Quotes),
    ];
    let result = SubstitutionSpec::apply_modifiers(&ops, &default);
    let mut expected: Vec<Substitution> =
        default.iter().copied().filter(|s| *s != Substitution::Replacements).collect();
    expected.push(Substitution::Callouts);
    assert_eq!(result, expected);
}
