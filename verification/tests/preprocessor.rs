use acdc_parser::preprocessor::{parse_conditional, DirectiveKind, Error, Preprocessor};

#[test]
fn preprocessor_test_process() {
    let input = ":attribute: value

ifdef::attribute[]
content
endif::[]
";
    let output = Preprocessor.process(input).unwrap();
    assert_eq!(output, ":attribute: value\n\ncontent\n");
}

#[test]
fn undefined_attribute_hides_the_conditional_body() {
    let input = "intro\nifdef::missing[]\nhidden\nendif::[]\noutro\n";
    assert_eq!(Preprocessor.process(input).unwrap(), "intro\noutro");
}

#[test]
fn ifndef_shows_the_body_for_an_undefined_attribute() {
    let input = "ifndef::missing[]\nshown\nendif::[]";
    assert_eq!(Preprocessor.process(input).unwrap(), "shown\n");
}

#[test]
fn inline_content_replaces_the_body() {
    let input = ":flag:\nifdef::flag[inline text]\nbody\nendif::[]";
    assert_eq!(Preprocessor.process(input).unwrap(), ":flag:\ninline text");
}

#[test]
fn or_and_and_conditions() {
    let any = ":b:\nifdef::a,b[]\nany\nendif::[]";
    assert_eq!(Preprocessor.process(any).unwrap(), ":b:\nany\n");
    let all = ":b:\nifdef::a+b[]\nall\nendif::[]";
    assert_eq!(Preprocessor.process(all).unwrap(), ":b:");
    let both = ":a:\n:b:\nifdef::a+b[]\nall\nendif::[]";
    assert_eq!(Preprocessor.process(both).unwrap(), ":a:\n:b:\nall\n");
}

#[test]
fn unset_attribute_still_counts_as_defined() {
    let input = ":!gone:\nifdef::gone[]\nstill\nendif::[]";
    assert_eq!(Preprocessor.process(input).unwrap(), ":!gone:\nstill\n");
}

#[test]
fn conditional_body_stops_at_an_empty_line() {
    let input = ":x:\nifdef::x[]\none\n\ntwo";
    assert_eq!(Preprocessor.process(input).unwrap(), ":x:\none\n\n\ntwo");
}

#[test]
fn mixed_operators_are_refused() {
    let input = "ifdef::a,b+c[]\nbody\nendif::[]";
    assert_eq!(
        Preprocessor.process(input),
        Err(Error::InvalidConditionalDirective)
    );
}

#[test]
fn ifeval_is_not_evaluated() {
    let p = Preprocessor;
    assert_eq!(p.try_process("ifeval::[1 == 1]\nbody\nendif::[]"), None);
    assert_eq!(
        p.try_process("ifeval::[]"),
        Some(Err(Error::InvalidConditionalDirective))
    );
}

#[test]
fn escaped_directives_lose_their_backslash() {
    let input = "\\include::other.adoc[]\n\\ifdef::x[]";
    assert_eq!(
        Preprocessor.process(input).unwrap(),
        "include::other.adoc[]\nifdef::x[]"
    );
}

#[test]
fn include_directives_without_a_base_file_are_dropped() {
    let input = "before\ninclude::chapter.adoc[]\nafter";
    assert_eq!(Preprocessor.process(input).unwrap(), "before\nafter");
}

#[test]
fn trailing_whitespace_and_carriage_returns_are_normalised() {
    let input = "one  \r\ntwo\t\r\n";
    assert_eq!(Preprocessor.process(input).unwrap(), "one\ntwo");
}

#[test]
fn continued_attribute_entries_are_joined() {
    let soft = ":long: first \\\n  second";
    assert_eq!(Preprocessor.process(soft).unwrap(), ":long: first second");
    let hard = ":poem: roses + \\\nviolets";
    assert_eq!(Preprocessor.process(hard).unwrap(), ":poem: roses + \\\nviolets");
}

#[test]
fn attribute_values_expand_earlier_attributes() {
    let input = ":a: one\n:b: {a} two\nifdef::b[{b}]\nendif::[]";
    // The inline content is emitted as written; the entry itself records the
    // expanded value, which keeps `b` defined for the conditional.
    assert_eq!(
        Preprocessor.process(input).unwrap(),
        ":a: one\n:b: {a} two\n{b}"
    );
}

#[test]
fn conditional_directives_parse_with_blanks() {
    let d = parse_conditional("ifdef:: a , b [ some text ]").unwrap();
    assert_eq!(d.kind, DirectiveKind::Ifdef);
    assert_eq!(d.names, vec!["a".to_string(), "b".to_string()]);
    assert_eq!(d.content, Some("some text".to_string()));
    assert!(parse_conditional("ifdef::a,[]").is_none());
    assert!(parse_conditional("ifdef::[]").is_none());
    let e = parse_conditional("ifeval::[x]").unwrap();
    assert_eq!(e.kind, DirectiveKind::Ifeval);
}
