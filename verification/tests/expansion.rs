use acdc_parser::attributes::{AttributeValue, DocumentAttributes};
use acdc_parser::conditional::ConditionalError;
use acdc_parser::expansion::{
    normalize_input, start, Expansion, PreprocessorResult, Start, Step,
};
use acdc_parser::lines::normalize;

fn attributes(names: &[&str]) -> DocumentAttributes {
    let mut attributes = DocumentAttributes::new();
    for name in names {
        attributes.set(name.to_string(), AttributeValue::Bool(true));
    }
    attributes
}

fn run(input: &str, file: Option<&str>, names: &[&str]) -> Result<PreprocessorResult, ConditionalError> {
    run_with_setext(input, file, names, false)
}

fn run_with_setext(
    input: &str,
    file: Option<&str>,
    names: &[&str],
    setext: bool,
) -> Result<PreprocessorResult, ConditionalError> {
    match start(input, file.map(str::to_string), attributes(names), setext) {
        Some(Start::PassThrough(text)) => Ok(PreprocessorResult {
            text,
            leveloffset_ranges: Vec::new(),
            source_ranges: Vec::new(),
        }),
        Some(Start::Run(mut expansion)) => loop {
            match expansion.step() {
                Step::Continue => {}
                Step::Include { .. } => expansion.include_done(None),
                Step::Evaluate { .. } => expansion.eval_done(false),
                Step::Done => return Ok(expansion.finish()),
                Step::Failed(e) => return Err(e),
            }
        },
        None => panic!("input too large"),
    }
}

fn process(input: &str, names: &[&str]) -> Result<String, ConditionalError> {
    run(input, None, names).map(|r| r.text)
}

/// The source line a byte of the output maps back to.
fn source_line(result: &PreprocessorResult, needle: &str) -> Option<usize> {
    let offset = result.text.find(needle)?;
    let range = result
        .source_ranges
        .iter()
        .rev()
        .find(|r| r.start_offset <= offset && offset < r.end_offset)?;
    let newlines = result.text[range.start_offset..offset].matches('\n').count();
    Some(range.start_line + newlines)
}

#[test]
fn mod_test_process() -> Result<(), ConditionalError> {
    let input = ":attribute: value

ifdef::attribute[]
content
endif::[]
";
    assert_eq!(process(input, &[])?, ":attribute: value\n\ncontent");
    Ok(())
}

#[test]
fn multi_attribute_conditional_in_header() -> Result<(), ConditionalError> {
    let input = "= Title
ifdef::backend-pdf,backend-docbook5[]
:title-page:
endif::backend-pdf,backend-docbook5[]

== Visible
Body";
    assert_eq!(process(input, &[])?, "= Title\n\n== Visible\nBody");
    Ok(())
}

#[test]
fn active_multi_attribute_conditional_in_header() -> Result<(), ConditionalError> {
    let input = "= Title
ifdef::backend-pdf,backend-docbook5[]
:title-page:
endif::backend-pdf,backend-docbook5[]

== Visible
Body";
    assert_eq!(
        process(input, &["backend-pdf"])?,
        "= Title\n:title-page:\n\n== Visible\nBody"
    );
    Ok(())
}

#[test]
fn inactive_conditional_body_can_contain_blank_lines() -> Result<(), ConditionalError> {
    let input = "= Title

ifdef::backend-pdf,backend-docbook5[]

== Hidden

Hidden body

endif::backend-pdf,backend-docbook5[]

== Visible
Visible body";
    let text = process(input, &[])?;
    assert_eq!(text, "= Title\n\n\n== Visible\nVisible body");
    assert!(!text.contains("Hidden"));
    assert!(!text.contains("endif::"));
    Ok(())
}

#[test]
fn nested_conditionals_follow_enclosing_activity() -> Result<(), ConditionalError> {
    let input = "ifdef::outer[]
outer content
ifdef::inner[]
hidden inner content
endif::inner[]
after inner
endif::outer[]
tail";
    assert_eq!(process(input, &["outer"])?, "outer content\nafter inner\ntail");
    Ok(())
}

#[test]
fn inactive_enclosing_conditional_hides_active_nested_condition() -> Result<(), ConditionalError> {
    let input = "ifdef::outer[]
hidden outer content
ifdef::inner[]
hidden inner content
endif::inner[]
endif::outer[]
tail";
    assert_eq!(process(input, &["inner"])?, "tail");
    Ok(())
}

#[test]
fn multi_attribute_conditions_evaluate_every_attribute() -> Result<(), ConditionalError> {
    let input = "ifdef::missing-one,missing-two,third[]
or content
endif::missing-one,missing-two,third[]
ifdef::first+second+third[]
and content
endif::first+second+third[]";
    assert_eq!(
        process(input, &["third", "first", "second"])?,
        "or content\nand content"
    );
    Ok(())
}

#[test]
fn attribute_defined_in_active_conditional_affects_later_condition() -> Result<(), ConditionalError> {
    let input = "ifdef::outer[]
:inner:
endif::outer[]
ifdef::inner[]
visible
endif::inner[]";
    assert_eq!(process(input, &["outer"])?, ":inner:\nvisible");
    Ok(())
}

#[test]
fn test_line_comment_adjacent_to_content_is_dropped() -> Result<(), ConditionalError> {
    let input = "para line one
// adjacent comment
para line two";
    assert_eq!(process(input, &[])?, "para line one\npara line two");
    Ok(())
}

#[test]
fn test_trailing_line_comments_after_content_are_dropped() -> Result<(), ConditionalError> {
    let input = "Usage-controlled: *NO*. +
// Trappable: *NO*. +
// Interruptible: *NO*. +";
    assert_eq!(process(input, &[])?, "Usage-controlled: *NO*. +");
    Ok(())
}

#[test]
fn test_standalone_line_comment_is_preserved() -> Result<(), ConditionalError> {
    let input = "para

// standalone comment

more";
    assert_eq!(process(input, &[])?, "para\n\n// standalone comment\n\nmore");
    Ok(())
}

#[test]
fn dropped_comment_remaps_following_lines_to_source() -> Result<(), ConditionalError> {
    let input = "line one\n// c\nline two\n\nsecond para\n";
    let result = run(input, Some("doc.adoc"), &[])?;
    assert_eq!(source_line(&result, "line one"), Some(1));
    assert_eq!(source_line(&result, "line two"), Some(3));
    assert_eq!(source_line(&result, "second para"), Some(5));
    Ok(())
}

#[test]
fn stripped_conditional_remaps_following_lines_to_source() -> Result<(), ConditionalError> {
    let input = "one\nifdef::cond[]\nhidden\nendif::[]\ntwo\n";
    let result = run(input, Some("doc.adoc"), &[])?;
    assert_eq!(source_line(&result, "one"), Some(1));
    assert_eq!(source_line(&result, "two"), Some(5));
    Ok(())
}

#[test]
fn active_conditional_remaps_body_and_following_lines_to_source() -> Result<(), ConditionalError> {
    let input = ":cond:\nifdef::cond[]\ninside\nendif::[]\nafter\n";
    let result = run(input, Some("doc.adoc"), &[])?;
    assert_eq!(source_line(&result, "inside"), Some(3));
    assert_eq!(source_line(&result, "after"), Some(5));
    Ok(())
}

#[test]
fn collapsed_attribute_continuation_remaps_following_lines_to_source() -> Result<(), ConditionalError> {
    let input = ":attr: foo \\\nbar\n\nbaz\n";
    let result = run(input, Some("doc.adoc"), &[])?;
    assert_eq!(source_line(&result, "baz"), Some(4));
    Ok(())
}

#[test]
fn no_path_input_records_ranges_with_none_file() -> Result<(), ConditionalError> {
    let input = "one\n// c\ntwo\n";
    let result = run(input, None, &[])?;
    assert!(!result.source_ranges.is_empty());
    assert!(result.source_ranges.iter().all(|r| r.file.is_none()));
    assert_eq!(source_line(&result, "two"), Some(3));
    Ok(())
}

#[test]
fn test_line_comment_in_list_continuation_is_preserved() -> Result<(), ConditionalError> {
    let input = "* item
+
// a comment
+
more";
    assert_eq!(process(input, &[])?, "* item\n+\n// a comment\n+\nmore");
    Ok(())
}

#[test]
fn test_line_comment_after_title_is_preserved() -> Result<(), ConditionalError> {
    let input = "= The Title
// a comment
Roberto Avanzi";
    assert_eq!(process(input, &[])?, "= The Title\n// a comment\nRoberto Avanzi");
    Ok(())
}

#[test]
fn test_line_comment_in_verbatim_block_is_preserved() -> Result<(), ConditionalError> {
    let input = "----
code line
// not a comment here
----";
    assert_eq!(process(input, &[])?, "----\ncode line\n// not a comment here\n----");
    Ok(())
}

#[test]
fn test_line_comment_after_equals_run_dropped_without_setext() -> Result<(), ConditionalError> {
    let input = "Title
=====
// a comment
body";
    assert_eq!(process(input, &[])?, "Title\n=====\nbody");
    Ok(())
}

#[test]
fn test_good_endif_directive() -> Result<(), ConditionalError> {
    let input = ":asdf:

ifdef::asdf[]
content
endif::asdf[]";
    assert_eq!(process(input, &[])?, ":asdf:\n\ncontent");
    Ok(())
}

#[test]
fn test_bad_endif_directive() {
    let input = "ifdef::asdf[]
content
endif::another[]";
    assert!(matches!(
        process(input, &[]),
        Err(ConditionalError::InvalidConditionalDirective(..))
    ));
}

#[test]
fn multi_attribute_endif_must_match_complete_condition() {
    let input = "ifdef::backend-pdf,backend-docbook5[]
content
endif::backend-pdf[]";
    assert!(matches!(
        process(input, &[]),
        Err(ConditionalError::InvalidConditionalDirective(..))
    ));
}

#[test]
fn escaped_directives_lose_their_backslash_and_inline_conditionals_emit_content() -> Result<(), ConditionalError> {
    let input = "\\include::other.adoc[]\nifdef::on[inline text]\nifndef::on[not shown]";
    assert_eq!(process(input, &["on"])?, "include::other.adoc[]\ninline text");
    Ok(())
}

#[test]
fn unset_entries_remove_attributes_for_later_conditions() -> Result<(), ConditionalError> {
    let input = ":!on:\nifndef::on[]\noff now\nendif::[]";
    assert_eq!(process(input, &["on"])?, ":!on:\noff now");
    Ok(())
}

#[test]
fn includes_and_evaluations_are_handed_out() {
    let input = "before\ninclude::chapter.adoc[]\nifeval::[1 < 2]\nshown\nendif::[]\nafter";
    let Some(Start::Run(mut expansion)) = start(input, None, DocumentAttributes::new(), false) else {
        panic!("expected a run");
    };
    let mut seen = Vec::new();
    loop {
        match expansion.step() {
            Step::Continue => {}
            Step::Include { line, line_number, .. } => {
                seen.push(format!("include {line} at {line_number}"));
                expansion.include_done(None);
            }
            Step::Evaluate { left, right, .. } => {
                seen.push(format!("eval {left} {right}"));
                expansion.eval_done(true);
            }
            Step::Done => break,
            Step::Failed(e) => panic!("unexpected {e:?}"),
        }
    }
    assert_eq!(
        seen,
        vec!["include include::chapter.adoc[] at 2".to_string(), "eval 1 2".to_string()]
    );
    assert_eq!(expansion.finish().text, "before\nshown\nafter");
}

#[test]
fn normalizing_trims_line_ends_only_when_needed() {
    assert_eq!(normalize_input("a\nb\n"), "a\nb");
    assert_eq!(normalize_input("a \r\nb\t\r\n"), "a\nb");
    assert_eq!(normalize_input("a\u{3000}\nb"), "a\u{3000}\nb");
}

#[test]
fn plain_documents_pass_through() {
    assert!(matches!(
        start("just text\nmore", None, DocumentAttributes::new(), false),
        Some(Start::PassThrough(t)) if t == "just text\nmore"
    ));
}

#[test]
fn normalize_fast_path_agrees_with_the_rebuild() {
    for input in ["", "\n", "a", "a\n", "a\r\n", "a\nb\n\n", "a \nb", "a\r\nb\r\n", "x\n\ny"] {
        assert_eq!(normalize_input(input), normalize(input), "{input:?}");
    }
    assert_eq!(normalize_input("a\u{3000}"), "a\u{3000}");
    assert_eq!(normalize("a\u{3000}"), "a");
}

#[test]
fn a_run_over_a_passing_text_gives_the_text_back() {
    let text = "= Title\n\n// a comment\nparagraph\n----\n// kept\n----";
    let Some(Start::PassThrough(passed)) = start(text, None, attributes(&[]), false) else {
        panic!("expected the text to pass through");
    };
    assert_eq!(passed, text);
    let lines = text.split('\n').map(str::to_string).collect();
    let mut expansion = Expansion::new(lines, None, attributes(&[]), false);
    loop {
        match expansion.step() {
            Step::Continue => {}
            Step::Done => break,
            other => panic!("unexpected step {other:?}"),
        }
    }
    assert_eq!(expansion.finish().text, passed);
}

#[test]
fn a_mismatched_endif_is_warned_of_at_its_line() {
    let Some(Start::Run(mut expansion)) =
        start("ifdef::a[]\nx\nendif::b[]", Some("doc.adoc".to_string()), attributes(&["a"]), false)
    else {
        panic!("expected a run");
    };
    let failed = loop {
        match expansion.step() {
            Step::Continue => {}
            Step::Failed(e) => break e,
            other => panic!("unexpected step {other:?}"),
        }
    };
    let ConditionalError::InvalidConditionalDirective(location) = failed;
    assert_eq!(location.location.start.line, 3);
    assert_eq!(location.location.start.column, 0);
    let warnings = expansion.warnings();
    assert_eq!(warnings.len(), 1);
    assert_eq!(warnings[0].message, "attribute mismatch between if and endif directives");
    assert_eq!(warnings[0].location.file.as_deref(), Some("doc.adoc"));
    assert_eq!(warnings[0].location.location.start.line, 3);
}

#[test]
fn test_line_comment_after_setext_underline_is_preserved() -> Result<(), ConditionalError> {
    let input = "Title
=====
// a comment
body";
    let result = run_with_setext(input, None, &[], true)?;
    assert_eq!(result.text, "Title\n=====\n// a comment\nbody");
    Ok(())
}
