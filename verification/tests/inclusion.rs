use acdc_parser::attributes::{AttributeValue, DocumentAttributes};
use acdc_parser::directive::{
    link_fallback_line, parse_directive, unresolved_directive_line, ContentSelection, Include,
    IncludeKey, MAX_INCLUDE_INDENT,
};
use acdc_parser::expansion::IncludeResult;
use acdc_parser::inclusion::{
    collect_line_range_indices, include_uri_scheme, line_number_warnings, line_start_offsets,
    resolve_end_line,
    uri_directory, IncludeError, LinesRange, SourceOrigin, Target,
};
use acdc_parser::location::Position;
use acdc_parser::media::{Source, SourceUrl};
use acdc_parser::tag::{Filter, Issue};

fn parse_include(line: &str) -> Result<Include, IncludeError> {
    let origin = SourceOrigin::File("/tmp/source.adoc".to_string());
    Include::parse(&origin, line, 1, None, &DocumentAttributes::new())
}

fn tag_selection(values: &[&str]) -> ContentSelection {
    ContentSelection::Tags(values.iter().filter_map(|value| Filter::parse(value)).collect())
}

#[test]
fn include_uri_scheme_uses_portable_syntax_and_windows_carveout() {
    for (target, expected) in [
        ("ftp://example.test/part.adoc", "ftp"),
        ("data:text/plain,x", "data"),
        ("git+ssh://example.test/path", "git+ssh"),
        ("ab:/path", "ab"),
        ("HTTP://example.test/path", "HTTP"),
    ] {
        assert_eq!(include_uri_scheme(target), Some(expected), "{target}");
    }

    for target in [
        "a:/path",
        "c:/sample.adoc",
        r"c:\sample.adoc",
        "foo_bar:/path",
        "1abc:/path",
        "éx:valeur",
        "ab٣:valeur",
        "ab¾:valeur",
        "ab①:valeur",
    ] {
        assert_eq!(include_uri_scheme(target), None, "{target}");
    }

    let source_origin = SourceOrigin::File("source.adoc".to_string());
    assert!(matches!(
        Target::parse("HTTP://example.test/path", &source_origin),
        Ok(Target::Url(url)) if url == "HTTP://example.test/path"
    ));
}

#[test]
fn test_parse_simple_include() -> Result<(), IncludeError> {
    let inc = parse_include("include::target.adoc[]")?;
    assert!(matches!(
        inc.target,
        Target::Path(ref path) if path == "target.adoc"
    ));
    Ok(())
}

#[test]
fn test_parse_include_with_attributes() -> Result<(), IncludeError> {
    let inc = parse_include("include::target.adoc[leveloffset=+1,lines=1..5,tag=example]")?;
    assert_eq!(inc.level_offset, Some(1));
    assert_eq!(
        inc.selection,
        ContentSelection::Lines(vec![LinesRange::Range(1, 5)])
    );
    Ok(())
}

#[test]
fn test_parse_include_with_url() -> Result<(), IncludeError> {
    let inc = parse_include("include::https://example.com/doc.adoc[]")?;
    assert!(matches!(
        inc.target,
        Target::Url(url) if url.as_str() == "https://example.com/doc.adoc"
    ));
    Ok(())
}

#[test]
fn test_parse_quoted_attributes() -> Result<(), IncludeError> {
    let inc = parse_include(r#"include::target.adoc[tag="example code",encoding="utf-8"]"#)?;
    assert_eq!(inc.selection, tag_selection(&["example code"]));
    assert_eq!(inc.encoding, Some("utf-8".to_string()));
    Ok(())
}

#[test]
fn test_parse_include_with_tags_attribute() -> Result<(), IncludeError> {
    let inc = parse_include("include::target.adoc[tags=intro;main;conclusion]")?;
    assert_eq!(
        inc.selection,
        tag_selection(&["intro", "main", "conclusion"])
    );
    Ok(())
}

#[test]
fn test_parse_include_with_negated_tag() -> Result<(), IncludeError> {
    let inc = parse_include("include::target.adoc[tags=*;!debug]")?;
    assert_eq!(inc.selection, tag_selection(&["*", "!debug"]));
    Ok(())
}

#[test]
fn test_parse_include_with_wildcard() -> Result<(), IncludeError> {
    let inc = parse_include("include::target.adoc[tags=**]")?;
    assert_eq!(inc.selection, tag_selection(&["**"]));
    Ok(())
}

#[test]
fn content_selection_precedence_is_lines_then_tag_then_tags() -> Result<(), IncludeError> {
    for line in [
        "include::target.adoc[tag=first,tags=second]",
        "include::target.adoc[tags=second,tag=first]",
    ] {
        assert_eq!(parse_include(line)?.selection, tag_selection(&["first"]));
    }
    for line in [
        "include::target.adoc[tag=first,lines=5]",
        "include::target.adoc[lines=5,tag=first]",
    ] {
        assert_eq!(
            parse_include(line)?.selection,
            ContentSelection::Lines(vec![LinesRange::Single(5)])
        );
    }
    Ok(())
}

#[test]
fn duplicate_selection_attributes_are_last_wins() -> Result<(), IncludeError> {
    assert_eq!(
        parse_include("include::target.adoc[tag=first,tag=second]")?.selection,
        tag_selection(&["second"])
    );
    assert_eq!(
        parse_include("include::target.adoc[lines=2,lines=5]")?.selection,
        ContentSelection::Lines(vec![LinesRange::Single(5)])
    );
    Ok(())
}

#[test]
fn test_parse_include_with_indent() -> Result<(), IncludeError> {
    let inc = parse_include("include::target.adoc[indent=4]")?;
    assert_eq!(inc.indent, Some(4));
    Ok(())
}

#[test]
fn include_indent_is_bounded_before_allocation() -> Result<(), Box<dyn std::error::Error>> {
    let at_limit = format!("include::target.adoc[indent={MAX_INCLUDE_INDENT}]");
    let inc = match parse_include(&at_limit) {
        Ok(inc) => inc,
        Err(error) => return Err(format!("{error:?}").into()),
    };
    assert_eq!(inc.indent, Some(MAX_INCLUDE_INDENT));

    for over_limit in [MAX_INCLUDE_INDENT + 1, usize::MAX] {
        let directive = format!("include::target.adoc[indent={over_limit}]");
        let Err(error) = parse_include(&directive) else {
            return Err("expected an excessive indent to be rejected".into());
        };
        let IncludeError::IncludeIndentTooLarge(location, indent, limit) = error else {
            return Err(format!("expected an indent limit error, got {error:?}").into());
        };
        assert_eq!(indent, over_limit);
        assert_eq!(limit, MAX_INCLUDE_INDENT);
        assert_eq!(location.location.start, Position::new(1, 1));
    }
    Ok(())
}

#[test]
fn test_apply_indent_basic() {
    let lines = vec![
        "def hello".to_string(),
        "  puts \"Hello\"".to_string(),
        "end".to_string(),
    ];
    let (result, column_shift) = Include::apply_indent(&lines, 4);
    assert_eq!(
        result,
        vec!["    def hello", "      puts \"Hello\"", "    end",]
    );
    assert_eq!(column_shift, 4);
}

#[test]
fn test_apply_indent_zero() {
    let lines = vec![
        "  def hello".to_string(),
        "    puts \"Hello\"".to_string(),
        "  end".to_string(),
    ];
    let (result, column_shift) = Include::apply_indent(&lines, 0);
    assert_eq!(result, vec!["def hello", "  puts \"Hello\"", "end",]);
    assert_eq!(column_shift, -2);
}

#[test]
fn test_apply_indent_empty_lines() {
    let lines = vec![
        "def hello".to_string(),
        String::new(),
        "  puts \"Hello\"".to_string(),
        "   ".to_string(),
        "end".to_string(),
    ];
    let (result, column_shift) = Include::apply_indent(&lines, 2);
    assert_eq!(
        result,
        vec!["  def hello", "", "    puts \"Hello\"", "", "  end",]
    );
    assert_eq!(column_shift, 2);
}

#[test]
fn test_apply_indent_mixed_whitespace() {
    let lines = vec![
        "\tdef hello".to_string(),
        "\t\tputs \"Hello\"".to_string(),
        "\tend".to_string(),
    ];
    let (result, column_shift) = Include::apply_indent(&lines, 2);
    assert_eq!(result, vec!["  def hello", "  \tputs \"Hello\"", "  end",]);
    assert_eq!(column_shift, 1);
}

#[test]
fn directive_grammar_reads_keys_and_values() {
    let (target, pairs) =
        parse_directive(r#"include::a b.adoc[opts="x,y",encoding=latin1]"#).expect("directive");
    assert_eq!(target, "a b.adoc");
    assert_eq!(
        pairs,
        vec![
            (IncludeKey::Opts, "x,y".to_string()),
            (IncludeKey::Encoding, "latin1".to_string()),
        ]
    );
    // An unterminated quote is read as a plain value, quote included.
    let (_, pairs) = parse_directive(r#"include::t[tag="open]"#).expect("directive");
    assert_eq!(pairs, vec![(IncludeKey::Tag, "\"open".to_string())]);
}

#[test]
fn directive_grammar_refuses_malformed_lines() {
    for line in [
        "include::[]",
        "include:: target.adoc[]",
        "include::target.adoc []",
        "include::target.adoc",
        "include::target.adoc[]x",
        "include::target.adoc[unknown=1]",
        "include::target.adoc[tag=a,]",
        "include::target.adoc[tag=a",
        "includes::target.adoc[]",
    ] {
        assert!(parse_directive(line).is_none(), "{line}");
        assert!(
            matches!(parse_include(line), Err(IncludeError::Parse(_))),
            "{line}"
        );
    }
}

#[test]
fn attribute_errors_report_the_value() {
    match parse_include("include::t.adoc[leveloffset=x]") {
        Err(IncludeError::InvalidLevelOffset(_, value)) => assert_eq!(value, "x"),
        other => panic!("unexpected {other:?}"),
    }
    match parse_include("include::t.adoc[indent=-1]") {
        Err(IncludeError::InvalidIndent(_, value)) => assert_eq!(value, "-1"),
        other => panic!("unexpected {other:?}"),
    }
    match parse_include("include::t.adoc[lines=1..2;x]") {
        Err(IncludeError::InvalidLineRange(_, value)) => assert_eq!(value, "x"),
        other => panic!("unexpected {other:?}"),
    }
    // The first refused value is reported.
    match parse_include("include::t.adoc[indent=z,leveloffset=y]") {
        Err(IncludeError::InvalidIndent(_, value)) => assert_eq!(value, "z"),
        other => panic!("unexpected {other:?}"),
    }
}

#[test]
fn opts_accumulate_and_empty_tags_select_everything() -> Result<(), IncludeError> {
    let inc = parse_include(r#"include::t.adoc[opts=optional,opts="a,b"]"#)?;
    assert_eq!(
        inc.opts,
        vec!["optional".to_string(), "a".to_string(), "b".to_string()]
    );
    // An unquoted value ends at the next comma, and what follows is no pair.
    assert!(matches!(
        parse_include("include::t.adoc[opts=a,b]"),
        Err(IncludeError::Parse(_))
    ));
    let inc = parse_include("include::t.adoc[tags=;]")?;
    assert_eq!(inc.selection, ContentSelection::All);
    let inc = parse_include("include::t.adoc[tag=!]")?;
    assert_eq!(inc.selection, ContentSelection::All);
    Ok(())
}

#[test]
fn target_attribute_references_are_expanded() -> Result<(), IncludeError> {
    let mut attributes = DocumentAttributes::new();
    attributes.insert("dir".to_string(), AttributeValue::String("chapters".to_string()));
    let origin = SourceOrigin::File("/tmp/source.adoc".to_string());
    let inc = Include::parse(&origin, "include::{dir}/one.adoc[]", 3, Some("doc.adoc"), &attributes)?;
    assert_eq!(inc.target_as_written, "chapters/one.adoc");
    assert_eq!(inc.target, Target::Path("chapters/one.adoc".to_string()));
    assert_eq!(inc.line_number, 3);
    assert_eq!(inc.file.as_deref(), Some("doc.adoc"));
    Ok(())
}

#[test]
fn nested_targets_of_uri_documents_resolve_against_the_directory() -> Result<(), IncludeError> {
    let origin = SourceOrigin::Uri("https://example.com/docs/main.adoc?x=1".to_string());
    let inc = Include::parse(&origin, "include::part.adoc[]", 1, None, &DocumentAttributes::new())?;
    assert_eq!(
        inc.target,
        Target::Url("https://example.com/docs/part.adoc".to_string())
    );
    assert_eq!(uri_directory("https://example.com/a/b.adoc#frag"), "https://example.com/a");
    let origin = SourceOrigin::File("x.adoc".to_string());
    assert!(matches!(
        Include::parse(&origin, "include::ftp://host/x.adoc[]", 1, None, &DocumentAttributes::new())?.target,
        Target::UnsupportedUri(_)
    ));
    assert!(matches!(
        Include::parse(&origin, "include::http://[bad[]", 1, None, &DocumentAttributes::new()),
        Err(IncludeError::Parse(_))
    ));
    assert!(matches!(
        Include::parse(&origin, "include::http://exa mple.com/x[]", 1, None, &DocumentAttributes::new()),
        Err(IncludeError::Url(_))
    ));
    Ok(())
}

#[test]
fn line_range_helpers() {
    assert_eq!(resolve_end_line(-1, 4), Some(3));
    assert_eq!(resolve_end_line(2, 4), Some(1));
    assert_eq!(resolve_end_line(0, 4), None);
    assert_eq!(
        collect_line_range_indices(&[LinesRange::Range(2, 3), LinesRange::Single(1)], 5),
        vec![0, 1, 2]
    );
    assert_eq!(
        line_start_offsets(&["ab".to_string(), "é".to_string(), String::new()]),
        vec![0, 3, 6]
    );
}

#[test]
fn media_sources_are_classified_by_their_text() {
    match Source::from_str_borrowed("https://example.com/images/logo.png") {
        Ok(source @ Source::Url(_)) => {
            assert_eq!(source.to_string(), "https://example.com/images/logo.png");
            assert_eq!(source.get_filename(), Some("logo.png".to_string()));
        }
        other => panic!("unexpected {other:?}"),
    }
    match Source::from_str_borrowed("http://example.com") {
        Ok(source) => {
            // Shown as written, not as normalised by the URL parser.
            assert_eq!(source.to_string(), "http://example.com");
            assert_eq!(source.get_filename(), None);
        }
        Err(e) => panic!("unexpected {e:?}"),
    }
    assert!(Source::from_str_borrowed("http://exa mple.com").is_err());
    match Source::from_str_borrowed("images/photo.png") {
        Ok(source @ Source::Path(_)) => {
            assert_eq!(source.get_filename(), Some("photo.png".to_string()));
        }
        other => panic!("unexpected {other:?}"),
    }
    match Source::from_str_borrowed("heart") {
        Ok(source @ Source::Name(_)) => {
            assert_eq!(source.get_filename(), Some("heart".to_string()));
        }
        other => panic!("unexpected {other:?}"),
    }
    let url = SourceUrl::new("mailto:me@example.com").expect("a URL");
    assert_eq!(url.to_string(), "mailto:me@example.com");
    assert_eq!(url.url().scheme(), "mailto");
}

fn owned_lines(lines: &[&str]) -> Vec<String> {
    lines.iter().map(|line| line.to_string()).collect()
}

#[test]
fn select_content_lines_keeps_everything_without_a_selector() {
    let inc = parse_include("include::a.adoc[]").unwrap();
    let (indices, issues) = inc.select_content_lines(&owned_lines(&["a", "b", "c"]));
    assert_eq!(indices, vec![0, 1, 2]);
    assert!(issues.is_empty());
}

#[test]
fn select_content_lines_follows_line_ranges() {
    let inc = parse_include("include::a.adoc[lines=2..3]").unwrap();
    let (indices, issues) = inc.select_content_lines(&owned_lines(&["a", "b", "c", "d"]));
    assert_eq!(indices, vec![1, 2]);
    assert!(issues.is_empty());
}

#[test]
fn select_content_lines_follows_tags_and_reports_missing_ones() {
    let lines = owned_lines(&["a", "// tag::x[]", "b", "// end::x[]", "c"]);
    let inc = parse_include("include::a.adoc[tag=x]").unwrap();
    let (indices, issues) = inc.select_content_lines(&lines);
    assert_eq!(indices, vec![2]);
    assert!(issues.is_empty());

    let inc = parse_include("include::a.adoc[tags=x;y]").unwrap();
    let (indices, issues) = inc.select_content_lines(&lines);
    assert_eq!(indices, vec![2]);
    assert_eq!(issues, vec![Issue::Missing { names: vec!["y".to_string()] }]);
}

#[test]
fn report_tag_issue_spells_each_warning() {
    let inc = parse_include("include::a.adoc[]").unwrap();
    let source = "/tmp/a.adoc";
    assert_eq!(
        inc.report_tag_issue(&Issue::UnexpectedEnd { name: "x".to_string(), line: 3 }, source),
        "unexpected end tag 'x' at line 3 of include file: /tmp/a.adoc"
    );
    assert_eq!(
        inc.report_tag_issue(
            &Issue::MismatchedEnd { expected: "a".to_string(), found: "b".to_string(), line: 12 },
            source
        ),
        "mismatched end tag (expected 'a' but found 'b') at line 12 of include file: /tmp/a.adoc"
    );
    assert_eq!(
        inc.report_tag_issue(&Issue::Unclosed { name: "x".to_string(), line: 1 }, source),
        "detected unclosed tag 'x' starting at line 1 of include file: /tmp/a.adoc"
    );
    assert_eq!(
        inc.report_tag_issue(&Issue::Missing { names: vec!["x".to_string()] }, source),
        "tag 'x' not found in include file: /tmp/a.adoc"
    );
    let remote = parse_include("include::https://example.org/a.adoc[]").unwrap();
    assert_eq!(
        remote.report_tag_issue(
            &Issue::Missing { names: vec!["x".to_string(), "y".to_string()] },
            "https://example.org/a.adoc"
        ),
        "tags 'x, y' not found in include uri: https://example.org/a.adoc"
    );
}

#[test]
fn effective_leveloffset_adds_the_document_offset() {
    let inc = parse_include("include::a.adoc[leveloffset=+1]").unwrap();
    assert_eq!(inc.calculate_effective_leveloffset(Some("2")), Some(3));
    assert_eq!(inc.calculate_effective_leveloffset(Some("-1")), Some(0));
    assert_eq!(inc.calculate_effective_leveloffset(Some("two")), Some(1));
    assert_eq!(inc.calculate_effective_leveloffset(None), Some(1));
    let plain = parse_include("include::a.adoc[]").unwrap();
    assert_eq!(plain.calculate_effective_leveloffset(Some("2")), None);
}

#[test]
fn fallback_lines_stand_for_unread_includes() {
    assert_eq!(link_fallback_line("a.adoc", false), "link:a.adoc[role=include]");
    assert_eq!(link_fallback_line("a.adoc", true), "link:a.adoc[]");
    assert_eq!(
        link_fallback_line("http://x.test/a b.adoc", false),
        "link:pass:c[http://x.test/a b.adoc][role=include]"
    );
    assert_eq!(
        unresolved_directive_line("doc.adoc", "a.adoc", "lines=1"),
        "Unresolved directive in doc.adoc - include::a.adoc[lines=1]"
    );
    let result = IncludeResult::link_fallback("a.adoc", false);
    assert_eq!(result.lines, vec!["link:a.adoc[role=include]".to_string()]);
    assert!(result.file.is_none());
    assert!(result.source_lines.is_empty());
}

#[test]
fn line_zero_is_reported_once_per_range() {
    let ranges = [
        LinesRange::Single(0),
        LinesRange::Single(2),
        LinesRange::Range(0, 3),
        LinesRange::Range(1, 0),
    ];
    assert_eq!(
        line_number_warnings(&ranges),
        vec!["invalid line number in include directive: 0".to_string(); 2]
    );
    assert_eq!(collect_line_range_indices(&ranges, 4), vec![1]);
}

#[test]
fn path_file_names_are_the_last_component() {
    let name = |text: &str| Source::Path(text.to_string()).get_filename();
    assert_eq!(name("images/a.png"), Some("a.png".to_string()));
    assert_eq!(name("a.png"), Some("a.png".to_string()));
    assert_eq!(name("images/.."), None);
    assert_eq!(name("/"), None);
}

#[test]
fn indent_applies_unless_the_common_indent_cuts_a_character() {
    let lines = |texts: &[&str]| texts.iter().map(|t| t.to_string()).collect::<Vec<_>>();
    assert!(Include::indent_applies(&lines(&["  a", "    b", ""])));
    assert!(Include::indent_applies(&lines(&[])));
    assert!(!Include::indent_applies(&lines(&["\u{3000}a", " b"])));
}

#[test]
fn listed_lines_follow_the_ranges_as_written() {
    use_listed_lines();
}

fn use_listed_lines() {
    let content: Vec<String> = ["a", "b", "c", "d"].iter().map(|s| s.to_string()).collect();
    let ranges = [
        LinesRange::Single(2),
        LinesRange::Range(3, -1),
        LinesRange::Range(0, 2),
        LinesRange::Single(9),
        LinesRange::Range(2, 2),
        LinesRange::Range(2, 0),
        LinesRange::Range(4, 3),
    ];
    assert_eq!(
        acdc_parser::inclusion::select_listed_lines(&content, &ranges),
        vec!["b", "c", "d", "b"]
    );
}
