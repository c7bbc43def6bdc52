use acdc_parser::tag::{extract_tag_directive, is_tag_directive_line, select_tagged_lines, Filter, Issue};

const MIXED_SELECTOR_LINES: &[&str] = &[
    "Untagged before.",
    "// tag::beta[]",
    "Beta.",
    "// end::beta[]",
    "// tag::alpha[]",
    "Alpha.",
    "// end::alpha[]",
    "// tag::other[]",
    "Other.",
    "// end::other[]",
    "Untagged after.",
];

fn strings(lines: &[&str]) -> Vec<String> {
    lines.iter().map(ToString::to_string).collect()
}

fn filters(values: &[&str]) -> Vec<Filter> {
    values
        .iter()
        .filter_map(|value| Filter::parse(value))
        .collect()
}

fn select(lines: &[&str], values: &[&str]) -> (Vec<usize>, Vec<Issue>) {
    let lines = strings(lines);
    select_tagged_lines(&lines, &filters(values))
}

#[test]
fn parses_selected_and_excluded_filters() {
    assert_eq!(
        Filter::parse("intro"),
        Some(Filter {
            name: "intro".to_string(),
            selected: true,
        })
    );
    assert_eq!(
        Filter::parse(" !debug "),
        Some(Filter {
            name: "debug".to_string(),
            selected: false,
        })
    );
    assert_eq!(
        Filter::parse("**"),
        Some(Filter {
            name: "**".to_string(),
            selected: true,
        })
    );
    assert_eq!(Filter::parse("!"), None);
    assert_eq!(Filter::parse("  "), None);
}

#[test]
fn extracts_valid_tag_markers() {
    assert_eq!(
        extract_tag_directive("// tag::intro[]"),
        Some(("tag", "intro"))
    );
    assert_eq!(
        extract_tag_directive("# end::my-tag[]"),
        Some(("end", "my-tag"))
    );
    assert_eq!(
        extract_tag_directive("tag::at-start[]"),
        Some(("tag", "at-start"))
    );
    assert_eq!(extract_tag_directive("notatag::intro[]"), None);
    assert_eq!(extract_tag_directive("// tag::has space[]"), None);
    assert_eq!(extract_tag_directive("// tag::[]"), None);
}

#[test]
fn selects_one_requested_tag() {
    let (selected, issues) = select(
        &[
            "Before.",
            "// tag::intro[]",
            "Selected one.",
            "Selected two.",
            "// end::intro[]",
            "After.",
        ],
        &["intro"],
    );
    assert_eq!(selected, [2, 3]);
    assert!(issues.is_empty());
}

#[test]
fn selects_multiple_requested_tags() {
    let (selected, issues) = select(
        &[
            "// tag::intro[]",
            "Introduction.",
            "// end::intro[]",
            "// tag::main[]",
            "Main.",
            "// end::main[]",
        ],
        &["intro", "main"],
    );
    assert_eq!(selected, [1, 4]);
    assert!(issues.is_empty());
}

#[test]
fn wildcard_selects_tagged_content_except_exclusions() {
    let (selected, issues) = select(
        &[
            "Untagged.",
            "// tag::intro[]",
            "Introduction.",
            "// end::intro[]",
            "// tag::debug[]",
            "Debug.",
            "// end::debug[]",
        ],
        &["*", "!debug"],
    );
    assert_eq!(selected, [2]);
    assert!(issues.is_empty());
}

#[test]
fn double_wildcard_selects_every_non_marker_line() {
    let (selected, issues) = select(
        &[
            "Before.",
            "// tag::intro[]",
            "Introduction.",
            "// end::intro[]",
            "After.",
        ],
        &["**"],
    );
    assert_eq!(selected, [0, 2, 4]);
    assert!(issues.is_empty());
}

#[test]
fn excluded_wildcard_selects_only_untagged_content() {
    let (selected, issues) = select(
        &[
            "Before.",
            "// tag::intro[]",
            "Introduction.",
            "// end::intro[]",
            "After.",
        ],
        &["!*"],
    );
    assert_eq!(selected, [0, 4]);
    assert!(issues.is_empty());
}

#[test]
fn negated_double_wildcard_uses_first_remaining_selector_order() {
    let (selected, issues) = select(MIXED_SELECTOR_LINES, &["!**", "beta", "!alpha"]);
    assert_eq!(selected, [2]);
    assert!(issues.is_empty());

    let (selected, issues) = select(MIXED_SELECTOR_LINES, &["!**", "!alpha", "beta"]);
    assert_eq!(selected, [2, 8]);
    assert!(issues.is_empty());
}

#[test]
fn negated_double_wildcard_uses_final_value_at_first_insertion_position() {
    let (selected, issues) = select(MIXED_SELECTOR_LINES, &["!**", "!beta", "!alpha", "beta"]);
    assert_eq!(selected, [2]);
    assert!(issues.is_empty());

    let (selected, issues) = select(MIXED_SELECTOR_LINES, &["!**", "!alpha", "!beta", "beta"]);
    assert_eq!(selected, [2, 8]);
    assert!(issues.is_empty());
}

#[test]
fn explicit_wildcard_overrides_negated_double_wildcard_inference() {
    let (selected, issues) = select(MIXED_SELECTOR_LINES, &["!**", "beta", "!alpha", "*"]);
    assert_eq!(selected, [2, 8]);
    assert!(issues.is_empty());

    let (selected, issues) = select(MIXED_SELECTOR_LINES, &["!**", "!alpha", "beta", "!*"]);
    assert_eq!(selected, [2]);
    assert!(issues.is_empty());
}

#[test]
fn requested_outer_tag_keeps_unrequested_nested_content() {
    let (selected, issues) = select(
        &[
            "// tag::outer[]",
            "Outer A.",
            "// tag::inner[]",
            "Inner.",
            "// end::inner[]",
            "Outer B.",
            "// end::outer[]",
        ],
        &["outer"],
    );
    assert_eq!(selected, [1, 3, 5]);
    assert!(issues.is_empty());
}

#[test]
fn nested_duplicate_names_use_a_stack() {
    let (selected, issues) = select(
        &[
            "// tag::same[]",
            "Outer A.",
            "// tag::same[]",
            "Inner.",
            "// end::same[]",
            "Outer B.",
            "// end::same[]",
        ],
        &["same"],
    );
    assert_eq!(selected, [1, 3, 5]);
    assert!(issues.is_empty());
}

#[test]
fn mismatched_end_removes_matching_frame_and_keeps_active_tag() {
    let (selected, issues) = select(
        &[
            "// tag::outer[]",
            "Outer.",
            "// tag::inner[]",
            "Inner.",
            "// end::outer[]",
            "Still inner.",
            "// end::inner[]",
        ],
        &["outer", "inner"],
    );
    assert_eq!(selected, [1, 3, 5]);
    assert_eq!(
        issues,
        [Issue::MismatchedEnd {
            expected: "inner".to_string(),
            found: "outer".to_string(),
            line: 5,
        }]
    );
}

#[test]
fn unexpected_end_is_reported() {
    let (selected, issues) = select(
        &[
            "// tag::wanted[]",
            "Selected.",
            "// end::wanted[]",
            "// end::wanted[]",
        ],
        &["wanted"],
    );
    assert_eq!(selected, [1]);
    assert_eq!(
        issues,
        [Issue::UnexpectedEnd {
            name: "wanted".to_string(),
            line: 4,
        }]
    );
}

#[test]
fn unclosed_selected_tag_continues_through_end_of_file() {
    let (selected, issues) = select(&["// tag::wanted[]", "Selected."], &["wanted"]);
    assert_eq!(selected, [1]);
    assert_eq!(
        issues,
        [Issue::Unclosed {
            name: "wanted".to_string(),
            line: 1,
        }]
    );
}

#[test]
fn missing_tags_preserve_requested_order_and_deduplicate() {
    let (selected, issues) = select(&["Plain."], &["alpha", "beta", "alpha"]);
    assert!(selected.is_empty());
    assert_eq!(
        issues,
        [Issue::Missing {
            names: vec!["alpha".to_string(), "beta".to_string()],
        }]
    );
}

#[test]
fn duplicate_filter_values_are_last_wins() {
    let (selected, issues) = select(
        &[
            "// tag::wanted[]",
            "Selected.",
            "// end::wanted[]",
            "Plain.",
        ],
        &["wanted", "!wanted"],
    );
    assert_eq!(selected, [3]);
    assert!(issues.is_empty());
}

// Own tests.

#[test]
fn no_filters_select_every_non_marker_line() {
    let (selected, issues) = select(&["a", "// tag::x[]", "b", "// end::x[]"], &[]);
    assert_eq!(selected, [0, 2]);
    assert!(issues.is_empty());
}

#[test]
fn marker_after_word_character_is_not_a_marker() {
    assert!(!is_tag_directive_line("xtag::a[]"));
    assert!(is_tag_directive_line("_ end::a[]"));
    assert!(!is_tag_directive_line("a_tag::a[]"));
    assert_eq!(extract_tag_directive("// tag::a]b[]"), None);
    assert_eq!(extract_tag_directive("éend::x[]"), None);
}
