use acdc_parser::inclusion::Target;
use acdc_parser::reading::{
    confine_target, include_action, target_is_asciidoc, IncludeAction, JailWarning, PathPart,
    ReadOutcome,
};
use acdc_parser::safe_mode::SafeMode;

fn names(parts: &[&str]) -> Vec<String> {
    parts.iter().map(|part| part.to_string()).collect()
}

fn parts(text: &str) -> Vec<PathPart> {
    text.split('/')
        .filter(|part| !part.is_empty())
        .map(|part| match part {
            ".." => PathPart::Parent,
            "." => PathPart::Current,
            other => PathPart::Normal(other.to_string()),
        })
        .collect()
}

fn shown(parts: &[PathPart]) -> String {
    parts
        .iter()
        .map(|part| match part {
            PathPart::Parent => "..".to_string(),
            PathPart::Current => ".".to_string(),
            PathPart::Normal(name) => name.clone(),
        })
        .collect::<Vec<_>>()
        .join("/")
}

#[test]
fn include_actions_follow_mode_permission_and_file_state() {
    let path = Target::Path("a.adoc".to_string());
    let url = Target::Url("https://example.org/a.adoc".to_string());
    let other = Target::UnsupportedUri("ftp://example.org/a.adoc".to_string());
    assert_eq!(include_action(SafeMode::Secure, true, &path, false, true, ReadOutcome::Read), IncludeAction::LinkFallback);
    assert_eq!(include_action(SafeMode::Safe, false, &path, false, true, ReadOutcome::Read), IncludeAction::Read);
    assert_eq!(include_action(SafeMode::Safe, false, &path, true, false, ReadOutcome::ReadFailed), IncludeAction::Drop);
    assert_eq!(include_action(SafeMode::Safe, false, &path, false, false, ReadOutcome::ReadFailed), IncludeAction::NotFound);
    assert_eq!(include_action(SafeMode::Safe, false, &path, false, true, ReadOutcome::ReadFailed), IncludeAction::NotReadable);
    assert_eq!(include_action(SafeMode::Safe, false, &path, true, true, ReadOutcome::ReadFailed), IncludeAction::Fail);
    assert_eq!(include_action(SafeMode::Unsafe, false, &url, false, true, ReadOutcome::Read), IncludeAction::LinkFallback);
    assert_eq!(include_action(SafeMode::Unsafe, true, &url, false, true, ReadOutcome::Read), IncludeAction::Read);
    assert_eq!(include_action(SafeMode::Unsafe, true, &url, false, true, ReadOutcome::ReadFailed), IncludeAction::UriNotReadable);
    assert_eq!(include_action(SafeMode::Unsafe, false, &other, false, true, ReadOutcome::Read), IncludeAction::LinkFallback);
    assert_eq!(include_action(SafeMode::Safe, false, &path, false, true, ReadOutcome::DecodeFailed), IncludeAction::Fail);
    assert_eq!(include_action(SafeMode::Safe, true, &url, false, true, ReadOutcome::DecodeFailed), IncludeAction::Fail);
    assert_eq!(include_action(SafeMode::Unsafe, true, &other, false, true, ReadOutcome::Read), IncludeAction::UriNotReadable);
}

#[test]
fn local_targets_are_kept_inside_the_base_directory() {
    let base = names(&["workspace", "docs"]);
    let parent = names(&["workspace", "docs", "guide"]);

    let (r, w) = confine_target(&parent, &base, &parts("../shared.adoc"), false, SafeMode::Safe);
    assert_eq!(shown(&r), "workspace/docs/shared.adoc");
    assert_eq!(w, None);

    let (r, w) = confine_target(&parent, &base, &parts("../../../x.adoc"), false, SafeMode::Safe);
    assert_eq!(shown(&r), "workspace/docs/x.adoc");
    assert_eq!(w, Some(JailWarning::AncestorOfJail));

    let (r, w) = confine_target(&parent, &base, &parts("/tmp/shared.adoc"), true, SafeMode::Safe);
    assert_eq!(shown(&r), "workspace/docs/tmp/shared.adoc");
    assert_eq!(w, Some(JailWarning::OutsideJail));

    let (r, w) = confine_target(&parent, &base, &parts("/workspace/docs/a.adoc"), true, SafeMode::Server);
    assert_eq!(shown(&r), "workspace/docs/a.adoc");
    assert_eq!(w, None);

    let outside = names(&["elsewhere"]);
    let (r, w) = confine_target(&outside, &base, &parts("./a/../b.adoc"), false, SafeMode::Safe);
    assert_eq!(shown(&r), "workspace/docs/a/b.adoc");
    assert_eq!(w, Some(JailWarning::OutsideJail));

    let (r, w) = confine_target(&parent, &base, &parts("../../x.adoc"), false, SafeMode::Unsafe);
    assert_eq!(shown(&r), "workspace/docs/guide/../../x.adoc");
    assert_eq!(w, None);
    assert_eq!(
        JailWarning::OutsideJail.message(),
        "include file is outside of jail; recovering automatically"
    );
}

#[test]
fn asciidoc_content_is_known_by_its_extension() {
    assert!(target_is_asciidoc(&Target::Path("chapters/a.adoc".to_string())));
    assert!(target_is_asciidoc(&Target::Path("notes.txt".to_string())));
    assert!(!target_is_asciidoc(&Target::Path("code.rs".to_string())));
    assert!(!target_is_asciidoc(&Target::Path(".adoc".to_string())));
    assert!(!target_is_asciidoc(&Target::Path("README".to_string())));
    assert!(target_is_asciidoc(&Target::Url("https://example.org/a/b.asciidoc?x=1".to_string())));
    assert!(!target_is_asciidoc(&Target::Url("https://example.org/a/b.json".to_string())));
    assert!(!target_is_asciidoc(&Target::UnsupportedUri("ftp://example.org/a.adoc".to_string())));
}

fn parsed(line: &str) -> acdc_parser::directive::Include {
    let origin = acdc_parser::inclusion::SourceOrigin::File("/doc/main.adoc".to_string());
    acdc_parser::directive::Include::parse(
        &origin,
        line,
        4,
        None,
        &acdc_parser::attributes::DocumentAttributes::new(),
    )
    .unwrap()
}

#[test]
fn unread_targets_are_stood_in_for() {
    let inc = parsed("include::a.adoc[]");
    let (result, warning) = inc.fallback_result(IncludeAction::NotFound, "/doc/a.adoc", "main.adoc", "", false);
    assert_eq!(warning.as_deref(), Some("include file not found: /doc/a.adoc"));
    assert_eq!(result.unwrap().lines, vec!["Unresolved directive in main.adoc - include::a.adoc[]".to_string()]);
    let (result, warning) = inc.fallback_result(IncludeAction::LinkFallback, "a.adoc", "main.adoc", "", false);
    assert!(warning.is_none());
    assert_eq!(result.unwrap().lines, vec!["link:a.adoc[role=include]".to_string()]);
    let (result, warning) = inc.fallback_result(IncludeAction::Drop, "a.adoc", "main.adoc", "", false);
    assert!(result.is_none() && warning.is_none());
    let (result, warning) = inc.fallback_result(IncludeAction::UriNotReadable, "a.adoc", "main.adoc", "x=1", false);
    assert_eq!(warning.as_deref(), Some("include uri not readable: a.adoc"));
    assert_eq!(result.unwrap().lines, vec!["Unresolved directive in main.adoc - include::\\a.adoc[x=1]".to_string()]);
}

#[test]
fn read_content_is_selected_reindented_and_traced() {
    let inc = parsed("include::a.adoc[lines=0;2..3,indent=1,leveloffset=+1]");
    let prepared = inc.prepare_content("one\n    two\r\n      three\nfour\n", "/doc/a.adoc", Some("1"));
    assert_eq!(prepared.lines, vec![" two".to_string(), "   three".to_string()]);
    assert_eq!(prepared.column_shift, -3);
    assert_eq!(prepared.origins.iter().map(|o| (o.line, o.offset)).collect::<Vec<_>>(), vec![(2, 4), (3, 12)]);
    assert_eq!(prepared.effective_leveloffset, Some(2));
    assert_eq!(prepared.warnings, vec!["invalid line number in include directive: 0".to_string()]);

    let tagged = parsed("include::a.adoc[tag=missing]");
    let prepared = tagged.prepare_content("x\n", "/doc/a.adoc", None);
    assert!(prepared.lines.is_empty());
    assert_eq!(prepared.warnings, vec!["tag 'missing' not found in include file: /doc/a.adoc".to_string()]);
}

#[test]
fn the_attribute_list_is_taken_as_written() {
    use_attribute_list("include::a.adoc[lines=1..2,tag=x]", Some("lines=1..2,tag=x"));
    use_attribute_list("include::a.adoc[]", Some(""));
    use_attribute_list("include::a.adoc", None);
    use_attribute_list("paragraph [x]", None);
}

fn use_attribute_list(line: &str, expected: Option<&str>) {
    assert_eq!(
        acdc_parser::directive::attribute_list_as_written(line).as_deref(),
        expected
    );
}

#[test]
fn a_nested_run_keeps_origins_only_when_it_keeps_the_line_count() {
    let inc = parsed("include::a.adoc[leveloffset=+1]");
    let prepared = inc.prepare_content("one\ntwo\n", "/doc/a.adoc", None);
    let plain = inc.included_result(prepared, "/doc/a.adoc".to_string(), None);
    assert_eq!(plain.lines, vec!["one".to_string(), "two".to_string()]);
    assert_eq!(plain.source_lines.len(), 2);
    assert_eq!(plain.file.as_deref(), Some("/doc/a.adoc"));
    assert_eq!(plain.target, "a.adoc");
    assert_eq!(plain.effective_leveloffset, Some(1));

    let prepared = inc.prepare_content("one\ntwo\n", "/doc/a.adoc", None);
    let same = inc.included_result(prepared, "/doc/a.adoc".to_string(), Some((vec!["1".to_string(), "2".to_string()], Vec::new())));
    assert_eq!(same.lines, vec!["1".to_string(), "2".to_string()]);
    assert_eq!(same.source_lines.len(), 2);

    let prepared = inc.prepare_content("one\ntwo\n", "/doc/a.adoc", None);
    let fewer = inc.included_result(prepared, "/doc/a.adoc".to_string(), Some((vec!["1".to_string()], Vec::new())));
    assert_eq!(fewer.lines, vec!["1".to_string()]);
    assert!(fewer.source_lines.is_empty());
}
