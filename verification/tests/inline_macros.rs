use acdc_parser::anchor::{Reference, SectionReference, TocEntry};
use acdc_parser::attributes::ElementAttributes;
use acdc_parser::inline_macros::{
    Attribution, CiteTitle, CrossReference, IndexTerm, IndexTermKind, Link,
};
use acdc_parser::inline_text::TextNode;
use acdc_parser::inlines::{XrefSignifier, XrefStyle};
use acdc_parser::location::Location;
use acdc_parser::media::Source;
use acdc_parser::section::{SectionKind, SectionNumber};

fn text(t: &str) -> Vec<TextNode> {
    vec![TextNode::Text(t.to_string())]
}

#[test]
fn cross_references_know_local_targets_and_keep_a_set_signifier() {
    let local = CrossReference::new("intro", Location::default());
    assert!(local.target_is_local);
    assert_eq!(local.xrefstyle, XrefStyle::Default);
    assert!(matches!(local.signifier(), XrefSignifier::Standard));
    assert!(!CrossReference::new("other.adoc#intro", Location::default()).target_is_local);
    assert!(CrossReference::new("#intro", Location::default()).target_is_local);

    let mut reference = local.with_text(text("Intro"));
    reference.set_signifier(XrefSignifier::AtReference("Sect.".to_string()));
    assert!(matches!(reference.signifier(), XrefSignifier::AtReference(word) if word == "Sect."));
    assert_eq!(reference.target, "intro");
    assert_eq!(reference.text, text("Intro"));
}

#[test]
fn links_start_without_text_and_show_their_scheme() {
    let link = Link::new(Source::Path("a.html".to_string()), Location::default());
    assert!(link.text.is_empty());
    assert!(!link.hides_uri_scheme());
    let link = link.with_text(text("A")).with_attributes(ElementAttributes::new());
    assert_eq!(link.text, text("A"));
    assert!(link.attributes.is_empty());
}

#[test]
fn index_terms_give_their_levels() {
    let flow = IndexTerm { kind: IndexTermKind::Flow(text("tiger")), relationship: None, location: Location::default() };
    assert!(flow.is_visible());
    assert_eq!(flow.term(), &text("tiger"));
    assert!(flow.secondary().is_none());
    let hidden = IndexTerm {
        kind: IndexTermKind::Concealed { term: text("cats"), secondary: Some(text("big")), tertiary: None },
        relationship: None,
        location: Location::default(),
    };
    assert!(!hidden.is_visible());
    assert_eq!(hidden.term(), &text("cats"));
    assert_eq!(hidden.secondary(), Some(&text("big")));
    assert!(hidden.tertiary().is_none());
}

#[test]
fn attributions_and_cite_titles_count_their_content() {
    let attribution = Attribution::new(text("Someone"));
    assert!(!attribution.is_empty());
    assert_eq!(attribution.len(), 1);
    assert!(CiteTitle::new(Vec::new()).is_empty());
    assert_eq!(CiteTitle::new(Vec::new()).len(), 0);
}

#[test]
fn toc_entries_and_references_give_their_numbers() {
    let mut entry = TocEntry::for_section("_intro".to_string(), text("Intro"), 1, None, SectionKind::Normal, Location::default());
    assert_eq!(entry.number(), None);
    entry.set_number(Some(SectionNumber("1.2".to_string())));
    assert_eq!(entry.number(), Some("1.2"));

    let reference = Reference {
        xreflabel: None,
        title: Some(text("Intro")),
        location: Location::default(),
        section: Some(SectionReference { name: "appendix", number: Some(SectionNumber("A".to_string())) }),
        bibliography: false,
        automatic_citation: true,
    };
    assert_eq!(reference.section_name(), Some("appendix"));
    assert_eq!(reference.section_number(), Some("A"));
    assert!(!reference.is_bibliography());
    assert!(reference.has_automatic_citation());
    let block = Reference { section: None, ..reference };
    assert_eq!(block.section_name(), None);
    assert_eq!(block.section_number(), None);
}
