use acdc_parser::attributes::strip_quotes;
use acdc_parser::attribute_value::{DocumentAttributeAssignment, DocumentAttributeValue, EntryFilter};
use acdc_parser::attributes::{AttributeValue, DocumentAttributes, ElementAttributes};
use acdc_parser::caption::{Caption, CaptionCounters, CaptionKind};
use acdc_parser::inlines::{
    is_local_target, CalloutRef, CalloutRefKind, Keyboard, PassthroughKind, XrefStyle,
};
use acdc_parser::location::{Location, Position};
use acdc_parser::metadata::BlockMetadata;
use acdc_parser::model::{AdmonitionVariant, Author, StemContent, StemNotation};
use acdc_parser::parsed::OwnedSource;
use acdc_parser::tables::{
    are_all_columns_default, ColumnFormat, ColumnStyle, ColumnWidth, HorizontalAlignment,
    TableFrame, TableGrid, TablePresentation, TableStripes, VerticalAlignment,
};

fn text(s: &str) -> AttributeValue {
    AttributeValue::String(s.to_string())
}

#[test]
fn table_presentation_prefers_block_attributes() {
    let mut doc = DocumentAttributes::new();
    doc.insert("table-frame".to_string(), text("ends"));
    doc.insert("table-grid".to_string(), text("rows"));
    doc.insert("table-stripes".to_string(), text("odd"));
    let mut local = ElementAttributes::new();
    local.insert("frame".to_string(), text("sides"));
    local.insert("stripes".to_string(), AttributeValue::Bool(false));
    let metadata = BlockMetadata::new().with_attributes(local);
    let p = TablePresentation::from_attributes(&metadata, &doc);
    assert_eq!(p.frame(), TableFrame::Sides);
    assert_eq!(p.grid(), TableGrid::Rows);
    assert_eq!(p.stripes(), TableStripes::Off);
}

#[test]
fn table_presentation_defaults_and_unknown_values() {
    let doc = DocumentAttributes::new();
    let p = TablePresentation::from_attributes(&BlockMetadata::new(), &doc);
    assert_eq!(p.frame(), TableFrame::All);
    assert_eq!(p.grid(), TableGrid::All);
    assert_eq!(p.stripes(), TableStripes::Off);
    let mut doc = DocumentAttributes::new();
    doc.insert("table-frame".to_string(), text("topbot"));
    doc.insert("table-grid".to_string(), AttributeValue::Bool(true));
    doc.insert("table-stripes".to_string(), text("hover"));
    let p = TablePresentation::from_attributes(&BlockMetadata::new(), &doc);
    assert_eq!(p.frame(), TableFrame::Ends);
    assert_eq!(p.grid(), TableGrid::Off);
    assert_eq!(p.stripes(), TableStripes::Hover);
}

#[test]
fn column_formats() {
    let d = ColumnFormat::new();
    assert_eq!(d.halign, HorizontalAlignment::Left);
    assert_eq!(d.valign, VerticalAlignment::Top);
    assert_eq!(d.width, ColumnWidth::Proportional(1));
    assert_eq!(d.style, ColumnStyle::Default);
    let c = ColumnFormat::new()
        .with_halign(HorizontalAlignment::Right)
        .with_valign(VerticalAlignment::Bottom)
        .with_width(ColumnWidth::Percentage(30))
        .with_style(ColumnStyle::Strong);
    assert_eq!(c.halign, HorizontalAlignment::Right);
    assert_eq!(c.width, ColumnWidth::Percentage(30));
    assert!(are_all_columns_default(&[d, ColumnFormat::new()]));
    assert!(!are_all_columns_default(&[d, c]));
}

#[test]
fn captions_resolve_through_the_precedence_chain() {
    let mut doc = DocumentAttributes::new();
    doc.insert("example-caption".to_string(), text("Example"));
    let metadata = BlockMetadata::new();
    match Caption::resolve(&metadata, &doc, CaptionKind::Example) {
        Caption::Numbered { kind, label, number } => {
            assert_eq!(kind, CaptionKind::Example);
            assert_eq!(label, "Example");
            assert_eq!(number, None);
        }
        other => panic!("unexpected {other:?}"),
    }
    assert!(matches!(
        Caption::resolve(&metadata, &doc, CaptionKind::Table),
        Caption::Unnumbered
    ));
    let collapsible = BlockMetadata::new().with_options(vec!["collapsible".to_string()]);
    assert!(matches!(
        Caption::resolve(&collapsible, &doc, CaptionKind::Example),
        Caption::Custom(ref s) if s.is_empty()
    ));
    doc.insert("caption".to_string(), text("Look: "));
    assert!(matches!(
        Caption::resolve(&metadata, &doc, CaptionKind::Figure),
        Caption::Custom(ref s) if s == "Look: "
    ));
    assert_eq!(CaptionKind::for_style(Some("source")), Some(CaptionKind::Listing));
    assert_eq!(CaptionKind::for_style(Some("quote")), None);
    assert_eq!(
        CaptionKind::for_verbatim(Some("literal"), Some(CaptionKind::Listing)),
        None
    );
    assert_eq!(CaptionKind::Table.attribute_name(), "table-caption");
}

#[test]
fn caption_counters_count_per_kind() {
    let mut counters = CaptionCounters::new();
    assert_eq!(counters.next(CaptionKind::Example), Some(1));
    assert_eq!(counters.next(CaptionKind::Example), Some(2));
    assert_eq!(counters.next(CaptionKind::Table), Some(1));
}

#[test]
fn authors() {
    let a = Author::new("Mary_Ann", Some("J"), Some("van_Dyke"));
    assert_eq!(a.first_name, "Mary Ann");
    assert_eq!(a.last_name, "van Dyke");
    assert_eq!(a.initials, "MJv");
    let b = Author::from_parts("Ada", None, "Lovelace", "AL").with_email("ada@example.com");
    assert_eq!(b.email, Some("ada@example.com".to_string()));
    assert_eq!(Author::generate_initials("", None, None), "\0");
}

#[test]
fn stem_notations_and_admonitions() {
    assert_eq!(StemNotation::from_str("latexmath"), Ok(StemNotation::Latexmath));
    assert_eq!(
        StemNotation::from_str("mathml"),
        Err("unknown stem notation: mathml".to_string())
    );
    assert_eq!(StemNotation::Asciimath.to_string(), "asciimath");
    let c = StemContent::new("x^2", StemNotation::Asciimath);
    assert_eq!(c.content, "x^2");
    assert_eq!(AdmonitionVariant::from_str("WARNING"), Ok(AdmonitionVariant::Warning));
    assert_eq!(
        AdmonitionVariant::from_str("hint"),
        Err("unknown admonition variant: hint".to_string())
    );
    assert_eq!(AdmonitionVariant::Tip.to_string(), "tip");
}

#[test]
fn inline_constructors() {
    let location = Location::point(Position::new(1, 1));
    let c = CalloutRef::explicit(3, location.clone());
    assert_eq!(c.kind, CalloutRefKind::Explicit);
    assert_eq!(c.number, 3);
    let a = CalloutRef::auto(4, location.clone());
    assert_eq!(a.kind, CalloutRefKind::Auto);
    let k = Keyboard::new(vec!["Ctrl".to_string(), "C".to_string()], location);
    assert_eq!(k.keys.len(), 2);
    assert_eq!(PassthroughKind::default(), PassthroughKind::Single);
    assert_eq!(XrefStyle::from_attribute(None), XrefStyle::Default);
    assert_eq!(XrefStyle::from_attribute(Some("short")), XrefStyle::Short);
    assert_eq!(XrefStyle::from_attribute(Some("full")), XrefStyle::Full);
    assert_eq!(XrefStyle::from_attribute(Some("other")), XrefStyle::Basic);
}

#[test]
fn document_attribute_values() {
    let p = DocumentAttributeValue::presence();
    assert!(p.is_presence());
    assert_eq!(p.as_str(), None);
    assert_eq!(p.text(), None);
    let n = DocumentAttributeValue::integer(-42);
    assert_eq!(n.as_integer(), Some(-42));
    let mut out = String::from("=");
    n.write_text(&mut out);
    assert_eq!(out, "=-42");
    assert!(matches!(n.into_input(), AttributeValue::String(ref s) if s == "-42"));
    let t = DocumentAttributeValue::from_text("hello".to_string());
    assert_eq!(t.as_str(), Some("hello"));
    assert_eq!(t.text(), Some("hello"));
    let spelled = DocumentAttributeAssignment::new(
        DocumentAttributeAssignment::Assign(DocumentAttributeValue::integer(7)),
        Some("07".to_string()),
    );
    assert_eq!(spelled.value().and_then(|v| v.text()), Some("07"));
    assert!(matches!(spelled.to_attribute_value(), AttributeValue::String(ref s) if s == "07"));
    let empty = DocumentAttributeAssignment::new(
        DocumentAttributeAssignment::Assign(DocumentAttributeValue::integer(7)),
        Some(String::new()),
    );
    assert!(matches!(empty.to_attribute_value(), AttributeValue::Bool(true)));
    assert!(matches!(
        DocumentAttributeAssignment::Unset.to_attribute_value(),
        AttributeValue::Bool(false)
    ));
}

#[test]
fn entry_filter_has_no_false_negatives() {
    let mut f = EntryFilter::new();
    assert!(!f.may_contain("toc"));
    for name in ["toc", "sectnums", "icons", "x"] {
        f.insert(name);
    }
    for name in ["toc", "sectnums", "icons", "x"] {
        assert!(f.may_contain(name));
    }
    assert!(EntryFilter::slot("anything") < 128);
    assert_eq!(EntryFilter::slot(""), 0);
}

#[test]
fn owned_source_keeps_its_text() {
    let s = OwnedSource::new("= Title\n".to_string());
    assert_eq!(s.source(), "= Title\n");
}

#[test]
fn cross_reference_targets_are_local_when_they_name_no_file() {
    assert!(is_local_target("section-a"));
    assert!(is_local_target("#section-a"));
    assert!(!is_local_target("other.adoc#section-a"));
    assert!(!is_local_target("other.adoc"));
    assert!(!is_local_target("https://example.org"));
    assert!(is_local_target("#a.b"));
}

#[test]
fn strip_quotes_removes_only_the_outermost_matching_pair() {
    assert_eq!(strip_quotes("\"value\""), "value");
    assert_eq!(strip_quotes("'value'"), "value");
    assert_eq!(strip_quotes("\"a'"), "\"a'");
    assert_eq!(strip_quotes("\"\"a\"\""), "\"a\"");
    assert_eq!(strip_quotes("\""), "\"");
    assert_eq!(strip_quotes("''"), "");
    assert_eq!(strip_quotes("plain"), "plain");
}

#[test]
fn owned_captions_resolve_like_borrowed_ones() {
    let mut doc = DocumentAttributes::new();
    doc.insert("table-caption".to_string(), AttributeValue::String("Table".to_string()));
    match Caption::resolve_owned(&BlockMetadata::new(), &doc, CaptionKind::Table) {
        Caption::Numbered { kind, label, number } => {
            assert_eq!(kind, CaptionKind::Table);
            assert_eq!(label, "Table");
            assert_eq!(number, None);
        }
        other => panic!("unexpected {other:?}"),
    }
}
