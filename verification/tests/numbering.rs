use acdc_parser::caption::CaptionBlock;
use acdc_parser::model::DelimiterKind;
use acdc_parser::caption::{
    highest_caption_number, renumber_captions, CaptionKind, CaptionNode, NumberedCaption,
};
use acdc_parser::numbering::{number_sections, NumberedSection, NumberingBlock, TableCell};
use acdc_parser::section::{SectionKind, SectionNumbering};

fn section(level: u8, kind: SectionKind, content: Vec<NumberingBlock>) -> NumberingBlock {
    NumberingBlock::Section(NumberedSection {
        level,
        kind,
        numbering: SectionNumbering::from_values(Some(""), true, None, false),
        content,
    })
}

fn shown(records: &[acdc_parser::numbering::NumberRecord]) -> Vec<Option<String>> {
    records
        .iter()
        .map(|r| r.numbers.shown.as_ref().map(|n| n.as_str().to_string()))
        .collect()
}

#[test]
fn sections_are_numbered_in_document_order() {
    let blocks = vec![
        section(1, SectionKind::Normal, vec![
            section(2, SectionKind::Normal, vec![]),
            NumberingBlock::Group(vec![section(2, SectionKind::Normal, vec![])]),
        ]),
        section(1, SectionKind::Normal, vec![section(2, SectionKind::Normal, vec![])]),
        section(1, SectionKind::Appendix, vec![section(2, SectionKind::Normal, vec![])]),
    ];
    let records = number_sections(&blocks, false);
    assert_eq!(
        shown(&records),
        vec![
            Some("1".to_string()),
            Some("1.1".to_string()),
            Some("1.2".to_string()),
            Some("2".to_string()),
            Some("2.1".to_string()),
            Some("A".to_string()),
            Some("A.1".to_string()),
        ]
    );
    assert_eq!(records[0].name, "section");
    assert_eq!(records[5].name, "appendix");
}

#[test]
fn headings_past_sectnumlevels_keep_a_reference_number() {
    let numbering = SectionNumbering::from_values(Some(""), true, Some("1"), false);
    let blocks = vec![NumberingBlock::Section(NumberedSection {
        level: 1,
        kind: SectionKind::Normal,
        numbering,
        content: vec![NumberingBlock::Section(NumberedSection {
            level: 2,
            kind: SectionKind::Normal,
            numbering: SectionNumbering::from_values(Some(""), true, Some("1"), false),
            content: vec![],
        })],
    })];
    let records = number_sections(&blocks, false);
    assert_eq!(shown(&records), vec![Some("1".to_string()), None]);
    assert_eq!(
        records[1].numbers.reference.as_ref().map(|n| n.as_str().to_string()),
        Some("1.1".to_string())
    );
}

#[test]
fn books_number_parts_and_chapters() {
    let numbering = SectionNumbering::explicitly_enabled();
    let blocks = vec![
        NumberingBlock::Section(NumberedSection {
            level: 0,
            kind: SectionKind::Normal,
            numbering,
            content: vec![section(1, SectionKind::Normal, vec![])],
        }),
    ];
    let records = number_sections(&blocks, true);
    assert_eq!(shown(&records), vec![Some("I".to_string()), Some("1".to_string())]);
    assert_eq!(records[0].name, "part");
    assert_eq!(records[1].name, "chapter");
}

#[test]
fn doctype_entries_switch_book_numbering_for_later_blocks() {
    let blocks = vec![
        section(1, SectionKind::Normal, vec![]),
        NumberingBlock::Doctype(Some("book".to_string())),
        section(1, SectionKind::Normal, vec![]),
    ];
    let records = number_sections(&blocks, false);
    assert_eq!(records[0].name, "section");
    assert_eq!(records[1].name, "chapter");
}

#[test]
fn asciidoc_cells_are_nested_documents() {
    let blocks = vec![
        section(1, SectionKind::Normal, vec![]),
        NumberingBlock::Table(vec![TableCell {
            asciidoc: true,
            content: vec![section(3, SectionKind::Normal, vec![])],
        }]),
        section(1, SectionKind::Normal, vec![]),
    ];
    let records = number_sections(&blocks, false);
    assert_eq!(
        shown(&records),
        vec![Some("1".to_string()), Some("1".to_string()), Some("2".to_string())]
    );
    assert!(records[0].record_toc);
    assert!(!records[1].record_toc);
}

#[test]
fn unnumbered_special_sections_suppress_their_content() {
    let blocks = vec![section(
        1,
        SectionKind::Preface,
        vec![section(2, SectionKind::Normal, vec![])],
    )];
    let records = number_sections(&blocks, false);
    assert_eq!(shown(&records), vec![None, None]);
}

fn node(caption: Option<CaptionKind>, titled: bool, children: Vec<CaptionNode>) -> CaptionNode {
    CaptionNode {
        caption: caption.map(|kind| NumberedCaption { kind, number: None }),
        titled,
        children,
    }
}

#[test]
fn captions_number_content_before_the_block() {
    let blocks = vec![
        node(Some(CaptionKind::Example), true, vec![node(Some(CaptionKind::Example), true, vec![])]),
        node(Some(CaptionKind::Table), true, vec![]),
        node(Some(CaptionKind::Example), false, vec![]),
        node(Some(CaptionKind::Example), true, vec![]),
    ];
    assert_eq!(
        renumber_captions(&blocks),
        vec![Some(1), Some(2), Some(1), None, Some(3)]
    );
}

#[test]
fn highest_caption_number_searches_nested_blocks() {
    let blocks = vec![CaptionNode {
        caption: Some(NumberedCaption { kind: CaptionKind::Figure, number: Some(2) }),
        titled: true,
        children: vec![CaptionNode {
            caption: Some(NumberedCaption { kind: CaptionKind::Figure, number: Some(5) }),
            titled: true,
            children: vec![],
        }],
    }];
    assert_eq!(highest_caption_number(&blocks, CaptionKind::Figure), 5);
    assert_eq!(highest_caption_number(&blocks, CaptionKind::Table), 0);
}

#[test]
fn captions_renumber_the_same_whatever_ordinals_they_hold() {
    let stale = vec![CaptionNode {
        caption: Some(NumberedCaption { kind: CaptionKind::Figure, number: Some(7) }),
        titled: false,
        children: vec![CaptionNode {
            caption: Some(NumberedCaption { kind: CaptionKind::Figure, number: Some(9) }),
            titled: true,
            children: vec![],
        }],
    }];
    let fresh = vec![node(
        Some(CaptionKind::Figure),
        false,
        vec![node(Some(CaptionKind::Figure), true, vec![])],
    )];
    assert_eq!(renumber_captions(&stale), vec![Some(1), None]);
    assert_eq!(renumber_captions(&stale), renumber_captions(&fresh));
}

#[test]
fn captions_follow_the_delimiter_then_the_style() {
    assert_eq!(CaptionKind::for_delimited(DelimiterKind::Example, Some("listing")), Some(CaptionKind::Example));
    assert_eq!(CaptionKind::for_delimited(DelimiterKind::Table, None), Some(CaptionKind::Table));
    assert_eq!(CaptionKind::for_delimited(DelimiterKind::Listing, None), Some(CaptionKind::Listing));
    assert_eq!(CaptionKind::for_delimited(DelimiterKind::Listing, Some("literal")), None);
    assert_eq!(CaptionKind::for_delimited(DelimiterKind::Literal, None), None);
    assert_eq!(CaptionKind::for_delimited(DelimiterKind::Literal, Some("source")), Some(CaptionKind::Listing));
    assert_eq!(CaptionKind::for_delimited(DelimiterKind::Open, Some("example")), Some(CaptionKind::Example));
    assert_eq!(CaptionKind::for_delimited(DelimiterKind::Sidebar, Some("example")), None);
    assert_eq!(CaptionKind::for_block(&CaptionBlock::Image), Some(CaptionKind::Figure));
    assert_eq!(
        CaptionKind::for_block(&CaptionBlock::Paragraph(Some("example".to_string()))),
        Some(CaptionKind::Example)
    );
    assert_eq!(CaptionKind::for_block(&CaptionBlock::Other), None);
    assert_eq!(DelimiterKind::Verse.name(), "verse");
}

#[test]
fn every_section_gets_one_record_in_document_order() {
    let blocks = vec![
        section(1, SectionKind::Normal, vec![NumberingBlock::Table(vec![
            TableCell { asciidoc: true, content: vec![section(1, SectionKind::Normal, vec![])] },
            TableCell { asciidoc: false, content: vec![NumberingBlock::Other] },
        ])]),
        NumberingBlock::Group(vec![NumberingBlock::Group(vec![section(1, SectionKind::Glossary, vec![])])]),
        NumberingBlock::Other,
        NumberingBlock::Doctype(Some("book".to_string())),
        section(1, SectionKind::Normal, vec![]),
    ];
    let records = number_sections(&blocks, false);
    assert_eq!(records.len(), 4);
    assert_eq!(records[0].name, "section");
    assert!(records[0].record_toc);
    assert!(!records[1].record_toc);
    assert_eq!(records[2].name, "glossary");
    assert_eq!(records[3].name, "chapter");
}
