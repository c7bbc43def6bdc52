//! Section numbering over a document's block tree.
//!
//! The walk visits sections in document order (a section before its
//! content), descending into every block that holds blocks: admonitions,
//! list items, compound delimited blocks, and table cells. An AsciiDoc table
//! cell is a nested document with counters of its own. A `doctype` entry
//! switches book numbering for the blocks after it in the same list.
use vstd::prelude::*;

use crate::section::{
    appendix_step, level_step, nested_numbering, part_step, participates, reference_name,
    section_participates, section_step, NumberingState, NumberingView, SectionKind,
    SectionNumber, SectionNumbering, kind_style,
};
use crate::text::str_eq;

verus! {

/// The part of a block that section numbering reads.
#[derive(Debug)]
pub enum NumberingBlock {
    /// A section and its content.
    Section(NumberedSection),
    /// A block holding other blocks, in order (an admonition, a list item, an
    /// example, open, sidebar or quote block).
    Group(Vec<NumberingBlock>),
    /// A table's cells: header, then body rows, then footer, each row left to right.
    Table(Vec<TableCell>),
    /// An accepted `doctype` entry and its text value, if it has one.
    Doctype(Option<String>),
    /// Any other block.
    Other,
}

/// A section, as numbering reads it.
#[derive(Debug)]
pub struct NumberedSection {
    pub level: u8,
    pub kind: SectionKind,
    pub numbering: SectionNumbering,
    pub content: Vec<NumberingBlock>,
}

/// A table cell, as numbering reads it.
#[derive(Debug)]
pub struct TableCell {
    /// Whether the cell holds AsciiDoc content (a nested document).
    pub asciidoc: bool,
    pub content: Vec<NumberingBlock>,
}

/// The two numbers of a section: the one its heading and the table of
/// contents show, and the one a cross-reference quotes. They differ only past
/// `sectnumlevels`, where the heading shows none.
#[derive(Debug)]
pub struct SectionNumbers {
    pub shown: Option<SectionNumber>,
    pub reference: Option<SectionNumber>,
}

/// What numbering decided for one section.
#[derive(Debug)]
pub struct NumberRecord {
    pub numbers: SectionNumbers,
    /// The section's name in cross-references (`part`, `chapter`, `section`,
    /// or the special section's style).
    pub name: &'static str,
    /// Whether the section belongs in the table of contents (not inside an
    /// AsciiDoc table cell).
    pub record_toc: bool,
}

/// The mathematical value of a [`NumberRecord`].
pub struct SpecRecord {
    pub shown: Option<Seq<char>>,
    pub reference: Option<Seq<char>>,
    pub name: Seq<char>,
    pub record_toc: bool,
}

/// The text of an optional section number.
pub open spec fn number_text(n: Option<SectionNumber>) -> Option<Seq<char>> {
    match n {
        Some(x) => Some(x.0@),
        None => None,
    }
}

impl View for NumberRecord {
    type V = SpecRecord;

    open spec fn view(&self) -> SpecRecord {
        SpecRecord {
            shown: number_text(self.numbers.shown),
            reference: number_text(self.numbers.reference),
            name: self.name@,
            record_toc: self.record_toc,
        }
    }
}

/// The views of a list of records.
pub open spec fn record_views(rs: Seq<NumberRecord>) -> Seq<SpecRecord> {
    rs.map_values(|r: NumberRecord| r@)
}

/// The cross-reference name of a section: its special style, or `part` at
/// level 0, `chapter` at level 1 of a book, and `section` otherwise.
pub open spec fn section_name(kind: SectionKind, level: u8, is_book: bool) -> Seq<char> {
    match kind_style(kind) {
        Some(s) => s,
        None => if level == 0 {
            "part"@
        } else if level == 1 && is_book {
            "chapter"@
        } else {
            "section"@
        },
    }
}

/// Whether a `doctype` value makes a book.
pub open spec fn is_book_value(v: Option<String>) -> bool {
    match v {
        Some(t) => t@ == "book"@,
        None => false,
    }
}

/// The numbering of a list of blocks from state `st`: the records of the
/// sections in document order, and the state after.
pub open spec fn walk_blocks(
    bs: Seq<NumberingBlock>,
    st: NumberingView,
    is_book: bool,
    suppressed: bool,
    record_toc: bool,
) -> (Seq<SpecRecord>, NumberingView)
    decreases bs,
{
    if bs.len() == 0 {
        (Seq::empty(), st)
    } else {
        let first = walk_block(bs[0], st, is_book, suppressed, record_toc);
        let next_book = match bs[0] {
            NumberingBlock::Doctype(v) => is_book_value(v),
            _ => is_book,
        };
        let rest = walk_blocks(bs.drop_first(), first.1, next_book, suppressed, record_toc);
        (first.0 + rest.0, rest.1)
    }
}

/// The numbering of one block (see [`walk_blocks`]).
///
/// A section first fixes its numbering level. When it participates and is
/// not suppressed it takes the next appendix letter, part number (a level-0
/// normal section), or section number at its level; past its `sectnumlevels`
/// the heading shows no number while cross-references still quote it. A
/// special section other than an appendix that does not participate
/// suppresses numbering in its content.
pub open spec fn walk_block(
    b: NumberingBlock,
    st: NumberingView,
    is_book: bool,
    suppressed: bool,
    record_toc: bool,
) -> (Seq<SpecRecord>, NumberingView)
    decreases b,
{
    match b {
        NumberingBlock::Section(s) => {
            let (st1, level) = level_step(st, s.level, s.kind);
            let part = participates(s.kind, s.level, s.numbering, is_book);
            let numbered: (NumberingView, Option<Seq<char>>, Option<Seq<char>>) = if !part
                || suppressed {
                (st1, None, None)
            } else if s.kind == SectionKind::Appendix {
                let (x, n) = appendix_step(st1);
                (x, Some(n), Some(n))
            } else if s.level == 0 && s.kind == SectionKind::Normal {
                let (x, n) = part_step(st1);
                (x, Some(n), Some(n))
            } else {
                let (x, n) = section_step(st1, level);
                (
                    x,
                    if level <= s.numbering.max_level {
                        n
                    } else {
                        None
                    },
                    n,
                )
            };
            let rec = SpecRecord {
                shown: numbered.1,
                reference: numbered.2,
                name: section_name(s.kind, s.level, is_book),
                record_toc,
            };
            let sup = suppressed || (s.kind != SectionKind::Normal && s.kind
                != SectionKind::Appendix && !part);
            let inner = walk_blocks(s.content@, numbered.0, is_book, sup, record_toc);
            (seq![rec] + inner.0, inner.1)
        },
        NumberingBlock::Group(children) => walk_blocks(
            children@,
            st,
            is_book,
            suppressed,
            record_toc,
        ),
        NumberingBlock::Table(cells) => walk_cells(cells@, st, is_book, suppressed, record_toc),
        _ => (Seq::empty(), st),
    }
}

/// The numbering of table cells in order: an AsciiDoc cell numbers its
/// content as a nested article with its own counters and no table of
/// contents entries, leaving the state unchanged; another cell continues
/// with the surrounding state.
pub open spec fn walk_cells(
    cells: Seq<TableCell>,
    st: NumberingView,
    is_book: bool,
    suppressed: bool,
    record_toc: bool,
) -> (Seq<SpecRecord>, NumberingView)
    decreases cells,
{
    if cells.len() == 0 {
        (Seq::empty(), st)
    } else {
        let c = cells[0];
        let first: (Seq<SpecRecord>, NumberingView) = if c.asciidoc {
            (walk_blocks(c.content@, nested_numbering(), false, false, false).0, st)
        } else {
            walk_blocks(c.content@, st, is_book, suppressed, record_toc)
        };
        let rest = walk_cells(cells.drop_first(), first.1, is_book, suppressed, record_toc);
        (first.0 + rest.0, rest.1)
    }
}

/// The sections of a list of blocks in document order (a section before
/// its content), as kind and level, through groups and table cells.
pub open spec fn section_nodes(bs: Seq<NumberingBlock>) -> Seq<(SectionKind, u8)>
    decreases bs,
{
    if bs.len() == 0 {
        Seq::empty()
    } else {
        node_sections(bs[0]) + section_nodes(bs.drop_first())
    }
}

/// The sections of one block and its content (see [`section_nodes`]).
pub open spec fn node_sections(b: NumberingBlock) -> Seq<(SectionKind, u8)>
    decreases b,
{
    match b {
        NumberingBlock::Section(s) => seq![(s.kind, s.level)] + section_nodes(s.content@),
        NumberingBlock::Group(children) => section_nodes(children@),
        NumberingBlock::Table(cells) => cell_sections(cells@),
        _ => Seq::empty(),
    }
}

/// The sections of table cells in order (see [`section_nodes`]).
pub open spec fn cell_sections(cells: Seq<TableCell>) -> Seq<(SectionKind, u8)>
    decreases cells,
{
    if cells.len() == 0 {
        Seq::empty()
    } else {
        section_nodes(cells[0].content@) + cell_sections(cells.drop_first())
    }
}

/// Whether the records belong one to one, in order, to the sections: as
/// many records as sections, each named for its section's kind and level
/// (in a book or not).
pub open spec fn records_match(rs: Seq<SpecRecord>, ns: Seq<(SectionKind, u8)>) -> bool {
    &&& rs.len() == ns.len()
    &&& forall|k: int|
        0 <= k < rs.len() ==> (#[trigger] rs[k]).name == section_name(ns[k].0, ns[k].1, true)
            || rs[k].name == section_name(ns[k].0, ns[k].1, false)
}

proof fn lemma_records_match_concat(
    a: Seq<SpecRecord>,
    na: Seq<(SectionKind, u8)>,
    b: Seq<SpecRecord>,
    nb: Seq<(SectionKind, u8)>,
)
    requires
        records_match(a, na),
        records_match(b, nb),
    ensures
        records_match(a + b, na + nb),
{
    assert forall|k: int| 0 <= k < (a + b).len() implies (#[trigger] (a + b)[k]).name == section_name(
        (na + nb)[k].0,
        (na + nb)[k].1,
        true,
    ) || (a + b)[k].name == section_name((na + nb)[k].0, (na + nb)[k].1, false) by {
        if k < a.len() {
            assert((a + b)[k] == a[k] && (na + nb)[k] == na[k]);
        } else {
            assert((a + b)[k] == b[k - a.len()] && (na + nb)[k] == nb[k - a.len()]);
        }
    }
}

proof fn lemma_walk_blocks_records(
    bs: Seq<NumberingBlock>,
    st: NumberingView,
    is_book: bool,
    suppressed: bool,
    record_toc: bool,
)
    ensures
        records_match(walk_blocks(bs, st, is_book, suppressed, record_toc).0, section_nodes(bs)),
    decreases bs,
{
    if bs.len() > 0 {
        let first = walk_block(bs[0], st, is_book, suppressed, record_toc);
        let next_book = match bs[0] {
            NumberingBlock::Doctype(v) => is_book_value(v),
            _ => is_book,
        };
        lemma_walk_block_records(bs[0], st, is_book, suppressed, record_toc);
        lemma_walk_blocks_records(bs.drop_first(), first.1, next_book, suppressed, record_toc);
        lemma_records_match_concat(
            first.0,
            node_sections(bs[0]),
            walk_blocks(bs.drop_first(), first.1, next_book, suppressed, record_toc).0,
            section_nodes(bs.drop_first()),
        );
    } else {
        assert(records_match(Seq::empty(), Seq::empty()));
    }
}

proof fn lemma_walk_block_records(
    b: NumberingBlock,
    st: NumberingView,
    is_book: bool,
    suppressed: bool,
    record_toc: bool,
)
    ensures
        records_match(walk_block(b, st, is_book, suppressed, record_toc).0, node_sections(b)),
    decreases b,
{
    match b {
        NumberingBlock::Section(s) => {
            let w = walk_block(b, st, is_book, suppressed, record_toc);
            assert(decreases_to!(b => s));
            assert(decreases_to!(s => s.content));
            let (st1, level) = level_step(st, s.level, s.kind);
            let part = participates(s.kind, s.level, s.numbering, is_book);
            let numbered: (NumberingView, Option<Seq<char>>, Option<Seq<char>>) = if !part
                || suppressed {
                (st1, None, None)
            } else if s.kind == SectionKind::Appendix {
                let (x, n) = appendix_step(st1);
                (x, Some(n), Some(n))
            } else if s.level == 0 && s.kind == SectionKind::Normal {
                let (x, n) = part_step(st1);
                (x, Some(n), Some(n))
            } else {
                let (x, n) = section_step(st1, level);
                (
                    x,
                    if level <= s.numbering.max_level {
                        n
                    } else {
                        None
                    },
                    n,
                )
            };
            let sup = suppressed || (s.kind != SectionKind::Normal && s.kind
                != SectionKind::Appendix && !part);
            lemma_walk_blocks_records(s.content@, numbered.0, is_book, sup, record_toc);
            let rec = SpecRecord {
                shown: numbered.1,
                reference: numbered.2,
                name: section_name(s.kind, s.level, is_book),
                record_toc,
            };
            assert(records_match(seq![rec], seq![(s.kind, s.level)]));
            lemma_records_match_concat(
                seq![rec],
                seq![(s.kind, s.level)],
                walk_blocks(s.content@, numbered.0, is_book, sup, record_toc).0,
                section_nodes(s.content@),
            );
        },
        NumberingBlock::Group(children) => {
            lemma_walk_blocks_records(children@, st, is_book, suppressed, record_toc);
        },
        NumberingBlock::Table(cells) => {
            lemma_walk_cells_records(cells@, st, is_book, suppressed, record_toc);
        },
        _ => {
            assert(records_match(Seq::empty(), Seq::empty()));
        },
    }
}

proof fn lemma_walk_cells_records(
    cells: Seq<TableCell>,
    st: NumberingView,
    is_book: bool,
    suppressed: bool,
    record_toc: bool,
)
    ensures
        records_match(walk_cells(cells, st, is_book, suppressed, record_toc).0, cell_sections(cells)),
    decreases cells,
{
    if cells.len() > 0 {
        let c = cells[0];
        let first: (Seq<SpecRecord>, NumberingView) = if c.asciidoc {
            (walk_blocks(c.content@, nested_numbering(), false, false, false).0, st)
        } else {
            walk_blocks(c.content@, st, is_book, suppressed, record_toc)
        };
        if c.asciidoc {
            lemma_walk_blocks_records(c.content@, nested_numbering(), false, false, false);
        } else {
            lemma_walk_blocks_records(c.content@, st, is_book, suppressed, record_toc);
        }
        lemma_walk_cells_records(cells.drop_first(), first.1, is_book, suppressed, record_toc);
        lemma_records_match_concat(
            first.0,
            section_nodes(c.content@),
            walk_cells(cells.drop_first(), first.1, is_book, suppressed, record_toc).0,
            cell_sections(cells.drop_first()),
        );
    } else {
        assert(records_match(Seq::empty(), Seq::empty()));
    }
}

/// Numbering gives one record for each section, in document order (a
/// section before its content, through groups and table cells), each named
/// for its section's kind and level.
pub proof fn law_one_record_per_section(blocks: Seq<NumberingBlock>, is_book: bool)
    ensures
        records_match(
            walk_blocks(blocks, crate::section::initial_numbering(), is_book, false, true).0,
            section_nodes(blocks),
        ),
{
    lemma_walk_blocks_records(blocks, crate::section::initial_numbering(), is_book, false, true);
}

proof fn lemma_records_push(a: Seq<NumberRecord>, r: NumberRecord)
    ensures
        record_views(a.push(r)) == record_views(a).push(r@),
{
    assert(record_views(a.push(r)) =~= record_views(a).push(r@));
}

/// A copy of an optional section number.
fn copy_number(n: &Option<SectionNumber>) -> (r: Option<SectionNumber>)
    ensures
        number_text(r) == number_text(*n),
{
    match n {
        Some(x) => Some(SectionNumber(x.0.clone())),
        None => None,
    }
}

/// Number one section and its content (see [`walk_block`]).
#[verifier::spinoff_prover]
#[verifier::rlimit(40)]
fn renumber_section(
    section: &NumberedSection,
    state: &mut NumberingState,
    is_book: bool,
    suppressed: bool,
    record_toc: bool,
    records: &mut Vec<NumberRecord>,
)
    ensures
        ({
            let w = walk_block(NumberingBlock::Section(*section), old(state)@, is_book, suppressed, record_toc);
            &&& record_views(final(records)@) == record_views(old(records)@) + w.0
            &&& final(state)@ == w.1
        }),
    decreases NumberingBlock::Section(*section), 0int,
{
    let level = state.numbering_level(section.level, section.kind);
    let part = section_participates(section.kind, section.level, &section.numbering, is_book);
    let eligible = part && !suppressed;
    let numbers = if !eligible {
        SectionNumbers { shown: None, reference: None }
    } else if section.kind == SectionKind::Appendix {
        let n = state.next_appendix();
        SectionNumbers { shown: Some(SectionNumber(n.0.clone())), reference: Some(n) }
    } else if section.level == 0 && section.kind == SectionKind::Normal {
        let n = state.next_part();
        SectionNumbers { shown: Some(SectionNumber(n.0.clone())), reference: Some(n) }
    } else {
        let n = state.next_section(level);
        let shown = if level <= section.numbering.max_level {
            copy_number(&n)
        } else {
            None
        };
        SectionNumbers { shown, reference: n }
    };
    let record = NumberRecord {
        numbers,
        name: reference_name(section.kind, section.level, is_book),
        record_toc,
    };
    proof {
        lemma_records_push(old(records)@, record);
    }
    records.push(record);
    let suppress_children = suppressed || (section.kind.is_special() && section.kind
        != SectionKind::Appendix && !part);
    proof {
        let b = NumberingBlock::Section(*section);
        assert(decreases_to!(b => b->Section_0));
        assert(decreases_to!(*section => section.content));
        assert(decreases_to!(section.content => section.content@));
    }
    renumber_blocks(&section.content, state, is_book, suppress_children, record_toc, records);
    proof {
        assert(record_views(old(records)@).push(record@) =~= record_views(old(records)@) + seq![
            record@,
        ]);
        assert((record_views(old(records)@) + seq![record@]) + walk_blocks(
            section.content@,
            NumberingView { ..state@ },
            is_book,
            suppress_children,
            record_toc,
        ).0 =~= record_views(old(records)@) + (seq![record@] + walk_blocks(
            section.content@,
            NumberingView { ..state@ },
            is_book,
            suppress_children,
            record_toc,
        ).0));
    }
}

/// Number one block (see [`walk_block`]).
fn renumber_block(
    block: &NumberingBlock,
    state: &mut NumberingState,
    is_book: bool,
    suppressed: bool,
    record_toc: bool,
    records: &mut Vec<NumberRecord>,
)
    ensures
        ({
            let w = walk_block(*block, old(state)@, is_book, suppressed, record_toc);
            &&& record_views(final(records)@) == record_views(old(records)@) + w.0
            &&& final(state)@ == w.1
        }),
    decreases *block, 1int,
{
    match block {
        NumberingBlock::Section(section) => {
            renumber_section(section, state, is_book, suppressed, record_toc, records);
        },
        NumberingBlock::Group(children) => {
            renumber_blocks(children, state, is_book, suppressed, record_toc, records);
        },
        NumberingBlock::Table(cells) => {
            renumber_cells(cells, state, is_book, suppressed, record_toc, records);
        },
        _ => {
            assert(record_views(old(records)@) + Seq::<SpecRecord>::empty() =~= record_views(
                old(records)@,
            ));
        },
    }
}

/// Number a list of blocks in order (see [`walk_blocks`]), appending a record
/// for each section to `records`.
pub fn renumber_blocks(
    blocks: &Vec<NumberingBlock>,
    state: &mut NumberingState,
    is_book: bool,
    suppressed: bool,
    record_toc: bool,
    records: &mut Vec<NumberRecord>,
)
    ensures
        ({
            let w = walk_blocks(blocks@, old(state)@, is_book, suppressed, record_toc);
            &&& record_views(final(records)@) == record_views(old(records)@) + w.0
            &&& final(state)@ == w.1
        }),
    decreases blocks@, 1int,
{
    let ghost total = walk_blocks(blocks@, state@, is_book, suppressed, record_toc);
    let ghost base = record_views(records@);
    let mut book = is_book;
    let mut i: usize = 0;
    assert(blocks@.skip(0) =~= blocks@);
    assert(base + Seq::<SpecRecord>::empty() =~= base);
    while i < blocks.len()
        invariant
            i <= blocks@.len(),
            ({
                let tail = walk_blocks(blocks@.skip(i as int), state@, book, suppressed, record_toc);
                &&& record_views(records@) + tail.0 == base + total.0
                &&& tail.1 == total.1
            }),
        decreases blocks.len() - i,
    {
        let ghost before = record_views(records@);
        let ghost st = state@;
        let ghost rest = blocks@.skip(i as int);
        assert(rest[0] == blocks@[i as int]);
        assert(rest.drop_first() =~= blocks@.skip(i + 1));
        renumber_block(&blocks[i], state, book, suppressed, record_toc, records);
        let next_book = match &blocks[i] {
            NumberingBlock::Doctype(v) => match v {
                Some(t) => str_eq(t.as_str(), "book"),
                None => false,
            },
            _ => book,
        };
        let ghost w = walk_block(blocks@[i as int], st, book, suppressed, record_toc);
        let ghost later = walk_blocks(blocks@.skip(i + 1), w.1, next_book, suppressed, record_toc);
        assert(record_views(records@) + later.0 =~= before + (w.0 + later.0));
        book = next_book;
        i = i + 1;
    }
    proof {
        assert(blocks@.skip(i as int) =~= Seq::<NumberingBlock>::empty());
        assert(record_views(records@) + Seq::<SpecRecord>::empty() =~= record_views(records@));
    }
}

/// Number table cells in order (see [`walk_cells`]).
fn renumber_cells(
    cells: &Vec<TableCell>,
    state: &mut NumberingState,
    is_book: bool,
    suppressed: bool,
    record_toc: bool,
    records: &mut Vec<NumberRecord>,
)
    ensures
        ({
            let w = walk_cells(cells@, old(state)@, is_book, suppressed, record_toc);
            &&& record_views(final(records)@) == record_views(old(records)@) + w.0
            &&& final(state)@ == w.1
        }),
    decreases cells@, 1int,
{
    let ghost total = walk_cells(cells@, state@, is_book, suppressed, record_toc);
    let ghost base = record_views(records@);
    let mut i: usize = 0;
    assert(cells@.skip(0) =~= cells@);
    assert(base + Seq::<SpecRecord>::empty() =~= base);
    while i < cells.len()
        invariant
            i <= cells@.len(),
            ({
                let tail = walk_cells(cells@.skip(i as int), state@, is_book, suppressed, record_toc);
                &&& record_views(records@) + tail.0 == base + total.0
                &&& tail.1 == total.1
            }),
        decreases cells.len() - i,
    {
        let ghost before = record_views(records@);
        let ghost st = state@;
        let ghost rest = cells@.skip(i as int);
        assert(rest[0] == cells@[i as int]);
        assert(rest.drop_first() =~= cells@.skip(i + 1));
        let cell = &cells[i];
        if cell.asciidoc {
            let mut nested = NumberingState::nested_document();
            renumber_blocks(&cell.content, &mut nested, false, false, false, records);
        } else {
            renumber_blocks(&cell.content, state, is_book, suppressed, record_toc, records);
        }
        let ghost first: (Seq<SpecRecord>, NumberingView) = if cell.asciidoc {
            (walk_blocks(cell.content@, nested_numbering(), false, false, false).0, st)
        } else {
            walk_blocks(cell.content@, st, is_book, suppressed, record_toc)
        };
        let ghost later = walk_cells(cells@.skip(i + 1), first.1, is_book, suppressed, record_toc);
        assert(record_views(records@) + later.0 =~= before + (first.0 + later.0));
        i = i + 1;
    }
    proof {
        assert(cells@.skip(i as int) =~= Seq::<TableCell>::empty());
        assert(record_views(records@) + Seq::<SpecRecord>::empty() =~= record_views(records@));
    }
}

/// The numbering of a whole document: its blocks from the start state, as an
/// article or a book. The records follow the sections in document order.
pub fn number_sections(blocks: &Vec<NumberingBlock>, is_book: bool) -> (r: Vec<NumberRecord>)
    ensures
        record_views(r@) == walk_blocks(blocks@, crate::section::initial_numbering(), is_book, false, true).0,
{
    let mut state = NumberingState::default();
    let mut records: Vec<NumberRecord> = Vec::new();
    assert(record_views(records@) =~= Seq::<SpecRecord>::empty());
    renumber_blocks(blocks, &mut state, is_book, false, true, &mut records);
    assert(Seq::<SpecRecord>::empty() + walk_blocks(blocks@, crate::section::initial_numbering(), is_book, false, true).0 =~= walk_blocks(blocks@, crate::section::initial_numbering(), is_book, false, true).0);
    records
}

} // verus!
