//! Table decoration and column formats.
use vstd::prelude::*;

use crate::attributes::{
    AttributeValue, DocumentAttributes, ElementAttributes, SpecAttributeValue,
};
use crate::metadata::BlockMetadata;
use crate::text::str_eq;

verus! {

/// The outer border applied to a table.
#[derive(Clone, Copy, Debug, PartialEq, Eq, Structural)]
pub enum TableFrame {
    /// Draw all four outer edges (the default).
    All,
    /// Draw only the top and bottom edges.
    Ends,
    /// Draw only the left and right edges.
    Sides,
    /// Draw no outer edge.
    Off,
}

/// The rules drawn between table cells.
#[derive(Clone, Copy, Debug, PartialEq, Eq, Structural)]
pub enum TableGrid {
    /// Draw rules between rows and columns (the default).
    All,
    /// Draw rules only between rows.
    Rows,
    /// Draw rules only between columns.
    Columns,
    /// Draw no rules between cells.
    Off,
}

/// The body rows that receive a background fill.
#[derive(Clone, Copy, Debug, PartialEq, Eq, Structural)]
pub enum TableStripes {
    /// Do not fill body rows (the default).
    Off,
    /// Fill every body row.
    All,
    /// Fill odd body rows.
    Odd,
    /// Fill even body rows.
    Even,
    /// Fill the body row under the pointer in interactive output.
    Hover,
}

impl Default for TableFrame {
    fn default() -> (r: Self)
        ensures
            r == TableFrame::All,
    {
        TableFrame::All
    }
}

impl Default for TableGrid {
    fn default() -> (r: Self)
        ensures
            r == TableGrid::All,
    {
        TableGrid::All
    }
}

impl Default for TableStripes {
    fn default() -> (r: Self)
        ensures
            r == TableStripes::Off,
    {
        TableStripes::Off
    }
}

/// Table decoration resolved from the attributes at the table's source position.
#[derive(Clone, Copy, Debug, PartialEq, Eq, Structural)]
pub struct TablePresentation {
    frame: TableFrame,
    grid: TableGrid,
    stripes: TableStripes,
}

impl Default for TablePresentation {
    fn default() -> (r: Self)
        ensures
            r.spec_frame() == TableFrame::All,
            r.spec_grid() == TableGrid::All,
            r.spec_stripes() == TableStripes::Off,
    {
        TablePresentation {
            frame: TableFrame::All,
            grid: TableGrid::All,
            stripes: TableStripes::Off,
        }
    }
}

/// The value a table setting takes: the block's own attribute `local` if it
/// has one, else the document attribute `document`. A string gives its text,
/// `true` gives the empty text; `false` and no value give nothing.
pub open spec fn table_setting(
    local: Map<Seq<char>, SpecAttributeValue>,
    doc: Map<Seq<char>, SpecAttributeValue>,
    local_name: Seq<char>,
    document_name: Seq<char>,
) -> Option<Seq<char>> {
    let v = if local.contains_key(local_name) {
        Some(local[local_name])
    } else if doc.contains_key(document_name) {
        Some(doc[document_name])
    } else {
        None
    };
    match v {
        Some(SpecAttributeValue::Text(s)) => Some(s),
        Some(SpecAttributeValue::Bool(true)) => Some(Seq::empty()),
        _ => None,
    }
}

/// The frame a setting names: `all` (and no setting) draw all edges, `ends`
/// or `topbot` the top and bottom, `sides` the left and right; anything else
/// draws none.
pub open spec fn frame_of(v: Option<Seq<char>>) -> TableFrame {
    match v {
        None => TableFrame::All,
        Some(s) => if s == "all"@ {
            TableFrame::All
        } else if s == "ends"@ || s == "topbot"@ {
            TableFrame::Ends
        } else if s == "sides"@ {
            TableFrame::Sides
        } else {
            TableFrame::Off
        },
    }
}

/// The grid a setting names: `all` (and no setting), `rows`, `cols`;
/// anything else draws none.
pub open spec fn grid_of(v: Option<Seq<char>>) -> TableGrid {
    match v {
        None => TableGrid::All,
        Some(s) => if s == "all"@ {
            TableGrid::All
        } else if s == "rows"@ {
            TableGrid::Rows
        } else if s == "cols"@ {
            TableGrid::Columns
        } else {
            TableGrid::Off
        },
    }
}

/// The stripes a setting names: `all`, `odd`, `even`, `hover`; anything else
/// (and no setting) fills no rows.
pub open spec fn stripes_of(v: Option<Seq<char>>) -> TableStripes {
    match v {
        None => TableStripes::Off,
        Some(s) => if s == "all"@ {
            TableStripes::All
        } else if s == "odd"@ {
            TableStripes::Odd
        } else if s == "even"@ {
            TableStripes::Even
        } else if s == "hover"@ {
            TableStripes::Hover
        } else {
            TableStripes::Off
        },
    }
}

/// The resolved value of one table setting (see [`table_setting`]).
fn resolve_table_attribute(
    metadata: &ElementAttributes,
    attributes: &DocumentAttributes,
    local_name: &str,
    document_name: &str,
) -> (r: Option<String>)
    requires
        metadata.wf(),
        attributes.wf(),
    ensures
        match table_setting(metadata@, attributes@, local_name@, document_name@) {
            Some(s) => r matches Some(t) && t@ == s,
            None => r is None,
        },
{
    let value = match metadata.get(local_name) {
        Some(v) => Some(v),
        None => attributes.get(document_name),
    };
    match value {
        Some(AttributeValue::String(s)) => Some(s.clone()),
        Some(AttributeValue::Bool(true)) => {
            let e = String::new();
            Some(e)
        },
        _ => None,
    }
}

impl TablePresentation {
    /// The frame.
    pub closed spec fn spec_frame(self) -> TableFrame {
        self.frame
    }

    /// The grid.
    pub closed spec fn spec_grid(self) -> TableGrid {
        self.grid
    }

    /// The stripes.
    pub closed spec fn spec_stripes(self) -> TableStripes {
        self.stripes
    }

    /// Resolve the table's decoration from its own attributes (`frame`,
    /// `grid`, `stripes`) and the document defaults (`table-frame`,
    /// `table-grid`, `table-stripes`).
    pub fn from_attributes(metadata: &BlockMetadata, attributes: &DocumentAttributes) -> (r: Self)
        requires
            metadata.wf(),
            attributes.wf(),
        ensures
            r.spec_frame() == frame_of(
                table_setting(metadata.attributes@, attributes@, "frame"@, "table-frame"@),
            ),
            r.spec_grid() == grid_of(
                table_setting(metadata.attributes@, attributes@, "grid"@, "table-grid"@),
            ),
            r.spec_stripes() == stripes_of(
                table_setting(metadata.attributes@, attributes@, "stripes"@, "table-stripes"@),
            ),
    {
        let metadata = &metadata.attributes;
        let frame = match resolve_table_attribute(metadata, attributes, "frame", "table-frame") {
            None => TableFrame::All,
            Some(v) => if str_eq(v.as_str(), "all") {
                TableFrame::All
            } else if str_eq(v.as_str(), "ends") || str_eq(v.as_str(), "topbot") {
                TableFrame::Ends
            } else if str_eq(v.as_str(), "sides") {
                TableFrame::Sides
            } else {
                TableFrame::Off
            },
        };
        let grid = match resolve_table_attribute(metadata, attributes, "grid", "table-grid") {
            None => TableGrid::All,
            Some(v) => if str_eq(v.as_str(), "all") {
                TableGrid::All
            } else if str_eq(v.as_str(), "rows") {
                TableGrid::Rows
            } else if str_eq(v.as_str(), "cols") {
                TableGrid::Columns
            } else {
                TableGrid::Off
            },
        };
        let stripes = match resolve_table_attribute(
            metadata,
            attributes,
            "stripes",
            "table-stripes",
        ) {
            None => TableStripes::Off,
            Some(v) => if str_eq(v.as_str(), "all") {
                TableStripes::All
            } else if str_eq(v.as_str(), "odd") {
                TableStripes::Odd
            } else if str_eq(v.as_str(), "even") {
                TableStripes::Even
            } else if str_eq(v.as_str(), "hover") {
                TableStripes::Hover
            } else {
                TableStripes::Off
            },
        };
        TablePresentation { frame, grid, stripes }
    }

    /// The outer border applied to the table.
    pub fn frame(self) -> (r: TableFrame)
        ensures
            r == self.spec_frame(),
    {
        self.frame
    }

    /// The rules drawn between table cells.
    pub fn grid(self) -> (r: TableGrid)
        ensures
            r == self.spec_grid(),
    {
        self.grid
    }

    /// The body rows that receive a background fill.
    pub fn stripes(self) -> (r: TableStripes)
        ensures
            r == self.spec_stripes(),
    {
        self.stripes
    }
}

/// Horizontal alignment for table cells.
#[derive(Clone, Copy, Debug, PartialEq, Eq, Structural)]
pub enum HorizontalAlignment {
    Left,
    Center,
    Right,
}

/// Vertical alignment for table cells.
#[derive(Clone, Copy, Debug, PartialEq, Eq, Structural)]
pub enum VerticalAlignment {
    Top,
    Middle,
    Bottom,
}

/// Column width specification.
#[derive(Clone, Copy, Debug, PartialEq, Eq, Structural)]
pub enum ColumnWidth {
    /// Proportional width (relative to other columns).
    Proportional(u32),
    /// Percentage width.
    Percentage(u32),
    /// Content determines the width (`~`).
    Auto,
}

/// Column content style.
#[derive(Clone, Copy, Debug, PartialEq, Eq, Structural)]
pub enum ColumnStyle {
    /// AsciiDoc block content (`a`).
    AsciiDoc,
    /// Paragraph-level markup (`d`, the default).
    Default,
    /// Emphasis (`e`).
    Emphasis,
    /// Header styling (`h`).
    Header,
    /// Literal block text (`l`).
    Literal,
    /// Monospace font (`m`).
    Monospace,
    /// Strong (`s`).
    Strong,
}

impl Default for HorizontalAlignment {
    fn default() -> (r: Self)
        ensures
            r == HorizontalAlignment::Left,
    {
        HorizontalAlignment::Left
    }
}

impl Default for VerticalAlignment {
    fn default() -> (r: Self)
        ensures
            r == VerticalAlignment::Top,
    {
        VerticalAlignment::Top
    }
}

impl Default for ColumnWidth {
    fn default() -> (r: Self)
        ensures
            r == ColumnWidth::Proportional(1),
    {
        ColumnWidth::Proportional(1)
    }
}

impl Default for ColumnStyle {
    fn default() -> (r: Self)
        ensures
            r == ColumnStyle::Default,
    {
        ColumnStyle::Default
    }
}

/// Column format specification for table formatting.
#[derive(Clone, Copy, Debug, PartialEq, Eq, Structural)]
pub struct ColumnFormat {
    pub halign: HorizontalAlignment,
    pub valign: VerticalAlignment,
    pub width: ColumnWidth,
    pub style: ColumnStyle,
}

/// The default column format: left, top, proportional width 1, default style.
pub open spec fn default_column() -> ColumnFormat {
    ColumnFormat {
        halign: HorizontalAlignment::Left,
        valign: VerticalAlignment::Top,
        width: ColumnWidth::Proportional(1),
        style: ColumnStyle::Default,
    }
}

impl Default for ColumnFormat {
    fn default() -> (r: Self)
        ensures
            r == default_column(),
    {
        ColumnFormat {
            halign: HorizontalAlignment::Left,
            valign: VerticalAlignment::Top,
            width: ColumnWidth::Proportional(1),
            style: ColumnStyle::Default,
        }
    }
}

impl ColumnFormat {
    /// A column format with default values.
    pub fn new() -> (r: Self)
        ensures
            r == default_column(),
    {
        Self::default()
    }

    /// Set the horizontal alignment.
    pub fn with_halign(self, halign: HorizontalAlignment) -> (r: Self)
        ensures
            r == (ColumnFormat { halign, ..self }),
    {
        let mut s = self;
        s.halign = halign;
        s
    }

    /// Set the vertical alignment.
    pub fn with_valign(self, valign: VerticalAlignment) -> (r: Self)
        ensures
            r == (ColumnFormat { valign, ..self }),
    {
        let mut s = self;
        s.valign = valign;
        s
    }

    /// Set the column width.
    pub fn with_width(self, width: ColumnWidth) -> (r: Self)
        ensures
            r == (ColumnFormat { width, ..self }),
    {
        let mut s = self;
        s.width = width;
        s
    }

    /// Set the column style.
    pub fn with_style(self, style: ColumnStyle) -> (r: Self)
        ensures
            r == (ColumnFormat { style, ..self }),
    {
        let mut s = self;
        s.style = style;
        s
    }
}

/// Whether the alignment is the default (left).
pub fn is_default_halign(h: &HorizontalAlignment) -> (r: bool)
    ensures
        r == (*h == HorizontalAlignment::Left),
{
    *h == HorizontalAlignment::Left
}

/// Whether the alignment is the default (top).
pub fn is_default_valign(v: &VerticalAlignment) -> (r: bool)
    ensures
        r == (*v == VerticalAlignment::Top),
{
    *v == VerticalAlignment::Top
}

/// Whether the width is the default (proportional 1).
pub fn is_default_width(w: &ColumnWidth) -> (r: bool)
    ensures
        r == (*w == ColumnWidth::Proportional(1)),
{
    *w == ColumnWidth::Proportional(1)
}

/// Whether the style is the default.
pub fn is_default_style(s: &ColumnStyle) -> (r: bool)
    ensures
        r == (*s == ColumnStyle::Default),
{
    *s == ColumnStyle::Default
}

/// Whether every column has the default format.
pub fn are_all_columns_default(specs: &[ColumnFormat]) -> (r: bool)
    ensures
        r == forall|k: int| 0 <= k < specs@.len() ==> #[trigger] specs@[k] == default_column(),
{
    let mut i: usize = 0;
    while i < specs.len()
        invariant
            i <= specs@.len(),
            forall|k: int| 0 <= k < i ==> #[trigger] specs@[k] == default_column(),
        decreases specs.len() - i,
    {
        let d = ColumnFormat::new();
        if specs[i] != d {
            return false;
        }
        i = i + 1;
    }
    true
}

} // verus!
