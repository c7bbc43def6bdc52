//! Caption behavior resolved from block and document attributes.
use vstd::prelude::*;

use crate::attributes::{AttributeValue, DocumentAttributes, SpecAttributeValue};
use crate::lines::views;
use crate::metadata::BlockMetadata;
use crate::model::DelimiterKind;
use crate::text::str_eq;

verus! {

/// A block category with its own caption attribute and counter.
#[derive(Clone, Copy, Debug, PartialEq, Eq, Structural)]
pub enum CaptionKind {
    /// An example block or paragraph, controlled by `example-caption`.
    Example,
    /// A block image, controlled by `figure-caption`.
    Figure,
    /// A listing or source block, controlled by `listing-caption`.
    Listing,
    /// A table, controlled by `table-caption`.
    Table,
}

/// The attribute that holds the caption label of a kind.
pub open spec fn caption_attribute(kind: CaptionKind) -> Seq<char> {
    match kind {
        CaptionKind::Example => "example-caption"@,
        CaptionKind::Figure => "figure-caption"@,
        CaptionKind::Listing => "listing-caption"@,
        CaptionKind::Table => "table-caption"@,
    }
}

/// The caption category a style names: `example`, or `listing` / `source`.
pub open spec fn kind_for_style(style: Option<Seq<char>>) -> Option<CaptionKind> {
    match style {
        Some(s) => if s == "example"@ {
            Some(CaptionKind::Example)
        } else if s == "listing"@ || s == "source"@ {
            Some(CaptionKind::Listing)
        } else {
            None
        },
        None => None,
    }
}

/// The caption category of a verbatim block: `listing` and `source` make a
/// listing, `literal` takes no caption, any other style keeps `default`.
pub open spec fn kind_for_verbatim(style: Option<Seq<char>>, default: Option<CaptionKind>) -> Option<
    CaptionKind,
> {
    match style {
        Some(s) => if s == "listing"@ || s == "source"@ {
            Some(CaptionKind::Listing)
        } else if s == "literal"@ {
            None
        } else {
            default
        },
        None => default,
    }
}

/// The caption category of a delimited block: examples and tables have
/// their own; a listing block is a listing and a literal block has none
/// unless the style says otherwise (see [`kind_for_verbatim`]); an open
/// block takes the one its style names; the other kinds have none.
pub open spec fn kind_for_delimited(inner: DelimiterKind, style: Option<Seq<char>>) -> Option<
    CaptionKind,
> {
    match inner {
        DelimiterKind::Example => Some(CaptionKind::Example),
        DelimiterKind::Table => Some(CaptionKind::Table),
        DelimiterKind::Listing => kind_for_verbatim(style, Some(CaptionKind::Listing)),
        DelimiterKind::Literal => kind_for_verbatim(style, None),
        DelimiterKind::Open => kind_for_style(style),
        _ => None,
    }
}

/// The part of a block that caption classification reads.
#[derive(Debug)]
pub enum CaptionBlock {
    /// A delimited block and its style.
    Delimited(DelimiterKind, Option<String>),
    /// A paragraph and its style.
    Paragraph(Option<String>),
    /// A block image.
    Image,
    /// Any other block: a section, admonition, list, break, media other
    /// than an image, attribute entry or comment.
    Other,
}

/// A style viewed.
pub open spec fn style_view(s: Option<String>) -> Option<Seq<char>> {
    match s {
        Some(t) => Some(t@),
        None => None,
    }
}

/// The caption category of a block.
pub open spec fn kind_for_block(b: CaptionBlock) -> Option<CaptionKind> {
    match b {
        CaptionBlock::Delimited(inner, style) => kind_for_delimited(inner, style_view(style)),
        CaptionBlock::Paragraph(style) => kind_for_style(style_view(style)),
        CaptionBlock::Image => Some(CaptionKind::Figure),
        CaptionBlock::Other => None,
    }
}

impl CaptionKind {
    /// The caption category of a delimited block (see [`kind_for_delimited`]).
    pub fn for_delimited(inner: DelimiterKind, style: Option<&str>) -> (r: Option<Self>)
        ensures
            r == kind_for_delimited(
                inner,
                match style {
                    Some(s) => Some(s@),
                    None => None,
                },
            ),
    {
        match inner {
            DelimiterKind::Example => Some(CaptionKind::Example),
            DelimiterKind::Table => Some(CaptionKind::Table),
            DelimiterKind::Listing => CaptionKind::for_verbatim(style, Some(CaptionKind::Listing)),
            DelimiterKind::Literal => CaptionKind::for_verbatim(style, None),
            DelimiterKind::Open => CaptionKind::for_style(style),
            _ => None,
        }
    }

    /// The caption category of a block (see [`kind_for_block`]).
    pub fn for_block(block: &CaptionBlock) -> (r: Option<Self>)
        ensures
            r == kind_for_block(*block),
    {
        match block {
            CaptionBlock::Delimited(inner, style) => CaptionKind::for_delimited(
                *inner,
                match style {
                    Some(s) => Some(s.as_str()),
                    None => None,
                },
            ),
            CaptionBlock::Paragraph(style) => CaptionKind::for_style(
                match style {
                    Some(s) => Some(s.as_str()),
                    None => None,
                },
            ),
            CaptionBlock::Image => Some(CaptionKind::Figure),
            CaptionBlock::Other => None,
        }
    }
}

impl CaptionKind {
    /// The attribute that holds this kind's caption label.
    pub fn attribute_name(self) -> (r: &'static str)
        ensures
            r@ == caption_attribute(self),
    {
        match self {
            CaptionKind::Example => "example-caption",
            CaptionKind::Figure => "figure-caption",
            CaptionKind::Listing => "listing-caption",
            CaptionKind::Table => "table-caption",
        }
    }

    /// The caption category a `[style]` names on a paragraph, or on a
    /// delimiter that carries no context of its own.
    pub fn for_style(style: Option<&str>) -> (r: Option<Self>)
        ensures
            r == kind_for_style(
                match style {
                    Some(s) => Some(s@),
                    None => None,
                },
            ),
    {
        match style {
            Some(s) => if str_eq(s, "example") {
                Some(CaptionKind::Example)
            } else if str_eq(s, "listing") || str_eq(s, "source") {
                Some(CaptionKind::Listing)
            } else {
                None
            },
            None => None,
        }
    }

    /// The caption category of a verbatim block (see [`kind_for_verbatim`]).
    pub fn for_verbatim(style: Option<&str>, default: Option<Self>) -> (r: Option<Self>)
        ensures
            r == kind_for_verbatim(
                match style {
                    Some(s) => Some(s@),
                    None => None,
                },
                default,
            ),
    {
        match style {
            Some(s) => if str_eq(s, "listing") || str_eq(s, "source") {
                Some(CaptionKind::Listing)
            } else if str_eq(s, "literal") {
                None
            } else {
                default
            },
            None => default,
        }
    }
}

/// The caption a titled block takes.
#[derive(Debug)]
pub enum Caption {
    /// A type-specific caption and its document-wide ordinal (never zero),
    /// `None` for a block without a title.
    Numbered { kind: CaptionKind, label: String, number: Option<u32> },
    /// An explicit prefix, which takes no ordinal.
    Custom(String),
    /// Caption-capable, but no prefix applies.
    Unnumbered,
}

/// The mathematical value of a [`Caption`].
pub enum SpecCaption {
    Numbered { kind: CaptionKind, label: Seq<char>, number: Option<u32> },
    Custom(Seq<char>),
    Unnumbered,
}

impl View for Caption {
    type V = SpecCaption;

    open spec fn view(&self) -> SpecCaption {
        match self {
            Caption::Numbered { kind, label, number } => SpecCaption::Numbered {
                kind: *kind,
                label: label@,
                number: *number,
            },
            Caption::Custom(l) => SpecCaption::Custom(l@),
            Caption::Unnumbered => SpecCaption::Unnumbered,
        }
    }
}

/// Where a caption prefix comes from; `None` inside is an attribute set with
/// no value, whose label is empty.
pub enum SpecCaptionSource {
    Custom(Option<Seq<char>>),
    Numbered(Option<Seq<char>>),
    Nothing,
}

/// The caption source of a block: a collapsible example takes an empty custom
/// caption; otherwise the block's own `caption` text, then the document's
/// `caption` (text, or empty when set without a value), give a custom
/// caption; then `<kind>-caption` (text, or set without a value) gives a
/// numbered one; otherwise none applies.
pub open spec fn caption_source_spec(
    options: Seq<Seq<char>>,
    local: Map<Seq<char>, SpecAttributeValue>,
    doc: Map<Seq<char>, SpecAttributeValue>,
    kind: CaptionKind,
) -> SpecCaptionSource {
    if kind == CaptionKind::Example && options.contains("collapsible"@) {
        SpecCaptionSource::Custom(None)
    } else if local.contains_key("caption"@) && local["caption"@] is Text {
        SpecCaptionSource::Custom(Some(local["caption"@]->Text_0))
    } else if doc.contains_key("caption"@) && doc["caption"@] is Text {
        SpecCaptionSource::Custom(Some(doc["caption"@]->Text_0))
    } else if doc.contains_key("caption"@) && doc["caption"@] == SpecAttributeValue::Bool(true) {
        SpecCaptionSource::Custom(None)
    } else if doc.contains_key(caption_attribute(kind)) && doc[caption_attribute(kind)] is Text {
        SpecCaptionSource::Numbered(Some(doc[caption_attribute(kind)]->Text_0))
    } else if doc.contains_key(caption_attribute(kind)) && doc[caption_attribute(kind)]
        == SpecAttributeValue::Bool(true) {
        SpecCaptionSource::Numbered(None)
    } else {
        SpecCaptionSource::Nothing
    }
}

/// The label a source value gives: its text, or empty.
pub open spec fn label_of(v: Option<Seq<char>>) -> Seq<char> {
    match v {
        Some(t) => t,
        None => Seq::empty(),
    }
}

/// The caption a block resolves to, with no ordinal set.
pub open spec fn resolved_caption(source: SpecCaptionSource, kind: CaptionKind) -> SpecCaption {
    match source {
        SpecCaptionSource::Custom(v) => SpecCaption::Custom(label_of(v)),
        SpecCaptionSource::Numbered(v) => SpecCaption::Numbered {
            kind,
            label: label_of(v),
            number: None,
        },
        SpecCaptionSource::Nothing => SpecCaption::Unnumbered,
    }
}

/// Where a caption prefix comes from.
enum CaptionSource {
    Custom(Option<String>),
    Numbered(Option<String>),
    Nothing,
}

impl View for CaptionSource {
    type V = SpecCaptionSource;

    closed spec fn view(&self) -> SpecCaptionSource {
        match self {
            CaptionSource::Custom(v) => SpecCaptionSource::Custom(
                match v {
                    Some(s) => Some(s@),
                    None => None,
                },
            ),
            CaptionSource::Numbered(v) => SpecCaptionSource::Numbered(
                match v {
                    Some(s) => Some(s@),
                    None => None,
                },
            ),
            CaptionSource::Nothing => SpecCaptionSource::Nothing,
        }
    }
}

fn caption_source(metadata: &BlockMetadata, attributes: &DocumentAttributes, kind: CaptionKind) -> (r:
    CaptionSource)
    requires
        metadata.wf(),
        attributes.wf(),
    ensures
        r@ == caption_source_spec(views(metadata.options@), metadata.attributes@, attributes@, kind),
{
    if kind == CaptionKind::Example && metadata.has_option("collapsible") {
        return CaptionSource::Custom(None);
    }
    match metadata.attributes.get("caption") {
        Some(AttributeValue::String(value)) => {
            return CaptionSource::Custom(Some(value.clone()));
        },
        _ => {},
    }
    match attributes.get("caption") {
        Some(AttributeValue::String(value)) => {
            return CaptionSource::Custom(Some(value.clone()));
        },
        Some(AttributeValue::Bool(true)) => {
            return CaptionSource::Custom(None);
        },
        _ => {},
    }
    match attributes.get(kind.attribute_name()) {
        Some(AttributeValue::String(value)) => CaptionSource::Numbered(Some(value.clone())),
        Some(AttributeValue::Bool(true)) => CaptionSource::Numbered(None),
        _ => CaptionSource::Nothing,
    }
}

/// The label a source value gives: its text, or the empty string.
pub fn borrowed_label(value: Option<String>) -> (r: String)
    ensures
        r@ == label_of(
            match value {
                Some(s) => Some(s@),
                None => None,
            },
        ),
{
    match value {
        Some(v) => v,
        None => String::new(),
    }
}

impl Caption {
    /// Resolve caption behavior from the block's own attributes and options
    /// and the document attributes in effect at the block (see
    /// [`caption_source_spec`]). Sets no ordinal.
    pub fn resolve(metadata: &BlockMetadata, attributes: &DocumentAttributes, kind: CaptionKind) -> (r:
        Self)
        requires
            metadata.wf(),
            attributes.wf(),
        ensures
            r@ == resolved_caption(
                caption_source_spec(views(metadata.options@), metadata.attributes@, attributes@, kind),
                kind,
            ),
    {
        match caption_source(metadata, attributes, kind) {
            CaptionSource::Custom(value) => Caption::Custom(borrowed_label(value)),
            CaptionSource::Numbered(value) => Caption::Numbered {
                kind,
                label: borrowed_label(value),
                number: None,
            },
            CaptionSource::Nothing => Caption::Unnumbered,
        }
    }

    /// The caption of a block, holding its own copy of the label (see
    /// [`Caption::resolve`]; the labels here are always owned).
    pub fn resolve_owned(metadata: &BlockMetadata, attributes: &DocumentAttributes, kind: CaptionKind) -> (r:
        Self)
        requires
            metadata.wf(),
            attributes.wf(),
        ensures
            r@ == resolved_caption(
                caption_source_spec(views(metadata.options@), metadata.attributes@, attributes@, kind),
                kind,
            ),
    {
        Caption::resolve(metadata, attributes, kind)
    }
}

/// One ordinal counter per caption kind.
#[derive(Debug)]
pub struct CaptionCounters {
    pub example: u32,
    pub figure: u32,
    pub listing: u32,
    pub table: u32,
}

/// The counter of `kind`.
pub open spec fn counter_of(c: CaptionCounters, kind: CaptionKind) -> u32 {
    match kind {
        CaptionKind::Example => c.example,
        CaptionKind::Figure => c.figure,
        CaptionKind::Listing => c.listing,
        CaptionKind::Table => c.table,
    }
}

/// `n + 1`, saturating at `u32::MAX`.
pub open spec fn bump(n: u32) -> u32 {
    if n < u32::MAX {
        (n + 1) as u32
    } else {
        u32::MAX
    }
}

/// The counters after advancing the one of `kind`.
pub open spec fn bumped(c: CaptionCounters, kind: CaptionKind) -> CaptionCounters {
    match kind {
        CaptionKind::Example => CaptionCounters { example: bump(c.example), ..c },
        CaptionKind::Figure => CaptionCounters { figure: bump(c.figure), ..c },
        CaptionKind::Listing => CaptionCounters { listing: bump(c.listing), ..c },
        CaptionKind::Table => CaptionCounters { table: bump(c.table), ..c },
    }
}

/// All counters at zero.
pub open spec fn zero_counters() -> CaptionCounters {
    CaptionCounters { example: 0, figure: 0, listing: 0, table: 0 }
}

impl CaptionCounters {
    /// All counters at zero.
    pub fn new() -> (r: Self)
        ensures
            r == zero_counters(),
    {
        CaptionCounters { example: 0, figure: 0, listing: 0, table: 0 }
    }

    /// Advance the counter of `kind` (saturating) and return its new value,
    /// which is never zero.
    pub fn next(&mut self, kind: CaptionKind) -> (r: Option<u32>)
        ensures
            r == Some(bump(counter_of(*old(self), kind))),
            *final(self) == bumped(*old(self), kind),
            forall|k: CaptionKind|
                counter_of(*final(self), k) == if k == kind {
                    bump(counter_of(*old(self), k))
                } else {
                    counter_of(*old(self), k)
                },
    {
        let n = match kind {
            CaptionKind::Example => {
                self.example = self.example.saturating_add(1);
                self.example
            },
            CaptionKind::Figure => {
                self.figure = self.figure.saturating_add(1);
                self.figure
            },
            CaptionKind::Listing => {
                self.listing = self.listing.saturating_add(1);
                self.listing
            },
            CaptionKind::Table => {
                self.table = self.table.saturating_add(1);
                self.table
            },
        };
        if n == 0 {
            None
        } else {
            Some(n)
        }
    }
}

// ----------------------------------------------------------------------------
// Caption ordinals over the block tree.
// ----------------------------------------------------------------------------

/// A type-specific caption on a block and the ordinal it holds.
#[derive(Debug)]
pub struct NumberedCaption {
    pub kind: CaptionKind,
    pub number: Option<u32>,
}

/// The part of a block that caption numbering reads: its numbered caption,
/// whether it has a title, and the blocks it holds, in source order (section
/// content, list items, compound delimited blocks, and table cells by header,
/// rows, then footer).
#[derive(Debug)]
pub struct CaptionNode {
    pub caption: Option<NumberedCaption>,
    pub titled: bool,
    pub children: Vec<CaptionNode>,
}

/// The ordinals assigned to the numbered captions of `ns` in order (a
/// block's content before the block), and the counters after. A titled block
/// takes the next ordinal of its kind; an untitled one takes none and
/// consumes nothing.
pub open spec fn caption_ordinals(ns: Seq<CaptionNode>, c: CaptionCounters) -> (Seq<Option<u32>>, CaptionCounters)
    decreases ns,
{
    if ns.len() == 0 {
        (Seq::empty(), c)
    } else {
        let first = node_ordinals(ns[0], c);
        let rest = caption_ordinals(ns.drop_first(), first.1);
        (first.0 + rest.0, rest.1)
    }
}

/// The ordinals of one block and its content (see [`caption_ordinals`]).
pub open spec fn node_ordinals(n: CaptionNode, c: CaptionCounters) -> (Seq<Option<u32>>, CaptionCounters)
    decreases n,
{
    let inner = caption_ordinals(n.children@, c);
    match n.caption {
        Some(cap) => if n.titled {
            (inner.0.push(Some(bump(counter_of(inner.1, cap.kind)))), bumped(inner.1, cap.kind))
        } else {
            (inner.0.push(None), inner.1)
        },
        None => inner,
    }
}

fn ordinals_of_node(node: &CaptionNode, counters: &mut CaptionCounters, out: &mut Vec<Option<u32>>)
    ensures
        ({
            let w = node_ordinals(*node, *old(counters));
            &&& final(out)@ == old(out)@ + w.0
            &&& *final(counters) == w.1
        }),
    decreases *node, 1int,
{
    proof {
        assert(decreases_to!(*node => node.children));
        assert(decreases_to!(node.children => node.children@));
    }
    let ghost before = out@;
    ordinals_of_nodes(&node.children, counters, out);
    let ghost inner = caption_ordinals(node.children@, *old(counters));
    match &node.caption {
        Some(cap) => {
            let number = if node.titled {
                counters.next(cap.kind)
            } else {
                None
            };
            out.push(number);
            assert(out@ =~= before + inner.0.push(number));
        },
        None => {},
    }
}

fn ordinals_of_nodes(nodes: &Vec<CaptionNode>, counters: &mut CaptionCounters, out: &mut Vec<Option<u32>>)
    ensures
        ({
            let w = caption_ordinals(nodes@, *old(counters));
            &&& final(out)@ == old(out)@ + w.0
            &&& *final(counters) == w.1
        }),
    decreases nodes@, 0int,
{
    let ghost total = caption_ordinals(nodes@, *counters);
    let ghost base = out@;
    let mut i: usize = 0;
    assert(nodes@.skip(0) =~= nodes@);
    assert(base + Seq::<Option<u32>>::empty() =~= base);
    while i < nodes.len()
        invariant
            i <= nodes@.len(),
            ({
                let tail = caption_ordinals(nodes@.skip(i as int), *counters);
                &&& out@ + tail.0 == base + total.0
                &&& tail.1 == total.1
            }),
        decreases nodes.len() - i,
    {
        let ghost before = out@;
        let ghost c = *counters;
        let ghost rest = nodes@.skip(i as int);
        assert(rest[0] == nodes@[i as int]);
        assert(rest.drop_first() =~= nodes@.skip(i + 1));
        ordinals_of_node(&nodes[i], counters, out);
        let ghost w = node_ordinals(nodes@[i as int], c);
        let ghost later = caption_ordinals(nodes@.skip(i + 1), w.1);
        assert(out@ + later.0 =~= before + (w.0 + later.0));
        i = i + 1;
    }
    proof {
        assert(nodes@.skip(i as int) =~= Seq::<CaptionNode>::empty());
        assert(out@ + Seq::<Option<u32>>::empty() =~= out@);
    }
}

/// Assign document-wide caption ordinals, a block's content before the
/// block itself, with one counter per kind: the ordinals of the numbered
/// captions in that order (see [`caption_ordinals`]).
pub fn renumber_captions(blocks: &Vec<CaptionNode>) -> (r: Vec<Option<u32>>)
    ensures
        r@ == caption_ordinals(blocks@, zero_counters()).0,
{
    let mut counters = CaptionCounters::new();
    let mut out: Vec<Option<u32>> = Vec::new();
    ordinals_of_nodes(blocks, &mut counters, &mut out);
    assert(Seq::<Option<u32>>::empty() + caption_ordinals(blocks@, zero_counters()).0 =~= caption_ordinals(blocks@, zero_counters()).0);
    out
}

/// The numbered captions of `ns` in numbering order (a block's content
/// before the block), each as its kind and whether its block has a title.
pub open spec fn caption_sequence(ns: Seq<CaptionNode>) -> Seq<(CaptionKind, bool)>
    decreases ns,
{
    if ns.len() == 0 {
        Seq::empty()
    } else {
        node_sequence(ns[0]) + caption_sequence(ns.drop_first())
    }
}

/// The numbered captions of one block and its content in numbering order.
pub open spec fn node_sequence(n: CaptionNode) -> Seq<(CaptionKind, bool)>
    decreases n,
{
    let inner = caption_sequence(n.children@);
    match n.caption {
        Some(cap) => inner.push((cap.kind, n.titled)),
        None => inner,
    }
}

/// How many of the captions in `s` are titled and of `kind`.
pub open spec fn titled_count(s: Seq<(CaptionKind, bool)>, kind: CaptionKind) -> nat
    decreases s.len(),
{
    if s.len() == 0 {
        0
    } else {
        titled_count(s.drop_last(), kind) + if s.last().1 && s.last().0 == kind {
            1nat
        } else {
            0nat
        }
    }
}

/// `n`, or `u32::MAX` where it is larger.
pub open spec fn saturated(n: int) -> u32 {
    if n < u32::MAX {
        n as u32
    } else {
        u32::MAX
    }
}

proof fn lemma_titled_count_concat(a: Seq<(CaptionKind, bool)>, b: Seq<(CaptionKind, bool)>, kind: CaptionKind)
    ensures
        titled_count(a + b, kind) == titled_count(a, kind) + titled_count(b, kind),
    decreases b.len(),
{
    if b.len() == 0 {
        assert(a + b =~= a);
    } else {
        lemma_titled_count_concat(a, b.drop_last(), kind);
        assert((a + b).drop_last() =~= a + b.drop_last());
        assert((a + b).last() == b.last());
    }
}

proof fn lemma_counters_step(c: CaptionCounters, n: nat, k: CaptionKind)
    requires
        0 <= n,
    ensures
        bump(saturated(counter_of(c, k) + n)) == saturated(counter_of(c, k) + n + 1),
{
}

proof fn lemma_saturated_shift(a: int, b: int)
    requires
        0 <= a,
        0 <= b,
    ensures
        saturated(saturated(a) + b) == saturated(a + b),
{
}

/// The ordinals from counters `c`: each titled caption takes its kind's
/// counter advanced by the titled captions of that kind so far, including
/// itself; the counters end advanced by all of them.
proof fn lemma_nodes_ordinals(ns: Seq<CaptionNode>, c: CaptionCounters)
    ensures
        ({
            let s = caption_sequence(ns);
            let w = caption_ordinals(ns, c);
            &&& w.0.len() == s.len()
            &&& forall|i: int|
                0 <= i < s.len() ==> #[trigger] w.0[i] == if s[i].1 {
                    Some(saturated(counter_of(c, s[i].0) + titled_count(s.take(i + 1), s[i].0)))
                } else {
                    None
                }
            &&& forall|k: CaptionKind| #[trigger] counter_of(w.1, k) == saturated(counter_of(c, k) + titled_count(s, k))
        }),
    decreases ns,
{
    let s = caption_sequence(ns);
    let w = caption_ordinals(ns, c);
    if ns.len() == 0 {
        assert forall|k: CaptionKind| #[trigger] counter_of(w.1, k) == saturated(counter_of(c, k) + titled_count(s, k)) by {
        }
    } else {
        lemma_node_ordinals(ns[0], c);
        let first = node_ordinals(ns[0], c);
        let s1 = node_sequence(ns[0]);
        lemma_nodes_ordinals(ns.drop_first(), first.1);
        let rest = caption_ordinals(ns.drop_first(), first.1);
        let s2 = caption_sequence(ns.drop_first());
        assert(s == s1 + s2);
        assert(w.0 == first.0 + rest.0);
        assert forall|i: int| 0 <= i < s.len() implies #[trigger] w.0[i] == if s[i].1 {
            Some(saturated(counter_of(c, s[i].0) + titled_count(s.take(i + 1), s[i].0)))
        } else {
            None
        } by {
            if i < s1.len() {
                assert(w.0[i] == first.0[i]);
                assert(s[i] == s1[i]);
                assert(s.take(i + 1) =~= s1.take(i + 1));
            } else {
                let j = i - s1.len();
                assert(w.0[i] == rest.0[j]);
                assert(s[i] == s2[j]);
                assert(s.take(i + 1) =~= s1 + s2.take(j + 1));
                lemma_titled_count_concat(s1, s2.take(j + 1), s[i].0);
                assert(counter_of(first.1, s[i].0) == saturated(counter_of(c, s[i].0) + titled_count(s1, s[i].0)));
                lemma_saturated_shift(
                    counter_of(c, s[i].0) + titled_count(s1, s[i].0),
                    titled_count(s2.take(j + 1), s[i].0) as int,
                );
            }
        }
        assert forall|k: CaptionKind| #[trigger] counter_of(w.1, k) == saturated(counter_of(c, k) + titled_count(s, k)) by {
            assert(counter_of(first.1, k) == saturated(counter_of(c, k) + titled_count(s1, k)));
            assert(counter_of(rest.1, k) == saturated(counter_of(first.1, k) + titled_count(s2, k)));
            lemma_titled_count_concat(s1, s2, k);
            lemma_saturated_shift(counter_of(c, k) + titled_count(s1, k), titled_count(s2, k) as int);
        }
    }
}

proof fn lemma_node_ordinals(n: CaptionNode, c: CaptionCounters)
    ensures
        ({
            let s = node_sequence(n);
            let w = node_ordinals(n, c);
            &&& w.0.len() == s.len()
            &&& forall|i: int|
                0 <= i < s.len() ==> #[trigger] w.0[i] == if s[i].1 {
                    Some(saturated(counter_of(c, s[i].0) + titled_count(s.take(i + 1), s[i].0)))
                } else {
                    None
                }
            &&& forall|k: CaptionKind| #[trigger] counter_of(w.1, k) == saturated(counter_of(c, k) + titled_count(s, k))
        }),
    decreases n,
{
    lemma_nodes_ordinals(n.children@, c);
    let inner = caption_ordinals(n.children@, c);
    let si = caption_sequence(n.children@);
    let s = node_sequence(n);
    let w = node_ordinals(n, c);
    match n.caption {
        Some(cap) => {
            let e = (cap.kind, n.titled);
            assert(s == si.push(e));
            assert forall|i: int| 0 <= i < s.len() implies #[trigger] w.0[i] == if s[i].1 {
                Some(saturated(counter_of(c, s[i].0) + titled_count(s.take(i + 1), s[i].0)))
            } else {
                None
            } by {
                if i < si.len() {
                    assert(w.0[i] == inner.0[i]);
                    assert(s[i] == si[i]);
                    assert(s.take(i + 1) =~= si.take(i + 1));
                } else {
                    assert(i == si.len());
                    assert(s.take(i + 1) =~= s);
                    assert(s.drop_last() =~= si);
                    if n.titled {
                        lemma_counters_step(c, titled_count(si, cap.kind), cap.kind);
                    }
                }
            }
            assert forall|k: CaptionKind| #[trigger] counter_of(w.1, k) == saturated(counter_of(c, k) + titled_count(s, k)) by {
                assert(s.drop_last() =~= si);
                assert(counter_of(inner.1, k) == saturated(counter_of(c, k) + titled_count(si, k)));
                if n.titled && k == cap.kind {
                    lemma_counters_step(c, titled_count(si, k), k);
                }
            }
        },
        None => {},
    }
}

/// Caption ordinals run 1, 2, 3, … for each kind in numbering order: a
/// titled block's caption takes the number of titled captions of its kind
/// up to and including it (saturating at `u32::MAX`), and an untitled one
/// takes none.
pub proof fn law_caption_ordinals_count_per_kind(blocks: Seq<CaptionNode>)
    ensures
        ({
            let s = caption_sequence(blocks);
            let o = caption_ordinals(blocks, zero_counters()).0;
            &&& o.len() == s.len()
            &&& forall|i: int|
                0 <= i < s.len() ==> #[trigger] o[i] == if s[i].1 {
                    Some(saturated(titled_count(s.take(i + 1), s[i].0) as int))
                } else {
                    None
                }
        }),
{
    lemma_nodes_ordinals(blocks, zero_counters());
    let s = caption_sequence(blocks);
    assert forall|k: CaptionKind| #[trigger] counter_of(zero_counters(), k) == 0 by {}
}

/// Numbering reads no ordinal that a caption already holds, only the kinds
/// and titles in numbering order: two block trees that agree on those get
/// the same ordinals, so numbering again gives what the first run gave.
pub proof fn law_renumbering_ignores_held_ordinals(a: Seq<CaptionNode>, b: Seq<CaptionNode>)
    requires
        caption_sequence(a) == caption_sequence(b),
    ensures
        caption_ordinals(a, zero_counters()).0 == caption_ordinals(b, zero_counters()).0,
{
    law_caption_ordinals_count_per_kind(a);
    law_caption_ordinals_count_per_kind(b);
    let oa = caption_ordinals(a, zero_counters()).0;
    let ob = caption_ordinals(b, zero_counters()).0;
    let s = caption_sequence(a);
    assert forall|i: int| 0 <= i < oa.len() implies oa[i] == ob[i] by {
        assert(oa[i] == if s[i].1 {
            Some(saturated(titled_count(s.take(i + 1), s[i].0) as int))
        } else {
            None
        });
    }
    assert(oa =~= ob);
}

/// The highest ordinal held by a caption of `kind` in `ns` and their content
/// (0 when none holds one).
pub open spec fn highest_in(ns: Seq<CaptionNode>, kind: CaptionKind) -> u32
    decreases ns,
{
    if ns.len() == 0 {
        0
    } else {
        let a = highest_in_node(ns[0], kind);
        let b = highest_in(ns.drop_first(), kind);
        if a >= b {
            a
        } else {
            b
        }
    }
}

/// The highest ordinal of `kind` on a block or its content.
pub open spec fn highest_in_node(n: CaptionNode, kind: CaptionKind) -> u32
    decreases n,
{
    let inner = highest_in(n.children@, kind);
    match n.caption {
        Some(cap) => if cap.kind == kind && cap.number is Some && cap.number->0 > inner {
            cap.number->0
        } else {
            inner
        },
        None => inner,
    }
}

fn highest_of_node(node: &CaptionNode, kind: CaptionKind) -> (r: u32)
    ensures
        r == highest_in_node(*node, kind),
    decreases *node, 1int,
{
    proof {
        assert(decreases_to!(*node => node.children));
        assert(decreases_to!(node.children => node.children@));
    }
    let inner = highest_caption_number(&node.children, kind);
    match &node.caption {
        Some(cap) => {
            match cap.number {
                Some(n) => if cap.kind == kind && n > inner {
                    n
                } else {
                    inner
                },
                None => inner,
            }
        },
        None => inner,
    }
}

/// The highest ordinal held by a caption of `kind` anywhere in `blocks`, or
/// 0 when none holds one.
pub fn highest_caption_number(blocks: &Vec<CaptionNode>, kind: CaptionKind) -> (r: u32)
    ensures
        r == highest_in(blocks@, kind),
    decreases blocks@, 0int,
{
    let mut best: u32 = 0;
    let mut i: usize = blocks.len();
    assert(blocks@.skip(blocks@.len() as int) =~= Seq::<CaptionNode>::empty());
    while i > 0
        invariant
            i <= blocks@.len(),
            best == highest_in(blocks@.skip(i as int), kind),
        decreases i,
    {
        let ghost rest = blocks@.skip(i - 1);
        assert(rest[0] == blocks@[i - 1]);
        assert(rest.drop_first() =~= blocks@.skip(i as int));
        let a = highest_of_node(&blocks[i - 1], kind);
        best = if a >= best {
            a
        } else {
            best
        };
        i = i - 1;
    }
    assert(blocks@.skip(0) =~= blocks@);
    best
}

} // verus!
