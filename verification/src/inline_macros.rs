//! Inline macros and quote attributions: links, URLs, mail addresses,
//! autolinks, footnotes, icons, cross-references and index terms, with their
//! inline content read as [`TextNode`]s.
use vstd::prelude::*;

use crate::attributes::ElementAttributes;
use crate::inline_text::TextNode;
use crate::inlines::{is_local_target, local_target, XrefCaptionLabel, XrefSignifier, XrefStyle};
use crate::location::Location;
use crate::media::Source;
use crate::text::owned;

verus! {

/// An inline link: its text, target, attributes and where it stands.
#[derive(Debug)]
pub struct Link {
    pub text: Vec<TextNode>,
    pub target: Source,
    pub attributes: ElementAttributes,
    pub location: Location,
    pub hide_uri_scheme: bool,
}

impl Link {
    /// A link to `target` with no text and no attributes, showing its scheme.
    pub fn new(target: Source, location: Location) -> (r: Self)
        ensures
            r.text@.len() == 0,
            r.target == target,
            r.attributes.wf(),
            r.attributes@ == Map::<Seq<char>, crate::attributes::SpecAttributeValue>::empty(),
            r.location == location,
            !r.scheme_hidden(),
    {
        Link { text: Vec::new(), target, attributes: ElementAttributes::new(), location, hide_uri_scheme: false }
    }

    /// The link with `text` as its text.
    pub fn with_text(self, text: Vec<TextNode>) -> (r: Self)
        ensures
            r.text@ == text@,
            r.target == self.target,
            r.attributes@ == self.attributes@,
            r.location == self.location,
            r.scheme_hidden() == self.scheme_hidden(),
    {
        Link { text, ..self }
    }

    /// The link with `attributes` as its attributes.
    pub fn with_attributes(self, attributes: ElementAttributes) -> (r: Self)
        ensures
            r.text@ == self.text@,
            r.target == self.target,
            r.attributes@ == attributes@,
            r.location == self.location,
            r.scheme_hidden() == self.scheme_hidden(),
    {
        Link { attributes, ..self }
    }

    /// Whether the link's fallback text leaves out the target's URI scheme.
    pub open spec fn scheme_hidden(&self) -> bool {
        self.hide_uri_scheme
    }

    /// Whether the link's fallback text leaves out the target's URI scheme.
    pub fn hides_uri_scheme(&self) -> (r: bool)
        ensures
            r == self.scheme_hidden(),
    {
        self.hide_uri_scheme
    }
}

/// An inline URL.
#[derive(Debug)]
pub struct InlineUrl {
    pub text: Vec<TextNode>,
    pub target: Source,
    pub attributes: ElementAttributes,
    pub location: Location,
    pub hide_uri_scheme: bool,
}

impl InlineUrl {
    /// Whether the URL's fallback text leaves out its URI scheme.
    pub open spec fn scheme_hidden(&self) -> bool {
        self.hide_uri_scheme
    }

    /// Whether the URL's fallback text leaves out its URI scheme.
    pub fn hides_uri_scheme(&self) -> (r: bool)
        ensures
            r == self.scheme_hidden(),
    {
        self.hide_uri_scheme
    }
}

/// An inline `mailto:` address.
#[derive(Debug)]
pub struct Mailto {
    pub text: Vec<TextNode>,
    pub target: Source,
    pub attributes: ElementAttributes,
    pub location: Location,
}

/// An inline autolink, and whether it was written in angle brackets (which
/// the output keeps).
#[derive(Debug)]
pub struct Autolink {
    pub url: Source,
    pub bracketed: bool,
    pub location: Location,
    pub hide_uri_scheme: bool,
}

impl Autolink {
    /// Whether the autolink's fallback text leaves out its URI scheme.
    pub open spec fn scheme_hidden(&self) -> bool {
        self.hide_uri_scheme
    }

    /// Whether the autolink's fallback text leaves out its URI scheme.
    pub fn hides_uri_scheme(&self) -> (r: bool)
        ensures
            r == self.scheme_hidden(),
    {
        self.hide_uri_scheme
    }
}

/// An inline footnote: its id when it has one, its content and its number.
#[derive(Debug)]
pub struct Footnote {
    pub id: Option<String>,
    pub content: Vec<TextNode>,
    pub number: u32,
    pub location: Location,
}

/// An inline icon.
#[derive(Debug)]
pub struct Icon {
    pub target: Source,
    pub attributes: ElementAttributes,
    pub location: Location,
}

/// An inline cross-reference: its target, whether that target lies in this
/// document, its text, and how an automatic reference to it is shown.
#[derive(Debug)]
pub struct CrossReference {
    pub target: String,
    pub target_is_local: bool,
    pub text: Vec<TextNode>,
    pub location: Location,
    pub xrefstyle: XrefStyle,
    pub caption_label: XrefCaptionLabel,
    pub signifier: XrefSignifier,
    /// The `role=` of an `xref:` macro.
    pub role: Option<String>,
}

impl CrossReference {
    /// The word before a section number that the reference shows.
    pub open spec fn signifier_view(&self) -> XrefSignifier {
        self.signifier
    }

    /// A reference to `target` with no text: local when the target is a bare
    /// id (see [`local_target`]), in the default style, with the caption label
    /// recorded on the target, the standard signifier and no role.
    pub fn new(target: &str, location: Location) -> (r: Self)
        ensures
            r.target@ == target@,
            r.target_is_local == local_target(target@),
            r.text@.len() == 0,
            r.location == location,
            r.xrefstyle == XrefStyle::Default,
            r.caption_label is AtTarget,
            r.signifier_view() is Standard,
            r.role is None,
    {
        CrossReference {
            target: owned(target),
            target_is_local: is_local_target(target),
            text: Vec::new(),
            location,
            xrefstyle: XrefStyle::Default,
            caption_label: XrefCaptionLabel::AtTarget,
            signifier: XrefSignifier::Standard,
            role: None,
        }
    }

    /// The reference with `text` as its text.
    pub fn with_text(self, text: Vec<TextNode>) -> (r: Self)
        ensures
            r.text@ == text@,
            r.target@ == self.target@,
            r.target_is_local == self.target_is_local,
            r.location == self.location,
            r.xrefstyle == self.xrefstyle,
            r.caption_label == self.caption_label,
            r.signifier_view() == self.signifier_view(),
            r.role == self.role,
    {
        CrossReference { text, ..self }
    }

    /// The word before a section number.
    pub fn signifier(&self) -> (r: &XrefSignifier)
        ensures
            *r == self.signifier_view(),
    {
        &self.signifier
    }

    /// Override the word before a section number.
    pub fn set_signifier(&mut self, signifier: XrefSignifier)
        ensures
            final(self).signifier_view() == signifier,
            final(self).target == old(self).target,
            final(self).target_is_local == old(self).target_is_local,
            final(self).text == old(self).text,
            final(self).location == old(self).location,
            final(self).xrefstyle == old(self).xrefstyle,
            final(self).caption_label == old(self).caption_label,
            final(self).role == old(self).role,
    {
        self.signifier = signifier;
    }
}

/// The kind of an index term: a visible term, or a hidden one with up to two
/// more levels.
#[derive(Debug)]
pub enum IndexTermKind {
    Flow(Vec<TextNode>),
    Concealed { term: Vec<TextNode>, secondary: Option<Vec<TextNode>>, tertiary: Option<Vec<TextNode>> },
}

/// Where an index entry sends its readers.
#[derive(Debug)]
pub enum IndexTermRelationship {
    /// To this term in its place.
    See { target: Vec<TextNode> },
    /// To these related terms as well.
    SeeAlso { targets: Vec<Vec<TextNode>> },
}

/// An index term.
#[derive(Debug)]
pub struct IndexTerm {
    pub kind: IndexTermKind,
    pub relationship: Option<IndexTermRelationship>,
    pub location: Location,
}

impl IndexTerm {
    /// The primary term.
    pub fn term(&self) -> (r: &Vec<TextNode>)
        ensures
            match self.kind {
                IndexTermKind::Flow(t) => r@ == t@,
                IndexTermKind::Concealed { term, .. } => r@ == term@,
            },
    {
        match &self.kind {
            IndexTermKind::Flow(term) => term,
            IndexTermKind::Concealed { term, .. } => term,
        }
    }

    /// The secondary term of a hidden term, if it has one.
    pub fn secondary(&self) -> (r: Option<&Vec<TextNode>>)
        ensures
            match self.kind {
                IndexTermKind::Flow(_) => r is None,
                IndexTermKind::Concealed { secondary, .. } => match secondary {
                    Some(s) => r matches Some(x) && x@ == s@,
                    None => r is None,
                },
            },
    {
        match &self.kind {
            IndexTermKind::Flow(_) => None,
            IndexTermKind::Concealed { secondary, .. } => match secondary {
                Some(s) => Some(s),
                None => None,
            },
        }
    }

    /// The tertiary term of a hidden term, if it has one.
    pub fn tertiary(&self) -> (r: Option<&Vec<TextNode>>)
        ensures
            match self.kind {
                IndexTermKind::Flow(_) => r is None,
                IndexTermKind::Concealed { tertiary, .. } => match tertiary {
                    Some(s) => r matches Some(x) && x@ == s@,
                    None => r is None,
                },
            },
    {
        match &self.kind {
            IndexTermKind::Flow(_) => None,
            IndexTermKind::Concealed { tertiary, .. } => match tertiary {
                Some(s) => Some(s),
                None => None,
            },
        }
    }

    /// Whether the term shows in the output (a flow term).
    pub fn is_visible(&self) -> (r: bool)
        ensures
            r == (self.kind is Flow),
    {
        match &self.kind {
            IndexTermKind::Flow(_) => true,
            IndexTermKind::Concealed { .. } => false,
        }
    }
}

/// The attribution of a quote: who said it, as inline content.
#[derive(Debug)]
pub struct Attribution(Vec<TextNode>);

impl Attribution {
    /// The inline content of the attribution.
    pub closed spec fn content(&self) -> Seq<TextNode> {
        self.0@
    }

    /// An attribution of `inlines`.
    pub fn new(inlines: Vec<TextNode>) -> (r: Self)
        ensures
            r.content() == inlines@,
    {
        Attribution(inlines)
    }

    /// Whether the attribution has no content.
    pub fn is_empty(&self) -> (r: bool)
        ensures
            r == (self.content().len() == 0),
    {
        self.0.len() == 0
    }

    /// The number of inline nodes in the attribution.
    pub fn len(&self) -> (r: usize)
        ensures
            r == self.content().len(),
    {
        self.0.len()
    }
}

/// The title of a cited work, as inline content.
#[derive(Debug)]
pub struct CiteTitle(Vec<TextNode>);

impl CiteTitle {
    /// The inline content of the title.
    pub closed spec fn content(&self) -> Seq<TextNode> {
        self.0@
    }

    /// A cite title of `inlines`.
    pub fn new(inlines: Vec<TextNode>) -> (r: Self)
        ensures
            r.content() == inlines@,
    {
        CiteTitle(inlines)
    }

    /// Whether the title has no content.
    pub fn is_empty(&self) -> (r: bool)
        ensures
            r == (self.content().len() == 0),
    {
        self.0.len() == 0
    }

    /// The number of inline nodes in the title.
    pub fn len(&self) -> (r: usize)
        ensures
            r == self.content().len(),
    {
        self.0.len()
    }
}

} // verus!
