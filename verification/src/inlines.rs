//! Inline node types: text runs, callouts, passthroughs, UI macros, math and
//! cross-reference styles.
use vstd::prelude::*;

use crate::lines::views;
use crate::location::Location;
use crate::model::StemNotation;
use crate::substitution::Substitution;
use crate::text::{chars_of, contains_seq, has_char, owned, str_contains, str_eq};

verus! {

/// Whether a quoted text span is constrained (bounded by word characters) or not.
#[derive(Clone, Copy, Debug, PartialEq, Eq, Structural)]
pub enum Form {
    Constrained,
    Unconstrained,
}

/// A curved apostrophe standing alone.
#[derive(Debug)]
pub struct StandaloneCurvedApostrophe {
    pub location: Location,
}

/// A hard line break.
#[derive(Debug)]
pub struct LineBreak {
    pub location: Location,
}

/// Plain text.
#[derive(Debug)]
pub struct Plain {
    pub content: String,
    pub location: Location,
    /// Whether the text was written escaped.
    pub escaped: bool,
}

/// Text that skips inline parsing but still takes the listed substitutions.
#[derive(Debug)]
pub struct Raw {
    pub content: String,
    pub location: Location,
    pub subs: Vec<Substitution>,
}

/// Verbatim text.
#[derive(Debug)]
pub struct Verbatim {
    pub content: String,
    pub location: Location,
}

/// How a callout reference was numbered.
#[derive(Clone, Copy, Debug, PartialEq, Eq, Structural)]
pub enum CalloutRefKind {
    /// Written with its number, `<1>`.
    Explicit,
    /// Numbered automatically, `<.>`.
    Auto,
}

/// A callout reference in a verbatim block.
#[derive(Debug)]
pub struct CalloutRef {
    pub kind: CalloutRefKind,
    pub number: usize,
    pub location: Location,
}

impl CalloutRef {
    /// An explicitly numbered callout.
    pub fn explicit(number: usize, location: Location) -> (r: Self)
        ensures
            r.kind == CalloutRefKind::Explicit,
            r.number == number,
            r.location == location,
    {
        CalloutRef { kind: CalloutRefKind::Explicit, number, location }
    }

    /// An automatically numbered callout.
    pub fn auto(number: usize, location: Location) -> (r: Self)
        ensures
            r.kind == CalloutRefKind::Auto,
            r.number == number,
            r.location == location,
    {
        CalloutRef { kind: CalloutRefKind::Auto, number, location }
    }
}

/// The syntax of a passthrough.
#[derive(Clone, Copy, Debug, PartialEq, Eq, Structural)]
pub enum PassthroughKind {
    /// `+text+` (the default).
    Single,
    /// `++text++`.
    Double,
    /// `+++text+++`.
    Triple,
    /// `pass:[text]`.
    Macro,
    /// A character replacement attribute expanded as a passthrough.
    AttributeRef,
}

impl Default for PassthroughKind {
    fn default() -> (r: Self)
        ensures
            r == PassthroughKind::Single,
    {
        PassthroughKind::Single
    }
}

/// A passthrough.
#[derive(Debug)]
pub struct Pass {
    pub text: Option<String>,
    pub substitutions: Vec<Substitution>,
    pub location: Location,
    pub kind: PassthroughKind,
}

/// An inline button, `btn:[label]`.
#[derive(Debug)]
pub struct Button {
    pub label: String,
    pub location: Location,
}

/// An inline menu, `menu:target[items]`.
#[derive(Debug)]
pub struct Menu {
    pub target: String,
    pub items: Vec<String>,
    pub location: Location,
}

/// An inline keyboard shortcut, `kbd:[keys]`.
#[derive(Debug)]
pub struct Keyboard {
    pub keys: Vec<String>,
    pub location: Location,
}

impl Keyboard {
    /// A keyboard shortcut of the given keys.
    pub fn new(keys: Vec<String>, location: Location) -> (r: Self)
        ensures
            r.keys@ == keys@,
            r.location == location,
    {
        Keyboard { keys, location }
    }
}

/// The word that introduces a section number in an automatic cross-reference.
#[derive(Debug)]
pub enum XrefSignifier {
    /// The standard word for the section's category (the default).
    Standard,
    /// This word before the number, as recorded where the reference is written.
    AtReference(String),
    /// The number alone.
    Omitted,
}

/// The label an automatic cross-reference to a numbered caption uses.
#[derive(Debug)]
pub enum XrefCaptionLabel {
    /// The caption label recorded on the target (the default).
    AtTarget,
    /// The caption label active at the reference.
    AtReference(String),
    /// Only the caption number.
    NumberOnly,
}

/// The display style of an automatic cross-reference.
#[derive(Clone, Copy, Debug, PartialEq, Eq, Structural)]
pub enum XrefStyle {
    /// The target title as written (the default).
    Default,
    /// The target title, emphasizing chapter and appendix titles.
    Basic,
    /// The caption label and number, or a custom prefix.
    Short,
    /// The caption prefix followed by the target title.
    Full,
}

/// The style an `xrefstyle` value selects: none gives the default, `short`
/// and `full` select themselves, and any other value is basic.
pub open spec fn xref_style_of(value: Option<Seq<char>>) -> XrefStyle {
    match value {
        None => XrefStyle::Default,
        Some(v) => if v == "short"@ {
            XrefStyle::Short
        } else if v == "full"@ {
            XrefStyle::Full
        } else {
            XrefStyle::Basic
        },
    }
}

impl XrefStyle {
    /// The style an `xrefstyle` attribute value selects (see [`xref_style_of`]).
    pub fn from_attribute(value: Option<&str>) -> (r: Self)
        ensures
            r == xref_style_of(
                match value {
                    Some(v) => Some(v@),
                    None => None,
                },
            ),
    {
        match value {
            None => XrefStyle::Default,
            Some(v) => if str_eq(v, "short") {
                XrefStyle::Short
            } else if str_eq(v, "full") {
                XrefStyle::Full
            } else {
                XrefStyle::Basic
            },
        }
    }
}

/// Whether a cross-reference target points into this document: the part
/// before the first `#` is empty, or, without a `#`, the target has neither
/// a `.` nor a `:` (a bare ID rather than a path or URL).
pub open spec fn local_target(t: Seq<char>) -> bool {
    if t.contains('#') {
        t[0] == '#'
    } else {
        !t.contains('.') && !t.contains(':')
    }
}

/// Whether a cross-reference target points into this document (see
/// [`local_target`]).
pub fn is_local_target(target: &str) -> (r: bool)
    ensures
        r == local_target(target@),
{
    let v = chars_of(target);
    if has_char(v.as_slice(), '#') {
        v[0] == '#'
    } else {
        !has_char(v.as_slice(), '.') && !has_char(v.as_slice(), ':')
    }
}

/// An inline mathematical expression.
#[derive(Debug)]
pub struct Stem {
    pub content: String,
    pub notation: StemNotation,
    pub location: Location,
}

} // verus!
