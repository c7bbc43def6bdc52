//! Small document model types: authors, comments, attribute entries, math
//! notations, list check marks and admonition variants.
use vstd::prelude::*;

use crate::attributes::{AttributeValue, SpecAttributeValue};
use crate::charclass::{to_lowercase_str, unicode_str_lowercase};
use crate::location::Location;
use crate::text::{chars_of, owned, push_char, push_str, str_eq};

verus! {

/// The author of a document.
#[derive(Debug)]
pub struct Author {
    pub first_name: String,
    pub middle_name: Option<String>,
    pub last_name: String,
    pub initials: String,
    pub email: Option<String>,
}

/// The text of an optional string.
pub open spec fn opt_view(o: Option<String>) -> Option<Seq<char>> {
    match o {
        Some(s) => Some(s@),
        None => None,
    }
}

/// `s` with every `_` replaced by a space.
pub open spec fn underscores_to_spaces(s: Seq<char>) -> Seq<char> {
    s.map_values(|c: char| if c == '_' { ' ' } else { c })
}

/// The initial of a name part: its first character, or the NUL character
/// for an empty part.
pub open spec fn initial_of(s: Seq<char>) -> Seq<char> {
    if s.len() > 0 {
        seq![s[0]]
    } else {
        seq!['\0']
    }
}

/// The initials of a name: one for the first name, and one for each of the
/// middle and last names that is given.
pub open spec fn initials_spec(first: Seq<char>, middle: Option<Seq<char>>, last: Option<Seq<char>>) -> Seq<
    char,
> {
    initial_of(first) + match middle {
        Some(m) => initial_of(m),
        None => Seq::empty(),
    } + match last {
        Some(l) => initial_of(l),
        None => Seq::empty(),
    }
}

/// The initial of a name part (see [`initial_of`]).
fn initial(part: &str) -> (r: String)
    ensures
        r@ == initial_of(part@),
{
    let v = chars_of(part);
    let mut s = String::new();
    if v.len() > 0 {
        push_char(&mut s, v[0]);
    } else {
        push_char(&mut s, '\0');
    }
    s
}

/// `s` with every `_` replaced by a space.
fn spaced(s: &str) -> (r: String)
    ensures
        r@ == underscores_to_spaces(s@),
{
    let v = chars_of(s);
    let mut out = String::new();
    let mut i: usize = 0;
    while i < v.len()
        invariant
            v@ == s@,
            i <= v@.len(),
            out@ == underscores_to_spaces(s@.take(i as int)),
        decreases v.len() - i,
    {
        let c = if v[i] == '_' {
            ' '
        } else {
            v[i]
        };
        push_char(&mut out, c);
        assert(underscores_to_spaces(s@.take(i + 1)) =~= underscores_to_spaces(
            s@.take(i as int),
        ).push(c));
        i = i + 1;
    }
    assert(s@.take(s@.len() as int) =~= s@);
    out
}

impl Author {
    /// Assemble an author from prepared name parts, without an email.
    pub fn from_parts(first_name: &str, middle_name: Option<&str>, last_name: &str, initials: &str) -> (r:
        Self)
        ensures
            r.first_name@ == first_name@,
            opt_view(r.middle_name) == match middle_name {
                Some(m) => Some(m@),
                None => None,
            },
            r.last_name@ == last_name@,
            r.initials@ == initials@,
            r.email is None,
    {
        Author {
            first_name: owned(first_name),
            middle_name: match middle_name {
                Some(m) => Some(owned(m)),
                None => None,
            },
            last_name: owned(last_name),
            initials: owned(initials),
            email: None,
        }
    }

    /// An author from the names written in a document header: underscores
    /// become spaces, a missing last name is empty, and the initials are
    /// computed from the resulting names.
    pub fn new(first_name: &str, middle_name: Option<&str>, last_name: Option<&str>) -> (r: Self)
        ensures
            r.first_name@ == underscores_to_spaces(first_name@),
            opt_view(r.middle_name) == match middle_name {
                Some(m) => Some(underscores_to_spaces(m@)),
                None => None,
            },
            r.last_name@ == match last_name {
                Some(l) => underscores_to_spaces(l@),
                None => Seq::empty(),
            },
            r.initials@ == initials_spec(
                underscores_to_spaces(first_name@),
                match middle_name {
                    Some(m) => Some(underscores_to_spaces(m@)),
                    None => None,
                },
                match last_name {
                    Some(l) => Some(underscores_to_spaces(l@)),
                    None => None,
                },
            ),
            r.email is None,
    {
        let first = spaced(first_name);
        let middle = match middle_name {
            Some(m) => Some(spaced(m)),
            None => None,
        };
        let last = match last_name {
            Some(l) => Some(spaced(l)),
            None => None,
        };
        let initials = Self::generate_initials(
            first.as_str(),
            match &middle {
                Some(m) => Some(m.as_str()),
                None => None,
            },
            match &last {
                Some(l) => Some(l.as_str()),
                None => None,
            },
        );
        let last_name = match last {
            Some(l) => l,
            None => String::new(),
        };
        Author { first_name: first, middle_name: middle, last_name, initials, email: None }
    }

    /// Set the email address.
    pub fn with_email(self, email: &str) -> (r: Self)
        ensures
            r.first_name == self.first_name,
            r.middle_name == self.middle_name,
            r.last_name == self.last_name,
            r.initials == self.initials,
            opt_view(r.email) == Some(email@),
    {
        Author { email: Some(owned(email)), ..self }
    }

    /// The initials of a name (see [`initials_spec`]).
    pub fn generate_initials(first: &str, middle: Option<&str>, last: Option<&str>) -> (r: String)
        ensures
            r@ == initials_spec(
                first@,
                match middle {
                    Some(m) => Some(m@),
                    None => None,
                },
                match last {
                    Some(l) => Some(l@),
                    None => None,
                },
            ),
    {
        let mut s = initial(first);
        match middle {
            Some(m) => {
                let i = initial(m);
                push_str(&mut s, i.as_str());
            },
            None => {},
        }
        match last {
            Some(l) => {
                let i = initial(l);
                push_str(&mut s, i.as_str());
            },
            None => {},
        }
        s
    }
}

/// A single-line comment in a document: it begins with `//` and produces no output.
#[derive(Debug)]
pub struct Comment {
    pub content: String,
    pub location: Location,
}

/// An attribute entry in a document: a name and a value.
#[derive(Debug)]
pub struct DocumentAttribute {
    pub name: String,
    pub value: AttributeValue,
    pub location: Location,
}

/// An attribute entry as mathematical values: name, value, location.
pub open spec fn entry_view(a: DocumentAttribute) -> (Seq<char>, SpecAttributeValue, Location) {
    (a.name@, a.value@, a.location)
}

/// Attribute entries viewed.
pub open spec fn entries_view(v: Seq<DocumentAttribute>) -> Seq<
    (Seq<char>, SpecAttributeValue, Location),
> {
    v.map_values(|a: DocumentAttribute| entry_view(a))
}

impl DocumentAttribute {
    /// A copy of this entry.
    pub fn duplicate(&self) -> (r: Self)
        ensures
            entry_view(r) == entry_view(*self),
    {
        DocumentAttribute {
            name: self.name.clone(),
            value: self.value.duplicate(),
            location: self.location.duplicate(),
        }
    }
}

/// Notation of a mathematical expression.
#[derive(Clone, Copy, Debug, PartialEq, Eq, Structural)]
pub enum StemNotation {
    Latexmath,
    Asciimath,
}

/// The name of a notation.
pub open spec fn notation_name(n: StemNotation) -> Seq<char> {
    match n {
        StemNotation::Latexmath => "latexmath"@,
        StemNotation::Asciimath => "asciimath"@,
    }
}

/// The notation a name denotes.
pub open spec fn notation_named(s: Seq<char>) -> Option<StemNotation> {
    if s == "latexmath"@ {
        Some(StemNotation::Latexmath)
    } else if s == "asciimath"@ {
        Some(StemNotation::Asciimath)
    } else {
        None
    }
}

/// Law: a notation's name denotes that notation.
pub proof fn law_notation_names_round_trip(n: StemNotation)
    ensures
        notation_named(notation_name(n)) == Some(n),
{
    reveal_strlit("latexmath");
    reveal_strlit("asciimath");
    assert("latexmath"@[0] != "asciimath"@[0]);
}

impl StemNotation {
    /// The notation's name: `latexmath` or `asciimath`.
    pub fn to_string(&self) -> (r: String)
        ensures
            r@ == notation_name(*self),
    {
        match self {
            StemNotation::Latexmath => owned("latexmath"),
            StemNotation::Asciimath => owned("asciimath"),
        }
    }

    /// The notation `s` names exactly; otherwise the message
    /// `unknown stem notation: ` followed by `s`.
    pub fn from_str(s: &str) -> (r: Result<Self, String>)
        ensures
            match notation_named(s@) {
                Some(n) => r == Ok::<StemNotation, String>(n),
                None => r matches Err(m) && m@ == "unknown stem notation: "@ + s@,
            },
    {
        proof {
            reveal_strlit("latexmath");
            reveal_strlit("asciimath");
            assert("latexmath"@[0] != "asciimath"@[0]);
        }
        if str_eq(s, "latexmath") {
            Ok(StemNotation::Latexmath)
        } else if str_eq(s, "asciimath") {
            Ok(StemNotation::Asciimath)
        } else {
            let mut m = owned("unknown stem notation: ");
            push_str(&mut m, s);
            Err(m)
        }
    }
}

/// The content of a stem block and its notation.
#[derive(Debug)]
pub struct StemContent {
    pub content: String,
    pub notation: StemNotation,
}

impl StemContent {
    /// Stem content with the given notation.
    pub fn new(content: &str, notation: StemNotation) -> (r: Self)
        ensures
            r.content@ == content@,
            r.notation == notation,
    {
        StemContent { content: owned(content), notation }
    }
}

/// The checked status of a list item.
#[derive(Clone, Copy, Debug, PartialEq, Eq, Structural)]
pub enum ListItemCheckedStatus {
    Checked,
    Unchecked,
}

/// The variant of an admonition block.
#[derive(Clone, Copy, Debug, PartialEq, Eq, Structural)]
pub enum AdmonitionVariant {
    Note,
    Tip,
    Important,
    Caution,
    Warning,
}

/// The lowercase name of a variant.
pub open spec fn variant_name(v: AdmonitionVariant) -> Seq<char> {
    match v {
        AdmonitionVariant::Note => "note"@,
        AdmonitionVariant::Tip => "tip"@,
        AdmonitionVariant::Important => "important"@,
        AdmonitionVariant::Caution => "caution"@,
        AdmonitionVariant::Warning => "warning"@,
    }
}

/// The variant whose name a lowercased label is.
pub open spec fn variant_named(lower: Seq<char>) -> Option<AdmonitionVariant> {
    if lower == "note"@ {
        Some(AdmonitionVariant::Note)
    } else if lower == "tip"@ {
        Some(AdmonitionVariant::Tip)
    } else if lower == "important"@ {
        Some(AdmonitionVariant::Important)
    } else if lower == "caution"@ {
        Some(AdmonitionVariant::Caution)
    } else if lower == "warning"@ {
        Some(AdmonitionVariant::Warning)
    } else {
        None
    }
}

/// Law: a variant's name denotes that variant.
pub proof fn law_variant_names_round_trip(v: AdmonitionVariant)
    ensures
        variant_named(variant_name(v)) == Some(v),
{
    reveal_strlit("note");
    reveal_strlit("tip");
    reveal_strlit("important");
    reveal_strlit("caution");
    reveal_strlit("warning");
    assert("note"@[0] != "tip"@[0] && "note"@[0] != "important"@[0] && "note"@[0] != "caution"@[0]
        && "note"@[0] != "warning"@[0]);
    assert("tip"@[0] != "important"@[0] && "tip"@[0] != "caution"@[0] && "tip"@[0]
        != "warning"@[0]);
    assert("important"@[0] != "caution"@[0] && "important"@[0] != "warning"@[0]);
    assert("caution"@[0] != "warning"@[0]);
}

impl AdmonitionVariant {
    /// The variant's lowercase name.
    pub fn to_string(&self) -> (r: String)
        ensures
            r@ == variant_name(*self),
    {
        match self {
            AdmonitionVariant::Note => owned("note"),
            AdmonitionVariant::Tip => owned("tip"),
            AdmonitionVariant::Important => owned("important"),
            AdmonitionVariant::Caution => owned("caution"),
            AdmonitionVariant::Warning => owned("warning"),
        }
    }

    /// The variant named by `variant` in any letter case; otherwise the
    /// message `unknown admonition variant: ` followed by `variant`.
    pub fn from_str(variant: &str) -> (r: Result<Self, String>)
        ensures
            match variant_named(unicode_str_lowercase(variant@)) {
                Some(v) => r == Ok::<AdmonitionVariant, String>(v),
                None => r matches Err(m) && m@ == "unknown admonition variant: "@ + variant@,
            },
    {
        let lower = to_lowercase_str(variant);
        let l = lower.as_str();
        if str_eq(l, "note") {
            Ok(AdmonitionVariant::Note)
        } else if str_eq(l, "tip") {
            Ok(AdmonitionVariant::Tip)
        } else if str_eq(l, "important") {
            Ok(AdmonitionVariant::Important)
        } else if str_eq(l, "caution") {
            Ok(AdmonitionVariant::Caution)
        } else if str_eq(l, "warning") {
            Ok(AdmonitionVariant::Warning)
        } else {
            let mut m = owned("unknown admonition variant: ");
            push_str(&mut m, variant);
            Err(m)
        }
    }
}


/// The kind of a delimited block, by its delimiter.
#[derive(Clone, Copy, Debug, PartialEq, Eq, Structural)]
pub enum DelimiterKind {
    Comment,
    Example,
    Listing,
    Literal,
    Open,
    Sidebar,
    Table,
    Pass,
    Quote,
    Verse,
    Stem,
}

/// The name of a delimited block kind.
pub open spec fn delimiter_name(k: DelimiterKind) -> Seq<char> {
    match k {
        DelimiterKind::Comment => "comment"@,
        DelimiterKind::Example => "example"@,
        DelimiterKind::Listing => "listing"@,
        DelimiterKind::Literal => "literal"@,
        DelimiterKind::Open => "open"@,
        DelimiterKind::Sidebar => "sidebar"@,
        DelimiterKind::Table => "table"@,
        DelimiterKind::Pass => "pass"@,
        DelimiterKind::Quote => "quote"@,
        DelimiterKind::Verse => "verse"@,
        DelimiterKind::Stem => "stem"@,
    }
}

impl DelimiterKind {
    /// The block's name.
    pub fn name(&self) -> (r: &'static str)
        ensures
            r@ == delimiter_name(*self),
    {
        match self {
            DelimiterKind::Comment => "comment",
            DelimiterKind::Example => "example",
            DelimiterKind::Listing => "listing",
            DelimiterKind::Literal => "literal",
            DelimiterKind::Open => "open",
            DelimiterKind::Sidebar => "sidebar",
            DelimiterKind::Table => "table",
            DelimiterKind::Pass => "pass",
            DelimiterKind::Quote => "quote",
            DelimiterKind::Verse => "verse",
            DelimiterKind::Stem => "stem",
        }
    }
}

} // verus!
