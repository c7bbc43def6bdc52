//! Anchors: points in a document that can be linked to.
use vstd::prelude::*;

use crate::inline_text::TextNode;
use crate::location::Location;
use crate::section::{SectionKind, SectionNumber};

verus! {

/// An anchor in a document: an id, an optional cross-reference label, where
/// it stands, and whether it identifies a bibliography entry.
#[derive(Debug)]
pub struct Anchor {
    pub id: String,
    pub xreflabel: Option<String>,
    pub location: Location,
    pub bibliography: bool,
}

/// An anchor as mathematical values: id, label, location, bibliography flag.
pub open spec fn anchor_view(a: Anchor) -> (Seq<char>, Option<Seq<char>>, Location, bool) {
    (
        a.id@,
        match a.xreflabel {
            Some(l) => Some(l@),
            None => None,
        },
        a.location,
        a.bibliography,
    )
}

/// The anchors viewed.
pub open spec fn anchors_view(v: Seq<Anchor>) -> Seq<(Seq<char>, Option<Seq<char>>, Location, bool)> {
    v.map_values(|a: Anchor| anchor_view(a))
}

impl Anchor {
    /// An anchor with the given id and location, no label, not a
    /// bibliography entry.
    pub fn new(id: String, location: Location) -> (r: Self)
        ensures
            anchor_view(r) == (id@, None::<Seq<char>>, location, false),
    {
        Anchor { id, xreflabel: None, location, bibliography: false }
    }

    /// Set the cross-reference label.
    pub fn with_xreflabel(self, xreflabel: Option<String>) -> (r: Self)
        ensures
            r.id@ == self.id@,
            r.location == self.location,
            r.bibliography == self.bibliography,
            match xreflabel {
                Some(l) => r.xreflabel matches Some(m) && m@ == l@,
                None => r.xreflabel is None,
            },
    {
        Anchor { xreflabel, ..self }
    }

    /// Whether this anchor identifies a bibliography entry.
    pub fn is_bibliography(&self) -> (r: bool)
        ensures
            r == self.bibliography,
    {
        self.bibliography
    }

    /// A copy of this anchor.
    pub fn duplicate(&self) -> (r: Self)
        ensures
            anchor_view(r) == anchor_view(*self),
    {
        Anchor {
            id: self.id.clone(),
            xreflabel: match &self.xreflabel {
                Some(l) => Some(l.clone()),
                None => None,
            },
            location: self.location.duplicate(),
            bibliography: self.bibliography,
        }
    }
}

/// A copy of each anchor.
pub fn duplicate_anchors(v: &Vec<Anchor>) -> (r: Vec<Anchor>)
    ensures
        anchors_view(r@) == anchors_view(v@),
{
    let mut r: Vec<Anchor> = Vec::new();
    let mut i: usize = 0;
    while i < v.len()
        invariant
            i <= v@.len(),
            r@.len() == i,
            forall|k: int| 0 <= k < i ==> anchor_view(#[trigger] r@[k]) == anchor_view(v@[k]),
        decreases v.len() - i,
    {
        r.push(v[i].duplicate());
        i = i + 1;
    }
    assert(anchors_view(r@) =~= anchors_view(v@));
    r
}

/// The text of an optional section number.
pub open spec fn number_view(n: Option<SectionNumber>) -> Option<Seq<char>> {
    match n {
        Some(x) => Some(x.0@),
        None => None,
    }
}

/// An entry of the table of contents, collected from a section heading.
#[derive(Debug)]
pub struct TocEntry {
    /// The section's id (its anchor).
    pub id: String,
    pub title: Vec<TextNode>,
    /// The section level (1 for top-level sections).
    pub level: u8,
    /// The cross-reference label from `reftext=` or `[[id,label]]`.
    pub xreflabel: Option<String>,
    pub kind: SectionKind,
    /// The assigned number, without punctuation or signifier.
    pub number: Option<SectionNumber>,
    /// Where the heading stands.
    pub location: Location,
}

impl TocEntry {
    /// The entry of a section, with no number yet.
    pub fn for_section(
        id: String,
        title: Vec<TextNode>,
        level: u8,
        xreflabel: Option<String>,
        kind: SectionKind,
        location: Location,
    ) -> (r: Self)
        ensures
            r.id@ == id@,
            r.title@ == title@,
            r.level == level,
            r.xreflabel == xreflabel,
            r.kind == kind,
            r.number is None,
            r.location == location,
    {
        TocEntry { id, title, level, xreflabel, kind, number: None, location }
    }

    /// The entry with `number` assigned.
    pub fn set_number(&mut self, number: Option<SectionNumber>)
        ensures
            number_view(final(self).number) == number_view(number),
            final(self).id == old(self).id,
            final(self).title == old(self).title,
            final(self).level == old(self).level,
            final(self).xreflabel == old(self).xreflabel,
            final(self).kind == old(self).kind,
            final(self).location == old(self).location,
    {
        self.number = number;
    }

    /// The assigned number, without punctuation or signifier (`1`, `1.2`,
    /// `IV`, `A.1`).
    pub fn number(&self) -> (r: Option<&str>)
        ensures
            match r {
                Some(t) => number_view(self.number) == Some(t@),
                None => self.number is None,
            },
    {
        match &self.number {
            Some(n) => Some(n.as_str()),
            None => None,
        }
    }
}

/// The category and number of a section that a reference points to.
#[derive(Debug)]
pub struct SectionReference {
    pub name: &'static str,
    pub number: Option<SectionNumber>,
}

/// What a cross-reference target offers: its label and title as inline
/// content, where it stands, and, for a section, its category and number.
#[derive(Debug)]
pub struct Reference {
    /// The cross-reference label from `reftext=` or `[[id,label]]`.
    pub xreflabel: Option<Vec<TextNode>>,
    /// The target's title, when it has one.
    pub title: Option<Vec<TextNode>>,
    pub location: Location,
    pub section: Option<SectionReference>,
    pub bibliography: bool,
    pub automatic_citation: bool,
}

impl Reference {
    /// The section's cross-reference category (`part`, `chapter`, `section`,
    /// `appendix` or a special section's style), or `None` for other targets.
    pub fn section_name(&self) -> (r: Option<&str>)
        ensures
            match self.section {
                Some(s) => r matches Some(n) && n@ == s.name@,
                None => r is None,
            },
    {
        match &self.section {
            Some(s) => Some(s.name),
            None => None,
        }
    }

    /// The section's reference number, without signifier or punctuation;
    /// `None` for unnumbered sections and other targets.
    pub fn section_number(&self) -> (r: Option<&str>)
        ensures
            match self.section {
                Some(s) => match r {
                    Some(t) => number_view(s.number) == Some(t@),
                    None => s.number is None,
                },
                None => r is None,
            },
    {
        match &self.section {
            Some(s) => match &s.number {
                Some(n) => Some(n.as_str()),
                None => None,
            },
            None => None,
        }
    }

    /// Whether the target is a bibliography entry.
    pub fn is_bibliography(&self) -> (r: bool)
        ensures
            r == self.bibliography,
    {
        self.bibliography
    }

    /// Whether the document holds an automatic citation of the target.
    pub fn has_automatic_citation(&self) -> (r: bool)
        ensures
            r == self.automatic_citation,
    {
        self.automatic_citation
    }
}

} // verus!
