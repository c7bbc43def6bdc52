//! What a parse hands back: the parsed value with the warnings met, or the
//! source text kept on its own.
use vstd::prelude::*;

use crate::expansion::Warning;

verus! {

/// Source text with no parsed document: what a consumer keeps when the input
/// is available but parsing failed.
#[derive(Debug, Clone)]
pub struct OwnedSource(String);

impl View for OwnedSource {
    type V = Seq<char>;

    closed spec fn view(&self) -> Seq<char> {
        self.0@
    }
}

impl OwnedSource {
    /// Wrap owned source text.
    pub fn new(source: String) -> (r: Self)
        ensures
            r@ == source@,
    {
        OwnedSource(source)
    }

    /// Wrap a copy of borrowed source text.
    pub fn from_text(source: &str) -> (r: Self)
        ensures
            r@ == source@,
    {
        OwnedSource(crate::text::owned(source))
    }

    /// The source text.
    pub fn source(&self) -> (r: &str)
        ensures
            r@ == self@,
    {
        self.0.as_str()
    }
}


/// A document parse's output: the document and the warnings met on the way.
#[derive(Debug)]
pub struct ParseResult<D> {
    source: String,
    document: D,
    warnings: Vec<Warning>,
}

impl<D> ParseResult<D> {
    /// The source text parsed.
    pub closed spec fn source_view(&self) -> Seq<char> {
        self.source@
    }

    /// The document held.
    pub closed spec fn document_view(&self) -> D {
        self.document
    }

    /// The warnings held.
    pub closed spec fn warnings_view(&self) -> Seq<Warning> {
        self.warnings@
    }

    /// A result holding the `source` text, the `document` parsed from it and
    /// the `warnings`.
    pub fn new(source: String, document: D, warnings: Vec<Warning>) -> (r: Self)
        ensures
            r.source_view() == source@,
            r.document_view() == document,
            r.warnings_view() == warnings@,
    {
        ParseResult { source, document, warnings }
    }

    /// The source text parsed.
    pub fn source(&self) -> (r: &str)
        ensures
            r@ == self.source_view(),
    {
        self.source.as_str()
    }

    /// The parsed document.
    pub fn document(&self) -> (r: &D)
        ensures
            *r == self.document_view(),
    {
        &self.document
    }

    /// The collected warnings.
    pub fn warnings(&self) -> (r: &[Warning])
        ensures
            r@ == self.warnings_view(),
    {
        self.warnings.as_slice()
    }

    /// Take the warnings out, leaving none behind; the document stays as it
    /// is.
    pub fn take_warnings(&mut self) -> (r: Vec<Warning>)
        ensures
            r@ == old(self).warnings_view(),
            final(self).warnings_view() == Seq::<Warning>::empty(),
            final(self).document_view() == old(self).document_view(),
            final(self).source_view() == old(self).source_view(),
    {
        let mut taken: Vec<Warning> = Vec::new();
        std::mem::swap(&mut taken, &mut self.warnings);
        taken
    }
}

/// An inline-only parse's output: the inline nodes and the warnings met.
#[derive(Debug)]
pub struct ParseInlineResult<N> {
    source: String,
    nodes: Vec<N>,
    warnings: Vec<Warning>,
}

impl<N> ParseInlineResult<N> {
    /// The source text parsed.
    pub closed spec fn source_view(&self) -> Seq<char> {
        self.source@
    }

    /// The nodes held.
    pub closed spec fn nodes_view(&self) -> Seq<N> {
        self.nodes@
    }

    /// The warnings held.
    pub closed spec fn warnings_view(&self) -> Seq<Warning> {
        self.warnings@
    }

    /// A result holding the `source` text, the `nodes` parsed from it and the
    /// `warnings`.
    pub fn new(source: String, nodes: Vec<N>, warnings: Vec<Warning>) -> (r: Self)
        ensures
            r.source_view() == source@,
            r.nodes_view() == nodes@,
            r.warnings_view() == warnings@,
    {
        ParseInlineResult { source, nodes, warnings }
    }

    /// The source text parsed.
    pub fn source(&self) -> (r: &str)
        ensures
            r@ == self.source_view(),
    {
        self.source.as_str()
    }

    /// The parsed inline nodes.
    pub fn nodes(&self) -> (r: &[N])
        ensures
            r@ == self.nodes_view(),
    {
        self.nodes.as_slice()
    }

    /// The collected warnings.
    pub fn warnings(&self) -> (r: &[Warning])
        ensures
            r@ == self.warnings_view(),
    {
        self.warnings.as_slice()
    }

    /// Take the warnings out, leaving none behind; the nodes stay as they
    /// are.
    pub fn take_warnings(&mut self) -> (r: Vec<Warning>)
        ensures
            r@ == old(self).warnings_view(),
            final(self).warnings_view() == Seq::<Warning>::empty(),
            final(self).nodes_view() == old(self).nodes_view(),
            final(self).source_view() == old(self).source_view(),
    {
        let mut taken: Vec<Warning> = Vec::new();
        std::mem::swap(&mut taken, &mut self.warnings);
        taken
    }
}

} // verus!
