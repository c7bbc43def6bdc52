use vstd::prelude::*;

pub mod safe_mode;
pub mod text;
pub mod numbers;
pub mod attributes;
pub mod substitution;
pub mod charclass;
pub mod tag;
pub mod location;
pub mod section;
pub mod lines;
pub mod conditional;
pub mod preprocessor;
pub mod comment;
pub mod tables;
pub mod metadata;
pub mod caption;
pub mod model;
pub mod inlines;
pub mod attribute_value;
pub mod parsed;
pub mod numbering;
pub mod inclusion;
pub mod directive;
pub mod inline_text;
pub mod inline_macros;
pub mod anchor;
pub mod media;
pub mod expansion;
pub mod decoding;
pub mod reading;

verus! {

} // verus!
