//! The line-oriented preprocessor: it normalises the input, records
//! attribute entries, resolves `ifdef` / `ifndef` conditionals, unescapes
//! escaped directives and drops `include` directives it has no base file for.
use vstd::prelude::*;

use crate::attributes::{AttributeValue, DocumentAttributes, SpecAttributeValue};
use crate::conditional::Operation;
use crate::lines::{
    back_blank, back_blank_at, index_of_char_from, index_of_from, is_blank, is_blank_char,
    join_lines, join_with_newlines, lemma_back_blank, lemma_index_of_from, lemma_skip_blank,
    lines_of, normalize, normalize_spec, skip_blank, skip_blank_at, split_lines, trim_blank,
    trim_blank_range, views,
};
use crate::substitution::{header_seq, substitute, substitute_spec, HEADER};
use crate::text::{
    chars_of, contains_seq, ends_with, owned, push_char, push_str, split_on, starts_with,
    str_contains, str_ends_with, str_starts_with, string_from_chars, trim, trim_str,
};

verus! {

/// What makes the preprocessor give up.
#[derive(Clone, Copy, Debug, PartialEq, Eq, Structural)]
pub enum Error {
    /// A line that starts like a conditional directive does not parse as one.
    InvalidConditionalDirective,
}

// ----------------------------------------------------------------------------
// Attribute entries: `:name: value`, `:!name:` and `:name!:`.
// ----------------------------------------------------------------------------

/// A character of an attribute name: an ASCII letter or digit, `-` or `_`.
pub open spec fn is_name_char(c: char) -> bool {
    ('a' <= c && c <= 'z') || ('A' <= c && c <= 'Z') || ('0' <= c && c <= '9') || c == '-'
        || c == '_'
}

/// The first position at or after `p` that holds neither a name character nor
/// a blank: where a name that starts at `p` stops.
pub open spec fn name_run_end(s: Seq<char>, p: int) -> int
    decreases s.len() - p,
{
    if p < 0 || p >= s.len() {
        s.len() as int
    } else if is_name_char(s[p]) || is_blank(s[p]) {
        name_run_end(s, p + 1)
    } else {
        p
    }
}

/// A parsed attribute entry.
pub enum AttributeEntry {
    /// `:!name:` or `:name!:`.
    Unset(Seq<char>),
    /// `:name: value`, with the value as written (possibly empty).
    Assigned(Seq<char>, Seq<char>),
}

/// The entry that an attribute line declares, if it is one. Blanks may stand
/// between the tokens; a name keeps the blanks inside it; what follows the
/// closing `:` of an unset entry is ignored.
pub open spec fn attribute_entry(l: Seq<char>) -> Option<AttributeEntry> {
    let s0 = skip_blank(l, 0);
    let unset = if s0 < l.len() && l[s0] == ':' {
        let p = skip_blank(l, s0 + 1);
        if p < l.len() && l[p] == '!' {
            let p2 = skip_blank(l, p + 1);
            let q = name_run_end(l, p2);
            if p2 < l.len() && is_name_char(l[p2]) && q < l.len() && l[q] == ':' {
                Some(AttributeEntry::Unset(l.subrange(p2, back_blank(l, q))))
            } else {
                None
            }
        } else if p < l.len() && is_name_char(l[p]) {
            let q = name_run_end(l, p);
            let q2 = skip_blank(l, q + 1);
            if q < l.len() && l[q] == '!' && q2 < l.len() && l[q2] == ':' {
                Some(AttributeEntry::Unset(l.subrange(p, back_blank(l, q))))
            } else {
                None
            }
        } else {
            None
        }
    } else {
        None
    };
    if unset is Some {
        unset
    } else if l.len() > 0 && l[0] == ':' {
        let p = skip_blank(l, 1);
        let q = name_run_end(l, p);
        if p < l.len() && is_name_char(l[p]) && q < l.len() && l[q] == ':' {
            Some(AttributeEntry::Assigned(l.subrange(p, back_blank(l, q)), trim_blank(l.skip(q + 1))))
        } else {
            None
        }
    } else {
        None
    }
}

/// The attributes after reading an attribute line: an unset entry records
/// `false`; a set entry records its value with the header substitutions
/// applied; anything else changes nothing.
pub open spec fn attribute_line(m: Map<Seq<char>, SpecAttributeValue>, l: Seq<char>) -> Map<
    Seq<char>,
    SpecAttributeValue,
> {
    match attribute_entry(l) {
        None => m,
        Some(AttributeEntry::Unset(n)) => m.insert(n, SpecAttributeValue::Bool(false)),
        Some(AttributeEntry::Assigned(n, v)) => m.insert(
            n,
            SpecAttributeValue::Text(substitute_spec(v, header_seq(), m)),
        ),
    }
}

proof fn lemma_name_run_end(s: Seq<char>, p: int)
    requires
        0 <= p,
    ensures
        p <= s.len() ==> p <= name_run_end(s, p) <= s.len(),
        name_run_end(s, p) < s.len() ==> !is_name_char(s[name_run_end(s, p)]) && !is_blank(
            s[name_run_end(s, p)],
        ),
    decreases s.len() - p,
{
    if p < s.len() && (is_name_char(s[p]) || is_blank(s[p])) {
        lemma_name_run_end(s, p + 1);
    }
}

fn is_name_char_exec(c: char) -> (r: bool)
    ensures
        r == is_name_char(c),
{
    ('a' <= c && c <= 'z') || ('A' <= c && c <= 'Z') || ('0' <= c && c <= '9') || c == '-' || c
        == '_'
}

fn name_run_end_at(v: &[char], p: usize) -> (r: usize)
    requires
        p <= v@.len(),
    ensures
        r == name_run_end(v@, p as int),
        p <= r <= v@.len(),
{
    let mut i = p;
    while i < v.len() && (is_name_char_exec(v[i]) || is_blank_char(v[i]))
        invariant
            p <= i <= v@.len(),
            name_run_end(v@, p as int) == name_run_end(v@, i as int),
        decreases v.len() - i,
    {
        i = i + 1;
    }
    i
}

/// The characters of `v` from `a` up to `b`.
fn chars_between(v: &[char], a: usize, b: usize) -> (r: String)
    requires
        a <= b <= v@.len(),
    ensures
        r@ == v@.subrange(a as int, b as int),
{
    string_from_chars(&v[a..b])
}

/// The name of an unset entry of `l`, if `l` is one.
fn unset_entry_name(v: &[char]) -> (r: Option<String>)
    ensures
        match attribute_entry(v@) {
            Some(AttributeEntry::Unset(n)) => r matches Some(s) && s@ == n,
            _ => r is None,
        },
{
    let ghost l = v@;
    let s0 = skip_blank_at(v, 0);
    if !(s0 < v.len() && v[s0] == ':') {
        return None;
    }
    let p = skip_blank_at(v, s0 + 1);
    if p < v.len() && v[p] == '!' {
        let p2 = skip_blank_at(v, p + 1);
        let q = name_run_end_at(v, p2);
        if p2 < v.len() && is_name_char_exec(v[p2]) && q < v.len() && v[q] == ':' {
            let e = back_blank_at(v, q);
            proof {
                lemma_back_blank(l, q as int);
                if e <= p2 {
                    assert(is_blank(l[p2 as int]));
                }
            }
            return Some(chars_between(v, p2, e));
        }
        None
    } else if p < v.len() && is_name_char_exec(v[p]) {
        let q = name_run_end_at(v, p);
        if q < v.len() && v[q] == '!' {
            let q2 = skip_blank_at(v, q + 1);
            if q2 < v.len() && v[q2] == ':' {
                let e = back_blank_at(v, q);
                proof {
                    lemma_back_blank(l, q as int);
                    if e <= p {
                        assert(is_blank(l[p as int]));
                    }
                }
                return Some(chars_between(v, p, e));
            }
        }
        None
    } else {
        None
    }
}

/// Record the entry of an attribute line, if it is one.
fn apply_attribute_line(attributes: &mut DocumentAttributes, line: &str)
    requires
        old(attributes).wf(),
    ensures
        final(attributes).wf(),
        final(attributes)@ == attribute_line(old(attributes)@, line@),
{
    let v = chars_of(line);
    let ghost l = v@;
    match unset_entry_name(v.as_slice()) {
        Some(name) => {
            attributes.insert(name, AttributeValue::Bool(false));
        },
        None => {
            if v.len() > 0 && v[0] == ':' {
                let p = skip_blank_at(v.as_slice(), 1);
                let q = name_run_end_at(v.as_slice(), p);
                if p < v.len() && is_name_char_exec(v[p]) && q < v.len() && v[q] == ':' {
                    let e = back_blank_at(v.as_slice(), q);
                    proof {
                        lemma_back_blank(l, q as int);
                        if e <= p {
                            assert(is_blank(l[p as int]));
                        }
                    }
                    let name = chars_between(v.as_slice(), p, e);
                    let raw = trim_blank_range(v.as_slice(), q + 1, v.len());
                    assert(l.subrange(q + 1, l.len() as int) =~= l.skip(q + 1));
                    let raw = string_from_chars(raw.as_slice());
                    let value = substitute(raw.as_str(), &HEADER, attributes);
                    assert(HEADER@ =~= header_seq());
                    attributes.insert(name, AttributeValue::String(value));
                }
            }
        },
    }
}

// ----------------------------------------------------------------------------
// Conditional directives: `ifdef::names[content]`, `ifndef::...`, `ifeval::[...]`.
// ----------------------------------------------------------------------------

/// The keyword of a conditional directive.
#[derive(Clone, Copy, Debug, PartialEq, Eq, Structural)]
pub enum DirectiveKind {
    Ifdef,
    Ifndef,
    Ifeval,
}

/// A parsed conditional directive.
pub struct SpecDirective {
    pub kind: DirectiveKind,
    pub names: Seq<Seq<char>>,
    pub operation: Option<Operation>,
    pub content: Option<Seq<char>>,
}

/// A parsed conditional directive.
#[derive(Debug)]
pub struct ConditionalDirective {
    pub kind: DirectiveKind,
    /// The attribute names, in order (none for `ifeval`).
    pub names: Vec<String>,
    /// How the names combine; `None` for a single name.
    pub operation: Option<Operation>,
    /// The text between the brackets, if any.
    pub content: Option<String>,
}

impl View for ConditionalDirective {
    type V = SpecDirective;

    open spec fn view(&self) -> SpecDirective {
        SpecDirective {
            kind: self.kind,
            names: views(self.names@),
            operation: self.operation,
            content: match self.content {
                Some(c) => Some(c@),
                None => None,
            },
        }
    }
}

/// Whether no piece is empty.
pub open spec fn all_nonempty(pieces: Seq<Seq<char>>) -> bool {
    forall|k: int| 0 <= k < pieces.len() ==> (#[trigger] pieces[k]).len() > 0
}

/// Each piece without leading and trailing blanks.
pub open spec fn trim_each(pieces: Seq<Seq<char>>) -> Seq<Seq<char>> {
    pieces.map_values(|p: Seq<char>| trim_blank(p))
}

/// The names of a conditional, split at `,` (any) or `+` (all): the two may
/// not be mixed, and no name may be empty once its blanks are trimmed.
pub open spec fn directive_names(seg: Seq<char>) -> Option<(Seq<Seq<char>>, Option<Operation>)> {
    let or = seg.contains(',');
    let and = seg.contains('+');
    if or && and {
        None
    } else {
        let pieces = if or {
            split_on(seg, ',')
        } else if and {
            split_on(seg, '+')
        } else {
            seq![seg]
        };
        let names = trim_each(pieces);
        if all_nonempty(names) {
            Some(
                (
                    names,
                    if or {
                        Some(Operation::Or)
                    } else if and {
                        Some(Operation::And)
                    } else {
                        None
                    },
                ),
            )
        } else {
            None
        }
    }
}

/// An `ifdef` or `ifndef` whose names start at `start`: the names run to the
/// first `[`, the content to the first `]` after it.
pub open spec fn attribute_directive(line: Seq<char>, start: int, kind: DirectiveKind) -> Option<
    SpecDirective,
> {
    let b = index_of_from(line, '[', start);
    if b >= line.len() {
        None
    } else {
        match directive_names(line.subrange(start, b)) {
            None => None,
            Some((names, operation)) => {
                let k = index_of_from(line, ']', b + 1);
                if k >= line.len() {
                    None
                } else {
                    let c = trim_blank(line.subrange(b + 1, k));
                    Some(
                        SpecDirective {
                            kind,
                            names,
                            operation,
                            content: if c.len() == 0 {
                                None
                            } else {
                                Some(c)
                            },
                        },
                    )
                }
            },
        }
    }
}

/// The conditional directive that `line` holds, if it parses as one. What
/// follows the closing `]` is ignored.
pub open spec fn conditional_directive(line: Seq<char>) -> Option<SpecDirective> {
    if starts_with(line, "ifdef::"@) {
        attribute_directive(line, "ifdef::"@.len() as int, DirectiveKind::Ifdef)
    } else if starts_with(line, "ifndef::"@) {
        attribute_directive(line, "ifndef::"@.len() as int, DirectiveKind::Ifndef)
    } else if starts_with(line, "ifeval::["@) {
        let start = "ifeval::["@.len() as int;
        let k = index_of_from(line, ']', start);
        if k < line.len() && trim_blank(line.subrange(start, k)).len() > 0 {
            Some(
                SpecDirective {
                    kind: DirectiveKind::Ifeval,
                    names: Seq::empty(),
                    operation: None,
                    content: None,
                },
            )
        } else {
            None
        }
    } else {
        None
    }
}

/// Whether an `ifdef` / `ifndef` directive holds: `ifdef` needs any (`,`) or
/// all (otherwise) of its names defined, `ifndef` the opposite. An unset
/// attribute still counts as defined.
pub open spec fn condition_holds(d: SpecDirective, m: Map<Seq<char>, SpecAttributeValue>) -> bool {
    let any = exists|k: int| 0 <= k < d.names.len() && m.contains_key(#[trigger] d.names[k]);
    let all = forall|k: int| 0 <= k < d.names.len() ==> m.contains_key(#[trigger] d.names[k]);
    let v = if d.operation == Some(Operation::Or) {
        any
    } else {
        all
    };
    match d.kind {
        DirectiveKind::Ifndef => d.names.len() == 0 || !v,
        _ => d.names.len() > 0 && v,
    }
}

/// The trimmed names between `start` and `b`, per [`directive_names`].
#[verifier::loop_isolation(false)]
fn parse_directive_names(v: &[char], start: usize, b: usize) -> (r: Option<(Vec<String>, Option<Operation>)>)
    requires
        start <= b <= v@.len(),
    ensures
        match directive_names(v@.subrange(start as int, b as int)) {
            Some((names, op)) => r matches Some((ns, o)) && views(ns@) == names && o == op,
            None => r is None,
        },
{
    let ghost seg = v@.subrange(start as int, b as int);
    let segment = string_from_chars(&v[start..b]);
    let sv = chars_of(segment.as_str());
    let or = crate::text::has_char(sv.as_slice(), ',');
    let and = crate::text::has_char(sv.as_slice(), '+');
    if or && and {
        return None;
    }
    let pieces: Vec<&str> = if or {
        crate::text::split_str(segment.as_str(), ',')
    } else if and {
        crate::text::split_str(segment.as_str(), '+')
    } else {
        let mut one = Vec::new();
        one.push(segment.as_str());
        one
    };
    let ghost spec_pieces = if or {
        split_on(seg, ',')
    } else if and {
        split_on(seg, '+')
    } else {
        seq![seg]
    };
    assert(pieces@.len() == spec_pieces.len());
    assert(forall|k: int| 0 <= k < pieces@.len() ==> (#[trigger] pieces@[k])@ == spec_pieces[k]);
    let ghost trimmed = trim_each(spec_pieces);
    assert(segment@ == seg);
    let mut names: Vec<String> = Vec::new();
    let mut i: usize = 0;
    while i < pieces.len()
        invariant
            i <= pieces@.len(),
            pieces@.len() == spec_pieces.len(),
            trimmed == trim_each(spec_pieces),
            forall|k: int| 0 <= k < pieces@.len() ==> (#[trigger] pieces@[k])@ == spec_pieces[k],
            names@.len() == i,
            forall|k: int| 0 <= k < i ==> (#[trigger] names@[k])@ == trimmed[k],
            forall|k: int| 0 <= k < i ==> (#[trigger] trimmed[k]).len() > 0,
        decreases pieces.len() - i,
    {
        let pv = chars_of(pieces[i]);
        let t = trim_blank_range(pv.as_slice(), 0, pv.len());
        assert(pv@.subrange(0, pv@.len() as int) =~= pv@);
        if t.len() == 0 {
            proof {
                assert(trimmed[i as int].len() == 0);
                assert(!all_nonempty(trimmed));
            }
            return None;
        }
        names.push(string_from_chars(t.as_slice()));
        i = i + 1;
    }
    assert(views(names@) =~= trimmed);
    let op = if or {
        Some(Operation::Or)
    } else if and {
        Some(Operation::And)
    } else {
        None
    };
    Some((names, op))
}

/// The `ifdef` / `ifndef` directive whose names start at `start`.
fn parse_attribute_directive(v: &[char], start: usize, kind: DirectiveKind) -> (r: Option<
    ConditionalDirective,
>)
    requires
        start <= v@.len(),
    ensures
        match attribute_directive(v@, start as int, kind) {
            Some(d) => r matches Some(c) && c@ == d,
            None => r is None,
        },
{
    let b = index_of_char_from(v, '[', start);
    if b >= v.len() {
        return None;
    }
    match parse_directive_names(v, start, b) {
        None => None,
        Some((names, operation)) => {
            let k = index_of_char_from(v, ']', b + 1);
            if k >= v.len() {
                return None;
            }
            let c = trim_blank_range(v, b + 1, k);
            let content = if c.len() == 0 {
                None
            } else {
                Some(string_from_chars(c.as_slice()))
            };
            Some(ConditionalDirective { kind, names, operation, content })
        },
    }
}

/// Parse a conditional directive line (see [`conditional_directive`]).
pub fn parse_conditional(line: &str) -> (r: Option<ConditionalDirective>)
    ensures
        match conditional_directive(line@) {
            Some(d) => r matches Some(c) && c@ == d,
            None => r is None,
        },
{
    let v = chars_of(line);
    if str_starts_with(line, "ifdef::") {
        let n = chars_of("ifdef::").len();
        parse_attribute_directive(v.as_slice(), n, DirectiveKind::Ifdef)
    } else if str_starts_with(line, "ifndef::") {
        let n = chars_of("ifndef::").len();
        parse_attribute_directive(v.as_slice(), n, DirectiveKind::Ifndef)
    } else if str_starts_with(line, "ifeval::[") {
        let start = chars_of("ifeval::[").len();
        let k = index_of_char_from(v.as_slice(), ']', start);
        if k < v.len() {
            let e = trim_blank_range(v.as_slice(), start, k);
            if e.len() > 0 {
                let names: Vec<String> = Vec::new();
                assert(views(names@) =~= Seq::<Seq<char>>::empty());
                return Some(
                    ConditionalDirective {
                        kind: DirectiveKind::Ifeval,
                        names,
                        operation: None,
                        content: None,
                    },
                );
            }
        }
        None
    } else {
        None
    }
}

/// Whether an `ifdef` / `ifndef` directive holds (see [`condition_holds`]).
pub fn directive_holds(d: &ConditionalDirective, attributes: &DocumentAttributes) -> (r: bool)
    requires
        attributes.wf(),
    ensures
        r == condition_holds(d@, attributes@),
{
    let ghost names = views(d.names@);
    let mut any = false;
    let mut all = true;
    let mut i: usize = 0;
    while i < d.names.len()
        invariant
            i <= d.names@.len(),
            names == views(d.names@),
            attributes.wf(),
            any == exists|k: int| 0 <= k < i && attributes@.contains_key(#[trigger] names[k]),
            all == forall|k: int| 0 <= k < i ==> attributes@.contains_key(#[trigger] names[k]),
        decreases d.names.len() - i,
    {
        let has = attributes.contains_key(d.names[i].as_str());
        assert(names[i as int] == d.names@[i as int]@);
        if has {
            any = true;
        } else {
            all = false;
        }
        i = i + 1;
    }
    assert(names.len() == d.names@.len());
    let v = match d.operation {
        Some(Operation::Or) => any,
        _ => all,
    };
    match d.kind {
        DirectiveKind::Ifndef => d.names.len() == 0 || !v,
        _ => d.names.len() > 0 && v,
    }
}

// ----------------------------------------------------------------------------
// The line loop.
// ----------------------------------------------------------------------------

/// How a run of the preprocessor ends.
pub enum Outcome {
    /// The output lines.
    Done(Seq<Seq<char>>),
    /// A conditional directive did not parse.
    Failed,
    /// An `ifeval` directive was reached: it is not evaluated.
    Aborted,
}

/// `o` with `pre` before its output lines.
pub open spec fn prefixed(pre: Seq<Seq<char>>, o: Outcome) -> Outcome {
    match o {
        Outcome::Done(r) => Outcome::Done(pre + r),
        _ => o,
    }
}

/// An attribute line continued on the next line: it starts with `:` and ends
/// with ` \` (a soft wrap) or ` + \` (a hard wrap).
pub open spec fn continued_attribute(line: Seq<char>) -> bool {
    starts_with(line, ":"@) && ends_with(line, " \\"@)
}

/// The continuation lines of an attribute from line `j` on, appended to
/// `acc`, and the index of the first line after them. Each line is trimmed;
/// a hard wrap keeps its line break, a soft wrap loses its backslash; a line
/// that wraps no further ends the entry; an empty line or one starting with
/// `:` ends it before that line.
pub open spec fn continuation(lines: Seq<Seq<char>>, j: int, acc: Seq<char>) -> (Seq<char>, int)
    decreases lines.len() - j,
{
    if j < 0 || j >= lines.len() {
        (acc, j)
    } else {
        let t = trim(lines[j]);
        if starts_with(t, ":"@) || t.len() == 0 {
            (acc, j)
        } else if ends_with(t, " + \\"@) {
            continuation(lines, j + 1, acc + t + seq!['\n'])
        } else if ends_with(t, " \\"@) {
            continuation(lines, j + 1, acc + t.drop_last())
        } else {
            (acc + t, j + 1)
        }
    }
}

/// The lines after a conditional directive from line `j` on, each followed by
/// a line break and appended to `acc`, and the index of the line after them:
/// they end before an empty line, or at (and without) a line starting with `endif`.
pub open spec fn conditional_body(lines: Seq<Seq<char>>, j: int, acc: Seq<char>) -> (Seq<char>, int)
    decreases lines.len() - j,
{
    if j < 0 || j >= lines.len() {
        (acc, j)
    } else if lines[j].len() == 0 {
        (acc, j)
    } else if starts_with(lines[j], "endif"@) {
        (acc, j + 1)
    } else {
        conditional_body(lines, j + 1, acc + lines[j] + seq!['\n'])
    }
}

pub proof fn lemma_continuation_advances(lines: Seq<Seq<char>>, j: int, acc: Seq<char>)
    requires
        0 <= j <= lines.len(),
    ensures
        j <= continuation(lines, j, acc).1 <= lines.len(),
    decreases lines.len() - j,
{
    if j < lines.len() {
        let t = trim(lines[j]);
        if !(starts_with(t, ":"@) || t.len() == 0) {
            if ends_with(t, " + \\"@) {
                lemma_continuation_advances(lines, j + 1, acc + t + seq!['\n']);
            } else if ends_with(t, " \\"@) {
                lemma_continuation_advances(lines, j + 1, acc + t.drop_last());
            }
        }
    }
}

pub proof fn lemma_conditional_body_advances(lines: Seq<Seq<char>>, j: int, acc: Seq<char>)
    requires
        0 <= j <= lines.len(),
    ensures
        j <= conditional_body(lines, j, acc).1 <= lines.len(),
    decreases lines.len() - j,
{
    if j < lines.len() && lines[j].len() != 0 && !starts_with(lines[j], "endif"@) {
        lemma_conditional_body_advances(lines, j + 1, acc + lines[j] + seq!['\n']);
    }
}

/// A preprocessor directive line: it ends with `]`, does not start with `[`,
/// and holds `::`.
pub open spec fn is_directive(line: Seq<char>) -> bool {
    ends_with(line, "]"@) && !starts_with(line, "["@) && contains_seq(line, "::"@)
}

/// A directive escaped with a backslash.
pub open spec fn is_escaped_directive(line: Seq<char>) -> bool {
    starts_with(line, "\\include"@) || starts_with(line, "\\ifdef"@) || starts_with(
        line,
        "\\ifndef"@,
    ) || starts_with(line, "\\ifeval"@)
}

/// A directive line that starts like a conditional.
pub open spec fn starts_conditional(line: Seq<char>) -> bool {
    starts_with(line, "ifdef"@) || starts_with(line, "ifndef"@) || starts_with(line, "ifeval"@)
}

/// The preprocessing of `lines` from line `i` on, with the attributes `m`
/// recorded so far.
///
/// - A continued attribute entry is joined with its continuation lines,
///   recorded, and emitted as one piece.
/// - Another line starting with `:` is recorded (trimmed) as an attribute entry.
/// - An escaped directive is emitted without its backslash.
/// - A conditional is parsed (a failure ends the run), its body collected,
///   and the body, or the directive's own content, emitted when it holds.
/// - An `include` directive is dropped: there is no base file to resolve it from.
/// - Every other line is emitted as it is.
pub open spec fn run_from(lines: Seq<Seq<char>>, i: int, m: Map<Seq<char>, SpecAttributeValue>) -> Outcome
    decreases lines.len() - i,
{
    if i < 0 || i >= lines.len() {
        Outcome::Done(Seq::empty())
    } else {
        let line = lines[i];
        if continued_attribute(line) {
            let first = if ends_with(line, " + \\"@) {
                line.push('\n')
            } else {
                line.drop_last()
            };
            let (content, next) = continuation(lines, i + 1, first);
            proof {
                lemma_continuation_advances(lines, i + 1, first);
            }
            prefixed(seq![content], run_from(lines, next, attribute_line(m, content)))
        } else {
            let m2 = if starts_with(line, ":"@) {
                attribute_line(m, trim(line))
            } else {
                m
            };
            if is_directive(line) {
                if is_escaped_directive(line) {
                    prefixed(seq![line.drop_first()], run_from(lines, i + 1, m2))
                } else if starts_conditional(line) {
                    match conditional_directive(line) {
                        None => Outcome::Failed,
                        Some(d) => {
                            let (body, next) = conditional_body(lines, i + 1, Seq::empty());
                            proof {
                                lemma_conditional_body_advances(lines, i + 1, Seq::empty());
                            }
                            if d.kind == DirectiveKind::Ifeval {
                                Outcome::Aborted
                            } else if condition_holds(d, m2) {
                                prefixed(
                                    seq![
                                        match d.content {
                                            Some(t) => t,
                                            None => body,
                                        },
                                    ],
                                    run_from(lines, next, m2),
                                )
                            } else {
                                run_from(lines, next, m2)
                            }
                        },
                    }
                } else if starts_with(line, "include"@) {
                    run_from(lines, i + 1, m2)
                } else {
                    prefixed(seq![line], run_from(lines, i + 1, m2))
                }
            } else {
                prefixed(seq![line], run_from(lines, i + 1, m2))
            }
        }
    }
}

/// The preprocessing of a whole input: its normalised lines from the first,
/// with no attributes defined.
pub open spec fn preprocess_outcome(input: Seq<char>) -> Outcome {
    run_from(split_lines(normalize_spec(input)), 0, Map::empty())
}

proof fn lemma_prefixed_push(pre: Seq<Seq<char>>, x: Seq<char>, o: Outcome)
    ensures
        prefixed(pre, prefixed(seq![x], o)) == prefixed(pre.push(x), o),
{
    match o {
        Outcome::Done(r) => {
            assert(pre + (seq![x] + r) =~= pre.push(x) + r);
        },
        _ => {},
    }
}

/// `s` without its last character.
fn without_last(s: &str) -> (r: String)
    requires
        s@.len() > 0,
    ensures
        r@ == s@.drop_last(),
{
    let v = chars_of(s);
    let r = string_from_chars(&v[0..v.len() - 1]);
    assert(v@.subrange(0, v@.len() - 1) =~= s@.drop_last());
    r
}

/// `s` without its first character.
fn without_first(s: &str) -> (r: String)
    requires
        s@.len() > 0,
    ensures
        r@ == s@.drop_first(),
{
    let v = chars_of(s);
    let r = string_from_chars(&v[1..v.len()]);
    assert(v@.subrange(1, v@.len() as int) =~= s@.drop_first());
    r
}

/// A continued attribute entry starting at line `i`: the joined entry and the
/// index of the line after it.
pub(crate) fn join_continued_attribute(lines: &Vec<String>, i: usize) -> (r: (String, usize))
    requires
        i < lines@.len(),
        continued_attribute(lines@[i as int]@),
    ensures
        ({
            let line = lines@[i as int]@;
            let first = if ends_with(line, " + \\"@) {
                line.push('\n')
            } else {
                line.drop_last()
            };
            continuation(views(lines@), i + 1, first) == (r.0@, r.1 as int)
        }),
{
    let ghost ls = views(lines@);
    let n = lines.len();
    let line = lines[i].as_str();
    assert(ls[i as int] == line@);
    proof {
        reveal_strlit(" \\");
    }
    let mut content = if str_ends_with(line, " + \\") {
        let mut c = owned(line);
        push_char(&mut c, '\n');
        c
    } else {
        without_last(line)
    };
    let ghost first = content@;
    let mut j = i + 1;
    let mut stop = false;
    while j < lines.len() && !stop
        invariant
            ls == views(lines@),
            i + 1 <= j <= lines@.len(),
            continuation(ls, (i + 1) as int, first) == if stop {
                (content@, j as int)
            } else {
                continuation(ls, j as int, content@)
            },
        decreases lines.len() - j + (if stop { 0int } else { 1int }),
    {
        let t = trim_str(lines[j].as_str());
        assert(ls[j as int] == lines@[j as int]@);
        assert(ls.len() == lines@.len());
        let ghost acc = content@;
        if str_starts_with(t, ":") || t.unicode_len() == 0 {
            stop = true;
        } else if str_ends_with(t, " + \\") {
            push_str(&mut content, t);
            push_char(&mut content, '\n');
            assert(content@ =~= acc + t@ + seq!['\n']);
            j = j + 1;
        } else if str_ends_with(t, " \\") {
            let cut = without_last(t);
            push_str(&mut content, cut.as_str());
            j = j + 1;
        } else {
            push_str(&mut content, t);
            j = j + 1;
            stop = true;
        }
    }
    (content, j)
}

/// The body of a conditional whose directive is line `i`, and the index of
/// the line after it.
fn collect_conditional_body(lines: &Vec<String>, i: usize) -> (r: (String, usize))
    requires
        i < lines@.len(),
    ensures
        conditional_body(views(lines@), i + 1, Seq::empty()) == (r.0@, r.1 as int),
{
    let ghost ls = views(lines@);
    let n = lines.len();
    let mut body = String::new();
    let mut j = i + 1;
    let mut stop = false;
    while j < lines.len() && !stop
        invariant
            ls == views(lines@),
            i + 1 <= j <= lines@.len(),
            conditional_body(ls, (i + 1) as int, Seq::empty()) == if stop {
                (body@, j as int)
            } else {
                conditional_body(ls, j as int, body@)
            },
        decreases lines.len() - j + (if stop { 0int } else { 1int }),
    {
        let next = lines[j].as_str();
        assert(ls[j as int] == next@);
        assert(ls.len() == lines@.len());
        let ghost acc = body@;
        if next.unicode_len() == 0 {
            stop = true;
        } else if str_starts_with(next, "endif") {
            j = j + 1;
            stop = true;
        } else {
            push_str(&mut body, next);
            push_char(&mut body, '\n');
            assert(body@ =~= acc + next@ + seq!['\n']);
            j = j + 1;
        }
    }
    (body, j)
}

/// Whether `line` is a directive line (see [`is_directive`]).
fn directive_line(line: &str) -> (r: bool)
    ensures
        r == is_directive(line@),
{
    str_ends_with(line, "]") && !str_starts_with(line, "[") && str_contains(line, "::")
}

/// The line preprocessor.
#[derive(Debug)]
pub struct Preprocessor;

impl Default for Preprocessor {
    fn default() -> (r: Self) {
        Preprocessor
    }
}

impl Preprocessor {
    /// Preprocess `input` as [`run_from`] describes, or `None` where an
    /// `ifeval` directive would have to be evaluated.
    pub fn try_process(&self, input: &str) -> (r: Option<Result<String, Error>>)
        ensures
            match preprocess_outcome(input@) {
                Outcome::Done(out) => r matches Some(Ok(s)) && s@ == join_lines(out),
                Outcome::Failed => r == Some(Err::<String, Error>(Error::InvalidConditionalDirective)),
                Outcome::Aborted => r is None,
            },
    {
        let normalized = normalize(input);
        let lines = lines_of(normalized.as_str());
        let ghost ls = views(lines@);
        let mut attributes = DocumentAttributes::new();
        let mut output: Vec<String> = Vec::new();
        let mut i: usize = 0;
        assert(views(output@) =~= Seq::<Seq<char>>::empty());
        assert(prefixed(Seq::empty(), preprocess_outcome(input@)) == preprocess_outcome(input@)) by {
            match preprocess_outcome(input@) {
                Outcome::Done(r) => {
                    assert(Seq::<Seq<char>>::empty() + r =~= r);
                },
                _ => {},
            }
        }
        while i < lines.len()
            invariant
                ls == views(lines@),
                ls == split_lines(normalize_spec(input@)),
                i <= lines@.len(),
                attributes.wf(),
                preprocess_outcome(input@) == prefixed(views(output@), run_from(ls, i as int, attributes@)),
            decreases lines.len() - i,
        {
            let ghost before = views(output@);
            let ghost m = attributes@;
            let line = lines[i].as_str();
            assert(ls[i as int] == line@);
            if str_starts_with(line, ":") && str_ends_with(line, " \\") {
                let (content, next) = join_continued_attribute(&lines, i);
                proof {
                    lemma_continuation_advances(ls, i + 1, if ends_with(line@, " + \\"@) {
                        line@.push('\n')
                    } else {
                        line@.drop_last()
                    });
                }
                apply_attribute_line(&mut attributes, content.as_str());
                proof {
                    lemma_prefixed_push(before, content@, run_from(ls, next as int, attributes@));
                }
                output.push(content);
                assert(views(output@) =~= before.push(output@.last()@));
                i = next;
            } else {
                if str_starts_with(line, ":") {
                    apply_attribute_line(&mut attributes, trim_str(line));
                }
                if directive_line(line) {
                    if str_starts_with(line, "\\include") || str_starts_with(line, "\\ifdef")
                        || str_starts_with(line, "\\ifndef") || str_starts_with(
                        line,
                        "\\ifeval",
                    ) {
                        proof {
                            reveal_strlit("\\include");
                            reveal_strlit("\\ifdef");
                            reveal_strlit("\\ifndef");
                            reveal_strlit("\\ifeval");
                        }
                        let unescaped = without_first(line);
                        proof {
                            lemma_prefixed_push(before, unescaped@, run_from(ls, i + 1, attributes@));
                        }
                        output.push(unescaped);
                        assert(views(output@) =~= before.push(output@.last()@));
                        i = i + 1;
                    } else if str_starts_with(line, "ifdef") || str_starts_with(line, "ifndef")
                        || str_starts_with(line, "ifeval") {
                        match parse_conditional(line) {
                            None => {
                                return Some(Err(Error::InvalidConditionalDirective));
                            },
                            Some(d) => {
                                let (body, next) = collect_conditional_body(&lines, i);
                                proof {
                                    lemma_conditional_body_advances(ls, i + 1, Seq::empty());
                                }
                                if d.kind == DirectiveKind::Ifeval {
                                    return None;
                                }
                                if directive_holds(&d, &attributes) {
                                    let emitted = match d.content {
                                        Some(c) => c,
                                        None => body,
                                    };
                                    proof {
                                        lemma_prefixed_push(before, emitted@, run_from(ls, next as int, attributes@));
                                    }
                                    output.push(emitted);
                                    assert(views(output@) =~= before.push(output@.last()@));
                                }
                                i = next;
                            },
                        }
                    } else if str_starts_with(line, "include") {
                        i = i + 1;
                    } else {
                        let kept = owned(line);
                        proof {
                            lemma_prefixed_push(before, kept@, run_from(ls, i + 1, attributes@));
                        }
                        output.push(kept);
                        assert(views(output@) =~= before.push(output@.last()@));
                        i = i + 1;
                    }
                } else {
                    let kept = owned(line);
                    proof {
                        lemma_prefixed_push(before, kept@, run_from(ls, i + 1, attributes@));
                    }
                    output.push(kept);
                    assert(views(output@) =~= before.push(output@.last()@));
                    i = i + 1;
                }
            }
        }
        proof {
            match run_from(ls, i as int, attributes@) {
                Outcome::Done(r) => {
                    assert(r =~= Seq::<Seq<char>>::empty());
                    assert(views(output@) + r =~= views(output@));
                },
                _ => {},
            }
        }
        Some(Ok(join_with_newlines(output.as_slice())))
    }

    /// Preprocess `input`: normalise it, record attribute entries, resolve
    /// conditionals and escaped directives, and drop `include` directives (see
    /// [`run_from`]). The result is the output lines joined by `\n`.
    pub fn process(&self, input: &str) -> (r: Result<String, Error>)
        requires
            !(preprocess_outcome(input@) is Aborted),
        ensures
            match preprocess_outcome(input@) {
                Outcome::Done(out) => r matches Ok(s) && s@ == join_lines(out),
                _ => r == Err::<String, Error>(Error::InvalidConditionalDirective),
            },
    {
        match self.try_process(input) {
            Some(r) => r,
            None => Err(Error::InvalidConditionalDirective),
        }
    }
}

} // verus!

verus! {

/// Law: lines that are neither attribute entries nor directives come out
/// exactly as they went in, whatever attributes are defined.
pub proof fn law_plain_lines_pass_through(
    lines: Seq<Seq<char>>,
    i: int,
    m: Map<Seq<char>, SpecAttributeValue>,
)
    requires
        0 <= i <= lines.len(),
        forall|k: int|
            i <= k < lines.len() ==> !starts_with(#[trigger] lines[k], ":"@) && !is_directive(
                lines[k],
            ),
    ensures
        run_from(lines, i, m) == Outcome::Done(lines.skip(i)),
    decreases lines.len() - i,
{
    if i < lines.len() {
        law_plain_lines_pass_through(lines, i + 1, m);
        assert(seq![lines[i]] + lines.skip(i + 1) =~= lines.skip(i));
    } else {
        assert(lines.skip(i) =~= Seq::<Seq<char>>::empty());
    }
}

/// Law: an `ifdef` whose attribute an earlier entry defined emits the body
/// up to its `endif`, and an `ifndef` of it emits nothing.
pub proof fn law_defined_attribute_selects_the_body(
    lines: Seq<Seq<char>>,
    i: int,
    m: Map<Seq<char>, SpecAttributeValue>,
)
    requires
        0 <= i < lines.len(),
        !starts_with(lines[i], ":"@),
        is_directive(lines[i]),
        !is_escaped_directive(lines[i]),
        starts_conditional(lines[i]),
        conditional_directive(lines[i]) matches Some(d) && d.kind != DirectiveKind::Ifeval
            && d.content is None && d.names.len() == 1 && m.contains_key(d.names[0]),
    ensures
        ({
            let d = conditional_directive(lines[i])->0;
            let (body, next) = conditional_body(lines, i + 1, Seq::empty());
            run_from(lines, i, m) == if d.kind == DirectiveKind::Ifdef {
                prefixed(seq![body], run_from(lines, next, m))
            } else {
                run_from(lines, next, m)
            }
        }),
{
    let d = conditional_directive(lines[i])->0;
    assert(!continued_attribute(lines[i]));
    assert(exists|k: int| 0 <= k < d.names.len() && m.contains_key(#[trigger] d.names[k])) by {
        assert(m.contains_key(d.names[0]));
    }
}

} // verus!
