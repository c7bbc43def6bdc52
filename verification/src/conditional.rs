//! Conditional preprocessor directives: `ifdef`, `ifndef`, `ifeval` and `endif`.
//!
//! The grammar is strict: a directive must take the whole line, names are
//! taken as written (blanks included), and the separators `,` (any of the
//! names) and `+` (all of them) may not be mixed.
use vstd::prelude::*;

use crate::attributes::{DocumentAttributes, SpecAttributeValue};
use crate::lines::{index_of_char_from, index_of_from, lemma_index_of_from, views};
use crate::location::{Location, Position};
use crate::text::{chars_of, push_str, split_on, split_str, starts_with, str_starts_with,
    string_from_chars, trim, trim_str};

verus! {

/// How the attribute names of a conditional combine.
#[derive(Clone, Copy, Debug, PartialEq, Eq, Structural)]
pub enum Operation {
    /// Names separated by `,`: any of them.
    Or,
    /// Names separated by `+`: all of them.
    And,
}

/// The comparison of an `ifeval` directive.
#[derive(Clone, Copy, Debug, PartialEq, Eq, Structural)]
pub enum Operator {
    Equal,
    NotEqual,
    LessThan,
    GreaterThan,
    LessThanOrEqual,
    GreaterThanOrEqual,
}

/// The attribute names of an `ifdef`, `ifndef` or `endif`.
#[derive(Debug)]
pub struct AttributeCondition {
    pub attributes: Vec<String>,
    pub operation: Option<Operation>,
}

/// The mathematical value of an [`AttributeCondition`].
pub struct SpecAttributeCondition {
    pub attributes: Seq<Seq<char>>,
    pub operation: Option<Operation>,
}

impl View for AttributeCondition {
    type V = SpecAttributeCondition;

    open spec fn view(&self) -> SpecAttributeCondition {
        SpecAttributeCondition { attributes: views(self.attributes@), operation: self.operation }
    }
}

/// The code of `c` with an ASCII uppercase letter lowercased.
pub open spec fn ascii_lower_code(c: char) -> u32 {
    if 'A' <= c && c <= 'Z' {
        (c as u32 + 32) as u32
    } else {
        c as u32
    }
}

/// Two characters equal once ASCII letters are lowercased.
pub open spec fn eq_ignore_ascii_case_char(a: char, b: char) -> bool {
    ascii_lower_code(a) == ascii_lower_code(b)
}

fn lower_code(c: char) -> (r: u32)
    ensures
        r == ascii_lower_code(c),
{
    if 'A' <= c && c <= 'Z' {
        (c as u32) + 32
    } else {
        c as u32
    }
}

/// Two names equal once ASCII letters are lowercased (`str::eq_ignore_ascii_case`).
pub open spec fn eq_ignore_ascii_case(a: Seq<char>, b: Seq<char>) -> bool {
    a.len() == b.len() && forall|k: int|
        0 <= k < a.len() ==> eq_ignore_ascii_case_char(#[trigger] a[k], b[k])
}

/// Whether an `endif` condition closes an opening one: the same operation
/// and, pairwise, the same names up to ASCII case.
pub open spec fn conditions_match(a: SpecAttributeCondition, b: SpecAttributeCondition) -> bool {
    &&& a.operation == b.operation
    &&& a.attributes.len() == b.attributes.len()
    &&& forall|k: int|
        0 <= k < a.attributes.len() ==> eq_ignore_ascii_case(
            #[trigger] a.attributes[k],
            b.attributes[k],
        )
}

/// Whether `a` and `b` are equal up to ASCII case.
pub fn names_eq_ignore_ascii_case(a: &str, b: &str) -> (r: bool)
    ensures
        r == eq_ignore_ascii_case(a@, b@),
{
    let av = chars_of(a);
    let bv = chars_of(b);
    if av.len() != bv.len() {
        return false;
    }
    let mut i: usize = 0;
    while i < av.len()
        invariant
            av@ == a@,
            bv@ == b@,
            av@.len() == bv@.len(),
            i <= av@.len(),
            forall|k: int| 0 <= k < i ==> eq_ignore_ascii_case_char(#[trigger] av@[k], bv@[k]),
        decreases av.len() - i,
    {
        if lower_code(av[i]) != lower_code(bv[i]) {
            return false;
        }
        i = i + 1;
    }
    true
}

impl AttributeCondition {
    /// A condition over `attributes` combined by `operation`.
    pub fn new(attributes: Vec<String>, operation: Option<Operation>) -> (r: Self)
        ensures
            r.attributes@ == attributes@,
            r.operation == operation,
    {
        AttributeCondition { attributes, operation }
    }

    /// Whether `self` (an `endif` condition) names the same condition as
    /// `other`: the same operation and the same names in the same order, up
    /// to ASCII case.
    pub fn matches(&self, other: &Self) -> (r: bool)
        ensures
            r == conditions_match(self@, other@),
    {
        if self.operation != other.operation || self.attributes.len() != other.attributes.len() {
            return false;
        }
        let mut i: usize = 0;
        while i < self.attributes.len()
            invariant
                self.attributes@.len() == other.attributes@.len(),
                i <= self.attributes@.len(),
                forall|k: int|
                    0 <= k < i ==> eq_ignore_ascii_case(
                        #[trigger] views(self.attributes@)[k],
                        views(other.attributes@)[k],
                    ),
            decreases self.attributes.len() - i,
        {
            assert(views(self.attributes@)[i as int] == self.attributes@[i as int]@);
            assert(views(other.attributes@)[i as int] == other.attributes@[i as int]@);
            if !names_eq_ignore_ascii_case(
                self.attributes[i].as_str(),
                other.attributes[i].as_str(),
            ) {
                return false;
            }
            i = i + 1;
        }
        true
    }
}

/// Whether no piece is empty.
pub open spec fn no_empty_piece(pieces: Seq<Seq<char>>) -> bool {
    forall|k: int| 0 <= k < pieces.len() ==> (#[trigger] pieces[k]).len() > 0
}

/// The condition a run of names spells: names separated by `,` or by `+`
/// (not both), none of them empty.
pub open spec fn condition_of(seg: Seq<char>) -> Option<SpecAttributeCondition> {
    let or = seg.contains(',');
    let and = seg.contains('+');
    if or && and {
        None
    } else {
        let pieces = if or {
            split_on(seg, ',')
        } else if and {
            split_on(seg, '+')
        } else {
            seq![seg]
        };
        if no_empty_piece(pieces) {
            Some(
                SpecAttributeCondition {
                    attributes: pieces,
                    operation: if or {
                        Some(Operation::Or)
                    } else if and {
                        Some(Operation::And)
                    } else {
                        None
                    },
                },
            )
        } else {
            None
        }
    }
}

/// Parse the names between `start` and `b` (see [`condition_of`]).
#[verifier::loop_isolation(false)]
fn parse_condition(v: &[char], start: usize, b: usize) -> (r: Option<AttributeCondition>)
    requires
        start <= b <= v@.len(),
    ensures
        match condition_of(v@.subrange(start as int, b as int)) {
            Some(c) => r matches Some(a) && a@ == c,
            None => r is None,
        },
{
    let ghost seg = v@.subrange(start as int, b as int);
    let segment = string_from_chars(&v[start..b]);
    let sv = chars_of(segment.as_str());
    let or = crate::text::has_char(sv.as_slice(), ',');
    let and = crate::text::has_char(sv.as_slice(), '+');
    if or && and {
        return None;
    }
    let pieces: Vec<&str> = if or {
        split_str(segment.as_str(), ',')
    } else if and {
        split_str(segment.as_str(), '+')
    } else {
        let mut one = Vec::new();
        one.push(segment.as_str());
        one
    };
    let ghost spec_pieces = if or {
        split_on(seg, ',')
    } else if and {
        split_on(seg, '+')
    } else {
        seq![seg]
    };
    assert(segment@ == seg);
    let mut names: Vec<String> = Vec::new();
    let mut i: usize = 0;
    while i < pieces.len()
        invariant
            i <= pieces@.len(),
            pieces@.len() == spec_pieces.len(),
            forall|k: int| 0 <= k < pieces@.len() ==> (#[trigger] pieces@[k])@ == spec_pieces[k],
            names@.len() == i,
            forall|k: int| 0 <= k < i ==> (#[trigger] names@[k])@ == spec_pieces[k],
            forall|k: int| 0 <= k < i ==> (#[trigger] spec_pieces[k]).len() > 0,
        decreases pieces.len() - i,
    {
        if pieces[i].unicode_len() == 0 {
            assert(!no_empty_piece(spec_pieces));
            return None;
        }
        names.push(crate::text::owned(pieces[i]));
        i = i + 1;
    }
    assert(views(names@) =~= spec_pieces);
    let operation = if or {
        Some(Operation::Or)
    } else if and {
        Some(Operation::And)
    } else {
        None
    };
    Some(AttributeCondition { attributes: names, operation })
}

/// Whether an operator starts at position `q`.
pub open spec fn operator_at(s: Seq<char>, q: int) -> bool {
    &&& 0 <= q < s.len()
    &&& {
        ||| s[q] == '<'
        ||| s[q] == '>'
        ||| (q + 1 < s.len() && s[q + 1] == '=' && (s[q] == '=' || s[q] == '!'))
    }
}

/// The operator at position `q` and its length, if one starts there.
pub open spec fn operator_of(s: Seq<char>, q: int) -> Option<(Operator, int)> {
    if !operator_at(s, q) {
        None
    } else if s[q] == '=' {
        Some((Operator::Equal, 2))
    } else if s[q] == '!' {
        Some((Operator::NotEqual, 2))
    } else if q + 1 < s.len() && s[q + 1] == '=' {
        if s[q] == '<' {
            Some((Operator::LessThanOrEqual, 2))
        } else {
            Some((Operator::GreaterThanOrEqual, 2))
        }
    } else if s[q] == '<' {
        Some((Operator::LessThan, 1))
    } else {
        Some((Operator::GreaterThan, 1))
    }
}

/// The end of an `ifeval` operand starting at `p`: the first `]` or operator.
pub open spec fn operand_end(s: Seq<char>, p: int) -> int
    decreases s.len() - p,
{
    if p < 0 || p >= s.len() {
        s.len() as int
    } else if s[p] == ']' || operator_at(s, p) {
        p
    } else {
        operand_end(s, p + 1)
    }
}

/// An `ifeval` comparison, its operands trimmed and not yet evaluated.
#[derive(Debug)]
pub struct EvalCondition {
    pub left: String,
    pub operator: Operator,
    pub right: String,
}

/// What a conditional directive tests.
#[derive(Debug)]
pub enum Condition {
    Ifdef(AttributeCondition),
    Ifndef(AttributeCondition),
    Ifeval(EvalCondition),
}

/// A conditional directive and the content between its brackets, if any.
#[derive(Debug)]
pub struct Conditional {
    pub condition: Condition,
    pub content: Option<String>,
}

/// The mathematical value of a [`Condition`].
pub enum SpecCondition {
    Ifdef(SpecAttributeCondition),
    Ifndef(SpecAttributeCondition),
    Ifeval(Seq<char>, Operator, Seq<char>),
}

/// The mathematical value of a [`Conditional`].
pub struct SpecConditional {
    pub condition: SpecCondition,
    pub content: Option<Seq<char>>,
}

impl View for Conditional {
    type V = SpecConditional;

    open spec fn view(&self) -> SpecConditional {
        SpecConditional {
            condition: match self.condition {
                Condition::Ifdef(c) => SpecCondition::Ifdef(c@),
                Condition::Ifndef(c) => SpecCondition::Ifndef(c@),
                Condition::Ifeval(e) => SpecCondition::Ifeval(e.left@, e.operator, e.right@),
            },
            content: match self.content {
                Some(c) => Some(c@),
                None => None,
            },
        }
    }
}

/// An `ifdef::` or `ifndef::` line with names from `start`: the names run to
/// the first `[`, the content to the first `]` after it, which must end the line.
pub open spec fn attribute_conditional(line: Seq<char>, start: int, negated: bool) -> Option<
    SpecConditional,
> {
    let b = index_of_from(line, '[', start);
    let k = index_of_from(line, ']', b + 1);
    if b >= line.len() || k != line.len() - 1 {
        None
    } else {
        match condition_of(line.subrange(start, b)) {
            None => None,
            Some(c) => Some(
                SpecConditional {
                    condition: if negated {
                        SpecCondition::Ifndef(c)
                    } else {
                        SpecCondition::Ifdef(c)
                    },
                    content: if k == b + 1 {
                        None
                    } else {
                        Some(line.subrange(b + 1, k))
                    },
                },
            ),
        }
    }
}

/// An `ifeval::[left op right]` line: each operand is at least one
/// character, runs to the first `]` or operator, and is trimmed; the `]`
/// after the right operand must end the line.
pub open spec fn eval_conditional(line: Seq<char>, start: int) -> Option<SpecConditional> {
    let e1 = operand_end(line, start);
    match operator_of(line, e1) {
        None => None,
        Some((op, n)) => {
            let e2 = operand_end(line, e1 + n);
            if e1 > start && e2 > e1 + n && e2 == line.len() - 1 && line[e2] == ']' {
                Some(
                    SpecConditional {
                        condition: SpecCondition::Ifeval(
                            trim(line.subrange(start, e1)),
                            op,
                            trim(line.subrange(e1 + n, e2)),
                        ),
                        content: None,
                    },
                )
            } else {
                None
            }
        },
    }
}

/// The conditional directive a whole line spells, if any.
pub open spec fn conditional_line(line: Seq<char>) -> Option<SpecConditional> {
    if starts_with(line, "ifdef::"@) {
        attribute_conditional(line, "ifdef::"@.len() as int, false)
    } else if starts_with(line, "ifndef::"@) {
        attribute_conditional(line, "ifndef::"@.len() as int, true)
    } else if starts_with(line, "ifeval::["@) {
        eval_conditional(line, "ifeval::["@.len() as int)
    } else {
        None
    }
}

/// The condition of an `endif::names[]` line (`None` for `endif::[]`), if the
/// whole line is one.
pub open spec fn endif_line(line: Seq<char>) -> Option<Option<SpecAttributeCondition>> {
    if !starts_with(line, "endif::"@) {
        None
    } else {
        let start = "endif::"@.len() as int;
        let b = index_of_from(line, '[', start);
        if !(b + 2 == line.len() && line[b + 1] == ']') {
            None
        } else if b == start {
            Some(None)
        } else {
            match condition_of(line.subrange(start, b)) {
                None => None,
                Some(c) => Some(Some(c)),
            }
        }
    }
}

/// Where a directive stands in the source.
#[derive(Debug)]
pub struct SourceLocation {
    pub file: Option<String>,
    pub location: Location,
}

/// Why a conditional directive was refused.
#[derive(Debug)]
pub enum ConditionalError {
    /// The line does not parse as the directive it starts like.
    InvalidConditionalDirective(SourceLocation),
}

/// The error for a directive at line `line_number` of `file`.
pub open spec fn error_at(e: ConditionalError, line_number: usize, file: Option<Seq<char>>) -> bool {
    match e {
        ConditionalError::InvalidConditionalDirective(loc) => {
            &&& loc.file matches Some(f) ==> file == Some(f@)
            &&& loc.file is None ==> file is None
            &&& loc.location.start.line == (if line_number <= u32::MAX {
                line_number
            } else {
                u32::MAX as usize
            })
            &&& loc.location.start.column == 1
            &&& loc.location.start == loc.location.end
        },
    }
}

fn directive_error(line_number: usize, file: Option<&str>) -> (e: ConditionalError)
    ensures
        error_at(
            e,
            line_number,
            match file {
                Some(f) => Some(f@),
                None => None,
            },
        ),
{
    let position = Position::from_line_col(line_number, 1);
    let location = Location::point(position);
    let file = match file {
        Some(f) => Some(crate::text::owned(f)),
        None => None,
    };
    ConditionalError::InvalidConditionalDirective(SourceLocation { file, location })
}

/// The `ifdef` / `ifndef` conditional of `v` with names from `start`.
fn parse_attribute_conditional(v: &[char], start: usize, negated: bool) -> (r: Option<Conditional>)
    requires
        start <= v@.len(),
    ensures
        match attribute_conditional(v@, start as int, negated) {
            Some(c) => r matches Some(x) && x@ == c,
            None => r is None,
        },
{
    let b = index_of_char_from(v, '[', start);
    if b >= v.len() {
        return None;
    }
    let k = index_of_char_from(v, ']', b + 1);
    if k != v.len() - 1 {
        return None;
    }
    match parse_condition(v, start, b) {
        None => None,
        Some(c) => {
            let content = if k == b + 1 {
                None
            } else {
                Some(string_from_chars(&v[b + 1..k]))
            };
            let condition = if negated {
                Condition::Ifndef(c)
            } else {
                Condition::Ifdef(c)
            };
            Some(Conditional { condition, content })
        },
    }
}

fn operator_at_exec(v: &[char], q: usize) -> (r: bool)
    ensures
        r == operator_at(v@, q as int),
{
    q < v.len() && (v[q] == '<' || v[q] == '>' || (q + 1 < v.len() && v[q + 1] == '=' && (v[q]
        == '=' || v[q] == '!')))
}

fn operand_end_at(v: &[char], p: usize) -> (r: usize)
    requires
        p <= v@.len(),
    ensures
        r == operand_end(v@, p as int),
        p <= r <= v@.len(),
{
    let mut i = p;
    while i < v.len() && v[i] != ']' && !operator_at_exec(v, i)
        invariant
            p <= i <= v@.len(),
            operand_end(v@, p as int) == operand_end(v@, i as int),
        decreases v.len() - i,
    {
        i = i + 1;
    }
    i
}

/// The operand between `a` and `b`, trimmed.
fn operand(v: &[char], a: usize, b: usize) -> (r: String)
    requires
        a <= b <= v@.len(),
    ensures
        r@ == trim(v@.subrange(a as int, b as int)),
{
    let raw = string_from_chars(&v[a..b]);
    crate::text::owned(trim_str(raw.as_str()))
}

/// The `ifeval` conditional of `v` with its operands from `start`.
fn parse_eval_conditional(v: &[char], start: usize) -> (r: Option<Conditional>)
    requires
        start <= v@.len(),
    ensures
        match eval_conditional(v@, start as int) {
            Some(c) => r matches Some(x) && x@ == c,
            None => r is None,
        },
{
    let e1 = operand_end_at(v, start);
    if !operator_at_exec(v, e1) {
        return None;
    }
    let (operator, n): (Operator, usize) = if v[e1] == '=' {
        (Operator::Equal, 2)
    } else if v[e1] == '!' {
        (Operator::NotEqual, 2)
    } else if e1 + 1 < v.len() && v[e1 + 1] == '=' {
        if v[e1] == '<' {
            (Operator::LessThanOrEqual, 2)
        } else {
            (Operator::GreaterThanOrEqual, 2)
        }
    } else if v[e1] == '<' {
        (Operator::LessThan, 1)
    } else {
        (Operator::GreaterThan, 1)
    };
    let e2 = operand_end_at(v, e1 + n);
    if e1 > start && e2 > e1 + n && e2 < v.len() && e2 == v.len() - 1 && v[e2] == ']' {
        let left = operand(v, start, e1);
        let right = operand(v, e1 + n, e2);
        Some(
            Conditional {
                condition: Condition::Ifeval(EvalCondition { left, operator, right }),
                content: None,
            },
        )
    } else {
        None
    }
}

/// Parse a conditional directive line (see [`conditional_line`]); a line
/// that is none is refused with its position.
pub fn parse_line(line: &str, line_number: usize, file: Option<&str>) -> (r: Result<
    Conditional,
    ConditionalError,
>)
    ensures
        match conditional_line(line@) {
            Some(c) => r matches Ok(x) && x@ == c,
            None => r matches Err(e) && error_at(
                e,
                line_number,
                match file {
                    Some(f) => Some(f@),
                    None => None,
                },
            ),
        },
{
    let v = chars_of(line);
    let parsed = if str_starts_with(line, "ifdef::") {
        parse_attribute_conditional(v.as_slice(), chars_of("ifdef::").len(), false)
    } else if str_starts_with(line, "ifndef::") {
        parse_attribute_conditional(v.as_slice(), chars_of("ifndef::").len(), true)
    } else if str_starts_with(line, "ifeval::[") {
        parse_eval_conditional(v.as_slice(), chars_of("ifeval::[").len())
    } else {
        None
    };
    match parsed {
        Some(c) => Ok(c),
        None => Err(directive_error(line_number, file)),
    }
}

/// A parsed `endif` directive: the condition it closes, if it names one.
#[derive(Debug)]
pub struct Endif {
    pub condition: Option<AttributeCondition>,
}

/// Parse an `endif` line (see [`endif_line`]); a line that is none is
/// refused with its position.
pub fn parse_endif(line: &str, line_number: usize, file: Option<&str>) -> (r: Result<
    Endif,
    ConditionalError,
>)
    ensures
        match endif_line(line@) {
            Some(None) => r matches Ok(x) && x.condition is None,
            Some(Some(c)) => r matches Ok(x) && x.condition matches Some(a) && a@ == c,
            None => r matches Err(e) && error_at(
                e,
                line_number,
                match file {
                    Some(f) => Some(f@),
                    None => None,
                },
            ),
        },
{
    let v = chars_of(line);
    if str_starts_with(line, "endif::") {
        let start = chars_of("endif::").len();
        let b = index_of_char_from(v.as_slice(), '[', start);
        if b < v.len() && v.len() - b == 2 && v[b + 1] == ']' {
            if b == start {
                return Ok(Endif { condition: None });
            }
            match parse_condition(v.as_slice(), start, b) {
                Some(c) => {
                    return Ok(Endif { condition: Some(c) });
                },
                None => {},
            }
        }
    }
    Err(directive_error(line_number, file))
}

impl Endif {
    /// Whether this `endif` closes `conditional`: a bare `endif` closes any;
    /// a named one closes only an `ifdef` / `ifndef` with a matching condition.
    pub fn closes(&self, conditional: &Conditional) -> (r: bool)
        ensures
            r == match self.condition {
                None => true,
                Some(e) => match conditional@.condition {
                    SpecCondition::Ifdef(c) => conditions_match(e@, c),
                    SpecCondition::Ifndef(c) => conditions_match(e@, c),
                    SpecCondition::Ifeval(..) => false,
                },
            },
    {
        match &self.condition {
            None => true,
            Some(endif) => match &conditional.condition {
                Condition::Ifdef(c) => endif.matches(c),
                Condition::Ifndef(c) => endif.matches(c),
                Condition::Ifeval(_) => false,
            },
        }
    }
}

/// Whether attribute names hold against a map: any (`Or`) or all (otherwise)
/// defined, negated for `ifndef`. Without names, an `ifdef` fails and an
/// `ifndef` holds.
pub open spec fn names_hold(
    names: Seq<Seq<char>>,
    operation: Option<Operation>,
    m: Map<Seq<char>, SpecAttributeValue>,
    negate: bool,
) -> bool {
    if names.len() == 0 {
        negate
    } else {
        let any = exists|k: int| 0 <= k < names.len() && m.contains_key(#[trigger] names[k]);
        let all = forall|k: int| 0 <= k < names.len() ==> m.contains_key(#[trigger] names[k]);
        let v = if operation == Some(Operation::Or) {
            any
        } else {
            all
        };
        if negate {
            !v
        } else {
            v
        }
    }
}

/// `ifdef` and `ifndef` over the same names are opposites: with at least one
/// name, the negated test holds exactly when the plain one does not. With `,`
/// the plain test holds when any name is defined, so `ifndef` holds exactly
/// when none is; with `+` (or a single name) it holds when all are, so
/// `ifndef` holds when some name is undefined.
pub proof fn law_ifndef_negates_ifdef(
    names: Seq<Seq<char>>,
    operation: Option<Operation>,
    m: Map<Seq<char>, SpecAttributeValue>,
)
    requires
        names.len() > 0,
    ensures
        names_hold(names, operation, m, true) == !names_hold(names, operation, m, false),
        names_hold(names, Some(Operation::Or), m, false) <==> exists|k: int|
            0 <= k < names.len() && m.contains_key(#[trigger] names[k]),
        names_hold(names, Some(Operation::Or), m, true) <==> forall|k: int|
            0 <= k < names.len() ==> !m.contains_key(#[trigger] names[k]),
        operation != Some(Operation::Or) ==> (names_hold(names, operation, m, false) <==> forall|k: int|
            0 <= k < names.len() ==> m.contains_key(#[trigger] names[k])),
        operation != Some(Operation::Or) ==> (names_hold(names, operation, m, true) <==> exists|k: int|
            0 <= k < names.len() && !m.contains_key(#[trigger] names[k])),
{
}

/// Without any name, an `ifdef` test fails and an `ifndef` test holds,
/// whatever the attributes.
pub proof fn law_no_names_fail_ifdef(operation: Option<Operation>, m: Map<Seq<char>, SpecAttributeValue>)
    ensures
        !names_hold(Seq::empty(), operation, m, false),
        names_hold(Seq::empty(), operation, m, true),
{
}

/// Defining more attributes never turns a plain (`ifdef`) test false, nor a
/// negated (`ifndef`) one true.
pub proof fn law_more_attributes_keep_ifdef_true(
    names: Seq<Seq<char>>,
    operation: Option<Operation>,
    m: Map<Seq<char>, SpecAttributeValue>,
    more: Map<Seq<char>, SpecAttributeValue>,
)
    requires
        names.len() > 0,
        m.dom().subset_of(more.dom()),
    ensures
        names_hold(names, operation, m, false) ==> names_hold(names, operation, more, false),
        names_hold(names, operation, more, true) ==> names_hold(names, operation, m, true),
{
    if names_hold(names, operation, m, false) && operation == Some(Operation::Or) {
        let k = choose|k: int| 0 <= k < names.len() && m.contains_key(#[trigger] names[k]);
        assert(more.contains_key(names[k]));
    }
}

/// Evaluate attribute names against the document attributes (see [`names_hold`]).
pub fn evaluate_attributes(
    names: &[String],
    operation: Option<Operation>,
    attributes: &DocumentAttributes,
    negate: bool,
) -> (r: bool)
    requires
        attributes.wf(),
    ensures
        r == names_hold(views(names@), operation, attributes@, negate),
{
    if names.len() == 0 {
        return negate;
    }
    let ghost ns = views(names@);
    let mut any = false;
    let mut all = true;
    let mut i: usize = 0;
    while i < names.len()
        invariant
            i <= names@.len(),
            ns == views(names@),
            attributes.wf(),
            any == exists|k: int| 0 <= k < i && attributes@.contains_key(#[trigger] ns[k]),
            all == forall|k: int| 0 <= k < i ==> attributes@.contains_key(#[trigger] ns[k]),
        decreases names.len() - i,
    {
        let has = attributes.contains_key(names[i].as_str());
        assert(ns[i as int] == names@[i as int]@);
        if has {
            any = true;
        } else {
            all = false;
        }
        i = i + 1;
    }
    assert(ns.len() == names@.len());
    let v = match operation {
        Some(Operation::Or) => any,
        _ => all,
    };
    if negate {
        !v
    } else {
        v
    }
}

impl Conditional {
    /// Whether the directive holds, given `eval_result` as the outcome of an
    /// `ifeval` comparison (which the caller evaluates); when it holds, the
    /// directive's own content is appended to `content`.
    pub fn is_true(&self, attributes: &DocumentAttributes, content: &mut String, eval_result: bool) -> (r: bool)
        requires
            attributes.wf(),
        ensures
            r == match self@.condition {
                SpecCondition::Ifdef(c) => names_hold(c.attributes, c.operation, attributes@, false),
                SpecCondition::Ifndef(c) => names_hold(c.attributes, c.operation, attributes@, true),
                SpecCondition::Ifeval(..) => eval_result,
            },
            final(content)@ == if r && self.content is Some {
                old(content)@ + self@.content->0
            } else {
                old(content)@
            },
    {
        let holds = match &self.condition {
            Condition::Ifdef(c) => evaluate_attributes(c.attributes.as_slice(), c.operation, attributes, false),
            Condition::Ifndef(c) => evaluate_attributes(c.attributes.as_slice(), c.operation, attributes, true),
            Condition::Ifeval(_) => eval_result,
        };
        if holds {
            match &self.content {
                Some(text) => push_str(content, text.as_str()),
                None => {},
            }
        }
        holds
    }

    /// Whether the directive carries content between its brackets.
    pub fn has_inline_content(&self) -> (r: bool)
        ensures
            r == self.content is Some,
    {
        self.content.is_some()
    }
}

} // verus!

verus! {

/// Law: matching an `endif` condition to an opening one is reflexive and
/// symmetric.
pub proof fn law_condition_matching_is_symmetric(a: SpecAttributeCondition, b: SpecAttributeCondition)
    ensures
        conditions_match(a, a),
        conditions_match(a, b) == conditions_match(b, a),
{
}

proof fn lemma_index_of_from_at(s: Seq<char>, c: char, p: int, q: int)
    requires
        0 <= p <= q < s.len(),
        s[q] == c,
        forall|k: int| p <= k < q ==> s[k] != c,
    ensures
        index_of_from(s, c, p) == q,
    decreases q - p,
{
    if p < q {
        lemma_index_of_from_at(s, c, p + 1, q);
    }
}

/// Law: `endif::names[]` closes the `ifdef::names[...]` or `ifndef::names[...]`
/// written with the same names, whatever content the opening line carries.
pub proof fn law_endif_with_the_same_names_closes(
    names: Seq<char>,
    content: Seq<char>,
    negated: bool,
)
    requires
        !names.contains('['),
        !content.contains(']'),
        condition_of(names) is Some,
    ensures
        ({
            let keyword = if negated {
                "ifndef::"@
            } else {
                "ifdef::"@
            };
            let opening = keyword + names + "["@ + content + "]"@;
            let closing = "endif::"@ + names + "[]"@;
            &&& conditional_line(opening) matches Some(c)
            &&& endif_line(closing) matches Some(Some(e))
            &&& match c.condition {
                SpecCondition::Ifdef(o) => !negated && conditions_match(e, o),
                SpecCondition::Ifndef(o) => negated && conditions_match(e, o),
                SpecCondition::Ifeval(..) => false,
            }
        }),
{
    reveal_strlit("ifndef::");
    reveal_strlit("ifdef::");
    reveal_strlit("ifeval::[");
    reveal_strlit("endif::");
    reveal_strlit("[");
    reveal_strlit("]");
    reveal_strlit("[]");
    let keyword = if negated {
        "ifndef::"@
    } else {
        "ifdef::"@
    };
    let n = keyword.len() as int;
    let opening = keyword + names + "["@ + content + "]"@;
    let closing = "endif::"@ + names + "[]"@;
    let b = n + names.len();
    let k = b + 1 + content.len();
    assert(opening.len() == k + 1);
    assert(opening[b] == '[');
    assert(opening[k] == ']');
    assert forall|m: int| n <= m < b implies opening[m] != '[' by {
        assert(opening[m] == names[m - n]);
        if opening[m] == '[' {
            assert(names.contains('['));
        }
    }
    assert forall|m: int| b + 1 <= m < k implies opening[m] != ']' by {
        assert(opening[m] == content[m - b - 1]);
        if opening[m] == ']' {
            assert(content.contains(']'));
        }
    }
    lemma_index_of_from_at(opening, '[', n, b);
    lemma_index_of_from_at(opening, ']', b + 1, k);
    assert(opening.take(n) =~= keyword);
    assert(opening.subrange(n, b) =~= names);
    if negated {
        assert(!starts_with(opening, "ifdef::"@)) by {
            assert(opening[2] == 'n');
            assert("ifdef::"@[2] == 'd');
            assert(opening.take(7)[2] == opening[2]);
        }
    }
    let cb = 7 + names.len() as int;
    assert(closing.len() == cb + 2);
    assert(closing[cb] == '[');
    assert(closing[cb + 1] == ']');
    assert forall|m: int| 7 <= m < cb implies closing[m] != '[' by {
        assert(closing[m] == names[m - 7]);
        if closing[m] == '[' {
            assert(names.contains('['));
        }
    }
    lemma_index_of_from_at(closing, '[', 7, cb);
    assert(closing.take(7) =~= "endif::"@);
    assert(closing.subrange(7, cb) =~= names);
    assert(names.len() > 0) by {
        if names.len() == 0 {
            assert(!names.contains(','));
            assert(!names.contains('+'));
            let pieces = seq![names];
            assert(pieces[0].len() == 0);
            assert(!no_empty_piece(pieces));
        }
    }
    let c = condition_of(names)->0;
    law_condition_matching_is_symmetric(c, c);
    assert(attribute_conditional(opening, n, negated) is Some);
    if negated {
        assert(conditional_line(opening) == attribute_conditional(opening, n, true));
    } else {
        assert(conditional_line(opening) == attribute_conditional(opening, n, false));
    }
    assert(endif_line(closing) == Some(Some(c)));
}

} // verus!
