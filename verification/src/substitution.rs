//! Substitution types, the `subs` attribute, and attribute-reference expansion.
//!
//! The parser resolves named groups and applies the substitutions that create
//! inline structure; converters handle the format-specific ones
//! (`SpecialChars`, `Replacements`). Only `Attributes` changes text here.
use vstd::prelude::*;

use crate::attributes::{AttributeValue, DocumentAttributes, SpecAttributeValue};
use crate::text::{
    char_slice, chars_of, ends_with, push_char, push_str, split_on, split_str, starts_with,
    str_eq, trim, trim_str,
};

verus! {

/// An `AsciiDoc` substitution or named substitution group.
#[derive(Clone, Copy, Debug, PartialEq, Eq, Hash, Structural)]
pub enum Substitution {
    SpecialChars,
    Attributes,
    Replacements,
    Macros,
    PostReplacements,
    Normal,
    Verbatim,
    Quotes,
    Callouts,
}

/// Default substitutions for header content.
pub const HEADER: [Substitution; 2] = [Substitution::SpecialChars, Substitution::Attributes];

/// Default substitutions for normal content (paragraphs, etc).
pub const NORMAL: [Substitution; 6] = [
    Substitution::SpecialChars,
    Substitution::Quotes,
    Substitution::Attributes,
    Substitution::Replacements,
    Substitution::Macros,
    Substitution::PostReplacements,
];

/// Default substitutions for verbatim blocks (listing, literal).
pub const VERBATIM: [Substitution; 2] = [Substitution::SpecialChars, Substitution::Callouts];

/// The substitutions the parser applies by default, in order.
pub const DEFAULT_PARSER_SUBSTITUTIONS: [Substitution; 7] = [
    Substitution::SpecialChars,
    Substitution::Quotes,
    Substitution::Attributes,
    Substitution::Replacements,
    Substitution::Macros,
    Substitution::PostReplacements,
    Substitution::Callouts,
];

/// The members of [`HEADER`].
pub open spec fn header_seq() -> Seq<Substitution> {
    seq![Substitution::SpecialChars, Substitution::Attributes]
}

/// The members of [`NORMAL`].
pub open spec fn normal_seq() -> Seq<Substitution> {
    seq![
        Substitution::SpecialChars,
        Substitution::Quotes,
        Substitution::Attributes,
        Substitution::Replacements,
        Substitution::Macros,
        Substitution::PostReplacements,
    ]
}

/// The members of [`VERBATIM`].
pub open spec fn verbatim_seq() -> Seq<Substitution> {
    seq![Substitution::SpecialChars, Substitution::Callouts]
}

/// The members of [`DEFAULT_PARSER_SUBSTITUTIONS`].
pub open spec fn default_parser_seq() -> Seq<Substitution> {
    normal_seq().push(Substitution::Callouts)
}

/// Whether `s` is one of the named groups `normal` and `verbatim`.
pub open spec fn is_group(s: Substitution) -> bool {
    s == Substitution::Normal || s == Substitution::Verbatim
}

/// The structural stage a substitution occupies, or none for a group.
pub open spec fn stage_of(s: Substitution) -> Option<int> {
    match s {
        Substitution::SpecialChars => Some(0),
        Substitution::Attributes => Some(1),
        Substitution::Replacements => Some(2),
        Substitution::Macros => Some(3),
        Substitution::PostReplacements => Some(4),
        Substitution::Quotes => Some(5),
        Substitution::Callouts => Some(6),
        Substitution::Normal | Substitution::Verbatim => None,
    }
}

/// The structural stage a substitution occupies, or none for a group.
pub fn substitution_stage_index(s: &Substitution) -> (r: Option<usize>)
    ensures
        match r {
            Some(i) => stage_of(*s) == Some(i as int),
            None => stage_of(*s) is None,
        },
{
    match s {
        Substitution::SpecialChars => Some(0),
        Substitution::Attributes => Some(1),
        Substitution::Replacements => Some(2),
        Substitution::Macros => Some(3),
        Substitution::PostReplacements => Some(4),
        Substitution::Quotes => Some(5),
        Substitution::Callouts => Some(6),
        Substitution::Normal | Substitution::Verbatim => None,
    }
}

impl Substitution {
    /// The snake-case name of this substitution (its `Display` form).
    pub open spec fn spec_name(self) -> Seq<char> {
        match self {
            Substitution::SpecialChars => "special_chars"@,
            Substitution::Attributes => "attributes"@,
            Substitution::Replacements => "replacements"@,
            Substitution::Macros => "macros"@,
            Substitution::PostReplacements => "post_replacements"@,
            Substitution::Normal => "normal"@,
            Substitution::Verbatim => "verbatim"@,
            Substitution::Quotes => "quotes"@,
            Substitution::Callouts => "callouts"@,
        }
    }

    /// The snake-case name of this substitution (its `Display` form).
    pub fn name(&self) -> (r: &'static str)
        ensures
            r@ == self.spec_name(),
    {
        match self {
            Substitution::SpecialChars => "special_chars",
            Substitution::Attributes => "attributes",
            Substitution::Replacements => "replacements",
            Substitution::Macros => "macros",
            Substitution::PostReplacements => "post_replacements",
            Substitution::Normal => "normal",
            Substitution::Verbatim => "verbatim",
            Substitution::Quotes => "quotes",
            Substitution::Callouts => "callouts",
        }
    }

    /// The display text of this substitution.
    pub fn to_string(&self) -> (r: String)
        ensures
            r@ == self.spec_name(),
    {
        crate::text::owned(self.name())
    }
}

/// The substitution a `subs` name or shorthand denotes, if any.
pub open spec fn parse_substitution_spec(v: Seq<char>) -> Option<Substitution> {
    if v == "attributes"@ || v == "a"@ {
        Some(Substitution::Attributes)
    } else if v == "replacements"@ || v == "r"@ {
        Some(Substitution::Replacements)
    } else if v == "macros"@ || v == "m"@ {
        Some(Substitution::Macros)
    } else if v == "post_replacements"@ || v == "p"@ {
        Some(Substitution::PostReplacements)
    } else if v == "normal"@ || v == "n"@ {
        Some(Substitution::Normal)
    } else if v == "verbatim"@ || v == "v"@ {
        Some(Substitution::Verbatim)
    } else if v == "quotes"@ || v == "q"@ {
        Some(Substitution::Quotes)
    } else if v == "callouts"@ {
        Some(Substitution::Callouts)
    } else if v == "specialchars"@ || v == "specialcharacters"@ || v == "c"@ {
        Some(Substitution::SpecialChars)
    } else {
        None
    }
}

/// Parse a substitution name into a `Substitution`; unknown names give `None`.
pub fn parse_substitution(value: &str) -> (r: Option<Substitution>)
    ensures
        r == parse_substitution_spec(value@),
{
    if str_eq(value, "attributes") || str_eq(value, "a") {
        Some(Substitution::Attributes)
    } else if str_eq(value, "replacements") || str_eq(value, "r") {
        Some(Substitution::Replacements)
    } else if str_eq(value, "macros") || str_eq(value, "m") {
        Some(Substitution::Macros)
    } else if str_eq(value, "post_replacements") || str_eq(value, "p") {
        Some(Substitution::PostReplacements)
    } else if str_eq(value, "normal") || str_eq(value, "n") {
        Some(Substitution::Normal)
    } else if str_eq(value, "verbatim") || str_eq(value, "v") {
        Some(Substitution::Verbatim)
    } else if str_eq(value, "quotes") || str_eq(value, "q") {
        Some(Substitution::Quotes)
    } else if str_eq(value, "callouts") {
        Some(Substitution::Callouts)
    } else if str_eq(value, "specialchars") || str_eq(value, "specialcharacters") || str_eq(
        value,
        "c",
    ) {
        Some(Substitution::SpecialChars)
    } else {
        None
    }
}

/// Where a named group is being expanded.
#[derive(Clone, Copy, Debug, PartialEq, Eq, Structural)]
pub enum GroupContext {
    /// A block's `subs` attribute: `verbatim` includes callouts.
    Block,
    /// An inline passthrough: `verbatim` excludes block-only callouts.
    Passthrough,
}

/// The substitutions a substitution or group stands for.
pub open spec fn members(s: Substitution, ctx: GroupContext) -> Seq<Substitution> {
    match s {
        Substitution::Normal => normal_seq(),
        Substitution::Verbatim => match ctx {
            GroupContext::Block => verbatim_seq(),
            GroupContext::Passthrough => seq![Substitution::SpecialChars],
        },
        _ => seq![s],
    }
}

/// The substitutions a substitution or group stands for.
pub fn substitution_members(s: &Substitution, ctx: GroupContext) -> (r: Vec<Substitution>)
    ensures
        r@ == members(*s, ctx),
{
    match s {
        Substitution::Normal => {
            let v = vec![
                Substitution::SpecialChars,
                Substitution::Quotes,
                Substitution::Attributes,
                Substitution::Replacements,
                Substitution::Macros,
                Substitution::PostReplacements,
            ];
            assert(v@ =~= normal_seq());
            v
        },
        Substitution::Verbatim => match ctx {
            GroupContext::Block => {
                let v = vec![Substitution::SpecialChars, Substitution::Callouts];
                assert(v@ =~= verbatim_seq());
                v
            },
            GroupContext::Passthrough => {
                let v = vec![Substitution::SpecialChars];
                assert(v@ =~= seq![Substitution::SpecialChars]);
                v
            },
        },
        _ => {
            let v = vec![*s];
            assert(v@ =~= seq![*s]);
            v
        },
    }
}

/// `r` followed by the items that it does not yet hold, each once, in order.
pub open spec fn append_new(r: Seq<Substitution>, items: Seq<Substitution>) -> Seq<Substitution>
    decreases items.len(),
{
    if items.len() == 0 {
        r
    } else {
        let r2 = if r.contains(items[0]) {
            r
        } else {
            r.push(items[0])
        };
        append_new(r2, items.drop_first())
    }
}

/// `r` with the items that it does not yet hold put in front, keeping their order.
pub open spec fn prepend_new(r: Seq<Substitution>, items: Seq<Substitution>) -> Seq<Substitution>
    decreases items.len(),
{
    if items.len() == 0 {
        r
    } else {
        let r2 = if r.contains(items.last()) {
            r
        } else {
            seq![items.last()] + r
        };
        prepend_new(r2, items.drop_last())
    }
}

/// `r` without any of `items`.
pub open spec fn remove_all(r: Seq<Substitution>, items: Seq<Substitution>) -> Seq<Substitution>
    decreases r.len(),
{
    if r.len() == 0 {
        r
    } else {
        let p = remove_all(r.drop_last(), items);
        if items.contains(r.last()) {
            p
        } else {
            p.push(r.last())
        }
    }
}

/// A sequence holds no value twice.
pub open spec fn no_dups(s: Seq<Substitution>) -> bool {
    forall|i: int, j: int| 0 <= i < j < s.len() ==> s[i] != s[j]
}

fn vec_contains(v: &Vec<Substitution>, x: Substitution) -> (r: bool)
    ensures
        r == v@.contains(x),
{
    let mut i: usize = 0;
    while i < v.len()
        invariant
            i <= v@.len(),
            forall|j: int| 0 <= j < i ==> v@[j] != x,
        decreases v.len() - i,
    {
        if v[i] == x {
            return true;
        }
        i = i + 1;
    }
    false
}

proof fn lemma_append_new_step(r: Seq<Substitution>, items: Seq<Substitution>, i: int)
    requires
        0 <= i < items.len(),
    ensures
        append_new(
            r,
            items,
        ) == append_new(append_new(r, items.take(i)), items.skip(i)),
    decreases i,
{
    if i > 0 {
        let r2 = if r.contains(items[0]) {
            r
        } else {
            r.push(items[0])
        };
        lemma_append_new_step(r2, items.drop_first(), i - 1);
        assert(items.drop_first().take(i - 1) =~= items.take(i).drop_first());
        assert(items.drop_first().skip(i - 1) =~= items.skip(i));
        assert(items.take(i)[0] == items[0]);
    } else {
        assert(items.take(0) =~= Seq::<Substitution>::empty());
        assert(items.skip(0) =~= items);
    }
}

proof fn lemma_append_new_prefix(r: Seq<Substitution>, items: Seq<Substitution>, i: int)
    requires
        0 <= i < items.len(),
    ensures
        append_new(r, items.take(i + 1)) == (if append_new(r, items.take(i)).contains(items[i]) {
            append_new(r, items.take(i))
        } else {
            append_new(r, items.take(i)).push(items[i])
        }),
    decreases i,
{
    let r2 = if r.contains(items[0]) {
        r
    } else {
        r.push(items[0])
    };
    let df = items.drop_first();
    assert(items.take(i + 1)[0] == items[0]);
    assert(items.take(i + 1).drop_first() =~= df.take(i));
    assert(append_new(r, items.take(i + 1)) == append_new(r2, df.take(i)));
    if i > 0 {
        lemma_append_new_prefix(r2, df, i - 1);
        assert(items.take(i)[0] == items[0]);
        assert(items.take(i).drop_first() =~= df.take(i - 1));
        assert(append_new(r, items.take(i)) == append_new(r2, df.take(i - 1)));
        assert(df[i - 1] == items[i]);
        assert(df.take(i - 1 + 1) =~= df.take(i));
    } else {
        assert(df.take(0) =~= Seq::<Substitution>::empty());
        assert(items.take(0) =~= Seq::<Substitution>::empty());
        assert(append_new(r2, Seq::<Substitution>::empty()) == r2);
        assert(append_new(r, Seq::<Substitution>::empty()) == r);
    }
}

/// Append each of `items` that `result` does not yet hold.
fn append_each_new(result: &mut Vec<Substitution>, items: &Vec<Substitution>)
    ensures
        final(result)@ == append_new(old(result)@, items@),
{
    let ghost start = result@;
    let mut i: usize = 0;
    assert(items@.take(0) =~= Seq::<Substitution>::empty());
    while i < items.len()
        invariant
            i <= items@.len(),
            result@ == append_new(start, items@.take(i as int)),
        decreases items.len() - i,
    {
        proof {
            lemma_append_new_prefix(start, items@, i as int);
        }
        let x = items[i];
        if !vec_contains(result, x) {
            result.push(x);
        }
        i = i + 1;
    }
    assert(items@.take(items@.len() as int) =~= items@);
}

fn append_expanded_substitution(
    result: &mut Vec<Substitution>,
    substitution: &Substitution,
    context: GroupContext,
)
    ensures
        final(result)@ == append_new(old(result)@, members(*substitution, context)),
{
    let m = substitution_members(substitution, context);
    append_each_new(result, &m);
}

/// The result of resolving the groups of `subs` in `ctx`, keeping first occurrences.
pub open spec fn resolve_groups(subs: Seq<Substitution>, ctx: GroupContext) -> Seq<Substitution>
    decreases subs.len(),
{
    if subs.len() == 0 {
        Seq::empty()
    } else {
        append_new(resolve_groups(subs.drop_last(), ctx), members(subs.last(), ctx))
    }
}

/// Resolve named groups for an inline passthrough while preserving source order.
pub fn resolve_passthrough_substitutions(substitutions: &[Substitution]) -> (r: Vec<
    Substitution,
>)
    ensures
        r@ == resolve_groups(substitutions@, GroupContext::Passthrough),
{
    let mut resolved: Vec<Substitution> = Vec::new();
    let mut i: usize = 0;
    assert(substitutions@.take(0) =~= Seq::<Substitution>::empty());
    while i < substitutions.len()
        invariant
            i <= substitutions@.len(),
            resolved@ == resolve_groups(substitutions@.take(i as int), GroupContext::Passthrough),
        decreases substitutions.len() - i,
    {
        assert(substitutions@.take(i + 1).drop_last() =~= substitutions@.take(i as int));
        append_expanded_substitution(&mut resolved, &substitutions[i], GroupContext::Passthrough);
        i = i + 1;
    }
    assert(substitutions@.take(substitutions@.len() as int) =~= substitutions@);
    resolved
}

/// Append a substitution (or group) to the end of the list, skipping members
/// that are already present.
pub fn append_substitution(result: &mut Vec<Substitution>, sub: &Substitution)
    ensures
        final(result)@ == append_new(old(result)@, members(*sub, GroupContext::Block)),
{
    append_expanded_substitution(result, sub, GroupContext::Block);
}

/// Prepend a substitution (or group) to the beginning of the list, keeping the
/// group's order and skipping members that are already present.
pub fn prepend_substitution(result: &mut Vec<Substitution>, sub: &Substitution)
    ensures
        final(result)@ == prepend_new(old(result)@, members(*sub, GroupContext::Block)),
{
    let m = substitution_members(sub, GroupContext::Block);
    let ghost start = result@;
    let mut i: usize = m.len();
    assert(m@.take(m@.len() as int) =~= m@);
    while i > 0
        invariant
            i <= m@.len(),
            prepend_new(start, m@) == prepend_new(result@, m@.take(i as int)),
        decreases i,
    {
        let x = m[i - 1];
        assert(m@.take(i as int).last() == x);
        assert(m@.take(i as int).drop_last() =~= m@.take(i - 1));
        if !vec_contains(result, x) {
            let ghost before = result@;
            result.insert(0, x);
            assert(result@ =~= seq![x] + before);
        }
        i = i - 1;
    }
    assert(m@.take(0) =~= Seq::<Substitution>::empty());
}

/// Remove a substitution (or group) from the list.
pub fn remove_substitution(result: &mut Vec<Substitution>, sub: &Substitution)
    ensures
        final(result)@ == remove_all(old(result)@, members(*sub, GroupContext::Block)),
{
    let m = substitution_members(sub, GroupContext::Block);
    let mut kept: Vec<Substitution> = Vec::new();
    let mut i: usize = 0;
    assert(result@.take(0) =~= Seq::<Substitution>::empty());
    while i < result.len()
        invariant
            i <= result@.len(),
            kept@ == remove_all(result@.take(i as int), m@),
        decreases result.len() - i,
    {
        assert(result@.take(i + 1).drop_last() =~= result@.take(i as int));
        let x = result[i];
        if !vec_contains(&m, x) {
            kept.push(x);
        }
        i = i + 1;
    }
    assert(result@.take(result@.len() as int) =~= result@);
    *result = kept;
}

/// A substitution operation to apply to a default substitution list.
#[derive(Clone, Copy, Debug, PartialEq, Eq, Hash, Structural)]
pub enum SubstitutionOp {
    /// `+name` - append substitution to end of default list
    Append(Substitution),
    /// `name+` - prepend substitution to beginning of default list
    Prepend(Substitution),
    /// `-name` - remove substitution from default list
    Remove(Substitution),
}

impl SubstitutionOp {
    /// The document syntax of this operation (its `Display` form).
    pub open spec fn spec_text(self) -> Seq<char> {
        match self {
            SubstitutionOp::Append(s) => seq!['+'] + s.spec_name(),
            SubstitutionOp::Prepend(s) => s.spec_name().push('+'),
            SubstitutionOp::Remove(s) => seq!['-'] + s.spec_name(),
        }
    }

    /// The document syntax of this operation (its `Display` form).
    pub fn to_string(&self) -> (r: String)
        ensures
            r@ == self.spec_text(),
    {
        let mut out = String::new();
        match self {
            SubstitutionOp::Append(s) => {
                push_char(&mut out, '+');
                push_str(&mut out, s.name());
            },
            SubstitutionOp::Prepend(s) => {
                push_str(&mut out, s.name());
                push_char(&mut out, '+');
            },
            SubstitutionOp::Remove(s) => {
                push_char(&mut out, '-');
                push_str(&mut out, s.name());
            },
        }
        assert(out@ =~= self.spec_text());
        out
    }
}

/// One operation applied to a substitution list.
pub open spec fn apply_op(r: Seq<Substitution>, op: SubstitutionOp) -> Seq<Substitution> {
    match op {
        SubstitutionOp::Append(s) => append_new(r, members(s, GroupContext::Block)),
        SubstitutionOp::Prepend(s) => prepend_new(r, members(s, GroupContext::Block)),
        SubstitutionOp::Remove(s) => remove_all(r, members(s, GroupContext::Block)),
    }
}

/// The operations applied in order to `default`.
pub open spec fn apply_ops(ops: Seq<SubstitutionOp>, default: Seq<Substitution>) -> Seq<
    Substitution,
>
    decreases ops.len(),
{
    if ops.len() == 0 {
        default
    } else {
        apply_op(apply_ops(ops.drop_last(), default), ops.last())
    }
}

/// Specification for substitutions to apply to a block.
#[derive(Clone, Debug)]
pub enum SubstitutionSpec {
    /// Explicit list of substitutions to apply (replaces all defaults)
    Explicit(Vec<Substitution>),
    /// Modifier operations to apply to block-type defaults
    Modifiers(Vec<SubstitutionOp>),
}

impl SubstitutionSpec {
    /// Apply modifier operations to a default substitution list.
    pub fn apply_modifiers(ops: &[SubstitutionOp], default: &[Substitution]) -> (r: Vec<
        Substitution,
    >)
        ensures
            r@ == apply_ops(ops@, default@),
    {
        let mut result: Vec<Substitution> = Vec::new();
        let mut k: usize = 0;
        while k < default.len()
            invariant
                k <= default@.len(),
                result@ == default@.take(k as int),
            decreases default.len() - k,
        {
            result.push(default[k]);
            k = k + 1;
            assert(result@ =~= default@.take(k as int));
        }
        assert(default@.take(default@.len() as int) =~= default@);
        let mut i: usize = 0;
        assert(ops@.take(0) =~= Seq::<SubstitutionOp>::empty());
        while i < ops.len()
            invariant
                i <= ops@.len(),
                result@ == apply_ops(ops@.take(i as int), default@),
            decreases ops.len() - i,
        {
            assert(ops@.take(i + 1).drop_last() =~= ops@.take(i as int));
            match &ops[i] {
                SubstitutionOp::Append(sub) => append_substitution(&mut result, sub),
                SubstitutionOp::Prepend(sub) => prepend_substitution(&mut result, sub),
                SubstitutionOp::Remove(sub) => remove_substitution(&mut result, sub),
            }
            i = i + 1;
        }
        assert(ops@.take(ops@.len() as int) =~= ops@);
        result
    }

    /// The concrete list this spec stands for over the baseline `default`.
    pub open spec fn spec_resolve(&self, default: Seq<Substitution>) -> Seq<Substitution> {
        match self {
            SubstitutionSpec::Explicit(subs) => subs@,
            SubstitutionSpec::Modifiers(ops) => apply_ops(ops@, default),
        }
    }

    /// Resolve the substitution spec to a concrete list of substitutions.
    ///
    /// - For `Explicit`, returns the list directly
    /// - For `Modifiers`, applies the operations to the provided default
    pub fn resolve(&self, default: &[Substitution]) -> (r: Vec<Substitution>)
        ensures
            r@ == self.spec_resolve(default@),
    {
        match self {
            SubstitutionSpec::Explicit(subs) => {
                let mut out: Vec<Substitution> = Vec::new();
                let mut k: usize = 0;
                while k < subs.len()
                    invariant
                        k <= subs@.len(),
                        out@ == subs@.take(k as int),
                    decreases subs.len() - k,
                {
                    out.push(subs[k]);
                    k = k + 1;
                    assert(out@ =~= subs@.take(k as int));
                }
                assert(subs@.take(subs@.len() as int) =~= subs@);
                out
            },
            SubstitutionSpec::Modifiers(ops) => Self::apply_modifiers(ops.as_slice(), default),
        }
    }

    /// Whether this spec turns `substitution` off: an explicit list that omits it,
    /// or a modifier list that removes it.
    pub open spec fn spec_is_disabled(&self, s: Substitution) -> bool {
        match self {
            SubstitutionSpec::Explicit(subs) => !subs@.contains(s),
            SubstitutionSpec::Modifiers(ops) => ops@.contains(SubstitutionOp::Remove(s)),
        }
    }

    /// Whether this spec turns `substitution` off.
    pub fn is_disabled(&self, substitution: &Substitution) -> (r: bool)
        ensures
            r == self.spec_is_disabled(*substitution),
    {
        match self {
            SubstitutionSpec::Explicit(subs) => !vec_contains(subs, *substitution),
            SubstitutionSpec::Modifiers(operations) => {
                let mut i: usize = 0;
                while i < operations.len()
                    invariant
                        i <= operations@.len(),
                        self.spec_is_disabled(*substitution) == operations@.contains(
                            SubstitutionOp::Remove(*substitution),
                        ),
                        forall|j: int|
                            0 <= j < i ==> operations@[j] != SubstitutionOp::Remove(*substitution),
                    decreases operations.len() - i,
                {
                    if operations[i] == SubstitutionOp::Remove(*substitution) {
                        assert(operations@[i as int] == SubstitutionOp::Remove(*substitution));
                        assert(operations@.contains(SubstitutionOp::Remove(*substitution)));

                        return true;
                    }
                    i = i + 1;
                }
                false
            },
        }
    }
}

} // verus!

verus! {

/// The first index at or after `k` holding `}` (or the length when none does).
pub open spec fn close_index(t: Seq<char>, k: int) -> int
    decreases t.len() - k,
{
    if k >= t.len() {
        t.len() as int
    } else if t[k] == '}' {
        k
    } else {
        close_index(t, k + 1)
    }
}

pub proof fn lemma_close_index_bounds(t: Seq<char>, k: int)
    ensures
        k >= t.len() ==> close_index(t, k) == t.len(),
        k < t.len() ==> k <= close_index(t, k) <= t.len(),
    decreases t.len() - k,
{
    if k < t.len() && t[k] != '}' {
        lemma_close_index_bounds(t, k + 1);
    }
}

/// What a closed reference `{name}` becomes: an empty string for a `true`
/// attribute, the text of a string attribute, and the reference itself otherwise.
pub open spec fn reference_text(name: Seq<char>, m: Map<Seq<char>, SpecAttributeValue>) -> Seq<
    char,
> {
    if m.contains_key(name) {
        match m[name] {
            SpecAttributeValue::Bool(true) => Seq::empty(),
            SpecAttributeValue::Text(v) => v,
            _ => seq!['{'] + name + seq!['}'],
        }
    } else {
        seq!['{'] + name + seq!['}']
    }
}

/// `t` from position `i` on, with each `{name}` reference expanded once.
///
/// A `{` with no closing `}` after it leaves the rest of the text unchanged.
pub open spec fn expand_from(t: Seq<char>, i: int, m: Map<Seq<char>, SpecAttributeValue>) -> Seq<
    char,
>
    decreases t.len() - i,
{
    if i < 0 || i >= t.len() {
        Seq::empty()
    } else if t[i] == '{' {
        let j = close_index(t, i + 1);
        if j < t.len() {
            proof {
                lemma_close_index_bounds(t, i + 1);
            }
            reference_text(t.subrange(i + 1, j), m) + expand_from(t, j + 1, m)
        } else {
            t.skip(i)
        }
    } else {
        seq![t[i]] + expand_from(t, i + 1, m)
    }
}

/// `t` with each `{name}` attribute reference expanded once from `m`.
pub open spec fn expand_attributes(t: Seq<char>, m: Map<Seq<char>, SpecAttributeValue>) -> Seq<
    char,
> {
    expand_from(t, 0, m)
}

/// One non-group substitution applied to text: only `Attributes` changes it.
pub open spec fn apply_atomic(
    t: Seq<char>,
    s: Substitution,
    m: Map<Seq<char>, SpecAttributeValue>,
) -> Seq<char> {
    if s == Substitution::Attributes {
        expand_attributes(t, m)
    } else {
        t
    }
}

/// Non-group substitutions applied in order.
pub open spec fn apply_atomics(
    t: Seq<char>,
    subs: Seq<Substitution>,
    m: Map<Seq<char>, SpecAttributeValue>,
) -> Seq<char>
    decreases subs.len(),
{
    if subs.len() == 0 {
        t
    } else {
        apply_atomic(apply_atomics(t, subs.drop_last(), m), subs.last(), m)
    }
}

/// One substitution applied to text; a group applies its members.
pub open spec fn apply_substitution(
    t: Seq<char>,
    s: Substitution,
    m: Map<Seq<char>, SpecAttributeValue>,
) -> Seq<char> {
    match s {
        Substitution::Normal => apply_atomics(t, normal_seq(), m),
        Substitution::Verbatim => apply_atomics(t, verbatim_seq(), m),
        _ => apply_atomic(t, s, m),
    }
}

/// Substitutions applied to text in order.
pub open spec fn substitute_spec(
    t: Seq<char>,
    subs: Seq<Substitution>,
    m: Map<Seq<char>, SpecAttributeValue>,
) -> Seq<char>
    decreases subs.len(),
{
    if subs.len() == 0 {
        t
    } else {
        apply_substitution(substitute_spec(t, subs.drop_last(), m), subs.last(), m)
    }
}

/// Expand every `{name}` reference in `text` once.
fn expand_attribute_references(text: &str, attributes: &DocumentAttributes) -> (r: String)
    requires
        attributes.wf(),
    ensures
        r@ == expand_attributes(text@, attributes@),
{
    let t = chars_of(text);
    let n = t.len();
    let ghost m = attributes@;
    let mut out = String::new();
    let mut i: usize = 0;
    while i < n
        invariant
            t@ == text@,
            n == t@.len(),
            i <= n,
            attributes.wf(),
            m == attributes@,
            out@ + expand_from(t@, i as int, m) == expand_from(t@, 0, m),
        decreases n - i,
    {
        let ch = t[i];
        if ch == '{' {
            let mut j: usize = i + 1;
            while j < n && t[j] != '}'
                invariant
                    i + 1 <= j <= n,
                    n == t@.len(),
                    close_index(t@, (i + 1) as int) == close_index(t@, j as int),
                decreases n - j,
            {
                j = j + 1;
            }
            let name = crate::text::string_from_chars(&t.as_slice()[i + 1..j]);
            let ghost tail = expand_from(t@, i as int, m);
            if j < n {
                assert(close_index(t@, j as int) == j);
                assert(name@ =~= t@.subrange(i + 1, j as int));
                let ghost before = out@;
                match attributes.get(name.as_str()) {
                    Some(AttributeValue::Bool(true)) => {},
                    Some(AttributeValue::String(v)) => {
                        push_str(&mut out, v.as_str());
                    },
                    _ => {
                        push_char(&mut out, '{');
                        push_str(&mut out, name.as_str());
                        push_char(&mut out, '}');
                    },
                }
                assert(out@ =~= before + reference_text(name@, m));
                i = j + 1;
                assert(out@ + expand_from(t@, i as int, m) =~= before + tail);
            } else {
                assert(close_index(t@, j as int) == n);
                push_char(&mut out, '{');
                push_str(&mut out, name.as_str());
                assert(t@.skip(i as int) =~= seq!['{'] + t@.subrange(i + 1, n as int));
                i = n;
            }
        } else {
            push_char(&mut out, ch);
            i = i + 1;
        }
    }
    assert(out@ =~= expand_from(t@, 0, m));
    out
}

fn apply_atomics_exec(text: String, subs: &[Substitution], attributes: &DocumentAttributes) -> (r:
    String)
    requires
        attributes.wf(),
        forall|k: int| 0 <= k < subs@.len() ==> !is_group(#[trigger] subs@[k]),
    ensures
        r@ == apply_atomics(text@, subs@, attributes@),
{
    let mut result = text;
    let mut i: usize = 0;
    assert(subs@.take(0) =~= Seq::<Substitution>::empty());
    while i < subs.len()
        invariant
            i <= subs@.len(),
            attributes.wf(),
            result@ == apply_atomics(text@, subs@.take(i as int), attributes@),
        decreases subs.len() - i,
    {
        assert(subs@.take(i + 1).drop_last() =~= subs@.take(i as int));
        if subs[i] == Substitution::Attributes {
            result = expand_attribute_references(result.as_str(), attributes);
        }
        i = i + 1;
    }
    assert(subs@.take(subs@.len() as int) =~= subs@);
    result
}

/// Apply a sequence of substitutions to text.
///
/// `Attributes` expands `{name}` references from the document attributes once
/// (no recursive expansion); `Normal` and `Verbatim` apply their members; the
/// other substitutions leave the text for the converter or grammar.
pub fn substitute(text: &str, substitutions: &[Substitution], attributes: &DocumentAttributes) -> (r:
    String)
    requires
        attributes.wf(),
    ensures
        r@ == substitute_spec(text@, substitutions@, attributes@),
{
    let mut result = crate::text::owned(text);
    let mut i: usize = 0;
    assert(substitutions@.take(0) =~= Seq::<Substitution>::empty());
    while i < substitutions.len()
        invariant
            i <= substitutions@.len(),
            attributes.wf(),
            result@ == substitute_spec(text@, substitutions@.take(i as int), attributes@),
        decreases substitutions.len() - i,
    {
        assert(substitutions@.take(i + 1).drop_last() =~= substitutions@.take(i as int));
        match substitutions[i] {
            Substitution::Attributes => {
                result = expand_attribute_references(result.as_str(), attributes);
            },
            Substitution::Normal => {
                let group = NORMAL;
                assert(group@ =~= normal_seq());
                result = apply_atomics_exec(result, group.as_slice(), attributes);
            },
            Substitution::Verbatim => {
                let group = VERBATIM;
                assert(group@ =~= verbatim_seq());
                result = apply_atomics_exec(result, group.as_slice(), attributes);
            },
            _ => {},
        }
        i = i + 1;
    }
    assert(substitutions@.take(substitutions@.len() as int) =~= substitutions@);
    result
}

} // verus!

verus! {

/// Modifier for a substitution in the `subs` attribute.
#[derive(Clone, Copy, Debug, PartialEq, Eq, Structural)]
pub enum SubsModifier {
    /// `+name` - append to end of default list
    Append,
    /// `name+` - prepend to beginning of default list
    Prepend,
    /// `-name` - remove from default list
    Remove,
}

/// The name and modifier of one `subs` part.
pub open spec fn part_spec(p: Seq<char>) -> (Seq<char>, Option<SubsModifier>) {
    if p.len() > 0 && p[0] == '+' {
        (p.drop_first(), Some(SubsModifier::Append))
    } else if p.len() > 0 && p.last() == '+' {
        (p.drop_last(), Some(SubsModifier::Prepend))
    } else if p.len() > 0 && p[0] == '-' {
        (p.drop_first(), Some(SubsModifier::Remove))
    } else {
        (p, None)
    }
}

/// Parse a single subs part into name and optional modifier.
pub fn parse_subs_part(part: &str) -> (r: (&str, Option<SubsModifier>))
    ensures
        (r.0@, r.1) == part_spec(part@),
{
    let v = chars_of(part);
    let n = v.len();
    if n > 0 && v[0] == '+' {
        (char_slice(part, 1, n), Some(SubsModifier::Append))
    } else if n > 0 && v[n - 1] == '+' {
        (char_slice(part, 0, n - 1), Some(SubsModifier::Prepend))
    } else if n > 0 && v[0] == '-' {
        (char_slice(part, 1, n), Some(SubsModifier::Remove))
    } else {
        (part, None)
    }
}

/// The trimmed, non-empty pieces of a list.
pub open spec fn clean_pieces(pieces: Seq<Seq<char>>) -> Seq<Seq<char>>
    decreases pieces.len(),
{
    if pieces.len() == 0 {
        Seq::empty()
    } else {
        let p = clean_pieces(pieces.drop_last());
        let t = trim(pieces.last());
        if t.len() == 0 {
            p
        } else {
            p.push(t)
        }
    }
}

/// The parts of a `subs` value, in order.
pub open spec fn subs_parts(v: Seq<char>) -> Seq<(Seq<char>, Option<SubsModifier>)> {
    clean_pieces(split_on(v, ',')).map_values(|p: Seq<char>| part_spec(p))
}

/// Whether any part carries a modifier.
pub open spec fn has_modifier(parts: Seq<(Seq<char>, Option<SubsModifier>)>) -> bool {
    exists|k: int| 0 <= k < parts.len() && (#[trigger] parts[k]).1 is Some
}

/// The operation a part stands for, given its substitution.
pub open spec fn op_for(s: Substitution, m: Option<SubsModifier>) -> SubstitutionOp {
    match m {
        Some(SubsModifier::Prepend) => SubstitutionOp::Prepend(s),
        Some(SubsModifier::Remove) => SubstitutionOp::Remove(s),
        _ => SubstitutionOp::Append(s),
    }
}

/// The operations of modifier mode: one per part with a known name; a plain
/// name counts as an append.
pub open spec fn ops_from(parts: Seq<(Seq<char>, Option<SubsModifier>)>) -> Seq<SubstitutionOp>
    decreases parts.len(),
{
    if parts.len() == 0 {
        Seq::empty()
    } else {
        let p = ops_from(parts.drop_last());
        match parse_substitution_spec(parts.last().0) {
            Some(s) => p.push(op_for(s, parts.last().1)),
            None => p,
        }
    }
}

/// The explicit list: the known names, groups expanded, each substitution once.
pub open spec fn explicit_from(parts: Seq<(Seq<char>, Option<SubsModifier>)>) -> Seq<
    Substitution,
>
    decreases parts.len(),
{
    if parts.len() == 0 {
        Seq::empty()
    } else {
        let p = explicit_from(parts.drop_last());
        match parse_substitution_spec(parts.last().0) {
            Some(s) => append_new(p, members(s, GroupContext::Block)),
            None => p,
        }
    }
}

/// The mathematical value of a [`SubstitutionSpec`].
pub enum SpecSubstitutionSpec {
    Explicit(Seq<Substitution>),
    Modifiers(Seq<SubstitutionOp>),
}

impl View for SubstitutionSpec {
    type V = SpecSubstitutionSpec;

    open spec fn view(&self) -> SpecSubstitutionSpec {
        match self {
            SubstitutionSpec::Explicit(v) => SpecSubstitutionSpec::Explicit(v@),
            SubstitutionSpec::Modifiers(v) => SpecSubstitutionSpec::Modifiers(v@),
        }
    }
}

/// What a `subs` attribute value means.
pub open spec fn parse_subs_spec(value: Seq<char>) -> SpecSubstitutionSpec {
    let v = trim(value);
    if v.len() == 0 || v == "none"@ {
        SpecSubstitutionSpec::Explicit(Seq::empty())
    } else {
        let parts = subs_parts(v);
        if has_modifier(parts) {
            SpecSubstitutionSpec::Modifiers(ops_from(parts))
        } else {
            SpecSubstitutionSpec::Explicit(explicit_from(parts))
        }
    }
}

/// The trimmed non-empty pieces of `v` split at commas, each split into name and modifier.
fn collect_parts<'a>(v: &'a str) -> (parts: Vec<(&'a str, Option<SubsModifier>)>)
    ensures
        parts@.len() == subs_parts(v@).len(),
        forall|k: int|
            0 <= k < parts@.len() ==> ((#[trigger] parts@[k]).0@, parts@[k].1) == subs_parts(
                v@,
            )[k],
{
    let pieces = split_str(v, ',');
    let ghost sp = split_on(v@, ',');
    let mut parts: Vec<(&'a str, Option<SubsModifier>)> = Vec::new();
    let mut i: usize = 0;
    assert(sp.take(0) =~= Seq::<Seq<char>>::empty());
    while i < pieces.len()
        invariant
            i <= pieces@.len(),
            pieces@.len() == sp.len(),
            forall|k: int| 0 <= k < pieces@.len() ==> (#[trigger] pieces@[k])@ == sp[k],
            parts@.len() == clean_pieces(sp.take(i as int)).len(),
            forall|k: int|
                0 <= k < parts@.len() ==> ((#[trigger] parts@[k]).0@, parts@[k].1) == part_spec(
                    clean_pieces(sp.take(i as int))[k],
                ),
        decreases pieces.len() - i,
    {
        assert(sp.take(i + 1).drop_last() =~= sp.take(i as int));
        assert(sp.take(i + 1).last() == sp[i as int]);
        let t = trim_str(pieces[i]);
        if t.unicode_len() > 0 {
            let p = parse_subs_part(t);
            parts.push(p);
        }
        i = i + 1;
    }
    assert(sp.take(pieces@.len() as int) =~= sp);
    parts
}

/// Parse a `subs` attribute value into a substitution specification.
///
/// `none` or an empty value is the empty explicit list; if any part carries a
/// modifier (`+name`, `name+`, `-name`) the result is the list of operations,
/// where a plain name counts as an append; otherwise it is the explicit list of
/// the named substitutions with groups expanded and repeats dropped. Unknown
/// names are skipped.
pub fn parse_subs_attribute(value: &str) -> (r: SubstitutionSpec)
    ensures
        r@ == parse_subs_spec(value@),
{
    let v = trim_str(value);
    if v.unicode_len() == 0 || str_eq(v, "none") {
        return SubstitutionSpec::Explicit(Vec::new());
    }
    let parts = collect_parts(v);
    let ghost sp = subs_parts(v@);
    let mut has_modifiers = false;
    let mut k: usize = 0;
    while k < parts.len()
        invariant
            k <= parts@.len(),
            parts@.len() == sp.len(),
            forall|q: int| 0 <= q < parts@.len() ==> ((#[trigger] parts@[q]).0@, parts@[q].1) == sp[q],
            has_modifiers == exists|q: int| 0 <= q < k && (#[trigger] sp[q]).1 is Some,
        decreases parts.len() - k,
    {
        if parts[k].1.is_some() {
            assert(sp[k as int].1 is Some);
            has_modifiers = true;
        }
        k = k + 1;
    }
    assert(has_modifiers == has_modifier(sp));
    if has_modifiers {
        let mut ops: Vec<SubstitutionOp> = Vec::new();
        let mut i: usize = 0;
        assert(sp.take(0) =~= Seq::<(Seq<char>, Option<SubsModifier>)>::empty());
        while i < parts.len()
            invariant
                i <= parts@.len(),
                parts@.len() == sp.len(),
                forall|q: int|
                    0 <= q < parts@.len() ==> ((#[trigger] parts@[q]).0@, parts@[q].1) == sp[q],
                ops@ == ops_from(sp.take(i as int)),
            decreases parts.len() - i,
        {
            assert(sp.take(i + 1).drop_last() =~= sp.take(i as int));
            assert(sp.take(i + 1).last() == sp[i as int]);
            let (name, modifier) = parts[i];
            match parse_substitution(name) {
                Some(sub) => {
                    let op = match modifier {
                        Some(SubsModifier::Prepend) => SubstitutionOp::Prepend(sub),
                        Some(SubsModifier::Remove) => SubstitutionOp::Remove(sub),
                        _ => SubstitutionOp::Append(sub),
                    };
                    ops.push(op);
                },
                None => {},
            }
            i = i + 1;
        }
        assert(sp.take(parts@.len() as int) =~= sp);
        SubstitutionSpec::Modifiers(ops)
    } else {
        let mut result: Vec<Substitution> = Vec::new();
        let mut i: usize = 0;
        assert(sp.take(0) =~= Seq::<(Seq<char>, Option<SubsModifier>)>::empty());
        while i < parts.len()
            invariant
                i <= parts@.len(),
                parts@.len() == sp.len(),
                forall|q: int|
                    0 <= q < parts@.len() ==> ((#[trigger] parts@[q]).0@, parts@[q].1) == sp[q],
                result@ == explicit_from(sp.take(i as int)),
            decreases parts.len() - i,
        {
            assert(sp.take(i + 1).drop_last() =~= sp.take(i as int));
            assert(sp.take(i + 1).last() == sp[i as int]);
            let (name, _) = parts[i];
            match parse_substitution(name) {
                Some(sub) => append_substitution(&mut result, &sub),
                None => {},
            }
            i = i + 1;
        }
        assert(sp.take(parts@.len() as int) =~= sp);
        SubstitutionSpec::Explicit(result)
    }
}

} // verus!

verus! {

/// The rank a stage takes when it is disabled.
pub const DISABLED_SUBSTITUTION: u8 = 255;

/// The rank recorded for position `k` of a substitution list.
pub open spec fn rank_at(k: int) -> u8 {
    if k <= 255 {
        k as u8
    } else {
        254
    }
}

/// The ranks of the seven stages after reading `subs`: the position of the last
/// substitution of each stage, or [`DISABLED_SUBSTITUTION`] for an absent stage.
pub open spec fn plan_ranks(subs: Seq<Substitution>) -> Seq<u8>
    decreases subs.len(),
{
    if subs.len() == 0 {
        seq![255u8, 255u8, 255u8, 255u8, 255u8, 255u8, 255u8]
    } else {
        let p = plan_ranks(subs.drop_last());
        match stage_of(subs.last()) {
            Some(i) => p.update(i, rank_at(subs.len() - 1)),
            None => p,
        }
    }
}

pub proof fn lemma_plan_ranks_len(subs: Seq<Substitution>)
    ensures
        plan_ranks(subs).len() == 7,
    decreases subs.len(),
{
    if subs.len() > 0 {
        lemma_plan_ranks_len(subs.drop_last());
    }
}

/// The enabled structural substitutions and their effective source order.
///
/// A disabled stage has the maximum rank.
#[derive(Clone, Copy, Debug, PartialEq, Eq)]
pub struct SubstitutionPlan {
    ranks: [u8; 7],
}

impl SubstitutionPlan {
    /// The rank of each stage.
    pub closed spec fn spec_ranks(&self) -> Seq<u8> {
        self.ranks@
    }

    /// Whether the plan enables `s`.
    pub open spec fn spec_enabled(&self, s: Substitution) -> bool {
        match stage_of(s) {
            Some(i) => self.spec_ranks()[i] != DISABLED_SUBSTITUTION,
            None => false,
        }
    }

    /// Whether the plan applies `a` before `b`.
    pub open spec fn spec_precedes(&self, a: Substitution, b: Substitution) -> bool {
        match (stage_of(a), stage_of(b)) {
            (Some(i), Some(j)) => self.spec_ranks()[i] != DISABLED_SUBSTITUTION
                && self.spec_ranks()[j] != DISABLED_SUBSTITUTION && self.spec_ranks()[i]
                < self.spec_ranks()[j],
            _ => false,
        }
    }

    /// The plan for a substitution list: each stage ranked by the last position
    /// at which the list names it.
    pub fn from_substitutions(substitutions: &[Substitution]) -> (r: Self)
        ensures
            r.spec_ranks() == plan_ranks(substitutions@),
    {
        let mut ranks: [u8; 7] = [255, 255, 255, 255, 255, 255, 255];
        let mut k: usize = 0;
        assert(substitutions@.take(0) =~= Seq::<Substitution>::empty());
        assert(ranks@ =~= plan_ranks(Seq::<Substitution>::empty()));
        while k < substitutions.len()
            invariant
                k <= substitutions@.len(),
                ranks@ == plan_ranks(substitutions@.take(k as int)),
            decreases substitutions.len() - k,
        {
            assert(substitutions@.take(k + 1).drop_last() =~= substitutions@.take(k as int));
            assert(substitutions@.take(k + 1).last() == substitutions@[k as int]);
            proof {
                lemma_plan_ranks_len(substitutions@.take(k as int));
            }
            match substitution_stage_index(&substitutions[k]) {
                Some(index) => {
                    let rank: u8 = if k <= 255 {
                        k as u8
                    } else {
                        254
                    };
                    ranks[index] = rank;
                },
                None => {},
            }
            k = k + 1;
        }
        assert(substitutions@.take(substitutions@.len() as int) =~= substitutions@);
        SubstitutionPlan { ranks }
    }

    /// The plan that enables only `substitution`.
    pub fn only(substitution: &Substitution) -> (r: Self)
        ensures
            r.spec_ranks() == plan_ranks(seq![*substitution]),
    {
        let one = [*substitution];
        assert(one@ =~= seq![*substitution]);
        Self::from_substitutions(one.as_slice())
    }

    /// The plan of the parser's default substitutions.
    pub fn default_plan() -> (r: Self)
        ensures
            r.spec_ranks() == plan_ranks(default_parser_seq()),
    {
        let subs = DEFAULT_PARSER_SUBSTITUTIONS;
        assert(subs@ =~= default_parser_seq());
        Self::from_substitutions(subs.as_slice())
    }

    /// The plan for a block's `subs` spec: the spec resolved against
    /// [`NORMAL`], and for modifier specs every default parser substitution
    /// that the spec does not remove.
    pub fn for_block_spec(spec: &SubstitutionSpec) -> (r: Self)
        ensures
            r.spec_ranks() == plan_ranks(block_plan_subs(*spec)),
    {
        let normal = NORMAL;
        assert(normal@ =~= normal_seq());
        let mut substitutions = spec.resolve(normal.as_slice());
        if let SubstitutionSpec::Modifiers(_) = spec {
            let defaults = DEFAULT_PARSER_SUBSTITUTIONS;
            assert(defaults@ =~= default_parser_seq());
            let ghost base = substitutions@;
            let mut i: usize = 0;
            assert(defaults@.take(0) =~= Seq::<Substitution>::empty());
            while i < 7
                invariant
                    i <= 7,
                    defaults@ == default_parser_seq(),
                    spec is Modifiers,
                    substitutions@ == add_missing_defaults(*spec, base, defaults@.take(i as int)),
                decreases 7 - i,
            {
                assert(defaults@.take(i + 1).drop_last() =~= defaults@.take(i as int));
                assert(defaults@.take(i + 1).last() == defaults@[i as int]);
                let s = defaults[i];
                if !spec.is_disabled(&s) && !vec_contains(&substitutions, s) {
                    substitutions.push(s);
                }
                i = i + 1;
            }
            assert(defaults@.take(7) =~= defaults@);
        }
        Self::from_substitutions(substitutions.as_slice())
    }

    /// Whether the plan enables `substitution`.
    pub fn enabled(self, substitution: &Substitution) -> (r: bool)
        ensures
            r == self.spec_enabled(*substitution),
    {
        match substitution_stage_index(substitution) {
            Some(index) => self.ranks[index] != DISABLED_SUBSTITUTION,
            None => false,
        }
    }

    /// Whether the plan applies `first` before `second`.
    pub fn precedes(self, first: &Substitution, second: &Substitution) -> (r: bool)
        ensures
            r == self.spec_precedes(*first, *second),
    {
        match (substitution_stage_index(first), substitution_stage_index(second)) {
            (Some(i), Some(j)) => {
                let a = self.ranks[i];
                let b = self.ranks[j];
                a != DISABLED_SUBSTITUTION && b != DISABLED_SUBSTITUTION && a < b
            },
            _ => false,
        }
    }
}

/// The defaults in `items` that the spec does not disable, appended to `base`
/// when missing.
pub open spec fn add_missing_defaults(
    spec: SubstitutionSpec,
    base: Seq<Substitution>,
    items: Seq<Substitution>,
) -> Seq<Substitution>
    decreases items.len(),
{
    if items.len() == 0 {
        base
    } else {
        let p = add_missing_defaults(spec, base, items.drop_last());
        if !spec.spec_is_disabled(items.last()) && !p.contains(items.last()) {
            p.push(items.last())
        } else {
            p
        }
    }
}

/// The substitution list a block plan is built from.
pub open spec fn block_plan_subs(spec: SubstitutionSpec) -> Seq<Substitution> {
    match spec {
        SubstitutionSpec::Explicit(_) => spec.spec_resolve(normal_seq()),
        SubstitutionSpec::Modifiers(_) => add_missing_defaults(
            spec,
            spec.spec_resolve(normal_seq()),
            default_parser_seq(),
        ),
    }
}

} // verus!

verus! {

proof fn lemma_append_new_no_dups(r: Seq<Substitution>, items: Seq<Substitution>)
    requires
        no_dups(r),
    ensures
        no_dups(append_new(r, items)),
        forall|x: Substitution| r.contains(x) ==> #[trigger] append_new(r, items).contains(x),
    decreases items.len(),
{
    if items.len() > 0 {
        let r2 = if r.contains(items[0]) {
            r
        } else {
            r.push(items[0])
        };
        if !r.contains(items[0]) {
            assert forall|i: int, j: int| 0 <= i < j < r2.len() implies r2[i] != r2[j] by {
                if j == r.len() {
                    assert(r.contains(r[i]));
                }
            }
            assert forall|x: Substitution| r.contains(x) implies r2.contains(x) by {
                let k = choose|k: int| 0 <= k < r.len() && r[k] == x;
                assert(r2[k] == x);
            }
        }
        lemma_append_new_no_dups(r2, items.drop_first());
    }
}

proof fn lemma_prepend_new_no_dups(r: Seq<Substitution>, items: Seq<Substitution>)
    requires
        no_dups(r),
    ensures
        no_dups(prepend_new(r, items)),
    decreases items.len(),
{
    if items.len() > 0 {
        let x = items.last();
        let r2 = if r.contains(x) {
            r
        } else {
            seq![x] + r
        };
        if !r.contains(x) {
            assert forall|i: int, j: int| 0 <= i < j < r2.len() implies r2[i] != r2[j] by {
                if i == 0 {
                    assert(r2[j] == r[j - 1]);
                    assert(r.contains(r[j - 1]));
                } else {
                    assert(r2[i] == r[i - 1] && r2[j] == r[j - 1]);
                }
            }
        }
        lemma_prepend_new_no_dups(r2, items.drop_last());
    }
}

proof fn lemma_remove_all_sub(r: Seq<Substitution>, items: Seq<Substitution>)
    ensures
        forall|x: Substitution| #[trigger] remove_all(r, items).contains(x) ==> r.contains(x),
        no_dups(r) ==> no_dups(remove_all(r, items)),
    decreases r.len(),
{
    if r.len() > 0 {
        let d = r.drop_last();
        lemma_remove_all_sub(d, items);
        let p = remove_all(d, items);
        assert forall|x: Substitution| #[trigger] remove_all(r, items).contains(x) implies r.contains(x) by {
            if p.contains(x) {
                let k = choose|k: int| 0 <= k < d.len() && d[k] == x;
                assert(r[k] == x);
            } else {
                assert(x == r.last());
                assert(r[r.len() - 1] == x);
            }
        }
        if no_dups(r) {
            assert(no_dups(d)) by {
                assert forall|i: int, j: int| 0 <= i < j < d.len() implies d[i] != d[j] by {
                    assert(d[i] == r[i] && d[j] == r[j]);
                }
            }
            if !items.contains(r.last()) {
                let q = p.push(r.last());
                assert(!p.contains(r.last())) by {
                    if p.contains(r.last()) {
                        let k = choose|k: int| 0 <= k < d.len() && d[k] == r.last();
                        assert(r[k] == r[r.len() - 1]);
                    }
                }
                assert forall|i: int, j: int| 0 <= i < j < q.len() implies q[i] != q[j] by {
                    if j == p.len() {
                        assert(p.contains(p[i]));
                    }
                }
            }
        }
    }
}

/// Law: expanding groups keeps each substitution once, at its first
/// occurrence: the resolved list never holds a substitution twice.
pub proof fn law_resolved_groups_have_no_duplicates(subs: Seq<Substitution>, ctx: GroupContext)
    ensures
        no_dups(resolve_groups(subs, ctx)),
    decreases subs.len(),
{
    if subs.len() > 0 {
        law_resolved_groups_have_no_duplicates(subs.drop_last(), ctx);
        lemma_append_new_no_dups(resolve_groups(subs.drop_last(), ctx), members(subs.last(), ctx));
    }
}

/// Law: modifier operations never introduce a duplicate: applied to a
/// duplicate-free baseline, append, prepend and remove keep it so.
pub proof fn law_modifiers_keep_lists_duplicate_free(
    ops: Seq<SubstitutionOp>,
    default: Seq<Substitution>,
)
    requires
        no_dups(default),
    ensures
        no_dups(apply_ops(ops, default)),
    decreases ops.len(),
{
    if ops.len() > 0 {
        law_modifiers_keep_lists_duplicate_free(ops.drop_last(), default);
        let r = apply_ops(ops.drop_last(), default);
        match ops.last() {
            SubstitutionOp::Append(s) => lemma_append_new_no_dups(r, members(s, GroupContext::Block)),
            SubstitutionOp::Prepend(s) => lemma_prepend_new_no_dups(
                r,
                members(s, GroupContext::Block),
            ),
            SubstitutionOp::Remove(s) => lemma_remove_all_sub(r, members(s, GroupContext::Block)),
        }
    }
}

proof fn lemma_append_new_effect(r: Seq<Substitution>, items: Seq<Substitution>)
    ensures
        r.is_prefix_of(append_new(r, items)),
        forall|k: int| 0 <= k < items.len() ==> append_new(r, items).contains(#[trigger] items[k]),
        forall|i: int|
            r.len() <= i < append_new(r, items).len() ==> items.contains(
                #[trigger] append_new(r, items)[i],
            ),
    decreases items.len(),
{
    if items.len() > 0 {
        let r2 = if r.contains(items[0]) {
            r
        } else {
            r.push(items[0])
        };
        let rest = items.drop_first();
        lemma_append_new_effect(r2, rest);
        let out = append_new(r2, rest);
        assert(out == append_new(r, items));
        assert(r.is_prefix_of(r2));
        assert(r.is_prefix_of(out)) by {
            assert forall|i: int| 0 <= i < r.len() implies out[i] == r[i] by {
                assert(r2[i] == r[i]);
            }
        }
        assert forall|k: int| 0 <= k < items.len() implies out.contains(#[trigger] items[k]) by {
            if k == 0 {
                if !r.contains(items[0]) {
                    assert(r2[r.len() as int] == items[0]);
                }
                assert(r2.contains(items[0]));
                let i = choose|i: int| 0 <= i < r2.len() && r2[i] == items[0];
                assert(out[i] == items[0]);
            } else {
                assert(items[k] == rest[k - 1]);
            }
        }
        assert forall|i: int| r.len() <= i < out.len() implies items.contains(#[trigger] out[i]) by {
            if i < r2.len() {
                assert(r.is_prefix_of(r2));
                assert(out[i] == r2[i]);
                assert(r2[i] == items[0]);
                assert(items[0] == items[0]);
            } else {
                let j = choose|j: int| 0 <= j < rest.len() && rest[j] == out[i];
                assert(items[j + 1] == rest[j]);
            }
        }
    }
}

proof fn lemma_prepend_new_effect(r: Seq<Substitution>, items: Seq<Substitution>)
    ensures
        prepend_new(r, items).len() >= r.len(),
        prepend_new(r, items).skip(prepend_new(r, items).len() - r.len()) == r,
        forall|k: int| 0 <= k < items.len() ==> prepend_new(r, items).contains(#[trigger] items[k]),
        forall|i: int|
            0 <= i < prepend_new(r, items).len() - r.len() ==> items.contains(
                #[trigger] prepend_new(r, items)[i],
            ),
    decreases items.len(),
{
    if items.len() > 0 {
        let x = items.last();
        let r2 = if r.contains(x) {
            r
        } else {
            seq![x] + r
        };
        let init = items.drop_last();
        lemma_prepend_new_effect(r2, init);
        let out = prepend_new(r2, init);
        assert(out == prepend_new(r, items));
        assert(r2.skip(r2.len() - r.len()) =~= r);
        assert(out.skip(out.len() - r.len()) =~= r) by {
            let t = out.skip(out.len() - r2.len());
            assert(t == r2);
            assert forall|i: int| 0 <= i < r.len() implies out.skip(out.len() - r.len())[i] == r[i] by {
                assert(out.skip(out.len() - r.len())[i] == out[out.len() - r.len() + i]);
                assert(t[r2.len() - r.len() + i] == out[out.len() - r.len() + i]);
                assert(r2.skip(r2.len() - r.len())[i] == r2[r2.len() - r.len() + i]);
            }
        }
        assert forall|k: int| 0 <= k < items.len() implies out.contains(#[trigger] items[k]) by {
            if k == items.len() - 1 {
                if !r.contains(x) {
                    assert(r2[0] == x);
                }
                assert(r2.contains(x));
                let i = choose|i: int| 0 <= i < r2.len() && r2[i] == x;
                let t = out.skip(out.len() - r2.len());
                assert(t[i] == x);
                assert(out[out.len() - r2.len() + i] == x);
            } else {
                assert(items[k] == init[k]);
            }
        }
        assert forall|i: int| 0 <= i < out.len() - r.len() implies items.contains(#[trigger] out[i]) by {
            if i < out.len() - r2.len() {
                let j = choose|j: int| 0 <= j < init.len() && init[j] == out[i];
                assert(items[j] == init[j]);
            } else {
                let t = out.skip(out.len() - r2.len());
                assert(t[i - (out.len() - r2.len())] == out[i]);
                assert(r2.len() > r.len());
                assert(r2[0] == x);
                assert(i - (out.len() - r2.len()) == 0);
                assert(items[items.len() - 1] == x);
            }
        }
    }
}

proof fn lemma_remove_all_filter(r: Seq<Substitution>, items: Seq<Substitution>)
    ensures
        remove_all(r, items) == r.filter(|x: Substitution| !items.contains(x)),
    decreases r.len(),
{
    reveal(Seq::filter);
    if r.len() > 0 {
        lemma_remove_all_filter(r.drop_last(), items);
    }
}

/// The group an operation names.
pub open spec fn op_members(op: SubstitutionOp) -> Seq<Substitution> {
    match op {
        SubstitutionOp::Append(s) => members(s, GroupContext::Block),
        SubstitutionOp::Prepend(s) => members(s, GroupContext::Block),
        SubstitutionOp::Remove(s) => members(s, GroupContext::Block),
    }
}

/// Whether no operation's group holds `x`.
pub open spec fn untouched(ops: Seq<SubstitutionOp>, x: Substitution) -> bool {
    forall|k: int| 0 <= k < ops.len() ==> !(#[trigger] op_members(ops[k])).contains(x)
}

proof fn lemma_filter_narrower(
    s: Seq<Substitution>,
    p: spec_fn(Substitution) -> bool,
    q: spec_fn(Substitution) -> bool,
)
    requires
        forall|x: Substitution| #[trigger] q(x) ==> p(x),
    ensures
        s.filter(p).filter(q) == s.filter(q),
    decreases s.len(),
{
    reveal(Seq::filter);
    if s.len() > 0 {
        lemma_filter_narrower(s.drop_last(), p, q);
        if p(s.last()) {
            assert(s.filter(p).drop_last() =~= s.drop_last().filter(p));
        }
    }
}

proof fn lemma_filter_none(s: Seq<Substitution>, q: spec_fn(Substitution) -> bool)
    requires
        forall|i: int| 0 <= i < s.len() ==> !q(#[trigger] s[i]),
    ensures
        s.filter(q) == Seq::<Substitution>::empty(),
    decreases s.len(),
{
    reveal(Seq::filter);
    if s.len() > 0 {
        lemma_filter_none(s.drop_last(), q);
        assert(!q(s[s.len() - 1]));
    }
}

proof fn lemma_op_keeps_others(r: Seq<Substitution>, op: SubstitutionOp, q: spec_fn(Substitution) -> bool)
    requires
        forall|x: Substitution| #[trigger] q(x) ==> !op_members(op).contains(x),
    ensures
        apply_op(r, op).filter(q) == r.filter(q),
{
    let items = op_members(op);
    let out = apply_op(r, op);
    law_modifier_effects(r, op);
    match op {
        SubstitutionOp::Append(s) => {
            lemma_append_new_effect(r, items);
            let extra = out.skip(r.len() as int);
            assert(out =~= r + extra);
            assert forall|i: int| 0 <= i < extra.len() implies !q(#[trigger] extra[i]) by {
                assert(extra[i] == out[r.len() + i]);
                assert(items.contains(out[r.len() + i]));
            }
            lemma_filter_none(extra, q);
            Seq::filter_distributes_over_add(r, extra, q);
            assert(r.filter(q) + Seq::<Substitution>::empty() =~= r.filter(q));
        },
        SubstitutionOp::Prepend(s) => {
            lemma_prepend_new_effect(r, items);
            let extra = out.take(out.len() - r.len());
            assert(out =~= extra + r);
            assert forall|i: int| 0 <= i < extra.len() implies !q(#[trigger] extra[i]) by {
                assert(extra[i] == out[i]);
                assert(items.contains(out[i]));
            }
            lemma_filter_none(extra, q);
            Seq::filter_distributes_over_add(extra, r, q);
            assert(Seq::<Substitution>::empty() + r.filter(q) =~= r.filter(q));
        },
        SubstitutionOp::Remove(s) => {
            lemma_filter_narrower(r, |x: Substitution| !items.contains(x), q);
        },
    }
}

/// Across any sequence of modifiers, the defaults that no operation's group
/// holds keep their relative order: filtered to those entries, the result is
/// the default list filtered the same way.
pub proof fn law_modifiers_keep_untouched_order(ops: Seq<SubstitutionOp>, default: Seq<Substitution>)
    ensures
        apply_ops(ops, default).filter(|x: Substitution| untouched(ops, x)) == default.filter(
            |x: Substitution| untouched(ops, x),
        ),
    decreases ops.len(),
{
    let q = |x: Substitution| untouched(ops, x);
    if ops.len() > 0 {
        let init = ops.drop_last();
        let p = |x: Substitution| untouched(init, x);
        law_modifiers_keep_untouched_order(init, default);
        let r = apply_ops(init, default);
        assert forall|x: Substitution| #[trigger] q(x) implies p(x) by {
            assert forall|k: int| 0 <= k < init.len() implies !(#[trigger] op_members(init[k])).contains(x) by {
                assert(init[k] == ops[k]);
            }
        }
        assert forall|x: Substitution| #[trigger] q(x) implies !op_members(ops.last()).contains(x) by {
            assert(ops.last() == ops[ops.len() - 1]);
        }
        lemma_op_keeps_others(r, ops.last(), q);
        lemma_filter_narrower(r, p, q);
        lemma_filter_narrower(default, p, q);
    } else {
        assert(apply_ops(ops, default) == default);
    }
}

/// Each modifier keeps what it does not name where it was: appending keeps
/// the list as the start of the result and prepending as its end, and each
/// leaves every member of its group in the list; removing drops exactly the
/// members of its group and keeps the rest in order. So the defaults that no
/// operation names keep their relative order, and right after each
/// operation the members it removes are absent and those it adds present.
pub proof fn law_modifier_effects(r: Seq<Substitution>, op: SubstitutionOp)
    ensures
        match op {
            SubstitutionOp::Append(s) => {
                &&& r.is_prefix_of(apply_op(r, op))
                &&& forall|k: int|
                    0 <= k < members(s, GroupContext::Block).len() ==> apply_op(r, op).contains(
                        #[trigger] members(s, GroupContext::Block)[k],
                    )
            },
            SubstitutionOp::Prepend(s) => {
                &&& apply_op(r, op).len() >= r.len()
                &&& apply_op(r, op).skip(apply_op(r, op).len() - r.len()) == r
                &&& forall|k: int|
                    0 <= k < members(s, GroupContext::Block).len() ==> apply_op(r, op).contains(
                        #[trigger] members(s, GroupContext::Block)[k],
                    )
            },
            SubstitutionOp::Remove(s) => {
                &&& apply_op(r, op) == r.filter(
                    |x: Substitution| !members(s, GroupContext::Block).contains(x),
                )
                &&& forall|k: int|
                    0 <= k < members(s, GroupContext::Block).len() ==> !apply_op(r, op).contains(
                        #[trigger] members(s, GroupContext::Block)[k],
                    )
            },
        },
{
    match op {
        SubstitutionOp::Append(s) => lemma_append_new_effect(r, members(s, GroupContext::Block)),
        SubstitutionOp::Prepend(s) => lemma_prepend_new_effect(r, members(s, GroupContext::Block)),
        SubstitutionOp::Remove(s) => {
            let items = members(s, GroupContext::Block);
            let keep = |x: Substitution| !items.contains(x);
            lemma_remove_all_filter(r, items);
            let f = r.filter(keep);
            assert forall|k: int| 0 <= k < items.len() implies !f.contains(#[trigger] items[k]) by {
                if f.contains(items[k]) {
                    let i = choose|i: int| 0 <= i < f.len() && f[i] == items[k];
                    r.filter_lemma(keep);
                    assert(keep(f[i]));
                }
            }
        },
    }
}

proof fn lemma_explicit_no_dups(parts: Seq<(Seq<char>, Option<SubsModifier>)>)
    ensures
        no_dups(explicit_from(parts)),
    decreases parts.len(),
{
    if parts.len() > 0 {
        lemma_explicit_no_dups(parts.drop_last());
        match parse_substitution_spec(parts.last().0) {
            Some(s) => lemma_append_new_no_dups(
                explicit_from(parts.drop_last()),
                members(s, GroupContext::Block),
            ),
            None => {},
        }
    }
}

/// Law: an explicit `subs` list names each substitution once, however often
/// the value repeats it.
pub proof fn law_explicit_subs_have_no_duplicates(value: Seq<char>)
    ensures
        parse_subs_spec(value) matches SpecSubstitutionSpec::Explicit(l) ==> no_dups(l),
{
    let v = trim(value);
    if !(v.len() == 0 || v == "none"@) {
        lemma_explicit_no_dups(subs_parts(v));
    }
}

proof fn lemma_close_index_is_brace(t: Seq<char>, k: int)
    requires
        0 <= k,
        close_index(t, k) < t.len(),
    ensures
        t[close_index(t, k)] == '}',
        forall|m: int| k <= m < close_index(t, k) ==> t[m] != '}',
    decreases t.len() - k,
{
    if k < t.len() && t[k] != '}' {
        lemma_close_index_is_brace(t, k + 1);
    }
}

proof fn lemma_expand_without_attributes(t: Seq<char>, i: int)
    requires
        0 <= i <= t.len(),
    ensures
        expand_from(t, i, Map::empty()) == t.skip(i),
    decreases t.len() - i,
{
    if i < t.len() {
        if t[i] == '{' {
            let j = close_index(t, i + 1);
            lemma_close_index_bounds(t, i + 1);
            if j < t.len() {
                lemma_close_index_is_brace(t, i + 1);
                lemma_expand_without_attributes(t, j + 1);
                assert(seq!['{'] + t.subrange(i + 1, j) + seq!['}'] + t.skip(j + 1) =~= t.skip(i));
            }
        } else {
            lemma_expand_without_attributes(t, i + 1);
            assert(seq![t[i]] + t.skip(i + 1) =~= t.skip(i));
        }
    } else {
        assert(t.skip(i) =~= Seq::<char>::empty());
    }
}

proof fn lemma_atomics_without_attributes(t: Seq<char>, subs: Seq<Substitution>)
    ensures
        apply_atomics(t, subs, Map::empty()) == t,
    decreases subs.len(),
{
    if subs.len() > 0 {
        lemma_atomics_without_attributes(t, subs.drop_last());
        lemma_expand_without_attributes(t, 0);
        assert(t.skip(0) =~= t);
    }
}

/// Law: with no attributes defined, every reference is kept as written, so
/// substitutions leave the text unchanged.
pub proof fn law_no_attributes_leave_text_unchanged(t: Seq<char>, subs: Seq<Substitution>)
    ensures
        expand_attributes(t, Map::empty()) == t,
        substitute_spec(t, subs, Map::empty()) == t,
    decreases subs.len(),
{
    lemma_expand_without_attributes(t, 0);
    assert(t.skip(0) =~= t);
    if subs.len() > 0 {
        law_no_attributes_leave_text_unchanged(t, subs.drop_last());
        lemma_atomics_without_attributes(t, normal_seq());
        lemma_atomics_without_attributes(t, verbatim_seq());
    }
}

/// Law: a plan enables exactly the substitutions its list names (groups name
/// no stage). A list longer than 255 entries can rank a stage at 255, the
/// rank of a disabled stage, so the law is stated for shorter lists.
pub proof fn law_plan_enables_listed_substitutions(subs: Seq<Substitution>, s: Substitution)
    requires
        stage_of(s) is Some,
        subs.len() <= 255,
    ensures
        (plan_ranks(subs)[stage_of(s)->0] != DISABLED_SUBSTITUTION) <==> subs.contains(s),
    decreases subs.len(),
{
    lemma_plan_ranks_len(subs);
    if subs.len() > 0 {
        let d = subs.drop_last();
        law_plan_enables_listed_substitutions(d, s);
        lemma_plan_ranks_len(d);
        if subs.contains(s) && !d.contains(s) {
            let k = choose|k: int| 0 <= k < subs.len() && subs[k] == s;
            if k < subs.len() - 1 {
                assert(d[k] == s);
            }
        }
        if d.contains(s) {
            let k = choose|k: int| 0 <= k < d.len() && d[k] == s;
            assert(subs[k] == s);
        }
        assert(subs.last() == subs[subs.len() - 1]);
        let x = subs.last();
        assert(stage_of(x) == stage_of(s) ==> x == s) by {
            match x {
                Substitution::SpecialChars => {},
                Substitution::Attributes => {},
                Substitution::Replacements => {},
                Substitution::Macros => {},
                Substitution::PostReplacements => {},
                Substitution::Quotes => {},
                Substitution::Callouts => {},
                _ => {},
            }
            match s {
                Substitution::SpecialChars => {},
                Substitution::Attributes => {},
                Substitution::Replacements => {},
                Substitution::Macros => {},
                Substitution::PostReplacements => {},
                Substitution::Quotes => {},
                Substitution::Callouts => {},
                _ => {},
            }
        }
    }
}

} // verus!
