//! The text of inline content: its plain-text rendering, and the section ids
//! built from titles.
//!
//! [`TextNode`] holds what these two readings take from inline content:
//! text, formatting that only wraps other content, line breaks, anchors,
//! callout references and macros with their targets and link text.
use vstd::prelude::*;

use crate::numbers::{decimal, usize_decimal};
use crate::charclass::{unicode_alphanumeric, unicode_lowercase};
use crate::metadata::BlockMetadata;
use crate::section::{
    append_id_text, id_char_class, id_chars, law_id_text_shape,
    law_other_title_characters_leave_ids_unchanged, lower_each, trim_trailing_underscores, SafeId,
};
use crate::text::{chars_of, is_ws, owned, push_char, push_str};

verus! {

/// Inline content, as far as its text goes.
#[derive(Debug, PartialEq, Eq)]
pub enum TextNode {
    /// Plain, raw or verbatim text.
    Text(String),
    /// Bold, italic, monospace, highlighted, subscript, superscript or
    /// curved-quoted content.
    Formatted(Vec<TextNode>),
    /// A standalone curved apostrophe.
    StandaloneCurvedApostrophe,
    /// A hard line break.
    LineBreak,
    /// An inline anchor: no text.
    Anchor,
    /// A callout reference, by number.
    CalloutRef(usize),
    /// An inline macro.
    Macro(TextMacro),
}

/// An inline macro, as far as its text goes.
#[derive(Debug, PartialEq, Eq)]
pub enum TextMacro {
    Link { target: String, text: Vec<TextNode> },
    Url { target: String, text: Vec<TextNode> },
    Mailto { target: String, text: Vec<TextNode> },
    Autolink { url: String },
    CrossReference { target: String, text: Vec<TextNode> },
    IndexTerm { visible: bool, term: Vec<TextNode> },
    Pass { text: Option<String> },
    Keyboard { keys: Vec<String> },
    Button { label: String },
    Menu { items: Vec<String> },
    /// An image, footnote, stem or icon: no text.
    Other,
}

/// The pieces joined with `sep` between them.
pub open spec fn join_seq(items: Seq<Seq<char>>, sep: Seq<char>) -> Seq<char>
    decreases items.len(),
{
    if items.len() == 0 {
        Seq::empty()
    } else if items.len() == 1 {
        items[0]
    } else {
        join_seq(items.drop_last(), sep) + sep + items.last()
    }
}

/// The strings viewed.
pub open spec fn strs(v: Seq<String>) -> Seq<Seq<char>> {
    v.map_values(|s: String| s@)
}

/// The text of a node. The plain-text reading (`for_id` false) and the id
/// reading differ only in macros: ids also take passthrough text, keyboard
/// keys joined with `+`, button labels and menu items joined with ` > `.
pub open spec fn node_text(n: TextNode, for_id: bool) -> Seq<char>
    decreases n, 1nat,
{
    match n {
        TextNode::Text(t) => t@,
        TextNode::Formatted(v) => nodes_text(v@, for_id),
        TextNode::StandaloneCurvedApostrophe => seq!['\''],
        TextNode::LineBreak => seq![' '],
        TextNode::Anchor => Seq::empty(),
        TextNode::CalloutRef(k) => seq!['<'] + decimal(k as nat) + seq!['>'],
        TextNode::Macro(m) => macro_text(m, for_id),
    }
}

/// The text of a sequence of nodes, in order.
pub open spec fn nodes_text(s: Seq<TextNode>, for_id: bool) -> Seq<char>
    decreases s, 0nat,
{
    if s.len() == 0 {
        Seq::empty()
    } else {
        nodes_text(s.drop_last(), for_id) + node_text(s[s.len() - 1], for_id)
    }
}

/// The text of a macro: the link text, or the target when there is none;
/// an autolink's URL; a visible index term.
pub open spec fn macro_text(m: TextMacro, for_id: bool) -> Seq<char>
    decreases m, 2nat,
{
    match m {
        TextMacro::Link { target, text } => linked_text(target@, text@, for_id),
        TextMacro::Url { target, text } => linked_text(target@, text@, for_id),
        TextMacro::Mailto { target, text } => linked_text(target@, text@, for_id),
        TextMacro::CrossReference { target, text } => linked_text(target@, text@, for_id),
        TextMacro::Autolink { url } => url@,
        TextMacro::IndexTerm { visible, term } => if visible {
            nodes_text(term@, for_id)
        } else {
            Seq::empty()
        },
        TextMacro::Pass { text } => if for_id {
            match text {
                Some(t) => t@,
                None => Seq::empty(),
            }
        } else {
            Seq::empty()
        },
        TextMacro::Keyboard { keys } => if for_id {
            join_seq(strs(keys@), "+"@)
        } else {
            Seq::empty()
        },
        TextMacro::Button { label } => if for_id {
            label@
        } else {
            Seq::empty()
        },
        TextMacro::Menu { items } => if for_id {
            join_seq(strs(items@), " > "@)
        } else {
            Seq::empty()
        },
        TextMacro::Other => Seq::empty(),
    }
}

/// The text of a link-like macro: its target when its text is empty.
pub open spec fn linked_text(target: Seq<char>, text: Seq<TextNode>, for_id: bool) -> Seq<char>
    decreases text, 1nat,
{
    if text.len() == 0 {
        target
    } else {
        nodes_text(text, for_id)
    }
}

} // verus!

verus! {

/// The strings of `items` joined with `sep` (`[String]::join`).
pub(crate) fn join_strings(items: &Vec<String>, sep: &str) -> (r: String)
    ensures
        r@ == join_seq(strs(items@), sep@),
{
    let ghost v = strs(items@);
    let mut r = String::new();
    let mut i: usize = 0;
    assert(v.take(0) =~= Seq::<Seq<char>>::empty());
    while i < items.len()
        invariant
            i <= items@.len(),
            v == strs(items@),
            v.len() == items@.len(),
            r@ == join_seq(v.take(i as int), sep@),
        decreases items.len() - i,
    {
        assert(v.take(i + 1).drop_last() =~= v.take(i as int));
        assert(v.take(i + 1).last() == items@[i as int]@);
        if i == 0 {
            assert(v.take(1) =~= seq![items@[0]@]);
            assert(r@ =~= Seq::<char>::empty());
            push_str(&mut r, items[i].as_str());
            assert(r@ =~= items@[0]@);
        } else {
            let ghost before = r@;
            push_str(&mut r, sep);
            push_str(&mut r, items[i].as_str());
            assert(r@ =~= before + sep@ + items@[i as int]@);
        }
        i = i + 1;
    }
    assert(v.take(i as int) =~= v);
    r
}

/// `<`, the number, `>`.
fn callout_text(k: usize) -> (r: String)
    ensures
        r@ == seq!['<'] + decimal(k as nat) + seq!['>'],
{
    let mut r = String::new();
    push_char(&mut r, '<');
    let digits = usize_decimal(k);
    push_str(&mut r, digits.as_str());
    push_char(&mut r, '>');
    assert(r@ =~= seq!['<'] + decimal(k as nat) + seq!['>']);
    r
}

// ----------------------------------------------------------------------------
// Plain text.
// ----------------------------------------------------------------------------

/// Write the plain text of `inlines` to `w`, through formatting, taking
/// link text (or the target when there is none) and visible index terms.
pub fn write_inlines(w: &mut String, inlines: &[TextNode])
    ensures
        final(w)@ == old(w)@ + nodes_text(inlines@, false),
    decreases inlines@, 0nat,
{
    let ghost start = w@;
    let mut i: usize = 0;
    assert(inlines@.take(0) =~= Seq::<TextNode>::empty());
    while i < inlines.len()
        invariant
            i <= inlines@.len(),
            start == old(w)@,
            w@ == start + nodes_text(inlines@.take(i as int), false),
        decreases inlines.len() - i,
    {
        assert(inlines@.take(i + 1).drop_last() =~= inlines@.take(i as int));
        assert(inlines@.take(i + 1)[i as int] == inlines@[i as int]);
        let ghost before = w@;
        write_inline_node(w, &inlines[i]);
        assert(w@ =~= start + nodes_text(inlines@.take(i + 1), false));
        i = i + 1;
    }
    assert(inlines@.take(i as int) =~= inlines@);
}

/// Write the plain text of one node (see [`node_text`]).
pub fn write_inline_node(w: &mut String, node: &TextNode)
    ensures
        final(w)@ == old(w)@ + node_text(*node, false),
    decreases *node, 1nat,
{
    match node {
        TextNode::Text(t) => push_str(w, t.as_str()),
        TextNode::Formatted(v) => write_inlines(w, v.as_slice()),
        TextNode::StandaloneCurvedApostrophe => {
            push_char(w, '\'');
            assert(w@ =~= old(w)@ + seq!['\'']);
        },
        TextNode::LineBreak => {
            push_char(w, ' ');
            assert(w@ =~= old(w)@ + seq![' ']);
        },
        TextNode::Anchor => {
            assert(w@ =~= old(w)@ + Seq::<char>::empty());
        },
        TextNode::CalloutRef(k) => {
            let t = callout_text(*k);
            push_str(w, t.as_str());
        },
        TextNode::Macro(m) => write_inline_macro(w, m),
    }
}

/// Write the plain text of one macro (see [`macro_text`]).
pub fn write_inline_macro(w: &mut String, m: &TextMacro)
    ensures
        final(w)@ == old(w)@ + macro_text(*m, false),
    decreases *m, 2nat,
{
    match m {
        TextMacro::Link { target, text } | TextMacro::Url { target, text } | TextMacro::Mailto {
            target,
            text,
        } | TextMacro::CrossReference { target, text } => {
            if text.len() == 0 {
                push_str(w, target.as_str());
            } else {
                write_inlines(w, text.as_slice());
            }
        },
        TextMacro::Autolink { url } => push_str(w, url.as_str()),
        TextMacro::IndexTerm { visible, term } => {
            if *visible {
                write_inlines(w, term.as_slice());
            } else {
                assert(w@ =~= old(w)@ + Seq::<char>::empty());
            }
        },
        _ => {
            assert(w@ =~= old(w)@ + Seq::<char>::empty());
        },
    }
}

/// The plain text of `inlines` (see [`write_inlines`]).
pub fn inlines_to_string(inlines: &[TextNode]) -> (r: String)
    ensures
        r@ == nodes_text(inlines@, false),
{
    let mut s = String::new();
    write_inlines(&mut s, inlines);
    assert(s@ =~= nodes_text(inlines@, false));
    s
}

// ----------------------------------------------------------------------------
// Section ids.
// ----------------------------------------------------------------------------

proof fn lemma_lower_each_concat(a: Seq<char>, b: Seq<char>)
    ensures
        lower_each(a + b) == lower_each(a) + lower_each(b),
    decreases b.len(),
{
    if b.len() == 0 {
        assert(a + b =~= a);
        assert(lower_each(a) + lower_each(b) =~= lower_each(a));
    } else {
        lemma_lower_each_concat(a, b.drop_last());
        assert((a + b).drop_last() =~= a + b.drop_last());
        assert((a + b).last() == b.last());
        assert(lower_each(a) + lower_each(b.drop_last()) + unicode_lowercase(b.last()) =~= lower_each(
            a,
        ) + (lower_each(b.drop_last()) + unicode_lowercase(b.last())));
    }
}

proof fn lemma_id_chars_concat(a: Seq<char>, b: Seq<char>, s: bool)
    ensures
        id_chars(a + b, s) == (
            id_chars(a, s).0 + id_chars(b, id_chars(a, s).1).0,
            id_chars(b, id_chars(a, s).1).1,
        ),
    decreases b.len(),
{
    let (p, sep) = id_chars(a, s);
    if b.len() == 0 {
        assert(a + b =~= a);
        assert(p + Seq::<char>::empty() =~= p);
    } else {
        lemma_id_chars_concat(a, b.drop_last(), s);
        assert((a + b).drop_last() =~= a + b.drop_last());
        assert((a + b).last() == b.last());
        let (q, sep2) = id_chars(b.drop_last(), sep);
        match id_char_class(b.last()) {
            Some(ch) => {
                if ch == '_' {
                    assert((p + q).push('_') =~= p + q.push('_'));
                } else {
                    assert((p + q).push(ch) =~= p + q.push(ch));
                }
            },
            None => {},
        }
    }
}

/// The id form of `t` continuing from `sep`, and whether it ends on a separator.
pub open spec fn id_of(t: Seq<char>, sep: bool) -> (Seq<char>, bool) {
    id_chars(lower_each(t), sep)
}

proof fn lemma_id_of_concat(a: Seq<char>, b: Seq<char>, s: bool)
    ensures
        id_of(a + b, s) == (id_of(a, s).0 + id_of(b, id_of(a, s).1).0, id_of(b, id_of(a, s).1).1),
{
    lemma_lower_each_concat(a, b);
    lemma_id_chars_concat(lower_each(a), lower_each(b), s);
}

/// Append the id form of the title text of `inlines` to `out`, continuing
/// from `last_was_underscore` (see [`node_text`] with `for_id`).
pub fn append_id_from_inlines(inlines: &[TextNode], out: &mut String, last_was_underscore: &mut bool)
    ensures
        final(out)@ == old(out)@ + id_of(nodes_text(inlines@, true), *old(last_was_underscore)).0,
        *final(last_was_underscore) == id_of(
            nodes_text(inlines@, true),
            *old(last_was_underscore),
        ).1,
    decreases inlines@, 0nat,
{
    let ghost out0 = out@;
    let ghost s0 = *last_was_underscore;
    let mut i: usize = 0;
    assert(inlines@.take(0) =~= Seq::<TextNode>::empty());
    assert(out@ =~= out0 + Seq::<char>::empty());
    while i < inlines.len()
        invariant
            i <= inlines@.len(),
            out0 == old(out)@,
            s0 == *old(last_was_underscore),
            out@ == out0 + id_of(nodes_text(inlines@.take(i as int), true), s0).0,
            *last_was_underscore == id_of(nodes_text(inlines@.take(i as int), true), s0).1,
        decreases inlines.len() - i,
    {
        let ghost a = nodes_text(inlines@.take(i as int), true);
        let ghost b = node_text(inlines@[i as int], true);
        assert(inlines@.take(i + 1).drop_last() =~= inlines@.take(i as int));
        assert(inlines@.take(i + 1)[i as int] == inlines@[i as int]);
        assert(nodes_text(inlines@.take(i + 1), true) == a + b);
        append_id_from_node(&inlines[i], out, last_was_underscore);
        proof {
            lemma_id_of_concat(a, b, s0);
        }
        assert(out@ =~= out0 + id_of(a + b, s0).0);
        i = i + 1;
    }
    assert(inlines@.take(i as int) =~= inlines@);
}

/// Append the id form of the title text of one node.
fn append_id_from_node(node: &TextNode, out: &mut String, last_was_underscore: &mut bool)
    ensures
        final(out)@ == old(out)@ + id_of(node_text(*node, true), *old(last_was_underscore)).0,
        *final(last_was_underscore) == id_of(node_text(*node, true), *old(last_was_underscore)).1,
    decreases *node, 1nat,
{
    match node {
        TextNode::Text(t) => {
            assert(node_text(*node, true) == t@);
            append_id_text(t.as_str(), out, last_was_underscore);
        },
        TextNode::Formatted(v) => append_id_from_inlines(v.as_slice(), out, last_was_underscore),
        TextNode::StandaloneCurvedApostrophe => {
            proof {
                reveal_strlit("'");
                assert("'"@ =~= seq!['\'']);
            }
            append_id_text("'", out, last_was_underscore);
        },
        TextNode::LineBreak => {
            proof {
                reveal_strlit(" ");
                assert(" "@ =~= seq![' ']);
            }
            append_id_text(" ", out, last_was_underscore);
        },
        TextNode::Anchor => {
            assert(lower_each(Seq::<char>::empty()) =~= Seq::<char>::empty());
            assert(id_of(node_text(*node, true), *last_was_underscore).0 =~= Seq::<char>::empty());
            assert(out@ =~= old(out)@ + Seq::<char>::empty());
        },
        TextNode::CalloutRef(k) => {
            let t = callout_text(*k);
            append_id_text(t.as_str(), out, last_was_underscore);
        },
        TextNode::Macro(m) => append_id_from_macro(m, out, last_was_underscore),
    }
}

/// Append the id form of the title text of one macro.
pub fn append_id_from_macro(m: &TextMacro, out: &mut String, last_was_underscore: &mut bool)
    ensures
        final(out)@ == old(out)@ + id_of(macro_text(*m, true), *old(last_was_underscore)).0,
        *final(last_was_underscore) == id_of(macro_text(*m, true), *old(last_was_underscore)).1,
    decreases *m, 2nat,
{
    proof {
        assert(lower_each(Seq::<char>::empty()) =~= Seq::<char>::empty());
        assert(old(out)@ + Seq::<char>::empty() =~= old(out)@);
    }
    match m {
        TextMacro::Link { target, text } | TextMacro::Url { target, text } | TextMacro::Mailto {
            target,
            text,
        } | TextMacro::CrossReference { target, text } => {
            if text.len() == 0 {
                append_id_text(target.as_str(), out, last_was_underscore);
            } else {
                append_id_from_inlines(text.as_slice(), out, last_was_underscore);
            }
        },
        TextMacro::Autolink { url } => append_id_text(url.as_str(), out, last_was_underscore),
        TextMacro::IndexTerm { visible, term } => {
            if *visible {
                append_id_from_inlines(term.as_slice(), out, last_was_underscore);
            }
        },
        TextMacro::Pass { text } => match text {
            Some(t) => append_id_text(t.as_str(), out, last_was_underscore),
            None => {},
        },
        TextMacro::Keyboard { keys } => {
            proof {
                reveal_strlit("+");
            }
            let joined = join_strings(keys, "+");
            append_id_text(joined.as_str(), out, last_was_underscore);
        },
        TextMacro::Button { label } => append_id_text(label.as_str(), out, last_was_underscore),
        TextMacro::Menu { items } => {
            proof {
                reveal_strlit(" > ");
            }
            let joined = join_strings(items, " > ");
            append_id_text(joined.as_str(), out, last_was_underscore);
        },
        TextMacro::Other => {},
    }
}

/// The id slug of a title: the id form of its title text (see
/// [`append_id_from_inlines`]), with no leading or trailing `_`.
pub fn id_from_title(title: &[TextNode]) -> (r: String)
    ensures
        r@ == trim_trailing_underscores(id_of(nodes_text(title@, true), true).0),
{
    let mut out = String::new();
    let mut last = true;
    append_id_from_inlines(title, &mut out, &mut last);
    let v = chars_of(out.as_str());
    let mut n: usize = v.len();
    assert(v@.take(n as int) =~= v@);
    while n > 0 && v[n - 1] == '_'
        invariant
            n <= v@.len(),
            trim_trailing_underscores(v@) == trim_trailing_underscores(v@.take(n as int)),
        decreases n,
    {
        assert(v@.take(n as int).drop_last() =~= v@.take(n - 1));
        n = n - 1;
    }
    proof {
        if n > 0 {
            assert(v@.take(n as int).last() == v@[n - 1]);
        }
    }
    let mut r = String::new();
    push_str(&mut r, crate::text::char_slice(out.as_str(), 0, n));
    r
}

} // verus!

verus! {

/// The id a block's metadata gives explicitly: its `id`, else the id of its
/// last anchor.
pub open spec fn explicit_id_of(m: BlockMetadata) -> Option<Seq<char>> {
    match m.id {
        Some(a) => Some(a.id@),
        None => if m.anchors@.len() > 0 {
            Some(m.anchors@.last().id@)
        } else {
            None
        },
    }
}

/// The slug generated from a title (see [`id_from_title`]).
pub open spec fn title_slug(title: Seq<TextNode>) -> Seq<char> {
    trim_trailing_underscores(id_of(nodes_text(title, true), true).0)
}

proof fn lemma_trim_is_prefix(s: Seq<char>) -> (k: int)
    ensures
        0 <= k <= s.len(),
        trim_trailing_underscores(s) == s.take(k),
        k > 0 ==> s[k - 1] != '_',
    decreases s.len(),
{
    if s.len() > 0 && s.last() == '_' {
        let k = lemma_trim_is_prefix(s.drop_last());
        assert(s.drop_last().take(k) =~= s.take(k));
        k
    } else {
        assert(s.take(s.len() as int) =~= s);
        s.len() as int
    }
}

/// A title slug is made of letters, digits and single `_` separators: it
/// neither begins nor ends with `_`, and no two `_` stand together.
pub proof fn law_title_slug_shape(title: Seq<TextNode>)
    ensures
        forall|i: int|
            0 <= i < title_slug(title).len() ==> unicode_alphanumeric(#[trigger] title_slug(title)[i])
                || title_slug(title)[i] == '_',
        forall|i: int|
            0 <= i < title_slug(title).len() - 1 ==> !(#[trigger] title_slug(title)[i] == '_'
                && title_slug(title)[i + 1] == '_'),
        title_slug(title).len() > 0 ==> title_slug(title)[0] != '_' && title_slug(title).last()
            != '_',
{
    let cs = lower_each(nodes_text(title, true));
    let full = id_chars(cs, true).0;
    law_id_text_shape(cs, true);
    let k = lemma_trim_is_prefix(full);
    let slug = title_slug(title);
    assert(slug == full.take(k));
    assert forall|i: int| 0 <= i < slug.len() implies unicode_alphanumeric(#[trigger] slug[i])
        || slug[i] == '_' by {
        assert(slug[i] == full[i]);
    }
    assert forall|i: int| 0 <= i < slug.len() - 1 implies !(#[trigger] slug[i] == '_' && slug[i
        + 1] == '_') by {
        assert(slug[i] == full[i] && slug[i + 1] == full[i + 1]);
    }
    if slug.len() > 0 {
        assert(slug[0] == full[0]);
        assert(slug.last() == full[k - 1]);
    }
}

/// A title slug ignores characters other than letters, digits, whitespace,
/// `-`, `.` and `_` (whose lowercase is themselves): a title of one text
/// gives the same slug with such a character as without it, so "Don't
/// Panic" and "Dont Panic" both give `dont_panic`.
pub proof fn law_title_slug_ignores_other_characters(
    with: String,
    without: String,
    a: Seq<char>,
    c: char,
    b: Seq<char>,
)
    requires
        with@ == a + seq![c] + b,
        without@ == a + b,
        unicode_lowercase(c) == seq![c],
        !unicode_alphanumeric(c),
        !is_ws(c),
        c != '-',
        c != '.',
        c != '_',
    ensures
        title_slug(seq![TextNode::Text(with)]) == title_slug(seq![TextNode::Text(without)]),
{
    let t1 = seq![TextNode::Text(with)];
    let t2 = seq![TextNode::Text(without)];
    assert(t1.drop_last() =~= Seq::<TextNode>::empty());
    assert(t2.drop_last() =~= Seq::<TextNode>::empty());
    assert(nodes_text(Seq::<TextNode>::empty(), true) == Seq::<char>::empty());
    assert(t1[0] == TextNode::Text(with));
    assert(t2[0] == TextNode::Text(without));
    assert(node_text(TextNode::Text(with), true) == with@);
    assert(node_text(TextNode::Text(without), true) == without@);
    assert(nodes_text(t1, true) == nodes_text(t1.drop_last(), true) + node_text(t1[0], true));
    assert(nodes_text(t2, true) == nodes_text(t2.drop_last(), true) + node_text(t2[0], true));
    assert(nodes_text(t1, true) =~= with@);
    assert(nodes_text(t2, true) =~= without@);
    law_other_title_characters_leave_ids_unchanged(a, c, b, true);
}

/// The id the metadata gives explicitly (see [`explicit_id_of`]).
pub fn explicit_id(metadata: &BlockMetadata) -> (r: Option<&str>)
    ensures
        match r {
            Some(s) => explicit_id_of(*metadata) == Some(s@),
            None => explicit_id_of(*metadata) is None,
        },
{
    match &metadata.id {
        Some(anchor) => Some(anchor.id.as_str()),
        None => {
            let n = metadata.anchors.len();
            if n > 0 {
                Some(metadata.anchors[n - 1].id.as_str())
            } else {
                None
            }
        },
    }
}

/// A section id: the explicit one, else one generated from the title.
pub fn generate_id(metadata: &BlockMetadata, title: &[TextNode]) -> (r: SafeId)
    ensures
        match explicit_id_of(*metadata) {
            Some(id) => r matches SafeId::Explicit(s) && s@ == id,
            None => r matches SafeId::Generated(s) && s@ == title_slug(title@),
        },
{
    match explicit_id(metadata) {
        Some(id) => SafeId::Explicit(id.to_owned()),
        None => SafeId::Generated(id_from_title(title)),
    }
}

/// The id of a section: its explicit id, else the id it was given, else the
/// display form generated from its title (see [`generate_id_string`]).
pub fn section_id(metadata: &BlockMetadata, id: Option<&str>, title: &[TextNode]) -> (r: String)
    ensures
        r@ == match explicit_id_of(*metadata) {
            Some(e) => e,
            None => match id {
                Some(i) => i@,
                None => {
                    let slug = title_slug(title@);
                    if slug.len() == 0 {
                        slug
                    } else {
                        seq!['_'] + slug
                    }
                },
            },
        },
{
    match explicit_id(metadata) {
        Some(e) => owned(e),
        None => match id {
            Some(i) => owned(i),
            None => generate_id_string(metadata, title),
        },
    }
}

/// The display form of a section id: the explicit one unchanged, else `_`
/// and the title's slug (nothing for an empty slug).
pub fn generate_id_string(metadata: &BlockMetadata, title: &[TextNode]) -> (r: String)
    ensures
        r@ == match explicit_id_of(*metadata) {
            Some(id) => id,
            None => {
                let slug = title_slug(title@);
                if slug.len() == 0 {
                    slug
                } else {
                    seq!['_'] + slug
                }
            },
        },
{
    if let Some(id) = explicit_id(metadata) {
        return id.to_owned();
    }
    SafeId::Generated(id_from_title(title)).to_string()
}

} // verus!
