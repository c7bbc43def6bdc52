//! The include directive line: `include::target[key=value,...]`.
//!
//! The line is read as a whole: `include::`, a target that runs to the first
//! `[` and has no ASCII whitespace at either end, then a bracketed list of
//! `key=value` pairs whose keys come from a fixed set, and nothing after the
//! closing `]`. A value is either quoted (`"..."`, up to the next quote) or
//! runs to the next `,` or `]`.
use vstd::prelude::*;

use crate::attributes::DocumentAttributes;
use crate::inclusion::{
    collect_line_range_indices, directive_location, first_bad_range, selected_below, isize_of, isize_text, line_range_error, lines_range_of,
    located_at, range_pieces, target_result, target_view, usize_of, usize_text, IncludeError,
    LinesRange, SourceOrigin, Target,
};
use crate::lines::{index_of_char_from, index_of_from, views};
use crate::substitution::{header_seq, substitute, substitute_spec, HEADER};
use crate::inline_text::{join_seq, join_strings, strs};
use crate::numbers::{decimal, usize_decimal};
use crate::tag::{
    filter_spec, indices_view, issues_view, select_spec, select_tagged_lines, strings_view, Filter,
    Issue, SpecIssue,
};
use crate::text::{
    char_slice, chars_of, has_char, occurs_at, occurs_at_exec, owned, push_char, push_str,
    split_on, split_str, string_from_chars, trim, trim_start, trim_str, ws_prefix_count,
};
use vstd::string::StringSliceAdditionalSpecFns;
use vstd::utf8::{decode_utf8, encode_utf8, is_char_boundary};

verus! {

/// An attribute name that an include directive accepts.
#[derive(Clone, Copy, Debug, PartialEq, Eq, Structural)]
pub enum IncludeKey {
    LevelOffset,
    Lines,
    Tags,
    Tag,
    Indent,
    Encoding,
    Opts,
}

/// How a key is spelled.
pub open spec fn key_text(k: IncludeKey) -> Seq<char> {
    match k {
        IncludeKey::LevelOffset => "leveloffset"@,
        IncludeKey::Lines => "lines"@,
        IncludeKey::Tags => "tags"@,
        IncludeKey::Tag => "tag"@,
        IncludeKey::Indent => "indent"@,
        IncludeKey::Encoding => "encoding"@,
        IncludeKey::Opts => "opts"@,
    }
}

/// The key spelled at position `i`, trying the keys in a fixed order (`tags`
/// before `tag`).
pub open spec fn key_at(s: Seq<char>, i: int) -> Option<IncludeKey> {
    if occurs_at(s, "leveloffset"@, i) {
        Some(IncludeKey::LevelOffset)
    } else if occurs_at(s, "lines"@, i) {
        Some(IncludeKey::Lines)
    } else if occurs_at(s, "tags"@, i) {
        Some(IncludeKey::Tags)
    } else if occurs_at(s, "tag"@, i) {
        Some(IncludeKey::Tag)
    } else if occurs_at(s, "indent"@, i) {
        Some(IncludeKey::Indent)
    } else if occurs_at(s, "encoding"@, i) {
        Some(IncludeKey::Encoding)
    } else if occurs_at(s, "opts"@, i) {
        Some(IncludeKey::Opts)
    } else {
        None
    }
}

/// The first `,` or `]` at or after `i` (the length when there is none).
pub open spec fn plain_end(s: Seq<char>, i: int) -> int
    decreases s.len() - i,
{
    if i < 0 || i >= s.len() || s[i] == ',' || s[i] == ']' {
        i
    } else {
        plain_end(s, i + 1)
    }
}

/// The value that starts at `i` and the position after it: the text between
/// a quote at `i` and the next quote, or else the text up to the next `,` or
/// `]`.
pub open spec fn value_at(s: Seq<char>, i: int) -> (Seq<char>, int) {
    if 0 <= i < s.len() && s[i] == '"' && index_of_from(s, '"', i + 1) < s.len() {
        let j = index_of_from(s, '"', i + 1);
        (s.subrange(i + 1, j), j + 1)
    } else {
        let j = plain_end(s, i);
        (s.subrange(i, j), j)
    }
}

/// The `key=value` pair at `i` and the position after it.
pub open spec fn pair_at(s: Seq<char>, i: int) -> Option<(IncludeKey, Seq<char>, int)> {
    match key_at(s, i) {
        Some(k) => {
            let e = i + key_text(k).len();
            if e < s.len() && s[e] == '=' {
                let (v, f) = value_at(s, e + 1);
                Some((k, v, f))
            } else {
                None
            }
        },
        None => None,
    }
}

/// The pairs that follow at `i`, each after a `,`, and the position after
/// the last of them.
pub open spec fn more_pairs(s: Seq<char>, i: int) -> (Seq<(IncludeKey, Seq<char>)>, int)
    decreases s.len() - i,
{
    if 0 <= i < s.len() && s[i] == ',' {
        match pair_at(s, i + 1) {
            Some((k, v, f)) => if i < f <= s.len() {
                let (rest, g) = more_pairs(s, f);
                (seq![(k, v)] + rest, g)
            } else {
                (Seq::empty(), i)
            },
            None => (Seq::empty(), i),
        }
    } else {
        (Seq::empty(), i)
    }
}

/// The attribute list that starts at `i`: one pair and those that follow.
pub open spec fn attributes_at(s: Seq<char>, i: int) -> Option<
    (Seq<(IncludeKey, Seq<char>)>, int),
> {
    match pair_at(s, i) {
        Some((k, v, f)) => {
            let (rest, g) = more_pairs(s, f);
            Some((seq![(k, v)] + rest, g))
        },
        None => None,
    }
}

/// ASCII whitespace (`u8::is_ascii_whitespace`).
pub open spec fn is_ascii_ws(c: char) -> bool {
    c == ' ' || c == '\t' || c == '\n' || c == '\x0C' || c == '\r'
}

/// The target and the attribute pairs of an include directive line, or
/// `None` where the line is not one.
pub open spec fn directive_parts(s: Seq<char>) -> Option<
    (Seq<char>, Seq<(IncludeKey, Seq<char>)>),
> {
    let p = "include::"@;
    if !occurs_at(s, p, 0) {
        None
    } else {
        let k = index_of_from(s, '[', p.len() as int);
        let t = s.subrange(p.len() as int, k);
        if k >= s.len() || t.len() == 0 || is_ascii_ws(t[0]) || is_ascii_ws(t.last()) {
            None
        } else {
            match attributes_at(s, k + 1) {
                Some((ps, g)) => if g + 1 == s.len() && s[g] == ']' {
                    Some((t, ps))
                } else {
                    None
                },
                None => if k + 2 == s.len() && s[k + 1] == ']' {
                    Some((t, Seq::empty()))
                } else {
                    None
                },
            }
        }
    }
}

/// The pairs viewed as keys and character sequences.
pub open spec fn pairs_view(v: Seq<(IncludeKey, String)>) -> Seq<(IncludeKey, Seq<char>)> {
    v.map_values(|p: (IncludeKey, String)| (p.0, p.1@))
}

/// The length of a key's spelling.
fn key_len(k: IncludeKey) -> (n: usize)
    ensures
        n == key_text(k).len(),
        n >= 3,
{
    proof {
        reveal_strlit("leveloffset");
        reveal_strlit("lines");
        reveal_strlit("tags");
        reveal_strlit("tag");
        reveal_strlit("indent");
        reveal_strlit("encoding");
        reveal_strlit("opts");
    }
    match k {
        IncludeKey::LevelOffset => 11,
        IncludeKey::Lines => 5,
        IncludeKey::Tags => 4,
        IncludeKey::Tag => 3,
        IncludeKey::Indent => 6,
        IncludeKey::Encoding => 8,
        IncludeKey::Opts => 4,
    }
}

/// Executable form of [`key_at`].
fn key_at_exec(v: &[char], i: usize) -> (r: Option<IncludeKey>)
    ensures
        r == key_at(v@, i as int),
{
    if occurs_at_exec(v, chars_of("leveloffset").as_slice(), i) {
        Some(IncludeKey::LevelOffset)
    } else if occurs_at_exec(v, chars_of("lines").as_slice(), i) {
        Some(IncludeKey::Lines)
    } else if occurs_at_exec(v, chars_of("tags").as_slice(), i) {
        Some(IncludeKey::Tags)
    } else if occurs_at_exec(v, chars_of("tag").as_slice(), i) {
        Some(IncludeKey::Tag)
    } else if occurs_at_exec(v, chars_of("indent").as_slice(), i) {
        Some(IncludeKey::Indent)
    } else if occurs_at_exec(v, chars_of("encoding").as_slice(), i) {
        Some(IncludeKey::Encoding)
    } else if occurs_at_exec(v, chars_of("opts").as_slice(), i) {
        Some(IncludeKey::Opts)
    } else {
        None
    }
}

proof fn lemma_plain_end(s: Seq<char>, i: int)
    requires
        0 <= i <= s.len(),
    ensures
        i <= plain_end(s, i) <= s.len(),
    decreases s.len() - i,
{
    if i < s.len() && s[i] != ',' && s[i] != ']' {
        lemma_plain_end(s, i + 1);
    }
}

/// Executable form of [`plain_end`].
fn plain_end_exec(v: &[char], i: usize) -> (r: usize)
    requires
        i <= v@.len(),
    ensures
        r == plain_end(v@, i as int),
        i <= r <= v@.len(),
{
    let mut j = i;
    while j < v.len() && v[j] != ',' && v[j] != ']'
        invariant
            i <= j <= v@.len(),
            plain_end(v@, i as int) == plain_end(v@, j as int),
        decreases v.len() - j,
    {
        j = j + 1;
    }
    j
}

proof fn lemma_value_at(s: Seq<char>, i: int)
    requires
        0 <= i <= s.len(),
    ensures
        i <= value_at(s, i).1 <= s.len(),
{
    crate::lines::lemma_index_of_from(s, '"', i + 1);
    lemma_plain_end(s, i);
}

/// Executable form of [`value_at`].
fn value_at_exec(v: &[char], i: usize) -> (r: (String, usize))
    requires
        i <= v@.len(),
    ensures
        r.0@ == value_at(v@, i as int).0,
        r.1 == value_at(v@, i as int).1,
        i <= r.1 <= v@.len(),
{
    proof {
        lemma_value_at(v@, i as int);
    }
    if i < v.len() && v[i] == '"' {
        let j = index_of_char_from(v, '"', i + 1);
        if j < v.len() {
            let text = string_from_chars(&v[i + 1..j]);
            assert(text@ =~= v@.subrange(i + 1, j as int));
            return (text, j + 1);
        }
    }
    let j = plain_end_exec(v, i);
    let text = string_from_chars(&v[i..j]);
    assert(text@ =~= v@.subrange(i as int, j as int));
    (text, j)
}

/// Executable form of [`pair_at`].
fn pair_at_exec(v: &[char], i: usize) -> (r: Option<(IncludeKey, String, usize)>)
    requires
        i <= v@.len(),
    ensures
        match pair_at(v@, i as int) {
            Some((k, s, f)) => r matches Some((rk, rs, rf)) && rk == k && rs@ == s && rf == f
                && i < f <= v@.len(),
            None => r is None,
        },
{
    match key_at_exec(v, i) {
        Some(k) => {
            let n = key_len(k);
            assert(occurs_at(v@, key_text(k), i as int)) by {
                reveal_strlit("leveloffset");
                reveal_strlit("lines");
                reveal_strlit("tags");
                reveal_strlit("tag");
                reveal_strlit("indent");
                reveal_strlit("encoding");
                reveal_strlit("opts");
            }
            assert(n <= v.len() - i);
            let e = i + n;
            if e < v.len() && v[e] == '=' {
                let (text, f) = value_at_exec(v, e + 1);
                Some((k, text, f))
            } else {
                None
            }
        },
        None => None,
    }
}

/// The pairs that follow at `i` (see [`more_pairs`]), appended to `acc`.
fn more_pairs_exec(v: &[char], i: usize, acc: &mut Vec<(IncludeKey, String)>) -> (r: usize)
    requires
        i <= v@.len(),
    ensures
        pairs_view(final(acc)@) == pairs_view(old(acc)@) + more_pairs(v@, i as int).0,
        r == more_pairs(v@, i as int).1,
        i <= r <= v@.len(),
{
    let ghost start = i;
    let ghost before = pairs_view(acc@);
    let mut pos = i;
    loop
        invariant
            start == i,
            before == pairs_view(old(acc)@),
            start <= pos <= v@.len(),
            pairs_view(acc@) + more_pairs(v@, pos as int).0 == before + more_pairs(
                v@,
                start as int,
            ).0,
            more_pairs(v@, pos as int).1 == more_pairs(v@, start as int).1,
        decreases v.len() - pos,
    {
        if pos < v.len() && v[pos] == ',' {
            match pair_at_exec(v, pos + 1) {
                Some((k, text, f)) => {
                    let ghost old_acc = acc@;
                    let ghost rest = more_pairs(v@, f as int).0;
                    acc.push((k, text));
                    assert(pairs_view(acc@) =~= pairs_view(old_acc).push((k, text@)));
                    assert(pairs_view(acc@) + rest =~= pairs_view(old_acc) + (seq![(k, text@)]
                        + rest));
                    pos = f;
                },
                None => {
                    assert(more_pairs(v@, pos as int) == (Seq::<(IncludeKey, Seq<char>)>::empty(), pos as int));
                    assert(pairs_view(acc@) + Seq::empty() =~= pairs_view(acc@));
                    return pos;
                },
            }
        } else {
            assert(more_pairs(v@, pos as int) == (Seq::<(IncludeKey, Seq<char>)>::empty(), pos as int));
            assert(pairs_view(acc@) + Seq::empty() =~= pairs_view(acc@));
            return pos;
        }
    }
}

/// Read an include directive line (see [`directive_parts`]): its target and
/// its attribute pairs, or `None` where the line is not such a directive.
pub fn parse_directive(line: &str) -> (r: Option<(String, Vec<(IncludeKey, String)>)>)
    ensures
        match directive_parts(line@) {
            Some((t, ps)) => r matches Some((rt, rps)) && rt@ == t && pairs_view(rps@) == ps,
            None => r is None,
        },
{
    let v = chars_of(line);
    let prefix = chars_of("include::");
    proof {
        reveal_strlit("include::");
    }
    if !occurs_at_exec(v.as_slice(), prefix.as_slice(), 0) {
        return None;
    }
    let k = index_of_char_from(v.as_slice(), '[', 9);
    if k >= v.len() || k == 9 {
        return None;
    }
    let target = string_from_chars(&v[9..k]);
    assert(target@ =~= line@.subrange(9, k as int));
    if is_ascii_whitespace(v[9]) || is_ascii_whitespace(v[k - 1]) {
        return None;
    }
    let mut pairs: Vec<(IncludeKey, String)> = Vec::new();
    match pair_at_exec(v.as_slice(), k + 1) {
        Some((key, text, f)) => {
            pairs.push((key, text));
            let g = more_pairs_exec(v.as_slice(), f, &mut pairs);
            proof {
                let ghost one: Seq<(IncludeKey, Seq<char>)> = seq![(key, text@)];
                assert(pairs_view(seq![(key, text)]) =~= one);
            }
            if g < v.len() && g + 1 == v.len() && v[g] == ']' {
                Some((target, pairs))
            } else {
                None
            }
        },
        None => {
            if k + 1 < v.len() && k + 2 == v.len() && v[k + 1] == ']' {
                assert(pairs_view(pairs@) =~= Seq::<(IncludeKey, Seq<char>)>::empty());
                Some((target, pairs))
            } else {
                None
            }
        },
    }
}

/// The attribute list of an include directive line as written: what stands
/// between its opening `[` and its closing `]`.
pub open spec fn attribute_list_text(s: Seq<char>) -> Seq<char> {
    s.subrange(index_of_from(s, '[', "include::"@.len() as int) + 1, s.len() - 1)
}

/// The attribute list of an include directive line as written (see
/// [`attribute_list_text`]), or `None` where the line is not such a
/// directive (see [`directive_parts`]).
pub fn attribute_list_as_written(line: &str) -> (r: Option<String>)
    ensures
        match r {
            Some(a) => directive_parts(line@) is Some && a@ == attribute_list_text(line@),
            None => directive_parts(line@) is None,
        },
{
    if parse_directive(line).is_none() {
        return None;
    }
    proof {
        reveal_strlit("include::");
    }
    let v = chars_of(line);
    let k = index_of_char_from(v.as_slice(), '[', 9);
    let list = string_from_chars(&v[k + 1..v.len() - 1]);
    assert(list@ =~= attribute_list_text(line@));
    Some(list)
}

/// Executable form of [`is_ascii_ws`].
fn is_ascii_whitespace(c: char) -> (r: bool)
    ensures
        r == is_ascii_ws(c),
{
    c == ' ' || c == '\t' || c == '\n' || c == '\x0C' || c == '\r'
}

} // verus!

verus! {

// ----------------------------------------------------------------------------
// Attribute values.
// ----------------------------------------------------------------------------

/// The largest `indent` an include directive accepts: it bounds the spaces
/// prepended to each line.
pub const MAX_INCLUDE_INDENT: usize = 4096;

/// The settings an include directive's attributes make, as mathematical values.
pub struct SpecSettings {
    pub level_offset: Option<isize>,
    pub lines: Option<Seq<LinesRange>>,
    pub tag: Option<Seq<char>>,
    pub tags: Option<Seq<char>>,
    pub indent: Option<usize>,
    pub encoding: Option<Seq<char>>,
    pub opts: Seq<Seq<char>>,
}

/// Why an attribute value is refused, with the text or number refused.
pub enum AttributeFault {
    LevelOffset(Seq<char>),
    Lines(Seq<char>),
    Indent(Seq<char>),
    IndentTooLarge(usize),
}

/// The settings before any attribute is read.
pub open spec fn no_settings() -> SpecSettings {
    SpecSettings {
        level_offset: None,
        lines: None,
        tag: None,
        tags: None,
        indent: None,
        encoding: None,
        opts: Seq::empty(),
    }
}

/// The line ranges that the pieces of a `lines` value spell.
pub open spec fn ranges_of(pieces: Seq<Seq<char>>) -> Seq<LinesRange> {
    pieces.map_values(|p: Seq<char>| lines_range_of(p)->0)
}

/// One attribute applied to the settings: `leveloffset` an integer, `lines`
/// one or more line ranges, `tag` and `tags` their text (the last one of each
/// wins), `indent` a count up to [`MAX_INCLUDE_INDENT`], `encoding` its text,
/// and `opts` a `,`-separated list added to those before.
pub open spec fn apply_pair(s: SpecSettings, k: IncludeKey, v: Seq<char>) -> Result<
    SpecSettings,
    AttributeFault,
> {
    match k {
        IncludeKey::LevelOffset => match isize_text(v) {
            Some(n) => Ok(SpecSettings { level_offset: Some(n), ..s }),
            None => Err(AttributeFault::LevelOffset(v)),
        },
        IncludeKey::Lines => {
            let pieces = range_pieces(v);
            let bad = first_bad_range(pieces, 0);
            if bad == pieces.len() {
                Ok(SpecSettings { lines: Some(ranges_of(pieces)), ..s })
            } else {
                Err(AttributeFault::Lines(pieces[bad]))
            }
        },
        IncludeKey::Tag => Ok(SpecSettings { tag: Some(v), ..s }),
        IncludeKey::Tags => Ok(SpecSettings { tags: Some(v), ..s }),
        IncludeKey::Indent => match usize_text(v) {
            Some(n) => if n > MAX_INCLUDE_INDENT {
                Err(AttributeFault::IndentTooLarge(n))
            } else {
                Ok(SpecSettings { indent: Some(n), ..s })
            },
            None => Err(AttributeFault::Indent(v)),
        },
        IncludeKey::Encoding => Ok(SpecSettings { encoding: Some(v), ..s }),
        IncludeKey::Opts => Ok(SpecSettings { opts: s.opts + split_on(v, ','), ..s }),
    }
}

/// The settings after the first `n` pairs, or the fault of the first pair
/// refused among them.
pub open spec fn settings_after(pairs: Seq<(IncludeKey, Seq<char>)>, n: int) -> Result<
    SpecSettings,
    AttributeFault,
>
    decreases n,
{
    if n <= 0 {
        Ok(no_settings())
    } else {
        match settings_after(pairs, n - 1) {
            Ok(s) => apply_pair(s, pairs[n - 1].0, pairs[n - 1].1),
            Err(f) => Err(f),
        }
    }
}

proof fn lemma_fault_stays(pairs: Seq<(IncludeKey, Seq<char>)>, m: int, n: int)
    requires
        0 <= m <= n,
        settings_after(pairs, m) is Err,
    ensures
        settings_after(pairs, n) == settings_after(pairs, m),
    decreases n - m,
{
    if n > m {
        lemma_fault_stays(pairs, m, n - 1);
    }
}

/// Whether `e` reports `fault` at `line_number` of `file`.
pub open spec fn fault_reported(
    e: IncludeError,
    fault: AttributeFault,
    line_number: usize,
    file: Option<&str>,
) -> bool {
    match fault {
        AttributeFault::LevelOffset(v) => e matches IncludeError::InvalidLevelOffset(loc, t) && t@
            == v && located_at(loc, line_number, file),
        AttributeFault::Lines(v) => line_range_error(e, v, line_number, file),
        AttributeFault::Indent(v) => e matches IncludeError::InvalidIndent(loc, t) && t@ == v
            && located_at(loc, line_number, file),
        AttributeFault::IndentTooLarge(n) => e matches IncludeError::IncludeIndentTooLarge(
            loc,
            m,
            limit,
        ) && m == n && limit == MAX_INCLUDE_INDENT && located_at(loc, line_number, file),
    }
}

/// An optional text, viewed.
pub open spec fn opt_text(o: Option<String>) -> Option<Seq<char>> {
    match o {
        Some(t) => Some(t@),
        None => None,
    }
}

/// Optional line ranges, viewed.
pub open spec fn opt_ranges(o: Option<Vec<LinesRange>>) -> Option<Seq<LinesRange>> {
    match o {
        Some(v) => Some(v@),
        None => None,
    }
}

/// The settings read so far from a directive's attributes.
struct Settings {
    level_offset: Option<isize>,
    lines: Option<Vec<LinesRange>>,
    tag: Option<String>,
    tags: Option<String>,
    indent: Option<usize>,
    encoding: Option<String>,
    opts: Vec<String>,
}

impl Settings {
    closed spec fn spec_view(&self) -> SpecSettings {
        SpecSettings {
            level_offset: self.level_offset,
            lines: opt_ranges(self.lines),
            tag: opt_text(self.tag),
            tags: opt_text(self.tags),
            indent: self.indent,
            encoding: opt_text(self.encoding),
            opts: views(self.opts@),
        }
    }
}

/// Apply one attribute pair (see [`apply_pair`]).
fn apply_one(
    st: &mut Settings,
    key: IncludeKey,
    value: &String,
    line_number: usize,
    file: Option<&str>,
) -> (r: Result<(), IncludeError>)
    ensures
        match apply_pair(old(st).spec_view(), key, value@) {
            Ok(s) => r is Ok && final(st).spec_view() == s,
            Err(f) => r matches Err(e) && fault_reported(e, f, line_number, file),
        },
{
    let v = value.as_str();
    match key {
        IncludeKey::LevelOffset => match isize_of(v) {
            Some(n) => {
                st.level_offset = Some(n);
                Ok(())
            },
            None => Err(IncludeError::InvalidLevelOffset(directive_location(line_number, file), owned(v))),
        },
        IncludeKey::Lines => match LinesRange::parse(v, line_number, file) {
            Ok(ranges) => {
                let ghost pieces = range_pieces(value@);
                assert(ranges@ =~= ranges_of(pieces));
                st.lines = Some(ranges);
                Ok(())
            },
            Err(e) => Err(e),
        },
        IncludeKey::Tag => {
            st.tag = Some(owned(v));
            Ok(())
        },
        IncludeKey::Tags => {
            st.tags = Some(owned(v));
            Ok(())
        },
        IncludeKey::Indent => match usize_of(v) {
            Some(n) => {
                if n > MAX_INCLUDE_INDENT {
                    Err(
                        IncludeError::IncludeIndentTooLarge(
                            directive_location(line_number, file),
                            n,
                            MAX_INCLUDE_INDENT,
                        ),
                    )
                } else {
                    st.indent = Some(n);
                    Ok(())
                }
            },
            None => Err(IncludeError::InvalidIndent(directive_location(line_number, file), owned(v))),
        },
        IncludeKey::Encoding => {
            st.encoding = Some(owned(v));
            Ok(())
        },
        IncludeKey::Opts => {
            let parts = split_str(v, ',');
            let ghost before = views(st.opts@);
            let ghost pieces = split_on(value@, ',');
            let mut i: usize = 0;
            while i < parts.len()
                invariant
                    i <= parts@.len(),
                    parts@.len() == pieces.len(),
                    pieces == split_on(value@, ','),
                    forall|k: int| 0 <= k < parts@.len() ==> (#[trigger] parts@[k])@ == pieces[k],
                    views(st.opts@) == before + pieces.take(i as int),
                    st.level_offset == old(st).level_offset,
                    st.lines == old(st).lines,
                    st.tag == old(st).tag,
                    st.tags == old(st).tags,
                    st.indent == old(st).indent,
                    st.encoding == old(st).encoding,
                    before == views(old(st).opts@),
                decreases parts.len() - i,
            {
                let ghost prev = st.opts@;
                let piece = owned(parts[i]);
                st.opts.push(piece);
                assert(pieces.take(i + 1) =~= pieces.take(i as int).push(pieces[i as int]));
                assert(views(st.opts@) =~= views(prev).push(piece@));
                assert(views(st.opts@) =~= before + pieces.take(i + 1));
                i = i + 1;
            }
            assert(pieces.take(i as int) =~= pieces);
            Ok(())
        },
    }
}

/// Apply the pairs in order (see [`settings_after`]): the settings they make,
/// or the refusal of the first value refused.
fn apply_pairs(pairs: &Vec<(IncludeKey, String)>, line_number: usize, file: Option<&str>) -> (r:
    Result<Settings, IncludeError>)
    ensures
        match settings_after(pairs_view(pairs@), pairs@.len() as int) {
            Ok(s) => r matches Ok(st) && st.spec_view() == s,
            Err(f) => r matches Err(e) && fault_reported(e, f, line_number, file),
        },
{
    let mut st = Settings {
        level_offset: None,
        lines: None,
        tag: None,
        tags: None,
        indent: None,
        encoding: None,
        opts: Vec::new(),
    };
    let ghost pv = pairs_view(pairs@);
    assert(views(st.opts@) =~= Seq::<Seq<char>>::empty());
    let mut i: usize = 0;
    while i < pairs.len()
        invariant
            i <= pairs@.len(),
            pv == pairs_view(pairs@),
            pv.len() == pairs@.len(),
            settings_after(pv, i as int) == Ok::<SpecSettings, AttributeFault>(st.spec_view()),
        decreases pairs.len() - i,
    {
        let key = pairs[i].0;
        assert(pv[i as int] == (key, pairs@[i as int].1@));
        match apply_one(&mut st, key, &pairs[i].1, line_number, file) {
            Ok(()) => {},
            Err(e) => {
                proof {
                    lemma_fault_stays(pv, i + 1, pv.len() as int);
                }
                return Err(e);
            },
        }
        i = i + 1;
    }
    Ok(st)
}

// ----------------------------------------------------------------------------
// Content selection.
// ----------------------------------------------------------------------------

/// The one content selector that applies to an include: `lines` over `tag`
/// over `tags`.
#[derive(Debug, PartialEq, Eq)]
pub enum ContentSelection {
    All,
    Lines(Vec<LinesRange>),
    Tags(Vec<Filter>),
}

/// A content selector as mathematical values.
pub enum SpecSelection {
    All,
    Lines(Seq<LinesRange>),
    Tags(Seq<(Seq<char>, bool)>),
}

/// Tag filters as names and whether each selects.
pub open spec fn filters_view(v: Seq<Filter>) -> Seq<(Seq<char>, bool)> {
    v.map_values(|f: Filter| (f.name@, f.selected))
}

/// The selector viewed.
pub open spec fn selection_view(c: ContentSelection) -> SpecSelection {
    match c {
        ContentSelection::All => SpecSelection::All,
        ContentSelection::Lines(v) => SpecSelection::Lines(v@),
        ContentSelection::Tags(v) => SpecSelection::Tags(filters_view(v@)),
    }
}

/// The filters that the pieces spell, skipping those that spell none.
pub open spec fn filters_of(pieces: Seq<Seq<char>>) -> Seq<(Seq<char>, bool)>
    decreases pieces.len(),
{
    if pieces.len() == 0 {
        Seq::empty()
    } else {
        let init = filters_of(pieces.drop_last());
        match filter_spec(pieces.last()) {
            Some(f) => init.push(f),
            None => init,
        }
    }
}

/// The separator of a `tags` value: `,` where it holds one, else `;`.
pub open spec fn tags_separator(v: Seq<char>) -> char {
    if v.contains(',') {
        ','
    } else {
        ';'
    }
}

/// The selector that applies: the line ranges when given; else the `tag`
/// filter when given (everything when it spells none); else the `tags`
/// filters when any are spelled; else everything.
pub open spec fn selection_of(
    lines: Option<Seq<LinesRange>>,
    tag: Option<Seq<char>>,
    tags: Option<Seq<char>>,
) -> SpecSelection {
    match lines {
        Some(r) => SpecSelection::Lines(r),
        None => match tag {
            Some(t) => match filter_spec(t) {
                Some(f) => SpecSelection::Tags(seq![f]),
                None => SpecSelection::All,
            },
            None => match tags {
                Some(t) => {
                    let fs = filters_of(split_on(t, tags_separator(t)));
                    if fs.len() == 0 {
                        SpecSelection::All
                    } else {
                        SpecSelection::Tags(fs)
                    }
                },
                None => SpecSelection::All,
            },
        },
    }
}

// ----------------------------------------------------------------------------
// The directive.
// ----------------------------------------------------------------------------

/// A parsed include directive.
///
/// The target may be an absolute path, a path relative to the current
/// document, or a URL; the attributes set the level offset, the selected
/// lines or tags, the indentation, the encoding and the options.
#[derive(Debug)]
pub struct Include {
    pub target: Target,
    /// The target as written, after attribute references were expanded.
    pub target_as_written: String,
    pub level_offset: Option<isize>,
    pub selection: ContentSelection,
    pub indent: Option<usize>,
    pub encoding: Option<String>,
    pub opts: Vec<String>,
    pub line_number: usize,
    pub file: Option<String>,
}

/// Whether `inc` holds target `tv` written as `written`, the settings `st`
/// and the location `line_number` of `file`.
pub open spec fn include_shows(
    inc: Include,
    tv: (crate::inclusion::TargetKind, Seq<char>),
    written: Seq<char>,
    st: SpecSettings,
    line_number: usize,
    file: Option<&str>,
) -> bool {
    &&& target_view(inc.target) == tv
    &&& inc.target_as_written@ == written
    &&& inc.level_offset == st.level_offset
    &&& selection_view(inc.selection) == selection_of(st.lines, st.tag, st.tags)
    &&& inc.indent == st.indent
    &&& opt_text(inc.encoding) == st.encoding
    &&& views(inc.opts@) == st.opts
    &&& inc.line_number == line_number
    &&& match file {
        Some(f) => inc.file matches Some(g) && g@ == f@,
        None => inc.file is None,
    }
}

impl Include {
    /// The selector that applies (see [`selection_of`]).
    pub fn resolve_content_selection(
        line_ranges: Option<Vec<LinesRange>>,
        tag: Option<String>,
        tags: Option<String>,
    ) -> (r: ContentSelection)
        ensures
            selection_view(r) == selection_of(opt_ranges(line_ranges), opt_text(tag), opt_text(tags)),
    {
        if let Some(ranges) = line_ranges {
            return ContentSelection::Lines(ranges);
        }
        if let Some(value) = tag {
            return match Filter::parse(value.as_str()) {
                Some(filter) => {
                    let mut v: Vec<Filter> = Vec::new();
                    v.push(filter);
                    assert(filters_view(v@) =~= seq![(v@[0].name@, v@[0].selected)]);
                    ContentSelection::Tags(v)
                },
                None => ContentSelection::All,
            };
        }
        let value = match tags {
            Some(value) => value,
            None => {
                return ContentSelection::All;
            },
        };
        let cs = chars_of(value.as_str());
        let separator = if has_char(cs.as_slice(), ',') {
            ','
        } else {
            ';'
        };
        let parts = split_str(value.as_str(), separator);
        let ghost pieces = split_on(value@, separator);
        let mut filters: Vec<Filter> = Vec::new();
        let mut i: usize = 0;
        while i < parts.len()
            invariant
                i <= parts@.len(),
                parts@.len() == pieces.len(),
                forall|k: int| 0 <= k < parts@.len() ==> (#[trigger] parts@[k])@ == pieces[k],
                filters_view(filters@) == filters_of(pieces.take(i as int)),
            decreases parts.len() - i,
        {
            let ghost before = filters@;
            assert(pieces.take(i + 1).drop_last() =~= pieces.take(i as int));
            match Filter::parse(parts[i]) {
                Some(f) => {
                    filters.push(f);
                    assert(filters_view(filters@) =~= filters_view(before).push(
                        (f.name@, f.selected),
                    ));
                },
                None => {},
            }
            i = i + 1;
        }
        assert(pieces.take(i as int) =~= pieces);
        if filters.len() == 0 {
            ContentSelection::All
        } else {
            ContentSelection::Tags(filters)
        }
    }

    /// Parse an include directive `line` found at `line_number` of `file`.
    ///
    /// The target has `{name}` references expanded from `attributes`, then is
    /// resolved from `origin` (see [`target_result`]); the attributes are read
    /// in order (see [`settings_after`]). A line that is not a directive is
    /// refused with [`IncludeError::Parse`], a target URL that does not parse
    /// with [`IncludeError::Url`], and a refused value with its own error.
    pub fn parse(
        origin: &SourceOrigin,
        line: &str,
        line_number: usize,
        file: Option<&str>,
        attributes: &DocumentAttributes,
    ) -> (r: Result<Include, IncludeError>)
        requires
            attributes.wf(),
        ensures
            match directive_parts(line@) {
                None => r matches Err(IncludeError::Parse(loc)) && located_at(loc, line_number, file),
                Some((t, pairs)) => {
                    let written = substitute_spec(t, header_seq(), attributes@);
                    match target_result(written, *origin) {
                        None => r matches Err(IncludeError::Url(_)),
                        Some(tv) => match settings_after(pairs, pairs.len() as int) {
                            Err(fault) => r matches Err(e) && fault_reported(
                                e,
                                fault,
                                line_number,
                                file,
                            ),
                            Ok(st) => r matches Ok(inc) && include_shows(
                                inc,
                                tv,
                                written,
                                st,
                                line_number,
                                file,
                            ),
                        },
                    }
                },
            },
    {
        let (target, pairs) = match parse_directive(line) {
            Some(parts) => parts,
            None => {
                return Err(IncludeError::Parse(directive_location(line_number, file)));
            },
        };
        let header = HEADER;
        assert(header@ =~= header_seq());
        let written = substitute(target.as_str(), header.as_slice(), attributes);
        let resolved = match Target::parse(written.as_str(), origin) {
            Ok(t) => t,
            Err(e) => {
                return Err(e);
            },
        };
        let st = match apply_pairs(&pairs, line_number, file) {
            Ok(st) => st,
            Err(e) => {
                return Err(e);
            },
        };
        let selection = Include::resolve_content_selection(st.lines, st.tag, st.tags);
        let file = match file {
            Some(f) => Some(owned(f)),
            None => None,
        };
        Ok(Include {
            target: resolved,
            target_as_written: written,
            level_offset: st.level_offset,
            selection,
            indent: st.indent,
            encoding: st.encoding,
            opts: st.opts,
            line_number,
            file,
        })
    }
}

} // verus!

verus! {

// ----------------------------------------------------------------------------
// Indentation.
// ----------------------------------------------------------------------------

/// The UTF-8 length of `s`.
pub open spec fn byte_len(s: Seq<char>) -> int {
    encode_utf8(s).len() as int
}

/// Whether a line holds anything but whitespace.
pub open spec fn has_content(s: Seq<char>) -> bool {
    trim(s).len() > 0
}

/// The UTF-8 length of a line's leading whitespace.
pub open spec fn leading_bytes(s: Seq<char>) -> int {
    byte_len(s) - byte_len(trim_start(s))
}

/// The least leading whitespace of the lines with content, if there is one.
pub open spec fn least_indent(lines: Seq<Seq<char>>) -> Option<int>
    decreases lines.len(),
{
    if lines.len() == 0 {
        None
    } else {
        let rest = least_indent(lines.drop_last());
        let l = lines.last();
        if has_content(l) {
            match rest {
                Some(m) => Some(
                    if leading_bytes(l) < m {
                        leading_bytes(l)
                    } else {
                        m
                    },
                ),
                None => Some(leading_bytes(l)),
            }
        } else {
            rest
        }
    }
}

/// The whitespace, in bytes, common to the lines with content (0 when no
/// line has content).
pub open spec fn common_indent(lines: Seq<Seq<char>>) -> int {
    match least_indent(lines) {
        Some(m) => m,
        None => 0,
    }
}

/// `s` without its first `b` bytes.
pub open spec fn strip_bytes(s: Seq<char>, b: int) -> Seq<char> {
    decode_utf8(encode_utf8(s).subrange(b, byte_len(s)))
}

/// A line re-indented: `indent` spaces, then the line without its first `b`
/// bytes; a line without content becomes empty.
pub open spec fn reindented(s: Seq<char>, indent: nat, b: int) -> Seq<char> {
    if has_content(s) {
        Seq::new(indent, |_i: int| ' ') + strip_bytes(s, b)
    } else {
        Seq::empty()
    }
}

/// An `isize` from a `usize`, or 0 where it does not fit.
pub open spec fn isize_or_zero(n: int) -> int {
    if n <= isize::MAX {
        n
    } else {
        0
    }
}

pub(crate) proof fn lemma_encode_split(s: Seq<char>, p: int)
    requires
        0 <= p <= s.len(),
    ensures
        encode_utf8(s) =~= encode_utf8(s.take(p)) + encode_utf8(s.skip(p)),
    decreases p,
{
    if p == 0 {
        assert(s.take(0) =~= Seq::<char>::empty());
        assert(s.skip(0) =~= s);
    } else {
        let d = s.drop_first();
        lemma_encode_split(d, p - 1);
        assert(s.take(p).drop_first() =~= d.take(p - 1));
        assert(s.take(p)[0] == s[0]);
        assert(s.skip(p) =~= d.skip(p - 1));
    }
}

proof fn lemma_least_indent_le(lines: Seq<Seq<char>>, k: int)
    requires
        0 <= k < lines.len(),
        has_content(lines[k]),
    ensures
        least_indent(lines) matches Some(m) && m <= leading_bytes(lines[k]),
    decreases lines.len(),
{
    if k < lines.len() - 1 {
        lemma_least_indent_le(lines.drop_last(), k);
    }
}

proof fn lemma_least_indent_nonneg(lines: Seq<Seq<char>>)
    requires
        forall|k: int| 0 <= k < lines.len() ==> 0 <= #[trigger] leading_bytes(lines[k]),
    ensures
        least_indent(lines) matches Some(m) ==> 0 <= m,
    decreases lines.len(),
{
    if lines.len() > 0 {
        let d = lines.drop_last();
        assert forall|k: int| 0 <= k < d.len() implies 0 <= #[trigger] leading_bytes(d[k]) by {
            assert(d[k] == lines[k]);
        }
        lemma_least_indent_nonneg(d);
        assert(leading_bytes(lines.last()) == leading_bytes(lines[lines.len() - 1]));
    }
}

impl Include {
    /// Whether [`Include::apply_indent`] can re-indent `lines`: every line
    /// with content can be cut at the whitespace common to them, counted in
    /// bytes (a line whose leading whitespace is wider than one byte per
    /// character may not be). The byte length of every line fits in `usize`.
    pub fn indent_applies(lines: &[String]) -> (r: bool)
        ensures
            forall|k: int| 0 <= k < lines@.len() ==> byte_len(#[trigger] lines@[k]@) <= usize::MAX,
            r == forall|k: int|
                0 <= k < lines@.len() && has_content(#[trigger] lines@[k]@) ==> is_char_boundary(
                    encode_utf8(lines@[k]@),
                    common_indent(views(lines@)),
                ),
    {
        let ghost lv = views(lines@);
        let mut least: Option<usize> = None;
        let mut i: usize = 0;
        while i < lines.len()
            invariant
                i <= lines@.len(),
                lv == views(lines@),
                lv.len() == lines@.len(),
                forall|k: int| 0 <= k < i ==> byte_len(#[trigger] lines@[k]@) <= usize::MAX,
                least_indent(lv.take(i as int)) == match least {
                    Some(m) => Some(m as int),
                    None => None::<int>,
                },
            decreases lines.len() - i,
        {
            let line = lines[i].as_str();
            let bytes = line.as_bytes();
            let _count = bytes.len();
            assert(byte_len(line@) <= usize::MAX);
            assert(lv.take(i + 1).drop_last() =~= lv.take(i as int));
            assert(lv.take(i + 1).last() == line@);
            let trimmed = trim_str(line);
            if !trimmed.is_empty() {
                let v = chars_of(line);
                let p = ws_prefix_count(v.as_slice());
                proof {
                    crate::text::lemma_ws_prefix_le(v@);
                    lemma_encode_split(line@, p as int);
                }
                let rest = char_slice(line, p, v.len());
                assert(rest@ =~= trim_start(line@));
                let n = line.len() - rest.len();
                assert(n == leading_bytes(line@));
                least = match least {
                    Some(m) => if n < m {
                        Some(n)
                    } else {
                        Some(m)
                    },
                    None => Some(n),
                };
            }
            i = i + 1;
        }
        assert(lv.take(i as int) =~= lv);
        let common: usize = match least {
            Some(m) => m,
            None => 0,
        };
        let mut j: usize = 0;
        while j < lines.len()
            invariant
                j <= lines@.len(),
                lv == views(lines@),
                common == common_indent(lv),
                forall|k: int| 0 <= k < lines@.len() ==> byte_len(#[trigger] lines@[k]@) <= usize::MAX,
                forall|k: int|
                    0 <= k < j && has_content(#[trigger] lines@[k]@) ==> is_char_boundary(
                        encode_utf8(lines@[k]@),
                        common_indent(views(lines@)),
                    ),
            decreases lines.len() - j,
        {
            let line = lines[j].as_str();
            let trimmed = trim_str(line);
            if !trimmed.is_empty() {
                assert(has_content(lines@[j as int]@));
                if !line.is_char_boundary(common) {
                    return false;
                }
            } else {
                assert(!has_content(lines@[j as int]@));
            }
            j = j + 1;
        }
        true
    }
}

impl Include {
    /// Re-indent lines: strip the whitespace common to the lines with
    /// content, in bytes, then prepend `indent` spaces; lines without content
    /// become empty. Also gives the column shift: `indent` less the common
    /// whitespace.
    pub fn apply_indent(lines: &[String], indent: usize) -> (r: (Vec<String>, isize))
        requires
            forall|k: int| 0 <= k < lines@.len() ==> byte_len(#[trigger] lines@[k]@) <= usize::MAX,
            forall|k: int|
                0 <= k < lines@.len() && has_content(#[trigger] lines@[k]@) ==> is_char_boundary(
                    encode_utf8(lines@[k]@),
                    common_indent(views(lines@)),
                ),
        ensures
            r.0@.len() == lines@.len(),
            forall|k: int|
                0 <= k < lines@.len() ==> (#[trigger] r.0@[k])@ == reindented(
                    lines@[k]@,
                    indent as nat,
                    common_indent(views(lines@)),
                ),
            r.1 == isize_or_zero(indent as int) - isize_or_zero(common_indent(views(lines@))),
    {
        let ghost lv = views(lines@);
        let mut least: Option<usize> = None;
        let mut i: usize = 0;
        while i < lines.len()
            invariant
                i <= lines@.len(),
                lv == views(lines@),
                lv.len() == lines@.len(),
                forall|k: int| 0 <= k < lines@.len() ==> byte_len(#[trigger] lines@[k]@) <= usize::MAX,
                least_indent(lv.take(i as int)) == match least {
                    Some(m) => Some(m as int),
                    None => None::<int>,
                },
            decreases lines.len() - i,
        {
            let line = lines[i].as_str();
            assert(lv.take(i + 1).drop_last() =~= lv.take(i as int));
            assert(lv.take(i + 1).last() == line@);
            let trimmed = trim_str(line);
            if !trimmed.is_empty() {
                let v = chars_of(line);
                let p = ws_prefix_count(v.as_slice());
                proof {
                    crate::text::lemma_ws_prefix_le(v@);
                    lemma_encode_split(line@, p as int);
                }
                let rest = char_slice(line, p, v.len());
                assert(rest@ =~= trim_start(line@));
                assert(byte_len(line@) <= usize::MAX);
                let n = line.len() - rest.len();
                assert(n == leading_bytes(line@));
                least = match least {
                    Some(m) => if n < m {
                        Some(n)
                    } else {
                        Some(m)
                    },
                    None => Some(n),
                };
            }
            i = i + 1;
        }
        assert(lv.take(i as int) =~= lv);
        let common: usize = match least {
            Some(m) => m,
            None => 0,
        };
        let mut prefix = String::new();
        let mut j: usize = 0;
        while j < indent
            invariant
                j <= indent,
                prefix@ =~= Seq::new(j as nat, |_i: int| ' '),
            decreases indent - j,
        {
            push_char(&mut prefix, ' ');
            j = j + 1;
        }
        let mut out: Vec<String> = Vec::new();
        let mut i: usize = 0;
        while i < lines.len()
            invariant
                i <= lines@.len(),
                lv == views(lines@),
                lv.len() == lines@.len(),
                common == common_indent(lv),
                prefix@ =~= Seq::new(indent as nat, |_i: int| ' '),
                forall|k: int|
                    0 <= k < lines@.len() && has_content(#[trigger] lines@[k]@) ==> is_char_boundary(
                        encode_utf8(lines@[k]@),
                        common_indent(views(lines@)),
                    ),
                out@.len() == i,
                forall|k: int|
                    0 <= k < i ==> (#[trigger] out@[k])@ == reindented(
                        lines@[k]@,
                        indent as nat,
                        common as int,
                    ),
            decreases lines.len() - i,
        {
            let line = lines[i].as_str();
            let trimmed = trim_str(line);
            if trimmed.is_empty() {
                out.push(String::new());
            } else {
                assert(has_content(lines@[i as int]@));
                proof {
                    broadcast use vstd::utf8::encode_utf8_valid_utf8;
                    broadcast use vstd::utf8::encode_utf8_decode_utf8;
                }
                let (_, stripped) = line.split_at(common);
                let mut l = String::new();
                push_str(&mut l, prefix.as_str());
                push_str(&mut l, stripped);
                assert(stripped@ == decode_utf8(stripped.spec_bytes()));
                assert(stripped@ =~= strip_bytes(line@, common as int));
                out.push(l);
            }
            i = i + 1;
        }
        let a: isize = if indent <= isize::MAX as usize {
            indent as isize
        } else {
            0
        };
        let b: isize = if common <= isize::MAX as usize {
            common as isize
        } else {
            0
        };
        (out, a - b)
    }
}


// ----------------------------------------------------------------------------
// Choosing the content, and what is reported of it.
// ----------------------------------------------------------------------------

/// The lines an include keeps of `lines` and the issues its tag selection
/// meets: every line; the lines its ranges select, in increasing order; or
/// the lines its tags select (see [`select_spec`]).
pub open spec fn selected_content(sel: SpecSelection, lines: Seq<Seq<char>>) -> (
    Seq<int>,
    Seq<SpecIssue>,
) {
    match sel {
        SpecSelection::All => (Seq::new(lines.len(), |i: int| i), Seq::empty()),
        SpecSelection::Lines(ranges) => (
            indices_view(selected_below(ranges, lines.len() as usize, lines.len() as int)),
            Seq::empty(),
        ),
        SpecSelection::Tags(filters) => select_spec(filters, lines),
    }
}

/// How a warning names the kind of target: `file` for a path, `uri` for
/// anything else.
pub open spec fn target_noun(t: Target) -> Seq<char> {
    match t {
        Target::Path(_) => "file"@,
        _ => "uri"@,
    }
}

/// The warning for a tag issue met in the include target `target`, named
/// as a `noun`.
pub open spec fn tag_issue_text(issue: SpecIssue, noun: Seq<char>, target: Seq<char>) -> Seq<char> {
    let tail = " of include "@ + noun + ": "@ + target;
    match issue {
        SpecIssue::UnexpectedEnd { name, line } => "unexpected end tag '"@ + name + "' at line "@
            + decimal(line as nat) + tail,
        SpecIssue::MismatchedEnd { expected, found, line } => "mismatched end tag (expected '"@
            + expected + "' but found '"@ + found + "') at line "@ + decimal(line as nat) + tail,
        SpecIssue::Unclosed { name, line } => "detected unclosed tag '"@ + name
            + "' starting at line "@ + decimal(line as nat) + tail,
        SpecIssue::Missing { names } => (if names.len() == 1 {
            "tag"@
        } else {
            "tags"@
        }) + " '"@ + join_seq(names, ", "@) + "' not found in include "@ + noun + ": "@ + target,
    }
}

/// The level offset that the document's `leveloffset` value sets: the
/// number it spells, else nothing.
pub open spec fn current_leveloffset(current: Option<Seq<char>>) -> int {
    match current {
        Some(s) => match isize_text(s) {
            Some(n) => n as int,
            None => 0,
        },
        None => 0,
    }
}

/// A text, when there is one, viewed.
pub open spec fn opt_str(o: Option<&str>) -> Option<Seq<char>> {
    match o {
        Some(s) => Some(s@),
        None => None,
    }
}

/// The level offset of the included content: the include's own added to
/// the document's, when the include sets one.
pub open spec fn effective_leveloffset(level_offset: Option<isize>, current: Option<Seq<char>>) -> Option<
    int,
> {
    match level_offset {
        Some(l) => Some(current_leveloffset(current) + l),
        None => None,
    }
}

/// The line that stands for an include that is not read: a link to the
/// target (passed through as is where it holds a space), with the
/// `include` role unless in compatibility mode.
pub open spec fn link_fallback_text(target: Seq<char>, compat_mode: bool) -> Seq<char> {
    let t = if target.contains(' ') {
        "pass:c["@ + target + "]"@
    } else {
        target
    };
    "link:"@ + t + "["@ + (if compat_mode {
        Seq::empty()
    } else {
        "role=include"@
    }) + "]"@
}

/// The line that stands for an include that could not be read, in the
/// document shown as `source`.
pub open spec fn unresolved_text(source: Seq<char>, target: Seq<char>, attributes: Seq<char>) -> Seq<
    char,
> {
    "Unresolved directive in "@ + source + " - include::"@ + target + "["@ + attributes + "]"@
}

/// The link line that stands for an unread include target.
pub fn link_fallback_line(target: &str, compat_mode: bool) -> (r: String)
    ensures
        r@ == link_fallback_text(target@, compat_mode),
{
    let v = chars_of(target);
    let mut r = String::new();
    push_str(&mut r, "link:");
    if has_char(&v, ' ') {
        push_str(&mut r, "pass:c[");
        push_str(&mut r, target);
        push_str(&mut r, "]");
    } else {
        push_str(&mut r, target);
    }
    push_str(&mut r, "[");
    if !compat_mode {
        push_str(&mut r, "role=include");
    }
    push_str(&mut r, "]");
    assert(r@ =~= link_fallback_text(target@, compat_mode));
    r
}

/// The line that stands for an include that could not be read.
pub fn unresolved_directive_line(source: &str, target: &str, attributes: &str) -> (r: String)
    ensures
        r@ == unresolved_text(source@, target@, attributes@),
{
    let mut r = String::new();
    push_str(&mut r, "Unresolved directive in ");
    push_str(&mut r, source);
    push_str(&mut r, " - include::");
    push_str(&mut r, target);
    push_str(&mut r, "[");
    push_str(&mut r, attributes);
    push_str(&mut r, "]");
    assert(r@ =~= unresolved_text(source@, target@, attributes@));
    r
}

impl Include {
    /// Choose the lines of the target to keep, before anything else is done
    /// to them: all of them, those the line ranges select, or those the tags
    /// select, with the issues the tags meet.
    pub fn select_content_lines(&self, content_lines: &[String]) -> (r: (Vec<usize>, Vec<Issue>))
        ensures
            (indices_view(r.0@), issues_view(r.1@)) == selected_content(
                selection_view(self.selection),
                strings_view(content_lines@),
            ),
    {
        let n = content_lines.len();
        match &self.selection {
            ContentSelection::All => {
                let mut v: Vec<usize> = Vec::new();
                let mut i: usize = 0;
                while i < n
                    invariant
                        i <= n,
                        n == content_lines@.len(),
                        indices_view(v@) =~= Seq::new(i as nat, |k: int| k),
                    decreases n - i,
                {
                    let ghost before = v@;
                    v.push(i);
                    assert(indices_view(v@) =~= indices_view(before).push(i as int));
                    i = i + 1;
                }
                let ghost e: Seq<Issue> = Seq::empty();
                assert(issues_view(e) =~= Seq::<SpecIssue>::empty());
                (v, Vec::new())
            },
            ContentSelection::Lines(ranges) => {
                let v = collect_line_range_indices(ranges.as_slice(), n);
                assert(issues_view(Seq::<Issue>::empty()) =~= Seq::<SpecIssue>::empty());
                (v, Vec::new())
            },
            ContentSelection::Tags(filters) => {
                assert(filters_view(filters@) =~= crate::tag::filters_view(filters@));
                select_tagged_lines(content_lines, filters.as_slice())
            },
        }
    }

    /// The warning for a tag issue met in the target, which reads as
    /// `resolved_source`.
    pub fn report_tag_issue(&self, issue: &Issue, resolved_source: &str) -> (r: String)
        ensures
            r@ == tag_issue_text(issue@, target_noun(self.target), resolved_source@),
    {
        let noun = match &self.target {
            Target::Path(_) => "file",
            _ => "uri",
        };
        let mut r = String::new();
        match issue {
            Issue::UnexpectedEnd { name, line } => {
                push_str(&mut r, "unexpected end tag '");
                push_str(&mut r, name.as_str());
                push_str(&mut r, "' at line ");
                let d = usize_decimal(*line);
                push_str(&mut r, d.as_str());
            },
            Issue::MismatchedEnd { expected, found, line } => {
                push_str(&mut r, "mismatched end tag (expected '");
                push_str(&mut r, expected.as_str());
                push_str(&mut r, "' but found '");
                push_str(&mut r, found.as_str());
                push_str(&mut r, "') at line ");
                let d = usize_decimal(*line);
                push_str(&mut r, d.as_str());
            },
            Issue::Unclosed { name, line } => {
                push_str(&mut r, "detected unclosed tag '");
                push_str(&mut r, name.as_str());
                push_str(&mut r, "' starting at line ");
                let d = usize_decimal(*line);
                push_str(&mut r, d.as_str());
            },
            Issue::Missing { names } => {
                if names.len() == 1 {
                    push_str(&mut r, "tag");
                } else {
                    push_str(&mut r, "tags");
                }
                push_str(&mut r, " '");
                let j = join_strings(names, ", ");
                push_str(&mut r, j.as_str());
                push_str(&mut r, "' not found in include ");
                push_str(&mut r, noun);
                push_str(&mut r, ": ");
                push_str(&mut r, resolved_source);
                assert(strs(names@) =~= strings_view(names@));
                assert(r@ =~= tag_issue_text(issue@, target_noun(self.target), resolved_source@));
                return r;
            },
        }
        push_str(&mut r, " of include ");
        push_str(&mut r, noun);
        push_str(&mut r, ": ");
        push_str(&mut r, resolved_source);
        assert(r@ =~= tag_issue_text(issue@, target_noun(self.target), resolved_source@));
        r
    }

    /// The level offset of the included content, given the document's
    /// `leveloffset` value: the include's own added to the document's, when
    /// the include sets one.
    pub fn calculate_effective_leveloffset(&self, current: Option<&str>) -> (r: Option<isize>)
        requires
            effective_leveloffset(self.level_offset, opt_str(current)) matches Some(v)
                ==> isize::MIN <= v <= isize::MAX,
        ensures
            match r {
                Some(v) => effective_leveloffset(self.level_offset, opt_str(current)) == Some(v as int),
                None => effective_leveloffset(self.level_offset, opt_str(current)) is None,
            },
    {
        match self.level_offset {
            Some(l) => {
                let c: isize = match current {
                    Some(s) => match isize_of(s) {
                        Some(n) => n,
                        None => 0,
                    },
                    None => 0,
                };
                Some(c + l)
            },
            None => None,
        }
    }
}

} // verus!
