//! Deciding how an include directive's target is read: whether it is read
//! at all, where a local target lies once confined to the base directory,
//! and whether its content is AsciiDoc.
use vstd::prelude::*;

use crate::directive::{
    common_indent, effective_leveloffset, has_content, isize_or_zero, link_fallback_text, opt_str,
    reindented, selected_content, selection_view, tag_issue_text, target_noun,
    unresolved_directive_line, unresolved_text, ContentSelection, Include, SpecSelection,
};
use crate::expansion::{
    lemma_line_bytes_views, line_bytes, normalize_input, normalized, single_line_result,
    IncludeResult, IncludedLineOrigin,
};
use crate::inclusion::{
    joined_len, line_number_warnings, line_start_offsets, line_zero_warning, selected_below,
    start_offsets, zero_line_count, LinesRange, Target,
};
use crate::lines::{lines_of, split_lines, views};
use crate::tag::{indices_view, issues_view, law_selected_lines_are_content_in_order, strings_view, SpecIssue};
use vstd::utf8::{encode_utf8, is_char_boundary};
use crate::location::LeveloffsetRange;
use crate::media::{last_piece, plain_last_piece, SourceUrl};
use crate::safe_mode::SafeMode;
use crate::text::{owned, push_str, split_on, str_eq};

verus! {

// ----------------------------------------------------------------------------
// What to do with a target.
// ----------------------------------------------------------------------------

/// What becomes of an include directive's target.
#[derive(Clone, Copy, Debug, PartialEq, Eq, Structural)]
pub enum IncludeAction {
    /// A link to the target stands in for it.
    LinkFallback,
    /// The target's content is read.
    Read,
    /// The directive is left out: an optional file that is not there.
    Drop,
    /// A warning that the file was not found, and the unresolved directive.
    NotFound,
    /// A warning that the file could not be read, and the unresolved directive.
    NotReadable,
    /// A warning that the URI could not be read, and the unresolved directive
    /// with its URI escaped.
    UriNotReadable,
    /// Preprocessing fails with the read's own error: an optional file that
    /// cannot be read, or content that cannot be decoded.
    Fail,
}

/// How reading a target went.
#[derive(Clone, Copy, Debug, PartialEq, Eq, Structural)]
pub enum ReadOutcome {
    /// The content was read and decoded.
    Read,
    /// Reading failed (an I/O error, or a URL that could not be fetched).
    ReadFailed,
    /// The bytes were read but could not be decoded (an unknown encoding
    /// label, or bytes that are not UTF-8 with no byte order mark).
    DecodeFailed,
}

/// What becomes of a target: in secure mode a link stands in for every
/// target. A local file that is not there is dropped when optional and
/// reported otherwise; one that cannot be read fails when optional and is
/// reported otherwise; content that cannot be decoded fails. A URI is linked
/// to unless reading URIs is allowed; an `http` or `https` URL is then read
/// (reported when fetching fails, failing when its content cannot be
/// decoded) and any other URI reported.
pub open spec fn include_action_spec(
    safe_mode: SafeMode,
    allow_uri_read: bool,
    target: Target,
    optional: bool,
    exists: bool,
    outcome: ReadOutcome,
) -> IncludeAction {
    if safe_mode is Secure {
        IncludeAction::LinkFallback
    } else {
        match target {
            Target::Path(_) => if !exists {
                if optional {
                    IncludeAction::Drop
                } else {
                    IncludeAction::NotFound
                }
            } else {
                match outcome {
                    ReadOutcome::Read => IncludeAction::Read,
                    ReadOutcome::ReadFailed => if optional {
                        IncludeAction::Fail
                    } else {
                        IncludeAction::NotReadable
                    },
                    ReadOutcome::DecodeFailed => IncludeAction::Fail,
                }
            },
            Target::Url(_) => if !allow_uri_read {
                IncludeAction::LinkFallback
            } else {
                match outcome {
                    ReadOutcome::Read => IncludeAction::Read,
                    ReadOutcome::ReadFailed => IncludeAction::UriNotReadable,
                    ReadOutcome::DecodeFailed => IncludeAction::Fail,
                }
            },
            Target::UnsupportedUri(_) => if !allow_uri_read {
                IncludeAction::LinkFallback
            } else {
                IncludeAction::UriNotReadable
            },
        }
    }
}

/// What becomes of a target, given whether a local file is there and how
/// reading it went (see [`include_action_spec`]). Whether to read at all
/// does not depend on those two: a caller may ask with `true` and
/// [`ReadOutcome::Read`] first.
pub fn include_action(
    safe_mode: SafeMode,
    allow_uri_read: bool,
    target: &Target,
    optional: bool,
    exists: bool,
    outcome: ReadOutcome,
) -> (r: IncludeAction)
    ensures
        r == include_action_spec(safe_mode, allow_uri_read, *target, optional, exists, outcome),
{
    if let SafeMode::Secure = safe_mode {
        return IncludeAction::LinkFallback;
    }
    match target {
        Target::Path(_) => if !exists {
            if optional {
                IncludeAction::Drop
            } else {
                IncludeAction::NotFound
            }
        } else {
            match outcome {
                ReadOutcome::Read => IncludeAction::Read,
                ReadOutcome::ReadFailed => if optional {
                    IncludeAction::Fail
                } else {
                    IncludeAction::NotReadable
                },
                ReadOutcome::DecodeFailed => IncludeAction::Fail,
            }
        },
        Target::Url(_) => if !allow_uri_read {
            IncludeAction::LinkFallback
        } else {
            match outcome {
                ReadOutcome::Read => IncludeAction::Read,
                ReadOutcome::ReadFailed => IncludeAction::UriNotReadable,
                ReadOutcome::DecodeFailed => IncludeAction::Fail,
            }
        },
        Target::UnsupportedUri(_) => if !allow_uri_read {
            IncludeAction::LinkFallback
        } else {
            IncludeAction::UriNotReadable
        },
    }
}

/// The warning an action raises about the target shown as `shown`: a file
/// not found or not readable, or a URI not readable.
pub open spec fn action_warning(action: IncludeAction, shown: Seq<char>) -> Option<Seq<char>> {
    match action {
        IncludeAction::NotFound => Some("include file not found: "@ + shown),
        IncludeAction::NotReadable => Some("include file not readable: "@ + shown),
        IncludeAction::UriNotReadable => Some("include uri not readable: "@ + shown),
        _ => None,
    }
}

/// The target of an unresolved URI directive: its URI escaped with `\`.
pub open spec fn escaped_target(t: Seq<char>) -> Seq<char> {
    seq!['\\'] + t
}

impl Include {
    /// What stands for the directive when its target is not read, and the
    /// warning raised (see [`action_warning`]): a link for
    /// [`IncludeAction::LinkFallback`]; nothing for [`IncludeAction::Drop`];
    /// the unresolved directive line (written in the document shown as
    /// `source`, with `attribute_list` as written) for a file not found or not
    /// readable, with the URI escaped for a URI not readable.
    pub fn fallback_result(
        &self,
        action: IncludeAction,
        shown: &str,
        source: &str,
        attribute_list: &str,
        compat_mode: bool,
    ) -> (r: (Option<IncludeResult>, Option<String>))
        requires
            !(action is Read),
            !(action is Fail),
        ensures
            match action_warning(action, shown@) {
                Some(w) => r.1 matches Some(x) && x@ == w,
                None => r.1 is None,
            },
            match action {
                IncludeAction::LinkFallback => r.0 matches Some(x) && single_line_result(
                    x,
                    link_fallback_text(self.target_as_written@, compat_mode),
                ),
                IncludeAction::Drop => r.0 is None,
                IncludeAction::UriNotReadable => r.0 matches Some(x) && single_line_result(
                    x,
                    unresolved_text(source@, escaped_target(self.target_as_written@), attribute_list@),
                ),
                _ => r.0 matches Some(x) && single_line_result(
                    x,
                    unresolved_text(source@, self.target_as_written@, attribute_list@),
                ),
            },
    {
        match action {
            IncludeAction::LinkFallback => (
                Some(IncludeResult::link_fallback(self.target_as_written.as_str(), compat_mode)),
                None,
            ),
            IncludeAction::Drop => (None, None),
            IncludeAction::UriNotReadable => {
                let mut target = String::new();
                push_str(&mut target, "\\");
                push_str(&mut target, self.target_as_written.as_str());
                proof {
                    reveal_strlit("\\");
                }
                assert(target@ =~= escaped_target(self.target_as_written@));
                let line = unresolved_directive_line(source, target.as_str(), attribute_list);
                let mut w = String::new();
                push_str(&mut w, "include uri not readable: ");
                push_str(&mut w, shown);
                (Some(IncludeResult::unresolved_directive(line)), Some(w))
            },
            _ => {
                let line = unresolved_directive_line(
                    source,
                    self.target_as_written.as_str(),
                    attribute_list,
                );
                let mut w = String::new();
                if let IncludeAction::NotFound = action {
                    push_str(&mut w, "include file not found: ");
                } else {
                    push_str(&mut w, "include file not readable: ");
                }
                push_str(&mut w, shown);
                (Some(IncludeResult::unresolved_directive(line)), Some(w))
            },
        }
    }
}

// ----------------------------------------------------------------------------
// Preparing read content.
// ----------------------------------------------------------------------------

/// The lines at the given indices, in that order.
pub open spec fn chosen(lines: Seq<Seq<char>>, idx: Seq<int>) -> Seq<Seq<char>> {
    idx.map_values(|i: int| lines[i])
}

/// Whether lines can be re-indented: each line with content can be cut at
/// the whitespace common to them (see [`Include::apply_indent`]).
pub open spec fn indent_fits(lines: Seq<Seq<char>>) -> bool {
    forall|k: int|
        0 <= k < lines.len() && has_content(#[trigger] lines[k]) ==> is_char_boundary(
            encode_utf8(lines[k]),
            common_indent(lines),
        )
}

/// The warnings that preparing content raises: one for each line range
/// starting at line 0, then one for each tag issue.
pub open spec fn content_warnings(
    sel: SpecSelection,
    issues: Seq<SpecIssue>,
    noun: Seq<char>,
    resolved: Seq<char>,
) -> Seq<Seq<char>> {
    (match sel {
        SpecSelection::Lines(r) => Seq::new(zero_line_count(r), |_i: int| line_zero_warning()),
        _ => Seq::empty(),
    }) + issues.map_values(|i: SpecIssue| tag_issue_text(i, noun, resolved))
}

/// Included content made ready for the run: its lines (selected and
/// re-indented), where each came from, the column shift, the level offset
/// and the warnings raised.
#[derive(Debug)]
pub struct PreparedContent {
    pub lines: Vec<String>,
    pub origins: Vec<IncludedLineOrigin>,
    pub column_shift: isize,
    pub effective_leveloffset: Option<isize>,
    pub warnings: Vec<String>,
}

proof fn lemma_selected_below_range(ranges: Seq<LinesRange>, count: usize, n: int)
    ensures
        forall|k: int|
            0 <= k < selected_below(ranges, count, n).len() ==> #[trigger] selected_below(
                ranges,
                count,
                n,
            )[k] < n,
    decreases n,
{
    if n > 0 {
        lemma_selected_below_range(ranges, count, n - 1);
        let prev = selected_below(ranges, count, n - 1);
        let cur = selected_below(ranges, count, n);
        assert forall|k: int| 0 <= k < cur.len() implies #[trigger] cur[k] < n by {
            if k < prev.len() {
                assert(cur[k] == prev[k]);
            }
        }
    }
}

proof fn lemma_selected_in_range(sel: SpecSelection, lines: Seq<Seq<char>>)
    ensures
        forall|k: int|
            0 <= k < selected_content(sel, lines).0.len() ==> 0 <= #[trigger] selected_content(
                sel,
                lines,
            ).0[k] < lines.len(),
{
    match sel {
        SpecSelection::All => {},
        SpecSelection::Lines(r) => {
            lemma_selected_below_range(r, lines.len() as usize, lines.len() as int);
            let b = selected_below(r, lines.len() as usize, lines.len() as int);
            assert forall|k: int| 0 <= k < indices_view(b).len() implies 0 <= #[trigger] indices_view(
                b,
            )[k] < lines.len() by {
                assert(indices_view(b)[k] == b[k] as int);
            }
        },
        SpecSelection::Tags(f) => {
            law_selected_lines_are_content_in_order(f, lines);
        },
    }
}

impl Include {
    /// Make read content ready for the run: normalize it, keep the lines
    /// its selector chooses (see [`selected_content`]), re-indent them when
    /// an indent is set, record where each came from (its line number from 1
    /// and byte offset in the normalized content), work out the level offset
    /// from the document's `leveloffset` value, and gather the warnings (see
    /// [`content_warnings`]; `resolved` names the target read).
    pub fn prepare_content(&self, content: &str, resolved: &str, current_leveloffset: Option<&str>) -> (r:
        PreparedContent)
        requires
            joined_len(line_bytes(split_lines(normalized(content@)))) <= usize::MAX,
            self.indent is Some ==> indent_fits(
                chosen(
                    split_lines(normalized(content@)),
                    selected_content(
                        selection_view(self.selection),
                        split_lines(normalized(content@)),
                    ).0,
                ),
            ),
            effective_leveloffset(self.level_offset, opt_str(current_leveloffset)) matches Some(v)
                ==> isize::MIN <= v <= isize::MAX,
        ensures
            ({
                let ls = split_lines(normalized(content@));
                let sel = selected_content(selection_view(self.selection), ls);
                let picked = chosen(ls, sel.0);
                &&& match self.indent {
                    None => views(r.lines@) == picked && r.column_shift == 0,
                    Some(i) => {
                        &&& r.lines@.len() == picked.len()
                        &&& forall|k: int|
                            0 <= k < picked.len() ==> (#[trigger] r.lines@[k])@ == reindented(
                                picked[k],
                                i as nat,
                                common_indent(picked),
                            )
                        &&& r.column_shift == isize_or_zero(i as int) - isize_or_zero(
                            common_indent(picked),
                        )
                    },
                }
                &&& r.origins@.len() == sel.0.len()
                &&& forall|k: int|
                    0 <= k < sel.0.len() ==> (#[trigger] r.origins@[k]).line == sel.0[k] + 1
                        && r.origins@[k].offset == start_offsets(line_bytes(ls))[sel.0[k]]
                &&& match r.effective_leveloffset {
                    Some(v) => effective_leveloffset(self.level_offset, opt_str(current_leveloffset))
                        == Some(v as int),
                    None => effective_leveloffset(
                        self.level_offset,
                        opt_str(current_leveloffset),
                    ) is None,
                }
                &&& views(r.warnings@) == content_warnings(
                    selection_view(self.selection),
                    sel.1,
                    target_noun(self.target),
                    resolved@,
                )
            }),
    {
        let normalized_text = normalize_input(content);
        let content_lines = lines_of(normalized_text.as_str());
        let ghost ls = split_lines(normalized(content@));
        assert(views(content_lines@) == ls);
        let ghost sel = selected_content(selection_view(self.selection), ls);
        let mut warnings: Vec<String> = Vec::new();
        if let ContentSelection::Lines(ranges) = &self.selection {
            warnings = line_number_warnings(ranges.as_slice());
        }
        let ghost w0 = views(warnings@);
        assert(w0 =~= match selection_view(self.selection) {
            SpecSelection::Lines(r) => Seq::new(zero_line_count(r), |_i: int| line_zero_warning()),
            _ => Seq::<Seq<char>>::empty(),
        });
        let (selected, issues) = self.select_content_lines(content_lines.as_slice());
        assert(strings_view(content_lines@) == ls);
        proof {
            lemma_selected_in_range(selection_view(self.selection), ls);
        }
        let ghost iv = issues_view(issues@);
        let mut t: usize = 0;
        while t < issues.len()
            invariant
                t <= issues@.len(),
                iv == issues_view(issues@),
                views(warnings@) == w0 + iv.take(t as int).map_values(
                    |i: SpecIssue| tag_issue_text(i, target_noun(self.target), resolved@),
                ),
            decreases issues.len() - t,
        {
            let m = self.report_tag_issue(&issues[t], resolved);
            let ghost before = views(warnings@);
            warnings.push(m);
            assert(iv[t as int] == issues@[t as int]@);
            assert(iv.take(t + 1) =~= iv.take(t as int).push(iv[t as int]));
            assert(views(warnings@) =~= before.push(m@));
            assert(iv.take(t + 1).map_values(
                |i: SpecIssue| tag_issue_text(i, target_noun(self.target), resolved@),
            ) =~= iv.take(t as int).map_values(
                |i: SpecIssue| tag_issue_text(i, target_noun(self.target), resolved@),
            ).push(tag_issue_text(iv[t as int], target_noun(self.target), resolved@)));
            t = t + 1;
        }
        assert(iv.take(issues@.len() as int) =~= iv);
        proof {
            lemma_line_bytes_views(content_lines@);
        }
        let starts = line_start_offsets(content_lines.as_slice());
        let mut picked: Vec<String> = Vec::new();
        let mut origins: Vec<IncludedLineOrigin> = Vec::new();
        let mut j: usize = 0;
        while j < selected.len()
            invariant
                j <= selected@.len(),
                indices_view(selected@) == sel.0,
                views(content_lines@) == ls,
                starts@.len() == content_lines@.len(),
                forall|k: int|
                    0 <= k < starts@.len() ==> starts@[k] == start_offsets(line_bytes(ls))[k],
                forall|k: int| 0 <= k < sel.0.len() ==> 0 <= #[trigger] sel.0[k] < ls.len(),
                views(picked@) == chosen(ls, sel.0.take(j as int)),
                origins@.len() == j,
                forall|k: int|
                    0 <= k < j ==> (#[trigger] origins@[k]).line == sel.0[k] + 1
                        && origins@[k].offset == start_offsets(line_bytes(ls))[sel.0[k]],
            decreases selected.len() - j,
        {
            let idx = selected[j];
            assert(sel.0[j as int] == idx as int);
            assert(idx < content_lines.len());
            let line = content_lines[idx].clone();
            let ghost before = views(picked@);
            picked.push(line);
            assert(views(picked@) =~= before.push(ls[idx as int]));
            assert(sel.0.take(j + 1) =~= sel.0.take(j as int).push(sel.0[j as int]));
            assert(chosen(ls, sel.0.take(j + 1)) =~= chosen(ls, sel.0.take(j as int)).push(
                ls[idx as int],
            ));
            origins.push(IncludedLineOrigin { line: idx + 1, offset: starts[idx] });
            j = j + 1;
        }
        assert(sel.0.take(selected@.len() as int) =~= sel.0);
        let (lines, column_shift) = match self.indent {
            Some(i) => {
                let ok = Include::indent_applies(picked.as_slice());
                assert(views(picked@) == chosen(ls, sel.0));
                assert(indent_fits(views(picked@)));
                assert forall|k: int|
                    0 <= k < picked@.len() && has_content(#[trigger] picked@[k]@) implies is_char_boundary(
                    encode_utf8(picked@[k]@),
                    common_indent(views(picked@)),
                ) by {
                    assert(views(picked@)[k] == picked@[k]@);
                }
                Include::apply_indent(picked.as_slice(), i)
            },
            None => (picked, 0),
        };
        let effective = self.calculate_effective_leveloffset(current_leveloffset);
        PreparedContent {
            lines,
            origins,
            column_shift,
            effective_leveloffset: effective,
            warnings,
        }
    }

    /// The include's result from its prepared content and the file `resolved`
    /// it was read from: the selected lines with their origins; or, where the
    /// content was run through the preprocessor again (`nested`: the lines of
    /// that run's text and its level offset ranges), those lines and ranges,
    /// keeping the origins only where the run kept the number of lines.
    pub fn included_result(
        &self,
        prepared: PreparedContent,
        resolved: String,
        nested: Option<(Vec<String>, Vec<LeveloffsetRange>)>,
    ) -> (r: IncludeResult)
        ensures
            r.effective_leveloffset == prepared.effective_leveloffset,
            r.column_shift == prepared.column_shift,
            r.file matches Some(f) && f@ == resolved@,
            r.target@ == self.target_as_written@,
            r.nested_source_ranges@.len() == 0,
            match nested {
                None => {
                    &&& r.lines@ == prepared.lines@
                    &&& r.source_lines@ == prepared.origins@
                    &&& r.nested_leveloffset_ranges@.len() == 0
                },
                Some((ls, ranges)) => {
                    &&& r.lines@ == ls@
                    &&& r.nested_leveloffset_ranges@ == ranges@
                    &&& r.source_lines@ == if ls@.len() == prepared.origins@.len() {
                        prepared.origins@
                    } else {
                        Seq::<IncludedLineOrigin>::empty()
                    }
                },
            },
    {
        let (lines, nested_leveloffset_ranges, source_lines) = match nested {
            None => (prepared.lines, Vec::new(), prepared.origins),
            Some((ls, ranges)) => {
                let kept = if ls.len() == prepared.origins.len() {
                    prepared.origins
                } else {
                    Vec::new()
                };
                (ls, ranges, kept)
            },
        };
        IncludeResult {
            lines,
            effective_leveloffset: prepared.effective_leveloffset,
            nested_leveloffset_ranges,
            file: Some(resolved),
            target: owned(self.target_as_written.as_str()),
            source_lines,
            column_shift: prepared.column_shift,
            nested_source_ranges: Vec::new(),
        }
    }
}

// ----------------------------------------------------------------------------
// Confining a local target.
// ----------------------------------------------------------------------------

/// A component of a relative or absolute path.
#[derive(Debug, PartialEq, Eq)]
pub enum PathPart {
    /// `..`
    Parent,
    /// `.`
    Current,
    /// A named component.
    Normal(String),
}

/// A path component as a value: `None` for `..`, `Some(None)` for `.`,
/// `Some(Some(name))` for a name.
pub open spec fn part_view(p: PathPart) -> Option<Option<Seq<char>>> {
    match p {
        PathPart::Parent => None,
        PathPart::Current => Some(None),
        PathPart::Normal(s) => Some(Some(s@)),
    }
}

/// Path components viewed.
pub open spec fn parts_view(v: Seq<PathPart>) -> Seq<Option<Option<Seq<char>>>> {
    v.map_values(|p: PathPart| part_view(p))
}

/// Named components as path parts.
pub open spec fn named(v: Seq<Seq<char>>) -> Seq<Option<Option<Seq<char>>>> {
    v.map_values(|s: Seq<char>| Some(Some(s)))
}

/// The named components of `parts`, in order (`.` and `..` left out).
pub open spec fn names_only(parts: Seq<Option<Option<Seq<char>>>>) -> Seq<Seq<char>>
    decreases parts.len(),
{
    if parts.len() == 0 {
        Seq::empty()
    } else {
        let init = names_only(parts.drop_last());
        match parts.last() {
            Some(Some(n)) => init.push(n),
            _ => init,
        }
    }
}

/// `parts` resolved from the root without looking at the file system: `.`
/// is skipped, `..` removes the last name (none at the root), a name is
/// added.
pub open spec fn lexical(parts: Seq<Option<Option<Seq<char>>>>) -> Seq<Seq<char>>
    decreases parts.len(),
{
    if parts.len() == 0 {
        Seq::empty()
    } else {
        let init = lexical(parts.drop_last());
        match parts.last() {
            None => if init.len() > 0 {
                init.drop_last()
            } else {
                init
            },
            Some(None) => init,
            Some(Some(n)) => init.push(n),
        }
    }
}

/// Walking `parts` from `start` inside `base`: `.` is skipped, a name is
/// added, and `..` removes the last name unless that would leave `base`, in
/// which case it is refused. Gives where the walk ends and whether a `..`
/// was refused.
pub open spec fn walk(start: Seq<Seq<char>>, base: Seq<Seq<char>>, parts: Seq<
    Option<Option<Seq<char>>>,
>) -> (Seq<Seq<char>>, bool)
    decreases parts.len(),
{
    if parts.len() == 0 {
        (start, false)
    } else {
        let (at, refused) = walk(start, base, parts.drop_last());
        match parts.last() {
            None => if at == base {
                (at, true)
            } else {
                (at.drop_last(), refused)
            },
            Some(None) => (at, refused),
            Some(Some(n)) => (at.push(n), refused),
        }
    }
}

/// Why a local target was moved back inside the base directory.
#[derive(Clone, Copy, Debug, PartialEq, Eq, Structural)]
pub enum JailWarning {
    /// The target, or the including file, lies outside the base directory.
    OutsideJail,
    /// A `..` would have left the base directory.
    AncestorOfJail,
}

/// The text of a [`JailWarning`].
pub open spec fn jail_warning_text(w: JailWarning) -> Seq<char> {
    match w {
        JailWarning::OutsideJail => "include file is outside of jail; recovering automatically"@,
        JailWarning::AncestorOfJail =>
            "include file has illegal reference to ancestor of jail; recovering automatically"@,
    }
}

impl JailWarning {
    /// The warning's text (see [`jail_warning_text`]).
    pub fn message(&self) -> (r: String)
        ensures
            r@ == jail_warning_text(*self),
    {
        match self {
            JailWarning::OutsideJail => owned(
                "include file is outside of jail; recovering automatically",
            ),
            JailWarning::AncestorOfJail => owned(
                "include file has illegal reference to ancestor of jail; recovering automatically",
            ),
        }
    }
}

/// Where a local target lies, from the including file's directory `parent`
/// and the base directory `base` (both absolute and resolved, as names from
/// the root), and the warning raised. In unsafe mode the target is joined to
/// `parent` as written (an absolute one replaces it). Otherwise it is kept
/// inside `base`: an absolute target is resolved and kept when inside `base`,
/// else its names are placed under `base`; a relative one is walked from
/// `parent` without leaving `base` (see [`walk`]), or, when `parent` is
/// itself outside `base`, its names are placed under `base`.
pub open spec fn confined(
    parent: Seq<Seq<char>>,
    base: Seq<Seq<char>>,
    target: Seq<Option<Option<Seq<char>>>>,
    absolute: bool,
    safe_mode: SafeMode,
) -> (Seq<Option<Option<Seq<char>>>>, Option<JailWarning>) {
    if safe_mode is Unsafe {
        if absolute {
            (target, None)
        } else {
            (named(parent) + target, None)
        }
    } else if absolute {
        let t = lexical(target);
        if base.is_prefix_of(t) {
            (named(t), None)
        } else {
            (named(base + t), Some(JailWarning::OutsideJail))
        }
    } else if !base.is_prefix_of(parent) {
        (named(base + names_only(target)), Some(JailWarning::OutsideJail))
    } else {
        let (at, refused) = walk(parent, base, target);
        (
            named(at),
            if refused {
                Some(JailWarning::AncestorOfJail)
            } else {
                None
            },
        )
    }
}

/// Path components as names (each component a name).
fn name_parts(v: &Vec<String>) -> (r: Vec<PathPart>)
    ensures
        parts_view(r@) == named(views_of(v@)),
{
    let mut r: Vec<PathPart> = Vec::new();
    let mut i: usize = 0;
    while i < v.len()
        invariant
            i <= v@.len(),
            parts_view(r@) =~= named(views_of(v@)).take(i as int),
        decreases v.len() - i,
    {
        let ghost before = r@;
        let c = v[i].clone();
        assert(c@ == v@[i as int]@);
        r.push(PathPart::Normal(c));
        assert(parts_view(r@) =~= parts_view(before).push(Some(Some(v@[i as int]@))));
        assert(named(views_of(v@)).take(i + 1) =~= named(views_of(v@)).take(i as int).push(
            Some(Some(v@[i as int]@)),
        ));
        i = i + 1;
    }
    assert(named(views_of(v@)).take(v@.len() as int) =~= named(views_of(v@)));
    r
}

/// The character views of strings.
pub open spec fn views_of(v: Seq<String>) -> Seq<Seq<char>> {
    v.map_values(|s: String| s@)
}

/// A copy of a path component.
fn copy_part(p: &PathPart) -> (r: PathPart)
    ensures
        part_view(r) == part_view(*p),
{
    match p {
        PathPart::Parent => PathPart::Parent,
        PathPart::Current => PathPart::Current,
        PathPart::Normal(s) => PathPart::Normal(s.clone()),
    }
}

/// Whether two lists of names are equal.
fn names_eq(a: &Vec<String>, b: &Vec<String>) -> (r: bool)
    ensures
        r == (views_of(a@) == views_of(b@)),
{
    if a.len() != b.len() {
        assert(views_of(a@).len() != views_of(b@).len());
        return false;
    }
    let mut i: usize = 0;
    while i < a.len()
        invariant
            i <= a@.len(),
            a@.len() == b@.len(),
            forall|k: int| 0 <= k < i ==> a@[k]@ == b@[k]@,
        decreases a.len() - i,
    {
        if !str_eq(a[i].as_str(), b[i].as_str()) {
            assert(views_of(a@)[i as int] != views_of(b@)[i as int]);
            return false;
        }
        i = i + 1;
    }
    assert(views_of(a@) =~= views_of(b@));
    true
}

/// Whether `a` starts with the names of `p`.
fn names_prefix(p: &Vec<String>, a: &Vec<String>) -> (r: bool)
    ensures
        r == views_of(p@).is_prefix_of(views_of(a@)),
{
    if p.len() > a.len() {
        return false;
    }
    let mut i: usize = 0;
    while i < p.len()
        invariant
            i <= p@.len() <= a@.len(),
            forall|k: int| 0 <= k < i ==> p@[k]@ == a@[k]@,
        decreases p.len() - i,
    {
        if !str_eq(p[i].as_str(), a[i].as_str()) {
            assert(views_of(p@)[i as int] != views_of(a@)[i as int]);
            return false;
        }
        i = i + 1;
    }
    assert(views_of(p@) =~= views_of(a@).take(p@.len() as int));
    true
}

/// Names `v` followed by the names among `parts`.
fn append_names(v: &mut Vec<String>, parts: &Vec<PathPart>)
    ensures
        views_of(final(v)@) == views_of(old(v)@) + names_only(parts_view(parts@)),
{
    let ghost start = views_of(v@);
    let mut i: usize = 0;
    assert(parts_view(parts@).take(0) =~= Seq::<Option<Option<Seq<char>>>>::empty());
    assert(start + names_only(Seq::empty()) =~= start);
    while i < parts.len()
        invariant
            i <= parts@.len(),
            views_of(v@) == start + names_only(parts_view(parts@).take(i as int)),
        decreases parts.len() - i,
    {
        assert(parts_view(parts@).take(i + 1).drop_last() =~= parts_view(parts@).take(i as int));
        assert(parts_view(parts@).take(i + 1).last() == part_view(parts@[i as int]));
        match &parts[i] {
            PathPart::Normal(s) => {
                let ghost before = v@;
                let c = s.clone();
                assert(c@ == s@);
                v.push(c);
                assert(views_of(v@) =~= views_of(before).push(s@));
                assert(views_of(v@) =~= start + names_only(parts_view(parts@).take(i + 1)));
            },
            _ => {},
        }
        i = i + 1;
    }
    assert(parts_view(parts@).take(parts@.len() as int) =~= parts_view(parts@));
}

/// `parts` resolved from the root (see [`lexical`]).
fn lexical_exec(parts: &Vec<PathPart>) -> (r: Vec<String>)
    ensures
        views_of(r@) == lexical(parts_view(parts@)),
{
    let mut r: Vec<String> = Vec::new();
    let mut i: usize = 0;
    assert(parts_view(parts@).take(0) =~= Seq::<Option<Option<Seq<char>>>>::empty());
    assert(views_of(r@) =~= Seq::<Seq<char>>::empty());
    while i < parts.len()
        invariant
            i <= parts@.len(),
            views_of(r@) == lexical(parts_view(parts@).take(i as int)),
        decreases parts.len() - i,
    {
        let ghost before = views_of(r@);
        assert(parts_view(parts@).take(i + 1).drop_last() =~= parts_view(parts@).take(i as int));
        assert(parts_view(parts@).take(i + 1).last() == part_view(parts@[i as int]));
        match &parts[i] {
            PathPart::Parent => {
                if r.len() > 0 {
                    r.pop();
                    assert(views_of(r@) =~= before.drop_last());
                }
            },
            PathPart::Current => {},
            PathPart::Normal(s) => {
                r.push(s.clone());
                assert(views_of(r@) =~= before.push(s@));
            },
        }
        i = i + 1;
    }
    assert(parts_view(parts@).take(parts@.len() as int) =~= parts_view(parts@));
    r
}

proof fn lemma_walk_stays_inside(
    start: Seq<Seq<char>>,
    base: Seq<Seq<char>>,
    parts: Seq<Option<Option<Seq<char>>>>,
)
    requires
        base.is_prefix_of(start),
    ensures
        base.is_prefix_of(walk(start, base, parts).0),
    decreases parts.len(),
{
    if parts.len() > 0 {
        lemma_walk_stays_inside(start, base, parts.drop_last());
        let at = walk(start, base, parts.drop_last()).0;
        match parts.last() {
            None => if at != base {
                assert(at.len() > base.len()) by {
                    if at.len() == base.len() {
                        assert(at =~= base);
                    }
                }
                assert(base.is_prefix_of(at.drop_last()));
            },
            Some(None) => {},
            Some(Some(n)) => {
                assert(base.is_prefix_of(at.push(n)));
            },
        }
    }
}

/// Where a local target lies, and the warning raised (see [`confined`]). In
/// every mode but unsafe, the result is names only and starts with the base
/// directory.
pub fn confine_target(
    parent: &Vec<String>,
    base_dir: &Vec<String>,
    target: &Vec<PathPart>,
    absolute: bool,
    safe_mode: SafeMode,
) -> (r: (Vec<PathPart>, Option<JailWarning>))
    ensures
        (parts_view(r.0@), r.1) == confined(
            views_of(parent@),
            views_of(base_dir@),
            parts_view(target@),
            absolute,
            safe_mode,
        ),
        !(safe_mode is Unsafe) ==> exists|names: Seq<Seq<char>>|
            parts_view(r.0@) == named(names) && views_of(base_dir@).is_prefix_of(names),
{
    let ghost tv = parts_view(target@);
    let ghost pv = views_of(parent@);
    let ghost bv = views_of(base_dir@);
    if let SafeMode::Unsafe = safe_mode {
        let mut out: Vec<PathPart> = if absolute {
            Vec::new()
        } else {
            name_parts(parent)
        };
        let ghost head = parts_view(out@);
        let mut i: usize = 0;
        while i < target.len()
            invariant
                i <= target@.len(),
                tv == parts_view(target@),
                parts_view(out@) =~= head + tv.take(i as int),
            decreases target.len() - i,
        {
            let ghost before = out@;
            let c = copy_part(&target[i]);
            out.push(c);
            assert(parts_view(out@) =~= parts_view(before).push(tv[i as int]));
            assert(tv.take(i + 1) =~= tv.take(i as int).push(tv[i as int]));
            i = i + 1;
        }
        assert(tv.take(target@.len() as int) =~= tv);
        proof {
            if absolute {
                assert(head =~= Seq::<Option<Option<Seq<char>>>>::empty());
                assert(head + tv =~= tv);
            }
        }
        return (out, None);
    }
    if absolute {
        let t = lexical_exec(target);
        if names_prefix(base_dir, &t) {
            let out = name_parts(&t);
            return (out, None);
        }
        let mut names = base_dir.clone();
        let mut k: usize = 0;
        let ghost b0 = views_of(names@);
        assert(b0 == bv);
        while k < t.len()
            invariant
                k <= t@.len(),
                views_of(names@) =~= bv + views_of(t@).take(k as int),
            decreases t.len() - k,
        {
            let ghost before = names@;
            let c = t[k].clone();
            assert(c@ == t@[k as int]@);
            names.push(c);
            assert(views_of(names@) =~= views_of(before).push(t@[k as int]@));
            assert(views_of(t@).take(k + 1) =~= views_of(t@).take(k as int).push(t@[k as int]@));
            k = k + 1;
        }
        assert(views_of(t@).take(t@.len() as int) =~= views_of(t@));
        let out = name_parts(&names);
        assert(bv.is_prefix_of(views_of(names@)));
        return (out, Some(JailWarning::OutsideJail));
    }
    if !names_prefix(base_dir, parent) {
        let mut names = base_dir.clone();
        assert(views_of(names@) == bv);
        append_names(&mut names, target);
        let out = name_parts(&names);
        assert(bv.is_prefix_of(views_of(names@)));
        return (out, Some(JailWarning::OutsideJail));
    }
    let mut at = parent.clone();
    assert(views_of(at@) == pv);
    let mut refused = false;
    let mut i: usize = 0;
    assert(tv.take(0) =~= Seq::<Option<Option<Seq<char>>>>::empty());
    while i < target.len()
        invariant
            i <= target@.len(),
            tv == parts_view(target@),
            bv == views_of(base_dir@),
            pv == views_of(parent@),
            bv.is_prefix_of(pv),
            (views_of(at@), refused) == walk(pv, bv, tv.take(i as int)),
        decreases target.len() - i,
    {
        proof {
            lemma_walk_stays_inside(pv, bv, tv.take(i as int));
        }
        assert(tv.take(i + 1).drop_last() =~= tv.take(i as int));
        assert(tv.take(i + 1).last() == part_view(target@[i as int]));
        let ghost before = views_of(at@);
        match &target[i] {
            PathPart::Parent => {
                if names_eq(&at, base_dir) {
                    refused = true;
                } else {
                    assert(before.len() > bv.len()) by {
                        if before.len() == bv.len() {
                            assert(before =~= bv);
                        }
                    }
                    at.pop();
                    assert(views_of(at@) =~= before.drop_last());
                }
            },
            PathPart::Current => {},
            PathPart::Normal(s) => {
                let c = s.clone();
                assert(c@ == s@);
                at.push(c);
                assert(views_of(at@) =~= before.push(s@));
            },
        }
        i = i + 1;
    }
    assert(tv.take(target@.len() as int) =~= tv);
    proof {
        lemma_walk_stays_inside(pv, bv, tv);
    }
    let out = name_parts(&at);
    (out, if refused {
        Some(JailWarning::AncestorOfJail)
    } else {
        None
    })
}

// ----------------------------------------------------------------------------
// Whether the content is AsciiDoc.
// ----------------------------------------------------------------------------

/// The extension of a file name: the text after its last `.`, when there is
/// a `.` after the first character (`..` has none).
pub open spec fn extension_of(name: Seq<char>) -> Option<Seq<char>> {
    let pieces = split_on(name, '.');
    if name == ".."@ || pieces.len() < 2 || (pieces.len() == 2 && pieces[0].len() == 0) {
        None
    } else {
        Some(pieces.last())
    }
}

/// Whether a path reads the same on every platform: it holds no `\` and no
/// `:`, and its text after the last `/` is a normal component.
pub open spec fn portable_path(p: Seq<char>) -> bool {
    !p.contains('\\') && !p.contains(':') && plain_last_piece(p)
}

/// `std::path::Path::extension`: the extension of the path's file name, as
/// text. Stated exactly only for paths that read the same on every platform
/// (see [`portable_path`]): the extension of the text after the last `/`.
#[verifier::external_body]
fn path_extension(path: &str) -> (r: Option<String>)
    ensures
        portable_path(path@) ==> match extension_of(last_piece(path@)) {
            Some(e) => r matches Some(x) && x@ == e,
            None => r is None,
        },
{
    match std::path::Path::new(path).extension() {
        Some(extension) => Some(extension.to_string_lossy().into_owned()),
        None => None,
    }
}

/// The path of the URL that `original` spells.
pub uninterp spec fn url_path(original: Seq<char>) -> Seq<char>;

/// `url::Url::path`: the path of the URL, which is a function of the text it
/// was parsed from (the URL of a [`SourceUrl`] is always parsed from it).
#[verifier::external_body]
fn source_url_path(u: &SourceUrl) -> (r: String)
    ensures
        r@ == url_path(u@),
{
    u.url().path().to_string()
}

/// Whether an extension marks AsciiDoc: `adoc`, `asciidoc`, `ad`, `asc` or
/// `txt`.
pub open spec fn asciidoc_extension(e: Option<Seq<char>>) -> bool {
    match e {
        Some(x) => x == "adoc"@ || x == "asciidoc"@ || x == "ad"@ || x == "asc"@ || x == "txt"@,
        None => false,
    }
}

fn is_asciidoc_extension(e: &Option<String>) -> (r: bool)
    ensures
        r == asciidoc_extension(
            match e {
                Some(x) => Some(x@),
                None => None,
            },
        ),
{
    match e {
        Some(x) => str_eq(x.as_str(), "adoc") || str_eq(x.as_str(), "asciidoc") || str_eq(
            x.as_str(),
            "ad",
        ) || str_eq(x.as_str(), "asc") || str_eq(x.as_str(), "txt"),
        None => false,
    }
}

/// Whether a target's content is AsciiDoc, by the extension of its path:
/// a local path's own, a URL's path's. A URI that is not read has none.
/// Stated for paths that read the same on every platform.
pub fn target_is_asciidoc(target: &Target) -> (r: bool)
    ensures
        match *target {
            Target::Path(p) => portable_path(p@) ==> r == asciidoc_extension(
                extension_of(last_piece(p@)),
            ),
            Target::Url(u) => crate::inclusion::url_parses(u@) && portable_path(url_path(u@)) ==> r
                == asciidoc_extension(extension_of(last_piece(url_path(u@)))),
            Target::UnsupportedUri(_) => !r,
        },
{
    match target {
        Target::Path(p) => {
            let e = path_extension(p.as_str());
            is_asciidoc_extension(&e)
        },
        Target::Url(u) => match SourceUrl::new(u.as_str()) {
            Ok(parsed) => {
                let path = source_url_path(&parsed);
                let e = path_extension(path.as_str());
                is_asciidoc_extension(&e)
            },
            Err(_) => false,
        },
        Target::UnsupportedUri(_) => false,
    }
}

} // verus!
