//! Line-comment adjacency tracking for the preprocessor.
//!
//! A `//` line comment sitting directly against preceding block content (no
//! blank line) would otherwise be absorbed into that paragraph's text, so it
//! is dropped. A comment that stands alone (after a blank line, a title, a
//! lone `+` continuation marker, or another comment) is kept. Comments inside
//! verbatim blocks are kept, and so are `tag::` / `end::` directives.
use vstd::prelude::*;

use crate::lines::{lines_of, split_lines, views};
use crate::tag::{directive_spec, is_tag_directive_line};
use crate::text::{
    chars_of, contains_seq, ends_with, starts_with, str_contains, str_ends_with, str_eq,
    str_starts_with, string_from_chars, trim, trim_str,
};

verus! {

/// The number of leading characters of `s` equal to `c`.
pub open spec fn run_len(s: Seq<char>, c: char) -> nat
    decreases s.len(),
{
    if s.len() > 0 && s[0] == c {
        1 + run_len(s.drop_first(), c)
    } else {
        0
    }
}

proof fn lemma_run_len(s: Seq<char>, c: char)
    ensures
        run_len(s, c) <= s.len(),
        forall|k: int| 0 <= k < run_len(s, c) ==> s[k] == c,
        run_len(s, c) < s.len() ==> s[run_len(s, c) as int] != c,
    decreases s.len(),
{
    if s.len() > 0 && s[0] == c {
        lemma_run_len(s.drop_first(), c);
        assert forall|k: int| 0 <= k < run_len(s, c) implies s[k] == c by {
            if k > 0 {
                assert(s[k] == s.drop_first()[k - 1]);
            }
        }
        if run_len(s, c) < s.len() {
            assert(s[run_len(s, c) as int] == s.drop_first()[run_len(s.drop_first(), c) as int]);
        }
    }
}

/// The number of leading characters of `v` equal to `c`.
fn run_len_exec(v: &[char], c: char) -> (r: usize)
    ensures
        r == run_len(v@, c),
{
    let mut i: usize = 0;
    proof {
        assert(v@.skip(0) =~= v@);
    }
    while i < v.len() && v[i] == c
        invariant
            i <= v@.len(),
            run_len(v@, c) == i + run_len(v@.skip(i as int), c),
        decreases v.len() - i,
    {
        assert(v@.skip(i as int).drop_first() =~= v@.skip(i + 1));
        i = i + 1;
    }
    proof {
        if i < v@.len() {
            assert(v@.skip(i as int)[0] == v@[i as int]);
        }
    }
    i
}

/// The delimiter of a verbatim or raw block that `line` opens or closes, if
/// it is one: three backticks (a code fence), or a run of four or more `-`,
/// `.` or `+` (the whole run), after trimming.
pub open spec fn verbatim_delimiter(line: Seq<char>) -> Option<Seq<char>> {
    let t = trim(line);
    if starts_with(t, "```"@) {
        Some("```"@)
    } else if t.len() > 0 && (t[0] == '-' || t[0] == '.' || t[0] == '+') && run_len(t, t[0]) >= 4 {
        Some(t.take(run_len(t, t[0]) as int))
    } else {
        None
    }
}

/// The verbatim or raw block delimiter `line` holds (see [`verbatim_delimiter`]).
pub fn is_verbatim_delimiter(line: &str) -> (r: Option<String>)
    ensures
        match verbatim_delimiter(line@) {
            Some(d) => r matches Some(s) && s@ == d,
            None => r is None,
        },
{
    let trimmed = trim_str(line);
    if str_starts_with(trimmed, "```") {
        return Some(crate::text::owned("```"));
    }
    let v = chars_of(trimmed);
    if v.len() == 0 {
        return None;
    }
    let first = v[0];
    if first != '-' && first != '.' && first != '+' {
        return None;
    }
    let n = run_len_exec(v.as_slice(), first);
    proof {
        lemma_run_len(v@, first);
    }
    if n >= 4 {
        let d = string_from_chars(&v[0..n]);
        assert(v@.subrange(0, n as int) =~= v@.take(n as int));
        Some(d)
    } else {
        None
    }
}

/// A `//` line comment, but not `///` (literal text) or `////` (a block
/// comment delimiter). Not trimmed: an indented `  //` is not a comment.
pub open spec fn is_line_comment_spec(line: Seq<char>) -> bool {
    starts_with(line, "//"@) && !starts_with(line, "///"@)
}

/// Whether `line` is a line comment (see [`is_line_comment_spec`]).
pub fn is_line_comment(line: &str) -> (r: bool)
    ensures
        r == is_line_comment_spec(line@),
{
    str_starts_with(line, "//") && !str_starts_with(line, "///")
}

/// A character that underlines a two-line (Setext) title.
pub open spec fn is_setext_char(c: char) -> bool {
    c == '=' || c == '-' || c == '~' || c == '^' || c == '+'
}

/// A Setext underline: a non-empty run of one underline character.
pub open spec fn is_setext_underline_spec(line: Seq<char>) -> bool {
    line.len() > 0 && is_setext_char(line[0]) && forall|k: int|
        0 <= k < line.len() ==> #[trigger] line[k] == line[0]
}

/// Whether `line` is a Setext underline (see [`is_setext_underline_spec`]).
pub fn is_setext_underline(line: &str) -> (r: bool)
    ensures
        r == is_setext_underline_spec(line@),
{
    let v = chars_of(line);
    if v.len() == 0 {
        return false;
    }
    let first = v[0];
    if !(first == '=' || first == '-' || first == '~' || first == '^' || first == '+') {
        return false;
    }
    let n = run_len_exec(v.as_slice(), first);
    proof {
        lemma_run_len(v@, first);
    }
    n == v.len()
}

/// A document or section title: `=` signs followed by a space, or, with
/// Setext titles on, an underline.
pub open spec fn is_title_line_spec(line: Seq<char>, setext: bool) -> bool {
    let n = run_len(line, '=');
    (n > 0 && n < line.len() && line[n as int] == ' ') || (setext && is_setext_underline_spec(line))
}

/// Whether `line` is a title line (see [`is_title_line_spec`]).
pub fn is_title_line(line: &str, setext: bool) -> (r: bool)
    ensures
        r == is_title_line_spec(line@, setext),
{
    let v = chars_of(line);
    let n = run_len_exec(v.as_slice(), '=');
    proof {
        lemma_run_len(v@, '=');
    }
    if n > 0 && n < v.len() && v[n] == ' ' {
        return true;
    }
    setext && is_setext_underline(line)
}

/// Content that a directly following line comment would be absorbed into:
/// not blank, not a comment, not a lone `+`, not a title.
pub open spec fn is_attaching_content_spec(line: Seq<char>, setext: bool) -> bool {
    trim(line).len() > 0 && !is_line_comment_spec(line) && trim(line) != "+"@
        && !is_title_line_spec(line, setext)
}

/// Whether `line` is attaching content (see [`is_attaching_content_spec`]).
pub fn is_attaching_content(line: &str, setext: bool) -> (r: bool)
    ensures
        r == is_attaching_content_spec(line@, setext),
{
    let t = trim_str(line);
    t.unicode_len() > 0 && !is_line_comment(line) && !str_eq(t, "+") && !is_title_line(
        line,
        setext,
    )
}

/// The running line context for deciding whether an adjacent line comment
/// is dropped.
#[derive(Debug)]
pub struct CommentScanner {
    /// The delimiter of the open verbatim block, if inside one.
    pub verbatim: Option<String>,
    /// Whether the previous emitted line is content a comment would merge into.
    pub prev_attaches: bool,
    /// Whether Setext titles are active.
    pub setext: bool,
}

/// The mathematical state of a [`CommentScanner`].
pub struct ScannerState {
    pub verbatim: Option<Seq<char>>,
    pub prev_attaches: bool,
    pub setext: bool,
}

impl View for CommentScanner {
    type V = ScannerState;

    open spec fn view(&self) -> ScannerState {
        ScannerState {
            verbatim: match self.verbatim {
                Some(d) => Some(d@),
                None => None,
            },
            prev_attaches: self.prev_attaches,
            setext: self.setext,
        }
    }
}

/// The open verbatim block after seeing `line`: a delimiter equal to the open
/// one closes it; any delimiter opens one when none is open; other lines and
/// other delimiters change nothing.
pub open spec fn verbatim_after(open: Option<Seq<char>>, line: Seq<char>) -> Option<Seq<char>> {
    match verbatim_delimiter(line) {
        Some(d) => if open == Some(d) {
            None
        } else if open is None {
            Some(d)
        } else {
            open
        },
        None => open,
    }
}

/// Whether a scanner in state `s` drops `line`: an adjacent line comment
/// outside verbatim blocks that is not a tag directive.
pub open spec fn drops_spec(s: ScannerState, line: Seq<char>) -> bool {
    s.verbatim is None && is_line_comment_spec(line) && directive_spec(line) is None
        && s.prev_attaches
}

impl CommentScanner {
    /// Start as if at a blank boundary, so a leading comment is kept.
    pub fn new(setext: bool) -> (r: Self)
        ensures
            r@ == (ScannerState { verbatim: None, prev_attaches: false, setext }),
    {
        CommentScanner { verbatim: None, prev_attaches: false, setext }
    }

    /// Whether `line` is a verbatim or raw block delimiter; it toggles the
    /// open block (see [`verbatim_after`]).
    pub fn at_verbatim_delimiter(&mut self, line: &str) -> (r: bool)
        ensures
            r == verbatim_delimiter(line@) is Some,
            final(self)@ == (ScannerState {
                verbatim: verbatim_after(old(self)@.verbatim, line@),
                ..old(self)@
            }),
    {
        match is_verbatim_delimiter(line) {
            Some(delimiter) => {
                let same = match &self.verbatim {
                    Some(open) => str_eq(open.as_str(), delimiter.as_str()),
                    None => false,
                };
                if same {
                    self.verbatim = None;
                } else if self.verbatim.is_none() {
                    self.verbatim = Some(delimiter);
                }
                true
            },
            None => false,
        }
    }

    /// Whether `line` is an adjacent line comment that is dropped (see [`drops_spec`]).
    pub fn drops(&self, line: &str) -> (r: bool)
        ensures
            r == drops_spec(self@, line@),
    {
        self.verbatim.is_none() && is_line_comment(line) && !is_tag_directive_line(line)
            && self.prev_attaches
    }

    /// Record an emitted `line` so the next decision sees it.
    pub fn record(&mut self, line: &str)
        ensures
            final(self)@ == (ScannerState {
                prev_attaches: is_attaching_content_spec(line@, old(self)@.setext),
                ..old(self)@
            }),
    {
        self.prev_attaches = is_attaching_content(line, self.setext);
    }
}

/// A line that the preprocessor would rewrite regardless of its context: an
/// escaped directive, a continued attribute entry, or an `include`,
/// `ifdef`, `ifndef` or `ifeval` directive.
pub open spec fn rewritten_line(line: Seq<char>) -> bool {
    ||| starts_with(line, "\\include"@)
    ||| starts_with(line, "\\ifdef"@)
    ||| starts_with(line, "\\ifndef"@)
    ||| starts_with(line, "\\ifeval"@)
    ||| (starts_with(line, ":"@) && (ends_with(line, " + \\"@) || ends_with(line, " \\"@)))
    ||| (ends_with(line, "]"@) && !starts_with(line, "["@) && contains_seq(line, "::"@) && (
    starts_with(line, "include"@) || starts_with(line, "ifdef"@) || starts_with(line, "ifndef"@)
        || starts_with(line, "ifeval"@)))
}

/// The scanner state after the first `n` lines, none of them rewritten.
pub open spec fn scan_state(lines: Seq<Seq<char>>, n: int, setext: bool) -> ScannerState
    decreases n,
{
    if n <= 0 {
        ScannerState { verbatim: None, prev_attaches: false, setext }
    } else {
        let s = scan_state(lines, n - 1, setext);
        let line = lines[n - 1];
        if verbatim_delimiter(line) is Some {
            ScannerState {
                verbatim: verbatim_after(s.verbatim, line),
                prev_attaches: is_attaching_content_spec(line, setext),
                setext,
            }
        } else {
            ScannerState { prev_attaches: is_attaching_content_spec(line, setext), ..s }
        }
    }
}

/// Whether line `k` would be rewritten or dropped.
pub open spec fn line_changes(lines: Seq<Seq<char>>, k: int, setext: bool) -> bool {
    rewritten_line(lines[k]) || (verbatim_delimiter(lines[k]) is None && drops_spec(
        scan_state(lines, k, setext),
        lines[k],
    ))
}

/// Whether preprocessing would leave normalised `text` unchanged: no line is
/// rewritten and no adjacent comment is dropped.
pub open spec fn passes_through(text: Seq<char>, setext: bool) -> bool {
    let lines = split_lines(text);
    forall|k: int| 0 <= k < lines.len() ==> !line_changes(lines, k, setext)
}

/// Whether preprocessing would leave the normalised `text` unchanged (see
/// [`passes_through`]), so it can be used as it is.
pub fn try_pass_through(text: &str, setext: bool) -> (r: bool)
    ensures
        r == passes_through(text@, setext),
{
    let lines = lines_of(text);
    let ghost ls = views(lines@);
    let mut scanner = CommentScanner::new(setext);
    let mut i: usize = 0;
    while i < lines.len()
        invariant
            ls == views(lines@),
            ls == split_lines(text@),
            i <= lines@.len(),
            scanner@ == scan_state(ls, i as int, setext),
            scanner.setext == setext,
            forall|k: int| 0 <= k < i ==> !line_changes(ls, k, setext),
        decreases lines.len() - i,
    {
        let line = lines[i].as_str();
        assert(ls[i as int] == line@);
        let escaped = str_starts_with(line, "\\include") || str_starts_with(line, "\\ifdef")
            || str_starts_with(line, "\\ifndef") || str_starts_with(line, "\\ifeval");
        let continued = str_starts_with(line, ":") && (str_ends_with(line, " + \\")
            || str_ends_with(line, " \\"));
        let directive = str_ends_with(line, "]") && !str_starts_with(line, "[") && str_contains(
            line,
            "::",
        ) && (str_starts_with(line, "include") || str_starts_with(line, "ifdef")
            || str_starts_with(line, "ifndef") || str_starts_with(line, "ifeval"));
        if escaped || continued || directive {
            assert(line_changes(ls, i as int, setext));
            return false;
        }
        if scanner.at_verbatim_delimiter(line) {
            scanner.record(line);
        } else {
            if scanner.drops(line) {
                assert(line_changes(ls, i as int, setext));
                return false;
            }
            scanner.record(line);
        }
        i = i + 1;
    }
    true
}

} // verus!
