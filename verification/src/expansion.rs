//! Line-by-line preprocessing: conditionals, attribute continuations, line
//! comments, escaped directives and includes, with the byte ranges that map
//! the output back to its sources.
//!
//! Reading an included target is outside work: [`Expansion::run`] stops at
//! each include directive and hands it out; the caller reads the target and
//! hands the content back with [`Expansion::include_done`]. The same holds of
//! an `ifeval` expression, which the caller evaluates.
use vstd::prelude::*;

use crate::attributes::{AttributeValue, DocumentAttributes, SpecAttributeValue};
use crate::comment::{drops_spec, verbatim_after, verbatim_delimiter, CommentScanner, ScannerState};
use crate::conditional::{
    conditional_line, conditions_match, endif_line, error_at, names_hold, parse_endif, parse_line,
    Condition, Conditional, ConditionalError, Operator, SourceLocation, SpecCondition,
    SpecConditional,
};
use crate::location::{Location, Position};
use crate::directive::{lemma_encode_split, link_fallback_line, link_fallback_text};
use crate::preprocessor::{continuation, join_continued_attribute};
use crate::inclusion::{byte_lens, joined_len, lemma_joined_len_prefix};
use crate::comment::{line_changes, passes_through, rewritten_line, scan_state, try_pass_through};
use crate::lines::{join_lines, join_with_newlines, lines_of, normalize, normalize_spec, split_lines, views};
use crate::substitution::{header_seq, substitute, substitute_spec, HEADER};
use crate::text::{
    char_slice, chars_of, contains_seq, ends_with, has_char, split_on, split_str, starts_with,
    str_contains, str_ends_with, str_starts_with, string_from_chars, trim, trim_end, trim_start,
    trim_str,
};
use crate::location::{LeveloffsetRange, SourceRange};
use crate::text::{is_ws, owned, ws_suffix_len};
use vstd::string::StringSliceAdditionalSpecFns;
use vstd::utf8::encode_utf8;

verus! {

// ----------------------------------------------------------------------------
// The output being built.
// ----------------------------------------------------------------------------

/// A contiguous run of output taken from consecutive lines of the primary
/// input, mapped back to it by one source range.
#[derive(Debug, Clone, Copy)]
pub struct MainFileRun {
    pub out_start: usize,
    pub src_start_line: usize,
    pub src_start_offset: usize,
}

/// The output lines with their byte bookkeeping.
#[derive(Debug)]
pub struct OutputState {
    /// The output, one entry per emitted line (an entry may span several
    /// lines of a collapsed attribute entry); the text joins them with `\n`.
    pub lines: Vec<String>,
    /// The byte length of the output so far, a line break after each entry.
    pub byte_offset: usize,
    pub leveloffset_ranges: Vec<LeveloffsetRange>,
    pub source_ranges: Vec<SourceRange>,
    /// The file the primary input was read from.
    pub source_file: Option<String>,
    /// The byte offset of each line of the primary input (line `n` at index `n - 1`).
    pub src_line_starts: Vec<usize>,
    /// The open run of primary-input lines.
    pub run: Option<MainFileRun>,
    /// The source line that continues the open run.
    pub run_expected_src_line: usize,
}

/// The UTF-8 length of `s`.
pub open spec fn text_bytes(s: Seq<char>) -> nat {
    encode_utf8(s).len()
}

/// The byte offset of 1-based `line` among `starts`: 0 for a line that is
/// not there.
pub open spec fn offset_of_line(starts: Seq<usize>, line: usize) -> usize {
    let i = if line == 0 {
        0
    } else {
        line - 1
    };
    if i < starts.len() {
        starts[i]
    } else {
        0
    }
}

/// Whether `r` maps `start..end` of the output to `file` (with the include
/// chain `chain`) from `line` and byte `offset` on, shifted `shift` columns.
pub open spec fn range_is(
    r: SourceRange,
    start: usize,
    end: usize,
    file: Option<String>,
    chain: Seq<Seq<char>>,
    line: usize,
    offset: usize,
    shift: isize,
) -> bool {
    &&& r.start_offset == start
    &&& r.end_offset == end
    &&& r.file == file
    &&& views(r.file_chain@) == chain
    &&& r.start_line == line
    &&& r.source_start_offset == offset
    &&& r.column_shift == shift
}

/// The range that closing `run` at `end` records for `file`.
pub open spec fn run_range(r: SourceRange, run: MainFileRun, end: usize, file: Option<String>) -> bool {
    range_is(r, run.out_start, end, file, Seq::empty(), run.src_start_line, run.src_start_offset, 0)
}

impl OutputState {
    /// The byte offset is the length of the output so far.
    pub open spec fn wf(&self) -> bool {
        self.byte_offset == joined_len(byte_lens(self.lines@))
    }

    /// Whether only the run bookkeeping and the source ranges may differ
    /// between `self` and `other`.
    pub open spec fn same_output(&self, other: &Self) -> bool {
        &&& self.lines == other.lines
        &&& self.byte_offset == other.byte_offset
        &&& self.leveloffset_ranges == other.leveloffset_ranges
        &&& self.source_file == other.source_file
        &&& self.src_line_starts == other.src_line_starts
    }

    /// A state with nothing emitted for a primary input whose lines start at
    /// `src_line_starts`.
    pub fn new(source_file: Option<String>, src_line_starts: Vec<usize>) -> (r: Self)
        ensures
            r.wf(),
            r.lines@.len() == 0,
            r.leveloffset_ranges@.len() == 0,
            r.source_ranges@.len() == 0,
            r.source_file == source_file,
            r.src_line_starts == src_line_starts,
            r.run is None,
            r.run_expected_src_line == 1,
    {
        OutputState {
            lines: Vec::new(),
            byte_offset: 0,
            leveloffset_ranges: Vec::new(),
            source_ranges: Vec::new(),
            source_file,
            src_line_starts,
            run: None,
            run_expected_src_line: 1,
        }
    }

    /// The byte offset of 1-based source `line` (see [`offset_of_line`]).
    pub fn src_offset_of_line(&self, line: usize) -> (r: usize)
        ensures
            r == offset_of_line(self.src_line_starts@, line),
    {
        let i = if line == 0 {
            0
        } else {
            line - 1
        };
        if i < self.src_line_starts.len() {
            self.src_line_starts[i]
        } else {
            0
        }
    }

    /// Record a source range.
    pub fn push_source_range(
        &mut self,
        start_offset: usize,
        end_offset: usize,
        file: Option<String>,
        file_chain: Vec<String>,
        start_line: usize,
        source_start_offset: usize,
        column_shift: isize,
    )
        ensures
            final(self).same_output(old(self)),
            final(self).run == old(self).run,
            final(self).run_expected_src_line == old(self).run_expected_src_line,
            final(self).source_ranges@.len() == old(self).source_ranges@.len() + 1,
            final(self).source_ranges@.drop_last() == old(self).source_ranges@,
            range_is(
                final(self).source_ranges@.last(),
                start_offset,
                end_offset,
                file,
                views(file_chain@),
                start_line,
                source_start_offset,
                column_shift,
            ),
    {
        self.source_ranges.push(
            SourceRange {
                start_offset,
                end_offset,
                file,
                file_chain,
                start_line,
                source_start_offset,
                column_shift,
            },
        );
        assert(self.source_ranges@.drop_last() =~= old(self).source_ranges@);
    }

    /// A copy of the source file name.
    fn source_file_copy(&self) -> (r: Option<String>)
        ensures
            r == self.source_file,
    {
        match &self.source_file {
            Some(f) => Some(f.clone()),
            None => None,
        }
    }

    /// Close the open run, recording its span as a primary-input range when
    /// it emitted anything.
    pub fn flush_run(&mut self)
        ensures
            final(self).same_output(old(self)),
            final(self).run is None,
            final(self).run_expected_src_line == old(self).run_expected_src_line,
            match old(self).run {
                Some(run) => if old(self).byte_offset > run.out_start {
                    &&& final(self).source_ranges@.len() == old(self).source_ranges@.len() + 1
                    &&& final(self).source_ranges@.drop_last() == old(self).source_ranges@
                    &&& run_range(
                        final(self).source_ranges@.last(),
                        run,
                        old(self).byte_offset,
                        old(self).source_file,
                    )
                } else {
                    final(self).source_ranges == old(self).source_ranges
                },
                None => final(self).source_ranges == old(self).source_ranges,
            },
    {
        match self.run.take() {
            Some(run) => {
                if self.byte_offset > run.out_start {
                    let file = self.source_file_copy();
                    let chain: Vec<String> = Vec::new();
                    assert(views(chain@) =~= Seq::<Seq<char>>::empty());
                    self.push_source_range(
                        run.out_start,
                        self.byte_offset,
                        file,
                        chain,
                        run.src_start_line,
                        run.src_start_offset,
                        0,
                    );
                }
            },
            None => {},
        }
    }

    /// Account one source line emitted as one output line: close the open
    /// run when the line does not continue it, open one when none is open.
    pub fn note_source_line(&mut self, src_line: usize)
        requires
            src_line < usize::MAX,
        ensures
            final(self).same_output(old(self)),
            final(self).run_expected_src_line == src_line + 1,
            ({
                let breaks = old(self).run is Some && src_line != old(self).run_expected_src_line;
                &&& breaks ==> match old(self).run {
                    Some(run) => if old(self).byte_offset > run.out_start {
                        &&& final(self).source_ranges@.len() == old(self).source_ranges@.len() + 1
                        &&& final(self).source_ranges@.drop_last() == old(self).source_ranges@
                        &&& run_range(
                            final(self).source_ranges@.last(),
                            run,
                            old(self).byte_offset,
                            old(self).source_file,
                        )
                    } else {
                        final(self).source_ranges == old(self).source_ranges
                    },
                    None => true,
                }
                &&& !breaks ==> final(self).source_ranges == old(self).source_ranges
                &&& final(self).run == if breaks || old(self).run is None {
                    Some(
                        MainFileRun {
                            out_start: old(self).byte_offset,
                            src_start_line: src_line,
                            src_start_offset: offset_of_line(old(self).src_line_starts@, src_line),
                        },
                    )
                } else {
                    old(self).run
                }
            }),
    {
        if self.run.is_some() && src_line != self.run_expected_src_line {
            self.flush_run();
        }
        if self.run.is_none() {
            let offset = self.src_offset_of_line(src_line);
            self.run = Some(
                MainFileRun { out_start: self.byte_offset, src_start_line: src_line, src_start_offset: offset },
            );
        }
        self.run_expected_src_line = src_line + 1;
    }

    /// Emit a line that is not an unchanged line of the primary input.
    pub fn push_line(&mut self, line: String)
        requires
            old(self).wf(),
            old(self).byte_offset + text_bytes(line@) + 1 <= usize::MAX,
        ensures
            final(self).wf(),
            final(self).lines@ == old(self).lines@.push(line),
            final(self).byte_offset == old(self).byte_offset + text_bytes(line@) + 1,
            final(self).leveloffset_ranges == old(self).leveloffset_ranges,
            final(self).source_ranges == old(self).source_ranges,
            final(self).source_file == old(self).source_file,
            final(self).src_line_starts == old(self).src_line_starts,
            final(self).run == old(self).run,
            final(self).run_expected_src_line == old(self).run_expected_src_line,
    {
        let n = line.as_str().len();
        assert(n == text_bytes(line@));
        let ghost before = self.lines@;
        self.byte_offset = self.byte_offset + n + 1;
        self.lines.push(line);
        proof {
            let lens = byte_lens(self.lines@);
            assert(lens.drop_last() =~= byte_lens(before));
            assert(lens.last() == text_bytes(line@));
        }
    }

    /// Emit an unchanged line of the primary input (source line `src_line`).
    pub fn push_source_line(&mut self, line: &str, src_line: usize)
        requires
            old(self).wf(),
            src_line < usize::MAX,
            old(self).byte_offset + text_bytes(line@) + 1 <= usize::MAX,
        ensures
            final(self).wf(),
            final(self).lines@.len() == old(self).lines@.len() + 1,
            final(self).lines@.drop_last() == old(self).lines@,
            final(self).lines@.last()@ == line@,
            final(self).byte_offset == old(self).byte_offset + text_bytes(line@) + 1,
            final(self).leveloffset_ranges == old(self).leveloffset_ranges,
            final(self).source_file == old(self).source_file,
            final(self).src_line_starts == old(self).src_line_starts,
            final(self).run_expected_src_line == src_line + 1,
            ({
                let breaks = old(self).run is Some && src_line != old(self).run_expected_src_line;
                &&& breaks ==> match old(self).run {
                    Some(run) => if old(self).byte_offset > run.out_start {
                        &&& final(self).source_ranges@.len() == old(self).source_ranges@.len() + 1
                        &&& final(self).source_ranges@.drop_last() == old(self).source_ranges@
                        &&& run_range(
                            final(self).source_ranges@.last(),
                            run,
                            old(self).byte_offset,
                            old(self).source_file,
                        )
                    } else {
                        final(self).source_ranges == old(self).source_ranges
                    },
                    None => true,
                }
                &&& !breaks ==> final(self).source_ranges == old(self).source_ranges
                &&& final(self).run == if breaks || old(self).run is None {
                    Some(
                        MainFileRun {
                            out_start: old(self).byte_offset,
                            src_start_line: src_line,
                            src_start_offset: offset_of_line(old(self).src_line_starts@, src_line),
                        },
                    )
                } else {
                    old(self).run
                }
            }),
    {
        self.note_source_line(src_line);
        let ghost before = self.lines@;
        self.push_line(owned(line));
        assert(self.lines@.drop_last() =~= before);
    }

    /// Emit collapsed or synthesized content as a range of its own, anchored
    /// at source line `src_start_line`: the open run is closed first.
    pub fn push_chunk(&mut self, content: String, src_start_line: usize)
        requires
            old(self).wf(),
            old(self).byte_offset + text_bytes(content@) + 1 <= usize::MAX,
        ensures
            final(self).wf(),
            final(self).lines@ == old(self).lines@.push(content),
            final(self).byte_offset == old(self).byte_offset + text_bytes(content@) + 1,
            final(self).leveloffset_ranges == old(self).leveloffset_ranges,
            final(self).source_file == old(self).source_file,
            final(self).src_line_starts == old(self).src_line_starts,
            final(self).run is None,
            final(self).run_expected_src_line == old(self).run_expected_src_line,
            ({
                let flushed = match old(self).run {
                    Some(run) => old(self).byte_offset > run.out_start,
                    None => false,
                };
                let base: int = if flushed {
                    old(self).source_ranges@.len() + 1int
                } else {
                    old(self).source_ranges@.len() as int
                };
                &&& final(self).source_ranges@.len() == base + 1
                &&& flushed ==> run_range(
                    final(self).source_ranges@[base - 1],
                    old(self).run->0,
                    old(self).byte_offset,
                    old(self).source_file,
                )
                &&& final(self).source_ranges@.take(old(self).source_ranges@.len() as int)
                    == old(self).source_ranges@
                &&& range_is(
                    final(self).source_ranges@.last(),
                    old(self).byte_offset,
                    final(self).byte_offset,
                    old(self).source_file,
                    Seq::empty(),
                    src_start_line,
                    offset_of_line(old(self).src_line_starts@, src_start_line),
                    0,
                )
            }),
    {
        let ghost r0 = self.source_ranges@;
        self.flush_run();
        let ghost r1 = self.source_ranges@;
        let start = self.byte_offset;
        let source_start_offset = self.src_offset_of_line(src_start_line);
        self.push_line(content);
        let file = self.source_file_copy();
        let chain: Vec<String> = Vec::new();
        assert(views(chain@) =~= Seq::<Seq<char>>::empty());
        self.push_source_range(start, self.byte_offset, file, chain, src_start_line, source_start_offset, 0);
        assert(self.source_ranges@.drop_last() == r1);
        assert(self.source_ranges@.take(r0.len() as int) =~= r0) by {
            assert(r1.take(r0.len() as int) =~= r0);
        }
    }
}

} // verus!

verus! {

// ----------------------------------------------------------------------------
// Included content.
// ----------------------------------------------------------------------------

/// Where a line of included content came from: its line and byte offset in
/// the included file.
#[derive(Debug, Clone, Copy)]
pub struct IncludedLineOrigin {
    pub line: usize,
    pub offset: usize,
}

/// What reading an included target gave.
#[derive(Debug)]
pub struct IncludeResult {
    pub lines: Vec<String>,
    /// The level offset that applies to the included content.
    pub effective_leveloffset: Option<isize>,
    /// Level offset ranges within the included content.
    pub nested_leveloffset_ranges: Vec<LeveloffsetRange>,
    /// The resolved file of the target, when the content came from one.
    pub file: Option<String>,
    /// The target as written in the directive.
    pub target: String,
    /// The origin of each included line.
    pub source_lines: Vec<IncludedLineOrigin>,
    /// Columns added per line by an `indent=` re-indent.
    pub column_shift: isize,
    /// Source ranges within the included content.
    pub nested_source_ranges: Vec<SourceRange>,
}

/// Whether `r` holds the one line `line` and nothing else: no file, target,
/// level offset, origins or ranges.
pub open spec fn single_line_result(r: IncludeResult, line: Seq<char>) -> bool {
    &&& r.lines@.len() == 1
    &&& r.lines@[0]@ == line
    &&& r.effective_leveloffset is None
    &&& r.nested_leveloffset_ranges@.len() == 0
    &&& r.file is None
    &&& r.target@.len() == 0
    &&& r.source_lines@.len() == 0
    &&& r.column_shift == 0
    &&& r.nested_source_ranges@.len() == 0
}

impl IncludeResult {
    /// The result that stands for an include that is not read: one link to
    /// the target (see [`link_fallback_text`]).
    pub fn link_fallback(target: &str, compat_mode: bool) -> (r: IncludeResult)
        ensures
            single_line_result(r, link_fallback_text(target@, compat_mode)),
    {
        IncludeResult::unresolved_directive(link_fallback_line(target, compat_mode))
    }

    /// The result that stands for an include that could not be read: the
    /// one line `directive`.
    pub fn unresolved_directive(directive: String) -> (r: IncludeResult)
        ensures
            single_line_result(r, directive@),
    {
        let mut lines: Vec<String> = Vec::new();
        lines.push(directive);
        IncludeResult {
            lines,
            effective_leveloffset: None,
            nested_leveloffset_ranges: Vec::new(),
            file: None,
            target: String::new(),
            source_lines: Vec::new(),
            column_shift: 0,
            nested_source_ranges: Vec::new(),
        }
    }
}

/// Maximal runs of consecutive origin lines among the first `k` included
/// lines, as `(start, end, origin)` output spans, the output position after
/// them, and the origin line that would continue the last run.
pub open spec fn runs_upto(
    lens: Seq<nat>,
    origins: Seq<IncludedLineOrigin>,
    start: int,
    k: int,
) -> (Seq<(int, int, IncludedLineOrigin)>, int, int)
    decreases k,
{
    if k <= 0 {
        (Seq::empty(), start, 0)
    } else {
        let (rs, cursor, expected) = runs_upto(lens, origins, start, k - 1);
        let end = cursor + lens[k - 1] + 1;
        let o = origins[k - 1];
        if o.line == expected && rs.len() > 0 {
            (rs.update(rs.len() - 1, (rs.last().0, end, rs.last().2)), end, o.line + 1)
        } else {
            (rs.push((cursor, end, o)), end, o.line + 1)
        }
    }
}

/// The runs of an included result placed at `start` (see [`runs_upto`]).
pub open spec fn include_runs(r: IncludeResult, start: int) -> Seq<(int, int, IncludedLineOrigin)> {
    let n = if r.lines@.len() < r.source_lines@.len() {
        r.lines@.len()
    } else {
        r.source_lines@.len()
    };
    runs_upto(byte_lens(r.lines@), r.source_lines@, start, n as int).0
}

/// Level offset ranges moved `d` bytes on.
pub open spec fn shifted_levels(v: Seq<LeveloffsetRange>, d: int) -> Seq<LeveloffsetRange> {
    v.map_values(
        |x: LeveloffsetRange|
            LeveloffsetRange {
                start_offset: (x.start_offset + d) as usize,
                end_offset: (x.end_offset + d) as usize,
                value: x.value,
            },
    )
}

/// The level offset ranges that including `r` at `start` adds: the
/// content's own offset when it is not zero, then the nested ones moved on.
pub open spec fn include_levels(r: IncludeResult, start: int) -> Seq<LeveloffsetRange> {
    let len = joined_len(byte_lens(r.lines@));
    let own: Seq<LeveloffsetRange> = match r.effective_leveloffset {
        Some(v) => if v != 0 {
            seq![
                LeveloffsetRange {
                    start_offset: start as usize,
                    end_offset: (start + len) as usize,
                    value: v,
                },
            ]
        } else {
            Seq::empty()
        },
        None => Seq::empty(),
    };
    own + shifted_levels(r.nested_leveloffset_ranges@, start)
}

/// Whether including `r` at byte `start` stays within `usize`.
pub open spec fn include_fits(r: IncludeResult, start: int) -> bool {
    &&& start + joined_len(byte_lens(r.lines@)) <= usize::MAX
    &&& forall|k: int|
        0 <= k < r.nested_leveloffset_ranges@.len() ==> (#[trigger] r.nested_leveloffset_ranges@[k]).end_offset
            + start <= usize::MAX && r.nested_leveloffset_ranges@[k].start_offset + start
            <= usize::MAX
    &&& forall|k: int|
        0 <= k < r.nested_source_ranges@.len() ==> (#[trigger] r.nested_source_ranges@[k]).end_offset
            + start <= usize::MAX && r.nested_source_ranges@[k].start_offset + start
            <= usize::MAX
    &&& forall|k: int| 0 <= k < r.source_lines@.len() ==> (#[trigger] r.source_lines@[k]).line < usize::MAX
}

proof fn lemma_runs_bounds(lens: Seq<nat>, origins: Seq<IncludedLineOrigin>, start: int, k: int)
    requires
        0 <= k <= lens.len(),
        k <= origins.len(),
    ensures
        runs_upto(lens, origins, start, k).1 == start + joined_len(lens.take(k)),
        runs_upto(lens, origins, start, k).0.len() <= k,
        k > 0 ==> runs_upto(lens, origins, start, k).0.len() > 0,
    decreases k,
{
    if k > 0 {
        lemma_runs_bounds(lens, origins, start, k - 1);
        assert(lens.take(k).drop_last() =~= lens.take(k - 1));
    } else {
        assert(lens.take(0) =~= Seq::<nat>::empty());
    }
}

} // verus!

verus! {

proof fn lemma_joined_len_concat(a: Seq<nat>, b: Seq<nat>)
    ensures
        joined_len(a + b) == joined_len(a) + joined_len(b),
    decreases b.len(),
{
    if b.len() == 0 {
        assert(a + b =~= a);
    } else {
        lemma_joined_len_concat(a, b.drop_last());
        assert((a + b).drop_last() =~= a + b.drop_last());
        assert((a + b).last() == b.last());
    }
}

proof fn lemma_byte_lens_concat(a: Seq<String>, b: Seq<String>)
    ensures
        byte_lens(a + b) == byte_lens(a) + byte_lens(b),
{
    assert(byte_lens(a + b) =~= byte_lens(a) + byte_lens(b));
}

/// Whether `n` holds the ranges of `o` with those of the included content
/// `r` spliced on at the end (see [`OutputState::handle_include_result`]):
/// its level offset ranges, and, when it came from a file, one source range
/// per run of consecutive origin lines followed by its nested ranges.
pub open spec fn spliced(o: OutputState, n: OutputState, r: IncludeResult) -> bool {
    &&& n.leveloffset_ranges@ == o.leveloffset_ranges@ + include_levels(r, o.byte_offset as int)
    &&& match r.file {
        None => n.source_ranges == o.source_ranges,
        Some(f) => {
            let runs = include_runs(r, o.byte_offset as int);
            let n0 = o.source_ranges@.len() as int;
            let nested = r.nested_source_ranges@;
            let start = o.byte_offset as int;
            &&& n.source_ranges@.len() == n0 + runs.len() + nested.len()
            &&& n.source_ranges@.take(n0) == o.source_ranges@
            &&& forall|i: int|
                0 <= i < runs.len() ==> range_is(
                    #[trigger] n.source_ranges@[n0 + i],
                    runs[i].0 as usize,
                    runs[i].1 as usize,
                    Some(f),
                    seq![r.target@],
                    runs[i].2.line,
                    runs[i].2.offset,
                    r.column_shift,
                )
            &&& forall|j: int|
                0 <= j < nested.len() ==> range_is(
                    #[trigger] n.source_ranges@[n0 + runs.len() + j],
                    (nested[j].start_offset + start) as usize,
                    (nested[j].end_offset + start) as usize,
                    nested[j].file,
                    seq![r.target@] + views(nested[j].file_chain@),
                    nested[j].start_line,
                    nested[j].source_start_offset,
                    nested[j].column_shift,
                )
        },
    }
}

impl OutputState {
    /// Splice included content in at the end of the output: its level offset
    /// ranges (its own when not zero, then the nested ones moved to the
    /// output position), and, when it came from a file, one source range per
    /// run of consecutive origin lines, then the nested ranges moved on with
    /// the target in front of their include chains.
    pub fn handle_include_result(&mut self, r: IncludeResult)
        requires
            old(self).wf(),
            include_fits(r, old(self).byte_offset as int),
        ensures
            final(self).wf(),
            final(self).lines@ == old(self).lines@ + r.lines@,
            final(self).byte_offset == old(self).byte_offset + joined_len(byte_lens(r.lines@)),
            final(self).leveloffset_ranges@ == old(self).leveloffset_ranges@ + include_levels(
                r,
                old(self).byte_offset as int,
            ),
            final(self).source_file == old(self).source_file,
            final(self).src_line_starts == old(self).src_line_starts,
            final(self).run == old(self).run,
            final(self).run_expected_src_line == old(self).run_expected_src_line,
            match r.file {
                None => final(self).source_ranges == old(self).source_ranges,
                Some(f) => {
                    let runs = include_runs(r, old(self).byte_offset as int);
                    let n0 = old(self).source_ranges@.len() as int;
                    let nested = r.nested_source_ranges@;
                    let start = old(self).byte_offset as int;
                    &&& final(self).source_ranges@.len() == n0 + runs.len() + nested.len()
                    &&& final(self).source_ranges@.take(n0) == old(self).source_ranges@
                    &&& forall|i: int|
                        0 <= i < runs.len() ==> range_is(
                            #[trigger] final(self).source_ranges@[n0 + i],
                            runs[i].0 as usize,
                            runs[i].1 as usize,
                            Some(f),
                            seq![r.target@],
                            runs[i].2.line,
                            runs[i].2.offset,
                            r.column_shift,
                        )
                    &&& forall|j: int|
                        0 <= j < nested.len() ==> range_is(
                            #[trigger] final(self).source_ranges@[n0 + runs.len() + j],
                            (nested[j].start_offset + start) as usize,
                            (nested[j].end_offset + start) as usize,
                            nested[j].file,
                            seq![r.target@] + views(nested[j].file_chain@),
                            nested[j].start_line,
                            nested[j].source_start_offset,
                            nested[j].column_shift,
                        )
                },
            },
    {
        let start = self.byte_offset;
        let ghost lens = byte_lens(r.lines@);
        let ghost total = joined_len(lens);
        let mut content_len: usize = 0;
        let mut i: usize = 0;
        assert(lens.take(0) =~= Seq::<nat>::empty());
        while i < r.lines.len()
            invariant
                i <= r.lines@.len(),
                lens == byte_lens(r.lines@),
                total == joined_len(lens),
                start + total <= usize::MAX,
                content_len == joined_len(lens.take(i as int)),
            decreases r.lines.len() - i,
        {
            proof {
                lemma_joined_len_prefix(lens, i + 1);
                assert(lens.take(i + 1).drop_last() =~= lens.take(i as int));
            }
            let n = r.lines[i].as_str().len();
            assert(n == lens[i as int]);
            content_len = content_len + n + 1;
            i = i + 1;
        }
        assert(lens.take(i as int) =~= lens);
        let ghost levels0 = self.leveloffset_ranges@;
        match r.effective_leveloffset {
            Some(v) => {
                if v != 0 {
                    self.leveloffset_ranges.push(LeveloffsetRange::new(start, start + content_len, v));
                }
            },
            None => {},
        }
        let ghost levels1 = self.leveloffset_ranges@;
        let mut k: usize = 0;
        while k < r.nested_leveloffset_ranges.len()
            invariant
                k <= r.nested_leveloffset_ranges@.len(),
                include_fits(r, start as int),
                start == old(self).byte_offset,
                self.lines == old(self).lines,
                self.byte_offset == old(self).byte_offset,
                self.source_ranges == old(self).source_ranges,
                self.source_file == old(self).source_file,
                self.src_line_starts == old(self).src_line_starts,
                self.run == old(self).run,
                self.run_expected_src_line == old(self).run_expected_src_line,
                self.leveloffset_ranges@ == levels1 + shifted_levels(
                    r.nested_leveloffset_ranges@.take(k as int),
                    start as int,
                ),
            decreases r.nested_leveloffset_ranges.len() - k,
        {
            let nested = &r.nested_leveloffset_ranges[k];
            assert(r.nested_leveloffset_ranges@[k as int] == *nested);
            self.leveloffset_ranges.push(
                LeveloffsetRange::new(nested.start_offset + start, nested.end_offset + start, nested.value),
            );
            assert(r.nested_leveloffset_ranges@.take(k + 1) =~= r.nested_leveloffset_ranges@.take(
                k as int,
            ).push(*nested));
            assert(self.leveloffset_ranges@ =~= levels1 + shifted_levels(
                r.nested_leveloffset_ranges@.take(k + 1),
                start as int,
            ));
            k = k + 1;
        }
        assert(r.nested_leveloffset_ranges@.take(k as int) =~= r.nested_leveloffset_ranges@);
        assert(self.leveloffset_ranges@ =~= levels0 + include_levels(r, start as int));
        match &r.file {
            Some(file) => {
                self.push_include_ranges(&r, file, start);
            },
            None => {},
        }
        let ghost before = self.lines@;
        let mut included = r.lines;
        let ghost added = included@;
        self.lines.append(&mut included);
        self.byte_offset = start + content_len;
        proof {
            lemma_byte_lens_concat(before, added);
            lemma_joined_len_concat(byte_lens(before), byte_lens(added));
        }
    }

    /// The source ranges of included content from `file` placed at `start`.
    fn push_include_ranges(&mut self, r: &IncludeResult, file: &String, start: usize)
        requires
            include_fits(*r, start as int),
        ensures
            final(self).same_output(old(self)),
            final(self).run == old(self).run,
            final(self).run_expected_src_line == old(self).run_expected_src_line,
            ({
                let runs = include_runs(*r, start as int);
                let n0 = old(self).source_ranges@.len() as int;
                let nested = r.nested_source_ranges@;
                &&& final(self).source_ranges@.len() == n0 + runs.len() + nested.len()
                &&& final(self).source_ranges@.take(n0) == old(self).source_ranges@
                &&& forall|i: int|
                    0 <= i < runs.len() ==> range_is(
                        #[trigger] final(self).source_ranges@[n0 + i],
                        runs[i].0 as usize,
                        runs[i].1 as usize,
                        Some(*file),
                        seq![r.target@],
                        runs[i].2.line,
                        runs[i].2.offset,
                        r.column_shift,
                    )
                &&& forall|j: int|
                    0 <= j < nested.len() ==> range_is(
                        #[trigger] final(self).source_ranges@[n0 + runs.len() + j],
                        (nested[j].start_offset + start) as usize,
                        (nested[j].end_offset + start) as usize,
                        nested[j].file,
                        seq![r.target@] + views(nested[j].file_chain@),
                        nested[j].start_line,
                        nested[j].source_start_offset,
                        nested[j].column_shift,
                    )
            }),
    {
        let ghost lens = byte_lens(r.lines@);
        let n = if r.lines.len() < r.source_lines.len() {
            r.lines.len()
        } else {
            r.source_lines.len()
        };
        let mut runs: Vec<(usize, usize, IncludedLineOrigin)> = Vec::new();
        let mut cursor = start;
        let mut expected: usize = 0;
        let mut i: usize = 0;
        proof {
            lemma_joined_len_prefix(lens, n as int);
        }
        while i < n
            invariant
                i <= n,
                n <= r.lines@.len(),
                n <= r.source_lines@.len(),
                lens == byte_lens(r.lines@),
                include_fits(*r, start as int),
                start + joined_len(lens.take(n as int)) <= usize::MAX,
                cursor == runs_upto(lens, r.source_lines@, start as int, i as int).1,
                expected == runs_upto(lens, r.source_lines@, start as int, i as int).2,
                runs@.len() == runs_upto(lens, r.source_lines@, start as int, i as int).0.len(),
                forall|k: int|
                    0 <= k < runs@.len() ==> ({
                        let x = #[trigger] runs@[k];
                        let y = runs_upto(lens, r.source_lines@, start as int, i as int).0[k];
                        x.0 == y.0 && x.1 == y.1 && x.2 == y.2
                    }),
            decreases n - i,
        {
            proof {
                lemma_runs_bounds(lens, r.source_lines@, start as int, i + 1);
                lemma_runs_bounds(lens, r.source_lines@, start as int, i as int);
                lemma_joined_len_prefix(lens.take(n as int), i + 1);
                assert(lens.take(n as int).take(i + 1) =~= lens.take(i + 1));
            }
            let len = r.lines[i].as_str().len();
            assert(len == lens[i as int]);
            let out_end = cursor + len + 1;
            let origin = r.source_lines[i];
            let ghost prev = runs@;
            if origin.line == expected && runs.len() > 0 {
                let last = runs.len() - 1;
                let (s0, _, o0) = runs[last];
                runs.set(last, (s0, out_end, o0));
            } else {
                runs.push((cursor, out_end, origin));
            }
            cursor = out_end;
            expected = origin.line + 1;
            i = i + 1;
        }
        let ghost n0 = self.source_ranges@.len() as int;
        let ghost r0 = self.source_ranges@;
        let ghost spec_runs = include_runs(*r, start as int);
        assert(spec_runs == runs_upto(lens, r.source_lines@, start as int, n as int).0);
        let mut j: usize = 0;
        while j < runs.len()
            invariant
                j <= runs@.len(),
                runs@.len() == spec_runs.len(),
                forall|k: int|
                    0 <= k < runs@.len() ==> ({
                        let x = #[trigger] runs@[k];
                        let y = spec_runs[k];
                        x.0 == y.0 && x.1 == y.1 && x.2 == y.2
                    }),
                self.source_ranges@.len() == n0 + j,
                self.source_ranges@.take(n0) == r0,
                n0 == old(self).source_ranges@.len(),
                r0 == old(self).source_ranges@,
                self.same_output(old(self)),
                self.run == old(self).run,
                self.run_expected_src_line == old(self).run_expected_src_line,
                forall|q: int|
                    0 <= q < j ==> range_is(
                        #[trigger] self.source_ranges@[n0 + q],
                        spec_runs[q].0 as usize,
                        spec_runs[q].1 as usize,
                        Some(*file),
                        seq![r.target@],
                        spec_runs[q].2.line,
                        spec_runs[q].2.offset,
                        r.column_shift,
                    ),
            decreases runs.len() - j,
        {
            let (s0, e0, o0) = runs[j];
            let mut chain: Vec<String> = Vec::new();
            chain.push(r.target.clone());
            assert(views(chain@) =~= seq![r.target@]);
            let ghost prev = self.source_ranges@;
            self.push_source_range(s0, e0, Some(file.clone()), chain, o0.line, o0.offset, r.column_shift);
            assert forall|q: int| 0 <= q < j + 1 implies range_is(
                #[trigger] self.source_ranges@[n0 + q],
                spec_runs[q].0 as usize,
                spec_runs[q].1 as usize,
                Some(*file),
                seq![r.target@],
                spec_runs[q].2.line,
                spec_runs[q].2.offset,
                r.column_shift,
            ) by {
                if q < j {
                    assert(self.source_ranges@[n0 + q] == prev[n0 + q]);
                }
            }
            assert(self.source_ranges@.take(n0) =~= r0) by {
                assert(prev.take(n0) == r0);
            }
            j = j + 1;
        }
        let ghost n1 = n0 + runs@.len();
        let ghost r1 = self.source_ranges@;
        let mut k: usize = 0;
        while k < r.nested_source_ranges.len()
            invariant
                k <= r.nested_source_ranges@.len(),
                include_fits(*r, start as int),
                self.source_ranges@.len() == n1 + k,
                self.source_ranges@.take(n1) == r1,
                r1.len() == n1,
                n1 == n0 + spec_runs.len(),
                r1.take(n0) == r0,
                n0 == old(self).source_ranges@.len(),
                r0 == old(self).source_ranges@,
                self.same_output(old(self)),
                self.run == old(self).run,
                self.run_expected_src_line == old(self).run_expected_src_line,
                forall|q: int|
                    0 <= q < spec_runs.len() ==> range_is(
                        #[trigger] r1[n0 + q],
                        spec_runs[q].0 as usize,
                        spec_runs[q].1 as usize,
                        Some(*file),
                        seq![r.target@],
                        spec_runs[q].2.line,
                        spec_runs[q].2.offset,
                        r.column_shift,
                    ),
                forall|q: int|
                    0 <= q < k ==> range_is(
                        #[trigger] self.source_ranges@[n1 + q],
                        (r.nested_source_ranges@[q].start_offset + start) as usize,
                        (r.nested_source_ranges@[q].end_offset + start) as usize,
                        r.nested_source_ranges@[q].file,
                        seq![r.target@] + views(r.nested_source_ranges@[q].file_chain@),
                        r.nested_source_ranges@[q].start_line,
                        r.nested_source_ranges@[q].source_start_offset,
                        r.nested_source_ranges@[q].column_shift,
                    ),
            decreases r.nested_source_ranges.len() - k,
        {
            let nested = &r.nested_source_ranges[k];
            let mut chain: Vec<String> = Vec::new();
            chain.push(r.target.clone());
            let mut c: usize = 0;
            while c < nested.file_chain.len()
                invariant
                    c <= nested.file_chain@.len(),
                    views(chain@) == seq![r.target@] + views(nested.file_chain@.take(c as int)),
                decreases nested.file_chain.len() - c,
            {
                let ghost before = chain@;
                chain.push(nested.file_chain[c].clone());
                assert(views(chain@) =~= views(before).push(nested.file_chain@[c as int]@));
                assert(views(nested.file_chain@.take(c + 1)) =~= views(nested.file_chain@.take(c as int)).push(
                    nested.file_chain@[c as int]@,
                ));
                c = c + 1;
            }
            assert(nested.file_chain@.take(c as int) =~= nested.file_chain@);
            let file_copy = match &nested.file {
                Some(f) => Some(f.clone()),
                None => None,
            };
            let ghost prev = self.source_ranges@;
            self.push_source_range(
                nested.start_offset + start,
                nested.end_offset + start,
                file_copy,
                chain,
                nested.start_line,
                nested.source_start_offset,
                nested.column_shift,
            );
            assert forall|q: int| 0 <= q < k + 1 implies range_is(
                #[trigger] self.source_ranges@[n1 + q],
                (r.nested_source_ranges@[q].start_offset + start) as usize,
                (r.nested_source_ranges@[q].end_offset + start) as usize,
                r.nested_source_ranges@[q].file,
                seq![r.target@] + views(r.nested_source_ranges@[q].file_chain@),
                r.nested_source_ranges@[q].start_line,
                r.nested_source_ranges@[q].source_start_offset,
                r.nested_source_ranges@[q].column_shift,
            ) by {
                if q < k {
                    assert(self.source_ranges@[n1 + q] == prev[n1 + q]);
                }
            }
            assert(self.source_ranges@.take(n1) =~= r1) by {
                assert(prev.take(n1) == r1);
            }
            k = k + 1;
        }
        proof {
            assert(self.source_ranges@.take(n0) =~= r0) by {
                assert(self.source_ranges@.take(n1).take(n0) =~= self.source_ranges@.take(n0));
            }
            assert forall|q: int| 0 <= q < spec_runs.len() implies range_is(
                #[trigger] self.source_ranges@[n0 + q],
                spec_runs[q].0 as usize,
                spec_runs[q].1 as usize,
                Some(*file),
                seq![r.target@],
                spec_runs[q].2.line,
                spec_runs[q].2.offset,
                r.column_shift,
            ) by {
                assert(self.source_ranges@.take(n1)[n0 + q] == self.source_ranges@[n0 + q]);
            }
        }
    }
}

} // verus!

verus! {

// ----------------------------------------------------------------------------
// Normalizing the input.
// ----------------------------------------------------------------------------

/// `s` without one final line break (`\r\n` or `\n`).
pub open spec fn without_final_break(s: Seq<char>) -> Seq<char> {
    if ends_with(s, seq!['\r', '\n']) {
        s.drop_last().drop_last()
    } else if ends_with(s, seq!['\n']) {
        s.drop_last()
    } else {
        s
    }
}

/// Whether a line ends in a space or a tab.
pub open spec fn ends_in_blank(l: Seq<char>) -> bool {
    l.len() > 0 && (l.last() == ' ' || l.last() == '\t')
}

/// Whether text must be rebuilt: it holds a `\r`, or a line of it ends in a
/// space or a tab.
pub open spec fn needs_rebuild(t: Seq<char>) -> bool {
    t.contains('\r') || exists|k: int|
        0 <= k < split_on(t, '\n').len() && ends_in_blank(#[trigger] split_on(t, '\n')[k])
}

/// The normalized input: without its final line break when nothing else
/// needs changing, else every line without trailing whitespace, joined by
/// `\n` (see [`normalize_spec`]).
pub open spec fn normalized(input: Seq<char>) -> Seq<char> {
    let t = without_final_break(input);
    if needs_rebuild(t) {
        normalize_spec(input)
    } else {
        t
    }
}

/// Whether a line ends in whitespace other than a space, a tab or a
/// carriage return, which only a rebuild removes.
pub open spec fn ends_in_other_ws(l: Seq<char>) -> bool {
    &&& l.len() > 0
    &&& is_ws(l.last())
    &&& l.last() != ' '
    &&& l.last() != '\t'
    &&& l.last() != '\r'
}

proof fn lemma_join_split(s: Seq<char>)
    ensures
        join_lines(split_on(s, '\n')) == s,
    decreases s.len(),
{
    crate::text::lemma_split_on_nonempty(s, '\n');
    if s.len() > 0 {
        let d = s.drop_last();
        lemma_join_split(d);
        crate::text::lemma_split_on_nonempty(d, '\n');
        let p = split_on(d, '\n');
        if s.last() == '\n' {
            let q = p.push(Seq::<char>::empty());
            assert(q.drop_last() =~= p);
            assert(join_lines(q) =~= s);
        } else {
            let q = p.update(p.len() - 1, p.last().push(s.last()));
            if p.len() == 1 {
                assert(join_lines(q) =~= s);
            } else {
                assert(q.drop_last() =~= p.drop_last());
                assert(join_lines(q) =~= join_lines(p) + seq![s.last()]);
                assert(join_lines(q) =~= s);
            }
        }
    }
}

proof fn lemma_trim_end_keeps(l: Seq<char>)
    requires
        !(l.len() > 0 && is_ws(l.last())),
    ensures
        trim_end(l) == l,
{
    assert(ws_suffix_len(l) == 0);
    assert(l.take(l.len() as int) =~= l);
}

proof fn lemma_trim_end_cr(l: Seq<char>)
    ensures
        trim_end(l.push('\r')) == trim_end(l),
{
    let m = l.push('\r');
    assert(m.drop_last() =~= l);
    assert(ws_suffix_len(m) == 1 + ws_suffix_len(l));
    crate::text::lemma_ws_suffix_le(l);
    assert(m.take(m.len() - ws_suffix_len(m)) =~= l.take(l.len() - ws_suffix_len(l)));
}

proof fn lemma_piece_in(s: Seq<char>, sep: char, k: int, j: int)
    requires
        0 <= k < split_on(s, sep).len(),
        0 <= j < split_on(s, sep)[k].len(),
    ensures
        s.contains(split_on(s, sep)[k][j]),
    decreases s.len(),
{
    if s.len() > 0 {
        let d = s.drop_last();
        let p = split_on(d, sep);
        crate::text::lemma_split_on_nonempty(d, sep);
        if s.last() == sep {
            if k < p.len() {
                lemma_piece_in(d, sep, k, j);
                let i = choose|i: int| 0 <= i < d.len() && d[i] == p[k][j];
                assert(s[i] == d[i]);
            }
        } else if k < p.len() - 1 || j < p.last().len() {
            assert(split_on(s, sep)[k][j] == p[k][j]);
            lemma_piece_in(d, sep, k, j);
            let i = choose|i: int| 0 <= i < d.len() && d[i] == p[k][j];
            assert(s[i] == d[i]);
        } else {
            assert(split_on(s, sep)[k][j] == s.last());
            assert(s[s.len() - 1] == s.last());
        }
    }
}

proof fn lemma_split_last_empty(s: Seq<char>, sep: char)
    requires
        s.len() > 0,
        split_on(s, sep).last().len() == 0,
    ensures
        s.last() == sep,
{
    crate::text::lemma_split_on_nonempty(s.drop_last(), sep);
}

/// Returning the text as is, where nothing needs a rebuild, gives what the
/// rebuild gives, provided that no line ends in whitespace other than a
/// space, a tab or a carriage return.
pub proof fn law_fast_normalization_agrees(input: Seq<char>)
    requires
        forall|k: int|
            0 <= k < split_on(without_final_break(input), '\n').len() ==> !ends_in_other_ws(
                #[trigger] split_on(without_final_break(input), '\n')[k],
            ),
    ensures
        normalized(input) == normalize_spec(input),
{
    let t = without_final_break(input);
    if !needs_rebuild(t) {
        let p = split_on(t, '\n');
        crate::text::lemma_split_on_nonempty(t, '\n');
        lemma_join_split(t);
        assert forall|k: int| 0 <= k < p.len() implies !(p[k].len() > 0 && is_ws(p[k].last())) by {
            assert(!ends_in_blank(p[k]));
            assert(!ends_in_other_ws(p[k]));
            if p[k].len() > 0 && p[k].last() == '\r' {
                lemma_piece_in(t, '\n', k, p[k].len() - 1);
                assert(t.contains('\r'));
            }
        }
        let trimmed = |l: Seq<char>| trim_end(l);
        if ends_with(input, seq!['\r', '\n']) {
            let u = input.drop_last();
            assert(u =~= t.push('\r'));
            assert(input.drop_last() == u);
            let pu = split_on(u, '\n');
            assert(u.drop_last() =~= t);
            assert(pu == p.update(p.len() - 1, p.last().push('\r')));
            assert(split_on(input, '\n') == pu.push(Seq::<char>::empty()));
            assert(split_lines(input) =~= pu);
            lemma_trim_end_cr(p.last());
            assert forall|k: int| 0 <= k < p.len() implies trim_end(#[trigger] pu[k]) == p[k] by {
                lemma_trim_end_keeps(p[k]);
            }
            assert(split_lines(input).map_values(trimmed) =~= p);
        } else if ends_with(input, seq!['\n']) {
            assert(input.drop_last() =~= t);
            assert(input.skip(input.len() - 1)[0] == input.last());
            assert(input.last() == '\n');
            assert(split_on(input, '\n') == p.push(Seq::<char>::empty()));
            assert(split_lines(input) =~= p);
            assert forall|k: int| 0 <= k < p.len() implies trim_end(#[trigger] p[k]) == p[k] by {
                lemma_trim_end_keeps(p[k]);
            }
            assert(split_lines(input).map_values(trimmed) =~= p);
        } else {
            assert(t == input);
            if input.len() == 0 {
                assert(split_lines(input) =~= Seq::<Seq<char>>::empty());
                assert(split_lines(input).map_values(trimmed) =~= Seq::<Seq<char>>::empty());
                assert(join_lines(Seq::<Seq<char>>::empty()) =~= input);
            } else {
                if p.last().len() == 0 {
                    lemma_split_last_empty(input, '\n');
                    assert(input.skip(input.len() - 1) =~= seq!['\n']);
                    assert(false);
                }
                assert(split_lines(input) == p);
                assert forall|k: int| 0 <= k < p.len() implies trim_end(#[trigger] p[k]) == p[k] by {
                    lemma_trim_end_keeps(p[k]);
                }
                assert(split_lines(input).map_values(trimmed) =~= p);
            }
        }
    }
}

/// Normalize line endings and trailing whitespace (see [`normalized`]).
pub fn normalize_input(input: &str) -> (r: String)
    ensures
        r@ == normalized(input@),
{
    let v = chars_of(input);
    let n = v.len();
    let cut = if n >= 2 && v[n - 2] == '\r' && v[n - 1] == '\n' {
        2
    } else if n >= 1 && v[n - 1] == '\n' {
        1
    } else {
        0
    };
    proof {
        if n >= 2 && v@[n - 2] == '\r' && v@[n - 1] == '\n' {
            assert(v@.subrange(n - 2, n as int) =~= seq!['\r', '\n']);
        }
        if n >= 2 && v@.subrange(n - 2, n as int) == seq!['\r', '\n'] {
            assert(v@.subrange(n - 2, n as int)[0] == v@[n - 2]);
            assert(v@.subrange(n - 2, n as int)[1] == v@[n - 1]);
        }
        if n >= 1 && v@[n - 1] == '\n' {
            assert(v@.subrange(n - 1, n as int) =~= seq!['\n']);
        }
        if n >= 1 && v@.subrange(n - 1, n as int) == seq!['\n'] {
            assert(v@.subrange(n - 1, n as int)[0] == v@[n - 1]);
        }
    }
    let trimmed = string_from_chars(&v[0..n - cut]);
    assert(trimmed@ =~= without_final_break(input@));
    let tv = chars_of(trimmed.as_str());
    let mut rebuild = has_char(tv.as_slice(), '\r');
    if !rebuild {
        let pieces = split_str(trimmed.as_str(), '\n');
        let ghost ps = split_on(trimmed@, '\n');
        let mut k: usize = 0;
        while k < pieces.len()
            invariant
                k <= pieces@.len(),
                pieces@.len() == ps.len(),
                forall|q: int| 0 <= q < pieces@.len() ==> (#[trigger] pieces@[q])@ == ps[q],
                !rebuild ==> forall|q: int| 0 <= q < k ==> !ends_in_blank(#[trigger] ps[q]),
                rebuild ==> exists|q: int| 0 <= q < ps.len() && ends_in_blank(#[trigger] ps[q]),
            decreases pieces.len() - k,
        {
            let pc = chars_of(pieces[k]);
            assert(pc@ == ps[k as int]);
            if pc.len() > 0 && (pc[pc.len() - 1] == ' ' || pc[pc.len() - 1] == '\t') {
                rebuild = true;
                assert(ends_in_blank(ps[k as int]));
            }
            k = k + 1;
        }
    }
    if rebuild {
        normalize(input)
    } else {
        trimmed
    }
}

// ----------------------------------------------------------------------------
// Attribute entries.
// ----------------------------------------------------------------------------

/// A character of an attribute name: an ASCII letter or digit, `-` or `_`.
pub open spec fn is_attr_name_char(c: char) -> bool {
    ('a' <= c && c <= 'z') || ('A' <= c && c <= 'Z') || ('0' <= c && c <= '9') || c == '-'
        || c == '_'
}

/// The first position at or after `p` that does not hold a name character.
pub open spec fn name_end(s: Seq<char>, p: int) -> int
    decreases s.len() - p,
{
    if p < 0 || p >= s.len() || !is_attr_name_char(s[p]) {
        p
    } else {
        name_end(s, p + 1)
    }
}

/// The first position at or after `p` that holds neither a space nor a tab.
pub open spec fn blanks_end(s: Seq<char>, p: int) -> int
    decreases s.len() - p,
{
    if p < 0 || p >= s.len() || !(s[p] == ' ' || s[p] == '\t') {
        p
    } else {
        blanks_end(s, p + 1)
    }
}

/// An attribute entry line: `:!name:` or `:name!:` unsets the attribute;
/// `:name:` followed by optional spaces or tabs and a value sets it. The
/// whole line must be the entry, and the value holds no line break.
pub enum Declaration {
    Unset(Seq<char>),
    Value(Seq<char>, Seq<char>),
}

/// The entry that `l` declares, if the whole of it is one.
pub open spec fn declaration(l: Seq<char>) -> Option<Declaration> {
    if !(l.len() > 0 && l[0] == ':') {
        None
    } else {
        let e1 = name_end(l, 2);
        if l.len() > 1 && l[1] == '!' && e1 > 2 && e1 < l.len() && l[e1] == ':' {
            if e1 + 1 == l.len() {
                Some(Declaration::Unset(l.subrange(2, e1)))
            } else {
                None
            }
        } else {
            let e = name_end(l, 1);
            if e > 1 && e + 1 < l.len() && l[e] == '!' && l[e + 1] == ':' {
                if e + 2 == l.len() {
                    Some(Declaration::Unset(l.subrange(1, e)))
                } else {
                    None
                }
            } else if e > 1 && e < l.len() && l[e] == ':' {
                let w = blanks_end(l, e + 1);
                if l.skip(w).contains('\n') {
                    None
                } else {
                    Some(Declaration::Value(l.subrange(1, e), l.skip(w)))
                }
            } else {
                None
            }
        }
    }
}

/// The attributes after an attribute entry line: an unset entry removes the
/// name; a value has the header substitutions applied and sets the name to
/// it, or to `true` when it comes out empty; any other line changes nothing.
pub open spec fn declare(m: Map<Seq<char>, SpecAttributeValue>, l: Seq<char>) -> Map<
    Seq<char>,
    SpecAttributeValue,
> {
    match declaration(l) {
        None => m,
        Some(Declaration::Unset(n)) => m.remove(n),
        Some(Declaration::Value(n, v)) => {
            let s = substitute_spec(v, header_seq(), m);
            if s.len() == 0 {
                m.insert(n, SpecAttributeValue::Bool(true))
            } else {
                m.insert(n, SpecAttributeValue::Text(s))
            }
        },
    }
}

proof fn lemma_name_end(s: Seq<char>, p: int)
    requires
        0 <= p <= s.len(),
    ensures
        p <= name_end(s, p) <= s.len(),
        forall|i: int| p <= i < name_end(s, p) ==> is_attr_name_char(#[trigger] s[i]),
    decreases s.len() - p,
{
    if p < s.len() && is_attr_name_char(s[p]) {
        lemma_name_end(s, p + 1);
    }
}

proof fn lemma_blanks_end(s: Seq<char>, p: int)
    requires
        0 <= p <= s.len(),
    ensures
        p <= blanks_end(s, p) <= s.len(),
    decreases s.len() - p,
{
    if p < s.len() && (s[p] == ' ' || s[p] == '\t') {
        lemma_blanks_end(s, p + 1);
    }
}

fn name_end_at(v: &[char], p: usize) -> (r: usize)
    requires
        p <= v@.len(),
    ensures
        r == name_end(v@, p as int),
        p <= r <= v@.len(),
{
    proof {
        lemma_name_end(v@, p as int);
    }
    let mut i = p;
    while i < v.len() && (('a' <= v[i] && v[i] <= 'z') || ('A' <= v[i] && v[i] <= 'Z') || ('0' <= v[i]
        && v[i] <= '9') || v[i] == '-' || v[i] == '_')
        invariant
            p <= i <= v@.len(),
            name_end(v@, p as int) == name_end(v@, i as int),
        decreases v.len() - i,
    {
        i = i + 1;
    }
    i
}

fn blanks_end_at(v: &[char], p: usize) -> (r: usize)
    requires
        p <= v@.len(),
    ensures
        r == blanks_end(v@, p as int),
        p <= r <= v@.len(),
{
    proof {
        lemma_blanks_end(v@, p as int);
    }
    let mut i = p;
    while i < v.len() && (v[i] == ' ' || v[i] == '\t')
        invariant
            p <= i <= v@.len(),
            blanks_end(v@, p as int) == blanks_end(v@, i as int),
        decreases v.len() - i,
    {
        i = i + 1;
    }
    i
}

/// Apply an attribute entry line to the document attributes (see [`declare`]).
pub fn declare_attribute(attributes: &mut DocumentAttributes, line: &str)
    requires
        old(attributes).wf(),
    ensures
        final(attributes).wf(),
        final(attributes)@ == declare(old(attributes)@, line@),
{
    let v = chars_of(line);
    let n = v.len();
    if !(n > 0 && v[0] == ':') {
        return;
    }
    let e1 = name_end_at(v.as_slice(), if n >= 2 { 2 } else { n });
    if n > 1 && v[1] == '!' && e1 > 2 && e1 < n && v[e1] == ':' {
        if e1 + 1 == n {
            let name = string_from_chars(&v[2..e1]);
            assert(name@ =~= line@.subrange(2, e1 as int));
            attributes.remove(name.as_str());
        }
        return;
    }
    let e = name_end_at(v.as_slice(), 1);
    if e > 1 && e < n && e + 1 < n && v[e] == '!' && v[e + 1] == ':' {
        if e + 2 == n {
            let name = string_from_chars(&v[1..e]);
            assert(name@ =~= line@.subrange(1, e as int));
            attributes.remove(name.as_str());
        }
        return;
    }
    if e > 1 && e < n && v[e] == ':' {
        let w = blanks_end_at(v.as_slice(), e + 1);
        let value = string_from_chars(&v[w..n]);
        assert(value@ =~= line@.skip(w as int));
        let vv = chars_of(value.as_str());
        if has_char(vv.as_slice(), '\n') {
            return;
        }
        let name = string_from_chars(&v[1..e]);
        assert(name@ =~= line@.subrange(1, e as int));
        let header = HEADER;
        assert(header@ =~= header_seq());
        let substituted = substitute(value.as_str(), header.as_slice(), attributes);
        if substituted.as_str().is_empty() {
            attributes.set(name, AttributeValue::Bool(true));
        } else {
            attributes.set(name, AttributeValue::String(substituted));
        }
    }
}

} // verus!

verus! {

// ----------------------------------------------------------------------------
// Byte lengths.
// ----------------------------------------------------------------------------

proof fn lemma_bytes_concat(a: Seq<char>, b: Seq<char>)
    ensures
        text_bytes(a + b) == text_bytes(a) + text_bytes(b),
{
    lemma_encode_split(a + b, a.len() as int);
    assert((a + b).take(a.len() as int) =~= a);
    assert((a + b).skip(a.len() as int) =~= b);
}

proof fn lemma_bytes_subrange(s: Seq<char>, a: int, b: int)
    requires
        0 <= a <= b <= s.len(),
    ensures
        text_bytes(s.subrange(a, b)) <= text_bytes(s),
{
    lemma_encode_split(s, a);
    let t = s.skip(a);
    lemma_encode_split(t, b - a);
    assert(t.take(b - a) =~= s.subrange(a, b));
}

proof fn lemma_trim_bytes(s: Seq<char>)
    ensures
        text_bytes(trim(s)) <= text_bytes(s),
{
    crate::text::lemma_ws_prefix_le(s);
    let t = trim_start(s);
    lemma_bytes_subrange(s, crate::text::ws_prefix_len(s) as int, s.len() as int);
    assert(t =~= s.subrange(crate::text::ws_prefix_len(s) as int, s.len() as int));
    crate::text::lemma_ws_suffix_le(t);
    lemma_bytes_subrange(t, 0, t.len() - crate::text::ws_suffix_len(t));
    assert(trim(s) =~= t.subrange(0, t.len() - crate::text::ws_suffix_len(t)));
}

/// The byte length of each line viewed.
pub open spec fn line_bytes(ls: Seq<Seq<char>>) -> Seq<nat> {
    ls.map_values(|l: Seq<char>| text_bytes(l))
}

proof fn lemma_joined_step(lens: Seq<nat>, j: int)
    requires
        0 <= j < lens.len(),
    ensures
        joined_len(lens.take(j + 1)) == joined_len(lens.take(j)) + lens[j] + 1,
{
    assert(lens.take(j + 1).drop_last() =~= lens.take(j));
}

proof fn lemma_continuation_bytes(ls: Seq<Seq<char>>, j: int, acc: Seq<char>)
    requires
        0 <= j <= ls.len(),
    ensures
        j <= continuation(ls, j, acc).1 <= ls.len(),
        text_bytes(continuation(ls, j, acc).0) <= text_bytes(acc) + joined_len(
            line_bytes(ls).take(continuation(ls, j, acc).1),
        ) - joined_len(line_bytes(ls).take(j)),
    decreases ls.len() - j,
{
    let lens = line_bytes(ls);
    if j < ls.len() {
        let t = trim(ls[j]);
        lemma_trim_bytes(ls[j]);
        lemma_joined_step(lens, j);
        if !(starts_with(t, ":"@) || t.len() == 0) {
            if ends_with(t, " + \\"@) {
                lemma_continuation_bytes(ls, j + 1, acc + t + seq!['\n']);
                lemma_bytes_concat(acc + t, seq!['\n']);
                lemma_bytes_concat(acc, t);
                assert(text_bytes(seq!['\n']) == 1) by {
                    let nl = seq!['\n'];
                    assert(nl.drop_first() =~= Seq::<char>::empty());
                    assert(nl[0] as u32 == 10);
                    assert(encode_utf8(nl) == vstd::utf8::encode_scalar(nl[0] as u32) + encode_utf8(
                        nl.drop_first(),
                    ));
                }
                lemma_joined_len_prefix(lens, continuation(ls, j + 1, acc + t + seq!['\n']).1);
            } else if ends_with(t, " \\"@) {
                lemma_continuation_bytes(ls, j + 1, acc + t.drop_last());
                lemma_bytes_concat(acc, t.drop_last());
                lemma_bytes_subrange(t, 0, t.len() - 1);
                assert(t.drop_last() =~= t.subrange(0, t.len() - 1));
            } else {
                lemma_bytes_concat(acc, t);
            }
        }
    }
}

// ----------------------------------------------------------------------------
// Conditional frames.
// ----------------------------------------------------------------------------

/// An open block conditional and whether its content is active, counting
/// every enclosing conditional.
#[derive(Debug)]
pub struct ConditionalFrame {
    pub conditional: Conditional,
    pub active: bool,
}

/// Whether content at this depth of the stack is active: no conditional is
/// open, or the innermost one is active.
pub open spec fn stack_active(stack: Seq<ConditionalFrame>) -> bool {
    stack.len() == 0 || stack.last().active
}

/// Whether `line` has the shape of a directive: it ends with `]`, does not
/// start with `[` and holds `::`.
pub open spec fn directive_shaped(line: Seq<char>) -> bool {
    ends_with(line, "]"@) && !starts_with(line, "["@) && contains_seq(line, "::"@)
}

/// Whether `line` opens a conditional: it starts with `ifdef`, `ifndef` or `ifeval`.
pub open spec fn opens_conditional(line: Seq<char>) -> bool {
    starts_with(line, "ifdef"@) || starts_with(line, "ifndef"@) || starts_with(line, "ifeval"@)
}

/// Whether `line` is an escaped directive.
pub open spec fn escaped_directive(line: Seq<char>) -> bool {
    starts_with(line, "\\include"@) || starts_with(line, "\\ifdef"@) || starts_with(
        line,
        "\\ifndef"@,
    ) || starts_with(line, "\\ifeval"@)
}

/// Whether `line` is an attribute entry continued on the next line.
pub open spec fn continues_entry(line: Seq<char>) -> bool {
    starts_with(line, ":"@) && (ends_with(line, " + \\"@) || ends_with(line, " \\"@))
}

fn is_directive_shaped(line: &str) -> (r: bool)
    ensures
        r == directive_shaped(line@),
{
    str_ends_with(line, "]") && !str_starts_with(line, "[") && str_contains(line, "::")
}

fn is_conditional_opening(line: &str) -> (r: bool)
    ensures
        r == opens_conditional(line@),
{
    str_starts_with(line, "ifdef") || str_starts_with(line, "ifndef") || str_starts_with(line, "ifeval")
}

fn is_escaped_directive(line: &str) -> (r: bool)
    ensures
        r == escaped_directive(line@),
{
    str_starts_with(line, "\\include") || str_starts_with(line, "\\ifdef") || str_starts_with(
        line,
        "\\ifndef",
    ) || str_starts_with(line, "\\ifeval")
}

fn is_continued_entry(line: &str) -> (r: bool)
    ensures
        r == continues_entry(line@),
{
    str_starts_with(line, ":") && (str_ends_with(line, " + \\") || str_ends_with(line, " \\"))
}

} // verus!

verus! {

// ----------------------------------------------------------------------------
// The run over the lines.
// ----------------------------------------------------------------------------

/// Whether a conditional holds against the attributes, `eval` standing for
/// the value of an `ifeval` expression.
pub open spec fn holds(c: SpecConditional, m: Map<Seq<char>, SpecAttributeValue>, eval: bool) -> bool {
    match c.condition {
        SpecCondition::Ifdef(a) => names_hold(a.attributes, a.operation, m, false),
        SpecCondition::Ifndef(a) => names_hold(a.attributes, a.operation, m, true),
        SpecCondition::Ifeval(..) => eval,
    }
}

/// Whether an `endif` condition closes the conditional `c`.
pub open spec fn endif_closes(e: Option<crate::conditional::SpecAttributeCondition>, c: SpecConditional) -> bool {
    match e {
        None => true,
        Some(x) => match c.condition {
            SpecCondition::Ifdef(a) => conditions_match(x, a),
            SpecCondition::Ifndef(a) => conditions_match(x, a),
            SpecCondition::Ifeval(..) => false,
        },
    }
}

/// The scanner after recording an emitted `line`.
pub open spec fn recorded(s: ScannerState, line: Seq<char>) -> ScannerState {
    ScannerState { prev_attaches: crate::comment::is_attaching_content_spec(line, s.setext), ..s }
}

/// The first line of a continued attribute entry as it enters the entry:
/// a hard wrap keeps its line break, a soft wrap loses its backslash.
pub open spec fn entry_start(line: Seq<char>) -> Seq<char> {
    if ends_with(line, " + \\"@) {
        line.push('\n')
    } else {
        line.drop_last()
    }
}

/// What the run does with a line in active content that is no conditional
/// directive.
pub enum LineAction {
    /// The line is dropped.
    Drop,
    /// The text is emitted.
    Emit(Seq<char>),
    /// The line is an include directive: its content is read outside.
    Include,
}

/// What becomes of line `l` in active content, given the scanner state
/// after the verbatim delimiter check: verbatim delimiters and line comments
/// that are kept are emitted, adjacent line comments dropped, escaped
/// directives emitted without their backslash, include directives handed
/// out, and every other line emitted as it is.
pub open spec fn line_action(l: Seq<char>, s: ScannerState) -> LineAction {
    if verbatim_delimiter(l) is Some {
        LineAction::Emit(l)
    } else if starts_with(l, "//"@) {
        if drops_spec(s, l) {
            LineAction::Drop
        } else {
            LineAction::Emit(l)
        }
    } else if directive_shaped(l) {
        if escaped_directive(l) {
            LineAction::Emit(l.drop_first())
        } else if starts_with(l, "include"@) {
            LineAction::Include
        } else {
            LineAction::Emit(l)
        }
    } else {
        LineAction::Emit(l)
    }
}

/// The attributes after an active line that is not continued: an entry on
/// a line starting with `:` is applied, trimmed.
pub open spec fn attributes_after(m: Map<Seq<char>, SpecAttributeValue>, l: Seq<char>) -> Map<
    Seq<char>,
    SpecAttributeValue,
> {
    if starts_with(l, ":"@) {
        declare(m, trim(l))
    } else {
        m
    }
}

/// Whether `loc` is the point at column 0 of line `line_number` (clamped to
/// `u32`) of `file`, with no include chain and byte offsets 0.
pub open spec fn line_located(loc: SourceLocation, line_number: usize, file: Option<Seq<char>>) -> bool {
    &&& loc.file matches Some(f) ==> file == Some(f@)
    &&& loc.file is None ==> file is None
    &&& loc.location.start.line == (if line_number <= u32::MAX {
        line_number
    } else {
        u32::MAX as usize
    })
    &&& loc.location.start.column == 0
    &&& loc.location.start.file is None
    &&& loc.location.start == loc.location.end
    &&& loc.location.absolute_start == 0
    &&& loc.location.absolute_end == 0
}

/// Whether `w` warns of an `endif` whose names do not match, at line
/// `line_number` of `file`.
pub open spec fn mismatch_warning(w: Warning, line_number: usize, file: Option<Seq<char>>) -> bool {
    &&& w.message@ == "attribute mismatch between if and endif directives"@
    &&& line_located(w.location, line_number, file)
}

/// What [`Expansion::step`] reports.
#[derive(Debug)]
pub enum Step {
    /// A line was processed.
    Continue,
    /// An include directive at `line_number`, at byte `current_offset` of the
    /// input: read its target and hand the content back with
    /// [`Expansion::include_done`].
    Include { line: String, line_number: usize, current_offset: usize },
    /// An `ifeval` directive in active content: evaluate `left operator
    /// right` and hand the result back with [`Expansion::eval_done`].
    Evaluate { left: String, operator: Operator, right: String },
    /// Every line is processed.
    Done,
    /// A directive was refused.
    Failed(ConditionalError),
}

/// Outside work the run waits for.
#[derive(Debug)]
enum Pending {
    Nothing,
    Include,
    Eval(Conditional),
}

/// A warning and where it arose.
#[derive(Debug)]
pub struct Warning {
    pub message: String,
    pub location: SourceLocation,
}

/// The line-by-line run over a normalized document.
#[derive(Debug)]
pub struct Expansion {
    lines: Vec<String>,
    next: usize,
    line_number: usize,
    current_offset: usize,
    attributes: DocumentAttributes,
    scanner: CommentScanner,
    stack: Vec<ConditionalFrame>,
    out: OutputState,
    file: Option<String>,
    pending: Pending,
    warnings: Vec<Warning>,
    finished: bool,
}

/// The bytes of the first `i` lines, a line break after each.
pub open spec fn consumed(lines: Seq<String>, i: int) -> nat {
    joined_len(byte_lens(lines.take(i)))
}

impl Expansion {
    /// The run's bookkeeping holds.
    pub closed spec fn wf(&self) -> bool {
        let total = consumed(self.lines@, self.lines@.len() as int);
        &&& self.out.wf()
        &&& self.attributes.wf()
        &&& self.next <= self.lines@.len()
        &&& self.line_number == self.next + 1
        &&& 2 * total + 4 <= usize::MAX
        &&& self.current_offset <= consumed(self.lines@, self.next as int)
        &&& self.out.byte_offset + 2 * (total - consumed(self.lines@, self.next as int)) <= usize::MAX
        &&& !(self.pending is Nothing) ==> self.next < self.lines@.len()
        &&& match self.pending {
            Pending::Eval(c) => conditional_line(self.lines@[self.next as int]@) == Some(c@)
                && stack_active(self.stack@),
            _ => true,
        }
    }

    /// The lines of the document.
    pub closed spec fn lines_view(&self) -> Seq<Seq<char>> {
        views(self.lines@)
    }

    /// The index of the next line to process.
    pub closed spec fn position(&self) -> int {
        self.next as int
    }

    /// The document attributes as they stand.
    pub closed spec fn attributes_view(&self) -> Map<Seq<char>, SpecAttributeValue> {
        self.attributes@
    }

    /// The output so far, entry by entry.
    pub closed spec fn output_view(&self) -> Seq<Seq<char>> {
        views(self.out.lines@)
    }

    /// The comment scanner's state.
    pub closed spec fn scanner_view(&self) -> ScannerState {
        self.scanner@
    }

    /// Whether the run waits for no outside work.
    pub closed spec fn ready(&self) -> bool {
        self.pending is Nothing
    }

    /// Whether the run waits for an include's content.
    pub closed spec fn awaits_include(&self) -> bool {
        self.pending is Include
    }

    /// Whether the run waits for an `ifeval` result.
    pub closed spec fn awaits_eval(&self) -> bool {
        self.pending is Eval
    }

    /// The warnings raised so far.
    pub closed spec fn warnings_view(&self) -> Seq<Warning> {
        self.warnings@
    }

    /// The file the lines were read from.
    pub closed spec fn file_view(&self) -> Option<Seq<char>> {
        match self.file {
            Some(f) => Some(f@),
            None => None,
        }
    }

    /// The output state.
    pub closed spec fn output_state(&self) -> OutputState {
        self.out
    }

    /// The open block conditionals, outermost first, and whether each is active.
    pub closed spec fn frames_view(&self) -> Seq<(SpecConditional, bool)> {
        self.stack@.map_values(|f: ConditionalFrame| (f.conditional@, f.active))
    }

    /// The `ifeval` conditional that waits for its result.
    pub closed spec fn pending_conditional(&self) -> SpecConditional {
        match self.pending {
            Pending::Eval(c) => c@,
            _ => arbitrary(),
        }
    }

    /// How many bytes included content may take at the current line.
    pub closed spec fn include_room(&self) -> int {
        let total = consumed(self.lines@, self.lines@.len() as int);
        usize::MAX - self.out.byte_offset - 2 * (total - consumed(self.lines@, self.next + 1))
    }

    /// Start a run over `lines` read from `file`, with the document
    /// attributes as they stand and whether Setext titles are on.
    pub fn new(lines: Vec<String>, file: Option<String>, attributes: DocumentAttributes, setext: bool) -> (r: Self)
        requires
            attributes.wf(),
            2 * consumed(lines@, lines@.len() as int) + 4 <= usize::MAX,
        ensures
            r.wf(),
            r.ready(),
            r.lines_view() == views(lines@),
            r.position() == 0,
            r.attributes_view() == attributes@,
            r.output_view() == Seq::<Seq<char>>::empty(),
            r.frames_view() == Seq::<(SpecConditional, bool)>::empty(),
            r.warnings_view() == Seq::<Warning>::empty(),
            r.scanner_view() == (ScannerState { verbatim: None, prev_attaches: false, setext }),
            r.file_view() == match file {
                Some(f) => Some(f@),
                None => None::<Seq<char>>,
            },
    {
        let mut starts: Vec<usize> = Vec::new();
        let mut offset: usize = 0;
        let mut i: usize = 0;
        let ghost lens = byte_lens(lines@);
        assert(lens.take(0) =~= Seq::<nat>::empty());
        assert(byte_lens(lines@.take(lines@.len() as int)) =~= lens.take(lines@.len() as int));
        while i < lines.len()
            invariant
                i <= lines@.len(),
                lens == byte_lens(lines@),
                2 * joined_len(lens.take(lines@.len() as int)) + 4 <= usize::MAX,
                offset == joined_len(lens.take(i as int)),
            decreases lines.len() - i,
        {
            proof {
                lemma_joined_step(lens, i as int);
                lemma_joined_len_prefix(lens.take(lines@.len() as int), i + 1);
                assert(lens.take(lines@.len() as int).take(i + 1) =~= lens.take(i + 1));
            }
            starts.push(offset);
            let n = lines[i].as_str().len();
            assert(n == lens[i as int]);
            offset = offset + n + 1;
            i = i + 1;
        }
        let source_file = match &file {
            Some(f) => Some(f.clone()),
            None => None,
        };
        let out = OutputState::new(source_file, starts);
        assert(lines@.take(0) =~= Seq::<String>::empty());
        assert(views(out.lines@) =~= Seq::<Seq<char>>::empty());
        let stack: Vec<ConditionalFrame> = Vec::new();
        assert(stack@.map_values(|f: ConditionalFrame| (f.conditional@, f.active)) =~= Seq::<
            (SpecConditional, bool),
        >::empty());
        Expansion {
            lines,
            next: 0,
            line_number: 1,
            current_offset: 0,
            attributes,
            scanner: CommentScanner::new(setext),
            stack,
            out,
            file,
            pending: Pending::Nothing,
            warnings: Vec::new(),
            finished: false,
        }
    }
}

} // verus!

verus! {

/// Whether content under `frames` is active: none is open, or the innermost
/// one is active.
pub open spec fn frames_active(frames: Seq<(SpecConditional, bool)>) -> bool {
    frames.len() == 0 || frames.last().1
}

/// The scanner after the verbatim-delimiter check of `line`.
pub open spec fn toggled(s: ScannerState, line: Seq<char>) -> ScannerState {
    ScannerState { verbatim: verbatim_after(s.verbatim, line), ..s }
}

/// Whether `n` is `o` after opening conditional `c` (with `eval` standing
/// for an `ifeval` result): an inline conditional emits its content when
/// it and everything around it hold; a block one is pushed with whether its
/// content is active.
pub open spec fn opened(o: Expansion, n: Expansion, c: SpecConditional, eval: bool) -> bool {
    let act = frames_active(o.frames_view()) && holds(c, o.attributes_view(), eval);
    &&& n.ready()
    &&& n.lines_view() == o.lines_view()
    &&& n.position() == o.position() + 1
    &&& n.attributes_view() == o.attributes_view()
    &&& n.scanner_view() == o.scanner_view()
    &&& n.file_view() == o.file_view()
    &&& if c.content is Some {
        &&& n.frames_view() == o.frames_view()
        &&& n.output_view() == if act {
            o.output_view().push(c.content->0)
        } else {
            o.output_view()
        }
    } else {
        &&& n.frames_view() == o.frames_view().push((c, act))
        &&& n.output_view() == o.output_view()
    }
}

/// Whether `n` is `o` with only the position moved to `p`.
pub open spec fn moved(o: Expansion, n: Expansion, p: int) -> bool {
    &&& n.ready()
    &&& n.lines_view() == o.lines_view()
    &&& n.position() == p
    &&& n.attributes_view() == o.attributes_view()
    &&& n.scanner_view() == o.scanner_view()
    &&& n.frames_view() == o.frames_view()
    &&& n.output_view() == o.output_view()
    &&& n.file_view() == o.file_view()
}

/// What one step does to the run `o`, giving `n` and reporting `r`.
///
/// At the end of the lines the run is done. A conditional directive is
/// opened (an `ifeval` in active content first waits for its result); an
/// `endif` with a conditional open closes it when its names match; a line in
/// inactive content is skipped; a continued attribute entry is collapsed,
/// applied and emitted; any other line applies an attribute entry it holds
/// and is emitted, dropped or handed out as an include (see [`line_action`]).
pub open spec fn step_spec(o: Expansion, n: Expansion, r: Step) -> bool {
    &&& step_outcome(o, n, r)
    &&& step_warnings(o, n)
}

/// What one step does to the run `o` apart from its warnings (see
/// [`step_spec`]).
pub open spec fn step_outcome(o: Expansion, n: Expansion, r: Step) -> bool {
    let pos = o.position();
    let ls = o.lines_view();
    let line_number = (pos + 1) as usize;
    if pos >= ls.len() {
        r is Done && moved(o, n, pos)
    } else {
        let l = ls[pos];
        if directive_shaped(l) && opens_conditional(l) {
            match conditional_line(l) {
                None => r matches Step::Failed(e) && error_at(e, line_number, o.file_view()),
                Some(c) => if frames_active(o.frames_view()) && c.condition is Ifeval {
                    &&& r matches Step::Evaluate { left, operator, right } && c.condition
                        == SpecCondition::Ifeval(left@, operator, right@)
                    &&& n.awaits_eval()
                    &&& n.pending_conditional() == c
                    &&& n.lines_view() == o.lines_view()
                    &&& n.position() == pos
                    &&& n.attributes_view() == o.attributes_view()
                    &&& n.scanner_view() == o.scanner_view()
                    &&& n.frames_view() == o.frames_view()
                    &&& n.output_view() == o.output_view()
                    &&& n.file_view() == o.file_view()
                } else {
                    r is Continue && opened(o, n, c, false)
                },
            }
        } else if directive_shaped(l) && starts_with(l, "endif"@) && o.frames_view().len() > 0 {
            match endif_line(l) {
                None => r matches Step::Failed(e) && error_at(e, line_number, o.file_view()),
                Some(e) => if endif_closes(e, o.frames_view().last().0) {
                    &&& r is Continue
                    &&& n.ready()
                    &&& n.lines_view() == o.lines_view()
                    &&& n.position() == pos + 1
                    &&& n.attributes_view() == o.attributes_view()
                    &&& n.scanner_view() == o.scanner_view()
                    &&& n.frames_view() == o.frames_view().drop_last()
                    &&& n.output_view() == o.output_view()
                    &&& n.file_view() == o.file_view()
                } else {
                    r matches Step::Failed(ConditionalError::InvalidConditionalDirective(loc))
                        && line_located(loc, line_number, o.file_view())
                },
            }
        } else if !frames_active(o.frames_view()) {
            r is Continue && moved(o, n, pos + 1)
        } else if continues_entry(l) {
            let (content, j) = continuation(ls, pos + 1, entry_start(l));
            &&& r is Continue
            &&& n.ready()
            &&& n.lines_view() == o.lines_view()
            &&& n.position() == j
            &&& n.attributes_view() == declare(o.attributes_view(), content)
            &&& n.scanner_view() == recorded(o.scanner_view(), l)
            &&& n.frames_view() == o.frames_view()
            &&& n.output_view() == o.output_view().push(content)
            &&& n.file_view() == o.file_view()
        } else {
            let s1 = toggled(o.scanner_view(), l);
            &&& n.lines_view() == o.lines_view()
            &&& n.attributes_view() == attributes_after(o.attributes_view(), l)
            &&& n.frames_view() == o.frames_view()
            &&& n.file_view() == o.file_view()
            &&& match line_action(l, s1) {
                LineAction::Drop => {
                    &&& r is Continue
                    &&& n.ready()
                    &&& n.position() == pos + 1
                    &&& n.scanner_view() == s1
                    &&& n.output_view() == o.output_view()
                },
                LineAction::Emit(t) => {
                    &&& r is Continue
                    &&& n.ready()
                    &&& n.position() == pos + 1
                    &&& n.scanner_view() == recorded(s1, l)
                    &&& n.output_view() == o.output_view().push(t)
                },
                LineAction::Include => {
                    &&& r matches Step::Include { line, line_number: k, current_offset } && line@
                        == l && k == line_number
                    &&& n.awaits_include()
                    &&& n.position() == pos
                    &&& n.scanner_view() == s1
                    &&& n.output_view() == o.output_view()
                },
            }
        }
    }
}

/// Whether a step from `o` meets an `endif` whose names do not match the
/// conditional it would close.
pub open spec fn endif_mismatch(o: Expansion) -> bool {
    let pos = o.position();
    let ls = o.lines_view();
    &&& 0 <= pos < ls.len()
    &&& !(directive_shaped(ls[pos]) && opens_conditional(ls[pos]))
    &&& directive_shaped(ls[pos])
    &&& starts_with(ls[pos], "endif"@)
    &&& o.frames_view().len() > 0
    &&& endif_line(ls[pos]) matches Some(e) && !endif_closes(e, o.frames_view().last().0)
}

/// The warnings after one step from `o`: an `endif` whose names do not
/// match adds one (see [`mismatch_warning`]); every other step adds none.
pub open spec fn step_warnings(o: Expansion, n: Expansion) -> bool {
    if endif_mismatch(o) {
        &&& n.warnings_view().len() == o.warnings_view().len() + 1
        &&& n.warnings_view().drop_last() == o.warnings_view()
        &&& mismatch_warning(n.warnings_view().last(), (o.position() + 1) as usize, o.file_view())
    } else {
        n.warnings_view() == o.warnings_view()
    }
}

proof fn lemma_consumed_step(lines: Seq<String>, i: int)
    requires
        0 <= i < lines.len(),
    ensures
        consumed(lines, i + 1) == consumed(lines, i) + text_bytes(lines[i]@) + 1,
{
    assert(byte_lens(lines.take(i + 1)).drop_last() =~= byte_lens(lines.take(i)));
}

proof fn lemma_consumed_mono(lines: Seq<String>, i: int, j: int)
    requires
        0 <= i <= j <= lines.len(),
    ensures
        consumed(lines, i) <= consumed(lines, j),
        consumed(lines, j) - consumed(lines, i) >= j - i,
    decreases j - i,
{
    if i < j {
        lemma_consumed_mono(lines, i, j - 1);
        lemma_consumed_step(lines, j - 1);
    }
}

proof fn lemma_content_bytes(l: Seq<char>)
    requires
        conditional_line(l) matches Some(c) && c.content is Some,
    ensures
        text_bytes(conditional_line(l)->0.content->0) <= text_bytes(l),
{
    let c = conditional_line(l)->0;
    let start: int = if starts_with(l, "ifdef::"@) {
        "ifdef::"@.len() as int
    } else {
        "ifndef::"@.len() as int
    };
    reveal_strlit("ifdef::");
    reveal_strlit("ifndef::");
    reveal_strlit("ifeval::[");
    let b = crate::lines::index_of_from(l, '[', start);
    crate::lines::lemma_index_of_from(l, '[', start);
    crate::lines::lemma_index_of_from(l, ']', b + 1);
    let k = crate::lines::index_of_from(l, ']', b + 1);
    lemma_bytes_subrange(l, b + 1, k);
}

pub(crate) proof fn lemma_line_bytes_views(lines: Seq<String>)
    ensures
        line_bytes(views(lines)) == byte_lens(lines),
{
    assert(line_bytes(views(lines)) =~= byte_lens(lines));
}

} // verus!

verus! {

proof fn lemma_hard_wrap_ends_soft(l: Seq<char>)
    ensures
        ends_with(l, " + \\"@) ==> ends_with(l, " \\"@),
{
    reveal_strlit(" + \\");
    reveal_strlit(" \\");
    if ends_with(l, " + \\"@) {
        let n = l.len() as int;
        assert(l.subrange(n - 4, n)[2] == l[n - 2]);
        assert(l.subrange(n - 4, n)[3] == l[n - 1]);
        assert(l.subrange(n - 2, n) =~= " \\"@);
    }
}

proof fn lemma_newline_bytes()
    ensures
        text_bytes(seq!['\n']) == 1,
{
    let nl = seq!['\n'];
    assert(nl.drop_first() =~= Seq::<char>::empty());
    assert(nl[0] as u32 == 10);
    assert(encode_utf8(nl) == vstd::utf8::encode_scalar(nl[0] as u32) + encode_utf8(nl.drop_first()));
}

proof fn lemma_entry_start_bytes(l: Seq<char>)
    requires
        l.len() > 0,
    ensures
        text_bytes(entry_start(l)) <= text_bytes(l) + 1,
{
    if ends_with(l, " + \\"@) {
        lemma_bytes_concat(l, seq!['\n']);
        lemma_newline_bytes();
        assert(l.push('\n') =~= l + seq!['\n']);
    } else {
        lemma_bytes_subrange(l, 0, l.len() - 1);
        assert(l.drop_last() =~= l.subrange(0, l.len() - 1));
    }
}

proof fn lemma_frames_push(stack: Seq<ConditionalFrame>, f: ConditionalFrame)
    ensures
        stack.push(f).map_values(|x: ConditionalFrame| (x.conditional@, x.active)) == stack.map_values(
            |x: ConditionalFrame| (x.conditional@, x.active),
        ).push((f.conditional@, f.active)),
{
    assert(stack.push(f).map_values(|x: ConditionalFrame| (x.conditional@, x.active)) =~= stack.map_values(
        |x: ConditionalFrame| (x.conditional@, x.active),
    ).push((f.conditional@, f.active)));
}

impl Expansion {
    fn file_ref(&self) -> (r: Option<&str>)
        ensures
            match r {
                Some(f) => self.file_view() == Some(f@),
                None => self.file_view() is None,
            },
    {
        match &self.file {
            Some(f) => Some(f.as_str()),
            None => None,
        }
    }

    fn stack_is_active(&self) -> (r: bool)
        ensures
            r == stack_active(self.stack@),
            r == frames_active(self.frames_view()),
    {
        let n = self.stack.len();
        n == 0 || self.stack[n - 1].active
    }

    /// Move past the current line.
    fn advance(&mut self)
        requires
            old(self).next < old(self).lines@.len(),
            old(self).line_number == old(self).next + 1,
            2 * consumed(old(self).lines@, old(self).lines@.len() as int) + 4 <= usize::MAX,
            old(self).current_offset <= consumed(old(self).lines@, old(self).next as int),
        ensures
            final(self).next == old(self).next + 1,
            final(self).line_number == old(self).line_number + 1,
            final(self).current_offset <= consumed(final(self).lines@, final(self).next as int),
            consumed(old(self).lines@, old(self).next as int) <= consumed(
                final(self).lines@,
                final(self).next as int,
            ),
            final(self).lines == old(self).lines,
            final(self).attributes == old(self).attributes,
            final(self).scanner == old(self).scanner,
            final(self).stack == old(self).stack,
            final(self).out == old(self).out,
            final(self).file == old(self).file,
            final(self).pending == old(self).pending,
            final(self).warnings == old(self).warnings,
            final(self).finished == old(self).finished,
    {
        proof {
            lemma_consumed_step(self.lines@, self.next as int);
            lemma_consumed_mono(self.lines@, self.next + 1, self.lines@.len() as int);
            lemma_consumed_mono(self.lines@, 0, self.lines@.len() as int);
            assert(self.lines@.take(0) =~= Seq::<String>::empty());
        }
        let n = self.lines[self.next].as_str().len();
        self.current_offset = self.current_offset + n + 1;
        self.line_number = self.line_number + 1;
        self.next = self.next + 1;
    }

    /// Open conditional `c`, the directive on the current line.
    fn open_conditional(&mut self, c: Conditional, eval: bool)
        requires
            old(self).wf(),
            old(self).pending is Nothing,
            old(self).next < old(self).lines@.len(),
            conditional_line(old(self).lines@[old(self).next as int]@) == Some(c@),
        ensures
            final(self).wf(),
            opened(*old(self), *final(self), c@, eval),
            final(self).warnings_view() == old(self).warnings_view(),
    {
        let ghost o = *self;
        let i = self.next;
        proof {
            lemma_consumed_step(self.lines@, i as int);
            lemma_consumed_mono(self.lines@, i + 1, self.lines@.len() as int);
            lemma_consumed_mono(self.lines@, 0, self.lines@.len() as int);
            assert(self.lines@.take(0) =~= Seq::<String>::empty());
        }
        let parent = self.stack_is_active();
        let mut content = String::new();
        let holds = c.is_true(&self.attributes, &mut content, eval);
        let act = parent && holds;
        if c.has_inline_content() {
            if act {
                proof {
                    lemma_content_bytes(self.lines@[i as int]@);
                }
                assert(content@ =~= c@.content->0);
                let line_number = self.line_number;
                self.out.push_chunk(content, line_number);
            }
        } else {
            let ghost before = self.stack@;
            self.stack.push(ConditionalFrame { conditional: c, active: act });
            proof {
                lemma_frames_push(before, ConditionalFrame { conditional: c, active: act });
            }
        }
        self.advance();
        proof {
            assert(views(self.out.lines@) =~= if c@.content is Some && act {
                views(o.out.lines@).push(c@.content->0)
            } else {
                views(o.out.lines@)
            });
        }
    }
}

} // verus!

verus! {

/// The location of a directive at `line_number` of `file`, at column 0
/// (the preprocessor keeps no column).
fn line_location(line_number: usize, file: Option<&str>) -> (r: SourceLocation)
    ensures
        line_located(
            r,
            line_number,
            match file {
                Some(f) => Some(f@),
                None => None,
            },
        ),
{
    SourceLocation {
        file: match file {
            Some(f) => Some(owned(f)),
            None => None,
        },
        location: Location::point(Position::from_line_col(line_number, 0)),
    }
}

impl Expansion {
    /// Process the next line (see [`step_spec`]).
    pub fn step(&mut self) -> (r: Step)
        requires
            old(self).wf(),
            old(self).ready(),
        ensures
            final(self).wf(),
            step_spec(*old(self), *final(self), r),
    {
        if self.next >= self.lines.len() {
            if !self.finished {
                self.out.flush_run();
                self.finished = true;
            }
            return Step::Done;
        }
        let line = self.lines[self.next].as_str();
        let shaped = is_directive_shaped(line);
        if shaped && is_conditional_opening(line) {
            return self.conditional_step();
        }
        if shaped && str_starts_with(line, "endif") && self.stack.len() > 0 {
            return self.endif_step();
        }
        if !self.stack_is_active() {
            self.advance();
            return Step::Continue;
        }
        if is_continued_entry(line) {
            return self.continued_step();
        }
        self.plain_step()
    }

    /// A conditional directive.
    fn conditional_step(&mut self) -> (r: Step)
        requires
            old(self).wf(),
            old(self).ready(),
            old(self).next < old(self).lines@.len(),
            directive_shaped(old(self).lines@[old(self).next as int]@),
            opens_conditional(old(self).lines@[old(self).next as int]@),
        ensures
            final(self).wf(),
            step_spec(*old(self), *final(self), r),
    {
        let i = self.next;
        let line_owned = self.lines[i].clone();
        let line = line_owned.as_str();
        assert(self.lines_view()[self.position()] == self.lines@[i as int]@);
        assert(!endif_mismatch(*self));
        let parsed = parse_line(line, self.line_number, self.file_ref());
        match parsed {
            Err(e) => Step::Failed(e),
            Ok(c) => {
                if self.stack_is_active() {
                    if let Condition::Ifeval(e) = &c.condition {
                        let left = e.left.clone();
                        let right = e.right.clone();
                        let operator = e.operator;
                        self.pending = Pending::Eval(c);
                        return Step::Evaluate { left, operator, right };
                    }
                }
                self.open_conditional(c, false);
                Step::Continue
            },
        }
    }

    /// An `endif` directive with a conditional open.
    fn endif_step(&mut self) -> (r: Step)
        requires
            old(self).wf(),
            old(self).ready(),
            old(self).next < old(self).lines@.len(),
            !(directive_shaped(old(self).lines@[old(self).next as int]@) && opens_conditional(
                old(self).lines@[old(self).next as int]@,
            )),
            directive_shaped(old(self).lines@[old(self).next as int]@),
            starts_with(old(self).lines@[old(self).next as int]@, "endif"@),
            old(self).stack@.len() > 0,
        ensures
            final(self).wf(),
            step_spec(*old(self), *final(self), r),
    {
        let i = self.next;
        let line_owned = self.lines[i].clone();
        let line = line_owned.as_str();
        assert(self.lines_view()[self.position()] == self.lines@[i as int]@);
        let parsed = parse_endif(line, self.line_number, self.file_ref());
        match parsed {
            Err(e) => Step::Failed(e),
            Ok(endif) => {
                let last = self.stack.len() - 1;
                assert(self.frames_view().last().0 == self.stack@[last as int].conditional@);
                if !endif.closes(&self.stack[last].conditional) {
                    assert(endif_mismatch(*old(self)));
                    let message = owned("attribute mismatch between if and endif directives");
                    let location = line_location(self.line_number, self.file_ref());
                    let ghost before = self.warnings@;
                    self.warnings.push(Warning { message, location });
                    assert(self.warnings@.drop_last() =~= before);
                    let location = line_location(self.line_number, self.file_ref());
                    return Step::Failed(ConditionalError::InvalidConditionalDirective(location));
                }
                let ghost before = self.stack@;
                self.stack.pop();
                proof {
                    assert(self.stack@.map_values(|f: ConditionalFrame| (f.conditional@, f.active))
                        =~= before.map_values(|f: ConditionalFrame| (f.conditional@, f.active)).drop_last());
                }
                self.advance();
                Step::Continue
            },
        }
    }

    /// A continued attribute entry in active content.
    fn continued_step(&mut self) -> (r: Step)
        requires
            old(self).wf(),
            old(self).ready(),
            old(self).next < old(self).lines@.len(),
            !(directive_shaped(old(self).lines@[old(self).next as int]@) && opens_conditional(
                old(self).lines@[old(self).next as int]@,
            )),
            !(directive_shaped(old(self).lines@[old(self).next as int]@) && starts_with(
                old(self).lines@[old(self).next as int]@,
                "endif"@,
            ) && old(self).stack@.len() > 0),
            stack_active(old(self).stack@),
            continues_entry(old(self).lines@[old(self).next as int]@),
        ensures
            final(self).wf(),
            step_spec(*old(self), *final(self), r),
    {
        let ghost o = *self;
        let i = self.next;
        let line_owned = self.lines[i].clone();
        let line = line_owned.as_str();
        proof {
            lemma_hard_wrap_ends_soft(line@);
            reveal_strlit(":");
        }
        let (content, j) = join_continued_attribute(&self.lines, i);
        proof {
            let ls = views(self.lines@);
            assert(ls[i as int] == line@);
            crate::preprocessor::lemma_continuation_advances(ls, i + 1, entry_start(line@));
            lemma_continuation_bytes(ls, i + 1, entry_start(line@));
            lemma_entry_start_bytes(line@);
            lemma_line_bytes_views(self.lines@);
            assert(byte_lens(self.lines@.take(j as int)) =~= byte_lens(self.lines@).take(j as int));
            assert(byte_lens(self.lines@.take(i + 1)) =~= byte_lens(self.lines@).take(i + 1));
            lemma_consumed_step(self.lines@, i as int);
            lemma_consumed_mono(self.lines@, j as int, self.lines@.len() as int);
            lemma_consumed_mono(self.lines@, i + 1, j as int);
            lemma_consumed_mono(self.lines@, 0, self.lines@.len() as int);
            assert(self.lines@.take(0) =~= Seq::<String>::empty());
        }
        let start_line = self.line_number;
        declare_attribute(&mut self.attributes, content.as_str());
        let ghost text = content@;
        self.out.push_chunk(content, start_line);
        self.scanner.record(line);
        let n = line.len();
        self.current_offset = self.current_offset + n + 1;
        self.next = j;
        self.line_number = j + 1;
        assert(views(self.out.lines@) =~= views(o.out.lines@).push(text));
        Step::Continue
    }

    /// Any other line in active content.
    fn plain_step(&mut self) -> (r: Step)
        requires
            old(self).wf(),
            old(self).ready(),
            old(self).next < old(self).lines@.len(),
            !(directive_shaped(old(self).lines@[old(self).next as int]@) && opens_conditional(
                old(self).lines@[old(self).next as int]@,
            )),
            !(directive_shaped(old(self).lines@[old(self).next as int]@) && starts_with(
                old(self).lines@[old(self).next as int]@,
                "endif"@,
            ) && old(self).stack@.len() > 0),
            stack_active(old(self).stack@),
            !continues_entry(old(self).lines@[old(self).next as int]@),
        ensures
            final(self).wf(),
            step_spec(*old(self), *final(self), r),
    {
        let ghost o = *self;
        let i = self.next;
        let line_owned = self.lines[i].clone();
        let line = line_owned.as_str();
        proof {
            lemma_consumed_step(self.lines@, i as int);
            lemma_consumed_mono(self.lines@, i + 1, self.lines@.len() as int);
            lemma_consumed_mono(self.lines@, 0, self.lines@.len() as int);
            assert(self.lines@.take(0) =~= Seq::<String>::empty());
        }
        let shaped = is_directive_shaped(line);
        if str_starts_with(line, ":") {
            let trimmed = trim_str(line);
            declare_attribute(&mut self.attributes, trimmed);
        }
        let delimiter = self.scanner.at_verbatim_delimiter(line);
        let line_number = self.line_number;
        if delimiter {
            self.out.push_source_line(line, line_number);
            assert(views(self.out.lines@) =~= views(o.out.lines@).push(line@));
        } else if str_starts_with(line, "//") {
            if self.scanner.drops(line) {
                self.advance();
                return Step::Continue;
            }
            self.out.push_source_line(line, line_number);
            assert(views(self.out.lines@) =~= views(o.out.lines@).push(line@));
        } else if shaped {
            if is_escaped_directive(line) {
                self.out.note_source_line(line_number);
                let n = line.unicode_len();
                proof {
                    reveal_strlit("\\include");
                    reveal_strlit("\\ifdef");
                    reveal_strlit("\\ifndef");
                    reveal_strlit("\\ifeval");
                }
                let rest = char_slice(line, 1, n);
                assert(rest@ =~= line@.drop_first());
                proof {
                    lemma_bytes_subrange(line@, 1, line@.len() as int);
                }
                self.out.push_line(owned(rest));
                assert(views(self.out.lines@) =~= views(o.out.lines@).push(line@.drop_first()));
            } else if str_starts_with(line, "include") {
                self.out.flush_run();
                self.pending = Pending::Include;
                let current_offset = self.current_offset;
                return Step::Include { line: line_owned.clone(), line_number, current_offset };
            } else {
                self.out.push_source_line(line, line_number);
                assert(views(self.out.lines@) =~= views(o.out.lines@).push(line@));
            }
        } else {
            self.out.push_source_line(line, line_number);
            assert(views(self.out.lines@) =~= views(o.out.lines@).push(line@));
        }
        self.scanner.record(line);
        self.advance();
        Step::Continue
    }
}

} // verus!

verus! {

/// The preprocessed text with the byte ranges that map it back.
#[derive(Debug)]
pub struct PreprocessorResult {
    pub text: String,
    pub leveloffset_ranges: Vec<LeveloffsetRange>,
    pub source_ranges: Vec<SourceRange>,
}

/// How preprocessing a document begins.
#[derive(Debug)]
pub enum Start {
    /// Nothing in the normalized text needs rewriting: it is the result.
    PassThrough(String),
    /// The text needs the line-by-line run.
    Run(Expansion),
}

/// The UTF-8 length of one character.
fn char_bytes(c: char) -> (n: usize)
    ensures
        n == text_bytes(seq![c]),
{
    let v = c as u32;
    proof {
        let s = seq![c];
        assert(s.drop_first() =~= Seq::<char>::empty());
        assert(encode_utf8(s) == vstd::utf8::encode_scalar(s[0] as u32) + encode_utf8(s.drop_first()));
        vstd::utf8::char_is_scalar(c);
    }
    if v <= 0x7F {
        1
    } else if v <= 0x7FF {
        2
    } else if v <= 0xFFFF {
        3
    } else {
        4
    }
}

/// The UTF-8 length of `s`, when it fits in `usize`.
fn text_byte_len(s: &str) -> (r: Option<usize>)
    ensures
        match r {
            Some(n) => n == text_bytes(s@),
            None => text_bytes(s@) > usize::MAX,
        },
{
    let v = chars_of(s);
    let mut total: usize = 0;
    let mut k: usize = 0;
    assert(v@.take(0) =~= Seq::<char>::empty());
    while k < v.len()
        invariant
            k <= v@.len(),
            v@ == s@,
            total == text_bytes(v@.take(k as int)),
        decreases v.len() - k,
    {
        let w = char_bytes(v[k]);
        proof {
            lemma_bytes_concat(v@.take(k as int), seq![v@[k as int]]);
            assert(v@.take(k + 1) =~= v@.take(k as int) + seq![v@[k as int]]);
        }
        if total > usize::MAX - w {
            proof {
                lemma_encode_split(v@, k + 1);
                assert(v@.take(v@.len() as int) =~= v@);
            }
            return None;
        }
        total = total + w;
        k = k + 1;
    }
    assert(v@.take(k as int) =~= s@);
    Some(total)
}

/// The bytes of the first `i` lines, a line break after each.
fn consumed_exec(lines: &Vec<String>, i: usize) -> (r: Option<usize>)
    requires
        i <= lines@.len(),
    ensures
        match r {
            Some(n) => n == consumed(lines@, i as int),
            None => consumed(lines@, i as int) > usize::MAX,
        },
{
    let mut total: usize = 0;
    let mut k: usize = 0;
    assert(lines@.take(0) =~= Seq::<String>::empty());
    while k < i
        invariant
            k <= i <= lines@.len(),
            total == consumed(lines@, k as int),
        decreases i - k,
    {
        proof {
            lemma_consumed_step(lines@, k as int);
        }
        let n = match text_byte_len(lines[k].as_str()) {
            Some(n) => n,
            None => {
                proof {
                    lemma_consumed_mono(lines@, k + 1, i as int);
                }
                return None;
            },
        };
        if total > usize::MAX - 1 || n > usize::MAX - 1 - total {
            proof {
                lemma_consumed_mono(lines@, k + 1, i as int);
            }
            return None;
        }
        total = total + n + 1;
        k = k + 1;
    }
    Some(total)
}

proof fn lemma_scan_state_setext(lines: Seq<Seq<char>>, n: int, setext: bool)
    ensures
        scan_state(lines, n, setext).setext == setext,
    decreases n,
{
    if n > 0 {
        lemma_scan_state_setext(lines, n - 1, setext);
    }
}

/// A text that passes through is what a run over its lines would give,
/// line by line: from a point where the lines before were emitted as they
/// are, with no conditional open and the scanner where those lines leave
/// it, the next step emits the next line as it is, and at the end the run
/// is done with nothing more emitted.
pub proof fn law_pass_through_matches_the_run(text: Seq<char>, setext: bool, o: Expansion, n: Expansion, r: Step)
    requires
        passes_through(text, setext),
        o.lines_view() == split_lines(text),
        0 <= o.position() <= split_lines(text).len(),
        o.frames_view().len() == 0,
        o.output_view() == split_lines(text).take(o.position()),
        o.scanner_view() == scan_state(split_lines(text), o.position(), setext),
        step_spec(o, n, r),
    ensures
        o.position() == split_lines(text).len() ==> r is Done && moved(o, n, o.position()),
        o.position() < split_lines(text).len() ==> {
            &&& r is Continue
            &&& n.lines_view() == o.lines_view()
            &&& n.position() == o.position() + 1
            &&& n.frames_view().len() == 0
            &&& n.output_view() == split_lines(text).take(n.position())
            &&& n.scanner_view() == scan_state(split_lines(text), n.position(), setext)
        },
{
    let ls = split_lines(text);
    let pos = o.position();
    if pos < ls.len() {
        let l = ls[pos];
        assert(!line_changes(ls, pos, setext));
        assert(!rewritten_line(l));
        lemma_scan_state_setext(ls, pos, setext);
        let s0 = o.scanner_view();
        let s1 = toggled(s0, l);
        if verbatim_delimiter(l) is None {
            assert(s1 == s0);
        }
        assert(line_action(l, s1) == LineAction::Emit(l));
        assert(ls.take(pos + 1) =~= ls.take(pos).push(l));
        assert(recorded(s1, l) == scan_state(ls, pos + 1, setext));
    }
}

/// A text that does not end in a line break is its lines joined by line
/// breaks, which is what finishing a run that emitted every line gives.
pub proof fn law_lines_rejoin(text: Seq<char>)
    requires
        !(text.len() > 0 && text.last() == '\n'),
    ensures
        join_lines(split_lines(text)) == text,
{
    if text.len() > 0 {
        lemma_join_split(text);
        crate::text::lemma_split_on_nonempty(text, '\n');
        if split_on(text, '\n').last().len() == 0 {
            lemma_split_last_empty(text, '\n');
        }
    }
}

/// Whether state `trace[i + 1]` follows from `trace[i]` by one step that
/// reported `steps[i]`.
pub open spec fn steps_from(trace: Seq<Expansion>, steps: Seq<Step>, i: int) -> bool {
    step_spec(trace[i], trace[i + 1], steps[i])
}

/// Whether `trace` is a run of steps: each state follows from the one before
/// by the step whose report is the matching entry of `steps`.
pub open spec fn is_run(trace: Seq<Expansion>, steps: Seq<Step>) -> bool {
    &&& trace.len() == steps.len() + 1
    &&& forall|i: int| 0 <= i < steps.len() ==> #[trigger] steps_from(trace, steps, i)
}

proof fn lemma_pass_through_run_prefix(
    text: Seq<char>,
    setext: bool,
    trace: Seq<Expansion>,
    steps: Seq<Step>,
    i: int,
)
    requires
        passes_through(text, setext),
        is_run(trace, steps),
        trace[0].lines_view() == split_lines(text),
        trace[0].position() == 0,
        trace[0].frames_view().len() == 0,
        trace[0].output_view().len() == 0,
        trace[0].scanner_view() == (ScannerState { verbatim: None, prev_attaches: false, setext }),
        0 <= i < trace.len(),
    ensures
        trace[i].lines_view() == split_lines(text),
        trace[i].position() == if i <= split_lines(text).len() {
            i
        } else {
            split_lines(text).len() as int
        },
        trace[i].frames_view().len() == 0,
        trace[i].output_view() == split_lines(text).take(trace[i].position()),
        trace[i].scanner_view() == scan_state(split_lines(text), trace[i].position(), setext),
        i > 0 ==> (steps[i - 1] is Done <==> i - 1 >= split_lines(text).len()),
    decreases i,
{
    let ls = split_lines(text);
    if i == 0 {
        assert(ls.take(0) =~= trace[0].output_view());
    } else {
        lemma_pass_through_run_prefix(text, setext, trace, steps, i - 1);
        assert(steps_from(trace, steps, i - 1));
        law_pass_through_matches_the_run(text, setext, trace[i - 1], trace[i], steps[i - 1]);
    }
}

/// Running a text that passes through, line by line from its first line with
/// nothing emitted, no conditional open and the scanner at its start, emits
/// each of its lines as it is: once the run reports `Done` it has emitted
/// exactly the text's lines, and finishing it gives the text back when the
/// text does not end in a line break. So taking such a text as it is, as
/// [`start`] does, gives what the run would.
pub proof fn law_pass_through_whole_run(
    text: Seq<char>,
    setext: bool,
    trace: Seq<Expansion>,
    steps: Seq<Step>,
)
    requires
        passes_through(text, setext),
        is_run(trace, steps),
        trace[0].lines_view() == split_lines(text),
        trace[0].position() == 0,
        trace[0].frames_view().len() == 0,
        trace[0].output_view().len() == 0,
        trace[0].scanner_view() == (ScannerState { verbatim: None, prev_attaches: false, setext }),
        steps.len() > 0,
        steps.last() is Done,
    ensures
        trace.last().output_view() == split_lines(text),
        !(text.len() > 0 && text.last() == '\n') ==> join_lines(trace.last().output_view()) == text,
{
    let ls = split_lines(text);
    let k = steps.len() as int;
    lemma_pass_through_run_prefix(text, setext, trace, steps, k);
    assert(ls.take(ls.len() as int) =~= ls);
    if !(text.len() > 0 && text.last() == '\n') {
        law_lines_rejoin(text);
    }
}

/// Begin preprocessing `input`, read from `file`, with the document
/// attributes and whether Setext titles are on: the normalized text when
/// nothing in it needs rewriting, else a run over its lines. `None` when the
/// document is too large for the run's byte arithmetic (twice its size
/// exceeds `usize`).
pub fn start(input: &str, file: Option<String>, attributes: DocumentAttributes, setext: bool) -> (r:
    Option<Start>)
    requires
        attributes.wf(),
    ensures
        ({
            let text = normalized(input@);
            match r {
                Some(Start::PassThrough(t)) => t@ == text && passes_through(text, setext),
                Some(Start::Run(e)) => {
                    &&& !passes_through(text, setext)
                    &&& e.wf()
                    &&& e.ready()
                    &&& e.lines_view() == split_lines(text)
                    &&& e.position() == 0
                    &&& e.attributes_view() == attributes@
                    &&& e.output_view() == Seq::<Seq<char>>::empty()
                    &&& e.frames_view() == Seq::<(SpecConditional, bool)>::empty()
                    &&& e.warnings_view() == Seq::<Warning>::empty()
                    &&& e.scanner_view() == (ScannerState { verbatim: None, prev_attaches: false, setext })
                    &&& e.file_view() == match file {
                        Some(f) => Some(f@),
                        None => None::<Seq<char>>,
                    }
                },
                None => !passes_through(text, setext),
            }
        }),
{
    let text = normalize_input(input);
    if try_pass_through(text.as_str(), setext) {
        return Some(Start::PassThrough(text));
    }
    let lines = lines_of(text.as_str());
    let n = lines.len();
    match consumed_exec(&lines, n) {
        Some(total) => {
            if total > (usize::MAX - 4) / 2 {
                return None;
            }
            let e = Expansion::new(lines, file, attributes, setext);
            Some(Start::Run(e))
        },
        None => None,
    }
}

impl Expansion {
    /// Whether `r` can be handed back for the include this run waits for:
    /// its offsets stay within `usize` at the current output position.
    pub fn accepts(&self, r: &IncludeResult) -> (b: bool)
        requires
            self.wf(),
            self.awaits_include(),
        ensures
            b == (include_fits(*r, self.output_state().byte_offset as int) && joined_len(
                byte_lens(r.lines@),
            ) <= self.include_room()),
    {
        let start = self.out.byte_offset;
        proof {
            lemma_consumed_mono(self.lines@, self.next + 1, self.lines@.len() as int);
            assert(self.lines@.take(self.lines@.len() as int) =~= self.lines@);
        }
        let total = match consumed_exec(&self.lines, self.lines.len()) {
            Some(t) => t,
            None => {
                return false;
            },
        };
        let upto = match consumed_exec(&self.lines, self.next + 1) {
            Some(t) => t,
            None => {
                return false;
            },
        };
        let reserve = 2 * (total - upto);
        if start > usize::MAX - reserve {
            return false;
        }
        let room = usize::MAX - reserve - start;
        assert(byte_lens(r.lines@.take(r.lines@.len() as int)) =~= byte_lens(r.lines@));
        let content = match consumed_exec(&r.lines, r.lines.len()) {
            Some(c) => c,
            None => {
                return false;
            },
        };
        if content > room {
            return false;
        }
        let mut k: usize = 0;
        while k < r.nested_leveloffset_ranges.len()
            invariant
                k <= r.nested_leveloffset_ranges@.len(),
                start == self.out.byte_offset,
                forall|q: int|
                    0 <= q < k ==> (#[trigger] r.nested_leveloffset_ranges@[q]).end_offset + start
                        <= usize::MAX && r.nested_leveloffset_ranges@[q].start_offset + start
                        <= usize::MAX,
            decreases r.nested_leveloffset_ranges.len() - k,
        {
            let x = &r.nested_leveloffset_ranges[k];
            assert(r.nested_leveloffset_ranges@[k as int] == *x);
            if x.end_offset > usize::MAX - start || x.start_offset > usize::MAX - start {
                return false;
            }
            k = k + 1;
        }
        let mut k: usize = 0;
        while k < r.nested_source_ranges.len()
            invariant
                k <= r.nested_source_ranges@.len(),
                start == self.out.byte_offset,
                forall|q: int|
                    0 <= q < k ==> (#[trigger] r.nested_source_ranges@[q]).end_offset + start
                        <= usize::MAX && r.nested_source_ranges@[q].start_offset + start
                        <= usize::MAX,
            decreases r.nested_source_ranges.len() - k,
        {
            let x = &r.nested_source_ranges[k];
            assert(r.nested_source_ranges@[k as int] == *x);
            if x.end_offset > usize::MAX - start || x.start_offset > usize::MAX - start {
                return false;
            }
            k = k + 1;
        }
        let mut k: usize = 0;
        while k < r.source_lines.len()
            invariant
                k <= r.source_lines@.len(),
                forall|q: int| 0 <= q < k ==> (#[trigger] r.source_lines@[q]).line < usize::MAX,
            decreases r.source_lines.len() - k,
        {
            assert(r.source_lines@[k as int] == r.source_lines[k as int]);
            if r.source_lines[k].line == usize::MAX {
                return false;
            }
            k = k + 1;
        }
        true
    }

    /// Hand back what reading the include gave (`None` when nothing is
    /// included): its lines are appended, and the run moves past the
    /// directive line.
    pub fn include_done(&mut self, result: Option<IncludeResult>)
        requires
            old(self).wf(),
            old(self).awaits_include(),
            match result {
                Some(r) => include_fits(r, old(self).output_state().byte_offset as int) && joined_len(
                    byte_lens(r.lines@),
                ) <= old(self).include_room(),
                None => true,
            },
        ensures
            final(self).wf(),
            final(self).ready(),
            final(self).warnings_view() == old(self).warnings_view(),
            final(self).lines_view() == old(self).lines_view(),
            final(self).position() == old(self).position() + 1,
            final(self).attributes_view() == old(self).attributes_view(),
            final(self).frames_view() == old(self).frames_view(),
            final(self).file_view() == old(self).file_view(),
            final(self).scanner_view() == recorded(
                old(self).scanner_view(),
                old(self).lines_view()[old(self).position()],
            ),
            final(self).output_view() == old(self).output_view() + match result {
                Some(r) => views(r.lines@),
                None => Seq::<Seq<char>>::empty(),
            },
            match result {
                Some(r) => spliced(old(self).output_state(), final(self).output_state(), r),
                None => {
                    &&& final(self).output_state().leveloffset_ranges
                        == old(self).output_state().leveloffset_ranges
                    &&& final(self).output_state().source_ranges
                        == old(self).output_state().source_ranges
                },
            },
    {
        let ghost o = *self;
        proof {
            lemma_consumed_step(self.lines@, self.next as int);
            lemma_consumed_mono(self.lines@, self.next + 1, self.lines@.len() as int);
        }
        match result {
            Some(r) => {
                let ghost added = r.lines@;
                self.out.handle_include_result(r);
                assert(views(self.out.lines@) =~= views(o.out.lines@) + views(added));
            },
            None => {
                assert(views(self.out.lines@) =~= views(o.out.lines@) + Seq::<Seq<char>>::empty());
            },
        }
        let line = self.lines[self.next].clone();
        self.scanner.record(line.as_str());
        self.pending = Pending::Nothing;
        self.advance();
    }

    /// Hand back the value of the `ifeval` expression the run waits for;
    /// the conditional is then opened (see [`opened`]).
    pub fn eval_done(&mut self, result: bool)
        requires
            old(self).wf(),
            old(self).awaits_eval(),
        ensures
            final(self).wf(),
            opened(*old(self), *final(self), old(self).pending_conditional(), result),
            final(self).warnings_view() == old(self).warnings_view(),
    {
        let ghost o = *self;
        let mut pending = Pending::Nothing;
        std::mem::swap(&mut pending, &mut self.pending);
        match pending {
            Pending::Eval(c) => {
                assert(frames_active(self.frames_view()));
                self.open_conditional(c, result);
            },
            _ => {},
        }
    }

    /// The document attributes as the run has them so far.
    pub fn attributes(&self) -> (r: &DocumentAttributes)
        ensures
            r@ == self.attributes_view(),
    {
        &self.attributes
    }

    /// The warnings raised so far.
    pub fn warnings(&self) -> (r: &Vec<Warning>)
        ensures
            r@ == self.warnings_view(),
    {
        &self.warnings
    }

    /// The preprocessed text and its ranges: the output entries joined by
    /// line breaks.
    pub fn finish(self) -> (r: PreprocessorResult)
        requires
            self.wf(),
        ensures
            r.text@ == join_lines(self.output_view()),
            r.leveloffset_ranges == self.output_state().leveloffset_ranges,
            r.source_ranges == self.output_state().source_ranges,
    {
        let text = join_with_newlines(self.out.lines.as_slice());
        PreprocessorResult {
            text,
            leveloffset_ranges: self.out.leveloffset_ranges,
            source_ranges: self.out.source_ranges,
        }
    }
}

} // verus!
