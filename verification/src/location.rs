//! Source positions, spans, and the byte ranges that map preprocessed text
//! back to the files it came from.
use std::sync::Arc;
use vstd::prelude::*;

use crate::numbers::{decimal, usize_decimal};
use vstd::string::StringSliceAdditionalSpecFns;
use crate::text::{push_str, str_eq};

verus! {

/// A byte range of the preprocessed text where a leveloffset value applies.
#[derive(Debug, Clone, Default, PartialEq)]
pub struct LeveloffsetRange {
    /// Byte offset where this leveloffset begins (inclusive).
    pub start_offset: usize,
    /// Byte offset where this leveloffset ends (exclusive).
    pub end_offset: usize,
    /// The leveloffset value to apply in this range.
    pub value: isize,
}

impl LeveloffsetRange {
    /// Create a new leveloffset range.
    pub fn new(start_offset: usize, end_offset: usize, value: isize) -> (r: Self)
        ensures
            r.start_offset == start_offset,
            r.end_offset == end_offset,
            r.value == value,
    {
        LeveloffsetRange { start_offset, end_offset, value }
    }

    /// Whether a byte offset falls within this range.
    pub open spec fn spec_contains(&self, byte_offset: int) -> bool {
        self.start_offset <= byte_offset < self.end_offset
    }

    /// Check if a byte offset falls within this range.
    pub fn contains(&self, byte_offset: usize) -> (r: bool)
        ensures
            r == self.spec_contains(byte_offset as int),
    {
        byte_offset >= self.start_offset && byte_offset < self.end_offset
    }
}

/// The sum of the values of the first `n` ranges that contain `offset`.
pub open spec fn leveloffset_sum(ranges: Seq<LeveloffsetRange>, offset: int, n: int) -> int
    decreases n,
{
    if n <= 0 {
        0
    } else {
        leveloffset_sum(ranges, offset, n - 1) + if ranges[n - 1].spec_contains(offset) {
            ranges[n - 1].value as int
        } else {
            0
        }
    }
}

/// The total leveloffset at a byte offset: the sum of the values of all ranges
/// that contain it (ranges nest, so their values add up).
pub fn calculate_leveloffset_at(ranges: &[LeveloffsetRange], byte_offset: usize) -> (r: isize)
    requires
        forall|k: int|
            0 <= k <= ranges@.len() ==> isize::MIN <= #[trigger] leveloffset_sum(
                ranges@,
                byte_offset as int,
                k,
            ) <= isize::MAX,
    ensures
        r == leveloffset_sum(ranges@, byte_offset as int, ranges@.len() as int),
{
    let mut total: isize = 0;
    let mut i: usize = 0;
    while i < ranges.len()
        invariant
            i <= ranges@.len(),
            total == leveloffset_sum(ranges@, byte_offset as int, i as int),
            forall|k: int|
                0 <= k <= ranges@.len() ==> isize::MIN <= #[trigger] leveloffset_sum(
                    ranges@,
                    byte_offset as int,
                    k,
                ) <= isize::MAX,
        decreases ranges.len() - i,
    {
        assert(isize::MIN <= leveloffset_sum(ranges@, byte_offset as int, i + 1) <= isize::MAX);
        if ranges[i].contains(byte_offset) {
            total = total + ranges[i].value;
        }
        i = i + 1;
    }
    total
}

/// Maps a byte range in the preprocessed output back to its source file and
/// starting line.
#[derive(Debug, Clone, PartialEq)]
pub struct SourceRange {
    /// Byte offset where this source range begins (inclusive), in the preprocessed buffer.
    pub start_offset: usize,
    /// Byte offset where this source range ends (exclusive), in the preprocessed buffer.
    pub end_offset: usize,
    /// The resolved path of the file this range came from, or `None` for a
    /// primary input without a path.
    pub file: Option<String>,
    /// The `include::` chain reaching this range, outermost first.
    pub file_chain: Vec<String>,
    /// The line number (1-indexed) of the first line in this range within the source file.
    pub start_line: usize,
    /// The byte offset (in the origin file) of the first byte in this range.
    pub source_start_offset: usize,
    /// Columns added (or removed, if negative) per line by an `indent=` re-indent.
    pub column_shift: isize,
}

impl SourceRange {
    /// Whether a byte offset falls within this range.
    pub open spec fn spec_contains(&self, byte_offset: int) -> bool {
        self.start_offset <= byte_offset < self.end_offset
    }

    /// Check if a byte offset falls within this range.
    pub fn contains(&self, byte_offset: usize) -> (r: bool)
        ensures
            r == self.spec_contains(byte_offset as int),
    {
        byte_offset >= self.start_offset && byte_offset < self.end_offset
    }

    /// Find the innermost range containing `offset`: the last one in the list,
    /// since a nested include is recorded after its parent.
    pub fn find_containing(ranges: &[SourceRange], offset: usize) -> (r: Option<&SourceRange>)
        ensures
            match r {
                Some(found) => exists|i: int|
                    0 <= i < ranges@.len() && ranges@[i] == *found && found.spec_contains(
                        offset as int,
                    ) && forall|j: int|
                        i < j < ranges@.len() ==> !(#[trigger] ranges@[j]).spec_contains(
                            offset as int,
                        ),
                None => forall|j: int|
                    0 <= j < ranges@.len() ==> !(#[trigger] ranges@[j]).spec_contains(
                        offset as int,
                    ),
            },
    {
        let mut j: usize = ranges.len();
        while j > 0
            invariant
                j <= ranges@.len(),
                forall|q: int|
                    j <= q < ranges@.len() ==> !(#[trigger] ranges@[q]).spec_contains(
                        offset as int,
                    ),
            decreases j,
        {
            if ranges[j - 1].contains(offset) {
                assert(ranges@[j - 1] == ranges[j - 1]);
                return Some(&ranges[j - 1]);
            }
            j = j - 1;
        }
        None
    }

    /// Source-file byte offset for a preprocessed `offset` inside this range.
    pub fn source_offset(&self, offset: usize) -> (r: usize)
        requires
            self.source_start_offset + (if offset >= self.start_offset {
                offset - self.start_offset
            } else {
                0
            }) <= usize::MAX,
        ensures
            r == self.source_start_offset + (if offset >= self.start_offset {
                offset - self.start_offset
            } else {
                0
            }),
    {
        let delta = if offset >= self.start_offset {
            offset - self.start_offset
        } else {
            0
        };
        self.source_start_offset + delta
    }
}

/// A human-readable position in a document: line, column, and the `include::`
/// chain the content came through (`None` for the primary input).
#[derive(Debug, Default, Clone, Hash, Eq, PartialEq)]
pub struct Position {
    /// The line number of the position (1-indexed).
    pub line: u32,
    /// The column number of the position (1-indexed, counted as Unicode scalar values).
    pub column: u32,
    /// The `include::` chain this position's content came through, outermost first.
    pub file: Option<Arc<Vec<String>>>,
}

/// The include chain of a position, viewed as character sequences.
pub open spec fn chain_view(file: Option<Arc<Vec<String>>>) -> Option<Seq<Seq<char>>> {
    match file {
        Some(chain) => Some(chain@.map_values(|s: String| s@)),
        None => None,
    }
}

impl Position {
    /// A copy of this position, sharing its include chain.
    pub fn duplicate(&self) -> (r: Self)
        ensures
            r == *self,
    {
        Position {
            line: self.line,
            column: self.column,
            file: match &self.file {
                Some(chain) => Some(share_chain(chain)),
                None => None,
            },
        }
    }

    /// A position at `line`/`column` with no originating file (primary input).
    pub fn new(line: u32, column: u32) -> (r: Self)
        ensures
            r.line == line,
            r.column == column,
            r.file is None,
    {
        Position { line, column, file: None }
    }

    /// A position from `usize` line and column, each saturating at `u32::MAX`.
    pub fn from_line_col(line: usize, column: usize) -> (r: Self)
        ensures
            r.line == if line <= u32::MAX {
                line
            } else {
                u32::MAX as usize
            },
            r.column == if column <= u32::MAX {
                column
            } else {
                u32::MAX as usize
            },
            r.file is None,
    {
        let l: u32 = if line <= u32::MAX as usize {
            line as u32
        } else {
            u32::MAX
        };
        let c: u32 = if column <= u32::MAX as usize {
            column as u32
        } else {
            u32::MAX
        };
        Position { line: l, column: c, file: None }
    }

    /// The display text: `line: L, column: C`.
    pub fn to_string(&self) -> (r: String)
        ensures
            r@ == "line: "@ + decimal(self.line as nat) + ", column: "@ + decimal(self.column as nat),
    {
        let mut s = crate::text::owned("line: ");
        push_str(&mut s, usize_decimal(self.line as usize).as_str());
        push_str(&mut s, ", column: ");
        push_str(&mut s, usize_decimal(self.column as usize).as_str());
        s
    }
}

/// Another handle on a shared include chain (`Arc::clone`): it points to the
/// same allocation, so it holds the same chain.
#[verifier::external_body]
fn share_chain(chain: &Arc<Vec<String>>) -> (r: Arc<Vec<String>>)
    ensures
        r == *chain,
{
    chain.clone()
}

/// Whether two positions come from the same include chain.
#[verifier::loop_isolation(false)]
pub fn same_file(a: &Option<Arc<Vec<String>>>, b: &Option<Arc<Vec<String>>>) -> (r: bool)
    ensures
        r == (chain_view(*a) == chain_view(*b)),
{
    match (a, b) {
        (None, None) => true,
        (Some(x), Some(y)) => {
            let xs: &Vec<String> = x;
            let ys: &Vec<String> = y;
            if xs.len() != ys.len() {
                assert(xs@.map_values(|s: String| s@).len() != ys@.map_values(|s: String| s@).len());
                return false;
            }
            let mut i: usize = 0;
            while i < xs.len()
                invariant
                    xs@.len() == ys@.len(),
                    i <= xs@.len(),
                    forall|k: int| 0 <= k < i ==> (#[trigger] xs@[k])@ == ys@[k]@,
                decreases xs.len() - i,
            {
                if !str_eq(xs[i].as_str(), ys[i].as_str()) {
                    assert(xs@.map_values(|s: String| s@)[i as int] != ys@.map_values(
                        |s: String| s@,
                    )[i as int]);
                    return false;
                }
                i = i + 1;
            }
            assert(xs@.map_values(|s: String| s@) =~= ys@.map_values(|s: String| s@));
            true
        },
        _ => false,
    }
}

/// A location in a document: the byte span `absolute_start..=absolute_end`
/// and its start and end positions.
#[derive(Debug, Default, Clone, Hash, Eq, PartialEq)]
pub struct Location {
    /// The absolute start position of the location.
    pub absolute_start: usize,
    /// The absolute end position of the location.
    pub absolute_end: usize,
    /// The start position of the location.
    pub start: Position,
    /// The end position of the location.
    pub end: Position,
}

/// Why a location fails validation.
pub open spec fn validation_error(l: Location, input: &str) -> Option<Seq<char>> {
    if l.absolute_start > l.absolute_end {
        Some(
            "Invalid range: start "@ + decimal(l.absolute_start as nat) + " > end "@ + decimal(
                l.absolute_end as nat,
            ),
        )
    } else if l.absolute_end > input.len() {
        Some(
            "End offset "@ + decimal(l.absolute_end as nat) + " exceeds input length "@ + decimal(
                input.len() as nat,
            ),
        )
    } else if !vstd::utf8::is_char_boundary(input.spec_bytes(), l.absolute_start as int) {
        Some("Start offset "@ + decimal(l.absolute_start as nat) + " not on UTF-8 boundary"@)
    } else if !vstd::utf8::is_char_boundary(input.spec_bytes(), l.absolute_end as int) {
        Some("End offset "@ + decimal(l.absolute_end as nat) + " not on UTF-8 boundary"@)
    } else {
        None
    }
}

impl Location {
    /// A copy of this location.
    pub fn duplicate(&self) -> (r: Self)
        ensures
            r == *self,
    {
        Location {
            absolute_start: self.absolute_start,
            absolute_end: self.absolute_end,
            start: self.start.duplicate(),
            end: self.end.duplicate(),
        }
    }

    /// A zero-width location at a single position (`start == end`), with byte offsets `0`.
    pub fn point(position: Position) -> (r: Self)
        ensures
            r.absolute_start == 0,
            r.absolute_end == 0,
            r.start == position,
            r.end == position,
    {
        let start = Position {
            line: position.line,
            column: position.column,
            file: match &position.file {
                Some(chain) => Some(share_chain(chain)),
                None => None,
            },
        };
        Location { absolute_start: 0, absolute_end: 0, start, end: position }
    }

    /// Byte length of this location (`absolute_end - absolute_start + 1`, end
    /// inclusive, saturating), only when both boundaries are in the same file.
    pub fn byte_len(&self) -> (r: Option<usize>)
        ensures
            match r {
                Some(n) => chain_view(self.start.file) == chain_view(self.end.file) && n == {
                    let d = if self.absolute_end >= self.absolute_start {
                        self.absolute_end - self.absolute_start
                    } else {
                        0
                    };
                    if d + 1 <= usize::MAX {
                        d + 1
                    } else {
                        usize::MAX as int
                    }
                },
                None => chain_view(self.start.file) != chain_view(self.end.file),
            },
    {
        if same_file(&self.start.file, &self.end.file) {
            let d = if self.absolute_end >= self.absolute_start {
                self.absolute_end - self.absolute_start
            } else {
                0
            };
            Some(
                if d < usize::MAX {
                    d + 1
                } else {
                    usize::MAX
                },
            )
        } else {
            None
        }
    }

    /// Validates that the span is ordered, within `input`, and on UTF-8
    /// character boundaries; the error says which check failed first.
    pub fn validate(&self, input: &str) -> (r: Result<(), String>)
        ensures
            match r {
                Ok(()) => validation_error(*self, input) is None,
                Err(e) => validation_error(*self, input) == Some(e@),
            },
    {
        if self.absolute_start > self.absolute_end {
            let mut s = crate::text::owned("Invalid range: start ");
            push_str(&mut s, usize_decimal(self.absolute_start).as_str());
            push_str(&mut s, " > end ");
            push_str(&mut s, usize_decimal(self.absolute_end).as_str());
            return Err(s);
        }
        if self.absolute_end > input.len() {
            let mut s = crate::text::owned("End offset ");
            push_str(&mut s, usize_decimal(self.absolute_end).as_str());
            push_str(&mut s, " exceeds input length ");
            push_str(&mut s, usize_decimal(input.len()).as_str());
            return Err(s);
        }
        if !input.is_char_boundary(self.absolute_start) {
            let mut s = crate::text::owned("Start offset ");
            push_str(&mut s, usize_decimal(self.absolute_start).as_str());
            push_str(&mut s, " not on UTF-8 boundary");
            return Err(s);
        }
        if !input.is_char_boundary(self.absolute_end) {
            let mut s = crate::text::owned("End offset ");
            push_str(&mut s, usize_decimal(self.absolute_end).as_str());
            push_str(&mut s, " not on UTF-8 boundary");
            return Err(s);
        }
        Ok(())
    }

    /// The display text: `location.start(...), location.end(...)`.
    pub fn to_string(&self) -> (r: String)
        ensures
            r@ == "location.start("@ + "line: "@ + decimal(self.start.line as nat) + ", column: "@
                + decimal(self.start.column as nat) + "), location.end("@ + "line: "@ + decimal(
                self.end.line as nat,
            ) + ", column: "@ + decimal(self.end.column as nat) + ")"@,
    {
        let mut s = crate::text::owned("location.start(");
        push_str(&mut s, self.start.to_string().as_str());
        push_str(&mut s, "), location.end(");
        push_str(&mut s, self.end.to_string().as_str());
        push_str(&mut s, ")");
        s
    }
}

} // verus!
