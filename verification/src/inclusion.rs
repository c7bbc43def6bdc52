//! Include directives: targets, line ranges, content selection and indentation.
use vstd::prelude::*;

use crate::conditional::{eq_ignore_ascii_case, names_eq_ignore_ascii_case, SourceLocation};
use crate::lines::{index_of_char_from, index_of_from, views};
use crate::location::{Location, Position};
use crate::numbers::{parse_isize, parse_usize, signed_text, unsigned_text};
use vstd::utf8::encode_utf8;
use vstd::string::StringSliceAdditionalSpecFns;
use crate::text::{
    chars_of, contains_seq, find_chars, occurs_at, owned, push_char, push_str, split_on,
    split_str, str_contains, string_from_chars,
};

verus! {

// ----------------------------------------------------------------------------
// Targets.
// ----------------------------------------------------------------------------

/// An ASCII letter.
pub open spec fn is_ascii_alpha(c: char) -> bool {
    ('a' <= c && c <= 'z') || ('A' <= c && c <= 'Z')
}

/// A character that may follow the first one of a URI scheme: an ASCII
/// letter or digit, `.`, `+` or `-`.
pub open spec fn is_scheme_char(c: char) -> bool {
    is_ascii_alpha(c) || ('0' <= c && c <= '9') || c == '.' || c == '+' || c == '-'
}

/// The URI scheme of an include target: the text before the first `:`, when
/// it is at least two characters, starts with an ASCII letter and continues
/// with scheme characters. A single letter (a Windows drive, `c:/`) is no scheme.
pub open spec fn uri_scheme(target: Seq<char>) -> Option<Seq<char>> {
    let i = index_of_from(target, ':', 0);
    let scheme = target.take(i);
    if i < target.len() && scheme.len() >= 2 && is_ascii_alpha(scheme[0]) && forall|k: int|
        1 <= k < scheme.len() ==> is_scheme_char(#[trigger] scheme[k]) {
        Some(scheme)
    } else {
        None
    }
}

/// The URI scheme of an include target, if it has one (see [`uri_scheme`]).
pub fn include_uri_scheme(target: &str) -> (r: Option<&str>)
    ensures
        match uri_scheme(target@) {
            Some(s) => r matches Some(x) && x@ == s,
            None => r is None,
        },
{
    let v = chars_of(target);
    let i = index_of_char_from(v.as_slice(), ':', 0);
    if i >= v.len() || i < 2 {
        return None;
    }
    let c0 = v[0];
    if !(('a' <= c0 && c0 <= 'z') || ('A' <= c0 && c0 <= 'Z')) {
        return None;
    }
    let mut k: usize = 1;
    while k < i
        invariant
            1 <= k <= i < v@.len(),
            v@ == target@,
            i == index_of_from(v@, ':', 0),
            forall|m: int| 1 <= m < k ==> is_scheme_char(#[trigger] v@.take(i as int)[m]),
        decreases i - k,
    {
        let c = v[k];
        assert(v@.take(i as int)[k as int] == c);
        if !(('a' <= c && c <= 'z') || ('A' <= c && c <= 'Z') || ('0' <= c && c <= '9') || c
            == '.' || c == '+' || c == '-') {
            assert(!is_scheme_char(v@.take(i as int)[k as int]));
            return None;
        }
        k = k + 1;
    }
    let r = crate::text::char_slice(target, 0, i);
    assert(r@ =~= v@.take(i as int));
    Some(r)
}

/// The first position at or after `p` holding `?` or `#` (the length when none does).
pub open spec fn query_start(s: Seq<char>, p: int) -> int
    decreases s.len() - p,
{
    if p < 0 || p >= s.len() {
        s.len() as int
    } else if s[p] == '?' || s[p] == '#' {
        p
    } else {
        query_start(s, p + 1)
    }
}

/// The last position before `e` holding `/`, if any.
pub open spec fn last_slash_before(s: Seq<char>, e: int) -> Option<int>
    decreases e,
{
    if e <= 0 || e > s.len() {
        None
    } else if s[e - 1] == '/' {
        Some(e - 1)
    } else {
        last_slash_before(s, e - 1)
    }
}

/// The first position at which `p` occurs in `s` at or after `i` (the length
/// when it does not).
pub open spec fn find_from(s: Seq<char>, p: Seq<char>, i: int) -> int
    decreases s.len() - i,
{
    if i < 0 || i >= s.len() {
        s.len() as int
    } else if occurs_at(s, p, i) {
        i
    } else {
        find_from(s, p, i + 1)
    }
}

/// The directory of a URI, unnormalised: the URI without its query or
/// fragment, up to (not including) the last `/` after the authority's
/// `://`; the whole URI without query when no such `/` exists.
pub open spec fn uri_directory_spec(uri: Seq<char>) -> Seq<char> {
    let u = uri.take(query_start(uri, 0));
    let f = find_from(u, "://"@, 0);
    let a = if f < u.len() {
        f + 3
    } else {
        0
    };
    match last_slash_before(u, u.len() as int) {
        Some(k) => if k >= a {
            u.take(k)
        } else {
            u
        },
        None => u,
    }
}

/// The directory portion of a URI without normalising its path (see [`uri_directory_spec`]).
pub fn uri_directory(uri: &str) -> (r: String)
    ensures
        r@ == uri_directory_spec(uri@),
{
    let v = chars_of(uri);
    let mut q: usize = 0;
    while q < v.len() && v[q] != '?' && v[q] != '#'
        invariant
            q <= v@.len(),
            query_start(v@, 0) == query_start(v@, q as int),
        decreases v.len() - q,
    {
        q = q + 1;
    }
    let u = string_from_chars(&v[0..q]);
    let uv = chars_of(u.as_str());
    assert(uv@ =~= uri@.take(query_start(uri@, 0)));
    let sep = chars_of("://");
    let mut f: usize = 0;
    while f < uv.len() && !crate::text::occurs_at_exec(uv.as_slice(), sep.as_slice(), f)
        invariant
            f <= uv@.len(),
            find_from(uv@, "://"@, 0) == find_from(uv@, "://"@, f as int),
            sep@ == "://"@,
        decreases uv.len() - f,
    {
        f = f + 1;
    }
    let a: usize = if f < uv.len() {
        proof {
            reveal_strlit("://");
        }
        f + 3
    } else {
        0
    };
    let mut e: usize = uv.len();
    while e > 0 && uv[e - 1] != '/'
        invariant
            e <= uv@.len(),
            last_slash_before(uv@, uv@.len() as int) == last_slash_before(uv@, e as int),
        decreases e,
    {
        e = e - 1;
    }
    if e > 0 && e - 1 >= a {
        let r = string_from_chars(&uv[0..e - 1]);
        assert(r@ =~= uv@.take(e - 1));
        r
    } else {
        u
    }
}

/// Where a document being preprocessed came from.
#[derive(Debug)]
pub enum SourceOrigin {
    /// A file, by path.
    File(String),
    /// A URI, spelled exactly as it was requested.
    Uri(String),
}

/// What an include directive points at.
#[derive(Debug, PartialEq, Eq)]
pub enum Target {
    /// A filesystem path.
    Path(String),
    /// An `http` or `https` URL.
    Url(String),
    /// A URI of another scheme, which is not read.
    UnsupportedUri(String),
}

/// `url::ParseError`, the reason a URL does not parse.
#[verifier::external_type_specification]
#[verifier::external_body]
pub struct ExUrlParseError(url::ParseError);

/// Whether the WHATWG URL parser of the `url` crate accepts `input` as an
/// absolute URL.
pub uninterp spec fn url_parses(input: Seq<char>) -> bool;

/// `url::Url`, a parsed absolute URL.
#[verifier::external_type_specification]
#[verifier::external_body]
pub struct ExUrl(url::Url);

/// `url::Url::parse`: the URL that `input` spells, when it parses as an
/// absolute URL. Which strings parse is named, not stated: the URL standard
/// takes pages to state; nothing is claimed of the parsed value.
#[verifier::external_body]
pub(crate) fn parse_url(input: &str) -> (r: Result<url::Url, url::ParseError>)
    ensures
        r is Ok == url_parses(input@),
{
    url::Url::parse(input)
}

/// Why an include directive was refused.
#[derive(Debug)]
pub enum IncludeError {
    /// The target looked like a URL but did not parse as one.
    Url(url::ParseError),
    /// A `lines` value that is not a line number or range.
    InvalidLineRange(SourceLocation, String),
    /// A `leveloffset` value that is not an integer.
    InvalidLevelOffset(SourceLocation, String),
    /// An `indent` value that is not a non-negative integer.
    InvalidIndent(SourceLocation, String),
    /// An `indent` value above the limit (the value and the limit).
    IncludeIndentTooLarge(SourceLocation, usize, usize),
    /// The line is not an include directive of the accepted form.
    Parse(SourceLocation),
}

/// The kind of an include target.
#[derive(Clone, Copy, Debug, PartialEq, Eq, Structural)]
pub enum TargetKind {
    Path,
    Url,
    UnsupportedUri,
}

/// The kind and text of a target.
pub open spec fn target_view(t: Target) -> (TargetKind, Seq<char>) {
    match t {
        Target::Path(p) => (TargetKind::Path, p@),
        Target::Url(u) => (TargetKind::Url, u@),
        Target::UnsupportedUri(u) => (TargetKind::UnsupportedUri, u@),
    }
}

/// What [`Target::parse`] makes of `target` from `origin`, or `None` where a
/// URL does not parse: an `http` or `https` scheme (any letter case) gives
/// that URL; another scheme an unsupported URI; a scheme-less target of a
/// URI document the URI's directory, `/` and the target; otherwise a path.
pub open spec fn target_result(target: Seq<char>, origin: SourceOrigin) -> Option<
    (TargetKind, Seq<char>),
> {
    match uri_scheme(target) {
        Some(s) => if eq_ignore_ascii_case(s, "http"@) || eq_ignore_ascii_case(s, "https"@) {
            if url_parses(target) {
                Some((TargetKind::Url, target))
            } else {
                None
            }
        } else {
            Some((TargetKind::UnsupportedUri, target))
        },
        None => match origin {
            SourceOrigin::Uri(c) => {
                let u = uri_directory_spec(c@) + "/"@ + target;
                if url_parses(u) {
                    Some((TargetKind::Url, u))
                } else {
                    None
                }
            },
            SourceOrigin::File(_) => Some((TargetKind::Path, target)),
        },
    }
}

impl Target {
    /// Resolve an include target from the document's origin (see [`target_result`]).
    pub fn parse(target: &str, origin: &SourceOrigin) -> (r: Result<Self, IncludeError>)
        ensures
            match target_result(target@, *origin) {
                Some(v) => r matches Ok(t) && target_view(t) == v,
                None => r matches Err(IncludeError::Url(_)),
            },
            match uri_scheme(target@) {
                Some(s) => if eq_ignore_ascii_case(s, "http"@) || eq_ignore_ascii_case(
                    s,
                    "https"@,
                ) {
                    (url_parses(target@) ==> (r matches Ok(Target::Url(u)) && u@ == target@)) && (
                    !url_parses(target@) ==> r matches Err(IncludeError::Url(_)))
                } else {
                    r matches Ok(Target::UnsupportedUri(u)) && u@ == target@
                },
                None => match origin {
                    SourceOrigin::Uri(c) => {
                        let u = uri_directory_spec(c@) + "/"@ + target@;
                        &&& url_parses(u) ==> (r matches Ok(Target::Url(x)) && x@ == u)
                        &&& !url_parses(u) ==> r matches Err(IncludeError::Url(_))
                    },
                    SourceOrigin::File(_) => r matches Ok(Target::Path(p)) && p@ == target@,
                },
            },
    {
        match include_uri_scheme(target) {
            Some(scheme) => {
                if names_eq_ignore_ascii_case(scheme, "http") || names_eq_ignore_ascii_case(
                    scheme,
                    "https",
                ) {
                    match parse_url(target) {
                        Ok(_) => Ok(Target::Url(owned(target))),
                        Err(e) => Err(IncludeError::Url(e)),
                    }
                } else {
                    Ok(Target::UnsupportedUri(owned(target)))
                }
            },
            None => match origin {
                SourceOrigin::Uri(containing) => {
                    let mut uri = uri_directory(containing.as_str());
                    push_char(&mut uri, '/');
                    push_str(&mut uri, target);
                    proof {
                        reveal_strlit("/");
                    }
                    assert(uri@ =~= uri_directory_spec(containing@) + "/"@ + target@);
                    match parse_url(uri.as_str()) {
                        Ok(_) => Ok(Target::Url(uri)),
                        Err(e) => Err(IncludeError::Url(e)),
                    }
                },
                SourceOrigin::File(_) => Ok(Target::Path(owned(target))),
            },
        }
    }
}

} // verus!

verus! {

// ----------------------------------------------------------------------------
// Line ranges.
// ----------------------------------------------------------------------------

/// A line selection of an include: one line, or a range whose end may be
/// negative (`-1` reads to the last line).
#[derive(Clone, Copy, Debug, PartialEq, Eq, Structural)]
pub enum LinesRange {
    Single(usize),
    Range(usize, isize),
}

/// The `usize` that `str::parse` reads from `s`.
pub open spec fn usize_text(s: Seq<char>) -> Option<usize> {
    match unsigned_text(s) {
        Some(n) => if n <= usize::MAX {
            Some(n as usize)
        } else {
            None
        },
        None => None,
    }
}

/// The `isize` that `str::parse` reads from `s`.
pub open spec fn isize_text(s: Seq<char>) -> Option<isize> {
    match signed_text(s) {
        Some(n) => if isize::MIN <= n <= isize::MAX {
            Some(n as isize)
        } else {
            None
        },
        None => None,
    }
}

/// The line range `s` spells: `start..end` (split at the first `..`, the
/// end running to any later `..`), or a single line number.
pub open spec fn lines_range_of(s: Seq<char>) -> Option<LinesRange> {
    let i = find_from(s, ".."@, 0);
    if i < s.len() {
        let rest = s.skip(i + 2);
        let j = find_from(rest, ".."@, 0);
        match (usize_text(s.take(i)), isize_text(rest.take(j))) {
            (Some(a), Some(b)) => Some(LinesRange::Range(a, b)),
            _ => None,
        }
    } else {
        match usize_text(s) {
            Some(n) => Some(LinesRange::Single(n)),
            None => None,
        }
    }
}

proof fn lemma_find_from_bounds(s: Seq<char>, p: Seq<char>, i: int)
    requires
        0 <= i,
        p.len() == 2,
    ensures
        i <= s.len() ==> i <= find_from(s, p, i) <= s.len(),
        find_from(s, p, i) < s.len() ==> find_from(s, p, i) + 2 <= s.len(),
    decreases s.len() - i,
{
    if i < s.len() && !occurs_at(s, p, i) {
        lemma_find_from_bounds(s, p, i + 1);
    }
}

/// The first position at or after `i` where `..` occurs in `v`.
fn find_dots(v: &[char], i: usize) -> (r: usize)
    requires
        i <= v@.len(),
    ensures
        r == find_from(v@, ".."@, i as int),
        i <= r <= v@.len(),
        r < v@.len() ==> r + 2 <= v@.len(),
{
    let dots = chars_of("..");
    proof {
        reveal_strlit("..");
        lemma_find_from_bounds(v@, ".."@, i as int);
    }
    let mut k = i;
    while k < v.len() && !crate::text::occurs_at_exec(v, dots.as_slice(), k)
        invariant
            i <= k <= v@.len(),
            dots@ == ".."@,
            find_from(v@, ".."@, i as int) == find_from(v@, ".."@, k as int),
        decreases v.len() - k,
    {
        k = k + 1;
    }
    k
}

pub(crate) fn usize_of(s: &str) -> (r: Option<usize>)
    ensures
        r == usize_text(s@),
{
    parse_usize(s)
}

pub(crate) fn isize_of(s: &str) -> (r: Option<isize>)
    ensures
        r == isize_text(s@),
{
    parse_isize(s)
}

/// Whether `loc` is column 1 of line `line_number` (clamped to `u32`) of `file`.
pub open spec fn located_at(loc: SourceLocation, line_number: usize, file: Option<&str>) -> bool {
    &&& loc.location.start.line == (if line_number <= u32::MAX {
        line_number
    } else {
        u32::MAX as usize
    })
    &&& loc.location.start.column == 1
    &&& match file {
        Some(f) => loc.file matches Some(g) && g@ == f@,
        None => loc.file is None,
    }
}

/// The location of an include directive at `line_number` of `file`.
pub(crate) fn directive_location(line_number: usize, file: Option<&str>) -> (r: SourceLocation)
    ensures
        located_at(r, line_number, file),
{
    let location = Location::point(Position::from_line_col(line_number, 1));
    let file = match file {
        Some(f) => Some(owned(f)),
        None => None,
    };
    SourceLocation { file, location }
}

/// Whether `e` reports the line range `text` at `line_number` of `file`.
pub open spec fn line_range_error(
    e: IncludeError,
    text: Seq<char>,
    line_number: usize,
    file: Option<&str>,
) -> bool {
    e matches IncludeError::InvalidLineRange(loc, t) && t@ == text && located_at(
        loc,
        line_number,
        file,
    )
}

impl LinesRange {
    /// Parse one line range (see [`lines_range_of`]); a refusal reports the
    /// text at `line_number` of `file`.
    pub fn from_str_with_location(line_range: &str, line_number: usize, file: Option<&str>) -> (r:
        Result<Self, IncludeError>)
        ensures
            match lines_range_of(line_range@) {
                Some(l) => r == Ok::<LinesRange, IncludeError>(l),
                None => r matches Err(e) && line_range_error(e, line_range@, line_number, file),
            },
    {
        let v = chars_of(line_range);
        let i = find_dots(v.as_slice(), 0);
        let parsed = if i < v.len() {
            let first = string_from_chars(&v[0..i]);
            let rest = string_from_chars(&v[i + 2..v.len()]);
            let rv = chars_of(rest.as_str());
            let j = find_dots(rv.as_slice(), 0);
            let second = string_from_chars(&rv[0..j]);
            assert(first@ =~= line_range@.take(i as int));
            assert(rest@ =~= line_range@.skip(i + 2));
            assert(second@ =~= rest@.take(j as int));
            match (usize_of(first.as_str()), isize_of(second.as_str())) {
                (Some(a), Some(b)) => Some(LinesRange::Range(a, b)),
                _ => None,
            }
        } else {
            match usize_of(line_range) {
                Some(n) => Some(LinesRange::Single(n)),
                None => None,
            }
        };
        match parsed {
            Some(l) => Ok(l),
            None => Err(
                IncludeError::InvalidLineRange(
                    directive_location(line_number, file),
                    owned(line_range),
                ),
            ),
        }
    }
}

/// The pieces of a `lines` value: split at `;` if it holds one, else at `,`
/// if it holds one, else the whole value.
pub open spec fn range_pieces(value: Seq<char>) -> Seq<Seq<char>> {
    if value.contains(';') {
        split_on(value, ';')
    } else if value.contains(',') {
        split_on(value, ',')
    } else {
        seq![value]
    }
}

/// The index of the first piece that is no line range (the length when all are).
pub open spec fn first_bad_range(pieces: Seq<Seq<char>>, k: int) -> int
    decreases pieces.len() - k,
{
    if k < 0 || k >= pieces.len() {
        pieces.len() as int
    } else if lines_range_of(pieces[k]) is None {
        k
    } else {
        first_bad_range(pieces, k + 1)
    }
}

impl LinesRange {
    /// Parse a `lines` value of one or more ranges (see [`range_pieces`]):
    /// all of them, or the refusal of the first piece that is no range.
    pub fn parse(value: &str, line_number: usize, file: Option<&str>) -> (r: Result<
        Vec<Self>,
        IncludeError,
    >)
        ensures
            ({
                let pieces = range_pieces(value@);
                let bad = first_bad_range(pieces, 0);
                if bad == pieces.len() {
                    r matches Ok(v) && v@.len() == pieces.len() && forall|k: int|
                        0 <= k < pieces.len() ==> lines_range_of(pieces[k]) == Some(
                            #[trigger] v@[k],
                        )
                } else {
                    r matches Err(e) && line_range_error(e, pieces[bad], line_number, file)
                }
            }),
    {
        let v = chars_of(value);
        let pieces: Vec<&str> = if crate::text::has_char(v.as_slice(), ';') {
            split_str(value, ';')
        } else if crate::text::has_char(v.as_slice(), ',') {
            split_str(value, ',')
        } else {
            let mut one = Vec::new();
            one.push(value);
            one
        };
        let ghost ps = range_pieces(value@);
        assert(pieces@.len() == ps.len());
        assert(forall|k: int| 0 <= k < pieces@.len() ==> (#[trigger] pieces@[k])@ == ps[k]);
        let mut ranges: Vec<LinesRange> = Vec::new();
        let mut i: usize = 0;
        while i < pieces.len()
            invariant
                i <= pieces@.len(),
                pieces@.len() == ps.len(),
                ps == range_pieces(value@),
                forall|k: int| 0 <= k < pieces@.len() ==> (#[trigger] pieces@[k])@ == ps[k],
                ranges@.len() == i,
                forall|k: int| 0 <= k < i ==> lines_range_of(ps[k]) == Some(#[trigger] ranges@[k]),
                first_bad_range(ps, 0) == first_bad_range(ps, i as int),
            decreases pieces.len() - i,
        {
            match Self::from_str_with_location(pieces[i], line_number, file) {
                Ok(l) => {
                    ranges.push(l);
                },
                Err(e) => {
                    return Err(e);
                },
            }
            i = i + 1;
        }
        Ok(ranges)
    }
}

/// The zero-based index of the last line a range end selects among `max`
/// lines: a negative end selects the last line (none when there are no
/// lines), a positive end its line, and zero nothing.
pub open spec fn end_line(end: isize, max: usize) -> Option<usize> {
    if end < 0 {
        if max >= 1 {
            Some((max - 1) as usize)
        } else {
            None
        }
    } else if end > 0 {
        Some((end - 1) as usize)
    } else {
        None
    }
}

/// The zero-based index of the last line a range end selects (see [`end_line`]).
pub fn resolve_end_line(end: isize, max_size: usize) -> (r: Option<usize>)
    ensures
        r == end_line(end, max_size),
{
    if end < 0 {
        max_size.checked_sub(1)
    } else if end > 0 {
        Some((end - 1) as usize)
    } else {
        None
    }
}

/// Whether a range selects the zero-based line `i` of `count` lines: a
/// single line number from 1, or a range from a start of at least 1 to its
/// end, both within the file and in order.
pub open spec fn range_selects(r: LinesRange, count: usize, i: int) -> bool {
    match r {
        LinesRange::Single(n) => n >= 1 && i == n - 1 && n - 1 < count,
        LinesRange::Range(s, e) => s >= 1 && match end_line(e, count) {
            Some(last) => s - 1 < count && last < count && s - 1 <= last && s - 1 <= i <= last,
            None => false,
        },
    }
}

/// Whether any of `ranges` selects line `i`.
pub open spec fn line_selected(ranges: Seq<LinesRange>, count: usize, i: int) -> bool {
    exists|k: int| 0 <= k < ranges.len() && range_selects(ranges[k], count, i)
}

/// The selected line indices below `n`, in increasing order.
pub open spec fn selected_below(ranges: Seq<LinesRange>, count: usize, n: int) -> Seq<usize>
    decreases n,
{
    if n <= 0 {
        Seq::empty()
    } else if line_selected(ranges, count, n - 1) {
        selected_below(ranges, count, n - 1).push((n - 1) as usize)
    } else {
        selected_below(ranges, count, n - 1)
    }
}

/// The indices of the content lines the ranges select, each once, in
/// increasing order (see [`range_selects`]).
pub fn collect_line_range_indices(ranges: &[LinesRange], content_lines_count: usize) -> (r: Vec<
    usize,
>)
    ensures
        r@ == selected_below(ranges@, content_lines_count, content_lines_count as int),
{
    let n = content_lines_count;
    let mut marks: Vec<bool> = Vec::new();
    let mut i: usize = 0;
    while i < n
        invariant
            i <= n,
            marks@.len() == i,
            forall|q: int| 0 <= q < i ==> !marks@[q],
        decreases n - i,
    {
        marks.push(false);
        i = i + 1;
    }
    let mut k: usize = 0;
    while k < ranges.len()
        invariant
            k <= ranges@.len(),
            marks@.len() == n,
            forall|q: int|
                0 <= q < n ==> marks@[q] == exists|m: int|
                    0 <= m < k && range_selects(#[trigger] ranges@[m], n, q),
        decreases ranges.len() - k,
    {
        let ghost before = marks@;
        assert(forall|q: int|
            0 <= q < n ==> before[q] == exists|m: int|
                0 <= m < k && range_selects(#[trigger] ranges@[m], n, q));
        let r = ranges[k];
        match r {
            LinesRange::Single(num) => {
                if num >= 1 && num - 1 < n {
                    marks.set(num - 1, true);
                }
            },
            LinesRange::Range(start, end) => {
                if start >= 1 {
                    match resolve_end_line(end, n) {
                        Some(last) => {
                            if start - 1 < n && last < n && start - 1 <= last {
                                let mut q = start - 1;
                                while q <= last
                                    invariant
                                        start - 1 <= q <= last + 1,
                                        last < n,
                                        marks@.len() == n,
                                        forall|p: int|
                                            0 <= p < n ==> marks@[p] == (before[p] || (start - 1
                                                <= p < q)),
                                    decreases last + 1 - q,
                                {
                                    marks.set(q, true);
                                    q = q + 1;
                                }
                            }
                        },
                        None => {},
                    }
                }
            },
        }
        assert(forall|p: int| 0 <= p < n ==> marks@[p] == (before[p] || range_selects(r, n, p)));
        assert forall|q: int| 0 <= q < n implies marks@[q] == exists|m: int|
            0 <= m < k + 1 && range_selects(#[trigger] ranges@[m], n, q) by {
            if range_selects(r, n, q) {
                assert(range_selects(ranges@[k as int], n, q));
            }
            if before[q] {
                let m = choose|m: int| 0 <= m < k && range_selects(#[trigger] ranges@[m], n, q);
                assert(0 <= m < k + 1 && range_selects(ranges@[m], n, q));
            }
            if exists|m: int| 0 <= m < k + 1 && range_selects(#[trigger] ranges@[m], n, q) {
                let m = choose|m: int| 0 <= m < k + 1 && range_selects(#[trigger] ranges@[m], n, q);
                if m < k {
                    assert(before[q]);
                }
            }
        }
        k = k + 1;
    }
    let mut out: Vec<usize> = Vec::new();
    let mut j: usize = 0;
    while j < n
        invariant
            j <= n,
            marks@.len() == n,
            forall|q: int| 0 <= q < n ==> marks@[q] == line_selected(ranges@, n, q),
            out@ == selected_below(ranges@, n, j as int),
        decreases n - j,
    {
        if marks[j] {
            out.push(j);
        }
        j = j + 1;
    }
    out
}

/// The number of indices from `lo` through `hi` that lie below `n`.
spec fn run_len(lo: int, hi: int, n: int) -> int {
    let top = if n <= hi + 1 {
        n
    } else {
        hi + 1
    };
    if top <= lo {
        0
    } else {
        top - lo
    }
}

proof fn lemma_one_range_selects_a_run(r: LinesRange, count: usize, lo: int, hi: int, n: int)
    requires
        0 <= lo,
        hi < count,
        0 <= n <= count,
        forall|i: int| 0 <= i < count ==> (range_selects(r, count, i) <==> lo <= i <= hi),
    ensures
        selected_below(seq![r], count, n) == Seq::new(
            run_len(lo, hi, n) as nat,
            |k: int| (lo + k) as usize,
        ),
    decreases n,
{
    let rs = seq![r];
    if n > 0 {
        lemma_one_range_selects_a_run(r, count, lo, hi, n - 1);
        if range_selects(r, count, n - 1) {
            assert(rs[0] == r);
            assert(line_selected(rs, count, n - 1));
        } else {
            assert(!line_selected(rs, count, n - 1)) by {
                if line_selected(rs, count, n - 1) {
                    let k = choose|k: int| 0 <= k < rs.len() && range_selects(rs[k], count, n - 1);
                    assert(rs[k] == r);
                }
            }
        }
        assert(selected_below(rs, count, n) =~= Seq::new(
            run_len(lo, hi, n) as nat,
            |k: int| (lo + k) as usize,
        ));
    } else {
        assert(selected_below(rs, count, n) =~= Seq::new(
            run_len(lo, hi, n) as nat,
            |k: int| (lo + k) as usize,
        ));
    }
}

/// A range from line `start` to a negative end (written `-1`) runs to the
/// last line: among `count` lines, with `start` within the file, the
/// selected zero-based indices are exactly `start - 1` through `count - 1`,
/// in order.
pub proof fn law_range_to_the_end_selects_through_the_last_line(
    start: usize,
    end: isize,
    count: usize,
)
    requires
        1 <= start <= count,
        end < 0,
    ensures
        selected_below(seq![LinesRange::Range(start, end)], count, count as int) == Seq::new(
            (count - start + 1) as nat,
            |k: int| (start - 1 + k) as usize,
        ),
{
    lemma_one_range_selects_a_run(
        LinesRange::Range(start, end),
        count,
        start - 1,
        count - 1,
        count as int,
    );
}

/// A range `start..end` with both ends within the file and in order selects
/// exactly the zero-based indices `start - 1` through `end - 1`, in order.
pub proof fn law_range_within_the_file_selects_its_lines(start: usize, end: isize, count: usize)
    requires
        1 <= start,
        start <= end <= count,
    ensures
        selected_below(seq![LinesRange::Range(start, end)], count, count as int) == Seq::new(
            (end - start + 1) as nat,
            |k: int| (start - 1 + k) as usize,
        ),
{
    lemma_one_range_selects_a_run(LinesRange::Range(start, end), count, start - 1, end - 1, count as int);
}

/// A single line number within the file selects just its line.
pub proof fn law_single_line_selects_its_line(line: usize, count: usize)
    requires
        1 <= line <= count,
    ensures
        selected_below(seq![LinesRange::Single(line)], count, count as int) == seq![(line - 1) as usize],
{
    lemma_one_range_selects_a_run(LinesRange::Single(line), count, line - 1, line - 1, count as int);
    assert(Seq::new(1nat, |k: int| (line - 1 + k) as usize) =~= seq![(line - 1) as usize]);
}

/// A range that starts at 0, ends at 0, starts past the last line, ends
/// past it, or ends before it starts selects nothing; so does a line number
/// of 0 or past the last line.
pub proof fn law_ranges_outside_the_file_select_nothing(r: LinesRange, count: usize)
    requires
        match r {
            LinesRange::Single(n) => n == 0 || n > count,
            LinesRange::Range(s, e) => s == 0 || e == 0 || s > count || (e > 0 && (e > count || s
                > e)),
        },
    ensures
        selected_below(seq![r], count, count as int).len() == 0,
{
    lemma_one_range_selects_a_run(r, count, 0, -1, count as int);
}

proof fn lemma_selected_below_holds(ranges: Seq<LinesRange>, count: usize, n: int)
    requires
        0 <= n,
    ensures
        forall|i: int|
            0 <= i < selected_below(ranges, count, n).len() ==> (#[trigger] selected_below(
                ranges,
                count,
                n,
            )[i]) < n && line_selected(ranges, count, selected_below(ranges, count, n)[i] as int),
        forall|i: int, j: int|
            0 <= i < j < selected_below(ranges, count, n).len() ==> selected_below(ranges, count, n)[i]
                < selected_below(ranges, count, n)[j],
        forall|q: int|
            0 <= q < n && line_selected(ranges, count, q) ==> selected_below(ranges, count, n).contains(
                q as usize,
            ),
    decreases n,
{
    if n > 0 {
        lemma_selected_below_holds(ranges, count, n - 1);
        let p = selected_below(ranges, count, n - 1);
        if line_selected(ranges, count, n - 1) {
            let r = selected_below(ranges, count, n);
            assert(r == p.push((n - 1) as usize));
            assert forall|q: int| 0 <= q < n && line_selected(ranges, count, q) implies r.contains(
                q as usize,
            ) by {
                if q < n - 1 {
                    let w = choose|w: int| 0 <= w < p.len() && p[w] == q as usize;
                    assert(r[w] == q as usize);
                } else {
                    assert(r[p.len() as int] == q as usize);
                }
            }
        }
    }
}

/// Several ranges select the union of what each selects, each index once
/// and in increasing order: an index is selected exactly when one of the
/// ranges on its own selects it.
pub proof fn law_ranges_select_the_union_in_order(ranges: Seq<LinesRange>, count: usize)
    ensures
        forall|i: int, j: int|
            0 <= i < j < selected_below(ranges, count, count as int).len() ==> selected_below(
                ranges,
                count,
                count as int,
            )[i] < selected_below(ranges, count, count as int)[j],
        forall|q: usize|
            selected_below(ranges, count, count as int).contains(q) <==> exists|k: int|
                0 <= k < ranges.len() && #[trigger] selected_below(
                    seq![ranges[k]],
                    count,
                    count as int,
                ).contains(q),
{
    let all = selected_below(ranges, count, count as int);
    lemma_selected_below_holds(ranges, count, count as int);
    assert forall|q: usize| all.contains(q) <==> exists|k: int|
        0 <= k < ranges.len() && #[trigger] selected_below(seq![ranges[k]], count, count as int).contains(
            q,
        ) by {
        if all.contains(q) {
            let w = choose|w: int| 0 <= w < all.len() && all[w] == q;
            assert(line_selected(ranges, count, q as int));
            let k = choose|k: int| 0 <= k < ranges.len() && range_selects(ranges[k], count, q as int);
            let one = seq![ranges[k]];
            assert(one[0] == ranges[k]);
            assert(line_selected(one, count, q as int));
            lemma_selected_below_holds(one, count, count as int);
        }
        if exists|k: int|
            0 <= k < ranges.len() && #[trigger] selected_below(seq![ranges[k]], count, count as int).contains(
                q,
            ) {
            let k = choose|k: int|
                0 <= k < ranges.len() && #[trigger] selected_below(
                    seq![ranges[k]],
                    count,
                    count as int,
                ).contains(q);
            let one = seq![ranges[k]];
            lemma_selected_below_holds(one, count, count as int);
            let sel = selected_below(one, count, count as int);
            let w = choose|w: int| 0 <= w < sel.len() && sel[w] == q;
            assert(line_selected(one, count, q as int));
            let m = choose|m: int| 0 <= m < one.len() && range_selects(one[m], count, q as int);
            assert(one[m] == ranges[k]);
            assert(line_selected(ranges, count, q as int));
        }
    }
}

/// The zero-based span `(first, last)` a line range covers in a file of
/// `count` lines: line numbers count from 1, and an end of `-1` is the last
/// line. `None` for a range starting at 0, an end below 1 other than `-1`,
/// or a span not within the file.
pub open spec fn listed_span(r: LinesRange, count: int) -> Option<(int, int)> {
    match r {
        LinesRange::Single(n) => if n >= 1 && n - 1 < count {
            Some((n - 1, n - 1))
        } else {
            None
        },
        LinesRange::Range(s, e) => {
            let first = s - 1;
            let last = if e == -1 {
                count - 1
            } else {
                e - 1
            };
            if s >= 1 && (e == -1 || e > 0) && first < count && last < count {
                Some((first, last))
            } else {
                None
            }
        },
    }
}

/// The lines each range lists, range after range, in the order written
/// (a line may come more than once).
pub open spec fn listed_lines(lines: Seq<Seq<char>>, ranges: Seq<LinesRange>) -> Seq<Seq<char>>
    decreases ranges.len(),
{
    if ranges.len() == 0 {
        Seq::empty()
    } else {
        listed_lines(lines, ranges.drop_last()) + match listed_span(
            ranges.last(),
            lines.len() as int,
        ) {
            Some((a, b)) => lines.subrange(a, b + 1),
            None => Seq::empty(),
        }
    }
}

/// Whether a listed span runs backwards by more than an empty span, which
/// slicing refuses.
pub open spec fn span_backwards(r: LinesRange, count: int) -> bool {
    match listed_span(r, count) {
        Some((a, b)) => a > b + 1,
        None => false,
    }
}

/// The lines that `ranges` list, in the order written (see [`listed_lines`]):
/// single line numbers from 1, and ranges whose end `-1` runs to the last
/// line; entries out of range are skipped.
pub fn select_listed_lines(content_lines: &[String], ranges: &[LinesRange]) -> (r: Vec<String>)
    requires
        forall|k: int|
            0 <= k < ranges@.len() ==> !span_backwards(
                #[trigger] ranges@[k],
                content_lines@.len() as int,
            ),
    ensures
        views(r@) == listed_lines(views(content_lines@), ranges@),
{
    let n = content_lines.len();
    let ghost lv = views(content_lines@);
    let mut out: Vec<String> = Vec::new();
    let mut i: usize = 0;
    assert(ranges@.take(0) =~= Seq::<LinesRange>::empty());
    while i < ranges.len()
        invariant
            i <= ranges@.len(),
            n == content_lines@.len(),
            lv == views(content_lines@),
            lv.len() == n,
            forall|k: int|
                0 <= k < ranges@.len() ==> !span_backwards(#[trigger] ranges@[k], n as int),
            views(out@) == listed_lines(lv, ranges@.take(i as int)),
        decreases ranges.len() - i,
    {
        assert(ranges@.take(i + 1).drop_last() =~= ranges@.take(i as int));
        assert(ranges@.take(i + 1).last() == ranges@[i as int]);
        assert(!span_backwards(ranges@[i as int], n as int));
        let span: Option<(usize, usize)> = match ranges[i] {
            LinesRange::Single(k) => if k >= 1 && k - 1 < n {
                Some((k - 1, k - 1))
            } else {
                None
            },
            LinesRange::Range(a, e) => {
                if a >= 1 && a - 1 < n {
                    if e == -1 {
                        if n >= 1 {
                            Some((a - 1, n - 1))
                        } else {
                            None
                        }
                    } else if e > 0 && ((e - 1) as usize) < n {
                        Some((a - 1, (e - 1) as usize))
                    } else {
                        None
                    }
                } else {
                    None
                }
            },
        };
        let ghost before = views(out@);
        match span {
            Some((a, b)) => {
                assert(listed_span(ranges@[i as int], n as int) == Some((a as int, b as int)));
                let mut j: usize = a;
                while j <= b
                    invariant
                        a <= j <= b + 1,
                        b < n,
                        n == content_lines@.len(),
                        lv == views(content_lines@),
                        views(out@) == before + lv.subrange(a as int, j as int),
                    decreases b + 1 - j,
                {
                    let c = content_lines[j].clone();
                    let ghost prev = out@;
                    out.push(c);
                    assert(views(out@) =~= views(prev).push(lv[j as int]));
                    assert(lv.subrange(a as int, j + 1) =~= lv.subrange(a as int, j as int).push(
                        lv[j as int],
                    ));
                    j = j + 1;
                }
            },
            None => {
                assert(listed_span(ranges@[i as int], n as int) is None);
                assert(before + Seq::<Seq<char>>::empty() =~= before);
            },
        }
        i = i + 1;
    }
    assert(ranges@.take(ranges@.len() as int) =~= ranges@);
    out
}

/// Whether a range starts at line 0, which selects nothing and is reported.
pub open spec fn names_line_zero(r: LinesRange) -> bool {
    match r {
        LinesRange::Single(n) => n == 0,
        LinesRange::Range(s, _) => s == 0,
    }
}

/// How many of the ranges start at line 0.
pub open spec fn zero_line_count(ranges: Seq<LinesRange>) -> nat
    decreases ranges.len(),
{
    if ranges.len() == 0 {
        0
    } else {
        zero_line_count(ranges.drop_last()) + if names_line_zero(ranges.last()) {
            1nat
        } else {
            0nat
        }
    }
}

/// The warning for a range that starts at line 0.
pub open spec fn line_zero_warning() -> Seq<char> {
    "invalid line number in include directive: 0"@
}

/// The warnings that selecting lines with `ranges` raises: one for each
/// range that starts at line 0 (line numbers count from 1).
pub fn line_number_warnings(ranges: &[LinesRange]) -> (r: Vec<String>)
    ensures
        r@.len() == zero_line_count(ranges@),
        forall|k: int| 0 <= k < r@.len() ==> (#[trigger] r@[k])@ == line_zero_warning(),
{
    let mut out: Vec<String> = Vec::new();
    let mut i: usize = 0;
    assert(ranges@.take(0) =~= Seq::<LinesRange>::empty());
    while i < ranges.len()
        invariant
            i <= ranges@.len(),
            out@.len() == zero_line_count(ranges@.take(i as int)),
            forall|k: int| 0 <= k < out@.len() ==> (#[trigger] out@[k])@ == line_zero_warning(),
        decreases ranges.len() - i,
    {
        assert(ranges@.take(i + 1).drop_last() =~= ranges@.take(i as int));
        assert(ranges@.take(i + 1).last() == ranges@[i as int]);
        let zero = match ranges[i] {
            LinesRange::Single(n) => n == 0,
            LinesRange::Range(s, _) => s == 0,
        };
        if zero {
            out.push(owned("invalid line number in include directive: 0"));
        }
        i = i + 1;
    }
    assert(ranges@.take(ranges@.len() as int) =~= ranges@);
    out
}

/// The byte offset at which each line starts when the lines are joined with
/// single line breaks.
pub open spec fn start_offsets(lens: Seq<nat>) -> Seq<nat>
    decreases lens.len(),
{
    if lens.len() == 0 {
        Seq::empty()
    } else {
        let p = start_offsets(lens.drop_last());
        p.push(if lens.len() == 1 {
            0
        } else {
            p.last() + lens[lens.len() - 2] + 1
        })
    }
}

} // verus!


verus! {

/// The UTF-8 length of each line.
pub open spec fn byte_lens(lines: Seq<String>) -> Seq<nat> {
    Seq::new(lines.len(), |k: int| encode_utf8(lines[k]@).len())
}

/// The sum of the line lengths plus one line break after each line.
pub open spec fn joined_len(lens: Seq<nat>) -> nat
    decreases lens.len(),
{
    if lens.len() == 0 {
        0
    } else {
        joined_len(lens.drop_last()) + lens.last() + 1
    }
}

proof fn lemma_start_offsets(lens: Seq<nat>, i: int)
    requires
        0 <= i < lens.len(),
    ensures
        start_offsets(lens).len() == lens.len(),
        start_offsets(lens)[i] == joined_len(lens.take(i)),
    decreases lens.len(),
{
    let d = lens.drop_last();
    if lens.len() > 1 {
        if i < lens.len() - 1 {
            lemma_start_offsets(d, i);
            assert(d.take(i) =~= lens.take(i));
        } else {
            lemma_start_offsets(d, i - 1);
            assert(lens.take(i).drop_last() =~= lens.take(i - 1));
            assert(d.take(i - 1) =~= lens.take(i - 1));
        }
    } else {
        assert(lens.take(0) =~= Seq::<nat>::empty());
    }
    lemma_start_offsets_len(lens);
}

proof fn lemma_start_offsets_len(lens: Seq<nat>)
    ensures
        start_offsets(lens).len() == lens.len(),
    decreases lens.len(),
{
    if lens.len() > 0 {
        lemma_start_offsets_len(lens.drop_last());
    }
}

/// The byte offset of the first byte of each line within the lines joined
/// with single line breaks.
pub fn line_start_offsets(content_lines: &[String]) -> (r: Vec<usize>)
    requires
        joined_len(byte_lens(content_lines@)) <= usize::MAX,
    ensures
        r@.len() == content_lines@.len(),
        forall|k: int| 0 <= k < r@.len() ==> r@[k] == start_offsets(byte_lens(content_lines@))[k],
{
    let ghost lens = byte_lens(content_lines@);
    let mut starts: Vec<usize> = Vec::new();
    let mut offset: usize = 0;
    let mut i: usize = 0;
    assert(lens.take(0) =~= Seq::<nat>::empty());
    while i < content_lines.len()
        invariant
            i <= content_lines@.len(),
            lens == byte_lens(content_lines@),
            joined_len(lens) <= usize::MAX,
            offset == joined_len(lens.take(i as int)),
            starts@.len() == i,
            forall|k: int| 0 <= k < i ==> starts@[k] == joined_len(lens.take(k)),
        decreases content_lines.len() - i,
    {
        starts.push(offset);
        let line = content_lines[i].as_str();
        assert(lens.take(i + 1).drop_last() =~= lens.take(i as int));
        assert(lens.take(i + 1).last() == lens[i as int]);
        assert(joined_len(lens.take(i + 1)) <= joined_len(lens)) by {
            lemma_joined_len_prefix(lens, i + 1);
        }
        assert(line@ == content_lines@[i as int]@);
        assert(line.spec_bytes() == encode_utf8(line@));
        let n = line.len();
        assert(n == lens[i as int]);
        offset = offset + n + 1;
        i = i + 1;
    }
    proof {
        assert forall|k: int| 0 <= k < starts@.len() implies starts@[k] == start_offsets(lens)[k] by {
            lemma_start_offsets(lens, k);
        }
    }
    starts
}

pub(crate) proof fn lemma_joined_len_prefix(lens: Seq<nat>, i: int)
    requires
        0 <= i <= lens.len(),
    ensures
        joined_len(lens.take(i)) <= joined_len(lens),
    decreases lens.len() - i,
{
    if i < lens.len() {
        lemma_joined_len_prefix(lens, i + 1);
        assert(lens.take(i + 1).drop_last() =~= lens.take(i));
    } else {
        assert(lens.take(i) =~= lens);
    }
}

} // verus!
