//! Tag selection for `include::` directives (`tag=` and `tags=`).
//!
//! Lines of an included file are selected with Asciidoctor's tag-stack state
//! machine: `tag::name[]` opens a region and `end::name[]` closes it; the
//! requested filters decide which regions are kept. Marker lines are never
//! selected.
use vstd::prelude::*;

use crate::charclass::{is_alphanumeric, unicode_alphanumeric};
use crate::text::{
    char_slice, chars_of, contains_seq, find_chars, is_whitespace, is_ws, occurs_at, owned,
    str_eq, trim, trim_str,
};

verus! {

/// One requested tag selection from `tag=` or `tags=`.
///
/// `selected = true` includes the tag; `false` excludes it. The names `*` and
/// `**` retain their Asciidoctor wildcard meanings.
#[derive(Debug, Clone, PartialEq, Eq)]
pub struct Filter {
    pub name: String,
    pub selected: bool,
}

/// What a filter text means: `None` for an empty value or a lone `!`.
pub open spec fn filter_spec(value: Seq<char>) -> Option<(Seq<char>, bool)> {
    let v = trim(value);
    if v.len() == 0 || v == seq!['!'] {
        None
    } else if v[0] == '!' {
        Some((v.drop_first(), false))
    } else {
        Some((v, true))
    }
}

impl Filter {
    /// Parse one selector: `name` selects, `!name` excludes.
    pub fn parse(value: &str) -> (r: Option<Self>)
        ensures
            match r {
                Some(f) => filter_spec(value@) == Some((f.name@, f.selected)),
                None => filter_spec(value@) is None,
            },
    {
        let v = trim_str(value);
        let cs = chars_of(v);
        if cs.len() == 0 || (cs.len() == 1 && cs[0] == '!') {
            proof {
                if cs@.len() == 1 {
                    assert(v@ =~= seq!['!']);
                }
            }
            return None;
        }
        assert(v@ != seq!['!']);
        if cs[0] == '!' {
            Some(Filter { name: owned(char_slice(v, 1, cs.len())), selected: false })
        } else {
            Some(Filter { name: owned(v), selected: true })
        }
    }
}

/// A recoverable problem discovered while selecting tagged lines.
#[derive(Debug, PartialEq, Eq)]
pub enum Issue {
    UnexpectedEnd { name: String, line: usize },
    MismatchedEnd { expected: String, found: String, line: usize },
    Unclosed { name: String, line: usize },
    Missing { names: Vec<String> },
}

/// The mathematical value of an [`Issue`].
pub enum SpecIssue {
    UnexpectedEnd { name: Seq<char>, line: int },
    MismatchedEnd { expected: Seq<char>, found: Seq<char>, line: int },
    Unclosed { name: Seq<char>, line: int },
    Missing { names: Seq<Seq<char>> },
}

/// The character views of a list of strings.
pub open spec fn strings_view(v: Seq<String>) -> Seq<Seq<char>> {
    v.map_values(|s: String| s@)
}

impl View for Issue {
    type V = SpecIssue;

    open spec fn view(&self) -> SpecIssue {
        match self {
            Issue::UnexpectedEnd { name, line } => SpecIssue::UnexpectedEnd {
                name: name@,
                line: *line as int,
            },
            Issue::MismatchedEnd { expected, found, line } => SpecIssue::MismatchedEnd {
                expected: expected@,
                found: found@,
                line: *line as int,
            },
            Issue::Unclosed { name, line } => SpecIssue::Unclosed { name: name@, line: *line as int },
            Issue::Missing { names } => SpecIssue::Missing { names: strings_view(names@) },
        }
    }
}

/// The first position at or after `i` where `p` occurs in `s`, or -1.
pub open spec fn find_from(s: Seq<char>, p: Seq<char>, i: int) -> int
    decreases s.len() + 1 - i,
{
    if i < 0 || i > s.len() {
        -1
    } else if occurs_at(s, p, i) {
        i
    } else {
        find_from(s, p, i + 1)
    }
}

/// The first position where `p` occurs in `s`, or -1 (`str::find`).
pub open spec fn find_first(s: Seq<char>, p: Seq<char>) -> int {
    find_from(s, p, 0)
}

proof fn lemma_find_from_found(s: Seq<char>, p: Seq<char>, i: int, r: int)
    requires
        0 <= i <= r <= s.len(),
        occurs_at(s, p, r),
        forall|j: int| i <= j < r ==> !occurs_at(s, p, j),
    ensures
        find_from(s, p, i) == r,
    decreases r - i,
{
    if i < r {
        lemma_find_from_found(s, p, i + 1, r);
    }
}

proof fn lemma_find_from_absent(s: Seq<char>, p: Seq<char>, i: int)
    requires
        0 <= i <= s.len() + 1,
        forall|j: int| i <= j <= s.len() ==> !occurs_at(s, p, j),
    ensures
        find_from(s, p, i) == -1,
    decreases s.len() + 1 - i,
{
    if i <= s.len() {
        lemma_find_from_absent(s, p, i + 1);
    }
}

proof fn lemma_find_first(s: Seq<char>, p: Seq<char>, r: Option<int>)
    requires
        match r {
            Some(i) => occurs_at(s, p, i) && forall|j: int| 0 <= j < i ==> !occurs_at(s, p, j),
            None => !contains_seq(s, p),
        },
    ensures
        find_first(s, p) == match r {
            Some(i) => i,
            None => -1,
        },
{
    match r {
        Some(i) => {
            lemma_find_from_found(s, p, 0, i);
        },
        None => {
            assert forall|j: int| 0 <= j <= s.len() implies !occurs_at(s, p, j) by {
                if occurs_at(s, p, j) {
                    assert(contains_seq(s, p));
                }
            }
            lemma_find_from_absent(s, p, 0);
        },
    }
}

/// A character that a tag marker may not follow directly.
pub open spec fn word_char(c: char) -> bool {
    unicode_alphanumeric(c) || c == '_'
}

/// A character that may not appear in a tag name.
pub open spec fn bad_name_char(c: char) -> bool {
    is_ws(c) || c == '[' || c == ']'
}

/// The tag name a line holds after the first occurrence of `keyword`, if that
/// occurrence is a marker: not preceded by a word character, and followed by a
/// non-empty name without whitespace or brackets, then `[]`.
pub open spec fn marker_name(s: Seq<char>, keyword: Seq<char>) -> Option<Seq<char>> {
    let pos = find_first(s, keyword);
    if pos < 0 {
        None
    } else if pos > 0 && word_char(s[pos - 1]) {
        None
    } else {
        let after = s.skip(pos + keyword.len());
        let b = find_first(after, "[]"@);
        if b < 0 {
            None
        } else {
            let name = after.take(b);
            if name.len() > 0 && forall|k: int| 0 <= k < name.len() ==> !bad_name_char(
                #[trigger] name[k],
            ) {
                Some(name)
            } else {
                None
            }
        }
    }
}

/// The tag marker a line holds: `(true, name)` for `end::name[]`, `(false,
/// name)` for `tag::name[]`. An opening marker is looked for first.
pub open spec fn directive_spec(s: Seq<char>) -> Option<(bool, Seq<char>)> {
    match marker_name(s, "tag::"@) {
        Some(n) => Some((false, n)),
        None => match marker_name(s, "end::"@) {
            Some(n) => Some((true, n)),
            None => None,
        },
    }
}

#[verifier::loop_isolation(false)]
fn marker_name_exec<'a>(line: &'a str, v: &Vec<char>, keyword: &str) -> (r: Option<&'a str>)
    requires
        v@ == line@,
    ensures
        match r {
            Some(n) => marker_name(line@, keyword@) == Some(n@),
            None => marker_name(line@, keyword@) is None,
        },
{
    let kw = chars_of(keyword);
    let found = find_chars(v.as_slice(), kw.as_slice());
    proof {
        lemma_find_first(
            line@,
            keyword@,
            match found {
                Some(i) => Some(i as int),
                None => None,
            },
        );
    }
    let pos = match found {
        Some(p) => p,
        None => return None,
    };
    if pos > 0 {
        let c = v[pos - 1];
        if is_alphanumeric(c) || c == '_' {
            return None;
        }
    }
    assert(occurs_at(v@, kw@, pos as int));
    assert(pos + kw@.len() <= v@.len());
    let vl = v.len();
    let kl = kw.len();
    let start = pos + kl;
    let after = char_slice(line, start, v.len());
    let av = chars_of(after);
    let brackets = chars_of("[]");
    let b_found = find_chars(av.as_slice(), brackets.as_slice());
    proof {
        lemma_find_first(
            after@,
            "[]"@,
            match b_found {
                Some(i) => Some(i as int),
                None => None,
            },
        );
        assert(after@ =~= line@.skip(pos + keyword@.len()));
    }
    let b = match b_found {
        Some(b) => b,
        None => return None,
    };
    if b == 0 {
        return None;
    }
    let mut k: usize = 0;
    while k < b
        invariant
            b <= av@.len(),
            av@ == after@,
            k <= b,
            forall|q: int| 0 <= q < k ==> !bad_name_char(#[trigger] av@[q]),
        decreases b - k,
    {
        let c = av[k];
        if is_whitespace(c) || c == '[' || c == ']' {
            assert(after@.take(b as int)[k as int] == c);
            assert(bad_name_char(after@.take(b as int)[k as int]));
            return None;
        }
        k = k + 1;
    }
    let name = char_slice(after, 0, b);
    assert forall|q: int| 0 <= q < name@.len() implies !bad_name_char(#[trigger] name@[q]) by {
        assert(name@[q] == av@[q]);
    }
    Some(name)
}

/// Extract a tag marker from one source line.
///
/// Returns `("tag", name)` for an opening marker and `("end", name)` for a
/// closing marker.
pub fn extract_tag_directive(line: &str) -> (r: Option<(&'static str, &str)>)
    ensures
        match r {
            Some((d, n)) => match directive_spec(line@) {
                Some((is_end, name)) => name == n@ && (if is_end {
                    d@ == "end"@
                } else {
                    d@ == "tag"@
                }),
                None => false,
            },
            None => directive_spec(line@) is None,
        },
{
    let v = chars_of(line);
    match marker_name_exec(line, &v, "tag::") {
        Some(n) => Some(("tag", n)),
        None => match marker_name_exec(line, &v, "end::") {
            Some(n) => Some(("end", n)),
            None => None,
        },
    }
}

/// Whether a line holds a `tag::` or `end::` marker.
pub fn is_tag_directive_line(line: &str) -> (r: bool)
    ensures
        r == directive_spec(line@) is Some,
{
    extract_tag_directive(line).is_some()
}

fn directive_of<'a>(line: &'a str) -> (r: Option<(bool, &'a str)>)
    ensures
        match r {
            Some((e, n)) => directive_spec(line@) == Some((e, n@)),
            None => directive_spec(line@) is None,
        },
{
    let v = chars_of(line);
    match marker_name_exec(line, &v, "tag::") {
        Some(n) => Some((false, n)),
        None => match marker_name_exec(line, &v, "end::") {
            Some(n) => Some((true, n)),
            None => None,
        },
    }
}

} // verus!

verus! {

/// A list of `(name, flag)` pairs viewed as character sequences.
pub open spec fn pairs_view(v: Seq<(String, bool)>) -> Seq<(Seq<char>, bool)> {
    v.map_values(|e: (String, bool)| (e.0@, e.1))
}

/// The last index holding `n`, or -1.
pub open spec fn key_index(p: Seq<(Seq<char>, bool)>, n: Seq<char>) -> int
    decreases p.len(),
{
    if p.len() == 0 {
        -1
    } else if p.last().0 == n {
        p.len() - 1
    } else {
        key_index(p.drop_last(), n)
    }
}

pub proof fn lemma_key_index_bounds(p: Seq<(Seq<char>, bool)>, n: Seq<char>)
    ensures
        -1 <= key_index(p, n) < p.len(),
        key_index(p, n) >= 0 ==> p[key_index(p, n)].0 == n,
        key_index(p, n) < 0 ==> forall|i: int| 0 <= i < p.len() ==> (#[trigger] p[i]).0 != n,
    decreases p.len(),
{
    if p.len() > 0 && p.last().0 != n {
        lemma_key_index_bounds(p.drop_last(), n);
        assert forall|i: int| 0 <= i < p.len() - 1 implies (#[trigger] p[i]) == p.drop_last()[i] by {
        }
    }
}

/// The value recorded for `n`, if any.
pub open spec fn lookup(p: Seq<(Seq<char>, bool)>, n: Seq<char>) -> Option<bool> {
    let i = key_index(p, n);
    if i >= 0 {
        Some(p[i].1)
    } else {
        None
    }
}

/// The requested selections: each name once, at its first position, with the
/// value of its last filter.
pub open spec fn requested_of(f: Seq<(Seq<char>, bool)>) -> Seq<(Seq<char>, bool)>
    decreases f.len(),
{
    if f.len() == 0 {
        Seq::empty()
    } else {
        let p = requested_of(f.drop_last());
        let e = f.last();
        let i = key_index(p, e.0);
        if i >= 0 {
            p.update(i, e)
        } else {
            p.push(e)
        }
    }
}

/// The names of a pair list.
pub open spec fn keys_of(p: Seq<(Seq<char>, bool)>) -> Seq<Seq<char>> {
    p.map_values(|e: (Seq<char>, bool)| e.0)
}

/// The pair list without the entries named `n`.
pub open spec fn remove_key(p: Seq<(Seq<char>, bool)>, n: Seq<char>) -> Seq<(Seq<char>, bool)>
    decreases p.len(),
{
    if p.len() == 0 {
        p
    } else {
        let q = remove_key(p.drop_last(), n);
        if p.last().0 == n {
            q
        } else {
            q.push(p.last())
        }
    }
}

/// The value of the first name in `order` that `r` still holds.
pub open spec fn first_remaining(order: Seq<Seq<char>>, r: Seq<(Seq<char>, bool)>) -> Option<bool>
    decreases order.len(),
{
    if order.len() == 0 {
        None
    } else {
        match lookup(r, order[0]) {
            Some(v) => Some(v),
            None => first_remaining(order.drop_first(), r),
        }
    }
}

/// Whether any pair selects.
pub open spec fn any_selected(p: Seq<(Seq<char>, bool)>) -> bool {
    exists|i: int| 0 <= i < p.len() && (#[trigger] p[i]).1
}

/// The state the scanner starts from.
pub struct TagSetup {
    /// Requested selections other than the wildcards.
    pub requested: Seq<(Seq<char>, bool)>,
    /// All requested names in first-request order.
    pub order: Seq<Seq<char>>,
    /// The initial selection state.
    pub select: bool,
    /// The selection state outside every tag.
    pub base: bool,
    /// The selection applied to tags that are not requested by name.
    pub wildcard: Option<bool>,
}

/// How the filters set up the scan. `**` selects (or, negated, excludes) the
/// untagged lines and, unless `*` is also given, excluded-by-default names
/// imply that other tags are selected; `*` alone applies to every tag and, when
/// it comes first, to the untagged lines as its negation; with neither, the
/// untagged lines are selected only when no tag is selected by name.
pub open spec fn tag_setup(filters: Seq<(Seq<char>, bool)>) -> TagSetup {
    let req = requested_of(filters);
    let order = keys_of(req);
    let first_is_star = order.len() > 0 && order[0] == "*"@;
    match lookup(req, "**"@) {
        Some(d) => {
            let r1 = remove_key(req, "**"@);
            match lookup(r1, "*"@) {
                Some(w) => TagSetup {
                    requested: remove_key(r1, "*"@),
                    order,
                    select: d,
                    base: d,
                    wildcard: Some(w),
                },
                None => TagSetup {
                    requested: r1,
                    order,
                    select: d,
                    base: d,
                    wildcard: if !d && first_remaining(order, r1) == Some(false) {
                        Some(true)
                    } else {
                        None
                    },
                },
            }
        },
        None => match lookup(req, "*"@) {
            Some(w) => TagSetup {
                requested: remove_key(req, "*"@),
                order,
                select: if first_is_star {
                    !w
                } else {
                    false
                },
                base: if first_is_star {
                    !w
                } else {
                    false
                },
                wildcard: Some(w),
            },
            None => TagSetup {
                requested: req,
                order,
                select: !any_selected(req),
                base: !any_selected(req),
                wildcard: None,
            },
        },
    }
}

/// The running state of the scan.
pub struct ScanState {
    pub select: bool,
    /// Open tags: name, selection state it established, opening line.
    pub stack: Seq<(Seq<char>, bool, int)>,
    /// Requested tags that were found selected.
    pub tags: Seq<Seq<char>>,
    /// Selected line indices.
    pub lines: Seq<int>,
    pub issues: Seq<SpecIssue>,
}

/// The last stack index whose name is `n`, or -1.
pub open spec fn stack_index(stack: Seq<(Seq<char>, bool, int)>, n: Seq<char>) -> int
    decreases stack.len(),
{
    if stack.len() == 0 {
        -1
    } else if stack.last().0 == n {
        stack.len() - 1
    } else {
        stack_index(stack.drop_last(), n)
    }
}

/// One line of the scan (`idx` is zero-based; issues report `idx + 1`).
pub open spec fn scan_step(st: TagSetup, s: ScanState, line: Seq<char>, idx: int) -> ScanState {
    let source_line = idx + 1;
    match directive_spec(line) {
        Some((true, name)) => {
            if s.stack.len() > 0 && s.stack.last().0 == name {
                let stack2 = s.stack.drop_last();
                ScanState {
                    select: if stack2.len() > 0 {
                        stack2.last().1
                    } else {
                        st.base
                    },
                    stack: stack2,
                    ..s
                }
            } else if lookup(st.requested, name) is Some {
                let k = stack_index(s.stack, name);
                if k >= 0 {
                    ScanState {
                        stack: s.stack.remove(k),
                        issues: s.issues.push(
                            SpecIssue::MismatchedEnd {
                                expected: s.stack.last().0,
                                found: name,
                                line: source_line,
                            },
                        ),
                        ..s
                    }
                } else {
                    ScanState {
                        issues: s.issues.push(
                            SpecIssue::UnexpectedEnd { name, line: source_line },
                        ),
                        ..s
                    }
                }
            } else {
                s
            }
        },
        Some((false, name)) => match lookup(st.requested, name) {
            Some(v) => ScanState {
                select: v,
                tags: if v && !s.tags.contains(name) {
                    s.tags.push(name)
                } else {
                    s.tags
                },
                stack: s.stack.push((name, v, source_line)),
                ..s
            },
            None => match st.wildcard {
                Some(w) => {
                    let sel = if s.stack.len() > 0 && !s.select {
                        false
                    } else {
                        w
                    };
                    ScanState { select: sel, stack: s.stack.push((name, sel, source_line)), ..s }
                },
                None => s,
            },
        },
        None => if s.select {
            ScanState { lines: s.lines.push(idx), ..s }
        } else {
            s
        },
    }
}

/// The state after the first `n` lines.
pub open spec fn scan(st: TagSetup, lines: Seq<Seq<char>>, n: int) -> ScanState
    decreases n,
{
    if n <= 0 {
        ScanState {
            select: st.select,
            stack: Seq::empty(),
            tags: Seq::empty(),
            lines: Seq::empty(),
            issues: Seq::empty(),
        }
    } else {
        scan_step(st, scan(st, lines, n - 1), lines[n - 1], n - 1)
    }
}

/// One `Unclosed` issue per open tag, bottom of the stack first.
pub open spec fn unclosed_issues(stack: Seq<(Seq<char>, bool, int)>) -> Seq<SpecIssue> {
    stack.map_values(|e: (Seq<char>, bool, int)| SpecIssue::Unclosed { name: e.0, line: e.2 })
}

/// The names in `order` requested as selected but never found selected.
pub open spec fn missing_names(
    order: Seq<Seq<char>>,
    req: Seq<(Seq<char>, bool)>,
    tags: Seq<Seq<char>>,
) -> Seq<Seq<char>>
    decreases order.len(),
{
    if order.len() == 0 {
        Seq::empty()
    } else {
        let p = missing_names(order.drop_last(), req, tags);
        let n = order.last();
        if lookup(req, n) == Some(true) && !tags.contains(n) {
            p.push(n)
        } else {
            p
        }
    }
}

/// The selected line indices and the issues reported, in order.
pub open spec fn select_spec(filters: Seq<(Seq<char>, bool)>, lines: Seq<Seq<char>>) -> (
    Seq<int>,
    Seq<SpecIssue>,
) {
    let st = tag_setup(filters);
    let s = scan(st, lines, lines.len() as int);
    let missing = missing_names(st.order, st.requested, s.tags);
    (
        s.lines,
        s.issues + unclosed_issues(s.stack) + if missing.len() > 0 {
            seq![SpecIssue::Missing { names: missing }]
        } else {
            Seq::empty()
        },
    )
}

/// The filters viewed as name and selection pairs.
pub open spec fn filters_view(f: Seq<Filter>) -> Seq<(Seq<char>, bool)> {
    f.map_values(|x: Filter| (x.name@, x.selected))
}

} // verus!

verus! {

proof fn lemma_key_index_take(p: Seq<(Seq<char>, bool)>, n: Seq<char>, j: int)
    requires
        0 < j <= p.len(),
    ensures
        key_index(p.take(j), n) == if p[j - 1].0 == n {
            j - 1
        } else {
            key_index(p.take(j - 1), n)
        },
{
    assert(p.take(j).drop_last() =~= p.take(j - 1));
    assert(p.take(j).last() == p[j - 1]);
}

fn key_index_exec(p: &Vec<(String, bool)>, n: &str) -> (r: Option<usize>)
    ensures
        match r {
            Some(i) => key_index(pairs_view(p@), n@) == i as int && i < p@.len(),
            None => key_index(pairs_view(p@), n@) == -1,
        },
{
    let ghost pv = pairs_view(p@);
    let mut j: usize = p.len();
    assert(pv.take(pv.len() as int) =~= pv);
    while j > 0
        invariant
            j <= p@.len(),
            pv == pairs_view(p@),
            key_index(pv, n@) == key_index(pv.take(j as int), n@),
        decreases j,
    {
        proof {
            lemma_key_index_take(pv, n@, j as int);
        }
        if str_eq(p[j - 1].0.as_str(), n) {
            return Some(j - 1);
        }
        j = j - 1;
    }
    assert(pv.take(0) =~= Seq::<(Seq<char>, bool)>::empty());
    None
}

fn lookup_exec(p: &Vec<(String, bool)>, n: &str) -> (r: Option<bool>)
    ensures
        r == lookup(pairs_view(p@), n@),
{
    match key_index_exec(p, n) {
        Some(i) => Some(p[i].1),
        None => None,
    }
}

fn requested_exec(filters: &[Filter]) -> (r: Vec<(String, bool)>)
    ensures
        pairs_view(r@) == requested_of(filters_view(filters@)),
{
    let ghost fv = filters_view(filters@);
    let mut req: Vec<(String, bool)> = Vec::new();
    let mut i: usize = 0;
    assert(fv.take(0) =~= Seq::<(Seq<char>, bool)>::empty());
    assert(pairs_view(req@) =~= Seq::<(Seq<char>, bool)>::empty());
    while i < filters.len()
        invariant
            i <= filters@.len(),
            fv == filters_view(filters@),
            pairs_view(req@) == requested_of(fv.take(i as int)),
        decreases filters.len() - i,
    {
        assert(fv.take(i + 1).drop_last() =~= fv.take(i as int));
        assert(fv.take(i + 1).last() == fv[i as int]);
        let f = &filters[i];
        let ghost before = req@;
        match key_index_exec(&req, f.name.as_str()) {
            Some(k) => {
                req.set(k, (f.name.clone(), f.selected));
                assert(pairs_view(req@) =~= pairs_view(before).update(k as int, fv[i as int]));
            },
            None => {
                req.push((f.name.clone(), f.selected));
                assert(pairs_view(req@) =~= pairs_view(before).push(fv[i as int]));
            },
        }
        i = i + 1;
    }
    assert(fv.take(filters@.len() as int) =~= fv);
    req
}

fn remove_key_exec(p: &Vec<(String, bool)>, n: &str) -> (r: Vec<(String, bool)>)
    ensures
        pairs_view(r@) == remove_key(pairs_view(p@), n@),
{
    let ghost pv = pairs_view(p@);
    let mut out: Vec<(String, bool)> = Vec::new();
    let mut i: usize = 0;
    assert(pv.take(0) =~= Seq::<(Seq<char>, bool)>::empty());
    assert(pairs_view(out@) =~= Seq::<(Seq<char>, bool)>::empty());
    while i < p.len()
        invariant
            i <= p@.len(),
            pv == pairs_view(p@),
            pairs_view(out@) == remove_key(pv.take(i as int), n@),
        decreases p.len() - i,
    {
        assert(pv.take(i + 1).drop_last() =~= pv.take(i as int));
        assert(pv.take(i + 1).last() == pv[i as int]);
        let ghost before = out@;
        if !str_eq(p[i].0.as_str(), n) {
            out.push((p[i].0.clone(), p[i].1));
            assert(pairs_view(out@) =~= pairs_view(before).push(pv[i as int]));
        }
        i = i + 1;
    }
    assert(pv.take(p@.len() as int) =~= pv);
    out
}

fn first_remaining_exec(order: &Vec<String>, r: &Vec<(String, bool)>) -> (res: Option<bool>)
    ensures
        res == first_remaining(strings_view(order@), pairs_view(r@)),
{
    let ghost ov = strings_view(order@);
    let mut i: usize = 0;
    assert(ov.skip(0) =~= ov);
    while i < order.len()
        invariant
            i <= order@.len(),
            ov == strings_view(order@),
            first_remaining(ov, pairs_view(r@)) == first_remaining(ov.skip(i as int), pairs_view(r@)),
        decreases order.len() - i,
    {
        assert(ov.skip(i as int)[0] == ov[i as int]);
        assert(ov.skip(i as int).drop_first() =~= ov.skip(i + 1));
        match lookup_exec(r, order[i].as_str()) {
            Some(v) => {
                return Some(v);
            },
            None => {},
        }
        i = i + 1;
    }
    None
}

fn any_selected_exec(p: &Vec<(String, bool)>) -> (r: bool)
    ensures
        r == any_selected(pairs_view(p@)),
{
    let mut i: usize = 0;
    while i < p.len()
        invariant
            i <= p@.len(),
            forall|k: int| 0 <= k < i ==> !(#[trigger] pairs_view(p@)[k]).1,
        decreases p.len() - i,
    {
        if p[i].1 {
            assert(pairs_view(p@)[i as int].1);
            return true;
        }
        i = i + 1;
    }
    false
}

fn keys_exec(p: &Vec<(String, bool)>) -> (r: Vec<String>)
    ensures
        strings_view(r@) == keys_of(pairs_view(p@)),
{
    let mut out: Vec<String> = Vec::new();
    let mut i: usize = 0;
    while i < p.len()
        invariant
            i <= p@.len(),
            strings_view(out@) == keys_of(pairs_view(p@)).take(i as int),
        decreases p.len() - i,
    {
        let ghost before = out@;
        let c = p[i].0.clone();
        assert(c@ == keys_of(pairs_view(p@))[i as int]);
        out.push(c);
        assert(strings_view(out@) =~= strings_view(before).push(c@));
        assert(keys_of(pairs_view(p@)).take(i + 1) =~= keys_of(pairs_view(p@)).take(i as int).push(
            c@,
        ));
        i = i + 1;
    }
    assert(keys_of(pairs_view(p@)).take(p@.len() as int) =~= keys_of(pairs_view(p@)));
    out
}

/// The setup of a scan: requested selections, request order, initial and
/// base selection, and wildcard selection.
fn setup_exec(filters: &[Filter]) -> (r: (Vec<(String, bool)>, Vec<String>, bool, bool, Option<bool>))
    ensures
        pairs_view(r.0@) == tag_setup(filters_view(filters@)).requested,
        strings_view(r.1@) == tag_setup(filters_view(filters@)).order,
        r.2 == tag_setup(filters_view(filters@)).select,
        r.3 == tag_setup(filters_view(filters@)).base,
        r.4 == tag_setup(filters_view(filters@)).wildcard,
{
    let req = requested_exec(filters);
    let order = keys_exec(&req);
    let first_is_star = order.len() > 0 && str_eq(order[0].as_str(), "*");
    match lookup_exec(&req, "**") {
        Some(d) => {
            let r1 = remove_key_exec(&req, "**");
            match lookup_exec(&r1, "*") {
                Some(w) => {
                    let r2 = remove_key_exec(&r1, "*");
                    (r2, order, d, d, Some(w))
                },
                None => {
                    let fr = first_remaining_exec(&order, &r1);
                    let wildcard = if !d && fr == Some(false) {
                        Some(true)
                    } else {
                        None
                    };
                    (r1, order, d, d, wildcard)
                },
            }
        },
        None => match lookup_exec(&req, "*") {
            Some(w) => {
                let r1 = remove_key_exec(&req, "*");
                let sel = if first_is_star {
                    !w
                } else {
                    false
                };
                (r1, order, sel, sel, Some(w))
            },
            None => {
                let base = !any_selected_exec(&req);
                (req, order, base, base, None)
            },
        },
    }
}

/// A stack of open tags viewed as character sequences.
pub open spec fn stack_view(v: Seq<(String, bool, usize)>) -> Seq<(Seq<char>, bool, int)> {
    v.map_values(|e: (String, bool, usize)| (e.0@, e.1, e.2 as int))
}

/// The views of a list of issues.
pub open spec fn issues_view(v: Seq<Issue>) -> Seq<SpecIssue> {
    v.map_values(|i: Issue| i@)
}

/// A list of indices viewed as integers.
pub open spec fn indices_view(v: Seq<usize>) -> Seq<int> {
    v.map_values(|x: usize| x as int)
}

struct ExecScan {
    select: bool,
    stack: Vec<(String, bool, usize)>,
    tags: Vec<String>,
    lines: Vec<usize>,
    issues: Vec<Issue>,
}

impl ExecScan {
    spec fn view(&self) -> ScanState {
        ScanState {
            select: self.select,
            stack: stack_view(self.stack@),
            tags: strings_view(self.tags@),
            lines: indices_view(self.lines@),
            issues: issues_view(self.issues@),
        }
    }
}

proof fn lemma_stack_index_take(p: Seq<(Seq<char>, bool, int)>, n: Seq<char>, j: int)
    requires
        0 < j <= p.len(),
    ensures
        stack_index(p.take(j), n) == if p[j - 1].0 == n {
            j - 1
        } else {
            stack_index(p.take(j - 1), n)
        },
{
    assert(p.take(j).drop_last() =~= p.take(j - 1));
    assert(p.take(j).last() == p[j - 1]);
}

fn stack_index_exec(p: &Vec<(String, bool, usize)>, n: &str) -> (r: Option<usize>)
    ensures
        match r {
            Some(i) => stack_index(stack_view(p@), n@) == i as int && i < p@.len(),
            None => stack_index(stack_view(p@), n@) == -1,
        },
{
    let ghost pv = stack_view(p@);
    let mut j: usize = p.len();
    assert(pv.take(pv.len() as int) =~= pv);
    while j > 0
        invariant
            j <= p@.len(),
            pv == stack_view(p@),
            stack_index(pv, n@) == stack_index(pv.take(j as int), n@),
        decreases j,
    {
        proof {
            lemma_stack_index_take(pv, n@, j as int);
        }
        if str_eq(p[j - 1].0.as_str(), n) {
            return Some(j - 1);
        }
        j = j - 1;
    }
    assert(pv.take(0) =~= Seq::<(Seq<char>, bool, int)>::empty());
    None
}

fn strings_contain(v: &Vec<String>, n: &str) -> (r: bool)
    ensures
        r == strings_view(v@).contains(n@),
{
    let mut i: usize = 0;
    while i < v.len()
        invariant
            i <= v@.len(),
            forall|k: int| 0 <= k < i ==> (#[trigger] strings_view(v@)[k]) != n@,
        decreases v.len() - i,
    {
        if str_eq(v[i].as_str(), n) {
            assert(strings_view(v@)[i as int] == n@);
            return true;
        }
        i = i + 1;
    }
    false
}

fn scan_line(
    s: &mut ExecScan,
    requested: &Vec<(String, bool)>,
    base: bool,
    wildcard: Option<bool>,
    line: &str,
    idx: usize,
    Ghost(st): Ghost<TagSetup>,
)
    requires
        pairs_view(requested@) == st.requested,
        base == st.base,
        wildcard == st.wildcard,
        idx < usize::MAX,
    ensures
        final(s).view() == scan_step(st, old(s).view(), line@, idx as int),
{
    let ghost old_view = s.view();
    let source_line = idx + 1;
    match directive_of(line) {
        Some((true, name)) => {
            let n = s.stack.len();
            if n > 0 && str_eq(s.stack[n - 1].0.as_str(), name) {
                let ghost before = s.stack@;
                s.stack.pop();
                assert(stack_view(s.stack@) =~= stack_view(before).drop_last());
                let m = s.stack.len();
                s.select = if m > 0 {
                    s.stack[m - 1].1
                } else {
                    base
                };
            } else if lookup_exec(requested, name).is_some() {
                match stack_index_exec(&s.stack, name) {
                    Some(k) => {
                        let expected = s.stack[n - 1].0.clone();
                        let ghost before = s.stack@;
                        s.stack.remove(k);
                        assert(stack_view(s.stack@) =~= stack_view(before).remove(k as int));
                        let ghost ib = s.issues@;
                        s.issues.push(
                            Issue::MismatchedEnd { expected, found: owned(name), line: source_line },
                        );
                        assert(issues_view(s.issues@) =~= issues_view(ib).push(
                            s.issues@.last()@,
                        ));
                    },
                    None => {
                        let ghost ib = s.issues@;
                        s.issues.push(Issue::UnexpectedEnd { name: owned(name), line: source_line });
                        assert(issues_view(s.issues@) =~= issues_view(ib).push(
                            s.issues@.last()@,
                        ));
                    },
                }
            }
        },
        Some((false, name)) => {
            match lookup_exec(requested, name) {
                Some(v) => {
                    s.select = v;
                    if v && !strings_contain(&s.tags, name) {
                        let ghost tb = s.tags@;
                        s.tags.push(owned(name));
                        assert(strings_view(s.tags@) =~= strings_view(tb).push(name@));
                    }
                    let ghost before = s.stack@;
                    s.stack.push((owned(name), v, source_line));
                    assert(stack_view(s.stack@) =~= stack_view(before).push(
                        (name@, v, source_line as int),
                    ));
                },
                None => match wildcard {
                    Some(w) => {
                        let sel = if s.stack.len() > 0 && !s.select {
                            false
                        } else {
                            w
                        };
                        s.select = sel;
                        let ghost before = s.stack@;
                        s.stack.push((owned(name), sel, source_line));
                        assert(stack_view(s.stack@) =~= stack_view(before).push(
                            (name@, sel, source_line as int),
                        ));
                    },
                    None => {},
                },
            }
        },
        None => {
            if s.select {
                let ghost lb = s.lines@;
                s.lines.push(idx);
                assert(indices_view(s.lines@) =~= indices_view(lb).push(idx as int));
            }
        },
    }
}

/// Select source-line indices with Asciidoctor's tag-stack state machine.
///
/// Returns the selected zero-based line indices (marker lines are never
/// selected) and the recoverable issues in the order they are found: boundary
/// problems as the scan meets them, then one `Unclosed` per tag left open, then
/// the requested tags that were never selected.
pub fn select_tagged_lines(lines: &[String], filters: &[Filter]) -> (r: (Vec<usize>, Vec<Issue>))
    ensures
        (indices_view(r.0@), issues_view(r.1@)) == select_spec(
            filters_view(filters@),
            strings_view(lines@),
        ),
{
    let ghost st = tag_setup(filters_view(filters@));
    let ghost lv = strings_view(lines@);
    let (requested, order, select, base, wildcard) = setup_exec(filters);
    let mut s = ExecScan {
        select,
        stack: Vec::new(),
        tags: Vec::new(),
        lines: Vec::new(),
        issues: Vec::new(),
    };
    assert(stack_view(s.stack@) =~= Seq::<(Seq<char>, bool, int)>::empty());
    assert(strings_view(s.tags@) =~= Seq::<Seq<char>>::empty());
    assert(indices_view(s.lines@) =~= Seq::<int>::empty());
    assert(issues_view(s.issues@) =~= Seq::<SpecIssue>::empty());
    assert(s.view() == scan(st, lv, 0));
    let mut i: usize = 0;
    while i < lines.len()
        invariant
            i <= lines@.len(),
            lv == strings_view(lines@),
            pairs_view(requested@) == st.requested,
            base == st.base,
            wildcard == st.wildcard,
            s.view() == scan(st, lv, i as int),
        decreases lines.len() - i,
    {
        scan_line(&mut s, &requested, base, wildcard, lines[i].as_str(), i, Ghost(st));
        i = i + 1;
    }
    let ghost final_state = s.view();
    // One `Unclosed` issue per open tag, bottom first.
    let mut k: usize = 0;
    let ghost issues0 = s.issues@;
    while k < s.stack.len()
        invariant
            k <= s.stack@.len(),
            stack_view(s.stack@) == final_state.stack,
            strings_view(s.tags@) == final_state.tags,
            indices_view(s.lines@) == final_state.lines,
            issues_view(s.issues@) == issues_view(issues0) + unclosed_issues(
                final_state.stack,
            ).take(k as int),
        decreases s.stack.len() - k,
    {
        let ghost ib = s.issues@;
        let name = s.stack[k].0.clone();
        let line = s.stack[k].2;
        assert(final_state.stack[k as int] == (name@, s.stack@[k as int].1, line as int));
        let ghost u = SpecIssue::Unclosed { name: name@, line: line as int };
        assert(unclosed_issues(final_state.stack)[k as int] == u);
        s.issues.push(Issue::Unclosed { name, line });
        assert(issues_view(s.issues@) =~= issues_view(ib).push(u));
        assert(unclosed_issues(final_state.stack).take(k + 1) =~= unclosed_issues(
            final_state.stack,
        ).take(k as int).push(u));
        k = k + 1;
    }
    assert(unclosed_issues(final_state.stack).take(s.stack@.len() as int) =~= unclosed_issues(
        final_state.stack,
    ));
    // The requested tags that were never selected, in request order.
    let ghost ov = strings_view(order@);
    let mut missing: Vec<String> = Vec::new();
    let mut j: usize = 0;
    assert(ov.take(0) =~= Seq::<Seq<char>>::empty());
    assert(strings_view(missing@) =~= Seq::<Seq<char>>::empty());
    while j < order.len()
        invariant
            j <= order@.len(),
            ov == strings_view(order@),
            ov == st.order,
            pairs_view(requested@) == st.requested,
            strings_view(s.tags@) == final_state.tags,
            indices_view(s.lines@) == final_state.lines,
            issues_view(s.issues@) == final_state.issues + unclosed_issues(final_state.stack),
            strings_view(missing@) == missing_names(ov.take(j as int), st.requested, final_state.tags),
        decreases order.len() - j,
    {
        assert(ov.take(j + 1).drop_last() =~= ov.take(j as int));
        assert(ov.take(j + 1).last() == ov[j as int]);
        let name = order[j].as_str();
        if lookup_exec(&requested, name) == Some(true) && !strings_contain(&s.tags, name) {
            let ghost mb = missing@;
            missing.push(order[j].clone());
            assert(strings_view(missing@) =~= strings_view(mb).push(ov[j as int]));
        }
        j = j + 1;
    }
    assert(ov.take(order@.len() as int) =~= ov);
    let ghost before_missing = s.issues@;
    if missing.len() > 0 {
        let ghost mv = strings_view(missing@);
        s.issues.push(Issue::Missing { names: missing });
        assert(issues_view(s.issues@) =~= issues_view(before_missing).push(
            SpecIssue::Missing { names: mv },
        ));
    } else {
        assert(issues_view(s.issues@) =~= issues_view(before_missing) + Seq::<SpecIssue>::empty());
    }
    (s.lines, s.issues)
}

} // verus!

verus! {

/// The indices below `n` of lines that hold no tag marker.
pub open spec fn content_indices(lines: Seq<Seq<char>>, n: int) -> Seq<int>
    decreases n,
{
    if n <= 0 {
        Seq::empty()
    } else {
        let p = content_indices(lines, n - 1);
        if directive_spec(lines[n - 1]) is None {
            p.push(n - 1)
        } else {
            p
        }
    }
}

proof fn lemma_scan_lines_are_content(st: TagSetup, lines: Seq<Seq<char>>, n: int)
    requires
        0 <= n <= lines.len(),
    ensures
        forall|k: int|
            0 <= k < scan(st, lines, n).lines.len() ==> 0 <= #[trigger] scan(st, lines, n).lines[k]
                < n && directive_spec(lines[scan(st, lines, n).lines[k]]) is None,
        forall|a: int, b: int|
            0 <= a < b < scan(st, lines, n).lines.len() ==> scan(st, lines, n).lines[a] < scan(
                st,
                lines,
                n,
            ).lines[b],
    decreases n,
{
    if n > 0 {
        lemma_scan_lines_are_content(st, lines, n - 1);
        let prev = scan(st, lines, n - 1);
        let cur = scan(st, lines, n);
        assert(cur.lines == prev.lines || cur.lines == prev.lines.push(n - 1));
        if cur.lines != prev.lines {
            assert(directive_spec(lines[n - 1]) is None);
        }
    }
}

/// Law: marker lines are never selected, and the selected indices are
/// increasing positions of the input.
pub proof fn law_selected_lines_are_content_in_order(
    filters: Seq<(Seq<char>, bool)>,
    lines: Seq<Seq<char>>,
)
    ensures
        forall|k: int|
            0 <= k < select_spec(filters, lines).0.len() ==> 0 <= #[trigger] select_spec(
                filters,
                lines,
            ).0[k] < lines.len() && directive_spec(lines[select_spec(filters, lines).0[k]]) is None,
        forall|a: int, b: int|
            0 <= a < b < select_spec(filters, lines).0.len() ==> select_spec(filters, lines).0[a]
                < select_spec(filters, lines).0[b],
{
    lemma_scan_lines_are_content(tag_setup(filters), lines, lines.len() as int);
}

proof fn lemma_scan_select_all(st: TagSetup, lines: Seq<Seq<char>>, n: int)
    requires
        0 <= n <= lines.len(),
        st.requested.len() == 0,
        st.wildcard is None,
        st.select,
        st.base,
    ensures
        scan(st, lines, n).lines == content_indices(lines, n),
        scan(st, lines, n).stack.len() == 0,
        scan(st, lines, n).select,
        scan(st, lines, n).issues.len() == 0,
    decreases n,
{
    if n > 0 {
        lemma_scan_select_all(st, lines, n - 1);
        match directive_spec(lines[n - 1]) {
            Some((_, name)) => {
                lemma_key_index_bounds(st.requested, name);
            },
            None => {},
        }
    }
}

/// Law: with no filters, every line that holds no tag marker is selected and
/// nothing is reported.
pub proof fn law_no_filters_select_all_content(lines: Seq<Seq<char>>)
    ensures
        select_spec(Seq::empty(), lines) == (
            content_indices(lines, lines.len() as int),
            Seq::<SpecIssue>::empty(),
        ),
{
    let f = Seq::<(Seq<char>, bool)>::empty();
    let st = tag_setup(f);
    assert(requested_of(f) =~= Seq::<(Seq<char>, bool)>::empty());
    assert(!any_selected(requested_of(f)));
    lemma_scan_select_all(st, lines, lines.len() as int);
    let s = scan(st, lines, lines.len() as int);
    assert(unclosed_issues(s.stack) =~= Seq::<SpecIssue>::empty());
    assert(missing_names(st.order, st.requested, s.tags) =~= Seq::<Seq<char>>::empty());
    assert(s.issues + unclosed_issues(s.stack) + Seq::<SpecIssue>::empty() =~= Seq::<
        SpecIssue,
    >::empty());
}

/// Law: the double wildcard `**` alone selects every line that holds no tag
/// marker and reports nothing.
pub proof fn law_double_wildcard_selects_all_content(lines: Seq<Seq<char>>)
    ensures
        select_spec(seq![("**"@, true)], lines) == (
            content_indices(lines, lines.len() as int),
            Seq::<SpecIssue>::empty(),
        ),
{
    let f = seq![("**"@, true)];
    let req = requested_of(f);
    assert(f.drop_last() =~= Seq::<(Seq<char>, bool)>::empty());
    assert(requested_of(f.drop_last()) =~= Seq::<(Seq<char>, bool)>::empty());
    assert(key_index(Seq::<(Seq<char>, bool)>::empty(), "**"@) == -1);
    assert(req =~= seq![("**"@, true)]);
    assert(key_index(req, "**"@) == 0) by {
        assert(req.last().0 == "**"@);
    }
    let r1 = remove_key(req, "**"@);
    assert(req.drop_last() =~= Seq::<(Seq<char>, bool)>::empty());
    assert(remove_key(req.drop_last(), "**"@) =~= Seq::<(Seq<char>, bool)>::empty());
    assert(r1 =~= Seq::<(Seq<char>, bool)>::empty());
    let st = tag_setup(f);
    assert(st.requested.len() == 0);
    lemma_scan_select_all(st, lines, lines.len() as int);
    let s = scan(st, lines, lines.len() as int);
    let order = keys_of(req);
    assert(order =~= seq!["**"@]);
    assert(order.drop_last() =~= Seq::<Seq<char>>::empty());
    assert(st.order == order);
    assert(missing_names(order.drop_last(), st.requested, s.tags) =~= Seq::<Seq<char>>::empty());
    assert(lookup(st.requested, "**"@) is None);
    assert(missing_names(st.order, st.requested, s.tags) =~= Seq::<Seq<char>>::empty());
    assert(unclosed_issues(s.stack) =~= Seq::<SpecIssue>::empty());
    assert(s.issues + unclosed_issues(s.stack) + Seq::<SpecIssue>::empty() =~= Seq::<
        SpecIssue,
    >::empty());
}

} // verus!
