//! Line splitting and joining, and the blank-aware scanning that the
//! directive grammars of the preprocessor use.
//!
//! In those grammars "blank" means a space or a tab: the characters that may
//! stand between the tokens of a directive.
use vstd::prelude::*;

use crate::text::{char_slice, split_on, split_str, trim_end, trim_end_str};

verus! {

/// A space or a tab.
pub open spec fn is_blank(c: char) -> bool {
    c == ' ' || c == '\t'
}

/// The first position at or after `p` that does not hold a blank (the length
/// when there is none).
pub open spec fn skip_blank(s: Seq<char>, p: int) -> int
    decreases s.len() - p,
{
    if p < 0 || p >= s.len() {
        s.len() as int
    } else if is_blank(s[p]) {
        skip_blank(s, p + 1)
    } else {
        p
    }
}

/// The end of `s.take(e)` once its trailing blanks are removed.
pub open spec fn back_blank(s: Seq<char>, e: int) -> int
    decreases e,
{
    if e <= 0 || e > s.len() {
        if e > s.len() {
            s.len() as int
        } else {
            0
        }
    } else if is_blank(s[e - 1]) {
        back_blank(s, e - 1)
    } else {
        e
    }
}

/// The first position at or after `p` that holds `c` (the length when none does).
pub open spec fn index_of_from(s: Seq<char>, c: char, p: int) -> int
    decreases s.len() - p,
{
    if p < 0 || p >= s.len() {
        s.len() as int
    } else if s[p] == c {
        p
    } else {
        index_of_from(s, c, p + 1)
    }
}

/// `s` without leading and trailing blanks.
pub open spec fn trim_blank(s: Seq<char>) -> Seq<char> {
    let a = skip_blank(s, 0);
    let b = back_blank(s, s.len() as int);
    if a < b {
        s.subrange(a, b)
    } else {
        Seq::empty()
    }
}

pub proof fn lemma_skip_blank(s: Seq<char>, p: int)
    requires
        0 <= p,
    ensures
        p <= s.len() ==> p <= skip_blank(s, p) <= s.len(),
        skip_blank(s, p) < s.len() ==> !is_blank(s[skip_blank(s, p)]),
        forall|k: int| p <= k < skip_blank(s, p) ==> is_blank(#[trigger] s[k]),
    decreases s.len() - p,
{
    if p < s.len() && is_blank(s[p]) {
        lemma_skip_blank(s, p + 1);
    }
}

pub proof fn lemma_back_blank(s: Seq<char>, e: int)
    requires
        0 <= e <= s.len(),
    ensures
        0 <= back_blank(s, e) <= e,
        back_blank(s, e) > 0 ==> !is_blank(s[back_blank(s, e) - 1]),
        forall|k: int| back_blank(s, e) <= k < e ==> is_blank(#[trigger] s[k]),
    decreases e,
{
    if e > 0 && is_blank(s[e - 1]) {
        lemma_back_blank(s, e - 1);
    }
}

pub proof fn lemma_index_of_from(s: Seq<char>, c: char, p: int)
    requires
        0 <= p,
    ensures
        p <= s.len() ==> p <= index_of_from(s, c, p) <= s.len(),
        index_of_from(s, c, p) < s.len() ==> s[index_of_from(s, c, p)] == c,
        forall|k: int| p <= k < index_of_from(s, c, p) ==> #[trigger] s[k] != c,
    decreases s.len() - p,
{
    if p < s.len() && s[p] != c {
        lemma_index_of_from(s, c, p + 1);
    }
}

/// Executable form of [`is_blank`].
pub fn is_blank_char(c: char) -> (r: bool)
    ensures
        r == is_blank(c),
{
    c == ' ' || c == '\t'
}

/// Executable form of [`skip_blank`].
pub fn skip_blank_at(v: &[char], p: usize) -> (r: usize)
    requires
        p <= v@.len(),
    ensures
        r == skip_blank(v@, p as int),
        p <= r <= v@.len(),
{
    let mut i = p;
    while i < v.len() && is_blank_char(v[i])
        invariant
            p <= i <= v@.len(),
            skip_blank(v@, p as int) == skip_blank(v@, i as int),
        decreases v.len() - i,
    {
        i = i + 1;
    }
    i
}

/// Executable form of [`back_blank`].
pub fn back_blank_at(v: &[char], e: usize) -> (r: usize)
    requires
        e <= v@.len(),
    ensures
        r == back_blank(v@, e as int),
        r <= e,
{
    let mut j = e;
    while j > 0 && is_blank_char(v[j - 1])
        invariant
            j <= e <= v@.len(),
            back_blank(v@, e as int) == back_blank(v@, j as int),
        decreases j,
    {
        j = j - 1;
    }
    j
}

/// Executable form of [`index_of_from`].
pub fn index_of_char_from(v: &[char], c: char, p: usize) -> (r: usize)
    requires
        p <= v@.len(),
    ensures
        r == index_of_from(v@, c, p as int),
        p <= r <= v@.len(),
{
    let mut i = p;
    while i < v.len() && v[i] != c
        invariant
            p <= i <= v@.len(),
            index_of_from(v@, c, p as int) == index_of_from(v@, c, i as int),
        decreases v.len() - i,
    {
        i = i + 1;
    }
    i
}

/// The characters of `v` between `a` and `b`, without leading and trailing blanks.
pub fn trim_blank_range(v: &[char], a: usize, b: usize) -> (r: Vec<char>)
    requires
        a <= b <= v@.len(),
    ensures
        r@ == trim_blank(v@.subrange(a as int, b as int)),
{
    let ghost s = v@.subrange(a as int, b as int);
    let mut i = a;
    while i < b && is_blank_char(v[i])
        invariant
            a <= i <= b <= v@.len(),
            s == v@.subrange(a as int, b as int),
            skip_blank(s, 0) == skip_blank(s, i - a),
        decreases b - i,
    {
        assert(s[i - a] == v@[i as int]);
        i = i + 1;
    }
    let mut j = b;
    while j > i && is_blank_char(v[j - 1])
        invariant
            a <= i <= j <= b <= v@.len(),
            s == v@.subrange(a as int, b as int),
            back_blank(s, s.len() as int) == back_blank(s, j - a),
        decreases j,
    {
        assert(s[j - a - 1] == v@[j - 1]);
        j = j - 1;
    }
    proof {
        if i < b {
            assert(s[i - a] == v@[i as int]);
        }
        lemma_skip_blank(s, 0);
        lemma_back_blank(s, s.len() as int);
        if j > i {
            assert(s[j - a - 1] == v@[j - 1]);
        } else if i < b {
            // Nothing but blanks lies between `i` and `b` only when `i` is `b`.
            lemma_back_blank(s, j - a);
        } else {
            lemma_back_blank(s, j - a);
        }
    }
    let mut r: Vec<char> = Vec::new();
    let mut k = i;
    while k < j
        invariant
            i <= k <= j <= v@.len(),
            r@ == v@.subrange(i as int, k as int),
        decreases j - k,
    {
        r.push(v[k]);
        k = k + 1;
        assert(r@ =~= v@.subrange(i as int, k as int));
    }
    proof {
        if i < j {
            assert(r@ =~= s.subrange(i - a, j - a));
        } else {
            assert(r@ =~= Seq::<char>::empty());
        }
    }
    r
}

/// The lines of `s` as `str::split` on `\n` yields them, less the empty piece
/// after a final line ending: no lines for an empty string.
pub open spec fn split_lines(s: Seq<char>) -> Seq<Seq<char>> {
    if s.len() == 0 {
        Seq::empty()
    } else {
        let p = split_on(s, '\n');
        if p.last().len() == 0 {
            p.drop_last()
        } else {
            p
        }
    }
}

/// Lines joined by `\n`.
pub open spec fn join_lines(parts: Seq<Seq<char>>) -> Seq<char>
    decreases parts.len(),
{
    if parts.len() == 0 {
        Seq::empty()
    } else if parts.len() == 1 {
        parts[0]
    } else {
        join_lines(parts.drop_last()) + seq!['\n'] + parts.last()
    }
}

/// The character views of a list of strings.
pub open spec fn views(v: Seq<String>) -> Seq<Seq<char>> {
    v.map_values(|s: String| s@)
}

/// The lines of `s` (see [`split_lines`]).
pub fn lines_of(s: &str) -> (r: Vec<String>)
    ensures
        views(r@) == split_lines(s@),
{
    let parts = split_str(s, '\n');
    let mut r: Vec<String> = Vec::new();
    if s.unicode_len() == 0 {
        assert(views(r@) =~= split_lines(s@));
        return r;
    }
    proof {
        crate::text::lemma_split_on_nonempty(s@, '\n');
    }
    let n = parts.len();
    let keep = if parts[n - 1].unicode_len() == 0 {
        n - 1
    } else {
        n
    };
    let mut i: usize = 0;
    while i < keep
        invariant
            keep <= n == parts@.len(),
            n == split_on(s@, '\n').len(),
            forall|k: int| 0 <= k < parts@.len() ==> (#[trigger] parts@[k])@ == split_on(s@, '\n')[k],
            i <= keep,
            r@.len() == i,
            forall|k: int| 0 <= k < i ==> (#[trigger] r@[k])@ == split_on(s@, '\n')[k],
        decreases keep - i,
    {
        r.push(crate::text::owned(parts[i]));
        i = i + 1;
    }
    assert(views(r@) =~= split_lines(s@));
    r
}

/// Lines joined by `\n` (`[String]::join("\n")`).
pub fn join_with_newlines(parts: &[String]) -> (r: String)
    ensures
        r@ == join_lines(views(parts@)),
{
    let mut out = String::new();
    let mut i: usize = 0;
    while i < parts.len()
        invariant
            i <= parts@.len(),
            out@ == join_lines(views(parts@.take(i as int))),
        decreases parts.len() - i,
    {
        let ghost before = views(parts@.take(i as int));
        if i > 0 {
            crate::text::push_char(&mut out, '\n');
        }
        crate::text::push_str(&mut out, parts[i].as_str());
        proof {
            assert(views(parts@.take(i + 1)).drop_last() =~= before);
            if i == 0 {
                assert(before =~= Seq::<Seq<char>>::empty());
            }
        }
        i = i + 1;
    }
    assert(parts@.take(parts@.len() as int) =~= parts@);
    out
}

/// The lines of `input`, each without trailing whitespace, joined by `\n`.
pub open spec fn normalize_spec(input: Seq<char>) -> Seq<char> {
    join_lines(split_lines(input).map_values(|l: Seq<char>| trim_end(l)))
}

/// Remove the trailing whitespace of every line of `input` (a `\r` before a
/// line ending included) and join the lines with `\n`; a final line ending
/// is dropped.
pub fn normalize(input: &str) -> (r: String)
    ensures
        r@ == normalize_spec(input@),
{
    let lines = lines_of(input);
    let mut trimmed: Vec<String> = Vec::new();
    let mut i: usize = 0;
    while i < lines.len()
        invariant
            i <= lines@.len(),
            views(lines@) == split_lines(input@),
            trimmed@.len() == i,
            forall|k: int| 0 <= k < i ==> (#[trigger] trimmed@[k])@ == trim_end(lines@[k]@),
        decreases lines.len() - i,
    {
        trimmed.push(crate::text::owned(trim_end_str(lines[i].as_str())));
        i = i + 1;
    }
    proof {
        assert forall|k: int| 0 <= k < lines@.len() implies #[trigger] split_lines(input@)[k] == lines@[k]@ by {
            assert(views(lines@)[k] == lines@[k]@);
        }
        assert(views(trimmed@) =~= split_lines(input@).map_values(|l: Seq<char>| trim_end(l)));
    }
    join_with_newlines(trimmed.as_slice())
}

} // verus!
