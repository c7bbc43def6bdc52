//! Section kinds, section numbering, and generated section ids.
use vstd::prelude::*;

use crate::attributes::MAX_SECTION_LEVELS;
use crate::charclass::{is_alphanumeric, to_lowercase_chars, unicode_alphanumeric, unicode_lowercase};
use crate::numbers::{decimal, usize_decimal};
use crate::text::{chars_of, is_whitespace, is_ws, owned, push_char, push_str, str_eq};

verus! {

/// A `SectionLevel` represents a section depth in a document.
pub type SectionLevel = u8;

/// The number of levels numbered when `sectnumlevels` is not given.
pub const DEFAULT_NUMBERED_SECTION_LEVELS: u8 = 3;

/// The structural category of a section: one of the special (front or back
/// matter) styles, or `Normal`.
#[derive(Clone, Copy, Debug, PartialEq, Eq, Structural)]
pub enum SectionKind {
    /// An ordinary section (the default).
    Normal,
    Preface,
    Abstract,
    Dedication,
    Colophon,
    Appendix,
    Glossary,
    Bibliography,
    Index,
}

impl Default for SectionKind {
    fn default() -> (r: Self)
        ensures
            r == SectionKind::Normal,
    {
        SectionKind::Normal
    }
}

/// The style string of a special section kind.
pub open spec fn kind_style(k: SectionKind) -> Option<Seq<char>> {
    match k {
        SectionKind::Normal => None,
        SectionKind::Preface => Some("preface"@),
        SectionKind::Abstract => Some("abstract"@),
        SectionKind::Dedication => Some("dedication"@),
        SectionKind::Colophon => Some("colophon"@),
        SectionKind::Appendix => Some("appendix"@),
        SectionKind::Glossary => Some("glossary"@),
        SectionKind::Bibliography => Some("bibliography"@),
        SectionKind::Index => Some("index"@),
    }
}

/// The section kind a block style names.
pub open spec fn kind_of_style(style: Option<Seq<char>>) -> SectionKind {
    match style {
        Some(s) => if s == "preface"@ {
            SectionKind::Preface
        } else if s == "abstract"@ {
            SectionKind::Abstract
        } else if s == "dedication"@ {
            SectionKind::Dedication
        } else if s == "colophon"@ {
            SectionKind::Colophon
        } else if s == "appendix"@ {
            SectionKind::Appendix
        } else if s == "glossary"@ {
            SectionKind::Glossary
        } else if s == "bibliography"@ {
            SectionKind::Bibliography
        } else if s == "index"@ {
            SectionKind::Index
        } else {
            SectionKind::Normal
        },
        None => SectionKind::Normal,
    }
}

impl SectionKind {
    /// Classify a section from its block style (e.g. `[preface]`). Unknown or
    /// absent styles are `Normal`.
    pub fn from_style(style: Option<&str>) -> (r: Self)
        ensures
            r == kind_of_style(
                match style {
                    Some(s) => Some(s@),
                    None => None,
                },
            ),
    {
        match style {
            Some(s) => {
                if str_eq(s, "preface") {
                    SectionKind::Preface
                } else if str_eq(s, "abstract") {
                    SectionKind::Abstract
                } else if str_eq(s, "dedication") {
                    SectionKind::Dedication
                } else if str_eq(s, "colophon") {
                    SectionKind::Colophon
                } else if str_eq(s, "appendix") {
                    SectionKind::Appendix
                } else if str_eq(s, "glossary") {
                    SectionKind::Glossary
                } else if str_eq(s, "bibliography") {
                    SectionKind::Bibliography
                } else if str_eq(s, "index") {
                    SectionKind::Index
                } else {
                    SectionKind::Normal
                }
            },
            None => SectionKind::Normal,
        }
    }

    /// The block style string this kind corresponds to, or `None` for `Normal`.
    pub fn as_style(self) -> (r: Option<&'static str>)
        ensures
            match r {
                Some(s) => kind_style(self) == Some(s@),
                None => kind_style(self) is None,
            },
    {
        match self {
            SectionKind::Normal => None,
            SectionKind::Preface => Some("preface"),
            SectionKind::Abstract => Some("abstract"),
            SectionKind::Dedication => Some("dedication"),
            SectionKind::Colophon => Some("colophon"),
            SectionKind::Appendix => Some("appendix"),
            SectionKind::Glossary => Some("glossary"),
            SectionKind::Bibliography => Some("bibliography"),
            SectionKind::Index => Some("index"),
        }
    }

    /// Whether this is a special (front/back-matter) section: every kind but `Normal`.
    pub fn is_special(self) -> (r: bool)
        ensures
            r == (self != SectionKind::Normal),
    {
        !matches!(self, SectionKind::Normal)
    }
}

/// Law: classifying the style of a kind gives the kind back.
pub proof fn law_style_round_trip(k: SectionKind)
    ensures
        kind_of_style(kind_style(k)) == k,
{
    reveal_strlit("preface");
    reveal_strlit("abstract");
    reveal_strlit("dedication");
    reveal_strlit("colophon");
    reveal_strlit("appendix");
    reveal_strlit("glossary");
    reveal_strlit("bibliography");
    reveal_strlit("index");
    assert("preface"@[0] == 'p' && "abstract"@[0] == 'a' && "dedication"@[0] == 'd');
    assert("colophon"@[0] == 'c' && "appendix"@[0] == 'a' && "glossary"@[0] == 'g');
    assert("bibliography"@[0] == 'b' && "index"@[0] == 'i');
    assert("abstract"@[1] == 'b' && "appendix"@[1] == 'p');
}

/// A section number without punctuation, such as `1.2`, `IV`, or `A.1`.
#[derive(Clone, Debug, PartialEq, Eq)]
pub struct SectionNumber(pub String);

impl SectionNumber {
    /// The number text.
    pub fn as_str(&self) -> (r: &str)
        ensures
            r@ == self.0@,
    {
        self.0.as_str()
    }
}

/// The numbering policy of a section, and its assigned number.
#[derive(Clone, Debug, PartialEq, Eq)]
pub struct SectionNumbering {
    pub enabled: bool,
    pub max_level: SectionLevel,
    pub number_all: bool,
    pub partnums: bool,
    pub number: Option<SectionNumber>,
}

impl SectionNumbering {
    /// Numbering turned off.
    pub fn disabled() -> (r: Self)
        ensures
            !r.enabled,
            r.max_level == DEFAULT_NUMBERED_SECTION_LEVELS,
            !r.number_all,
            !r.partnums,
            r.number is None,
    {
        SectionNumbering {
            enabled: false,
            max_level: DEFAULT_NUMBERED_SECTION_LEVELS,
            number_all: false,
            partnums: false,
            number: None,
        }
    }

    /// Numbering turned on for every level, special section, and part.
    pub fn explicitly_enabled() -> (r: Self)
        ensures
            r.enabled,
            r.max_level == MAX_SECTION_LEVELS,
            r.number_all,
            r.partnums,
            r.number is None,
    {
        SectionNumbering {
            enabled: true,
            max_level: MAX_SECTION_LEVELS,
            number_all: true,
            partnums: true,
            number: None,
        }
    }

    /// The numbering policy for `sectnums`/`numbered`, `sectnumlevels`, and
    /// `partnums` values: `numbering` is the value in force (`None` when
    /// absent or unset); `sectnumlevels` gives the deepest numbered level (a
    /// number above the maximum counts as the maximum; an invalid one as the
    /// default).
    pub fn from_values(numbering: Option<&str>, numbering_set: bool, sectnumlevels: Option<&str>, partnums: bool) -> (r: Self)
        ensures
            r.enabled == numbering_set,
            r.max_level == {
                let lv = match sectnumlevels {
                    Some(t) => match crate::numbers::unsigned_text(t@) {
                        Some(n) => if n <= 255 {
                            n as int
                        } else {
                            DEFAULT_NUMBERED_SECTION_LEVELS as int
                        },
                        None => DEFAULT_NUMBERED_SECTION_LEVELS as int,
                    },
                    None => DEFAULT_NUMBERED_SECTION_LEVELS as int,
                };
                if lv <= MAX_SECTION_LEVELS {
                    lv
                } else {
                    MAX_SECTION_LEVELS as int
                }
            },
            r.number_all == (numbering_set && match numbering {
                Some(v) => v@ == "all"@,
                None => false,
            }),
            r.partnums == partnums,
            r.number is None,
    {
        let lv: u8 = match sectnumlevels {
            Some(t) => match crate::numbers::parse_u8(t) {
                Some(n) => n,
                None => DEFAULT_NUMBERED_SECTION_LEVELS,
            },
            None => DEFAULT_NUMBERED_SECTION_LEVELS,
        };
        let max_level = if lv <= MAX_SECTION_LEVELS {
            lv
        } else {
            MAX_SECTION_LEVELS
        };
        let number_all = numbering_set && match numbering {
            Some(v) => str_eq(v, "all"),
            None => false,
        };
        SectionNumbering { enabled: numbering_set, max_level, number_all, partnums, number: None }
    }
}

/// The numbering level of a section: a level-0 special section counts as level 1.
pub open spec fn effective_level(level: u8, kind: SectionKind) -> u8 {
    if level == 0 && kind != SectionKind::Normal {
        1
    } else {
        level
    }
}

/// The numbering level of a section: a level-0 special section counts as level 1.
pub fn effective_numbering_level(level: SectionLevel, kind: SectionKind) -> (r: SectionLevel)
    ensures
        r == effective_level(level, kind),
{
    if level == 0 && kind.is_special() {
        1
    } else {
        level
    }
}

/// The name Asciidoctor gives a section in a cross-reference: the special
/// section's style, or `part`, `chapter` or `section` by level.
pub fn reference_name(kind: SectionKind, level: u8, is_book: bool) -> (r: &'static str)
    ensures
        r@ == match kind_style(kind) {
            Some(s) => s,
            None => if level == 0 {
                "part"@
            } else if level == 1 && is_book {
                "chapter"@
            } else {
                "section"@
            },
        },
{
    match kind.as_style() {
        Some(s) => s,
        None => {
            if level == 0 {
                "part"
            } else if level == 1 && is_book {
                "chapter"
            } else {
                "section"
            }
        },
    }
}

/// Whether a section takes a number: appendices always; level-0 parts in a
/// book only with `partnums`; other sections only when numbering is enabled,
/// special sections (but an abstract in a book) only with `sectnums=all`.
pub open spec fn participates(
    kind: SectionKind,
    level: u8,
    numbering: SectionNumbering,
    is_book: bool,
) -> bool {
    if kind == SectionKind::Appendix {
        true
    } else if level == 0 && kind == SectionKind::Normal {
        is_book && numbering.partnums
    } else if !numbering.enabled {
        false
    } else if kind == SectionKind::Normal {
        true
    } else if kind == SectionKind::Abstract && is_book {
        true
    } else {
        numbering.number_all
    }
}

/// Whether a section with this kind, level, and numbering policy takes a number.
pub fn section_participates(
    kind: SectionKind,
    level: SectionLevel,
    numbering: &SectionNumbering,
    is_book: bool,
) -> (r: bool)
    ensures
        r == participates(kind, level, *numbering, is_book),
{
    if kind == SectionKind::Appendix {
        return true;
    }
    if level == 0 && kind == SectionKind::Normal {
        return is_book && numbering.partnums;
    }
    if !numbering.enabled {
        return false;
    }
    match kind {
        SectionKind::Normal | SectionKind::Appendix => true,
        SectionKind::Abstract if is_book => true,
        _ => numbering.number_all,
    }
}

/// The value of numeral `k` of the Roman table (largest first).
pub open spec fn roman_value(k: int) -> nat {
    if k == 0 {
        1000
    } else if k == 1 {
        900
    } else if k == 2 {
        500
    } else if k == 3 {
        400
    } else if k == 4 {
        100
    } else if k == 5 {
        90
    } else if k == 6 {
        50
    } else if k == 7 {
        40
    } else if k == 8 {
        10
    } else if k == 9 {
        9
    } else if k == 10 {
        5
    } else if k == 11 {
        4
    } else {
        1
    }
}

/// The text of numeral `k` of the Roman table.
pub open spec fn roman_text(k: int) -> Seq<char> {
    if k == 0 {
        seq!['M']
    } else if k == 1 {
        seq!['C', 'M']
    } else if k == 2 {
        seq!['D']
    } else if k == 3 {
        seq!['C', 'D']
    } else if k == 4 {
        seq!['C']
    } else if k == 5 {
        seq!['X', 'C']
    } else if k == 6 {
        seq!['L']
    } else if k == 7 {
        seq!['X', 'L']
    } else if k == 8 {
        seq!['X']
    } else if k == 9 {
        seq!['I', 'X']
    } else if k == 10 {
        seq!['V']
    } else if k == 11 {
        seq!['I', 'V']
    } else {
        seq!['I']
    }
}

/// Greedy Roman numeral of `n` using the table from entry `k` on.
pub open spec fn roman_from(n: nat, k: int) -> Seq<char>
    decreases n, 13 - k,
{
    if k < 0 || k >= 13 {
        Seq::empty()
    } else if n >= roman_value(k) {
        roman_text(k) + roman_from((n - roman_value(k)) as nat, k)
    } else {
        roman_from(n, k + 1)
    }
}

/// The uppercase Roman numeral of `n` (empty for zero).
pub open spec fn roman(n: nat) -> Seq<char> {
    roman_from(n, 0)
}

/// The value of a Roman letter (`I` 1, `V` 5, `X` 10, `L` 50, `C` 100, `D`
/// 500, `M` 1000; 0 for any other character).
pub open spec fn letter_value(c: char) -> int {
    if c == 'I' {
        1
    } else if c == 'V' {
        5
    } else if c == 'X' {
        10
    } else if c == 'L' {
        50
    } else if c == 'C' {
        100
    } else if c == 'D' {
        500
    } else if c == 'M' {
        1000
    } else {
        0
    }
}

/// The number a Roman numeral spells, read left to right: each letter adds
/// its value, except that a letter followed by a larger one subtracts it.
pub open spec fn roman_reading(s: Seq<char>) -> int
    decreases s.len(),
{
    if s.len() == 0 {
        0
    } else if s.len() >= 2 && letter_value(s[0]) < letter_value(s[1]) {
        roman_reading(s.drop_first()) - letter_value(s[0])
    } else {
        letter_value(s[0]) + roman_reading(s.drop_first())
    }
}

/// The largest value a numeral's leading letter can have when the table is
/// used from entry `k` on.
spec fn lead_bound(k: int) -> int {
    if k <= 0 {
        1000
    } else if k <= 2 {
        500
    } else if k <= 4 {
        100
    } else if k <= 6 {
        50
    } else if k <= 8 {
        10
    } else if k <= 10 {
        5
    } else {
        1
    }
}

proof fn lemma_lead_letter(n: nat, k: int)
    requires
        0 <= k,
        roman_from(n, k).len() > 0,
    ensures
        letter_value(roman_from(n, k)[0]) <= lead_bound(k),
    decreases n, 13 - k,
{
    if k < 13 {
        if n >= roman_value(k) {
            assert(roman_from(n, k)[0] == roman_text(k)[0]);
        } else {
            lemma_lead_letter(n, k + 1);
        }
    }
}

proof fn lemma_reading_letter(c: char, b: Seq<char>)
    requires
        b.len() == 0 || letter_value(b[0]) <= letter_value(c),
    ensures
        roman_reading(seq![c] + b) == letter_value(c) + roman_reading(b),
{
    let s = seq![c] + b;
    assert(s.drop_first() =~= b);
    assert(s[0] == c);
    if b.len() > 0 {
        assert(s[1] == b[0]);
    }
}

proof fn lemma_reading_from(n: nat, k: int)
    requires
        0 <= k < 13,
    ensures
        roman_reading(roman_from(n, k)) == n,
    decreases n, 13 - k,
{
    if n >= roman_value(k) {
        let m = (n - roman_value(k)) as nat;
        let rest = roman_from(m, k);
        lemma_reading_from(m, k);
        if rest.len() > 0 {
            lemma_lead_letter(m, k);
        }
        let t = roman_text(k);
        if t.len() == 1 {
            lemma_reading_letter(t[0], rest);
            assert(t =~= seq![t[0]]);
        } else {
            lemma_reading_letter(t[1], rest);
            let s = t + rest;
            assert(s.drop_first() =~= seq![t[1]] + rest);
            assert(s[0] == t[0] && s[1] == t[1]);
        }
    } else if k + 1 < 13 {
        lemma_reading_from(n, k + 1);
    } else {
        assert(roman_from(n, k + 1) =~= Seq::<char>::empty());
    }
}

/// A section number written in Roman numerals reads back as the number: the
/// numeral of `n` spells `n` under the usual reading (each letter's value
/// added, a letter before a larger one subtracted), and uses only the
/// letters `I V X L C D M`.
pub proof fn law_roman_numerals_read_back(n: nat)
    ensures
        roman_reading(roman(n)) == n,
        forall|i: int| 0 <= i < roman(n).len() ==> letter_value(#[trigger] roman(n)[i]) > 0,
{
    lemma_reading_from(n, 0);
    lemma_roman_letters(n, 0);
}

proof fn lemma_roman_letters(n: nat, k: int)
    requires
        0 <= k,
    ensures
        forall|i: int| 0 <= i < roman_from(n, k).len() ==> letter_value(#[trigger] roman_from(n, k)[i]) > 0,
    decreases n, 13 - k,
{
    if k < 13 {
        if n >= roman_value(k) {
            lemma_roman_letters((n - roman_value(k)) as nat, k);
            let t = roman_text(k);
            let rest = roman_from((n - roman_value(k)) as nat, k);
            assert(roman_from(n, k) == t + rest);
            assert forall|i: int| 0 <= i < t.len() implies letter_value(#[trigger] t[i]) > 0 by {
                if k <= 1 {
                } else if k <= 5 {
                } else if k <= 9 {
                } else {
                }
            }
            assert forall|i: int| 0 <= i < (t + rest).len() implies letter_value(#[trigger] (t + rest)[i]) > 0 by {
                if i >= t.len() {
                    assert((t + rest)[i] == rest[i - t.len()]);
                } else {
                    assert((t + rest)[i] == t[i]);
                }
            }
            assert forall|i: int| 0 <= i < roman_from(n, k).len() implies letter_value(
                #[trigger] roman_from(n, k)[i],
            ) > 0 by {
                assert(roman_from(n, k)[i] == (t + rest)[i]);
            }
        } else {
            lemma_roman_letters(n, k + 1);
            assert(roman_from(n, k) == roman_from(n, k + 1));
        }
    }
}

/// The numeral of decimal digit `d` in a place whose one, five and ten are
/// the letters `one`, `five` and `ten` (`I V X` for units, `X L C` for tens,
/// `C D M` for hundreds): up to three ones, one before five for 4, five then
/// up to three ones, one before ten for 9.
pub open spec fn digit_numeral(d: int, one: char, five: char, ten: char) -> Seq<char> {
    if d == 9 {
        seq![one, ten]
    } else if d >= 5 {
        seq![five] + Seq::new((d - 5) as nat, |_i: int| one)
    } else if d == 4 {
        seq![one, five]
    } else {
        Seq::new(d as nat, |_i: int| one)
    }
}

proof fn lemma_roman_skip(x: nat, j: int)
    requires
        0 <= j < 13,
        x < roman_value(j),
    ensures
        roman_from(x, j) == roman_from(x, j + 1),
{
}

proof fn lemma_roman_take(x: nat, j: int)
    requires
        0 <= j < 13,
        x >= roman_value(j),
    ensures
        roman_from(x, j) == roman_text(j) + roman_from((x - roman_value(j)) as nat, j),
{
}

proof fn lemma_roman_ones(x: nat, b: int, u: int, k: int, r: int, one: char)
    requires
        0 <= b,
        b + 3 < 13,
        roman_value(b + 3) == u,
        roman_text(b + 3) == seq![one],
        0 < u,
        0 <= k <= 3,
        0 <= r < u,
        x == k * u + r,
    ensures
        roman_from(x, b + 3) == Seq::new(k as nat, |_i: int| one) + roman_from(r as nat, b + 4),
    decreases k,
{
    if k == 0 {
        assert(k * u == 0) by (nonlinear_arith)
            requires
                k == 0,
        ;
        lemma_roman_skip(x, b + 3);
        assert(Seq::new(0nat, |_i: int| one) + roman_from(r as nat, b + 4) =~= roman_from(r as nat, b + 4));
    } else {
        assert(k * u == (k - 1) * u + u) by (nonlinear_arith);
        assert((k - 1) * u >= 0) by (nonlinear_arith)
            requires
                k >= 1,
                u > 0,
        ;
        lemma_roman_take(x, b + 3);
        lemma_roman_ones((x - u) as nat, b, u, k - 1, r, one);
        assert(seq![one] + (Seq::new((k - 1) as nat, |_i: int| one) + roman_from(r as nat, b + 4))
            =~= Seq::new(k as nat, |_i: int| one) + roman_from(r as nat, b + 4));
    }
}

proof fn lemma_roman_place(
    m: nat,
    b: int,
    u: int,
    d: int,
    r: int,
    one: char,
    five: char,
    ten: char,
)
    requires
        0 <= b,
        b + 3 < 13,
        roman_value(b) == 9 * u,
        roman_value(b + 1) == 5 * u,
        roman_value(b + 2) == 4 * u,
        roman_value(b + 3) == u,
        roman_text(b) == seq![one, ten],
        roman_text(b + 1) == seq![five],
        roman_text(b + 2) == seq![one, five],
        roman_text(b + 3) == seq![one],
        0 < u,
        0 <= d < 10,
        0 <= r < u,
        m == d * u + r,
    ensures
        roman_from(m, b) == digit_numeral(d, one, five, ten) + roman_from(r as nat, b + 4),
{
    if d == 9 {
        lemma_roman_take(m, b);
        let x = (m - 9 * u) as nat;
        lemma_roman_skip(x, b);
        lemma_roman_skip(x, b + 1);
        lemma_roman_skip(x, b + 2);
        lemma_roman_skip(x, b + 3);
        assert(x == r);
    } else if d >= 5 {
        lemma_roman_skip(m, b);
        lemma_roman_take(m, b + 1);
        let x = (m - 5 * u) as nat;
        lemma_roman_skip(x, b + 1);
        lemma_roman_skip(x, b + 2);
        assert(d * u == (d - 5) * u + 5 * u) by (nonlinear_arith);
        lemma_roman_ones(x, b, u, d - 5, r, one);
        assert(seq![five] + (Seq::new((d - 5) as nat, |_i: int| one) + roman_from(r as nat, b + 4))
            =~= digit_numeral(d, one, five, ten) + roman_from(r as nat, b + 4));
    } else if d == 4 {
        lemma_roman_skip(m, b);
        lemma_roman_skip(m, b + 1);
        lemma_roman_take(m, b + 2);
        let x = (m - 4 * u) as nat;
        lemma_roman_skip(x, b + 2);
        lemma_roman_skip(x, b + 3);
        assert(x == r);
    } else {
        lemma_roman_skip(m, b);
        lemma_roman_skip(m, b + 1);
        lemma_roman_skip(m, b + 2);
        lemma_roman_ones(m, b, u, d, r, one);
    }
}

proof fn lemma_roman_thousands(n: nat)
    ensures
        roman_from(n, 0) == Seq::new(n / 1000, |_i: int| 'M') + roman_from(n % 1000, 1),
    decreases n,
{
    if n >= 1000 {
        lemma_roman_take(n, 0);
        lemma_roman_thousands((n - 1000) as nat);
        assert(((n - 1000) as nat) / 1000 == n / 1000 - 1);
        assert(((n - 1000) as nat) % 1000 == n % 1000);
        assert(seq!['M'] + (Seq::new(((n - 1000) as nat) / 1000, |_i: int| 'M') + roman_from(
            n % 1000,
            1,
        )) =~= Seq::new(n / 1000, |_i: int| 'M') + roman_from(n % 1000, 1));
    } else {
        lemma_roman_skip(n, 0);
        assert(Seq::new(n / 1000, |_i: int| 'M') + roman_from(n % 1000, 1) =~= roman_from(n, 1));
    }
}

/// The Roman numeral of `n` is written place by place, as Roman numerals
/// are: one `M` per thousand, then the hundreds digit with `C D M`, the tens
/// digit with `X L C` and the units digit with `I V X` (see
/// [`digit_numeral`]). So 4 is `IV`, 9 `IX`, 14 `XIV`, 1994 `MCMXCIV`.
pub proof fn law_roman_numerals_are_written_by_place(n: nat)
    ensures
        roman(n) == Seq::new(n / 1000, |_i: int| 'M') + digit_numeral(
            ((n / 100) % 10) as int,
            'C',
            'D',
            'M',
        ) + digit_numeral(((n / 10) % 10) as int, 'X', 'L', 'C') + digit_numeral(
            (n % 10) as int,
            'I',
            'V',
            'X',
        ),
{
    lemma_roman_thousands(n);
    let h = n % 1000;
    assert(h / 100 == (n / 100) % 10);
    assert(h % 100 == n % 100);
    lemma_roman_place(h, 1, 100, (h / 100) as int, (h % 100) as int, 'C', 'D', 'M');
    let t = n % 100;
    assert(t / 10 == (n / 10) % 10);
    assert(t % 10 == n % 10);
    lemma_roman_place(t, 5, 10, (t / 10) as int, (t % 10) as int, 'X', 'L', 'C');
    let o = n % 10;
    lemma_roman_place(o, 9, 1, o as int, 0, 'I', 'V', 'X');
    assert(roman_from(0nat, 13) =~= Seq::<char>::empty());
    assert(digit_numeral(o as int, 'I', 'V', 'X') + roman_from(0nat, 13) =~= digit_numeral(
        o as int,
        'I',
        'V',
        'X',
    ));
}

fn roman_entry(k: usize) -> (r: (usize, &'static str))
    requires
        k < 13,
    ensures
        r.0 == roman_value(k as int),
        r.1@ == roman_text(k as int),
{
    let r: (usize, &'static str) = if k == 0 {
        (1000, "M")
    } else if k == 1 {
        (900, "CM")
    } else if k == 2 {
        (500, "D")
    } else if k == 3 {
        (400, "CD")
    } else if k == 4 {
        (100, "C")
    } else if k == 5 {
        (90, "XC")
    } else if k == 6 {
        (50, "L")
    } else if k == 7 {
        (40, "XL")
    } else if k == 8 {
        (10, "X")
    } else if k == 9 {
        (9, "IX")
    } else if k == 10 {
        (5, "V")
    } else if k == 11 {
        (4, "IV")
    } else {
        (1, "I")
    };
    proof {
        reveal_strlit("M");
        reveal_strlit("CM");
        reveal_strlit("D");
        reveal_strlit("CD");
        reveal_strlit("C");
        reveal_strlit("XC");
        reveal_strlit("L");
        reveal_strlit("XL");
        reveal_strlit("X");
        reveal_strlit("IX");
        reveal_strlit("V");
        reveal_strlit("IV");
        reveal_strlit("I");
    }
    r
}

/// The uppercase Roman numeral of `number`, by the greedy subtractive table.
pub fn to_upper_roman(number: usize) -> (r: String)
    ensures
        r@ == roman(number as nat),
{
    let mut result = String::new();
    let mut n: usize = number;
    let mut k: usize = 0;
    while k < 13
        invariant
            k <= 13,
            result@ + roman_from(n as nat, k as int) == roman(number as nat),
        decreases 13 - k,
    {
        let (value, numeral) = roman_entry(k);
        while n >= value
            invariant
                k < 13,
                value == roman_value(k as int),
                numeral@ == roman_text(k as int),
                result@ + roman_from(n as nat, k as int) == roman(number as nat),
            decreases n,
        {
            let ghost before = result@;
            push_str(&mut result, numeral);
            n = n - value;
            assert(result@ + roman_from(n as nat, k as int) =~= before + roman_from(
                (n + value) as nat,
                k as int,
            ));
        }
        k = k + 1;
    }
    assert(roman_from(n as nat, 13) =~= Seq::<char>::empty());
    assert(result@ =~= roman(number as nat));
    result
}

/// The components of a section number joined by dots.
pub open spec fn dotted(cs: Seq<usize>) -> Seq<char>
    decreases cs.len(),
{
    if cs.len() == 0 {
        Seq::empty()
    } else if cs.len() == 1 {
        decimal(cs[0] as nat)
    } else {
        dotted(cs.drop_last()) + seq!['.'] + decimal(cs.last() as nat)
    }
}

/// Each component preceded by a dot.
pub open spec fn dot_prefixed(cs: Seq<usize>) -> Seq<char>
    decreases cs.len(),
{
    if cs.len() == 0 {
        Seq::empty()
    } else {
        dot_prefixed(cs.drop_last()) + seq!['.'] + decimal(cs.last() as nat)
    }
}

/// The counters after numbering a section at the zero-based level `i`: that
/// counter advances (saturating) and every deeper counter resets.
pub open spec fn advance_counters(cs: Seq<usize>, i: int) -> Seq<usize> {
    Seq::new(
        cs.len(),
        |j: int|
            if j < i {
                cs[j]
            } else if j == i {
                if cs[i] < usize::MAX {
                    (cs[i] + 1) as usize
                } else {
                    usize::MAX
                }
            } else {
                0usize
            },
    )
}

/// The number of a section at the zero-based level `i`, given the counters
/// after advancing: under an appendix letter, the letter and the deeper
/// components; otherwise the components down to the level.
pub open spec fn section_number_text(cs: Seq<usize>, i: int, letter: Option<char>) -> Seq<char> {
    match letter {
        Some(l) => seq![l] + dot_prefixed(cs.subrange(1, i + 1)),
        None => dotted(cs.subrange(0, i + 1)),
    }
}

/// The mathematical state of section numbering.
pub struct NumberingView {
    pub counters: Seq<usize>,
    pub part: usize,
    pub appendix: usize,
    pub letter: Option<char>,
    pub base: Option<u8>,
}

/// `n + 1`, saturating at `usize::MAX`.
pub open spec fn bump_count(n: usize) -> usize {
    if n < usize::MAX {
        (n + 1) as usize
    } else {
        usize::MAX
    }
}

/// The letter of the appendix with zero-based index `index` (`Z` from the 26th on).
pub open spec fn appendix_letter_at(index: usize) -> char {
    ((65 + if index < 25 {
        index as int
    } else {
        25
    }) as u8) as char
}

/// The level a section is numbered at, and the state after: its effective
/// level, or in a nested document its depth below the first level seen (the
/// first section fixes that level), counted from 1.
pub open spec fn level_step(v: NumberingView, source_level: u8, kind: SectionKind) -> (NumberingView, u8) {
    let level = effective_level(source_level, kind);
    match v.base {
        None => (v, level),
        Some(b) => {
            let base = if b == 0 {
                level
            } else {
                b
            };
            let d = if level >= base {
                level - base
            } else {
                0
            };
            (NumberingView { base: Some(base), ..v }, if d + 1 <= 255 {
                (d + 1) as u8
            } else {
                255u8
            })
        },
    }
}

/// The next part number and the state after.
pub open spec fn part_step(v: NumberingView) -> (NumberingView, Seq<char>) {
    let p = bump_count(v.part);
    (NumberingView { part: p, ..v }, roman(p as nat))
}

/// The next appendix letter and the state after: deeper counters reset.
pub open spec fn appendix_step(v: NumberingView) -> (NumberingView, Seq<char>) {
    let l = appendix_letter_at(v.appendix);
    (
        NumberingView {
            appendix: bump_count(v.appendix),
            letter: Some(l),
            counters: seq![v.counters[0], 0usize, 0usize, 0usize, 0usize, 0usize],
            ..v
        },
        seq![l],
    )
}

/// The number of the next section at `level` and the state after; levels 0
/// and past the deepest take no number and change nothing.
pub open spec fn section_step(v: NumberingView, level: u8) -> (NumberingView, Option<Seq<char>>) {
    if level == 0 || level > MAX_SECTION_LEVELS {
        (v, None)
    } else {
        let i = level - 1;
        let letter = if level == 1 {
            None
        } else {
            v.letter
        };
        let cs = advance_counters(v.counters, i);
        (NumberingView { counters: cs, letter, ..v }, Some(section_number_text(cs, i, letter)))
    }
}

/// The state at the start of a document.
pub open spec fn initial_numbering() -> NumberingView {
    NumberingView {
        counters: seq![0usize, 0usize, 0usize, 0usize, 0usize, 0usize],
        part: 0,
        appendix: 0,
        letter: None,
        base: None,
    }
}

/// The state at the start of a nested document.
pub open spec fn nested_numbering() -> NumberingView {
    NumberingView { base: Some(0u8), ..initial_numbering() }
}

/// The running counters of section numbering.
#[derive(Debug)]
pub struct NumberingState {
    pub counters: [usize; 6],
    pub part_counter: usize,
    pub appendix_counter: usize,
    pub appendix_letter: Option<char>,
    pub base_level: Option<SectionLevel>,
}

impl View for NumberingState {
    type V = NumberingView;

    open spec fn view(&self) -> NumberingView {
        NumberingView {
            counters: self.counters@,
            part: self.part_counter,
            appendix: self.appendix_counter,
            letter: self.appendix_letter,
            base: self.base_level,
        }
    }
}

impl Default for NumberingState {
    fn default() -> (r: Self)
        ensures
            r@ == initial_numbering(),
            r.counters@ == seq![0usize, 0usize, 0usize, 0usize, 0usize, 0usize],
            r.part_counter == 0,
            r.appendix_counter == 0,
            r.appendix_letter is None,
            r.base_level is None,
    {
        NumberingState {
            counters: [0, 0, 0, 0, 0, 0],
            part_counter: 0,
            appendix_counter: 0,
            appendix_letter: None,
            base_level: None,
        }
    }
}

impl NumberingState {
    /// The state for a nested document (an AsciiDoc table cell): levels are
    /// counted from the first section it meets.
    pub fn nested_document() -> (r: Self)
        ensures
            r@ == nested_numbering(),
            r.counters@ == seq![0usize, 0usize, 0usize, 0usize, 0usize, 0usize],
            r.part_counter == 0,
            r.appendix_counter == 0,
            r.appendix_letter is None,
            r.base_level == Some(0u8),
    {
        let mut s = Self::default();
        s.base_level = Some(0);
        s
    }

    /// The level a section is numbered at: its effective level, relative to
    /// the first level seen in a nested document.
    pub fn numbering_level(&mut self, source_level: SectionLevel, kind: SectionKind) -> (r:
        SectionLevel)
        ensures
            (final(self)@, r) == level_step(old(self)@, source_level, kind),
            ({
                let level = effective_level(source_level, kind);
                match old(self).base_level {
                    None => r == level && final(self).base_level is None,
                    Some(b) => {
                        let base = if b == 0 {
                            level
                        } else {
                            b
                        };
                        &&& final(self).base_level == Some(base)
                        &&& r == {
                            let d = if level >= base {
                                level - base
                            } else {
                                0
                            };
                            if d + 1 <= 255 {
                                d + 1
                            } else {
                                255
                            }
                        }
                    },
                }
            }),
            final(self).counters == old(self).counters,
            final(self).part_counter == old(self).part_counter,
            final(self).appendix_counter == old(self).appendix_counter,
            final(self).appendix_letter == old(self).appendix_letter,
    {
        let level = effective_numbering_level(source_level, kind);
        match self.base_level {
            None => level,
            Some(b) => {
                let base = if b == 0 {
                    level
                } else {
                    b
                };
                self.base_level = Some(base);
                level.saturating_sub(base).saturating_add(1)
            },
        }
    }

    /// The next part number, as an uppercase Roman numeral.
    pub fn next_part(&mut self) -> (r: SectionNumber)
        ensures
            (final(self)@, r.0@) == part_step(old(self)@),
            final(self).part_counter == if old(self).part_counter < usize::MAX {
                old(self).part_counter + 1
            } else {
                usize::MAX as int
            },
            r.0@ == roman(final(self).part_counter as nat),
            final(self).counters == old(self).counters,
            final(self).appendix_counter == old(self).appendix_counter,
            final(self).appendix_letter == old(self).appendix_letter,
            final(self).base_level == old(self).base_level,
    {
        self.part_counter = self.part_counter.saturating_add(1);
        SectionNumber(to_upper_roman(self.part_counter))
    }

    /// The next appendix letter (`A`, `B`, ... and `Z` from the 26th on); the
    /// section counters below the top level reset.
    pub fn next_appendix(&mut self) -> (r: SectionNumber)
        ensures
            (final(self)@, r.0@) == appendix_step(old(self)@),
            ({
                let index = old(self).appendix_counter;
                let letter = ((65 + if index < 25 {
                    index as int
                } else {
                    25
                }) as u8) as char;
                &&& r.0@ == seq![letter]
                &&& final(self).appendix_letter == Some(letter)
            }),
            final(self).appendix_counter == if old(self).appendix_counter < usize::MAX {
                old(self).appendix_counter + 1
            } else {
                usize::MAX as int
            },
            final(self).counters@ == seq![old(self).counters@[0], 0usize, 0usize, 0usize, 0usize, 0usize],
            final(self).part_counter == old(self).part_counter,
            final(self).base_level == old(self).base_level,
    {
        let index = self.appendix_counter;
        self.appendix_counter = self.appendix_counter.saturating_add(1);
        let offset: u8 = if index < 25 {
            index as u8
        } else {
            25
        };
        let letter = (65u8 + offset) as char;
        self.appendix_letter = Some(letter);
        let mut j: usize = 1;
        while j < 6
            invariant
                1 <= j <= 6,
                self.counters@.len() == 6,
                self.counters@[0] == old(self).counters@[0],
                self.appendix_counter == if old(self).appendix_counter < usize::MAX {
                    old(self).appendix_counter + 1
                } else {
                    usize::MAX as int
                },
                self.appendix_letter == Some(letter),
                self.part_counter == old(self).part_counter,
                self.base_level == old(self).base_level,
                forall|q: int| 1 <= q < j ==> self.counters@[q] == 0,
            decreases 6 - j,
        {
            self.counters[j] = 0;
            j = j + 1;
        }
        assert(self.counters@ =~= seq![old(self).counters@[0], 0usize, 0usize, 0usize, 0usize, 0usize]);
        let mut s = String::new();
        push_char(&mut s, letter);
        assert(s@ =~= seq![letter]);
        SectionNumber(s)
    }

    /// The number of the next section at `level` (1 to 5): the level's counter
    /// advances and deeper counters reset; a level-1 section ends the appendix
    /// lettering. Level 0 and levels past 5 take no number.
    pub fn next_section(&mut self, level: SectionLevel) -> (r: Option<SectionNumber>)
        ensures
            (final(self)@, match r {
                Some(n) => Some(n.0@),
                None => None,
            }) == section_step(old(self)@, level),
            (level == 0 || level > MAX_SECTION_LEVELS) ==> r is None && final(self).counters
                == old(self).counters && final(self).appendix_letter == old(
                self,
            ).appendix_letter,
            (1 <= level <= MAX_SECTION_LEVELS) ==> ({
                let i = level - 1;
                let letter = if level == 1 {
                    None
                } else {
                    old(self).appendix_letter
                };
                &&& final(self).appendix_letter == letter
                &&& final(self).counters@ == advance_counters(old(self).counters@, i)
                &&& r matches Some(n) && n.0@ == section_number_text(final(self).counters@, i, letter)
            }),
            final(self).part_counter == old(self).part_counter,
            final(self).appendix_counter == old(self).appendix_counter,
            final(self).base_level == old(self).base_level,
    {
        if level == 0 || level > MAX_SECTION_LEVELS {
            return None;
        }
        if level == 1 {
            self.appendix_letter = None;
        }
        let li: usize = (level - 1) as usize;
        let ghost old_counters = self.counters@;
        let c = self.counters[li];
        self.counters[li] = c.saturating_add(1);
        let mut j: usize = li + 1;
        while j < 6
            invariant
                li < 5,
                li + 1 <= j <= 6,
                self.counters@.len() == 6,
                self.part_counter == old(self).part_counter,
                self.appendix_counter == old(self).appendix_counter,
                self.base_level == old(self).base_level,
                self.appendix_letter == (if level == 1 {
                    None
                } else {
                    old(self).appendix_letter
                }),
                forall|q: int| 0 <= q < li ==> self.counters@[q] == old_counters[q],
                self.counters@[li as int] == advance_counters(old_counters, li as int)[li as int],
                forall|q: int| li < q < j ==> self.counters@[q] == 0,
                old_counters.len() == 6,
            decreases 6 - j,
        {
            self.counters[j] = 0;
            j = j + 1;
        }
        assert(self.counters@ =~= advance_counters(old_counters, li as int));
        let mut number = String::new();
        match self.appendix_letter {
            Some(letter) => {
                push_char(&mut number, letter);
                let mut k: usize = 1;
                assert(self.counters@.subrange(1, 1) =~= Seq::<usize>::empty());
                while k <= li
                    invariant
                        1 <= k <= li + 1,
                        li < 5,
                        self.counters@.len() == 6,
                        number@ == seq![letter] + dot_prefixed(self.counters@.subrange(1, k as int)),
                    decreases li + 1 - k,
                {
                    push_char(&mut number, '.');
                    push_str(&mut number, usize_decimal(self.counters[k]).as_str());
                    assert(self.counters@.subrange(1, k + 1).drop_last() =~= self.counters@.subrange(
                        1,
                        k as int,
                    ));
                    k = k + 1;
                }
            },
            None => {
                let mut k: usize = 0;
                while k <= li
                    invariant
                        k <= li + 1,
                        li < 5,
                        self.counters@.len() == 6,
                        number@ == dotted(self.counters@.subrange(0, k as int)),
                    decreases li + 1 - k,
                {
                    if k > 0 {
                        push_char(&mut number, '.');
                    }
                    push_str(&mut number, usize_decimal(self.counters[k]).as_str());
                    assert(self.counters@.subrange(0, k + 1).drop_last() =~= self.counters@.subrange(
                        0,
                        k as int,
                    ));
                    proof {
                        if k == 0 {
                            assert(self.counters@.subrange(0, 1) =~= seq![self.counters@[0]]);
                        }
                    }
                    k = k + 1;
                }
            },
        }
        Some(SectionNumber(number))
    }
}

/// A sanitised section id: generated from a title, or given explicitly.
#[derive(Clone, Debug, PartialEq)]
pub enum SafeId {
    Generated(String),
    Explicit(String),
}

impl SafeId {
    /// The display text: a generated id is prefixed with `_` (an empty one
    /// stays empty); an explicit id is unchanged.
    pub fn to_string(&self) -> (r: String)
        ensures
            r@ == match self {
                SafeId::Generated(id) => if id@.len() == 0 {
                    Seq::<char>::empty()
                } else {
                    seq!['_'] + id@
                },
                SafeId::Explicit(id) => id@,
            },
    {
        match self {
            SafeId::Generated(id) => {
                if id.as_str().unicode_len() == 0 {
                    String::new()
                } else {
                    let mut s = String::new();
                    push_char(&mut s, '_');
                    push_str(&mut s, id.as_str());
                    s
                }
            },
            SafeId::Explicit(id) => id.clone(),
        }
    }
}

/// What one lowercase character contributes to an id: itself when
/// alphanumeric, a separator for whitespace, `-`, `.` and `_`, and nothing otherwise.
pub open spec fn id_char_class(c: char) -> Option<char> {
    if unicode_alphanumeric(c) {
        Some(c)
    } else if is_ws(c) || c == '-' || c == '.' || c == '_' {
        Some('_')
    } else {
        None
    }
}

/// The id text built from lowercase characters `cs`, given whether the last
/// emitted character was a separator: runs of separators collapse to one `_`
/// and none is emitted right after another.
pub open spec fn id_chars(cs: Seq<char>, last_sep: bool) -> (Seq<char>, bool)
    decreases cs.len(),
{
    if cs.len() == 0 {
        (Seq::empty(), last_sep)
    } else {
        let (p, sep) = id_chars(cs.drop_last(), last_sep);
        match id_char_class(cs.last()) {
            Some(ch) => if ch == '_' {
                (
                    if !sep {
                        p.push('_')
                    } else {
                        p
                    },
                    true,
                )
            } else {
                (p.push(ch), false)
            },
            None => (p, sep),
        }
    }
}

/// The lowercase mapping of each character of `t`, concatenated.
pub open spec fn lower_each(t: Seq<char>) -> Seq<char>
    decreases t.len(),
{
    if t.len() == 0 {
        Seq::empty()
    } else {
        lower_each(t.drop_last()) + unicode_lowercase(t.last())
    }
}

/// Append the id form of `text` to `out`, continuing from `last_was_underscore`.
pub fn append_id_text(text: &str, out: &mut String, last_was_underscore: &mut bool)
    ensures
        ({
            let (more, sep) = id_chars(lower_each(text@), *old(last_was_underscore));
            &&& final(out)@ == old(out)@ + more
            &&& *final(last_was_underscore) == sep
        }),
{
    let t = chars_of(text);
    let ghost start_out = out@;
    let ghost start_sep = *last_was_underscore;
    let mut lowered: Vec<char> = Vec::new();
    let mut i: usize = 0;
    assert(t@.take(0) =~= Seq::<char>::empty());
    while i < t.len()
        invariant
            i <= t@.len(),
            t@ == text@,
            lowered@ == lower_each(t@.take(i as int)),
        decreases t.len() - i,
    {
        let lc = to_lowercase_chars(t[i]);
        let mut k: usize = 0;
        let ghost base = lowered@;
        while k < lc.len()
            invariant
                k <= lc@.len(),
                lowered@ == base + lc@.take(k as int),
            decreases lc.len() - k,
        {
            lowered.push(lc[k]);
            k = k + 1;
            assert(lowered@ =~= base + lc@.take(k as int));
        }
        assert(lc@.take(lc@.len() as int) =~= lc@);
        assert(t@.take(i + 1).drop_last() =~= t@.take(i as int));
        assert(t@.take(i + 1).last() == t@[i as int]);
        i = i + 1;
    }
    assert(t@.take(t@.len() as int) =~= t@);
    let mut j: usize = 0;
    assert(lowered@.take(0) =~= Seq::<char>::empty());
    while j < lowered.len()
        invariant
            j <= lowered@.len(),
            out@ == start_out + id_chars(lowered@.take(j as int), start_sep).0,
            *last_was_underscore == id_chars(lowered@.take(j as int), start_sep).1,
        decreases lowered.len() - j,
    {
        assert(lowered@.take(j + 1).drop_last() =~= lowered@.take(j as int));
        assert(lowered@.take(j + 1).last() == lowered@[j as int]);
        let c = lowered[j];
        let mapped: Option<char> = if is_alphanumeric(c) {
            Some(c)
        } else if is_whitespace(c) || c == '-' || c == '.' || c == '_' {
            Some('_')
        } else {
            None
        };
        match mapped {
            Some(ch) => {
                if ch == '_' {
                    if !*last_was_underscore {
                        push_char(out, '_');
                    }
                    *last_was_underscore = true;
                } else {
                    push_char(out, ch);
                    *last_was_underscore = false;
                }
            },
            None => {},
        }
        j = j + 1;
    }
    assert(lowered@.take(lowered@.len() as int) =~= lowered@);
}

proof fn lemma_id_chars_skip(a: Seq<char>, c: char, b: Seq<char>, s: bool)
    requires
        id_char_class(c) is None,
    ensures
        id_chars(a + seq![c] + b, s) == id_chars(a + b, s),
    decreases b.len(),
{
    if b.len() == 0 {
        assert((a + seq![c] + b).drop_last() =~= a);
        assert((a + seq![c] + b).last() == c);
        assert(a + b =~= a);
    } else {
        lemma_id_chars_skip(a, c, b.drop_last(), s);
        assert((a + seq![c] + b).drop_last() =~= a + seq![c] + b.drop_last());
        assert((a + b).drop_last() =~= a + b.drop_last());
        assert((a + seq![c] + b).last() == b.last());
        assert((a + b).last() == b.last());
    }
}

proof fn lemma_lower_each_split(a: Seq<char>, b: Seq<char>)
    ensures
        lower_each(a + b) == lower_each(a) + lower_each(b),
    decreases b.len(),
{
    if b.len() == 0 {
        assert(a + b =~= a);
        assert(lower_each(a) + lower_each(b) =~= lower_each(a));
    } else {
        lemma_lower_each_split(a, b.drop_last());
        assert((a + b).drop_last() =~= a + b.drop_last());
        assert((a + b).last() == b.last());
        assert(lower_each(a) + lower_each(b.drop_last()) + unicode_lowercase(b.last()) =~= lower_each(
            a,
        ) + (lower_each(b.drop_last()) + unicode_lowercase(b.last())));
    }
}

/// Lowercasing text for an id works character by character: the text of
/// two pieces lowercases to the two lowercased pieces, and one character to
/// its lowercase mapping.
pub proof fn law_id_lowercasing_is_per_character(a: Seq<char>, b: Seq<char>, c: char)
    ensures
        lower_each(a + b) == lower_each(a) + lower_each(b),
        lower_each(seq![c]) == unicode_lowercase(c),
{
    lemma_lower_each_split(a, b);
    assert(seq![c].drop_last() =~= Seq::<char>::empty());
    assert(seq![c].last() == c);
    assert(lower_each(Seq::<char>::empty()) == Seq::<char>::empty());
    assert(lower_each(seq![c]) == lower_each(seq![c].drop_last()) + unicode_lowercase(seq![c].last()));
    assert(Seq::<char>::empty() + unicode_lowercase(c) =~= unicode_lowercase(c));
}

/// Characters other than letters, digits, whitespace, `-`, `.` and `_`
/// (an apostrophe, `!`, `?`, quotes and the like) leave no trace in an id:
/// removing one from the lowercased text anywhere leaves the id text and
/// whether it ended in a separator unchanged. So "Don't Panic" gives the
/// same id as "Dont Panic".
pub proof fn law_other_characters_leave_ids_unchanged(a: Seq<char>, c: char, b: Seq<char>, s: bool)
    requires
        !unicode_alphanumeric(c),
        !is_ws(c),
        c != '-',
        c != '.',
        c != '_',
    ensures
        id_chars(a + seq![c] + b, s) == id_chars(a + b, s),
{
    lemma_id_chars_skip(a, c, b, s);
}

/// The same for the title text before lowercasing: a character as above
/// whose lowercase is itself can be removed from the title without changing
/// the id built from it (see [`append_id_text`]).
pub proof fn law_other_title_characters_leave_ids_unchanged(
    a: Seq<char>,
    c: char,
    b: Seq<char>,
    s: bool,
)
    requires
        unicode_lowercase(c) == seq![c],
        !unicode_alphanumeric(c),
        !is_ws(c),
        c != '-',
        c != '.',
        c != '_',
    ensures
        id_chars(lower_each(a + seq![c] + b), s) == id_chars(lower_each(a + b), s),
{
    lemma_lower_each_split(a + seq![c], b);
    lemma_lower_each_split(a, seq![c]);
    lemma_lower_each_split(a, b);
    assert(lower_each(seq![c]) =~= seq![c]) by {
        assert(seq![c].drop_last() =~= Seq::<char>::empty());
        assert(seq![c].last() == c);
        assert(lower_each(Seq::<char>::empty()) == Seq::<char>::empty());
        assert(Seq::<char>::empty() + seq![c] =~= seq![c]);
    }
    assert(lower_each(a + seq![c]) + lower_each(b) =~= lower_each(a) + seq![c] + lower_each(b));
    lemma_id_chars_skip(lower_each(a), c, lower_each(b), s);
}

/// How one more character of lowercased text extends an id: a letter or
/// digit (other than `_`) is appended as it is; whitespace, `-`, `.` or `_` appends one `_`,
/// unless the id already ends in a separator; any other character changes
/// nothing.
pub proof fn law_id_text_grows_by_character(cs: Seq<char>, c: char, s: bool)
    ensures
        unicode_alphanumeric(c) && c != '_' ==> id_chars(cs.push(c), s) == (
            id_chars(cs, s).0.push(c),
            false,
        ),
        !unicode_alphanumeric(c) && (is_ws(c) || c == '-' || c == '.' || c == '_') ==> id_chars(
            cs.push(c),
            s,
        ) == (
            if id_chars(cs, s).1 {
                id_chars(cs, s).0
            } else {
                id_chars(cs, s).0.push('_')
            },
            true,
        ),
        !unicode_alphanumeric(c) && !(is_ws(c) || c == '-' || c == '.' || c == '_') ==> id_chars(
            cs.push(c),
            s,
        ) == id_chars(cs, s),
{
    assert(cs.push(c).drop_last() =~= cs);
    assert(cs.push(c).last() == c);
}

/// The shape of an id text: each character is a letter or digit or `_`; no
/// two `_` stand together; after a separator (`s`) it does not begin with
/// `_`; and it ends in `_` exactly when it reports ending in a separator
/// having emitted something, letters and digits of the text kept in order.
pub proof fn law_id_text_shape(cs: Seq<char>, s: bool)
    ensures
        forall|i: int|
            0 <= i < id_chars(cs, s).0.len() ==> unicode_alphanumeric(#[trigger] id_chars(cs, s).0[i])
                || id_chars(cs, s).0[i] == '_',
        forall|i: int|
            0 <= i < id_chars(cs, s).0.len() - 1 ==> !(#[trigger] id_chars(cs, s).0[i] == '_'
                && id_chars(cs, s).0[i + 1] == '_'),
        s && id_chars(cs, s).0.len() > 0 ==> id_chars(cs, s).0[0] != '_',
        id_chars(cs, s).0.len() > 0 ==> (id_chars(cs, s).1 <==> id_chars(cs, s).0.last() == '_'),
        id_chars(cs, s).0.len() == 0 ==> id_chars(cs, s).1 == s,
    decreases cs.len(),
{
    if cs.len() > 0 {
        law_id_text_shape(cs.drop_last(), s);
        let (p, sep) = id_chars(cs.drop_last(), s);
        let r = id_chars(cs, s).0;
        match id_char_class(cs.last()) {
            Some(ch) => {
                if ch == '_' {
                    if !sep {
                        assert(r == p.push('_'));
                        assert forall|i: int| 0 <= i < r.len() - 1 implies !(#[trigger] r[i] == '_'
                            && r[i + 1] == '_') by {
                            if i + 1 < p.len() {
                                assert(r[i] == p[i] && r[i + 1] == p[i + 1]);
                            } else {
                                assert(r[i] == p.last());
                            }
                        }
                        assert forall|i: int| 0 <= i < r.len() implies unicode_alphanumeric(
                            #[trigger] r[i],
                        ) || r[i] == '_' by {
                            if i < p.len() {
                                assert(r[i] == p[i]);
                            }
                        }
                    }
                } else {
                    assert(r == p.push(ch));
                    assert(unicode_alphanumeric(ch));
                    assert forall|i: int| 0 <= i < r.len() - 1 implies !(#[trigger] r[i] == '_'
                        && r[i + 1] == '_') by {
                        if i + 1 < p.len() {
                            assert(r[i] == p[i] && r[i + 1] == p[i + 1]);
                        }
                    }
                    assert forall|i: int| 0 <= i < r.len() implies unicode_alphanumeric(
                        #[trigger] r[i],
                    ) || r[i] == '_' by {
                        if i < p.len() {
                            assert(r[i] == p[i]);
                        }
                    }
                }
            },
            None => {},
        }
    }
}

/// `s` without its trailing `_` characters.
pub open spec fn trim_trailing_underscores(s: Seq<char>) -> Seq<char>
    decreases s.len(),
{
    if s.len() > 0 && s.last() == '_' {
        trim_trailing_underscores(s.drop_last())
    } else {
        s
    }
}

} // verus!
