//! Validated document attribute values and assignments, and the membership
//! filter over explicit attribute names.
use vstd::prelude::*;

use crate::attributes::{AttributeValue, SpecAttributeValue};
use crate::numbers::{i128_decimal, signed_decimal};
use crate::text::{owned, push_str};
use vstd::string::StringSliceAdditionalSpecFns;

verus! {

/// What a defined attribute holds.
#[derive(Debug)]
enum ValueKind {
    Text(String),
    Presence,
    Integer { value: i128, source: Option<String> },
}

/// The mathematical value of a [`DocumentAttributeValue`].
pub enum SpecValue {
    /// Text.
    Text(Seq<char>),
    /// Set without a value.
    Presence,
    /// A validated integer and, when it was written, its spelling.
    Integer(i128, Option<Seq<char>>),
}

/// A defined document attribute, including its retained text.
#[derive(Debug)]
pub struct DocumentAttributeValue(ValueKind);

impl View for DocumentAttributeValue {
    type V = SpecValue;

    closed spec fn view(&self) -> SpecValue {
        match self.0 {
            ValueKind::Text(t) => SpecValue::Text(t@),
            ValueKind::Presence => SpecValue::Presence,
            ValueKind::Integer { value, source } => SpecValue::Integer(
                value,
                match source {
                    Some(s) => Some(s@),
                    None => None,
                },
            ),
        }
    }
}

/// The retained text of a value: text as it is, the spelling of an integer
/// when it is not empty, and nothing for presence.
pub open spec fn stored_text_of(v: SpecValue) -> Option<Seq<char>> {
    match v {
        SpecValue::Text(t) => Some(t),
        SpecValue::Integer(_, Some(s)) => if s.len() > 0 {
            Some(s)
        } else {
            None
        },
        _ => None,
    }
}

/// The attribute-reference text of a value: text as it is, nothing for
/// presence, an integer's spelling or else its decimal form.
pub open spec fn reference_text_of(v: SpecValue) -> Seq<char> {
    match v {
        SpecValue::Text(t) => t,
        SpecValue::Presence => Seq::empty(),
        SpecValue::Integer(n, Some(s)) => s,
        SpecValue::Integer(n, None) => signed_decimal(n as int),
    }
}

/// The plain attribute value a defined value stands for: text as a string,
/// presence as `true`, an integer as its spelling (`true` when that is
/// empty) or else its decimal form.
pub open spec fn input_of(v: SpecValue) -> SpecAttributeValue {
    match v {
        SpecValue::Text(t) => SpecAttributeValue::Text(t),
        SpecValue::Presence => SpecAttributeValue::Bool(true),
        SpecValue::Integer(n, Some(s)) => if s.len() == 0 {
            SpecAttributeValue::Bool(true)
        } else {
            SpecAttributeValue::Text(s)
        },
        SpecValue::Integer(n, None) => SpecAttributeValue::Text(signed_decimal(n as int)),
    }
}

impl DocumentAttributeValue {
    /// A value set without text.
    pub fn presence() -> (r: Self)
        ensures
            r@ == SpecValue::Presence,
    {
        DocumentAttributeValue(ValueKind::Presence)
    }

    /// A validated integer with no written spelling.
    pub fn integer(value: i128) -> (r: Self)
        ensures
            r@ == SpecValue::Integer(value, None),
    {
        DocumentAttributeValue(ValueKind::Integer { value, source: None })
    }

    /// A text value.
    pub fn from_text(text: String) -> (r: Self)
        ensures
            r@ == SpecValue::Text(text@),
    {
        DocumentAttributeValue(ValueKind::Text(text))
    }

    /// The text, only when the value is textual.
    pub fn as_str(&self) -> (r: Option<&str>)
        ensures
            match self@ {
                SpecValue::Text(t) => r matches Some(s) && s@ == t,
                _ => r is None,
            },
    {
        match &self.0 {
            ValueKind::Text(value) => Some(value.as_str()),
            _ => None,
        }
    }

    /// The validated integer, without parsing a textual value.
    pub fn as_integer(&self) -> (r: Option<i128>)
        ensures
            match self@ {
                SpecValue::Integer(n, _) => r == Some(n),
                _ => r is None,
            },
    {
        match &self.0 {
            ValueKind::Integer { value, .. } => Some(*value),
            _ => None,
        }
    }

    /// Whether the attribute was set without a value.
    pub fn is_presence(&self) -> (r: bool)
        ensures
            r == (self@ is Presence),
    {
        match &self.0 {
            ValueKind::Presence => true,
            _ => false,
        }
    }

    /// The retained text (see [`stored_text_of`]).
    pub fn stored_text(&self) -> (r: Option<&String>)
        ensures
            match stored_text_of(self@) {
                Some(t) => r matches Some(s) && s@ == t,
                None => r is None,
            },
    {
        match &self.0 {
            ValueKind::Text(value) => Some(value),
            ValueKind::Integer { source, .. } => match source {
                Some(text) => if text.as_str().unicode_len() == 0 {
                    None
                } else {
                    Some(text)
                },
                None => None,
            },
            ValueKind::Presence => None,
        }
    }

    /// The retained text, including the spelling of an explicit integer.
    pub fn text(&self) -> (r: Option<&str>)
        ensures
            match stored_text_of(self@) {
                Some(t) => r matches Some(s) && s@ == t,
                None => r is None,
            },
    {
        match self.stored_text() {
            Some(s) => Some(s.as_str()),
            None => None,
        }
    }

    /// Append the attribute-reference text (see [`reference_text_of`]) to `output`.
    pub fn write_text(&self, output: &mut String)
        ensures
            final(output)@ == old(output)@ + reference_text_of(self@),
    {
        match &self.0 {
            ValueKind::Text(value) => push_str(output, value.as_str()),
            ValueKind::Presence => {
                assert(old(output)@ + Seq::<char>::empty() =~= old(output)@);
            },
            ValueKind::Integer { value, source } => match source {
                Some(text) => push_str(output, text.as_str()),
                None => {
                    let digits = i128_decimal(*value);
                    push_str(output, digits.as_str());
                },
            },
        }
    }

    /// The same value, owning its text.
    pub fn into_static(self) -> (r: Self)
        ensures
            r@ == self@,
    {
        self
    }

    /// The plain attribute value this stands for (see [`input_of`]).
    pub fn into_input(self) -> (r: AttributeValue)
        ensures
            r@ == input_of(self@),
    {
        match self.0 {
            ValueKind::Text(text) => AttributeValue::String(text),
            ValueKind::Presence => AttributeValue::Bool(true),
            ValueKind::Integer { value, source } => match source {
                Some(text) => if text.as_str().unicode_len() == 0 {
                    AttributeValue::Bool(true)
                } else {
                    AttributeValue::String(text)
                },
                None => AttributeValue::String(i128_decimal(value)),
            },
        }
    }

    /// A copy of this value.
    pub fn duplicate(&self) -> (r: Self)
        ensures
            r@ == self@,
    {
        match &self.0 {
            ValueKind::Text(t) => DocumentAttributeValue(ValueKind::Text(t.clone())),
            ValueKind::Presence => DocumentAttributeValue(ValueKind::Presence),
            ValueKind::Integer { value, source } => DocumentAttributeValue(
                ValueKind::Integer {
                    value: *value,
                    source: match source {
                        Some(s) => Some(s.clone()),
                        None => None,
                    },
                },
            ),
        }
    }

    /// The same value with `spelling` as an integer's written form; other
    /// values are unchanged.
    fn with_spelling(self, spelling: Option<String>) -> (r: Self)
        ensures
            r@ == match self@ {
                SpecValue::Integer(n, _) => SpecValue::Integer(
                    n,
                    match spelling {
                        Some(s) => Some(s@),
                        None => None,
                    },
                ),
                v => v,
            },
    {
        match self.0 {
            ValueKind::Integer { value, .. } => DocumentAttributeValue(
                ValueKind::Integer { value, source: spelling },
            ),
            other => DocumentAttributeValue(other),
        }
    }
}

/// An accepted set or unset document-attribute assignment.
#[derive(Debug)]
pub enum DocumentAttributeAssignment {
    /// Replace the active value.
    Assign(DocumentAttributeValue),
    /// Hide the active value, including an inherited one.
    Unset,
}

impl DocumentAttributeAssignment {
    /// The assignment, with an integer value taking `original_source_text` as
    /// its spelling.
    pub fn new(assignment: Self, original_source_text: Option<String>) -> (r: Self)
        ensures
            match assignment {
                DocumentAttributeAssignment::Assign(v) => r matches DocumentAttributeAssignment::Assign(w)
                    && w@ == match v@ {
                    SpecValue::Integer(n, _) => SpecValue::Integer(
                        n,
                        match original_source_text {
                            Some(s) => Some(s@),
                            None => None,
                        },
                    ),
                    x => x,
                },
                DocumentAttributeAssignment::Unset => r is Unset,
            },
    {
        match assignment {
            DocumentAttributeAssignment::Assign(v) => DocumentAttributeAssignment::Assign(
                v.with_spelling(original_source_text),
            ),
            DocumentAttributeAssignment::Unset => DocumentAttributeAssignment::Unset,
        }
    }

    /// The assigned value, or none for an unset.
    pub fn value(&self) -> (r: Option<&DocumentAttributeValue>)
        ensures
            match self {
                DocumentAttributeAssignment::Assign(v) => r == Some(v),
                DocumentAttributeAssignment::Unset => r is None,
            },
    {
        match self {
            DocumentAttributeAssignment::Assign(v) => Some(v),
            DocumentAttributeAssignment::Unset => None,
        }
    }

    /// The same assignment, owning its text.
    pub fn into_static(self) -> (r: Self)
        ensures
            r == self,
    {
        self
    }

    /// The retained text of the assigned value.
    pub fn stored_text(&self) -> (r: Option<&String>)
        ensures
            match self {
                DocumentAttributeAssignment::Assign(v) => match stored_text_of(v@) {
                    Some(t) => r matches Some(s) && s@ == t,
                    None => r is None,
                },
                DocumentAttributeAssignment::Unset => r is None,
            },
    {
        match self.value() {
            Some(v) => v.stored_text(),
            None => None,
        }
    }

    /// The plain attribute value of the assignment: the value's input form,
    /// or `false` for an unset.
    pub fn to_attribute_value(&self) -> (r: AttributeValue)
        ensures
            r@ == match self {
                DocumentAttributeAssignment::Assign(v) => input_of(v@),
                DocumentAttributeAssignment::Unset => SpecAttributeValue::Bool(false),
            },
    {
        match self {
            DocumentAttributeAssignment::Assign(v) => v.duplicate().into_input(),
            DocumentAttributeAssignment::Unset => AttributeValue::Bool(false),
        }
    }
}

// ----------------------------------------------------------------------------
// The membership filter.
// ----------------------------------------------------------------------------

/// The filter slot of a name's bytes: its length times 13, xor its first
/// byte times 7, xor its last byte (missing bytes count as zero), in machine
/// arithmetic, keeping the low seven bits.
pub open spec fn slot_of(bytes: Seq<u8>) -> usize {
    let length = bytes.len() as usize;
    let first = if bytes.len() > 0 {
        bytes[0] as usize
    } else {
        0usize
    };
    let last = if bytes.len() > 0 {
        bytes.last() as usize
    } else {
        0usize
    };
    (length.wrapping_mul(13) ^ first.wrapping_mul(7) ^ last) & 127
}

/// An approximate membership filter of 128 slots over attribute names: a
/// clear slot proves that a name is absent.
#[derive(Clone, Copy, Debug)]
pub struct EntryFilter {
    lower: u64,
    upper: u64,
}

/// Whether bit `k` of `x` is set.
pub open spec fn bit(x: u64, k: u64) -> bool {
    (x >> k) & 1 == 1
}

proof fn lemma_set_bit(x: u64, s: u64, k: u64)
    requires
        s < 64,
        k < 64,
    ensures
        bit(x | (1u64 << s), k) == (bit(x, k) || k == s),
{
    assert(((x | (1u64 << s)) >> k) & 1 == 1 <==> (((x >> k) & 1 == 1) || k == s))
        by (bit_vector)
        requires
            s < 64,
            k < 64,
    ;
}

proof fn lemma_test_bit(x: u64, s: u64)
    requires
        s < 64,
    ensures
        (x & (1u64 << s) != 0) == bit(x, s),
{
    assert((x & (1u64 << s) != 0) <==> ((x >> s) & 1 == 1)) by (bit_vector)
        requires
            s < 64,
    ;
}

impl EntryFilter {
    /// The set slots.
    pub closed spec fn slots(&self) -> Set<int> {
        Set::new(
            |k: int|
                (0 <= k < 64 && bit(self.lower, k as u64)) || (64 <= k < 128 && bit(
                    self.upper,
                    (k - 64) as u64,
                )),
        )
    }

    /// An empty filter.
    pub fn new() -> (r: Self)
        ensures
            r.slots() == Set::<int>::empty(),
    {
        let r = EntryFilter { lower: 0, upper: 0 };
        assert forall|k: u64| k < 64 implies !bit(0u64, k) by {
            assert((0u64 >> k) & 1 != 1) by (bit_vector);
        }
        assert(r.slots() =~= Set::<int>::empty());
        r
    }

    /// The slot of a name (see [`slot_of`]).
    pub fn slot(name: &str) -> (r: usize)
        ensures
            r == slot_of(name.spec_bytes()),
            r < 128,
    {
        let bytes = name.as_bytes();
        let length = bytes.len();
        let first: usize = if length > 0 {
            bytes[0] as usize
        } else {
            0
        };
        let last: usize = if length > 0 {
            bytes[length - 1] as usize
        } else {
            0
        };
        let x = length.wrapping_mul(13) ^ first.wrapping_mul(7) ^ last;
        let r = x & 127;
        assert(r < 128) by (bit_vector)
            requires
                r == x & 127,
        ;
        r
    }

    /// Whether `name` may have been inserted: its slot is set.
    pub fn may_contain(&self, name: &str) -> (r: bool)
        ensures
            r == self.slots().contains(slot_of(name.spec_bytes()) as int),
    {
        let slot = Self::slot(name);
        if slot < 64 {
            let s = slot as u64;
            proof {
                lemma_test_bit(self.lower, s);
            }
            self.lower & (1u64 << s) != 0
        } else {
            let s = (slot - 64) as u64;
            proof {
                lemma_test_bit(self.upper, s);
            }
            self.upper & (1u64 << s) != 0
        }
    }

    /// Record `name`: its slot is set, and no slot is cleared.
    pub fn insert(&mut self, name: &str)
        ensures
            final(self).slots() == old(self).slots().insert(slot_of(name.spec_bytes()) as int),
    {
        let slot = Self::slot(name);
        let ghost before = *self;
        if slot < 64 {
            let s = slot as u64;
            self.lower = self.lower | (1u64 << s);
            assert forall|k: int| #[trigger] self.slots().contains(k) == before.slots().insert(
                slot as int,
            ).contains(k) by {
                if 0 <= k < 64 {
                    lemma_set_bit(before.lower, s, k as u64);
                }
            }
        } else {
            let s = (slot - 64) as u64;
            self.upper = self.upper | (1u64 << s);
            assert forall|k: int| #[trigger] self.slots().contains(k) == before.slots().insert(
                slot as int,
            ).contains(k) by {
                if 64 <= k < 128 {
                    lemma_set_bit(before.upper, s, (k - 64) as u64);
                }
            }
        }
        assert(self.slots() =~= before.slots().insert(slot as int));
    }
}

/// The slots of a filter after inserting `names` in order into `slots`.
pub open spec fn slots_after(slots: Set<int>, names: Seq<Seq<u8>>) -> Set<int>
    decreases names.len(),
{
    if names.len() == 0 {
        slots
    } else {
        slots_after(slots, names.drop_last()).insert(slot_of(names.last()) as int)
    }
}

/// Law: the filter has no false negatives. After inserting any sequence of
/// names into any filter, every inserted name's slot is set, so
/// `may_contain` answers `true` for it; slots already set stay set.
pub proof fn law_no_false_negatives(slots: Set<int>, names: Seq<Seq<u8>>, k: int)
    requires
        0 <= k < names.len(),
    ensures
        slots_after(slots, names).contains(slot_of(names[k]) as int),
        slots.subset_of(slots_after(slots, names)),
    decreases names.len(),
{
    if k < names.len() - 1 {
        law_no_false_negatives(slots, names.drop_last(), k);
        assert(names.drop_last()[k] == names[k]);
    } else {
        if names.len() > 1 {
            law_no_false_negatives(slots, names.drop_last(), 0);
        }
    }
}

} // verus!
