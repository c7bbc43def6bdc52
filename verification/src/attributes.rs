//! Attribute values and the attribute maps of documents and elements.
use vstd::prelude::*;

use crate::numbers::{decimal, signed_decimal, unsigned_text};
use crate::text::{chars_of, char_slice, str_eq};

verus! {

/// The deepest section level that numbering and the table of contents reach.
pub const MAX_SECTION_LEVELS: u8 = 5;

/// The deepest table-of-contents level.
pub const MAX_TOC_LEVELS: u8 = 5;

/// An `AttributeValue` represents the value of an attribute in a document.
///
/// An attribute value can be a string, a boolean, or nothing.
#[derive(Clone, Debug)]
pub enum AttributeValue {
    /// A string attribute value.
    String(String),
    /// A boolean attribute value. `false` means it is unset.
    Bool(bool),
    /// No value (or it was unset).
    Null,
}

/// The mathematical value of an [`AttributeValue`].
pub enum SpecAttributeValue {
    Text(Seq<char>),
    Bool(bool),
    Nothing,
}

impl View for AttributeValue {
    type V = SpecAttributeValue;

    open spec fn view(&self) -> SpecAttributeValue {
        match self {
            AttributeValue::String(s) => SpecAttributeValue::Text(s@),
            AttributeValue::Bool(b) => SpecAttributeValue::Bool(*b),
            AttributeValue::Null => SpecAttributeValue::Nothing,
        }
    }
}

impl AttributeValue {
    /// A copy of this value.
    pub fn duplicate(&self) -> (r: AttributeValue)
        ensures
            r@ == self@,
    {
        match self {
            AttributeValue::String(s) => AttributeValue::String(s.clone()),
            AttributeValue::Bool(b) => AttributeValue::Bool(*b),
            AttributeValue::Null => AttributeValue::Null,
        }
    }

    /// The display text of this value: the string itself, `true`/`false`, or `null`.
    pub fn display_text(&self) -> (r: String)
        ensures
            r@ == match self@ {
                SpecAttributeValue::Text(t) => t,
                SpecAttributeValue::Bool(true) => "true"@,
                SpecAttributeValue::Bool(false) => "false"@,
                SpecAttributeValue::Nothing => "null"@,
            },
    {
        match self {
            AttributeValue::String(s) => s.clone(),
            AttributeValue::Bool(true) => crate::text::owned("true"),
            AttributeValue::Bool(false) => crate::text::owned("false"),
            AttributeValue::Null => crate::text::owned("null"),
        }
    }
}

/// Whether two attribute values are equal.
pub fn attribute_value_eq(a: &AttributeValue, b: &AttributeValue) -> (r: bool)
    ensures
        r == (a@ == b@),
{
    match (a, b) {
        (AttributeValue::String(x), AttributeValue::String(y)) => str_eq(x.as_str(), y.as_str()),
        (AttributeValue::Bool(x), AttributeValue::Bool(y)) => *x == *y,
        (AttributeValue::Null, AttributeValue::Null) => true,
        _ => false,
    }
}

/// The map that an entry list stands for: later entries override earlier ones.
pub open spec fn map_of(entries: Seq<(String, AttributeValue)>) -> Map<Seq<char>, SpecAttributeValue>
    decreases entries.len(),
{
    if entries.len() == 0 {
        Map::empty()
    } else {
        map_of(entries.drop_last()).insert(entries.last().0@, entries.last().1@)
    }
}

/// No name occurs twice in the entry list.
pub open spec fn unique_names(entries: Seq<(String, AttributeValue)>) -> bool {
    forall|i: int, j: int|
        0 <= i < entries.len() && 0 <= j < entries.len() && i != j ==> (#[trigger] entries[i]).0@
            != (#[trigger] entries[j]).0@
}

proof fn lemma_map_of_absent(entries: Seq<(String, AttributeValue)>, k: Seq<char>)
    requires
        forall|i: int| 0 <= i < entries.len() ==> (#[trigger] entries[i]).0@ != k,
    ensures
        !map_of(entries).contains_key(k),
    decreases entries.len(),
{
    if entries.len() > 0 {
        assert(entries.last() == entries[entries.len() - 1]);
        lemma_map_of_absent(entries.drop_last(), k);
    }
}

proof fn lemma_map_of_index(entries: Seq<(String, AttributeValue)>, i: int)
    requires
        unique_names(entries),
        0 <= i < entries.len(),
    ensures
        map_of(entries).contains_key(entries[i].0@),
        map_of(entries)[entries[i].0@] == entries[i].1@,
    decreases entries.len(),
{
    if i < entries.len() - 1 {
        let p = entries.drop_last();
        assert(p[i] == entries[i]);
        assert(entries.last() == entries[entries.len() - 1]);
        assert(unique_names(p)) by {
            assert forall|a: int, b: int|
                0 <= a < p.len() && 0 <= b < p.len() && a != b implies (#[trigger] p[a]).0@
                != (#[trigger] p[b]).0@ by {
                assert(p[a] == entries[a]);
                assert(p[b] == entries[b]);
            }
        }
        lemma_map_of_index(p, i);
    }
}

proof fn lemma_map_of_keys(entries: Seq<(String, AttributeValue)>, k: Seq<char>)
    requires
        map_of(entries).contains_key(k),
    ensures
        exists|i: int| 0 <= i < entries.len() && (#[trigger] entries[i]).0@ == k,
{
    if !(exists|i: int| 0 <= i < entries.len() && (#[trigger] entries[i]).0@ == k) {
        lemma_map_of_absent(entries, k);
    }
}

/// An association list of attribute names and values with no repeated name.
#[derive(Debug)]
struct AttributeStore {
    entries: Vec<(String, AttributeValue)>,
}

impl AttributeStore {
    spec fn wf(&self) -> bool {
        unique_names(self.entries@)
    }

    spec fn map(&self) -> Map<Seq<char>, SpecAttributeValue> {
        map_of(self.entries@)
    }

    fn new() -> (s: Self)
        ensures
            s.wf(),
            s.map() == Map::<Seq<char>, SpecAttributeValue>::empty(),
    {
        AttributeStore { entries: Vec::new() }
    }

    fn position(&self, name: &str) -> (r: Option<usize>)
        requires
            self.wf(),
        ensures
            match r {
                Some(i) => i < self.entries@.len() && self.entries@[i as int].0@ == name@,
                None => !self.map().contains_key(name@),
            },
    {
        let mut i: usize = 0;
        while i < self.entries.len()
            invariant
                i <= self.entries@.len(),
                forall|j: int| 0 <= j < i ==> (#[trigger] self.entries@[j]).0@ != name@,
            decreases self.entries.len() - i,
        {
            if str_eq(self.entries[i].0.as_str(), name) {
                return Some(i);
            }
            i = i + 1;
        }
        proof {
            lemma_map_of_absent(self.entries@, name@);
        }
        None
    }

    fn get(&self, name: &str) -> (r: Option<&AttributeValue>)
        requires
            self.wf(),
        ensures
            match r {
                Some(v) => self.map().contains_key(name@) && self.map()[name@] == v@,
                None => !self.map().contains_key(name@),
            },
    {
        match self.position(name) {
            Some(i) => {
                proof {
                    lemma_map_of_index(self.entries@, i as int);
                }
                Some(&self.entries[i].1)
            },
            None => None,
        }
    }

    fn set(&mut self, name: String, value: AttributeValue)
        requires
            old(self).wf(),
        ensures
            final(self).wf(),
            final(self).map() == old(self).map().insert(name@, value@),
    {
        let ghost old_entries = self.entries@;
        let ghost k = name@;
        let ghost v = value@;
        match self.position(name.as_str()) {
            Some(i) => {
                self.entries.set(i, (name, value));
                proof {
                    let e = self.entries@;
                    assert(unique_names(e)) by {
                        assert forall|a: int, b: int|
                            0 <= a < e.len() && 0 <= b < e.len() && a != b implies (#[trigger] e[a]).0@
                            != (#[trigger] e[b]).0@ by {
                            if a != i && b != i {
                                assert(e[a] == old_entries[a]);
                                assert(e[b] == old_entries[b]);
                            } else if a == i {
                                assert(e[b] == old_entries[b]);
                            } else {
                                assert(e[a] == old_entries[a]);
                            }
                        }
                    }
                    assert(map_of(e) =~= map_of(old_entries).insert(k, v)) by {
                        assert forall|q: Seq<char>| #[trigger]
                            map_of(e).contains_key(q) <==> map_of(old_entries).insert(
                                k,
                                v,
                            ).contains_key(q) by {
                            if map_of(e).contains_key(q) {
                                lemma_map_of_keys(e, q);
                                let j = choose|j: int| 0 <= j < e.len() && (#[trigger] e[j]).0@ == q;
                                if j != i {
                                    assert(e[j] == old_entries[j]);
                                    lemma_map_of_index(old_entries, j);
                                }
                            }
                            if map_of(old_entries).insert(k, v).contains_key(q) && q != k {
                                lemma_map_of_keys(old_entries, q);
                                let j = choose|j: int|
                                    0 <= j < old_entries.len() && (#[trigger] old_entries[j]).0@ == q;
                                assert(j != i);
                                assert(e[j] == old_entries[j]);
                                lemma_map_of_index(e, j);
                            }
                            if q == k {
                                lemma_map_of_index(e, i as int);
                            }
                        }
                        assert forall|q: Seq<char>| #[trigger]
                            map_of(e).contains_key(q) implies map_of(e)[q] == map_of(
                                old_entries,
                            ).insert(k, v)[q] by {
                            lemma_map_of_keys(e, q);
                            let j = choose|j: int| 0 <= j < e.len() && (#[trigger] e[j]).0@ == q;
                            lemma_map_of_index(e, j);
                            if j != i {
                                assert(e[j] == old_entries[j]);
                                lemma_map_of_index(old_entries, j);
                            } else {
                                assert(e[j] == (name, value));
                            }
                        }
                    }
                }
            },
            None => {
                self.entries.push((name, value));
                proof {
                    let e = self.entries@;
                    assert(e.drop_last() =~= old_entries);
                    assert(unique_names(e)) by {
                        assert forall|a: int, b: int|
                            0 <= a < e.len() && 0 <= b < e.len() && a != b implies (#[trigger] e[a]).0@
                            != (#[trigger] e[b]).0@ by {
                            if a < old_entries.len() && b < old_entries.len() {
                                assert(e[a] == old_entries[a]);
                                assert(e[b] == old_entries[b]);
                            } else if a < old_entries.len() {
                                assert(e[a] == old_entries[a]);
                                lemma_map_of_index(old_entries, a);
                            } else {
                                assert(e[b] == old_entries[b]);
                                lemma_map_of_index(old_entries, b);
                            }
                        }
                    }
                }
            },
        }
    }

    fn remove(&mut self, name: &str) -> (r: Option<AttributeValue>)
        requires
            old(self).wf(),
        ensures
            final(self).wf(),
            final(self).map() == old(self).map().remove(name@),
            match r {
                Some(v) => old(self).map().contains_key(name@) && old(self).map()[name@] == v@,
                None => !old(self).map().contains_key(name@),
            },
    {
        let ghost old_entries = self.entries@;
        let ghost k = name@;
        match self.position(name) {
            Some(i) => {
                proof {
                    lemma_map_of_index(old_entries, i as int);
                }
                let (_, value) = self.entries.remove(i);
                proof {
                    let e = self.entries@;
                    assert(forall|a: int| 0 <= a < i ==> e[a] == old_entries[a]);
                    assert(forall|a: int| i <= a < e.len() ==> e[a] == old_entries[a + 1]);
                    assert(unique_names(e)) by {
                        assert forall|a: int, b: int|
                            0 <= a < e.len() && 0 <= b < e.len() && a != b implies (#[trigger] e[a]).0@
                            != (#[trigger] e[b]).0@ by {
                            let oa = if a < i {
                                a
                            } else {
                                a + 1
                            };
                            let ob = if b < i {
                                b
                            } else {
                                b + 1
                            };
                            assert(e[a] == old_entries[oa]);
                            assert(e[b] == old_entries[ob]);
                        }
                    }
                    assert(map_of(e) =~= map_of(old_entries).remove(k)) by {
                        assert forall|q: Seq<char>| #[trigger]
                            map_of(e).contains_key(q) <==> map_of(old_entries).remove(
                                k,
                            ).contains_key(q) by {
                            if map_of(e).contains_key(q) {
                                lemma_map_of_keys(e, q);
                                let j = choose|j: int| 0 <= j < e.len() && (#[trigger] e[j]).0@ == q;
                                let oj = if j < i {
                                    j
                                } else {
                                    j + 1
                                };
                                assert(e[j] == old_entries[oj]);
                                lemma_map_of_index(old_entries, oj);
                            }
                            if map_of(old_entries).remove(k).contains_key(q) {
                                lemma_map_of_keys(old_entries, q);
                                let j = choose|j: int|
                                    0 <= j < old_entries.len() && (#[trigger] old_entries[j]).0@ == q;
                                assert(j != i);
                                let nj = if j < i {
                                    j
                                } else {
                                    j - 1
                                };
                                assert(e[nj] == old_entries[j]);
                                lemma_map_of_index(e, nj);
                            }
                        }
                        assert forall|q: Seq<char>| #[trigger]
                            map_of(e).contains_key(q) implies map_of(e)[q] == map_of(
                                old_entries,
                            ).remove(k)[q] by {
                            lemma_map_of_keys(e, q);
                            let j = choose|j: int| 0 <= j < e.len() && (#[trigger] e[j]).0@ == q;
                            lemma_map_of_index(e, j);
                            let oj = if j < i {
                                j
                            } else {
                                j + 1
                            };
                            assert(e[j] == old_entries[oj]);
                            lemma_map_of_index(old_entries, oj);
                        }
                    }
                }
                Some(value)
            },
            None => {
                assert(map_of(old_entries).remove(k) =~= map_of(old_entries));
                None
            },
        }
    }
}

/// Document attributes: a map from attribute names to values.
#[derive(Debug)]
pub struct DocumentAttributes {
    store: AttributeStore,
}

impl View for DocumentAttributes {
    type V = Map<Seq<char>, SpecAttributeValue>;

    closed spec fn view(&self) -> Map<Seq<char>, SpecAttributeValue> {
        self.store.map()
    }
}

impl DocumentAttributes {
    /// The store holds no name twice.
    pub closed spec fn wf(&self) -> bool {
        self.store.wf()
    }

    /// An empty attribute map.
    pub fn new() -> (r: Self)
        ensures
            r.wf(),
            r@ == Map::<Seq<char>, SpecAttributeValue>::empty(),
    {
        DocumentAttributes { store: AttributeStore::new() }
    }

    /// Whether no attribute is defined.
    pub fn is_empty(&self) -> (r: bool)
        requires
            self.wf(),
        ensures
            r == (self@ == Map::<Seq<char>, SpecAttributeValue>::empty()),
    {
        proof {
            if self.store.entries@.len() > 0 {
                lemma_map_of_index(self.store.entries@, 0);
                assert(!Map::<Seq<char>, SpecAttributeValue>::empty().contains_key(
                    self.store.entries@[0].0@,
                ));
            }
        }
        let r = self.store.entries.len() == 0;
        proof {
            if r {
                assert(self@ =~= Map::<Seq<char>, SpecAttributeValue>::empty());
            }
        }
        r
    }

    /// Define `name` as `value`, replacing any previous value.
    pub fn insert(&mut self, name: String, value: AttributeValue)
        requires
            old(self).wf(),
        ensures
            final(self).wf(),
            final(self)@ == old(self)@.insert(name@, value@),
    {
        self.store.set(name, value);
    }

    /// Define `name` as `value`, replacing any previous value.
    pub fn set(&mut self, name: String, value: AttributeValue)
        requires
            old(self).wf(),
        ensures
            final(self).wf(),
            final(self)@ == old(self)@.insert(name@, value@),
    {
        self.store.set(name, value);
    }

    /// The value of `name`, if defined.
    pub fn get(&self, name: &str) -> (r: Option<&AttributeValue>)
        requires
            self.wf(),
        ensures
            match r {
                Some(v) => self@.contains_key(name@) && self@[name@] == v@,
                None => !self@.contains_key(name@),
            },
    {
        self.store.get(name)
    }

    /// Whether `name` is defined.
    pub fn contains_key(&self, name: &str) -> (r: bool)
        requires
            self.wf(),
        ensures
            r == self@.contains_key(name@),
    {
        self.store.get(name).is_some()
    }

    /// Remove `name`, returning its value if it was defined.
    pub fn remove(&mut self, name: &str) -> (r: Option<AttributeValue>)
        requires
            old(self).wf(),
        ensures
            final(self).wf(),
            final(self)@ == old(self)@.remove(name@),
            match r {
                Some(v) => old(self)@.contains_key(name@) && old(self)@[name@] == v@,
                None => !old(self)@.contains_key(name@),
            },
    {
        self.store.remove(name)
    }

    /// A copy of these attributes.
    pub fn duplicate(&self) -> (r: Self)
        requires
            self.wf(),
        ensures
            r.wf(),
            r@ == self@,
    {
        let mut r = DocumentAttributes::new();
        let ghost oe = self.store.entries@;
        let mut i: usize = 0;
        assert(map_of(oe.take(0)) =~= Map::<Seq<char>, SpecAttributeValue>::empty());
        while i < self.store.entries.len()
            invariant
                r.wf(),
                i <= oe.len(),
                oe == self.store.entries@,
                r@ == map_of(oe.take(i as int)),
            decreases oe.len() - i,
        {
            let name = crate::text::owned(self.store.entries[i].0.as_str());
            let value = self.store.entries[i].1.duplicate();
            assert(oe.take(i + 1).drop_last() =~= oe.take(i as int));
            assert(oe.take(i + 1).last() == oe[i as int]);
            r.set(name, value);
            assert(r@ =~= map_of(oe.take(i + 1)));
            i = i + 1;
        }
        assert(oe.take(oe.len() as int) =~= oe);
        r
    }

    /// The name and value of each attribute.
    pub fn entries(&self) -> (r: &Vec<(String, AttributeValue)>)
        ensures
            map_of(r@) == self@,
    {
        &self.store.entries
    }

    /// Each attribute with its value, each name once.
    pub fn iter(&self) -> (r: &Vec<(String, AttributeValue)>)
        requires
            self.wf(),
        ensures
            map_of(r@) == self@,
            unique_names(r@),
    {
        &self.store.entries
    }
}

/// The attributes of one element (block or inline): a map from names to values.
#[derive(Debug)]
pub struct ElementAttributes {
    store: AttributeStore,
}

impl View for ElementAttributes {
    type V = Map<Seq<char>, SpecAttributeValue>;

    closed spec fn view(&self) -> Map<Seq<char>, SpecAttributeValue> {
        self.store.map()
    }
}

impl ElementAttributes {
    /// The store holds no name twice.
    pub closed spec fn wf(&self) -> bool {
        self.store.wf()
    }

    /// An empty attribute map.
    pub fn new() -> (r: Self)
        ensures
            r.wf(),
            r@ == Map::<Seq<char>, SpecAttributeValue>::empty(),
    {
        ElementAttributes { store: AttributeStore::new() }
    }

    /// Whether no attribute is defined.
    pub fn is_empty(&self) -> (r: bool)
        requires
            self.wf(),
        ensures
            r == (self@ == Map::<Seq<char>, SpecAttributeValue>::empty()),
    {
        proof {
            if self.store.entries@.len() > 0 {
                lemma_map_of_index(self.store.entries@, 0);
                assert(!Map::<Seq<char>, SpecAttributeValue>::empty().contains_key(
                    self.store.entries@[0].0@,
                ));
            }
        }
        let r = self.store.entries.len() == 0;
        proof {
            if r {
                assert(self@ =~= Map::<Seq<char>, SpecAttributeValue>::empty());
            }
        }
        r
    }

    /// Insert an attribute without replacing an existing value.
    pub fn insert(&mut self, name: String, value: AttributeValue)
        requires
            old(self).wf(),
        ensures
            final(self).wf(),
            final(self)@ == if old(self)@.contains_key(name@) {
                old(self)@
            } else {
                old(self)@.insert(name@, value@)
            },
    {
        if self.store.get(name.as_str()).is_none() {
            self.store.set(name, value);
        }
    }

    /// Set an attribute, overwriting any existing value.
    pub fn set(&mut self, name: String, value: AttributeValue)
        requires
            old(self).wf(),
        ensures
            final(self).wf(),
            final(self)@ == old(self)@.insert(name@, value@),
    {
        self.store.set(name, value);
    }

    /// Get an attribute value by name.
    pub fn get(&self, name: &str) -> (r: Option<&AttributeValue>)
        requires
            self.wf(),
        ensures
            match r {
                Some(v) => self@.contains_key(name@) && self@[name@] == v@,
                None => !self@.contains_key(name@),
            },
    {
        self.store.get(name)
    }

    /// Check if an attribute exists.
    pub fn contains_key(&self, name: &str) -> (r: bool)
        requires
            self.wf(),
        ensures
            r == self@.contains_key(name@),
    {
        self.store.get(name).is_some()
    }

    /// Remove an attribute by name.
    pub fn remove(&mut self, name: &str) -> (r: Option<AttributeValue>)
        requires
            old(self).wf(),
        ensures
            final(self).wf(),
            final(self)@ == old(self)@.remove(name@),
            match r {
                Some(v) => old(self)@.contains_key(name@) && old(self)@[name@] == v@,
                None => !old(self)@.contains_key(name@),
            },
    {
        self.store.remove(name)
    }

    /// Set every attribute of `other` here, replacing values of the same name.
    pub fn set_all(&mut self, other: &Self)
        requires
            old(self).wf(),
            other.wf(),
        ensures
            final(self).wf(),
            final(self)@ == old(self)@.union_prefer_right(other@),
    {
        let ghost om = self@;
        let ghost oe = other.store.entries@;
        let mut i: usize = 0;
        assert(map_of(oe.take(0)) =~= Map::<Seq<char>, SpecAttributeValue>::empty());
        assert(om.union_prefer_right(map_of(oe.take(0))) =~= om);
        while i < other.store.entries.len()
            invariant
                self.wf(),
                i <= oe.len(),
                oe == other.store.entries@,
                self@ == om.union_prefer_right(map_of(oe.take(i as int))),
            decreases oe.len() - i,
        {
            let name = crate::text::owned(other.store.entries[i].0.as_str());
            let value = other.store.entries[i].1.duplicate();
            assert(oe.take(i + 1).drop_last() =~= oe.take(i as int));
            assert(oe.take(i + 1).last() == oe[i as int]);
            self.set(name, value);
            assert(self@ =~= om.union_prefer_right(map_of(oe.take(i + 1))));
            i = i + 1;
        }
        assert(oe.take(oe.len() as int) =~= oe);
    }

    /// The name and value of each attribute.
    pub fn entries(&self) -> (r: &Vec<(String, AttributeValue)>)
        ensures
            map_of(r@) == self@,
    {
        &self.store.entries
    }

    /// Each attribute with its value, each name once.
    pub fn iter(&self) -> (r: &Vec<(String, AttributeValue)>)
        requires
            self.wf(),
        ensures
            map_of(r@) == self@,
            unique_names(r@),
    {
        &self.store.entries
    }

    /// Merge attributes without replacing existing values.
    pub fn merge(&mut self, other: Self)
        requires
            old(self).wf(),
            other.wf(),
        ensures
            final(self).wf(),
            final(self)@ == other@.union_prefer_right(old(self)@),
    {
        let ghost om = self@;
        let ghost oe = other.store.entries@;
        let mut entries = other.store.entries;
        let total = entries.len();
        assert(oe.len() == total);
        let mut i: usize = 0;
        assert(oe.skip(0) =~= oe);
        assert(map_of(oe.take(0)).union_prefer_right(om) =~= om);
        while entries.len() > 0
            invariant
                self.wf(),
                entries@ == oe.skip(i as int),
                entries@.len() == oe.len() - i,
                i <= oe.len(),
                oe.len() <= usize::MAX,
                unique_names(oe),
                self@ == map_of(oe.take(i as int)).union_prefer_right(om),
            decreases entries.len(),
        {
            assert(i < oe.len());
            let (name, value) = entries.remove(0);
            let ghost k = name@;
            let ghost v = value@;
            proof {
                assert(oe.skip(i as int)[0] == oe[i as int]);
                assert(oe.take(i + 1).drop_last() =~= oe.take(i as int));
                assert(oe.take(i + 1).last() == oe[i as int]);
                assert forall|j: int| 0 <= j < oe.take(i as int).len() implies (#[trigger] oe.take(
                    i as int,
                )[j]).0@ != k by {
                    assert(oe.take(i as int)[j] == oe[j]);
                }
                lemma_map_of_absent(oe.take(i as int), k);
            }
            self.insert(name, value);
            i = i + 1;
            proof {
                assert(entries@ =~= oe.skip(i as int));
                let m2 = map_of(oe.take(i as int));
                assert(m2 == map_of(oe.take(i - 1)).insert(k, v));
                assert(self@ =~= m2.union_prefer_right(om));
            }
        }
        assert(oe.take(i as int) =~= oe);
    }

    /// Get a string attribute value with surrounding quotes removed.
    pub fn get_string(&self, name: &str) -> (r: Option<String>)
        requires
            self.wf(),
        ensures
            match r {
                Some(s) => self@.contains_key(name@) && (match self@[name@] {
                    SpecAttributeValue::Text(t) => s@ == strip_quotes_spec(t),
                    _ => false,
                }),
                None => !self@.contains_key(name@) || !(self@[name@] is Text),
            },
    {
        match self.get(name) {
            Some(AttributeValue::String(s)) => Some(crate::text::owned(strip_quotes(s.as_str()))),
            _ => None,
        }
    }
}

/// Whether `c` is a quote character that `strip_quotes` removes.
pub open spec fn is_quote(c: char) -> bool {
    c == '"' || c == '\''
}

/// `s` without its outermost pair of matching quotes: when it starts and
/// ends with the same quote character (and holds at least two characters),
/// those two are removed; otherwise it is unchanged.
pub open spec fn strip_quotes_spec(s: Seq<char>) -> Seq<char> {
    if s.len() >= 2 && is_quote(s[0]) && s.last() == s[0] {
        s.subrange(1, s.len() - 1)
    } else {
        s
    }
}

/// Strip the outermost matching pair of single or double quotes from a
/// string (see [`strip_quotes_spec`]).
pub fn strip_quotes(s: &str) -> (r: &str)
    ensures
        r@ == strip_quotes_spec(s@),
{
    let v = chars_of(s);
    let n = v.len();
    if n >= 2 && (v[0] == '"' || v[0] == '\'') && v[n - 1] == v[0] {
        char_slice(s, 1, n - 1)
    } else {
        s
    }
}

/// Whether a bounded attribute (`sectnumlevels` or `toclevels`) holds a valid
/// number above its maximum, which is worth a warning (the value is then
/// treated as the maximum).
pub fn validate_bounded_attribute(key: &str, value: &AttributeValue) -> (out_of_range: bool)
    ensures
        out_of_range == (match value@ {
            SpecAttributeValue::Text(t) => (key@ == "sectnumlevels"@ || key@ == "toclevels"@)
                && match unsigned_text(t) {
                Some(n) => n <= 255 && n > 5,
                None => false,
            },
            _ => false,
        }),
{
    let s = match value {
        AttributeValue::String(s) => s,
        _ => return false,
    };
    if str_eq(key, "sectnumlevels") {
        match crate::numbers::parse_u8(s.as_str()) {
            Some(level) => level > MAX_SECTION_LEVELS,
            None => false,
        }
    } else if str_eq(key, "toclevels") {
        match crate::numbers::parse_u8(s.as_str()) {
            Some(level) => level > MAX_TOC_LEVELS,
            None => false,
        }
    } else {
        false
    }
}

} // verus!

verus! {

/// Law: an attribute map gives back what was last written to a name; a
/// removed name is absent; and writing or removing a name leaves every other
/// name as it was. For element attributes, a write does not replace an
/// existing value.
pub proof fn law_attribute_maps_read_after_write(
    m: Map<Seq<char>, SpecAttributeValue>,
    name: Seq<char>,
    value: SpecAttributeValue,
    other: Seq<char>,
)
    requires
        other != name,
    ensures
        m.insert(name, value).contains_key(name) && m.insert(name, value)[name] == value,
        !m.remove(name).contains_key(other) || m.remove(name)[other] == m[other],
        !m.remove(name).contains_key(name),
        m.insert(name, value).contains_key(other) == m.contains_key(other),
        m.contains_key(other) ==> m.insert(name, value)[other] == m[other],
        m.remove(name).contains_key(other) == m.contains_key(other),
        (if m.contains_key(name) {
            m
        } else {
            m.insert(name, value)
        })[name] == if m.contains_key(name) {
            m[name]
        } else {
            value
        },
{
}

} // verus!
