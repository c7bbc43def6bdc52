//! Block metadata: attributes, positional slots, roles, options, style, id
//! and anchors of a block, and the attribute entries met before it.
use vstd::prelude::*;

use crate::anchor::{anchor_view, anchors_view, duplicate_anchors, Anchor};
use crate::attributes::{AttributeValue, ElementAttributes, SpecAttributeValue};
use crate::caption::Caption;
use crate::lines::views;
use crate::location::Location;
use crate::model::{entries_view, DocumentAttribute};
use crate::substitution::{SpecSubstitutionSpec, SubstitutionSpec};

verus! {

/// One slot of a block's positional attribute list.
#[derive(Debug, Default)]
pub struct PositionalAttribute {
    pub value: String,
    /// Whether substitutions apply to the value.
    pub substitutions: bool,
    pub location: Option<Location>,
}

/// A positional slot as mathematical values.
pub open spec fn slot_view(p: PositionalAttribute) -> (Seq<char>, bool, Option<Location>) {
    (p.value@, p.substitutions, p.location)
}

/// Positional slots viewed.
pub open spec fn slots_view(v: Seq<PositionalAttribute>) -> Seq<(Seq<char>, bool, Option<Location>)> {
    v.map_values(|p: PositionalAttribute| slot_view(p))
}

/// The empty slot.
pub open spec fn empty_slot() -> (Seq<char>, bool, Option<Location>) {
    (Seq::empty(), false, None)
}

/// `destination` overlaid slot by slot with `source`: every slot of
/// `source` replaces the one at its index (an empty one too), the slots of
/// `destination` past the end of `source` stay.
pub open spec fn overlay_slots(
    destination: Seq<(Seq<char>, bool, Option<Location>)>,
    source: Seq<(Seq<char>, bool, Option<Location>)>,
) -> Seq<(Seq<char>, bool, Option<Location>)> {
    Seq::new(
        if destination.len() < source.len() {
            source.len()
        } else {
            destination.len()
        },
        |i: int|
            if i < source.len() {
                source[i]
            } else {
                destination[i]
            },
    )
}

impl PositionalAttribute {
    /// A copy of this slot.
    pub fn duplicate(&self) -> (r: Self)
        ensures
            slot_view(r) == slot_view(*self),
    {
        PositionalAttribute {
            value: self.value.clone(),
            substitutions: self.substitutions,
            location: match &self.location {
                Some(l) => Some(l.duplicate()),
                None => None,
            },
        }
    }
}

/// A copy of each slot.
fn duplicate_slots(v: &[PositionalAttribute]) -> (r: Vec<PositionalAttribute>)
    ensures
        slots_view(r@) == slots_view(v@),
{
    let mut r: Vec<PositionalAttribute> = Vec::new();
    let mut i: usize = 0;
    while i < v.len()
        invariant
            i <= v@.len(),
            r@.len() == i,
            forall|k: int| 0 <= k < i ==> slot_view(#[trigger] r@[k]) == slot_view(v@[k]),
        decreases v.len() - i,
    {
        r.push(v[i].duplicate());
        i = i + 1;
    }
    assert(slots_view(r@) =~= slots_view(v@));
    r
}

/// Overlay `destination` with `source` slot by slot (see [`overlay_slots`]).
pub fn overlay_positional_slots(destination: &mut Vec<PositionalAttribute>, source: &[PositionalAttribute])
    ensures
        slots_view(final(destination)@) == overlay_slots(slots_view(old(destination)@), slots_view(source@)),
{
    let ghost d0 = slots_view(destination@);
    let ghost s0 = slots_view(source@);
    while destination.len() < source.len()
        invariant
            d0 == slots_view(old(destination)@),
            d0.len() <= destination@.len(),
            destination@.len() <= source@.len() || destination@.len() == d0.len(),
            forall|k: int|
                0 <= k < destination@.len() ==> slot_view(#[trigger] destination@[k]) == if k < d0.len() {
                    d0[k]
                } else {
                    empty_slot()
                },
        decreases source@.len() - destination@.len(),
    {
        let ghost prev = destination@;
        destination.push(PositionalAttribute { value: String::new(), substitutions: false, location: None });
        assert(forall|k: int| 0 <= k < prev.len() ==> destination@[k] == prev[k]);
    }
    let ghost resized = slots_view(destination@);
    assert(forall|k: int| 0 <= k < resized.len() ==> #[trigger] resized[k] == slot_view(destination@[k]));
    assert(resized.len() == if d0.len() < s0.len() {
        s0.len()
    } else {
        d0.len()
    });
    let mut i: usize = 0;
    while i < source.len()
        invariant
            i <= source@.len(),
            source@.len() <= destination@.len(),
            s0 == slots_view(source@),
            destination@.len() == resized.len(),
            forall|k: int| 0 <= k < i ==> slot_view(#[trigger] destination@[k]) == s0[k],
            forall|k: int| i <= k < destination@.len() ==> slot_view(#[trigger] destination@[k]) == resized[k],
            forall|k: int| 0 <= k < resized.len() ==> #[trigger] resized[k] == if k < d0.len() {
                d0[k]
            } else {
                empty_slot()
            },
            resized.len() == if d0.len() < s0.len() {
                s0.len()
            } else {
                d0.len()
            },
        decreases source.len() - i,
    {
        let slot = source[i].duplicate();
        destination.set(i, slot);
        i = i + 1;
    }
    assert(slots_view(destination@) =~= overlay_slots(d0, s0));
}

/// Optional text viewed.
pub open spec fn text_view(o: Option<String>) -> Option<Seq<char>> {
    match o {
        Some(s) => Some(s@),
        None => None,
    }
}

/// An optional anchor viewed.
pub open spec fn opt_anchor_view(o: Option<Anchor>) -> Option<(Seq<char>, Option<Seq<char>>, Location, bool)> {
    match o {
        Some(a) => Some(anchor_view(a)),
        None => None,
    }
}

/// The recorded attribute entries viewed.
pub open spec fn events_view(o: Option<Vec<DocumentAttribute>>) -> Option<
    Seq<(Seq<char>, SpecAttributeValue, Location)>,
> {
    match o {
        Some(v) => Some(entries_view(v@)),
        None => None,
    }
}

/// Optional substitutions viewed.
pub open spec fn subs_view(o: Option<SubstitutionSpec>) -> Option<SpecSubstitutionSpec> {
    match o {
        Some(s) => Some(s@),
        None => None,
    }
}

/// The metadata of a block.
#[derive(Debug)]
pub struct BlockMetadata {
    /// Attribute entries met before the block, in order.
    pub document_attributes: Option<Vec<DocumentAttribute>>,
    /// The caption behavior of the block and its ordinal.
    pub caption: Option<Caption>,
    pub attributes: ElementAttributes,
    /// Positional attribute slots still being routed.
    pub positional_attributes: Vec<PositionalAttribute>,
    /// The slots as written, kept once routing has begun.
    pub retained_positional_attributes: Option<Vec<PositionalAttribute>>,
    pub roles: Vec<String>,
    pub options: Vec<String>,
    pub style: Option<String>,
    pub id: Option<Anchor>,
    pub anchors: Vec<Anchor>,
    /// Substitutions for the block's content: `None` for the block type's defaults.
    pub substitutions: Option<SubstitutionSpec>,
    pub location: Option<Location>,
}

/// The slots a block's positional attributes are read from: the retained
/// ones when there are any, else the working ones.
pub open spec fn raw_slots(m: BlockMetadata) -> Seq<(Seq<char>, bool, Option<Location>)> {
    match m.retained_positional_attributes {
        Some(r) => slots_view(r@),
        None => slots_view(m.positional_attributes@),
    }
}

/// Whether `r` is `m` but for its attributes and positional slots.
pub open spec fn same_except_attributes(r: BlockMetadata, m: BlockMetadata) -> bool {
    &&& r.document_attributes == m.document_attributes
    &&& r.caption == m.caption
    &&& r.roles == m.roles
    &&& r.options == m.options
    &&& r.style == m.style
    &&& r.id == m.id
    &&& r.anchors == m.anchors
    &&& r.substitutions == m.substitutions
    &&& r.location == m.location
}

/// A copy of each string.
fn copy_strings(v: &Vec<String>) -> (r: Vec<String>)
    ensures
        r@ == v@,
{
    let mut r: Vec<String> = Vec::new();
    let mut i: usize = 0;
    while i < v.len()
        invariant
            i <= v@.len(),
            r@ == v@.take(i as int),
        decreases v.len() - i,
    {
        r.push(v[i].clone());
        i = i + 1;
        assert(r@ =~= v@.take(i as int));
    }
    assert(v@.take(v@.len() as int) =~= v@);
    r
}

/// A copy of a list of values that are copied bit for bit.
fn copy_values<T: Copy>(v: &Vec<T>) -> (r: Vec<T>)
    ensures
        r@ == v@,
{
    let mut r: Vec<T> = Vec::new();
    let mut i: usize = 0;
    while i < v.len()
        invariant
            i <= v@.len(),
            r@ == v@.take(i as int),
        decreases v.len() - i,
    {
        r.push(v[i]);
        i = i + 1;
        assert(r@ =~= v@.take(i as int));
    }
    assert(v@.take(v@.len() as int) =~= v@);
    r
}

/// A copy of a substitution setting.
fn copy_substitutions(s: &SubstitutionSpec) -> (r: SubstitutionSpec)
    ensures
        r@ == s@,
{
    match s {
        SubstitutionSpec::Explicit(v) => SubstitutionSpec::Explicit(copy_values(v)),
        SubstitutionSpec::Modifiers(v) => SubstitutionSpec::Modifiers(copy_values(v)),
    }
}

/// The recorded entries, none when nothing is recorded.
pub open spec fn events_or_none(o: Option<Vec<DocumentAttribute>>) -> Seq<
    (Seq<char>, SpecAttributeValue, Location),
> {
    match o {
        Some(v) => entries_view(v@),
        None => Seq::empty(),
    }
}

/// Whether `r` is `m` merged with `other` (see [`BlockMetadata::merge`]).
pub open spec fn merged(r: BlockMetadata, m: BlockMetadata, other: BlockMetadata) -> bool {
    &&& events_view(r.document_attributes) == match other.document_attributes {
        Some(v) => Some(events_or_none(m.document_attributes) + entries_view(v@)),
        None => events_view(m.document_attributes),
    }
    &&& r.attributes@ == m.attributes@.union_prefer_right(other.attributes@)
    &&& if m.retained_positional_attributes is None && other.retained_positional_attributes is None {
        r.retained_positional_attributes is None
    } else {
        r.retained_positional_attributes matches Some(kept) && slots_view(kept@) == overlay_slots(
            raw_slots(m),
            raw_slots(other),
        )
    }
    &&& slots_view(r.positional_attributes@) == overlay_slots(
        slots_view(m.positional_attributes@),
        slots_view(other.positional_attributes@),
    )
    &&& r.roles@ == if other.roles@.len() > 0 {
        other.roles@
    } else {
        m.roles@
    }
    &&& r.options@ == if other.options@.len() > 0 {
        other.options@
    } else {
        m.options@
    }
    &&& r.style == if other.style is Some {
        other.style
    } else {
        m.style
    }
    &&& opt_anchor_view(r.id) == if other.id is Some {
        opt_anchor_view(other.id)
    } else {
        opt_anchor_view(m.id)
    }
    &&& anchors_view(r.anchors@) == anchors_view(m.anchors@) + anchors_view(other.anchors@)
    &&& subs_view(r.substitutions) == if other.substitutions is Some {
        subs_view(other.substitutions)
    } else {
        subs_view(m.substitutions)
    }
    &&& r.caption == m.caption
    &&& r.location == m.location
}

impl BlockMetadata {
    /// The attribute map holds no name twice.
    pub open spec fn wf(&self) -> bool {
        self.attributes.wf()
    }

    /// Metadata with nothing set.
    pub fn new() -> (r: Self)
        ensures
            r.wf(),
            r.document_attributes is None,
            r.caption is None,
            r.attributes@.is_empty(),
            r.positional_attributes@.len() == 0,
            r.retained_positional_attributes is None,
            r.roles@.len() == 0,
            r.options@.len() == 0,
            r.style is None,
            r.id is None,
            r.anchors@.len() == 0,
            r.substitutions is None,
            r.location is None,
    {
        let r = BlockMetadata {
            document_attributes: None,
            caption: None,
            attributes: ElementAttributes::new(),
            positional_attributes: Vec::new(),
            retained_positional_attributes: None,
            roles: Vec::new(),
            options: Vec::new(),
            style: None,
            id: None,
            anchors: Vec::new(),
            substitutions: None,
            location: None,
        };
        assert(r.attributes@ =~= Map::empty());
        r
    }

    /// The anchor that gives the block its id: the explicit `id`, else the
    /// first anchor.
    pub fn id_anchor(&self) -> (r: Option<&Anchor>)
        ensures
            match self.id {
                Some(a) => r == Some(&a),
                None => if self.anchors@.len() > 0 {
                    r == Some(&self.anchors@[0])
                } else {
                    r is None
                },
            },
    {
        match &self.id {
            Some(a) => Some(a),
            None => if self.anchors.len() > 0 {
                Some(&self.anchors[0])
            } else {
                None
            },
        }
    }

    /// Set the attributes.
    pub fn with_attributes(self, attributes: ElementAttributes) -> (r: Self)
        ensures
            r.attributes == attributes,
            same_except_attributes(r, self),
            r.positional_attributes == self.positional_attributes,
            r.retained_positional_attributes == self.retained_positional_attributes,
    {
        BlockMetadata { attributes, ..self }
    }

    /// Set the options.
    pub fn with_options(self, options: Vec<String>) -> (r: Self)
        ensures
            r.options == options,
            r.attributes == self.attributes,
            r.roles == self.roles,
            r.style == self.style,
            r.id == self.id,
    {
        BlockMetadata { options, ..self }
    }

    /// Set the roles.
    pub fn with_roles(self, roles: Vec<String>) -> (r: Self)
        ensures
            r.roles == roles,
            r.attributes == self.attributes,
            r.options == self.options,
            r.style == self.style,
            r.id == self.id,
    {
        BlockMetadata { roles, ..self }
    }

    /// Set the style.
    pub fn with_style(self, style: Option<String>) -> (r: Self)
        ensures
            r.style == style,
            r.attributes == self.attributes,
            r.roles == self.roles,
            r.options == self.options,
            r.id == self.id,
    {
        BlockMetadata { style, ..self }
    }

    /// Set the id.
    pub fn with_id(self, id: Option<Anchor>) -> (r: Self)
        ensures
            r.id == id,
            r.attributes == self.attributes,
            r.roles == self.roles,
            r.options == self.options,
            r.style == self.style,
    {
        BlockMetadata { id, ..self }
    }

    /// Whether `option` is among the block's options.
    pub fn has_option(&self, option: &str) -> (r: bool)
        ensures
            r == views(self.options@).contains(option@),
    {
        let ghost os = views(self.options@);
        let mut i: usize = 0;
        while i < self.options.len()
            invariant
                os == views(self.options@),
                i <= self.options@.len(),
                forall|k: int| 0 <= k < i ==> os[k] != option@,
            decreases self.options.len() - i,
        {
            assert(os[i as int] == self.options@[i as int]@);
            if crate::text::str_eq(self.options[i].as_str(), option) {
                return true;
            }
            i = i + 1;
        }
        false
    }

    /// The slots positional attributes are read from (see [`raw_slots`]).
    pub fn raw_positional_attributes(&self) -> (r: &[PositionalAttribute])
        ensures
            slots_view(r@) == raw_slots(*self),
    {
        match &self.retained_positional_attributes {
            Some(r) => r.as_slice(),
            None => self.positional_attributes.as_slice(),
        }
    }

    /// The value of the positional slot at `index`, when that slot holds a
    /// non-empty value.
    pub fn positional_attribute(&self, index: usize) -> (r: Option<String>)
        ensures
            match r {
                Some(v) => index < raw_slots(*self).len() && v@ == raw_slots(*self)[index as int].0
                    && v@.len() > 0,
                None => index >= raw_slots(*self).len() || raw_slots(*self)[index as int].0.len()
                    == 0,
            },
    {
        let raw = self.raw_positional_attributes();
        if index < raw.len() {
            assert(slot_view(raw@[index as int]) == raw_slots(*self)[index as int]);
            if !raw[index].value.as_str().is_empty() {
                Some(raw[index].value.clone())
            } else {
                None
            }
        } else {
            None
        }
    }

    /// Each positional slot: its value when non-empty, else `None`.
    pub fn positional_attributes(&self) -> (r: Vec<Option<String>>)
        ensures
            r@.len() == raw_slots(*self).len(),
            forall|k: int|
                0 <= k < r@.len() ==> match #[trigger] r@[k] {
                    Some(v) => v@ == raw_slots(*self)[k].0 && v@.len() > 0,
                    None => raw_slots(*self)[k].0.len() == 0,
                },
    {
        let raw = self.raw_positional_attributes();
        let mut r: Vec<Option<String>> = Vec::new();
        let mut i: usize = 0;
        while i < raw.len()
            invariant
                i <= raw@.len(),
                slots_view(raw@) == raw_slots(*self),
                r@.len() == i,
                forall|k: int|
                    0 <= k < i ==> match #[trigger] r@[k] {
                        Some(v) => v@ == raw_slots(*self)[k].0 && v@.len() > 0,
                        None => raw_slots(*self)[k].0.len() == 0,
                    },
            decreases raw.len() - i,
        {
            assert(slot_view(raw@[i as int]) == raw_slots(*self)[i as int]);
            if !raw[i].value.as_str().is_empty() {
                r.push(Some(raw[i].value.clone()));
            } else {
                r.push(None);
            }
            i = i + 1;
        }
        r
    }

    /// Keep a copy of the working slots, unless one is kept already.
    pub fn retain_positional_attributes(&mut self)
        ensures
            final(self).retained_positional_attributes matches Some(r) && slots_view(r@) == raw_slots(
                *old(self),
            ),
            final(self).positional_attributes == old(self).positional_attributes,
            final(self).attributes == old(self).attributes,
            same_except_attributes(*final(self), *old(self)),
    {
        if self.retained_positional_attributes.is_none() {
            let kept = duplicate_slots(self.positional_attributes.as_slice());
            self.retained_positional_attributes = Some(kept);
        }
    }

    /// Whether attribute entries were recorded before the block.
    pub fn has_document_attributes(&self) -> (r: bool)
        ensures
            r == self.document_attributes is Some,
    {
        self.document_attributes.is_some()
    }

    /// Record one attribute entry met before the block.
    pub fn push_document_attribute(&mut self, attribute: DocumentAttribute)
        ensures
            events_view(final(self).document_attributes) == Some(
                match events_view(old(self).document_attributes) {
                    Some(e) => e,
                    None => Seq::empty(),
                }.push(crate::model::entry_view(attribute)),
            ),
            final(self).attributes == old(self).attributes,
    {
        let mut events = match self.document_attributes.take() {
            Some(v) => v,
            None => Vec::new(),
        };
        let ghost before = entries_view(events@);
        events.push(attribute);
        assert(entries_view(events@) =~= before.push(crate::model::entry_view(attribute)));
        self.document_attributes = Some(events);
    }

    /// Take the recorded attribute entries, leaving none.
    pub fn take_document_attributes(&mut self) -> (r: Vec<DocumentAttribute>)
        ensures
            entries_view(r@) == match events_view(old(self).document_attributes) {
                Some(e) => e,
                None => Seq::empty(),
            },
            final(self).document_attributes is None,
            final(self).attributes == old(self).attributes,
    {
        match self.document_attributes.take() {
            Some(v) => v,
            None => {
                let v: Vec<DocumentAttribute> = Vec::new();
                assert(entries_view(v@) =~= Seq::empty());
                v
            },
        }
    }

    /// Append attribute entries to those recorded (nothing changes for none).
    pub fn append_document_attributes(&mut self, attributes: Vec<DocumentAttribute>)
        ensures
            events_view(final(self).document_attributes) == if attributes@.len() == 0 {
                events_view(old(self).document_attributes)
            } else {
                Some(
                    match events_view(old(self).document_attributes) {
                        Some(e) => e,
                        None => Seq::empty(),
                    } + entries_view(attributes@),
                )
            },
            final(self).attributes == old(self).attributes,
    {
        if attributes.len() == 0 {
            return;
        }
        let mut events = match self.document_attributes.take() {
            Some(v) => v,
            None => Vec::new(),
        };
        let ghost before = entries_view(events@);
        let ghost added = entries_view(attributes@);
        let mut attributes = attributes;
        events.append(&mut attributes);
        assert(entries_view(events@) =~= before + added);
        self.document_attributes = Some(events);
    }

    /// Overlay the working slots with `other` (see [`overlay_slots`]).
    pub fn overlay_positional_attributes(&mut self, other: &[PositionalAttribute])
        ensures
            slots_view(final(self).positional_attributes@) == overlay_slots(
                slots_view(old(self).positional_attributes@),
                slots_view(other@),
            ),
            final(self).retained_positional_attributes == old(self).retained_positional_attributes,
            final(self).attributes == old(self).attributes,
            same_except_attributes(*final(self), *old(self)),
    {
        overlay_positional_slots(&mut self.positional_attributes, other);
    }

    /// Move the working slots out: unless the style is `source`, each
    /// non-empty value not yet an attribute name becomes one with no value; the slots are
    /// kept as the retained ones unless some are kept already.
    pub fn move_positional_attributes_to_attributes(&mut self)
        requires
            old(self).wf(),
        ensures
            final(self).wf(),
            final(self).positional_attributes@.len() == 0,
            final(self).attributes@ == if text_view(old(self).style) == Some("source"@) {
                old(self).attributes@
            } else {
                Map::new(
                    |k: Seq<char>|
                        k.len() > 0 && exists|i: int|
                            0 <= i < old(self).positional_attributes@.len()
                                && #[trigger] old(self).positional_attributes@[i].value@ == k,
                    |k: Seq<char>| SpecAttributeValue::Nothing,
                ).union_prefer_right(old(self).attributes@)
            },
            match old(self).retained_positional_attributes {
                Some(r) => final(self).retained_positional_attributes == Some(r),
                None => final(self).retained_positional_attributes matches Some(r) && slots_view(r@)
                    == slots_view(old(self).positional_attributes@),
            },
            same_except_attributes(*final(self), *old(self)),
    {
        let mut slots: Vec<PositionalAttribute> = Vec::new();
        std::mem::swap(&mut slots, &mut self.positional_attributes);
        let ghost a0 = self.attributes@;
        let is_source = match &self.style {
            Some(s) => {
                proof {
                    reveal_strlit("source");
                }
                crate::text::str_eq(s.as_str(), "source")
            },
            None => false,
        };
        if !is_source {
            let mut i: usize = 0;
            while i < slots.len()
                invariant
                    i <= slots@.len(),
                    self.wf(),
                    slots@ == old(self).positional_attributes@,
                    self.positional_attributes@.len() == 0,
                    self.retained_positional_attributes == old(self).retained_positional_attributes,
                    same_except_attributes(*self, *old(self)),
                    self.attributes@ == Map::new(
                        |k: Seq<char>|
                            k.len() > 0 && exists|j: int| 0 <= j < i && #[trigger] slots@[j].value@ == k,
                        |k: Seq<char>| SpecAttributeValue::Nothing,
                    ).union_prefer_right(a0),
                decreases slots.len() - i,
            {
                let ghost before = self.attributes@;
                if !slots[i].value.as_str().is_empty() {
                    self.attributes.insert(slots[i].value.clone(), AttributeValue::Null);
                }
                proof {
                    let m1 = Map::new(
                        |k: Seq<char>|
                            k.len() > 0 && exists|j: int| 0 <= j < i + 1 && #[trigger] slots@[j].value@ == k,
                        |k: Seq<char>| SpecAttributeValue::Nothing,
                    );
                    assert forall|k: Seq<char>| #[trigger] m1.dom().contains(k) <==> (
                        (k.len() > 0 && exists|j: int| 0 <= j < i && slots@[j].value@ == k) || (k.len() > 0
                            && k == slots@[i as int].value@)) by {
                        if m1.dom().contains(k) {
                            let j = choose|j: int| 0 <= j < i + 1 && #[trigger] slots@[j].value@ == k;
                            if j < i {
                                assert(slots@[j].value@ == k);
                            }
                        }
                        if k.len() > 0 && k == slots@[i as int].value@ {
                            assert(slots@[i as int].value@ == k);
                        }
                    }
                    assert(self.attributes@ =~= m1.union_prefer_right(a0));
                }
                i = i + 1;
            }
        } else {
            proof {
                reveal_strlit("source");
            }
        }
        if self.retained_positional_attributes.is_none() {
            self.retained_positional_attributes = Some(slots);
        }
        proof {
            if !is_source {
                assert(self.attributes@ =~= Map::new(
                    |k: Seq<char>|
                        k.len() > 0 && exists|i: int|
                            0 <= i < old(self).positional_attributes@.len()
                                && #[trigger] old(self).positional_attributes@[i].value@ == k,
                    |k: Seq<char>| SpecAttributeValue::Nothing,
                ).union_prefer_right(a0));
            }
        }
    }

    /// Merge `other` into this metadata (see [`merged`]): its recorded
    /// entries are added, its attributes replace those of the same name, its
    /// positional slots overlay these slot by slot, its anchors are added,
    /// and its roles, options, style, id and substitutions replace these
    /// where it has any.
    pub fn merge(&mut self, other: &BlockMetadata)
        requires
            old(self).wf(),
            other.wf(),
        ensures
            final(self).wf(),
            merged(*final(self), *old(self), *other),
    {
        if let Some(attributes) = &other.document_attributes {
            let mut events = match self.document_attributes.take() {
                Some(v) => v,
                None => {
                    let v: Vec<DocumentAttribute> = Vec::new();
                    assert(entries_view(v@) =~= Seq::empty());
                    v
                },
            };
            let ghost base = entries_view(events@);
            let mut i: usize = 0;
            while i < attributes.len()
                invariant
                    i <= attributes@.len(),
                    entries_view(events@) == base + entries_view(attributes@.take(i as int)),
                decreases attributes.len() - i,
            {
                let ghost before = events@;
                let copy = attributes[i].duplicate();
                events.push(copy);
                assert(attributes@.take(i + 1) =~= attributes@.take(i as int).push(attributes@[i as int]));
                assert(entries_view(attributes@.take(i + 1)) =~= entries_view(attributes@.take(i as int)).push(
                    crate::model::entry_view(attributes@[i as int]),
                ));
                assert(entries_view(events@) =~= entries_view(before).push(crate::model::entry_view(copy)));
                assert(entries_view(events@) =~= base + entries_view(attributes@.take(i + 1)));
                i = i + 1;
            }
            assert(attributes@.take(attributes@.len() as int) =~= attributes@);
            self.document_attributes = Some(events);
        }
        self.attributes.set_all(&other.attributes);
        if self.retained_positional_attributes.is_some()
            || other.retained_positional_attributes.is_some() {
            self.retain_positional_attributes();
            let kept = self.retained_positional_attributes.take();
            match kept {
                Some(mut r) => {
                    overlay_positional_slots(&mut r, other.raw_positional_attributes());
                    self.retained_positional_attributes = Some(r);
                },
                None => {},
            }
        }
        self.overlay_positional_attributes(other.positional_attributes.as_slice());
        if other.roles.len() > 0 {
            self.roles = copy_strings(&other.roles);
        }
        if other.options.len() > 0 {
            self.options = copy_strings(&other.options);
        }
        if let Some(style) = &other.style {
            self.style = Some(style.clone());
        }
        if let Some(id) = &other.id {
            self.id = Some(id.duplicate());
        }
        let ghost own = anchors_view(self.anchors@);
        let mut more = duplicate_anchors(&other.anchors);
        self.anchors.append(&mut more);
        assert(anchors_view(self.anchors@) =~= own + anchors_view(other.anchors@));
        if let Some(subs) = &other.substitutions {
            self.substitutions = Some(copy_substitutions(subs));
        }
    }

    /// Whether nothing that the metadata shows is set: no roles, options,
    /// style, id, anchors, attributes, working slots or substitutions.
    pub fn is_default(&self) -> (r: bool)
        requires
            self.wf(),
        ensures
            r == (self.roles@.len() == 0 && self.options@.len() == 0 && self.style is None
                && self.id is None && self.anchors@.len() == 0 && self.attributes@ == Map::<
                Seq<char>,
                SpecAttributeValue,
            >::empty() && self.positional_attributes@.len() == 0 && self.substitutions is None),
    {
        self.roles.len() == 0 && self.options.len() == 0 && self.style.is_none()
            && self.id.is_none() && self.anchors.len() == 0 && self.attributes.is_empty()
            && self.positional_attributes.len() == 0 && self.substitutions.is_none()
    }
}

} // verus!
