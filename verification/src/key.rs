//! Keys: the "key:a:1@foo"-like descriptions of events that arguments act upon.

use vstd::prelude::*;

use crate::capability::{lemma_insert_contains, CapMatch, Capability};
use crate::affine::{parse_affine_factor, spec_as_constant, spec_lex_to_components, AffineFactor, ComponentView};
use crate::domain::{is_valid_domain_name, resolves_to, Domain, DomainTracker};
use crate::ecodes::{spec_event_code, spec_event_type, spec_virtual_ev_type};
use crate::error::{ArgumentError, Context};
use crate::event::{Event, EventCode, EventType, Namespace, VirtualEventType, EV_SYN};
use crate::range::{lower_or_min, spec_max, spec_min, upper_or_max, Interval};
use crate::text::{
    chars_eq, chars_of, contains_char, join_strs, parse_i32, spec_parse_int, spec_split_once,
    split_once, string_from_chars, spec_starts_with,
};

verus! {

/// One requirement that a key puts on events, or one change that it makes to them.
#[derive(Clone, Debug)]
pub enum KeyProperty {
    Code(EventCode),
    Domain(Domain),
    Namespace(Namespace),
    Value(Interval),
    PreviousValue(Interval),
    /// Only valid for filter keys.
    Type(EventType),
    /// Only valid for filter keys.
    VirtualType(VirtualEventType),
    /// Applies an affine transformation on the input event.
    /// Only valid for mask keys.
    AffineFactor(AffineFactor),
}

/// What a key property says, as plain values.
pub enum PropertyView {
    Code(EventCode),
    Domain(Domain),
    Namespace(Namespace),
    Value(Interval),
    PreviousValue(Interval),
    Type(EventType),
    VirtualType(VirtualEventType),
    AffineFactor(Seq<ComponentView>),
}

impl View for KeyProperty {
    type V = PropertyView;

    open spec fn view(&self) -> PropertyView {
        match self {
            KeyProperty::Code(c) => PropertyView::Code(*c),
            KeyProperty::Domain(d) => PropertyView::Domain(*d),
            KeyProperty::Namespace(n) => PropertyView::Namespace(*n),
            KeyProperty::Value(r) => PropertyView::Value(*r),
            KeyProperty::PreviousValue(r) => PropertyView::PreviousValue(*r),
            KeyProperty::Type(t) => PropertyView::Type(*t),
            KeyProperty::VirtualType(v) => PropertyView::VirtualType(*v),
            KeyProperty::AffineFactor(f) => PropertyView::AffineFactor(f.view_components()),
        }
    }
}

pub open spec fn properties_view(props: Seq<KeyProperty>) -> Seq<PropertyView> {
    props.map_values(|p: KeyProperty| p@)
}

/// A number for each kind of property.
pub open spec fn kind(p: PropertyView) -> int {
    match p {
        PropertyView::Code(_) => 0,
        PropertyView::Domain(_) => 1,
        PropertyView::Namespace(_) => 2,
        PropertyView::Value(_) => 3,
        PropertyView::PreviousValue(_) => 4,
        PropertyView::Type(_) => 5,
        PropertyView::VirtualType(_) => 6,
        PropertyView::AffineFactor(_) => 7,
    }
}

/// At most one property of each kind.
pub open spec fn unique_kinds(props: Seq<PropertyView>) -> bool {
    forall|i: int, j: int| 0 <= i < j < props.len() ==> kind(#[trigger] props[i]) != kind(#[trigger] props[j])
}

/// Whether an event meets one property.
pub open spec fn property_matches(p: PropertyView, event: Event) -> bool {
    match p {
        PropertyView::Code(c) => event.code == c,
        PropertyView::Domain(d) => event.domain == d,
        PropertyView::Type(t) => event.code.ev_type == t,
        PropertyView::VirtualType(v) => spec_virtual_ev_type(event.code) == v,
        PropertyView::Namespace(n) => event.namespace == n,
        PropertyView::Value(r) => r.has(event.value as int),
        PropertyView::PreviousValue(r) => r.has(event.previous_value as int),
        PropertyView::AffineFactor(_) => false,
    }
}

/// Whether an event meets every property.
pub open spec fn key_matches(props: Seq<PropertyView>, event: Event) -> bool {
    forall|i: int| 0 <= i < props.len() ==> property_matches(#[trigger] props[i], event)
}

/// Whether some event of the given code and domain may meet a property. The code fixes the
/// virtual type of its events, so a virtual type is checked exactly.
pub open spec fn property_matches_channel(p: PropertyView, code: EventCode, domain: Domain) -> bool {
    match p {
        PropertyView::Code(c) => code == c,
        PropertyView::Domain(d) => domain == d,
        PropertyView::Type(t) => t == code.ev_type,
        PropertyView::VirtualType(v) => spec_virtual_ev_type(code) == v,
        _ => true,
    }
}

pub open spec fn key_matches_channel(props: Seq<PropertyView>, code: EventCode, domain: Domain) -> bool {
    forall|i: int| 0 <= i < props.len() ==> property_matches_channel(#[trigger] props[i], code, domain)
}

/// The value within an interval closest to `value`.
pub open spec fn spec_bound(r: Interval, value: i32) -> i32 {
    spec_max(r.min as int, spec_min(r.max as int, value as int)) as i32
}

/// The closest event to `event` that meets a property. Properties on the type leave it unchanged.
pub open spec fn property_merge(p: PropertyView, event: Event) -> Event {
    match p {
        PropertyView::Code(c) => Event { code: c, ..event },
        PropertyView::Domain(d) => Event { domain: d, ..event },
        PropertyView::Namespace(n) => Event { namespace: n, ..event },
        PropertyView::Value(r) => Event { value: spec_bound(r, event.value), ..event },
        PropertyView::PreviousValue(r) => Event { previous_value: spec_bound(r, event.previous_value), ..event },
        _ => event,
    }
}

/// Applies the properties to an event one after another.
pub open spec fn key_merge(props: Seq<PropertyView>, event: Event) -> Event
    decreases props.len(),
{
    if props.len() == 0 {
        event
    } else {
        property_merge(props.last(), key_merge(props.drop_last(), event))
    }
}

/// Whether a key holds a relative value, which only floating-point arithmetic can apply.
pub open spec fn has_affine(props: Seq<PropertyView>) -> bool {
    exists|i: int| 0 <= i < props.len() && (#[trigger] props[i]) is AffineFactor
}

/// The event type that the first property about types requires, if any.
pub open spec fn first_type_requirement(props: Seq<PropertyView>) -> Option<EventType>
    decreases props.len(),
{
    if props.len() == 0 {
        None
    } else {
        match props[0] {
            PropertyView::Code(c) => Some(c.ev_type),
            PropertyView::Type(t) => Some(t),
            PropertyView::VirtualType(v) => Some(v.spec_ev_type()),
            _ => first_type_requirement(props.drop_first()),
        }
    }
}

/// The event code that the first code property requires, if any.
pub open spec fn first_code_requirement(props: Seq<PropertyView>) -> Option<EventCode>
    decreases props.len(),
{
    if props.len() == 0 {
        None
    } else {
        match props[0] {
            PropertyView::Code(c) => Some(c),
            _ => first_code_requirement(props.drop_first()),
        }
    }
}

/// The domain that the first domain property requires, if any.
pub open spec fn first_domain_requirement(props: Seq<PropertyView>) -> Option<Domain>
    decreases props.len(),
{
    if props.len() == 0 {
        None
    } else {
        match props[0] {
            PropertyView::Domain(d) => Some(d),
            _ => first_domain_requirement(props.drop_first()),
        }
    }
}

/// The properties without those on the current value.
pub open spec fn without_values(props: Seq<PropertyView>) -> Seq<PropertyView>
    decreases props.len(),
{
    if props.len() == 0 {
        props
    } else if props[0] is Value {
        without_values(props.drop_first())
    } else {
        seq![props[0]] + without_values(props.drop_first())
    }
}

/// The range of the last property on the current value, if any.
pub open spec fn last_value(props: Seq<PropertyView>) -> Option<Interval>
    decreases props.len(),
{
    if props.len() == 0 {
        None
    } else {
        match last_value(props.drop_first()) {
            Some(r) => Some(r),
            None => match props[0] {
                PropertyView::Value(r) => Some(r),
                _ => None,
            },
        }
    }
}

/// Whether some event may meet both properties.
pub open spec fn properties_may_intersect(a: PropertyView, b: PropertyView) -> bool {
    match (a, b) {
        (PropertyView::Code(l), PropertyView::Code(r)) => l == r,
        (PropertyView::Domain(l), PropertyView::Domain(r)) => l == r,
        (PropertyView::Namespace(l), PropertyView::Namespace(r)) => l == r,
        (PropertyView::VirtualType(l), PropertyView::VirtualType(r)) => l == r,
        (PropertyView::VirtualType(v), PropertyView::Code(c)) => v == spec_virtual_ev_type(c),
        (PropertyView::Code(c), PropertyView::VirtualType(v)) => v == spec_virtual_ev_type(c),
        (PropertyView::Value(l), PropertyView::Value(r)) => l.spec_intersect(r) is Some,
        (PropertyView::PreviousValue(l), PropertyView::PreviousValue(r)) => l.spec_intersect(r) is Some,
        _ => true,
    }
}

/// Whether two keys may both match some event: their types agree, and every pair of their
/// properties may be met together.
pub open spec fn keys_may_intersect(a: Seq<PropertyView>, b: Seq<PropertyView>) -> bool {
    &&& (first_type_requirement(a) is Some && first_type_requirement(b) is Some
        ==> first_type_requirement(a) == first_type_requirement(b))
    &&& forall|i: int, j: int| 0 <= i < a.len() && 0 <= j < b.len()
        ==> properties_may_intersect(#[trigger] a[i], #[trigger] b[j])
}

proof fn lemma_without_values_members(props: Seq<PropertyView>)
    ensures
        forall|k: int| 0 <= k < without_values(props).len() ==> !((#[trigger] without_values(props)[k]) is Value),
        forall|k: int| 0 <= k < without_values(props).len()
            ==> exists|m: int| 0 <= m < props.len() && props[m] == #[trigger] without_values(props)[k],
    decreases props.len(),
{
    if props.len() > 0 {
        let tail = props.drop_first();
        lemma_without_values_members(tail);
        if !(props[0] is Value) {
            let w = without_values(props);
            assert forall|k: int| 0 <= k < w.len() implies exists|m: int| 0 <= m < props.len() && props[m] == #[trigger] w[k] by {
                if k == 0 {
                    assert(props[0] == w[0]);
                } else {
                    assert(w[k] == without_values(tail)[k - 1]);
                    let m = choose|m: int| 0 <= m < tail.len() && tail[m] == without_values(tail)[k - 1];
                    assert(props[m + 1] == w[k]);
                }
            }
        } else {
            let w = without_values(props);
            assert forall|k: int| 0 <= k < w.len() implies exists|m: int| 0 <= m < props.len() && props[m] == #[trigger] w[k] by {
                let m = choose|m: int| 0 <= m < tail.len() && tail[m] == without_values(tail)[k];
                assert(props[m + 1] == w[k]);
            }
        }
    }
}

proof fn lemma_without_values_unique(props: Seq<PropertyView>)
    requires
        unique_kinds(props),
    ensures
        unique_kinds(without_values(props)),
    decreases props.len(),
{
    if props.len() > 0 {
        let tail = props.drop_first();
        assert(unique_kinds(tail)) by {
            assert forall|i: int, j: int| 0 <= i < j < tail.len() implies kind(#[trigger] tail[i]) != kind(#[trigger] tail[j]) by {
                assert(tail[i] == props[i + 1] && tail[j] == props[j + 1]);
            }
        }
        lemma_without_values_unique(tail);
        lemma_without_values_members(tail);
        if !(props[0] is Value) {
            let w = without_values(props);
            let wt = without_values(tail);
            assert forall|i: int, j: int| 0 <= i < j < w.len() implies kind(#[trigger] w[i]) != kind(#[trigger] w[j]) by {
                if i == 0 {
                    assert(w[j] == wt[j - 1]);
                    let m = choose|m: int| 0 <= m < tail.len() && tail[m] == #[trigger] wt[j - 1];
                    assert(props[m + 1] == w[j]);
                    assert(kind(props[0]) != kind(props[m + 1]));
                } else {
                    assert(w[i] == wt[i - 1] && w[j] == wt[j - 1]);
                }
            }
        }
    }
}

/// A description of events: what they must be like to match, and what matching events become.
#[derive(Clone, Debug)]
pub struct Key {
    /// At most one property of each kind.
    properties: Vec<KeyProperty>,
}

impl View for Key {
    type V = Seq<PropertyView>;

    closed spec fn view(&self) -> Seq<PropertyView> {
        properties_view(self.properties@)
    }
}

impl Key {
    /// At most one copy of each kind of property.
    pub open spec fn well_formed(&self) -> bool {
        unique_kinds(self@)
    }

    fn new() -> (res: Key)
        ensures
            res@ == Seq::<PropertyView>::empty(),
    {
        let res = Key { properties: Vec::new() };
        proof {
            assert(res@ =~= Seq::<PropertyView>::empty());
        }
        res
    }

    /// A copy of a key that makes no relative values.
    pub fn duplicate(&self) -> (res: Key)
        requires
            !has_affine(self@),
        ensures
            res@ == self@,
    {
        let mut res = Key::new();
        let mut i: usize = 0;
        while i < self.properties.len()
            invariant
                i <= self@.len(),
                self@.len() == self.properties@.len(),
                !has_affine(self@),
                res@ == self@.take(i as int),
            decreases self@.len() - i,
        {
            proof {
                assert(self@[i as int] == self.properties@[i as int]@);
                if self@[i as int] is AffineFactor {
                    assert(has_affine(self@));
                }
                assert(self@.take(i + 1) == self@.take(i as int).push(self@[i as int]));
            }
            let p = match &self.properties[i] {
                KeyProperty::Code(c) => KeyProperty::Code(*c),
                KeyProperty::Domain(d) => KeyProperty::Domain(*d),
                KeyProperty::Namespace(n) => KeyProperty::Namespace(*n),
                KeyProperty::Value(r) => KeyProperty::Value(*r),
                KeyProperty::PreviousValue(r) => KeyProperty::PreviousValue(*r),
                KeyProperty::Type(t) => KeyProperty::Type(*t),
                KeyProperty::VirtualType(v) => KeyProperty::VirtualType(*v),
                KeyProperty::AffineFactor(_) => {
                    proof {
                        assert(false);
                    }
                    KeyProperty::Code(crate::event::EventCode::new(crate::event::EventType::new(0), 0))
                },
            };
            res.add_property(p);
            i += 1;
        }
        proof {
            assert(self@.take(self@.len() as int) == self@);
        }
        res
    }

    /// Generates a key with no properties, which matches every event and changes none. Meant for
    /// generating identical copies of events, such as for `--copy`.
    pub fn copy() -> (res: Key)
        ensures
            res@ == Seq::<PropertyView>::empty(),
            res.well_formed(),
    {
        Key::new()
    }

    fn add_property(&mut self, property: KeyProperty)
        ensures
            final(self)@ == old(self)@.push(property@),
    {
        self.properties.push(property);
        proof {
            assert(self@ =~= old(self)@.push(property@));
        }
    }

    /// Returns a key that matches all events with a certain domain and namespace.
    pub fn from_domain_and_namespace(domain: Domain, namespace: Namespace) -> (res: Key)
        ensures
            res@ == seq![PropertyView::Namespace(namespace), PropertyView::Domain(domain)],
            res.well_formed(),
    {
        let mut result = Key::new();
        result.add_property(KeyProperty::Namespace(namespace));
        result.add_property(KeyProperty::Domain(domain));
        proof {
            assert(result@ =~= seq![PropertyView::Namespace(namespace), PropertyView::Domain(domain)]);
        }
        result
    }
}

impl KeyProperty {
    /// Checks whether an event matches this property. A relative value matches no event.
    pub fn matches(&self, event: &Event) -> (res: bool)
        ensures
            res == property_matches(self@, *event),
    {
        match self {
            KeyProperty::Code(value) => event.code == *value,
            KeyProperty::Domain(value) => event.domain == *value,
            KeyProperty::Type(value) => event.code.ev_type == *value,
            KeyProperty::VirtualType(value) => crate::ecodes::virtual_ev_type(event.code) == *value,
            KeyProperty::Namespace(value) => event.namespace == *value,
            KeyProperty::Value(range) => range.contains(event.value),
            KeyProperty::PreviousValue(range) => range.contains(event.previous_value),
            KeyProperty::AffineFactor(_) => false,
        }
    }

    /// Checks whether this property might match any event with a given channel.
    pub fn matches_channel(&self, channel: (EventCode, Domain)) -> (res: bool)
        ensures
            res == property_matches_channel(self@, channel.0, channel.1),
    {
        let (code, domain) = channel;
        match self {
            KeyProperty::Code(value) => code == *value,
            KeyProperty::Domain(value) => domain == *value,
            KeyProperty::Type(value) => *value == code.ev_type,
            KeyProperty::VirtualType(value) => crate::ecodes::virtual_ev_type(code) == *value,
            KeyProperty::Namespace(_)
            | KeyProperty::Value(_)
            | KeyProperty::PreviousValue(_)
            | KeyProperty::AffineFactor(_) => true,
        }
    }

    /// Given an event, returns the closest event that matches this property. A property on the
    /// type of events cannot change an event's type and leaves it as it is.
    pub fn merge(&self, event: Event) -> (res: Event)
        requires
            !(self@ is AffineFactor),
        ensures
            res == property_merge(self@, event),
    {
        let mut event = event;
        match self {
            KeyProperty::Code(value) => event.code = *value,
            KeyProperty::Domain(value) => event.domain = *value,
            KeyProperty::Namespace(value) => event.namespace = *value,
            KeyProperty::Value(range) => event.value = range.bound(event.value),
            KeyProperty::PreviousValue(range) => event.previous_value = range.bound(event.previous_value),
            KeyProperty::AffineFactor(_) => {},
            KeyProperty::Type(_) | KeyProperty::VirtualType(_) => {},
        }
        event
    }
}

impl Key {
    pub fn matches(&self, event: &Event) -> (res: bool)
        ensures
            res == key_matches(self@, *event),
    {
        let mut i: usize = 0;
        while i < self.properties.len()
            invariant
                i <= self@.len(),
                self@.len() == self.properties@.len(),
                forall|k: int| 0 <= k < i ==> property_matches(#[trigger] self@[k], *event),
            decreases self@.len() - i,
        {
            proof {
                assert(self@[i as int] == self.properties@[i as int]@);
            }
            if !self.properties[i].matches(event) {
                return false;
            }
            i += 1;
        }
        true
    }

    /// Returns true if this Key might match any Event with a given channel.
    pub fn matches_channel(&self, channel: (EventCode, Domain)) -> (res: bool)
        ensures
            res == key_matches_channel(self@, channel.0, channel.1),
    {
        let mut i: usize = 0;
        while i < self.properties.len()
            invariant
                i <= self@.len(),
                self@.len() == self.properties@.len(),
                forall|k: int| 0 <= k < i ==> property_matches_channel(#[trigger] self@[k], channel.0, channel.1),
            decreases self@.len() - i,
        {
            proof {
                assert(self@[i as int] == self.properties@[i as int]@);
            }
            if !self.properties[i].matches_channel(channel) {
                return false;
            }
            i += 1;
        }
        true
    }

    /// Applies every property to the event in turn. Keys with relative values are applied
    /// elsewhere, because those need floating-point arithmetic.
    pub fn merge(&self, event: Event) -> (res: Event)
        requires
            !has_affine(self@),
        ensures
            res == key_merge(self@, event),
    {
        let mut event = event;
        let ghost start = event;
        let mut i: usize = 0;
        while i < self.properties.len()
            invariant
                i <= self@.len(),
                self@.len() == self.properties@.len(),
                !has_affine(self@),
                event == key_merge(self@.take(i as int), start),
            decreases self@.len() - i,
        {
            proof {
                assert(self@[i as int] == self.properties@[i as int]@);
                if self@[i as int] is AffineFactor {
                    assert(has_affine(self@));
                }
                assert(self@.take(i + 1).drop_last() == self@.take(i as int));
            }
            event = self.properties[i].merge(event);
            i += 1;
        }
        proof {
            assert(self@.take(self@.len() as int) == self@);
        }
        event
    }

    /// Returns Some(EventType) if this Key will only ever accept events of a certain type.
    /// If it may accept different types of events, returns None.
    pub fn requires_event_type(&self) -> (res: Option<EventType>)
        ensures
            res == first_type_requirement(self@),
    {
        let mut i: usize = 0;
        proof {
            assert(self@.skip(0) == self@);
        }
        while i < self.properties.len()
            invariant
                i <= self@.len(),
                self@.len() == self.properties@.len(),
                first_type_requirement(self@) == first_type_requirement(self@.skip(i as int)),
            decreases self@.len() - i,
        {
            proof {
                assert(self@[i as int] == self.properties@[i as int]@);
                assert(self@.skip(i as int)[0] == self@[i as int]);
                assert(self@.skip(i as int).drop_first() == self@.skip(i + 1));
            }
            match &self.properties[i] {
                KeyProperty::Code(code) => return Some(code.ev_type()),
                KeyProperty::Type(ev_type) => return Some(*ev_type),
                KeyProperty::VirtualType(v_type) => return Some(v_type.ev_type()),
                _ => {},
            }
            i += 1;
        }
        None
    }

    /// Returns Some(EventCode) if this Key will only ever accept events of a certain code.
    /// If it may accept events of different codes, returns None.
    pub fn requires_event_code(&self) -> (res: Option<EventCode>)
        ensures
            res == first_code_requirement(self@),
    {
        let mut i: usize = 0;
        proof {
            assert(self@.skip(0) == self@);
        }
        while i < self.properties.len()
            invariant
                i <= self@.len(),
                self@.len() == self.properties@.len(),
                first_code_requirement(self@) == first_code_requirement(self@.skip(i as int)),
            decreases self@.len() - i,
        {
            proof {
                assert(self@[i as int] == self.properties@[i as int]@);
                assert(self@.skip(i as int)[0] == self@[i as int]);
                assert(self@.skip(i as int).drop_first() == self@.skip(i + 1));
            }
            match &self.properties[i] {
                KeyProperty::Code(code) => return Some(*code),
                _ => {},
            }
            i += 1;
        }
        None
    }

    /// Returns Some(Domain) if this Key will only ever accept events of a certain domain.
    pub fn requires_domain(&self) -> (res: Option<Domain>)
        ensures
            res == first_domain_requirement(self@),
    {
        let mut i: usize = 0;
        proof {
            assert(self@.skip(0) == self@);
        }
        while i < self.properties.len()
            invariant
                i <= self@.len(),
                self@.len() == self.properties@.len(),
                first_domain_requirement(self@) == first_domain_requirement(self@.skip(i as int)),
            decreases self@.len() - i,
        {
            proof {
                assert(self@[i as int] == self.properties@[i as int]@);
                assert(self@.skip(i as int)[0] == self@[i as int]);
                assert(self@.skip(i as int).drop_first() == self@.skip(i + 1));
            }
            match &self.properties[i] {
                KeyProperty::Domain(domain) => return Some(*domain),
                _ => {},
            }
            i += 1;
        }
        None
    }

    /// Takes the properties on the current value out of the list, returning the range of the
    /// last of them.
    fn take_values(properties: Vec<KeyProperty>) -> (res: (Vec<KeyProperty>, Option<Interval>))
        ensures
            properties_view(res.0@) == without_values(properties_view(properties@)),
            res.1 == last_value(properties_view(properties@)),
    {
        let ghost original = properties_view(properties@);
        let mut rest = properties;
        let mut kept: Vec<KeyProperty> = Vec::new();
        let mut result: Option<Interval> = None;
        while rest.len() > 0
            invariant
                properties_view(kept@) + without_values(properties_view(rest@)) == without_values(original),
                last_value(original) == match last_value(properties_view(rest@)) {
                    Some(r) => Some(r),
                    None => result,
                },
            decreases rest@.len(),
        {
            let ghost before = properties_view(rest@);
            let property = rest.remove(0);
            proof {
                assert(before[0] == property@);
                assert(before.drop_first() == properties_view(rest@));
            }
            match property {
                KeyProperty::Value(range) => {
                    result = Some(range);
                },
                other => {
                    let ghost kept_before = properties_view(kept@);
                    kept.push(other);
                    proof {
                        assert(properties_view(kept@) == kept_before.push(other@));
                        assert(kept_before.push(other@) + without_values(properties_view(rest@))
                            == kept_before + (seq![other@] + without_values(properties_view(rest@))));
                    }
                },
            }
        }
        proof {
            assert(properties_view(rest@) == Seq::<PropertyView>::empty());
            assert(properties_view(kept@) + Seq::<PropertyView>::empty() == properties_view(kept@));
        }
        (kept, result)
    }

    /// If this key has a `Value` property, returns the range of said property and removes
    /// it from its own properties. This decouples the key being matched upon from the value
    /// being matched upon.
    pub fn pop_value(&mut self) -> (res: Option<Interval>)
        ensures
            final(self)@ == without_values(old(self)@),
            res == last_value(old(self)@),
            old(self).well_formed() ==> final(self).well_formed(),
    {
        let mut properties = Vec::new();
        std::mem::swap(&mut properties, &mut self.properties);
        let (kept, result) = Key::take_values(properties);
        self.properties = kept;
        proof {
            if old(self).well_formed() {
                lemma_without_values_unique(old(self)@);
            }
        }
        result
    }

    /// Makes this key require a certain particular value.
    pub fn set_value(&mut self, value: Interval)
        ensures
            final(self)@ == without_values(old(self)@).push(PropertyView::Value(value)),
            old(self).well_formed() ==> final(self).well_formed(),
    {
        self.pop_value();
        let ghost popped = self@;
        self.add_property(KeyProperty::Value(value));
        proof {
            lemma_without_values_members(old(self)@);
            if old(self).well_formed() {
                assert forall|i: int, j: int| 0 <= i < j < self@.len() implies kind(#[trigger] self@[i]) != kind(#[trigger] self@[j]) by {
                    if j == self@.len() - 1 {
                        assert(self@[i] == popped[i]);
                        assert(!(popped[i] is Value));
                    } else {
                        assert(self@[i] == popped[i] && self@[j] == popped[j]);
                    }
                }
            }
        }
    }

    /// Removes the value requirement from this key and returns it separately if it existed.
    pub fn split_value(self) -> (res: (Key, Option<Interval>))
        ensures
            res.0@ == without_values(self@),
            res.1 == last_value(self@),
            self.well_formed() ==> res.0.well_formed(),
    {
        let (kept, result) = Key::take_values(self.properties);
        proof {
            if self.well_formed() {
                lemma_without_values_unique(self@);
            }
        }
        (Key { properties: kept }, result)
    }

    /// Returns true if some event may match both this key and the other.
    pub fn intersects_with(&self, other: &Key) -> (res: bool)
        ensures
            res == keys_may_intersect(self@, other@),
    {
        // Tests the interaction between (Type, VirtualType) and (Type, Code).
        let type_1 = self.requires_event_type();
        let type_2 = other.requires_event_type();
        if let Some(ev_type_1) = type_1 {
            if let Some(ev_type_2) = type_2 {
                if ev_type_1.value != ev_type_2.value {
                    return false;
                }
            }
        }
        let mut i: usize = 0;
        while i < self.properties.len()
            invariant
                i <= self@.len(),
                self@.len() == self.properties@.len(),
                other@.len() == other.properties@.len(),
                first_type_requirement(self@) is Some && first_type_requirement(other@) is Some
                    ==> first_type_requirement(self@) == first_type_requirement(other@),
                forall|a: int, b: int| 0 <= a < i && 0 <= b < other@.len()
                    ==> properties_may_intersect(#[trigger] self@[a], #[trigger] other@[b]),
            decreases self@.len() - i,
        {
            let mut j: usize = 0;
            while j < other.properties.len()
                invariant
                    i < self@.len(),
                    j <= other@.len(),
                    self@.len() == self.properties@.len(),
                    other@.len() == other.properties@.len(),
                    forall|a: int, b: int| 0 <= a < i && 0 <= b < other@.len()
                        ==> properties_may_intersect(#[trigger] self@[a], #[trigger] other@[b]),
                    forall|b: int| 0 <= b < j ==> properties_may_intersect(self@[i as int], #[trigger] other@[b]),
                decreases other@.len() - j,
            {
                proof {
                    assert(self@[i as int] == self.properties@[i as int]@);
                    assert(other@[j as int] == other.properties@[j as int]@);
                }
                if !properties_intersect(&self.properties[i], &other.properties[j]) {
                    return false;
                }
                j += 1;
            }
            i += 1;
        }
        true
    }
}

fn properties_intersect(a: &KeyProperty, b: &KeyProperty) -> (res: bool)
    ensures
        res == properties_may_intersect(a@, b@),
{
    match (a, b) {
        (KeyProperty::Code(left), KeyProperty::Code(right)) => left == right,
        (KeyProperty::Domain(left), KeyProperty::Domain(right)) => left == right,
        (KeyProperty::Namespace(left), KeyProperty::Namespace(right)) => left == right,
        (KeyProperty::VirtualType(left), KeyProperty::VirtualType(right)) => left == right,
        (KeyProperty::VirtualType(v_type), KeyProperty::Code(code)) => *v_type == crate::ecodes::virtual_ev_type(*code),
        (KeyProperty::Code(code), KeyProperty::VirtualType(v_type)) => *v_type == crate::ecodes::virtual_ev_type(*code),
        (KeyProperty::Value(left), KeyProperty::Value(right)) => left.intersects_with(right),
        (KeyProperty::PreviousValue(left), KeyProperty::PreviousValue(right)) => left.intersects_with(right),
        _ => true,
    }
}

/// The options for how a key can be parsed in different contexts.
pub struct KeyParser<'a> {
    pub default_value: &'a str,
    /// Whether event values like the :1 in "key:a:1" are allowed.
    pub allow_values: bool,
    pub allow_transitions: bool,
    pub allow_ranges: bool,
    /// Whether keys with only a type like "key", "btn", "abs", and such without an event code,
    /// are allowed. Only ever set this to true for filter keys.
    pub allow_types: bool,
    /// Whether keys with an event value that depends on which event is getting masked, are
    /// allowed. Only ever set this to true for mask keys.
    pub allow_relative_values: bool,
    /// If Some, then it only allows keys that require one of these types or have no type/code
    /// requirements.
    pub type_whitelist: Option<Vec<EventType>>,
    pub namespace: Namespace,
}

/// The options of a key parser, as plain values.
pub struct ParserView {
    pub default_value: Seq<char>,
    pub allow_values: bool,
    pub allow_transitions: bool,
    pub allow_ranges: bool,
    pub allow_types: bool,
    pub allow_relative_values: bool,
    pub type_whitelist: Option<Seq<EventType>>,
    pub namespace: Namespace,
}

impl<'a> View for KeyParser<'a> {
    type V = ParserView;

    open spec fn view(&self) -> ParserView {
        ParserView {
            default_value: self.default_value@,
            allow_values: self.allow_values,
            allow_transitions: self.allow_transitions,
            allow_ranges: self.allow_ranges,
            allow_types: self.allow_types,
            allow_relative_values: self.allow_relative_values,
            type_whitelist: match self.type_whitelist {
                Some(list) => Some(list@),
                None => None,
            },
            namespace: self.namespace,
        }
    }
}

/// The parts of a key like "key:a:1@foo": the type "key", the code "a", the value "1" and the
/// domain "foo". Type, code and value are never empty; those that are empty are left out.
pub struct KeyPartsView {
    pub body: Seq<char>,
    pub ev_type: Option<Seq<char>>,
    pub code: Option<Seq<char>>,
    pub value: Option<Seq<char>>,
    pub domain: Option<Seq<char>>,
}

pub open spec fn none_if_empty(s: Seq<char>) -> Option<Seq<char>> {
    if s.len() == 0 {
        None
    } else {
        Some(s)
    }
}

/// Splits a key into its parts. Fails if the part before the domain ends on a colon, or has more
/// than three parts separated by colons.
pub open spec fn spec_key_parts(key: Seq<char>) -> Option<KeyPartsView> {
    let (body, domain) = spec_split_once(key, seq!['@']);
    let (first, after_first) = spec_split_once(body, seq![':']);
    if body.len() > 0 && body.last() == ':' {
        None
    } else {
        match after_first {
            None => Some(KeyPartsView { body, ev_type: none_if_empty(first), code: None, value: None, domain }),
            Some(rest) => {
                let (second, after_second) = spec_split_once(rest, seq![':']);
                match after_second {
                    None => Some(KeyPartsView {
                        body,
                        ev_type: none_if_empty(first),
                        code: none_if_empty(second),
                        value: None,
                        domain,
                    }),
                    Some(rest2) => {
                        let (third, after_third) = spec_split_once(rest2, seq![':']);
                        match after_third {
                            None => Some(KeyPartsView {
                                body,
                                ev_type: none_if_empty(first),
                                code: none_if_empty(second),
                                value: none_if_empty(third),
                                domain,
                            }),
                            Some(_) => None,
                        }
                    },
                }
            },
        }
    }
}

pub open spec fn whitelist_allows(whitelist: Option<Seq<EventType>>, t: EventType) -> bool {
    match whitelist {
        None => true,
        Some(list) => list.contains(t),
    }
}

/// The property of a key that names a type but no code: "key" and "btn" stand for the keys and
/// the buttons among the EV_KEY events.
pub open spec fn type_only_property(name: Seq<char>, t: EventType) -> PropertyView {
    if name == "key"@ {
        PropertyView::VirtualType(VirtualEventType::Key)
    } else if name == "btn"@ {
        PropertyView::VirtualType(VirtualEventType::Button)
    } else {
        PropertyView::Type(t)
    }
}

/// The properties that the namespace, type and code of a key give.
pub open spec fn spec_type_properties(p: ParserView, parts: KeyPartsView) -> Option<Seq<PropertyView>> {
    let start = seq![PropertyView::Namespace(p.namespace)];
    match parts.ev_type {
        None => if parts.code is Some {
            None
        } else {
            Some(start)
        },
        Some(name) => match spec_event_type(name) {
            None => None,
            Some(t) => if t == EV_SYN || !whitelist_allows(p.type_whitelist, EventType { value: t }) {
                None
            } else {
                match parts.code {
                    None => if p.allow_types {
                        Some(start.push(type_only_property(name, EventType { value: t })))
                    } else {
                        None
                    },
                    Some(code_name) => match spec_event_code(name, code_name) {
                        Some(c) => Some(start.push(PropertyView::Code(c))),
                        None => None,
                    },
                }
            },
        },
    }
}

/// None for "", the number for an integer that fits an i32, and a failure otherwise.
pub open spec fn spec_int_or_wildcard(s: Seq<char>) -> Option<Option<i32>> {
    if s.len() == 0 {
        Some(None)
    } else {
        match spec_parse_int(s) {
            Some(v) => if i32::MIN <= v <= i32::MAX {
                Some(Some(v as i32))
            } else {
                None
            },
            None => None,
        }
    }
}

/// Interprets a value like "1", "0~1", "5~" or "~".
pub open spec fn spec_event_value(p: ParserView, s: Seq<char>) -> Option<Interval> {
    if !p.allow_ranges && s.contains('~') {
        None
    } else {
        let (min_str, max_opt) = spec_split_once(s, seq!['~']);
        let max_str = match max_opt {
            Some(m) => m,
            None => min_str,
        };
        match (spec_int_or_wildcard(min_str), spec_int_or_wildcard(max_str)) {
            (Some(min), Some(max)) => if min is Some && max is Some && min.unwrap() > max.unwrap() {
                None
            } else {
                Some(Interval { min: lower_or_min(min), max: upper_or_max(max) })
            },
            _ => None,
        }
    }
}

/// What a value is when read as a relative value.
pub enum RelativeView {
    Affine(Seq<ComponentView>),
    Constant(i32),
    Unparsable,
}

pub open spec fn spec_relative_value(s: Seq<char>) -> RelativeView {
    match spec_lex_to_components(s) {
        None => RelativeView::Unparsable,
        Some(components) => match spec_as_constant(components) {
            Some(c) => RelativeView::Constant(c),
            None => RelativeView::Affine(components),
        },
    }
}

/// The properties that a value like "1", "0..1" or "1~2" gives: one on the current value, and
/// one on the previous value for a transition.
pub open spec fn spec_value_range(p: ParserView, s: Seq<char>, props: Seq<PropertyView>) -> Option<Seq<PropertyView>> {
    let (first, second) = spec_split_once(s, ".."@);
    let (previous, current) = match second {
        Some(c) => (Some(first), c),
        None => (None, first),
    };
    match spec_event_value(p, current) {
        None => None,
        Some(r) => match previous {
            None => Some(props.push(PropertyView::Value(r))),
            Some(previous) => if !p.allow_transitions {
                None
            } else {
                match spec_event_value(p, previous) {
                    Some(r2) => Some(props.push(PropertyView::Value(r)).push(PropertyView::PreviousValue(r2))),
                    None => None,
                }
            },
        },
    }
}

/// A value "p..c" describes a transition: the key requires the current value to lie in the
/// interval that `c` describes and the previous value to lie in the interval that `p` describes.
/// A value without dots only constrains the current value. Transitions need a parser that
/// allows them.
pub proof fn lemma_transition_value(p: ParserView, previous: Seq<char>, current: Seq<char>, props: Seq<PropertyView>)
    requires
        !previous.contains('.'),
    ensures
        spec_value_range(p, previous + seq!['.', '.'] + current, props) == (if !p.allow_transitions {
            None
        } else {
            match (spec_event_value(p, current), spec_event_value(p, previous)) {
                (Some(now), Some(before)) => Some(
                    props.push(PropertyView::Value(now)).push(PropertyView::PreviousValue(before)),
                ),
                _ => None,
            }
        }),
        spec_value_range(p, previous, props) == match spec_event_value(p, previous) {
            Some(now) => Some(props.push(PropertyView::Value(now))),
            None => None,
        },
{
    reveal_strlit("..");
    let dots = seq!['.', '.'];
    assert(".."@ == dots);
    crate::text::lemma_split_once_joined(previous, dots, current);
    crate::text::lemma_split_once_absent(previous, dots);
}

/// The properties that a value gives, relative values first.
pub open spec fn spec_value_properties(p: ParserView, s: Seq<char>, props: Seq<PropertyView>) -> Option<Seq<PropertyView>> {
    match spec_relative_value(s) {
        RelativeView::Affine(components) => if p.allow_relative_values {
            Some(props.push(PropertyView::AffineFactor(components)))
        } else {
            None
        },
        RelativeView::Constant(c) => if p.allow_relative_values {
            Some(props.push(PropertyView::Value(Interval { min: c, max: c })))
        } else {
            spec_value_range(p, s, props)
        },
        RelativeView::Unparsable => spec_value_range(p, s, props),
    }
}

/// The properties of a key without its domain, or None if the parser does not accept it.
pub open spec fn spec_interpret_parts(p: ParserView, parts: KeyPartsView) -> Option<Seq<PropertyView>> {
    match spec_type_properties(p, parts) {
        None => None,
        Some(props) => match parts.value {
            Some(v) => if p.allow_values {
                spec_value_properties(p, v, props)
            } else {
                None
            },
            None => if p.default_value.len() == 0 {
                Some(props)
            } else {
                spec_value_properties(p, p.default_value, props)
            },
        },
    }
}

/// The properties of a key without its domain, or None if the parser does not accept it.
pub open spec fn spec_key_body(p: ParserView, key: Seq<char>) -> Option<Seq<PropertyView>> {
    match spec_key_parts(key) {
        Some(parts) => spec_interpret_parts(p, parts),
        None => None,
    }
}

/// The domain name of a key, if it has one.
pub open spec fn spec_key_domain(key: Seq<char>) -> Option<Seq<char>> {
    spec_split_once(key, seq!['@']).1
}

/// Whether a parser accepts a key.
pub open spec fn spec_parses(p: ParserView, key: Seq<char>) -> bool {
    &&& spec_key_body(p, key) is Some
    &&& (spec_key_domain(key) is Some ==> is_valid_domain_name(spec_key_domain(key).unwrap()))
}

/// The properties of a parsed key, given the domains that the names stand for.
pub open spec fn spec_parsed_key(p: ParserView, key: Seq<char>, domains: DomainTracker) -> Seq<PropertyView> {
    match spec_key_domain(key) {
        None => spec_key_body(p, key).unwrap(),
        Some(name) => spec_key_body(p, key).unwrap().push(PropertyView::Domain(domains.lookup(name).unwrap())),
    }
}

/// How parsing a key changes the domains: the domain name of the key, if any, is resolved.
pub open spec fn spec_parse_resolves(key: Seq<char>, before: DomainTracker, after: DomainTracker) -> bool {
    match spec_key_domain(key) {
        None => after == before,
        Some(name) => after.lookup(name) is Some && resolves_to(before, after, name, after.lookup(name).unwrap()),
    }
}

struct KeyParts {
    body: Vec<char>,
    ev_type: Option<Vec<char>>,
    code: Option<Vec<char>>,
    value: Option<Vec<char>>,
    domain: Option<Vec<char>>,
}

pub open spec fn opt_chars_view(o: Option<Vec<char>>) -> Option<Seq<char>> {
    match o {
        Some(v) => Some(v@),
        None => None,
    }
}

impl KeyParts {
    spec fn view(&self) -> KeyPartsView {
        KeyPartsView {
            body: self.body@,
            ev_type: opt_chars_view(self.ev_type),
            code: opt_chars_view(self.code),
            value: opt_chars_view(self.value),
            domain: opt_chars_view(self.domain),
        }
    }
}

fn none_if_empty_exec(s: Vec<char>) -> (res: Option<Vec<char>>)
    ensures
        opt_chars_view(res) == none_if_empty(s@),
{
    if s.len() == 0 {
        None
    } else {
        Some(s)
    }
}

fn key_str_to_parts(key: &[char]) -> (res: Result<KeyParts, ArgumentError>)
    ensures
        match res {
            Ok(parts) => spec_key_parts(key@) == Some(parts.view()),
            Err(_) => spec_key_parts(key@) is None,
        },
{
    let at = vec!['@'];
    let colon = vec![':'];
    proof {
        assert(at@ =~= seq!['@']);
        assert(colon@ =~= seq![':']);
    }
    let (body, domain) = split_once(key, at.as_slice());
    if body.len() > 0 && body[body.len() - 1] == ':' {
        proof {
            assert(body@.last() == ':');
        }
        let body_str = string_from_chars(body.as_slice());
        return Err(ArgumentError::new(join_strs(&[
            "A key must not end on a colon (\":\"). The key \"", body_str.as_str(), "\" does.",
        ])));
    }
    let (first, after_first) = split_once(body.as_slice(), colon.as_slice());
    let ev_type = none_if_empty_exec(first);
    match after_first {
        None => Ok(KeyParts { body, ev_type, code: None, value: None, domain }),
        Some(rest) => {
            let (second, after_second) = split_once(rest.as_slice(), colon.as_slice());
            let code = none_if_empty_exec(second);
            match after_second {
                None => Ok(KeyParts { body, ev_type, code, value: None, domain }),
                Some(rest2) => {
                    let (third, after_third) = split_once(rest2.as_slice(), colon.as_slice());
                    let value = none_if_empty_exec(third);
                    match after_third {
                        None => Ok(KeyParts { body, ev_type, code, value, domain }),
                        Some(superfluous) => {
                            let body_str = string_from_chars(body.as_slice());
                            let superfluous_str = string_from_chars(superfluous.as_slice());
                            Err(ArgumentError::new(join_strs(&[
                                "Too many colons encountered in the key \"", body_str.as_str(),
                                "\". There is no way to interpret the \":", superfluous_str.as_str(), "\" part.",
                            ])))
                        },
                    }
                },
            }
        },
    }
}

fn whitelist_contains(list: &Vec<EventType>, t: EventType) -> (res: bool)
    ensures
        res == list@.contains(t),
{
    let mut i: usize = 0;
    while i < list.len()
        invariant
            i <= list@.len(),
            forall|k: int| 0 <= k < i ==> list@[k] != t,
        decreases list@.len() - i,
    {
        if list[i].value == t.value {
            proof {
                assert(list@[i as int] == t);
            }
            return true;
        }
        i += 1;
    }
    false
}

/// The names of the types, separated by commas.
pub open spec fn type_names_joined(list: Seq<EventType>) -> Seq<char>
    decreases list.len(),
{
    if list.len() == 0 {
        Seq::empty()
    } else if list.len() == 1 {
        crate::ecodes::spec_event_type_name(list[0])
    } else {
        type_names_joined(list.drop_last()) + ", "@ + crate::ecodes::spec_event_type_name(list.last())
    }
}

/// The message for a type outside the whitelist, which names the types that are allowed.
pub open spec fn whitelist_message(list: Seq<EventType>) -> Seq<char> {
    if list.len() == 1 && list[0].value == crate::event::EV_KEY {
        "Only events of type EV_KEY (i.e. \"key:something\" or \"btn:something\") can be specified in this position."@
    } else if list.len() == 0 {
        "No specific event type can can be specified in this position."@
    } else {
        "Only events of type"@ + (if list.len() == 1 { ""@ } else { "s"@ }) + " "@ + type_names_joined(list)
            + " (i.e. \""@ + crate::ecodes::spec_event_type_name(list[0]) + ":something\") can be specified in this position."@
    }
}

/// The error for a type outside the whitelist, naming the types that are allowed.
fn whitelist_error(list: &Vec<EventType>) -> (res: ArgumentError)
    ensures
        res.message_spec() == whitelist_message(list@),
{
    if list.len() == 1 && list[0].value == crate::event::EV_KEY {
        let message = join_strs(&[
            "Only events of type EV_KEY (i.e. \"key:something\" or \"btn:something\") can be specified in this position.",
        ]);
        proof {
            reveal_with_fuel(crate::text::flatten_strs, 2);
        }
        return ArgumentError::new(message);
    }
    if list.len() == 0 {
        let message = join_strs(&["No specific event type can can be specified in this position."]);
        proof {
            reveal_with_fuel(crate::text::flatten_strs, 2);
        }
        return ArgumentError::new(message);
    }
    let mut allowed: Vec<char> = Vec::new();
    let mut i: usize = 0;
    proof {
        assert(list@.take(0).len() == 0);
    }
    while i < list.len()
        invariant
            i <= list@.len(),
            allowed@ == type_names_joined(list@.take(i as int)),
        decreases list@.len() - i,
    {
        proof {
            assert(list@.take(i + 1).drop_last() == list@.take(i as int));
            assert(list@.take(i + 1).last() == list@[i as int]);
        }
        if i > 0 {
            allowed = crate::text::concat_chars(allowed.as_slice(), chars_of(", ").as_slice());
        }
        let name = crate::ecodes::event_type_name(list[i]);
        allowed = crate::text::concat_chars(allowed.as_slice(), chars_of(name.as_str()).as_slice());
        proof {
            if i == 0 {
                assert(list@.take(1) =~= seq![list@[0]]);
            }
        }
        i += 1;
    }
    proof {
        assert(list@.take(list@.len() as int) == list@);
    }
    let allowed_str = string_from_chars(allowed.as_slice());
    let example = crate::ecodes::event_type_name(list[0]);
    let plural = if list.len() == 1 { "" } else { "s" };
    let message = join_strs(&[
        "Only events of type", plural, " ", allowed_str.as_str(), " (i.e. \"", example.as_str(),
        ":something\") can be specified in this position.",
    ]);
    proof {
        reveal_with_fuel(crate::text::flatten_strs, 8);
    }
    ArgumentError::new(message)
}

fn type_properties(parts: &KeyParts, parser: &KeyParser) -> (res: Result<Vec<KeyProperty>, ArgumentError>)
    ensures
        match res {
            Ok(props) => spec_type_properties(parser@, parts.view()) == Some(properties_view(props@)),
            Err(_) => spec_type_properties(parser@, parts.view()) is None,
        },
{
    let mut props: Vec<KeyProperty> = Vec::new();
    props.push(KeyProperty::Namespace(parser.namespace));
    proof {
        assert(properties_view(props@) =~= seq![PropertyView::Namespace(parser.namespace)]);
    }
    match &parts.ev_type {
        None => {
            if parts.code.is_some() {
                return Err(ArgumentError::new(join_strs(&[
                    "Cannot specify event code or value without specifying event type.",
                ])));
            }
            Ok(props)
        },
        Some(ev_type_chars) => {
            let ev_type_str = string_from_chars(ev_type_chars.as_slice());
            let event_type = crate::ecodes::event_type(ev_type_str.as_str())?;
            if event_type.is_syn() {
                return Err(ArgumentError::new(join_strs(&[
                    "Cannot use event type \"syn\": it is impossible to manipulate synchronisation events because synchronisation is automatically taken care of by evsieve.",
                ])));
            }
            if let Some(whitelist) = &parser.type_whitelist {
                if !whitelist_contains(whitelist, event_type) {
                    return Err(whitelist_error(whitelist));
                }
            }
            match &parts.code {
                None => {
                    if !parser.allow_types {
                        let body = string_from_chars(parts.body.as_slice());
                        return Err(ArgumentError::new(join_strs(&[
                            "No event code provided for the key \"", body.as_str(), "\".",
                        ])));
                    }
                    let key_name = chars_of("key");
                    let btn_name = chars_of("btn");
                    let property = if chars_eq(ev_type_chars.as_slice(), key_name.as_slice()) {
                        KeyProperty::VirtualType(VirtualEventType::Key)
                    } else if chars_eq(ev_type_chars.as_slice(), btn_name.as_slice()) {
                        KeyProperty::VirtualType(VirtualEventType::Button)
                    } else {
                        KeyProperty::Type(event_type)
                    };
                    let ghost before = properties_view(props@);
                    props.push(property);
                    proof {
                        assert(properties_view(props@) =~= before.push(property@));
                    }
                    Ok(props)
                },
                Some(code_name_chars) => {
                    let code_name = string_from_chars(code_name_chars.as_slice());
                    let event_code = crate::ecodes::event_code(ev_type_str.as_str(), code_name.as_str())?;
                    let ghost before = properties_view(props@);
                    props.push(KeyProperty::Code(event_code));
                    proof {
                        assert(properties_view(props@) =~= before.push(PropertyView::Code(event_code)));
                    }
                    Ok(props)
                },
            }
        },
    }
}

/// Returns None for "", an integer for integer strings, and otherwise gives an error.
fn parse_int_or_wildcard(s: &[char]) -> (res: Result<Option<i32>, ArgumentError>)
    ensures
        match res {
            Ok(v) => spec_int_or_wildcard(s@) == Some(v),
            Err(_) => spec_int_or_wildcard(s@) is None,
        },
{
    if s.len() == 0 {
        return Ok(None);
    }
    match parse_i32(s) {
        Some(v) => Ok(Some(v)),
        None => {
            let text = string_from_chars(s);
            Err(ArgumentError::new(join_strs(&["Cannot interpret ", text.as_str(), " as an integer."])))
        },
    }
}

/// Interprets a string like "1" or "0~1" or "5~" or "". Does not handle relative values.
fn interpret_event_value(s: &[char], parser: &KeyParser) -> (res: Result<Interval, ArgumentError>)
    ensures
        match res {
            Ok(r) => spec_event_value(parser@, s@) == Some(r),
            Err(_) => spec_event_value(parser@, s@) is None,
        },
{
    if !parser.allow_ranges && contains_char(s, '~') {
        let text = string_from_chars(s);
        return Err(ArgumentError::new(join_strs(&["No ranges are allowed in the value \"", text.as_str(), "\"."])));
    }
    let tilde = vec!['~'];
    proof {
        assert(tilde@ =~= seq!['~']);
    }
    let (min_str, max_opt) = split_once(s, tilde.as_slice());
    let min = parse_int_or_wildcard(min_str.as_slice())?;
    let max = match max_opt {
        Some(max_str) => parse_int_or_wildcard(max_str.as_slice())?,
        None => min,
    };
    if let Some(min_value) = min {
        if let Some(max_value) = max {
            if min_value > max_value {
                let min_text = string_from_chars(crate::text::signed_decimal_chars(min_value as i64).as_slice());
                let max_text = string_from_chars(crate::text::signed_decimal_chars(max_value as i64).as_slice());
                return Err(ArgumentError::new(join_strs(&[
                    "The upper bound of a value range may not be smaller than its lower bound. Did you intend to use the range ",
                    max_text.as_str(), "~", min_text.as_str(), " instead?",
                ])));
            }
        }
    }
    Ok(Interval::new(min, max))
}

enum RelativeValue {
    Affine(AffineFactor),
    Constant(i32),
    Unparsable,
}

/// Reads a value like "0.1d" or "-x" as a relative value.
fn interpret_relative_value(s: &[char]) -> (res: RelativeValue)
    ensures
        match res {
            RelativeValue::Affine(f) => spec_relative_value(s@) == RelativeView::Affine(f.view_components()),
            RelativeValue::Constant(c) => spec_relative_value(s@) == RelativeView::Constant(c),
            RelativeValue::Unparsable => spec_relative_value(s@) is Unparsable,
        },
{
    let text = string_from_chars(s);
    match parse_affine_factor(text.as_str()) {
        Ok(factor) => match factor.as_constant() {
            Some(c) => RelativeValue::Constant(c),
            None => RelativeValue::Affine(factor),
        },
        Err(_) => RelativeValue::Unparsable,
    }
}

fn push_property(props: Vec<KeyProperty>, property: KeyProperty) -> (res: Vec<KeyProperty>)
    ensures
        properties_view(res@) == properties_view(props@).push(property@),
{
    let mut props = props;
    let ghost before = properties_view(props@);
    props.push(property);
    proof {
        assert(properties_view(props@) =~= before.push(property@));
    }
    props
}

fn value_range(s: &[char], parser: &KeyParser, props: Vec<KeyProperty>) -> (res: Result<Vec<KeyProperty>, ArgumentError>)
    ensures
        match res {
            Ok(out) => spec_value_range(parser@, s@, properties_view(props@)) == Some(properties_view(out@)),
            Err(_) => spec_value_range(parser@, s@, properties_view(props@)) is None,
        },
{
    let dots = chars_of("..");
    let (first, second) = split_once(s, dots.as_slice());
    let (previous, current) = match second {
        Some(c) => (Some(first), c),
        None => (None, first),
    };
    let current_value = interpret_event_value(current.as_slice(), parser)?;
    let props = push_property(props, KeyProperty::Value(current_value));
    match previous {
        None => Ok(props),
        Some(previous) => {
            if !parser.allow_transitions {
                return Err(ArgumentError::new(join_strs(&["No transitions are allowed for keys in this position."])));
            }
            let previous_value = interpret_event_value(previous.as_slice(), parser)?;
            Ok(push_property(props, KeyProperty::PreviousValue(previous_value)))
        },
    }
}

fn value_properties(s: &[char], parser: &KeyParser, body: &[char], props: Vec<KeyProperty>) -> (res: Result<Vec<KeyProperty>, ArgumentError>)
    ensures
        match res {
            Ok(out) => spec_value_properties(parser@, s@, properties_view(props@)) == Some(properties_view(out@)),
            Err(_) => spec_value_properties(parser@, s@, properties_view(props@)) is None,
        },
{
    match interpret_relative_value(s) {
        RelativeValue::Affine(factor) => {
            if parser.allow_relative_values {
                Ok(push_property(props, KeyProperty::AffineFactor(factor)))
            } else {
                let body_str = string_from_chars(body);
                Err(ArgumentError::new(join_strs(&[
                    "It is not possible to specify relative values for the key ", body_str.as_str(), ".",
                ])))
            }
        },
        RelativeValue::Constant(c) => {
            if parser.allow_relative_values {
                Ok(push_property(props, KeyProperty::Value(Interval { min: c, max: c })))
            } else {
                // Not accepted as a relative value, but it may still be a plain value.
                value_range(s, parser, props)
            }
        },
        RelativeValue::Unparsable => value_range(s, parser, props),
    }
}

fn interpret_parts(parts: &KeyParts, parser: &KeyParser) -> (res: Result<Vec<KeyProperty>, ArgumentError>)
    ensures
        match res {
            Ok(props) => spec_interpret_parts(parser@, parts.view()) == Some(properties_view(props@)),
            Err(_) => spec_interpret_parts(parser@, parts.view()) is None,
        },
{
    let props = type_properties(parts, parser)?;
    match &parts.value {
        Some(value) => {
            if parser.allow_values {
                value_properties(value.as_slice(), parser, parts.body.as_slice(), props)
            } else {
                let value_str = string_from_chars(value.as_slice());
                Err(ArgumentError::new(join_strs(&[
                    "This argument does not allow you to specify values for its events. Try removing the \":",
                    value_str.as_str(), "\" part.",
                ])))
            }
        },
        None => {
            let default_value = chars_of(parser.default_value);
            if default_value.len() == 0 {
                Ok(props)
            } else {
                value_properties(default_value.as_slice(), parser, parts.body.as_slice(), props)
            }
        },
    }
}

/// At most one property of each kind, and none on the domain.
pub open spec fn fit_for_domain(props: Seq<PropertyView>) -> bool {
    &&& unique_kinds(props)
    &&& forall|i: int| 0 <= i < props.len() ==> !((#[trigger] props[i]) is Domain)
}

proof fn lemma_push_fit(props: Seq<PropertyView>, p: PropertyView)
    requires
        fit_for_domain(props),
        !(p is Domain),
        forall|i: int| 0 <= i < props.len() ==> kind(#[trigger] props[i]) != kind(p),
    ensures
        fit_for_domain(props.push(p)),
{
    let q = props.push(p);
    assert forall|i: int, j: int| 0 <= i < j < q.len() implies kind(#[trigger] q[i]) != kind(#[trigger] q[j]) by {
        assert(q[i] == props[i]);
        if j < props.len() {
            assert(q[j] == props[j]);
        }
    }
    assert forall|i: int| 0 <= i < q.len() implies !((#[trigger] q[i]) is Domain) by {
        if i < props.len() {
            assert(q[i] == props[i]);
        }
    }
}

/// The value properties only add properties on values and relative values.
proof fn lemma_value_range_fit(p: ParserView, s: Seq<char>, props: Seq<PropertyView>)
    requires
        fit_for_domain(props),
        forall|i: int| 0 <= i < props.len() ==> kind(#[trigger] props[i]) <= 2 || kind(props[i]) == 5 || kind(props[i]) == 6,
    ensures
        spec_value_properties(p, s, props) matches Some(out) ==> fit_for_domain(out),
{
    match spec_relative_value(s) {
        RelativeView::Affine(components) => {
            lemma_push_fit(props, PropertyView::AffineFactor(components));
        },
        RelativeView::Constant(c) => {
            lemma_push_fit(props, PropertyView::Value(Interval { min: c, max: c }));
            lemma_range_fit(p, s, props);
        },
        RelativeView::Unparsable => {
            lemma_range_fit(p, s, props);
        },
    }
}

proof fn lemma_range_fit(p: ParserView, s: Seq<char>, props: Seq<PropertyView>)
    requires
        fit_for_domain(props),
        forall|i: int| 0 <= i < props.len() ==> kind(#[trigger] props[i]) <= 2 || kind(props[i]) == 5 || kind(props[i]) == 6,
    ensures
        spec_value_range(p, s, props) matches Some(out) ==> fit_for_domain(out),
{
    let (first, second) = spec_split_once(s, ".."@);
    let (previous, current) = match second {
        Some(c) => (Some(first), c),
        None => (None, first),
    };
    if let Some(r) = spec_event_value(p, current) {
        lemma_push_fit(props, PropertyView::Value(r));
        let with_value = props.push(PropertyView::Value(r));
        if let Some(prev) = previous {
            if let Some(r2) = spec_event_value(p, prev) {
                assert forall|i: int| 0 <= i < with_value.len() implies kind(#[trigger] with_value[i]) != 4 by {
                    if i < props.len() {
                        assert(with_value[i] == props[i]);
                    }
                }
                lemma_push_fit(with_value, PropertyView::PreviousValue(r2));
            }
        }
    }
}

proof fn lemma_interpret_fit(p: ParserView, parts: KeyPartsView)
    ensures
        spec_interpret_parts(p, parts) matches Some(out) ==> fit_for_domain(out),
{
    let start = seq![PropertyView::Namespace(p.namespace)];
    assert(fit_for_domain(start));
    if let Some(props) = spec_type_properties(p, parts) {
        match parts.ev_type {
            None => {},
            Some(name) => {
                let t = spec_event_type(name).unwrap();
                match parts.code {
                    None => {
                        lemma_push_fit(start, type_only_property(name, EventType { value: t }));
                    },
                    Some(code_name) => {
                        lemma_push_fit(start, PropertyView::Code(spec_event_code(name, code_name).unwrap()));
                    },
                }
            },
        }
        assert forall|i: int| 0 <= i < props.len() implies kind(#[trigger] props[i]) <= 2 || kind(props[i]) == 5 || kind(props[i]) == 6 by {
            if i == 0 {
                assert(props[0] == start[0]);
            }
        }
        match parts.value {
            Some(v) => lemma_value_range_fit(p, v, props),
            None => lemma_value_range_fit(p, p.default_value, props),
        }
    }
}

impl<'a> KeyParser<'a> {
    /// Parses a key like "key:a:1@foo", resolving its domain name, if any, to a domain.
    pub fn parse(&self, key_str: &str, domains: &mut DomainTracker) -> (res: Result<Key, ArgumentError>)
        requires
            old(domains).well_formed(),
            old(domains).next_id() < usize::MAX,
        ensures
            final(domains).well_formed(),
            final(domains).next_id() <= old(domains).next_id() + 1,
            res is Ok <==> spec_parses(self@, key_str@),
            match res {
                Ok(key) => {
                    &&& key@ == spec_parsed_key(self@, key_str@, *final(domains))
                    &&& spec_parse_resolves(key_str@, *old(domains), *final(domains))
                    &&& key.well_formed()
                },
                Err(_) => *final(domains) == *old(domains),
            },
    {
        let key_chars = chars_of(key_str);
        let result = self.parse_chars(key_chars.as_slice(), domains);
        proof {
            if let Some(name) = spec_key_domain(key_str@) {
                if result is Ok && old(domains).lookup(name) is None {
                    assert(domains.next_id() == old(domains).next_id() + 1);
                }
            }
        }
        match result {
            Ok(key) => Ok(key),
            Err(err) => Err(err.with_context(join_strs(&["While parsing the key \"", key_str, "\":"]))),
        }
    }

    fn parse_chars(&self, key: &[char], domains: &mut DomainTracker) -> (res: Result<Key, ArgumentError>)
        requires
            old(domains).well_formed(),
            old(domains).next_id() < usize::MAX,
        ensures
            final(domains).well_formed(),
            res is Ok <==> spec_parses(self@, key@),
            match res {
                Ok(key_out) => {
                    &&& key_out@ == spec_parsed_key(self@, key@, *final(domains))
                    &&& spec_parse_resolves(key@, *old(domains), *final(domains))
                    &&& key_out.well_formed()
                },
                Err(_) => *final(domains) == *old(domains),
            },
    {
        let parts = key_str_to_parts(key)?;
        let props = interpret_parts(&parts, self)?;
        proof {
            lemma_interpret_fit(self@, parts.view());
            assert(spec_key_body(self@, key@) == Some(properties_view(props@)));
        }
        match &parts.domain {
            None => {
                let key_out = Key { properties: props };
                Ok(key_out)
            },
            Some(domain_chars) => {
                let name = string_from_chars(domain_chars.as_slice());
                let domain = domains.resolve(name.as_str())?;
                let ghost before = properties_view(props@);
                let props = push_property(props, KeyProperty::Domain(domain));
                proof {
                    let after = before.push(PropertyView::Domain(domain));
                    assert forall|i: int, j: int| 0 <= i < j < after.len() implies kind(#[trigger] after[i]) != kind(#[trigger] after[j]) by {
                        assert(after[i] == before[i]);
                        if j < before.len() {
                            assert(after[j] == before[j]);
                        }
                    }
                }
                Ok(Key { properties: props })
            },
        }
    }
}

/// The whitelist of two parsers together: the types that both allow, in ascending order.
pub open spec fn both_allow(a: Seq<EventType>, b: Seq<EventType>, list: Seq<EventType>) -> bool {
    &&& forall|t: EventType| list.contains(t) <==> (a.contains(t) && b.contains(t))
    &&& forall|i: int, j: int| 0 <= i < j < list.len() ==> (#[trigger] list[i]).value < (#[trigger] list[j]).value
}

/// The view of the parser whose options are those given, with no default value.
pub open spec fn plain_parser(
    allow_values: bool,
    allow_ranges: bool,
    allow_transitions: bool,
    allow_types: bool,
    allow_relative_values: bool,
) -> ParserView {
    ParserView {
        default_value: Seq::empty(),
        allow_values,
        allow_transitions,
        allow_ranges,
        allow_types,
        allow_relative_values,
        type_whitelist: None,
        namespace: Namespace::User,
    }
}

/// Inserts `t` into a list that is in ascending order, unless it is already there.
fn insert_sorted(list: &mut Vec<EventType>, t: EventType)
    requires
        forall|i: int, j: int| 0 <= i < j < old(list)@.len() ==> (#[trigger] old(list)@[i]).value < (#[trigger] old(list)@[j]).value,
    ensures
        forall|x: EventType| final(list)@.contains(x) <==> (old(list)@.contains(x) || x == t),
        forall|i: int, j: int| 0 <= i < j < final(list)@.len() ==> (#[trigger] final(list)@[i]).value < (#[trigger] final(list)@[j]).value,
{
    let mut i: usize = 0;
    while i < list.len() && list[i].value < t.value
        invariant
            i <= list@.len(),
            forall|k: int| 0 <= k < i ==> (#[trigger] list@[k]).value < t.value,
        decreases list@.len() - i,
    {
        i += 1;
    }
    if i < list.len() && list[i].value == t.value {
        proof {
            assert(list@[i as int] == t);
        }
        return;
    }
    let ghost before = list@;
    list.insert(i, t);
    proof {
        lemma_insert_contains(before, i as int, t);
        assert(list@ == before.insert(i as int, t));
        assert forall|a: int, b: int| 0 <= a < b < list@.len() implies (#[trigger] list@[a]).value < (#[trigger] list@[b]).value by {
            if b < i {
                assert(list@[a] == before[a] && list@[b] == before[b]);
            } else if b == i {
                assert(list@[a] == before[a]);
            } else if a < i {
                assert(list@[a] == before[a] && list@[b] == before[b - 1]);
                assert(before[i as int].value > t.value);
            } else if a == i {
                assert(list@[b] == before[b - 1]);
                assert(before[i as int].value > t.value);
            } else {
                assert(list@[a] == before[a - 1] && list@[b] == before[b - 1]);
            }
        }
    }
}

/// Whether one parser allows everything that another allows: every option and every type.
pub open spec fn allows_at_least(q: ParserView, p: ParserView) -> bool {
    &&& p.allow_values ==> q.allow_values
    &&& p.allow_ranges ==> q.allow_ranges
    &&& p.allow_transitions ==> q.allow_transitions
    &&& p.allow_types ==> q.allow_types
    &&& p.allow_relative_values ==> q.allow_relative_values
    &&& forall|t: EventType| whitelist_allows(p.type_whitelist, t) ==> whitelist_allows(q.type_whitelist, t)
}

/// Whether `r` is the parser that `and_filter` makes of `a` and `b`.
pub open spec fn and_filtered(a: ParserView, b: ParserView, r: ParserView) -> bool {
    &&& r.default_value == a.default_value
    &&& r.allow_values == (a.allow_values && b.allow_values)
    &&& r.allow_transitions == (a.allow_transitions && b.allow_transitions)
    &&& r.allow_ranges == (a.allow_ranges && b.allow_ranges)
    &&& r.allow_types == (a.allow_types && b.allow_types)
    &&& r.allow_relative_values == (a.allow_relative_values && b.allow_relative_values)
    &&& r.namespace == a.namespace
    &&& match (a.type_whitelist, b.type_whitelist) {
        (None, None) => r.type_whitelist is None,
        (Some(list), None) => r.type_whitelist == Some(list),
        (None, Some(list)) => r.type_whitelist == Some(list),
        (Some(x), Some(y)) => r.type_whitelist matches Some(list) && both_allow(x, y, list),
    }
}

proof fn lemma_value_properties_monotone(
    p: ParserView,
    q: ParserView,
    s: Seq<char>,
    props: Seq<PropertyView>,
    other: Seq<PropertyView>,
)
    requires
        allows_at_least(q, p),
        spec_value_properties(p, s, props) is Some,
    ensures
        spec_value_properties(q, s, other) is Some,
{
    let (first, second) = spec_split_once(s, ".."@);
    let (previous, current) = match second {
        Some(c) => (Some(first), c),
        None => (None, first),
    };
    if spec_event_value(p, current) is Some {
        assert(spec_event_value(q, current) is Some);
    }
    if let Some(prev) = previous {
        if spec_event_value(p, prev) is Some {
            assert(spec_event_value(q, prev) is Some);
        }
    }
}

proof fn lemma_type_properties_monotone(p: ParserView, q: ParserView, parts: KeyPartsView)
    requires
        allows_at_least(q, p),
        spec_type_properties(p, parts) is Some,
    ensures
        spec_type_properties(q, parts) is Some,
{
    if let Some(name) = parts.ev_type {
        if let Some(t) = spec_event_type(name) {
            assert(whitelist_allows(p.type_whitelist, EventType { value: t }));
        }
    }
}

proof fn lemma_interpret_monotone(p: ParserView, q: ParserView, parts: KeyPartsView)
    requires
        allows_at_least(q, p),
        parts.value is Some || q.default_value.len() == 0 || q.default_value == p.default_value
            || spec_value_properties(q, q.default_value, Seq::empty()) is Some,
        spec_interpret_parts(p, parts) is Some,
    ensures
        spec_interpret_parts(q, parts) is Some,
{
    lemma_type_properties_monotone(p, q, parts);
    let props_p = spec_type_properties(p, parts).unwrap();
    let props_q = spec_type_properties(q, parts).unwrap();
    match parts.value {
        Some(v) => lemma_value_properties_monotone(p, q, v, props_p, props_q),
        None => {
            if q.default_value.len() > 0 {
                if q.default_value == p.default_value {
                    lemma_value_properties_monotone(p, q, p.default_value, props_p, props_q);
                } else {
                    lemma_value_properties_monotone(q, q, q.default_value, Seq::empty(), props_q);
                }
            }
        },
    }
}

/// A key that the parser made by `and_filter` accepts is accepted by both parsers that it was
/// made from, provided that the second accepts its own default value.
pub proof fn lemma_and_filter_accepts(a: ParserView, b: ParserView, r: ParserView, key: Seq<char>)
    requires
        and_filtered(a, b, r),
        b.default_value.len() == 0 || spec_value_properties(b, b.default_value, Seq::empty()) is Some,
        spec_parses(r, key),
    ensures
        spec_parses(a, key),
        spec_parses(b, key),
{
    assert(allows_at_least(a, r)) by {
        assert forall|t: EventType| whitelist_allows(r.type_whitelist, t) implies whitelist_allows(a.type_whitelist, t) by {
            if let (Some(x), Some(y)) = (a.type_whitelist, b.type_whitelist) {
                let list = r.type_whitelist.unwrap();
                assert(list.contains(t) <==> (x.contains(t) && y.contains(t)));
            }
        }
    }
    assert(allows_at_least(b, r)) by {
        assert forall|t: EventType| whitelist_allows(r.type_whitelist, t) implies whitelist_allows(b.type_whitelist, t) by {
            if let (Some(x), Some(y)) = (a.type_whitelist, b.type_whitelist) {
                let list = r.type_whitelist.unwrap();
                assert(list.contains(t) <==> (x.contains(t) && y.contains(t)));
            }
        }
    }
    let parts = spec_key_parts(key).unwrap();
    lemma_interpret_monotone(r, a, parts);
    lemma_interpret_monotone(r, b, parts);
}

impl<'a> KeyParser<'a> {
    /// Returns the KeyParser that is the most commonly used one for filtering events,
    /// e.g. the first key in `--map key:a key:b` but not the second key.
    pub fn default_filter() -> (res: KeyParser<'static>)
        ensures
            res@ == plain_parser(true, true, true, true, false),
    {
        let res = KeyParser {
            default_value: "",
            allow_values: true,
            allow_ranges: true,
            allow_transitions: true,
            allow_types: true,
            allow_relative_values: false,
            type_whitelist: None,
            namespace: Namespace::User,
        };
        proof {
            reveal_strlit("");
            assert(res.default_value@ =~= Seq::<char>::empty());
        }
        res
    }

    /// Returns a KeyParser that functions the same as self, except that it will only
    /// parse keys that would be deemed to be valid keys according to `other` as well.
    ///
    /// Does not guarantee that `self` and `other` would parse keys to the same key.
    pub fn and_filter(self, other: KeyParser) -> (res: Self)
        ensures
            res.default_value == self.default_value,
            res.allow_values == (self.allow_values && other.allow_values),
            res.allow_transitions == (self.allow_transitions && other.allow_transitions),
            res.allow_ranges == (self.allow_ranges && other.allow_ranges),
            res.allow_types == (self.allow_types && other.allow_types),
            res.allow_relative_values == (self.allow_relative_values && other.allow_relative_values),
            res.namespace == self.namespace,
            match (self@.type_whitelist, other@.type_whitelist) {
                (None, None) => res@.type_whitelist is None,
                (Some(list), None) => res@.type_whitelist == Some(list),
                (None, Some(list)) => res@.type_whitelist == Some(list),
                (Some(a), Some(b)) => res@.type_whitelist matches Some(list) && both_allow(a, b, list),
            },
    {
        let merged_whitelist = match (self.type_whitelist, other.type_whitelist) {
            (None, None) => None,
            (None, Some(list)) => Some(list),
            (Some(list), None) => Some(list),
            (Some(list1), Some(list2)) => {
                let mut joined: Vec<EventType> = Vec::new();
                let mut i: usize = 0;
                while i < list1.len()
                    invariant
                        i <= list1@.len(),
                        forall|t: EventType| joined@.contains(t) <==> (exists|k: int| 0 <= k < i && list1@[k] == t) && list2@.contains(t),
                        forall|a: int, b: int| 0 <= a < b < joined@.len() ==> (#[trigger] joined@[a]).value < (#[trigger] joined@[b]).value,
                    decreases list1@.len() - i,
                {
                    let ghost before = joined@;
                    if whitelist_contains(&list2, list1[i]) {
                        insert_sorted(&mut joined, list1[i]);
                    }
                    proof {
                        assert forall|t: EventType| joined@.contains(t) <==> (exists|k: int| 0 <= k < i + 1 && list1@[k] == t) && list2@.contains(t) by {
                            if t == list1@[i as int] {
                                assert(exists|k: int| 0 <= k < i + 1 && list1@[k] == t);
                            }
                            if (exists|k: int| 0 <= k < i + 1 && list1@[k] == t) && t != list1@[i as int] {
                                let k = choose|k: int| 0 <= k < i + 1 && list1@[k] == t;
                                assert(k < i);
                            }
                        }
                    }
                    i += 1;
                }
                proof {
                    assert forall|t: EventType| joined@.contains(t) <==> (list1@.contains(t) && list2@.contains(t)) by {
                        if list1@.contains(t) {
                            let k = choose|k: int| 0 <= k < list1@.len() && list1@[k] == t;
                            assert(exists|k: int| 0 <= k < i && list1@[k] == t);
                        }
                    }
                }
                Some(joined)
            },
        };
        KeyParser {
            default_value: self.default_value,
            allow_values: self.allow_values && other.allow_values,
            allow_transitions: self.allow_transitions && other.allow_transitions,
            allow_ranges: self.allow_ranges && other.allow_ranges,
            allow_types: self.allow_types && other.allow_types,
            allow_relative_values: self.allow_relative_values && other.allow_relative_values,
            type_whitelist: merged_whitelist,
            namespace: self.namespace,
        }
    }

    /// Returns the KeyParser that is the most commonly used one for masking events,
    /// e.g. the second key in `--map key:a key:b` but not the first key.
    pub fn default_mask() -> (res: KeyParser<'static>)
        ensures
            res@ == plain_parser(true, true, false, false, true),
    {
        let res = KeyParser {
            default_value: "",
            allow_values: true,
            allow_ranges: true,
            allow_transitions: false,
            allow_types: false,
            allow_relative_values: true,
            type_whitelist: None,
            namespace: Namespace::User,
        };
        proof {
            reveal_strlit("");
            assert(res.default_value@ =~= Seq::<char>::empty());
        }
        res
    }

    /// Returns a KeyParser that only interprets "pure" keys, i.e. keys for which
    /// `key.matches(event) == key.matches_channel(event.channel)` is true for all events.
    pub fn pure() -> (res: KeyParser<'static>)
        ensures
            res@ == plain_parser(false, false, false, true, false),
    {
        let res = KeyParser {
            default_value: "",
            allow_values: false,
            allow_ranges: false,
            allow_transitions: false,
            allow_types: true,
            allow_relative_values: false,
            type_whitelist: None,
            namespace: Namespace::User,
        };
        proof {
            reveal_strlit("");
            assert(res.default_value@ =~= Seq::<char>::empty());
        }
        res
    }

    pub fn with_namespace(&mut self, namespace: Namespace) -> (res: &mut Self)
        ensures
            *res == (KeyParser { namespace, ..*old(self) }),
            *final(self) == *final(res),
    {
        self.namespace = namespace;
        self
    }

    /// Parses each key in turn, stopping at the first that cannot be parsed.
    pub fn parse_all(&self, key_strs: &[String], domains: &mut DomainTracker) -> (res: Result<Vec<Key>, ArgumentError>)
        requires
            old(domains).well_formed(),
            old(domains).next_id() + key_strs@.len() < usize::MAX,
        ensures
            final(domains).well_formed(),
            final(domains).next_id() <= old(domains).next_id() + key_strs@.len(),
            forall|name: Seq<char>| old(domains).lookup(name) is Some ==> final(domains).lookup(name) == old(domains).lookup(name),
            res is Ok <==> forall|i: int| 0 <= i < key_strs@.len() ==> spec_parses(self@, #[trigger] key_strs@[i]@),
            res matches Ok(keys) ==> {
                &&& keys@.len() == key_strs@.len()
                &&& forall|i: int| 0 <= i < key_strs@.len() ==> (#[trigger] spec_key_domain(key_strs@[i]@)) is Some
                    ==> final(domains).lookup(spec_key_domain(key_strs@[i]@).unwrap()) is Some
                &&& forall|i: int| 0 <= i < keys@.len()
                    ==> (#[trigger] keys@[i])@ == spec_parsed_key(self@, key_strs@[i]@, *final(domains)) && keys@[i].well_formed()
            },
    {
        let mut keys: Vec<Key> = Vec::new();
        let mut i: usize = 0;
        while i < key_strs.len()
            invariant
                i <= key_strs@.len(),
                keys@.len() == i,
                domains.well_formed(),
                domains.next_id() <= old(domains).next_id() + i,
                old(domains).next_id() + key_strs@.len() < usize::MAX,
                forall|name: Seq<char>| old(domains).lookup(name) is Some ==> domains.lookup(name) == old(domains).lookup(name),
                forall|k: int| 0 <= k < i ==> spec_parses(self@, #[trigger] key_strs@[k]@),
                forall|k: int| 0 <= k < i ==> (#[trigger] spec_key_domain(key_strs@[k]@)) is Some
                    ==> domains.lookup(spec_key_domain(key_strs@[k]@).unwrap()) is Some,
                forall|k: int| 0 <= k < i
                    ==> (#[trigger] keys@[k])@ == spec_parsed_key(self@, key_strs@[k]@, *domains) && keys@[k].well_formed(),
            decreases key_strs@.len() - i,
        {
            let ghost before = *domains;
            let key = match self.parse(key_strs[i].as_str(), domains) {
                Ok(key) => key,
                Err(err) => {
                    proof {
                        assert(!spec_parses(self@, key_strs@[i as int]@));
                    }
                    return Err(err);
                },
            };
            proof {
                let s = key_strs@[i as int]@;
                if let Some(name) = spec_key_domain(s) {
                    let d = domains.lookup(name).unwrap();
                    if before.lookup(name) is None {
                        assert(domains.next_id() == before.next_id() + 1);
                    }
                    assert forall|other: Seq<char>| before.lookup(other) is Some implies domains.lookup(other) == before.lookup(other) by {
                        if other == name {
                        }
                    }
                }
                assert forall|k: int| 0 <= k < i implies (#[trigger] keys@[k])@ == spec_parsed_key(self@, key_strs@[k]@, *domains) by {
                    if let Some(name) = spec_key_domain(key_strs@[k]@) {
                        assert(before.lookup(name) is Some);
                    }
                }
            }
            keys.push(key);
            i += 1;
        }
        Ok(keys)
    }
}

/// The parser that accepts every kind of key.
pub open spec fn permissive_parser() -> ParserView {
    plain_parser(true, true, true, true, true)
}

/// Whether a string looks like a key: it does not start with a slash, and it either parses as a
/// key or has a ':', '@' or '%' before its first '='.
pub open spec fn spec_resembles_key(key: Seq<char>) -> bool {
    if key.len() > 0 && key[0] == '/' {
        false
    } else {
        let before_equals = spec_split_once(key, seq!['=']).0;
        spec_parses(permissive_parser(), key) || before_equals.contains(':') || before_equals.contains('@')
            || before_equals.contains('%')
    }
}

/// A string that starts with a slash never resembles a key. Any other string resembles a key when
/// the default filter or the default mask parser accepts it, or when it has a ':', '@' or '%'
/// before its first '='.
pub proof fn lemma_resembles_key_law(key: Seq<char>)
    ensures
        key.len() > 0 && key[0] == '/' ==> !spec_resembles_key(key),
        !(key.len() > 0 && key[0] == '/') && (spec_parses(plain_parser(true, true, true, true, false), key)
            || spec_parses(plain_parser(true, true, false, false, true), key)) ==> spec_resembles_key(key),
        !(key.len() > 0 && key[0] == '/') && ({
            let before_equals = spec_split_once(key, seq!['=']).0;
            before_equals.contains(':') || before_equals.contains('@') || before_equals.contains('%')
        }) ==> spec_resembles_key(key),
{
    let filter = plain_parser(true, true, true, true, false);
    let mask = plain_parser(true, true, false, false, true);
    if spec_parses(filter, key) {
        lemma_interpret_monotone(filter, permissive_parser(), spec_key_parts(key).unwrap());
    }
    if spec_parses(mask, key) {
        lemma_interpret_monotone(mask, permissive_parser(), spec_key_parts(key).unwrap());
    }
}

/// Tells you whether the string looks like a key and should be interpreted as such if it is
/// passed to an argument. Intentionally does not guarantee that it will actually parse as key,
/// so sensible error messages can be given when the user enters a somewhat incorrect key and
/// be told why it isn't a key.
pub fn resembles_key(key_str: &str, domains: &mut DomainTracker) -> (res: bool)
    requires
        old(domains).well_formed(),
        old(domains).next_id() < usize::MAX,
    ensures
        final(domains).well_formed(),
        final(domains).next_id() <= old(domains).next_id() + 1,
        res == spec_resembles_key(key_str@),
        forall|name: Seq<char>| old(domains).lookup(name) is Some ==> final(domains).lookup(name) == old(domains).lookup(name),
{
    let key_chars = chars_of(key_str);
    if key_chars.len() > 0 && key_chars[0] == '/' {
        return false;
    }
    let equals = vec!['='];
    proof {
        assert(equals@ =~= seq!['=']);
    }
    let (before_equals, _) = split_once(key_chars.as_slice(), equals.as_slice());
    let parser = KeyParser {
        default_value: "",
        allow_values: true,
        allow_ranges: true,
        allow_transitions: true,
        allow_types: true,
        allow_relative_values: true,
        type_whitelist: None,
        namespace: Namespace::User,
    };
    proof {
        reveal_strlit("");
        assert(parser.default_value@ =~= Seq::<char>::empty());
        assert(parser@ == permissive_parser());
    }
    let parses = parser.parse(key_str, domains).is_ok();
    proof {
        if let Some(name) = spec_key_domain(key_str@) {
            if parses {
                assert forall|other: Seq<char>| old(domains).lookup(other) is Some implies domains.lookup(other) == old(domains).lookup(other) by {
                    if other == name {
                    }
                }
            }
        }
    }
    parses || contains_char(before_equals.as_slice(), ':') || contains_char(before_equals.as_slice(), '@')
        || contains_char(before_equals.as_slice(), '%')
}

pub open spec fn cap_match_of(b: bool) -> CapMatch {
    if b {
        CapMatch::Yes
    } else {
        CapMatch::No
    }
}

/// Whether every event that a capability stands for meets a property (Yes), none does (No), or
/// it depends on the event (Maybe).
pub open spec fn property_matches_cap(p: PropertyView, cap: Capability) -> CapMatch {
    match p {
        PropertyView::Code(c) => cap_match_of(cap.code == c),
        PropertyView::Domain(d) => cap_match_of(cap.domain == d),
        PropertyView::Type(t) => cap_match_of(cap.code.ev_type == t),
        PropertyView::VirtualType(v) => cap_match_of(spec_virtual_ev_type(cap.code) == v),
        PropertyView::Namespace(n) => cap_match_of(cap.namespace == n),
        PropertyView::Value(r) => if cap.value_range.spec_intersect(r) == Some(cap.value_range) {
            CapMatch::Yes
        } else if r.spec_intersect(cap.value_range) is None {
            CapMatch::No
        } else {
            CapMatch::Maybe
        },
        PropertyView::PreviousValue(_) => CapMatch::Maybe,
        PropertyView::AffineFactor(_) => CapMatch::Maybe,
    }
}

/// The lowest answer of all properties; Yes for a key without properties.
pub open spec fn key_matches_cap(props: Seq<PropertyView>, cap: Capability) -> CapMatch
    decreases props.len(),
{
    if props.len() == 0 {
        CapMatch::Yes
    } else {
        key_matches_cap(props.drop_last(), cap).spec_min_with(property_matches_cap(props.last(), cap))
    }
}

/// The capability after a property was applied to its events. Properties on types and on
/// previous values leave it unchanged.
pub open spec fn property_merge_cap(p: PropertyView, cap: Capability) -> Capability {
    match p {
        PropertyView::Code(c) => Capability { code: c, ..cap },
        PropertyView::Domain(d) => Capability { domain: d, ..cap },
        PropertyView::Namespace(n) => Capability { namespace: n, ..cap },
        PropertyView::Value(r) => Capability { value_range: r.spec_bound_range(cap.value_range), ..cap },
        _ => cap,
    }
}

pub open spec fn key_merge_cap(props: Seq<PropertyView>, cap: Capability) -> Capability
    decreases props.len(),
{
    if props.len() == 0 {
        cap
    } else {
        property_merge_cap(props.last(), key_merge_cap(props.drop_last(), cap))
    }
}

impl KeyProperty {
    /// Whether every event a capability stands for matches this property. A relative value
    /// cannot be used to filter events.
    pub fn matches_cap(&self, cap: &Capability) -> (res: CapMatch)
        requires
            !(self@ is AffineFactor),
        ensures
            res == property_matches_cap(self@, *cap),
    {
        match self {
            KeyProperty::Code(value) => CapMatch::from(cap.code == *value),
            KeyProperty::Domain(value) => CapMatch::from(cap.domain == *value),
            KeyProperty::Type(value) => CapMatch::from(cap.code.ev_type == *value),
            KeyProperty::VirtualType(value) => CapMatch::from(crate::ecodes::virtual_ev_type(cap.code) == *value),
            KeyProperty::Namespace(value) => CapMatch::from(cap.namespace == *value),
            KeyProperty::Value(range) => {
                if cap.value_range.is_subset_of(range) {
                    CapMatch::Yes
                } else if range.is_disjoint_with(&cap.value_range) {
                    CapMatch::No
                } else {
                    CapMatch::Maybe
                }
            },
            KeyProperty::PreviousValue(_) => CapMatch::Maybe,
            KeyProperty::AffineFactor(_) => CapMatch::Maybe,
        }
    }

    /// The capability after this property has been applied to its events. A property on the type
    /// cannot change the type of events and leaves the capability as it is.
    pub fn merge_cap(&self, cap: Capability) -> (res: Capability)
        requires
            !(self@ is AffineFactor),
        ensures
            res == property_merge_cap(self@, cap),
    {
        let mut cap = cap;
        match self {
            KeyProperty::Code(value) => cap.code = *value,
            KeyProperty::Domain(value) => cap.domain = *value,
            KeyProperty::Namespace(value) => cap.namespace = *value,
            KeyProperty::Value(range) => cap.value_range = range.bound_range(&cap.value_range),
            _ => {},
        }
        cap
    }
}

impl Key {
    /// Returns Yes if this key will guaranteedly match any event said Capability might emit,
    /// returns No if it cannot possibly match any such event, and otherwise Maybe.
    pub fn matches_cap(&self, cap: &Capability) -> (res: CapMatch)
        requires
            !has_affine(self@),
        ensures
            res == key_matches_cap(self@, *cap),
    {
        let mut result = CapMatch::Yes;
        let mut i: usize = 0;
        while i < self.properties.len()
            invariant
                i <= self@.len(),
                self@.len() == self.properties@.len(),
                !has_affine(self@),
                result == key_matches_cap(self@.take(i as int), *cap),
            decreases self@.len() - i,
        {
            proof {
                assert(self@[i as int] == self.properties@[i as int]@);
                if self@[i as int] is AffineFactor {
                    assert(has_affine(self@));
                }
                assert(self@.take(i + 1).drop_last() == self@.take(i as int));
            }
            result = result.min_with(self.properties[i].matches_cap(cap));
            i += 1;
        }
        proof {
            assert(self@.take(self@.len() as int) == self@);
        }
        result
    }

    /// The capability after every property was applied to its events in turn.
    pub fn merge_cap(&self, cap: Capability) -> (res: Capability)
        requires
            !has_affine(self@),
        ensures
            res == key_merge_cap(self@, cap),
    {
        let mut cap = cap;
        let ghost start = cap;
        let mut i: usize = 0;
        while i < self.properties.len()
            invariant
                i <= self@.len(),
                self@.len() == self.properties@.len(),
                !has_affine(self@),
                cap == key_merge_cap(self@.take(i as int), start),
            decreases self@.len() - i,
        {
            proof {
                assert(self@[i as int] == self.properties@[i as int]@);
                if self@[i as int] is AffineFactor {
                    assert(has_affine(self@));
                }
                assert(self@.take(i + 1).drop_last() == self@.take(i as int));
            }
            cap = self.properties[i].merge_cap(cap);
            i += 1;
        }
        proof {
            assert(self@.take(self@.len() as int) == self@);
        }
        cap
    }
}

/// The properties of a key body hold at most one of each kind, and none on domains.
pub proof fn lemma_key_body_fit(p: ParserView, key: Seq<char>)
    ensures
        spec_key_body(p, key) matches Some(props) ==> fit_for_domain(props),
{
    if let Some(parts) = spec_key_parts(key) {
        lemma_interpret_fit(p, parts);
    }
}

/// A key requires a domain exactly when it has a domain property.
pub proof fn lemma_first_domain(props: Seq<PropertyView>)
    ensures
        first_domain_requirement(props) is None <==> forall|i: int| 0 <= i < props.len() ==> !((#[trigger] props[i]) is Domain),
    decreases props.len(),
{
    if props.len() > 0 {
        lemma_first_domain(props.drop_first());
        assert forall|i: int| 0 <= i < props.len() && i > 0 implies props[i] == #[trigger] props.drop_first()[i - 1] by {}
        if first_domain_requirement(props) is None {
            assert forall|i: int| 0 <= i < props.len() implies !((#[trigger] props[i]) is Domain) by {
                if i > 0 {
                    assert(props[i] == props.drop_first()[i - 1]);
                }
            }
        } else if !(props[0] is Domain) {
            let k = choose|k: int| 0 <= k < props.drop_first().len() && (#[trigger] props.drop_first()[k]) is Domain;
            assert(props[k + 1] is Domain);
        }
    }
}

/// Once the domain name of a key is known, later resolutions of names do not change what the key is.
pub proof fn lemma_parsed_key_stable(p: ParserView, key: Seq<char>, before: DomainTracker, after: DomainTracker)
    requires
        spec_key_domain(key) is Some ==> before.lookup(spec_key_domain(key).unwrap()) is Some,
        forall|name: Seq<char>| before.lookup(name) is Some ==> after.lookup(name) == before.lookup(name),
    ensures
        spec_parsed_key(p, key, after) == spec_parsed_key(p, key, before),
{
    if let Some(name) = spec_key_domain(key) {
        assert(after.lookup(name) == before.lookup(name));
    }
}

/// Whether a key parses does not depend on the namespace of the parser.
pub proof fn lemma_parses_any_namespace(p: ParserView, namespace: Namespace, key: Seq<char>)
    ensures
        spec_parses(ParserView { namespace, ..p }, key) == spec_parses(p, key),
{
    let q = ParserView { namespace, ..p };
    if let Some(parts) = spec_key_parts(key) {
        assert(spec_type_properties(q, parts) is Some <==> spec_type_properties(p, parts) is Some);
        if let Some(props_p) = spec_type_properties(p, parts) {
            let props_q = spec_type_properties(q, parts).unwrap();
            let v = match parts.value {
                Some(v) => v,
                None => p.default_value,
            };
            assert(spec_value_range(q, v, props_q) is Some <==> spec_value_range(p, v, props_p) is Some);
            assert(spec_value_properties(q, v, props_q) is Some <==> spec_value_properties(p, v, props_p) is Some);
        }
    }
}

/// Whether two keys may intersect does not depend on their order.
pub proof fn lemma_intersects_symmetric(a: Seq<PropertyView>, b: Seq<PropertyView>)
    ensures
        keys_may_intersect(a, b) == keys_may_intersect(b, a),
{
    assert forall|p: PropertyView, q: PropertyView| properties_may_intersect(p, q) == properties_may_intersect(q, p) by {
        match (p, q) {
            (PropertyView::Value(l), PropertyView::Value(r)) => {
                assert(l.spec_intersect(r) is Some == r.spec_intersect(l) is Some);
            },
            (PropertyView::PreviousValue(l), PropertyView::PreviousValue(r)) => {
                assert(l.spec_intersect(r) is Some == r.spec_intersect(l) is Some);
            },
            _ => {},
        }
    }
    if keys_may_intersect(a, b) {
        assert forall|i: int, j: int| 0 <= i < b.len() && 0 <= j < a.len()
            implies properties_may_intersect(#[trigger] b[i], #[trigger] a[j]) by {
            assert(properties_may_intersect(a[j], b[i]));
        }
    }
    if keys_may_intersect(b, a) {
        assert forall|i: int, j: int| 0 <= i < a.len() && 0 <= j < b.len()
            implies properties_may_intersect(#[trigger] a[i], #[trigger] b[j]) by {
            assert(properties_may_intersect(b[j], a[i]));
        }
    }
}

/// A key that matches an event also matches the channel of that event.
pub proof fn lemma_matches_implies_matches_channel(key: Seq<PropertyView>, event: Event)
    requires
        key_matches(key, event),
    ensures
        key_matches_channel(key, event.code, event.domain),
{
    assert forall|i: int| 0 <= i < key.len() implies property_matches_channel(#[trigger] key[i], event.code, event.domain) by {
        assert(property_matches(key[i], event));
    }
}

proof fn lemma_push_keeps_no_affine(s: Seq<PropertyView>, x: PropertyView)
    requires
        !has_affine(s),
        !(x is AffineFactor),
    ensures
        !has_affine(s.push(x)),
{
    let t = s.push(x);
    assert forall|i: int| 0 <= i < t.len() implies !(#[trigger] t[i] is AffineFactor) by {
        if i < s.len() {
            assert(t[i] == s[i]);
        }
    }
}

proof fn lemma_value_range_no_affine(p: ParserView, v: Seq<char>, props: Seq<PropertyView>)
    requires
        !has_affine(props),
        spec_value_range(p, v, props) is Some,
    ensures
        !has_affine(spec_value_range(p, v, props).unwrap()),
{
    let (first, second) = spec_split_once(v, ".."@);
    let (previous, current) = match second {
        Some(c) => (Some(first), c),
        None => (None, first),
    };
    let r = spec_event_value(p, current).unwrap();
    lemma_push_keeps_no_affine(props, PropertyView::Value(r));
    if previous is Some {
        let r2 = spec_event_value(p, previous.unwrap()).unwrap();
        lemma_push_keeps_no_affine(props.push(PropertyView::Value(r)), PropertyView::PreviousValue(r2));
    }
}

/// A parser that does not allow relative values gives keys without them.
pub proof fn lemma_parsed_key_has_no_affine(p: ParserView, key: Seq<char>, domains: DomainTracker)
    requires
        !p.allow_relative_values,
        spec_parses(p, key),
    ensures
        !has_affine(spec_parsed_key(p, key, domains)),
{
    let parts = spec_key_parts(key).unwrap();
    let start = seq![PropertyView::Namespace(p.namespace)];
    assert(!has_affine(start)) by {
        assert forall|i: int| 0 <= i < start.len() implies !(#[trigger] start[i] is AffineFactor) by {
            assert(start[i] == PropertyView::Namespace(p.namespace));
        }
    }
    let props = spec_type_properties(p, parts).unwrap();
    if parts.ev_type is Some {
        let name = parts.ev_type.unwrap();
        let t = spec_event_type(name).unwrap();
        if parts.code is None {
            lemma_push_keeps_no_affine(start, type_only_property(name, EventType { value: t }));
        } else {
            lemma_push_keeps_no_affine(start, PropertyView::Code(spec_event_code(name, parts.code.unwrap()).unwrap()));
        }
    }
    assert(!has_affine(props));
    let body = spec_key_body(p, key).unwrap();
    match parts.value {
        Some(v) => {
            lemma_value_range_no_affine(p, v, props);
        },
        None => {
            if p.default_value.len() != 0 {
                lemma_value_range_no_affine(p, p.default_value, props);
            }
        },
    }
    assert(!has_affine(body));
    if let Some(name) = spec_key_domain(key) {
        lemma_push_keeps_no_affine(body, PropertyView::Domain(domains.lookup(name).unwrap()));
    }
}

/// Whether a key puts requirements only on the channel and namespace of events: no values,
/// previous values or relative values.
pub open spec fn only_channel_properties(key: Seq<PropertyView>) -> bool {
    forall|i: int| 0 <= i < key.len() ==> match #[trigger] key[i] {
        PropertyView::Code(_) | PropertyView::Domain(_) | PropertyView::Type(_) | PropertyView::VirtualType(_)
        | PropertyView::Namespace(_) => true,
        _ => false,
    }
}

/// A key that only puts requirements on the channel and namespace of events matches an event of
/// its namespace exactly when it matches the channel of that event, as the keys that the pure
/// parser gives are meant to.
pub proof fn lemma_pure_key_matches_channel(key: Seq<PropertyView>, event: Event)
    requires
        only_channel_properties(key),
        forall|i: int| 0 <= i < key.len() ==> (#[trigger] key[i] matches PropertyView::Namespace(n) ==> n == event.namespace),
    ensures
        key_matches(key, event) == key_matches_channel(key, event.code, event.domain),
{
    if key_matches_channel(key, event.code, event.domain) {
        assert forall|i: int| 0 <= i < key.len() implies property_matches(#[trigger] key[i], event) by {
            assert(property_matches_channel(key[i], event.code, event.domain));
        }
    }
    if key_matches(key, event) {
        lemma_matches_implies_matches_channel(key, event);
    }
}

/// The keys that the pure parser gives match an event of their namespace exactly when they match
/// its channel.
pub proof fn lemma_pure_parser_keys(key_str: Seq<char>, domains: DomainTracker, event: Event)
    requires
        spec_parses(plain_parser(false, false, false, true, false), key_str),
        event.namespace == Namespace::User,
    ensures
        ({
            let key = spec_parsed_key(plain_parser(false, false, false, true, false), key_str, domains);
            key_matches(key, event) == key_matches_channel(key, event.code, event.domain)
        }),
{
    let p = plain_parser(false, false, false, true, false);
    let parts = spec_key_parts(key_str).unwrap();
    let props = spec_type_properties(p, parts).unwrap();
    let start = seq![PropertyView::Namespace(p.namespace)];
    assert(p.default_value.len() == 0);
    assert(parts.value is None);
    assert(spec_key_body(p, key_str) == Some(props));
    let key = spec_parsed_key(p, key_str, domains);
    assert forall|i: int| 0 <= i < key.len() implies {
        &&& match #[trigger] key[i] {
            PropertyView::Code(_) | PropertyView::Domain(_) | PropertyView::Type(_) | PropertyView::VirtualType(_)
            | PropertyView::Namespace(_) => true,
            _ => false,
        }
        &&& (key[i] matches PropertyView::Namespace(n) ==> n == event.namespace)
    } by {
        if i < props.len() {
            if i > 0 {
                let name = parts.ev_type.unwrap();
                let t = spec_event_type(name).unwrap();
                if parts.code is None {
                    assert(props == start.push(type_only_property(name, EventType { value: t })));
                } else {
                    assert(props == start.push(PropertyView::Code(spec_event_code(name, parts.code.unwrap()).unwrap())));
                }
            }
            assert(key[i] == props[i]);
        }
    }
    assert(only_channel_properties(key));
    lemma_pure_key_matches_channel(key, event);
}

} // verus!
