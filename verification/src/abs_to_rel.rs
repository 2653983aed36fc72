//! Turning the movement of an absolute axis into relative events.

use vstd::prelude::*;

use crate::capability::{CapMatch, Capability};
use crate::event::Event;
use crate::key::{has_affine, key_matches, key_matches_cap, key_merge, key_merge_cap, Key, PropertyView};
use crate::range::Interval;

verus! {

/// Turns events of an absolute axis into relative events that carry how far the axis moved.
pub struct AbsToRel {
    input_key: Key,
    output_key: Key,
    reset_keys: Vec<Key>,
    /// If true, the next event of the axis does not cause a relative event. This is handy when
    /// a finger or a pen is lifted off a surface and put down elsewhere.
    reset: bool,
}

/// The difference of two values, clamped to the values an event can have.
pub open spec fn saturating_difference(a: i32, b: i32) -> i32 {
    let d = a - b;
    if d > i32::MAX {
        i32::MAX
    } else if d < i32::MIN {
        i32::MIN
    } else {
        d as i32
    }
}

fn saturating_sub(a: i32, b: i32) -> (res: i32)
    ensures
        res == saturating_difference(a, b),
{
    let d: i64 = a as i64 - b as i64;
    if d > i32::MAX as i64 {
        i32::MAX
    } else if d < i32::MIN as i64 {
        i32::MIN
    } else {
        d as i32
    }
}

/// Whether one of the keys matches the event.
pub open spec fn any_matches(keys: Seq<Key>, event: Event) -> bool {
    exists|i: int| 0 <= i < keys.len() && key_matches((#[trigger] keys[i])@, event)
}

/// The relative event for an event of the axis: the output key applied to it, with the
/// distance that the axis moved as its value.
pub open spec fn relative_event(output_key: Seq<PropertyView>, event: Event) -> Event {
    Event { value: saturating_difference(event.value, event.previous_value), ..key_merge(output_key, event) }
}

/// The capability of the relative events that events of a capability cause: the output key
/// applied to it, with any value.
pub open spec fn relative_cap(output_key: Seq<PropertyView>, cap: Capability) -> Capability {
    Capability { value_range: Interval { min: i32::MIN, max: i32::MAX }, ..key_merge_cap(output_key, cap) }
}

/// What one event becomes, and whether the axis is reset after it: an event of a reset key
/// resets the axis; an event of the axis becomes a relative event, unless the axis was reset,
/// which it no longer is after the event; other events pass as they are.
pub open spec fn apply_one(
    input_key: Seq<PropertyView>,
    output_key: Seq<PropertyView>,
    reset_keys: Seq<Key>,
    reset: bool,
    event: Event,
) -> (Seq<Event>, bool) {
    let reset = reset || any_matches(reset_keys, event);
    if !key_matches(input_key, event) {
        (seq![event], reset)
    } else if reset {
        (Seq::empty(), false)
    } else {
        (seq![relative_event(output_key, event)], false)
    }
}

/// What the events become, one after another, and whether the axis is reset after them.
pub open spec fn apply_all(
    input_key: Seq<PropertyView>,
    output_key: Seq<PropertyView>,
    reset_keys: Seq<Key>,
    reset: bool,
    events: Seq<Event>,
) -> (Seq<Event>, bool)
    decreases events.len(),
{
    if events.len() == 0 {
        (Seq::empty(), reset)
    } else {
        let (before, reset_before) = apply_all(input_key, output_key, reset_keys, reset, events.drop_last());
        let (last, reset_after) = apply_one(input_key, output_key, reset_keys, reset_before, events.last());
        (before + last, reset_after)
    }
}

impl AbsToRel {
    /// The keys do not scale values.
    pub open spec fn well_formed(&self) -> bool {
        &&& !has_affine(self.input_key_spec())
        &&& !has_affine(self.output_key_spec())
    }

    pub closed spec fn input_key_spec(&self) -> Seq<PropertyView> {
        self.input_key@
    }

    pub closed spec fn output_key_spec(&self) -> Seq<PropertyView> {
        self.output_key@
    }

    pub closed spec fn reset_keys_spec(&self) -> Seq<Key> {
        self.reset_keys@
    }

    /// Whether the next event of the axis causes no relative event.
    pub closed spec fn is_reset(&self) -> bool {
        self.reset
    }

    pub fn new(input_key: Key, output_key: Key, reset_keys: Vec<Key>) -> (res: AbsToRel)
        ensures
            res.input_key_spec() == input_key@,
            res.output_key_spec() == output_key@,
            res.reset_keys_spec() == reset_keys@,
            res.is_reset(),
    {
        AbsToRel { input_key, output_key, reset_keys, reset: true }
    }

    /// Handles one event: an event of a reset key resets the axis; events of the axis are
    /// replaced by relative events, except the first one after a reset; other events pass.
    fn apply(&mut self, event: Event, output_events: &mut Vec<Event>)
        requires
            old(self).well_formed(),
        ensures
            final(self).well_formed(),
            final(self).input_key_spec() == old(self).input_key_spec(),
            final(self).output_key_spec() == old(self).output_key_spec(),
            final(self).reset_keys_spec() == old(self).reset_keys_spec(),
            final(output_events)@ == old(output_events)@ + apply_one(
                old(self).input_key_spec(),
                old(self).output_key_spec(),
                old(self).reset_keys_spec(),
                old(self).is_reset(),
                event,
            ).0,
            final(self).is_reset() == apply_one(
                old(self).input_key_spec(),
                old(self).output_key_spec(),
                old(self).reset_keys_spec(),
                old(self).is_reset(),
                event,
            ).1,
    {
        let mut i: usize = 0;
        let mut reset_matches = false;
        while i < self.reset_keys.len()
            invariant
                i <= self.reset_keys@.len(),
                reset_matches == exists|k: int| 0 <= k < i && key_matches((#[trigger] self.reset_keys@[k])@, event),
            decreases self.reset_keys@.len() - i,
        {
            if self.reset_keys[i].matches(&event) {
                reset_matches = true;
            }
            i += 1;
        }
        if reset_matches {
            self.reset = true;
            // Events of the axis that also reset are handled below.
        }

        proof {
            assert(reset_matches == any_matches(self.reset_keys@, event));
        }
        if !self.input_key.matches(&event) {
            let ghost before = output_events@;
            output_events.push(event);
            proof {
                assert(output_events@ =~= before + seq![event]);
            }
            return;
        }
        if self.reset {
            self.reset = false;
            proof {
                assert(output_events@ =~= old(output_events)@ + Seq::<Event>::empty());
            }
            return;
        }

        let mut event_out = self.output_key.merge(event);
        event_out.value = saturating_sub(event.value, event.previous_value);
        let ghost before = output_events@;
        output_events.push(event_out);
        proof {
            assert(event_out == relative_event(self.output_key@, event));
            assert(output_events@ =~= before + seq![relative_event(self.output_key@, event)]);
        }
    }

    /// Handles each event in turn.
    pub fn apply_to_all(&mut self, events: &[Event], output_events: &mut Vec<Event>)
        requires
            old(self).well_formed(),
        ensures
            final(self).well_formed(),
            final(self).input_key_spec() == old(self).input_key_spec(),
            final(self).output_key_spec() == old(self).output_key_spec(),
            final(self).reset_keys_spec() == old(self).reset_keys_spec(),
            final(output_events)@ == old(output_events)@ + apply_all(
                old(self).input_key_spec(),
                old(self).output_key_spec(),
                old(self).reset_keys_spec(),
                old(self).is_reset(),
                events@,
            ).0,
            final(self).is_reset() == apply_all(
                old(self).input_key_spec(),
                old(self).output_key_spec(),
                old(self).reset_keys_spec(),
                old(self).is_reset(),
                events@,
            ).1,
    {
        let mut i: usize = 0;
        proof {
            assert(events@.take(0) =~= Seq::<Event>::empty());
            assert(output_events@ =~= old(output_events)@ + Seq::<Event>::empty());
        }
        while i < events.len()
            invariant
                i <= events@.len(),
                self.well_formed(),
                self.input_key_spec() == old(self).input_key_spec(),
                self.output_key_spec() == old(self).output_key_spec(),
                self.reset_keys_spec() == old(self).reset_keys_spec(),
                output_events@ == old(output_events)@ + apply_all(
                    old(self).input_key_spec(),
                    old(self).output_key_spec(),
                    old(self).reset_keys_spec(),
                    old(self).is_reset(),
                    events@.take(i as int),
                ).0,
                self.is_reset() == apply_all(
                    old(self).input_key_spec(),
                    old(self).output_key_spec(),
                    old(self).reset_keys_spec(),
                    old(self).is_reset(),
                    events@.take(i as int),
                ).1,
            decreases events@.len() - i,
        {
            proof {
                assert(events@.take(i + 1).drop_last() == events@.take(i as int));
                assert(events@.take(i + 1).last() == events@[i as int]);
            }
            let ghost before = output_events@;
            self.apply(events[i], output_events);
            proof {
                let prefix = apply_all(
                    old(self).input_key_spec(),
                    old(self).output_key_spec(),
                    old(self).reset_keys_spec(),
                    old(self).is_reset(),
                    events@.take(i as int),
                ).0;
                let added = output_events@.subrange(before.len() as int, output_events@.len() as int);
                assert(output_events@ =~= old(output_events)@ + (prefix + added));
            }
            i += 1;
        }
        proof {
            assert(events@.take(events@.len() as int) == events@);
        }
    }

    /// Like `apply`, for a capability: the capabilities that the events of a capability may
    /// become.
    fn apply_cap(&self, cap: Capability, output_caps: &mut Vec<Capability>)
        requires
            self.well_formed(),
        ensures
            final(output_caps)@ == old(output_caps)@ + match key_matches_cap(self.input_key_spec(), cap) {
                CapMatch::Yes => seq![relative_cap(self.output_key_spec(), cap)],
                CapMatch::Maybe => seq![cap, relative_cap(self.output_key_spec(), cap)],
                CapMatch::No => seq![cap],
            },
    {
        let matches_cap = self.input_key.matches_cap(&cap);
        let mut generated_cap = self.output_key.merge_cap(cap);
        generated_cap.value_range = Interval::new(None, None);
        let ghost before = output_caps@;
        match matches_cap {
            CapMatch::Yes => {
                output_caps.push(generated_cap);
            },
            CapMatch::Maybe => {
                output_caps.push(cap);
                output_caps.push(generated_cap);
            },
            CapMatch::No => {
                output_caps.push(cap);
            },
        }
        proof {
            assert(generated_cap == relative_cap(self.output_key_spec(), cap));
            assert(output_caps@ =~= before + match key_matches_cap(self.input_key_spec(), cap) {
                CapMatch::Yes => seq![relative_cap(self.output_key_spec(), cap)],
                CapMatch::Maybe => seq![cap, relative_cap(self.output_key_spec(), cap)],
                CapMatch::No => seq![cap],
            });
        }
    }

    /// Like `apply_to_all`, for capabilities.
    pub fn apply_to_all_caps(&self, caps: &[Capability], output_caps: &mut Vec<Capability>)
        requires
            self.well_formed(),
        ensures
            final(output_caps)@ == old(output_caps)@ + caps_after(self.input_key_spec(), self.output_key_spec(), caps@),
    {
        let mut i: usize = 0;
        proof {
            assert(caps@.take(0) =~= Seq::<Capability>::empty());
            assert(output_caps@ =~= old(output_caps)@ + Seq::<Capability>::empty());
        }
        while i < caps.len()
            invariant
                i <= caps@.len(),
                self.well_formed(),
                output_caps@ == old(output_caps)@ + caps_after(self.input_key_spec(), self.output_key_spec(), caps@.take(i as int)),
            decreases caps@.len() - i,
        {
            proof {
                assert(caps@.take(i + 1).drop_last() == caps@.take(i as int));
                assert(caps@.take(i + 1).last() == caps@[i as int]);
            }
            let ghost before = output_caps@;
            self.apply_cap(caps[i], output_caps);
            proof {
                let prefix = caps_after(self.input_key_spec(), self.output_key_spec(), caps@.take(i as int));
                let added = output_caps@.subrange(before.len() as int, output_caps@.len() as int);
                assert(output_caps@ =~= old(output_caps)@ + (prefix + added));
            }
            i += 1;
        }
        proof {
            assert(caps@.take(caps@.len() as int) == caps@);
        }
    }
}

/// The capabilities that the events of the capabilities may become, in order.
pub open spec fn caps_after(input_key: Seq<PropertyView>, output_key: Seq<PropertyView>, caps: Seq<Capability>) -> Seq<Capability>
    decreases caps.len(),
{
    if caps.len() == 0 {
        Seq::empty()
    } else {
        let cap = caps.last();
        caps_after(input_key, output_key, caps.drop_last()) + match key_matches_cap(input_key, cap) {
            CapMatch::Yes => seq![relative_cap(output_key, cap)],
            CapMatch::Maybe => seq![cap, relative_cap(output_key, cap)],
            CapMatch::No => seq![cap],
        }
    }
}

} // verus!
