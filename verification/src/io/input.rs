//! What an input device remembers of the events that it sent, and when it is grabbed.

use vstd::prelude::*;

use crate::arguments::input::GrabMode;
use crate::domain::Domain;
use crate::event::{Event, EventCode, EventValue, Namespace, EV_KEY};

verus! {

/// No code occurs twice.
pub open spec fn codes_unique(values: Seq<(EventCode, EventValue)>) -> bool {
    forall|i: int, j: int| 0 <= i < j < values.len() ==> (#[trigger] values[i]).0 != (#[trigger] values[j]).0
}

/// The last known value of a code: 0 for a code that was never seen.
pub open spec fn value_of(values: Seq<(EventCode, EventValue)>, code: EventCode) -> EventValue {
    if exists|i: int| 0 <= i < values.len() && (#[trigger] values[i]).0 == code {
        values[choose|i: int| 0 <= i < values.len() && (#[trigger] values[i]).0 == code].1
    } else {
        0
    }
}

/// Whether a code was seen.
pub open spec fn was_seen(values: Seq<(EventCode, EventValue)>, code: EventCode) -> bool {
    exists|i: int| 0 <= i < values.len() && (#[trigger] values[i]).0 == code
}

/// The keys whose last known value is positive, in the order they were first seen.
pub open spec fn pressed(values: Seq<(EventCode, EventValue)>) -> Seq<EventCode>
    decreases values.len(),
{
    if values.len() == 0 {
        Seq::empty()
    } else {
        let rest = pressed(values.drop_last());
        let (code, value) = values.last();
        if code.ev_type.value == EV_KEY && value > 0 {
            rest.push(code)
        } else {
            rest
        }
    }
}

proof fn lemma_value_at(values: Seq<(EventCode, EventValue)>, i: int)
    requires
        codes_unique(values),
        0 <= i < values.len(),
    ensures
        value_of(values, values[i].0) == values[i].1,
        was_seen(values, values[i].0),
{
    let code = values[i].0;
    assert(values[i].0 == code);
    let j = choose|j: int| 0 <= j < values.len() && (#[trigger] values[j]).0 == code;
    if j != i {
        if j < i {
            assert(values[j].0 != values[i].0);
        } else {
            assert(values[i].0 != values[j].0);
        }
    }
}

/// The events that an input device sends, with the value that each code had before.
pub struct InputState {
    domain: Domain,
    /// The last known value of each code that was seen, in the order they were first seen.
    values: Vec<(EventCode, EventValue)>,
}

impl InputState {
    pub closed spec fn domain_spec(&self) -> Domain {
        self.domain
    }

    /// The last known values, each code once, in the order they were first seen.
    pub closed spec fn values_spec(&self) -> Seq<(EventCode, EventValue)> {
        self.values@
    }

    pub open spec fn well_formed(&self) -> bool {
        codes_unique(self.values_spec())
    }

    /// A device that sent nothing yet, whose events get the given domain.
    pub fn new(domain: Domain) -> (res: InputState)
        ensures
            res.well_formed(),
            res.domain_spec() == domain,
            res.values_spec() == Seq::<(EventCode, EventValue)>::empty(),
    {
        InputState { domain, values: Vec::new() }
    }

    pub fn domain(&self) -> (res: Domain)
        ensures
            res == self.domain_spec(),
    {
        self.domain
    }

    /// The event for a value that the device reports for a code: it carries the value that
    /// the code had before, and the new value is remembered.
    pub fn synthesize_event(&mut self, code: EventCode, value: EventValue) -> (res: Event)
        requires
            old(self).well_formed(),
        ensures
            res == (Event {
                code,
                value,
                previous_value: value_of(old(self).values_spec(), code),
                domain: old(self).domain_spec(),
                namespace: Namespace::Input,
            }),
            final(self).well_formed(),
            final(self).domain_spec() == old(self).domain_spec(),
            value_of(final(self).values_spec(), code) == value,
            forall|other: EventCode| other != code ==> value_of(final(self).values_spec(), other)
                == value_of(old(self).values_spec(), other),
            forall|other: EventCode| was_seen(final(self).values_spec(), other)
                <==> (other == code || was_seen(old(self).values_spec(), other)),
            final(self).values_spec() == if was_seen(old(self).values_spec(), code) {
                old(self).values_spec().update(
                    choose|i: int| 0 <= i < old(self).values_spec().len() && (#[trigger] old(self).values_spec()[i]).0 == code,
                    (code, value),
                )
            } else {
                old(self).values_spec().push((code, value))
            },
    {
        let ghost before = self.values@;
        let mut i: usize = 0;
        while i < self.values.len()
            invariant
                i <= self.values@.len(),
                self.values@ == before,
                before == old(self).values@,
                self.domain == old(self).domain,
                codes_unique(before),
                forall|k: int| 0 <= k < i ==> (#[trigger] before[k]).0 != code,
            decreases self.values@.len() - i,
        {
            if self.values[i].0 == code {
                let previous_value = self.values[i].1;
                proof {
                    lemma_value_at(before, i as int);
                    let j = choose|j: int| 0 <= j < before.len() && (#[trigger] before[j]).0 == code;
                    lemma_value_at(before, j);
                    if j != i {
                        if j < i {
                            assert(before[j].0 != before[i as int].0);
                        } else {
                            assert(before[i as int].0 != before[j].0);
                        }
                    }
                }
                self.values.set(i, (code, value));
                proof {
                    let after = self.values@;
                    assert(after == before.update(i as int, (code, value)));
                    assert forall|a: int, b: int| 0 <= a < b < after.len() implies (#[trigger] after[a]).0
                        != (#[trigger] after[b]).0 by {
                        if a != i && b != i {
                            assert(before[a].0 != before[b].0);
                        } else if a == i {
                            assert(before[a].0 != before[b].0);
                        } else {
                            assert(before[a].0 != before[b].0);
                        }
                    }
                    lemma_value_at(after, i as int);
                    assert forall|other: EventCode| other != code implies value_of(after, other) == value_of(before, other) by {
                        if was_seen(before, other) {
                            let k = choose|k: int| 0 <= k < before.len() && (#[trigger] before[k]).0 == other;
                            lemma_value_at(before, k);
                            assert(after[k] == before[k]);
                            lemma_value_at(after, k);
                        } else {
                            assert forall|k: int| 0 <= k < after.len() implies (#[trigger] after[k]).0 != other by {
                                if k != i {
                                    assert(after[k] == before[k]);
                                }
                            }
                        }
                    }
                    assert forall|other: EventCode| was_seen(after, other) <==> (other == code || was_seen(before, other)) by {
                        if was_seen(after, other) {
                            let k = choose|k: int| 0 <= k < after.len() && (#[trigger] after[k]).0 == other;
                            if k != i {
                                assert(before[k] == after[k]);
                            }
                        }
                        if was_seen(before, other) {
                            let k = choose|k: int| 0 <= k < before.len() && (#[trigger] before[k]).0 == other;
                            if k != i {
                                assert(before[k] == after[k]);
                            } else {
                                assert(after[k].0 == code);
                            }
                        }
                    }
                }
                return Event::new(code, value, previous_value, self.domain, Namespace::Input);
            }
            i += 1;
        }
        proof {
            assert(!was_seen(before, code));
        }
        self.values.push((code, value));
        proof {
            let after = self.values@;
            assert(after == before.push((code, value)));
            assert forall|a: int, b: int| 0 <= a < b < after.len() implies (#[trigger] after[a]).0 != (#[trigger] after[b]).0 by {
                if b < before.len() {
                    assert(before[a].0 != before[b].0);
                } else {
                    assert(after[a] == before[a]);
                }
            }
            lemma_value_at(after, before.len() as int);
            assert forall|other: EventCode| other != code implies value_of(after, other) == value_of(before, other) by {
                if was_seen(before, other) {
                    let k = choose|k: int| 0 <= k < before.len() && (#[trigger] before[k]).0 == other;
                    lemma_value_at(before, k);
                    assert(after[k] == before[k]);
                    lemma_value_at(after, k);
                } else {
                    assert forall|k: int| 0 <= k < after.len() implies (#[trigger] after[k]).0 != other by {
                        if k < before.len() {
                            assert(after[k] == before[k]);
                        }
                    }
                }
            }
            assert forall|other: EventCode| was_seen(after, other) <==> (other == code || was_seen(before, other)) by {
                if was_seen(after, other) {
                    let k = choose|k: int| 0 <= k < after.len() && (#[trigger] after[k]).0 == other;
                    if k < before.len() {
                        assert(before[k] == after[k]);
                    }
                }
                if was_seen(before, other) {
                    let k = choose|k: int| 0 <= k < before.len() && (#[trigger] before[k]).0 == other;
                    assert(before[k] == after[k]);
                }
                if other == code {
                    assert(after[before.len() as int].0 == code);
                }
            }
        }
        Event::new(code, value, 0, self.domain, Namespace::Input)
    }

    /// The keys that are held down according to the last known values, in the order they were
    /// first seen.
    pub fn pressed_keys(&self) -> (res: Vec<EventCode>)
        ensures
            res@ == pressed(self.values_spec()),
    {
        let mut res: Vec<EventCode> = Vec::new();
        let mut i: usize = 0;
        proof {
            assert(self.values@.take(0) =~= Seq::<(EventCode, EventValue)>::empty());
        }
        while i < self.values.len()
            invariant
                i <= self.values@.len(),
                res@ == pressed(self.values@.take(i as int)),
            decreases self.values@.len() - i,
        {
            proof {
                assert(self.values@.take(i + 1).drop_last() == self.values@.take(i as int));
                assert(self.values@.take(i + 1).last() == self.values@[i as int]);
            }
            let (code, value) = self.values[i];
            if code.ev_type.value == EV_KEY && value > 0 {
                res.push(code);
            }
            i += 1;
        }
        proof {
            assert(self.values@.take(self.values@.len() as int) == self.values@);
        }
        res
    }
}

/// Whether a device should be grabbed now: not when it is grabbed already; with the force mode
/// always; with the auto mode only while no key is held down, so that no key stays stuck.
pub open spec fn spec_should_grab(grabbed: bool, mode: GrabMode, keys_held: bool) -> bool {
    !grabbed && (mode == GrabMode::Force || (mode == GrabMode::Auto && !keys_held))
}

pub fn should_grab(grabbed: bool, mode: GrabMode, keys_held: bool) -> (res: bool)
    ensures
        res == spec_should_grab(grabbed, mode, keys_held),
{
    if grabbed {
        return false;
    }
    match mode {
        GrabMode::Off => false,
        GrabMode::Force => true,
        GrabMode::Auto => !keys_held,
    }
}

} // verus!
