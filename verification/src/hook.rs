//! Hooks: watching whether a set of keys is held down at once.
//!
//! A trigger keeps one tracker for each key. A tracker is active while its key is held down; the
//! trigger activates when all trackers are active at once, and releases when one of them stops
//! being active afterwards. With a period, a tracker that was pressed expires after that period,
//! so that all keys have to be pressed within it.
//!
//! What a hook does when it activates or releases besides sending keys (running commands, changing
//! toggles) is kept by the caller, which learns from `Hook::apply` when to do it.

use vstd::prelude::*;

use crate::capability::{CapMatch, Capability};
use crate::event::{Event, EventCode};
use crate::domain::Domain;
use crate::key::{has_affine, key_matches, key_matches_cap, key_matches_channel, key_merge, key_merge_cap, last_value,
    without_values, Key, PropertyView};
use crate::loopback::{Loopback, LoopbackHandle, Token};
use crate::range::Interval;
use crate::time::{Duration, Instant};

verus! {

/// The moment after which a pressed tracker no longer counts.
#[derive(PartialEq, Eq, Debug, Structural)]
pub enum ExpirationTime {
    Never,
    /// When the wakeup of this token comes.
    Until(Token),
}

#[derive(PartialEq, Eq, Debug, Structural)]
pub enum TrackerState {
    /// The key is held down, and the tracker counts until the given time.
    Active(ExpirationTime),
    /// The key is not held down.
    Inactive,
    /// The key was held down too long, and does not count again until it is released.
    Expired,
}

impl TrackerState {
    pub fn is_active(&self) -> (res: bool)
        ensures
            res == (*self is Active),
    {
        match self {
            TrackerState::Active(_) => true,
            TrackerState::Inactive | TrackerState::Expired => false,
        }
    }
}

/// Tracks whether one key is held down.
struct Tracker {
    key: Key,
    /// The values at which the key counts as held down.
    range: Interval,
    state: TrackerState,
}

/// A tracker as plain values.
pub struct TrackerView {
    pub key: Seq<PropertyView>,
    pub range: Interval,
    pub state: TrackerState,
}

impl Tracker {
    spec fn view(&self) -> TrackerView {
        TrackerView { key: self.key@, range: self.range, state: self.state }
    }

    fn new(key: Key) -> (res: Tracker)
        requires
            !has_affine(key@),
        ensures
            res.view() == tracker_for(key@),
            !has_affine(res.key@),
    {
        let mut key = key;
        let ghost original = key@;
        let popped = key.pop_value();
        proof {
            lemma_without_values_has_no_affine(original);
        }
        let range = match popped {
            Some(r) => r,
            None => Interval { min: 1, max: i32::MAX },
        };
        Tracker { key, range, state: TrackerState::Inactive }
    }

    /// Like cloning, but the copy starts inactive.
    fn clone_empty(&self) -> (res: Tracker)
        requires
            !has_affine(self.key@),
        ensures
            res.view() == (TrackerView { state: TrackerState::Inactive, ..self.view() }),
    {
        Tracker { key: self.key.duplicate(), range: self.range, state: TrackerState::Inactive }
    }
}

proof fn lemma_without_values_has_no_affine(k: Seq<PropertyView>)
    ensures
        !has_affine(k) ==> !has_affine(without_values(k)),
    decreases k.len(),
{
    if k.len() > 0 {
        lemma_without_values_has_no_affine(k.drop_first());
        if !has_affine(k) {
            assert forall|i: int| 0 <= i < k.drop_first().len() implies !(#[trigger] k.drop_first()[i] is AffineFactor) by {
                assert(k.drop_first()[i] == k[i + 1]);
            }
            if !(k[0] is Value) {
                let w = seq![k[0]] + without_values(k.drop_first());
                assert forall|i: int| 0 <= i < w.len() implies !(#[trigger] w[i] is AffineFactor) by {
                    if i > 0 {
                        assert(w[i] == without_values(k.drop_first())[i - 1]);
                    }
                }
            }
        }
    }
}

/// The tracker of a key: the key without its value, which becomes the range at which the key counts
/// as pressed; without a value, any positive value counts.
pub open spec fn tracker_for(key: Seq<PropertyView>) -> TrackerView {
    TrackerView {
        key: without_values(key),
        range: match last_value(key) {
            Some(r) => r,
            None => Interval { min: 1, max: i32::MAX },
        },
        state: TrackerState::Inactive,
    }
}

/// What an event did to a trigger.
#[derive(Clone, Copy, PartialEq, Eq, Debug, Structural)]
pub enum TriggerResponse {
    /// The event does not concern the trigger.
    Unaffected,
    /// The event matches the key of a tracker, which may or may not have changed.
    Matches,
    /// The trigger activated: its effects are due.
    Activates,
    /// The trigger released: its release effects are due.
    Releases,
}

/// Whether a tracker is active after an event, before the trigger reacts to the whole.
pub open spec fn active_after(t: TrackerView, event: Event) -> bool {
    if !key_matches(t.key, event) {
        t.state is Active
    } else if !t.range.has(event.value as int) {
        false
    } else {
        !(t.state is Expired)
    }
}

/// The state of a tracker after an event, up to what a newly pressed tracker expires at.
pub open spec fn step_state(t: TrackerView, event: Event, n: TrackerState) -> bool {
    if !key_matches(t.key, event) {
        n == t.state
    } else if !t.range.has(event.value as int) {
        n is Inactive
    } else {
        match t.state {
            TrackerState::Inactive => n is Active,
            _ => n == t.state,
        }
    }
}

/// When a newly pressed tracker expires: never without a period, and otherwise at the wakeup of a
/// token that was added to the schedule, due a period after the handle's now.
pub open spec fn fresh_expiration(
    e: ExpirationTime,
    period: Option<Duration>,
    old_schedule: Seq<(Instant, Token)>,
    new_schedule: Seq<(Instant, Token)>,
    now: Option<Instant>,
) -> bool {
    match period {
        None => e is Never,
        Some(p) => e matches ExpirationTime::Until(token) && exists|k: int|
            old_schedule.len() <= k < new_schedule.len() && (#[trigger] new_schedule[k]).1 == token
                && now is Some && new_schedule[k].0@ == now.unwrap()@ + p@,
    }
}

/// The moment that a handle takes as its now: its own, or else the clock.
pub open spec fn handle_now(handle: LoopbackHandle, clock: Instant) -> Instant {
    match handle.now {
        Some(t) => t,
        None => clock,
    }
}

/// Keeps track of when a hook is to activate.
pub struct Trigger {
    /// If set, all trackers must be pressed within this period of each other.
    period: Option<Duration>,
    trackers: Vec<Tracker>,
    /// Whether all trackers were active after the last event.
    active: bool,
}

impl Trigger {
    pub closed spec fn period(&self) -> Option<Duration> {
        self.period
    }

    pub closed spec fn trackers(&self) -> Seq<TrackerView> {
        self.trackers@.map_values(|t: Tracker| t.view())
    }

    pub closed spec fn is_active(&self) -> bool {
        self.active
    }

    /// The keys of the trackers make no relative values.
    pub open spec fn well_formed(&self) -> bool {
        forall|i: int| 0 <= i < self.trackers().len() ==> !has_affine(#[trigger] self.trackers()[i].key)
    }

    /// A trigger with a tracker for each key, none of them active.
    pub fn new(keys: Vec<Key>, period: Option<Duration>) -> (res: Trigger)
        requires
            forall|i: int| 0 <= i < keys@.len() ==> !has_affine(#[trigger] keys@[i]@),
        ensures
            res.well_formed(),
            res.period() == period,
            !res.is_active(),
            res.trackers().len() == keys@.len(),
            forall|i: int| 0 <= i < keys@.len() ==> #[trigger] res.trackers()[i] == tracker_for(keys@[i]@),
    {
        let mut keys = keys;
        let ghost original = keys@;
        let mut trackers: Vec<Tracker> = Vec::new();
        let mut i: usize = 0;
        let n = keys.len();
        // Taken from the back, so that each key can be moved out.
        let mut reversed: Vec<Tracker> = Vec::new();
        while keys.len() > 0
            invariant
                keys@ == original.take(keys@.len() as int),
                keys@.len() <= original.len(),
                forall|j: int| 0 <= j < original.len() ==> !has_affine(#[trigger] original[j]@),
                reversed@.len() == original.len() - keys@.len(),
                forall|j: int| 0 <= j < reversed@.len() ==> (#[trigger] reversed@[j]).view()
                    == tracker_for(original[original.len() - 1 - j]@)
                    && !has_affine(reversed@[j].key@),
            decreases keys@.len(),
        {
            let ghost before = keys@;
            let key = keys.pop().unwrap();
            proof {
                assert(key == original[before.len() - 1]);
                assert(keys@ == original.take(keys@.len() as int));
            }
            reversed.push(Tracker::new(key));
        }
        while reversed.len() > 0
            invariant
                i == trackers@.len(),
                reversed@.len() + i == n,
                n == original.len(),
                forall|j: int| 0 <= j < reversed@.len() ==> (#[trigger] reversed@[j]).view()
                    == tracker_for(original[original.len() - 1 - j]@)
                    && !has_affine(reversed@[j].key@),
                forall|j: int| 0 <= j < i ==> (#[trigger] trackers@[j]).view() == tracker_for(original[j]@)
                    && !has_affine(trackers@[j].key@),
            decreases reversed@.len(),
        {
            let t = reversed.pop().unwrap();
            trackers.push(t);
            i += 1;
        }
        let res = Trigger { period, trackers, active: false };
        proof {
            assert forall|j: int| 0 <= j < res.trackers().len() implies !has_affine(#[trigger] res.trackers()[j].key) by {
                assert(res.trackers()[j] == res.trackers@[j].view());
            }
            assert forall|j: int| 0 <= j < original.len() implies #[trigger] res.trackers()[j] == tracker_for(original[j]@) by {
                assert(res.trackers()[j] == res.trackers@[j].view());
            }
        }
        res
    }

    /// Hands an event to the trackers whose keys match it, and reports what that did to the trigger.
    /// A tracker that is pressed anew gets a wakeup a period from the handle's now, if there is a
    /// period; `clock` is the real time, used if the handle has no now yet.
    pub fn apply(&mut self, event: Event, handle: &mut LoopbackHandle, loopback: &mut Loopback, clock: Instant)
        -> (res: TriggerResponse)
        requires
            old(self).well_formed(),
            old(self).period() matches Some(p) ==> handle_now(*old(handle), clock)@ + p@ <= u64::MAX,
        ensures
            final(self).well_formed(),
            final(self).period() == old(self).period(),
            final(self).trackers().len() == old(self).trackers().len(),
            forall|i: int| 0 <= i < old(self).trackers().len() ==> {
                &&& (#[trigger] final(self).trackers()[i]).key == old(self).trackers()[i].key
                &&& final(self).trackers()[i].range == old(self).trackers()[i].range
            },
            res == (if !(exists|i: int| 0 <= i < old(self).trackers().len()
                && key_matches(#[trigger] old(self).trackers()[i].key, event)) {
                TriggerResponse::Unaffected
            } else if !old(self).is_active() && (forall|i: int| 0 <= i < old(self).trackers().len()
                ==> active_after(#[trigger] old(self).trackers()[i], event)) {
                TriggerResponse::Activates
            } else if old(self).is_active() && !(forall|i: int| 0 <= i < old(self).trackers().len()
                ==> active_after(#[trigger] old(self).trackers()[i], event)) {
                TriggerResponse::Releases
            } else {
                TriggerResponse::Matches
            }),
            res is Unaffected ==> final(self).trackers() == old(self).trackers() && final(self).is_active() == old(self).is_active(),
            res is Activates ==> final(self).is_active() && forall|i: int| 0 <= i < final(self).trackers().len()
                ==> (#[trigger] final(self).trackers()[i]).state == TrackerState::Active(ExpirationTime::Never),
            !(res is Activates) ==> {
                &&& final(self).is_active() == (old(self).is_active() && !(res is Releases))
                &&& forall|i: int| 0 <= i < old(self).trackers().len()
                    ==> step_state(old(self).trackers()[i], event, (#[trigger] final(self).trackers()[i]).state)
                &&& forall|i: int| 0 <= i < old(self).trackers().len()
                    && key_matches(old(self).trackers()[i].key, event)
                    && old(self).trackers()[i].range.has(event.value as int)
                    && old(self).trackers()[i].state is Inactive
                    ==> fresh_expiration(
                        (#[trigger] final(self).trackers()[i]).state->Active_0,
                        old(self).period(),
                        old(loopback).schedule(),
                        final(loopback).schedule(),
                        final(handle).now,
                    )
            },
            old(loopback).schedule().len() <= final(loopback).schedule().len(),
            final(loopback).schedule().take(old(loopback).schedule().len() as int) == old(loopback).schedule(),
            final(handle).now == old(handle).now || (old(handle).now is None && final(handle).now == Some(clock)),
    {
        let ghost old_trackers = self.trackers();
        let ghost old_schedule = loopback.schedule();
        let ghost old_now = handle.now;
        let mut any_matched = false;
        let mut i: usize = 0;
        while i < self.trackers.len()
            invariant
                i <= self.trackers@.len(),
                self.trackers@.len() == old_trackers.len(),
                self.period == old(self).period,
                self.active == old(self).active,
                old_trackers == old(self).trackers(),
                old_schedule == old(loopback).schedule(),
                old_now == old(handle).now,
                self.period matches Some(p) ==> handle_now(*handle, clock)@ + p@ <= u64::MAX,
                handle.now == old_now || (old_now is None && handle.now == Some(clock)),
                handle_now(*handle, clock) == handle_now(*old(handle), clock),
                old_schedule.len() <= loopback.schedule().len(),
                loopback.schedule().take(old_schedule.len() as int) == old_schedule,
                any_matched == exists|j: int| 0 <= j < i && key_matches(#[trigger] old_trackers[j].key, event),
                forall|j: int| 0 <= j < self.trackers@.len() ==> {
                    &&& (#[trigger] self.trackers@[j]).key == old(self).trackers@[j].key
                    &&& self.trackers@[j].range == old(self).trackers@[j].range
                    &&& old_trackers[j] == old(self).trackers@[j].view()
                },
                forall|j: int| i <= j < self.trackers@.len() ==> (#[trigger] self.trackers@[j]).state == old_trackers[j].state,
                forall|j: int| 0 <= j < i ==> step_state(old_trackers[j], event, (#[trigger] self.trackers@[j]).state),
                forall|j: int| 0 <= j < i && key_matches(old_trackers[j].key, event)
                    && old_trackers[j].range.has(event.value as int) && old_trackers[j].state is Inactive
                    ==> fresh_expiration((#[trigger] self.trackers@[j]).state->Active_0, self.period, old_schedule,
                        loopback.schedule(), handle.now),
                !any_matched ==> loopback.schedule() == old_schedule && handle.now == old_now,
            decreases self.trackers@.len() - i,
        {
            proof {
                assert(old_trackers[i as int] == old(self).trackers@[i as int].view());
                assert(old_trackers[i as int].key == self.trackers@[i as int].key@);
            }
            if self.trackers[i].key.matches(&event) {
                proof {
                    assert(key_matches(old_trackers[i as int].key, event));
                }
                any_matched = true;
                if self.trackers[i].range.contains(event.value) {
                    let inactive = match self.trackers[i].state {
                        TrackerState::Inactive => true,
                        _ => false,
                    };
                    if inactive {
                        let ghost sched_before = loopback.schedule();
                        let expiration = match self.period {
                            Some(p) => ExpirationTime::Until(handle.schedule_wakeup_in(loopback, p, clock)),
                            None => ExpirationTime::Never,
                        };
                        proof {
                            if self.period is Some {
                                let s = loopback.schedule();
                                assert(s.drop_last() == sched_before);
                                assert(s.take(old_schedule.len() as int) == old_schedule) by {
                                    assert(sched_before.take(old_schedule.len() as int) == old_schedule);
                                    assert forall|k: int| 0 <= k < old_schedule.len() implies s[k] == old_schedule[k] by {
                                        assert(s[k] == sched_before[k]);
                                        assert(sched_before.take(old_schedule.len() as int)[k] == sched_before[k]);
                                    }
                                }
                                assert(s[s.len() - 1] == s.last());
                                // Entries that earlier trackers got stay in the schedule.
                                assert forall|j: int| 0 <= j < i && key_matches(old_trackers[j].key, event)
                                    && old_trackers[j].range.has(event.value as int) && old_trackers[j].state is Inactive
                                    implies fresh_expiration((#[trigger] self.trackers@[j]).state->Active_0, self.period,
                                    old_schedule, s, handle.now) by {
                                    let token = self.trackers@[j].state->Active_0->Until_0;
                                    let k = choose|k: int| old_schedule.len() <= k < sched_before.len()
                                        && (#[trigger] sched_before[k]).1 == token;
                                    assert(s[k] == sched_before[k]);
                                }
                            }
                        }
                        self.trackers[i].state = TrackerState::Active(expiration);
                        proof {
                            if self.period is Some {
                                let s = loopback.schedule();
                                assert(s[s.len() - 1] == s.last());
                            }
                        }
                    }
                } else {
                    self.trackers[i].state = TrackerState::Inactive;
                }
            }
            i += 1;
        }
        if !any_matched {
            proof {
                assert(self.trackers() =~= old(self).trackers());
                assert(self.trackers@ =~= old(self).trackers@) by {
                    assert forall|j: int| 0 <= j < self.trackers@.len() implies self.trackers@[j] == old(self).trackers@[j] by {
                        assert(old_trackers[j] == old(self).trackers@[j].view());
                        assert(!key_matches(old_trackers[j].key, event));
                        assert(self.trackers@[j].state == old_trackers[j].state);
                    }
                }
            }
            return TriggerResponse::Unaffected;
        }
        let mut all_active = true;
        let mut k: usize = 0;
        while k < self.trackers.len()
            invariant
                k <= self.trackers@.len(),
                self.trackers@.len() == old_trackers.len(),
                self.period == old(self).period,
                self.active == old(self).active,
                forall|j: int| 0 <= j < self.trackers@.len() ==> {
                    &&& (#[trigger] self.trackers@[j]).key == old(self).trackers@[j].key
                    &&& self.trackers@[j].range == old(self).trackers@[j].range
                    &&& old_trackers[j] == old(self).trackers@[j].view()
                },
                forall|j: int| 0 <= j < self.trackers@.len() ==> step_state(old_trackers[j], event, (#[trigger] self.trackers@[j]).state),
                all_active == forall|j: int| 0 <= j < k ==> active_after(#[trigger] old_trackers[j], event),
            decreases self.trackers@.len() - k,
        {
            proof {
                assert(step_state(old_trackers[k as int], event, self.trackers@[k as int].state));
            }
            if !self.trackers[k].state.is_active() {
                all_active = false;
            }
            k += 1;
        }
        let res = if !self.active && all_active {
            self.active = true;
            let mut m: usize = 0;
            while m < self.trackers.len()
                invariant
                    m <= self.trackers@.len(),
                    self.trackers@.len() == old_trackers.len(),
                    self.period == old(self).period,
                    self.active,
                    forall|j: int| 0 <= j < self.trackers@.len() ==> {
                        &&& (#[trigger] self.trackers@[j]).key == old(self).trackers@[j].key
                        &&& self.trackers@[j].range == old(self).trackers@[j].range
                        &&& old_trackers[j] == old(self).trackers@[j].view()
                    },
                    forall|j: int| 0 <= j < m ==> (#[trigger] self.trackers@[j]).state == TrackerState::Active(ExpirationTime::Never),
                decreases self.trackers@.len() - m,
            {
                self.trackers[m].state = TrackerState::Active(ExpirationTime::Never);
                m += 1;
            }
            TriggerResponse::Activates
        } else if self.active && !all_active {
            self.active = false;
            TriggerResponse::Releases
        } else {
            TriggerResponse::Matches
        };
        proof {
            assert forall|j: int| 0 <= j < self.trackers().len() implies {
                &&& (#[trigger] self.trackers()[j]).key == old(self).trackers()[j].key
                &&& self.trackers()[j].range == old(self).trackers()[j].range
                &&& !has_affine(self.trackers()[j].key)
            } by {
                assert(self.trackers()[j] == self.trackers@[j].view());
                assert(old_trackers[j] == old(self).trackers@[j].view());
            }
            assert forall|j: int| 0 <= j < self.trackers().len() implies #[trigger] self.trackers()[j].state == self.trackers@[j].state by {
                assert(self.trackers()[j] == self.trackers@[j].view());
            }
            assert(exists|j: int| 0 <= j < old_trackers.len() && key_matches(#[trigger] old_trackers[j].key, event));
        }
        res
    }

    /// Lets the trackers that expire at the wakeup of this token expire. Tokens are unique, so
    /// only trackers that were pressed with this token are affected. Returns whether any expired.
    pub fn wakeup(&mut self, token: &Token) -> (res: bool)
        requires
            old(self).well_formed(),
        ensures
            final(self).well_formed(),
            final(self).period() == old(self).period(),
            final(self).is_active() == old(self).is_active(),
            final(self).trackers().len() == old(self).trackers().len(),
            forall|i: int| 0 <= i < old(self).trackers().len() ==> {
                &&& (#[trigger] final(self).trackers()[i]).key == old(self).trackers()[i].key
                &&& final(self).trackers()[i].range == old(self).trackers()[i].range
                &&& final(self).trackers()[i].state == (if old(self).trackers()[i].state
                    == TrackerState::Active(ExpirationTime::Until(*token)) {
                    TrackerState::Expired
                } else {
                    old(self).trackers()[i].state
                })
            },
            res == exists|i: int| 0 <= i < old(self).trackers().len()
                && (#[trigger] old(self).trackers()[i]).state == TrackerState::Active(ExpirationTime::Until(*token)),
    {
        let ghost old_trackers = self.trackers();
        let mut result = false;
        let mut i: usize = 0;
        while i < self.trackers.len()
            invariant
                i <= self.trackers@.len(),
                self.trackers@.len() == old_trackers.len(),
                self.period == old(self).period,
                self.active == old(self).active,
                old_trackers == old(self).trackers(),
                forall|j: int| 0 <= j < self.trackers@.len() ==> {
                    &&& (#[trigger] self.trackers@[j]).key@ == old_trackers[j].key
                    &&& self.trackers@[j].range == old_trackers[j].range
                },
                forall|j: int| i <= j < self.trackers@.len() ==> (#[trigger] self.trackers@[j]).state == old_trackers[j].state,
                forall|j: int| 0 <= j < i ==> (#[trigger] self.trackers@[j]).state == (if old_trackers[j].state
                    == TrackerState::Active(ExpirationTime::Until(*token)) {
                    TrackerState::Expired
                } else {
                    old_trackers[j].state
                }),
                result == exists|j: int| 0 <= j < i
                    && (#[trigger] old_trackers[j]).state == TrackerState::Active(ExpirationTime::Until(*token)),
            decreases self.trackers@.len() - i,
        {
            proof {
                assert(old_trackers[i as int] == old(self).trackers@[i as int].view());
            }
            let expires = match &self.trackers[i].state {
                TrackerState::Active(ExpirationTime::Until(other)) => *other == *token,
                _ => false,
            };
            if expires {
                self.trackers[i].state = TrackerState::Expired;
                result = true;
            }
            i += 1;
        }
        proof {
            assert forall|j: int| 0 <= j < self.trackers().len() implies {
                &&& (#[trigger] self.trackers()[j]).key == old(self).trackers()[j].key
                &&& self.trackers()[j].range == old(self).trackers()[j].range
                &&& !has_affine(self.trackers()[j].key)
            } by {
                assert(self.trackers()[j] == self.trackers@[j].view());
            }
            assert forall|j: int| 0 <= j < self.trackers().len() implies #[trigger] self.trackers()[j].state == self.trackers@[j].state by {
                assert(self.trackers()[j] == self.trackers@[j].view());
            }
        }
        result
    }

    /// Whether an active tracker might have been pressed by an event of this channel.
    pub fn has_active_tracker_matching_channel(&self, channel: (EventCode, Domain)) -> (res: bool)
        ensures
            res == exists|i: int| 0 <= i < self.trackers().len() && (#[trigger] self.trackers()[i]).state is Active
                && key_matches_channel(self.trackers()[i].key, channel.0, channel.1),
    {
        let mut i: usize = 0;
        while i < self.trackers.len()
            invariant
                i <= self.trackers@.len(),
                forall|j: int| 0 <= j < i ==> !((#[trigger] self.trackers()[j]).state is Active
                    && key_matches_channel(self.trackers()[j].key, channel.0, channel.1)),
            decreases self.trackers@.len() - i,
        {
            proof {
                assert(self.trackers()[i as int] == self.trackers@[i as int].view());
            }
            if self.trackers[i].state.is_active() && self.trackers[i].key.matches_channel(channel) {
                return true;
            }
            i += 1;
        }
        false
    }

    /// Whether an event of this channel might press a tracker.
    pub fn has_tracker_matching_channel(&self, channel: (EventCode, Domain)) -> (res: bool)
        ensures
            res == exists|i: int| 0 <= i < self.trackers().len()
                && key_matches_channel((#[trigger] self.trackers()[i]).key, channel.0, channel.1),
    {
        let mut i: usize = 0;
        while i < self.trackers.len()
            invariant
                i <= self.trackers@.len(),
                forall|j: int| 0 <= j < i ==> !key_matches_channel((#[trigger] self.trackers()[j]).key, channel.0, channel.1),
            decreases self.trackers@.len() - i,
        {
            proof {
                assert(self.trackers()[i as int] == self.trackers@[i as int].view());
            }
            if self.trackers[i].key.matches_channel(channel) {
                return true;
            }
            i += 1;
        }
        false
    }

    /// Like cloning, but the copy starts with no tracker active.
    pub fn clone_empty(&self) -> (res: Trigger)
        requires
            self.well_formed(),
        ensures
            res.well_formed(),
            res.period() == self.period(),
            !res.is_active(),
            res.trackers().len() == self.trackers().len(),
            forall|i: int| 0 <= i < self.trackers().len() ==> #[trigger] res.trackers()[i]
                == (TrackerView { state: TrackerState::Inactive, ..self.trackers()[i] }),
    {
        let mut trackers: Vec<Tracker> = Vec::new();
        let mut i: usize = 0;
        while i < self.trackers.len()
            invariant
                i <= self.trackers@.len(),
                self.well_formed(),
                trackers@.len() == i,
                forall|j: int| 0 <= j < i ==> (#[trigger] trackers@[j]).view()
                    == (TrackerView { state: TrackerState::Inactive, ..self.trackers()[j] }),
            decreases self.trackers@.len() - i,
        {
            proof {
                assert(self.trackers()[i as int] == self.trackers@[i as int].view());
                assert(!has_affine(self.trackers()[i as int].key));
            }
            trackers.push(self.trackers[i].clone_empty());
            i += 1;
        }
        let res = Trigger { period: self.period, trackers, active: false };
        proof {
            assert forall|j: int| 0 <= j < res.trackers().len() implies #[trigger] res.trackers()[j]
                == (TrackerView { state: TrackerState::Inactive, ..self.trackers()[j] }) by {
                assert(res.trackers()[j] == res.trackers@[j].view());
            }
        }
        res
    }

    /// The keys of the trackers.
    fn keys(&self) -> (res: &Vec<Tracker>)
        ensures
            res@.map_values(|t: Tracker| t.view()) == self.trackers(),
    {
        &self.trackers
    }
}

/// The event that a send-key makes: the key applied to the event, with the given value.
pub open spec fn sent_event(key: Seq<PropertyView>, event: Event, value: i32) -> Event {
    Event { value, ..key_merge(key, event) }
}

/// The events that the send-keys make, in order.
pub open spec fn sent_events(keys: Seq<Seq<PropertyView>>, event: Event, value: i32) -> Seq<Event> {
    keys.map_values(|k: Seq<PropertyView>| sent_event(k, event, value))
}

/// The capability that a send-key adds for a capability that may fire the hook: values 0 and 1.
pub open spec fn sent_cap(key: Seq<PropertyView>, cap: Capability) -> Capability {
    Capability { value_range: Interval { min: 0, max: 1 }, ..key_merge_cap(key, cap) }
}

/// Whether events of a capability may press one of the trackers.
pub open spec fn may_fire(trackers: Seq<TrackerView>, cap: Capability) -> bool {
    exists|i: int| 0 <= i < trackers.len() && key_matches_cap((#[trigger] trackers[i]).key, cap) != CapMatch::No
}

/// Sends key events when a hook activates and releases.
pub struct EventDispatcher {
    send_keys: Vec<Key>,
    /// The last event that activated the hook.
    activating_event: Option<Event>,
}

impl EventDispatcher {
    pub closed spec fn send_keys(&self) -> Seq<Seq<PropertyView>> {
        self.send_keys@.map_values(|k: Key| k@)
    }

    pub closed spec fn activating_event(&self) -> Option<Event> {
        self.activating_event
    }

    pub open spec fn well_formed(&self) -> bool {
        forall|i: int| 0 <= i < self.send_keys().len() ==> !has_affine(#[trigger] self.send_keys()[i])
    }

    fn new() -> (res: EventDispatcher)
        ensures
            res.send_keys() == Seq::<Seq<PropertyView>>::empty(),
            res.activating_event() is None,
            res.well_formed(),
    {
        let res = EventDispatcher { send_keys: Vec::new(), activating_event: None };
        proof {
            assert(res.send_keys() =~= Seq::<Seq<PropertyView>>::empty());
        }
        res
    }

    fn add_send_key(&mut self, key: Key)
        requires
            old(self).well_formed(),
            !has_affine(key@),
        ensures
            final(self).well_formed(),
            final(self).send_keys() == old(self).send_keys().push(key@),
            final(self).activating_event() == old(self).activating_event(),
    {
        let ghost before = self.send_keys@;
        self.send_keys.push(key);
        proof {
            assert(self.send_keys() =~= before.map_values(|k: Key| k@).push(key@));
            assert forall|i: int| 0 <= i < self.send_keys().len() implies !has_affine(#[trigger] self.send_keys()[i]) by {
                if i < before.len() {
                    assert(self.send_keys()[i] == old(self).send_keys()[i]);
                }
            }
        }
    }

    fn push_sent(&self, event: Event, value: i32, events_out: &mut Vec<Event>)
        requires
            self.well_formed(),
        ensures
            final(events_out)@ == old(events_out)@ + sent_events(self.send_keys(), event, value),
    {
        let ghost start = events_out@;
        let mut i: usize = 0;
        while i < self.send_keys.len()
            invariant
                i <= self.send_keys@.len(),
                self.well_formed(),
                events_out@ == start + sent_events(self.send_keys().take(i as int), event, value),
            decreases self.send_keys@.len() - i,
        {
            proof {
                assert(self.send_keys()[i as int] == self.send_keys@[i as int]@);
                assert(sent_events(self.send_keys().take(i + 1), event, value)
                    == sent_events(self.send_keys().take(i as int), event, value).push(
                    sent_event(self.send_keys()[i as int], event, value)));
            }
            let mut sent = self.send_keys[i].merge(event);
            sent.value = value;
            events_out.push(sent);
            i += 1;
        }
        proof {
            assert(self.send_keys().take(self.send_keys().len() as int) == self.send_keys());
        }
    }

    /// Adds the events of the send-keys: presses when the hook activates, releases of the same
    /// keys when it releases. A release applies the keys to the event that activated the hook,
    /// or to the releasing event if none is known.
    fn generate_additional_events(&mut self, event: Event, response: TriggerResponse, events_out: &mut Vec<Event>)
        requires
            old(self).well_formed(),
        ensures
            final(self).well_formed(),
            final(self).send_keys() == old(self).send_keys(),
            final(events_out)@ == old(events_out)@ + match response {
                TriggerResponse::Activates => sent_events(old(self).send_keys(), event, 1),
                TriggerResponse::Releases => sent_events(
                    old(self).send_keys(),
                    match old(self).activating_event() {
                        Some(e) => e,
                        None => event,
                    },
                    0,
                ),
                _ => Seq::<Event>::empty(),
            },
            final(self).activating_event() == (if response is Activates {
                Some(event)
            } else {
                old(self).activating_event()
            }),
    {
        match response {
            TriggerResponse::Activates => {
                self.activating_event = Some(event);
                proof {
                    assert(self.send_keys() == old(self).send_keys());
                }
                self.push_sent(event, 1, events_out);
            },
            TriggerResponse::Releases => {
                let activating = match self.activating_event {
                    Some(e) => e,
                    None => event,
                };
                self.push_sent(activating, 0, events_out);
            },
            TriggerResponse::Matches | TriggerResponse::Unaffected => {
                proof {
                    assert(events_out@ == old(events_out)@ + Seq::<Event>::empty());
                }
            },
        }
    }

    /// Adds, once each, the capabilities that the send-keys may produce: for each capability that
    /// may press one of the trackers, each send-key applied to it, with values 0 and 1.
    fn generate_additional_caps(&self, trigger: &Trigger, caps: &Vec<Capability>, caps_out: &mut Vec<Capability>)
        requires
            self.well_formed(),
            trigger.well_formed(),
        ensures
            final(caps_out)@.len() >= old(caps_out)@.len(),
            final(caps_out)@.take(old(caps_out)@.len() as int) == old(caps_out)@,
            distinct_from(final(caps_out)@, old(caps_out)@.len() as int),
            forall|c: Capability|
                #![trigger occurs_from(final(caps_out)@, old(caps_out)@.len() as int, c)]
                #![trigger sendable(trigger.trackers(), self.send_keys(), caps@, caps@.len() as int, c)]
                occurs_from(final(caps_out)@, old(caps_out)@.len() as int, c)
                    == sendable(trigger.trackers(), self.send_keys(), caps@, caps@.len() as int, c),
    {
        let ghost start = caps_out@;
        let ghost base = start.len() as int;
        let base_len = caps_out.len();
        let ghost keys = self.send_keys();
        let ghost trs = trigger.trackers();
        let trackers = trigger.keys();
        let mut j: usize = 0;
        while j < caps.len()
            invariant
                j <= caps@.len(),
                base_len == base,
                self.well_formed(),
                trigger.well_formed(),
                keys == self.send_keys(),
                trs == trigger.trackers(),
                trackers@.map_values(|t: Tracker| t.view()) == trs,
                base == start.len(),
                caps_out@.len() >= base,
                caps_out@.take(base) == start,
                distinct_from(caps_out@, base),
                forall|c: Capability| #![trigger occurs_from(caps_out@, base, c)]
                    occurs_from(caps_out@, base, c) == sendable(trs, keys, caps@, j as int, c),
            decreases caps@.len() - j,
        {
            let cap = caps[j];
            // Whether some tracker's key may match the capability.
            let mut fires = false;
            let mut t: usize = 0;
            while t < trackers.len()
                invariant
                    t <= trackers@.len(),
                    trigger.well_formed(),
                    trs == trigger.trackers(),
                    trackers@.map_values(|tr: Tracker| tr.view()) == trs,
                    fires == exists|x: int| 0 <= x < t && key_matches_cap((#[trigger] trs[x]).key, cap) != CapMatch::No,
                decreases trackers@.len() - t,
            {
                proof {
                    assert(trs[t as int] == trackers@[t as int].view());
                    assert(!has_affine(trs[t as int].key));
                }
                match trackers[t].key.matches_cap(&cap) {
                    CapMatch::No => {},
                    _ => {
                        fires = true;
                    },
                }
                t += 1;
            }
            if fires {
                let mut k: usize = 0;
                while k < self.send_keys.len()
                    invariant
                        k <= self.send_keys@.len(),
                        j < caps@.len(),
                        cap == caps@[j as int],
                        base_len == base,
                        may_fire(trs, cap),
                        self.well_formed(),
                        keys == self.send_keys(),
                        base == start.len(),
                        caps_out@.len() >= base,
                        caps_out@.take(base) == start,
                        distinct_from(caps_out@, base),
                        forall|c: Capability| #![trigger occurs_from(caps_out@, base, c)]
                            occurs_from(caps_out@, base, c)
                                == (sendable(trs, keys, caps@, j as int, c) || sent_by_first(keys, k as int, cap, c)),
                    decreases self.send_keys@.len() - k,
                {
                    proof {
                        assert(keys[k as int] == self.send_keys@[k as int]@);
                    }
                    let mut new_cap = self.send_keys[k].merge_cap(cap);
                    new_cap.value_range = Interval { min: 0, max: 1 };
                    let ghost before = caps_out@;
                    // Added only if it is not there yet.
                    let mut present = false;
                    let mut a: usize = base_len;
                    while a < caps_out.len()
                        invariant
                            base_len == base,
                            base <= a <= caps_out@.len(),
                            caps_out@ == before,
                            present == exists|x: int| base <= x < a && caps_out@[x] == new_cap,
                        decreases caps_out@.len() - a,
                    {
                        if caps_out[a] == new_cap {
                            present = true;
                        }
                        a += 1;
                    }
                    if !present {
                        caps_out.push(new_cap);
                        proof {
                            assert(caps_out@.take(base) == start) by {
                                assert forall|x: int| 0 <= x < base implies caps_out@.take(base)[x] == start[x] by {
                                    assert(before.take(base)[x] == start[x]);
                                }
                            }
                            assert forall|x: int, y: int| base <= x < y < caps_out@.len() implies caps_out@[x] != caps_out@[y] by {
                                if y == caps_out@.len() - 1 {
                                    assert(caps_out@[x] == before[x]);
                                } else {
                                    assert(caps_out@[x] == before[x]);
                                    assert(caps_out@[y] == before[y]);
                                }
                            }
                        }
                    }
                    proof {
                        assert forall|c: Capability| #![trigger occurs_from(caps_out@, base, c)]
                            occurs_from(caps_out@, base, c)
                                == (sendable(trs, keys, caps@, j as int, c) || sent_by_first(keys, k + 1, cap, c)) by {
                            assert(occurs_from(before, base, c) == (sendable(trs, keys, caps@, j as int, c)
                                || sent_by_first(keys, k as int, cap, c)));
                            if c == new_cap {
                                assert(c == sent_cap(keys[k as int], cap));
                                assert(sent_by_first(keys, k + 1, cap, c));
                                if !present {
                                    assert(caps_out@[caps_out@.len() - 1] == c);
                                } else {
                                    let x = choose|x: int| base <= x < before.len() && before[x] == new_cap;
                                    assert(caps_out@[x] == c);
                                }
                                assert(occurs_from(caps_out@, base, c));
                            } else {
                                if occurs_from(caps_out@, base, c) {
                                    let a = choose|a: int| base <= a < caps_out@.len() && caps_out@[a] == c;
                                    assert(before[a] == c);
                                    assert(occurs_from(before, base, c));
                                }
                                if occurs_from(before, base, c) {
                                    let a = choose|a: int| base <= a < before.len() && before[a] == c;
                                    assert(caps_out@[a] == c);
                                }
                                if sent_by_first(keys, k + 1, cap, c) {
                                    let y = choose|y: int| 0 <= y < k + 1 && c == sent_cap(keys[y], cap);
                                    assert(y != k);
                                    assert(sent_by_first(keys, k as int, cap, c));
                                }
                            }
                        }
                    }
                    k += 1;
                }
                proof {
                    assert forall|c: Capability| #![trigger occurs_from(caps_out@, base, c)]
                        occurs_from(caps_out@, base, c) == sendable(trs, keys, caps@, j + 1, c) by {
                        if sent_by_first(keys, keys.len() as int, cap, c) {
                            let y = choose|y: int| 0 <= y < keys.len() && c == sent_cap(keys[y], cap);
                            assert(c == sent_cap(keys[y], caps@[j as int]));
                            assert(sendable(trs, keys, caps@, j + 1, c));
                        }
                        if sendable(trs, keys, caps@, j as int, c) {
                            let (x, y) = choose|x: int, y: int| 0 <= x < j && 0 <= y < keys.len()
                                && may_fire(trs, caps@[x]) && c == sent_cap(keys[y], caps@[x]);
                            assert(sendable(trs, keys, caps@, j + 1, c));
                        }
                        if sendable(trs, keys, caps@, j + 1, c) {
                            let (x, y) = choose|x: int, y: int| 0 <= x < j + 1 && 0 <= y < keys.len()
                                && may_fire(trs, caps@[x]) && c == sent_cap(keys[y], caps@[x]);
                            if x == j {
                                assert(sent_by_first(keys, keys.len() as int, cap, c));
                            } else {
                                assert(sendable(trs, keys, caps@, j as int, c));
                            }
                        }
                    }
                }
            } else {
                proof {
                    assert(!may_fire(trs, cap));
                    assert forall|c: Capability| #![trigger occurs_from(caps_out@, base, c)]
                        occurs_from(caps_out@, base, c) == sendable(trs, keys, caps@, j + 1, c) by {
                        if sendable(trs, keys, caps@, j + 1, c) {
                            let (x, y) = choose|x: int, y: int| 0 <= x < j + 1 && 0 <= y < keys.len()
                                && may_fire(trs, caps@[x]) && c == sent_cap(keys[y], caps@[x]);
                            assert(x != j);
                            assert(sendable(trs, keys, caps@, j as int, c));
                        }
                        if sendable(trs, keys, caps@, j as int, c) {
                            let (x, y) = choose|x: int, y: int| 0 <= x < j && 0 <= y < keys.len()
                                && may_fire(trs, caps@[x]) && c == sent_cap(keys[y], caps@[x]);
                            assert(sendable(trs, keys, caps@, j + 1, c));
                        }
                    }
                }
            }
            j += 1;
        }
    }
}

/// Whether `c` occurs in `s` from position `from` on.
pub open spec fn occurs_from(s: Seq<Capability>, from: int, c: Capability) -> bool {
    exists|a: int| from <= a < s.len() && s[a] == c
}

/// Whether no capability occurs twice in `s` from position `from` on.
pub open spec fn distinct_from(s: Seq<Capability>, from: int) -> bool {
    forall|a: int, b: int| from <= a < b < s.len() ==> s[a] != s[b]
}

/// Whether one of the first `n` capabilities may press a tracker and a send-key makes `c` of it.
pub open spec fn sendable(
    trackers: Seq<TrackerView>,
    keys: Seq<Seq<PropertyView>>,
    caps: Seq<Capability>,
    n: int,
    c: Capability,
) -> bool {
    exists|x: int, y: int| 0 <= x < n && 0 <= y < keys.len() && may_fire(trackers, caps[x]) && c == sent_cap(keys[y], caps[x])
}

/// Whether one of the first `n` send-keys makes `c` of a capability.
pub open spec fn sent_by_first(keys: Seq<Seq<PropertyView>>, n: int, cap: Capability, c: Capability) -> bool {
    exists|y: int| 0 <= y < n && c == sent_cap(keys[y], cap)
}

/// The trackers after the wakeup of a token: those that were active until that token expire.
pub open spec fn expired_at(trackers: Seq<TrackerView>, token: Token) -> Seq<TrackerView> {
    Seq::new(trackers.len(), |i: int| TrackerView {
        state: if trackers[i].state == TrackerState::Active(ExpirationTime::Until(token)) {
            TrackerState::Expired
        } else {
            trackers[i].state
        },
        ..trackers[i]
    })
}

/// A trigger together with the keys that it sends. The other effects of a hook are kept by the
/// caller, which runs them when `apply` reports an activation or a release.
pub struct Hook {
    trigger: Trigger,
    event_dispatcher: EventDispatcher,
}

impl Hook {
    pub closed spec fn trigger(&self) -> Trigger {
        self.trigger
    }

    pub closed spec fn dispatcher(&self) -> EventDispatcher {
        self.event_dispatcher
    }

    pub open spec fn well_formed(&self) -> bool {
        self.trigger().well_formed() && self.dispatcher().well_formed()
    }

    pub fn new(trigger: Trigger) -> (res: Hook)
        requires
            trigger.well_formed(),
        ensures
            res.well_formed(),
            res.trigger() == trigger,
            res.dispatcher().send_keys() == Seq::<Seq<PropertyView>>::empty(),
            res.dispatcher().activating_event() is None,
    {
        Hook { trigger, event_dispatcher: EventDispatcher::new() }
    }

    /// Passes an event through the hook: the event itself comes out, followed by the events of the
    /// send-keys if the hook activated or released. Returns what the event did to the trigger.
    pub fn apply(
        &mut self,
        event: Event,
        events_out: &mut Vec<Event>,
        handle: &mut LoopbackHandle,
        loopback: &mut Loopback,
        clock: Instant,
    ) -> (res: TriggerResponse)
        requires
            old(self).well_formed(),
            old(self).trigger().period() matches Some(p) ==> handle_now(*old(handle), clock)@ + p@ <= u64::MAX,
        ensures
            final(self).well_formed(),
            final(self).dispatcher().send_keys() == old(self).dispatcher().send_keys(),
            final(self).trigger().period() == old(self).trigger().period(),
            final(events_out)@ == old(events_out)@.push(event) + match res {
                TriggerResponse::Activates => sent_events(old(self).dispatcher().send_keys(), event, 1),
                TriggerResponse::Releases => sent_events(
                    old(self).dispatcher().send_keys(),
                    match old(self).dispatcher().activating_event() {
                        Some(e) => e,
                        None => event,
                    },
                    0,
                ),
                _ => Seq::<Event>::empty(),
            },
            res == (if !(exists|i: int| 0 <= i < old(self).trigger().trackers().len()
                && key_matches(#[trigger] old(self).trigger().trackers()[i].key, event)) {
                TriggerResponse::Unaffected
            } else if !old(self).trigger().is_active() && (forall|i: int| 0 <= i < old(self).trigger().trackers().len()
                ==> active_after(#[trigger] old(self).trigger().trackers()[i], event)) {
                TriggerResponse::Activates
            } else if old(self).trigger().is_active() && !(forall|i: int| 0 <= i < old(self).trigger().trackers().len()
                ==> active_after(#[trigger] old(self).trigger().trackers()[i], event)) {
                TriggerResponse::Releases
            } else {
                TriggerResponse::Matches
            }),
            final(handle).now == old(handle).now || (old(handle).now is None && final(handle).now == Some(clock)),
    {
        let response = self.trigger.apply(event, handle, loopback, clock);
        events_out.push(event);
        self.event_dispatcher.generate_additional_events(event, response, events_out);
        response
    }

    /// Passes events through the hook in order, and returns what each did to the trigger.
    pub fn apply_to_all(
        &mut self,
        events: &Vec<Event>,
        events_out: &mut Vec<Event>,
        handle: &mut LoopbackHandle,
        loopback: &mut Loopback,
        clock: Instant,
    ) -> (res: Vec<TriggerResponse>)
        requires
            old(self).well_formed(),
            old(self).trigger().period() matches Some(p) ==> handle_now(*old(handle), clock)@ + p@ <= u64::MAX,
        ensures
            final(self).well_formed(),
            res@.len() == events@.len(),
            final(events_out)@.len() >= old(events_out)@.len() + events@.len(),
    {
        let mut responses: Vec<TriggerResponse> = Vec::new();
        let mut i: usize = 0;
        while i < events.len()
            invariant
                i <= events@.len(),
                self.well_formed(),
                self.trigger().period() == old(self).trigger().period(),
                handle_now(*handle, clock) == handle_now(*old(handle), clock),
                self.trigger().period() matches Some(p) ==> handle_now(*handle, clock)@ + p@ <= u64::MAX,
                responses@.len() == i,
                events_out@.len() >= old(events_out)@.len() + i,
            decreases events@.len() - i,
        {
            let response = self.apply(events[i], events_out, handle, loopback, clock);
            responses.push(response);
            i += 1;
        }
        responses
    }

    /// The capabilities that can come out of the hook: those that go in, followed by those that its
    /// send-keys may add.
    pub fn apply_to_all_caps(&self, caps: &Vec<Capability>, caps_out: &mut Vec<Capability>)
        requires
            self.well_formed(),
        ensures
            final(caps_out)@.len() >= old(caps_out)@.len() + caps@.len(),
            final(caps_out)@.take((old(caps_out)@.len() + caps@.len()) as int) == old(caps_out)@ + caps@,
            distinct_from(final(caps_out)@, (old(caps_out)@.len() + caps@.len()) as int),
            forall|c: Capability|
                #![trigger occurs_from(final(caps_out)@, (old(caps_out)@.len() + caps@.len()) as int, c)]
                occurs_from(final(caps_out)@, (old(caps_out)@.len() + caps@.len()) as int, c)
                    == sendable(self.trigger().trackers(), self.dispatcher().send_keys(), caps@, caps@.len() as int, c),
    {
        let ghost start = caps_out@;
        let mut i: usize = 0;
        while i < caps.len()
            invariant
                i <= caps@.len(),
                caps_out@ == start + caps@.take(i as int),
            decreases caps@.len() - i,
        {
            caps_out.push(caps[i]);
            proof {
                assert(caps@.take(i + 1) == caps@.take(i as int).push(caps@[i as int]));
            }
            i += 1;
        }
        proof {
            assert(caps@.take(caps@.len() as int) == caps@);
        }
        self.event_dispatcher.generate_additional_caps(&self.trigger, caps, caps_out);
    }

    /// Lets the trackers that were waiting for this token expire.
    pub fn wakeup(&mut self, token: &Token)
        requires
            old(self).well_formed(),
        ensures
            final(self).well_formed(),
            final(self).dispatcher() == old(self).dispatcher(),
            final(self).trigger().period() == old(self).trigger().period(),
            final(self).trigger().is_active() == old(self).trigger().is_active(),
            final(self).trigger().trackers() == expired_at(old(self).trigger().trackers(), *token),
    {
        self.trigger.wakeup(token);
        proof {
            assert(self.trigger().trackers() =~= expired_at(old(self).trigger().trackers(), *token));
        }
    }

    /// Makes the hook press a key when it activates and release it when it releases.
    pub fn add_send_key(&mut self, key: Key)
        requires
            old(self).well_formed(),
            !has_affine(key@),
        ensures
            final(self).well_formed(),
            final(self).trigger() == old(self).trigger(),
            final(self).dispatcher().send_keys() == old(self).dispatcher().send_keys().push(key@),
    {
        self.event_dispatcher.add_send_key(key);
    }
}

} // verus!
