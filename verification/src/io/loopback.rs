//! Events that are to be emitted at a later moment.

use vstd::prelude::*;

use crate::event::Event;
use crate::loopback::{delay_between, delay_until, earliest, earliest_moment, Delay};
use crate::time::Instant;

verus! {

/// How long to wait until the next scheduled event is due.
#[derive(Clone, Copy, PartialEq, Eq, Debug, Structural)]
pub enum NextEventDelay {
    /// The next event is due now, or was due in the past.
    Now,
    /// No events have been scheduled.
    Never,
    /// Wait this many milliseconds, which is always positive.
    Wait(i32),
}

pub open spec fn next_event_delay(delay: Delay) -> NextEventDelay {
    match delay {
        Delay::Now => NextEventDelay::Now,
        Delay::Never => NextEventDelay::Never,
        Delay::Wait(ms) => NextEventDelay::Wait(ms),
    }
}

/// The events of a schedule that are due at `now`, in the order of the schedule.
pub open spec fn due_events(s: Seq<(Instant, Event)>, now: nat) -> Seq<Event>
    decreases s.len(),
{
    if s.len() == 0 {
        Seq::empty()
    } else if s.last().0@ <= now {
        due_events(s.drop_last(), now).push(s.last().1)
    } else {
        due_events(s.drop_last(), now)
    }
}

/// The entries of a schedule that are not due at `now`, in the order of the schedule.
pub open spec fn pending_entries(s: Seq<(Instant, Event)>, now: nat) -> Seq<(Instant, Event)>
    decreases s.len(),
{
    if s.len() == 0 {
        s
    } else if s.last().0@ <= now {
        pending_entries(s.drop_last(), now)
    } else {
        pending_entries(s.drop_last(), now).push(s.last())
    }
}

/// Holds events until the moment that they are due.
pub struct LoopbackDevice {
    scheduled_events: Vec<(Instant, Event)>,
}

impl LoopbackDevice {
    /// The scheduled events with their moments, in the order in which they were scheduled.
    pub closed spec fn scheduled(&self) -> Seq<(Instant, Event)> {
        self.scheduled_events@
    }

    pub fn new() -> (res: LoopbackDevice)
        ensures
            res.scheduled() == Seq::<(Instant, Event)>::empty(),
    {
        LoopbackDevice { scheduled_events: Vec::new() }
    }

    pub fn schedule_event(&mut self, time: Instant, event: Event)
        ensures
            final(self).scheduled() == old(self).scheduled().push((time, event)),
    {
        self.scheduled_events.push((time, event));
    }

    /// How long from `now` until the earliest scheduled event is due.
    pub fn time_until_next_event(&self, now: Instant) -> (res: NextEventDelay)
        ensures
            res == next_event_delay(delay_until(earliest(self.scheduled()), now@)),
    {
        let next = earliest_moment(&self.scheduled_events);
        match delay_between(next, now) {
            Delay::Now => NextEventDelay::Now,
            Delay::Never => NextEventDelay::Never,
            Delay::Wait(ms) => NextEventDelay::Wait(ms),
        }
    }

    /// Returns the events that are due at `now` and removes them from the schedule.
    pub fn poll(&mut self, now: Instant) -> (res: Vec<Event>)
        ensures
            res@ == due_events(old(self).scheduled(), now@),
            final(self).scheduled() == pending_entries(old(self).scheduled(), now@),
    {
        let ghost s = self.scheduled_events@;
        let mut ready: Vec<Event> = Vec::new();
        let mut unready: Vec<(Instant, Event)> = Vec::new();
        let mut i: usize = 0;
        while i < self.scheduled_events.len()
            invariant
                i <= s.len(),
                s == self.scheduled_events@,
                ready@ == due_events(s.take(i as int), now@),
                unready@ == pending_entries(s.take(i as int), now@),
            decreases s.len() - i,
        {
            proof {
                assert(s.take(i + 1).drop_last() == s.take(i as int));
                assert(s.take(i + 1).last() == s[i as int]);
            }
            let (time, event) = self.scheduled_events[i];
            if time.is_not_after(&now) {
                ready.push(event);
            } else {
                unready.push((time, event));
            }
            i += 1;
        }
        proof {
            assert(s.take(s.len() as int) == s);
        }
        self.scheduled_events = unready;
        ready
    }
}

} // verus!
