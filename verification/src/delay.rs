//! Holding events back for a while and putting them back into the stream later.

use vstd::prelude::*;

use crate::abs_to_rel::any_matches;
use crate::event::Event;
use crate::key::Key;
use crate::loopback::{Loopback, LoopbackHandle};
use crate::time::{Duration, Instant};

verus! {

/// The events that the keys hold back, and the events that pass, each in order.
pub open spec fn split_events(keys: Seq<Key>, events: Seq<Event>) -> (Seq<Event>, Seq<Event>)
    decreases events.len(),
{
    if events.len() == 0 {
        (Seq::empty(), Seq::empty())
    } else {
        let (held, passed) = split_events(keys, events.drop_last());
        let event = events.last();
        if any_matches(keys, event) {
            (held.push(event), passed)
        } else {
            (held, passed.push(event))
        }
    }
}

/// The number of batches at the front that are due at the given moment.
pub open spec fn due_count(batches: Seq<(Instant, Seq<Event>)>, now: nat) -> nat
    decreases batches.len(),
{
    if batches.len() == 0 || batches[0].0@ > now {
        0
    } else {
        1 + due_count(batches.drop_first(), now)
    }
}

/// The events of the batches, one batch after another.
pub open spec fn flatten_batches(batches: Seq<(Instant, Seq<Event>)>) -> Seq<Event>
    decreases batches.len(),
{
    if batches.len() == 0 {
        Seq::empty()
    } else {
        flatten_batches(batches.drop_last()) + batches.last().1
    }
}

/// All events that reach the delay and match one of its keys are taken out of the stream and
/// put back into it when a period has passed.
pub struct Delay {
    keys: Vec<Key>,
    period: Duration,
    /// The batches of events that are held back, each with the moment it is due, in order.
    delayed_events: Vec<(Instant, Vec<Event>)>,
}

impl Delay {
    pub closed spec fn keys_spec(&self) -> Seq<Key> {
        self.keys@
    }

    pub closed spec fn period_spec(&self) -> nat {
        self.period@
    }

    /// The batches that are held back, each with the moment it is due.
    pub closed spec fn batches(&self) -> Seq<(Instant, Seq<Event>)> {
        self.delayed_events@.map_values(|b: (Instant, Vec<Event>)| (b.0, b.1@))
    }

    pub fn new(keys: Vec<Key>, period: Duration) -> (res: Delay)
        ensures
            res.keys_spec() == keys@,
            res.period_spec() == period@,
            res.batches() == Seq::<(Instant, Seq<Event>)>::empty(),
    {
        let res = Delay { keys, period, delayed_events: Vec::new() };
        proof {
            assert(res.batches() =~= Seq::<(Instant, Seq<Event>)>::empty());
        }
        res
    }

    /// Lets the events that match none of the keys pass, and holds back the others as one batch,
    /// which is due a period after the handle's now; a wakeup is scheduled for that moment.
    pub fn apply_to_all(
        &mut self,
        events: &[Event],
        output_events: &mut Vec<Event>,
        handle: &mut LoopbackHandle,
        loopback: &mut Loopback,
        clock: Instant,
    )
        requires
            (match old(handle).now {
                Some(t) => t@,
                None => clock@,
            }) + old(self).period_spec() <= u64::MAX,
        ensures
            final(self).keys_spec() == old(self).keys_spec(),
            final(self).period_spec() == old(self).period_spec(),
            final(output_events)@ == old(output_events)@ + split_events(old(self).keys_spec(), events@).1,
            split_events(old(self).keys_spec(), events@).0.len() == 0 ==> {
                &&& final(self).batches() == old(self).batches()
                &&& final(loopback).schedule() == old(loopback).schedule()
            },
            split_events(old(self).keys_spec(), events@).0.len() > 0 ==> {
                &&& final(self).batches().drop_last() == old(self).batches()
                &&& final(self).batches().last().1 == split_events(old(self).keys_spec(), events@).0
                &&& final(self).batches().last().0@ == final(handle).now.unwrap()@ + old(self).period_spec()
                &&& final(loopback).schedule().drop_last() == old(loopback).schedule()
                &&& final(loopback).schedule().last().0 == final(self).batches().last().0
            },
    {
        let mut held: Vec<Event> = Vec::new();
        let mut i: usize = 0;
        proof {
            assert(events@.take(0) =~= Seq::<Event>::empty());
            assert(output_events@ =~= old(output_events)@ + Seq::<Event>::empty());
        }
        while i < events.len()
            invariant
                i <= events@.len(),
                self.keys@ == old(self).keys_spec(),
                held@ == split_events(self.keys@, events@.take(i as int)).0,
                output_events@ == old(output_events)@ + split_events(self.keys@, events@.take(i as int)).1,
            decreases events@.len() - i,
        {
            let event = events[i];
            proof {
                assert(events@.take(i + 1).drop_last() == events@.take(i as int));
                assert(events@.take(i + 1).last() == event);
            }
            let mut matched = false;
            let mut k: usize = 0;
            while k < self.keys.len()
                invariant
                    k <= self.keys@.len(),
                    matched == exists|x: int| 0 <= x < k && crate::key::key_matches((#[trigger] self.keys@[x])@, event),
                decreases self.keys@.len() - k,
            {
                if self.keys[k].matches(&event) {
                    matched = true;
                }
                k += 1;
            }
            let ghost before = output_events@;
            if matched {
                held.push(event);
            } else {
                output_events.push(event);
                proof {
                    assert(output_events@ =~= before.push(event));
                }
            }
            i += 1;
        }
        proof {
            assert(events@.take(events@.len() as int) == events@);
        }
        if held.len() > 0 {
            let ghost before = self.batches();
            let start = match handle.now {
                Some(t) => t,
                None => clock,
            };
            let due = match start.checked_add(self.period) {
                Some(t) => t,
                None => start,
            };
            handle.schedule_wakeup_in(loopback, self.period, clock);
            proof {
                Instant::lemma_view_injective(loopback.schedule().last().0, due);
            }
            self.delayed_events.push((due, held));
            proof {
                assert(self.batches() =~= before.push((due, held@)));
            }
        }
    }

    /// Puts back the batches that are due, in order, up to the first one that is not.
    pub fn wakeup(&mut self, now: Instant, output_events: &mut Vec<Event>)
        ensures
            final(self).keys_spec() == old(self).keys_spec(),
            final(self).period_spec() == old(self).period_spec(),
            final(output_events)@ == old(output_events)@
                + flatten_batches(old(self).batches().take(due_count(old(self).batches(), now@) as int)),
            final(self).batches() == old(self).batches().skip(due_count(old(self).batches(), now@) as int),
    {
        let ghost all = self.batches();
        let ghost mut taken: int = 0;
        proof {
            assert(all.take(0) =~= Seq::<(Instant, Seq<Event>)>::empty());
            assert(output_events@ =~= old(output_events)@ + Seq::<Event>::empty());
            assert(all.skip(0) == all);
        }
        while self.delayed_events.len() > 0 && self.delayed_events[0].0.is_not_after(&now)
            invariant
                0 <= taken <= all.len(),
                all == old(self).batches(),
                self.keys == old(self).keys,
                self.period == old(self).period,
                self.batches() == all.skip(taken),
                due_count(all, now@) == taken + due_count(all.skip(taken), now@),
                output_events@ == old(output_events)@ + flatten_batches(all.take(taken)),
            decreases self.delayed_events@.len(),
        {
            proof {
                assert(self.batches()[0] == (self.delayed_events@[0].0, self.delayed_events@[0].1@));
                assert(all.skip(taken)[0] == all[taken]);
            }
            let (_, batch) = self.delayed_events.remove(0);
            let ghost before = output_events@;
            let mut batch = batch;
            let ghost added = batch@;
            output_events.append(&mut batch);
            proof {
                assert(added == all[taken].1);
                assert(all.take(taken + 1).drop_last() == all.take(taken));
                assert(all.take(taken + 1).last() == all[taken]);
                assert(output_events@ =~= old(output_events)@ + flatten_batches(all.take(taken + 1)));
                assert(all.skip(taken).drop_first() == all.skip(taken + 1));
                assert(self.batches() =~= all.skip(taken + 1));
                taken = taken + 1;
            }
        }
        proof {
            assert(self.batches().len() == self.delayed_events@.len());
            if self.delayed_events@.len() > 0 {
                assert(self.batches()[0] == (self.delayed_events@[0].0, self.delayed_events@[0].1@));
            }
        }
    }
}

} // verus!
