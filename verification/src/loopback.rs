//! Wakeups that parts of the stream ask for at some moment in the future.
//!
//! Whenever a wakeup is scheduled, a `Token` is handed out; at the desired moment the token comes
//! back out of `Loopback::poll_once`, and the part that holds it is woken up with it.
//!
//! A `LoopbackHandle` carries a virtual "now": wakeups are scheduled relative to it rather than
//! to the real time. When the program handles a backlog, the virtual now lies in the past, and a
//! wakeup that is scheduled while handling an overdue one keeps its place relative to it.

use vstd::prelude::*;

use crate::time::{Duration, Instant};

verus! {

/// A ticket for a scheduled wakeup.
#[derive(PartialEq, Eq, Debug, Structural)]
pub struct Token(u64);

impl View for Token {
    type V = u64;

    closed spec fn view(&self) -> u64 {
        self.0
    }
}

impl Token {
    /// A copy of this token. Kept private, so that tokens are not duplicated carelessly.
    fn duplicate(&self) -> (res: Token)
        ensures
            res == *self,
    {
        Token(self.0)
    }

    /// Two tokens are equal exactly when their numbers are.
    pub proof fn lemma_view_injective(a: Token, b: Token)
        ensures
            (a@ == b@) <==> a == b,
    {
    }
}

/// How long to wait until the next wakeup is due.
#[derive(Clone, Copy, PartialEq, Eq, Debug, Structural)]
pub enum Delay {
    Now,
    Never,
    /// Wait this many milliseconds, which is always positive.
    Wait(i32),
}

/// The earliest moment among the entries of a schedule.
pub open spec fn earliest<T>(s: Seq<(Instant, T)>) -> Option<nat>
    decreases s.len(),
{
    if s.len() == 0 {
        None
    } else {
        match earliest(s.drop_last()) {
            None => Some(s.last().0@),
            Some(m) => Some(if s.last().0@ < m { s.last().0@ } else { m }),
        }
    }
}

/// How long to wait from `now` until the moment `next`: not at all if it has passed or is less
/// than a millisecond away, and forever if the wait does not fit an i32 of milliseconds.
pub open spec fn delay_until(next: Option<nat>, now: nat) -> Delay {
    match next {
        None => Delay::Never,
        Some(t) => if t < now {
            Delay::Now
        } else if (t - now) / 1_000_000 > i32::MAX {
            Delay::Never
        } else if (t - now) / 1_000_000 == 0 {
            Delay::Now
        } else {
            Delay::Wait(((t - now) / 1_000_000) as i32)
        },
    }
}

/// The earliest moment in a schedule.
pub fn earliest_moment<T>(schedule: &Vec<(Instant, T)>) -> (res: Option<Instant>)
    ensures
        match res {
            Some(t) => earliest(schedule@) == Some(t@),
            None => earliest(schedule@) is None,
        },
{
    let mut best: Option<Instant> = None;
    let mut i: usize = 0;
    while i < schedule.len()
        invariant
            i <= schedule@.len(),
            match best {
                Some(t) => earliest(schedule@.take(i as int)) == Some(t@),
                None => earliest(schedule@.take(i as int)) is None,
            },
        decreases schedule@.len() - i,
    {
        proof {
            assert(schedule@.take(i + 1).drop_last() == schedule@.take(i as int));
        }
        let t = schedule[i].0;
        best = match best {
            None => Some(t),
            Some(b) => if t.as_nanos() < b.as_nanos() { Some(t) } else { Some(b) },
        };
        i += 1;
    }
    proof {
        assert(schedule@.take(schedule@.len() as int) == schedule@);
    }
    best
}

/// How long to wait from `now` until `next`.
pub fn delay_between(next: Option<Instant>, now: Instant) -> (res: Delay)
    ensures
        res == delay_until(
            match next {
                Some(t) => Some(t@),
                None => None,
            },
            now@,
        ),
{
    let next = match next {
        Some(t) => t,
        None => return Delay::Never,
    };
    let duration = match next.checked_duration_since(&now) {
        Some(d) => d,
        None => return Delay::Now,
    };
    let millis = duration.as_millis();
    if millis > 0x7fff_ffff {
        return Delay::Never;
    }
    if millis == 0 {
        Delay::Now
    } else {
        Delay::Wait(millis as i32)
    }
}

/// The schedule of wakeups, and the number of tokens handed out so far.
pub struct Loopback {
    schedule: Vec<(Instant, Token)>,
    token_index: u64,
}

/// The schedule without the entries of a token.
pub open spec fn without_token(s: Seq<(Instant, Token)>, token: Token) -> Seq<(Instant, Token)>
    decreases s.len(),
{
    if s.len() == 0 {
        s
    } else if s.last().1 == token {
        without_token(s.drop_last(), token)
    } else {
        without_token(s.drop_last(), token).push(s.last())
    }
}

impl Loopback {
    /// The scheduled wakeups, in the order of the schedule.
    pub closed spec fn schedule(&self) -> Seq<(Instant, Token)> {
        self.schedule@
    }

    /// The number of the last token handed out.
    pub closed spec fn counter(&self) -> u64 {
        self.token_index
    }

    /// Each scheduled token is numbered at most the counter, and no two are equal.
    pub open spec fn well_formed(&self) -> bool {
        &&& forall|i: int| 0 <= i < self.schedule().len() ==> (#[trigger] self.schedule()[i]).1@ <= self.counter()
        &&& forall|i: int, j: int| 0 <= i < j < self.schedule().len() ==> self.schedule()[i].1 != self.schedule()[j].1
    }

    pub fn new() -> (res: Loopback)
        ensures
            res.schedule() == Seq::<(Instant, Token)>::empty(),
            res.counter() == 0,
            res.well_formed(),
    {
        Loopback { schedule: Vec::new(), token_index: 0 }
    }

    /// How long from `now` until the earliest scheduled wakeup is due.
    pub fn time_until_next_wakeup(&self, now: Instant) -> (res: Delay)
        ensures
            res == delay_until(earliest(self.schedule()), now@),
    {
        let next = earliest_moment(&self.schedule);
        delay_between(next, now)
    }

    /// Takes the most overdue wakeup that is due at `now` out of the schedule. Of wakeups that are
    /// due at the same moment, the one that was scheduled first comes first. Only one is returned:
    /// handling it may schedule another that is due before the others.
    pub fn poll_once(&mut self, now: Instant) -> (res: Option<(Instant, Token)>)
        ensures
            match res {
                None => {
                    &&& forall|j: int| 0 <= j < old(self).schedule().len() ==> (#[trigger] old(self).schedule()[j]).0@ > now@
                    &&& final(self).schedule() == old(self).schedule()
                },
                Some(entry) => exists|i: int| {
                    &&& 0 <= i < old(self).schedule().len()
                    &&& old(self).schedule()[i] == entry
                    &&& entry.0@ <= now@
                    &&& forall|j: int| 0 <= j < old(self).schedule().len() && (#[trigger] old(self).schedule()[j]).0@ <= now@
                        ==> entry.0@ <= old(self).schedule()[j].0@
                    &&& forall|j: int| 0 <= j < i && (#[trigger] old(self).schedule()[j]).0@ <= now@
                        ==> entry.0@ < old(self).schedule()[j].0@
                    &&& final(self).schedule() == old(self).schedule().remove(i)
                },
            },
            final(self).counter() == old(self).counter(),
            old(self).well_formed() ==> final(self).well_formed(),
    {
        let ghost s = self.schedule@;
        let mut best: Option<usize> = None;
        let mut i: usize = 0;
        while i < self.schedule.len()
            invariant
                i <= s.len(),
                s == self.schedule@,
                match best {
                    None => forall|j: int| 0 <= j < i ==> (#[trigger] s[j]).0@ > now@,
                    Some(b) => {
                        &&& b < i
                        &&& s[b as int].0@ <= now@
                        &&& forall|j: int| 0 <= j < i && (#[trigger] s[j]).0@ <= now@ ==> s[b as int].0@ <= s[j].0@
                        &&& forall|j: int| 0 <= j < b && (#[trigger] s[j]).0@ <= now@ ==> s[b as int].0@ < s[j].0@
                    },
                },
            decreases s.len() - i,
        {
            let t = self.schedule[i].0;
            if t.is_not_after(&now) {
                match best {
                    None => {
                        best = Some(i);
                    },
                    Some(b) => {
                        if t.as_nanos() < self.schedule[b].0.as_nanos() {
                            best = Some(i);
                        }
                    },
                }
            }
            i += 1;
        }
        match best {
            None => None,
            Some(b) => {
                let entry = self.schedule.remove(b);
                proof {
                    assert(self.schedule@ == s.remove(b as int));
                    if old(self).well_formed() {
                        assert forall|x: int, y: int| 0 <= x < y < self.schedule().len() implies self.schedule()[x].1
                            != self.schedule()[y].1 by {
                            let xs = if x < b { x } else { x + 1 };
                            let ys = if y < b { y } else { y + 1 };
                            assert(self.schedule()[x] == s[xs]);
                            assert(self.schedule()[y] == s[ys]);
                        }
                        assert forall|x: int| 0 <= x < self.schedule().len() implies (#[trigger] self.schedule()[x]).1@
                            <= self.counter() by {
                            let xs = if x < b { x } else { x + 1 };
                            assert(self.schedule()[x] == s[xs]);
                        }
                    }
                }
                Some(entry)
            },
        }
    }

    /// Hands out a new token: the next number, wrapping around after the largest.
    fn generate_token(&mut self) -> (res: Token)
        ensures
            final(self).counter() == (if old(self).counter() == u64::MAX { 0 } else { old(self).counter() + 1 }),
            res@ == final(self).counter(),
            final(self).schedule() == old(self).schedule(),
    {
        self.token_index = self.token_index.wrapping_add(1);
        Token(self.token_index)
    }

    /// A handle whose "now" is the given moment.
    pub fn get_handle(&self, now: Instant) -> (res: LoopbackHandle)
        ensures
            res.now == Some(now),
    {
        LoopbackHandle { now: Some(now) }
    }

    /// A handle that takes the real time as "now" when it first needs it.
    pub fn get_handle_lazy(&self) -> (res: LoopbackHandle)
        ensures
            res.now is None,
    {
        LoopbackHandle { now: None }
    }
}

/// Schedules wakeups relative to a virtual "now". If `now` is None, the real time is taken when
/// it is first needed, and kept from then on.
pub struct LoopbackHandle {
    pub now: Option<Instant>,
}

impl LoopbackHandle {
    /// The virtual now: the stored one, or else `clock`, which is then stored.
    fn now(&mut self, clock: Instant) -> (res: Instant)
        ensures
            res == (match old(self).now {
                Some(t) => t,
                None => clock,
            }),
            final(self).now == Some(res),
    {
        let time = match self.now {
            Some(t) => t,
            None => clock,
        };
        self.now = Some(time);
        time
    }

    fn schedule_wakeup_at(&mut self, loopback: &mut Loopback, time: Instant) -> (res: Token)
        ensures
            final(loopback).counter() == (if old(loopback).counter() == u64::MAX { 0 } else { old(loopback).counter() + 1 }),
            res@ == final(loopback).counter(),
            final(loopback).schedule() == old(loopback).schedule().push((time, res)),
            *final(self) == *old(self),
    {
        let token = loopback.generate_token();
        loopback.schedule.push((time, token.duplicate()));
        token
    }

    /// Schedules a wakeup `delay` after the virtual now; `clock` is the real time, which is only
    /// used if this handle has no now yet.
    pub fn schedule_wakeup_in(&mut self, loopback: &mut Loopback, delay: Duration, clock: Instant) -> (res: Token)
        requires
            (match old(self).now {
                Some(t) => t@,
                None => clock@,
            }) + delay@ <= u64::MAX,
        ensures
            final(self).now == Some(match old(self).now {
                Some(t) => t,
                None => clock,
            }),
            final(loopback).counter() == (if old(loopback).counter() == u64::MAX { 0 } else { old(loopback).counter() + 1 }),
            res@ == final(loopback).counter(),
            final(loopback).schedule().len() == old(loopback).schedule().len() + 1,
            final(loopback).schedule().drop_last() == old(loopback).schedule(),
            final(loopback).schedule().last().1 == res,
            final(loopback).schedule().last().0@ == final(self).now.unwrap()@ + delay@,
            old(loopback).well_formed() && old(loopback).counter() < u64::MAX ==> {
                &&& final(loopback).well_formed()
                &&& forall|i: int| 0 <= i < old(loopback).schedule().len() ==> (#[trigger] old(loopback).schedule()[i]).1 != res
            },
    {
        let now = self.now(clock);
        let at = match now.checked_add(delay) {
            Some(t) => t,
            None => now,
        };
        let token = self.schedule_wakeup_at(loopback, at);
        proof {
            let s = loopback.schedule();
            assert(s.drop_last() == old(loopback).schedule());
            if old(loopback).well_formed() && old(loopback).counter() < u64::MAX {
                assert forall|i: int| 0 <= i < old(loopback).schedule().len() implies (#[trigger] old(loopback).schedule()[i]).1
                    != token by {
                    assert(old(loopback).schedule()[i].1@ <= old(loopback).counter());
                }
                assert forall|x: int, y: int| 0 <= x < y < s.len() implies s[x].1 != s[y].1 by {
                    assert(s[x] == old(loopback).schedule()[x]);
                    if y < s.len() - 1 {
                        assert(s[y] == old(loopback).schedule()[y]);
                    } else {
                        assert(old(loopback).schedule()[x].1@ <= old(loopback).counter());
                    }
                }
                assert forall|x: int| 0 <= x < s.len() implies (#[trigger] s[x]).1@ <= loopback.counter() by {
                    if x < s.len() - 1 {
                        assert(s[x] == old(loopback).schedule()[x]);
                    }
                }
            }
        }
        token
    }

    /// Removes the wakeups of a token that is no longer needed.
    pub fn cancel_token(&mut self, loopback: &mut Loopback, token: Token)
        ensures
            final(loopback).schedule() == without_token(old(loopback).schedule(), token),
            final(loopback).counter() == old(loopback).counter(),
            old(loopback).well_formed() ==> final(loopback).well_formed(),
            *final(self) == *old(self),
    {
        let ghost s = loopback.schedule@;
        let ghost mut origin: Seq<int> = Seq::empty();
        let mut kept: Vec<(Instant, Token)> = Vec::new();
        let mut i: usize = 0;
        while i < loopback.schedule.len()
            invariant
                i <= s.len(),
                s == loopback.schedule@,
                kept@ == without_token(s.take(i as int), token),
                origin.len() == kept@.len(),
                forall|x: int| 0 <= x < origin.len() ==> 0 <= #[trigger] origin[x] < i && kept@[x] == s[origin[x]],
                forall|x: int, y: int| 0 <= x < y < origin.len() ==> #[trigger] origin[x] < #[trigger] origin[y],
            decreases s.len() - i,
        {
            proof {
                assert(s.take(i + 1).drop_last() == s.take(i as int));
                assert(s.take(i + 1).last() == s[i as int]);
            }
            if loopback.schedule[i].1 != token {
                let entry = (loopback.schedule[i].0, loopback.schedule[i].1.duplicate());
                kept.push(entry);
                proof {
                    origin = origin.push(i as int);
                }
            }
            i += 1;
        }
        proof {
            assert(s.take(s.len() as int) == s);
        }
        loopback.schedule = kept;
        proof {
            if old(loopback).well_formed() {
                let k = loopback.schedule();
                assert forall|x: int| 0 <= x < k.len() implies (#[trigger] k[x]).1@ <= loopback.counter() by {
                    assert(k[x] == s[origin[x]]);
                    assert(old(loopback).schedule()[origin[x]] == s[origin[x]]);
                }
                assert forall|x: int, y: int| 0 <= x < y < k.len() implies k[x].1 != k[y].1 by {
                    assert(origin[x] < origin[y]);
                    assert(k[x] == s[origin[x]]);
                    assert(k[y] == s[origin[y]]);
                    assert(old(loopback).schedule()[origin[x]] == s[origin[x]]);
                    assert(old(loopback).schedule()[origin[y]] == s[origin[y]]);
                }
            }
        }
    }
}

} // verus!
