use evsieve::domain::DomainTracker;
use evsieve::event::{Event, EventCode, EventType, Namespace};
use evsieve::io::loopback::{LoopbackDevice, NextEventDelay};
use evsieve::loopback::{Delay, Loopback};
use evsieve::time::{Duration, Instant};

#[test]
fn loopback_yields_most_overdue_first() {
    let mut loopback = Loopback::new();
    assert_eq!(loopback.time_until_next_wakeup(Instant::from_nanos(0)), Delay::Never);
    let mut handle = loopback.get_handle(Instant::from_nanos(0));
    let clock = Instant::from_nanos(0);
    let late = handle.schedule_wakeup_in(&mut loopback, Duration::from_millis(5), clock);
    let early = handle.schedule_wakeup_in(&mut loopback, Duration::from_millis(2), clock);
    let tie = handle.schedule_wakeup_in(&mut loopback, Duration::from_millis(2), clock);
    assert_eq!(loopback.time_until_next_wakeup(Instant::from_nanos(0)), Delay::Wait(2));
    let now = Instant::from_nanos(10_000_000);
    assert_eq!(loopback.time_until_next_wakeup(now), Delay::Now);
    assert!(loopback.poll_once(now).unwrap().1 == early);
    assert!(loopback.poll_once(now).unwrap().1 == tie);
    assert!(loopback.poll_once(now).unwrap().1 == late);
    assert!(loopback.poll_once(now).is_none());
}

#[test]
fn loopback_cancel_removes_token() {
    let mut loopback = Loopback::new();
    let mut handle = loopback.get_handle_lazy();
    let clock = Instant::from_nanos(100);
    let token = handle.schedule_wakeup_in(&mut loopback, Duration::from_millis(1), clock);
    assert_eq!(handle.now, Some(clock));
    handle.cancel_token(&mut loopback, token);
    assert_eq!(loopback.time_until_next_wakeup(clock), Delay::Never);
}

#[test]
fn loopback_delay_rounds_down_to_milliseconds() {
    let mut loopback = Loopback::new();
    let mut handle = loopback.get_handle(Instant::from_nanos(0));
    handle.schedule_wakeup_in(&mut loopback, Duration::from_nanos(999_999), Instant::from_nanos(0));
    assert_eq!(loopback.time_until_next_wakeup(Instant::from_nanos(0)), Delay::Now);
}

#[test]
fn loopback_device_releases_due_events_in_order() {
    let mut domains = DomainTracker::new();
    let domain = domains.get_unique_domain();
    let ev = |n: u16| Event::new(EventCode::new(EventType::key(), n), 1, 0, domain, Namespace::Output);
    let mut device = LoopbackDevice::new();
    assert_eq!(device.time_until_next_event(Instant::from_nanos(0)), NextEventDelay::Never);
    device.schedule_event(Instant::from_nanos(3_000_000), ev(1));
    device.schedule_event(Instant::from_nanos(1_000_000), ev(2));
    device.schedule_event(Instant::from_nanos(9_000_000), ev(3));
    assert_eq!(device.time_until_next_event(Instant::from_nanos(0)), NextEventDelay::Wait(1));
    assert_eq!(device.poll(Instant::from_nanos(5_000_000)), vec![ev(1), ev(2)]);
    assert_eq!(device.poll(Instant::from_nanos(5_000_000)), vec![]);
    assert_eq!(device.time_until_next_event(Instant::from_nanos(5_000_000)), NextEventDelay::Wait(4));
    assert_eq!(device.poll(Instant::from_nanos(9_000_000)), vec![ev(3)]);
}
