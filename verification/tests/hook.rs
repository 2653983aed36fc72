use evsieve::domain::DomainTracker;
use evsieve::event::{Event, EventCode, EventType, Namespace};
use evsieve::hook::{Hook, Trigger, TriggerResponse};
use evsieve::key::{Key, KeyParser};
use evsieve::loopback::{Delay, Loopback};
use evsieve::time::{Duration, Instant};

fn parse_keys(names: &[&str], domains: &mut DomainTracker) -> Vec<Key> {
    let parser = KeyParser::default_filter();
    names.iter().map(|name| parser.parse(name, domains).unwrap()).collect()
}

fn code(n: u16) -> EventCode {
    EventCode::new(EventType::key(), n)
}

#[test]
fn hook_activates_when_all_keys_are_held() {
    let mut domains = DomainTracker::new();
    let domain = domains.get_unique_domain();
    let keys = parse_keys(&["key:a", "key:b"], &mut domains);
    let mut hook = Hook::new(Trigger::new(keys, None));
    let mut loopback = Loopback::new();
    let mut handle = loopback.get_handle(Instant::from_nanos(0));
    let clock = Instant::from_nanos(0);
    let mut out = Vec::new();

    let a_down = Event::new(code(30), 1, 0, domain, Namespace::User);
    let b_down = Event::new(code(48), 1, 0, domain, Namespace::User);
    let a_up = Event::new(code(30), 0, 1, domain, Namespace::User);
    let c_down = Event::new(code(46), 1, 0, domain, Namespace::User);

    assert_eq!(hook.apply(c_down, &mut out, &mut handle, &mut loopback, clock), TriggerResponse::Unaffected);
    assert_eq!(hook.apply(a_down, &mut out, &mut handle, &mut loopback, clock), TriggerResponse::Matches);
    assert_eq!(hook.apply(b_down, &mut out, &mut handle, &mut loopback, clock), TriggerResponse::Activates);
    assert_eq!(hook.apply(a_up, &mut out, &mut handle, &mut loopback, clock), TriggerResponse::Releases);
    assert_eq!(hook.apply(a_up, &mut out, &mut handle, &mut loopback, clock), TriggerResponse::Matches);
    // Each event passes through unchanged.
    assert_eq!(out, vec![c_down, a_down, b_down, a_up, a_up]);
}

#[test]
fn hook_sends_keys_on_activation_and_release() {
    let mut domains = DomainTracker::new();
    let domain = domains.get_unique_domain();
    let keys = parse_keys(&["key:a"], &mut domains);
    let mut hook = Hook::new(Trigger::new(keys, None));
    let send = KeyParser::default_mask().parse("key:x", &mut domains).unwrap();
    hook.add_send_key(send);
    let mut loopback = Loopback::new();
    let mut handle = loopback.get_handle_lazy();
    let clock = Instant::from_nanos(5);
    let mut out = Vec::new();

    let a_down = Event::new(code(30), 1, 0, domain, Namespace::User);
    let a_up = Event::new(code(30), 0, 1, domain, Namespace::User);
    assert_eq!(hook.apply(a_down, &mut out, &mut handle, &mut loopback, clock), TriggerResponse::Activates);
    assert_eq!(hook.apply(a_up, &mut out, &mut handle, &mut loopback, clock), TriggerResponse::Releases);
    assert_eq!(out.len(), 4);
    assert_eq!(out[1].code, code(45));
    assert_eq!(out[1].value, 1);
    assert_eq!(out[3].code, code(45));
    assert_eq!(out[3].value, 0);
}

#[test]
fn hook_period_expires_trackers() {
    let mut domains = DomainTracker::new();
    let domain = domains.get_unique_domain();
    let keys = parse_keys(&["key:a", "key:b"], &mut domains);
    let period = Duration::from_millis(100);
    let mut hook = Hook::new(Trigger::new(keys, Some(period)));
    let mut loopback = Loopback::new();
    let start = Instant::from_nanos(1_000);
    let mut handle = loopback.get_handle(start);
    let mut out = Vec::new();

    let a_down = Event::new(code(30), 1, 0, domain, Namespace::User);
    let b_down = Event::new(code(48), 1, 0, domain, Namespace::User);
    assert_eq!(hook.apply(a_down, &mut out, &mut handle, &mut loopback, start), TriggerResponse::Matches);
    // The wakeup is due a period after the handle's now.
    assert_eq!(loopback.time_until_next_wakeup(start), Delay::Wait(100));
    assert!(loopback.poll_once(start).is_none());
    let later = Instant::from_nanos(1_000 + 100_000_000);
    let (at, token) = loopback.poll_once(later).unwrap();
    assert_eq!(at, later);
    hook.wakeup(&token);
    // The expired key no longer counts, so pressing the other does not activate the hook.
    let mut handle = loopback.get_handle(later);
    assert_eq!(hook.apply(b_down, &mut out, &mut handle, &mut loopback, later), TriggerResponse::Matches);
}

#[test]
fn trigger_clone_empty_forgets_state() {
    let mut domains = DomainTracker::new();
    let domain = domains.get_unique_domain();
    let keys = parse_keys(&["key:a"], &mut domains);
    let mut trigger = Trigger::new(keys, None);
    let mut loopback = Loopback::new();
    let mut handle = loopback.get_handle_lazy();
    let clock = Instant::from_nanos(0);
    let a_down = Event::new(code(30), 1, 0, domain, Namespace::User);
    assert_eq!(trigger.apply(a_down, &mut handle, &mut loopback, clock), TriggerResponse::Activates);
    assert!(trigger.has_active_tracker_matching_channel((code(30), domain)));
    let copy = trigger.clone_empty();
    assert!(!copy.has_active_tracker_matching_channel((code(30), domain)));
    assert!(copy.has_tracker_matching_channel((code(30), domain)));
    assert!(!copy.has_tracker_matching_channel((code(31), domain)));
}
