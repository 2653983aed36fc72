use evsieve::arguments::oscillate::OscillateArg;
use evsieve::arguments::delay::DelayArg;
use evsieve::domain::DomainTracker;
use evsieve::arguments::delay::{parse_period_value, period_fits};
use evsieve::time::Duration;

#[test]
fn delay_unittest() {
    assert_eq!(parse_period_value("1").unwrap(), Duration::from_secs(1));
    assert_eq!(parse_period_value("5").unwrap(), Duration::from_secs(5));
    assert_eq!(parse_period_value("2.04").unwrap(), Duration::from_millis(2_040));
    assert_eq!(parse_period_value("0.049874").unwrap(), Duration::from_micros(49874));
    assert_eq!(parse_period_value("0.000082339").unwrap(), Duration::from_nanos(82339));
    parse_period_value("0.0000823391").unwrap_err();
    parse_period_value("0").unwrap_err();
    parse_period_value("0.0").unwrap_err();
    parse_period_value("-1").unwrap_err();
}

#[test]
fn period_errors_and_limits() {
    parse_period_value("").unwrap_err();
    parse_period_value("1.").unwrap_err();
    parse_period_value(".5").unwrap_err();
    parse_period_value("abc").unwrap_err();
    assert_eq!(parse_period_value("0.5").unwrap().as_nanos(), 500_000_000);
    assert!(period_fits("18446744073.709551615"));
    assert!(!period_fits("18446744073.709551616"));
    assert!(!period_fits("99999999999999"));
    assert!(period_fits("123456789012345678901234567890"));
    assert_eq!(parse_period_value("18446744073.709551615").unwrap().as_nanos(), u64::MAX);
}

#[test]
fn delay_argument() {
    let strings = |list: &[&str]| list.iter().map(|s| s.to_string()).collect::<Vec<String>>();
    let mut domains = DomainTracker::new();
    let arg = DelayArg::parse(strings(&["--delay", "key:a", "period=0.5"]), &mut domains).unwrap();
    assert_eq!(arg.keys.len(), 1);
    assert_eq!(arg.period.as_nanos(), 500_000_000);
    let arg = DelayArg::parse(strings(&["--delay", "period=2"]), &mut domains).unwrap();
    assert_eq!(arg.keys.len(), 1);
    assert_eq!(arg.period.as_nanos(), 2_000_000_000);
    assert!(DelayArg::parse(strings(&["--delay", "key:a"]), &mut domains).is_err());
    assert!(DelayArg::parse(strings(&["--delay", "period=1", "period=2"]), &mut domains).is_err());
    assert!(DelayArg::parse(strings(&["--delay", "period=0"]), &mut domains).is_err());
}

#[test]
fn oscillate_argument() {
    let strings = |list: &[&str]| list.iter().map(|s| s.to_string()).collect::<Vec<String>>();
    let mut domains = DomainTracker::new();
    let arg = OscillateArg::parse(strings(&["--oscillate", "key:a", "period=0.000000003"]), &mut domains).unwrap();
    assert_eq!(arg.active_time.as_nanos(), 2);
    assert_eq!(arg.inactive_time.as_nanos(), 1);
    let arg = OscillateArg::parse(strings(&["--oscillate", "period=1"]), &mut domains).unwrap();
    assert_eq!(arg.active_time.as_nanos(), 500_000_000);
    assert_eq!(arg.inactive_time.as_nanos(), 500_000_000);
    assert!(OscillateArg::parse(strings(&["--oscillate", "period=0.000000001"]), &mut domains).is_err());
    assert!(OscillateArg::parse(strings(&["--oscillate", "abs:x", "period=1"]), &mut domains).is_err());
    assert!(OscillateArg::parse(strings(&["--oscillate", "key:a:1", "period=1"]), &mut domains).is_err());
}

#[test]
fn delay_holds_events_back_for_its_period() {
    let mut domains = evsieve::domain::DomainTracker::new();
    let domain = domains.get_unique_domain();
    let key = evsieve::key::KeyParser::default_filter().parse("key:a", &mut domains).unwrap();
    let mut delay = evsieve::delay::Delay::new(vec![key], evsieve::time::Duration::from_millis(20));
    let mut loopback = evsieve::loopback::Loopback::new();
    let start = evsieve::time::Instant::from_nanos(1_000_000);
    let mut handle = loopback.get_handle(start);
    let a = evsieve::event::EventCode::new(evsieve::event::EventType::key(), 30);
    let b = evsieve::event::EventCode::new(evsieve::event::EventType::key(), 48);
    let events = vec![
        evsieve::event::Event::new(a, 1, 0, domain, evsieve::event::Namespace::User),
        evsieve::event::Event::new(b, 1, 0, domain, evsieve::event::Namespace::User),
    ];
    let mut out = Vec::new();
    delay.apply_to_all(&events, &mut out, &mut handle, &mut loopback, start);
    assert_eq!(out, vec![events[1]]);

    let mut later = Vec::new();
    delay.wakeup(evsieve::time::Instant::from_nanos(20_000_000), &mut later);
    assert!(later.is_empty());
    delay.wakeup(evsieve::time::Instant::from_nanos(21_000_000), &mut later);
    assert_eq!(later, vec![events[0]]);
    delay.wakeup(evsieve::time::Instant::from_nanos(50_000_000), &mut later);
    assert_eq!(later.len(), 1);
}
