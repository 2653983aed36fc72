use evsieve::domain::DomainTracker;
use evsieve::event::{Event, EventCode, EventType, Namespace};
use evsieve::key::{resembles_key, Key, KeyParser};
use evsieve::range::Interval;

#[test]
fn unittest_intersection() {
    let parser = KeyParser::default_filter();
    let mut domains = DomainTracker::new();
    let expected_to_intersect = [
        ("key", "key"),
        ("key:a", "key:a"),
        ("key", "key:a"),
        ("key:a", "key"),
        ("key:a:1..2@foo", "key:a:1..2@foo"),
        ("key:a:1..2@foo", "@foo"),
        ("", ""),
        ("", "key:a:1..2@foo"),
        ("%1", "%1"),
        ("%1", "key"),
        ("%1", "key:left"),
        ("%1", "btn:left"),
        ("%1", ""),
    ];
    let expected_not_to_intersect = [
        ("key:a", "key:b"),
        ("key:a", "btn"),
        ("btn", "key:a"),
        ("key", "btn"),
        ("abs", "rel"),
        ("%1", "%2"),
        ("key:a@foo", "key:a@bar"),
        ("key:a@foo", "@bar"),
        ("key:a:1", "key:a:2"),
        ("key:a:1..2", "key:a:0..2"),
        ("%1", "abs:x"),
    ];

    for (key_1, key_2) in expected_to_intersect {
        let a = parser.parse(key_1, &mut domains).unwrap();
        let b = parser.parse(key_2, &mut domains).unwrap();
        assert!(a.intersects_with(&b), "{} {}", key_1, key_2);
        assert!(b.intersects_with(&a), "{} {}", key_2, key_1);
    }
    for (key_1, key_2) in expected_not_to_intersect {
        let a = parser.parse(key_1, &mut domains).unwrap();
        let b = parser.parse(key_2, &mut domains).unwrap();
        assert!(!a.intersects_with(&b), "{} {}", key_1, key_2);
        assert!(!b.intersects_with(&a), "{} {}", key_2, key_1);
    }
}

#[test]
fn unittest_requires_range() {
    let parser = KeyParser::default_filter();
    let mut domains = DomainTracker::new();
    assert!(parser.parse("abs:x", &mut domains).unwrap().split_value().1.is_none());
    assert!(parser.parse("abs:x:~", &mut domains).unwrap().split_value().1 == Some(Interval::new(None, None)));
    assert!(parser.parse("abs:x:1", &mut domains).unwrap().split_value().1 == Some(Interval::new(1, 1)));
    assert!(parser.parse("abs:x:1~1", &mut domains).unwrap().split_value().1 == Some(Interval::new(1, 1)));
}

fn key_a() -> EventCode {
    EventCode::new(EventType::key(), 30)
}

#[test]
fn key_matches_events_of_its_code_and_value() {
    let parser = KeyParser::default_filter();
    let mut domains = DomainTracker::new();
    let key = parser.parse("key:a:1", &mut domains).unwrap();
    let domain = domains.get_unique_domain();
    let pressed = Event::new(key_a(), 1, 0, domain, Namespace::User);
    let released = Event::new(key_a(), 0, 1, domain, Namespace::User);
    let other_namespace = Event::new(key_a(), 1, 0, domain, Namespace::Input);
    assert!(key.matches(&pressed));
    assert!(!key.matches(&released));
    assert!(!key.matches(&other_namespace));
    assert!(key.matches_channel((key_a(), domain)));
    assert!(!key.matches_channel((EventCode::new(EventType::key(), 48), domain)));
}

#[test]
fn key_parse_errors() {
    let parser = KeyParser::default_filter();
    let mut domains = DomainTracker::new();
    for bad in ["key:", "key:a:", "key::", "key:a:1:2", ":a", "syn:report", "key:nonexistent", "key:a:2~1",
                "key:a:x", "key:a@", "key:a@@foo", "foo:bar", "key:a:0.5d"] {
        assert!(parser.parse(bad, &mut domains).is_err(), "{}", bad);
    }
    let pure = KeyParser::pure();
    assert!(pure.parse("key:a:1", &mut domains).is_err());
    assert!(pure.parse("key:a:1..0", &mut domains).is_err());
    let mask = KeyParser::default_mask();
    assert!(mask.parse("key", &mut domains).is_err());
    assert!(mask.parse("key:a:1..0", &mut domains).is_err());
    assert!(mask.parse("abs:x:2x", &mut domains).is_ok());
}

#[test]
fn key_merge_sets_code_and_bounds_value() {
    let parser = KeyParser::default_mask();
    let mut domains = DomainTracker::new();
    let key = parser.parse("key:b:0~1", &mut domains).unwrap();
    let domain = domains.get_unique_domain();
    let event = Event::new(key_a(), 2, 0, domain, Namespace::User);
    let merged = key.merge(event);
    assert_eq!(merged.code, EventCode::new(EventType::key(), 48));
    assert_eq!(merged.value, 1);
    assert_eq!(merged.previous_value, 0);
    assert_eq!(key.requires_event_code(), Some(EventCode::new(EventType::key(), 48)));
    assert_eq!(key.requires_event_type(), Some(EventType::key()));
}

#[test]
fn key_domains_resolve_consistently() {
    let parser = KeyParser::default_filter();
    let mut domains = DomainTracker::new();
    let a = parser.parse("key:a@kb", &mut domains).unwrap();
    let b = parser.parse("@kb", &mut domains).unwrap();
    assert!(a.intersects_with(&b));
    let keys = parser.parse_all(&["key:a".to_string(), "key:b@kb".to_string()], &mut domains).unwrap();
    assert_eq!(keys.len(), 2);
    assert!(!keys[0].intersects_with(&keys[1]));
    assert!(parser.parse_all(&["key:a".to_string(), "key:".to_string()], &mut domains).is_err());
}

#[test]
fn key_values_can_be_set_and_popped() {
    let parser = KeyParser::default_filter();
    let mut domains = DomainTracker::new();
    let mut key = parser.parse("key:a:1", &mut domains).unwrap();
    assert_eq!(key.pop_value(), Some(Interval::new(1, 1)));
    assert_eq!(key.pop_value(), None);
    key.set_value(Interval::new(2, 3));
    assert_eq!(key.split_value().1, Some(Interval::new(2, 3)));
    let copy = Key::copy();
    assert!(copy.split_value().1.is_none());
}

#[test]
fn key_resemblance() {
    let mut domains = DomainTracker::new();
    assert!(resembles_key("key:a", &mut domains));
    assert!(resembles_key("key:nonexistent", &mut domains));
    assert!(resembles_key("@foo", &mut domains));
    assert!(!resembles_key("/dev/input/event0", &mut domains));
    assert!(!resembles_key("grab=force", &mut domains));
    assert!(resembles_key("abs:x:2x", &mut domains));
}

#[test]
fn key_parser_and_filter_keeps_common_types() {
    let mut a = KeyParser::default_filter();
    a.type_whitelist = Some(vec![EventType::abs(), EventType::key()]);
    let mut b = KeyParser::default_filter();
    b.type_whitelist = Some(vec![EventType::key(), EventType::rel()]);
    let joined = a.and_filter(b);
    assert_eq!(joined.type_whitelist, Some(vec![EventType::key()]));
    let mut domains = DomainTracker::new();
    assert!(joined.parse("key:a", &mut domains).is_ok());
    assert!(joined.parse("abs:x", &mut domains).is_err());
}

#[test]
fn pure_keys_match_exactly_their_channels() {
    let mut domains = DomainTracker::new();
    let domain = domains.get_unique_domain();
    let key = KeyParser::pure().parse("key", &mut domains).unwrap();
    let btn_left = EventCode::new(EventType::key(), 0x110);
    let event = Event::new(btn_left, 1, 0, domain, Namespace::User);
    assert!(!key.matches(&event));
    assert!(!key.matches_channel((btn_left, domain)));
    let a = Event::new(key_a(), 1, 0, domain, Namespace::User);
    assert!(key.matches(&a));
    assert!(key.matches_channel((key_a(), domain)));
}

#[test]
fn keys_of_a_filtered_parser_are_keys_of_both_parsers() {
    let mut domains = DomainTracker::new();
    let joined = KeyParser::default_filter().and_filter(KeyParser::pure());
    for key in ["key:a", "key:a:1", "abs:x:1~5", "key:b@foo", "btn:left:0"] {
        if joined.parse(key, &mut domains).is_ok() {
            assert!(KeyParser::default_filter().parse(key, &mut domains).is_ok(), "{}", key);
            assert!(KeyParser::pure().parse(key, &mut domains).is_ok(), "{}", key);
        }
    }
    assert!(joined.parse("key:a", &mut domains).is_ok());
    assert!(joined.parse("abs:x:1~5", &mut domains).is_err());
}

#[test]
fn strings_that_the_default_parsers_accept_resemble_keys() {
    let mut domains = DomainTracker::new();
    for key in ["key:a", "key:a:1~2", "abs:x:-5~5", "rel:x:2x", "key", "btn:left:0..1"] {
        let accepted = KeyParser::default_filter().parse(key, &mut domains).is_ok()
            || KeyParser::default_mask().parse(key, &mut domains).is_ok();
        if accepted {
            assert!(resembles_key(key, &mut domains), "{}", key);
        }
    }
    assert!(resembles_key("foo@bar=1", &mut domains));
    assert!(resembles_key("a%b", &mut domains));
    assert!(!resembles_key("/key:a", &mut domains));
}
