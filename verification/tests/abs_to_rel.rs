use evsieve::abs_to_rel::AbsToRel;
use evsieve::capability::Capability;
use evsieve::domain::DomainTracker;
use evsieve::event::{Event, EventCode, EventType, Namespace};
use evsieve::key::KeyParser;
use evsieve::range::Interval;

#[test]
fn abs_to_rel_turns_movement_into_relative_events() {
    let mut domains = DomainTracker::new();
    let domain = domains.get_unique_domain();
    let parser = KeyParser::default_filter();
    let input = parser.parse("abs:x", &mut domains).unwrap();
    let output = KeyParser::default_mask().parse("rel:x", &mut domains).unwrap();
    let reset = parser.parse("btn:touch:0", &mut domains).unwrap();
    let mut abs_to_rel = AbsToRel::new(input, output, vec![reset]);

    let abs_x = EventCode::new(EventType::abs(), 0);
    let rel_x = EventCode::new(EventType::rel(), 0);
    let touch = EventCode::new(EventType::key(), 0x14a);
    let key_a = EventCode::new(EventType::key(), 30);
    let events = vec![
        Event::new(abs_x, 100, 0, domain, Namespace::User),
        Event::new(abs_x, 130, 100, domain, Namespace::User),
        Event::new(key_a, 1, 0, domain, Namespace::User),
        Event::new(abs_x, 120, 130, domain, Namespace::User),
        Event::new(touch, 0, 1, domain, Namespace::User),
        Event::new(abs_x, 500, 120, domain, Namespace::User),
        Event::new(abs_x, 510, 500, domain, Namespace::User),
        Event::new(abs_x, i32::MIN, i32::MAX, domain, Namespace::User),
    ];
    let mut out = Vec::new();
    abs_to_rel.apply_to_all(&events, &mut out);
    let described: Vec<(EventCode, i32)> = out.iter().map(|e| (e.code, e.value)).collect();
    assert_eq!(
        described,
        vec![(rel_x, 30), (key_a, 1), (rel_x, -10), (touch, 0), (rel_x, 10), (rel_x, i32::MIN)]
    );
}

#[test]
fn abs_to_rel_capabilities() {
    let mut domains = DomainTracker::new();
    let domain = domains.get_unique_domain();
    let input = KeyParser::default_filter().parse("abs:x", &mut domains).unwrap();
    let output = KeyParser::default_mask().parse("rel:x", &mut domains).unwrap();
    let abs_to_rel = AbsToRel::new(input, output, vec![]);
    let cap = |code: EventCode| Capability {
        code,
        domain,
        namespace: Namespace::User,
        value_range: Interval { min: 0, max: 255 },
        abs_meta: None,
    };
    let abs_x = EventCode::new(EventType::abs(), 0);
    let key_a = EventCode::new(EventType::key(), 30);
    let mut out = Vec::new();
    abs_to_rel.apply_to_all_caps(&[cap(abs_x), cap(key_a)], &mut out);
    assert_eq!(out.len(), 2);
    assert_eq!(out[0].code, EventCode::new(EventType::rel(), 0));
    assert_eq!(out[0].value_range, Interval { min: i32::MIN, max: i32::MAX });
    assert_eq!(out[1], cap(key_a));
}
