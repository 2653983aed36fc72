use evsieve::scancodes::from_event_code;
use evsieve::ecodes::{event_code, event_type, event_type_name, is_abs_mt};
use evsieve::event::{EventCode, EventType};

#[test]
fn ecodes_unittest() {
    assert!(is_abs_mt(EventCode::new(EventType::abs(), 0x35)));
    assert!(!is_abs_mt(EventCode::new(EventType::abs(), 0x01)));
    assert!(!is_abs_mt(EventCode::new(EventType::key(), 0x35)));
}

#[test]
fn event_code_by_name() {
    let code = event_code("key", "a").unwrap();
    assert!(code == EventCode::new(EventType::key(), 30));
    let code = event_code("abs", "x").unwrap();
    assert!(code == EventCode::new(EventType::abs(), 0));
    assert!(event_code("key", "no_such_key").is_err());
}

#[test]
fn scancodes_of_keys() {
    use_scancodes();
}

fn use_scancodes() {
    assert_eq!(from_event_code(event_code("key", "a").unwrap()), Some(458756));
    assert_eq!(from_event_code(event_code("key", "enter").unwrap()), Some(458792));
    assert_eq!(from_event_code(event_code("key", "f12").unwrap()), Some(458821));
    assert_eq!(from_event_code(event_code("abs", "x").unwrap()), None);
}

#[test]
fn named_event_types_are_found_again_by_name() {
    for value in [0u16, 1, 2, 3, 4, 5, 17, 18, 20, 21, 22, 23, 31] {
        let ev_type = EventType::new(value);
        let name = event_type_name(ev_type);
        assert_eq!(event_type(&name).unwrap(), ev_type, "{}", name);
    }
    assert_eq!(event_type("btn").unwrap(), event_type("key").unwrap());
    assert!(event_type("nonexistent").is_err());
}

#[test]
fn named_event_types_are_found_again_by_number() {
    for value in [0u16, 1, 2, 3, 4, 5, 17, 18, 20, 21, 22, 23, 31] {
        assert_eq!(event_type(&format!("%{}", value)).unwrap(), EventType::new(value));
    }
    assert!(event_type("%32").is_err());
    assert!(event_type("%1000").is_err());
}
