use evsieve::arguments::input::{is_direct_event_device, PersistMode, PersistState};
use evsieve::persist::storage::{CachedCapabilities, DeviceCache};

#[test]
fn input_unittest() {
    assert!(is_direct_event_device("/dev/input/event1"));
    assert!(is_direct_event_device("/dev/input/event23"));
    assert!(!is_direct_event_device("/dev/input/by-id/event23"));
    assert!(!is_direct_event_device("/dev/input/event1foo"));
}

#[test]
fn direct_event_device_edge_cases() {
    // The number after the prefix needs at least one ASCII digit.
    assert!(!is_direct_event_device("/dev/input/event"));
    assert!(!is_direct_event_device("/dev/input/event\u{0663}"));
    assert!(!is_direct_event_device("/dev/input/mouse0"));
}

#[test]
fn persist_modes_become_states() {
    assert!(!PersistMode::Off.needs_cache());
    assert!(PersistMode::Full.needs_cache());
    assert!(matches!(PersistMode::Off.to_state_for_device(None), Ok(PersistState::Off)));
    assert!(matches!(PersistMode::Reopen.to_state_for_device(None), Ok(PersistState::Reopen)));
    assert!(matches!(PersistMode::Exit.to_state_for_device(None), Ok(PersistState::Exit)));
    let cache = DeviceCache { location: "/tmp/cache".to_string(), content: CachedCapabilities::NonExistent };
    match PersistMode::Full.to_state_for_device(Some(Ok(cache))) {
        Ok(PersistState::Full(cache)) => assert_eq!(cache.location, "/tmp/cache"),
        _ => panic!("expected a full state"),
    }
    assert_eq!(
        PersistMode::Full.to_state_for_device(Some(Err("no state directory".to_string()))).err(),
        Some("no state directory".to_string())
    );
}
