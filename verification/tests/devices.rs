use evsieve::arguments::input::GrabMode;
use evsieve::domain::DomainTracker;
use evsieve::event::{EventCode, EventType, Namespace};
use evsieve::io::input::{should_grab, InputState};
use evsieve::io::output::OutputWriteState;

#[test]
fn input_events_carry_the_previous_value() {
    let mut domains = DomainTracker::new();
    let domain = domains.get_unique_domain();
    let mut state = InputState::new(domain);
    let key_a = EventCode::new(EventType::key(), 30);
    let abs_x = EventCode::new(EventType::abs(), 0);

    let first = state.synthesize_event(key_a, 1);
    assert_eq!((first.value, first.previous_value, first.domain, first.namespace), (1, 0, domain, Namespace::Input));
    let axis = state.synthesize_event(abs_x, 40);
    assert_eq!(axis.previous_value, 0);
    let repeat = state.synthesize_event(key_a, 2);
    assert_eq!(repeat.previous_value, 1);
    let axis = state.synthesize_event(abs_x, 35);
    assert_eq!(axis.previous_value, 40);
    assert_eq!(state.pressed_keys(), vec![key_a]);
    let release = state.synthesize_event(key_a, 0);
    assert_eq!(release.previous_value, 2);
    assert!(state.pressed_keys().is_empty());
}

#[test]
fn grab_decisions() {
    assert!(should_grab(false, GrabMode::Force, true));
    assert!(should_grab(false, GrabMode::Auto, false));
    assert!(!should_grab(false, GrabMode::Auto, true));
    assert!(!should_grab(false, GrabMode::Off, false));
    assert!(!should_grab(true, GrabMode::Force, false));
}

#[test]
fn output_write_state() {
    let mut strict = OutputWriteState::new(false);
    assert!(!strict.syn_if_required());
    assert!(!strict.write(1, 2));
    assert!(!strict.syn_if_required());
    assert!(strict.write(1, 1));
    assert!(strict.syn_if_required());
    assert!(!strict.syn_if_required());

    let mut lenient = OutputWriteState::new(true);
    assert!(lenient.write(1, 2));
    assert!(lenient.write(0, 0));
    assert!(!lenient.syn_if_required());
}
