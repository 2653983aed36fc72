use evsieve::arguments::input::PersistMode;
use evsieve::arguments::output::RepeatMode;
use evsieve::capability::{AbsInfo, AbsMeta, Capabilities, Capability, RepeatInfo};
use evsieve::domain::DomainTracker;
use evsieve::event::{EventCode, EventType, Namespace};
use evsieve::io::output::{capabilites_by_device, format_output_device_recreation_warning, needs_recreation, plan_device_setup, CodeSetup};
use evsieve::loopback::Delay;
use evsieve::program::{
    action_after_broken_file, action_after_report, action_for_signal, has_no_activity, plan_broken_file, poll_timeout, Action, BrokenFile,
    PollableKind, ReportKind,
};
use evsieve::range::Interval;

fn cap(code: EventCode, domain: evsieve::domain::Domain) -> Capability {
    Capability { code, domain, namespace: Namespace::Output, value_range: Interval { min: 0, max: 1 }, abs_meta: None }
}

#[test]
fn capabilities_are_sorted_by_device() {
    let mut domains = DomainTracker::new();
    let first = domains.get_unique_domain();
    let second = domains.get_unique_domain();
    let key_a = EventCode::new(EventType::key(), 30);
    let key_b = EventCode::new(EventType::key(), 48);
    let caps = vec![cap(key_a, first), cap(key_b, second), cap(key_b, first)];
    let devices = vec![(first, RepeatMode::Enable), (second, RepeatMode::Disable)];
    let map = capabilites_by_device(&caps, &devices);
    assert_eq!(map.len(), 2);
    let first_caps = &map.iter().find(|(d, _)| *d == first).unwrap().1;
    let second_caps = &map.iter().find(|(d, _)| *d == second).unwrap().1;
    let first_codes: Vec<EventCode> = first_caps.codes().clone();
    assert!(first_codes.contains(&key_a));
    assert!(first_codes.contains(&key_b));
    // Enabling repeats adds the repeat codes and the kernel's default.
    assert!(first_codes.contains(&EventCode::new(EventType::rep(), 0)));
    assert!(first_caps.rep_info().is_some());
    assert_eq!(second_caps.codes().clone(), vec![key_b]);
    assert!(second_caps.rep_info().is_none());
}

#[test]
fn device_without_capabilities_gets_an_entry() {
    let mut domains = DomainTracker::new();
    let only = domains.get_unique_domain();
    let map = capabilites_by_device(&Vec::new(), &vec![(only, RepeatMode::Passive)]);
    assert_eq!(map.len(), 1);
    assert!(map[0].1.is_empty());
}

#[test]
fn recreation_needed_when_capabilities_grow() {
    let mut small = Capabilities::new();
    small.add_code(EventCode::new(EventType::key(), 30));
    let mut large = Capabilities::new();
    large.add_code(EventCode::new(EventType::key(), 30));
    large.add_code(EventCode::new(EventType::key(), 31));
    assert!(needs_recreation(&large, &small));
    assert!(!needs_recreation(&small, &large));
}

#[test]
fn recreation_warning_texts() {
    assert_eq!(format_output_device_recreation_warning(&vec![]), "");
    assert_eq!(
        format_output_device_recreation_warning(&vec![None]),
        "Warning: due to a change in the capabilities of the input devices, an output device has been destroyed and recreated. This may cause other programs that have grabbed the output devices to lose track of them."
    );
    assert_eq!(
        format_output_device_recreation_warning(&vec![None, None, None]),
        "Warning: due to a change in the capabilities of the input devices, 3 output devices have been destroyed and recreated. This may cause other programs that have grabbed the output devices to lose track of them."
    );
    assert_eq!(
        format_output_device_recreation_warning(&vec![Some("/dev/input/by-id/a".to_string()), None, Some("/b".to_string())]),
        "Warning: due to a change in the capabilities of the input devices, the output devices \"/dev/input/by-id/a\", \"/b\", and an unnamed output device have been destroyed and recreated. This may cause other programs that have grabbed the output devices to lose track of them."
    );
    assert_eq!(
        format_output_device_recreation_warning(&vec![Some("/a".to_string())]),
        "Warning: due to a change in the capabilities of the input devices, the output device \"/a\" has been destroyed and recreated. This may cause other programs that have grabbed the output devices to lose track of them."
    );
    assert_eq!(
        format_output_device_recreation_warning(&vec![Some("/a".to_string()), None, None]),
        "Warning: due to a change in the capabilities of the input devices, the output device \"/a\", and 2 unnamed output devices have been destroyed and recreated. This may cause other programs that have grabbed the output devices to lose track of them."
    );
}

#[test]
fn broken_files_and_signals() {
    let plan = plan_broken_file(BrokenFile::InputDevice(PersistMode::Reopen));
    assert!(plan.release_pressed_keys && plan.reopen && !plan.exit_now);
    let plan = plan_broken_file(BrokenFile::InputDevice(PersistMode::Exit));
    assert!(plan.exit_now && !plan.reopen);
    let plan = plan_broken_file(BrokenFile::SignalFd);
    assert_eq!(action_after_broken_file(&plan, &vec![PollableKind::InputDevice]), Action::Exit);
    let plan = plan_broken_file(BrokenFile::ControlFifo);
    assert_eq!(action_after_broken_file(&plan, &vec![PollableKind::InputDevice]), Action::Continue);
    assert_eq!(action_after_broken_file(&plan, &vec![PollableKind::SignalFd, PollableKind::ControlFifo]), Action::Exit);
    assert!(plan_broken_file(BrokenFile::PersistSubsystem).shut_down_subsystem);
    assert!(has_no_activity(&vec![]));
    assert!(!has_no_activity(&vec![PollableKind::PersistSubsystem]));
    assert_eq!(action_for_signal(15), Action::Exit);
    assert_eq!(action_for_signal(2), Action::Exit);
    assert_eq!(action_for_signal(1), Action::Exit);
    assert_eq!(action_for_signal(13), Action::Continue);
}

#[test]
fn device_setup_plan() {
    let key_a = EventCode::new(EventType::key(), 30);
    let abs_x = EventCode::new(EventType::new(3), 0);
    let rep_delay = EventCode::new(EventType::new(0x14), 0);
    let rep_period = EventCode::new(EventType::new(0x14), 1);
    let axis = AbsInfo { min_value: 0, max_value: 255, meta: AbsMeta { fuzz: 0, flat: 0, resolution: 0, value: 0 } };

    let mut caps = Capabilities::new();
    caps.add_code(key_a);
    caps.add_code(abs_x);
    caps.set_axis(abs_x, axis);
    caps.add_code(rep_delay);
    caps.add_code(rep_period);
    caps.set_rep_info(Some(RepeatInfo { delay: 250, period: 33 }));
    let setup = plan_device_setup(&caps).unwrap();
    assert_eq!(setup.ev_types.len(), 3);
    assert_eq!(
        setup.codes,
        vec![CodeSetup::Plain(key_a), CodeSetup::Axis(abs_x, axis), CodeSetup::Repeat(rep_delay, 250), CodeSetup::Repeat(rep_period, 33)]
    );
    assert!(setup.warnings.is_empty());

    // Repeat codes without repeat information are left out with a warning.
    let mut caps = Capabilities::new();
    caps.add_code(key_a);
    caps.add_code(rep_delay);
    let setup = plan_device_setup(&caps).unwrap();
    assert_eq!(setup.codes, vec![CodeSetup::Plain(key_a)]);
    assert_eq!(setup.warnings, vec!["Internal error: an output device claims EV_REP capabilities, but no repeat info is available.".to_string()]);

    // An unknown repeat code is left out too.
    let mut caps = Capabilities::new();
    caps.add_code(EventCode::new(EventType::new(0x14), 7));
    caps.set_rep_info(Some(RepeatInfo { delay: 250, period: 33 }));
    let setup = plan_device_setup(&caps).unwrap();
    assert!(setup.codes.is_empty());
    assert_eq!(setup.warnings, vec!["Warning: encountered an unknown capability code under EV_REP: 7.".to_string()]);

    // An axis without information cannot be set up.
    let mut caps = Capabilities::new();
    caps.add_code(abs_x);
    assert!(plan_device_setup(&caps).is_err());
}

#[test]
fn persistence_reports_and_timeouts() {
    let only_fifo = vec![PollableKind::ControlFifo];
    let with_device = vec![PollableKind::ControlFifo, PollableKind::InputDevice];
    assert_eq!(action_after_report(ReportKind::BlueprintDropped, &only_fifo), Action::Exit);
    assert_eq!(action_after_report(ReportKind::BlueprintDropped, &with_device), Action::Continue);
    assert_eq!(action_after_report(ReportKind::Shutdown, &only_fifo), Action::Continue);
    assert_eq!(action_after_report(ReportKind::DeviceOpened, &only_fifo), Action::Continue);
    assert_eq!(poll_timeout(Delay::Now), None);
    assert_eq!(poll_timeout(Delay::Never), Some(-1));
    assert_eq!(poll_timeout(Delay::Wait(25)), Some(25));
}
