use evsieve::capability::{Capabilities, RepeatInfo};
use evsieve::event::{EventCode, EventType};
use evsieve::io::persist::{check_reopened_device, paths_missing_from, plan_unopened_device, UnopenedPlan, WatchTable};
use evsieve::persist::storage::{CachedCapabilities, DeviceCache};

fn strings(args: &[&str]) -> Vec<String> {
    args.iter().map(|s| s.to_string()).collect()
}

fn keyboard() -> Capabilities {
    let mut caps = Capabilities::new();
    caps.add_code(EventCode::new(EventType::key(), 30));
    caps.add_code(EventCode::new(EventType::key(), 48));
    caps
}

#[test]
fn reopened_device_must_be_the_same() {
    let caps = keyboard();
    assert!(check_reopened_device("/dev/input/event3", b"Keyboard", b"Keyboard", &caps, &keyboard()).is_ok());

    let error = check_reopened_device("/dev/input/event3", b"Keyboard", b"Mouse", &caps, &keyboard()).unwrap_err();
    assert_eq!(
        error.message(),
        "Cannot reopen input device \"/dev/input/event3\": the reattached device's name differs from the original name. Original: Keyboard, new: Mouse"
    );

    let mut other = keyboard();
    other.set_rep_info(Some(RepeatInfo { delay: 250, period: 33 }));
    let error = check_reopened_device("/dev/input/event3", b"Keyboard", b"Keyboard", &caps, &other).unwrap_err();
    assert_eq!(
        error.message(),
        "Cannot reopen input device \"/dev/input/event3\": the reattached device's capabilities are different from the original device that disconnected."
    );

    let mut more = keyboard();
    more.add_code(EventCode::new(EventType::key(), 46));
    assert!(check_reopened_device("/dev/input/event3", b"Keyboard", b"Keyboard", &caps, &more).is_err());
}

#[test]
fn watch_table_tracks_paths_per_watch() {
    let mut table = WatchTable::new();
    table.add(1, "/dev/input".to_string());
    table.add(2, "/dev/input/by-id".to_string());
    table.add(1, "/dev/input/".to_string());
    assert_eq!(table.watched_paths(), strings(&["/dev/input", "/dev/input/", "/dev/input/by-id"]));

    // A watch that still watches another path stays.
    assert!(table.remove_path(&"/dev/input".to_string()).is_empty());
    assert_eq!(table.watched_paths(), strings(&["/dev/input/", "/dev/input/by-id"]));
    // A watch without paths leaves the table.
    assert_eq!(table.remove_path(&"/dev/input/by-id".to_string()), vec![2]);
    assert_eq!(table.watched_paths(), strings(&["/dev/input/"]));
    assert!(table.remove_path(&"/nowhere".to_string()).is_empty());
}

#[test]
fn watched_paths_to_change() {
    let watched = strings(&["/dev/input", "/dev/input/by-id"]);
    let wanted = strings(&["/dev/input/by-id", "/dev/input/by-path"]);
    assert_eq!(paths_missing_from(&watched, &wanted), strings(&["/dev/input"]));
    assert_eq!(paths_missing_from(&wanted, &watched), strings(&["/dev/input/by-path"]));
}

#[test]
fn devices_missing_at_startup() {
    use_plan(None, "fail");
    let known = DeviceCache { location: "/var/lib/evsieve/caps".to_string(), content: CachedCapabilities::Known(keyboard()) };
    use_plan(Some(known), "known");
    let missing = DeviceCache { location: "/var/lib/evsieve/caps".to_string(), content: CachedCapabilities::NonExistent };
    use_plan(Some(missing), "missing");
    let corrupted = DeviceCache { location: "/var/lib/evsieve/caps".to_string(), content: CachedCapabilities::Corrupted };
    use_plan(Some(corrupted), "corrupted");
}

fn use_plan(cache: Option<DeviceCache>, expected: &str) {
    let (plan, message) = plan_unopened_device(cache, "/dev/input/by-id/kbd");
    match (plan, expected) {
        (UnopenedPlan::Fail, "fail") => assert!(message.is_none()),
        (UnopenedPlan::Blueprint(caps), "known") => {
            assert_eq!(caps, keyboard());
            assert!(message.is_none());
        },
        (UnopenedPlan::Blueprint(caps), "missing") => {
            assert!(caps.codes().is_empty());
            assert!(message.unwrap().starts_with("Error: the input device /dev/input/by-id/kbd is not present, and its capabilities have not been stored"));
        },
        (UnopenedPlan::Blueprint(caps), "corrupted") => {
            assert!(caps.codes().is_empty());
            assert!(message.unwrap().ends_with("The file in question is stored at: /var/lib/evsieve/caps"));
        },
        _ => panic!("unexpected plan for {}", expected),
    }
}
