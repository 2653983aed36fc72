use evsieve::arguments::hook::HookArg;
use evsieve::arguments::withhold::WithholdArg;
use evsieve::domain::DomainTracker;

fn strings(args: &[&str]) -> Vec<String> {
    args.iter().map(|s| s.to_string()).collect()
}

/// Parses the hooks and then the --withhold argument that follows them, and checks whether the
/// hooks can be withheld. Hooks that cannot be parsed count as an error too.
fn withhold_ok(hooks: &[&[&str]], withhold: &[&str]) -> bool {
    let mut domains = DomainTracker::new();
    let mut parsed = Vec::new();
    for hook in hooks {
        let mut args = vec!["--hook".to_string()];
        args.extend(strings(hook));
        match HookArg::parse(args, &mut domains) {
            Ok(arg) => parsed.push(arg),
            Err(_) => return false,
        }
    }
    let mut args = vec!["--withhold".to_string()];
    args.extend(strings(withhold));
    let arg = match WithholdArg::parse(args, &mut domains) {
        Ok(arg) => arg,
        Err(_) => return false,
    };
    arg.associate_hooks(&parsed, &mut domains).is_ok()
}

#[test]
fn withhold_after_plain_key_hook() {
    assert!(withhold_ok(&[&["key:a"]], &[]));
    assert!(withhold_ok(&[&["key:a", "key:b"]], &[]));
}

#[test]
fn withhold_rejects_keys_of_other_types() {
    assert!(!withhold_ok(&[&["abs:x"]], &[]));
    assert!(!withhold_ok(&[&["abs:x"], &["key:a"]], &[]));
    assert!(!withhold_ok(&[&["key:a"], &["abs:x"]], &[]));
    assert!(!withhold_ok(&[&["key:a", "abs:x"]], &[]));
    // Keys that the withheld keys do not match are left alone.
    assert!(withhold_ok(&[&["key:a", "abs:x"]], &["key"]));
}

#[test]
fn withhold_rejects_keys_with_values() {
    assert!(!withhold_ok(&[&["key:a:1~"]], &[]));
    assert!(!withhold_ok(&[&["key:a", "key:b:1"]], &[]));
    assert!(!withhold_ok(&[&["key:a", "key:b:1"]], &["key"]));
    assert!(withhold_ok(&[&["key:a", "key:b:1"]], &["key:a"]));
    assert!(withhold_ok(&[&["key:a", "key:b:1"]], &["btn"]));
}

#[test]
fn withhold_rejects_keys_of_any_type() {
    assert!(!withhold_ok(&[&[""]], &[]));
    assert!(!withhold_ok(&[&["@foo"]], &["key"]));
}

#[test]
fn withhold_needs_a_hook() {
    assert!(!withhold_ok(&[], &[]));
    assert!(!withhold_ok(&[], &["key"]));
    assert!(!withhold_ok(&[&[]], &["key"]));
}

#[test]
fn withhold_rejects_hooks_that_send_what_they_hook() {
    assert!(!withhold_ok(&[&["key:a", "send-key=key:a"]], &[]));
    assert!(!withhold_ok(&[&["key:a"], &["key:b", "send-key=key:a"]], &[]));
    assert!(withhold_ok(&[&["key:a", "send-key=key:b"]], &[]));
}

#[test]
fn withhold_parses_only_key_types() {
    let mut domains = DomainTracker::new();
    assert!(WithholdArg::parse(strings(&["--withhold", "key", "btn:left"]), &mut domains).is_ok());
    assert_eq!(WithholdArg::parse(strings(&["--withhold", "key", "btn:left"]), &mut domains).unwrap().keys.len(), 2);
    assert!(WithholdArg::parse(strings(&["--withhold", "abs"]), &mut domains).is_err());
    assert!(WithholdArg::parse(strings(&["--withhold", "key:a:1"]), &mut domains).is_err());
    assert!(WithholdArg::parse(strings(&["--withhold", "key:a", "bogus=1"]), &mut domains).is_err());
    // Without keys, every key is withheld.
    assert_eq!(WithholdArg::parse(strings(&["--withhold"]), &mut domains).unwrap().keys.len(), 1);
}

#[test]
fn hook_argument_clauses() {
    let mut domains = DomainTracker::new();
    let hook = HookArg::parse(strings(&["--hook", "key:a", "key:b", "send-key=key:x", "send-event=key:y:1", "period=0.5", "sequential"]), &mut domains).unwrap();
    assert_eq!(hook.keys_and_str.len(), 2);
    assert_eq!(hook.keys_and_str[0].1, "key:a");
    assert_eq!(hook.keys_and_str[1].1, "key:b");
    assert!(hook.sequential);
    assert_eq!(hook.period.map(|d| d.as_millis()), Some(500));
    assert_eq!(hook.event_dispatcher.on_press.len(), 2);
    assert_eq!(hook.event_dispatcher.on_release.len(), 1);
    assert!(HookArg::parse(strings(&["--hook", "key:a", "send-key=key:x:1"]), &mut domains).is_err());
    assert!(HookArg::parse(strings(&["--hook", "key:a", "send-event=key:x"]), &mut domains).is_err());
    assert!(HookArg::parse(strings(&["--hook", "key:a", "period=-1"]), &mut domains).is_err());
    assert!(HookArg::parse(strings(&["--hook", "key:a", "unknown=1"]), &mut domains).is_err());
}

#[test]
fn hook_argument_shell_and_toggle() {
    let mut domains = DomainTracker::new();
    let hook = HookArg::parse(strings(&["--hook", "key:a", "exec-shell=echo hi", "toggle", "toggle=t:2"]), &mut domains).unwrap();
    assert_eq!(hook.exec_shell, vec!["echo hi".to_string()]);
    assert!(hook.toggle_action.global_action().is_some());
    assert_eq!(hook.toggle_action.by_id_actions().len(), 1);
}
