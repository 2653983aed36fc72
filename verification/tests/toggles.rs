use evsieve::arguments::hook::{HookToggleAction, HookToggleShift};
use evsieve::arguments::parser::{are_unique, check_unique_locations, reserve_toggle_indices};
use evsieve::arguments::toggle::ToggleArg;
use evsieve::control_fifo::{interpret_lines, parse_command, Command, ControlFifo};
use evsieve::domain::DomainTracker;
use evsieve::error::Context;
use evsieve::state::{Effect, State, ToggleIndex, ToggleState};

fn strings(args: &[&str]) -> Vec<String> {
    args.iter().map(|s| s.to_string()).collect()
}

fn values(state: &State) -> Vec<usize> {
    (0..state.len()).map(|i| state.toggle(ToggleIndex(i)).value()).collect()
}

#[test]
fn toggle_state_wraps_around() {
    let mut toggle = ToggleState::new(3);
    assert_eq!(toggle.value(), 0);
    toggle.advance();
    toggle.advance();
    assert_eq!(toggle.value(), 2);
    toggle.advance();
    assert_eq!(toggle.value(), 0);
    toggle.set_value_wrapped(7);
    assert_eq!(toggle.value(), 1);
    assert_eq!(toggle.size(), 3);
}

#[test]
fn effects_shift_toggles() {
    let mut state = State::new();
    let a = state.create_toggle_with_size(2);
    let b = state.create_toggle_with_size(3);
    let c = state.create_toggle_with_size(4);
    assert_eq!((a, b, c), (ToggleIndex(0), ToggleIndex(1), ToggleIndex(2)));
    state.apply_effect(&Effect::Shift(b, HookToggleShift::ToIndex(2)));
    assert_eq!(values(&state), vec![0, 2, 0]);
    state.apply_effect(&Effect::ShiftAllExcept(HookToggleShift::Next, vec![b]));
    assert_eq!(values(&state), vec![1, 2, 1]);
    state.apply_effect(&Effect::ShiftAllExcept(HookToggleShift::Next, vec![]));
    assert_eq!(values(&state), vec![0, 0, 2]);
}

fn toggle_args(list: &[&[&str]], domains: &mut DomainTracker) -> Vec<ToggleArg> {
    list.iter()
        .map(|args| {
            let mut all = vec!["--toggle".to_string()];
            all.extend(strings(args));
            ToggleArg::parse(all, domains).unwrap()
        })
        .collect()
}

#[test]
fn toggle_ids_are_reserved_in_order() {
    let mut domains = DomainTracker::new();
    let args = toggle_args(&[&["key:a", "key:b", "key:c", "id=first"], &["key:a", "key:b"], &["key:a", "key:b", "id=second"]], &mut domains);
    let mut state = State::new();
    let ids = reserve_toggle_indices(&args, &mut state).unwrap();
    assert_eq!(ids, vec![("first".to_string(), ToggleIndex(0)), ("second".to_string(), ToggleIndex(1))]);
    assert_eq!(state.len(), 2);
    assert_eq!(state.toggle(ToggleIndex(0)).size(), 2);
    assert_eq!(state.toggle(ToggleIndex(1)).size(), 1);

    let args = toggle_args(&[&["key:a", "key:b", "id=same"], &["key:a", "key:c", "id=same"]], &mut domains);
    let mut state = State::new();
    let error = reserve_toggle_indices(&args, &mut state).unwrap_err();
    assert_eq!(error.message(), "Two toggles cannot have the same id.");
}

#[test]
fn hook_toggle_action_effects() {
    let mut state = State::new();
    let first = state.create_toggle_with_size(3);
    let second = state.create_toggle_with_size(2);
    let ids = vec![("first".to_string(), first), ("second".to_string(), second)];

    let action = HookToggleAction::parse(true, strings(&["first:3"])).unwrap();
    let mut effects = action.implement(&state, &ids).unwrap();
    assert_eq!(effects.len(), 2);
    for effect in &effects {
        state.apply_effect(effect);
    }
    assert_eq!(values(&state), vec![2, 1]);
    effects.clear();

    let action = HookToggleAction::parse(false, strings(&["second:3"])).unwrap();
    let error = action.implement(&state, &ids).unwrap_err();
    assert_eq!(error.message(), "The index 3 is out of range for the toggle with id \"second\".");

    let action = HookToggleAction::parse(false, strings(&["third"])).unwrap();
    let error = action.implement(&state, &ids).unwrap_err();
    assert_eq!(error.message(), "No toggle with the id \"third\" exists.");

    let action = HookToggleAction::parse(false, strings(&[])).unwrap();
    assert_eq!(action.implement(&state, &ids).unwrap().len(), 0);
}

#[test]
fn unique_locations() {
    assert!(are_unique(&strings(&["/a", "/b", "/c"])));
    assert!(!are_unique(&strings(&["/a", "/b", "/a"])));
    assert!(are_unique(&strings(&[])));
    assert!(check_unique_locations(&strings(&["/a"]), &strings(&["/f", "/g"])).is_ok());
    assert_eq!(
        check_unique_locations(&strings(&["/a", "/a"]), &strings(&[])).unwrap_err().message(),
        "Multiple output devices cannot create a link at the same location."
    );
    assert_eq!(
        check_unique_locations(&strings(&[]), &strings(&["/f", "/f"])).unwrap_err().message(),
        "A control fifo was specified twice at the same location."
    );
}

#[test]
fn control_fifo_commands() {
    match parse_command("toggle") {
        Ok(Command::Toggle(action)) => {
            assert_eq!(action.global_action(), Some(HookToggleShift::Next));
            assert!(action.by_id_actions().is_empty());
        },
        Err(_) => panic!("toggle is a command"),
    }
    match parse_command("  toggle   first:2 ") {
        Ok(Command::Toggle(action)) => {
            assert_eq!(action.global_action(), None);
            assert_eq!(action.by_id_actions(), &vec![("first".to_string(), HookToggleShift::ToIndex(1))]);
        },
        Err(_) => panic!("toggle with a clause is a command"),
    }
    assert_eq!(parse_command("   ").err().unwrap().message(), "No command provided.");
    assert_eq!(parse_command("jump 3").err().unwrap().message(), "Unknown command name: jump");
    assert!(parse_command("toggle :0").is_err());
}

#[test]
fn control_fifo_lines() {
    let results = interpret_lines(strings(&["toggle", "", "bogus", "toggle first"]));
    assert_eq!(results.len(), 3);
    assert_eq!(results[0].as_ref().ok().unwrap().original_line, "toggle");
    let error = results[1].as_ref().err().unwrap();
    assert_eq!(error.context(), &vec!["While parsing the command \"bogus\":".to_string()]);
    assert_eq!(results[2].as_ref().ok().unwrap().original_line, "toggle first");
}

#[test]
fn control_fifo_command_execution() {
    let mut state = State::new();
    let first = state.create_toggle_with_size(3);
    state.create_toggle_with_size(2);
    let ids = vec![("first".to_string(), first)];
    parse_command("toggle").ok().unwrap().execute(&mut state, &ids).unwrap();
    assert_eq!(values(&state), vec![1, 1]);
    parse_command("toggle first:1").ok().unwrap().execute(&mut state, &ids).unwrap();
    assert_eq!(values(&state), vec![0, 1]);
    assert!(parse_command("toggle nothing").ok().unwrap().execute(&mut state, &ids).is_err());
    assert_eq!(values(&state), vec![0, 1]);
}

#[test]
fn control_fifo_polls_complete_lines() {
    let mut fifo = ControlFifo::create("/run/evsieve.fifo".to_string());
    assert_eq!(fifo.path(), "/run/evsieve.fifo");
    assert!(fifo.poll(b"togg").is_empty());
    let results = fifo.poll(b"le\n\nbogus\ntoggle fir");
    assert_eq!(results.len(), 2);
    assert_eq!(results[0].as_ref().ok().unwrap().original_line, "toggle");
    assert!(results[1].is_err());
    let results = fifo.poll(b"st:2\n");
    assert_eq!(results.len(), 1);
    assert_eq!(results[0].as_ref().ok().unwrap().original_line, "toggle first:2");
}

#[test]
fn toggle_effects_count_clauses_with_ids_and_the_global_action() {
    let mut state = State::new();
    let first = state.create_toggle_with_size(3);
    let second = state.create_toggle_with_size(2);
    let ids = vec![("first".to_string(), first), ("second".to_string(), second)];

    let action = HookToggleAction::parse(false, strings(&["first", "second:2"])).unwrap();
    assert_eq!(action.implement(&state, &ids).unwrap().len(), 2);
    let action = HookToggleAction::parse(false, strings(&["first", ":1", "second"])).unwrap();
    assert_eq!(action.implement(&state, &ids).unwrap().len(), 3);
    let action = HookToggleAction::parse(true, strings(&["second:1"])).unwrap();
    assert_eq!(action.implement(&state, &ids).unwrap().len(), 2);
    let action = HookToggleAction::parse(true, strings(&["first", "second:3"])).unwrap();
    assert!(action.implement(&state, &ids).is_err());
    let action = HookToggleAction::parse(true, strings(&["first", "missing:1"])).unwrap();
    assert!(action.implement(&state, &ids).is_err());
}

#[test]
fn resolving_two_names_gives_the_same_domain_only_for_the_same_name() {
    let mut domains = DomainTracker::new();
    let a = domains.resolve("foo").unwrap();
    let b = domains.resolve("bar").unwrap();
    let c = domains.resolve("foo").unwrap();
    assert_eq!(a, c);
    assert_ne!(a, b);
    let unique = domains.get_unique_domain();
    assert_ne!(unique, a);
    assert_ne!(unique, b);
    assert_ne!(domains.resolve("baz").unwrap(), unique);
    assert!(domains.resolve("@foo").is_err());
    assert!(domains.resolve("").is_err());
}
