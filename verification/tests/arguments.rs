use evsieve::arguments::parser::{group_arguments, help_request, HelpRequest};
use evsieve::arguments::map::{BlockArg, MapArg};
use evsieve::arguments::abs_to_rel::AbsToRelArg;
use evsieve::arguments::merge::MergeArg;
use evsieve::arguments::print::PrintArg;
use evsieve::arguments::toggle::{ToggleArg, ToggleMode};
use evsieve::print::EventPrintMode;
use evsieve::arguments::capability::{CapabilityArg, CapabilityOverrideSet, CapabilityOverrideSpec};
use evsieve::arguments::group::ComplexArgGroup;
use evsieve::domain::DomainTracker;
use evsieve::event::{EventCode, EventType};
use evsieve::range::Interval;

fn strings(args: &[&str]) -> Vec<String> {
    args.iter().map(|s| s.to_string()).collect()
}

#[test]
fn argument_group_sorts_arguments() {
    let mut domains = DomainTracker::new();
    let group = ComplexArgGroup::parse(
        strings(&["--input", "/dev/input/event0", "domain=kb", "grab", "key:a"]),
        &["grab", "persist"],
        &["domain", "grab"],
        true,
        true,
        &mut domains,
    )
    .unwrap();
    assert_eq!(group.name(), "--input");
    assert!(group.has_flag("grab"));
    assert!(!group.has_flag("persist"));
    assert_eq!(group.get_clauses("domain"), vec!["kb".to_string()]);
    assert_eq!(group.get_unique_clause("domain").unwrap(), Some("kb".to_string()));
    assert_eq!(group.require_paths().unwrap(), vec!["/dev/input/event0".to_string()]);
    assert_eq!(group.require_keys().unwrap(), vec!["key:a".to_string()]);
    assert!(group.get_unique_clause_or_default_if_flag("grab", "auto").is_ok());
}

#[test]
fn argument_group_rejects_misplaced_arguments() {
    let mut domains = DomainTracker::new();
    assert!(ComplexArgGroup::parse(strings(&["--map", "/dev/null"]), &[], &[], false, true, &mut domains).is_err());
    assert!(ComplexArgGroup::parse(strings(&["--input", "key:a"]), &[], &[], true, false, &mut domains).is_err());
    assert!(ComplexArgGroup::parse(strings(&["--input", "grab", "grab"]), &["grab"], &[], true, false, &mut domains).is_err());
    assert!(ComplexArgGroup::parse(strings(&["--input", "grab=yes"]), &["grab"], &[], true, false, &mut domains).is_err());
    assert!(ComplexArgGroup::parse(strings(&["--input", "domain"]), &[], &["domain"], true, false, &mut domains).is_err());
    assert!(ComplexArgGroup::parse(Vec::new(), &[], &[], true, false, &mut domains).is_err());
    let group = ComplexArgGroup::parse(strings(&["--hook", "key:a"]), &[], &[], false, true, &mut domains).unwrap();
    assert_eq!(group.get_keys_or_empty_key(), vec!["key:a".to_string()]);
    let empty = ComplexArgGroup::parse(strings(&["--hook"]), &[], &["period"], false, true, &mut domains).unwrap();
    assert_eq!(empty.get_keys_or_empty_key(), vec!["".to_string()]);
    assert!(empty.require_keys().is_err());
    assert!(empty.require_unique_clause("period").is_err());
}

#[test]
fn argument_group_flag_or_clause() {
    let mut domains = DomainTracker::new();
    let flagged = ComplexArgGroup::parse(strings(&["--input", "grab"]), &["grab"], &["grab"], true, false, &mut domains).unwrap();
    assert_eq!(flagged.get_unique_clause_or_default_if_flag("grab", "auto").unwrap(), Some("auto".to_string()));
    let clause = ComplexArgGroup::parse(strings(&["--input", "grab=force"]), &["grab"], &["grab"], true, false, &mut domains).unwrap();
    assert_eq!(clause.get_unique_clause_or_default_if_flag("grab", "auto").unwrap(), Some("force".to_string()));
    let both = ComplexArgGroup::parse(strings(&["--input", "grab", "grab=force"]), &["grab"], &["grab"], true, false, &mut domains).unwrap();
    assert!(both.get_unique_clause_or_default_if_flag("grab", "auto").is_err());
    let twice = ComplexArgGroup::parse(strings(&["--input", "grab=a", "grab=b"]), &["grab"], &["grab"], true, false, &mut domains).unwrap();
    assert!(twice.get_unique_clause("grab").is_err());
}

#[test]
fn capability_argument_collects_overrides() {
    let mut domains = DomainTracker::new();
    let arg = CapabilityArg::parse(strings(&["--with-capability", "abs:x:-127~128", "key:a", "flat=3"]), &mut domains).unwrap();
    let entries = arg.overrides.iter();
    assert_eq!(entries.len(), 2);
    assert_eq!(entries[0].0, EventCode::new(EventType::abs(), 0));
    assert_eq!(entries[0].1.range, Some(Interval::new(-127, 128)));
    assert_eq!(entries[0].1.flat, Some(3));
    assert_eq!(entries[1].0, EventCode::new(EventType::key(), 30));
    assert_eq!(entries[1].1.range, None);
}

#[test]
fn capability_argument_errors() {
    let mut domains = DomainTracker::new();
    for bad in [
        vec!["--with-capability"],
        vec!["--with-capability", "abs:x"],
        vec!["--with-capability", "key:a:1"],
        vec!["--with-capability", "key:a@foo"],
        vec!["--with-capability", "key:a", "flat=1"],
        vec!["--with-capability", "abs:x:0~1", "abs:x:0~2"],
        vec!["--with-capability", "abs:x:0~1", "flat=x"],
    ] {
        assert!(CapabilityArg::parse(strings(&bad), &mut domains).is_err(), "{:?}", bad);
    }
}

#[test]
fn capability_overrides_merge() {
    let spec = |range, flat| CapabilityOverrideSpec { range, flat, fuzz: None, value: None };
    let a = spec(Some(Interval::new(0, 1)), None);
    let b = spec(None, Some(4));
    let merged = a.try_merge_with(b).ok().unwrap();
    assert_eq!(merged.range, Some(Interval::new(0, 1)));
    assert_eq!(merged.flat, Some(4));
    assert!(a.try_merge_with(spec(Some(Interval::new(0, 2)), None)).is_err());
    let mut set = CapabilityOverrideSet::new();
    let code = EventCode::new(EventType::abs(), 0);
    assert!(set.try_add(code, a).is_ok());
    assert!(set.try_add(code, b).is_ok());
    assert!(set.try_add(code, spec(Some(Interval::new(5, 6)), None)).is_err());
    assert_eq!(set.iter().len(), 1);
    assert_eq!(set.iter()[0].1, merged);
}

#[test]
fn merge_unittest() {
    let ok = |list: &[&str]| MergeArg::parse(strings(list), &mut DomainTracker::new()).is_ok();
    assert!(ok(&["--merge"]));
    assert!(ok(&["--merge", ""]));
    assert!(ok(&["--merge", "key"]));
    assert!(ok(&["--merge", "key:a"]));
    assert!(ok(&["--merge", "btn"]));
    assert!(ok(&["--merge", "btn:left"]));
    assert!(ok(&["--merge", "key", "btn"]));
    assert!(ok(&["--merge", "@foo"]));

    assert!(!ok(&["--merge", "key:a:1"]));
    assert!(!ok(&["--merge", "abs"]));
    assert!(!ok(&["--merge", "abs:x"]));
    assert!(!ok(&["--merge", "key", "abs"]));
    assert!(!ok(&["--merge", "abs@foo"]));
}

#[test]
fn toggle_arguments() {
    let mut domains = DomainTracker::new();
    let arg = ToggleArg::parse(strings(&["--toggle", "key:a", "key:b", "key:c", "id=main"]), &mut domains).unwrap();
    assert_eq!(arg.size(), 2);
    assert_eq!(arg.mode, ToggleMode::Consistent);
    assert_eq!(arg.id, Some("main".to_string()));
    let arg = ToggleArg::parse(strings(&["--toggle", "key:a", "key:b", "mode=passive"]), &mut domains).unwrap();
    assert_eq!(arg.mode, ToggleMode::Passive);
    assert!(ToggleArg::parse(strings(&["--toggle", "key:a"]), &mut domains).is_err());
    assert!(ToggleArg::parse(strings(&["--toggle", "key:a", "key:b", "mode=other"]), &mut domains).is_err());
    assert!(ToggleArg::parse(strings(&["--toggle", "key:a", "key:b", "id=a:b"]), &mut domains).is_err());
    assert!(ToggleArg::parse(strings(&["--toggle", "key:a", "key:b:1~2"]), &mut domains).is_err());
}

#[test]
fn print_and_abs_to_rel_arguments() {
    let mut domains = DomainTracker::new();
    let arg = PrintArg::parse(strings(&["--print"]), &mut domains).unwrap();
    assert_eq!(arg.keys.len(), 1);
    assert_eq!(arg.mode, EventPrintMode::Detailed);
    let arg = PrintArg::parse(strings(&["--print", "key", "format=direct"]), &mut domains).unwrap();
    assert_eq!(arg.mode, EventPrintMode::Direct);
    assert!(PrintArg::parse(strings(&["--print", "format=fancy"]), &mut domains).is_err());
    let arg = AbsToRelArg::parse(strings(&["--abs-to-rel", "reset=btn:left", "reset=key:a"]), &mut domains).unwrap();
    assert_eq!(arg.reset_keys.len(), 2);
    assert!(AbsToRelArg::parse(strings(&["--abs-to-rel", "key:a"]), &mut domains).is_err());
}

fn map_ok(list: &[&str]) -> bool {
    MapArg::parse(strings(list), &mut DomainTracker::new()).is_ok()
}

#[test]
fn map_argument_validity() {
    assert!(map_ok(&["--map", ""]));
    assert!(map_ok(&["--map", "key"]));
    assert!(map_ok(&["--map", "rel"]));
    assert!(!map_ok(&["--map", "quux"]));
    assert!(map_ok(&["--map", "key:a"]));
    assert!(!map_ok(&["--map", "key:quux"]));
    assert!(map_ok(&["--map", "key:a:1"]));
    assert!(!map_ok(&["--map", "key:a:quux"]));
    assert!(map_ok(&["--map", "key:a:1~"]));
    assert!(map_ok(&["--map", "key:a:~1"]));
    assert!(map_ok(&["--map", "key:a:1~2"]));
    assert!(map_ok(&["--map", "key:a:1..2"]));
    assert!(map_ok(&["--map", "key:a:1~2..1~2"]));

    assert!(map_ok(&["--map", "", ""]));
    assert!(!map_ok(&["--map", "", "key"]));
    assert!(map_ok(&["--map", "", "key:a"]));
    assert!(map_ok(&["--map", "", "key:a:1"]));
    assert!(!map_ok(&["--map", "", "key:a:1..2"]));

    assert!(map_ok(&["--map", "rel:x", "rel:x:x"]));
    assert!(map_ok(&["--map", "rel:x", "rel:x:-x"]));
    assert!(map_ok(&["--map", "rel:x", "rel:x:1.4x"]));
    assert!(map_ok(&["--map", "rel:x", "rel:x:2d"]));
    assert!(map_ok(&["--map", "rel:x", "rel:x:-d"]));
    assert!(map_ok(&["--map", "rel:x", "rel:x:x-d"]));
    assert!(map_ok(&["--map", "rel:x", "rel:x:x+1"]));
    assert!(map_ok(&["--map", "rel:x", "rel:x:1+x"]));
    assert!(!map_ok(&["--map", "rel:x", "rel:x:xd"]));
    assert!(!map_ok(&["--map", "rel:x:x", "rel:x:1"]));
    assert!(!map_ok(&["--map", "rel:x:d", "rel:x:1"]));
    assert!(map_ok(&["--map", "rel:x:1", "rel:x:1"]));
}

#[test]
fn copy_keeps_the_original() {
    let arg = MapArg::parse(strings(&["--copy", "key:a", "key:b"]), &mut DomainTracker::new()).unwrap();
    assert_eq!(arg.output_keys.len(), 2);
    let arg = MapArg::parse(strings(&["--map", "key:a", "key:b", "yield"]), &mut DomainTracker::new()).unwrap();
    assert_eq!(arg.output_keys.len(), 1);
    assert!(MapArg::parse(strings(&["--map"]), &mut DomainTracker::new()).is_err());
    assert!(BlockArg::parse(strings(&["--block"]), &mut DomainTracker::new()).is_ok());
    assert!(BlockArg::parse(strings(&["--block", "key:a", "btn"]), &mut DomainTracker::new()).is_ok());
    assert!(BlockArg::parse(strings(&["--block", "quux"]), &mut DomainTracker::new()).is_err());
}

#[test]
fn command_line_is_grouped_into_arguments() {
    let groups = group_arguments(strings(&["evsieve", "--input", "/dev/a", "grab", "--output", "--map", "key:a", "key:b"])).unwrap();
    assert_eq!(groups, vec![strings(&["--input", "/dev/a", "grab"]), strings(&["--output"]), strings(&["--map", "key:a", "key:b"])]);
    assert_eq!(group_arguments(strings(&["evsieve"])).unwrap().len(), 0);
    assert_eq!(group_arguments(strings(&[])).unwrap().len(), 0);
    let error = group_arguments(strings(&["evsieve", "/dev/a", "--input"])).unwrap_err();
    assert_eq!(error.message(), "Expected an argument starting with --, encountered \"/dev/a\".");
}

#[test]
fn help_and_version_requests() {
    assert_eq!(help_request(&strings(&["evsieve"])), HelpRequest::Usage);
    assert_eq!(help_request(&strings(&["evsieve", "--input", "-h"])), HelpRequest::Usage);
    assert_eq!(help_request(&strings(&["evsieve", "-?"])), HelpRequest::Usage);
    assert_eq!(help_request(&strings(&["evsieve", "--version", "--help"])), HelpRequest::Usage);
    assert_eq!(help_request(&strings(&["evsieve", "--version"])), HelpRequest::Version);
    assert_eq!(help_request(&strings(&["evsieve", "--input", "/dev/a"])), HelpRequest::Neither);
}

#[test]
fn clauses_are_the_values_of_their_words_in_order() {
    let mut domains = DomainTracker::new();
    let group = ComplexArgGroup::parse(
        strings(&["--hook", "key:a", "exec-shell=one", "toggle=t:1", "exec-shell=two", "key:b=1", "exec-shell=one"]),
        &["toggle"],
        &["exec-shell", "toggle"],
        false,
        true,
        &mut domains,
    )
    .unwrap();
    assert_eq!(group.get_clauses("exec-shell"), strings(&["one", "two", "one"]));
    assert_eq!(group.get_clauses("toggle"), strings(&["t:1"]));
    assert_eq!(group.get_clauses("period"), strings(&[]));
}
