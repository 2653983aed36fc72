//! The --toggle argument.

use vstd::prelude::*;

use crate::arguments::group::{spec_group_from, spec_unique_clause, ComplexArgGroup};
use crate::domain::DomainTracker;
use crate::error::ArgumentError;
use crate::event::Namespace;
use crate::key::{lemma_parsed_key_stable, plain_parser, spec_parsed_key, spec_parses, Key, KeyParser, ParserView};
use crate::text::{chars_eq, chars_of, contains_char, join_strs, strings_view};

verus! {

/// How a toggle treats the events of its keys when it switches.
#[derive(Clone, Copy, PartialEq, Eq, Debug, Structural)]
pub enum ToggleMode {
    /// Keys that were pressed while the toggle pointed elsewhere are released at their old
    /// output, so that no key gets stuck.
    Consistent,
    /// Events go wherever the toggle points at the moment.
    Passive,
}

/// A --toggle argument: events of the input key go to one of the output keys at a time.
pub struct ToggleArg {
    pub input_key: Key,
    pub output_keys: Vec<Key>,
    pub id: Option<String>,
    pub mode: ToggleMode,
}

/// What a --toggle argument says, as plain values.
pub struct ToggleView {
    pub input: Seq<char>,
    pub outputs: Seq<Seq<char>>,
    pub id: Option<Seq<char>>,
    pub mode: ToggleMode,
}

pub open spec fn toggle_clauses() -> Seq<&'static str> {
    seq!["id", "mode"]
}

/// The parser of the input key: a filter.
pub open spec fn toggle_input_parser() -> ParserView {
    plain_parser(true, true, true, true, false)
}

/// The parser of the output keys: no ranges, transitions, types or relative values.
pub open spec fn toggle_output_parser() -> ParserView {
    plain_parser(true, false, false, false, false)
}

pub open spec fn spec_toggle_mode(mode: Option<Seq<char>>) -> Option<ToggleMode> {
    match mode {
        None => Some(ToggleMode::Consistent),
        Some(m) => if m == "consistent"@ {
            Some(ToggleMode::Consistent)
        } else if m == "passive"@ {
            Some(ToggleMode::Passive)
        } else {
            None
        },
    }
}

/// What a --toggle argument says, or None if it is not acceptable: it needs an input key and at
/// least one output key that parse, a known mode, and an id without colons.
pub open spec fn spec_toggle(args: Seq<Seq<char>>) -> Option<ToggleView> {
    match spec_group_from(args, Seq::empty(), toggle_clauses(), false, true) {
        None => None,
        Some(group) => match (spec_unique_clause(group, "mode"@), spec_unique_clause(group, "id"@)) {
            (Some(mode_str), Some(id)) => match spec_toggle_mode(mode_str) {
                None => None,
                Some(mode) => {
                    let outputs = group.keys.skip(1);
                    if group.keys.len() < 2 || !spec_parses(toggle_input_parser(), group.keys[0])
                        || !(forall|i: int| 0 <= i < outputs.len() ==> spec_parses(toggle_output_parser(), #[trigger] outputs[i]))
                        || (id matches Some(s) && s.contains(':')) {
                        None
                    } else {
                        Some(ToggleView { input: group.keys[0], outputs, id, mode })
                    }
                },
            },
            _ => None,
        },
    }
}

impl ToggleArg {
    /// The argument holds what the view says, its keys parsed with the domains given.
    pub open spec fn matches_view(&self, view: ToggleView, domains: DomainTracker) -> bool {
        &&& self.input_key@ == spec_parsed_key(toggle_input_parser(), view.input, domains)
        &&& self.output_keys@.len() == view.outputs.len()
        &&& forall|i: int| 0 <= i < view.outputs.len() ==> (#[trigger] self.output_keys@[i])@
            == spec_parsed_key(toggle_output_parser(), view.outputs[i], domains)
        &&& crate::arguments::output::opt_string_view(self.id) == view.id
        &&& self.mode == view.mode
    }

    /// Parses a --toggle argument, resolving the domain names of its keys.
    pub fn parse(args: Vec<String>, domains: &mut DomainTracker) -> (res: Result<ToggleArg, ArgumentError>)
        requires
            old(domains).well_formed(),
            old(domains).next_id() + 2 * args@.len() + 2 < usize::MAX,
        ensures
            final(domains).well_formed(),
            final(domains).next_id() <= old(domains).next_id() + 2 * args@.len() + 2,
            forall|name: Seq<char>| old(domains).lookup(name) is Some ==> final(domains).lookup(name) == old(domains).lookup(name),
            match res {
                Ok(arg) => spec_toggle(strings_view(args@)) matches Some(view) && arg.matches_view(view, *final(domains)),
                Err(_) => spec_toggle(strings_view(args@)) is None,
            },
    {
        let ghost argv = strings_view(args@);
        let flags: Vec<&str> = Vec::new();
        let clauses: Vec<&str> = vec!["id", "mode"];
        proof {
            assert(flags@ =~= Seq::<&str>::empty());
            assert(clauses@ =~= toggle_clauses());
        }
        let arg_group = ComplexArgGroup::parse(args, flags.as_slice(), clauses.as_slice(), false, true, domains)?;
        proof {
            crate::arguments::group::lemma_group_keys_bounded(argv, Seq::empty(), toggle_clauses(), false, true);
        }
        let mode = match arg_group.get_unique_clause("mode")? {
            None => ToggleMode::Consistent,
            Some(mode_str) => {
                let m = chars_of(mode_str.as_str());
                if chars_eq(m.as_slice(), chars_of("consistent").as_slice()) {
                    ToggleMode::Consistent
                } else if chars_eq(m.as_slice(), chars_of("passive").as_slice()) {
                    ToggleMode::Passive
                } else {
                    return Err(ArgumentError::new(join_strs(&["Invalid toggle mode specified: ", mode_str.as_str()])));
                }
            },
        };
        let keys = arg_group.require_keys()?;
        if keys.len() < 2 {
            return Err(ArgumentError::new(join_strs(&["A --toggle argument requires an input key and at least one output key."])));
        }
        let ghost key_views = strings_view(keys@);
        proof {
            assert(key_views == arg_group@.keys);
            assert(keys@[0]@ == key_views[0]);
        }
        let input_parser = KeyParser::default_filter();
        let ghost domains_start = *domains;
        let input_key = input_parser.parse(keys[0].as_str(), domains)?;
        let output_parser = KeyParser {
            default_value: "",
            allow_values: true,
            allow_ranges: false,
            allow_transitions: false,
            allow_types: false,
            allow_relative_values: false,
            type_whitelist: None,
            namespace: Namespace::User,
        };
        proof {
            reveal_strlit("");
            assert(output_parser.default_value@ =~= Seq::<char>::empty());
            assert(output_parser@ == toggle_output_parser());
        }
        let mut rest: Vec<String> = Vec::new();
        let mut i: usize = 1;
        while i < keys.len()
            invariant
                1 <= i <= keys@.len(),
                rest@.len() == i - 1,
                forall|j: int| 0 <= j < i - 1 ==> (#[trigger] rest@[j])@ == keys@[j + 1]@,
            decreases keys@.len() - i,
        {
            rest.push(keys[i].clone());
            i += 1;
        }
        let ghost outputs = key_views.skip(1);
        proof {
            assert forall|j: int| 0 <= j < rest@.len() implies #[trigger] rest@[j]@ == outputs[j] by {
                assert(keys@[j + 1]@ == key_views[j + 1]);
            }
        }
        let ghost domains_middle = *domains;
        let output_keys = match output_parser.parse_all(rest.as_slice(), domains) {
            Ok(k) => k,
            Err(err) => {
                proof {
                    let j = choose|j: int| 0 <= j < rest@.len() && !spec_parses(toggle_output_parser(), #[trigger] rest@[j]@);
                    assert(rest@[j]@ == outputs[j]);
                }
                return Err(err);
            },
        };
        let id = arg_group.get_unique_clause("id")?;
        match &id {
            Some(id_str) => {
                if contains_char(chars_of(id_str.as_str()).as_slice(), ':') {
                    return Err(ArgumentError::new(join_strs(&["A toggle's id cannot contain any colons. Offending id: ", id_str.as_str()])));
                }
            },
            None => {},
        }
        proof {
            assert forall|j: int| 0 <= j < outputs.len() implies spec_parses(toggle_output_parser(), #[trigger] outputs[j]) by {
                assert(rest@[j]@ == outputs[j]);
            }
            assert(toggle_input_parser() == plain_parser(true, true, true, true, false));
            lemma_parsed_key_stable(toggle_input_parser(), key_views[0], domains_middle, *domains);
            assert forall|j: int| 0 <= j < outputs.len() implies (#[trigger] output_keys@[j])@
                == spec_parsed_key(toggle_output_parser(), outputs[j], *domains) by {
                assert(rest@[j]@ == outputs[j]);
            }
        }
        Ok(ToggleArg { input_key, output_keys, id, mode })
    }

    /// The number of outputs that the toggle switches between.
    pub fn size(&self) -> (res: usize)
        ensures
            res == self.output_keys@.len(),
    {
        self.output_keys.len()
    }
}

} // verus!
