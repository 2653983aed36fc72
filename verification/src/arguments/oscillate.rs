//! The --oscillate argument.

use vstd::prelude::*;

use crate::arguments::delay::{parse_period_value, periods_fit_for, spec_period_nanos};
use crate::arguments::group::{
    all_parse, clause_values, parse_key_list, parsed_keys_are, spec_group_from, spec_keys_or_empty_key, ComplexArgGroup,
};
use crate::domain::DomainTracker;
use crate::error::ArgumentError;
use crate::event::{EventType, Namespace};
use crate::key::{Key, KeyParser, ParserView};
use crate::text::{join_strs, strings_view};
use crate::time::Duration;

verus! {

/// An --oscillate argument: while a key of it is held, its events alternate between pressed for
/// the active time and released for the inactive time.
pub struct OscillateArg {
    pub keys: Vec<Key>,
    pub active_time: Duration,
    pub inactive_time: Duration,
}

/// The parser of oscillated keys: types and domains, no values, and only keys of EV_KEY.
pub open spec fn oscillate_parser() -> ParserView {
    ParserView {
        default_value: Seq::empty(),
        allow_values: false,
        allow_transitions: false,
        allow_ranges: false,
        allow_types: true,
        allow_relative_values: false,
        type_whitelist: Some(seq![EventType { value: crate::event::EV_KEY }]),
        namespace: Namespace::User,
    }
}

/// What an --oscillate argument says, as plain values.
pub struct OscillateView {
    pub key_strs: Seq<Seq<char>>,
    /// The period in nanoseconds: the active time is its larger half.
    pub period: int,
}

/// What an --oscillate argument says, or None if it is not acceptable: its keys must parse, and
/// it needs exactly one period of at least two nanoseconds.
pub open spec fn spec_oscillate(args: Seq<Seq<char>>) -> Option<OscillateView> {
    match spec_group_from(args, Seq::empty(), seq!["period"], false, true) {
        None => None,
        Some(group) => {
            let strs = spec_keys_or_empty_key(group.keys);
            let periods = clause_values(group.clauses, "period"@);
            if !all_parse(oscillate_parser(), strs) || periods.len() != 1 {
                None
            } else {
                match spec_period_nanos(periods[0]) {
                    Some(nanos) => if nanos < 2 { None } else { Some(OscillateView { key_strs: strs, period: nanos }) },
                    None => None,
                }
            }
        },
    }
}

impl OscillateArg {
    /// Parses an --oscillate argument, resolving the domain names of its keys.
    pub fn parse(args: Vec<String>, domains: &mut DomainTracker) -> (res: Result<OscillateArg, ArgumentError>)
        requires
            old(domains).well_formed(),
            old(domains).next_id() + 2 * args@.len() + 2 < usize::MAX,
            periods_fit_for(strings_view(args@), Seq::empty(), seq!["period"]),
        ensures
            final(domains).well_formed(),
            forall|name: Seq<char>| old(domains).lookup(name) is Some ==> final(domains).lookup(name) == old(domains).lookup(name),
            match res {
                Ok(arg) => spec_oscillate(strings_view(args@)) matches Some(view)
                    && parsed_keys_are(arg.keys@, oscillate_parser(), view.key_strs, *final(domains))
                    && arg.active_time@ == (view.period + 1) / 2
                    && arg.inactive_time@ == view.period - (view.period + 1) / 2,
                Err(_) => spec_oscillate(strings_view(args@)) is None,
            },
    {
        let ghost argv = strings_view(args@);
        let flags: Vec<&str> = Vec::new();
        let clauses: Vec<&str> = vec!["period"];
        proof {
            assert(flags@ =~= Seq::<&str>::empty());
            assert(clauses@ =~= seq!["period"]);
        }
        let arg_group = ComplexArgGroup::parse(args, flags.as_slice(), clauses.as_slice(), false, true, domains)?;
        proof {
            crate::arguments::group::lemma_group_keys_bounded(argv, Seq::empty(), seq!["period"], false, true);
        }
        let whitelist: Vec<EventType> = vec![EventType::key()];
        let parser = KeyParser {
            default_value: "",
            allow_values: false,
            allow_ranges: false,
            allow_transitions: false,
            allow_types: true,
            allow_relative_values: false,
            type_whitelist: Some(whitelist),
            namespace: Namespace::User,
        };
        proof {
            reveal_strlit("");
            assert(parser.default_value@ =~= Seq::<char>::empty());
            assert(parser.type_whitelist.unwrap()@ =~= seq![EventType { value: crate::event::EV_KEY }]);
            assert(parser@ == oscillate_parser());
        }
        let strs = arg_group.get_keys_or_empty_key();
        proof {
            assert(strings_view(strs@) == spec_keys_or_empty_key(arg_group@.keys));
            assert(strs@.len() == strings_view(strs@).len());
        }
        let keys = parse_key_list(&parser, &strs, domains)?;
        let value = arg_group.require_unique_clause("period")?;
        proof {
            let periods = clause_values(arg_group@.clauses, "period"@);
            assert(periods[0] == value@);
        }
        let period = parse_period_value(value.as_str())?;
        let period_ns = period.as_nanos();
        if period_ns < 2 {
            return Err(ArgumentError::new(join_strs(&["The period must be at least two nanoseconds."])));
        }
        let active = period_ns / 2 + period_ns % 2;
        let inactive = period_ns - active;
        Ok(OscillateArg {
            keys,
            active_time: Duration::from_nanos(active),
            inactive_time: Duration::from_nanos(inactive),
        })
    }
}

} // verus!
