//! The --merge argument.

use vstd::prelude::*;

use crate::arguments::group::{
    all_parse, parse_key_list, parsed_keys_are, spec_group_from, spec_keys_or_empty_key, ComplexArgGroup,
};
use crate::domain::DomainTracker;
use crate::error::ArgumentError;
use crate::event::{EventType, Namespace};
use crate::key::{Key, KeyParser, ParserView};
use crate::text::strings_view;

verus! {

/// A --merge argument: the keys whose events are merged.
pub struct MergeArg {
    pub keys: Vec<Key>,
}

/// The parser of merge keys: types and domains, no values, and only keys of EV_KEY.
pub open spec fn merge_parser() -> ParserView {
    ParserView {
        default_value: Seq::empty(),
        allow_values: false,
        allow_transitions: false,
        allow_ranges: false,
        allow_types: true,
        allow_relative_values: false,
        type_whitelist: Some(seq![EventType { value: crate::event::EV_KEY }]),
        namespace: Namespace::User,
    }
}

/// The key strings of a --merge argument, or None if it is not acceptable.
pub open spec fn spec_merge(args: Seq<Seq<char>>) -> Option<Seq<Seq<char>>> {
    match spec_group_from(args, Seq::empty(), Seq::empty(), false, true) {
        None => None,
        Some(group) => {
            let strs = spec_keys_or_empty_key(group.keys);
            if all_parse(merge_parser(), strs) {
                Some(strs)
            } else {
                None
            }
        },
    }
}

impl MergeArg {
    /// Parses a --merge argument, resolving the domain names of its keys.
    pub fn parse(args: Vec<String>, domains: &mut DomainTracker) -> (res: Result<MergeArg, ArgumentError>)
        requires
            old(domains).well_formed(),
            old(domains).next_id() + 2 * args@.len() + 2 < usize::MAX,
        ensures
            final(domains).well_formed(),
            final(domains).next_id() <= old(domains).next_id() + 2 * args@.len() + 2,
            forall|name: Seq<char>| old(domains).lookup(name) is Some ==> final(domains).lookup(name) == old(domains).lookup(name),
            match res {
                Ok(arg) => spec_merge(strings_view(args@)) matches Some(strs)
                    && parsed_keys_are(arg.keys@, merge_parser(), strs, *final(domains)),
                Err(_) => spec_merge(strings_view(args@)) is None,
            },
    {
        let ghost argv = strings_view(args@);
        let none: Vec<&str> = Vec::new();
        proof {
            assert(none@ =~= Seq::<&str>::empty());
        }
        let arg_group = ComplexArgGroup::parse(args, none.as_slice(), none.as_slice(), false, true, domains)?;
        proof {
            crate::arguments::group::lemma_group_keys_bounded(argv, Seq::empty(), Seq::empty(), false, true);
        }
        let whitelist: Vec<EventType> = vec![EventType::key()];
        let parser = KeyParser {
            default_value: "",
            allow_values: false,
            allow_ranges: false,
            allow_transitions: false,
            allow_types: true,
            allow_relative_values: false,
            type_whitelist: Some(whitelist),
            namespace: Namespace::User,
        };
        proof {
            reveal_strlit("");
            assert(parser.default_value@ =~= Seq::<char>::empty());
            assert(parser.type_whitelist.unwrap()@ =~= seq![EventType { value: crate::event::EV_KEY }]);
            assert(parser@ == merge_parser());
        }
        let strs = arg_group.get_keys_or_empty_key();
        proof {
            assert(strings_view(strs@) == spec_keys_or_empty_key(arg_group@.keys));
        }
        let keys = parse_key_list(&parser, &strs, domains)?;
        Ok(MergeArg { keys })
    }
}

} // verus!
