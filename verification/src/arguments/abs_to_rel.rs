//! The --abs-to-rel argument.

use vstd::prelude::*;

use crate::arguments::group::{all_parse, clause_values, parse_key_list, parsed_keys_are, spec_group_from, ComplexArgGroup};
use crate::domain::DomainTracker;
use crate::error::ArgumentError;
use crate::key::{plain_parser, Key, KeyParser};
use crate::text::strings_view;

verus! {

/// An --abs-to-rel argument: the keys of the events that reset the tracked position.
pub struct AbsToRelArg {
    pub reset_keys: Vec<Key>,
}

/// The reset keys of an --abs-to-rel argument, or None if it is not acceptable.
pub open spec fn spec_abs_to_rel(args: Seq<Seq<char>>) -> Option<Seq<Seq<char>>> {
    match spec_group_from(args, Seq::empty(), seq!["reset"], false, false) {
        None => None,
        Some(group) => {
            let strs = clause_values(group.clauses, "reset"@);
            if all_parse(plain_parser(true, true, true, true, false), strs) {
                Some(strs)
            } else {
                None
            }
        },
    }
}

impl AbsToRelArg {
    /// Parses an --abs-to-rel argument, resolving the domain names of its reset keys.
    pub fn parse(args: Vec<String>, domains: &mut DomainTracker) -> (res: Result<AbsToRelArg, ArgumentError>)
        requires
            old(domains).well_formed(),
            old(domains).next_id() + 2 * args@.len() + 2 < usize::MAX,
        ensures
            final(domains).well_formed(),
            forall|name: Seq<char>| old(domains).lookup(name) is Some ==> final(domains).lookup(name) == old(domains).lookup(name),
            match res {
                Ok(arg) => spec_abs_to_rel(strings_view(args@)) matches Some(strs)
                    && parsed_keys_are(arg.reset_keys@, plain_parser(true, true, true, true, false), strs, *final(domains)),
                Err(_) => spec_abs_to_rel(strings_view(args@)) is None,
            },
    {
        let ghost argv = strings_view(args@);
        let flags: Vec<&str> = Vec::new();
        let clauses: Vec<&str> = vec!["reset"];
        proof {
            assert(flags@ =~= Seq::<&str>::empty());
            assert(clauses@ =~= seq!["reset"]);
        }
        let arg_group = ComplexArgGroup::parse(args, flags.as_slice(), clauses.as_slice(), false, false, domains)?;
        let strs = arg_group.get_clauses("reset");
        proof {
            crate::arguments::group::lemma_group_clauses_bounded(argv, Seq::empty(), seq!["reset"], false, false, "reset"@);
        }
        let reset_keys = parse_key_list(&KeyParser::default_filter(), &strs, domains)?;
        Ok(AbsToRelArg { reset_keys })
    }
}

} // verus!
