//! The --print argument.

use vstd::prelude::*;

use crate::arguments::group::{
    all_parse, parse_key_list, parsed_keys_are, spec_group_from, spec_keys_or_empty_key, spec_unique_clause,
    ComplexArgGroup,
};
use crate::domain::DomainTracker;
use crate::error::ArgumentError;
use crate::key::{plain_parser, Key, KeyParser};
use crate::print::{EventPrintMode, EventPrinter};
use crate::text::{chars_eq, chars_of, join_strs, strings_view};

verus! {

/// A --print argument: the keys of the events to print, and how.
pub struct PrintArg {
    pub keys: Vec<Key>,
    pub mode: EventPrintMode,
}

/// What a --print argument says, as plain values.
pub struct PrintView {
    pub key_strs: Seq<Seq<char>>,
    pub mode: EventPrintMode,
}

pub open spec fn spec_print_format(format: Option<Seq<char>>) -> Option<EventPrintMode> {
    match format {
        None => Some(EventPrintMode::Detailed),
        Some(f) => if f == "direct"@ {
            Some(EventPrintMode::Direct)
        } else if f == "default"@ {
            Some(EventPrintMode::Detailed)
        } else {
            None
        },
    }
}

/// What a --print argument says, or None if it is not acceptable.
pub open spec fn spec_print_arg(args: Seq<Seq<char>>) -> Option<PrintView> {
    match spec_group_from(args, Seq::empty(), seq!["format"], false, true) {
        None => None,
        Some(group) => {
            let strs = spec_keys_or_empty_key(group.keys);
            match spec_unique_clause(group, "format"@) {
                None => None,
                Some(format) => match spec_print_format(format) {
                    None => None,
                    Some(mode) => if all_parse(plain_parser(true, true, true, true, false), strs) {
                        Some(PrintView { key_strs: strs, mode })
                    } else {
                        None
                    },
                },
            }
        },
    }
}

impl PrintArg {
    /// Parses a --print argument, resolving the domain names of its keys.
    pub fn parse(args: Vec<String>, domains: &mut DomainTracker) -> (res: Result<PrintArg, ArgumentError>)
        requires
            old(domains).well_formed(),
            old(domains).next_id() + 2 * args@.len() + 2 < usize::MAX,
        ensures
            final(domains).well_formed(),
            final(domains).next_id() <= old(domains).next_id() + 2 * args@.len() + 2,
            forall|name: Seq<char>| old(domains).lookup(name) is Some ==> final(domains).lookup(name) == old(domains).lookup(name),
            match res {
                Ok(arg) => spec_print_arg(strings_view(args@)) matches Some(view)
                    && parsed_keys_are(arg.keys@, plain_parser(true, true, true, true, false), view.key_strs, *final(domains))
                    && arg.mode == view.mode,
                Err(_) => spec_print_arg(strings_view(args@)) is None,
            },
    {
        let ghost argv = strings_view(args@);
        let flags: Vec<&str> = Vec::new();
        let clauses: Vec<&str> = vec!["format"];
        proof {
            assert(flags@ =~= Seq::<&str>::empty());
            assert(clauses@ =~= seq!["format"]);
        }
        let arg_group = ComplexArgGroup::parse(args, flags.as_slice(), clauses.as_slice(), false, true, domains)?;
        proof {
            crate::arguments::group::lemma_group_keys_bounded(argv, Seq::empty(), seq!["format"], false, true);
        }
        let strs = arg_group.get_keys_or_empty_key();
        proof {
            assert(strings_view(strs@) == spec_keys_or_empty_key(arg_group@.keys));
            assert(strs@.len() == strings_view(strs@).len());
        }
        let keys = parse_key_list(&KeyParser::default_filter(), &strs, domains)?;
        let mode = match arg_group.get_unique_clause("format")? {
            Some(value) => {
                let v = chars_of(value.as_str());
                if chars_eq(v.as_slice(), chars_of("direct").as_slice()) {
                    EventPrintMode::Direct
                } else if chars_eq(v.as_slice(), chars_of("default").as_slice()) {
                    EventPrintMode::Detailed
                } else {
                    return Err(ArgumentError::new(join_strs(&["Invalid --print format: ", value.as_str()])));
                }
            },
            None => EventPrintMode::Detailed,
        };
        Ok(PrintArg { keys, mode })
    }

    /// The printer that this argument stands for.
    pub fn compile(self) -> (res: EventPrinter)
        ensures
            res.key_list() == self.keys@,
            res.print_mode() == self.mode,
    {
        EventPrinter::new(self.keys, self.mode)
    }
}

} // verus!
