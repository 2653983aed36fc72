//! The --control-fifo argument.

use vstd::prelude::*;

use crate::arguments::group::{spec_group_from, ComplexArgGroup};
use crate::domain::DomainTracker;
use crate::error::ArgumentError;
use crate::text::strings_view;

verus! {

/// Represents a --control-fifo argument.
pub struct ControlFifoArg {
    pub paths: Vec<String>,
}

impl ControlFifoArg {
    /// Parses a --control-fifo argument, which takes only paths.
    pub fn parse(args: Vec<String>, domains: &mut DomainTracker) -> (res: Result<ControlFifoArg, ArgumentError>)
        requires
            old(domains).well_formed(),
            old(domains).next_id() + args@.len() < usize::MAX,
        ensures
            final(domains).well_formed(),
            final(domains).next_id() <= old(domains).next_id() + args@.len(),
            forall|name: Seq<char>| old(domains).lookup(name) is Some ==> final(domains).lookup(name) == old(domains).lookup(name),
            match res {
                Ok(arg) => spec_group_from(strings_view(args@), Seq::empty(), Seq::empty(), true, false) matches Some(group)
                    && strings_view(arg.paths@) == group.paths,
                Err(_) => spec_group_from(strings_view(args@), Seq::empty(), Seq::empty(), true, false) is None,
            },
    {
        let none: Vec<&str> = Vec::new();
        proof {
            assert(none@ =~= Seq::<&str>::empty());
        }
        let arg_group = ComplexArgGroup::parse(args, none.as_slice(), none.as_slice(), true, false, domains)?;
        Ok(ControlFifoArg { paths: arg_group.into_paths() })
    }
}

} // verus!
