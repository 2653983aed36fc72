//! The --map, --copy and --block arguments.

use vstd::prelude::*;

use crate::arguments::group::{
    all_parse, parse_key_list, parsed_keys_are, spec_group_from, spec_keys_or_empty_key, ComplexArgGroup,
};
use crate::domain::DomainTracker;
use crate::error::{ArgumentError, InternalError, RuntimeError};
use crate::event::Namespace;
use crate::key::{lemma_parsed_key_stable, plain_parser, spec_parsed_key, spec_parses, Key, KeyParser, ParserView};
use crate::text::{chars_eq, chars_of, join_strs, strings_view};

verus! {

/// A --map or --copy argument: events of the input key become events of the output keys. A copy
/// also keeps the original event, through an output key that changes nothing.
pub struct MapArg {
    pub input_key: Key,
    pub output_keys: Vec<Key>,
}

/// What a --map or --copy argument says, as plain values.
pub struct MapView {
    pub copy: bool,
    pub input: Seq<char>,
    pub outputs: Seq<Seq<char>>,
    pub namespace: Namespace,
}

/// The parser of the input key of a map: a filter.
pub open spec fn map_input_parser() -> ParserView {
    plain_parser(true, true, true, true, false)
}

/// The parser of the output keys of a map: values, relative ones too, but no ranges,
/// transitions or types.
pub open spec fn map_output_parser(namespace: Namespace) -> ParserView {
    ParserView { namespace, ..plain_parser(true, false, false, false, true) }
}

/// What a --map or --copy argument says, or None if it is not acceptable: it needs an input key,
/// and all its keys must parse. With the flag "yield", the outputs are yielded.
pub open spec fn spec_map(args: Seq<Seq<char>>) -> Option<MapView> {
    match spec_group_from(args, seq!["yield"], Seq::empty(), false, true) {
        None => None,
        Some(group) => {
            let namespace = if group.flags.contains("yield"@) { Namespace::Yielded } else { Namespace::User };
            let outputs = group.keys.skip(1);
            if !(group.name == "--copy"@ || group.name == "--map"@) || group.keys.len() == 0
                || !spec_parses(map_input_parser(), group.keys[0])
                || !all_parse(map_output_parser(namespace), outputs) {
                None
            } else {
                Some(MapView { copy: group.name == "--copy"@, input: group.keys[0], outputs, namespace })
            }
        },
    }
}

impl MapArg {
    /// The argument holds what the view says, its keys parsed with the domains given; a copy
    /// starts its outputs with the key that changes nothing.
    pub open spec fn matches_view(&self, view: MapView, domains: DomainTracker) -> bool {
        let first: int = if view.copy { 1 } else { 0 };
        &&& self.input_key@ == spec_parsed_key(map_input_parser(), view.input, domains)
        &&& self.output_keys@.len() == first + view.outputs.len()
        &&& view.copy ==> self.output_keys@[0]@ == Seq::<crate::key::PropertyView>::empty()
        &&& forall|i: int| 0 <= i < view.outputs.len() ==> (#[trigger] self.output_keys@[first + i])@
            == spec_parsed_key(map_output_parser(view.namespace), view.outputs[i], domains)
    }

    /// Parses a --map or --copy argument, resolving the domain names of its keys.
    pub fn parse(args: Vec<String>, domains: &mut DomainTracker) -> (res: Result<MapArg, RuntimeError>)
        requires
            old(domains).well_formed(),
            old(domains).next_id() + 2 * args@.len() + 2 < usize::MAX,
        ensures
            final(domains).well_formed(),
            final(domains).next_id() <= old(domains).next_id() + 2 * args@.len() + 2,
            forall|name: Seq<char>| old(domains).lookup(name) is Some ==> final(domains).lookup(name) == old(domains).lookup(name),
            match res {
                Ok(arg) => spec_map(strings_view(args@)) matches Some(view) && arg.matches_view(view, *final(domains)),
                Err(_) => spec_map(strings_view(args@)) is None,
            },
    {
        let ghost argv = strings_view(args@);
        let flags: Vec<&str> = vec!["yield"];
        let clauses: Vec<&str> = Vec::new();
        proof {
            assert(flags@ =~= seq!["yield"]);
            assert(clauses@ =~= Seq::<&str>::empty());
        }
        let arg_group = match ComplexArgGroup::parse(args, flags.as_slice(), clauses.as_slice(), false, true, domains) {
            Ok(group) => group,
            Err(err) => return Err(RuntimeError::ArgumentError(err)),
        };
        proof {
            crate::arguments::group::lemma_group_keys_bounded(argv, seq!["yield"], Seq::empty(), false, true);
        }
        let name = chars_of(arg_group.name().as_str());
        let copy = if chars_eq(name.as_slice(), chars_of("--copy").as_slice()) {
            true
        } else if chars_eq(name.as_slice(), chars_of("--map").as_slice()) {
            false
        } else {
            return Err(RuntimeError::InternalError(InternalError::new(join_strs(&[
                "A map has been constructed from neither a --map or a --copy.",
            ]))));
        };
        let keys = match arg_group.require_keys() {
            Ok(keys) => keys,
            Err(err) => return Err(RuntimeError::ArgumentError(err)),
        };
        let ghost key_views = strings_view(keys@);
        proof {
            assert(keys@[0]@ == key_views[0]);
        }
        let ghost domains_start = *domains;
        let input_key = match KeyParser::default_filter().parse(keys[0].as_str(), domains) {
            Ok(key) => key,
            Err(err) => return Err(RuntimeError::ArgumentError(err)),
        };
        let namespace = if arg_group.has_flag("yield") { Namespace::Yielded } else { Namespace::User };
        let output_parser = KeyParser {
            default_value: "",
            allow_values: true,
            allow_ranges: false,
            allow_transitions: false,
            allow_types: false,
            allow_relative_values: true,
            type_whitelist: None,
            namespace,
        };
        proof {
            reveal_strlit("");
            assert(output_parser.default_value@ =~= Seq::<char>::empty());
            assert(output_parser@ == map_output_parser(namespace));
        }
        let mut rest: Vec<String> = Vec::new();
        let mut i: usize = 1;
        while i < keys.len()
            invariant
                1 <= i <= keys@.len(),
                rest@.len() == i - 1,
                forall|j: int| 0 <= j < i - 1 ==> (#[trigger] rest@[j])@ == keys@[j + 1]@,
            decreases keys@.len() - i,
        {
            rest.push(keys[i].clone());
            i += 1;
        }
        let ghost outputs = key_views.skip(1);
        proof {
            assert(strings_view(rest@) =~= outputs) by {
                assert forall|j: int| 0 <= j < rest@.len() implies strings_view(rest@)[j] == outputs[j] by {
                    assert(keys@[j + 1]@ == key_views[j + 1]);
                }
            }
        }
        let ghost domains_middle = *domains;
        let parsed = match parse_key_list(&output_parser, &rest, domains) {
            Ok(k) => k,
            Err(err) => return Err(RuntimeError::ArgumentError(err)),
        };
        let mut output_keys: Vec<Key> = Vec::new();
        if copy {
            output_keys.push(Key::copy());
        }
        let ghost first: int = if copy { 1 } else { 0 };
        let mut k: usize = 0;
        let mut parsed = parsed;
        let ghost parsed_views = parsed@;
        let n = parsed.len();
        // Moved over one by one, keeping the order.
        let mut reversed: Vec<Key> = Vec::new();
        while parsed.len() > 0
            invariant
                parsed@ == parsed_views.take(parsed@.len() as int),
                parsed@.len() <= parsed_views.len(),
                reversed@.len() + parsed@.len() == parsed_views.len(),
                forall|j: int| 0 <= j < reversed@.len() ==> #[trigger] reversed@[j] == parsed_views[parsed_views.len() - 1 - j],
            decreases parsed@.len(),
        {
            let key = parsed.pop().unwrap();
            reversed.push(key);
        }
        while reversed.len() > 0
            invariant
                k + reversed@.len() == parsed_views.len(),
                parsed_views.len() == n,
                first == (if copy { 1int } else { 0int }),
                output_keys@.len() == first + k,
                copy ==> output_keys@[0]@ == Seq::<crate::key::PropertyView>::empty(),
                forall|j: int| 0 <= j < reversed@.len() ==> #[trigger] reversed@[j] == parsed_views[parsed_views.len() - 1 - j],
                forall|j: int| 0 <= j < k ==> #[trigger] output_keys@[first + j] == parsed_views[j],
            decreases reversed@.len(),
        {
            let key = reversed.pop().unwrap();
            output_keys.push(key);
            k += 1;
        }
        proof {
            lemma_parsed_key_stable(map_input_parser(), key_views[0], domains_middle, *domains);
            assert(map_input_parser() == plain_parser(true, true, true, true, false));
        }
        Ok(MapArg { input_key, output_keys })
    }
}

/// A --block argument: the keys of the events to drop.
pub struct BlockArg {
    pub keys: Vec<Key>,
}

/// The keys of a --block argument, or None if it is not acceptable.
pub open spec fn spec_block(args: Seq<Seq<char>>) -> Option<Seq<Seq<char>>> {
    match spec_group_from(args, Seq::empty(), Seq::empty(), false, true) {
        None => None,
        Some(group) => {
            let strs = spec_keys_or_empty_key(group.keys);
            if all_parse(plain_parser(true, true, true, true, false), strs) {
                Some(strs)
            } else {
                None
            }
        },
    }
}

impl BlockArg {
    /// Parses a --block argument, resolving the domain names of its keys.
    pub fn parse(args: Vec<String>, domains: &mut DomainTracker) -> (res: Result<BlockArg, ArgumentError>)
        requires
            old(domains).well_formed(),
            old(domains).next_id() + 2 * args@.len() + 2 < usize::MAX,
        ensures
            final(domains).well_formed(),
            final(domains).next_id() <= old(domains).next_id() + 2 * args@.len() + 2,
            forall|name: Seq<char>| old(domains).lookup(name) is Some ==> final(domains).lookup(name) == old(domains).lookup(name),
            match res {
                Ok(arg) => spec_block(strings_view(args@)) matches Some(strs)
                    && parsed_keys_are(arg.keys@, plain_parser(true, true, true, true, false), strs, *final(domains)),
                Err(_) => spec_block(strings_view(args@)) is None,
            },
    {
        let ghost argv = strings_view(args@);
        let none: Vec<&str> = Vec::new();
        proof {
            assert(none@ =~= Seq::<&str>::empty());
        }
        let arg_group = ComplexArgGroup::parse(args, none.as_slice(), none.as_slice(), false, true, domains)?;
        proof {
            crate::arguments::group::lemma_group_keys_bounded(argv, Seq::empty(), Seq::empty(), false, true);
        }
        let strs = arg_group.get_keys_or_empty_key();
        proof {
            assert(strings_view(strs@) == spec_keys_or_empty_key(arg_group@.keys));
            assert(strs@.len() == strings_view(strs@).len());
        }
        let keys = parse_key_list(&KeyParser::default_filter(), &strs, domains)?;
        Ok(BlockArg { keys })
    }
}

} // verus!
