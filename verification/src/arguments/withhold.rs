//! The --withhold argument.

use vstd::prelude::*;

use crate::arguments::group::{
    all_parse, parse_key_list, parsed_keys_are, spec_group_from, spec_keys_or_empty_key, ComplexArgGroup,
};
use crate::arguments::hook::{hook_parser, HookArg};
use crate::arguments::merge::merge_parser;
use crate::domain::DomainTracker;
use crate::error::ArgumentError;
use crate::event::{EventType, Namespace, EV_KEY};
use crate::key::{first_type_requirement, keys_may_intersect, spec_parses, Key, KeyParser, ParserView, PropertyView};
use crate::text::{join_strs, strings_view};

verus! {

/// A --withhold argument: the keys of the events that the hooks before it hold back until it is
/// clear whether they activate.
pub struct WithholdArg {
    pub keys: Vec<Key>,
}

/// The keys of a --withhold argument, or None if it is not acceptable: they may only be keys of
/// type EV_KEY without values.
pub open spec fn spec_withhold(args: Seq<Seq<char>>) -> Option<Seq<Seq<char>>> {
    match spec_group_from(args, Seq::empty(), Seq::empty(), false, true) {
        None => None,
        Some(group) => {
            let strs = spec_keys_or_empty_key(group.keys);
            if all_parse(merge_parser(), strs) {
                Some(strs)
            } else {
                None
            }
        },
    }
}

/// The hook parser without values, which accepts only keys that press at their default value.
pub open spec fn pedantic_hook_parser() -> ParserView {
    ParserView { allow_values: false, ..hook_parser() }
}

/// Whether a key of a hook can be withheld: no event that a hook may send matches it, and if
/// the withheld keys may match it, it is of type EV_KEY and presses at its default value.
pub open spec fn key_withholdable(
    withheld: Seq<Seq<PropertyView>>,
    sendable: Seq<Seq<PropertyView>>,
    key: Seq<PropertyView>,
    key_str: Seq<char>,
) -> bool {
    &&& !(exists|s: int| 0 <= s < sendable.len() && keys_may_intersect(#[trigger] sendable[s], key))
    &&& ((exists|w: int| 0 <= w < withheld.len() && keys_may_intersect(#[trigger] withheld[w], key))
        ==> first_type_requirement(key) == Some(EventType { value: EV_KEY }) && spec_parses(pedantic_hook_parser(), key_str))
}

/// The keys of all hooks, with their strings.
pub open spec fn hook_keys(hooks: Seq<HookArg>) -> Seq<(Seq<PropertyView>, Seq<char>)>
    decreases hooks.len(),
{
    if hooks.len() == 0 {
        Seq::empty()
    } else {
        hook_keys(hooks.drop_last()) + hooks.last().keys_and_str@.map_values(|p: (Key, String)| (p.0@, p.1@))
    }
}

/// Everything that the hooks may send.
pub open spec fn hook_sendables(hooks: Seq<HookArg>) -> Seq<Seq<PropertyView>>
    decreases hooks.len(),
{
    if hooks.len() == 0 {
        Seq::empty()
    } else {
        hook_sendables(hooks.drop_last()) + hooks.last().event_dispatcher.view().on_press
            + hooks.last().event_dispatcher.view().on_release
    }
}

impl WithholdArg {
    /// Parses a --withhold argument, resolving the domain names of its keys.
    pub fn parse(args: Vec<String>, domains: &mut DomainTracker) -> (res: Result<WithholdArg, ArgumentError>)
        requires
            old(domains).well_formed(),
            old(domains).next_id() + 2 * args@.len() + 2 < usize::MAX,
        ensures
            final(domains).well_formed(),
            final(domains).next_id() <= old(domains).next_id() + 2 * args@.len() + 2,
            forall|name: Seq<char>| old(domains).lookup(name) is Some ==> final(domains).lookup(name) == old(domains).lookup(name),
            match res {
                Ok(arg) => spec_withhold(strings_view(args@)) matches Some(strs)
                    && parsed_keys_are(arg.keys@, merge_parser(), strs, *final(domains)),
                Err(_) => spec_withhold(strings_view(args@)) is None,
            },
    {
        let ghost argv = strings_view(args@);
        let none: Vec<&str> = Vec::new();
        proof {
            assert(none@ =~= Seq::<&str>::empty());
        }
        let arg_group = ComplexArgGroup::parse(args, none.as_slice(), none.as_slice(), false, true, domains)?;
        proof {
            crate::arguments::group::lemma_group_keys_bounded(argv, Seq::empty(), Seq::empty(), false, true);
        }
        let whitelist: Vec<EventType> = vec![EventType::key()];
        let parser = KeyParser {
            default_value: "",
            allow_values: false,
            allow_ranges: false,
            allow_transitions: false,
            allow_types: true,
            allow_relative_values: false,
            type_whitelist: Some(whitelist),
            namespace: Namespace::User,
        };
        proof {
            reveal_strlit("");
            assert(parser.default_value@ =~= Seq::<char>::empty());
            assert(parser.type_whitelist.unwrap()@ =~= seq![EventType { value: EV_KEY }]);
            assert(parser@ == merge_parser());
        }
        let strs = arg_group.get_keys_or_empty_key();
        proof {
            assert(strings_view(strs@) == spec_keys_or_empty_key(arg_group@.keys));
            assert(strs@.len() == strings_view(strs@).len());
        }
        let keys = parse_key_list(&parser, &strs, domains)?;
        Ok(WithholdArg { keys })
    }

    /// Checks that the events of the hooks that come right before this argument can be withheld:
    /// there must be such hooks, none of their keys may match an event that one of them may send,
    /// and each key that the withheld keys may match must be of type EV_KEY and press at its
    /// default value.
    pub fn associate_hooks(&self, hooks: &Vec<HookArg>, domains: &mut DomainTracker) -> (res: Result<(), ArgumentError>)
        requires
            old(domains).well_formed(),
            old(domains).next_id() + hook_keys(hooks@).len() < usize::MAX,
            forall|h: int| 0 <= h < hooks@.len() ==> (#[trigger] hooks@[h]).event_dispatcher.well_formed(),
        ensures
            final(domains).well_formed(),
            final(domains).next_id() <= old(domains).next_id() + hook_keys(hooks@).len(),
            forall|name: Seq<char>| old(domains).lookup(name) is Some ==> final(domains).lookup(name) == old(domains).lookup(name),
            res is Ok <==> hooks@.len() > 0 && forall|k: int| 0 <= k < hook_keys(hooks@).len() ==> key_withholdable(
                self.keys@.map_values(|k: Key| k@),
                hook_sendables(hooks@),
                (#[trigger] hook_keys(hooks@)[k]).0,
                hook_keys(hooks@)[k].1,
            ),
    {
        if hooks.len() == 0 {
            return Err(ArgumentError::new(join_strs(&["A --withhold argument must be preceded by at least one --hook argument."])));
        }
        let ghost withheld = self.keys@.map_values(|k: Key| k@);
        // Everything that the hooks may send.
        let mut sendable: Vec<Key> = Vec::new();
        let mut h: usize = 0;
        while h < hooks.len()
            invariant
                h <= hooks@.len(),
                forall|x: int| 0 <= x < hooks@.len() ==> (#[trigger] hooks@[x]).event_dispatcher.well_formed(),
                sendable@.map_values(|k: Key| k@) == hook_sendables(hooks@.take(h as int)),
            decreases hooks@.len() - h,
        {
            let mut more = hooks[h].event_dispatcher.sendable_events();
            let ghost before = sendable@;
            let ghost added = more@;
            sendable.append(&mut more);
            proof {
                assert(sendable@ == before + added);
                assert((before + added).map_values(|k: Key| k@) =~= before.map_values(|k: Key| k@) + added.map_values(|k: Key| k@));
                assert(hooks@.take(h + 1).drop_last() == hooks@.take(h as int));
                assert(hooks@.take(h + 1).last() == hooks@[h as int]);
                assert(sendable@.map_values(|k: Key| k@) =~= before.map_values(|k: Key| k@)
                    + hooks@[h as int].event_dispatcher.view().on_press + hooks@[h as int].event_dispatcher.view().on_release);
            }
            h += 1;
        }
        proof {
            assert(hooks@.take(hooks@.len() as int) == hooks@);
        }
        let ghost sendables = sendable@.map_values(|k: Key| k@);
        let ghost all = hook_keys(hooks@);
        let pedantic = KeyParser {
            default_value: "1~",
            allow_values: false,
            allow_ranges: true,
            allow_transitions: false,
            allow_types: false,
            allow_relative_values: false,
            type_whitelist: None,
            namespace: Namespace::User,
        };
        proof {
            assert(pedantic@ == pedantic_hook_parser());
        }
        let ghost start_domains = *domains;
        let mut h: usize = 0;
        let ghost mut checked: int = 0;
        while h < hooks.len()
            invariant
                h <= hooks@.len(),
                pedantic@ == pedantic_hook_parser(),
                sendables == sendable@.map_values(|k: Key| k@),
                sendables == hook_sendables(hooks@),
                withheld == self.keys@.map_values(|k: Key| k@),
                all == hook_keys(hooks@),
                checked == hook_keys(hooks@.take(h as int)).len(),
                checked <= all.len(),
                all.take(checked) == hook_keys(hooks@.take(h as int)),
                domains.well_formed(),
                domains.next_id() <= start_domains.next_id() + checked,
                start_domains.next_id() + all.len() < usize::MAX,
                forall|name: Seq<char>| old(domains).lookup(name) is Some ==> domains.lookup(name) == old(domains).lookup(name),
                start_domains == *old(domains),
                forall|k: int| 0 <= k < checked ==> key_withholdable(withheld, sendables, (#[trigger] all[k]).0, all[k].1),
            decreases hooks@.len() - h,
        {
            let pairs = &hooks[h].keys_and_str;
            let ghost hk = pairs@.map_values(|p: (Key, String)| (p.0@, p.1@));
            proof {
                assert(hooks@.take(h + 1).drop_last() == hooks@.take(h as int));
                assert(hooks@.take(h + 1).last() == hooks@[h as int]);
                assert(hook_keys(hooks@.take(h + 1)) == hook_keys(hooks@.take(h as int)) + hk);
                lemma_hook_keys_prefix(hooks@, h + 1);
            }
            let mut j: usize = 0;
            while j < pairs.len()
                invariant
                    j <= pairs@.len(),
                    h < hooks@.len(),
                    pairs@ == hooks@[h as int].keys_and_str@,
                    hk == pairs@.map_values(|p: (Key, String)| (p.0@, p.1@)),
                    pedantic@ == pedantic_hook_parser(),
                    sendables == sendable@.map_values(|k: Key| k@),
                    sendables == hook_sendables(hooks@),
                    withheld == self.keys@.map_values(|k: Key| k@),
                    all == hook_keys(hooks@),
                    0 <= checked,
                    checked + hk.len() <= all.len(),
                    all.take(checked + hk.len()) == hook_keys(hooks@.take(h as int)) + hk,
                    all.take(checked) == hook_keys(hooks@.take(h as int)),
                    domains.well_formed(),
                    domains.next_id() <= start_domains.next_id() + checked + j,
                    start_domains.next_id() + all.len() < usize::MAX,
                    forall|name: Seq<char>| old(domains).lookup(name) is Some ==> domains.lookup(name) == old(domains).lookup(name),
                    start_domains == *old(domains),
                    forall|k: int| 0 <= k < checked + j ==> key_withholdable(withheld, sendables, (#[trigger] all[k]).0, all[k].1),
                decreases pairs@.len() - j,
            {
                let ghost at = checked + j;
                proof {
                    assert(hk.len() == pairs@.len());
                    assert(0 <= checked <= all.len());
                    let pre = hook_keys(hooks@.take(h as int));
                    assert(pre.len() == checked);
                    assert(all.take(checked + hk.len())[at] == all[at]);
                    assert((pre + hk)[at] == hk[at - pre.len()]);
                    assert(at - pre.len() == j);
                    assert(all[at] == (pairs@[j as int].0@, pairs@[j as int].1@));
                }
                let checked_key = check_hook_key(&self.keys, &sendable, &pairs[j].0, &pairs[j].1, &pedantic, domains);
                if checked_key.is_err() {
                    proof {
                        assert(!key_withholdable(withheld, sendables, all[at].0, all[at].1));
                    }
                    return checked_key;
                }
                j += 1;
            }
            proof {
                checked = checked + hk.len();
                assert(hook_keys(hooks@.take(h + 1)) == hook_keys(hooks@.take(h as int)) + hk);
            }
            h += 1;
        }
        proof {
            assert(hooks@.take(hooks@.len() as int) == hooks@);
        }
        Ok(())
    }
}

/// Checks whether one key of a hook can be withheld, with a message that says why not.
fn check_hook_key(
    withheld: &Vec<Key>,
    sendable: &Vec<Key>,
    key: &Key,
    key_str: &String,
    pedantic: &KeyParser,
    domains: &mut DomainTracker,
) -> (res: Result<(), ArgumentError>)
    requires
        old(domains).well_formed(),
        old(domains).next_id() < usize::MAX,
        pedantic@ == pedantic_hook_parser(),
    ensures
        final(domains).well_formed(),
        final(domains).next_id() <= old(domains).next_id() + 1,
        forall|name: Seq<char>| old(domains).lookup(name) is Some ==> final(domains).lookup(name) == old(domains).lookup(name),
        res is Ok <==> key_withholdable(
            withheld@.map_values(|k: Key| k@),
            sendable@.map_values(|k: Key| k@),
            key@,
            key_str@,
        ),
{
    let ghost withheld_v = withheld@.map_values(|k: Key| k@);
    let ghost sendables = sendable@.map_values(|k: Key| k@);
    // No key of a hook may match an event that the hooks may send.
    let mut s: usize = 0;
    while s < sendable.len()
        invariant
            s <= sendable@.len(),
            sendables == sendable@.map_values(|k: Key| k@),
            *domains == *old(domains),
            old(domains).well_formed(),
            forall|x: int| 0 <= x < s ==> !keys_may_intersect(#[trigger] sendables[x], key@),
        decreases sendable@.len() - s,
    {
        if sendable[s].intersects_with(key) {
            proof {
                assert(keys_may_intersect(sendables[s as int], key@));
            }
            return Err(ArgumentError::new(join_strs(&[
                "It is not possible to use --withhold on a set of hooks where any of the hooks has an input key that matches any event that can be dispatched from any of the send-key= clauses. The key \"",
                key_str.as_str(),
                "\" violates this constraint.",
            ])));
        }
        s += 1;
    }
    let mut withheld_match = false;
    let mut w: usize = 0;
    while w < withheld.len()
        invariant
            w <= withheld@.len(),
            withheld_v == withheld@.map_values(|k: Key| k@),
            withheld_match == exists|x: int| 0 <= x < w && keys_may_intersect(#[trigger] withheld_v[x], key@),
        decreases withheld@.len() - w,
    {
        if withheld[w].intersects_with(key) {
            withheld_match = true;
        }
        proof {
            assert(withheld_v[w as int] == withheld@[w as int]@);
        }
        w += 1;
    }
    if withheld_match {
        match key.requires_event_type() {
            Some(t) => {
                if t.value != EV_KEY {
                    return Err(ArgumentError::new(join_strs(&[
                        "Cannot use --withhold after a hook that triggers on the key \"",
                        key_str.as_str(),
                        "\". Only events of type \"key\" or \"btn\" can be withheld. If you wish for this --withhold to ignore non-EV_KEY-type events, then you can get rid of this error by explicitly specifying \"--withhold key btn\".",
                    ])));
                }
            },
            None => {
                return Err(ArgumentError::new(join_strs(&[
                    "Cannot use --withhold after a hook that triggers on the key \"",
                    key_str.as_str(),
                    "\", because this key can be triggered by events of any event type.",
                ])));
            },
        }
        if pedantic.parse(key_str.as_str(), domains).is_err() {
            return Err(ArgumentError::new(join_strs(&[
                "Cannot use --withhold after a --hook that activates on events with a specific value such as \"",
                key_str.as_str(),
                "\".",
            ])));
        }
    }
    Ok(())
}

proof fn lemma_hook_keys_prefix(hooks: Seq<HookArg>, n: int)
    requires
        0 <= n <= hooks.len(),
    ensures
        hook_keys(hooks.take(n)).len() <= hook_keys(hooks).len(),
        hook_keys(hooks).take(hook_keys(hooks.take(n)).len() as int) == hook_keys(hooks.take(n)),
    decreases hooks.len() - n,
{
    if n < hooks.len() {
        lemma_hook_keys_prefix(hooks, n + 1);
        assert(hooks.take(n + 1).drop_last() == hooks.take(n));
        let a = hook_keys(hooks.take(n));
        let b = hook_keys(hooks.take(n + 1));
        assert(b.take(a.len() as int) == a);
        assert(hook_keys(hooks).take(a.len() as int) == hook_keys(hooks).take(b.len() as int).take(a.len() as int));
    } else {
        assert(hooks.take(n) == hooks);
        assert(hook_keys(hooks).take(hook_keys(hooks).len() as int) == hook_keys(hooks));
    }
}

} // verus!
