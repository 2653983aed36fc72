//! Checks that span several arguments: the ids of the toggles, and the locations that only one
//! argument may claim.

use vstd::prelude::*;

use crate::arguments::control_fifo::ControlFifoArg;
use crate::arguments::delay::{periods_fit_for, spec_delay_arg, spec_period_overflows, DelayArg};
use crate::arguments::group::{clause_values, parsed_keys_are, spec_group_from, spec_group_step, spec_is_path};
use crate::arguments::merge::merge_parser;
use crate::key::plain_parser;
use crate::key::spec_resembles_key;
use crate::arguments::hook::{find_toggle, hook_clauses, hook_flags, lemma_lookup_toggle_in, spec_hook_arg, spec_toggle_effects, toggle_ids_view, HookArg};
use crate::arguments::input::{spec_input_device, InputDevice};
use crate::arguments::map::{spec_block, spec_map, BlockArg, MapArg};
use crate::arguments::merge::{spec_merge, MergeArg};
use crate::arguments::output::{spec_output_device, OutputDevice};
use crate::arguments::print::{spec_print_arg, PrintArg};
use crate::arguments::toggle::{spec_toggle, ToggleArg};
use crate::arguments::withhold::{hook_keys, hook_sendables, key_withholdable, spec_withhold, WithholdArg};
use crate::key::Key;
use crate::domain::DomainTracker;
use crate::error::{ArgumentError, Context, RuntimeError};
use crate::state::{Effect, EffectView, State, ToggleIndex, ToggleStateView};
use crate::text::{chars_eq, spec_split_once};
use crate::key::PropertyView;
use crate::text::{chars_of, join_strs, spec_starts_with, starts_with, str_in, strings_view, strs_contain};

verus! {

/// The toggles that have an id, in order, each with the number of its outputs.
pub open spec fn identified_toggles(args: Seq<ToggleArg>) -> Seq<(Seq<char>, nat)>
    decreases args.len(),
{
    if args.len() == 0 {
        Seq::empty()
    } else {
        let rest = identified_toggles(args.drop_last());
        match args.last().id {
            Some(id) => rest.push((id@, args.last().output_keys@.len())),
            None => rest,
        }
    }
}

/// Whether some item occurs twice.
pub open spec fn has_duplicates<A>(s: Seq<A>) -> bool {
    exists|i: int, j: int| 0 <= i < j < s.len() && s[i] == s[j]
}

/// The ids of toggles.
pub open spec fn id_names(toggles: Seq<(Seq<char>, nat)>) -> Seq<Seq<char>> {
    toggles.map_values(|p: (Seq<char>, nat)| p.0)
}

proof fn lemma_identified_prefix(args: Seq<ToggleArg>, k: int)
    requires
        0 <= k <= args.len(),
    ensures
        identified_toggles(args.take(k)).len() <= identified_toggles(args).len(),
        identified_toggles(args).take(identified_toggles(args.take(k)).len() as int) == identified_toggles(args.take(k)),
    decreases args.len() - k,
{
    if k < args.len() {
        lemma_identified_prefix(args, k + 1);
        assert(args.take(k + 1).drop_last() == args.take(k));
        let a = identified_toggles(args.take(k));
        let b = identified_toggles(args.take(k + 1));
        assert(b.take(a.len() as int) == a);
        assert(identified_toggles(args).take(a.len() as int)
            == identified_toggles(args).take(b.len() as int).take(a.len() as int));
    } else {
        assert(args.take(k) == args);
        assert(identified_toggles(args).take(identified_toggles(args).len() as int) == identified_toggles(args));
    }
}

/// Gives every toggle with an id its place in the state ahead of time, so that hooks can act on
/// toggles that are defined after them. Returns the place of each id. Fails if two toggles have
/// the same id.
pub fn reserve_toggle_indices(args: &Vec<ToggleArg>, state: &mut State) -> (res: Result<Vec<(String, ToggleIndex)>, ArgumentError>)
    requires
        old(state).well_formed(),
        old(state)@.len() + args@.len() <= usize::MAX,
        forall|i: int| 0 <= i < args@.len() ==> (#[trigger] args@[i]).output_keys@.len() > 0,
    ensures
        final(state).well_formed(),
        match res {
            Ok(ids) => {
                let named = identified_toggles(args@);
                &&& !has_duplicates(id_names(named))
                &&& toggle_ids_view(ids@) == Seq::new(
                    named.len(),
                    |k: int| (named[k].0, ToggleIndex((old(state)@.len() + k) as usize)),
                )
                &&& final(state)@ == old(state)@ + Seq::new(
                    named.len(),
                    |k: int| ToggleStateView { value: 0, size: named[k].1 },
                )
            },
            Err(_) => has_duplicates(id_names(identified_toggles(args@))),
        },
{
    let ghost start = state@;
    let mut ids: Vec<(String, ToggleIndex)> = Vec::new();
    let mut i: usize = 0;
    proof {
        assert(args@.take(0) =~= Seq::<ToggleArg>::empty());
        assert(toggle_ids_view(ids@) =~= Seq::new(0, |k: int| (Seq::<char>::empty(), ToggleIndex(0))));
        assert(state@ =~= start + Seq::new(0, |k: int| ToggleStateView { value: 0, size: 0 }));
    }
    while i < args.len()
        invariant
            i <= args@.len(),
            start == old(state)@,
            start.len() + args@.len() <= usize::MAX,
            forall|x: int| 0 <= x < args@.len() ==> (#[trigger] args@[x]).output_keys@.len() > 0,
            state.well_formed(),
            identified_toggles(args@.take(i as int)).len() <= i,
            !has_duplicates(id_names(identified_toggles(args@.take(i as int)))),
            toggle_ids_view(ids@) == Seq::new(
                identified_toggles(args@.take(i as int)).len(),
                |k: int| (identified_toggles(args@.take(i as int))[k].0, ToggleIndex((start.len() + k) as usize)),
            ),
            state@ == start + Seq::new(
                identified_toggles(args@.take(i as int)).len(),
                |k: int| ToggleStateView { value: 0, size: identified_toggles(args@.take(i as int))[k].1 },
            ),
        decreases args@.len() - i,
    {
        let ghost named = identified_toggles(args@.take(i as int));
        proof {
            assert(args@.take(i + 1).drop_last() == args@.take(i as int));
            assert(args@.take(i + 1).last() == args@[i as int]);
        }
        match &args[i].id {
            None => {},
            Some(id) => {
                let ghost next = named.push((id@, args@[i as int].output_keys@.len()));
                proof {
                    assert(identified_toggles(args@.take(i + 1)) == next);
                }
                match find_toggle(&ids, id) {
                    Some(_) => {
                        proof {
                            let view = toggle_ids_view(ids@);
                            lemma_lookup_toggle_in(view, id@);
                            let x = choose|x: int| 0 <= x < view.len() && view[x].0 == id@;
                            assert(view[x].0 == named[x].0);
                            assert(id_names(next)[x] == id_names(next)[named.len() as int]);
                            assert(has_duplicates(id_names(next)));
                            lemma_identified_prefix(args@, i + 1);
                            let whole = identified_toggles(args@);
                            assert(id_names(whole)[x] == id_names(next)[x]);
                            assert(id_names(whole)[named.len() as int] == id_names(next)[named.len() as int]);
                        }
                        return Err(ArgumentError::new(join_strs(&["Two toggles cannot have the same id."])));
                    },
                    None => {
                        proof {
                            let view = toggle_ids_view(ids@);
                            lemma_lookup_toggle_in(view, id@);
                            assert forall|a: int, b: int| 0 <= a < b < id_names(next).len()
                                implies id_names(next)[a] != id_names(next)[b] by {
                                if b == named.len() {
                                    assert(view[a].0 == named[a].0);
                                } else {
                                    assert(id_names(named)[a] == id_names(next)[a]);
                                    assert(id_names(named)[b] == id_names(next)[b]);
                                }
                            }
                        }
                        let size = args[i].size();
                        let index = state.create_toggle_with_size(size);
                        let ghost before = ids@;
                        ids.push((id.clone(), index));
                        proof {
                            assert(toggle_ids_view(ids@) =~= toggle_ids_view(before).push((id@, index)));
                            assert(toggle_ids_view(ids@) =~= Seq::new(
                                next.len(),
                                |k: int| (next[k].0, ToggleIndex((start.len() + k) as usize)),
                            ));
                            assert(state@ =~= start + Seq::new(
                                next.len(),
                                |k: int| ToggleStateView { value: 0, size: next[k].1 },
                            ));
                        }
                    },
                }
            },
        }
        i += 1;
    }
    proof {
        assert(args@.take(args@.len() as int) == args@);
    }
    Ok(ids)
}

/// Whether no item occurs twice.
pub fn are_unique(items: &Vec<String>) -> (res: bool)
    ensures
        res == !has_duplicates(items@.map_values(|s: String| s@)),
{
    let ghost view = items@.map_values(|s: String| s@);
    let mut i: usize = 0;
    while i < items.len()
        invariant
            i <= items@.len(),
            view == items@.map_values(|s: String| s@),
            !has_duplicates(view.take(i as int)),
        decreases items@.len() - i,
    {
        let mut j: usize = 0;
        while j < i
            invariant
                j <= i < items@.len(),
                view == items@.map_values(|s: String| s@),
                forall|x: int| 0 <= x < j ==> #[trigger] view[x] != view[i as int],
            decreases i - j,
        {
            if items[j] == items[i] {
                proof {
                    assert(view[j as int] == view[i as int]);
                }
                return false;
            }
            j += 1;
        }
        proof {
            assert forall|a: int, b: int| 0 <= a < b < view.take(i + 1).len()
                implies #[trigger] view.take(i + 1)[a] != #[trigger] view.take(i + 1)[b] by {
                if b < i {
                    assert(view.take(i as int)[a] == view[a]);
                    assert(view.take(i as int)[b] == view[b]);
                }
            }
        }
        i += 1;
    }
    proof {
        assert(view.take(items@.len() as int) == view);
    }
    true
}

/// Checks that no two output devices create a link at the same location, and that no control
/// fifo is given twice.
pub fn check_unique_locations(create_links: &Vec<String>, control_fifo_paths: &Vec<String>) -> (res: Result<(), ArgumentError>)
    ensures
        res is Ok <==> !has_duplicates(create_links@.map_values(|s: String| s@))
            && !has_duplicates(control_fifo_paths@.map_values(|s: String| s@)),
{
    if !are_unique(create_links) {
        return Err(ArgumentError::new(join_strs(&["Multiple output devices cannot create a link at the same location."])));
    }
    if !are_unique(control_fifo_paths) {
        return Err(ArgumentError::new(join_strs(&["A control fifo was specified twice at the same location."])));
    }
    Ok(())
}

/// Whether a word starts an argument.
pub open spec fn is_argument_name(word: Seq<char>) -> bool {
    spec_starts_with(word, "--"@)
}

/// The words grouped into arguments: each argument is a word that starts with two dashes and the
/// words after it up to the next such word. None if the first word does not start an argument.
pub open spec fn spec_groups(words: Seq<Seq<char>>) -> Option<Seq<Seq<Seq<char>>>>
    decreases words.len(),
{
    if words.len() == 0 {
        Some(Seq::empty())
    } else {
        match spec_groups(words.drop_last()) {
            None => None,
            Some(groups) => if is_argument_name(words.last()) {
                Some(groups.push(seq![words.last()]))
            } else if groups.len() == 0 {
                None
            } else {
                Some(groups.update(groups.len() - 1, groups.last().push(words.last())))
            },
        }
    }
}

/// The groups of strings, as plain values.
pub open spec fn groups_view(groups: Seq<Vec<String>>) -> Seq<Seq<Seq<char>>> {
    groups.map_values(|g: Vec<String>| strings_view(g@))
}

/// The words of the command line after the name of the program.
pub open spec fn after_program_name(args: Seq<Seq<char>>) -> Seq<Seq<char>> {
    if args.len() == 0 {
        Seq::empty()
    } else {
        args.drop_first()
    }
}

proof fn lemma_groups_none_extends(words: Seq<Seq<char>>, k: int)
    requires
        0 <= k <= words.len(),
        spec_groups(words.take(k)) is None,
    ensures
        spec_groups(words) is None,
    decreases words.len() - k,
{
    if k < words.len() {
        assert(words.take(k + 1).drop_last() == words.take(k));
        lemma_groups_none_extends(words, k + 1);
    } else {
        assert(words.take(k) == words);
    }
}

/// Sorts the words of the command line, the name of the program first, into arguments. Fails if
/// the first word after the name of the program does not start an argument.
pub fn group_arguments(args: Vec<String>) -> (res: Result<Vec<Vec<String>>, ArgumentError>)
    ensures
        match res {
            Ok(groups) => spec_groups(after_program_name(strings_view(args@))) == Some(groups_view(groups@)),
            Err(_) => spec_groups(after_program_name(strings_view(args@))) is None,
        },
{
    let ghost words = after_program_name(strings_view(args@));
    let mut groups: Vec<Vec<String>> = Vec::new();
    let mut current: Vec<String> = Vec::new();
    let dashes = chars_of("--");
    if args.len() == 0 {
        proof {
            assert(words.len() == 0);
        }
        return Ok(groups);
    }
    let mut i: usize = 1;
    proof {
        assert(words.take(0) =~= Seq::<Seq<char>>::empty());
        assert(groups_view(groups@) =~= Seq::<Seq<Seq<char>>>::empty());
    }
    while i < args.len()
        invariant
            1 <= i <= args@.len(),
            words == after_program_name(strings_view(args@)),
            words == strings_view(args@).drop_first(),
            dashes@ == "--"@,
            spec_groups(words.take(i - 1)) == Some(
                if current@.len() > 0 { groups_view(groups@).push(strings_view(current@)) } else { groups_view(groups@) },
            ),
            i > 1 ==> current@.len() > 0,
        decreases args@.len() - i,
    {
        let ghost before = spec_groups(words.take(i - 1)).unwrap();
        proof {
            assert(words.take(i as int).drop_last() == words.take(i - 1));
            assert(words.take(i as int).last() == args@[i as int]@);
        }
        let word = chars_of(args[i].as_str());
        if starts_with(word.as_slice(), dashes.as_slice()) {
            let ghost old_groups = groups@;
            if current.len() > 0 {
                groups.push(current);
            }
            current = Vec::new();
            current.push(args[i].clone());
            proof {
                assert(groups_view(groups@) =~= before);
                assert(strings_view(current@) =~= seq![args@[i as int]@]);
                assert(groups_view(groups@).push(strings_view(current@)) =~= before.push(seq![args@[i as int]@]));
            }
        } else {
            if current.len() == 0 {
                proof {
                    assert(i == 1);
                    assert(before.len() == 0);
                    lemma_groups_none_extends(words, i as int);
                }
                return Err(ArgumentError::new(join_strs(&[
                    "Expected an argument starting with --, encountered \"", args[i].as_str(), "\".",
                ])));
            }
            let ghost old_current = current@;
            current.push(args[i].clone());
            proof {
                assert(strings_view(current@) =~= strings_view(old_current).push(args@[i as int]@));
                assert(groups_view(groups@).push(strings_view(current@)) =~= before.update(
                    before.len() - 1,
                    before.last().push(args@[i as int]@),
                ));
            }
        }
        i += 1;
    }
    proof {
        assert(words.take(args@.len() - 1) == words);
    }
    if current.len() > 0 {
        let ghost old_groups = groups@;
        groups.push(current);
        proof {
            assert(groups_view(groups@) =~= groups_view(old_groups).push(strings_view(current@)));
        }
    }
    Ok(groups)
}

/// What the command line asks for besides a program.
#[derive(Clone, Copy, PartialEq, Eq, Debug, Structural)]
pub enum HelpRequest {
    /// The usage message.
    Usage,
    /// The version.
    Version,
    /// Neither: the arguments describe a program to run.
    Neither,
}

/// What the command line, the name of the program first, asks for: the usage message when it
/// holds nothing else or a help flag, else the version when it holds --version.
pub open spec fn spec_help_request(args: Seq<Seq<char>>) -> HelpRequest {
    if args.len() == 1 || args.contains("-?"@) || args.contains("-h"@) || args.contains("--help"@) {
        HelpRequest::Usage
    } else if args.contains("--version"@) {
        HelpRequest::Version
    } else {
        HelpRequest::Neither
    }
}

/// Whether one of the words is the given flag.
fn contains_word(args: &Vec<String>, flag: &str) -> (res: bool)
    ensures
        res == strings_view(args@).contains(flag@),
{
    let mut i: usize = 0;
    while i < args.len()
        invariant
            i <= args@.len(),
            forall|k: int| 0 <= k < i ==> args@[k]@ != flag@,
        decreases args@.len() - i,
    {
        let word = chars_of(args[i].as_str());
        let wanted = chars_of(flag);
        if crate::text::chars_eq(word.as_slice(), wanted.as_slice()) {
            proof {
                assert(strings_view(args@)[i as int] == flag@);
            }
            return true;
        }
        i += 1;
    }
    proof {
        if strings_view(args@).contains(flag@) {
            let k = choose|k: int| 0 <= k < strings_view(args@).len() && strings_view(args@)[k] == flag@;
            assert(args@[k]@ == flag@);
        }
    }
    false
}

/// Whether the command line asks for the usage message or the version instead of a program.
pub fn help_request(args: &Vec<String>) -> (res: HelpRequest)
    ensures
        res == spec_help_request(strings_view(args@)),
{
    if args.len() == 1 || contains_word(args, "-?") || contains_word(args, "-h") || contains_word(args, "--help") {
        HelpRequest::Usage
    } else if contains_word(args, "--version") {
        HelpRequest::Version
    } else {
        HelpRequest::Neither
    }
}

/// A parsed argument of the command line.
pub enum Argument {
    InputDevice(InputDevice),
    OutputDevice(OutputDevice),
    MapArg(MapArg),
    HookArg(HookArg),
    BlockArg(BlockArg),
    ToggleArg(ToggleArg),
    PrintArg(PrintArg),
    MergeArg(MergeArg),
    DelayArg(DelayArg),
    WithholdArg(WithholdArg),
    ControlFifoArg(ControlFifoArg),
}

/// Whether a word names an argument that the program knows.
pub open spec fn known_argument(name: Seq<char>) -> bool {
    name == "--input"@ || name == "--output"@ || name == "--map"@ || name == "--copy"@ || name == "--hook"@
        || name == "--toggle"@ || name == "--block"@ || name == "--print"@ || name == "--merge"@ || name == "--delay"@
        || name == "--withhold"@ || name == "--control-fifo"@
}

/// Whether the argument that the words make is acceptable to the parser that its name picks,
/// given the domains after it was parsed.
pub open spec fn spec_argument_accepted(args: Seq<Seq<char>>, domains: DomainTracker) -> bool {
    let name = args[0];
    if name == "--input"@ {
        spec_input_device(args) is Some
    } else if name == "--output"@ {
        spec_output_device(args) is Some
    } else if name == "--map"@ || name == "--copy"@ {
        spec_map(args) is Some
    } else if name == "--hook"@ {
        spec_hook_arg(args, domains) is Some
    } else if name == "--toggle"@ {
        spec_toggle(args) is Some
    } else if name == "--block"@ {
        spec_block(args) is Some
    } else if name == "--print"@ {
        spec_print_arg(args) is Some
    } else if name == "--merge"@ {
        spec_merge(args) is Some
    } else if name == "--delay"@ {
        spec_delay_arg(args) is Some
    } else if name == "--withhold"@ {
        spec_withhold(args) is Some
    } else if name == "--control-fifo"@ {
        spec_group_from(args, Seq::empty(), Seq::empty(), true, false) is Some
    } else {
        false
    }
}

/// Whether an argument other than a --hook is accepted does not depend on the domains: only the
/// send clauses of a hook need the domains that they name to be known.
pub proof fn lemma_accepted_without_domains(args: Seq<Seq<char>>, first: DomainTracker, second: DomainTracker)
    requires
        args.len() > 0,
        args[0] != "--hook"@,
    ensures
        spec_argument_accepted(args, first) == spec_argument_accepted(args, second),
{
}

/// Whether a parsed argument is of the kind that its name picks.
pub open spec fn argument_named(arg: Argument, name: Seq<char>) -> bool {
    match arg {
        Argument::InputDevice(_) => name == "--input"@,
        Argument::OutputDevice(_) => name == "--output"@,
        Argument::MapArg(_) => name == "--map"@ || name == "--copy"@,
        Argument::HookArg(_) => name == "--hook"@,
        Argument::BlockArg(_) => name == "--block"@,
        Argument::ToggleArg(_) => name == "--toggle"@,
        Argument::PrintArg(_) => name == "--print"@,
        Argument::MergeArg(_) => name == "--merge"@,
        Argument::DelayArg(_) => name == "--delay"@,
        Argument::WithholdArg(_) => name == "--withhold"@,
        Argument::ControlFifoArg(_) => name == "--control-fifo"@,
    }
}

/// Whether a parsed argument is what the parser of its kind makes of the words, given the
/// domains after it was parsed.
pub open spec fn parsed_as(arg: Argument, args: Seq<Seq<char>>, domains: DomainTracker) -> bool {
    match arg {
        Argument::InputDevice(device) => spec_input_device(args) matches Some(view) && device.matches_view(view, domains),
        Argument::OutputDevice(device) => spec_output_device(args) matches Some(view) && device.matches_view(view, domains),
        Argument::MapArg(map) => spec_map(args) matches Some(view) && map.matches_view(view, domains),
        Argument::HookArg(hook) => spec_hook_arg(args, domains) matches Some(view) && hook.matches_view(view, domains),
        Argument::ToggleArg(toggle) => spec_toggle(args) matches Some(view) && toggle.matches_view(view, domains),
        Argument::BlockArg(block) => spec_block(args) matches Some(strs)
            && parsed_keys_are(block.keys@, plain_parser(true, true, true, true, false), strs, domains),
        Argument::PrintArg(print) => spec_print_arg(args) matches Some(view)
            && parsed_keys_are(print.keys@, plain_parser(true, true, true, true, false), view.key_strs, domains)
            && print.mode == view.mode,
        Argument::MergeArg(merge) => spec_merge(args) matches Some(strs)
            && parsed_keys_are(merge.keys@, merge_parser(), strs, domains),
        Argument::DelayArg(delay) => spec_delay_arg(args) matches Some(view)
            && parsed_keys_are(delay.keys@, plain_parser(true, true, true, true, false), view.key_strs, domains)
            && delay.period@ == view.nanos,
        Argument::WithholdArg(withhold) => spec_withhold(args) matches Some(strs)
            && parsed_keys_are(withhold.keys@, merge_parser(), strs, domains),
        Argument::ControlFifoArg(fifo) => spec_group_from(args, Seq::empty(), Seq::empty(), true, false) matches Some(group)
            && strings_view(fifo.paths@) == group.paths,
    }
}

/// Whether a word is a period clause whose length in nanoseconds does not fit in 64 bits.
pub open spec fn period_arg_fits(word: Seq<char>) -> bool {
    match spec_split_once(word, seq!['=']) {
        (name, Some(value)) => name == "period"@ ==> !spec_period_overflows(value),
        _ => true,
    }
}

/// Whether every period clause among the words fits in 64 bits of nanoseconds.
pub open spec fn all_periods_fit(words: Seq<Seq<char>>) -> bool {
    forall|i: int| 0 <= i < words.len() ==> period_arg_fits(#[trigger] words[i])
}

proof fn lemma_periods_fit_for(
    args: Seq<Seq<char>>,
    flags: Seq<&str>,
    clauses: Seq<&str>,
    paths: bool,
    keys: bool,
)
    requires
        all_periods_fit(args),
    ensures
        spec_group_from(args, flags, clauses, paths, keys) matches Some(g) ==> forall|i: int|
            0 <= i < clause_values(g.clauses, "period"@).len()
                ==> !spec_period_overflows(#[trigger] clause_values(g.clauses, "period"@)[i]),
    decreases args.len(),
{
    if args.len() > 1 {
        assert(all_periods_fit(args.drop_last())) by {
            assert forall|i: int| 0 <= i < args.drop_last().len() implies period_arg_fits(#[trigger] args.drop_last()[i]) by {
                assert(args.drop_last()[i] == args[i]);
            }
        }
        lemma_periods_fit_for(args.drop_last(), flags, clauses, paths, keys);
        if let Some(g0) = spec_group_from(args.drop_last(), flags, clauses, paths, keys) {
            let w = args.last();
            assert(period_arg_fits(args[args.len() - 1]));
            assert(w == args[args.len() - 1]);
            if let Some(g) = spec_group_step(g0, w, flags, clauses, paths, keys) {
                let (n, v) = spec_split_once(w, seq!['=']);
                let pv = clause_values(g.clauses, "period"@);
                if !spec_resembles_key(w) && !spec_is_path(w) && v is Some {
                    let value = v.unwrap();
                    assert(g.clauses == g0.clauses.push((n, value)));
                    assert(g.clauses.drop_last() == g0.clauses);
                    assert(g.clauses.last() == (n, value));
                    assert forall|i: int| 0 <= i < pv.len() implies !spec_period_overflows(#[trigger] pv[i]) by {
                        if n == "period"@ {
                            assert(pv == clause_values(g0.clauses, "period"@).push(value));
                            if i < pv.len() - 1 {
                                assert(pv[i] == clause_values(g0.clauses, "period"@)[i]);
                            }
                        } else {
                            assert(pv == clause_values(g0.clauses, "period"@));
                        }
                    }
                } else {
                    assert(g.clauses == g0.clauses);
                }
            }
        }
    }
}

/// The total number of words in the groups.
pub open spec fn total_len(groups: Seq<Seq<Seq<char>>>) -> nat
    decreases groups.len(),
{
    if groups.len() == 0 {
        0
    } else {
        total_len(groups.drop_last()) + groups.last().len()
    }
}

proof fn lemma_groups_shape(words: Seq<Seq<char>>)
    ensures
        spec_groups(words) matches Some(groups) ==> {
            &&& total_len(groups) == words.len()
            &&& forall|g: int| 0 <= g < groups.len() ==> (#[trigger] groups[g]).len() > 0
            &&& all_periods_fit(words) ==> forall|g: int| 0 <= g < groups.len() ==> all_periods_fit(#[trigger] groups[g])
        },
    decreases words.len(),
{
    if words.len() > 0 {
        let prefix = words.drop_last();
        lemma_groups_shape(prefix);
        if all_periods_fit(words) {
            assert(all_periods_fit(prefix)) by {
                assert forall|i: int| 0 <= i < prefix.len() implies period_arg_fits(#[trigger] prefix[i]) by {
                    assert(prefix[i] == words[i]);
                }
            }
            assert(period_arg_fits(words[words.len() - 1]));
        }
        if let Some(groups) = spec_groups(prefix) {
            let w = words.last();
            if is_argument_name(w) {
                let next = groups.push(seq![w]);
                assert(next.drop_last() == groups);
                if all_periods_fit(words) {
                    assert forall|g: int| 0 <= g < next.len() implies all_periods_fit(#[trigger] next[g]) by {
                        if g < groups.len() {
                            assert(next[g] == groups[g]);
                        } else {
                            assert forall|i: int| 0 <= i < next[g].len() implies period_arg_fits(#[trigger] next[g][i]) by {
                                assert(next[g][i] == words[words.len() - 1]);
                            }
                        }
                    }
                }
                assert forall|g: int| 0 <= g < next.len() implies (#[trigger] next[g]).len() > 0 by {
                    if g < groups.len() {
                        assert(next[g] == groups[g]);
                    }
                }
            } else if groups.len() > 0 {
                let last = groups.last().push(w);
                let next = groups.update(groups.len() - 1, last);
                assert(next.drop_last() == groups.drop_last());
                assert(next.last() == last);
                if all_periods_fit(words) {
                    assert forall|g: int| 0 <= g < next.len() implies all_periods_fit(#[trigger] next[g]) by {
                        if g < groups.len() - 1 {
                            assert(next[g] == groups[g]);
                        } else {
                            assert(all_periods_fit(groups[groups.len() - 1]));
                            assert forall|i: int| 0 <= i < last.len() implies period_arg_fits(#[trigger] last[i]) by {
                                if i < groups.last().len() {
                                    assert(last[i] == groups.last()[i]);
                                } else {
                                    assert(last[i] == words[words.len() - 1]);
                                }
                            }
                        }
                    }
                }
                assert forall|g: int| 0 <= g < next.len() implies (#[trigger] next[g]).len() > 0 by {
                    if g < groups.len() - 1 {
                        assert(next[g] == groups[g]);
                    }
                }
            }
        }
    }
}

fn word_is(word: &String, name: &str) -> (res: bool)
    ensures
        res == (word@ == name@),
{
    let a = chars_of(word.as_str());
    let b = chars_of(name);
    chars_eq(a.as_slice(), b.as_slice())
}

impl Argument {
    /// Parses one argument with the parser that its name picks. Fails for a name that the
    /// program does not know, and for an argument that its parser does not accept.
    pub fn parse(args: Vec<String>, domains: &mut DomainTracker) -> (res: Result<Argument, RuntimeError>)
        requires
            args@.len() > 0,
            old(domains).well_formed(),
            old(domains).next_id() + 4 * args@.len() + 4 < usize::MAX,
            all_periods_fit(strings_view(args@)),
        ensures
            final(domains).well_formed(),
            final(domains).next_id() <= old(domains).next_id() + 4 * args@.len() + 4,
            forall|name: Seq<char>| old(domains).lookup(name) is Some ==> final(domains).lookup(name) == old(domains).lookup(name),
            res is Ok <==> spec_argument_accepted(strings_view(args@), *final(domains)),
            res matches Ok(arg) ==> argument_named(arg, args@[0]@),
            res matches Ok(arg) ==> parsed_as(arg, strings_view(args@), *final(domains)),
            res matches Ok(Argument::HookArg(hook)) ==> hook.event_dispatcher.well_formed()
                && hook.keys_and_str@.len() < args@.len(),
            res matches Ok(Argument::ToggleArg(toggle)) ==> toggle.output_keys@.len() > 0,
    {
        let ghost argv = strings_view(args@);
        proof {
            assert(argv[0] == args@[0]@);
            lemma_periods_fit_for(argv, hook_flags(), hook_clauses(), false, true);
            lemma_periods_fit_for(argv, Seq::empty(), seq!["period"], false, true);
        }
        let name = args[0].clone();
        if word_is(&name, "--input") {
            match InputDevice::parse(args, domains) {
                Ok(a) => Ok(Argument::InputDevice(a)),
                Err(e) => Err(RuntimeError::ArgumentError(e)),
            }
        } else if word_is(&name, "--output") {
            match OutputDevice::parse(args, domains) {
                Ok(a) => Ok(Argument::OutputDevice(a)),
                Err(e) => Err(RuntimeError::ArgumentError(e)),
            }
        } else if word_is(&name, "--map") || word_is(&name, "--copy") {
            match MapArg::parse(args, domains) {
                Ok(a) => Ok(Argument::MapArg(a)),
                Err(e) => Err(e),
            }
        } else if word_is(&name, "--hook") {
            match HookArg::parse(args, domains) {
                Ok(a) => Ok(Argument::HookArg(a)),
                Err(e) => Err(e),
            }
        } else if word_is(&name, "--toggle") {
            match ToggleArg::parse(args, domains) {
                Ok(a) => Ok(Argument::ToggleArg(a)),
                Err(e) => Err(RuntimeError::ArgumentError(e)),
            }
        } else if word_is(&name, "--block") {
            match BlockArg::parse(args, domains) {
                Ok(a) => Ok(Argument::BlockArg(a)),
                Err(e) => Err(RuntimeError::ArgumentError(e)),
            }
        } else if word_is(&name, "--print") {
            match PrintArg::parse(args, domains) {
                Ok(a) => Ok(Argument::PrintArg(a)),
                Err(e) => Err(RuntimeError::ArgumentError(e)),
            }
        } else if word_is(&name, "--merge") {
            match MergeArg::parse(args, domains) {
                Ok(a) => Ok(Argument::MergeArg(a)),
                Err(e) => Err(RuntimeError::ArgumentError(e)),
            }
        } else if word_is(&name, "--delay") {
            match DelayArg::parse(args, domains) {
                Ok(a) => Ok(Argument::DelayArg(a)),
                Err(e) => Err(RuntimeError::ArgumentError(e)),
            }
        } else if word_is(&name, "--withhold") {
            match WithholdArg::parse(args, domains) {
                Ok(a) => Ok(Argument::WithholdArg(a)),
                Err(e) => Err(RuntimeError::ArgumentError(e)),
            }
        } else if word_is(&name, "--control-fifo") {
            match ControlFifoArg::parse(args, domains) {
                Ok(a) => Ok(Argument::ControlFifoArg(a)),
                Err(e) => Err(RuntimeError::ArgumentError(e)),
            }
        } else {
            Err(RuntimeError::ArgumentError(ArgumentError::new(join_strs(&[
                "Encountered unknown argument: ", name.as_str(),
            ]))))
        }
    }
}

/// The words, one after another, with a space between each two.
pub open spec fn spec_join_words(words: Seq<Seq<char>>) -> Seq<char>
    decreases words.len(),
{
    if words.len() == 0 {
        Seq::empty()
    } else if words.len() == 1 {
        words[0]
    } else {
        spec_join_words(words.drop_last()) + seq![' '] + words.last()
    }
}

/// The words joined by spaces.
fn join_words(words: &Vec<String>) -> (res: String)
    ensures
        res@ == spec_join_words(strings_view(words@)),
{
    let ghost view = strings_view(words@);
    let mut out: Vec<char> = Vec::new();
    let mut i: usize = 0;
    proof {
        assert(view.take(0).len() == 0);
    }
    while i < words.len()
        invariant
            i <= words@.len(),
            view == strings_view(words@),
            out@ == spec_join_words(view.take(i as int)),
        decreases words@.len() - i,
    {
        proof {
            assert(view.take(i + 1).drop_last() == view.take(i as int));
            assert(view.take(i + 1).last() == words@[i as int]@);
        }
        let space: [char; 1] = [' '];
        if i > 0 {
            out = crate::text::concat_chars(out.as_slice(), space.as_slice());
            proof {
                assert(space@ =~= seq![' ']);
            }
        }
        let piece = chars_of(words[i].as_str());
        out = crate::text::concat_chars(out.as_slice(), piece.as_slice());
        proof {
            if i == 0 {
                assert(view.take(1) =~= seq![view[0]]);
                assert(out@ =~= spec_join_words(view.take(1)));
            }
        }
        i += 1;
    }
    proof {
        assert(view.take(words@.len() as int) == view);
    }
    crate::text::string_from_chars(out.as_slice())
}

/// Whether a domain tracker still knows every name that another knew, with the same domain.
pub open spec fn keeps_names(after: DomainTracker, before: DomainTracker) -> bool {
    forall|name: Seq<char>| before.lookup(name) is Some ==> after.lookup(name) == before.lookup(name)
}

proof fn lemma_keeps_names_trans(a: DomainTracker, b: DomainTracker, c: DomainTracker)
    requires
        keeps_names(b, a),
        keeps_names(c, b),
    ensures
        keeps_names(c, a),
{
    assert forall|name: Seq<char>| a.lookup(name) is Some implies c.lookup(name) == a.lookup(name) by {
        assert(b.lookup(name) == a.lookup(name));
    }
}

/// Whether a domain tracker comes after the last of the trackers that the parsed arguments saw:
/// any tracker when none was parsed, else one that keeps the names of the last.
pub open spec fn follows(domains: Seq<DomainTracker>, next: DomainTracker) -> bool {
    domains.len() > 0 ==> keeps_names(next, domains.last())
}

/// Whether the arguments were parsed one by one from the first groups of words, each by the
/// parser that its name picks, with the domains that were known right after it.
pub open spec fn parses_prefix(groups: Seq<Seq<Seq<char>>>, parsed: Seq<Argument>, domains: Seq<DomainTracker>) -> bool {
    &&& parsed.len() == domains.len()
    &&& parsed.len() <= groups.len()
    &&& forall|i: int| 0 <= i < parsed.len() ==> {
        &&& (#[trigger] domains[i]).well_formed()
        &&& argument_named(parsed[i], groups[i][0])
        &&& parsed_as(parsed[i], groups[i], domains[i])
        &&& 0 < i ==> keeps_names(domains[i], domains[i - 1])
    }
}

/// The hooks among the arguments, in order.
pub open spec fn hooks_of(parsed: Seq<Argument>) -> Seq<HookArg>
    decreases parsed.len(),
{
    if parsed.len() == 0 {
        Seq::empty()
    } else {
        match parsed.last() {
            Argument::HookArg(hook) => hooks_of(parsed.drop_last()).push(hook),
            _ => hooks_of(parsed.drop_last()),
        }
    }
}

/// The hooks that come right after the last argument that is not a hook.
pub open spec fn trailing_hooks(parsed: Seq<Argument>) -> Seq<HookArg>
    decreases parsed.len(),
{
    if parsed.len() == 0 {
        Seq::empty()
    } else {
        match parsed.last() {
            Argument::HookArg(hook) => trailing_hooks(parsed.drop_last()).push(hook),
            _ => Seq::empty(),
        }
    }
}

/// The toggles among the arguments, in order.
pub open spec fn toggles_of(parsed: Seq<Argument>) -> Seq<ToggleArg>
    decreases parsed.len(),
{
    if parsed.len() == 0 {
        Seq::empty()
    } else {
        match parsed.last() {
            Argument::ToggleArg(toggle) => toggles_of(parsed.drop_last()).push(toggle),
            _ => toggles_of(parsed.drop_last()),
        }
    }
}

/// The arguments that are neither hooks nor toggles, in order.
pub open spec fn others_of(parsed: Seq<Argument>) -> Seq<Argument>
    decreases parsed.len(),
{
    if parsed.len() == 0 {
        Seq::empty()
    } else {
        match parsed.last() {
            Argument::HookArg(_) => others_of(parsed.drop_last()),
            Argument::ToggleArg(_) => others_of(parsed.drop_last()),
            other => others_of(parsed.drop_last()).push(other),
        }
    }
}

/// The locations that the output devices among the arguments link to, in order.
pub open spec fn links_of(parsed: Seq<Argument>) -> Seq<Seq<char>>
    decreases parsed.len(),
{
    if parsed.len() == 0 {
        Seq::empty()
    } else {
        match parsed.last() {
            Argument::OutputDevice(device) => match device.create_link {
                Some(link) => links_of(parsed.drop_last()).push(link@),
                None => links_of(parsed.drop_last()),
            },
            _ => links_of(parsed.drop_last()),
        }
    }
}

/// The paths of the control fifos among the arguments, in order.
pub open spec fn fifo_paths_of(parsed: Seq<Argument>) -> Seq<Seq<char>>
    decreases parsed.len(),
{
    if parsed.len() == 0 {
        Seq::empty()
    } else {
        match parsed.last() {
            Argument::ControlFifoArg(fifo) => fifo_paths_of(parsed.drop_last()) + strings_view(fifo.paths@),
            _ => fifo_paths_of(parsed.drop_last()),
        }
    }
}

/// Whether a --withhold argument can withhold the events of the hooks right before it.
pub open spec fn withhold_accepts(withhold: WithholdArg, hooks: Seq<HookArg>) -> bool {
    &&& hooks.len() > 0
    &&& forall|k: int| 0 <= k < hook_keys(hooks).len() ==> key_withholdable(
        withhold.keys@.map_values(|key: Key| key@),
        hook_sendables(hooks),
        (#[trigger] hook_keys(hooks)[k]).0,
        hook_keys(hooks)[k].1,
    )
}

/// Whether every --withhold argument can withhold the events of the hooks right before it.
pub open spec fn withholds_fit(parsed: Seq<Argument>) -> bool {
    forall|w: int| 0 <= w < parsed.len() ==> ((#[trigger] parsed[w]) matches Argument::WithholdArg(withhold)
        ==> withhold_accepts(withhold, trailing_hooks(parsed.take(w))))
}

/// The state of the toggles with an id: one per toggle, each at its first value.
pub open spec fn reserved_state(named: Seq<(Seq<char>, nat)>) -> Seq<ToggleStateView> {
    Seq::new(named.len(), |k: int| ToggleStateView { value: 0, size: named[k].1 })
}

/// The place of each toggle id in that state.
pub open spec fn reserved_ids(named: Seq<(Seq<char>, nat)>) -> Seq<(Seq<char>, ToggleIndex)> {
    Seq::new(named.len(), |k: int| (named[k].0, ToggleIndex(k as usize)))
}

/// Whether the next group of words, after those that were parsed, is refused: its name is
/// unknown, its parser does not accept it, or it is a --withhold that the hooks right before it
/// do not allow.
pub open spec fn step_rejected(groups: Seq<Seq<Seq<char>>>, parsed: Seq<Argument>, domains: Seq<DomainTracker>) -> bool {
    let group = groups[parsed.len() as int];
    ||| !known_argument(group[0])
    ||| exists|d: DomainTracker| d.well_formed() && follows(domains, d) && !#[trigger] spec_argument_accepted(group, d)
    ||| exists|arg: Argument, d: DomainTracker| {
        &&& d.well_formed()
        &&& follows(domains, d)
        &&& #[trigger] parsed_as(arg, group, d)
        &&& arg matches Argument::WithholdArg(withhold)
        &&& !withhold_accepts(withhold, trailing_hooks(parsed))
    }
}

/// Whether the checks that follow the parsing of all arguments fail: two toggles have the same
/// id, the toggle clauses of a hook name a toggle or an index that does not exist, or a link
/// location or a control fifo is given twice.
pub open spec fn checks_rejected(parsed: Seq<Argument>) -> bool {
    let named = identified_toggles(toggles_of(parsed));
    ||| has_duplicates(id_names(named))
    ||| exists|h: int| 0 <= h < hooks_of(parsed).len() && spec_toggle_effects(
        (#[trigger] hooks_of(parsed)[h]).toggle_action@,
        reserved_state(named),
        reserved_ids(named),
    ) is None
    ||| has_duplicates(links_of(parsed))
    ||| has_duplicates(fifo_paths_of(parsed))
}

/// Whether, after the groups of words before the last parsed argument were parsed in order, the
/// next group is refused, or all were parsed and the checks that span them fail.
pub open spec fn rejected_after(groups: Seq<Seq<Seq<char>>>, parsed: Seq<Argument>, domains: Seq<DomainTracker>) -> bool {
    &&& parses_prefix(groups, parsed, domains)
    &&& withholds_fit(parsed)
    &&& {
        ||| parsed.len() < groups.len() && step_rejected(groups, parsed, domains)
        ||| parsed.len() == groups.len() && checks_rejected(parsed)
    }
}

/// Whether the command line is refused: its words do not form groups, or, parsing the groups in
/// order, one of them is refused, or all are parsed and the checks that span them fail.
pub open spec fn implement_rejects(words: Seq<Seq<char>>) -> bool {
    match spec_groups(words) {
        None => true,
        Some(groups) => exists|parsed: Seq<Argument>, domains: Seq<DomainTracker>| #[trigger] rejected_after(groups, parsed, domains),
    }
}

/// Whether an implementation is what the groups of words amount to: each argument was parsed
/// from its group, the --withhold arguments fit their hooks, and the state, the toggle ids and
/// the effects of the hooks follow from the toggles and hooks, which pass the checks.
pub open spec fn implementation_of(
    imp: Implementation,
    groups: Seq<Seq<Seq<char>>>,
    parsed: Seq<Argument>,
    domains: Seq<DomainTracker>,
) -> bool {
    let named = identified_toggles(toggles_of(parsed));
    &&& parses_prefix(groups, parsed, domains)
    &&& parsed.len() == groups.len()
    &&& withholds_fit(parsed)
    &&& !checks_rejected(parsed)
    &&& imp.hooks@ == hooks_of(parsed)
    &&& imp.toggles@ == toggles_of(parsed)
    &&& imp.others@ == others_of(parsed)
    &&& imp.create_links@.map_values(|s: String| s@) == links_of(parsed)
    &&& imp.control_fifo_paths@.map_values(|s: String| s@) == fifo_paths_of(parsed)
    &&& imp.state.well_formed()
    &&& imp.state@ == reserved_state(named)
    &&& toggle_ids_view(imp.toggle_indices@) == reserved_ids(named)
    &&& imp.hook_effects@.len() == imp.hooks@.len()
    &&& forall|h: int| 0 <= h < imp.hooks@.len() ==> spec_toggle_effects(
        (#[trigger] imp.hooks@[h]).toggle_action@,
        imp.state@,
        toggle_ids_view(imp.toggle_indices@),
    ) == Some(imp.hook_effects@[h]@.map_values(|e: Effect| e@))
}

/// What the arguments of the command line amount to before devices are opened: the parsed
/// arguments, grouped by kind, and the toggles with the effects that each hook has on them.
pub struct Implementation {
    /// The hooks, in order.
    pub hooks: Vec<HookArg>,
    /// The toggles, in order.
    pub toggles: Vec<ToggleArg>,
    /// The other arguments, in order.
    pub others: Vec<Argument>,
    /// The toggles with an id, which hooks can act on.
    pub state: State,
    /// The place of each toggle id in the state.
    pub toggle_indices: Vec<(String, ToggleIndex)>,
    /// For each hook, the effects of its toggle clauses.
    pub hook_effects: Vec<Vec<Effect>>,
    /// The locations that output devices link to.
    pub create_links: Vec<String>,
    /// The paths of the control fifos.
    pub control_fifo_paths: Vec<String>,
}

/// A refusal that was seen on the way is a refusal of the command line.
proof fn lemma_rejected_at(
    words: Seq<Seq<char>>,
    groups: Seq<Seq<Seq<char>>>,
    parsed: Seq<Argument>,
    domains: Seq<DomainTracker>,
)
    requires
        spec_groups(words) == Some(groups),
        parses_prefix(groups, parsed, domains),
        withholds_fit(parsed),
        (parsed.len() < groups.len() && step_rejected(groups, parsed, domains))
            || (parsed.len() == groups.len() && checks_rejected(parsed)),
    ensures
        implement_rejects(words),
{
    assert(rejected_after(groups, parsed, domains));
    assert(exists|p: Seq<Argument>, d: Seq<DomainTracker>| #[trigger] rejected_after(groups, p, d));
    assert(spec_groups(words) matches Some(g) && g == groups);
}

/// Whether an implementation is what the words of the command line, without the name of the
/// program, amount to.
pub open spec fn implements(imp: Implementation, words: Seq<Seq<char>>) -> bool {
    match spec_groups(words) {
        None => false,
        Some(groups) => exists|parsed: Seq<Argument>, domains: Seq<DomainTracker>| #[trigger] implementation_of(imp, groups, parsed, domains),
    }
}

/// Gathers what is known of a finished implementation.
proof fn lemma_implementation_of(
    imp: Implementation,
    groups: Seq<Seq<Seq<char>>>,
    parsed: Seq<Argument>,
    domains: Seq<DomainTracker>,
)
    requires
        parses_prefix(groups, parsed, domains),
        parsed.len() == groups.len(),
        withholds_fit(parsed),
        !has_duplicates(id_names(identified_toggles(toggles_of(parsed)))),
        forall|h: int| 0 <= h < hooks_of(parsed).len() ==> spec_toggle_effects(
            (#[trigger] hooks_of(parsed)[h]).toggle_action@,
            reserved_state(identified_toggles(toggles_of(parsed))),
            reserved_ids(identified_toggles(toggles_of(parsed))),
        ) is Some,
        !has_duplicates(links_of(parsed)),
        !has_duplicates(fifo_paths_of(parsed)),
        imp.hooks@ == hooks_of(parsed),
        imp.toggles@ == toggles_of(parsed),
        imp.others@ == others_of(parsed),
        imp.create_links@.map_values(|s: String| s@) == links_of(parsed),
        imp.control_fifo_paths@.map_values(|s: String| s@) == fifo_paths_of(parsed),
        imp.state.well_formed(),
        imp.state@ == reserved_state(identified_toggles(toggles_of(parsed))),
        toggle_ids_view(imp.toggle_indices@) == reserved_ids(identified_toggles(toggles_of(parsed))),
        imp.hook_effects@.len() == imp.hooks@.len(),
        forall|h: int| 0 <= h < imp.hooks@.len() ==> spec_toggle_effects(
            (#[trigger] imp.hooks@[h]).toggle_action@,
            imp.state@,
            toggle_ids_view(imp.toggle_indices@),
        ) == Some(imp.hook_effects@[h]@.map_values(|e: Effect| e@)),
    ensures
        implementation_of(imp, groups, parsed, domains),
{
}

/// Turns the command line, the name of the program first, into the arguments that it holds and
/// checks what spans several arguments: every --withhold needs the hooks right before it to be
/// fit to be withheld, toggle ids are unique, the toggle clauses of each hook name existing
/// toggles and indices, and no link location or control fifo is given twice.
#[verifier::rlimit(50)]
pub fn implement(args: Vec<String>) -> (res: Result<Implementation, RuntimeError>)
    requires
        16 * args@.len() + 16 < usize::MAX,
        all_periods_fit(after_program_name(strings_view(args@))),
    ensures
        spec_groups(after_program_name(strings_view(args@))) is None ==> res is Err,
        (spec_groups(after_program_name(strings_view(args@))) matches Some(groups)
            && exists|g: int| 0 <= g < groups.len() && !known_argument(#[trigger] groups[g][0])) ==> res is Err,
        res is Err ==> implement_rejects(after_program_name(strings_view(args@))),
        res matches Ok(imp) ==> implements(imp, after_program_name(strings_view(args@))),
{
    let ghost words = after_program_name(strings_view(args@));
    let mut groups = match group_arguments(args) {
        Ok(groups) => groups,
        Err(e) => return Err(RuntimeError::ArgumentError(e)),
    };
    let ghost gview = groups_view(groups@);
    proof {
        lemma_groups_shape(words);
        assert(total_len(gview.take(0)) == 0);
    }
    let mut domains = DomainTracker::new();
    let mut hooks: Vec<HookArg> = Vec::new();
    let mut pending: Vec<HookArg> = Vec::new();
    let mut toggles: Vec<ToggleArg> = Vec::new();
    let mut others: Vec<Argument> = Vec::new();
    let mut create_links: Vec<String> = Vec::new();
    let mut control_fifo_paths: Vec<String> = Vec::new();
    let ghost mut seen: Seq<Argument> = Seq::empty();
    let ghost mut seen_domains: Seq<DomainTracker> = Seq::empty();
    proof {
        assert(create_links@.map_values(|s: String| s@) =~= Seq::<Seq<char>>::empty());
        assert(control_fifo_paths@.map_values(|s: String| s@) =~= Seq::<Seq<char>>::empty());
        assert(hooks@ + pending@ =~= Seq::<HookArg>::empty());
    }
    let total = groups.len();
    let mut k: usize = 0;
    while k < total
        invariant
            k <= total,
            total == gview.len(),
            words == after_program_name(strings_view(args@)),
            spec_groups(words) == Some(gview),
            total_len(gview) == words.len(),
            words.len() <= strings_view(args@).len(),
            16 * args@.len() + 16 < usize::MAX,
            forall|g: int| 0 <= g < gview.len() ==> (#[trigger] gview[g]).len() > 0,
            forall|g: int| 0 <= g < gview.len() ==> all_periods_fit(#[trigger] gview[g]),
            groups_view(groups@) == gview.skip(k as int),
            forall|g: int| 0 <= g < k ==> known_argument(#[trigger] gview[g][0]),
            total_len(gview.take(k as int)) <= words.len(),
            domains.well_formed(),
            domains.next_id() + hook_keys(pending@).len() <= 9 * total_len(gview.take(k as int)),
            forall|h: int| 0 <= h < pending@.len() ==> (#[trigger] pending@[h]).event_dispatcher.well_formed(),
            forall|t: int| 0 <= t < toggles@.len() ==> (#[trigger] toggles@[t]).output_keys@.len() > 0,
            toggles@.len() <= k,
            seen.len() == k,
            parses_prefix(gview, seen, seen_domains),
            follows(seen_domains, domains),
            withholds_fit(seen),
            hooks@ + pending@ == hooks_of(seen),
            pending@ == trailing_hooks(seen),
            toggles@ == toggles_of(seen),
            others@ == others_of(seen),
            create_links@.map_values(|s: String| s@) == links_of(seen),
            control_fifo_paths@.map_values(|s: String| s@) == fifo_paths_of(seen),
        decreases total - k,
    {
        proof {
            lemma_total_len_take(gview, k as int);
            assert(groups@.len() == groups_view(groups@).len());
            assert(groups_view(groups@)[0] == gview[k as int]);
        }
        let ghost old_groups = groups@;
        let group = groups.remove(0);
        proof {
            assert(groups@ == old_groups.subrange(1, old_groups.len() as int));
            assert forall|i: int| 0 <= i < groups_view(groups@).len() implies groups_view(groups@)[i] == gview.skip(k + 1)[i] by {
                assert(groups_view(old_groups)[i + 1] == gview.skip(k as int)[i + 1]);
            }
            assert(groups_view(groups@) =~= gview.skip(k + 1));
            assert(strings_view(group@) == gview[k as int]);
        }
        let context = join_strs(&["While parsing the arguments \"", join_words(&group).as_str(), "\":"]);
        let ghost before_parse = domains;
        let parsed = match Argument::parse(group, &mut domains) {
            Ok(arg) => arg,
            Err(e) => {
                proof {
                    if !known_argument(gview[k as int][0]) {
                        assert(gview[k as int][0] == strings_view(group@)[0]);
                    }
                    assert(!spec_argument_accepted(gview[k as int], domains));
                    assert(keeps_names(domains, before_parse));
                    if seen_domains.len() > 0 {
                        lemma_keeps_names_trans(seen_domains.last(), before_parse, domains);
                    }
                    assert(follows(seen_domains, domains));
                    assert(step_rejected(gview, seen, seen_domains));
                    lemma_rejected_at(words, gview, seen, seen_domains);
                }
                return Err(e.with_context(context));
            },
        };
        let ghost arg = parsed;
        let ghost arg_domains = domains;
        let ghost next = seen.push(arg);
        proof {
            assert(strings_view(group@)[0] == group@[0]@);
            assert(known_argument(gview[k as int][0]));
            assert(next.drop_last() == seen);
            assert(next.take(k as int) == seen);
            assert forall|w: int| 0 <= w < k implies next.take(w) == seen.take(w) by {}
            assert(keeps_names(arg_domains, before_parse));
            if seen_domains.len() > 0 {
                lemma_keeps_names_trans(seen_domains.last(), before_parse, arg_domains);
            }
            assert(follows(seen_domains, arg_domains));
            assert(seen_domains.push(arg_domains).last() == arg_domains);
            assert(parses_prefix(gview, next, seen_domains.push(arg_domains)));
        }
        match parsed {
            Argument::HookArg(hook) => {
                let ghost before = pending@;
                pending.push(hook);
                proof {
                    assert(pending@.drop_last() == before);
                    assert(hooks@ + pending@ =~= (hooks@ + before).push(hook));
                }
            },
            Argument::WithholdArg(withhold) => {
                match withhold.associate_hooks(&pending, &mut domains) {
                    Ok(()) => {},
                    Err(e) => {
                        proof {
                            assert(parsed_as(arg, gview[k as int], arg_domains));
                            assert(follows(seen_domains, arg_domains));
                            assert(step_rejected(gview, seen, seen_domains));
                            lemma_rejected_at(words, gview, seen, seen_domains);
                        }
                        return Err(RuntimeError::ArgumentError(e.with_context(join_strs(&[
                            "While linking the --withhold arguments to their preceding hooks:",
                        ]))));
                    },
                }
                hooks.append(&mut pending);
                others.push(Argument::WithholdArg(withhold));
            },
            other => {
                hooks.append(&mut pending);
                match other {
                    Argument::ToggleArg(toggle) => toggles.push(toggle),
                    Argument::OutputDevice(device) => {
                        match &device.create_link {
                            Some(link) => create_links.push(link.clone()),
                            None => {},
                        }
                        others.push(Argument::OutputDevice(device));
                    },
                    Argument::ControlFifoArg(fifo) => {
                        let ghost base = control_fifo_paths@.map_values(|s: String| s@);
                        let mut i: usize = 0;
                        proof {
                            assert(strings_view(fifo.paths@.take(0)) =~= Seq::<Seq<char>>::empty());
                            assert(base + strings_view(fifo.paths@.take(0)) =~= base);
                        }
                        while i < fifo.paths.len()
                            invariant
                                i <= fifo.paths@.len(),
                                control_fifo_paths@.map_values(|s: String| s@) == base + strings_view(fifo.paths@.take(i as int)),
                            decreases fifo.paths@.len() - i,
                        {
                            let ghost before = control_fifo_paths@;
                            control_fifo_paths.push(fifo.paths[i].clone());
                            proof {
                                assert(fifo.paths@.take(i + 1) =~= fifo.paths@.take(i as int).push(fifo.paths@[i as int]));
                                assert(control_fifo_paths@.map_values(|s: String| s@)
                                    =~= before.map_values(|s: String| s@).push(fifo.paths@[i as int]@));
                                assert(strings_view(fifo.paths@.take(i + 1))
                                    =~= strings_view(fifo.paths@.take(i as int)).push(fifo.paths@[i as int]@));
                            }
                            i += 1;
                        }
                        proof {
                            assert(fifo.paths@.take(fifo.paths@.len() as int) == fifo.paths@);
                        }
                        others.push(Argument::ControlFifoArg(fifo));
                    },
                    other => others.push(other),
                }
            },
        }
        proof {
            assert(hook_keys(Seq::<HookArg>::empty()) == Seq::<(Seq<PropertyView>, Seq<char>)>::empty());
            assert(keeps_names(domains, arg_domains));
            assert(seen_domains.push(arg_domains).last() == arg_domains);
            seen = next;
            seen_domains = seen_domains.push(arg_domains);
        }
        k += 1;
    }
    hooks.append(&mut pending);
    let ghost named = identified_toggles(toggles_of(seen));
    let mut state = State::new();
    let toggle_indices = match reserve_toggle_indices(&toggles, &mut state) {
        Ok(ids) => ids,
        Err(e) => {
            proof {
                assert(checks_rejected(seen));
                lemma_rejected_at(words, gview, seen, seen_domains);
            }
            return Err(RuntimeError::ArgumentError(e));
        },
    };
    proof {
        assert(state@ =~= reserved_state(named));
        assert(toggle_ids_view(toggle_indices@) =~= reserved_ids(named));
        assert forall|i: int| 0 <= i < toggle_indices@.len() implies (#[trigger] toggle_indices@[i]).1.0 < state@.len() by {
            assert(toggle_ids_view(toggle_indices@)[i].1 == toggle_indices@[i].1);
        }
    }
    let mut hook_effects: Vec<Vec<Effect>> = Vec::new();
    let mut h: usize = 0;
    while h < hooks.len()
        invariant
            h <= hooks@.len(),
            state.well_formed(),
            forall|i: int| 0 <= i < toggle_indices@.len() ==> (#[trigger] toggle_indices@[i]).1.0 < state@.len(),
            hook_effects@.len() == h,
            forall|x: int| 0 <= x < h ==> spec_toggle_effects(
                (#[trigger] hooks@[x]).toggle_action@,
                state@,
                toggle_ids_view(toggle_indices@),
            ) == Some(hook_effects@[x]@.map_values(|e: Effect| e@)),
            words == after_program_name(strings_view(args@)),
            spec_groups(words) == Some(gview),
            seen.len() == gview.len(),
            parses_prefix(gview, seen, seen_domains),
            withholds_fit(seen),
            hooks@ == hooks_of(seen),
            named == identified_toggles(toggles_of(seen)),
            state@ == reserved_state(named),
            toggle_ids_view(toggle_indices@) == reserved_ids(named),
        decreases hooks@.len() - h,
    {
        let effects = match hooks[h].toggle_action.implement(&state, &toggle_indices) {
            Ok(effects) => effects,
            Err(e) => {
                proof {
                    assert(spec_toggle_effects(hooks_of(seen)[h as int].toggle_action@, reserved_state(named), reserved_ids(named)) is None);
                    assert(checks_rejected(seen));
                    lemma_rejected_at(words, gview, seen, seen_domains);
                }
                return Err(RuntimeError::ArgumentError(e));
            },
        };
        hook_effects.push(effects);
        h += 1;
    }
    match check_unique_locations(&create_links, &control_fifo_paths) {
        Ok(()) => {},
        Err(e) => {
            proof {
                assert(checks_rejected(seen));
                lemma_rejected_at(words, gview, seen, seen_domains);
            }
            return Err(RuntimeError::ArgumentError(e));
        },
    }
    let imp = Implementation { hooks, toggles, others, state, toggle_indices, hook_effects, create_links, control_fifo_paths };
    proof {
        assert forall|x: int| 0 <= x < hooks_of(seen).len() implies spec_toggle_effects(
            (#[trigger] hooks_of(seen)[x]).toggle_action@,
            reserved_state(named),
            reserved_ids(named),
        ) is Some by {
            assert(imp.hooks@[x] == hooks_of(seen)[x]);
        }
        lemma_implementation_of(imp, gview, seen, seen_domains);
        assert(exists|p: Seq<Argument>, d: Seq<DomainTracker>| #[trigger] implementation_of(imp, gview, p, d));
        assert(spec_groups(words) matches Some(g) && g == gview);
        assert(implements(imp, words));
    }
    Ok(imp)
}

proof fn lemma_total_len_take(groups: Seq<Seq<Seq<char>>>, k: int)
    requires
        0 <= k < groups.len(),
    ensures
        total_len(groups.take(k + 1)) == total_len(groups.take(k)) + groups[k].len(),
        total_len(groups.take(k + 1)) <= total_len(groups),
{
    assert(groups.take(k + 1).drop_last() == groups.take(k));
    lemma_total_len_prefix(groups, k + 1);
}

proof fn lemma_total_len_prefix(groups: Seq<Seq<Seq<char>>>, k: int)
    requires
        0 <= k <= groups.len(),
    ensures
        total_len(groups.take(k)) <= total_len(groups),
    decreases groups.len() - k,
{
    if k < groups.len() {
        assert(groups.take(k + 1).drop_last() == groups.take(k));
        lemma_total_len_prefix(groups, k + 1);
    } else {
        assert(groups.take(k) == groups);
    }
}

} // verus!
