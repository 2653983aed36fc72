//! The --with-capability argument, which overrides the capabilities of an output device.

use vstd::prelude::*;

use crate::arguments::group::{
    clause_values, lemma_group_keys_bounded, spec_group_from, spec_unique_clause_i32, ComplexArgGroup, GroupView,
};
use crate::domain::DomainTracker;
use crate::error::{ArgumentError, Context};
use crate::event::{EventCode, Namespace, EV_ABS};
use crate::key::{
    first_code_requirement, first_domain_requirement, last_value, lemma_first_domain, lemma_key_body_fit, spec_key_body,
    spec_key_domain, spec_parses, without_values, KeyParser, ParserView,
};
use crate::range::Interval;
use crate::text::{chars_of, join_strs, strings_view};

verus! {

/// What one capability override asks for; every requirement that is given must be met.
#[derive(Clone, Copy, PartialEq, Eq, Debug, Structural)]
pub struct CapabilityOverrideSpec {
    pub range: Option<Interval>,
    pub flat: Option<i32>,
    pub fuzz: Option<i32>,
    pub value: Option<i32>,
}

/// Returned when incompatible capability overrides are specified.
#[derive(Clone, Copy, PartialEq, Eq, Debug, Structural)]
pub struct IncompatibleError;

/// Both requirements together: the one that is given, or the common one if both are given.
pub open spec fn merge_options<T>(a: Option<T>, b: Option<T>) -> Option<Option<T>> {
    match (a, b) {
        (None, None) => Some(None),
        (None, Some(v)) => Some(Some(v)),
        (Some(v), None) => Some(Some(v)),
        (Some(v1), Some(v2)) => if v1 == v2 {
            Some(Some(v1))
        } else {
            None
        },
    }
}

/// Both specifications together, or None if they are incompatible.
pub open spec fn spec_merge(a: CapabilityOverrideSpec, b: CapabilityOverrideSpec) -> Option<CapabilityOverrideSpec> {
    match (merge_options(a.range, b.range), merge_options(a.flat, b.flat), merge_options(a.fuzz, b.fuzz), merge_options(a.value, b.value)) {
        (Some(range), Some(flat), Some(fuzz), Some(value)) => Some(CapabilityOverrideSpec { range, flat, fuzz, value }),
        _ => None,
    }
}

fn merge_interval(a: Option<Interval>, b: Option<Interval>) -> (res: Result<Option<Interval>, IncompatibleError>)
    ensures
        match res {
            Ok(v) => merge_options(a, b) == Some(v),
            Err(_) => merge_options(a, b) is None,
        },
{
    match (a, b) {
        (None, None) => Ok(None),
        (None, Some(v)) => Ok(Some(v)),
        (Some(v), None) => Ok(Some(v)),
        (Some(v1), Some(v2)) => if v1.min == v2.min && v1.max == v2.max {
            Ok(Some(v1))
        } else {
            Err(IncompatibleError)
        },
    }
}

fn merge_i32(a: Option<i32>, b: Option<i32>) -> (res: Result<Option<i32>, IncompatibleError>)
    ensures
        match res {
            Ok(v) => merge_options(a, b) == Some(v),
            Err(_) => merge_options(a, b) is None,
        },
{
    match (a, b) {
        (None, None) => Ok(None),
        (None, Some(v)) => Ok(Some(v)),
        (Some(v), None) => Ok(Some(v)),
        (Some(v1), Some(v2)) => if v1 == v2 {
            Ok(Some(v1))
        } else {
            Err(IncompatibleError)
        },
    }
}

impl CapabilityOverrideSpec {
    /// Returns an override that specifies the requirements from both specifications. Returns an
    /// error if the specifications are incompatible (e.g. both require a different range.)
    pub fn try_merge_with(self, other: CapabilityOverrideSpec) -> (res: Result<CapabilityOverrideSpec, IncompatibleError>)
        ensures
            match res {
                Ok(merged) => spec_merge(self, other) == Some(merged),
                Err(_) => spec_merge(self, other) is None,
            },
    {
        let range = merge_interval(self.range, other.range)?;
        let flat = merge_i32(self.flat, other.flat)?;
        let fuzz = merge_i32(self.fuzz, other.fuzz)?;
        let value = merge_i32(self.value, other.value)?;
        Ok(CapabilityOverrideSpec { range, flat, fuzz, value })
    }
}

/// Each code at most once.
pub open spec fn distinct_codes(entries: Seq<(EventCode, CapabilityOverrideSpec)>) -> bool {
    forall|i: int, j: int| 0 <= i < j < entries.len() ==> (#[trigger] entries[i]).0 != (#[trigger] entries[j]).0
}

/// The entries after one more specification is added for a code: merged into the entry of that
/// code if there is one, else added at the end. None if it conflicts with the entry of its code.
pub open spec fn spec_try_add(
    entries: Seq<(EventCode, CapabilityOverrideSpec)>,
    code: EventCode,
    spec: CapabilityOverrideSpec,
) -> Option<Seq<(EventCode, CapabilityOverrideSpec)>> {
    if exists|i: int| 0 <= i < entries.len() && (#[trigger] entries[i]).0 == code {
        let i = choose|i: int| 0 <= i < entries.len() && (#[trigger] entries[i]).0 == code;
        match spec_merge(entries[i].1, spec) {
            Some(merged) => Some(entries.update(i, (code, merged))),
            None => None,
        }
    } else {
        Some(entries.push((code, spec)))
    }
}

/// The capability overrides of an output device, by event code.
pub struct CapabilityOverrideSet {
    inner: Vec<(EventCode, CapabilityOverrideSpec)>,
}

impl View for CapabilityOverrideSet {
    type V = Seq<(EventCode, CapabilityOverrideSpec)>;

    closed spec fn view(&self) -> Seq<(EventCode, CapabilityOverrideSpec)> {
        self.inner@
    }
}

impl CapabilityOverrideSet {
    pub fn new() -> (res: Self)
        ensures
            res@ == Seq::<(EventCode, CapabilityOverrideSpec)>::empty(),
    {
        Self { inner: Vec::new() }
    }

    /// Adds a new specification to this set, unless a conflicting specification already exists.
    pub fn try_add(&mut self, code: EventCode, additional_spec: CapabilityOverrideSpec) -> (res: Result<(), IncompatibleError>)
        requires
            distinct_codes(old(self)@),
        ensures
            distinct_codes(final(self)@),
            match res {
                Ok(()) => spec_try_add(old(self)@, code, additional_spec) == Some(final(self)@),
                Err(_) => spec_try_add(old(self)@, code, additional_spec) is None && final(self)@ == old(self)@,
            },
    {
        let mut i: usize = 0;
        while i < self.inner.len()
            invariant
                i <= self.inner@.len(),
                *self == *old(self),
                distinct_codes(old(self)@),
                forall|k: int| 0 <= k < i ==> (#[trigger] self.inner@[k]).0 != code,
            decreases self.inner@.len() - i,
        {
            if self.inner[i].0 == code {
                let current = self.inner[i].1;
                proof {
                    let j = choose|j: int| 0 <= j < self.inner@.len() && (#[trigger] self.inner@[j]).0 == code;
                    if j != i {
                        if j < i {
                            assert(self.inner@[j].0 != code);
                        } else {
                            assert(self.inner@[i as int].0 != self.inner@[j].0);
                        }
                    }
                }
                let merged = current.try_merge_with(additional_spec)?;
                self.inner.set(i, (code, merged));
                proof {
                    assert forall|a: int, b: int| 0 <= a < b < self.inner@.len() implies (#[trigger] self.inner@[a]).0 != (#[trigger] self.inner@[b]).0 by {
                        assert(old(self).inner@[a].0 == self.inner@[a].0);
                        assert(old(self).inner@[b].0 == self.inner@[b].0);
                    }
                }
                return Ok(());
            }
            i += 1;
        }
        self.inner.push((code, additional_spec));
        proof {
            assert forall|a: int, b: int| 0 <= a < b < self.inner@.len() implies (#[trigger] self.inner@[a]).0 != (#[trigger] self.inner@[b]).0 by {
                if b < old(self).inner@.len() {
                    assert(old(self).inner@[a] == self.inner@[a]);
                    assert(old(self).inner@[b] == self.inner@[b]);
                } else {
                    assert(old(self).inner@[a] == self.inner@[a]);
                }
            }
        }
        Ok(())
    }

    /// The overrides, each code once, in the order in which their codes were first added.
    pub fn iter(&self) -> (res: &Vec<(EventCode, CapabilityOverrideSpec)>)
        ensures
            res@ == self@,
    {
        &self.inner
    }
}

/// Represents a --with-capability argument.
pub struct CapabilityArg {
    pub overrides: CapabilityOverrideSet,
}

/// The parser for the keys of a --with-capability argument.
pub open spec fn capability_parser() -> ParserView {
    ParserView {
        default_value: Seq::empty(),
        allow_values: true,
        allow_transitions: false,
        allow_ranges: true,
        allow_types: false,
        allow_relative_values: false,
        type_whitelist: None,
        namespace: Namespace::Output,
    }
}

/// The code and override that a key asks for, given the clauses; None if the key is not
/// acceptable: it must parse, have no domain, name a single code, and have a range exactly when
/// that code is of type EV_ABS.
pub open spec fn spec_key_override(key: Seq<char>, flat: Option<i32>, fuzz: Option<i32>, value: Option<i32>)
    -> Option<(EventCode, CapabilityOverrideSpec)>
{
    if !spec_parses(capability_parser(), key) || spec_key_domain(key) is Some {
        None
    } else {
        let props = spec_key_body(capability_parser(), key).unwrap();
        let range = last_value(props);
        match first_code_requirement(without_values(props)) {
            None => None,
            Some(code) => if (code.ev_type.value == EV_ABS) != (range is Some) {
                None
            } else {
                Some((code, CapabilityOverrideSpec { range, flat, fuzz, value }))
            },
        }
    }
}

/// The overrides that the keys ask for, added one after another.
pub open spec fn spec_overrides(keys: Seq<Seq<char>>, flat: Option<i32>, fuzz: Option<i32>, value: Option<i32>)
    -> Option<Seq<(EventCode, CapabilityOverrideSpec)>>
    decreases keys.len(),
{
    if keys.len() == 0 {
        Some(Seq::empty())
    } else {
        match spec_overrides(keys.drop_last(), flat, fuzz, value) {
            None => None,
            Some(entries) => match spec_key_override(keys.last(), flat, fuzz, value) {
                None => None,
                Some((code, spec)) => spec_try_add(entries, code, spec),
            },
        }
    }
}

pub open spec fn capability_clauses() -> Seq<&'static str> {
    seq!["flat", "fuzz", "value"]
}

/// Whether some override is of an absolute axis.
pub open spec fn has_abs_override(entries: Seq<(EventCode, CapabilityOverrideSpec)>) -> bool {
    exists|i: int| 0 <= i < entries.len() && (#[trigger] entries[i]).0.ev_type.value == EV_ABS
}

/// The overrides of a --with-capability argument, or None if it is not acceptable. It needs a
/// key; its flat, fuzz and value clauses may be given at most once each, as integers, and only
/// if some key is of an absolute axis.
pub open spec fn spec_capability_arg(args: Seq<Seq<char>>) -> Option<Seq<(EventCode, CapabilityOverrideSpec)>> {
    match spec_group_from(args, Seq::empty(), capability_clauses(), false, true) {
        None => None,
        Some(group) => if group.keys.len() == 0 {
            None
        } else {
            match (
                spec_unique_clause_i32(group, "flat"@),
                spec_unique_clause_i32(group, "fuzz"@),
                spec_unique_clause_i32(group, "value"@),
            ) {
                (Some(flat), Some(fuzz), Some(value)) => match spec_overrides(group.keys, flat, fuzz, value) {
                    None => None,
                    Some(entries) => if !has_abs_override(entries) && (clause_values(group.clauses, "flat"@).len() > 0
                        || clause_values(group.clauses, "fuzz"@).len() > 0 || clause_values(group.clauses, "value"@).len() > 0) {
                        None
                    } else {
                        Some(entries)
                    },
                },
                _ => None,
            }
        },
    }
}

proof fn lemma_overrides_none_extends(keys: Seq<Seq<char>>, k: int, flat: Option<i32>, fuzz: Option<i32>, value: Option<i32>)
    requires
        0 <= k <= keys.len(),
        spec_overrides(keys.take(k), flat, fuzz, value) is None,
    ensures
        spec_overrides(keys, flat, fuzz, value) is None,
    decreases keys.len() - k,
{
    if k < keys.len() {
        assert(keys.take(k + 1).drop_last() == keys.take(k));
        lemma_overrides_none_extends(keys, k + 1, flat, fuzz, value);
    } else {
        assert(keys.take(k) == keys);
    }
}

/// The code and override that one key asks for.
fn key_override(
    key_str: &String,
    flat: Option<i32>,
    fuzz: Option<i32>,
    value: Option<i32>,
    parser: &KeyParser,
    domains: &mut DomainTracker,
) -> (res: Result<(EventCode, CapabilityOverrideSpec), ArgumentError>)
    requires
        parser@ == capability_parser(),
        old(domains).well_formed(),
        old(domains).next_id() < usize::MAX,
    ensures
        final(domains).well_formed(),
        final(domains).next_id() <= old(domains).next_id() + 1,
        forall|name: Seq<char>| old(domains).lookup(name) is Some ==> final(domains).lookup(name) == old(domains).lookup(name),
        match res {
            Ok(entry) => spec_key_override(key_str@, flat, fuzz, value) == Some(entry),
            Err(_) => spec_key_override(key_str@, flat, fuzz, value) is None,
        },
{
    let ghost key_view = key_str@;
    let key = parser.parse(key_str.as_str(), domains)?;
    proof {
        assert forall|name: Seq<char>| old(domains).lookup(name) is Some implies domains.lookup(name) == old(domains).lookup(name) by {
            if let Some(dname) = spec_key_domain(key_view) {
                if name == dname {
                }
            }
        }
        lemma_key_body_fit(capability_parser(), key_view);
        lemma_first_domain(key@);
    }
    if key.requires_domain().is_some() {
        proof {
            if spec_key_domain(key_view) is None {
                let body = spec_key_body(capability_parser(), key_view).unwrap();
                assert(key@ == body);
            }
        }
        return Err(ArgumentError::new(join_strs(&[
            "The --with-capability argument modifies the capabilities of an output device from the Linux kernel's perspective. Because domains are an evsieve-specific concept that do not exist in Linux, it makes no sense to specify a domain here.",
        ])).with_context(join_strs(&["While parsing the key \"", key_str.as_str(), "\":"])));
    }
    proof {
        if let Some(dname) = spec_key_domain(key_view) {
            let d = domains.lookup(dname).unwrap();
            assert(key@[key@.len() - 1] == crate::key::PropertyView::Domain(d));
        }
        assert(spec_key_domain(key_view) is None);
        assert(key@ == spec_key_body(capability_parser(), key_view).unwrap());
    }
    let (code_key, range_opt) = key.split_value();
    let code = match code_key.requires_event_code() {
        Some(code) => code,
        None => {
            return Err(ArgumentError::new(join_strs(&[
                "Each capability key must specify a single event code, e.g. \"key:a\" or \"abs:x:-127~128\" instead of \"key\" or \"abs\".",
            ])).with_context(join_strs(&["While parsing the key \"", key_str.as_str(), "\":"])));
        },
    };
    let ev_type_label = crate::ecodes::event_type_name(code.ev_type);
    if code.ev_type.is_abs() {
        if range_opt.is_none() {
            return Err(ArgumentError::new(join_strs(&[
                "When enabling abs-type events, you must specify the range of values that these events can take. Suppose you want a range from -127 to +128, there are two ways you could specify it:\n\t(1) --with-capability ",
                ev_type_label.as_str(), ":-127~128\n\t(2) --with-capability ", ev_type_label.as_str(), " range=-127~128",
            ])).with_context(join_strs(&["While parsing the key \"", key_str.as_str(), "\":"])));
        }
    } else {
        if range_opt.is_some() {
            return Err(ArgumentError::new(join_strs(&[
                "No value ranges can be specified for ", ev_type_label.as_str(),
                "-type events. Value ranges can only be specified for abs-type events.",
            ])).with_context(join_strs(&["While parsing the key \"", key_str.as_str(), "\":"])));
        }
    }
    Ok((code, CapabilityOverrideSpec { range: range_opt, flat, fuzz, value }))
}

/// The overrides that the keys ask for.
fn parse_overrides(
    key_list: &Vec<String>,
    flat: Option<i32>,
    fuzz: Option<i32>,
    value: Option<i32>,
    parser: &KeyParser,
    domains: &mut DomainTracker,
) -> (res: Result<CapabilityOverrideSet, ArgumentError>)
    requires
        parser@ == capability_parser(),
        old(domains).well_formed(),
        old(domains).next_id() + key_list@.len() < usize::MAX,
    ensures
        final(domains).well_formed(),
        forall|name: Seq<char>| old(domains).lookup(name) is Some ==> final(domains).lookup(name) == old(domains).lookup(name),
        match res {
            Ok(set) => spec_overrides(strings_view(key_list@), flat, fuzz, value) == Some(set@) && distinct_codes(set@),
            Err(_) => spec_overrides(strings_view(key_list@), flat, fuzz, value) is None,
        },
{
    let ghost keys = strings_view(key_list@);
    let mut overrides = CapabilityOverrideSet::new();
    let mut i: usize = 0;
    while i < key_list.len()
        invariant
            i <= key_list@.len(),
            keys == strings_view(key_list@),
            parser@ == capability_parser(),
            domains.well_formed(),
            domains.next_id() + (keys.len() - i) < usize::MAX,
            forall|name: Seq<char>| old(domains).lookup(name) is Some ==> domains.lookup(name) == old(domains).lookup(name),
            distinct_codes(overrides@),
            spec_overrides(keys.take(i as int), flat, fuzz, value) == Some(overrides@),
        decreases key_list@.len() - i,
    {
        proof {
            assert(keys[i as int] == key_list@[i as int]@);
            assert(keys.take(i + 1).drop_last() == keys.take(i as int));
            assert(keys.take(i + 1).last() == key_list@[i as int]@);
        }
        let (code, spec) = match key_override(&key_list[i], flat, fuzz, value, parser, domains) {
            Ok(entry) => entry,
            Err(err) => {
                proof {
                    lemma_overrides_none_extends(keys, i + 1, flat, fuzz, value);
                }
                return Err(err);
            },
        };
        if overrides.try_add(code, spec).is_err() {
            proof {
                lemma_overrides_none_extends(keys, i + 1, flat, fuzz, value);
            }
            return Err(ArgumentError::new(join_strs(&[
                "The capability override ", key_list[i].as_str(), " is incompatible with a previously specified capability.",
            ])));
        }
        i += 1;
    }
    proof {
        assert(keys.take(keys.len() as int) == keys);
    }
    Ok(overrides)
}

/// The names of the given clauses among flat, fuzz and value, in that order.
pub open spec fn improper_names(flat_given: bool, fuzz_given: bool, value_given: bool) -> Seq<Seq<char>> {
    (if flat_given { seq!["flat"@] } else { Seq::empty() }) + (if fuzz_given { seq!["fuzz"@] } else { Seq::empty() })
        + (if value_given { seq!["value"@] } else { Seq::empty() })
}

/// The parts with the separator between each two.
pub open spec fn join_with(parts: Seq<Seq<char>>, separator: Seq<char>) -> Seq<char>
    decreases parts.len(),
{
    if parts.len() == 0 {
        Seq::empty()
    } else if parts.len() == 1 {
        parts[0]
    } else {
        join_with(parts.drop_last(), separator) + separator + parts.last()
    }
}

/// The message for clauses that only apply to absolute axes, which names them.
pub open spec fn improper_clauses_message(flat_given: bool, fuzz_given: bool, value_given: bool) -> Seq<char> {
    let names = improper_names(flat_given, fuzz_given, value_given);
    "The"@ + (if names.len() == 1 {
        " clause "@ + names[0] + " is"@
    } else {
        " clauses "@ + join_with(names, ", "@) + " are"@
    }) + " only applicable for EV_ABS-type events (e.g. abs:x)."@
}

/// The error for clauses that only apply to absolute axes.
fn improper_clauses_error(flat_given: bool, fuzz_given: bool, value_given: bool) -> (res: ArgumentError)
    ensures
        res.message_spec() == improper_clauses_message(flat_given, fuzz_given, value_given),
{
    let ghost wanted = improper_names(flat_given, fuzz_given, value_given);
    let mut names: Vec<&str> = Vec::new();
    if flat_given {
        names.push("flat");
    }
    if fuzz_given {
        names.push("fuzz");
    }
    if value_given {
        names.push("value");
    }
    let ghost view = names@.map_values(|n: &str| n@);
    proof {
        assert(view =~= wanted);
    }
    let mut message = chars_of("The");
    if names.len() == 1 {
        message = crate::text::concat_chars(message.as_slice(), chars_of(" clause ").as_slice());
        message = crate::text::concat_chars(message.as_slice(), chars_of(names[0]).as_slice());
        message = crate::text::concat_chars(message.as_slice(), chars_of(" is").as_slice());
        proof {
            assert(names@[0]@ == wanted[0]);
        }
    } else {
        message = crate::text::concat_chars(message.as_slice(), chars_of(" clauses ").as_slice());
        let ghost prefix = message@;
        let mut t: usize = 0;
        proof {
            assert(view.take(0).len() == 0);
        }
        while t < names.len()
            invariant
                t <= names@.len(),
                view == names@.map_values(|n: &str| n@),
                message@ == prefix + join_with(view.take(t as int), ", "@),
            decreases names@.len() - t,
        {
            proof {
                assert(view.take(t + 1).drop_last() == view.take(t as int));
                assert(view.take(t + 1).last() == names@[t as int]@);
            }
            if t > 0 {
                message = crate::text::concat_chars(message.as_slice(), chars_of(", ").as_slice());
            }
            message = crate::text::concat_chars(message.as_slice(), chars_of(names[t]).as_slice());
            proof {
                if t == 0 {
                    assert(view.take(1) =~= seq![view[0]]);
                }
            }
            t += 1;
        }
        proof {
            assert(view.take(names@.len() as int) == view);
        }
        message = crate::text::concat_chars(message.as_slice(), chars_of(" are").as_slice());
    }
    message = crate::text::concat_chars(
        message.as_slice(),
        chars_of(" only applicable for EV_ABS-type events (e.g. abs:x).").as_slice(),
    );
    let text = crate::text::string_from_chars(message.as_slice());
    proof {
        assert(text@ =~= improper_clauses_message(flat_given, fuzz_given, value_given));
    }
    ArgumentError::new(text)
}

impl CapabilityArg {
    /// Parses a --with-capability argument.
    pub fn parse(args: Vec<String>, domains: &mut DomainTracker) -> (res: Result<CapabilityArg, ArgumentError>)
        requires
            old(domains).well_formed(),
            old(domains).next_id() + 2 * args@.len() < usize::MAX,
        ensures
            final(domains).well_formed(),
            forall|name: Seq<char>| old(domains).lookup(name) is Some ==> final(domains).lookup(name) == old(domains).lookup(name),
            match res {
                Ok(arg) => spec_capability_arg(strings_view(args@)) == Some(arg.overrides@),
                Err(_) => spec_capability_arg(strings_view(args@)) is None,
            },
    {
        let ghost argv = strings_view(args@);
        let no_flags: Vec<&str> = Vec::new();
        let clause_names: Vec<&str> = vec!["flat", "fuzz", "value"];
        proof {
            assert(no_flags@ =~= Seq::<&str>::empty());
            assert(clause_names@ =~= capability_clauses());
        }
        let ghost arg_count = args@.len();
        let arg_group = ComplexArgGroup::parse(args, no_flags.as_slice(), clause_names.as_slice(), false, true, domains)?;
        let ghost group = arg_group@;
        let key_list = arg_group.keys();
        proof {
            assert(group.keys.len() <= arg_count) by {
                lemma_group_keys_bounded(argv, Seq::empty(), capability_clauses(), false, true);
            }
            assert(key_list@.len() == strings_view(key_list@).len());
        }
        if key_list.len() == 0 {
            return Err(ArgumentError::new(join_strs(&[
                "A --with-capability argument requires at least one key to be specified, e.g. \"--with-capability key:a\" or \"--with-capability abs:x:-127~128\".",
            ])));
        }
        let flat = arg_group.get_unique_clause_i32("flat")?;
        let fuzz = arg_group.get_unique_clause_i32("fuzz")?;
        let initial_value = arg_group.get_unique_clause_i32("value")?;

        let parser = KeyParser {
            default_value: "",
            allow_values: true,
            allow_ranges: true,
            allow_transitions: false,
            allow_types: false,
            allow_relative_values: false,
            type_whitelist: None,
            namespace: Namespace::Output,
        };
        proof {
            reveal_strlit("");
            assert(parser.default_value@ =~= Seq::<char>::empty());
            assert(parser@ == capability_parser());
        }
        let overrides = parse_overrides(key_list, flat, fuzz, initial_value, &parser, domains)?;

        // The flat, fuzz and value clauses only apply to EV_ABS-type events.
        let mut has_abs = false;
        let mut k: usize = 0;
        let entries = overrides.iter();
        while k < entries.len()
            invariant
                k <= entries@.len(),
                has_abs == exists|t: int| 0 <= t < k && (#[trigger] entries@[t]).0.ev_type.value == EV_ABS,
            decreases entries@.len() - k,
        {
            if entries[k].0.ev_type.is_abs() {
                has_abs = true;
            }
            k += 1;
        }
        if !has_abs {
            let flat_given = arg_group.get_clauses("flat").len() > 0;
            let fuzz_given = arg_group.get_clauses("fuzz").len() > 0;
            let value_given = arg_group.get_clauses("value").len() > 0;
            if flat_given || fuzz_given || value_given {
                return Err(improper_clauses_error(flat_given, fuzz_given, value_given));
            }
        }
        Ok(CapabilityArg { overrides })
    }
}

} // verus!
