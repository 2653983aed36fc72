//! The --output argument.

use vstd::prelude::*;

use crate::arguments::group::{spec_clause_or_flag, spec_group_from, spec_unique_clause, ComplexArgGroup};
use crate::domain::DomainTracker;
use crate::error::ArgumentError;
use crate::event::Namespace;
use crate::key::{
    lemma_parsed_key_stable, lemma_parses_any_namespace, plain_parser, spec_parsed_key, spec_parses, Key, KeyParser,
    ParserView,
};
use crate::text::{chars_eq, chars_of, join_strs, spec_split_once, split_once, string_from_chars, strings_view};

verus! {

/// The name of output devices that are not given one.
pub const DEFAULT_NAME: &'static str = "Evsieve Virtual Device";

/// What an output device does with the repetition of keys.
#[derive(Clone, Copy, PartialEq, Eq, Debug, Structural)]
pub enum RepeatMode {
    /// The kernel repeats held keys.
    Enable,
    /// Repeat events are removed.
    Disable,
    /// Repeat events are passed on as they come.
    Passive,
}

/// Contains properties that evsieve itself does not care about, but are visible to other programs.
#[derive(Clone, Debug)]
pub struct DeviceProperties {
    pub name: String,
    pub device_id: Option<DeviceId>,
    pub version: Option<u16>,
    pub bus: Option<u16>,
}

#[derive(Clone, Copy, PartialEq, Eq, Debug, Structural)]
pub struct DeviceId {
    pub vendor_id: u16,
    pub product_id: u16,
}

/// The value of a hexadecimal digit, in either case.
pub open spec fn hex_digit_value(c: char) -> Option<int> {
    if '0' <= c <= '9' {
        Some(c as int - '0' as int)
    } else if 'a' <= c <= 'f' {
        Some(c as int - 'a' as int + 10)
    } else if 'A' <= c <= 'F' {
        Some(c as int - 'A' as int + 10)
    } else {
        None
    }
}

pub open spec fn all_hex_digits(s: Seq<char>) -> bool {
    forall|i: int| 0 <= i < s.len() ==> #[trigger] hex_digit_value(s[i]) is Some
}

pub open spec fn hex_value(s: Seq<char>) -> int
    decreases s.len(),
{
    if s.len() == 0 {
        0
    } else {
        hex_value(s.drop_last()) * 16 + hex_digit_value(s.last()).unwrap()
    }
}

/// A u16 written as one or more hexadecimal digits, without a sign.
pub open spec fn spec_parse_hex(s: Seq<char>) -> Option<u16> {
    if s.len() > 0 && all_hex_digits(s) && hex_value(s) <= 0xffff {
        Some(hex_value(s) as u16)
    } else {
        None
    }
}

proof fn lemma_hex_value_grows(s: Seq<char>, k: int)
    requires
        all_hex_digits(s),
        0 <= k <= s.len(),
    ensures
        0 <= hex_value(s.take(k)) <= hex_value(s),
    decreases s.len() - k,
{
    if k < s.len() {
        lemma_hex_value_grows(s, k + 1);
        assert(s.take(k + 1).drop_last() == s.take(k));
        assert(hex_digit_value(s[k]) is Some);
    } else {
        assert(s.take(k) == s);
        lemma_hex_value_nonneg(s);
    }
}

proof fn lemma_hex_value_nonneg(s: Seq<char>)
    requires
        all_hex_digits(s),
    ensures
        hex_value(s) >= 0,
    decreases s.len(),
{
    if s.len() > 0 {
        lemma_hex_value_nonneg(s.drop_last());
        assert(hex_digit_value(s[s.len() - 1]) is Some);
    }
}

/// Parses a hexadecimal u16 without proper error reporting. Unlike `u16::from_str_radix`,
/// a leading + sign is not accepted.
pub fn parse_hex(value: &[char]) -> (res: Option<u16>)
    ensures
        res == spec_parse_hex(value@),
{
    if value.len() == 0 {
        return None;
    }
    let mut result: u32 = 0;
    let mut i: usize = 0;
    while i < value.len()
        invariant
            0 < value@.len(),
            i <= value@.len(),
            all_hex_digits(value@.take(i as int)),
            result == hex_value(value@.take(i as int)),
            result <= 0xffff,
        decreases value@.len() - i,
    {
        let c = value[i];
        proof {
            assert(value@.take(i + 1).drop_last() == value@.take(i as int));
            assert(value@.take(i + 1).last() == c);
        }
        let digit: u32 = if '0' <= c && c <= '9' {
            (c as u32) - ('0' as u32)
        } else if 'a' <= c && c <= 'f' {
            (c as u32) - ('a' as u32) + 10
        } else if 'A' <= c && c <= 'F' {
            (c as u32) - ('A' as u32) + 10
        } else {
            proof {
                assert(hex_digit_value(value@[i as int]) is None);
            }
            return None;
        };
        let next = result * 16 + digit;
        proof {
            assert(all_hex_digits(value@.take(i + 1))) by {
                assert forall|k: int| 0 <= k < i + 1 implies #[trigger] hex_digit_value(value@.take(i + 1)[k]) is Some by {
                    if k < i {
                        assert(value@.take(i + 1)[k] == value@.take(i as int)[k]);
                    }
                }
            }
        }
        if next > 0xffff {
            proof {
                if all_hex_digits(value@) {
                    lemma_hex_value_grows(value@, i + 1);
                }
            }
            return None;
        }
        result = next;
        i += 1;
    }
    proof {
        assert(value@.take(value@.len() as int) == value@);
    }
    Some(result as u16)
}

/// A device ID like "045e:082c": a vendor and a product ID, in hexadecimal.
pub open spec fn spec_device_id(s: Seq<char>) -> Option<DeviceId> {
    match spec_split_once(s, seq![':']) {
        (vendor, Some(product)) => match (spec_parse_hex(vendor), spec_parse_hex(product)) {
            (Some(vendor_id), Some(product_id)) => Some(DeviceId { vendor_id, product_id }),
            _ => None,
        },
        _ => None,
    }
}

/// A device id "v:p" made of two hexadecimal numbers that fit in 16 bits has the first as its
/// vendor id and the second as its product id; without a colon it is no device id.
pub proof fn lemma_device_id_parts(vendor: Seq<char>, product: Seq<char>)
    ensures
        spec_parse_hex(vendor) is Some && spec_parse_hex(product) is Some ==> spec_device_id(vendor + seq![':'] + product)
            == Some(DeviceId { vendor_id: spec_parse_hex(vendor).unwrap(), product_id: spec_parse_hex(product).unwrap() }),
        !vendor.contains(':') ==> spec_device_id(vendor) is None,
{
    let colon = seq![':'];
    assert(colon[0] == ':');
    if spec_parse_hex(vendor) is Some && spec_parse_hex(product) is Some {
        assert(!vendor.contains(':')) by {
            if vendor.contains(':') {
                let i = choose|i: int| 0 <= i < vendor.len() && vendor[i] == ':';
                assert(hex_digit_value(vendor[i]) is Some);
            }
        }
        crate::text::lemma_split_once_joined(vendor, colon, product);
        let (v, p) = spec_split_once(vendor + colon + product, colon);
        assert(v == vendor && p == Some(product));
    }
    if !vendor.contains(':') {
        crate::text::lemma_split_once_absent(vendor, seq![':']);
    }
}

/// Tries to parse a device id without proper error reporting.
pub fn interpret_device_id_inner(id_str: &str) -> (res: Option<DeviceId>)
    ensures
        res == spec_device_id(id_str@),
{
    let chars = chars_of(id_str);
    let colon = vec![':'];
    proof {
        assert(colon@ =~= seq![':']);
    }
    let (vendor, product_opt) = split_once(chars.as_slice(), colon.as_slice());
    let product = match product_opt {
        Some(product) => product,
        None => return None,
    };
    let vendor_id = parse_hex(vendor.as_slice())?;
    let product_id = parse_hex(product.as_slice())?;
    Some(DeviceId { vendor_id, product_id })
}

/// Tries to parse a vendor_id:product_id style device ID.
pub fn interpret_device_id(id_str: &str) -> (res: Result<DeviceId, ArgumentError>)
    ensures
        match res {
            Ok(id) => spec_device_id(id_str@) == Some(id),
            Err(_) => spec_device_id(id_str@) is None,
        },
{
    match interpret_device_id_inner(id_str) {
        Some(id) => Ok(id),
        None => Err(ArgumentError::new(join_strs(&[
            "Cannot interpret \"", id_str,
            "\" as a device ID. Please provide it in the form vendor_id:product_id in hexadecimal format, for example \"--device-id=045e:082c\".",
        ]))),
    }
}

/// Tries to parse a clause like --bus=004a. The clause can contain up to four hexadecimal characters.
pub fn interpret_hex_clause(property_name: &str, value_str: &str) -> (res: Result<u16, ArgumentError>)
    ensures
        match res {
            Ok(v) => spec_parse_hex(value_str@) == Some(v),
            Err(_) => spec_parse_hex(value_str@) is None,
        },
{
    let chars = chars_of(value_str);
    match parse_hex(chars.as_slice()) {
        Some(v) => Ok(v),
        None => Err(ArgumentError::new(join_strs(&[
            "Cannot interpret the ", property_name, " value \"", value_str,
            "\" as a 16-bit hexadecimal string. Please use up to four characters from the set 0-9,a-f.",
        ]))),
    }
}

pub struct OutputDevice {
    pub create_link: Option<String>,
    pub keys: Vec<Key>,
    pub repeat_mode: RepeatMode,
    pub properties: DeviceProperties,
}

/// What an --output argument says, with its keys as strings.
pub struct OutputView {
    pub create_link: Option<Seq<char>>,
    pub key_strs: Seq<Seq<char>>,
    pub repeat_mode: RepeatMode,
    pub name: Seq<char>,
    pub device_id: Option<DeviceId>,
    pub version: Option<u16>,
    pub bus: Option<u16>,
}

pub open spec fn output_flags() -> Seq<&'static str> {
    seq!["repeat"]
}

pub open spec fn output_clauses() -> Seq<&'static str> {
    seq!["create-link", "repeat", "name", "device-id", "version", "bus"]
}

pub open spec fn spec_repeat_mode(value: Option<Seq<char>>) -> Option<RepeatMode> {
    match value {
        None => Some(RepeatMode::Passive),
        Some(v) => if v == "enable"@ {
            Some(RepeatMode::Enable)
        } else if v == "disable"@ {
            Some(RepeatMode::Disable)
        } else if v == "passive"@ {
            Some(RepeatMode::Passive)
        } else {
            None
        },
    }
}

pub open spec fn spec_hex_clause(value: Option<Seq<char>>) -> Option<Option<u16>> {
    match value {
        None => Some(None),
        Some(v) => match spec_parse_hex(v) {
            Some(x) => Some(Some(x)),
            None => None,
        },
    }
}

pub open spec fn spec_device_id_clause(value: Option<Seq<char>>) -> Option<Option<DeviceId>> {
    match value {
        None => Some(None),
        Some(v) => match spec_device_id(v) {
            Some(x) => Some(Some(x)),
            None => None,
        },
    }
}

/// The parser of the keys of an output device, in a namespace.
pub open spec fn output_key_parser(namespace: Namespace) -> ParserView {
    ParserView { namespace, ..plain_parser(true, true, true, true, false) }
}

/// The keys of an output device; without keys, it takes the key "" that matches every event.
pub open spec fn output_key_strs(keys: Seq<Seq<char>>) -> Seq<Seq<char>> {
    if keys.len() == 0 {
        seq![Seq::<char>::empty()]
    } else {
        keys
    }
}

pub open spec fn all_keys_parse(key_strs: Seq<Seq<char>>) -> bool {
    forall|i: int| 0 <= i < key_strs.len() ==> spec_parses(plain_parser(true, true, true, true, false), #[trigger] key_strs[i])
}

/// What an --output argument says, or None if it is not acceptable.
pub open spec fn spec_output_device(args: Seq<Seq<char>>) -> Option<OutputView> {
    match spec_group_from(args, output_flags(), output_clauses(), false, true) {
        None => None,
        Some(group) => {
            let key_strs = output_key_strs(group.keys);
            match (
                spec_clause_or_flag(group, "repeat"@, "enable"@),
                spec_unique_clause(group, "name"@),
                spec_unique_clause(group, "device-id"@),
                spec_unique_clause(group, "version"@),
                spec_unique_clause(group, "bus"@),
                spec_unique_clause(group, "create-link"@),
            ) {
                (Some(repeat), Some(name_opt), Some(device_id_str), Some(version_str), Some(bus_str), Some(create_link)) => {
                    let name = match name_opt {
                        Some(n) => n,
                        None => DEFAULT_NAME@,
                    };
                    match (
                        spec_repeat_mode(repeat),
                        spec_device_id_clause(device_id_str),
                        spec_hex_clause(version_str),
                        spec_hex_clause(bus_str),
                    ) {
                        (Some(repeat_mode), Some(device_id), Some(version), Some(bus)) => {
                            if name.len() == 0 || !all_keys_parse(key_strs) {
                                None
                            } else {
                                Some(OutputView { create_link, key_strs, repeat_mode, name, device_id, version, bus })
                            }
                        },
                        _ => None,
                    }
                },
                _ => None,
            }
        },
    }
}

impl OutputDevice {
    /// The device holds what the view says: its keys are those of the view, parsed first in the
    /// namespace of the user and then in that of yielded events.
    pub open spec fn matches_view(&self, view: OutputView, domains: DomainTracker) -> bool {
        let n = view.key_strs.len();
        &&& opt_string_view(self.create_link) == view.create_link
        &&& self.repeat_mode == view.repeat_mode
        &&& self.properties.name@ == view.name
        &&& self.properties.device_id == view.device_id
        &&& self.properties.version == view.version
        &&& self.properties.bus == view.bus
        &&& self.keys@.len() == 2 * n
        &&& forall|i: int| 0 <= i < n ==> (#[trigger] self.keys@[i])@
            == spec_parsed_key(output_key_parser(Namespace::User), view.key_strs[i], domains)
        &&& forall|i: int| n <= i < 2 * n ==> (#[trigger] self.keys@[i])@
            == spec_parsed_key(output_key_parser(Namespace::Yielded), view.key_strs[i - n], domains)
    }
}

pub open spec fn opt_string_view(o: Option<String>) -> Option<Seq<char>> {
    match o {
        Some(s) => Some(s@),
        None => None,
    }
}

fn hex_clause(group: &ComplexArgGroup, name: &str) -> (res: Result<Option<u16>, ArgumentError>)
    ensures
        match res {
            Ok(v) => spec_unique_clause(group@, name@) matches Some(s) && spec_hex_clause(s) == Some(v),
            Err(_) => spec_unique_clause(group@, name@) matches Some(s) ==> spec_hex_clause(s) is None,
        },
{
    match group.get_unique_clause(name)? {
        Some(value) => Ok(Some(interpret_hex_clause(name, value.as_str())?)),
        None => Ok(None),
    }
}

impl OutputDevice {
    /// Parses an --output argument, resolving the domain names of its keys.
    pub fn parse(args: Vec<String>, domains: &mut DomainTracker) -> (res: Result<OutputDevice, ArgumentError>)
        requires
            old(domains).well_formed(),
            old(domains).next_id() + 3 * args@.len() + 2 < usize::MAX,
        ensures
            final(domains).well_formed(),
            final(domains).next_id() <= old(domains).next_id() + 3 * args@.len() + 2,
            forall|name: Seq<char>| old(domains).lookup(name) is Some ==> final(domains).lookup(name) == old(domains).lookup(name),
            match res {
                Ok(device) => spec_output_device(strings_view(args@)) matches Some(view)
                    && device.matches_view(view, *final(domains)),
                Err(_) => spec_output_device(strings_view(args@)) is None,
            },
    {
        let ghost argv = strings_view(args@);
        let ghost arg_count = args@.len();
        let flags: Vec<&str> = vec!["repeat"];
        let clauses: Vec<&str> = vec!["create-link", "repeat", "name", "device-id", "version", "bus"];
        proof {
            assert(flags@ =~= output_flags());
            assert(clauses@ =~= output_clauses());
        }
        let arg_group = ComplexArgGroup::parse(args, flags.as_slice(), clauses.as_slice(), false, true, domains)?;
        proof {
            crate::arguments::group::lemma_group_keys_bounded(argv, output_flags(), output_clauses(), false, true);
        }
        let repeat_mode = match arg_group.get_unique_clause_or_default_if_flag("repeat", "enable")? {
            None => RepeatMode::Passive,
            Some(mode) => {
                let mode_chars = chars_of(mode.as_str());
                if chars_eq(mode_chars.as_slice(), chars_of("enable").as_slice()) {
                    RepeatMode::Enable
                } else if chars_eq(mode_chars.as_slice(), chars_of("disable").as_slice()) {
                    RepeatMode::Disable
                } else if chars_eq(mode_chars.as_slice(), chars_of("passive").as_slice()) {
                    RepeatMode::Passive
                } else {
                    return Err(ArgumentError::new(join_strs(&["Invalid repeat mode \"", mode.as_str(), "\"."])));
                }
            },
        };
        let name = match arg_group.get_unique_clause("name")? {
            Some(name) => name,
            None => string_from_chars(chars_of(DEFAULT_NAME).as_slice()),
        };
        if chars_of(name.as_str()).len() == 0 {
            return Err(ArgumentError::new(join_strs(&["Output device name cannot be empty."])));
        }
        let device_id = match arg_group.get_unique_clause("device-id")? {
            Some(device_id_str) => Some(interpret_device_id(device_id_str.as_str())?),
            None => None,
        };
        let version = hex_clause(&arg_group, "version")?;
        let bus = hex_clause(&arg_group, "bus")?;

        // Parse the keys that shall be sent to this output device.
        let key_strs = arg_group.get_keys_or_empty_key();
        let ghost key_views = strings_view(key_strs@);
        proof {
            assert(key_strs@.len() == key_views.len());
            assert forall|i: int| 0 <= i < key_strs@.len() implies #[trigger] key_strs@[i]@ == key_views[i] by {}
        }
        let mut parser = KeyParser::default_filter();
        let ghost domains_start = *domains;
        let mut keys = match parser.with_namespace(Namespace::User).parse_all(key_strs.as_slice(), domains) {
            Ok(keys) => keys,
            Err(err) => {
                proof {
                    let p = plain_parser(true, true, true, true, false);
                    assert(output_key_parser(Namespace::User) == p);
                    let i = choose|i: int| 0 <= i < key_strs@.len() && !spec_parses(p, #[trigger] key_strs@[i]@);
                    assert(key_strs@[i]@ == key_views[i]);
                    assert(!spec_parses(p, key_views[i]));
                    assert(!all_keys_parse(key_views));
                }
                return Err(err);
            },
        };
        let ghost domains_middle = *domains;
        let mut yielded_keys = match parser.with_namespace(Namespace::Yielded).parse_all(key_strs.as_slice(), domains) {
            Ok(keys) => keys,
            Err(err) => {
                proof {
                    let p = plain_parser(true, true, true, true, false);
                    let i = choose|i: int| 0 <= i < key_strs@.len() && !spec_parses(output_key_parser(Namespace::Yielded), #[trigger] key_strs@[i]@);
                    lemma_parses_any_namespace(p, Namespace::Yielded, key_strs@[i]@);
                    lemma_parses_any_namespace(p, Namespace::User, key_strs@[i]@);
                    assert(output_key_parser(Namespace::User) == (ParserView { namespace: Namespace::User, ..p }));
                    assert(key_strs@[i]@ == key_views[i]);
                    assert(!all_keys_parse(key_views));
                }
                return Err(err);
            },
        };
        let ghost user_keys = keys@;
        keys.append(&mut yielded_keys);
        let create_link = arg_group.get_unique_clause("create-link")?;
        proof {
            let p = plain_parser(true, true, true, true, false);
            assert(p == output_key_parser(Namespace::User));
            assert forall|i: int| 0 <= i < key_views.len() implies spec_parses(p, #[trigger] key_views[i]) by {
                assert(key_strs@[i]@ == key_views[i]);
            }
            assert(all_keys_parse(key_views));
            assert forall|i: int| 0 <= i < key_views.len() implies (#[trigger] keys@[i])@
                == spec_parsed_key(output_key_parser(Namespace::User), key_views[i], *domains) by {
                assert(keys@[i] == user_keys[i]);
                assert(key_strs@[i]@ == key_views[i]);
                lemma_parsed_key_stable(output_key_parser(Namespace::User), key_views[i], domains_middle, *domains);
            }
            assert forall|i: int| key_views.len() <= i < 2 * key_views.len() implies (#[trigger] keys@[i])@
                == spec_parsed_key(output_key_parser(Namespace::Yielded), key_views[i - key_views.len()], *domains) by {
                assert(key_strs@[i - key_views.len()]@ == key_views[i - key_views.len()]);
            }
        }
        Ok(OutputDevice {
            create_link,
            keys,
            repeat_mode,
            properties: DeviceProperties { name, device_id, version, bus },
        })
    }
}

} // verus!
