//! Conversion between event types and codes and their names, such as "key" and "key:a".

use vstd::prelude::*;

use crate::ecodes_table::{
    code_entry, lemma_code_names_not_numeric, spec_code_entry, spec_type_entry, spec_type_max, type_entry, type_max,
};
use crate::error::ArgumentError;
use crate::event::{EventCode, EventType, VirtualEventType, EV_ABS, EV_KEY, EV_MAX};
use crate::text::{
    chars_eq, chars_of, concat_chars, decimal_chars, join_strs, parse_unsigned, slice_chars,
    spec_decimal, spec_parse_unsigned, spec_starts_with, starts_with, string_from_chars,
};

verus! {

pub const REP_DELAY: u16 = 0x00;
pub const REP_PERIOD: u16 = 0x01;
pub const MSC_SCAN: u16 = 0x04;

/// The first event type from `from` on whose name is `name`.
pub open spec fn first_type_named_from(name: Seq<char>, from: int) -> Option<u16>
    decreases EV_MAX + 1 - from,
{
    if from < 0 || from > EV_MAX {
        None
    } else if spec_type_entry(from as u16) == Some(name) {
        Some(from as u16)
    } else {
        first_type_named_from(name, from + 1)
    }
}

/// The event type with a given name. The name "btn" is an alias of "key".
pub open spec fn spec_event_type_named(name: Seq<char>) -> Option<u16> {
    if name == "btn"@ {
        Some(EV_KEY)
    } else {
        first_type_named_from(name, 0)
    }
}

/// The event type that `name` denotes: either by name like "key", or by number like "%1".
pub open spec fn spec_event_type(name: Seq<char>) -> Option<u16> {
    match spec_event_type_named(name) {
        Some(t) => Some(t),
        None => if name.len() > 0 && name[0] == '%' {
            match spec_parse_unsigned(name.skip(1)) {
                Some(v) => if v <= EV_MAX && spec_type_entry(v as u16) is Some {
                    Some(v as u16)
                } else {
                    None
                },
                None => None,
            }
        } else {
            None
        },
    }
}

proof fn lemma_first_type_named(name: Seq<char>, from: int, t: u16)
    requires
        0 <= from <= t <= EV_MAX,
        spec_type_entry(t) == Some(name),
        forall|u: u16| from <= u < t ==> spec_type_entry(u) != Some(name),
    ensures
        first_type_named_from(name, from) == Some(t),
    decreases t - from,
{
    if from < t {
        assert(spec_type_entry(from as u16) != Some(name));
        lemma_first_type_named(name, from + 1, t);
    }
}

proof fn lemma_no_type_named(name: Seq<char>, from: int)
    requires
        0 <= from,
        forall|u: u16| from <= u <= EV_MAX ==> spec_type_entry(u) != Some(name),
    ensures
        first_type_named_from(name, from) is None,
    decreases EV_MAX + 1 - from,
{
    if from <= EV_MAX {
        assert(spec_type_entry(from as u16) != Some(name));
        lemma_no_type_named(name, from + 1);
    }
}

/// An event type is also found by its number after a '%', when it has a name; a number above the
/// highest event type after a '%' is no event type.
pub proof fn lemma_event_type_by_number(n: nat)
    ensures
        n <= EV_MAX && spec_type_entry(n as u16) is Some ==> spec_event_type(seq!['%'] + spec_decimal(n)) == Some(n as u16),
        n > EV_MAX ==> spec_event_type(seq!['%'] + spec_decimal(n)) is None,
{
    reveal_strlit("syn");
    reveal_strlit("key");
    reveal_strlit("rel");
    reveal_strlit("abs");
    reveal_strlit("msc");
    reveal_strlit("sw");
    reveal_strlit("led");
    reveal_strlit("snd");
    reveal_strlit("rep");
    reveal_strlit("ff");
    reveal_strlit("pwr");
    reveal_strlit("ff_status");
    reveal_strlit("max");
    reveal_strlit("btn");
    let name = seq!['%'] + spec_decimal(n);
    crate::text::lemma_decimal_round_trip(n);
    assert(name[0] == '%');
    assert(name.skip(1) == spec_decimal(n));
    assert forall|u: u16| 0 <= u <= EV_MAX implies spec_type_entry(u) != Some(name) by {
        if spec_type_entry(u) == Some(name) {
            assert(spec_type_entry(u).unwrap()[0] == name[0]);
        }
    }
    lemma_no_type_named(name, 0);
    assert(name != "btn"@) by {
        assert("btn"@[0] != name[0]);
    }
}

/// Every event type that has a name is found again by that name, and "btn" is another name of
/// the key type.
pub proof fn lemma_event_type_by_name(t: u16)
    requires
        spec_type_entry(t) is Some,
    ensures
        spec_event_type(spec_type_entry(t).unwrap()) == Some(t),
        spec_event_type("btn"@) == spec_event_type("key"@),
{
    reveal_strlit("syn");
    reveal_strlit("key");
    reveal_strlit("rel");
    reveal_strlit("abs");
    reveal_strlit("msc");
    reveal_strlit("sw");
    reveal_strlit("led");
    reveal_strlit("snd");
    reveal_strlit("rep");
    reveal_strlit("ff");
    reveal_strlit("pwr");
    reveal_strlit("ff_status");
    reveal_strlit("max");
    reveal_strlit("btn");
    let name = spec_type_entry(t).unwrap();
    assert forall|u: u16| 0 <= u < t implies spec_type_entry(u) != Some(name) by {
        if spec_type_entry(u) == Some(name) {
            assert(spec_type_entry(u).unwrap().len() == name.len());
            assert(spec_type_entry(u).unwrap()[0] == name[0]);
            assert(spec_type_entry(u).unwrap()[1] == name[1]);
            assert(name.len() > 2 ==> spec_type_entry(u).unwrap()[2] == name[2]);
        }
    }
    assert(t <= EV_MAX);
    lemma_first_type_named(name, 0, t);
    assert(name != "btn"@) by {
        assert(name.len() == 3 ==> name[0] != 'b');
    }
    assert(spec_type_entry(1) == Some("key"@));
    lemma_first_type_named("key"@, 0, 1);
}

/// The highest event code that exists for an event type, if that type has any event codes.
pub fn event_type_get_max(ev_type: EventType) -> (res: Option<u16>)
    ensures
        res == spec_type_max(ev_type.value),
{
    type_max(ev_type.value)
}

fn find_type_named(name: &[char]) -> (res: Option<u16>)
    ensures
        res == first_type_named_from(name@, 0),
{
    let mut t: u16 = 0;
    while t <= EV_MAX
        invariant
            t <= EV_MAX + 1,
            first_type_named_from(name@, 0) == first_type_named_from(name@, t as int),
        decreases EV_MAX + 1 - t,
    {
        if let Some(entry) = type_entry(t) {
            let entry_chars = chars_of(entry);
            if chars_eq(entry_chars.as_slice(), name) {
                return Some(t);
            }
        }
        t += 1;
    }
    None
}

fn type_named(name: &[char]) -> (res: Option<u16>)
    ensures
        res == spec_event_type_named(name@),
{
    let btn = chars_of("btn");
    if chars_eq(name, btn.as_slice()) {
        Some(EV_KEY)
    } else {
        find_type_named(name)
    }
}

/// Parses an event type by name like "key" or number like "%1".
pub fn event_type(name: &str) -> (res: Result<EventType, ArgumentError>)
    ensures
        match res {
            Ok(ev_type) => spec_event_type(name@) == Some(ev_type.value),
            Err(_) => spec_event_type(name@) is None,
        },
{
    let name_chars = chars_of(name);
    if let Some(t) = type_named(name_chars.as_slice()) {
        return Ok(EventType::new(t));
    }
    if name_chars.len() == 0 || name_chars[0] != '%' {
        return Err(ArgumentError::new(join_strs(&["Unknown event type \"", name, "\"."])));
    }
    let number = slice_chars(name_chars.as_slice(), 1, name_chars.len());
    proof {
        assert(number@ == name@.skip(1));
    }
    let type_u16 = match parse_unsigned(number.as_slice(), 0xffff) {
        Some(value) => value as u16,
        None => {
            let number_str = string_from_chars(number.as_slice());
            return Err(ArgumentError::new(join_strs(&["Cannot interpret \"", number_str.as_str(), "\" as a nonnegative integer."])));
        },
    };
    if type_u16 <= EV_MAX {
        if type_entry(type_u16).is_some() {
            Ok(EventType::new(type_u16))
        } else {
            let number_str = string_from_chars(decimal_chars(type_u16 as u64).as_slice());
            Err(ArgumentError::new(join_strs(&["No event type with numeric value ", number_str.as_str(), " exists."])))
        }
    } else {
        let number_str = string_from_chars(decimal_chars(type_u16 as u64).as_slice());
        Err(ArgumentError::new(join_strs(&["Event type ", number_str.as_str(), " exceeds the maximum value of 31 defined by EV_MAX."])))
    }
}

/// The first event code of type `ev_type`, from code `from` up to `max`, whose name is `prefix:rest`.
pub open spec fn first_code_named_from(ev_type: u16, prefix: Seq<char>, rest: Seq<char>, from: int, max: int) -> Option<u16>
    decreases max + 1 - from,
{
    if from < 0 || from > max || from > u16::MAX {
        None
    } else if spec_code_entry(ev_type, from as u16) == Some((prefix, rest)) {
        Some(from as u16)
    } else {
        first_code_named_from(ev_type, prefix, rest, from + 1, max)
    }
}

/// The event code that is called `ev_type_name:code_name`, such as "key:a" or "btn:left".
pub open spec fn spec_code_named(ev_type_name: Seq<char>, code_name: Seq<char>) -> Option<EventCode> {
    match spec_event_type_named(ev_type_name) {
        Some(t) => match spec_type_max(t) {
            Some(max) => match first_code_named_from(t, ev_type_name, code_name, 0, max as int) {
                Some(c) => Some(EventCode { ev_type: EventType { value: t }, code: c }),
                None => None,
            },
            None => None,
        },
        None => None,
    }
}

/// The event code that the pair of names denotes: either by name like ("key", "a"), or by a type
/// and number like ("key", "%30").
pub open spec fn spec_event_code(ev_type_name: Seq<char>, code_name: Seq<char>) -> Option<EventCode> {
    match spec_code_named(ev_type_name, code_name) {
        Some(code) => Some(code),
        None => if code_name.len() > 0 && code_name[0] == '%' {
            match spec_event_type(ev_type_name) {
                Some(t) => match (spec_type_max(t), spec_parse_unsigned(code_name.skip(1))) {
                    (Some(max), Some(v)) => if v <= max {
                        Some(EventCode { ev_type: EventType { value: t }, code: v as u16 })
                    } else {
                        None
                    },
                    _ => None,
                },
                None => None,
            }
        } else {
            None
        },
    }
}

proof fn lemma_no_code_named_from(ev_type: u16, prefix: Seq<char>, rest: Seq<char>, from: int, max: int)
    requires
        0 <= from,
        rest.len() > 0,
        rest[0] == '%',
    ensures
        first_code_named_from(ev_type, prefix, rest, from, max) is None,
    decreases max + 1 - from,
{
    if from <= max && from <= u16::MAX {
        lemma_code_names_not_numeric(ev_type, from as u16);
        lemma_no_code_named_from(ev_type, prefix, rest, from + 1, max);
    }
}

/// A code given by number after a '%', like ("key", "%30"), is the code with that number of the
/// type, when the type has codes up to at least that number; a larger number is no code.
pub proof fn lemma_event_code_by_number(ev_type_name: Seq<char>, n: nat)
    requires
        spec_event_type(ev_type_name) is Some,
        spec_type_max(spec_event_type(ev_type_name).unwrap()) is Some,
    ensures
        n <= spec_type_max(spec_event_type(ev_type_name).unwrap()).unwrap() ==> spec_event_code(
            ev_type_name,
            seq!['%'] + spec_decimal(n),
        ) == Some(EventCode { ev_type: EventType { value: spec_event_type(ev_type_name).unwrap() }, code: n as u16 }),
        n > spec_type_max(spec_event_type(ev_type_name).unwrap()).unwrap() ==> spec_event_code(
            ev_type_name,
            seq!['%'] + spec_decimal(n),
        ) is None,
{
    let code_name = seq!['%'] + spec_decimal(n);
    crate::text::lemma_decimal_round_trip(n);
    assert(code_name[0] == '%');
    assert(code_name.skip(1) =~= spec_decimal(n));
    if let Some(t) = spec_event_type_named(ev_type_name) {
        if let Some(max) = spec_type_max(t) {
            lemma_no_code_named_from(t, ev_type_name, code_name, 0, max as int);
        }
    }
    assert(spec_code_named(ev_type_name, code_name) is None);
}

fn find_code_named(ev_type: u16, ev_type_name: &[char], code_name: &[char], max: u16) -> (res: Option<u16>)
    ensures
        res == first_code_named_from(ev_type, ev_type_name@, code_name@, 0, max as int),
{
    let mut c: u32 = 0;
    while c <= max as u32
        invariant
            c <= max as u32 + 1,
            first_code_named_from(ev_type, ev_type_name@, code_name@, 0, max as int)
                == first_code_named_from(ev_type, ev_type_name@, code_name@, c as int, max as int),
        decreases max as u32 + 1 - c,
    {
        if let Some((prefix, rest)) = code_entry(ev_type, c as u16) {
            let prefix_chars = chars_of(prefix);
            let rest_chars = chars_of(rest);
            if chars_eq(prefix_chars.as_slice(), ev_type_name) && chars_eq(rest_chars.as_slice(), code_name) {
                return Some(c as u16);
            }
        }
        c += 1;
    }
    None
}

fn code_named(ev_type_name: &[char], code_name: &[char]) -> (res: Option<EventCode>)
    ensures
        res == spec_code_named(ev_type_name@, code_name@),
{
    let t = match type_named(ev_type_name) {
        Some(t) => t,
        None => return None,
    };
    let max = match type_max(t) {
        Some(max) => max,
        None => return None,
    };
    match find_code_named(t, ev_type_name, code_name, max) {
        Some(c) => Some(EventCode::new(EventType::new(t), c)),
        None => None,
    }
}

/// Parses an event code by name like "key","a" or by name-number pair like "key","%35".
pub fn event_code(ev_type_name: &str, code_name: &str) -> (res: Result<EventCode, ArgumentError>)
    ensures
        match res {
            Ok(code) => spec_event_code(ev_type_name@, code_name@) == Some(code),
            Err(_) => spec_event_code(ev_type_name@, code_name@) is None,
        },
{
    let type_chars = chars_of(ev_type_name);
    let code_chars = chars_of(code_name);
    if let Some(code) = code_named(type_chars.as_slice(), code_chars.as_slice()) {
        return Ok(code);
    }

    // Check for a (name, number) pair.
    if code_chars.len() == 0 || code_chars[0] != '%' {
        if parse_unsigned(code_chars.as_slice(), 0xffff).is_some() {
            return Err(ArgumentError::new(join_strs(&[
                "Unknown event code \"", ev_type_name, ":", code_name,
                "\". (Tip: if you meant to specify an event of type ", ev_type_name,
                " and a code of numeric value ", code_name,
                ", then you need to add a % prefix like this: \"", ev_type_name, ":%", code_name, "\")",
            ])));
        } else {
            return Err(ArgumentError::new(join_strs(&["Unknown event code \"", ev_type_name, ":", code_name, "\"."])));
        }
    }

    let ev_type = event_type(ev_type_name)?;
    let ev_type_max = match event_type_get_max(ev_type) {
        Some(max) => max,
        None => return Err(ArgumentError::new(join_strs(&["No valid event codes exist for event type ", ev_type_name, "."]))),
    };
    let number = slice_chars(code_chars.as_slice(), 1, code_chars.len());
    proof {
        assert(number@ == code_name@.skip(1));
    }
    let code_u16 = match parse_unsigned(number.as_slice(), 0xffff) {
        Some(value) => value as u16,
        None => {
            let number_str = string_from_chars(number.as_slice());
            return Err(ArgumentError::new(join_strs(&["Cannot interpret \"", number_str.as_str(), "\" as a nonnegative integer."])));
        },
    };

    if code_u16 <= ev_type_max {
        Ok(EventCode::new(ev_type, code_u16))
    } else {
        let code_str = string_from_chars(decimal_chars(code_u16 as u64).as_slice());
        let max_str = string_from_chars(decimal_chars(ev_type_max as u64).as_slice());
        Err(ArgumentError::new(join_strs(&[
            "Event code ", code_str.as_str(), " exceeds the maximum value of ", max_str.as_str(),
            " for events of type ", ev_type_name, ".",
        ])))
    }
}

/// The name of an event type, or its number if it has no name.
pub open spec fn spec_event_type_name(ev_type: EventType) -> Seq<char> {
    if ev_type.value == EV_KEY {
        "key"@
    } else {
        match spec_type_entry(ev_type.value) {
            Some(name) => name,
            None => spec_decimal(ev_type.value as nat),
        }
    }
}

pub fn event_type_name(ev_type: EventType) -> (res: String)
    ensures
        res@ == spec_event_type_name(ev_type),
{
    if ev_type.value == EV_KEY {
        return string_from_chars(chars_of("key").as_slice());
    }
    match type_entry(ev_type.value) {
        Some(name) => string_from_chars(chars_of(name).as_slice()),
        None => string_from_chars(decimal_chars(ev_type.value as u64).as_slice()),
    }
}

/// Returns true if this code is of type EV_KEY with a BTN_* code.
pub open spec fn spec_is_button_code(code: EventCode) -> bool {
    code.ev_type.value == EV_KEY && match spec_code_entry(EV_KEY, code.code) {
        Some((prefix, _)) => prefix == "btn"@,
        None => false,
    }
}

pub fn is_button_code(code: EventCode) -> (res: bool)
    ensures
        res == spec_is_button_code(code),
{
    if !code.ev_type.is_key() {
        return false;
    }
    match code_entry(EV_KEY, code.code) {
        Some((prefix, _)) => {
            let prefix_chars = chars_of(prefix);
            let btn = chars_of("btn");
            chars_eq(prefix_chars.as_slice(), btn.as_slice())
        },
        None => false,
    }
}

pub open spec fn spec_virtual_ev_type(code: EventCode) -> VirtualEventType {
    if code.ev_type.value == EV_KEY {
        if spec_is_button_code(code) {
            VirtualEventType::Button
        } else {
            VirtualEventType::Key
        }
    } else {
        VirtualEventType::Other(code.ev_type)
    }
}

/// Events of type EV_KEY are buttons ("btn") or keys ("key"); other events keep their type.
pub fn virtual_ev_type(code: EventCode) -> (res: VirtualEventType)
    ensures
        res == spec_virtual_ev_type(code),
{
    if code.ev_type.is_key() {
        if is_button_code(code) {
            VirtualEventType::Button
        } else {
            VirtualEventType::Key
        }
    } else {
        VirtualEventType::Other(code.ev_type)
    }
}

pub open spec fn spec_virtual_type_name(virtual_type: VirtualEventType) -> Seq<char> {
    match virtual_type {
        VirtualEventType::Key => "key"@,
        VirtualEventType::Button => "btn"@,
        VirtualEventType::Other(ev_type) => spec_event_type_name(ev_type),
    }
}

pub fn virtual_type_name(virtual_type: VirtualEventType) -> (res: String)
    ensures
        res@ == spec_virtual_type_name(virtual_type),
{
    match virtual_type {
        VirtualEventType::Key => string_from_chars(chars_of("key").as_slice()),
        VirtualEventType::Button => string_from_chars(chars_of("btn").as_slice()),
        VirtualEventType::Other(ev_type) => event_type_name(ev_type),
    }
}

/// The name of an event code such as "key:a", or a name such as "key:%767" if it has no name.
pub open spec fn spec_event_name(code: EventCode) -> Seq<char> {
    match spec_code_entry(code.ev_type.value, code.code) {
        Some((prefix, rest)) => prefix + ":"@ + rest,
        None => spec_virtual_type_name(spec_virtual_ev_type(code)) + ":%"@ + spec_decimal(code.code as nat),
    }
}

pub fn event_name(code: EventCode) -> (res: String)
    ensures
        res@ == spec_event_name(code),
{
    match code_entry(code.ev_type.value, code.code) {
        Some((prefix, rest)) => {
            let a = concat_chars(chars_of(prefix).as_slice(), chars_of(":").as_slice());
            let b = concat_chars(a.as_slice(), chars_of(rest).as_slice());
            string_from_chars(b.as_slice())
        },
        None => {
            let type_str = virtual_type_name(virtual_ev_type(code));
            let a = concat_chars(chars_of(type_str.as_str()).as_slice(), chars_of(":%").as_slice());
            let b = concat_chars(a.as_slice(), decimal_chars(code.code as u64).as_slice());
            string_from_chars(b.as_slice())
        },
    }
}

/// Returns whether this event is a multitouch event.
pub open spec fn spec_is_abs_mt(code: EventCode) -> bool {
    code.ev_type.value == EV_ABS && spec_starts_with(spec_event_name(code), "abs:mt_"@)
}

pub fn is_abs_mt(code: EventCode) -> (res: bool)
    ensures
        res == spec_is_abs_mt(code),
{
    if !code.ev_type.is_abs() {
        return false;
    }
    let name = event_name(code);
    let name_chars = chars_of(name.as_str());
    let prefix = chars_of("abs:mt_");
    starts_with(name_chars.as_slice(), prefix.as_slice())
}

/// All event types up to EV_MAX, whether those types are named or not.
pub fn event_types() -> (res: Vec<EventType>)
    ensures
        res@.len() == EV_MAX + 1,
        forall|i: int| 0 <= i < res@.len() ==> (#[trigger] res@[i]).value == i,
{
    let mut res: Vec<EventType> = Vec::new();
    let mut t: u16 = 0;
    while t <= EV_MAX
        invariant
            t <= EV_MAX + 1,
            res@.len() == t,
            forall|i: int| 0 <= i < res@.len() ==> (#[trigger] res@[i]).value == i,
        decreases EV_MAX + 1 - t,
    {
        res.push(EventType::new(t));
        t += 1;
    }
    res
}

/// All event codes up to the maximum of their type, whether those codes are named or not.
pub fn event_codes_for(ev_type: EventType) -> (res: Vec<EventCode>)
    ensures
        match spec_type_max(ev_type.value) {
            Some(max) => res@.len() == max + 1
                && forall|i: int| 0 <= i < res@.len() ==> #[trigger] res@[i] == (EventCode { ev_type, code: i as u16 }),
            None => res@.len() == 0,
        },
{
    let mut res: Vec<EventCode> = Vec::new();
    let max = match event_type_get_max(ev_type) {
        Some(max) => max,
        None => return res,
    };
    let mut c: u32 = 0;
    while c <= max as u32
        invariant
            c <= max as u32 + 1,
            res@.len() == c,
            forall|i: int| 0 <= i < res@.len() ==> #[trigger] res@[i] == (EventCode { ev_type, code: i as u16 }),
        decreases max as u32 + 1 - c,
    {
        res.push(EventCode::new(ev_type, c as u16));
        c += 1;
    }
    res
}

} // verus!
