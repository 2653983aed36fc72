//! The text that --print arguments show for events.

use vstd::prelude::*;

use crate::domain::DomainTracker;
use crate::ecodes::{event_name, spec_event_name};
use crate::event::{Event, EV_KEY};
use crate::key::{key_matches, Key};
use crate::text::{chars_of, concat_chars, signed_decimal_chars, spec_parse_int, spec_signed_decimal, string_from_chars, strings_view};

verus! {

#[derive(Clone, Copy, PartialEq, Eq, Debug, Structural)]
pub enum EventPrintMode {
    Detailed,
    Direct,
}

/// The text followed by spaces up to the given width, as `format!("{:<width$}")` pads.
pub open spec fn pad_right(s: Seq<char>, width: nat) -> Seq<char> {
    if s.len() >= width {
        s
    } else {
        s + Seq::new((width - s.len()) as nat, |i: int| ' ')
    }
}

fn pad_right_exec(s: Vec<char>, width: usize) -> (res: Vec<char>)
    ensures
        res@ == pad_right(s@, width as nat),
{
    let mut res = s;
    let ghost start = res@;
    while res.len() < width
        invariant
            res@.len() <= width || res@ == start,
            start.len() <= res@.len(),
            res@.take(start.len() as int) == start,
            forall|i: int| start.len() <= i < res@.len() ==> res@[i] == ' ',
        decreases width - res@.len(),
    {
        res.push(' ');
    }
    proof {
        if start.len() < width {
            assert(res@ =~= pad_right(start, width as nat));
        }
    }
    res
}

/// How the value of an event is described: key events say whether the key went up, down or repeats.
pub open spec fn spec_value_description(event: Event) -> Seq<char> {
    if event.code.ev_type.value == EV_KEY && event.value == 0 {
        "0 (up)"@
    } else if event.code.ev_type.value == EV_KEY && event.value == 1 {
        "1 (down)"@
    } else if event.code.ev_type.value == EV_KEY && event.value == 2 {
        "2 (repeat)"@
    } else {
        spec_signed_decimal(event.value as int)
    }
}

/// The detailed description of an event: its name and value, and its domain if that has a name.
pub open spec fn spec_print_detailed(event: Event, domains: DomainTracker) -> Seq<char> {
    let name_and_value = "Event:  type:code = "@ + pad_right(spec_event_name(event.code), 13) + "  value = "@
        + spec_value_description(event);
    match domains.reverse_lookup(event.domain) {
        Some(domain_name) => pad_right(name_and_value, 53) + "  domain = "@ + domain_name,
        None => name_and_value,
    }
}

/// The description of an event in the form of a key, like "key:a:1@keyboard".
pub open spec fn spec_print_direct(event: Event, domains: DomainTracker) -> Seq<char> {
    let name_and_value = spec_event_name(event.code) + ":"@ + spec_signed_decimal(event.value as int);
    match domains.reverse_lookup(event.domain) {
        Some(domain_name) => name_and_value + "@"@ + domain_name,
        None => name_and_value,
    }
}

/// The direct print of an event is the name of its code, a colon, text that reads back as the
/// current value of the event, and then an '@' and the name of its domain when the domain has a
/// name.
pub proof fn lemma_print_direct_value(event: Event, domains: DomainTracker)
    ensures
        ({
            let name = spec_event_name(event.code);
            let out = spec_print_direct(event, domains);
            let tail = match domains.reverse_lookup(event.domain) {
                Some(domain_name) => seq!['@'] + domain_name,
                None => Seq::<char>::empty(),
            };
            &&& out.len() > name.len() + 1 + tail.len()
            &&& out.take(name.len() as int) == name
            &&& out[name.len() as int] == ':'
            &&& out.skip(out.len() - tail.len()) == tail
            &&& spec_parse_int(out.subrange((name.len() + 1) as int, out.len() - tail.len())) == Some(event.value as int)
        }),
{
    reveal_strlit(":");
    reveal_strlit("@");
    let name = spec_event_name(event.code);
    let digits = spec_signed_decimal(event.value as int);
    crate::text::lemma_signed_decimal_round_trip(event.value as int);
    crate::text::lemma_decimal_round_trip(if event.value < 0 { (-event.value) as nat } else { event.value as nat });
    assert(digits.len() > 0);
    let out = spec_print_direct(event, domains);
    let tail = match domains.reverse_lookup(event.domain) {
        Some(domain_name) => seq!['@'] + domain_name,
        None => Seq::<char>::empty(),
    };
    assert(out =~= name + seq![':'] + digits + tail);
    assert(out.take(name.len() as int) =~= name);
    assert(out.skip(out.len() - tail.len()) =~= tail);
    assert(out.subrange((name.len() + 1) as int, out.len() - tail.len()) =~= digits);
}

fn append(a: Vec<char>, b: &str) -> (res: Vec<char>)
    ensures
        res@ == a@ + b@,
{
    concat_chars(a.as_slice(), chars_of(b).as_slice())
}

pub fn print_event_detailed(event: Event, domains: &DomainTracker) -> (res: String)
    requires
        domains.well_formed(),
    ensures
        res@ == spec_print_detailed(event, *domains),
{
    let name = event_name(event.code);
    let value_str = if event.code.ev_type.value == EV_KEY && event.value == 0 {
        chars_of("0 (up)")
    } else if event.code.ev_type.value == EV_KEY && event.value == 1 {
        chars_of("1 (down)")
    } else if event.code.ev_type.value == EV_KEY && event.value == 2 {
        chars_of("2 (repeat)")
    } else {
        signed_decimal_chars(event.value as i64)
    };
    let mut text = chars_of("Event:  type:code = ");
    let padded_name = pad_right_exec(chars_of(name.as_str()), 13);
    text = concat_chars(text.as_slice(), padded_name.as_slice());
    text = append(text, "  value = ");
    text = concat_chars(text.as_slice(), value_str.as_slice());
    match domains.try_reverse_resolve(event.domain) {
        Some(domain_name) => {
            let mut padded = pad_right_exec(text, 53);
            padded = append(padded, "  domain = ");
            padded = append(padded, domain_name.as_str());
            string_from_chars(padded.as_slice())
        },
        None => string_from_chars(text.as_slice()),
    }
}

pub fn print_event_direct(event: Event, domains: &DomainTracker) -> (res: String)
    requires
        domains.well_formed(),
    ensures
        res@ == spec_print_direct(event, *domains),
{
    let name = event_name(event.code);
    let mut text = chars_of(name.as_str());
    text = append(text, ":");
    text = concat_chars(text.as_slice(), signed_decimal_chars(event.value as i64).as_slice());
    match domains.try_reverse_resolve(event.domain) {
        Some(domain_name) => {
            text = append(text, "@");
            text = append(text, domain_name.as_str());
            string_from_chars(text.as_slice())
        },
        None => string_from_chars(text.as_slice()),
    }
}

/// Created by --print arguments.
pub struct EventPrinter {
    keys: Vec<Key>,
    mode: EventPrintMode,
}

/// The lines that a printer shows for the events, one for each event that some key matches.
pub open spec fn printed_lines(keys: Seq<Key>, mode: EventPrintMode, events: Seq<Event>, domains: DomainTracker) -> Seq<Seq<char>>
    decreases events.len(),
{
    if events.len() == 0 {
        Seq::empty()
    } else {
        let rest = printed_lines(keys, mode, events.drop_last(), domains);
        let event = events.last();
        if exists|i: int| 0 <= i < keys.len() && key_matches((#[trigger] keys[i])@, event) {
            rest.push(match mode {
                EventPrintMode::Direct => spec_print_direct(event, domains),
                EventPrintMode::Detailed => spec_print_detailed(event, domains),
            })
        } else {
            rest
        }
    }
}

impl EventPrinter {
    pub closed spec fn key_list(&self) -> Seq<Key> {
        self.keys@
    }

    pub closed spec fn print_mode(&self) -> EventPrintMode {
        self.mode
    }

    pub fn new(keys: Vec<Key>, mode: EventPrintMode) -> (res: EventPrinter)
        ensures
            res.key_list() == keys@,
            res.print_mode() == mode,
    {
        EventPrinter { keys, mode }
    }

    /// The lines to print for the events, in order.
    pub fn apply_to_all(&self, events: &[Event], domains: &DomainTracker) -> (res: Vec<String>)
        requires
            domains.well_formed(),
        ensures
            strings_view(res@) == printed_lines(self.key_list(), self.print_mode(), events@, *domains),
    {
        let mut lines: Vec<String> = Vec::new();
        let mut i: usize = 0;
        while i < events.len()
            invariant
                i <= events@.len(),
                domains.well_formed(),
                strings_view(lines@) == printed_lines(self.keys@, self.mode, events@.take(i as int), *domains),
            decreases events@.len() - i,
        {
            let event = events[i];
            proof {
                assert(events@.take(i + 1).drop_last() == events@.take(i as int));
                assert(events@.take(i + 1).last() == event);
            }
            let mut matched = false;
            let mut k: usize = 0;
            while k < self.keys.len()
                invariant
                    k <= self.keys@.len(),
                    matched == exists|t: int| 0 <= t < k && key_matches((#[trigger] self.keys@[t])@, event),
                decreases self.keys@.len() - k,
            {
                if self.keys[k].matches(&event) {
                    matched = true;
                }
                k += 1;
            }
            if matched {
                let line = match self.mode {
                    EventPrintMode::Direct => print_event_direct(event, domains),
                    EventPrintMode::Detailed => print_event_detailed(event, domains),
                };
                let ghost before = strings_view(lines@);
                lines.push(line);
                proof {
                    assert(strings_view(lines@) =~= before.push(line@));
                }
            }
            i += 1;
        }
        proof {
            assert(events@.take(events@.len() as int) == events@);
        }
        lines
    }
}

} // verus!
