//! Events, their types, codes and namespaces.

use vstd::prelude::*;

use crate::domain::Domain;

verus! {

pub type EventValue = i32;

/// The type of an event, such as EV_KEY or EV_ABS.
#[derive(Clone, Copy, PartialEq, Eq, Debug, Hash, Structural)]
pub struct EventType {
    pub value: u16,
}

pub const EV_SYN: u16 = 0x00;
pub const EV_KEY: u16 = 0x01;
pub const EV_REL: u16 = 0x02;
pub const EV_ABS: u16 = 0x03;
pub const EV_MSC: u16 = 0x04;
pub const EV_REP: u16 = 0x14;
pub const EV_MAX: u16 = 0x1f;

impl EventType {
    pub fn new(value: u16) -> (res: EventType)
        ensures
            res.value == value,
    {
        EventType { value }
    }

    pub fn syn() -> (res: EventType)
        ensures
            res.value == EV_SYN,
    {
        EventType { value: EV_SYN }
    }

    pub fn key() -> (res: EventType)
        ensures
            res.value == EV_KEY,
    {
        EventType { value: EV_KEY }
    }

    pub fn rel() -> (res: EventType)
        ensures
            res.value == EV_REL,
    {
        EventType { value: EV_REL }
    }

    pub fn abs() -> (res: EventType)
        ensures
            res.value == EV_ABS,
    {
        EventType { value: EV_ABS }
    }

    pub fn msc() -> (res: EventType)
        ensures
            res.value == EV_MSC,
    {
        EventType { value: EV_MSC }
    }

    pub fn rep() -> (res: EventType)
        ensures
            res.value == EV_REP,
    {
        EventType { value: EV_REP }
    }

    pub fn is_syn(self) -> (res: bool)
        ensures
            res == (self.value == EV_SYN),
    {
        self.value == EV_SYN
    }

    pub fn is_key(self) -> (res: bool)
        ensures
            res == (self.value == EV_KEY),
    {
        self.value == EV_KEY
    }

    pub fn is_abs(self) -> (res: bool)
        ensures
            res == (self.value == EV_ABS),
    {
        self.value == EV_ABS
    }

    pub fn is_rep(self) -> (res: bool)
        ensures
            res == (self.value == EV_REP),
    {
        self.value == EV_REP
    }
}

/// A pair of an event type and a code within that type, such as (EV_KEY, KEY_A).
#[derive(Clone, Copy, PartialEq, Eq, Debug, Hash, Structural)]
pub struct EventCode {
    pub ev_type: EventType,
    pub code: u16,
}

impl EventCode {
    pub fn new(ev_type: EventType, code: u16) -> (res: EventCode)
        ensures
            res.ev_type == ev_type,
            res.code == code,
    {
        EventCode { ev_type, code }
    }

    pub fn ev_type(self) -> (res: EventType)
        ensures
            res == self.ev_type,
    {
        self.ev_type
    }

    pub fn code(self) -> (res: u16)
        ensures
            res == self.code,
    {
        self.code
    }
}

/// Like an event type, except that EV_KEY events are split up into events that are buttons
/// ("btn") and events that are keys ("key").
#[derive(Clone, Copy, PartialEq, Eq, Debug, Hash, Structural)]
pub enum VirtualEventType {
    Key,
    Button,
    Other(EventType),
}

impl VirtualEventType {
    pub open spec fn spec_ev_type(self) -> EventType {
        match self {
            VirtualEventType::Key | VirtualEventType::Button => EventType { value: EV_KEY },
            VirtualEventType::Other(ev_type) => ev_type,
        }
    }

    pub fn ev_type(self) -> (res: EventType)
        ensures
            res == self.spec_ev_type(),
    {
        match self {
            VirtualEventType::Key | VirtualEventType::Button => EventType::key(),
            VirtualEventType::Other(ev_type) => ev_type,
        }
    }
}

/// Events flow through different stages; the namespace tells which stage an event is at.
#[derive(Clone, Copy, PartialEq, Eq, Debug, Hash, Structural)]
pub enum Namespace {
    /// Events that have just been read from an input device.
    Input,
    /// Events that the arguments of the user act upon.
    User,
    /// Events that have been yielded and are no longer acted upon by most arguments.
    Yielded,
    /// Events that are ready to be written to an output device.
    Output,
}

#[derive(Clone, Copy, PartialEq, Eq, Debug, Hash, Structural)]
pub struct Event {
    pub code: EventCode,
    pub value: EventValue,
    pub previous_value: EventValue,
    pub domain: Domain,
    pub namespace: Namespace,
}

/// The code and domain of an event, which do not change when its value changes.
pub type Channel = (EventCode, Domain);

impl Event {
    pub fn new(code: EventCode, value: EventValue, previous_value: EventValue, domain: Domain, namespace: Namespace) -> (res: Event)
        ensures
            res == (Event { code, value, previous_value, domain, namespace }),
    {
        Event { code, value, previous_value, domain, namespace }
    }

    pub fn channel(&self) -> (res: Channel)
        ensures
            res == (self.code, self.domain),
    {
        (self.code, self.domain)
    }
}

} // verus!
