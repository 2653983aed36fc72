//! The --input argument.

use vstd::prelude::*;

use crate::arguments::group::{
    spec_clause_or_flag, spec_group_from, spec_unique_clause, ComplexArgGroup, GroupView,
};
use crate::domain::{is_valid_domain_name, Domain, DomainTracker};
use crate::error::ArgumentError;
use crate::persist::storage::DeviceCache;
use crate::text::{chars_eq, chars_of, join_strs, string_from_chars, strings_view};

verus! {

/// Whether and how an input device is grabbed, so that no other program sees its events.
#[derive(Clone, Copy, PartialEq, Eq, Debug, Structural)]
pub enum GrabMode {
    Off,
    Auto,
    Force,
}

#[derive(Clone, Copy, PartialEq, Eq, Debug, Structural)]
pub enum PersistMode {
    /// Remove the device from the processing stream at runtime, or throw an error at startup time.
    Off,
    /// Try to reattach the device at runtime, or throw an error at startup time.
    Reopen,
    /// Try to reattach the device at runtime. If at startup time the device is not available, use
    /// the cached capabilities of it. Cache the capabilities of this device.
    Full,
    /// If a device with mode exit disconnects, evsieve shall exit, even if other devices are still available.
    Exit,
}

/// How a device is treated when it disconnects, with the cache of its capabilities when those
/// are kept.
pub enum PersistState {
    Off,
    Reopen,
    Full(DeviceCache),
    Exit,
}

impl PersistMode {
    /// Whether the state of a device with this mode needs the cache of the device.
    pub fn needs_cache(&self) -> (res: bool)
        ensures
            res == (*self is Full),
    {
        match self {
            PersistMode::Full => true,
            _ => false,
        }
    }

    /// The state of a device with this mode. A device with full persistence keeps the cache of
    /// its capabilities, which the caller has read for that mode alone; failing to read it fails.
    pub fn to_state_for_device(self, cache: Option<Result<DeviceCache, String>>) -> (res: Result<PersistState, String>)
        requires
            cache is Some <==> self is Full,
        ensures
            match self {
                PersistMode::Off => res matches Ok(PersistState::Off),
                PersistMode::Reopen => res matches Ok(PersistState::Reopen),
                PersistMode::Exit => res matches Ok(PersistState::Exit),
                PersistMode::Full => {
                    &&& cache matches Some(Ok(loaded)) ==> res == Ok::<PersistState, String>(PersistState::Full(loaded))
                    &&& cache matches Some(Err(message)) ==> res == Err::<PersistState, String>(message)
                },
            },
    {
        match self {
            PersistMode::Off => Ok(PersistState::Off),
            PersistMode::Reopen => Ok(PersistState::Reopen),
            PersistMode::Exit => Ok(PersistState::Exit),
            PersistMode::Full => match cache {
                Some(Ok(loaded)) => Ok(PersistState::Full(loaded)),
                Some(Err(message)) => Err(message),
                None => Err(String::new()),
            },
        }
    }
}

/// Represents an --input argument.
pub struct InputDevice {
    /// The domain of this input device.
    pub domain: Option<Domain>,
    /// All input device paths. If multiple are specified, it will read from multiple devices.
    /// At least one path must be specified.
    pub paths: Vec<String>,
    pub grab_mode: GrabMode,
    pub persist_mode: PersistMode,
}

/// What an --input argument says, with its domain as a name.
pub struct InputView {
    pub domain: Option<Seq<char>>,
    pub paths: Seq<Seq<char>>,
    pub grab_mode: GrabMode,
    pub persist_mode: PersistMode,
}

pub open spec fn input_flags() -> Seq<&'static str> {
    seq!["grab"]
}

pub open spec fn input_clauses() -> Seq<&'static str> {
    seq!["domain", "grab", "persist"]
}

pub open spec fn spec_grab_mode(value: Option<Seq<char>>) -> Option<GrabMode> {
    match value {
        None => Some(GrabMode::Off),
        Some(v) => if v == "auto"@ {
            Some(GrabMode::Auto)
        } else if v == "force"@ {
            Some(GrabMode::Force)
        } else {
            None
        },
    }
}

pub open spec fn spec_persist_mode(value: Option<Seq<char>>) -> Option<PersistMode> {
    match value {
        None => Some(PersistMode::Off),
        Some(v) => if v == "reopen"@ {
            Some(PersistMode::Reopen)
        } else if v == "none"@ {
            Some(PersistMode::Off)
        } else if v == "exit"@ {
            Some(PersistMode::Exit)
        } else if v == "full"@ {
            Some(PersistMode::Full)
        } else {
            None
        },
    }
}

/// What an --input argument says, or None if it is not acceptable: its domain, given at most once,
/// must be a valid domain name; grab must be "auto" (also by the flag) or "force"; persist must be
/// "reopen", "none", "exit" or "full"; and there must be a path.
pub open spec fn spec_input_device(args: Seq<Seq<char>>) -> Option<InputView> {
    match spec_group_from(args, input_flags(), input_clauses(), true, false) {
        None => None,
        Some(group) => match (
            spec_unique_clause(group, "domain"@),
            spec_clause_or_flag(group, "grab"@, "auto"@),
            spec_unique_clause(group, "persist"@),
        ) {
            (Some(domain), Some(grab), Some(persist)) => {
                if domain matches Some(name) && !is_valid_domain_name(name) {
                    None
                } else {
                    match (spec_grab_mode(grab), spec_persist_mode(persist)) {
                        (Some(grab_mode), Some(persist_mode)) => if group.paths.len() == 0 {
                            None
                        } else {
                            Some(InputView { domain, paths: group.paths, grab_mode, persist_mode })
                        },
                        _ => None,
                    }
                }
            },
            _ => None,
        },
    }
}

/// Whether a path has the form `^/dev/input/event[0-9]+$`: the prefix followed by at least one
/// ASCII digit and nothing else.
pub open spec fn spec_is_direct_event_device(path: Seq<char>) -> bool {
    let prefix = "/dev/input/event"@;
    path.len() > prefix.len() && path.take(prefix.len() as int) == prefix
        && forall|i: int| prefix.len() <= i < path.len() ==> '0' <= #[trigger] path[i] <= '9'
}

/// Returns true if `path` is of the form `^/dev/input/event[0-9]+$`.
pub fn is_direct_event_device(path: &str) -> (res: bool)
    ensures
        res == spec_is_direct_event_device(path@),
{
    let chars = chars_of(path);
    let prefix = chars_of("/dev/input/event");
    if !crate::text::starts_with(chars.as_slice(), prefix.as_slice()) {
        return false;
    }
    if chars.len() == prefix.len() {
        return false;
    }
    let mut i: usize = prefix.len();
    while i < chars.len()
        invariant
            prefix@ == "/dev/input/event"@,
            prefix@.len() <= i <= chars@.len(),
            chars@ == path@,
            forall|k: int| prefix@.len() <= k < i ==> '0' <= #[trigger] chars@[k] <= '9',
        decreases chars@.len() - i,
    {
        if !('0' <= chars[i] && chars[i] <= '9') {
            return false;
        }
        i += 1;
    }
    true
}

impl InputDevice {
    pub open spec fn matches_view(&self, view: InputView, domains: DomainTracker) -> bool {
        &&& strings_view(self.paths@) == view.paths
        &&& self.grab_mode == view.grab_mode
        &&& self.persist_mode == view.persist_mode
        &&& match view.domain {
            None => self.domain is None,
            Some(name) => domains.lookup(name) is Some && self.domain == domains.lookup(name),
        }
    }

    /// Parses an --input argument, resolving the name of its domain, if any.
    pub fn parse(args: Vec<String>, domains: &mut DomainTracker) -> (res: Result<InputDevice, ArgumentError>)
        requires
            old(domains).well_formed(),
            old(domains).next_id() + args@.len() + 1 < usize::MAX,
        ensures
            final(domains).well_formed(),
            final(domains).next_id() <= old(domains).next_id() + args@.len() + 1,
            forall|name: Seq<char>| old(domains).lookup(name) is Some ==> final(domains).lookup(name) == old(domains).lookup(name),
            match res {
                Ok(device) => spec_input_device(strings_view(args@)) matches Some(view)
                    && device.matches_view(view, *final(domains)),
                Err(_) => spec_input_device(strings_view(args@)) is None,
            },
    {
        let flags: Vec<&str> = vec!["grab"];
        let clauses: Vec<&str> = vec!["domain", "grab", "persist"];
        proof {
            assert(flags@ =~= input_flags());
            assert(clauses@ =~= input_clauses());
        }
        let arg_group = ComplexArgGroup::parse(args, flags.as_slice(), clauses.as_slice(), true, false, domains)?;
        let domain = match arg_group.get_unique_clause("domain")? {
            None => None,
            Some(domain_str) => {
                let chars = chars_of(domain_str.as_str());
                if chars.len() > 0 && chars[0] == '@' {
                    let later = string_from_chars(crate::text::slice_chars(chars.as_slice(), 1, chars.len()).as_slice());
                    return Err(ArgumentError::new(join_strs(&[
                        "There must be no @ in the domain name from \"domain=", domain_str.as_str(), "\", because \"@",
                        later.as_str(), "\" represents a filter meaning \"any event with domain ", later.as_str(),
                        "\". Try specifying \"domain=", later.as_str(), "\" instead.",
                    ])));
                }
                if chars.len() == 0 {
                    return Err(ArgumentError::new(join_strs(&["The domain= clause of an input argument cannot be empty."])));
                }
                let ghost before = *domains;
                let domain = domains.resolve(domain_str.as_str())?;
                proof {
                    assert forall|name: Seq<char>| before.lookup(name) is Some implies domains.lookup(name) == before.lookup(name) by {
                        if name == domain_str@ {
                        }
                    }
                }
                Some(domain)
            },
        };
        let ghost domains_after = *domains;
        let grab_mode = match arg_group.get_unique_clause_or_default_if_flag("grab", "auto")? {
            None => GrabMode::Off,
            Some(value) => {
                let value_chars = chars_of(value.as_str());
                if chars_eq(value_chars.as_slice(), chars_of("auto").as_slice()) {
                    GrabMode::Auto
                } else if chars_eq(value_chars.as_slice(), chars_of("force").as_slice()) {
                    GrabMode::Force
                } else {
                    return Err(ArgumentError::new(join_strs(&["Invalid grab mode specified."])));
                }
            },
        };
        let persist_mode = match arg_group.get_unique_clause("persist")? {
            None => PersistMode::Off,
            Some(value) => {
                let value_chars = chars_of(value.as_str());
                if chars_eq(value_chars.as_slice(), chars_of("reopen").as_slice()) {
                    PersistMode::Reopen
                } else if chars_eq(value_chars.as_slice(), chars_of("none").as_slice()) {
                    PersistMode::Off
                } else if chars_eq(value_chars.as_slice(), chars_of("exit").as_slice()) {
                    PersistMode::Exit
                } else if chars_eq(value_chars.as_slice(), chars_of("full").as_slice()) {
                    PersistMode::Full
                } else {
                    return Err(ArgumentError::new(join_strs(&["Invalid persist mode specified."])));
                }
            },
        };
        let paths = arg_group.require_paths()?;
        Ok(InputDevice { domain, grab_mode, persist_mode, paths })
    }

    /// Whether the user should be warned about persistence on paths like /dev/input/event*, whose
    /// numbers the kernel does not keep when a device is reattached.
    pub fn warns_about_persistence(&self) -> (res: bool)
        ensures
            res == ((self.persist_mode == PersistMode::Reopen || self.persist_mode == PersistMode::Full)
                && exists|i: int| 0 <= i < self.paths@.len() && spec_is_direct_event_device(#[trigger] self.paths@[i]@)),
    {
        match self.persist_mode {
            PersistMode::Off | PersistMode::Exit => false,
            PersistMode::Reopen | PersistMode::Full => {
                let mut i: usize = 0;
                while i < self.paths.len()
                    invariant
                        i <= self.paths@.len(),
                        self.persist_mode == PersistMode::Reopen || self.persist_mode == PersistMode::Full,
                        forall|k: int| 0 <= k < i ==> !spec_is_direct_event_device(#[trigger] self.paths@[k]@),
                    decreases self.paths@.len() - i,
                {
                    if is_direct_event_device(self.paths[i].as_str()) {
                        proof {
                            assert(spec_is_direct_event_device(self.paths@[i as int]@));
                        }
                        return true;
                    }
                    i += 1;
                }
                false
            },
        }
    }
}

} // verus!
