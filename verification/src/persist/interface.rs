//! The state of the subsystem that reopens devices, as the main thread sees it.

use vstd::prelude::*;

use crate::io::epoll::FileIndex;

verus! {

#[derive(Clone, Copy, PartialEq, Eq, Debug, Structural)]
pub enum HostInterfaceState {
    /// The subsystem has not been launched yet; it is launched when it is first required.
    NotStarted,
    /// The subsystem runs, and its interface is waited on under this index.
    Running(FileIndex),
    /// The subsystem failed to launch or broke down; it is not launched again.
    Error,
    /// The subsystem was shut down.
    Shutdown,
}

impl HostInterfaceState {
    pub fn new() -> (res: HostInterfaceState)
        ensures
            res is NotStarted,
    {
        HostInterfaceState::NotStarted
    }

    /// Whether requiring the subsystem must launch it first.
    pub fn needs_launch(&self) -> (res: bool)
        ensures
            res == (*self is NotStarted),
    {
        match self {
            HostInterfaceState::NotStarted => true,
            _ => false,
        }
    }

    /// Records how launching went: the index under which the subsystem is waited on, or None if
    /// it could not be launched or registered.
    pub fn record_launch(&mut self, index: Option<FileIndex>)
        requires
            *old(self) is NotStarted,
        ensures
            *final(self) == (match index {
                Some(i) => HostInterfaceState::Running(i),
                None => HostInterfaceState::Error,
            }),
    {
        *self = match index {
            Some(i) => HostInterfaceState::Running(i),
            None => HostInterfaceState::Error,
        };
    }

    /// The index under which the running subsystem is waited on, if it runs.
    pub fn running_index(&self) -> (res: Option<FileIndex>)
        ensures
            res == (match *self {
                HostInterfaceState::Running(i) => Some(i),
                _ => None,
            }),
    {
        match self {
            HostInterfaceState::Running(i) => Some(*i),
            _ => None,
        }
    }

    pub fn mark_as_broken(&mut self)
        ensures
            *final(self) is Error,
    {
        *self = HostInterfaceState::Error;
    }

    pub fn mark_as_shutdown(&mut self)
        ensures
            *final(self) is Shutdown,
    {
        *self = HostInterfaceState::Shutdown;
    }
}

} // verus!
