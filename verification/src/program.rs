//! The decisions of the main loop: what to do when a file that it waits on breaks or reports.

use vstd::prelude::*;

use crate::arguments::input::PersistMode;
use crate::loopback::Delay;

verus! {

/// Whether the main loop goes on.
#[derive(Clone, Copy, PartialEq, Eq, Debug, Structural)]
pub enum Action {
    Continue,
    Exit,
}

/// The kinds of files that the main loop waits on.
#[derive(Clone, Copy, PartialEq, Eq, Debug, Structural)]
pub enum PollableKind {
    InputDevice,
    PersistSubsystem,
    ControlFifo,
    SignalFd,
}

/// Whether none of the files can bring events any more: only input devices and the subsystem
/// that reopens them can.
pub open spec fn spec_has_no_activity(files: Seq<PollableKind>) -> bool {
    forall|i: int| 0 <= i < files.len() ==> !(#[trigger] files[i] is InputDevice) && !(files[i] is PersistSubsystem)
}

pub fn has_no_activity(files: &Vec<PollableKind>) -> (res: bool)
    ensures
        res == spec_has_no_activity(files@),
{
    let mut i: usize = 0;
    while i < files.len()
        invariant
            i <= files@.len(),
            forall|j: int| 0 <= j < i ==> !(#[trigger] files@[j] is InputDevice) && !(files@[j] is PersistSubsystem),
        decreases files@.len() - i,
    {
        match files[i] {
            PollableKind::InputDevice | PollableKind::PersistSubsystem => return false,
            PollableKind::ControlFifo | PollableKind::SignalFd => {},
        }
        i += 1;
    }
    true
}

/// A file that broke, with what matters about it.
#[derive(Clone, Copy, PartialEq, Eq, Debug, Structural)]
pub enum BrokenFile {
    /// An input device disconnected; it was opened with this persistence mode.
    InputDevice(PersistMode),
    ControlFifo,
    SignalFd,
    PersistSubsystem,
}

/// What to do about a broken file.
#[derive(Clone, Copy, PartialEq, Eq, Debug, Structural)]
pub struct BrokenFilePlan {
    /// Release the keys that the device held down, so that none stays stuck on an output.
    pub release_pressed_keys: bool,
    /// Hand the device to the subsystem that reopens it when it comes back.
    pub reopen: bool,
    /// Shut the subsystem that reopens devices down and mark it as broken.
    pub shut_down_subsystem: bool,
    /// Exit at once.
    pub exit_now: bool,
}

/// What to do about a broken file: a disconnected device has its keys released and is reopened or
/// ends the program as its persistence mode says; a broken signal file ends the program.
pub fn plan_broken_file(file: BrokenFile) -> (res: BrokenFilePlan)
    ensures
        res.release_pressed_keys == (file is InputDevice),
        res.reopen == (file matches BrokenFile::InputDevice(mode) && (mode is Reopen || mode is Full)),
        res.shut_down_subsystem == (file is PersistSubsystem),
        res.exit_now == (file is SignalFd || file == BrokenFile::InputDevice(PersistMode::Exit)),
{
    match file {
        BrokenFile::InputDevice(mode) => BrokenFilePlan {
            release_pressed_keys: true,
            reopen: match mode {
                PersistMode::Reopen | PersistMode::Full => true,
                _ => false,
            },
            shut_down_subsystem: false,
            exit_now: match mode {
                PersistMode::Exit => true,
                _ => false,
            },
        },
        BrokenFile::ControlFifo => BrokenFilePlan {
            release_pressed_keys: false,
            reopen: false,
            shut_down_subsystem: false,
            exit_now: false,
        },
        BrokenFile::SignalFd => BrokenFilePlan {
            release_pressed_keys: false,
            reopen: false,
            shut_down_subsystem: false,
            exit_now: true,
        },
        BrokenFile::PersistSubsystem => BrokenFilePlan {
            release_pressed_keys: false,
            reopen: false,
            shut_down_subsystem: true,
            exit_now: false,
        },
    }
}

/// Whether the main loop goes on after a broken file was handled: not if the plan said to exit,
/// nor if none of the remaining files can bring events.
pub fn action_after_broken_file(plan: &BrokenFilePlan, remaining: &Vec<PollableKind>) -> (res: Action)
    ensures
        res == (if plan.exit_now || spec_has_no_activity(remaining@) { Action::Exit } else { Action::Continue }),
{
    if plan.exit_now || has_no_activity(remaining) {
        Action::Exit
    } else {
        Action::Continue
    }
}

/// The signals that end the program: SIGTERM, SIGINT and SIGHUP.
pub open spec fn spec_is_termination_signal(signal: i32) -> bool {
    signal == 15 || signal == 2 || signal == 1
}

/// What a signal does to the main loop: the termination signals end it, others are ignored.
pub fn action_for_signal(signal: i32) -> (res: Action)
    ensures
        res == (if spec_is_termination_signal(signal) { Action::Exit } else { Action::Continue }),
{
    if signal == 15 || signal == 2 || signal == 1 {
        Action::Exit
    } else {
        Action::Continue
    }
}

/// What the persistence subsystem reports to the main loop.
#[derive(Clone, Copy, PartialEq, Eq, Debug, Structural)]
pub enum ReportKind {
    /// A device was opened again.
    DeviceOpened,
    /// A device was found that can never be opened again, and was given up.
    BlueprintDropped,
    /// The subsystem has shut down.
    Shutdown,
}

/// What a report of the persistence subsystem does to the main loop: the program ends when a
/// device was given up and none of the remaining files can bring events; it goes on otherwise.
pub fn action_after_report(report: ReportKind, remaining: &Vec<PollableKind>) -> (res: Action)
    ensures
        res == (if report == ReportKind::BlueprintDropped && spec_has_no_activity(remaining@) {
            Action::Exit
        } else {
            Action::Continue
        }),
{
    match report {
        ReportKind::BlueprintDropped => {
            if has_no_activity(remaining) {
                Action::Exit
            } else {
                Action::Continue
            }
        },
        ReportKind::DeviceOpened | ReportKind::Shutdown => Action::Continue,
    }
}

/// The time in milliseconds that the main loop may wait for files before the next scheduled
/// wakeup: -1 when it may wait indefinitely, None when the wakeup is due now and must run
/// before the loop waits at all.
pub fn poll_timeout(delay: Delay) -> (res: Option<i32>)
    ensures
        res == match delay {
            Delay::Now => None,
            Delay::Never => Some(-1i32),
            Delay::Wait(time) => Some(time),
        },
{
    match delay {
        Delay::Now => None,
        Delay::Never => Some(-1),
        Delay::Wait(time) => Some(time),
    }
}

} // verus!
