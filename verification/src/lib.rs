use vstd::prelude::*;

pub mod abs_to_rel;
pub mod affine;
pub mod arguments;
pub mod capability;
pub mod control_fifo;
pub mod data;
pub mod delay;
pub mod domain;
pub mod ecodes;
pub mod ecodes_table;
pub mod error;
pub mod event;
pub mod hook;
pub mod io;
pub mod key;
pub mod loopback;
pub mod persist;
pub mod print;
pub mod program;
pub mod range;
pub mod scancodes;
pub mod state;
pub mod text;
pub mod time;

verus! {
} // verus!
