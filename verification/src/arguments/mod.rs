//! Parsing of the command line arguments.

pub mod abs_to_rel;
pub mod capability;
pub mod config;
pub mod control_fifo;
pub mod delay;
pub mod group;
pub mod hook;
pub mod input;
pub mod map;
pub mod merge;
pub mod oscillate;
pub mod output;
pub mod parser;
pub mod print;
pub mod toggle;
pub mod withhold;
