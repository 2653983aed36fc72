//! Keeping the capabilities of input devices on disk.

pub mod format;
pub mod interface;
pub mod path;
pub mod roundtrip;
pub mod storage;
