//! Descriptions of USB HID usages.

pub mod hid_usage;
pub mod hid_usage_parser;
