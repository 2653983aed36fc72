//! The parts of the input and output handling that decide rather than read or write.

pub mod epoll;
pub mod fifo;
pub mod input;
pub mod loopback;
pub mod output;
pub mod persist;
