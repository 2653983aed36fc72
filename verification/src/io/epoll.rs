//! Names for the files that the program waits on.

use vstd::prelude::*;

verus! {

/// The number under which a file was registered to wait on.
#[derive(Clone, Copy, PartialEq, Eq, Hash, Debug, Structural)]
pub struct FileIndex(pub u64);

/// What waiting on the files found out about one of them.
#[derive(Clone, Copy, PartialEq, Eq, Debug, Structural)]
pub enum Message {
    /// The file has data ready.
    Ready(FileIndex),
    /// The file was closed or failed.
    Broken(FileIndex),
}

} // verus!
