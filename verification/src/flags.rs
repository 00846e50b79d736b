//! The flags of the open call.

use crate::sys::{create_flag, direct_flag, truncate_flag, write_only_flag};
use vstd::prelude::*;

verus! {

/// The four flags that the writer's file is opened with.
#[derive(Clone, Copy, Debug, PartialEq, Eq, Structural)]
pub struct OpenFlags {
    /// Asks the handle for alignment-constrained writes.
    pub direct: i32,
    /// Opens for writing only.
    pub write_only: i32,
    /// Creates the file where it is missing.
    pub create: i32,
    /// Empties the file where it exists.
    pub truncate: i32,
}

impl OpenFlags {
    /// The flags as the platform defines them. Their values differ from
    /// platform to platform, so nothing is claimed of them.
    pub fn platform() -> OpenFlags {
        OpenFlags {
            direct: direct_flag(),
            write_only: write_only_flag(),
            create: create_flag(),
            truncate: truncate_flag(),
        }
    }
}

} // verus!
