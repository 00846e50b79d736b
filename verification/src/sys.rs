//! The constants of the operating system that the writer passes on.

use vstd::prelude::*;

verus! {

/// `libc::O_DIRECT`, the open flag that asks a handle for
/// alignment-constrained writes. Its value differs from platform to
/// platform, so nothing is claimed of it.
#[verifier::external_body]
pub(crate) fn direct_flag() -> (flag: i32) {
    libc::O_DIRECT
}

/// `libc::O_WRONLY`, the open flag for write-only access. Nothing is
/// claimed of its value.
#[verifier::external_body]
pub(crate) fn write_only_flag() -> (flag: i32) {
    libc::O_WRONLY
}

/// `libc::O_CREAT`, the open flag that creates a missing file. Nothing is
/// claimed of its value.
#[verifier::external_body]
pub(crate) fn create_flag() -> (flag: i32) {
    libc::O_CREAT
}

/// `libc::O_TRUNC`, the open flag that empties an existing file. Nothing is
/// claimed of its value.
#[verifier::external_body]
pub(crate) fn truncate_flag() -> (flag: i32) {
    libc::O_TRUNC
}

} // verus!
