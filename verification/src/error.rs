//! The ways in which an operation on the writer can fail.

use vstd::prelude::*;

verus! {

/// Why an operation on the writer failed.
#[derive(Clone, Copy, Debug, PartialEq, Eq, Structural)]
pub enum WriterError {
    /// The sink refused an open, a write, a change of mode or a close; the
    /// value is the operating system's error code.
    IoError(i32),
    /// The writer has been closed.
    ClosedHandle,
    /// The block size is not a power of two, or the capacity is not a
    /// positive whole number of blocks.
    InvalidGeometry,
    /// The call does not fit the operation that is in progress.
    OutOfTurn,
    /// Bytes are still staged: the writer has to be flushed before it is
    /// closed.
    Unflushed,
}

} // verus!
