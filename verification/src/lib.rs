//! A buffered writer for files that only take block-aligned writes.
//!
//! The writer decides what is staged and what goes to the sink; the caller
//! owns the sink, performs each step the writer asks for, and reports the
//! result.

pub mod align;
pub mod error;
pub mod file;
pub mod flags;
pub mod laws;
pub mod model;
mod sys;
