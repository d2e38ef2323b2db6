//! Safe, checked handling of the two shapes of data that cross a C boundary:
//! null-terminated arrays and null-terminated byte strings.
//!
//! Nothing in this crate dereferences an address. Memory that a foreign side
//! owns is seen through borrowed slices or taken over as owned byte buffers,
//! and a function that gives up memory says so in its result, so that the
//! caller can hand the allocation back to the allocator it came from.
//!
//! A pointer that may be NULL is an `Option`; a null-terminated array is a
//! run of `Option` slots of which the first `None` is the end; a C string is
//! a run of bytes of which the first zero is the end.

/// Array-related utilities
pub mod array;
mod error;
/// Sequences that end at a sentinel
pub mod sentinel;
/// String-related utilities
pub mod string;

pub use crate::error::Error;
pub use crate::error::IntoStringError;
pub use crate::error::NulError;
pub use crate::error::Result;
