//! The shared error vocabulary of the wire-format engine.

use vstd::prelude::*;

verus! {

/// What can go wrong while encoding or decoding.
#[derive(Clone, Copy, Debug, PartialEq, Eq, Structural)]
pub enum Error {
    /// The underlying output channel failed.
    IoFailure,
    /// Fewer bytes were available than a length prefix or field decode requires.
    Truncated,
    /// Invalid data: a varint with too many continuation bytes, invalid UTF-8
    /// in a string field, or an unsupported wire type (group start/end).
    Malformed,
    /// A message declared one size and wrote another.
    SizeMismatch,
}

} // verus!
