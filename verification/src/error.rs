use vstd::prelude::*;

verus! {

/// Every fallible stream operation reports one of these conditions.
#[derive(Debug, Clone, Copy, PartialEq, Eq, Structural)]
pub enum StreamError {
    /// The underlying medium failed a read, write or seek.
    Io,
    /// Fewer bytes were available than a fixed-width decode required.
    UnexpectedEnd,
    /// Malformed input: bad UTF-8, invalid range bounds, an unknown
    /// enumeration discriminant, or undecodable compressed data.
    InvalidData,
    /// `un_pin` was called with an empty pin stack.
    NotFound,
    /// A region copy asked for more bytes than the source could supply.
    InsufficientSource,
}

} // verus!
