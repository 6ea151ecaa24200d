//! The failure taxonomy of the primitive's boundary: every operation either
//! succeeds or reports one of these local, caller-recoverable conditions.
//! Nothing in the library panics on malformed input.

use vstd::prelude::*;

verus! {

/// A typed failure of a field, hash or marshalling operation.
#[derive(Clone, Copy, Debug, PartialEq, Eq, Structural)]
pub enum Error {
    /// A word handed to the hash lies outside the field's range `[0, PRIME)`.
    OutOfRange,
    /// A tree chain holds the wrong number of elements for the declared arity.
    ArityMismatch,
    /// A tree node is a leaf where a pair was expected, or a pair where a
    /// leaf was expected.
    ShapeMismatch,
}

} // verus!
