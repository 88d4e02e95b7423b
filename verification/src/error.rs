//! The error type surfaced by decode and encode calls.

use vstd::prelude::*;

verus! {

/// The single error type of the protocol. Errors originate in the codec a
/// call delegates to; the copy-on-write adapter itself never constructs one,
/// it only passes them through verbatim.
#[derive(Clone, Copy, Debug, PartialEq, Eq, Structural)]
pub enum CodecError {
    /// The cursor ran out of bits before the decode was complete.
    Incomplete,
    /// The decoder rejected the bit pattern it read.
    Malformed,
    /// A bounded decode could not satisfy the limit it was given.
    LimitViolation,
}

} // verus!
