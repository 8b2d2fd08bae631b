//! The failures an operation of the engine can end in.

use vstd::prelude::*;

verus! {

/// Why an operation of the queue failed.
#[derive(Debug, PartialEq, Eq)]
pub enum QueueError {
    /// A receive ran into its timeout with no frame to hand out.
    NoData,
    /// A stored value is not a frame.
    MalformedFrame,
    /// A delivery was acknowledged or rejected a second time.
    CannotAckOrNackTwice,
    /// The engine does not implement the operation.
    Unsupported(&'static str),
    /// The connection or the server failed; the text says how.
    Generic(String),
}

} // verus!
