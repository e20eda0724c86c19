//! The error taxonomy of the queue core.

use vstd::prelude::*;

verus! {

/// Expected business-rule failures and the one unexpected storage failure.
///
/// - `AlreadyQueued`: an enqueue for a requester that already holds an entry.
/// - `NotQueued`: a withdrawal or position query for an absent requester.
/// - `NotFound`: an operator removal of an absent requester.
/// - `InvalidArgument`: a malformed requester identity at the boundary.
/// - `StorageFault`: an underlying storage failure, surfaced by callers that
///   own a durable store; the in-memory core never produces it.
#[derive(Clone, Copy, PartialEq, Eq, Structural, Debug)]
pub enum QueueError {
    AlreadyQueued,
    NotQueued,
    NotFound,
    InvalidArgument,
    StorageFault,
}

} // verus!
