//! A single-resource waiting list: requesters join a first-in-first-out
//! queue, may withdraw, may ask for their position, and an operator can
//! list or forcibly remove entries. The queue core keeps one entry per
//! requester, orders entries by insertion, and renders bounded listings.

pub mod entry;
pub mod errors;
pub mod format;
pub mod laws;
pub mod queue;

pub use entry::QueueEntry;
pub use entry::RequesterId;
pub use errors::QueueError;
pub use queue::Queue;
