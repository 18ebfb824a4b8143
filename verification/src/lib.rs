//! Computational core of a distributed rate limiter backed by a shared
//! counting store.
//!
//! The library contains the three window algorithms (fixed window, sliding
//! log, sliding window approximation) as pure, verified computation: mapping
//! wall-clock time to window epochs, building the storage keys, composing the
//! ordered command batch that each operation submits to the store, and
//! interpreting the batch's replies as a request count.
//!
//! Talking to the store itself (connections, the wire protocol, the atomic
//! execution of a batch) is the collaborator's job and lives outside this
//! crate; callers execute a [`store::PlannedCommand`] batch against the store
//! and hand the replies back to the interpreter functions.

use vstd::prelude::*;

pub mod fixed;
pub mod keys;
pub mod sliding_log;
pub mod sliding_window;
pub mod store;
pub mod window;

verus! {

/// The error taxonomy of the limiter.
///
/// No error is recovered internally; callers decide fail-open vs fail-closed.
#[derive(Clone, Copy, Debug, PartialEq, Eq, Structural)]
pub enum RateError {
    /// A non-positive window size, or an identifier containing the key
    /// delimiter. Rejected before any store command is built.
    InvalidArgument,
    /// The store could not be reached or answered with a protocol error.
    /// Produced by the caller that executes the batch, never by this crate.
    StoreFailure,
    /// The batch's replies did not have the expected number or type of
    /// results: a defensive check against collaborator version drift.
    UnexpectedReply,
}

} // verus!
