//! The error taxonomy of the synchronization core.

use vstd::prelude::*;

verus! {

/// What a store operation can fail with.
#[derive(Debug, Clone, Copy, PartialEq, Eq, Structural)]
pub enum StoreError {
    /// The requested record does not exist: a definitive absence.
    NotFound,
    /// The store cannot be reached: a transient condition.
    Unavailable,
}

/// What the read path surfaces to a caller.
#[derive(Debug, Clone, Copy, PartialEq, Eq, Structural)]
pub enum ResolveError {
    /// No quote of the day exists yet for the language.
    NotFound,
    /// The cache missed and the store could not be reached either.
    ServiceUnavailable,
}

/// What a rotation attempt for one language can fail with.
#[derive(Debug, Clone, Copy, PartialEq, Eq, Structural)]
pub enum RotationError {
    /// The language has no catalog entries to pick from, or the
    /// recorded quote id no longer exists in the catalog.
    NotFound,
    /// The store cannot be reached.
    StoreUnavailable,
    /// The cache cannot be reached, so the write-through failed.
    CacheUnavailable,
    /// The next reset instant could not be computed.
    Clock,
}

/// Failure to compute a calendar instant: a configuration fault that is
/// surfaced, never defaulted.
#[derive(Debug, Clone, Copy, PartialEq, Eq, Structural)]
pub enum ClockError {
    Unrepresentable,
}

} // verus!
