//! The failures that the messaging core reports, and how the failures of the
//! executor, the synchronisation primitives and the timer map onto them.

use vstd::prelude::*;
use vstd::std_specs::convert::FromSpecImpl;
use embassy_executor::SpawnError;
use embassy_sync::channel::TrySendError;
use embassy_sync::mutex::TryLockError;
use embassy_time::TimeoutError;

verus! {

/// `embassy_executor::SpawnError`, reported when a task pool has no free slot.
/// Nothing is known about a value of it.
#[verifier::external_type_specification]
#[verifier::external_body]
pub struct ExSpawnError(embassy_executor::SpawnError);

/// `embassy_sync::channel::TrySendError`, reported by a channel that is full.
/// Nothing is known about a value of it.
#[verifier::external_type_specification]
#[verifier::external_body]
#[verifier::reject_recursive_types(T)]
pub struct ExTrySendError<T>(embassy_sync::channel::TrySendError<T>);

/// `embassy_sync::mutex::TryLockError`, reported by a mutex that is held.
/// Nothing is known about a value of it.
#[verifier::external_type_specification]
#[verifier::external_body]
pub struct ExTryLockError(embassy_sync::mutex::TryLockError);

/// `embassy_time::TimeoutError`, reported when a bounded wait ran out.
/// Nothing is known about a value of it.
#[verifier::external_type_specification]
#[verifier::external_body]
pub struct ExTimeoutError(embassy_time::TimeoutError);

/// Every failure that the core surfaces to a caller. The core never aborts:
/// whether a failure is fatal is the caller's decision.
#[derive(Clone, Copy, Debug, PartialEq, Eq, Structural)]
pub enum PostmasterError {
    /// The address already has a live registration.
    AddressAlreadyTaken,
    /// The destination lies outside the closed address set.
    NoRecipient,
    /// A bounded wait did not complete in time.
    Timeout,
    /// A non-blocking lock attempt found the lock held.
    TryLockFailed,
    /// A non-blocking send found the mailbox full.
    TrySendFailed,
    /// The task pool had no free slot for a new task.
    DelayedMessageTaskSpawnFailed,
}

impl From<TimeoutError> for PostmasterError {
    fn from(_error: TimeoutError) -> (mapped: Self) {
        PostmasterError::Timeout
    }
}

impl FromSpecImpl<TimeoutError> for PostmasterError {
    open spec fn obeys_from_spec() -> bool {
        true
    }

    open spec fn from_spec(_error: TimeoutError) -> Self {
        PostmasterError::Timeout
    }
}

impl From<TryLockError> for PostmasterError {
    fn from(_error: TryLockError) -> (mapped: Self) {
        PostmasterError::TryLockFailed
    }
}

impl FromSpecImpl<TryLockError> for PostmasterError {
    open spec fn obeys_from_spec() -> bool {
        true
    }

    open spec fn from_spec(_error: TryLockError) -> Self {
        PostmasterError::TryLockFailed
    }
}

impl<T> From<TrySendError<T>> for PostmasterError {
    fn from(_error: TrySendError<T>) -> (mapped: Self) {
        PostmasterError::TrySendFailed
    }
}

impl<T> FromSpecImpl<TrySendError<T>> for PostmasterError {
    open spec fn obeys_from_spec() -> bool {
        true
    }

    open spec fn from_spec(_error: TrySendError<T>) -> Self {
        PostmasterError::TrySendFailed
    }
}

impl From<SpawnError> for PostmasterError {
    fn from(_error: SpawnError) -> (mapped: Self) {
        PostmasterError::DelayedMessageTaskSpawnFailed
    }
}

impl FromSpecImpl<SpawnError> for PostmasterError {
    open spec fn obeys_from_spec() -> bool {
        true
    }

    open spec fn from_spec(_error: SpawnError) -> Self {
        PostmasterError::DelayedMessageTaskSpawnFailed
    }
}

} // verus!
