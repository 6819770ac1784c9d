//! Trusted boundary around the lock primitives this crate builds on.
//!
//! Each item here either declares one of `tokio`'s types to the verifier or
//! wraps exactly one outside call.  Whether a non-blocking attempt succeeds
//! depends on what other tasks hold at that instant, so the wrappers promise
//! nothing of their outcome; everything the index does with an outcome is
//! verified downstream, for every value the wrapper could hand back.

use std::sync::Arc;
use tokio::sync::OwnedRwLockReadGuard;
use tokio::sync::OwnedRwLockWriteGuard;
use tokio::sync::RwLock;
use tokio::sync::TryLockError;
use vstd::prelude::*;

verus! {

/// Declares `tokio::sync::RwLock`, the per-key reader-writer primitive.
/// Its values are opaque to the verifier.
#[verifier::external_type_specification]
#[verifier::external_body]
#[verifier::reject_recursive_types(T)]
pub struct ExRwLock<T: ?Sized>(RwLock<T>);

/// Declares `tokio::sync::OwnedRwLockReadGuard`, the token for held shared
/// access; dropping it releases that access.
#[verifier::external_type_specification]
#[verifier::external_body]
#[verifier::reject_recursive_types(T)]
#[verifier::reject_recursive_types(U)]
pub struct ExOwnedRwLockReadGuard<T: ?Sized, U: ?Sized = T>(OwnedRwLockReadGuard<T, U>);

/// Declares `tokio::sync::OwnedRwLockWriteGuard`, the token for held
/// exclusive access; dropping it releases that access.
#[verifier::external_type_specification]
#[verifier::external_body]
#[verifier::reject_recursive_types(T)]
pub struct ExOwnedRwLockWriteGuard<T: ?Sized>(OwnedRwLockWriteGuard<T>);

/// Declares `tokio::sync::TryLockError`, the error of the non-blocking
/// acquisition attempts.
#[verifier::external_type_specification]
#[verifier::external_body]
pub struct ExTryLockError(TryLockError);

/// Relies on `tokio::sync::RwLock::new`: a fresh, unheld reader-writer lock
/// over a unit payload.  Nothing is assumed of the value.
#[verifier::external_body]
pub(crate) fn new_lock() -> RwLock<()> {
    RwLock::new(())
}

/// Relies on `std::sync::Arc::clone`: the clone is a second handle to the
/// very same lock object, hence equal to the original.
#[verifier::external_body]
pub(crate) fn clone_handle(handle: &Arc<RwLock<()>>) -> (r: Arc<RwLock<()>>)
    ensures
        r == *handle,
{
    Arc::clone(handle)
}

/// Relies on `tokio::sync::RwLock::try_read_owned`: hands back a shared
/// guard if shared access is available at this instant, an error otherwise.
/// The outcome depends on concurrent holders, so nothing is assumed of it.
#[verifier::external_body]
pub(crate) fn try_read_handle(handle: Arc<RwLock<()>>) -> Result<
    OwnedRwLockReadGuard<()>,
    TryLockError,
> {
    handle.try_read_owned()
}

/// Relies on `tokio::sync::RwLock::try_write_owned`: hands back an exclusive
/// guard if no reader or writer holds the lock at this instant, an error
/// otherwise.  The outcome depends on concurrent holders, so nothing is
/// assumed of it.
#[verifier::external_body]
pub(crate) fn try_write_handle(handle: Arc<RwLock<()>>) -> Result<
    OwnedRwLockWriteGuard<()>,
    TryLockError,
> {
    handle.try_write_owned()
}

} // verus!
