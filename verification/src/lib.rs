//! Per-key reader-writer locking.
//!
//! A [`KeyRwLock`] maps caller-supplied string keys to independent
//! reader-writer locks, created lazily on first touch and swept out of the
//! index once nobody holds them.  Locking distinct keys never contends;
//! locking one key gives the usual shared/exclusive discipline of the
//! underlying `tokio` reader-writer primitive.

pub mod sweep;
pub mod table;
mod tokio_rwlock;

pub use sweep::clean_up;
pub use sweep::remove_unlocked;
pub use table::map_busy;
pub use table::KeyRwLock;
pub use table::LockBusy;
pub use table::SWEEP_PERIOD;
