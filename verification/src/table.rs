//! The keyed lock table: an index from key to per-key lock, an access
//! counter, and the acquisition bookkeeping shared by every operation.

use crate::sweep::clean_up;
use crate::sweep::distinct_keys;
use crate::sweep::has_key;
use crate::sweep::swept;
use crate::sweep::LockEntry;
use crate::tokio_rwlock::clone_handle;
use crate::tokio_rwlock::new_lock;
use crate::tokio_rwlock::try_read_handle;
use crate::tokio_rwlock::try_write_handle;
use std::sync::Arc;
use tokio::sync::OwnedRwLockReadGuard;
use tokio::sync::OwnedRwLockWriteGuard;
use tokio::sync::RwLock;
use tokio::sync::TryLockError;
use vstd::prelude::*;

verus! {

/// Every this many acquisitions, the index is swept automatically.
pub const SWEEP_PERIOD: usize = 1000;

/// The error of the non-blocking acquisitions: the requested access is not
/// available at this instant.
#[derive(Debug, PartialEq, Eq, Structural)]
pub struct LockBusy;

/// The access count after one more acquisition, wrapping at the machine
/// limit as the counter does.
pub open spec fn bump(count: usize) -> usize {
    if count == usize::MAX {
        0usize
    } else {
        (count + 1) as usize
    }
}

/// Count one more acquisition, wrapping at the machine limit.
fn bump_count(count: usize) -> (next: usize)
    ensures
        next == bump(count),
{
    if count == usize::MAX {
        0
    } else {
        count + 1
    }
}

/// Whether the acquisition that moves the count past `count` triggers the
/// automatic sweep: it does exactly when the post-increment count is a
/// multiple of [`SWEEP_PERIOD`].
pub open spec fn sweep_due(count: usize) -> bool {
    bump(count) % SWEEP_PERIOD == 0
}

/// Relates the index before and after the lookup step of an acquisition of
/// `key` that was handed `handle`: a known key leaves the index unchanged
/// and `handle` is the lock stored for it; an unknown key is appended with
/// `handle` as its fresh lock.
pub open spec fn found_or_added(
    mid: Seq<LockEntry>,
    post: Seq<LockEntry>,
    key: String,
    handle: Arc<RwLock<()>>,
) -> bool {
    if has_key(mid, key@) {
        post == mid && exists|i: int|
            0 <= i < mid.len() && #[trigger] mid[i].0@ == key@ && mid[i].1 == handle
    } else {
        post == mid.push((key, handle))
    }
}

/// The full effect of one acquisition of `key` on the table: the count is
/// bumped; when that makes the sweep due, the index is swept first; then the
/// key is found or added, with `handle` its lock either way.
pub open spec fn granted(
    pre: KeyRwLock,
    post: KeyRwLock,
    key: String,
    handle: Arc<RwLock<()>>,
) -> bool {
    &&& post.access_count() == bump(pre.access_count())
    &&& if sweep_due(pre.access_count()) {
        exists|mid: Seq<LockEntry>|
            #[trigger] swept(pre.entries(), mid) && found_or_added(
                mid,
                post.entries(),
                key,
                handle,
            )
    } else {
        found_or_added(pre.entries(), post.entries(), key, handle)
    }
}

/// Appending an unknown key keeps the keys distinct.
proof fn lemma_push_distinct(entries: Seq<LockEntry>, key: String, lock: Arc<RwLock<()>>)
    requires
        distinct_keys(entries),
        !has_key(entries, key@),
    ensures
        distinct_keys(entries.push((key, lock))),
{
    let pushed = entries.push((key, lock));
    assert forall|i: int, j: int|
        0 <= i < j < pushed.len() implies #[trigger] pushed[i].0@ != #[trigger] pushed[j].0@ by {
        assert(pushed[i] == entries[i]);
        if j == entries.len() {
            assert(entries[i].0@ != key@);
        } else {
            assert(pushed[j] == entries[j]);
        }
    }
}

/// An acquisition whose count does not make the sweep due evicts nothing:
/// every entry survives in place, so in particular the lock of every other
/// key is exactly the one stored before.  Holding or acquiring one key thus
/// never touches another key's lock through the index; entries leave it only
/// at a due sweep or an explicit [`KeyRwLock::clean`].
pub proof fn lemma_no_sweep_no_eviction(
    pre: KeyRwLock,
    post: KeyRwLock,
    key: String,
    handle: Arc<RwLock<()>>,
)
    requires
        granted(pre, post, key, handle),
        !sweep_due(pre.access_count()),
    ensures
        pre.entries().len() <= post.entries().len(),
        forall|i: int|
            0 <= i < pre.entries().len() ==> post.entries()[i] == #[trigger] pre.entries()[i],
{
    if !has_key(pre.entries(), key@) {
        assert(post.entries() == pre.entries().push((key, handle)));
    }
}

/// Turns the outcome of a non-blocking outside attempt into this crate's
/// error: success passes the guard through unchanged, failure becomes
/// [`LockBusy`].
pub fn map_busy<T>(outcome: Result<T, TryLockError>) -> (mapped: Result<T, LockBusy>)
    ensures
        mapped is Ok <==> outcome is Ok,
        outcome is Ok ==> mapped->Ok_0 == outcome->Ok_0,
{
    match outcome {
        Ok(guard) => Ok(guard),
        Err(_) => Err(LockBusy),
    }
}

/// A reader-writer lock keyed by strings: distinct keys lock independently,
/// one key gives shared/exclusive exclusion.  Per-key locks are created
/// lazily and swept out of the index every [`SWEEP_PERIOD`] acquisitions and
/// on [`KeyRwLock::clean`].
#[derive(Debug)]
pub struct KeyRwLock {
    /// The index: one entry per known key, each holding that key's lock.
    locks: Vec<LockEntry>,
    /// Number of lock acquisitions so far, wrapping at the machine limit.
    accesses: usize,
}

impl KeyRwLock {
    /// The index entries, in insertion order.
    pub closed spec fn entries(self) -> Seq<LockEntry> {
        self.locks@
    }

    /// The acquisition count.
    pub closed spec fn access_count(self) -> usize {
        self.accesses
    }

    /// Well-formedness: no key appears twice in the index.
    pub open spec fn wf(self) -> bool {
        distinct_keys(self.entries())
    }

    /// Create a new, empty table.
    pub fn new() -> (table: Self)
        ensures
            table.wf(),
            table.entries() == Seq::<LockEntry>::empty(),
            table.access_count() == 0,
    {
        Self::default()
    }

    /// How many keys the index currently knows.
    pub fn len(&self) -> (n: usize)
        ensures
            n == self.entries().len(),
    {
        self.locks.len()
    }

    /// Whether the index currently knows `key`.
    pub fn contains_key(&self, key: &String) -> (present: bool)
        ensures
            present == has_key(self.entries(), key@),
    {
        Self::index_of(&self.locks, key).is_some()
    }

    /// Acquisition bookkeeping, shared by every acquisition operation: count
    /// the access, sweep the index when the count makes the sweep due, then
    /// look the key up — creating a fresh, unheld lock for it if it is absent
    /// — and hand back a shared-ownership handle of its lock.  The caller
    /// performs the actual acquisition on that handle, outside the index.
    pub fn acquire_handle(&mut self, key: String) -> (handle: Arc<RwLock<()>>)
        requires
            old(self).wf(),
        ensures
            final(self).wf(),
            granted(*old(self), *final(self), key, handle),
    {
        self.accesses = bump_count(self.accesses);
        if self.accesses % SWEEP_PERIOD == 0 {
            self.locks = clean_up(&self.locks);
        }
        match Self::index_of(&self.locks, &key) {
            Some(i) => clone_handle(&self.locks[i].1),
            None => {
                let lock = Arc::new(new_lock());
                let handle = clone_handle(&lock);
                proof {
                    lemma_push_distinct(self.locks@, key, lock);
                }
                self.locks.push((key, lock));
                handle
            },
        }
    }

    /// Non-blocking shared acquisition: books the access like every
    /// acquisition, then attempts shared access on the key's lock, handing
    /// back a guard on success and [`LockBusy`] when the attempt fails.
    pub fn try_read(&mut self, key: String) -> (result: Result<
        OwnedRwLockReadGuard<()>,
        LockBusy,
    >)
        requires
            old(self).wf(),
        ensures
            final(self).wf(),
            exists|handle: Arc<RwLock<()>>|
                #[trigger] granted(*old(self), *final(self), key, handle),
    {
        let handle = self.acquire_handle(key);
        map_busy(try_read_handle(handle))
    }

    /// Non-blocking exclusive acquisition: books the access like every
    /// acquisition, then attempts exclusive access on the key's lock, handing
    /// back a guard on success and [`LockBusy`] when the attempt fails.
    pub fn try_write(&mut self, key: String) -> (result: Result<
        OwnedRwLockWriteGuard<()>,
        LockBusy,
    >)
        requires
            old(self).wf(),
        ensures
            final(self).wf(),
            exists|handle: Arc<RwLock<()>>|
                #[trigger] granted(*old(self), *final(self), key, handle),
    {
        let handle = self.acquire_handle(key);
        map_busy(try_write_handle(handle))
    }

    /// Sweep the index now: remove every entry whose lock is observed
    /// unheld, and no other.  Does not count as an acquisition.
    pub fn clean(&mut self)
        requires
            old(self).wf(),
        ensures
            final(self).wf(),
            final(self).access_count() == old(self).access_count(),
            swept(old(self).entries(), final(self).entries()),
    {
        self.locks = clean_up(&self.locks);
    }

    /// The position of `key` in the index, if it is known.
    fn index_of(entries: &Vec<LockEntry>, key: &String) -> (position: Option<usize>)
        ensures
            match position {
                Some(i) => i < entries@.len() && entries@[i as int].0@ == key@,
                None => !has_key(entries@, key@),
            },
    {
        let mut i: usize = 0;
        while i < entries.len()
            invariant
                i <= entries@.len(),
                forall|j: int| 0 <= j < i ==> #[trigger] entries@[j].0@ != key@,
            decreases entries@.len() - i,
        {
            if entries[i].0 == *key {
                return Some(i);
            }
            i = i + 1;
        }
        None
    }
}

impl Default for KeyRwLock {
    /// An empty table with the counter at zero.
    fn default() -> (table: Self)
        ensures
            table.wf(),
            table.entries() == Seq::<LockEntry>::empty(),
            table.access_count() == 0,
    {
        KeyRwLock { locks: Vec::new(), accesses: 0 }
    }
}

} // verus!

