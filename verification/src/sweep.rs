//! The eviction pass over the index.
//!
//! A sweep probes every entry's lock with a non-blocking exclusive attempt —
//! success proves that nobody holds it at that instant — and then removes the
//! entries whose probe succeeded.  The probe outcomes come from outside the
//! verifier, so the pass is split: [`mark_unlocked`] gathers the outcomes, and
//! [`remove_unlocked`] is verified to remove exactly the marked entries,
//! whatever the outcomes were.

use crate::tokio_rwlock::clone_handle;
use crate::tokio_rwlock::try_write_handle;
use std::sync::Arc;
use tokio::sync::RwLock;
use vstd::prelude::*;

verus! {

/// One index entry: a key and the shared-ownership handle of its lock.
pub type LockEntry = (String, Arc<RwLock<()>>);

/// Whether some entry carries the key `k`.
pub open spec fn has_key(entries: Seq<LockEntry>, k: Seq<char>) -> bool {
    exists|i: int| 0 <= i < entries.len() && #[trigger] entries[i].0@ == k
}

/// Whether no two entries carry the same key.
pub open spec fn distinct_keys(entries: Seq<LockEntry>) -> bool {
    forall|i: int, j: int|
        0 <= i < j < entries.len() ==> #[trigger] entries[i].0@ != #[trigger] entries[j].0@
}

/// The entries that survive a sweep whose probe outcomes were `unlocked`:
/// entry `i` stays exactly when `unlocked[i]` is false.
pub open spec fn retain_held(entries: Seq<LockEntry>, unlocked: Seq<bool>) -> Seq<LockEntry>
    decreases entries.len(),
{
    if entries.len() == 0 {
        Seq::empty()
    } else {
        let rest = retain_held(entries.drop_last(), unlocked.drop_last());
        if unlocked.last() {
            rest
        } else {
            rest.push(entries.last())
        }
    }
}

/// Relates an index before a sweep to the index after it: some probe
/// outcomes exist under which exactly the marked entries were removed.
pub open spec fn swept(pre: Seq<LockEntry>, post: Seq<LockEntry>) -> bool {
    exists|unlocked: Seq<bool>|
        unlocked.len() == pre.len() && post == #[trigger] retain_held(pre, unlocked)
}

/// How one more probed entry extends the retained prefix.
proof fn lemma_retain_held_step(entries: Seq<LockEntry>, unlocked: Seq<bool>, i: int)
    requires
        unlocked.len() == entries.len(),
        0 <= i < entries.len(),
    ensures
        retain_held(entries.take(i + 1), unlocked.take(i + 1)) == if unlocked[i] {
            retain_held(entries.take(i), unlocked.take(i))
        } else {
            retain_held(entries.take(i), unlocked.take(i)).push(entries[i])
        },
{
    assert(entries.take(i + 1).drop_last() =~= entries.take(i));
    assert(unlocked.take(i + 1).drop_last() =~= unlocked.take(i));
    assert(entries.take(i + 1).last() == entries[i]);
    assert(unlocked.take(i + 1).last() == unlocked[i]);
}

/// A sweep keeps every entry whose probe failed — that is, every entry whose
/// lock had an outstanding guard, shared or exclusive, at the moment it was
/// probed.
pub proof fn lemma_sweep_keeps_held(entries: Seq<LockEntry>, unlocked: Seq<bool>, i: int)
    requires
        unlocked.len() == entries.len(),
        0 <= i < entries.len(),
        !unlocked[i],
    ensures
        retain_held(entries, unlocked).contains(entries[i]),
    decreases entries.len(),
{
    let kept = retain_held(entries, unlocked);
    let rest = retain_held(entries.drop_last(), unlocked.drop_last());
    if i == entries.len() - 1 {
        assert(kept == rest.push(entries.last()));
        assert(kept[kept.len() - 1] == entries[i]);
    } else {
        lemma_sweep_keeps_held(entries.drop_last(), unlocked.drop_last(), i);
        let j = choose|j: int| 0 <= j < rest.len() && rest[j] == entries.drop_last()[i];
        assert(entries.drop_last()[i] == entries[i]);
        assert(kept[j] == entries[i]);
    }
}

/// When the keys are distinct, a sweep removes the key of every entry whose
/// probe succeeded: that key is absent afterwards.
pub proof fn lemma_sweep_removes_unlocked(entries: Seq<LockEntry>, unlocked: Seq<bool>, i: int)
    requires
        unlocked.len() == entries.len(),
        distinct_keys(entries),
        0 <= i < entries.len(),
        unlocked[i],
    ensures
        !has_key(retain_held(entries, unlocked), entries[i].0@),
{
    let kept = retain_held(entries, unlocked);
    lemma_sweep_keeps_only_old(entries, unlocked);
    lemma_sweep_no_duplicate_index(entries, unlocked, i);
    assert forall|k: int| 0 <= k < kept.len() implies #[trigger] kept[k].0@ != entries[i].0@ by {
        assert(kept.contains(kept[k]));
        assert(entries.contains(kept[k]));
    }
}

/// Dropping the last entry keeps the keys distinct.
proof fn lemma_distinct_drop_last(entries: Seq<LockEntry>)
    requires
        distinct_keys(entries),
        entries.len() > 0,
    ensures
        distinct_keys(entries.drop_last()),
{
    assert forall|a: int, b: int|
        0 <= a < b < entries.drop_last().len() implies #[trigger] entries.drop_last()[a].0@
        != #[trigger] entries.drop_last()[b].0@ by {
        assert(entries[a] == entries.drop_last()[a]);
        assert(entries[b] == entries.drop_last()[b]);
    }
}

/// Every survivor of the sweep carries a key other than that of the entry at
/// a marked position, provided the keys are distinct.
proof fn lemma_sweep_no_duplicate_index(entries: Seq<LockEntry>, unlocked: Seq<bool>, i: int)
    requires
        unlocked.len() == entries.len(),
        distinct_keys(entries),
        0 <= i < entries.len(),
        unlocked[i],
    ensures
        forall|e: LockEntry|
            #[trigger] retain_held(entries, unlocked).contains(e) ==> e.0@ != entries[i].0@,
    decreases entries.len(),
{
    if entries.len() > 0 {
        let kept = retain_held(entries, unlocked);
        let rest = retain_held(entries.drop_last(), unlocked.drop_last());
        if i == entries.len() - 1 {
            lemma_sweep_keeps_only_old(entries.drop_last(), unlocked.drop_last());
            assert forall|e: LockEntry| #[trigger] kept.contains(e) implies e.0@
                != entries[i].0@ by {
                assert(rest.contains(e));
                assert(entries.drop_last().contains(e));
                let j = choose|j: int| 0 <= j < entries.len() - 1 && entries.drop_last()[j] == e;
                assert(entries[j] == e);
                assert(entries[j].0@ != entries[i].0@);
            }
        } else {
            lemma_distinct_drop_last(entries);
            lemma_sweep_no_duplicate_index(entries.drop_last(), unlocked.drop_last(), i);
            assert forall|e: LockEntry| #[trigger] kept.contains(e) implies e.0@
                != entries[i].0@ by {
                let k = choose|k: int| 0 <= k < kept.len() && kept[k] == e;
                if !unlocked.last() && k == kept.len() - 1 && kept == rest.push(entries.last()) {
                    assert(e == entries.last());
                    assert(entries[entries.len() - 1].0@ != entries[i].0@);
                } else {
                    assert(rest.contains(e));
                }
            }
        }
    }
}

/// A sweep that observes every entry as held leaves the index unchanged.
pub proof fn lemma_sweep_all_held_identity(entries: Seq<LockEntry>, unlocked: Seq<bool>)
    requires
        unlocked.len() == entries.len(),
        forall|i: int| 0 <= i < unlocked.len() ==> !(#[trigger] unlocked[i]),
    ensures
        retain_held(entries, unlocked) == entries,
    decreases entries.len(),
{
    if entries.len() > 0 {
        lemma_sweep_all_held_identity(entries.drop_last(), unlocked.drop_last());
        assert(unlocked[unlocked.len() - 1] == unlocked.last());
        assert(retain_held(entries, unlocked) =~= entries);
    }
}

/// Distinct keys survive a sweep: the kept entries are a subsequence of the
/// old ones, in order, so no duplicate can appear.
pub proof fn lemma_sweep_keeps_distinct(entries: Seq<LockEntry>, unlocked: Seq<bool>)
    requires
        unlocked.len() == entries.len(),
        distinct_keys(entries),
    ensures
        distinct_keys(retain_held(entries, unlocked)),
    decreases entries.len(),
{
    if entries.len() > 0 {
        let kept = retain_held(entries, unlocked);
        let rest = retain_held(entries.drop_last(), unlocked.drop_last());
        lemma_distinct_drop_last(entries);
        lemma_sweep_keeps_distinct(entries.drop_last(), unlocked.drop_last());
        if !unlocked.last() {
            lemma_sweep_keeps_only_old(entries.drop_last(), unlocked.drop_last());
            assert forall|i: int, j: int|
                0 <= i < j < kept.len() implies #[trigger] kept[i].0@ != #[trigger] kept[j].0@ by {
                if j == kept.len() - 1 {
                    assert(kept[j] == entries.last());
                    assert(rest.contains(rest[i]));
                    assert(entries.drop_last().contains(rest[i]));
                    let m = choose|m: int| 0 <= m < entries.len() - 1
                        && entries.drop_last()[m] == rest[i];
                    assert(entries[m] == rest[i]);
                    assert(entries[m].0@ != entries[entries.len() - 1].0@);
                    assert(kept[i] == rest[i]);
                } else {
                    assert(kept[i] == rest[i]);
                    assert(kept[j] == rest[j]);
                }
            }
        }
    }
}

/// Every entry the sweep keeps stood in the index before it.
pub proof fn lemma_sweep_keeps_only_old(entries: Seq<LockEntry>, unlocked: Seq<bool>)
    requires
        unlocked.len() == entries.len(),
    ensures
        forall|e: LockEntry|
            #[trigger] retain_held(entries, unlocked).contains(e) ==> entries.contains(e),
    decreases entries.len(),
{
    if entries.len() > 0 {
        lemma_sweep_keeps_only_old(entries.drop_last(), unlocked.drop_last());
        assert forall|e: LockEntry| #[trigger]
            retain_held(entries, unlocked).contains(e) implies entries.contains(e) by {
            let kept = retain_held(entries, unlocked);
            let rest = retain_held(entries.drop_last(), unlocked.drop_last());
            let k = choose|k: int| 0 <= k < kept.len() && kept[k] == e;
            if unlocked.last() || k < rest.len() {
                assert(rest.contains(e));
                assert(entries.drop_last().contains(e));
                let j = choose|j: int| 0 <= j < entries.drop_last().len()
                    && entries.drop_last()[j] == e;
                assert(entries[j] == e);
            } else {
                assert(e == entries.last());
                assert(entries[entries.len() - 1] == e);
            }
        }
    }
}

/// A sweep only ever removes entries: whatever the probes observed, every
/// entry present after it stood in the index before it.
pub proof fn lemma_swept_shrinks(pre: Seq<LockEntry>, post: Seq<LockEntry>)
    requires
        swept(pre, post),
    ensures
        forall|e: LockEntry| #[trigger] post.contains(e) ==> pre.contains(e),
        post.len() <= pre.len(),
{
    let unlocked = choose|unlocked: Seq<bool>|
        unlocked.len() == pre.len() && post == #[trigger] retain_held(pre, unlocked);
    lemma_sweep_keeps_only_old(pre, unlocked);
    lemma_retain_held_len(pre, unlocked);
}

/// A sweep never grows the index.
proof fn lemma_retain_held_len(entries: Seq<LockEntry>, unlocked: Seq<bool>)
    ensures
        retain_held(entries, unlocked).len() <= entries.len(),
    decreases entries.len(),
{
    if entries.len() > 0 {
        lemma_retain_held_len(entries.drop_last(), unlocked.drop_last());
    }
}

/// Probes every entry's lock with a non-blocking exclusive attempt and
/// records which attempts succeeded.  A successful attempt proves that the
/// entry's lock had no holder at that instant; the short-lived guard is
/// dropped at once, releasing the probe's own hold.
fn mark_unlocked(entries: &Vec<LockEntry>) -> (unlocked: Vec<bool>)
    ensures
        unlocked@.len() == entries@.len(),
{
    let mut unlocked: Vec<bool> = Vec::new();
    let mut i: usize = 0;
    while i < entries.len()
        invariant
            i <= entries@.len(),
            unlocked@.len() == i,
        decreases entries@.len() - i,
    {
        let probe = try_write_handle(clone_handle(&entries[i].1));
        unlocked.push(probe.is_ok());
        i = i + 1;
    }
    unlocked
}

/// Removes exactly the marked entries: the result keeps, in order, every
/// entry whose mark is false and no other.
pub fn remove_unlocked(entries: &Vec<LockEntry>, unlocked: &Vec<bool>) -> (kept: Vec<LockEntry>)
    requires
        unlocked@.len() == entries@.len(),
    ensures
        kept@ == retain_held(entries@, unlocked@),
{
    let mut kept: Vec<LockEntry> = Vec::new();
    let mut i: usize = 0;
    while i < entries.len()
        invariant
            i <= entries@.len(),
            unlocked@.len() == entries@.len(),
            kept@ == retain_held(entries@.take(i as int), unlocked@.take(i as int)),
        decreases entries@.len() - i,
    {
        proof {
            lemma_retain_held_step(entries@, unlocked@, i as int);
        }
        if !unlocked[i] {
            let key = entries[i].0.clone();
            let handle = clone_handle(&entries[i].1);
            proof {
                assert((key, handle) == entries@[i as int]);
            }
            kept.push((key, handle));
        }
        i = i + 1;
    }
    assert(entries@.take(entries@.len() as int) =~= entries@);
    assert(unlocked@.take(unlocked@.len() as int) =~= unlocked@);
    kept
}

/// One full eviction pass: probe every entry, then remove those observed
/// unheld.  Keys that were distinct stay distinct.
pub fn clean_up(entries: &Vec<LockEntry>) -> (kept: Vec<LockEntry>)
    ensures
        swept(entries@, kept@),
        distinct_keys(entries@) ==> distinct_keys(kept@),
{
    let unlocked = mark_unlocked(entries);
    let kept = remove_unlocked(entries, &unlocked);
    proof {
        if distinct_keys(entries@) {
            lemma_sweep_keeps_distinct(entries@, unlocked@);
        }
    }
    kept
}

} // verus!
