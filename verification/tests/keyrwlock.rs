use key_rwlock::clean_up;
use key_rwlock::map_busy;
use key_rwlock::remove_unlocked;
use key_rwlock::KeyRwLock;
use key_rwlock::LockBusy;
use key_rwlock::SWEEP_PERIOD;
use std::sync::Arc;
use tokio::sync::RwLock;

#[test]
fn test_basic_funcionality() {
    let mut lock = KeyRwLock::new();

    let _foo = lock.try_write("foo".to_string()).unwrap();
    let _bar = lock.try_read("bar".to_string()).unwrap();

    assert!(lock.try_read("foo".to_string()).is_err());
    assert!(lock.try_write("foo".to_string()).is_err());

    assert!(lock.try_read("bar".to_string()).is_ok());
    assert!(lock.try_write("bar".to_string()).is_err());
}

#[test]
fn test_clean_up() {
    let mut lock = KeyRwLock::new();
    let _foo_write = lock.try_write("foo_write".to_string()).unwrap();
    let _bar_write = lock.try_write("bar_write".to_string()).unwrap();
    let _foo_read = lock.try_read("foo_read".to_string()).unwrap();
    let _bar_read = lock.try_read("bar_read".to_string()).unwrap();
    assert_eq!(lock.len(), 4);
    drop(_foo_read);
    drop(_bar_write);
    lock.clean();
    assert_eq!(lock.len(), 2);
}

#[test]
fn new_table_is_empty() {
    let lock = KeyRwLock::new();
    assert_eq!(lock.len(), 0);
    assert!(!lock.contains_key(&"foo".to_string()));
}

#[test]
fn write_guard_blocks_both_attempts() {
    let mut lock = KeyRwLock::new();
    let _held = lock.try_write("k".to_string()).unwrap();
    assert_eq!(lock.try_read("k".to_string()).err(), Some(LockBusy));
    assert_eq!(lock.try_write("k".to_string()).err(), Some(LockBusy));
}

#[test]
fn read_guards_allow_reads_and_block_writes() {
    let mut lock = KeyRwLock::new();
    let _first = lock.try_read("k".to_string()).unwrap();
    let _second = lock.try_read("k".to_string()).unwrap();
    assert!(lock.try_read("k".to_string()).is_ok());
    assert_eq!(lock.try_write("k".to_string()).err(), Some(LockBusy));
}

#[test]
fn distinct_keys_lock_independently() {
    let mut lock = KeyRwLock::new();
    let _held = lock.try_write("k1".to_string()).unwrap();
    let other_read = lock.try_read("k2".to_string()).unwrap();
    drop(other_read);
    assert!(lock.try_write("k2".to_string()).is_ok());
}

#[test]
fn clean_removes_released_key_and_next_request_is_fresh() {
    let mut lock = KeyRwLock::new();
    let guard = lock.try_write("k".to_string()).unwrap();
    drop(guard);
    lock.clean();
    assert_eq!(lock.len(), 0);
    assert!(!lock.contains_key(&"k".to_string()));
    assert!(lock.try_write("k".to_string()).is_ok());
}

#[test]
fn clean_keeps_exactly_the_held_keys() {
    let mut lock = KeyRwLock::new();
    let _foo_write = lock.try_write("foo_write".to_string()).unwrap();
    let _bar_write = lock.try_write("bar_write".to_string()).unwrap();
    let _foo_read = lock.try_read("foo_read".to_string()).unwrap();
    let _bar_read = lock.try_read("bar_read".to_string()).unwrap();
    drop(_foo_read);
    drop(_bar_write);
    lock.clean();
    assert_eq!(lock.len(), 2);
    assert!(lock.contains_key(&"foo_write".to_string()));
    assert!(lock.contains_key(&"bar_read".to_string()));
    assert!(!lock.contains_key(&"foo_read".to_string()));
    assert!(!lock.contains_key(&"bar_write".to_string()));
}

#[test]
fn clean_twice_changes_nothing_the_second_time() {
    let mut lock = KeyRwLock::new();
    let _held_write = lock.try_write("held_write".to_string()).unwrap();
    let _held_read = lock.try_read("held_read".to_string()).unwrap();
    let loose = lock.try_read("loose".to_string()).unwrap();
    drop(loose);
    lock.clean();
    assert_eq!(lock.len(), 2);
    assert!(lock.contains_key(&"held_write".to_string()));
    assert!(lock.contains_key(&"held_read".to_string()));
    lock.clean();
    assert_eq!(lock.len(), 2);
    assert!(lock.contains_key(&"held_write".to_string()));
    assert!(lock.contains_key(&"held_read".to_string()));
}

#[test]
fn automatic_sweep_triggers_on_the_thousandth_access() {
    let mut lock = KeyRwLock::new();
    let _held = lock.try_write("held".to_string()).unwrap();
    for i in 1..SWEEP_PERIOD - 1 {
        let guard = lock.try_read(format!("k{}", i)).unwrap();
        drop(guard);
    }
    // 999 acquisitions so far: every key is still indexed, so no sweep ran.
    assert_eq!(lock.len(), SWEEP_PERIOD - 1);
    // The 1000th acquisition sweeps before granting: only the key with an
    // outstanding guard and the newly requested key remain.
    let _trigger = lock.try_write("trigger".to_string()).unwrap();
    assert_eq!(lock.len(), 2);
    assert!(lock.contains_key(&"held".to_string()));
    assert!(lock.contains_key(&"trigger".to_string()));
    assert!(!lock.contains_key(&"k1".to_string()));
}

#[test]
fn remove_unlocked_removes_exactly_the_marked_entries() {
    let entries: Vec<(String, Arc<RwLock<()>>)> = vec![
        ("a".to_string(), Arc::new(RwLock::new(()))),
        ("b".to_string(), Arc::new(RwLock::new(()))),
        ("c".to_string(), Arc::new(RwLock::new(()))),
    ];
    let unlocked = vec![true, false, true];
    let kept = remove_unlocked(&entries, &unlocked);
    assert_eq!(kept.len(), 1);
    assert_eq!(kept[0].0, "b");
    assert!(Arc::ptr_eq(&kept[0].1, &entries[1].1));
}

#[test]
fn clean_up_keeps_held_locks_in_order() {
    let entries: Vec<(String, Arc<RwLock<()>>)> = vec![
        ("a".to_string(), Arc::new(RwLock::new(()))),
        ("b".to_string(), Arc::new(RwLock::new(()))),
        ("c".to_string(), Arc::new(RwLock::new(()))),
    ];
    let _guard_a = entries[0].1.clone().try_read_owned().unwrap();
    let _guard_c = entries[2].1.clone().try_write_owned().unwrap();
    let kept = clean_up(&entries);
    assert_eq!(kept.len(), 2);
    assert_eq!(kept[0].0, "a");
    assert_eq!(kept[1].0, "c");
}

#[test]
fn map_busy_passes_success_through_and_maps_failure() {
    let lock = Arc::new(RwLock::new(()));
    let ok: Result<u64, tokio::sync::TryLockError> = Ok(7);
    assert_eq!(map_busy(ok), Ok(7));
    let _held = lock.clone().try_write_owned().unwrap();
    let err = lock.clone().try_write_owned().unwrap_err();
    assert_eq!(map_busy(Err::<u64, _>(err)), Err(LockBusy));
}
