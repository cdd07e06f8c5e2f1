//! Behaviour of the reference-counted arena: share/release balance and
//! free-at-zero.

use scene_arena::handle::Handle;
use scene_arena::rcpool::RcPool;

#[test]
fn spawn_starts_at_count_one() {
    let mut pool: RcPool<String> = RcPool::new();
    let h = pool.spawn("tex".to_string());
    assert_eq!(pool.ref_count(&h), 1);
    assert_eq!(pool.borrow(&h), Some(&"tex".to_string()));
}

#[test]
fn share_returns_equal_handle_and_counts() {
    let mut pool: RcPool<String> = RcPool::new();
    let h = pool.spawn("tex".to_string());
    let shared = pool.share_handle(&h);
    assert_eq!(shared, h);
    assert_eq!(pool.ref_count(&h), 2);
}

#[test]
fn share_of_invalid_handle_is_none_and_unobservable() {
    let mut pool: RcPool<String> = RcPool::new();
    let h = pool.spawn("tex".to_string());
    pool.release(&h);
    let shared = pool.share_handle(&h);
    assert!(shared.is_none());
    assert_eq!(pool.ref_count(&h), 0);
}

#[test]
fn refcount_balance_frees_at_zero() {
    // n shares followed by n + 1 releases free the slot; any release
    // beyond that is a no-op, not a crash.
    let n = 5;
    let mut pool: RcPool<String> = RcPool::new();
    let h = pool.spawn("shared".to_string());
    for _ in 0..n {
        let s = pool.share_handle(&h);
        assert_eq!(s, h);
    }
    assert_eq!(pool.ref_count(&h), n + 1);
    for _ in 0..n {
        pool.release(&h);
    }
    assert_eq!(pool.ref_count(&h), 1);
    assert!(pool.is_valid(&h));
    pool.release(&h);
    assert!(!pool.is_valid(&h));
    assert_eq!(pool.borrow(&h), None);
    // Releases beyond the balance change nothing and do not crash.
    pool.release(&h);
    pool.release(&h);
    assert!(!pool.is_valid(&h));
}

#[test]
fn freed_rc_slot_is_reused_with_new_generation() {
    let mut pool: RcPool<u64> = RcPool::new();
    let h1 = pool.spawn(1);
    pool.release(&h1);
    let h2 = pool.spawn(2);
    assert_eq!(h2.index, h1.index);
    assert!(h2.generation > h1.generation);
    assert_eq!(pool.borrow(&h1), None);
    assert_eq!(pool.borrow(&h2), Some(&2));
    assert_eq!(pool.ref_count(&h2), 1);
}

#[test]
fn borrow_mut_keeps_count() {
    let mut pool: RcPool<String> = RcPool::new();
    let h = pool.spawn("old".to_string());
    pool.share_handle(&h);
    if let Some(v) = pool.borrow_mut(&h) {
        *v = "new".to_string();
    } else {
        panic!("expected a live slot");
    }
    assert_eq!(pool.borrow(&h), Some(&"new".to_string()));
    assert_eq!(pool.ref_count(&h), 2);
}

#[test]
fn restore_gives_every_entry_count_one() {
    // Restored slots keep index and payload, restart at generation zero,
    // and every value starts over at a reference count of one.
    let entries: Vec<Option<u64>> = vec![Some(7), None, Some(9)];
    let mut pool: RcPool<u64> = RcPool::restore_from(entries);
    assert_eq!(pool.get_capacity(), 3);
    let h0: Handle<u64> = pool.handle_from_index(0);
    let h2: Handle<u64> = pool.handle_from_index(2);
    assert_eq!(h0.generation, 0);
    assert_eq!(pool.ref_count(&h0), 1);
    assert_eq!(pool.ref_count(&h2), 1);
    assert_eq!(pool.at(1), None);
    // One release frees a restored entry.
    pool.release(&h0);
    assert!(!pool.is_valid(&h0));
}
