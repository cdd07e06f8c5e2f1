//! Behaviour of the generational arena: spawn, free, validation, reuse,
//! restore.

use scene_arena::handle::{ErasedHandle, Handle, NONE_INDEX};
use scene_arena::pool::Pool;

#[test]
fn spawn_then_borrow_succeeds() {
    let mut pool: Pool<String> = Pool::new();
    let h = pool.spawn("alpha".to_string());
    assert_eq!(pool.borrow(h), Some(&"alpha".to_string()));
    assert!(pool.is_valid(h));
    assert_eq!(pool.get_capacity(), 1);
}

#[test]
fn generation_soundness_scenario() {
    // A freed handle stays empty after any number of further spawns,
    // even though a new value occupies its index.
    let mut pool: Pool<String> = Pool::new();
    let h1 = pool.spawn("first".to_string());
    pool.free(h1);
    for k in 0..10 {
        pool.spawn(format!("later-{}", k));
    }
    assert!(!pool.is_valid(h1));
    assert_eq!(pool.borrow(h1), None);
    // The index itself is occupied again by someone else.
    assert!(pool.at(h1.index).is_some());
}

#[test]
fn reuse_bumps_generation_strictly() {
    // spawn("A") -> h1(idx 0, gen 0); free(h1); spawn("B") -> h2 with
    // idx 0, gen 1; h1 borrows empty, h2 borrows "B".
    let mut pool: Pool<String> = Pool::new();
    let h1 = pool.spawn("A".to_string());
    assert_eq!(h1.index, 0);
    assert_eq!(h1.generation, 0);
    pool.free(h1);
    let h2 = pool.spawn("B".to_string());
    assert_eq!(h2.index, 0);
    assert_eq!(h2.generation, 1);
    assert!(h2.generation > h1.generation);
    assert_eq!(pool.borrow(h1), None);
    assert_eq!(pool.borrow(h2), Some(&"B".to_string()));
}

#[test]
fn double_free_is_harmless() {
    let mut pool: Pool<u64> = Pool::new();
    let h1 = pool.spawn(7);
    let h2 = pool.spawn(8);
    pool.free(h1);
    pool.free(h1);
    pool.free(h1);
    assert_eq!(pool.borrow(h2), Some(&8));
    // The slot is reused exactly once despite the repeated frees.
    let h3 = pool.spawn(9);
    assert_eq!(h3.index, h1.index);
    let h4 = pool.spawn(10);
    assert_eq!(h4.index, 2);
}

#[test]
fn none_handle_is_never_valid() {
    let mut pool: Pool<u64> = Pool::new();
    pool.spawn(1);
    let none: Handle<u64> = Handle::none();
    assert!(none.is_none());
    assert_eq!(none.index, NONE_INDEX);
    assert!(!pool.is_valid(none));
    assert_eq!(pool.borrow(none), None);
}

#[test]
fn erased_handle_round_trip() {
    let mut pool: Pool<u64> = Pool::new();
    let h = pool.spawn(42);
    let e: ErasedHandle = h.erase();
    assert_eq!(e.index, h.index);
    assert_eq!(e.generation, h.generation);
    let back: Handle<u64> = Handle::from_erased(e);
    assert_eq!(back, h);
    assert_eq!(pool.borrow(back), Some(&42));
    assert_eq!(ErasedHandle::none().index, NONE_INDEX);
    assert!(ErasedHandle::none().is_none());
}

#[test]
fn at_and_handle_from_index() {
    let mut pool: Pool<String> = Pool::new();
    let h0 = pool.spawn("zero".to_string());
    let h1 = pool.spawn("one".to_string());
    pool.free(h0);
    assert_eq!(pool.at(0), None);
    assert_eq!(pool.at(1), Some(&"one".to_string()));
    assert_eq!(pool.at(99), None);
    let rebuilt = pool.handle_from_index(1);
    assert_eq!(rebuilt, h1);
    assert!(pool.is_valid(rebuilt));
}

#[test]
fn borrow_mut_writes_through() {
    let mut pool: Pool<String> = Pool::new();
    let h = pool.spawn("before".to_string());
    if let Some(v) = pool.borrow_mut(h) {
        *v = "after".to_string();
    } else {
        panic!("expected a live slot");
    }
    assert_eq!(pool.borrow(h), Some(&"after".to_string()));
    let stale: Handle<String> = Handle::make(h.index, h.generation + 1);
    assert!(pool.borrow_mut(stale).is_none());
}

#[test]
fn iter_skips_empty_slots() {
    let mut pool: Pool<u64> = Pool::new();
    let _h0 = pool.spawn(10);
    let h1 = pool.spawn(20);
    let _h2 = pool.spawn(30);
    pool.free(h1);
    let live: Vec<&u64> = pool.iter();
    assert_eq!(live, vec![&10, &30]);
}

#[test]
fn clear_drops_everything() {
    let mut pool: Pool<u64> = Pool::new();
    let h = pool.spawn(5);
    pool.clear();
    assert_eq!(pool.get_capacity(), 0);
    assert!(!pool.is_valid(h));
    // Spawning afterwards starts from a fresh slot zero.
    let h2 = pool.spawn(6);
    assert_eq!(h2.index, 0);
    assert_eq!(h2.generation, 0);
}

#[test]
fn restore_rebuilds_occupancy_and_gaps() {
    // Restoring persisted occupancy keeps indices and payloads, zeroes
    // generations, and rebuilds the free stack from the gaps.
    let entries: Vec<Option<String>> = vec![
        Some("a".to_string()),
        None,
        Some("c".to_string()),
        None,
    ];
    let mut pool: Pool<String> = Pool::restore_from(entries);
    assert_eq!(pool.get_capacity(), 4);
    assert_eq!(pool.at(0), Some(&"a".to_string()));
    assert_eq!(pool.at(1), None);
    assert_eq!(pool.at(2), Some(&"c".to_string()));
    assert_eq!(pool.at(3), None);
    let h0 = pool.handle_from_index(0);
    assert_eq!(h0.generation, 0);
    // The last gap is on top of the rebuilt free stack.
    let h = pool.spawn("d".to_string());
    assert_eq!(h.index, 3);
    assert_eq!(h.generation, 0);
    let h2 = pool.spawn("b".to_string());
    assert_eq!(h2.index, 1);
}

#[test]
fn duplicate_preserves_handles() {
    let mut pool: Pool<u64> = Pool::new();
    let h0 = pool.spawn(1);
    let h1 = pool.spawn(2);
    pool.free(h0);
    let copy = pool.duplicate();
    assert!(copy.is_valid(h1));
    assert_eq!(copy.borrow(h1), Some(&2));
    assert!(!copy.is_valid(h0));
    assert_eq!(copy.get_capacity(), pool.get_capacity());
}

#[test]
fn live_handles_cover_occupied_slots() {
    let mut pool: Pool<u64> = Pool::new();
    let h0 = pool.spawn(10);
    let h1 = pool.spawn(20);
    let _h2 = pool.spawn(30);
    pool.free(h1);
    let handles = pool.live_handles();
    assert_eq!(handles.len(), 2);
    assert_eq!(handles[0], h0);
    assert_eq!(handles[0].index, 0);
    assert_eq!(handles[1].index, 2);
    for h in handles {
        assert!(pool.is_valid(h));
    }
}
