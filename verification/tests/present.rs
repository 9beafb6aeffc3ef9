use yutani::present::{FreePool, POOL_SIZE};

#[test]
fn pool_hands_out_every_target_once() {
    let mut pool = FreePool::new(POOL_SIZE);
    let a = pool.acquire().unwrap();
    let b = pool.acquire().unwrap();
    assert_ne!(a, b);
    assert!(a < POOL_SIZE && b < POOL_SIZE);
    assert_eq!(pool.acquire(), None);
    pool.release(a);
    assert_eq!(pool.acquire(), Some(a));
    assert_eq!(pool.acquire(), None);
}

#[test]
fn empty_pool_hands_out_nothing() {
    let mut pool = FreePool::new(0);
    assert_eq!(pool.acquire(), None);
}

#[test]
fn pool_says_whether_a_target_is_free() {
    let mut pool = FreePool::new(1);
    assert!(pool.has_free());
    let idx = pool.acquire().unwrap();
    assert!(!pool.has_free());
    pool.release(idx);
    assert!(pool.has_free());
}
