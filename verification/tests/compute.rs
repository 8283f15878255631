use crafty::compute::ComputeTokens;

#[test]
fn acquire_and_release() {
    let mut pool = ComputeTokens::new(2);
    assert_eq!(pool.try_acquire_weighted(1), Some(1));
    assert_eq!(pool.try_acquire_weighted(1), Some(1));
    assert_eq!(pool.in_use(), 2);
    assert_eq!(pool.try_acquire_weighted(1), None);
    pool.release(1);
    assert_eq!(pool.in_use(), 1);
}

#[test]
fn weighted_acquire_reserves_multiple_units() {
    let mut pool = ComputeTokens::new(4);
    assert_eq!(pool.try_acquire_weighted(3), Some(3));
    assert_eq!(pool.in_use(), 3);
    assert_eq!(pool.try_acquire_weighted(2), None);
    pool.release(3);
    assert_eq!(pool.try_acquire_weighted(2), Some(2));
    assert_eq!(pool.in_use(), 2);
    // weight 0 counts as one unit
    assert_eq!(pool.try_acquire_weighted(0), Some(1));
}

#[test]
fn set_max_unblocks_waiters() {
    let mut pool = ComputeTokens::new(1);
    assert_eq!(pool.try_acquire_weighted(1), Some(1));
    assert_eq!(pool.try_acquire_weighted(1), None);
    pool.set_max(2);
    assert_eq!(pool.try_acquire_weighted(1), Some(1));
    pool.set_max(0);
    assert_eq!(pool.max_tokens(), 1);
    assert_eq!(ComputeTokens::new(0).max_tokens(), 1);
}
