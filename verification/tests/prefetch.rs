use crafty::prefetch::{batch_size_error, CachedPendingJob, QueuePrefetchCache};

#[test]
fn higher_priority_leased_first() {
    let mut cache = QueuePrefetchCache::new(8);
    cache.insert_enqueued(CachedPendingJob {
        job_id: 1,
        payload: b"low".to_vec(),
        priority: 0,
        not_before_ms: 0,
    });
    cache.insert_enqueued(CachedPendingJob {
        job_id: 2,
        payload: b"high".to_vec(),
        priority: 9,
        not_before_ms: 0,
    });
    let leased = cache.select_for_lease(1, 0);
    assert_eq!(leased[0].job_id, 2);
}

#[test]
fn batches_above_the_cap_are_refused() {
    assert_eq!(batch_size_error(256), None);
    assert_eq!(batch_size_error(0), None);
    assert_eq!(batch_size_error(257), Some("batch size 257 exceeds max 256".to_string()));
}
