use crafty::ids::{JobId, LeaseId, NodeId, WorkerId};
use crafty::job_queue::InMemoryJobQueue;
use crafty::queue::{EnqueueOptions, JobLifecycle, QueueError};

fn worker(instance: u32) -> WorkerId {
    WorkerId { node: NodeId(1), instance }
}

#[test]
fn enqueue_lease_ack_round_trip() {
    let mut q = InMemoryJobQueue::new(30_000);
    let id = q.enqueue(b"job").unwrap();
    assert_eq!(id, JobId(1));
    let leased = q.lease(worker(0), 8).unwrap();
    assert_eq!(leased.len(), 1);
    assert_eq!(leased[0].payload, b"job");
    q.ack(worker(0), leased[0].lease_id).unwrap();
    let m = q.metrics().unwrap();
    assert_eq!(m.pending, 0);
    assert_eq!(m.leased, 0);
}

#[test]
fn two_workers_get_distinct_jobs() {
    let mut q = InMemoryJobQueue::new(30_000);
    q.enqueue(b"a").unwrap();
    q.enqueue(b"b").unwrap();
    let a = q.lease(worker(0), 1).unwrap();
    let b = q.lease(worker(1), 1).unwrap();
    assert_eq!(a[0].payload, b"a");
    assert_eq!(b[0].payload, b"b");
}

#[test]
fn nack_requeues() {
    let mut q = InMemoryJobQueue::new(30_000);
    q.enqueue(b"x").unwrap();
    let leased = q.lease(worker(0), 1).unwrap();
    q.nack(worker(0), leased[0].lease_id).unwrap();
    let again = q.lease(worker(1), 1).unwrap();
    assert_eq!(again[0].payload, b"x");
}

#[test]
fn expired_lease_returns_to_pending() {
    let mut q = InMemoryJobQueue::new(20);
    q.enqueue_opts_replicated_at(b"z", EnqueueOptions::new(), 1_000);
    let (leased, _) = q.lease_replicated_at(worker(0), 1, 1_000);
    assert_eq!(leased.len(), 1);
    // 40 ms later the lease has expired.
    let m = q.metrics_at(1_040);
    assert_eq!(m.pending, 1);
    assert_eq!(m.leased, 0);
    let (again, _) = q.lease_replicated_at(worker(1), 1, 1_040);
    assert_eq!(again[0].payload, b"z");
}

#[test]
fn dedup_key_returns_existing_job_id() {
    let mut q = InMemoryJobQueue::new(30_000);
    let id1 = q.enqueue_opts(b"first", EnqueueOptions::dedup_key(b"order-1".to_vec())).unwrap();
    let id2 = q.enqueue_opts(b"retry", EnqueueOptions::dedup_key(b"order-1".to_vec())).unwrap();
    assert_eq!(id1, id2);
    assert_eq!(q.metrics().unwrap().pending, 1);
}

#[test]
fn priority_jobs_leased_first() {
    let mut q = InMemoryJobQueue::new(30_000);
    q.enqueue_opts(b"low", EnqueueOptions::default()).unwrap();
    q.enqueue_opts(b"high", EnqueueOptions::priority(10)).unwrap();
    let leased = q.lease(worker(0), 1).unwrap();
    assert_eq!(leased[0].payload, b"high");
}

#[test]
fn delayed_job_not_leased_before_not_before() {
    let mut q = InMemoryJobQueue::new(30_000);
    q.enqueue_opts_replicated_at(b"later", EnqueueOptions::delayed_from(1_000, 3_600_000), 1_000);
    let (empty, _) = q.lease_replicated_at(worker(0), 1, 2_000);
    assert!(empty.is_empty());
    assert_eq!(q.metrics_at(2_000).pending, 0);
    let (now_ready, _) = q.lease_replicated_at(worker(0), 1, 3_601_000);
    assert_eq!(now_ready.len(), 1);
}

#[test]
fn ack_rejects_wrong_worker() {
    let mut q = InMemoryJobQueue::new(30_000);
    q.enqueue(b"j").unwrap();
    let leased = q.lease(worker(0), 1).unwrap();
    assert!(matches!(q.ack(worker(1), leased[0].lease_id), Err(QueueError::InvalidLease)));
    assert!(matches!(q.ack(worker(0), LeaseId(999)), Err(QueueError::InvalidLease)));
}

#[test]
fn job_status_reports_lifecycle() {
    let mut q = InMemoryJobQueue::new(30_000);
    let id = q.enqueue(b"job").unwrap();
    let pending = q.job_status(id).unwrap().expect("pending");
    assert_eq!(pending.lifecycle, JobLifecycle::Pending);
    assert_eq!(pending.payload_len, 3);
    let leased = q.lease(worker(0), 1).unwrap();
    let status = q.job_status(id).unwrap().expect("leased");
    assert_eq!(status.lifecycle, JobLifecycle::Leased);
    assert_eq!(status.leased_by, Some(worker(0)));
    q.ack(worker(0), leased[0].lease_id).unwrap();
    assert!(q.job_status(id).unwrap().is_none());
}

#[test]
fn max_attempts_moves_job_to_dead_letter() {
    let mut q = InMemoryJobQueue::new(30_000);
    let (id, _) = q.enqueue_opts_replicated_at(b"poison", EnqueueOptions::max_attempts(2), 0);
    let mut now = 0u64;
    for _ in 0..2 {
        let (leased, _) = q.lease_replicated_at(worker(0), 1, now);
        q.nack_replicated_at(worker(0), leased[0].lease_id, now).unwrap();
        now += 2_000;
    }
    let status = q.job_status_at(id, now).expect("dead letter");
    assert_eq!(status.lifecycle, JobLifecycle::DeadLetter);
    assert_eq!(q.metrics_at(now).dead_letter, 1);
    assert!(q.lease_replicated_at(worker(1), 1, now).0.is_empty());
    q.requeue_dead_letter_replicated_at(id, now).unwrap();
    let pending = q.job_status_at(id, now).expect("pending again");
    assert_eq!(pending.lifecycle, JobLifecycle::Pending);
    assert_eq!(pending.attempts, 0);
}

#[test]
fn requeue_of_live_job_is_refused() {
    let mut q = InMemoryJobQueue::new(30_000);
    let id = q.enqueue(b"live").unwrap();
    assert!(matches!(q.requeue_dead_letter(id), Err(QueueError::NotDeadLetter)));
    assert!(matches!(q.requeue_dead_letter(JobId(77)), Err(QueueError::NotDeadLetter)));
}

#[test]
fn in_memory_apply_replicate_is_idempotent() {
    let mut leader = InMemoryJobQueue::new(30_000);
    let mut follower = InMemoryJobQueue::new(30_000);
    let (_, ops) = leader.enqueue_opts_replicated_at(b"x", EnqueueOptions::new(), 10);
    assert_eq!(ops.len(), 1);
    for q in [&mut leader, &mut follower] {
        q.apply_replicate_at(&ops[0], 10).unwrap();
        q.apply_replicate_at(&ops[0], 10).unwrap();
    }
    assert_eq!(leader.metrics_at(10).pending, 1);
    assert_eq!(follower.metrics_at(10).pending, 1);
}

#[test]
fn replayed_nack_changes_nothing() {
    let mut leader = InMemoryJobQueue::new(30_000);
    let mut follower = InMemoryJobQueue::new(30_000);
    let (_, enq) = leader.enqueue_opts_replicated_at(b"x", EnqueueOptions::new(), 0);
    let (leased, lease_ops) = leader.lease_replicated_at(worker(0), 1, 0);
    let nack_ops = leader.nack_replicated_at(worker(0), leased[0].lease_id, 0).unwrap();
    for op in enq.iter().chain(lease_ops.iter()).chain(nack_ops.iter()) {
        follower.apply_replicate_at(op, 0).unwrap();
    }
    follower.apply_replicate_at(&nack_ops[0], 0).unwrap();
    assert_eq!(follower.metrics_at(0).pending, 1);
    let (again, _) = follower.lease_replicated_at(worker(1), 8, 0);
    assert_eq!(again.len(), 1);
    assert_eq!(again[0].payload, b"x");
}
