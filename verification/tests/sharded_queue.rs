use crafty::ids::{JobId, LeaseId, NodeId, WorkerId};
use crafty::job_queue::InMemoryJobQueue;
use crafty::queue::{EnqueueOptions, QueueError, QueueReplicateOp};
use crafty::sharded::{decode_global_id, encode_global_id};
use crafty::sharded_queue::ShardedJobQueue;

fn shards(n: usize) -> ShardedJobQueue {
    ShardedJobQueue::new((0..n).map(|_| InMemoryJobQueue::new(30_000)).collect())
}

fn worker() -> WorkerId {
    WorkerId { node: NodeId(1), instance: 0 }
}

fn keyed(key: &[u8]) -> EnqueueOptions {
    EnqueueOptions { shard_key: Some(key.to_vec()), ..EnqueueOptions::default() }
}

#[test]
fn routes_enqueue_by_shard_key() {
    let mut q = shards(4);
    let id_a = q.enqueue_opts(b"a", keyed(b"tenant-1")).unwrap();
    let id_b = q.enqueue_opts(b"b", keyed(b"tenant-1")).unwrap();
    let (shard_a, _) = decode_global_id(id_a.0);
    let (shard_b, _) = decode_global_id(id_b.0);
    assert_eq!(shard_a, shard_b);
}

#[test]
fn lease_ack_round_trip_across_shards() {
    let mut q = shards(3);
    for i in 0..6u8 {
        q.enqueue(&[i]).unwrap();
    }
    let leased = q.lease(worker(), 6).unwrap();
    assert_eq!(leased.len(), 6);
    for job in leased {
        q.ack(worker(), job.lease_id).unwrap();
    }
    assert_eq!(q.metrics().unwrap().pending, 0);
}

#[test]
fn batch_enqueue_preserves_input_order_on_one_shard() {
    let mut q = shards(4);
    let batch: Vec<(Vec<u8>, EnqueueOptions)> = (0..5u8).map(|i| (vec![i], keyed(b"tenant-a"))).collect();
    let (ids, reps) = q.enqueue_batch_opts_replicated_sharded(&batch).unwrap();
    assert_eq!(ids.len(), 5);
    assert_eq!(reps.len(), 1);
    let (picked_shard, local0) = decode_global_id(ids[0].0);
    for (offset, id) in ids.iter().enumerate().skip(1) {
        let (shard, local) = decode_global_id(id.0);
        assert_eq!(shard, picked_shard);
        assert_eq!(local, local0 + offset as u64);
    }
}

#[test]
fn batch_ack_routes_by_shard() {
    let mut q = shards(3);
    for i in 0..6u8 {
        q.enqueue(&[i]).unwrap();
    }
    let leased = q.lease(worker(), 6).unwrap();
    let lease_ids: Vec<LeaseId> = leased.iter().map(|j| j.lease_id).collect();
    let reps = q.ack_batch_replicated_sharded(worker(), &lease_ids).unwrap();
    assert!(!reps.is_empty());
    assert!(reps.windows(2).all(|w| w[0].shard < w[1].shard));
    assert_eq!(reps.iter().map(|r| r.ops.len()).sum::<usize>(), 6);
    assert_eq!(q.metrics().unwrap().pending, 0);
}

#[test]
fn ids_name_shard_and_local_id() {
    let mut q = shards(2);
    let (id, rep) = q.enqueue_opts_replicated_sharded_at(b"p", keyed(b"k"), 5).unwrap();
    let (shard, local) = decode_global_id(id.0);
    assert_eq!(shard, rep.shard);
    assert_eq!(local, 1);
    assert_eq!(id.0, encode_global_id(rep.shard, 1));
    let status = q.job_status_at(id, 5).unwrap().unwrap();
    assert_eq!(status.job_id, id);
    assert!(matches!(rep.ops[0], QueueReplicateOp::Enqueue { job_id: 1, .. }));
}

#[test]
fn unknown_shard_index_is_reported() {
    let mut q = shards(2);
    let bogus = LeaseId(encode_global_id(9, 1));
    match q.ack(worker(), bogus) {
        Err(QueueError::Backend(m)) => assert_eq!(m, "invalid shard index 9"),
        other => panic!("unexpected {other:?}"),
    }
    match q.job_status(JobId(encode_global_id(7, 1))) {
        Err(QueueError::Backend(m)) => assert_eq!(m, "invalid shard index 7"),
        other => panic!("unexpected {other:?}"),
    }
    match q.lease_shard_replicated_at(5, worker(), 1, 0) {
        Err(QueueError::Backend(m)) => assert_eq!(m, "invalid shard index 5"),
        other => panic!("unexpected {other:?}"),
    }
    match q.ack_batch_replicated_sharded_at(worker(), &[bogus], 0) {
        Err(QueueError::Backend(m)) => assert_eq!(m, "invalid shard index 9"),
        other => panic!("unexpected {other:?}"),
    }
}

#[test]
fn federation_does_not_apply_replication() {
    let q = shards(1);
    let op = QueueReplicateOp::Ack { lease_id: 1, job_id: 1 };
    assert_eq!(
        q.apply_replicate(&op),
        Err(QueueError::Backend("ShardedJobQueue does not apply replication directly".into()))
    );
}

#[test]
fn lease_stops_when_enough_are_leased() {
    let mut q = shards(3);
    for i in 0..6u8 {
        q.enqueue_opts_replicated_at(&[i], EnqueueOptions::new(), 0).unwrap();
    }
    let (first, reps) = q.lease_replicated_sharded_at(worker(), 2, 0).unwrap();
    assert_eq!(first.len(), 2);
    assert_eq!(reps.iter().map(|r| r.ops.len()).sum::<usize>(), 2);
    let (rest, ops) = q.lease_replicated_at(worker(), 10, 0).unwrap();
    assert_eq!(rest.len(), 4);
    assert_eq!(ops.len(), 4);
    assert_eq!(q.metrics_at(0).unwrap().leased, 6);
}
