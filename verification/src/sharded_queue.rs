//! One logical job queue federated over independent queue shards: jobs are
//! routed by the hash of their shard key (or payload), and every job and lease
//! id handed out carries its shard index in the top byte.
use vstd::prelude::*;

use crate::ids::{JobId, LeaseId, WorkerId, bytes_to_vec};
use crate::job_queue::{
    InMemoryJobQueue, LeaseEntry, QueueModel, ack_spec, enqueue_spec, is_enqueue_op, is_lease_op, job_status_spec, lease_spec,
    lemma_reclaim_upto_frame, metrics_spec, nack_spec, opt_bytes_view, reclaim, requeue_spec,
};
use crate::queue::{
    EnqueueOptions, JobStatus, LeasedJob, QueueError, QueueMetrics, QueueReplicateOp, default_options_spec, sat_add_u64,
    saturating_add_u64, unix_now_ms,
};
use crate::schedule::{decimal, decimal_text};
use crate::sharded::{LOCAL_MASK, SHARD_SHIFT, decode_global_id, encode_global_id, encode_spec, pick_shard, shard_of};

verus! {

/// One shard's replication batch and the shard's index.
#[derive(Debug, Clone)]
pub struct ShardedReplication {
    /// Index of the shard in the federation.
    pub shard: usize,
    /// Operations produced by that shard's leader mutation.
    pub ops: Vec<QueueReplicateOp>,
}

/// A job queue spread over several in-memory shards.
pub struct ShardedJobQueue {
    shards: Vec<InMemoryJobQueue>,
}

/// The message of the error for a lease or job id naming no shard.
pub open spec fn invalid_shard_message(index: nat) -> Seq<char> {
    "invalid shard index "@ + decimal(index)
}

/// `e` reports that `index` names no shard.
pub open spec fn is_invalid_shard(e: QueueError, index: nat) -> bool {
    e matches QueueError::Backend(m) && m@ == invalid_shard_message(index)
}

/// Shard index carried by a global id.
pub open spec fn shard_part(id: u64) -> nat {
    (id >> SHARD_SHIFT) as nat
}

/// Shard-local part of a global id.
pub open spec fn local_part(id: u64) -> u64 {
    id & LOCAL_MASK
}

/// Shard that serves an enqueue of `payload` with `options` among `n` shards.
pub open spec fn route(payload: Seq<u8>, options: EnqueueOptions, n: nat) -> int {
    shard_of(payload, opt_bytes_view(options.shard_key), n as usize)
}

/// Enqueueing `payload` with `options` at `now` on the routed shard: the global id and that shard's operations.
pub open spec fn enqueue_sharded_outcome(olds: Seq<QueueModel>, payload: Seq<u8>, options: EnqueueOptions, now: u64, r: Result<(JobId, ShardedReplication), QueueError>, ms: Seq<QueueModel>) -> bool {
    ({
        let s = route(payload, options, olds.len());
        let (m, local) = enqueue_spec(olds[s], payload, options, now);
        r matches Ok((id, rep)) && {
            &&& rep.shard == s
            &&& id.0 == encode_spec(s as u64, local)
            &&& ms == olds.update(s, m)
            &&& rep.ops@.len() == 0 || (rep.ops@.len() == 1 && is_enqueue_op(rep.ops@[0], local, payload, options, now))
            &&& rep.ops@.len() == 0 <==> m == reclaim(olds[s], now)
        }
    })
}

/// Enqueueing `payload` with `options` at `now` on the routed shard: the global id and the operations.
pub open spec fn enqueue_outcome(olds: Seq<QueueModel>, payload: Seq<u8>, options: EnqueueOptions, now: u64, r: Result<(JobId, Vec<QueueReplicateOp>), QueueError>, ms: Seq<QueueModel>) -> bool {
    ({
        let s = route(payload, options, olds.len());
        let (m, local) = enqueue_spec(olds[s], payload, options, now);
        r matches Ok((id, ops)) && {
            &&& id.0 == encode_spec(s as u64, local)
            &&& ms == olds.update(s, m)
            &&& ops@.len() == 0 || (ops@.len() == 1 && is_enqueue_op(ops@[0], local, payload, options, now))
            &&& ops@.len() == 0 <==> m == reclaim(olds[s], now)
        }
    })
}

/// Acknowledging global lease `lease_id` at `now` on the shard it names.
pub open spec fn ack_sharded_outcome(olds: Seq<QueueModel>, worker: WorkerId, lease_id: LeaseId, now: u64, r: Result<ShardedReplication, QueueError>, ms: Seq<QueueModel>) -> bool {
    ({
        let s = shard_part(lease_id.0);
        if s >= olds.len() {
            r matches Err(e) && is_invalid_shard(e, s) && ms == olds
        } else {
            let (m, res) = ack_spec(olds[s as int], worker, local_part(lease_id.0), now);
            &&& ms == olds.update(s as int, m)
            &&& match (r, res) {
                (Ok(rep), Ok(job_id)) => rep.shard == s && rep.ops@ == seq![
                    QueueReplicateOp::Ack { lease_id: local_part(lease_id.0), job_id },
                ],
                (Err(e), Err(e2)) => e == e2,
                _ => false,
            }
        }
    })
}

/// Returning global lease `lease_id` at `now` on the shard it names.
pub open spec fn nack_sharded_outcome(olds: Seq<QueueModel>, worker: WorkerId, lease_id: LeaseId, now: u64, r: Result<ShardedReplication, QueueError>, ms: Seq<QueueModel>) -> bool {
    ({
        let s = shard_part(lease_id.0);
        if s >= olds.len() {
            r matches Err(e) && is_invalid_shard(e, s) && ms == olds
        } else {
            let (m, res) = nack_spec(olds[s as int], worker, local_part(lease_id.0), now);
            &&& ms == olds.update(s as int, m)
            &&& match (r, res) {
                (Ok(rep), Ok((job_id, o))) => rep.shard == s && rep.ops@ == seq![
                    QueueReplicateOp::Nack {
                        lease_id: local_part(lease_id.0),
                        job_id,
                        attempts: o.attempts,
                        dead_letter: o.dead_letter,
                        not_before_ms: o.not_before_ms,
                    },
                ],
                (Err(e), Err(e2)) => e == e2,
                _ => false,
            }
        }
    })
}

/// Requeueing global job `job_id` from the dead letter at `now`.
pub open spec fn requeue_outcome(olds: Seq<QueueModel>, job_id: JobId, now: u64, r: Result<(), QueueError>, ms: Seq<QueueModel>) -> bool {
    ({
        let s = shard_part(job_id.0);
        if s >= olds.len() {
            r matches Err(e) && is_invalid_shard(e, s) && ms == olds
        } else {
            let (m, res) = requeue_spec(olds[s as int], local_part(job_id.0), now);
            ms == olds.update(s as int, m) && r == res
        }
    })
}

/// Status of global job `job_id` at `now`, reported under the global id.
pub open spec fn status_outcome(olds: Seq<QueueModel>, job_id: JobId, now: u64, r: Result<Option<JobStatus>, QueueError>, ms: Seq<QueueModel>) -> bool {
    ({
        let s = shard_part(job_id.0);
        if s >= olds.len() {
            r matches Err(e) && is_invalid_shard(e, s) && ms == olds
        } else {
            let (m, st) = job_status_spec(olds[s as int], local_part(job_id.0), now);
            &&& ms == olds.update(s as int, m)
            &&& r == Ok::<Option<JobStatus>, QueueError>(
                match st {
                    Some(x) => Some(JobStatus { job_id, ..x }),
                    None => None,
                },
            )
        }
    })
}

/// Leasing up to `max` jobs at `now` from shard `shard` alone.
pub open spec fn lease_shard_outcome(olds: Seq<QueueModel>, ts: Seq<u64>, shard: usize, worker: WorkerId, max: usize, now: u64, r: Result<(Vec<LeasedJob>, ShardedReplication), QueueError>, ms: Seq<QueueModel>) -> bool {
    if shard >= olds.len() {
        r matches Err(e) && is_invalid_shard(e, shard as nat) && ms == olds
    } else {
        let (m, g) = lease_spec(olds[shard as int], worker, max as nat, now, ts[shard as int]);
        r matches Ok((out, rep)) && {
            &&& ms == olds.update(shard as int, m)
            &&& rep.shard == shard
            &&& out@.len() == g.len()
            &&& rep.ops@.len() == g.len()
            &&& forall|k: int| 0 <= k < g.len() ==> is_global_lease(#[trigger] out@[k], (shard as int, g[k]), olds, now)
            &&& forall|k: int| 0 <= k < g.len() ==> is_lease_op(#[trigger] rep.ops@[k], g[k])
        }
    }
}

/// Leasing up to `max` jobs at `now` across the shards in order, with one replication per shard that granted leases.
pub open spec fn lease_sharded_outcome(olds: Seq<QueueModel>, ts: Seq<u64>, worker: WorkerId, max: usize, now: u64, r: Result<(Vec<LeasedJob>, Vec<ShardedReplication>), QueueError>, ms: Seq<QueueModel>) -> bool {
    ({
        let n = olds.len();
        let all = grants_upto(olds, ts, worker, max as nat, now, n);
        let gs = granting_shards(olds, ts, worker, max as nat, now, n);
        r matches Ok((out, reps)) && {
            &&& ms.len() == n
            &&& forall|i: int| 0 <= i < n ==> #[trigger] ms[i] == shard_after_lease(olds, ts, worker, max as nat, now, i as nat)
            &&& out@.len() == all.len()
            &&& forall|k: int| 0 <= k < all.len() ==> is_global_lease(#[trigger] out@[k], all[k], olds, now)
            &&& reps@.len() == gs.len()
            &&& forall|x: int|
                0 <= x < gs.len() ==> {
                    let g = shard_grants(olds, ts, worker, now, gs[x] as nat, lease_need(olds, ts, worker, max as nat, now, gs[x] as nat));
                    &&& (#[trigger] reps@[x]).shard == gs[x]
                    &&& reps@[x].ops@.len() == g.len()
                    &&& forall|y: int| 0 <= y < g.len() ==> is_lease_op(#[trigger] reps@[x].ops@[y], g[y])
                }
        }
    })
}

/// Leasing up to `max` jobs at `now` across the shards in order, with the operations of all shards.
pub open spec fn lease_outcome(olds: Seq<QueueModel>, ts: Seq<u64>, worker: WorkerId, max: usize, now: u64, r: Result<(Vec<LeasedJob>, Vec<QueueReplicateOp>), QueueError>, ms: Seq<QueueModel>) -> bool {
    ({
        let n = olds.len();
        let all = grants_upto(olds, ts, worker, max as nat, now, n);
        r matches Ok((out, ops)) && {
            &&& ms.len() == n
            &&& forall|i: int| 0 <= i < n ==> #[trigger] ms[i] == shard_after_lease(olds, ts, worker, max as nat, now, i as nat)
            &&& out@.len() == all.len()
            &&& forall|k: int| 0 <= k < all.len() ==> is_global_lease(#[trigger] out@[k], all[k], olds, now)
            &&& ops@.len() == all.len()
            &&& forall|k: int| 0 <= k < all.len() ==> is_lease_op(#[trigger] ops@[k], all[k].1)
        }
    })
}

/// Enqueueing a batch at `now`: global ids in input order, one replication per shard that replicates something.
pub open spec fn batch_enqueue_outcome(olds: Seq<QueueModel>, jobs: Seq<(Vec<u8>, EnqueueOptions)>, now: u64, r: Result<(Vec<JobId>, Vec<ShardedReplication>), QueueError>, ms: Seq<QueueModel>) -> bool {
    ({
        let (run_ms, gids) = batch_run(olds, jobs, now, jobs.len());
        r matches Ok((ids, reps)) && {
            &&& ms == run_ms
            &&& ids@.len() == jobs.len()
            &&& forall|k: int| 0 <= k < jobs.len() ==> (#[trigger] ids@[k]).0 == gids[k]
            &&& exists|jo: Seq<Seq<QueueReplicateOp>>|
                {
                    &&& jo.len() == jobs.len()
                    &&& forall|k: int| 0 <= k < jobs.len() ==> job_ops_ok(olds, jobs, now, k, #[trigger] jo[k])
                    &&& reps@.len() == shards_with_ops(olds, jobs, jo, olds.len()).len()
                    &&& forall|x: int|
                        0 <= x < reps@.len() ==> {
                            let s = shards_with_ops(olds, jobs, jo, olds.len())[x];
                            &&& (#[trigger] reps@[x]).shard == s
                            &&& reps@[x].ops@ == routed_ops(olds, jobs, jo, s, jobs.len())
                        }
                }
        }
    })
}

/// Acknowledging a batch at `now`, shard by shard in ascending order.
pub open spec fn batch_ack_outcome(olds: Seq<QueueModel>, worker: WorkerId, ids: Seq<LeaseId>, now: u64, r: Result<Vec<ShardedReplication>, QueueError>, ms: Seq<QueueModel>) -> bool {
    ({
        let (run_ms, res) = ack_batch_run(olds, worker, ids, now, SHARD_LIMIT as nat);
        &&& ms == run_ms
        &&& match (r, res) {
            (Ok(reps), Ok(done)) => reps@.len() == done.len() && forall|x: int|
                0 <= x < done.len() ==> (#[trigger] reps@[x]).shard == done[x].0 && reps@[x].ops@ == ack_ops(done[x].1, done[x].2),
            (Err(e), Err(BatchStop::Invalid(i))) => is_invalid_shard(e, i),
            (Err(e), Err(BatchStop::Queue(e2))) => e == e2,
            _ => false,
        }
    })
}

/// Gauges at `now`: every shard reclaims, and the gauges are summed.
pub open spec fn metrics_outcome(olds: Seq<QueueModel>, now: u64, r: Result<QueueMetrics, QueueError>, ms: Seq<QueueModel>) -> bool {
    &&& ms.len() == olds.len()
    &&& forall|i: int| 0 <= i < olds.len() ==> #[trigger] ms[i] == metrics_spec(olds[i], now).0
    &&& r == Ok::<QueueMetrics, QueueError>(metrics_total(olds, now, olds.len()))
}

/// The job id of an enqueue answer.
pub open spec fn id_only(full: Result<(JobId, Vec<QueueReplicateOp>), QueueError>) -> Result<JobId, QueueError> {
    match full {
        Ok((id, _)) => Ok(id),
        Err(e) => Err(e),
    }
}

/// The jobs of a lease answer.
pub open spec fn jobs_only(full: Result<(Vec<LeasedJob>, Vec<QueueReplicateOp>), QueueError>) -> Result<Vec<LeasedJob>, QueueError> {
    match full {
        Ok((jobs, _)) => Ok(jobs),
        Err(e) => Err(e),
    }
}

/// The operations of a routed answer.
pub open spec fn ops_only(full: Result<ShardedReplication, QueueError>) -> Result<Vec<QueueReplicateOp>, QueueError> {
    match full {
        Ok(rep) => Ok(rep.ops),
        Err(e) => Err(e),
    }
}

/// A routed answer without its operations.
pub open spec fn done_only(full: Result<ShardedReplication, QueueError>) -> Result<(), QueueError> {
    match full {
        Ok(_) => Ok(()),
        Err(e) => Err(e),
    }
}

impl ShardedJobQueue {
    /// The shards as queue models, in order.
    pub closed spec fn models(&self) -> Seq<QueueModel> {
        self.shards@.map_values(|q: InMemoryJobQueue| q@)
    }

    /// Lease timeout of each shard, in milliseconds.
    pub closed spec fn timeouts(&self) -> Seq<u64> {
        self.shards@.map_values(|q: InMemoryJobQueue| q.lease_timeout())
    }

    /// At least one shard, and every shard well formed.
    pub closed spec fn wf(&self) -> bool {
        &&& self.shards@.len() > 0
        &&& forall|i: int| 0 <= i < self.shards@.len() ==> (#[trigger] self.shards@[i]).wf()
    }

    /// Federate `shards` (at least one).
    pub fn new(shards: Vec<InMemoryJobQueue>) -> (q: Self)
        requires
            shards@.len() > 0,
            forall|i: int| 0 <= i < shards@.len() ==> (#[trigger] shards@[i]).wf(),
        ensures
            q.wf(),
            q.models() == shards@.map_values(|s: InMemoryJobQueue| s@),
            q.timeouts() == shards@.map_values(|s: InMemoryJobQueue| s.lease_timeout()),
    {
        ShardedJobQueue { shards }
    }

    /// Number of federated shards.
    pub fn shard_count(&self) -> (n: usize)
        ensures
            n == self.models().len(),
    {
        self.shards.len()
    }

    /// Take shard `s` out; `put_back` returns it.
    fn take(&mut self, s: usize) -> (q: InMemoryJobQueue)
        requires
            old(self).wf(),
            s < old(self).models().len(),
        ensures
            q == old(self).shards@[s as int],
            final(self).shards@ == old(self).shards@.remove(s as int),
    {
        self.shards.remove(s)
    }

    fn put_back(&mut self, s: usize, q: InMemoryJobQueue, Ghost(before): Ghost<Seq<InMemoryJobQueue>>)
        requires
            before.len() > 0,
            s < before.len(),
            old(self).shards@ == before.remove(s as int),
            q.wf(),
            forall|i: int| 0 <= i < before.len() ==> (#[trigger] before[i]).wf(),
        ensures
            final(self).shards@ == before.update(s as int, q),
            final(self).wf(),
            final(self).models() == before.map_values(|x: InMemoryJobQueue| x@).update(s as int, q@),
            final(self).timeouts() == before.map_values(|x: InMemoryJobQueue| x.lease_timeout()).update(s as int, q.lease_timeout()),
    {
        self.shards.insert(s, q);
        proof {
            assert(self.shards@ =~= before.update(s as int, q));
            assert forall|i: int| 0 <= i < self.shards@.len() implies (#[trigger] self.shards@[i]).wf() by {
                if i != s {
                    assert(self.shards@[i] == before[i]);
                }
            }
            assert(self.models() =~= before.map_values(|x: InMemoryJobQueue| x@).update(s as int, q@));
            assert(self.timeouts() =~= before.map_values(|x: InMemoryJobQueue| x.lease_timeout()).update(s as int, q.lease_timeout()));
        }
    }

    /// Enqueue on the routed shard at `now`: the global job id and that shard's operations.
    pub fn enqueue_opts_replicated_sharded_at(&mut self, payload: &[u8], options: EnqueueOptions, now: u64) -> (r: Result<
        (JobId, ShardedReplication),
        QueueError,
    >)
        requires
            old(self).wf(),
            old(self).models()[route(payload@, options, old(self).models().len())].next_job_id < u64::MAX,
        ensures
            final(self).wf(),
            final(self).timeouts() == old(self).timeouts(),
            enqueue_sharded_outcome(old(self).models(), payload@, options, now, r, final(self).models()),
    {
        let ghost before = self.shards@;
        let key: Option<&[u8]> = match &options.shard_key {
            Some(k) => Some(k.as_slice()),
            None => None,
        };
        let s = pick_shard(payload, key, self.shards.len());
        let mut q = self.take(s);
        let (local, ops) = q.enqueue_opts_replicated_at(payload, options, now);
        self.put_back(s, q, Ghost(before));
        Ok((JobId(encode_global_id(s, local.0)), ShardedReplication { shard: s, ops }))
    }

    /// Enqueue on the routed shard at `now`; the global job id and the shard's operations.
    pub fn enqueue_opts_replicated_at(&mut self, payload: &[u8], options: EnqueueOptions, now: u64) -> (r: Result<
        (JobId, Vec<QueueReplicateOp>),
        QueueError,
    >)
        requires
            old(self).wf(),
            old(self).models()[route(payload@, options, old(self).models().len())].next_job_id < u64::MAX,
        ensures
            final(self).wf(),
            final(self).timeouts() == old(self).timeouts(),
            enqueue_outcome(old(self).models(), payload@, options, now, r, final(self).models()),
    {
        match self.enqueue_opts_replicated_sharded_at(payload, options, now) {
            Ok((id, rep)) => Ok((id, rep.ops)),
            Err(e) => Err(e),
        }
    }

    /// The shard a global id names, or the invalid-index error.
    fn shard_of_id(&self, id: u64) -> (r: Result<(usize, u64), QueueError>)
        requires
            self.wf(),
        ensures
            match r {
                Ok((s, local)) => s == shard_part(id) && s < self.models().len() && local == local_part(id),
                Err(e) => shard_part(id) >= self.models().len() && is_invalid_shard(e, shard_part(id)),
            },
    {
        let (s, local) = decode_global_id(id);
        if s < self.shards.len() {
            Ok((s, local))
        } else {
            let mut m = String::from_str("invalid shard index ");
            let d = decimal_text(s);
            m.append(d.as_str());
            proof {
                reveal_strlit("invalid shard index ");
            }
            Err(QueueError::Backend(m))
        }
    }

    /// Acknowledge a lease at `now` on the shard its id names.
    pub fn ack_replicated_sharded_at(&mut self, worker: WorkerId, lease_id: LeaseId, now: u64) -> (r: Result<
        ShardedReplication,
        QueueError,
    >)
        requires
            old(self).wf(),
        ensures
            final(self).wf(),
            final(self).timeouts() == old(self).timeouts(),
            ack_sharded_outcome(old(self).models(), worker, lease_id, now, r, final(self).models()),
    {
        let ghost before = self.shards@;
        let (s, local) = match self.shard_of_id(lease_id.0) {
            Ok(x) => x,
            Err(e) => {
                return Err(e);
            },
        };
        let mut q = self.take(s);
        let res = q.ack_replicated_at(worker, LeaseId(local), now);
        self.put_back(s, q, Ghost(before));
        match res {
            Ok(ops) => Ok(ShardedReplication { shard: s, ops }),
            Err(e) => Err(e),
        }
    }

    /// Return a lease at `now` on the shard its id names.
    pub fn nack_replicated_sharded_at(&mut self, worker: WorkerId, lease_id: LeaseId, now: u64) -> (r: Result<
        ShardedReplication,
        QueueError,
    >)
        requires
            old(self).wf(),
        ensures
            final(self).wf(),
            final(self).timeouts() == old(self).timeouts(),
            nack_sharded_outcome(old(self).models(), worker, lease_id, now, r, final(self).models()),
    {
        let ghost before = self.shards@;
        let (s, local) = match self.shard_of_id(lease_id.0) {
            Ok(x) => x,
            Err(e) => {
                return Err(e);
            },
        };
        let mut q = self.take(s);
        let res = q.nack_replicated_at(worker, LeaseId(local), now);
        self.put_back(s, q, Ghost(before));
        match res {
            Ok(ops) => Ok(ShardedReplication { shard: s, ops }),
            Err(e) => Err(e),
        }
    }

    /// Move a dead-lettered job back to pending at `now`, on the shard its id names.
    pub fn requeue_dead_letter_at(&mut self, job_id: JobId, now: u64) -> (r: Result<(), QueueError>)
        requires
            old(self).wf(),
        ensures
            final(self).wf(),
            final(self).timeouts() == old(self).timeouts(),
            requeue_outcome(old(self).models(), job_id, now, r, final(self).models()),
    {
        let ghost before = self.shards@;
        let (s, local) = match self.shard_of_id(job_id.0) {
            Ok(x) => x,
            Err(e) => {
                return Err(e);
            },
        };
        let mut q = self.take(s);
        let res = q.requeue_dead_letter_replicated_at(JobId(local), now);
        self.put_back(s, q, Ghost(before));
        match res {
            Ok(_) => Ok(()),
            Err(e) => Err(e),
        }
    }

    /// Status of a job at `now`, from the shard its id names, reported under the global id.
    pub fn job_status_at(&mut self, job_id: JobId, now: u64) -> (r: Result<Option<JobStatus>, QueueError>)
        requires
            old(self).wf(),
        ensures
            final(self).wf(),
            final(self).timeouts() == old(self).timeouts(),
            status_outcome(old(self).models(), job_id, now, r, final(self).models()),
    {
        let ghost before = self.shards@;
        let (s, local) = match self.shard_of_id(job_id.0) {
            Ok(x) => x,
            Err(e) => {
                return Err(e);
            },
        };
        let mut q = self.take(s);
        let st = q.job_status_at(JobId(local), now);
        self.put_back(s, q, Ghost(before));
        match st {
            Some(x) => {
                let mut y = x;
                y.job_id = job_id;
                Ok(Some(y))
            },
            None => Ok(None),
        }
    }

    /// A federation does not apply replicated operations itself; its shards do.
    pub fn apply_replicate(&self, op: &QueueReplicateOp) -> (r: Result<(), QueueError>)
        ensures
            r matches Err(e) && e matches QueueError::Backend(m) && m@ == "ShardedJobQueue does not apply replication directly"@,
    {
        Err(QueueError::Backend(String::from_str("ShardedJobQueue does not apply replication directly")))
    }
}


/// Room for `n` more leases on a shard without its lease ids running out.
pub open spec fn lease_room(m: QueueModel) -> bool {
    m.next_lease_id + m.pending.len() + m.leases.len() <= u64::MAX
}

/// Grants of shard `k` when `n` jobs are still wanted (none when none are).
pub open spec fn shard_grants(olds: Seq<QueueModel>, ts: Seq<u64>, worker: WorkerId, now: u64, k: nat, n: nat) -> Seq<LeaseEntry> {
    if n == 0 {
        Seq::empty()
    } else {
        lease_spec(olds[k as int], worker, n, now, ts[k as int]).1
    }
}

/// Jobs still wanted when shard `k` is reached by a lease of up to `max`
/// jobs that visits the shards in order.
pub open spec fn lease_need(olds: Seq<QueueModel>, ts: Seq<u64>, worker: WorkerId, max: nat, now: u64, k: nat) -> nat
    decreases k,
{
    if k == 0 {
        max
    } else {
        let j = (k - 1) as nat;
        let n = lease_need(olds, ts, worker, max, now, j);
        let g = shard_grants(olds, ts, worker, now, j, n).len();
        if n >= g { (n - g) as nat } else { 0 }
    }
}

/// Shard `k` after such a lease: leased from when jobs were still wanted, untouched otherwise.
pub open spec fn shard_after_lease(olds: Seq<QueueModel>, ts: Seq<u64>, worker: WorkerId, max: nat, now: u64, k: nat) -> QueueModel {
    let n = lease_need(olds, ts, worker, max, now, k);
    if n == 0 {
        olds[k as int]
    } else {
        lease_spec(olds[k as int], worker, n, now, ts[k as int]).0
    }
}

/// Every grant of the shards before `k`, tagged with its shard, in order.
pub open spec fn grants_upto(olds: Seq<QueueModel>, ts: Seq<u64>, worker: WorkerId, max: nat, now: u64, k: nat) -> Seq<(int, LeaseEntry)>
    decreases k,
{
    if k == 0 {
        Seq::empty()
    } else {
        let j = (k - 1) as nat;
        grants_upto(olds, ts, worker, max, now, j) + shard_grants(olds, ts, worker, now, j, lease_need(olds, ts, worker, max, now, j)).map_values(
            |g: LeaseEntry| (j as int, g),
        )
    }
}

/// The shards before `k` that granted leases, ascending.
pub open spec fn granting_shards(olds: Seq<QueueModel>, ts: Seq<u64>, worker: WorkerId, max: nat, now: u64, k: nat) -> Seq<int>
    decreases k,
{
    if k == 0 {
        Seq::empty()
    } else {
        let j = (k - 1) as nat;
        let prev = granting_shards(olds, ts, worker, max, now, j);
        if shard_grants(olds, ts, worker, now, j, lease_need(olds, ts, worker, max, now, j)).len() > 0 {
            prev.push(j as int)
        } else {
            prev
        }
    }
}

/// `job` is grant `t` under global ids, with its payload from the shard.
pub open spec fn is_global_lease(job: LeasedJob, t: (int, LeaseEntry), olds: Seq<QueueModel>, now: u64) -> bool {
    &&& job.lease_id.0 == encode_spec(t.0 as u64, t.1.lease_id)
    &&& job.job_id.0 == encode_spec(t.0 as u64, t.1.job_id)
    &&& job.payload@ == reclaim(olds[t.0], now).jobs[t.1.job_id].payload
}

/// Gauges summed over the shards before `k` (counts saturate); the oldest age is the largest.
pub open spec fn metrics_total(olds: Seq<QueueModel>, now: u64, k: nat) -> QueueMetrics
    decreases k,
{
    if k == 0 {
        QueueMetrics { pending: 0, leased: 0, dead_letter: 0, oldest_pending_age: 0 }
    } else {
        let t = metrics_total(olds, now, (k - 1) as nat);
        let m = metrics_spec(olds[k - 1], now).1;
        QueueMetrics {
            pending: sat_add_u64(t.pending, m.pending),
            leased: sat_add_u64(t.leased, m.leased),
            dead_letter: sat_add_u64(t.dead_letter, m.dead_letter),
            oldest_pending_age: if m.oldest_pending_age > t.oldest_pending_age { m.oldest_pending_age } else { t.oldest_pending_age },
        }
    }
}

impl ShardedJobQueue {
    /// Lease up to `max` jobs at `now` from shard `shard` alone, under global ids.
    pub fn lease_shard_replicated_at(&mut self, shard: usize, worker: WorkerId, max: usize, now: u64) -> (r: Result<
        (Vec<LeasedJob>, ShardedReplication),
        QueueError,
    >)
        requires
            old(self).wf(),
            shard < old(self).models().len() ==> lease_room(old(self).models()[shard as int]),
        ensures
            final(self).wf(),
            final(self).timeouts() == old(self).timeouts(),
            lease_shard_outcome(old(self).models(), old(self).timeouts(), shard, worker, max, now, r, final(self).models()),
    {
        if shard >= self.shards.len() {
            let mut m = String::from_str("invalid shard index ");
            let d = decimal_text(shard);
            m.append(d.as_str());
            proof {
                reveal_strlit("invalid shard index ");
            }
            return Err(QueueError::Backend(m));
        }
        let ghost before = self.shards@;
        let ghost olds = self.models();
        let ghost ts = self.timeouts();
        let mut q = self.take(shard);
        proof {
            assert(q@ == before.map_values(|x: InMemoryJobQueue| x@)[shard as int]);
            assert(q.lease_timeout() == before.map_values(|x: InMemoryJobQueue| x.lease_timeout())[shard as int]);
            assert(q@ == olds[shard as int]);
            assert(q.lease_timeout() == ts[shard as int]);
        }
        let (jobs, ops) = q.lease_replicated_at(worker, max, now);
        self.put_back(shard, q, Ghost(before));
        let ghost jv = jobs@;
        let ghost opsv = ops@;
        let out = self.globalize(shard, jobs, Ghost(olds), Ghost(now));
        proof {
            let g = lease_spec(olds[shard as int], worker, max as nat, now, ts[shard as int]).1;
            assert(out@.len() == g.len());
            assert(opsv.len() == g.len());
            assert forall|k: int| 0 <= k < g.len() implies is_lease_op(#[trigger] opsv[k], g[k]) by {
                assert(jv[k].lease_id.0 == g[k].lease_id);
            }
            assert forall|k: int| 0 <= k < g.len() implies is_global_lease(#[trigger] out@[k], (shard as int, g[k]), olds, now) by {
                assert(jv[k].lease_id.0 == g[k].lease_id);
                assert(out@[k].lease_id.0 == encode_spec(shard as u64, jv[k].lease_id.0));
            }
            assert(self.models() =~= olds.update(shard as int, lease_spec(olds[shard as int], worker, max as nat, now, ts[shard as int]).0));
        }
        Ok((out, ShardedReplication { shard, ops }))
    }

    /// Shard-local leased jobs under global ids.
    fn globalize(&self, shard: usize, jobs: Vec<LeasedJob>, Ghost(olds): Ghost<Seq<QueueModel>>, Ghost(now): Ghost<u64>) -> (out: Vec<LeasedJob>)
        ensures
            out@.len() == jobs@.len(),
            forall|k: int|
                0 <= k < jobs@.len() ==> {
                    &&& (#[trigger] out@[k]).lease_id.0 == encode_spec(shard as u64, jobs@[k].lease_id.0)
                    &&& out@[k].job_id.0 == encode_spec(shard as u64, jobs@[k].job_id.0)
                    &&& out@[k].payload@ == jobs@[k].payload@
                },
    {
        let ghost orig = jobs@;
        let mut rest = jobs;
        let mut out: Vec<LeasedJob> = Vec::new();
        while rest.len() > 0
            invariant
                out@.len() + rest@.len() == orig.len(),
                rest@ == orig.skip(out@.len() as int),
                forall|k: int|
                    0 <= k < out@.len() ==> {
                        &&& (#[trigger] out@[k]).lease_id.0 == encode_spec(shard as u64, orig[k].lease_id.0)
                        &&& out@[k].job_id.0 == encode_spec(shard as u64, orig[k].job_id.0)
                        &&& out@[k].payload@ == orig[k].payload@
                    },
            decreases rest@.len(),
        {
            let ghost n = out@.len() as int;
            let job = rest.remove(0);
            proof {
                assert(job == orig[n]);
                assert(rest@ =~= orig.skip(n + 1));
            }
            out.push(
                LeasedJob {
                    lease_id: LeaseId(encode_global_id(shard, job.lease_id.0)),
                    job_id: JobId(encode_global_id(shard, job.job_id.0)),
                    payload: job.payload,
                },
            );
        }
        out
    }

    /// Lease up to `max` jobs at `now`, visiting the shards in order until
    /// enough are leased; each shard that granted leases reports its operations.
    #[verifier::rlimit(60)]
    pub fn lease_replicated_sharded_at(&mut self, worker: WorkerId, max: usize, now: u64) -> (r: Result<
        (Vec<LeasedJob>, Vec<ShardedReplication>),
        QueueError,
    >)
        requires
            old(self).wf(),
            forall|i: int| 0 <= i < old(self).models().len() ==> lease_room(#[trigger] old(self).models()[i]),
        ensures
            final(self).wf(),
            final(self).timeouts() == old(self).timeouts(),
            lease_sharded_outcome(old(self).models(), old(self).timeouts(), worker, max, now, r, final(self).models()),
    {
        let ghost olds = self.models();
        let ghost ts = self.timeouts();
        let ghost mx = max as nat;
        let n = self.shards.len();
        let mut need: usize = max;
        let mut out: Vec<LeasedJob> = Vec::new();
        let mut reps: Vec<ShardedReplication> = Vec::new();
        let mut k: usize = 0;
        while k < n
            invariant
                self.wf(),
                n == olds.len(),
                self.models().len() == n,
                self.timeouts() == ts,
                ts.len() == n,
                forall|i: int| 0 <= i < n ==> lease_room(#[trigger] olds[i]),
                0 <= k <= n,
                need as nat == lease_need(olds, ts, worker, mx, now, k as nat),
                forall|i: int| 0 <= i < k ==> #[trigger] self.models()[i] == shard_after_lease(olds, ts, worker, mx, now, i as nat),
                forall|i: int| k <= i < n ==> #[trigger] self.models()[i] == olds[i],
                out@.len() == grants_upto(olds, ts, worker, mx, now, k as nat).len(),
                forall|x: int|
                    0 <= x < out@.len() ==> is_global_lease(#[trigger] out@[x], grants_upto(olds, ts, worker, mx, now, k as nat)[x], olds, now),
                reps@.len() == granting_shards(olds, ts, worker, mx, now, k as nat).len(),
                forall|x: int|
                    0 <= x < reps@.len() ==> {
                        let gs = granting_shards(olds, ts, worker, mx, now, k as nat);
                        let g = shard_grants(olds, ts, worker, now, gs[x] as nat, lease_need(olds, ts, worker, mx, now, gs[x] as nat));
                        &&& (#[trigger] reps@[x]).shard == gs[x]
                        &&& reps@[x].ops@.len() == g.len()
                        &&& forall|y: int| 0 <= y < g.len() ==> is_lease_op(#[trigger] reps@[x].ops@[y], g[y])
                    },
            decreases n - k,
        {
            let ghost kk = k as nat;
            let ghost out0 = out@;
            let ghost reps0 = reps@;
            let ghost prev_models = self.models();
            if need > 0 {
                let ghost before = self.shards@;
                let mut q = self.take(k);
                proof {
                    assert(q@ == before.map_values(|x: InMemoryJobQueue| x@)[k as int]);
                    assert(q@ == prev_models[k as int]);
                    assert(q@ == olds[k as int]);
                    assert(q.lease_timeout() == ts[k as int]) by {
                        assert(q.lease_timeout() == before.map_values(|x: InMemoryJobQueue| x.lease_timeout())[k as int]);
                    }
                }
                let ghost need0 = need as nat;
                let (jobs, ops) = q.lease_replicated_at(worker, need, now);
                let ghost opsv = ops@;
                let ghost jv = jobs@;
                let got = jobs.len();
                self.put_back(k, q, Ghost(before));
                let ghost g = lease_spec(olds[k as int], worker, need as nat, now, ts[k as int]).1;
                let mapped = self.globalize(k, jobs, Ghost(olds), Ghost(now));
                let mut mapped = mapped;
                out.append(&mut mapped);
                if ops.len() > 0 {
                    reps.push(ShardedReplication { shard: k, ops });
                }
                need = if need >= got { need - got } else { 0 };
                proof {
                    let gu = grants_upto(olds, ts, worker, mx, now, kk);
                    let gu1 = grants_upto(olds, ts, worker, mx, now, kk + 1);
                    assert(shard_grants(olds, ts, worker, now, kk, lease_need(olds, ts, worker, mx, now, kk)) == g);
                    assert(gu1 == gu + g.map_values(|e: LeaseEntry| (k as int, e)));
                    assert forall|x: int| 0 <= x < out@.len() implies is_global_lease(#[trigger] out@[x], gu1[x], olds, now) by {
                        if x < out0.len() {
                            assert(out@[x] == out0[x]);
                        } else {
                            assert(gu1[x] == (k as int, g[x - out0.len()]));
                        }
                    }
                    assert forall|i: int| 0 <= i < n implies #[trigger] self.models()[i] == (if i == k {
                        shard_after_lease(olds, ts, worker, mx, now, i as nat)
                    } else {
                        prev_models[i]
                    }) by {}
                    let gs = granting_shards(olds, ts, worker, mx, now, kk);
                    let gs1 = granting_shards(olds, ts, worker, mx, now, kk + 1);
                    if g.len() > 0 {
                        assert(gs1 == gs.push(k as int));
                        assert(reps@.last().shard == k);
                    } else {
                        assert(gs1 == gs);
                    }
                    assert forall|x: int| 0 <= x < reps@.len() implies {
                        let g2 = shard_grants(olds, ts, worker, now, gs1[x] as nat, lease_need(olds, ts, worker, mx, now, gs1[x] as nat));
                        &&& (#[trigger] reps@[x]).shard == gs1[x]
                        &&& reps@[x].ops@.len() == g2.len()
                        &&& forall|y: int| 0 <= y < g2.len() ==> is_lease_op(#[trigger] reps@[x].ops@[y], g2[y])
                    } by {
                        if x < reps0.len() {
                            assert(reps@[x] == reps0[x]);
                            assert(gs1[x] == gs[x]);
                        } else {
                            assert(reps@[x].ops@ == opsv);
                            assert(gs1[x] == k as int);
                            assert(lease_need(olds, ts, worker, mx, now, kk) == need0);
                            assert(shard_grants(olds, ts, worker, now, kk, need0) == g);
                            assert forall|y: int| 0 <= y < g.len() implies is_lease_op(#[trigger] reps@[x].ops@[y], g[y]) by {
                                assert(reps@[x].ops@[y] == opsv[y]);
                                assert(jv[y].lease_id.0 == g[y].lease_id);
                            }
                        }
                    }
                }
            } else {
                proof {
                    assert(grants_upto(olds, ts, worker, mx, now, kk + 1) =~= grants_upto(olds, ts, worker, mx, now, kk));
                    assert(granting_shards(olds, ts, worker, mx, now, kk + 1) == granting_shards(olds, ts, worker, mx, now, kk));
                }
            }
            k = k + 1;
        }
        Ok((out, reps))
    }

    /// Gauges at `now` summed over the shards (counts saturate); the oldest
    /// pending age is the largest.
    pub fn metrics_at(&mut self, now: u64) -> (r: Result<QueueMetrics, QueueError>)
        requires
            old(self).wf(),
        ensures
            final(self).wf(),
            final(self).timeouts() == old(self).timeouts(),
            metrics_outcome(old(self).models(), now, r, final(self).models()),
    {
        let ghost olds = self.models();
        let ghost ts = self.timeouts();
        let n = self.shards.len();
        let mut total = QueueMetrics { pending: 0, leased: 0, dead_letter: 0, oldest_pending_age: 0 };
        let mut k: usize = 0;
        while k < n
            invariant
                self.wf(),
                n == olds.len(),
                self.models().len() == n,
                self.timeouts() == ts,
                0 <= k <= n,
                total == metrics_total(olds, now, k as nat),
                forall|i: int| 0 <= i < k ==> #[trigger] self.models()[i] == metrics_spec(olds[i], now).0,
                forall|i: int| k <= i < n ==> #[trigger] self.models()[i] == olds[i],
            decreases n - k,
        {
            let ghost before = self.shards@;
            let ghost prev_models = self.models();
            let mut q = self.take(k);
            proof {
                assert(q@ == before.map_values(|x: InMemoryJobQueue| x@)[k as int]);
                assert(q.lease_timeout() == before.map_values(|x: InMemoryJobQueue| x.lease_timeout())[k as int]);
            }
            let m = q.metrics_at(now);
            self.put_back(k, q, Ghost(before));
            total = QueueMetrics {
                pending: saturating_add_u64(total.pending, m.pending),
                leased: saturating_add_u64(total.leased, m.leased),
                dead_letter: saturating_add_u64(total.dead_letter, m.dead_letter),
                oldest_pending_age: if m.oldest_pending_age > total.oldest_pending_age { m.oldest_pending_age } else { total.oldest_pending_age },
            };
            proof {
                assert forall|i: int| 0 <= i < n implies #[trigger] self.models()[i] == (if i == k {
                    metrics_spec(olds[i], now).0
                } else {
                    prev_models[i]
                }) by {}
            }
            k = k + 1;
        }
        Ok(total)
    }
}


impl ShardedJobQueue {
    /// Lease up to `max` jobs at `now`, visiting the shards in order until
    /// enough are leased; the operations of all shards, in shard order.
    #[verifier::rlimit(60)]
    pub fn lease_replicated_at(&mut self, worker: WorkerId, max: usize, now: u64) -> (r: Result<
        (Vec<LeasedJob>, Vec<QueueReplicateOp>),
        QueueError,
    >)
        requires
            old(self).wf(),
            forall|i: int| 0 <= i < old(self).models().len() ==> lease_room(#[trigger] old(self).models()[i]),
        ensures
            final(self).wf(),
            final(self).timeouts() == old(self).timeouts(),
            lease_outcome(old(self).models(), old(self).timeouts(), worker, max, now, r, final(self).models()),
    {
        let ghost olds = self.models();
        let ghost ts = self.timeouts();
        let ghost mx = max as nat;
        let n = self.shards.len();
        let mut need: usize = max;
        let mut out: Vec<LeasedJob> = Vec::new();
        let mut all_ops: Vec<QueueReplicateOp> = Vec::new();
        let mut k: usize = 0;
        while k < n
            invariant
                self.wf(),
                n == olds.len(),
                self.models().len() == n,
                self.timeouts() == ts,
                ts.len() == n,
                forall|i: int| 0 <= i < n ==> lease_room(#[trigger] olds[i]),
                0 <= k <= n,
                need as nat == lease_need(olds, ts, worker, mx, now, k as nat),
                forall|i: int| 0 <= i < k ==> #[trigger] self.models()[i] == shard_after_lease(olds, ts, worker, mx, now, i as nat),
                forall|i: int| k <= i < n ==> #[trigger] self.models()[i] == olds[i],
                out@.len() == grants_upto(olds, ts, worker, mx, now, k as nat).len(),
                forall|x: int|
                    0 <= x < out@.len() ==> is_global_lease(#[trigger] out@[x], grants_upto(olds, ts, worker, mx, now, k as nat)[x], olds, now),
                all_ops@.len() == out@.len(),
                forall|x: int|
                    0 <= x < all_ops@.len() ==> is_lease_op(#[trigger] all_ops@[x], grants_upto(olds, ts, worker, mx, now, k as nat)[x].1),
            decreases n - k,
        {
            let ghost kk = k as nat;
            let ghost out0 = out@;
            let ghost ops0 = all_ops@;
            let ghost prev_models = self.models();
            if need > 0 {
                let ghost before = self.shards@;
                let mut q = self.take(k);
                proof {
                    assert(q@ == before.map_values(|x: InMemoryJobQueue| x@)[k as int]);
                    assert(q@ == prev_models[k as int]);
                    assert(q.lease_timeout() == before.map_values(|x: InMemoryJobQueue| x.lease_timeout())[k as int]);
                }
                let (jobs, ops) = q.lease_replicated_at(worker, need, now);
                let ghost opsv = ops@;
                let ghost jv = jobs@;
                let got = jobs.len();
                self.put_back(k, q, Ghost(before));
                let ghost g = lease_spec(olds[k as int], worker, need as nat, now, ts[k as int]).1;
                let mut mapped = self.globalize(k, jobs, Ghost(olds), Ghost(now));
                out.append(&mut mapped);
                let mut ops = ops;
                all_ops.append(&mut ops);
                need = if need >= got { need - got } else { 0 };
                proof {
                    let gu = grants_upto(olds, ts, worker, mx, now, kk);
                    let gu1 = grants_upto(olds, ts, worker, mx, now, kk + 1);
                    assert(gu1 == gu + g.map_values(|e: LeaseEntry| (k as int, e)));
                    assert forall|x: int| 0 <= x < out@.len() implies is_global_lease(#[trigger] out@[x], gu1[x], olds, now) by {
                        if x < out0.len() {
                            assert(out@[x] == out0[x]);
                        } else {
                            assert(gu1[x] == (k as int, g[x - out0.len()]));
                        }
                    }
                    assert forall|x: int| 0 <= x < all_ops@.len() implies is_lease_op(#[trigger] all_ops@[x], gu1[x].1) by {
                        if x < ops0.len() {
                            assert(all_ops@[x] == ops0[x]);
                        } else {
                            let y = x - ops0.len();
                            assert(all_ops@[x] == opsv[y]);
                            assert(jv[y].lease_id.0 == g[y].lease_id);
                            assert(gu1[x] == (k as int, g[y]));
                        }
                    }
                    assert forall|i: int| 0 <= i < n implies #[trigger] self.models()[i] == (if i == k {
                        shard_after_lease(olds, ts, worker, mx, now, i as nat)
                    } else {
                        prev_models[i]
                    }) by {}
                }
            } else {
                proof {
                    assert(grants_upto(olds, ts, worker, mx, now, kk + 1) =~= grants_upto(olds, ts, worker, mx, now, kk));
                }
            }
            k = k + 1;
        }
        Ok((out, all_ops))
    }
}


/// Two option sets the queue reads alike.
pub open spec fn same_options(a: EnqueueOptions, b: EnqueueOptions) -> bool {
    &&& a.priority == b.priority
    &&& a.not_before_ms == b.not_before_ms
    &&& opt_bytes_view(a.shard_key) == opt_bytes_view(b.shard_key)
    &&& opt_bytes_view(a.dedup_key) == opt_bytes_view(b.dedup_key)
    &&& a.max_attempts == b.max_attempts
}

/// Options read alike route, enqueue and replicate alike.
pub proof fn lemma_same_options(a: EnqueueOptions, b: EnqueueOptions)
    requires
        same_options(a, b),
    ensures
        forall|p: Seq<u8>, n: nat| #[trigger] route(p, a, n) == route(p, b, n),
        forall|m: QueueModel, p: Seq<u8>, now: u64| #[trigger] enqueue_spec(m, p, a, now) == enqueue_spec(m, p, b, now),
        forall|op: QueueReplicateOp, id: u64, p: Seq<u8>, now: u64| #[trigger] is_enqueue_op(op, id, p, a, now) == is_enqueue_op(op, id, p, b, now),
{
}

/// Shards and global ids after enqueueing the first `k` jobs of a batch at
/// `now`, each on its routed shard, in input order.
pub open spec fn batch_run(olds: Seq<QueueModel>, jobs: Seq<(Vec<u8>, EnqueueOptions)>, now: u64, k: nat) -> (Seq<QueueModel>, Seq<u64>)
    decreases k,
{
    if k == 0 {
        (olds, Seq::empty())
    } else {
        let (ms, ids) = batch_run(olds, jobs, now, (k - 1) as nat);
        let j = jobs[k - 1];
        let s = route(j.0@, j.1, olds.len());
        let (m, local) = enqueue_spec(ms[s], j.0@, j.1, now);
        (ms.update(s, m), ids.push(encode_spec(s as u64, local)))
    }
}

/// `o` is what enqueueing job `k` of the batch replicates: nothing for a
/// duplicate, otherwise its enqueue operation.
pub open spec fn job_ops_ok(olds: Seq<QueueModel>, jobs: Seq<(Vec<u8>, EnqueueOptions)>, now: u64, k: int, o: Seq<QueueReplicateOp>) -> bool {
    let ms = batch_run(olds, jobs, now, k as nat).0;
    let j = jobs[k];
    let s = route(j.0@, j.1, olds.len());
    let (m, local) = enqueue_spec(ms[s], j.0@, j.1, now);
    &&& o.len() == 0 || (o.len() == 1 && is_enqueue_op(o[0], local, j.0@, j.1, now))
    &&& (o.len() == 0 <==> m == reclaim(ms[s], now))
}

/// Operations of the jobs before `k` routed to shard `s`, in input order.
pub open spec fn routed_ops(
    olds: Seq<QueueModel>,
    jobs: Seq<(Vec<u8>, EnqueueOptions)>,
    jo: Seq<Seq<QueueReplicateOp>>,
    s: int,
    k: nat,
) -> Seq<QueueReplicateOp>
    decreases k,
{
    if k == 0 {
        Seq::empty()
    } else {
        let prev = routed_ops(olds, jobs, jo, s, (k - 1) as nat);
        if route(jobs[k - 1].0@, jobs[k - 1].1, olds.len()) == s {
            prev + jo[k - 1]
        } else {
            prev
        }
    }
}

/// Shards below `s` that replicate something, ascending.
pub open spec fn shards_with_ops(olds: Seq<QueueModel>, jobs: Seq<(Vec<u8>, EnqueueOptions)>, jo: Seq<Seq<QueueReplicateOp>>, s: nat) -> Seq<int>
    decreases s,
{
    if s == 0 {
        Seq::empty()
    } else {
        let prev = shards_with_ops(olds, jobs, jo, (s - 1) as nat);
        if routed_ops(olds, jobs, jo, (s - 1) as int, jobs.len()).len() > 0 {
            prev.push((s - 1) as int)
        } else {
            prev
        }
    }
}

/// A batch run keeps the shard count, and each job adds at most one to a shard's id counter.
pub proof fn lemma_batch_run_bounds(olds: Seq<QueueModel>, jobs: Seq<(Vec<u8>, EnqueueOptions)>, now: u64, k: nat)
    requires
        0 < olds.len() <= usize::MAX,
        k <= jobs.len(),
    ensures
        batch_run(olds, jobs, now, k).0.len() == olds.len(),
        batch_run(olds, jobs, now, k).1.len() == k,
        forall|i: int| 0 <= i < olds.len() ==> #[trigger] batch_run(olds, jobs, now, k).0[i].next_job_id <= olds[i].next_job_id + k,
    decreases k,
{
    if k > 0 {
        lemma_batch_run_bounds(olds, jobs, now, (k - 1) as nat);
        let (ms, ids) = batch_run(olds, jobs, now, (k - 1) as nat);
        let j = jobs[k - 1];
        let s = route(j.0@, j.1, olds.len());
        crate::sharded::lemma_shard_of_bound(j.0@, opt_bytes_view(j.1.shard_key), olds.len() as usize);
        lemma_enqueue_next_id(ms[s], j.0@, j.1, now);
        let m = enqueue_spec(ms[s], j.0@, j.1, now).0;
        let ms1 = ms.update(s, m);
        assert(batch_run(olds, jobs, now, k).0 == ms1);
        assert forall|i: int| 0 <= i < olds.len() implies #[trigger] ms1[i].next_job_id <= olds[i].next_job_id + k by {
            if i != s {
                assert(ms1[i] == ms[i]);
            }
        }
    }
}

/// An enqueue adds at most one to the id counter.
pub proof fn lemma_enqueue_next_id(m: QueueModel, p: Seq<u8>, o: EnqueueOptions, now: u64)
    ensures
        enqueue_spec(m, p, o, now).0.next_job_id <= m.next_job_id + 1,
{
    lemma_reclaim_upto_frame(m, now, m.leases.len());
}

impl ShardedJobQueue {
    /// Enqueue a batch at `now`, each job on its routed shard, in input order:
    /// the global ids in input order, and one replication per shard that
    /// replicates something, ascending by shard.
    #[verifier::rlimit(60)]
    pub fn enqueue_batch_opts_replicated_sharded_at(&mut self, jobs: &[(Vec<u8>, EnqueueOptions)], now: u64) -> (r: Result<
        (Vec<JobId>, Vec<ShardedReplication>),
        QueueError,
    >)
        requires
            old(self).wf(),
            forall|i: int| 0 <= i < old(self).models().len() ==> #[trigger] old(self).models()[i].next_job_id + jobs@.len() < u64::MAX,
        ensures
            final(self).wf(),
            final(self).timeouts() == old(self).timeouts(),
            batch_enqueue_outcome(old(self).models(), jobs@, now, r, final(self).models()),
    {
        let ghost olds = self.models();
        let ghost ts = self.timeouts();
        let n = self.shards.len();
        let mut per: Vec<Vec<QueueReplicateOp>> = Vec::new();
        let mut s: usize = 0;
        while s < n
            invariant
                0 <= s <= n,
                per@.len() == s,
                forall|x: int| 0 <= x < s ==> (#[trigger] per@[x])@ == Seq::<QueueReplicateOp>::empty(),
            decreases n - s,
        {
            per.push(Vec::new());
            s = s + 1;
        }
        let ghost mut jo: Seq<Seq<QueueReplicateOp>> = Seq::empty();
        let mut ids: Vec<JobId> = Vec::new();
        let mut k: usize = 0;
        while k < jobs.len()
            invariant
                self.wf(),
                n == olds.len(),
                n > 0,
                self.timeouts() == ts,
                forall|i: int| 0 <= i < n ==> #[trigger] olds[i].next_job_id + jobs@.len() < u64::MAX,
                0 <= k <= jobs@.len(),
                self.models() == batch_run(olds, jobs@, now, k as nat).0,
                ids@.len() == k,
                forall|x: int| 0 <= x < k ==> (#[trigger] ids@[x]).0 == batch_run(olds, jobs@, now, k as nat).1[x],
                jo.len() == k,
                forall|x: int| 0 <= x < k ==> job_ops_ok(olds, jobs@, now, x, #[trigger] jo[x]),
                per@.len() == n,
                forall|x: int| 0 <= x < n ==> (#[trigger] per@[x])@ == routed_ops(olds, jobs@, jo, x, k as nat),
            decreases jobs@.len() - k,
        {
            proof {
                lemma_batch_run_bounds(olds, jobs@, now, k as nat);
                lemma_batch_run_bounds(olds, jobs@, now, (k + 1) as nat);
            }
            let job = &jobs[k];
            let opts = copy_options(&job.1);
            proof {
                lemma_same_options(opts, job.1);
                crate::sharded::lemma_shard_of_bound(job.0@, opt_bytes_view(job.1.shard_key), n);
            }
            let ghost per0 = per@;
            let ghost jo0 = jo;
            let ghost ms0 = self.models();
            let ghost ids0 = ids@;
            match self.enqueue_opts_replicated_sharded_at(job.0.as_slice(), opts, now) {
                Ok((id, rep)) => {
                    ids.push(id);
                    let ghost o = rep.ops@;
                    let sh = rep.shard;
                    let mut v = per.remove(sh);
                    let mut ops = rep.ops;
                    v.append(&mut ops);
                    per.insert(sh, v);
                    proof {
                        jo = jo.push(o);
                        let bk = batch_run(olds, jobs@, now, (k + 1) as nat);
                        assert(bk.1 == batch_run(olds, jobs@, now, k as nat).1.push(id.0));
                        assert forall|x: int| 0 <= x < k + 1 implies (#[trigger] ids@[x]).0 == bk.1[x] by {
                            if x < k {
                                assert(ids@[x] == ids0[x]);
                            }
                        }
                        assert(job_ops_ok(olds, jobs@, now, k as int, o));
                        assert forall|x: int| 0 <= x < k implies job_ops_ok(olds, jobs@, now, x, #[trigger] jo[x]) by {
                            assert(jo[x] == jo.drop_last()[x]);
                        }
                        assert(jo.subrange(0, k as int) =~= jo0);
                        assert forall|x: int| 0 <= x < n implies (#[trigger] per@[x])@ == routed_ops(olds, jobs@, jo, x, (k + 1) as nat) by {
                            lemma_routed_ops_prefix_sub(olds, jobs@, jo, k as int, x, k as nat);
                            if x == sh as int {
                                assert(per@[x]@ =~= per0[x]@ + o);
                            } else {
                                assert(per@[x] == per0[x]);
                            }
                        }
                    }
                },
                Err(e) => {
                    return Err(e);
                },
            }
            k = k + 1;
        }
        let mut reps: Vec<ShardedReplication> = Vec::new();
        let ghost per_all = per@;
        let mut s: usize = 0;
        while s < n
            invariant
                0 <= s <= n,
                n == olds.len(),
                jo.len() == jobs@.len(),
                per_all.len() == n,
                per@ == per_all.skip(s as int),
                forall|x: int| 0 <= x < n ==> (#[trigger] per_all[x])@ == routed_ops(olds, jobs@, jo, x, jobs@.len()),
                reps@.len() == shards_with_ops(olds, jobs@, jo, s as nat).len(),
                forall|x: int|
                    0 <= x < reps@.len() ==> {
                        let t = shards_with_ops(olds, jobs@, jo, s as nat)[x];
                        &&& (#[trigger] reps@[x]).shard == t
                        &&& reps@[x].ops@ == routed_ops(olds, jobs@, jo, t, jobs@.len())
                    },
            decreases n - s,
        {
            let ghost reps0 = reps@;
            let v = per.remove(0);
            proof {
                assert(v == per_all[s as int]);
                assert(per@ =~= per_all.skip(s + 1));
            }
            if v.len() > 0 {
                reps.push(ShardedReplication { shard: s, ops: v });
            }
            proof {
                let w0 = shards_with_ops(olds, jobs@, jo, s as nat);
                let w1 = shards_with_ops(olds, jobs@, jo, (s + 1) as nat);
                assert forall|x: int| 0 <= x < reps@.len() implies {
                    let t = w1[x];
                    &&& (#[trigger] reps@[x]).shard == t
                    &&& reps@[x].ops@ == routed_ops(olds, jobs@, jo, t, jobs@.len())
                } by {
                    if x < reps0.len() {
                        assert(reps@[x] == reps0[x]);
                    }
                }
            }
            s = s + 1;
        }
        proof {
            lemma_batch_run_bounds(olds, jobs@, now, jobs@.len());
        }
        Ok((ids, reps))
    }
}

/// Operations routed before `k` depend only on the first `k` jobs' operations.
pub proof fn lemma_routed_ops_prefix_sub(
    olds: Seq<QueueModel>,
    jobs: Seq<(Vec<u8>, EnqueueOptions)>,
    jo: Seq<Seq<QueueReplicateOp>>,
    c: int,
    s: int,
    k: nat,
)
    requires
        k <= c <= jo.len(),
    ensures
        routed_ops(olds, jobs, jo, s, k) == routed_ops(olds, jobs, jo.subrange(0, c), s, k),
    decreases k,
{
    if k > 0 {
        lemma_routed_ops_prefix_sub(olds, jobs, jo, c, s, (k - 1) as nat);
        assert(jo.subrange(0, c)[k - 1] == jo[k - 1]);
    }
}

/// An independent copy of `o`.
fn copy_options(o: &EnqueueOptions) -> (c: EnqueueOptions)
    ensures
        same_options(c, *o),
{
    EnqueueOptions {
        priority: o.priority,
        not_before_ms: o.not_before_ms,
        shard_key: match &o.shard_key {
            Some(k) => Some(bytes_to_vec(k.as_slice())),
            None => None,
        },
        dedup_key: match &o.dedup_key {
            Some(k) => Some(bytes_to_vec(k.as_slice())),
            None => None,
        },
        max_attempts: o.max_attempts,
    }
}


/// Shard indices a global id can carry.
pub const SHARD_LIMIT: usize = 256;

/// Lease ids naming shard `s`.
pub open spec fn on_shard(s: int) -> spec_fn(LeaseId) -> bool {
    |l: LeaseId| shard_part(l.0) == s
}

/// Why a batch stopped.
pub enum BatchStop {
    /// A lease id names no shard.
    Invalid(nat),
    /// A shard refused an acknowledgement.
    Queue(QueueError),
}

/// Acknowledge the first `k` of `ls` in order on one shard: the job ids
/// acknowledged, or the first refusal.
pub open spec fn ack_each(m: QueueModel, worker: WorkerId, ls: Seq<LeaseId>, now: u64, k: nat) -> (QueueModel, Result<Seq<u64>, QueueError>)
    decreases k,
{
    if k == 0 {
        (m, Ok(Seq::empty()))
    } else {
        let (m1, r) = ack_each(m, worker, ls, now, (k - 1) as nat);
        match r {
            Err(e) => (m1, Err(e)),
            Ok(js) => {
                let (m2, a) = ack_spec(m1, worker, local_part(ls[k - 1].0), now);
                match a {
                    Ok(j) => (m2, Ok(js.push(j))),
                    Err(e) => (m2, Err(e)),
                }
            },
        }
    }
}

/// A batch of acknowledgements taken shard by shard in ascending order, over
/// the shard indices below `s`: the shards, and per shard its leases and the
/// jobs acknowledged, or why the batch stopped.
pub open spec fn ack_batch_run(olds: Seq<QueueModel>, worker: WorkerId, ids: Seq<LeaseId>, now: u64, s: nat) -> (
    Seq<QueueModel>,
    Result<Seq<(int, Seq<LeaseId>, Seq<u64>)>, BatchStop>,
)
    decreases s,
{
    if s == 0 {
        (olds, Ok(Seq::empty()))
    } else {
        let (ms, r) = ack_batch_run(olds, worker, ids, now, (s - 1) as nat);
        let j = (s - 1) as int;
        let ls = ids.filter(on_shard(j));
        match r {
            Err(e) => (ms, Err(e)),
            Ok(done) => if ls.len() == 0 {
                (ms, Ok(done))
            } else if j >= olds.len() {
                (ms, Err(BatchStop::Invalid(j as nat)))
            } else {
                let (m, a) = ack_each(ms[j], worker, ls, now, ls.len());
                match a {
                    Ok(js) => (ms.update(j, m), Ok(done.push((j, ls, js)))),
                    Err(e) => (ms.update(j, m), Err(BatchStop::Queue(e))),
                }
            },
        }
    }
}

/// The `Ack` operations of leases `ls` acknowledging jobs `js`.
pub open spec fn ack_ops(ls: Seq<LeaseId>, js: Seq<u64>) -> Seq<QueueReplicateOp> {
    Seq::new(ls.len(), |i: int| QueueReplicateOp::Ack { lease_id: local_part(ls[i].0), job_id: js[i] })
}

/// Once a shard refuses, the rest of its leases are left alone.
pub proof fn lemma_ack_each_stops(m: QueueModel, worker: WorkerId, ls: Seq<LeaseId>, now: u64, k: nat, t: nat)
    requires
        k <= t,
        ack_each(m, worker, ls, now, k).1 is Err,
    ensures
        ack_each(m, worker, ls, now, t) == ack_each(m, worker, ls, now, k),
    decreases t - k,
{
    if k < t {
        lemma_ack_each_stops(m, worker, ls, now, k, (t - 1) as nat);
    }
}

/// Once a batch stops, later shards are left alone.
pub proof fn lemma_ack_batch_stops(olds: Seq<QueueModel>, worker: WorkerId, ids: Seq<LeaseId>, now: u64, k: nat, t: nat)
    requires
        k <= t,
        ack_batch_run(olds, worker, ids, now, k).1 is Err,
    ensures
        ack_batch_run(olds, worker, ids, now, t) == ack_batch_run(olds, worker, ids, now, k),
    decreases t - k,
{
    if k < t {
        lemma_ack_batch_stops(olds, worker, ids, now, k, (t - 1) as nat);
    }
}

/// A batch run keeps the shard count.
pub proof fn lemma_ack_batch_len(olds: Seq<QueueModel>, worker: WorkerId, ids: Seq<LeaseId>, now: u64, k: nat)
    ensures
        ack_batch_run(olds, worker, ids, now, k).0.len() == olds.len(),
    decreases k,
{
    if k > 0 {
        lemma_ack_batch_len(olds, worker, ids, now, (k - 1) as nat);
    }
}

impl ShardedJobQueue {
    /// Acknowledge a batch at `now`, shard by shard in ascending shard order,
    /// each shard's leases in input order; one replication per shard.
    #[verifier::rlimit(80)]
    pub fn ack_batch_replicated_sharded_at(&mut self, worker: WorkerId, lease_ids: &[LeaseId], now: u64) -> (r: Result<
        Vec<ShardedReplication>,
        QueueError,
    >)
        requires
            old(self).wf(),
        ensures
            final(self).wf(),
            final(self).timeouts() == old(self).timeouts(),
            batch_ack_outcome(old(self).models(), worker, lease_ids@, now, r, final(self).models()),
    {
        let ghost olds = self.models();
        let ghost ids = lease_ids@;
        let n = self.shards.len();
        let mut all: Vec<LeaseId> = Vec::new();
        let mut c: usize = 0;
        while c < lease_ids.len()
            invariant
                0 <= c <= lease_ids@.len(),
                all@ == lease_ids@.subrange(0, c as int),
            decreases lease_ids@.len() - c,
        {
            all.push(lease_ids[c]);
            c = c + 1;
            assert(all@ =~= lease_ids@.subrange(0, c as int));
        }
        assert(all@ =~= ids);
        let mut reps: Vec<ShardedReplication> = Vec::new();
        let mut s: usize = 0;
        while s < SHARD_LIMIT
            invariant
                self.wf(),
                n == olds.len(),
                self.timeouts() == old(self).timeouts(),
                all@ == ids,
                ids == lease_ids@,
                olds == old(self).models(),
                0 <= s <= SHARD_LIMIT,
                self.models() == ack_batch_run(olds, worker, ids, now, s as nat).0,
                ack_batch_run(olds, worker, ids, now, s as nat).1 matches Ok(done) && reps@.len() == done.len() && forall|x: int|
                    0 <= x < done.len() ==> (#[trigger] reps@[x]).shard == done[x].0 && reps@[x].ops@ == ack_ops(done[x].1, done[x].2),
            decreases SHARD_LIMIT - s,
        {
            let ghost run0 = ack_batch_run(olds, worker, ids, now, s as nat);
            let ghost reps0 = reps@;
            proof {
                lemma_ack_batch_len(olds, worker, ids, now, s as nat);
            }
            let sh = s;
            let ls = crate::retain::filter_copy(
                &all,
                |l: LeaseId| -> (r: bool) ensures r == (shard_part(l.0) == sh as int) {
                    let (d, _) = decode_global_id(l.0);
                    d == sh
                },
                Ghost(on_shard(s as int)),
            );
            if ls.len() > 0 {
                if s >= n {
                    let mut m = String::from_str("invalid shard index ");
                    let d = decimal_text(s);
                    m.append(d.as_str());
                    proof {
                        reveal_strlit("invalid shard index ");
                        assert(ls@.len() > 0);
                        assert(s >= olds.len());
                        assert(ack_batch_run(olds, worker, ids, now, (s + 1) as nat) == (
                            run0.0,
                            Err::<Seq<(int, Seq<LeaseId>, Seq<u64>)>, BatchStop>(BatchStop::Invalid(s as nat)),
                        ));
                        assert(m@ == invalid_shard_message(s as nat));
                        lemma_ack_batch_stops(olds, worker, ids, now, (s + 1) as nat, SHARD_LIMIT as nat);
                        assert(ack_batch_run(olds, worker, ids, now, SHARD_LIMIT as nat).1 == Err::<Seq<(int, Seq<LeaseId>, Seq<u64>)>, BatchStop>(
                            BatchStop::Invalid(s as nat),
                        ));
                        assert(self.models() == ack_batch_run(olds, worker, ids, now, SHARD_LIMIT as nat).0);
                        assert(is_invalid_shard(QueueError::Backend(m), s as nat));
                    }
                    return Err(QueueError::Backend(m));
                }
                let ghost before = self.shards@;
                let ghost m0 = self.models()[s as int];
                proof {
                    assert(before.map_values(|x: InMemoryJobQueue| x@) == self.models());
                    assert(before.map_values(|x: InMemoryJobQueue| x.lease_timeout()) == self.timeouts());
                }
                let mut q = self.take(s);
                proof {
                    assert(q@ == before.map_values(|x: InMemoryJobQueue| x@)[s as int]);
                }
                let mut ops: Vec<QueueReplicateOp> = Vec::new();
                let ghost mut js: Seq<u64> = Seq::empty();
                proof {
                    assert(ops@ =~= ack_ops(ls@.subrange(0, 0), js));
                }
                let mut i: usize = 0;
                while i < ls.len()
                    invariant
                        q.wf(),
                        q.lease_timeout() == before[s as int].lease_timeout(),
                        0 <= i <= ls@.len(),
                        ls@ == ids.filter(on_shard(s as int)),
                        ids == lease_ids@,
                        olds == old(self).models(),
                        n == olds.len(),
                        s < n,
                        before.len() == n,
                        self.shards@ == before.remove(s as int),
                        forall|x: int| 0 <= x < before.len() ==> (#[trigger] before[x]).wf(),
                        before.map_values(|x: InMemoryJobQueue| x@) == ack_batch_run(olds, worker, ids, now, s as nat).0,
                        before.map_values(|x: InMemoryJobQueue| x.lease_timeout()) == old(self).timeouts(),
                        ack_batch_run(olds, worker, ids, now, s as nat) == run0,
                        run0.1 is Ok,
                        m0 == run0.0[s as int],
                        ack_each(m0, worker, ls@, now, i as nat) == (q@, Ok::<Seq<u64>, QueueError>(js)),
                        js.len() == i,
                        ops@ == ack_ops(ls@.subrange(0, i as int), js),
                    decreases ls@.len() - i,
                {
                    let l = ls[i];
                    let (_, local) = decode_global_id(l.0);
                    let ghost qb = q@;
                    let ghost ops0 = ops@;
                    match q.ack_replicated_at(worker, LeaseId(local), now) {
                        Ok(o) => {
                            let ghost ov = o@;
                            let mut o = o;
                            ops.append(&mut o);
                            proof {
                                let j = ack_spec(qb, worker, local_part(ls@[i as int].0), now).1->Ok_0;
                                assert(ov == seq![QueueReplicateOp::Ack { lease_id: local, job_id: j }]);
                                let js0 = js;
                                js = js.push(j);
                                assert(ack_each(m0, worker, ls@, now, (i + 1) as nat) == (q@, Ok::<Seq<u64>, QueueError>(js)));
                                assert(ops@ =~= ops0 + ov);
                                let want = ack_ops(ls@.subrange(0, i + 1), js);
                                assert(ops0 == ack_ops(ls@.subrange(0, i as int), js0));
                                assert forall|k: int| 0 <= k < i + 1 implies ops@[k] == want[k] by {
                                    if k < i {
                                        assert(ops@[k] == ops0[k]);
                                        assert(ls@.subrange(0, i + 1)[k] == ls@.subrange(0, i as int)[k]);
                                        assert(js[k] == js0[k]);
                                        assert(ops0[k] == ack_ops(ls@.subrange(0, i as int), js0)[k]);
                                    } else {
                                        assert(ops@[k] == ov[0]);
                                        assert(ls@.subrange(0, i + 1)[k] == l);
                                        assert(js[k] == j);
                                        assert(local == local_part(l.0));
                                    }
                                }
                                assert(ops@ =~= want);
                            }
                        },
                        Err(e) => {
                            self.put_back(s, q, Ghost(before));
                            proof {
                                assert(ack_each(m0, worker, ls@, now, (i + 1) as nat) == (q@, Err::<Seq<u64>, QueueError>(e)));
                                lemma_ack_each_stops(m0, worker, ls@, now, (i + 1) as nat, ls@.len());
                                assert(ack_batch_run(olds, worker, ids, now, (s + 1) as nat) == (
                                    run0.0.update(s as int, q@),
                                    Err::<Seq<(int, Seq<LeaseId>, Seq<u64>)>, BatchStop>(BatchStop::Queue(e)),
                                ));
                                lemma_ack_batch_stops(olds, worker, ids, now, (s + 1) as nat, SHARD_LIMIT as nat);
                                assert(self.models() =~= ack_batch_run(olds, worker, ids, now, (s + 1) as nat).0);
                            }
                            return Err(e);
                        },
                    }
                    i = i + 1;
                }
                self.put_back(s, q, Ghost(before));
                proof {
                    assert(ls@.subrange(0, ls@.len() as int) =~= ls@);
                    assert(self.models() =~= ack_batch_run(olds, worker, ids, now, (s + 1) as nat).0);
                }
                reps.push(ShardedReplication { shard: s, ops });
                proof {
                    let done1 = ack_batch_run(olds, worker, ids, now, (s + 1) as nat).1->Ok_0;
                    assert forall|x: int| 0 <= x < done1.len() implies (#[trigger] reps@[x]).shard == done1[x].0 && reps@[x].ops@ == ack_ops(
                        done1[x].1,
                        done1[x].2,
                    ) by {
                        if x < reps0.len() {
                            assert(reps@[x] == reps0[x]);
                        }
                    }
                }
            }
            s = s + 1;
        }
        Ok(reps)
    }
}


impl ShardedJobQueue {
    /// Enqueue on the routed shard now (see [`enqueue_sharded_outcome`]).
    pub fn enqueue_opts_replicated_sharded(&mut self, payload: &[u8], options: EnqueueOptions) -> (r: Result<(JobId, ShardedReplication), QueueError>)
        requires
            old(self).wf(),
            old(self).models()[route(payload@, options, old(self).models().len())].next_job_id < u64::MAX,
        ensures
            final(self).wf(),
            final(self).timeouts() == old(self).timeouts(),
            exists|now: u64| #[trigger] enqueue_sharded_outcome(old(self).models(), payload@, options, now, r, final(self).models()),
    {
        self.enqueue_opts_replicated_sharded_at(payload, options, unix_now_ms())
    }

    /// Enqueue on the routed shard now (see [`enqueue_outcome`]).
    pub fn enqueue_opts_replicated(&mut self, payload: &[u8], options: EnqueueOptions) -> (r: Result<(JobId, Vec<QueueReplicateOp>), QueueError>)
        requires
            old(self).wf(),
            old(self).models()[route(payload@, options, old(self).models().len())].next_job_id < u64::MAX,
        ensures
            final(self).wf(),
            final(self).timeouts() == old(self).timeouts(),
            exists|now: u64| #[trigger] enqueue_outcome(old(self).models(), payload@, options, now, r, final(self).models()),
    {
        self.enqueue_opts_replicated_at(payload, options, unix_now_ms())
    }

    /// Enqueue on the routed shard now; the global job id.
    pub fn enqueue_opts(&mut self, payload: &[u8], options: EnqueueOptions) -> (r: Result<JobId, QueueError>)
        requires
            old(self).wf(),
            old(self).models()[route(payload@, options, old(self).models().len())].next_job_id < u64::MAX,
        ensures
            final(self).wf(),
            final(self).timeouts() == old(self).timeouts(),
            exists|now: u64, full: Result<(JobId, Vec<QueueReplicateOp>), QueueError>| #[trigger] enqueue_outcome(old(self).models(), payload@, options, now, full, final(self).models()) && r == id_only(full),
    {
        match self.enqueue_opts_replicated_at(payload, options, unix_now_ms()) {
            Ok((id, _ops)) => Ok(id),
            Err(e) => Err(e),
        }
    }

    /// Enqueue with default options now; the global job id.
    pub fn enqueue(&mut self, payload: &[u8]) -> (r: Result<JobId, QueueError>)
        requires
            old(self).wf(),
            old(self).models()[shard_of(payload@, None, old(self).models().len() as usize)].next_job_id < u64::MAX,
        ensures
            final(self).wf(),
            final(self).timeouts() == old(self).timeouts(),
            exists|now: u64, o: EnqueueOptions, full: Result<(JobId, Vec<QueueReplicateOp>), QueueError>| default_options_spec(o) && #[trigger] enqueue_outcome(old(self).models(), payload@, o, now, full, final(self).models()) && r == id_only(full),
    {
        let o = EnqueueOptions::new();
        match self.enqueue_opts_replicated_at(payload, o, unix_now_ms()) {
            Ok((id, _ops)) => Ok(id),
            Err(e) => Err(e),
        }
    }

    /// Enqueue a batch now (see [`batch_enqueue_outcome`]).
    pub fn enqueue_batch_opts_replicated_sharded(&mut self, jobs: &[(Vec<u8>, EnqueueOptions)]) -> (r: Result<(Vec<JobId>, Vec<ShardedReplication>), QueueError>)
        requires
            old(self).wf(),
            forall|i: int| 0 <= i < old(self).models().len() ==> #[trigger] old(self).models()[i].next_job_id + jobs@.len() < u64::MAX,
        ensures
            final(self).wf(),
            final(self).timeouts() == old(self).timeouts(),
            exists|now: u64| #[trigger] batch_enqueue_outcome(old(self).models(), jobs@, now, r, final(self).models()),
    {
        self.enqueue_batch_opts_replicated_sharded_at(jobs, unix_now_ms())
    }

    /// Lease across the shards now (see [`lease_sharded_outcome`]).
    pub fn lease_replicated_sharded(&mut self, worker: WorkerId, max: usize) -> (r: Result<(Vec<LeasedJob>, Vec<ShardedReplication>), QueueError>)
        requires
            old(self).wf(),
            forall|i: int| 0 <= i < old(self).models().len() ==> lease_room(#[trigger] old(self).models()[i]),
        ensures
            final(self).wf(),
            final(self).timeouts() == old(self).timeouts(),
            exists|now: u64| #[trigger] lease_sharded_outcome(old(self).models(), old(self).timeouts(), worker, max, now, r, final(self).models()),
    {
        self.lease_replicated_sharded_at(worker, max, unix_now_ms())
    }

    /// Lease from one shard now (see [`lease_shard_outcome`]).
    pub fn lease_shard_replicated(&mut self, shard: usize, worker: WorkerId, max: usize) -> (r: Result<(Vec<LeasedJob>, ShardedReplication), QueueError>)
        requires
            old(self).wf(),
            shard < old(self).models().len() ==> lease_room(old(self).models()[shard as int]),
        ensures
            final(self).wf(),
            final(self).timeouts() == old(self).timeouts(),
            exists|now: u64| #[trigger] lease_shard_outcome(old(self).models(), old(self).timeouts(), shard, worker, max, now, r, final(self).models()),
    {
        self.lease_shard_replicated_at(shard, worker, max, unix_now_ms())
    }

    /// Lease across the shards now (see [`lease_outcome`]).
    pub fn lease_replicated(&mut self, worker: WorkerId, max: usize) -> (r: Result<(Vec<LeasedJob>, Vec<QueueReplicateOp>), QueueError>)
        requires
            old(self).wf(),
            forall|i: int| 0 <= i < old(self).models().len() ==> lease_room(#[trigger] old(self).models()[i]),
        ensures
            final(self).wf(),
            final(self).timeouts() == old(self).timeouts(),
            exists|now: u64| #[trigger] lease_outcome(old(self).models(), old(self).timeouts(), worker, max, now, r, final(self).models()),
    {
        self.lease_replicated_at(worker, max, unix_now_ms())
    }

    /// Lease across the shards now; the leased jobs.
    pub fn lease(&mut self, worker: WorkerId, max: usize) -> (r: Result<Vec<LeasedJob>, QueueError>)
        requires
            old(self).wf(),
            forall|i: int| 0 <= i < old(self).models().len() ==> lease_room(#[trigger] old(self).models()[i]),
        ensures
            final(self).wf(),
            final(self).timeouts() == old(self).timeouts(),
            exists|now: u64, full: Result<(Vec<LeasedJob>, Vec<QueueReplicateOp>), QueueError>| #[trigger] lease_outcome(old(self).models(), old(self).timeouts(), worker, max, now, full, final(self).models()) && r == jobs_only(full),
    {
        match self.lease_replicated_at(worker, max, unix_now_ms()) {
            Ok((jobs, _ops)) => Ok(jobs),
            Err(e) => Err(e),
        }
    }

    /// Acknowledge a lease now on the shard it names (see [`ack_sharded_outcome`]).
    pub fn ack_replicated_sharded(&mut self, worker: WorkerId, lease_id: LeaseId) -> (r: Result<ShardedReplication, QueueError>)
        requires
            old(self).wf(),
        ensures
            final(self).wf(),
            final(self).timeouts() == old(self).timeouts(),
            exists|now: u64| #[trigger] ack_sharded_outcome(old(self).models(), worker, lease_id, now, r, final(self).models()),
    {
        self.ack_replicated_sharded_at(worker, lease_id, unix_now_ms())
    }

    /// Acknowledge a lease now; the shard's operations.
    pub fn ack_replicated(&mut self, worker: WorkerId, lease_id: LeaseId) -> (r: Result<Vec<QueueReplicateOp>, QueueError>)
        requires
            old(self).wf(),
        ensures
            final(self).wf(),
            final(self).timeouts() == old(self).timeouts(),
            exists|now: u64, full: Result<ShardedReplication, QueueError>| #[trigger] ack_sharded_outcome(old(self).models(), worker, lease_id, now, full, final(self).models()) && r == ops_only(full),
    {
        match self.ack_replicated_sharded_at(worker, lease_id, unix_now_ms()) {
            Ok(rep) => Ok(rep.ops),
            Err(e) => Err(e),
        }
    }

    /// Acknowledge a lease now.
    pub fn ack(&mut self, worker: WorkerId, lease_id: LeaseId) -> (r: Result<(), QueueError>)
        requires
            old(self).wf(),
        ensures
            final(self).wf(),
            final(self).timeouts() == old(self).timeouts(),
            exists|now: u64, full: Result<ShardedReplication, QueueError>| #[trigger] ack_sharded_outcome(old(self).models(), worker, lease_id, now, full, final(self).models()) && r == done_only(full),
    {
        match self.ack_replicated_sharded_at(worker, lease_id, unix_now_ms()) {
            Ok(_rep) => Ok(()),
            Err(e) => Err(e),
        }
    }

    /// Return a lease now on the shard it names (see [`nack_sharded_outcome`]).
    pub fn nack_replicated_sharded(&mut self, worker: WorkerId, lease_id: LeaseId) -> (r: Result<ShardedReplication, QueueError>)
        requires
            old(self).wf(),
        ensures
            final(self).wf(),
            final(self).timeouts() == old(self).timeouts(),
            exists|now: u64| #[trigger] nack_sharded_outcome(old(self).models(), worker, lease_id, now, r, final(self).models()),
    {
        self.nack_replicated_sharded_at(worker, lease_id, unix_now_ms())
    }

    /// Return a lease now; the shard's operations.
    pub fn nack_replicated(&mut self, worker: WorkerId, lease_id: LeaseId) -> (r: Result<Vec<QueueReplicateOp>, QueueError>)
        requires
            old(self).wf(),
        ensures
            final(self).wf(),
            final(self).timeouts() == old(self).timeouts(),
            exists|now: u64, full: Result<ShardedReplication, QueueError>| #[trigger] nack_sharded_outcome(old(self).models(), worker, lease_id, now, full, final(self).models()) && r == ops_only(full),
    {
        match self.nack_replicated_sharded_at(worker, lease_id, unix_now_ms()) {
            Ok(rep) => Ok(rep.ops),
            Err(e) => Err(e),
        }
    }

    /// Return a lease now.
    pub fn nack(&mut self, worker: WorkerId, lease_id: LeaseId) -> (r: Result<(), QueueError>)
        requires
            old(self).wf(),
        ensures
            final(self).wf(),
            final(self).timeouts() == old(self).timeouts(),
            exists|now: u64, full: Result<ShardedReplication, QueueError>| #[trigger] nack_sharded_outcome(old(self).models(), worker, lease_id, now, full, final(self).models()) && r == done_only(full),
    {
        match self.nack_replicated_sharded_at(worker, lease_id, unix_now_ms()) {
            Ok(_rep) => Ok(()),
            Err(e) => Err(e),
        }
    }

    /// Acknowledge a batch now (see [`batch_ack_outcome`]).
    pub fn ack_batch_replicated_sharded(&mut self, worker: WorkerId, lease_ids: &[LeaseId]) -> (r: Result<Vec<ShardedReplication>, QueueError>)
        requires
            old(self).wf(),
        ensures
            final(self).wf(),
            final(self).timeouts() == old(self).timeouts(),
            exists|now: u64| #[trigger] batch_ack_outcome(old(self).models(), worker, lease_ids@, now, r, final(self).models()),
    {
        self.ack_batch_replicated_sharded_at(worker, lease_ids, unix_now_ms())
    }

    /// Gauges now, summed over the shards (see [`metrics_outcome`]).
    pub fn metrics(&mut self) -> (r: Result<QueueMetrics, QueueError>)
        requires
            old(self).wf(),
        ensures
            final(self).wf(),
            final(self).timeouts() == old(self).timeouts(),
            exists|now: u64| #[trigger] metrics_outcome(old(self).models(), now, r, final(self).models()),
    {
        self.metrics_at(unix_now_ms())
    }

    /// Move a dead-lettered job back to pending now (see [`requeue_outcome`]).
    pub fn requeue_dead_letter(&mut self, job_id: JobId) -> (r: Result<(), QueueError>)
        requires
            old(self).wf(),
        ensures
            final(self).wf(),
            final(self).timeouts() == old(self).timeouts(),
            exists|now: u64| #[trigger] requeue_outcome(old(self).models(), job_id, now, r, final(self).models()),
    {
        self.requeue_dead_letter_at(job_id, unix_now_ms())
    }

    /// Status of a job now, under its global id (see [`status_outcome`]).
    pub fn job_status(&mut self, job_id: JobId) -> (r: Result<Option<JobStatus>, QueueError>)
        requires
            old(self).wf(),
        ensures
            final(self).wf(),
            final(self).timeouts() == old(self).timeouts(),
            exists|now: u64| #[trigger] status_outcome(old(self).models(), job_id, now, r, final(self).models()),
    {
        self.job_status_at(job_id, unix_now_ms())
    }
}


/// Jobs with the same shard key go to the same shard, whatever their payloads.
pub proof fn law_same_shard_key_same_shard(p1: Seq<u8>, o1: EnqueueOptions, p2: Seq<u8>, o2: EnqueueOptions, n: nat)
    requires
        opt_bytes_view(o1.shard_key) is Some,
        opt_bytes_view(o1.shard_key) == opt_bytes_view(o2.shard_key),
    ensures
        route(p1, o1, n) == route(p2, o2, n),
{
}

/// A batch whose jobs all go to one shard and carry no dedup key gets
/// consecutive local ids on that shard, in input order.
pub proof fn law_one_shard_batch_ids_are_consecutive(olds: Seq<QueueModel>, jobs: Seq<(Vec<u8>, EnqueueOptions)>, now: u64, s: int)
    requires
        0 < olds.len() <= usize::MAX,
        0 <= s < olds.len(),
        olds[s].next_job_id + jobs.len() < u64::MAX,
        forall|k: int| 0 <= k < jobs.len() ==> route((#[trigger] jobs[k]).0@, jobs[k].1, olds.len()) == s && jobs[k].1.dedup_key is None,
    ensures
        forall|k: int| 0 <= k < jobs.len() ==> #[trigger] batch_run(olds, jobs, now, jobs.len()).1[k] == encode_spec(s as u64, (olds[s].next_job_id + k) as u64),
{
    lemma_one_shard_batch(olds, jobs, now, s, jobs.len());
}

proof fn lemma_one_shard_batch(olds: Seq<QueueModel>, jobs: Seq<(Vec<u8>, EnqueueOptions)>, now: u64, s: int, t: nat)
    requires
        0 < olds.len() <= usize::MAX,
        0 <= s < olds.len(),
        t <= jobs.len(),
        olds[s].next_job_id + jobs.len() < u64::MAX,
        forall|k: int| 0 <= k < jobs.len() ==> route((#[trigger] jobs[k]).0@, jobs[k].1, olds.len()) == s && jobs[k].1.dedup_key is None,
    ensures
        batch_run(olds, jobs, now, t).0.len() == olds.len(),
        batch_run(olds, jobs, now, t).0[s].next_job_id == olds[s].next_job_id + t,
        batch_run(olds, jobs, now, t).1.len() == t,
        forall|k: int| 0 <= k < t ==> #[trigger] batch_run(olds, jobs, now, t).1[k] == encode_spec(s as u64, (olds[s].next_job_id + k) as u64),
    decreases t,
{
    if t > 0 {
        lemma_one_shard_batch(olds, jobs, now, s, (t - 1) as nat);
        let (ms, ids) = batch_run(olds, jobs, now, (t - 1) as nat);
        let j = jobs[t - 1];
        assert(route(j.0@, j.1, olds.len()) == s);
        lemma_reclaim_upto_frame(ms[s], now, ms[s].leases.len());
        let (m, local) = enqueue_spec(ms[s], j.0@, j.1, now);
        assert(local == ms[s].next_job_id);
        assert(m.next_job_id == ms[s].next_job_id + 1);
        let ids1 = batch_run(olds, jobs, now, t).1;
        assert(ids1 == ids.push(encode_spec(s as u64, local)));
        assert forall|k: int| 0 <= k < t implies #[trigger] ids1[k] == encode_spec(s as u64, (olds[s].next_job_id + k) as u64) by {
            if k < t - 1 {
                assert(ids1[k] == ids[k]);
            }
        }
    }
}


/// The federated gauges dominate every shard's own gauges at the same time:
/// the pending, leased and dead-letter counts are at least each shard's (they
/// are saturating sums), and the oldest pending age is the largest over the
/// shards (0 with no shards).
pub proof fn law_federated_metrics_cover_every_shard(olds: Seq<QueueModel>, now: u64, k: nat)
    requires
        k <= olds.len(),
    ensures
        forall|i: int| 0 <= i < k ==> {
            let t = metrics_total(olds, now, k);
            let m = (#[trigger] metrics_spec(olds[i], now)).1;
            &&& t.pending >= m.pending
            &&& t.leased >= m.leased
            &&& t.dead_letter >= m.dead_letter
            &&& t.oldest_pending_age >= m.oldest_pending_age
        },
        k == 0 ==> metrics_total(olds, now, k).oldest_pending_age == 0,
        k > 0 ==> exists|i: int| 0 <= i < k && metrics_total(olds, now, k).oldest_pending_age
            == (#[trigger] metrics_spec(olds[i], now)).1.oldest_pending_age,
    decreases k,
{
    if k > 0 {
        law_federated_metrics_cover_every_shard(olds, now, (k - 1) as nat);
        let m = metrics_spec(olds[k - 1], now).1;
        let t = metrics_total(olds, now, (k - 1) as nat);
        if k > 1 {
            let i = choose|i: int| 0 <= i < k - 1 && t.oldest_pending_age == (#[trigger] metrics_spec(olds[i], now)).1.oldest_pending_age;
            assert(0 <= i < k && t.oldest_pending_age == metrics_spec(olds[i], now).1.oldest_pending_age);
        }
        assert(metrics_spec(olds[k - 1], now).1.oldest_pending_age == m.oldest_pending_age);
    }
}


/// What `metrics_at` answers dominates each shard's own answer at that time,
/// and its oldest pending age is one of the shards' (the largest).
pub proof fn law_metrics_at_covers_every_shard(olds: Seq<QueueModel>, now: u64, r: Result<QueueMetrics, QueueError>, ms: Seq<QueueModel>)
    requires
        metrics_outcome(olds, now, r, ms),
    ensures
        r matches Ok(t) && forall|i: int| 0 <= i < olds.len() ==> {
            let m = (#[trigger] metrics_spec(olds[i], now)).1;
            &&& t.pending >= m.pending
            &&& t.leased >= m.leased
            &&& t.dead_letter >= m.dead_letter
            &&& t.oldest_pending_age >= m.oldest_pending_age
        },
        olds.len() > 0 ==> exists|i: int| 0 <= i < olds.len() && r->Ok_0.oldest_pending_age
            == (#[trigger] metrics_spec(olds[i], now)).1.oldest_pending_age,
{
    law_federated_metrics_cover_every_shard(olds, now, olds.len());
}

} // verus!
