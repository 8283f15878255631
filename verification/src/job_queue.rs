//! In-process job queue: at-least-once delivery with leases, visibility
//! timeouts, priorities, delays, dedup keys, retries and a dead-letter set.
//!
//! Every operation first reclaims leases whose deadline has passed, then acts.
//! Each mutation also returns the [`QueueReplicateOp`]s a follower applies with
//! [`InMemoryJobQueue::apply_replicate_at`] to follow the leader.
use vstd::prelude::*;

use crate::ids::{bytes_eq, bytes_to_vec, same_worker, JobId, LeaseId, NodeId, WorkerId};
use crate::keyed::{
    has_key, keys_distinct, lemma_seq_map_absent, lemma_seq_map_index, lemma_seq_map_push,
    lemma_seq_map_remove, lemma_seq_map_update, seq_map,
};
use crate::queue::{
    after_failed_attempt, default_options_spec, failed_attempt_spec, sat_add_u64, saturating_add_u64, unix_now_ms,
    AttemptOutcome, EnqueueOptions, JobLifecycle, JobStatus, LeasedJob, QueueError, QueueMetrics,
    QueueReplicateOp,
};

verus! {

/// Abstract content of one stored job.
pub struct JobModel {
    pub payload: Seq<u8>,
    pub enqueued_at_ms: u64,
    pub priority: u8,
    pub not_before_ms: u64,
    pub dedup_key: Option<Seq<u8>>,
    pub attempts: u32,
    pub max_attempts: u32,
    pub dead_letter: bool,
}

/// One stored job row.
pub struct JobEntry {
    id: u64,
    payload: Vec<u8>,
    enqueued_at_ms: u64,
    priority: u8,
    not_before_ms: u64,
    dedup_key: Option<Vec<u8>>,
    attempts: u32,
    max_attempts: u32,
    dead_letter: bool,
}

pub open spec fn opt_bytes_view(o: Option<Vec<u8>>) -> Option<Seq<u8>> {
    match o {
        Some(v) => Some(v@),
        None => None,
    }
}

impl JobEntry {
    pub closed spec fn row(self) -> (u64, JobModel) {
        (
            self.id,
            JobModel {
                payload: self.payload@,
                enqueued_at_ms: self.enqueued_at_ms,
                priority: self.priority,
                not_before_ms: self.not_before_ms,
                dedup_key: opt_bytes_view(self.dedup_key),
                attempts: self.attempts,
                max_attempts: self.max_attempts,
                dead_letter: self.dead_letter,
            },
        )
    }
}

/// One outstanding lease.
#[derive(Clone, Copy)]
pub struct LeaseEntry {
    pub lease_id: u64,
    pub job_id: u64,
    pub worker: WorkerId,
    pub expires_at_ms: u64,
}

/// Abstract state of a queue.
pub struct QueueModel {
    /// Id the next enqueued job receives.
    pub next_job_id: u64,
    /// Id the next lease receives.
    pub next_lease_id: u64,
    /// Job ids waiting to be leased, oldest first (a job may appear more than once).
    pub pending: Seq<u64>,
    /// Stored jobs by id.
    pub jobs: Map<u64, JobModel>,
    /// Outstanding leases in ascending lease id order.
    pub leases: Seq<LeaseEntry>,
}

/// Lease ids strictly increase along the sequence.
pub open spec fn leases_sorted(s: Seq<LeaseEntry>) -> bool {
    forall|i: int, j: int| 0 <= i < j < s.len() ==> s[i].lease_id < s[j].lease_id
}

/// No two live jobs share a dedup key.
pub open spec fn dedup_unique(jobs: Map<u64, JobModel>) -> bool {
    forall|a: u64, b: u64|
        jobs.contains_key(a) && jobs.contains_key(b) && a != b && jobs[a].dedup_key.is_some()
            ==> jobs[a].dedup_key != jobs[b].dedup_key
}

/// Structural invariant of a queue model.
pub open spec fn model_wf(m: QueueModel) -> bool {
    leases_sorted(m.leases) && dedup_unique(m.jobs)
}

// ---------------------------------------------------------------------------
// The queue rules over the abstract state
// ---------------------------------------------------------------------------

pub open spec fn is_ready(m: QueueModel, id: u64, now_ms: u64) -> bool {
    m.jobs.contains_key(id) && m.jobs[id].not_before_ms <= now_ms
}

/// Charge a failed attempt to `job_id` (no effect when the job is gone); a job
/// that is not dead-lettered goes back to the end of the pending list.
pub open spec fn fail_job(m: QueueModel, job_id: u64, now_ms: u64) -> QueueModel {
    if m.jobs.contains_key(job_id) {
        let j = m.jobs[job_id];
        let o = failed_attempt_spec(j.attempts, j.max_attempts, now_ms);
        QueueModel {
            jobs: m.jobs.insert(
                job_id,
                JobModel { attempts: o.attempts, dead_letter: o.dead_letter, not_before_ms: o.not_before_ms, ..j },
            ),
            pending: if o.dead_letter { m.pending } else { m.pending.push(job_id) },
            ..m
        }
    } else {
        m
    }
}

/// Reclaim the first `i` leases of `m`: expired ones are dropped and charged a
/// failed attempt, the others are kept in order.
pub open spec fn reclaim_upto(m: QueueModel, now_ms: u64, i: nat) -> QueueModel
    decreases i,
{
    if i == 0 {
        QueueModel { leases: Seq::empty(), ..m }
    } else {
        let prev = reclaim_upto(m, now_ms, (i - 1) as nat);
        let l = m.leases[i - 1];
        if l.expires_at_ms <= now_ms {
            fail_job(prev, l.job_id, now_ms)
        } else {
            QueueModel { leases: prev.leases.push(l), ..prev }
        }
    }
}

pub proof fn lemma_reclaim_upto_frame(m: QueueModel, now_ms: u64, i: nat)
    requires
        i <= m.leases.len(),
    ensures
        reclaim_upto(m, now_ms, i).next_job_id == m.next_job_id,
        reclaim_upto(m, now_ms, i).next_lease_id == m.next_lease_id,
        reclaim_upto(m, now_ms, i).jobs.dom() == m.jobs.dom(),
        reclaim_upto(m, now_ms, i).pending.len() <= m.pending.len() + i,
        reclaim_upto(m, now_ms, i).leases.len() <= i,
        forall|id: u64| #[trigger] m.jobs.contains_key(id) ==> reclaim_upto(m, now_ms, i).jobs[id].payload == m.jobs[id].payload
            && reclaim_upto(m, now_ms, i).jobs[id].priority == m.jobs[id].priority
            && reclaim_upto(m, now_ms, i).jobs[id].dedup_key == m.jobs[id].dedup_key
            && reclaim_upto(m, now_ms, i).jobs[id].enqueued_at_ms == m.jobs[id].enqueued_at_ms
            && reclaim_upto(m, now_ms, i).jobs[id].max_attempts == m.jobs[id].max_attempts,
    decreases i,
{
    if i > 0 {
        lemma_reclaim_upto_frame(m, now_ms, (i - 1) as nat);
        let prev = reclaim_upto(m, now_ms, (i - 1) as nat);
        let l = m.leases[i - 1];
        if l.expires_at_ms <= now_ms && prev.jobs.contains_key(l.job_id) {
            assert(reclaim_upto(m, now_ms, i).jobs.dom() =~= prev.jobs.dom());
        }
    }
}

/// Reclaim every lease whose deadline is at or before `now_ms`.
pub open spec fn reclaim(m: QueueModel, now_ms: u64) -> QueueModel {
    reclaim_upto(m, now_ms, m.leases.len())
}


/// The live job that holds dedup key `key`, if any.
pub open spec fn find_dedup(m: QueueModel, key: Seq<u8>) -> Option<u64> {
    if exists|id: u64| m.jobs.contains_key(id) && m.jobs[id].dedup_key == Some(key) {
        Some(choose|id: u64| m.jobs.contains_key(id) && m.jobs[id].dedup_key == Some(key))
    } else {
        None
    }
}

/// Visibility time an enqueue with `options` gets at `now_ms`.
pub open spec fn visible_at(options: EnqueueOptions, now_ms: u64) -> u64 {
    match options.not_before_ms {
        Some(t) => t,
        None => now_ms,
    }
}

/// Enqueue after reclaiming: a live job with the same dedup key is returned
/// unchanged; otherwise a fresh job gets the next id and joins the pending list.
pub open spec fn enqueue_spec(m: QueueModel, payload: Seq<u8>, options: EnqueueOptions, now_ms: u64) -> (QueueModel, u64) {
    let m1 = reclaim(m, now_ms);
    let dk = opt_bytes_view(options.dedup_key);
    if dk.is_some() && find_dedup(m1, dk.unwrap()).is_some() {
        (m1, find_dedup(m1, dk.unwrap()).unwrap())
    } else {
        let id = m1.next_job_id;
        let job = JobModel {
            payload,
            enqueued_at_ms: now_ms,
            priority: options.priority,
            not_before_ms: visible_at(options, now_ms),
            dedup_key: dk,
            attempts: 0,
            max_attempts: options.max_attempts,
            dead_letter: false,
        };
        (
            QueueModel {
                next_job_id: (id + 1) as u64,
                jobs: m1.jobs.insert(id, job),
                pending: m1.pending.push(id),
                ..m1
            },
            id,
        )
    }
}

/// `op` replicates the creation of job `id` from `payload` and `options` at `now_ms`.
pub open spec fn is_enqueue_op(op: QueueReplicateOp, id: u64, payload: Seq<u8>, options: EnqueueOptions, now_ms: u64) -> bool {
    match op {
        QueueReplicateOp::Enqueue {
            job_id,
            payload: p,
            enqueued_at_ms,
            next_job_id,
            priority,
            not_before_ms,
            dedup_key,
            attempts,
            max_attempts,
        } => job_id == id && p@ == payload && enqueued_at_ms == now_ms && next_job_id == id + 1
            && priority == options.priority && not_before_ms == visible_at(options, now_ms)
            && opt_bytes_view(dedup_key) == opt_bytes_view(options.dedup_key) && attempts == 0
            && max_attempts == options.max_attempts,
        _ => false,
    }
}


/// `a` is leased before `b`: higher priority first, then lower job id.
pub open spec fn ranks_before(m: QueueModel, a: u64, b: u64) -> bool {
    m.jobs[a].priority > m.jobs[b].priority || (m.jobs[a].priority == m.jobs[b].priority && a < b)
}

/// The ids of `s` whose job exists and is visible at `now_ms`, in order.
pub open spec fn ready_list(m: QueueModel, now_ms: u64, s: Seq<u64>) -> Seq<u64>
    decreases s.len(),
{
    if s.len() == 0 {
        s
    } else {
        let r = ready_list(m, now_ms, s.drop_last());
        if is_ready(m, s.last(), now_ms) { r.push(s.last()) } else { r }
    }
}

/// Index of the first best-ranked id of a non-empty `s`.
pub open spec fn best_index(m: QueueModel, s: Seq<u64>) -> int
    decreases s.len(),
{
    if s.len() <= 1 {
        0
    } else {
        let b = best_index(m, s.drop_last());
        if ranks_before(m, s.last(), s[b]) { s.len() - 1 } else { b }
    }
}

/// The `k` best-ranked ids of `s`, best first.
pub open spec fn select_best(m: QueueModel, s: Seq<u64>, k: nat) -> Seq<u64>
    decreases k,
{
    if k == 0 || s.len() == 0 {
        Seq::empty()
    } else {
        let b = best_index(m, s);
        seq![s[b]] + select_best(m, s.remove(b), (k - 1) as nat)
    }
}

/// `s` without any occurrence of `x`.
pub open spec fn remove_all(s: Seq<u64>, x: u64) -> Seq<u64>
    decreases s.len(),
{
    if s.len() == 0 {
        s
    } else {
        let r = remove_all(s.drop_last(), x);
        if s.last() == x { r } else { r.push(s.last()) }
    }
}

/// Insertion position of lease id `id` in a sorted lease sequence.
pub open spec fn lease_pos(s: Seq<LeaseEntry>, id: u64) -> int {
    choose|i: int| #[trigger] is_lease_pos(s, id, i)
}

/// Every lease before `i` has a smaller id, every lease from `i` on a larger or equal one.
pub open spec fn is_lease_pos(s: Seq<LeaseEntry>, id: u64, i: int) -> bool {
    0 <= i <= s.len() && (forall|j: int| 0 <= j < i ==> s[j].lease_id < id) && (forall|j: int|
        i <= j < s.len() ==> s[j].lease_id >= id)
}

/// Store lease `e`, replacing a lease with the same id.
pub open spec fn upsert_lease(s: Seq<LeaseEntry>, e: LeaseEntry) -> Seq<LeaseEntry> {
    let p = lease_pos(s, e.lease_id);
    if p < s.len() && s[p].lease_id == e.lease_id { s.update(p, e) } else { s.insert(p, e) }
}

/// Store lease `e` unless a lease with the same id exists.
pub open spec fn insert_lease_absent(s: Seq<LeaseEntry>, e: LeaseEntry) -> Seq<LeaseEntry> {
    let p = lease_pos(s, e.lease_id);
    if p < s.len() && s[p].lease_id == e.lease_id { s } else { s.insert(p, e) }
}

/// Lease job `id` to `worker` (a vanished job is only dropped from pending).
pub open spec fn lease_one(m: QueueModel, id: u64, worker: WorkerId, deadline: u64) -> QueueModel {
    let p = remove_all(m.pending, id);
    if m.jobs.contains_key(id) {
        QueueModel {
            pending: p,
            leases: upsert_lease(
                m.leases,
                LeaseEntry { lease_id: m.next_lease_id, job_id: id, worker, expires_at_ms: deadline },
            ),
            next_lease_id: (m.next_lease_id + 1) as u64,
            ..m
        }
    } else {
        QueueModel { pending: p, ..m }
    }
}

/// Lease the first `i` ids of `sel` in turn.
pub open spec fn lease_all(m: QueueModel, sel: Seq<u64>, worker: WorkerId, deadline: u64, i: nat) -> QueueModel
    decreases i,
{
    if i == 0 {
        m
    } else {
        lease_one(lease_all(m, sel, worker, deadline, (i - 1) as nat), sel[i - 1], worker, deadline)
    }
}

/// Leases granted while leasing the first `i` ids of `sel`.
pub open spec fn leases_granted(m: QueueModel, sel: Seq<u64>, worker: WorkerId, deadline: u64, i: nat) -> Seq<LeaseEntry>
    decreases i,
{
    if i == 0 {
        Seq::empty()
    } else {
        let prev = lease_all(m, sel, worker, deadline, (i - 1) as nat);
        let g = leases_granted(m, sel, worker, deadline, (i - 1) as nat);
        if prev.jobs.contains_key(sel[i - 1]) {
            g.push(LeaseEntry { lease_id: prev.next_lease_id, job_id: sel[i - 1], worker, expires_at_ms: deadline })
        } else {
            g
        }
    }
}

/// Jobs picked by a lease of up to `max` jobs at `now_ms` (after reclaiming).
pub open spec fn lease_selection(m: QueueModel, max: nat, now_ms: u64) -> Seq<u64> {
    let m1 = reclaim(m, now_ms);
    select_best(m1, ready_list(m1, now_ms, m1.pending), max)
}

/// Lease up to `max` ready jobs to `worker`: reclaim, pick the best-ranked ready
/// jobs, and grant each a lease expiring at `now_ms + timeout_ms`.
pub open spec fn lease_spec(m: QueueModel, worker: WorkerId, max: nat, now_ms: u64, timeout_ms: u64) -> (QueueModel, Seq<LeaseEntry>) {
    let m1 = reclaim(m, now_ms);
    let sel = lease_selection(m, max, now_ms);
    let d = sat_add_u64(now_ms, timeout_ms);
    (lease_all(m1, sel, worker, d, sel.len()), leases_granted(m1, sel, worker, d, sel.len()))
}

/// `op` replicates the grant of lease `g`.
pub open spec fn is_lease_op(op: QueueReplicateOp, g: LeaseEntry) -> bool {
    match op {
        QueueReplicateOp::Lease { lease_id, job_id, worker_node, worker_instance, expires_at_ms, next_lease_id } =>
            lease_id == g.lease_id && job_id == g.job_id && worker_node == g.worker.node.0
                && worker_instance == g.worker.instance && expires_at_ms == 0 && next_lease_id == g.lease_id + 1,
        _ => false,
    }
}

pub proof fn lemma_ready_list_len(m: QueueModel, now_ms: u64, s: Seq<u64>)
    ensures
        ready_list(m, now_ms, s).len() <= s.len(),
        forall|k: int| 0 <= k < ready_list(m, now_ms, s).len() ==> is_ready(m, #[trigger] ready_list(m, now_ms, s)[k], now_ms),
    decreases s.len(),
{
    if s.len() > 0 {
        lemma_ready_list_len(m, now_ms, s.drop_last());
    }
}

pub proof fn lemma_best_index_range(m: QueueModel, s: Seq<u64>)
    requires
        s.len() > 0,
    ensures
        0 <= best_index(m, s) < s.len(),
    decreases s.len(),
{
    if s.len() > 1 {
        lemma_best_index_range(m, s.drop_last());
    }
}

pub proof fn lemma_select_best_len(m: QueueModel, s: Seq<u64>, k: nat)
    ensures
        select_best(m, s, k).len() <= s.len(),
        select_best(m, s, k).len() <= k,
    decreases k,
{
    if k > 0 && s.len() > 0 {
        lemma_best_index_range(m, s);
        lemma_select_best_len(m, s.remove(best_index(m, s)), (k - 1) as nat);
    }
}

pub proof fn lemma_lease_pos(s: Seq<LeaseEntry>, id: u64, i: int)
    requires
        leases_sorted(s),
        0 <= i <= s.len(),
        forall|j: int| 0 <= j < i ==> s[j].lease_id < id,
        forall|j: int| i <= j < s.len() ==> s[j].lease_id >= id,
    ensures
        lease_pos(s, id) == i,
{
    assert(is_lease_pos(s, id, i));
    let p = lease_pos(s, id);
    if p < i {
        assert(s[p].lease_id >= id);
    }
    if p > i {
        assert(s[i].lease_id < id);
    }
}

pub proof fn lemma_lease_all_frame(m: QueueModel, sel: Seq<u64>, worker: WorkerId, deadline: u64, i: nat)
    requires
        i <= sel.len(),
        m.next_lease_id + i <= u64::MAX,
    ensures
        lease_all(m, sel, worker, deadline, i).jobs == m.jobs,
        lease_all(m, sel, worker, deadline, i).next_job_id == m.next_job_id,
        lease_all(m, sel, worker, deadline, i).next_lease_id == m.next_lease_id + leases_granted(m, sel, worker, deadline, i).len(),
        leases_granted(m, sel, worker, deadline, i).len() <= i,
    decreases i,
{
    if i > 0 {
        lemma_lease_all_frame(m, sel, worker, deadline, (i - 1) as nat);
    }
}


/// Position of lease `id` (meaningful when some lease has that id).
pub open spec fn lease_index(s: Seq<LeaseEntry>, id: u64) -> int {
    choose|i: int| #[trigger] lease_at(s, id, i)
}

pub open spec fn lease_at(s: Seq<LeaseEntry>, id: u64, i: int) -> bool {
    0 <= i < s.len() && s[i].lease_id == id
}

pub open spec fn has_lease(s: Seq<LeaseEntry>, id: u64) -> bool {
    exists|i: int| #[trigger] lease_at(s, id, i)
}

/// The leases without lease `id`.
pub open spec fn drop_lease(s: Seq<LeaseEntry>, id: u64) -> Seq<LeaseEntry> {
    if has_lease(s, id) { s.remove(lease_index(s, id)) } else { s }
}

/// Acknowledge lease `lease_id` held by `worker`: the lease and its job are removed.
pub open spec fn ack_spec(m: QueueModel, worker: WorkerId, lease_id: u64, now_ms: u64) -> (QueueModel, Result<u64, QueueError>) {
    let m1 = reclaim(m, now_ms);
    if !has_lease(m1.leases, lease_id) {
        (m1, Err(QueueError::InvalidLease))
    } else {
        let l = m1.leases[lease_index(m1.leases, lease_id)];
        if l.worker != worker {
            (m1, Err(QueueError::InvalidLease))
        } else {
            (QueueModel { leases: drop_lease(m1.leases, lease_id), jobs: m1.jobs.remove(l.job_id), ..m1 }, Ok(l.job_id))
        }
    }
}

/// Return lease `lease_id` held by `worker`: the job is charged a failed attempt.
pub open spec fn nack_spec(m: QueueModel, worker: WorkerId, lease_id: u64, now_ms: u64) -> (QueueModel, Result<(u64, AttemptOutcome), QueueError>) {
    let m1 = reclaim(m, now_ms);
    if !has_lease(m1.leases, lease_id) {
        (m1, Err(QueueError::InvalidLease))
    } else {
        let l = m1.leases[lease_index(m1.leases, lease_id)];
        if l.worker != worker {
            (m1, Err(QueueError::InvalidLease))
        } else {
            let m2 = QueueModel { leases: drop_lease(m1.leases, lease_id), ..m1 };
            if !m2.jobs.contains_key(l.job_id) {
                (m2, Err(QueueError::InvalidLease))
            } else {
                let j = m2.jobs[l.job_id];
                (fail_job(m2, l.job_id, now_ms), Ok((l.job_id, failed_attempt_spec(j.attempts, j.max_attempts, now_ms))))
            }
        }
    }
}

/// Move a dead-letter job back to pending with a fresh retry budget.
pub open spec fn requeue_spec(m: QueueModel, job_id: u64, now_ms: u64) -> (QueueModel, Result<(), QueueError>) {
    let m1 = reclaim(m, now_ms);
    if !m1.jobs.contains_key(job_id) || !m1.jobs[job_id].dead_letter {
        (m1, Err(QueueError::NotDeadLetter))
    } else {
        let j = m1.jobs[job_id];
        (
            QueueModel {
                jobs: m1.jobs.insert(job_id, JobModel { dead_letter: false, attempts: 0, not_before_ms: now_ms, ..j }),
                pending: m1.pending.push(job_id),
                ..m1
            },
            Ok(()),
        )
    }
}

pub open spec fn first_lease_of_at(s: Seq<LeaseEntry>, job_id: u64, i: int) -> bool {
    0 <= i < s.len() && s[i].job_id == job_id && forall|j: int| 0 <= j < i ==> s[j].job_id != job_id
}

/// Worker of the first (lowest id) lease on `job_id`.
pub open spec fn leased_by(s: Seq<LeaseEntry>, job_id: u64) -> Option<WorkerId> {
    if exists|i: int| #[trigger] first_lease_of_at(s, job_id, i) {
        Some(s[choose|i: int| #[trigger] first_lease_of_at(s, job_id, i)].worker)
    } else {
        None
    }
}

/// Status of `job_id` at `now_ms` (after reclaiming); `None` when the job is gone
/// or sits in none of the pending, leased, delayed and dead-letter states.
pub open spec fn job_status_spec(m: QueueModel, job_id: u64, now_ms: u64) -> (QueueModel, Option<JobStatus>) {
    let m1 = reclaim(m, now_ms);
    if !m1.jobs.contains_key(job_id) {
        (m1, None)
    } else {
        let j = m1.jobs[job_id];
        let lb = leased_by(m1.leases, job_id);
        let lc = if j.dead_letter {
            Some(JobLifecycle::DeadLetter)
        } else if lb.is_some() {
            Some(JobLifecycle::Leased)
        } else if j.not_before_ms > now_ms {
            Some(JobLifecycle::Delayed)
        } else if m1.pending.contains(job_id) {
            Some(JobLifecycle::Pending)
        } else {
            None
        };
        match lc {
            None => (m1, None),
            Some(lifecycle) => (
                m1,
                Some(
                    JobStatus {
                        job_id: JobId(job_id),
                        lifecycle,
                        payload_len: j.payload.len() as u64,
                        priority: j.priority,
                        leased_by: lb,
                        attempts: j.attempts,
                        max_attempts: j.max_attempts,
                    },
                ),
            ),
        }
    }
}

/// Largest age (`now_ms - enqueued_at`) over the ids of `s`.
pub open spec fn oldest_age(m: QueueModel, now_ms: u64, s: Seq<u64>) -> u64
    decreases s.len(),
{
    if s.len() == 0 {
        0
    } else {
        let prev = oldest_age(m, now_ms, s.drop_last());
        let e = m.jobs[s.last()].enqueued_at_ms;
        let age: u64 = if e <= now_ms { (now_ms - e) as u64 } else { 0 };
        if age > prev { age } else { prev }
    }
}

/// Number of dead-letter jobs.
pub open spec fn dead_count(jobs: Map<u64, JobModel>) -> nat {
    jobs.dom().filter(|k: u64| jobs[k].dead_letter).len()
}

/// Depth gauges at `now_ms` (after reclaiming).
pub open spec fn metrics_spec(m: QueueModel, now_ms: u64) -> (QueueModel, QueueMetrics) {
    let m1 = reclaim(m, now_ms);
    let ready = ready_list(m1, now_ms, m1.pending);
    (
        m1,
        QueueMetrics {
            pending: ready.len() as u64,
            leased: m1.leases.len() as u64,
            dead_letter: dead_count(m1.jobs) as u64,
            oldest_pending_age: oldest_age(m1, now_ms, ready),
        },
    )
}

pub open spec fn max_u64(a: u64, b: u64) -> u64 {
    if a >= b { a } else { b }
}

/// Follower-side effect of one replicated op (after reclaiming).
pub open spec fn apply_spec(m: QueueModel, op: QueueReplicateOp, now_ms: u64) -> QueueModel {
    let m1 = reclaim(m, now_ms);
    match op {
        QueueReplicateOp::Enqueue { job_id, payload, next_job_id, priority, not_before_ms, dedup_key, attempts, max_attempts, .. } => {
            let dk = opt_bytes_view(dedup_key);
            let m2 = QueueModel { next_job_id: max_u64(m1.next_job_id, next_job_id), ..m1 };
            if dk.is_some() && find_dedup(m1, dk.unwrap()).is_some() {
                m2
            } else if m1.jobs.contains_key(job_id) {
                m2
            } else {
                QueueModel {
                    jobs: m1.jobs.insert(
                        job_id,
                        JobModel {
                            payload: payload@,
                            enqueued_at_ms: now_ms,
                            priority,
                            not_before_ms,
                            dedup_key: dk,
                            attempts,
                            max_attempts,
                            dead_letter: false,
                        },
                    ),
                    pending: m1.pending.push(job_id),
                    ..m2
                }
            }
        },
        QueueReplicateOp::Lease { lease_id, job_id, worker_node, worker_instance, next_lease_id, .. } => QueueModel {
            pending: remove_all(m1.pending, job_id),
            leases: insert_lease_absent(
                m1.leases,
                LeaseEntry {
                    lease_id,
                    job_id,
                    worker: WorkerId { node: NodeId(worker_node), instance: worker_instance },
                    expires_at_ms: sat_add_u64(now_ms, FOLLOWER_LEASE_MS),
                },
            ),
            next_lease_id: max_u64(m1.next_lease_id, next_lease_id),
            ..m1
        },
        QueueReplicateOp::Ack { lease_id, job_id } => QueueModel {
            leases: drop_lease(m1.leases, lease_id),
            jobs: m1.jobs.remove(job_id),
            ..m1
        },
        QueueReplicateOp::Nack { lease_id, job_id, attempts, dead_letter, not_before_ms } => apply_release(
            m1,
            lease_id,
            job_id,
            attempts,
            dead_letter,
            not_before_ms,
        ),
        QueueReplicateOp::Reclaim { lease_id, job_id, attempts, dead_letter, not_before_ms } => apply_release(
            m1,
            lease_id,
            job_id,
            attempts,
            dead_letter,
            not_before_ms,
        ),
        QueueReplicateOp::RequeueDeadLetter { job_id, attempts } => if m1.jobs.contains_key(job_id)
            && m1.jobs[job_id].dead_letter {
            QueueModel {
                jobs: m1.jobs.insert(
                    job_id,
                    JobModel { dead_letter: false, attempts, not_before_ms: now_ms, ..m1.jobs[job_id] },
                ),
                pending: m1.pending.push(job_id),
                ..m1
            }
        } else {
            m1
        },
        _ => m1,
    }
}

/// Follower-side release of a lease with the attempt outcome decided by the
/// leader. Only a lease still held is released, so a replay changes nothing.
pub open spec fn apply_release(m1: QueueModel, lease_id: u64, job_id: u64, attempts: u32, dead_letter: bool, not_before_ms: u64) -> QueueModel {
    let m2 = QueueModel { leases: drop_lease(m1.leases, lease_id), ..m1 };
    if !has_lease(m1.leases, lease_id) {
        m1
    } else if m2.jobs.contains_key(job_id) {
        QueueModel {
            jobs: m2.jobs.insert(job_id, JobModel { attempts, dead_letter, not_before_ms, ..m2.jobs[job_id] }),
            pending: if dead_letter { m2.pending } else { m2.pending.push(job_id) },
            ..m2
        }
    } else {
        m2
    }
}

/// The whole outcome of an enqueue at `now`: new state and id as in
/// [`enqueue_spec`], and one `Enqueue` op exactly when a job was stored.
pub open spec fn enqueue_result(m: QueueModel, payload: Seq<u8>, options: EnqueueOptions, now_ms: u64, id: u64, ops: Seq<QueueReplicateOp>, m2: QueueModel) -> bool {
    &&& (m2, id) == enqueue_spec(m, payload, options, now_ms)
    &&& ops.len() == 0 || (ops.len() == 1 && is_enqueue_op(ops[0], id, payload, options, now_ms))
    &&& (ops.len() == 0 <==> m2 == reclaim(m, now_ms))
}

/// The whole outcome of a lease at `now`: the jobs granted by [`lease_spec`],
/// in order, each with its lease id, job id and payload, and one `Lease` op each.
pub open spec fn lease_result(m: QueueModel, worker: WorkerId, max: nat, now_ms: u64, timeout_ms: u64, jobs: Seq<LeasedJob>, ops: Seq<QueueReplicateOp>, m2: QueueModel) -> bool {
    let g = lease_spec(m, worker, max, now_ms, timeout_ms).1;
    let m1 = reclaim(m, now_ms);
    &&& m2 == lease_spec(m, worker, max, now_ms, timeout_ms).0
    &&& jobs.len() == g.len()
    &&& ops.len() == g.len()
    &&& forall|k: int| 0 <= k < g.len() ==> {
        &&& (#[trigger] jobs[k]).lease_id.0 == g[k].lease_id
        &&& jobs[k].job_id.0 == g[k].job_id
        &&& jobs[k].payload@ == m1.jobs[g[k].job_id].payload
        &&& is_lease_op(ops[k], g[k])
    }
}

/// The whole outcome of an ack at `now`: state and error as in [`ack_spec`],
/// and the one `Ack` op on success.
pub open spec fn ack_result(m: QueueModel, worker: WorkerId, lease_id: u64, now_ms: u64, r: Result<Vec<QueueReplicateOp>, QueueError>, m2: QueueModel) -> bool {
    &&& m2 == ack_spec(m, worker, lease_id, now_ms).0
    &&& match (r, ack_spec(m, worker, lease_id, now_ms).1) {
        (Ok(ops), Ok(job_id)) => ops@ == seq![QueueReplicateOp::Ack { lease_id, job_id }],
        (Err(e), Err(e2)) => e == e2,
        _ => false,
    }
}

/// The whole outcome of a nack at `now`: state and error as in [`nack_spec`],
/// and the one `Nack` op carrying the attempt outcome on success.
pub open spec fn nack_result(m: QueueModel, worker: WorkerId, lease_id: u64, now_ms: u64, r: Result<Vec<QueueReplicateOp>, QueueError>, m2: QueueModel) -> bool {
    &&& m2 == nack_spec(m, worker, lease_id, now_ms).0
    &&& match (r, nack_spec(m, worker, lease_id, now_ms).1) {
        (Ok(ops), Ok((job_id, o))) => ops@ == seq![
            QueueReplicateOp::Nack {
                lease_id,
                job_id,
                attempts: o.attempts,
                dead_letter: o.dead_letter,
                not_before_ms: o.not_before_ms,
            },
        ],
        (Err(e), Err(e2)) => e == e2,
        _ => false,
    }
}

/// The whole outcome of a dead-letter requeue at `now`: state and error as in
/// [`requeue_spec`], and the one `RequeueDeadLetter` op on success.
pub open spec fn requeue_result(m: QueueModel, job_id: u64, now_ms: u64, r: Result<Vec<QueueReplicateOp>, QueueError>, m2: QueueModel) -> bool {
    &&& m2 == requeue_spec(m, job_id, now_ms).0
    &&& match (r, requeue_spec(m, job_id, now_ms).1) {
        (Ok(ops), Ok(())) => ops@ == seq![QueueReplicateOp::RequeueDeadLetter { job_id, attempts: 0 }],
        (Err(e), Err(e2)) => e == e2,
        _ => false,
    }
}

/// A result with its replication ops left out.
pub open spec fn without_ops(r: Result<Vec<QueueReplicateOp>, QueueError>) -> Result<(), QueueError> {
    match r {
        Ok(_) => Ok(()),
        Err(e) => Err(e),
    }
}

/// Visibility timeout a follower gives a replicated lease (one hour).
pub const FOLLOWER_LEASE_MS: u64 = 3_600_000;


pub proof fn lemma_dead_count_push(rows: Seq<(u64, JobModel)>, k: u64, v: JobModel)
    requires
        keys_distinct(rows),
        !has_key(rows, k),
        seq_map(rows).dom().finite(),
    ensures
        seq_map(rows.push((k, v))).dom().finite(),
        dead_count(seq_map(rows.push((k, v)))) == dead_count(seq_map(rows)) + if v.dead_letter { 1nat } else { 0nat },
{
    lemma_seq_map_push(rows, k, v);
    let a = seq_map(rows);
    let b = a.insert(k, v);
    assert(b.dom() =~= a.dom().insert(k));
    a.dom().lemma_len_filter(|x: u64| a[x].dead_letter);
    let fa = a.dom().filter(|x: u64| a[x].dead_letter);
    let fb = b.dom().filter(|x: u64| b[x].dead_letter);
    assert(!a.contains_key(k));
    if v.dead_letter {
        assert(fb =~= fa.insert(k));
    } else {
        assert(fb =~= fa);
    }
}

// ---------------------------------------------------------------------------
// The executable queue
// ---------------------------------------------------------------------------

/// In-process job queue — not durable across restarts.
pub struct InMemoryJobQueue {
    lease_timeout_ms: u64,
    next_job_id: u64,
    next_lease_id: u64,
    pending: Vec<u64>,
    jobs: Vec<JobEntry>,
    leases: Vec<LeaseEntry>,
}

impl View for InMemoryJobQueue {
    type V = QueueModel;

    closed spec fn view(&self) -> QueueModel {
        QueueModel {
            next_job_id: self.next_job_id,
            next_lease_id: self.next_lease_id,
            pending: self.pending@,
            jobs: seq_map(self.rows()),
            leases: self.leases@,
        }
    }
}

impl InMemoryJobQueue {
    closed spec fn rows(&self) -> Seq<(u64, JobModel)> {
        self.jobs@.map_values(|e: JobEntry| e.row())
    }

    /// Visibility timeout granted to each lease, in milliseconds.
    pub closed spec fn lease_timeout(&self) -> u64 {
        self.lease_timeout_ms
    }

    /// The queue's structural invariant.
    pub closed spec fn wf(&self) -> bool {
        keys_distinct(self.rows()) && model_wf(self@)
    }

    /// Empty queue with the given visibility timeout for leases, in milliseconds.
    pub fn new(lease_timeout_ms: u64) -> (q: Self)
        ensures
            q.wf(),
            q.lease_timeout() == lease_timeout_ms,
            q@.next_job_id == 1,
            q@.next_lease_id == 1,
            q@.pending == Seq::<u64>::empty(),
            q@.jobs == Map::<u64, JobModel>::empty(),
            q@.leases == Seq::<LeaseEntry>::empty(),
    {
        let q = InMemoryJobQueue {
            lease_timeout_ms,
            next_job_id: 1,
            next_lease_id: 1,
            pending: Vec::new(),
            jobs: Vec::new(),
            leases: Vec::new(),
        };
        assert(q.rows() =~= Seq::<(u64, JobModel)>::empty());
        assert(seq_map(q.rows()) =~= Map::<u64, JobModel>::empty());
        q
    }

    /// Position of job `id` among the stored rows.
    fn find_job(&self, id: u64) -> (r: Option<usize>)
        requires
            self.wf(),
        ensures
            r.is_some() ==> r.unwrap() < self.jobs@.len() && self.rows()[r.unwrap() as int].0 == id
                && self@.jobs.contains_key(id) && self@.jobs[id] == self.rows()[r.unwrap() as int].1,
            r.is_none() ==> !self@.jobs.contains_key(id),
    {
        let mut i: usize = 0;
        while i < self.jobs.len()
            invariant
                self.wf(),
                0 <= i <= self.jobs@.len(),
                forall|j: int| 0 <= j < i ==> self.rows()[j].0 != id,
            decreases self.jobs@.len() - i,
        {
            if self.jobs[i].id == id {
                proof {
                    lemma_seq_map_index(self.rows(), i as int);
                }
                return Some(i);
            }
            i = i + 1;
        }
        proof {
            lemma_seq_map_absent(self.rows(), id);
        }
        None
    }

    /// Charge a failed attempt to a stored job.
    fn fail_job_exec(&mut self, job_id: u64, now_ms: u64) -> (r: Option<AttemptOutcome>)
        requires
            old(self).wf(),
        ensures
            final(self).wf(),
            final(self)@ == fail_job(old(self)@, job_id, now_ms),
            final(self).lease_timeout() == old(self).lease_timeout(),
            r.is_some() == old(self)@.jobs.contains_key(job_id),
            r.is_some() ==> r.unwrap() == failed_attempt_spec(
                old(self)@.jobs[job_id].attempts,
                old(self)@.jobs[job_id].max_attempts,
                now_ms,
            ),
    {
        match self.find_job(job_id) {
            None => None,
            Some(i) => {
                let ghost old_rows = self.rows();
                let mut e = self.jobs.remove(i);
                let o = after_failed_attempt(e.attempts, e.max_attempts, now_ms);
                e.attempts = o.attempts;
                e.dead_letter = o.dead_letter;
                e.not_before_ms = o.not_before_ms;
                self.jobs.insert(i, e);
                if !o.dead_letter {
                    self.pending.push(job_id);
                }
                proof {
                    assert(self.rows() =~= old_rows.update(i as int, (job_id, e.row().1)));
                    lemma_seq_map_update(old_rows, i as int, e.row().1);
                    let m0 = old(self)@;
                    let jm = m0.jobs.insert(job_id, e.row().1);
                    assert forall|a: u64, b: u64|
                        jm.contains_key(a) && jm.contains_key(b) && a != b && jm[a].dedup_key.is_some()
                            implies jm[a].dedup_key != jm[b].dedup_key by {
                        assert(m0.jobs.contains_key(a) && m0.jobs.contains_key(b));
                        assert(jm[a].dedup_key == m0.jobs[a].dedup_key);
                        assert(jm[b].dedup_key == m0.jobs[b].dedup_key);
                    }
                }
                Some(o)
            }
        }
    }

    /// Reclaim every lease whose deadline is at or before `now_ms`.
    fn reclaim_expired(&mut self, now_ms: u64)
        requires
            old(self).wf(),
        ensures
            final(self).wf(),
            final(self)@ == reclaim(old(self)@, now_ms),
            final(self).lease_timeout() == old(self).lease_timeout(),
    {
        let ghost m0 = self@;
        let mut old_leases: Vec<LeaseEntry> = Vec::new();
        std::mem::swap(&mut old_leases, &mut self.leases);
        let n = old_leases.len();
        let mut i: usize = 0;
        assert(self@ == reclaim_upto(m0, now_ms, 0));
        while i < n
            invariant
                n == old_leases@.len(),
                old_leases@ == m0.leases,
                leases_sorted(m0.leases),
                0 <= i <= n,
                keys_distinct(self.rows()),
                dedup_unique(self@.jobs),
                self.lease_timeout() == old(self).lease_timeout(),
                self@ == reclaim_upto(m0, now_ms, i as nat),
                leases_sorted(self.leases@),
                forall|k: int| 0 <= k < self.leases@.len() ==> exists|j: int| 0 <= j < i && #[trigger] self.leases@[k] == old_leases@[j],
            decreases n - i,
        {
            let l = old_leases[i];
            if l.expires_at_ms <= now_ms {
                self.fail_job_exec(l.job_id, now_ms);
            } else {
                proof {
                    assert forall|k: int| 0 <= k < self.leases@.len() implies self.leases@[k].lease_id < l.lease_id by {
                        let j = choose|j: int| 0 <= j < i && self.leases@[k] == old_leases@[j];
                    }
                }
                self.leases.push(l);
                proof {
                    assert forall|k: int| 0 <= k < self.leases@.len() implies exists|j: int| 0 <= j < i + 1 && #[trigger] self.leases@[k] == old_leases@[j] by {
                        if k == self.leases@.len() - 1 {
                            assert(self.leases@[k] == old_leases@[i as int]);
                        } else {
                            let j = choose|j: int| 0 <= j < i && self.leases@[k] == old_leases@[j];
                            assert(self.leases@[k] == old_leases@[j]);
                        }
                    }
                }
            }
            i = i + 1;
        }
    }

    /// The live job holding dedup key `key`.
    fn find_dedup_exec(&self, key: &[u8]) -> (r: Option<u64>)
        requires
            self.wf(),
        ensures
            r == find_dedup(self@, key@),
    {
        let mut i: usize = 0;
        while i < self.jobs.len()
            invariant
                self.wf(),
                0 <= i <= self.jobs@.len(),
                forall|j: int| 0 <= j < i ==> self.rows()[j].1.dedup_key != Some(key@),
            decreases self.jobs@.len() - i,
        {
            let found = match &self.jobs[i].dedup_key {
                Some(k) => bytes_eq(k.as_slice(), key),
                None => false,
            };
            if found {
                let id = self.jobs[i].id;
                proof {
                    lemma_seq_map_index(self.rows(), i as int);
                    let m = self@;
                    assert(m.jobs.contains_key(id) && m.jobs[id].dedup_key == Some(key@));
                    let c = choose|c: u64| m.jobs.contains_key(c) && m.jobs[c].dedup_key == Some(key@);
                    assert(c == id);
                }
                return Some(id);
            }
            i = i + 1;
        }
        proof {
            let m = self@;
            assert forall|id: u64| m.jobs.contains_key(id) implies m.jobs[id].dedup_key != Some(key@) by {
                let j = choose|j: int| 0 <= j < self.rows().len() && self.rows()[j].0 == id;
                lemma_seq_map_index(self.rows(), j);
            }
        }
        None
    }

    /// Store `e` under its id, replacing a stored row with the same id.
    fn put_job(&mut self, e: JobEntry)
        requires
            keys_distinct(old(self).rows()),
        ensures
            keys_distinct(final(self).rows()),
            final(self)@ == (QueueModel { jobs: old(self)@.jobs.insert(e.row().0, e.row().1), ..old(self)@ }),
            final(self).leases@ == old(self).leases@,
            final(self).lease_timeout() == old(self).lease_timeout(),
    {
        let ghost old_rows = self.rows();
        let id = e.id;
        let ghost ev = e;
        let ghost er = ev.row();
        assert(er == (id, er.1));
        let mut i: usize = 0;
        while i < self.jobs.len()
            invariant
                ev == e,
                er == e.row(),
                er.0 == id,
                self.rows() == old_rows,
                old_rows == old(self).rows(),
                self.leases@ == old(self).leases@,
                self.pending@ == old(self).pending@,
                self.next_job_id == old(self).next_job_id,
                self.next_lease_id == old(self).next_lease_id,
                self.lease_timeout_ms == old(self).lease_timeout_ms,
                keys_distinct(old_rows),
                0 <= i <= self.jobs@.len(),
                forall|j: int| 0 <= j < i ==> self.rows()[j].0 != id,
            decreases self.jobs@.len() - i,
        {
            if self.jobs[i].id == id {
                let ghost old_jobs = self.jobs@;
                self.jobs.remove(i);
                self.jobs.insert(i, e);
                proof {
                    assert(self.jobs@[i as int] == ev);
                    assert(self.jobs@.len() == old_jobs.len());
                    assert(self.jobs@ =~= old_jobs.update(i as int, ev));
                    assert(old_rows =~= old_jobs.map_values(|x: JobEntry| x.row()));
                    assert forall|k: int| 0 <= k < self.rows().len() implies #[trigger] self.rows()[k] == old_rows.update(i as int, er)[k] by {
                        if k == i {
                            assert(self.jobs@[k] == ev);
                        } else {
                            assert(self.jobs@[k] == old_jobs[k]);
                        }
                    }
                    assert(self.rows() =~= old_rows.update(i as int, er));
                    lemma_seq_map_update(old_rows, i as int, er.1);
                }
                return;
            }
            i = i + 1;
        }
        self.jobs.push(e);
        proof {
            assert(self.rows() =~= old_rows.push(er));
            lemma_seq_map_push(old_rows, id, er.1);
        }
    }

    /// Whether job ids remain for one more enqueue.
    pub fn has_job_id_room(&self) -> (r: bool)
        ensures
            r == (self@.next_job_id < u64::MAX),
    {
        self.next_job_id < u64::MAX
    }

    /// Enqueue at time `now_ms`; returns the job id and the ops followers apply.
    pub fn enqueue_opts_replicated_at(&mut self, payload: &[u8], options: EnqueueOptions, now_ms: u64) -> (r: (JobId, Vec<QueueReplicateOp>))
        requires
            old(self).wf(),
            old(self)@.next_job_id < u64::MAX,
        ensures
            final(self).wf(),
            final(self).lease_timeout() == old(self).lease_timeout(),
            (final(self)@, r.0.0) == enqueue_spec(old(self)@, payload@, options, now_ms),
            r.1@.len() == 0 || (r.1@.len() == 1 && is_enqueue_op(r.1@[0], r.0.0, payload@, options, now_ms)),
            r.1@.len() == 0 <==> (final(self)@ == reclaim(old(self)@, now_ms)),
    {
        self.reclaim_expired(now_ms);
        let ghost m1 = self@;
        proof {
            lemma_reclaim_upto_frame(old(self)@, now_ms, old(self)@.leases.len());
        }
        let not_before_ms = match options.not_before_ms {
            Some(t) => t,
            None => now_ms,
        };
        let existing = match &options.dedup_key {
            Some(k) => self.find_dedup_exec(k.as_slice()),
            None => None,
        };
        if let Some(id) = existing {
            return (JobId(id), Vec::new());
        }
        let job_id = self.next_job_id;
        self.next_job_id = self.next_job_id + 1;
        let dk = match &options.dedup_key {
            Some(k) => Some(bytes_to_vec(k.as_slice())),
            None => None,
        };
        let dk2 = match &options.dedup_key {
            Some(k) => Some(bytes_to_vec(k.as_slice())),
            None => None,
        };
        let e = JobEntry {
            id: job_id,
            payload: bytes_to_vec(payload),
            enqueued_at_ms: now_ms,
            priority: options.priority,
            not_before_ms,
            dedup_key: dk,
            attempts: 0,
            max_attempts: options.max_attempts,
            dead_letter: false,
        };
        self.put_job(e);
        self.pending.push(job_id);
        let op = QueueReplicateOp::Enqueue {
            job_id,
            payload: bytes_to_vec(payload),
            enqueued_at_ms: now_ms,
            next_job_id: self.next_job_id,
            priority: options.priority,
            not_before_ms,
            dedup_key: dk2,
            attempts: 0,
            max_attempts: options.max_attempts,
        };
        proof {
            let jm = self@.jobs;
            let dk = opt_bytes_view(options.dedup_key);
            assert forall|a: u64, b: u64|
                jm.contains_key(a) && jm.contains_key(b) && a != b && jm[a].dedup_key.is_some()
                    implies jm[a].dedup_key != jm[b].dedup_key by {
                if a != job_id && b != job_id {
                    assert(m1.jobs.contains_key(a) && m1.jobs.contains_key(b));
                } else if a == job_id {
                    assert(m1.jobs.contains_key(b));
                    if m1.jobs[b].dedup_key == dk {
                        assert(find_dedup(m1, dk.unwrap()).is_some());
                    }
                } else {
                    assert(m1.jobs.contains_key(a));
                    if m1.jobs[a].dedup_key == dk {
                        assert(find_dedup(m1, dk.unwrap()).is_some());
                    }
                }
            }
            assert(self@.pending.len() == m1.pending.len() + 1);
        }
        let mut ops: Vec<QueueReplicateOp> = Vec::new();
        ops.push(op);
        (JobId(job_id), ops)
    }

    /// Ready pending ids (with their priorities) in pending order.
    fn ready_candidates(&self, now_ms: u64) -> (r: (Vec<u64>, Vec<u8>))
        requires
            self.wf(),
        ensures
            r.0@ == ready_list(self@, now_ms, self@.pending),
            r.1@.len() == r.0@.len(),
            forall|k: int| 0 <= k < r.0@.len() ==> self@.jobs.contains_key(#[trigger] r.0@[k]),
            forall|k: int| 0 <= k < r.0@.len() ==> #[trigger] r.1@[k] == self@.jobs[r.0@[k]].priority,
    {
        let mut ids: Vec<u64> = Vec::new();
        let mut prios: Vec<u8> = Vec::new();
        let mut i: usize = 0;
        while i < self.pending.len()
            invariant
                self.wf(),
                0 <= i <= self.pending@.len(),
                ids@ == ready_list(self@, now_ms, self@.pending.subrange(0, i as int)),
                prios@.len() == ids@.len(),
                forall|k: int| 0 <= k < ids@.len() ==> self@.jobs.contains_key(#[trigger] ids@[k]),
                forall|k: int| 0 <= k < ids@.len() ==> #[trigger] prios@[k] == self@.jobs[ids@[k]].priority,
            decreases self.pending@.len() - i,
        {
            let id = self.pending[i];
            proof {
                assert(self@.pending.subrange(0, i + 1).drop_last() =~= self@.pending.subrange(0, i as int));
            }
            match self.find_job(id) {
                Some(j) => {
                    proof {
                        assert(self.rows()[j as int] == self.jobs@[j as int].row());
                    }
                    if self.jobs[j].not_before_ms <= now_ms {
                        let ghost ids0 = ids@;
                        let ghost prios0 = prios@;
                        ids.push(id);
                        prios.push(self.jobs[j].priority);
                        proof {
                            assert forall|k: int| 0 <= k < ids@.len() implies self@.jobs.contains_key(#[trigger] ids@[k]) by {
                                if k < ids0.len() {
                                    assert(ids@[k] == ids0[k]);
                                }
                            }
                            assert forall|k: int| 0 <= k < ids@.len() implies #[trigger] prios@[k] == self@.jobs[ids@[k]].priority by {
                                if k < ids0.len() {
                                    assert(ids@[k] == ids0[k] && prios@[k] == prios0[k]);
                                }
                            }
                        }
                    }
                },
                None => {},
            }
            i = i + 1;
        }
        proof {
            assert(self@.pending.subrange(0, self@.pending.len() as int) =~= self@.pending);
        }
        (ids, prios)
    }

    /// Index of the best-ranked candidate.
    fn pick_best(ids: &Vec<u64>, prios: &Vec<u8>, Ghost(m): Ghost<QueueModel>) -> (b: usize)
        requires
            ids@.len() > 0,
            prios@.len() == ids@.len(),
            forall|k: int| 0 <= k < ids@.len() ==> #[trigger] prios@[k] == m.jobs[ids@[k]].priority,
        ensures
            b == best_index(m, ids@),
            b < ids@.len(),
    {
        let mut b: usize = 0;
        let mut i: usize = 1;
        proof {
            assert(ids@.subrange(0, 1).len() == 1);
        }
        while i < ids.len()
            invariant
                1 <= i <= ids@.len(),
                prios@.len() == ids@.len(),
                forall|k: int| 0 <= k < ids@.len() ==> #[trigger] prios@[k] == m.jobs[ids@[k]].priority,
                b < i,
                b == best_index(m, ids@.subrange(0, i as int)),
            decreases ids@.len() - i,
        {
            proof {
                let t = ids@.subrange(0, i + 1);
                assert(t.drop_last() =~= ids@.subrange(0, i as int));
                assert(t.last() == ids@[i as int]);
                assert(t[b as int] == ids@[b as int]);
            }
            if prios[i] > prios[b] || (prios[i] == prios[b] && ids[i] < ids[b]) {
                b = i;
            }
            i = i + 1;
        }
        proof {
            assert(ids@.subrange(0, ids@.len() as int) =~= ids@);
        }
        b
    }

    /// The `max` best-ranked ready jobs at `now_ms`, best first.
    fn select_pending(&self, max: usize, now_ms: u64) -> (sel: Vec<u64>)
        requires
            self.wf(),
        ensures
            sel@ == select_best(self@, ready_list(self@, now_ms, self@.pending), max as nat),
    {
        let (mut ids, mut prios) = self.ready_candidates(now_ms);
        let ghost m = self@;
        let ghost ready = ids@;
        let mut out: Vec<u64> = Vec::new();
        let mut r: usize = 0;
        while r < max && ids.len() > 0
            invariant
                m == self@,
                0 <= r <= max,
                prios@.len() == ids@.len(),
                forall|k: int| 0 <= k < ids@.len() ==> #[trigger] prios@[k] == m.jobs[ids@[k]].priority,
                out@ + select_best(m, ids@, (max - r) as nat) == select_best(m, ready, max as nat),
            decreases max - r,
        {
            let b = Self::pick_best(&ids, &prios, Ghost(m));
            let ghost before = ids@;
            let ghost pbefore = prios@;
            let id = ids.remove(b);
            prios.remove(b);
            out.push(id);
            proof {
                assert(select_best(m, before, (max - r) as nat) == seq![before[b as int]] + select_best(m, before.remove(b as int), (max - r - 1) as nat));
                assert(out@ + select_best(m, ids@, (max - r - 1) as nat) =~= (out@.drop_last() + seq![before[b as int]]) + select_best(m, before.remove(b as int), (max - r - 1) as nat));
                assert forall|k: int| 0 <= k < ids@.len() implies #[trigger] prios@[k] == m.jobs[ids@[k]].priority by {
                    if k < b {
                        assert(prios@[k] == pbefore[k] && ids@[k] == before[k]);
                    } else {
                        assert(prios@[k] == pbefore[k + 1] && ids@[k] == before[k + 1]);
                    }
                }
            }
            r = r + 1;
        }
        proof {
            assert(select_best(m, ids@, (max - r) as nat) =~= Seq::<u64>::empty());
            assert(out@ =~= out@ + Seq::<u64>::empty());
        }
        out
    }

    /// Drop every occurrence of `id` from the pending list.
    fn remove_pending_all(&mut self, id: u64)
        requires
            old(self).wf(),
        ensures
            final(self).wf(),
            final(self)@ == (QueueModel { pending: remove_all(old(self)@.pending, id), ..old(self)@ }),
            final(self).lease_timeout() == old(self).lease_timeout(),
    {
        let mut kept: Vec<u64> = Vec::new();
        let mut i: usize = 0;
        while i < self.pending.len()
            invariant
                0 <= i <= self.pending@.len(),
                kept@ == remove_all(self.pending@.subrange(0, i as int), id),
            decreases self.pending@.len() - i,
        {
            proof {
                assert(self.pending@.subrange(0, i + 1).drop_last() =~= self.pending@.subrange(0, i as int));
            }
            if self.pending[i] != id {
                kept.push(self.pending[i]);
            }
            i = i + 1;
        }
        proof {
            assert(self.pending@.subrange(0, self.pending@.len() as int) =~= self.pending@);
        }
        self.pending = kept;
    }

    /// Insertion position of lease id `id`.
    fn lease_position(&self, id: u64) -> (p: usize)
        requires
            self.wf(),
        ensures
            p == lease_pos(self@.leases, id),
            is_lease_pos(self@.leases, id, p as int),
    {
        let mut i: usize = 0;
        while i < self.leases.len() && self.leases[i].lease_id < id
            invariant
                self.wf(),
                0 <= i <= self.leases@.len(),
                forall|j: int| 0 <= j < i ==> self.leases@[j].lease_id < id,
            decreases self.leases@.len() - i,
        {
            i = i + 1;
        }
        proof {
            assert forall|j: int| i <= j < self.leases@.len() implies self.leases@[j].lease_id >= id by {
                assert(self.leases@[i as int].lease_id >= id);
            }
            lemma_lease_pos(self@.leases, id, i as int);
        }
        i
    }

    /// Store lease `e`, replacing a lease with the same id.
    fn upsert_lease_exec(&mut self, e: LeaseEntry)
        requires
            old(self).wf(),
        ensures
            final(self).wf(),
            final(self)@ == (QueueModel { leases: upsert_lease(old(self)@.leases, e), ..old(self)@ }),
            final(self).lease_timeout() == old(self).lease_timeout(),
    {
        let p = self.lease_position(e.lease_id);
        let ghost s = self.leases@;
        if p < self.leases.len() && self.leases[p].lease_id == e.lease_id {
            self.leases.set(p, e);
        } else {
            self.leases.insert(p, e);
            proof {
                assert forall|a: int, b: int| 0 <= a < b < self.leases@.len() implies self.leases@[a].lease_id < self.leases@[b].lease_id by {
                    if b < p {
                    } else if b == p {
                    } else if a < p {
                        assert(self.leases@[b] == s[b - 1]);
                    } else if a == p {
                        assert(self.leases@[b] == s[b - 1]);
                        if b - 1 == p {
                        } else {
                            assert(s[p as int].lease_id >= e.lease_id);
                            assert(s[p as int].lease_id < s[b - 1].lease_id);
                        }
                    } else {
                        assert(self.leases@[a] == s[a - 1]);
                        assert(self.leases@[b] == s[b - 1]);
                    }
                }
            }
        }
    }

    /// Store lease `e` unless a lease with the same id exists.
    fn insert_lease_if_absent(&mut self, e: LeaseEntry)
        requires
            old(self).wf(),
        ensures
            final(self).wf(),
            final(self)@ == (QueueModel { leases: insert_lease_absent(old(self)@.leases, e), ..old(self)@ }),
            final(self).lease_timeout() == old(self).lease_timeout(),
    {
        let p = self.lease_position(e.lease_id);
        if p < self.leases.len() && self.leases[p].lease_id == e.lease_id {
            return;
        }
        self.upsert_lease_exec(e);
    }

    /// Whether lease ids remain for a lease of every pending and leased job.
    pub fn has_lease_id_room(&self) -> (r: bool)
        ensures
            r == (self@.next_lease_id + self@.pending.len() + self@.leases.len() <= u64::MAX),
    {
        let n = self.pending.len() as u64;
        let l = self.leases.len() as u64;
        n <= u64::MAX - l && self.next_lease_id <= u64::MAX - (n + l)
    }

    /// Lease up to `max` ready jobs to `worker` at time `now_ms`.
    pub fn lease_replicated_at(&mut self, worker: WorkerId, max: usize, now_ms: u64) -> (r: (Vec<LeasedJob>, Vec<QueueReplicateOp>))
        requires
            old(self).wf(),
            old(self)@.next_lease_id + old(self)@.pending.len() + old(self)@.leases.len() <= u64::MAX,
        ensures
            final(self).wf(),
            final(self).lease_timeout() == old(self).lease_timeout(),
            final(self)@ == lease_spec(old(self)@, worker, max as nat, now_ms, old(self).lease_timeout()).0,
            ({
                let g = lease_spec(old(self)@, worker, max as nat, now_ms, old(self).lease_timeout()).1;
                let m1 = reclaim(old(self)@, now_ms);
                &&& r.0@.len() == g.len()
                &&& r.1@.len() == g.len()
                &&& forall|k: int| 0 <= k < g.len() ==> {
                    &&& (#[trigger] r.0@[k]).lease_id.0 == g[k].lease_id
                    &&& r.0@[k].job_id.0 == g[k].job_id
                    &&& r.0@[k].payload@ == m1.jobs[g[k].job_id].payload
                    &&& is_lease_op(r.1@[k], g[k])
                }
            }),
    {
        proof {
            lemma_reclaim_upto_frame(old(self)@, now_ms, old(self)@.leases.len());
        }
        self.reclaim_expired(now_ms);
        let ghost m1 = self@;
        let deadline = saturating_add_u64(now_ms, self.lease_timeout_ms);
        let sel = self.select_pending(max, now_ms);
        proof {
            lemma_ready_list_len(m1, now_ms, m1.pending);
            lemma_select_best_len(m1, ready_list(m1, now_ms, m1.pending), max as nat);
        }
        let mut out: Vec<LeasedJob> = Vec::new();
        let mut ops: Vec<QueueReplicateOp> = Vec::new();
        let mut i: usize = 0;
        while i < sel.len()
            invariant
                self.wf(),
                self.lease_timeout() == old(self).lease_timeout(),
                0 <= i <= sel@.len(),
                m1.next_lease_id + sel@.len() <= u64::MAX,
                self@ == lease_all(m1, sel@, worker, deadline, i as nat),
                ({
                    let g = leases_granted(m1, sel@, worker, deadline, i as nat);
                    &&& out@.len() == g.len()
                    &&& ops@.len() == g.len()
                    &&& forall|k: int| 0 <= k < g.len() ==> {
                        &&& (#[trigger] out@[k]).lease_id.0 == g[k].lease_id
                        &&& out@[k].job_id.0 == g[k].job_id
                        &&& out@[k].payload@ == m1.jobs[g[k].job_id].payload
                        &&& is_lease_op(ops@[k], g[k])
                    }
                }),
            decreases sel@.len() - i,
        {
            proof {
                lemma_lease_all_frame(m1, sel@, worker, deadline, i as nat);
                lemma_lease_all_frame(m1, sel@, worker, deadline, (i + 1) as nat);
            }
            let id = sel[i];
            let ghost g0 = leases_granted(m1, sel@, worker, deadline, i as nat);
            self.remove_pending_all(id);
            match self.find_job(id) {
                Some(j) => {
                    let payload = bytes_to_vec(self.jobs[j].payload.as_slice());
                    proof {
                        assert(self.rows()[j as int] == self.jobs@[j as int].row());
                    }
                    let lease_id = self.next_lease_id;
                    self.upsert_lease_exec(LeaseEntry { lease_id, job_id: id, worker, expires_at_ms: deadline });
                    self.next_lease_id = self.next_lease_id + 1;
                    out.push(LeasedJob { lease_id: LeaseId(lease_id), job_id: JobId(id), payload });
                    ops.push(QueueReplicateOp::Lease {
                        lease_id,
                        job_id: id,
                        worker_node: worker.node.0,
                        worker_instance: worker.instance,
                        expires_at_ms: 0,
                        next_lease_id: self.next_lease_id,
                    });
                    proof {
                        let g = leases_granted(m1, sel@, worker, deadline, (i + 1) as nat);
                        assert(g == g0.push(LeaseEntry { lease_id, job_id: id, worker, expires_at_ms: deadline }));
                        assert forall|k: int| 0 <= k < g.len() implies {
                            &&& (#[trigger] out@[k]).lease_id.0 == g[k].lease_id
                            &&& out@[k].job_id.0 == g[k].job_id
                            &&& out@[k].payload@ == m1.jobs[g[k].job_id].payload
                            &&& is_lease_op(ops@[k], g[k])
                        } by {
                            if k < g0.len() {
                                assert(g[k] == g0[k]);
                            }
                        }
                    }
                },
                None => {},
            }
            i = i + 1;
        }
        (out, ops)
    }

    /// Position of lease `id`.
    fn find_lease(&self, id: u64) -> (r: Option<usize>)
        requires
            self.wf(),
        ensures
            r.is_some() == has_lease(self@.leases, id),
            r.is_some() ==> r.unwrap() as int == lease_index(self@.leases, id) && lease_at(self@.leases, id, r.unwrap() as int),
    {
        let mut i: usize = 0;
        while i < self.leases.len()
            invariant
                self.wf(),
                0 <= i <= self.leases@.len(),
                forall|j: int| 0 <= j < i ==> self.leases@[j].lease_id != id,
            decreases self.leases@.len() - i,
        {
            if self.leases[i].lease_id == id {
                proof {
                    assert(lease_at(self@.leases, id, i as int));
                    let k = lease_index(self@.leases, id);
                    assert(lease_at(self@.leases, id, k));
                    if k != i {
                        if k < i {
                        } else {
                            assert(self.leases@[i as int].lease_id < self.leases@[k].lease_id);
                        }
                    }
                }
                return Some(i);
            }
            i = i + 1;
        }
        None
    }

    /// Remove the lease at position `i`.
    fn remove_lease_at(&mut self, i: usize)
        requires
            old(self).wf(),
            i < old(self)@.leases.len(),
        ensures
            final(self).wf(),
            final(self)@ == (QueueModel { leases: old(self)@.leases.remove(i as int), ..old(self)@ }),
            final(self).lease_timeout() == old(self).lease_timeout(),
    {
        let ghost s = self.leases@;
        self.leases.remove(i);
        proof {
            assert forall|a: int, b: int| 0 <= a < b < self.leases@.len() implies self.leases@[a].lease_id < self.leases@[b].lease_id by {
                let a2 = if a < i { a } else { a + 1 };
                let b2 = if b < i { b } else { b + 1 };
                assert(self.leases@[a] == s[a2]);
                assert(self.leases@[b] == s[b2]);
            }
        }
    }

    /// Remove job `id` (no effect when absent).
    fn remove_job_exec(&mut self, id: u64)
        requires
            old(self).wf(),
        ensures
            final(self).wf(),
            final(self)@ == (QueueModel { jobs: old(self)@.jobs.remove(id), ..old(self)@ }),
            final(self).lease_timeout() == old(self).lease_timeout(),
    {
        match self.find_job(id) {
            None => {
                proof {
                    assert(self@.jobs.remove(id) =~= self@.jobs);
                }
            },
            Some(i) => {
                let ghost old_rows = self.rows();
                let ghost old_jobs = self.jobs@;
                self.jobs.remove(i);
                proof {
                    assert(self.rows() =~= old_rows.remove(i as int));
                    lemma_seq_map_remove(old_rows, i as int);
                    let m0 = old(self)@;
                    let jm = self@.jobs;
                    assert forall|a: u64, b: u64|
                        jm.contains_key(a) && jm.contains_key(b) && a != b && jm[a].dedup_key.is_some()
                            implies jm[a].dedup_key != jm[b].dedup_key by {
                        assert(m0.jobs.contains_key(a) && m0.jobs.contains_key(b));
                    }
                }
            },
        }
    }

    /// Acknowledge a lease at time `now_ms`; returns the op followers apply.
    pub fn ack_replicated_at(&mut self, worker: WorkerId, lease_id: LeaseId, now_ms: u64) -> (r: Result<Vec<QueueReplicateOp>, QueueError>)
        requires
            old(self).wf(),
        ensures
            final(self).wf(),
            final(self).lease_timeout() == old(self).lease_timeout(),
            final(self)@ == ack_spec(old(self)@, worker, lease_id.0, now_ms).0,
            match (r, ack_spec(old(self)@, worker, lease_id.0, now_ms).1) {
                (Ok(ops), Ok(job_id)) => ops@ == seq![QueueReplicateOp::Ack { lease_id: lease_id.0, job_id }],
                (Err(e), Err(e2)) => e == e2,
                _ => false,
            },
    {
        self.reclaim_expired(now_ms);
        match self.find_lease(lease_id.0) {
            None => Err(QueueError::InvalidLease),
            Some(i) => {
                let l = self.leases[i];
                if !same_worker(l.worker, worker) {
                    return Err(QueueError::InvalidLease);
                }
                self.remove_lease_at(i);
                self.remove_job_exec(l.job_id);
                let mut ops: Vec<QueueReplicateOp> = Vec::new();
                ops.push(QueueReplicateOp::Ack { lease_id: lease_id.0, job_id: l.job_id });
                Ok(ops)
            },
        }
    }

    /// Return a lease at time `now_ms`; returns the op followers apply.
    pub fn nack_replicated_at(&mut self, worker: WorkerId, lease_id: LeaseId, now_ms: u64) -> (r: Result<Vec<QueueReplicateOp>, QueueError>)
        requires
            old(self).wf(),
        ensures
            final(self).wf(),
            final(self).lease_timeout() == old(self).lease_timeout(),
            final(self)@ == nack_spec(old(self)@, worker, lease_id.0, now_ms).0,
            match (r, nack_spec(old(self)@, worker, lease_id.0, now_ms).1) {
                (Ok(ops), Ok((job_id, o))) => ops@ == seq![
                    QueueReplicateOp::Nack {
                        lease_id: lease_id.0,
                        job_id,
                        attempts: o.attempts,
                        dead_letter: o.dead_letter,
                        not_before_ms: o.not_before_ms,
                    },
                ],
                (Err(e), Err(e2)) => e == e2,
                _ => false,
            },
    {
        self.reclaim_expired(now_ms);
        match self.find_lease(lease_id.0) {
            None => Err(QueueError::InvalidLease),
            Some(i) => {
                let l = self.leases[i];
                if !same_worker(l.worker, worker) {
                    return Err(QueueError::InvalidLease);
                }
                self.remove_lease_at(i);
                match self.fail_job_exec(l.job_id, now_ms) {
                    None => Err(QueueError::InvalidLease),
                    Some(o) => {
                        let mut ops: Vec<QueueReplicateOp> = Vec::new();
                        ops.push(
                            QueueReplicateOp::Nack {
                                lease_id: lease_id.0,
                                job_id: l.job_id,
                                attempts: o.attempts,
                                dead_letter: o.dead_letter,
                                not_before_ms: o.not_before_ms,
                            },
                        );
                        Ok(ops)
                    },
                }
            },
        }
    }

    /// Move a dead-letter job back to pending at time `now_ms`.
    pub fn requeue_dead_letter_replicated_at(&mut self, job_id: JobId, now_ms: u64) -> (r: Result<Vec<QueueReplicateOp>, QueueError>)
        requires
            old(self).wf(),
        ensures
            final(self).wf(),
            final(self).lease_timeout() == old(self).lease_timeout(),
            final(self)@ == requeue_spec(old(self)@, job_id.0, now_ms).0,
            match (r, requeue_spec(old(self)@, job_id.0, now_ms).1) {
                (Ok(ops), Ok(())) => ops@ == seq![QueueReplicateOp::RequeueDeadLetter { job_id: job_id.0, attempts: 0 }],
                (Err(e), Err(e2)) => e == e2,
                _ => false,
            },
    {
        self.reclaim_expired(now_ms);
        match self.find_job(job_id.0) {
            None => Err(QueueError::NotDeadLetter),
            Some(i) => {
                if !self.jobs[i].dead_letter {
                    proof {
                        assert(self.rows()[i as int] == self.jobs@[i as int].row());
                    }
                    return Err(QueueError::NotDeadLetter);
                }
                let ghost old_rows = self.rows();
                let ghost m1 = self@;
                let mut e = self.jobs.remove(i);
                e.dead_letter = false;
                e.attempts = 0;
                e.not_before_ms = now_ms;
                self.jobs.insert(i, e);
                self.pending.push(job_id.0);
                proof {
                    assert(old_rows[i as int].1.dead_letter);
                    assert(self.rows() =~= old_rows.update(i as int, (job_id.0, e.row().1)));
                    lemma_seq_map_update(old_rows, i as int, e.row().1);
                    let jm = self@.jobs;
                    assert forall|a: u64, b: u64|
                        jm.contains_key(a) && jm.contains_key(b) && a != b && jm[a].dedup_key.is_some()
                            implies jm[a].dedup_key != jm[b].dedup_key by {
                        assert(m1.jobs.contains_key(a) && m1.jobs.contains_key(b));
                        assert(jm[a].dedup_key == m1.jobs[a].dedup_key);
                        assert(jm[b].dedup_key == m1.jobs[b].dedup_key);
                    }
                    assert(self@.jobs =~= m1.jobs.insert(job_id.0, JobModel { dead_letter: false, attempts: 0, not_before_ms: now_ms, ..m1.jobs[job_id.0] }));
                }
                let mut ops: Vec<QueueReplicateOp> = Vec::new();
                ops.push(QueueReplicateOp::RequeueDeadLetter { job_id: job_id.0, attempts: 0 });
                Ok(ops)
            },
        }
    }

    /// Worker of the first lease on `job_id`.
    fn first_lease_worker(&self, job_id: u64) -> (r: Option<WorkerId>)
        requires
            self.wf(),
        ensures
            r == leased_by(self@.leases, job_id),
    {
        let mut i: usize = 0;
        while i < self.leases.len()
            invariant
                self.wf(),
                0 <= i <= self.leases@.len(),
                forall|j: int| 0 <= j < i ==> self.leases@[j].job_id != job_id,
            decreases self.leases@.len() - i,
        {
            if self.leases[i].job_id == job_id {
                proof {
                    let s = self.leases@;
                    assert(first_lease_of_at(s, job_id, i as int));
                    let c = choose|c: int| #[trigger] first_lease_of_at(s, job_id, c);
                    if c < i {
                        assert(s[c].job_id != job_id);
                    }
                    if c > i {
                        assert(s[i as int].job_id != job_id);
                    }
                }
                return Some(self.leases[i].worker);
            }
            i = i + 1;
        }
        None
    }

    /// Whether `id` is on the pending list.
    fn pending_contains(&self, id: u64) -> (r: bool)
        ensures
            r == self@.pending.contains(id),
    {
        let mut i: usize = 0;
        while i < self.pending.len()
            invariant
                0 <= i <= self.pending@.len(),
                forall|j: int| 0 <= j < i ==> self.pending@[j] != id,
            decreases self.pending@.len() - i,
        {
            if self.pending[i] == id {
                proof {
                    assert(self@.pending[i as int] == id);
                }
                return true;
            }
            i = i + 1;
        }
        false
    }

    /// Status of a job at time `now_ms`.
    pub fn job_status_at(&mut self, job_id: JobId, now_ms: u64) -> (r: Option<JobStatus>)
        requires
            old(self).wf(),
        ensures
            final(self).wf(),
            final(self).lease_timeout() == old(self).lease_timeout(),
            (final(self)@, r) == job_status_spec(old(self)@, job_id.0, now_ms),
    {
        self.reclaim_expired(now_ms);
        match self.find_job(job_id.0) {
            None => None,
            Some(i) => {
                proof {
                    assert(self.rows()[i as int] == self.jobs@[i as int].row());
                }
                let lb = self.first_lease_worker(job_id.0);
                let dead = self.jobs[i].dead_letter;
                let nb = self.jobs[i].not_before_ms;
                let lifecycle = if dead {
                    JobLifecycle::DeadLetter
                } else if lb.is_some() {
                    JobLifecycle::Leased
                } else if nb > now_ms {
                    JobLifecycle::Delayed
                } else if self.pending_contains(job_id.0) {
                    JobLifecycle::Pending
                } else {
                    return None;
                };
                Some(JobStatus {
                    job_id,
                    lifecycle,
                    payload_len: self.jobs[i].payload.len() as u64,
                    priority: self.jobs[i].priority,
                    leased_by: lb,
                    attempts: self.jobs[i].attempts,
                    max_attempts: self.jobs[i].max_attempts,
                })
            },
        }
    }

    /// Number of dead-letter jobs.
    fn count_dead(&self) -> (n: u64)
        requires
            self.wf(),
        ensures
            n as nat == dead_count(self@.jobs),
    {
        let mut n: u64 = 0;
        let mut i: usize = 0;
        proof {
            assert(self.rows().subrange(0, 0) =~= Seq::<(u64, JobModel)>::empty());
            assert(seq_map(Seq::<(u64, JobModel)>::empty()).dom() =~= Set::<u64>::empty());
            assert(seq_map(Seq::<(u64, JobModel)>::empty()).dom().filter(|x: u64| seq_map(Seq::<(u64, JobModel)>::empty())[x].dead_letter) =~= Set::<u64>::empty());
        }
        while i < self.jobs.len()
            invariant
                self.wf(),
                0 <= i <= self.jobs@.len(),
                n <= i,
                seq_map(self.rows().subrange(0, i as int)).dom().finite(),
                n as nat == dead_count(seq_map(self.rows().subrange(0, i as int))),
            decreases self.jobs@.len() - i,
        {
            let ghost pre = self.rows().subrange(0, i as int);
            let ghost r = self.rows()[i as int];
            proof {
                assert(self.rows().subrange(0, i + 1) =~= pre.push(r));
                assert(keys_distinct(pre));
                assert forall|j: int| 0 <= j < pre.len() implies pre[j].0 != r.0 by {
                    assert(self.rows()[j].0 != self.rows()[i as int].0);
                }
                lemma_dead_count_push(pre, r.0, r.1);
                assert(self.rows()[i as int] == self.jobs@[i as int].row());
            }
            if self.jobs[i].dead_letter {
                n = n + 1;
            }
            i = i + 1;
        }
        proof {
            assert(self.rows().subrange(0, self.jobs@.len() as int) =~= self.rows());
        }
        n
    }

    /// Depth gauges at time `now_ms`.
    pub fn metrics_at(&mut self, now_ms: u64) -> (r: QueueMetrics)
        requires
            old(self).wf(),
        ensures
            final(self).wf(),
            final(self).lease_timeout() == old(self).lease_timeout(),
            (final(self)@, r) == metrics_spec(old(self)@, now_ms),
    {
        self.reclaim_expired(now_ms);
        let ghost m1 = self@;
        let mut count: u64 = 0;
        let mut oldest: u64 = 0;
        let mut i: usize = 0;
        while i < self.pending.len()
            invariant
                self.wf(),
                self@ == m1,
                0 <= i <= self.pending@.len(),
                count as nat == ready_list(m1, now_ms, m1.pending.subrange(0, i as int)).len(),
                count <= i,
                oldest == oldest_age(m1, now_ms, ready_list(m1, now_ms, m1.pending.subrange(0, i as int))),
            decreases self.pending@.len() - i,
        {
            let id = self.pending[i];
            proof {
                assert(m1.pending.subrange(0, i + 1).drop_last() =~= m1.pending.subrange(0, i as int));
            }
            match self.find_job(id) {
                Some(j) => {
                    proof {
                        assert(self.rows()[j as int] == self.jobs@[j as int].row());
                    }
                    if self.jobs[j].not_before_ms <= now_ms {
                        proof {
                            let r = ready_list(m1, now_ms, m1.pending.subrange(0, i as int));
                            assert(r.push(id).drop_last() =~= r);
                            assert(m1.pending.subrange(0, i + 1).last() == id);
                        }
                        count = count + 1;
                        let e = self.jobs[j].enqueued_at_ms;
                        let age: u64 = if e <= now_ms { now_ms - e } else { 0 };
                        if age > oldest {
                            oldest = age;
                        }
                    }
                },
                None => {},
            }
            i = i + 1;
        }
        proof {
            assert(m1.pending.subrange(0, m1.pending.len() as int) =~= m1.pending);
        }
        let dead = self.count_dead();
        QueueMetrics {
            pending: count,
            leased: self.leases.len() as u64,
            dead_letter: dead,
            oldest_pending_age: oldest,
        }
    }

    /// Set a stored job's attempt fields and re-queue it unless dead-lettered.
    fn set_attempt_state(&mut self, job_id: u64, attempts: u32, dead_letter: bool, not_before_ms: u64)
        requires
            old(self).wf(),
        ensures
            final(self).wf(),
            final(self).lease_timeout() == old(self).lease_timeout(),
            final(self)@ == if old(self)@.jobs.contains_key(job_id) {
                QueueModel {
                    jobs: old(self)@.jobs.insert(job_id, JobModel { attempts, dead_letter, not_before_ms, ..old(self)@.jobs[job_id] }),
                    pending: if dead_letter { old(self)@.pending } else { old(self)@.pending.push(job_id) },
                    ..old(self)@
                }
            } else {
                old(self)@
            },
    {
        match self.find_job(job_id) {
            None => {},
            Some(i) => {
                let ghost old_rows = self.rows();
                let ghost m0 = self@;
                let mut e = self.jobs.remove(i);
                e.attempts = attempts;
                e.dead_letter = dead_letter;
                e.not_before_ms = not_before_ms;
                self.jobs.insert(i, e);
                if !dead_letter {
                    self.pending.push(job_id);
                }
                proof {
                    assert(self.rows() =~= old_rows.update(i as int, (job_id, e.row().1)));
                    lemma_seq_map_update(old_rows, i as int, e.row().1);
                    let jm = self@.jobs;
                    assert forall|a: u64, b: u64|
                        jm.contains_key(a) && jm.contains_key(b) && a != b && jm[a].dedup_key.is_some()
                            implies jm[a].dedup_key != jm[b].dedup_key by {
                        assert(m0.jobs.contains_key(a) && m0.jobs.contains_key(b));
                        assert(jm[a].dedup_key == m0.jobs[a].dedup_key);
                        assert(jm[b].dedup_key == m0.jobs[b].dedup_key);
                    }
                    assert(self@.jobs =~= m0.jobs.insert(job_id, JobModel { attempts, dead_letter, not_before_ms, ..m0.jobs[job_id] }));
                }
            },
        }
    }

    /// Drop lease `lease_id` when present.
    fn drop_lease_exec(&mut self, lease_id: u64)
        requires
            old(self).wf(),
        ensures
            final(self).wf(),
            final(self).lease_timeout() == old(self).lease_timeout(),
            final(self)@ == (QueueModel { leases: drop_lease(old(self)@.leases, lease_id), ..old(self)@ }),
    {
        match self.find_lease(lease_id) {
            Some(i) => self.remove_lease_at(i),
            None => {},
        }
    }

    /// Apply one op replicated from the leader, at time `now_ms` (idempotent on replay).
    pub fn apply_replicate_at(&mut self, op: &QueueReplicateOp, now_ms: u64) -> (r: Result<(), QueueError>)
        requires
            old(self).wf(),
        ensures
            final(self).wf(),
            final(self).lease_timeout() == old(self).lease_timeout(),
            final(self)@ == apply_spec(old(self)@, *op, now_ms),
            r.is_ok(),
    {
        self.reclaim_expired(now_ms);
        let ghost m1 = self@;
        match op {
            QueueReplicateOp::Enqueue { job_id, payload, next_job_id, priority, not_before_ms, dedup_key, attempts, max_attempts, .. } => {
                let dup = match dedup_key {
                    Some(k) => self.find_dedup_exec(k.as_slice()).is_some(),
                    None => false,
                };
                if !dup {
                    if self.find_job(*job_id).is_none() {
                        let dk = match dedup_key {
                            Some(k) => Some(bytes_to_vec(k.as_slice())),
                            None => None,
                        };
                        let e = JobEntry {
                            id: *job_id,
                            payload: bytes_to_vec(payload.as_slice()),
                            enqueued_at_ms: now_ms,
                            priority: *priority,
                            not_before_ms: *not_before_ms,
                            dedup_key: dk,
                            attempts: *attempts,
                            max_attempts: *max_attempts,
                            dead_letter: false,
                        };
                        self.put_job(e);
                        self.pending.push(*job_id);
                        proof {
                            let jm = self@.jobs;
                            let dk = opt_bytes_view(*dedup_key);
                            assert forall|a: u64, b: u64|
                                jm.contains_key(a) && jm.contains_key(b) && a != b && jm[a].dedup_key.is_some()
                                    implies jm[a].dedup_key != jm[b].dedup_key by {
                                if a != *job_id && b != *job_id {
                                    assert(m1.jobs.contains_key(a) && m1.jobs.contains_key(b));
                                } else if a == *job_id {
                                    assert(m1.jobs.contains_key(b));
                                    if m1.jobs[b].dedup_key == dk {
                                        assert(find_dedup(m1, dk.unwrap()).is_some());
                                    }
                                } else {
                                    assert(m1.jobs.contains_key(a));
                                    if m1.jobs[a].dedup_key == dk {
                                        assert(find_dedup(m1, dk.unwrap()).is_some());
                                    }
                                }
                            }
                        }
                    }
                }
                if *next_job_id > self.next_job_id {
                    self.next_job_id = *next_job_id;
                }
            },
            QueueReplicateOp::Lease { lease_id, job_id, worker_node, worker_instance, next_lease_id, .. } => {
                self.remove_pending_all(*job_id);
                let e = LeaseEntry {
                    lease_id: *lease_id,
                    job_id: *job_id,
                    worker: WorkerId { node: NodeId(*worker_node), instance: *worker_instance },
                    expires_at_ms: saturating_add_u64(now_ms, FOLLOWER_LEASE_MS),
                };
                self.insert_lease_if_absent(e);
                if *next_lease_id > self.next_lease_id {
                    self.next_lease_id = *next_lease_id;
                }
            },
            QueueReplicateOp::Ack { lease_id, job_id } => {
                self.drop_lease_exec(*lease_id);
                self.remove_job_exec(*job_id);
            },
            QueueReplicateOp::Nack { lease_id, job_id, attempts, dead_letter, not_before_ms } => {
                if self.find_lease(*lease_id).is_some() {
                    self.drop_lease_exec(*lease_id);
                    self.set_attempt_state(*job_id, *attempts, *dead_letter, *not_before_ms);
                }
            },
            QueueReplicateOp::Reclaim { lease_id, job_id, attempts, dead_letter, not_before_ms } => {
                if self.find_lease(*lease_id).is_some() {
                    self.drop_lease_exec(*lease_id);
                    self.set_attempt_state(*job_id, *attempts, *dead_letter, *not_before_ms);
                }
            },
            QueueReplicateOp::RequeueDeadLetter { job_id, attempts } => {
                match self.find_job(*job_id) {
                    Some(i) => {
                        if self.jobs[i].dead_letter {
                            self.set_attempt_state(*job_id, *attempts, false, now_ms);
                        }
                    },
                    None => {},
                }
            },
            QueueReplicateOp::UpsertSchedule { .. } => {},
            QueueReplicateOp::UpdateScheduleNextRun { .. } => {},
        }
        Ok(())
    }

    /// Append a job with `options` at the current time; returns its id and the ops followers apply.
    pub fn enqueue_opts_replicated(&mut self, payload: &[u8], options: EnqueueOptions) -> (r: Result<(JobId, Vec<QueueReplicateOp>), QueueError>)
        requires
            old(self).wf(),
            old(self)@.next_job_id < u64::MAX,
        ensures
            final(self).wf(),
            final(self).lease_timeout() == old(self).lease_timeout(),
            r.is_ok(),
            exists|t: u64| #[trigger] enqueue_result(old(self)@, payload@, options, t, r.unwrap().0.0, r.unwrap().1@, final(self)@),
    {
        let now = unix_now_ms();
        let r = self.enqueue_opts_replicated_at(payload, options, now);
        let res: Result<(JobId, Vec<QueueReplicateOp>), QueueError> = Ok(r);
        assert(enqueue_result(old(self)@, payload@, options, now, res.unwrap().0.0, res.unwrap().1@, self@));
        res
    }

    /// Append a job with `options` at the current time.
    pub fn enqueue_opts(&mut self, payload: &[u8], options: EnqueueOptions) -> (r: Result<JobId, QueueError>)
        requires
            old(self).wf(),
            old(self)@.next_job_id < u64::MAX,
        ensures
            final(self).wf(),
            final(self).lease_timeout() == old(self).lease_timeout(),
            r.is_ok(),
            exists|t: u64, ops: Seq<QueueReplicateOp>| #[trigger] enqueue_result(old(self)@, payload@, options, t, r.unwrap().0, ops, final(self)@),
    {
        let now = unix_now_ms();
        let r = self.enqueue_opts_replicated_at(payload, options, now);
        let ghost ops = r.1@;
        let res: Result<JobId, QueueError> = Ok(r.0);
        assert(enqueue_result(old(self)@, payload@, options, now, res.unwrap().0, ops, self@));
        res
    }

    /// Append a job with default options at the current time.
    pub fn enqueue(&mut self, payload: &[u8]) -> (r: Result<JobId, QueueError>)
        requires
            old(self).wf(),
            old(self)@.next_job_id < u64::MAX,
        ensures
            final(self).wf(),
            final(self).lease_timeout() == old(self).lease_timeout(),
            r.is_ok(),
            exists|t: u64, o: EnqueueOptions, ops: Seq<QueueReplicateOp>| default_options_spec(o)
                && #[trigger] enqueue_result(old(self)@, payload@, o, t, r.unwrap().0, ops, final(self)@),
    {
        let o = EnqueueOptions::new();
        let ghost og = o;
        let now = unix_now_ms();
        let r = self.enqueue_opts_replicated_at(payload, o, now);
        let ghost ops = r.1@;
        let res: Result<JobId, QueueError> = Ok(r.0);
        assert(default_options_spec(og) && enqueue_result(old(self)@, payload@, og, now, res.unwrap().0, ops, self@));
        res
    }

    /// Lease up to `max` ready jobs to `worker` at the current time, with the ops followers apply.
    pub fn lease_replicated(&mut self, worker: WorkerId, max: usize) -> (r: Result<(Vec<LeasedJob>, Vec<QueueReplicateOp>), QueueError>)
        requires
            old(self).wf(),
            old(self)@.next_lease_id + old(self)@.pending.len() + old(self)@.leases.len() <= u64::MAX,
        ensures
            final(self).wf(),
            final(self).lease_timeout() == old(self).lease_timeout(),
            r.is_ok(),
            exists|t: u64| #[trigger] lease_result(old(self)@, worker, max as nat, t, old(self).lease_timeout(), r.unwrap().0@, r.unwrap().1@, final(self)@),
    {
        let now = unix_now_ms();
        let r = self.lease_replicated_at(worker, max, now);
        let res: Result<(Vec<LeasedJob>, Vec<QueueReplicateOp>), QueueError> = Ok(r);
        assert(lease_result(old(self)@, worker, max as nat, now, old(self).lease_timeout(), res.unwrap().0@, res.unwrap().1@, self@));
        res
    }

    /// Lease up to `max` ready jobs to `worker` at the current time.
    pub fn lease(&mut self, worker: WorkerId, max: usize) -> (r: Result<Vec<LeasedJob>, QueueError>)
        requires
            old(self).wf(),
            old(self)@.next_lease_id + old(self)@.pending.len() + old(self)@.leases.len() <= u64::MAX,
        ensures
            final(self).wf(),
            final(self).lease_timeout() == old(self).lease_timeout(),
            r.is_ok(),
            exists|t: u64, ops: Seq<QueueReplicateOp>| #[trigger] lease_result(old(self)@, worker, max as nat, t, old(self).lease_timeout(), r.unwrap()@, ops, final(self)@),
    {
        let now = unix_now_ms();
        let r = self.lease_replicated_at(worker, max, now);
        let ghost ops = r.1@;
        let res: Result<Vec<LeasedJob>, QueueError> = Ok(r.0);
        assert(lease_result(old(self)@, worker, max as nat, now, old(self).lease_timeout(), res.unwrap()@, ops, self@));
        res
    }

    /// Acknowledge a lease at the current time, with the op followers apply.
    pub fn ack_replicated(&mut self, worker: WorkerId, lease_id: LeaseId) -> (r: Result<Vec<QueueReplicateOp>, QueueError>)
        requires
            old(self).wf(),
        ensures
            final(self).wf(),
            final(self).lease_timeout() == old(self).lease_timeout(),
            exists|t: u64| #[trigger] ack_result(old(self)@, worker, lease_id.0, t, r, final(self)@),
    {
        let now = unix_now_ms();
        let r = self.ack_replicated_at(worker, lease_id, now);
        assert(ack_result(old(self)@, worker, lease_id.0, now, r, self@));
        r
    }

    /// Acknowledge a lease at the current time (the job is done).
    pub fn ack(&mut self, worker: WorkerId, lease_id: LeaseId) -> (r: Result<(), QueueError>)
        requires
            old(self).wf(),
        ensures
            final(self).wf(),
            final(self).lease_timeout() == old(self).lease_timeout(),
            exists|t: u64, full: Result<Vec<QueueReplicateOp>, QueueError>|
                #[trigger] ack_result(old(self)@, worker, lease_id.0, t, full, final(self)@) && r == without_ops(full),
    {
        let now = unix_now_ms();
        let full = self.ack_replicated_at(worker, lease_id, now);
        assert(ack_result(old(self)@, worker, lease_id.0, now, full, self@));
        match full {
            Ok(_) => Ok(()),
            Err(e) => Err(e),
        }
    }

    /// Return a lease at the current time, with the op followers apply.
    pub fn nack_replicated(&mut self, worker: WorkerId, lease_id: LeaseId) -> (r: Result<Vec<QueueReplicateOp>, QueueError>)
        requires
            old(self).wf(),
        ensures
            final(self).wf(),
            final(self).lease_timeout() == old(self).lease_timeout(),
            exists|t: u64| #[trigger] nack_result(old(self)@, worker, lease_id.0, t, r, final(self)@),
    {
        let now = unix_now_ms();
        let r = self.nack_replicated_at(worker, lease_id, now);
        assert(nack_result(old(self)@, worker, lease_id.0, now, r, self@));
        r
    }

    /// Return a lease at the current time (the job is retried or dead-lettered).
    pub fn nack(&mut self, worker: WorkerId, lease_id: LeaseId) -> (r: Result<(), QueueError>)
        requires
            old(self).wf(),
        ensures
            final(self).wf(),
            final(self).lease_timeout() == old(self).lease_timeout(),
            exists|t: u64, full: Result<Vec<QueueReplicateOp>, QueueError>|
                #[trigger] nack_result(old(self)@, worker, lease_id.0, t, full, final(self)@) && r == without_ops(full),
    {
        let now = unix_now_ms();
        let full = self.nack_replicated_at(worker, lease_id, now);
        assert(nack_result(old(self)@, worker, lease_id.0, now, full, self@));
        match full {
            Ok(_) => Ok(()),
            Err(e) => Err(e),
        }
    }

    /// Move a dead-letter job back to pending at the current time, with the op followers apply.
    pub fn requeue_dead_letter_replicated(&mut self, job_id: JobId) -> (r: Result<Vec<QueueReplicateOp>, QueueError>)
        requires
            old(self).wf(),
        ensures
            final(self).wf(),
            final(self).lease_timeout() == old(self).lease_timeout(),
            exists|t: u64| #[trigger] requeue_result(old(self)@, job_id.0, t, r, final(self)@),
    {
        let now = unix_now_ms();
        let r = self.requeue_dead_letter_replicated_at(job_id, now);
        assert(requeue_result(old(self)@, job_id.0, now, r, self@));
        r
    }

    /// Move a dead-letter job back to pending at the current time.
    pub fn requeue_dead_letter(&mut self, job_id: JobId) -> (r: Result<(), QueueError>)
        requires
            old(self).wf(),
        ensures
            final(self).wf(),
            final(self).lease_timeout() == old(self).lease_timeout(),
            exists|t: u64, full: Result<Vec<QueueReplicateOp>, QueueError>|
                #[trigger] requeue_result(old(self)@, job_id.0, t, full, final(self)@) && r == without_ops(full),
    {
        let now = unix_now_ms();
        let full = self.requeue_dead_letter_replicated_at(job_id, now);
        assert(requeue_result(old(self)@, job_id.0, now, full, self@));
        match full {
            Ok(_) => Ok(()),
            Err(e) => Err(e),
        }
    }

    /// Depth gauges at the current time.
    pub fn metrics(&mut self) -> (r: Result<QueueMetrics, QueueError>)
        requires
            old(self).wf(),
        ensures
            final(self).wf(),
            final(self).lease_timeout() == old(self).lease_timeout(),
            r.is_ok(),
            exists|t: u64| (final(self)@, r.unwrap()) == #[trigger] metrics_spec(old(self)@, t),
    {
        let now = unix_now_ms();
        let m = self.metrics_at(now);
        assert((self@, m) == metrics_spec(old(self)@, now));
        Ok(m)
    }

    /// Status of a job at the current time (`None` when acked or unknown).
    pub fn job_status(&mut self, job_id: JobId) -> (r: Result<Option<JobStatus>, QueueError>)
        requires
            old(self).wf(),
        ensures
            final(self).wf(),
            final(self).lease_timeout() == old(self).lease_timeout(),
            r.is_ok(),
            exists|t: u64| (final(self)@, r.unwrap()) == #[trigger] job_status_spec(old(self)@, job_id.0, t),
    {
        let now = unix_now_ms();
        let s = self.job_status_at(job_id, now);
        assert((self@, s) == job_status_spec(old(self)@, job_id.0, now));
        Ok(s)
    }

    /// Apply one op replicated from the leader at the current time.
    pub fn apply_replicate(&mut self, op: &QueueReplicateOp) -> (r: Result<(), QueueError>)
        requires
            old(self).wf(),
        ensures
            final(self).wf(),
            final(self).lease_timeout() == old(self).lease_timeout(),
            r.is_ok(),
            exists|t: u64| final(self)@ == #[trigger] apply_spec(old(self)@, *op, t),
    {
        let now = unix_now_ms();
        self.apply_replicate_at(op, now)
    }
}

} // verus!
