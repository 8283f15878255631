//! Durable job backlog vocabulary: options, statuses, errors, replication ops
//! and the retry rule shared by queues and topics.
use vstd::prelude::*;

use crate::ids::{JobId, LeaseId, WorkerId};

verus! {

/// A job handed to a worker under lease.
#[derive(Debug, Clone, PartialEq, Eq)]
pub struct LeasedJob {
    /// Token required for ack/nack.
    pub lease_id: LeaseId,
    /// Job id within the stream.
    pub job_id: JobId,
    /// Opaque payload from enqueue.
    pub payload: Vec<u8>,
}

/// Options for an enqueue.
#[derive(Debug, Clone, PartialEq, Eq)]
pub struct EnqueueOptions {
    /// Higher priority jobs are leased first (default `0`).
    pub priority: u8,
    /// Do not lease before this unix timestamp in milliseconds (`None` = now).
    pub not_before_ms: Option<u64>,
    /// Routes to a shard when using a sharded queue.
    pub shard_key: Option<Vec<u8>>,
    /// Client-supplied idempotency token; duplicate enqueues return the same job id.
    pub dedup_key: Option<Vec<u8>>,
    /// Maximum delivery attempts before dead letter (`0` = unlimited retries).
    pub max_attempts: u32,
}

/// The all-default options: priority 0, visible now, no routing or dedup key, unlimited retries.
pub open spec fn default_options_spec(o: EnqueueOptions) -> bool {
    &&& o.priority == 0
    &&& o.not_before_ms.is_none()
    &&& o.shard_key.is_none()
    &&& o.dedup_key.is_none()
    &&& o.max_attempts == 0
}

#[verifier::external_type_specification]
#[verifier::external_body]
pub struct ExSystemTime(std::time::SystemTime);

/// `std::time::SystemTime::now`: the system clock's current reading. Nothing
/// is claimed of the value, which depends on the clock.
#[verifier::external_body]
fn system_now() -> std::time::SystemTime {
    std::time::SystemTime::now()
}

/// `SystemTime::duration_since(UNIX_EPOCH)`: the time elapsed since the unix
/// epoch, or `None` when `t` lies before it. Nothing is claimed of the
/// duration, which is opaque here.
#[verifier::external_body]
fn since_unix_epoch(t: &std::time::SystemTime) -> Option<std::time::Duration> {
    t.duration_since(std::time::UNIX_EPOCH).ok()
}

/// `Duration::as_millis`: the whole milliseconds in `d`. Nothing is claimed of
/// the count, the duration being opaque here.
#[verifier::external_body]
fn duration_millis(d: &std::time::Duration) -> u128 {
    d.as_millis()
}

/// Current unix time in milliseconds (0 before the epoch, saturating at `u64::MAX`).
pub(crate) fn unix_now_ms() -> u64 {
    let now = system_now();
    match since_unix_epoch(&now) {
        Some(d) => {
            let ms = duration_millis(&d);
            if ms > 18446744073709551615u128 { u64::MAX } else { ms as u64 }
        },
        None => 0,
    }
}

impl EnqueueOptions {
    /// Options with every field at its default.
    pub fn new() -> (o: Self)
        ensures
            default_options_spec(o),
    {
        EnqueueOptions {
            priority: 0,
            not_before_ms: None,
            shard_key: None,
            dedup_key: None,
            max_attempts: 0,
        }
    }

    /// Job with elevated priority.
    pub fn priority(priority: u8) -> (o: Self)
        ensures
            o.priority == priority,
            o.not_before_ms.is_none(),
            o.shard_key.is_none(),
            o.dedup_key.is_none(),
            o.max_attempts == 0,
    {
        EnqueueOptions { priority, ..EnqueueOptions::new() }
    }

    /// Job that becomes visible `delay_ms` after `now_ms` (saturating).
    pub fn delayed_from(now_ms: u64, delay_ms: u64) -> (o: Self)
        ensures
            o.not_before_ms == Some(sat_add_u64(now_ms, delay_ms)),
            o.priority == 0,
            o.shard_key.is_none(),
            o.dedup_key.is_none(),
            o.max_attempts == 0,
    {
        EnqueueOptions { not_before_ms: Some(saturating_add_u64(now_ms, delay_ms)), ..EnqueueOptions::new() }
    }

    /// Job that becomes visible `delay_ms` milliseconds from the current clock.
    pub fn delayed(delay_ms: u64) -> (o: Self)
        ensures
            exists|t: u64| o.not_before_ms == Some(#[trigger] sat_add_u64(t, delay_ms)),
            o.priority == 0,
            o.shard_key.is_none(),
            o.dedup_key.is_none(),
            o.max_attempts == 0,
    {
        let now = unix_now_ms();
        let o = EnqueueOptions::delayed_from(now, delay_ms);
        assert(o.not_before_ms == Some(sat_add_u64(now, delay_ms)));
        o
    }

    /// Job with a client idempotency key (safe enqueue retries).
    pub fn dedup_key(key: Vec<u8>) -> (o: Self)
        ensures
            o.dedup_key == Some(key),
            o.priority == 0,
            o.not_before_ms.is_none(),
            o.shard_key.is_none(),
            o.max_attempts == 0,
    {
        EnqueueOptions { dedup_key: Some(key), ..EnqueueOptions::new() }
    }

    /// Cap delivery attempts; after the limit the job moves to dead letter.
    pub fn max_attempts(max: u32) -> (o: Self)
        ensures
            o.max_attempts == max,
            o.priority == 0,
            o.not_before_ms.is_none(),
            o.shard_key.is_none(),
            o.dedup_key.is_none(),
    {
        EnqueueOptions { max_attempts: max, ..EnqueueOptions::new() }
    }
}

impl Default for EnqueueOptions {
    fn default() -> (o: Self)
        ensures
            default_options_spec(o),
    {
        EnqueueOptions::new()
    }
}

/// Lifecycle phase of a job in the queue.
#[derive(Debug, Clone, Copy, PartialEq, Eq, Structural)]
pub enum JobLifecycle {
    /// Waiting in the pending set (eligible to lease now).
    Pending,
    /// Leased to a worker (not yet acked).
    Leased,
    /// Enqueued but `not_before` is still in the future.
    Delayed,
    /// Exhausted retry budget — held until an operator requeues.
    DeadLetter,
}

/// Metadata for a single job.
#[derive(Debug, Clone, Copy, PartialEq, Eq, Structural)]
pub struct JobStatus {
    /// Job id within the stream.
    pub job_id: JobId,
    /// Current lifecycle phase.
    pub lifecycle: JobLifecycle,
    /// Byte length of the stored payload (payload itself is not returned).
    pub payload_len: u64,
    /// Enqueue priority.
    pub priority: u8,
    /// Set when the job is leased.
    pub leased_by: Option<WorkerId>,
    /// Delivery attempts recorded so far.
    pub attempts: u32,
    /// Configured retry ceiling (`0` = unlimited).
    pub max_attempts: u32,
}

/// Depth gauges of a queue.
#[derive(Debug, Clone, Copy, PartialEq, Eq, Structural, Default)]
pub struct QueueMetrics {
    /// Jobs eligible to lease now.
    pub pending: u64,
    /// Jobs currently leased.
    pub leased: u64,
    /// Jobs in the dead-letter set.
    pub dead_letter: u64,
    /// Age of the oldest ready pending job, in milliseconds.
    pub oldest_pending_age: u64,
}

/// Why a queue operation failed.
#[derive(Debug, Clone, PartialEq, Eq)]
pub enum QueueError {
    /// The backend (disk, network) reported an error.
    Backend(String),
    /// `lease_id` is unknown or not owned by this worker.
    InvalidLease,
    /// Job is not in the dead-letter set.
    NotDeadLetter,
    /// Payload could not be encoded/decoded at the store boundary.
    Codec(String),
}

/// A recurring schedule as replicated to queue followers.
#[derive(Debug, Clone, PartialEq, Eq)]
pub struct RecurringScheduleWire {
    /// Unique name within the queue stream.
    pub name: String,
    /// Cron expression.
    pub cron: String,
    /// Payload enqueued on each tick.
    pub payload: Vec<u8>,
    /// Enqueue priority.
    pub priority: u8,
    /// Retry ceiling passed to each enqueued job.
    pub max_attempts: u32,
    /// When false the schedule is stored but does not fire.
    pub enabled: bool,
    /// Next fire time in unix milliseconds.
    pub next_run_ms: u64,
}

/// One idempotent queue mutation replicated from the leader to followers.
#[derive(Debug, Clone, PartialEq, Eq)]
pub enum QueueReplicateOp {
    /// A job was appended.
    Enqueue {
        job_id: u64,
        payload: Vec<u8>,
        enqueued_at_ms: u64,
        next_job_id: u64,
        priority: u8,
        not_before_ms: u64,
        dedup_key: Option<Vec<u8>>,
        attempts: u32,
        max_attempts: u32,
    },
    /// A pending job was leased.
    Lease {
        lease_id: u64,
        job_id: u64,
        worker_node: u64,
        worker_instance: u32,
        expires_at_ms: u64,
        next_lease_id: u64,
    },
    /// A lease was acknowledged and its job removed.
    Ack { lease_id: u64, job_id: u64 },
    /// A lease was returned by its worker.
    Nack { lease_id: u64, job_id: u64, attempts: u32, dead_letter: bool, not_before_ms: u64 },
    /// An expired lease was reclaimed.
    Reclaim { lease_id: u64, job_id: u64, attempts: u32, dead_letter: bool, not_before_ms: u64 },
    /// A dead-letter job went back to pending.
    RequeueDeadLetter { job_id: u64, attempts: u32 },
    /// A recurring schedule was stored.
    UpsertSchedule { schedule: RecurringScheduleWire },
    /// A recurring schedule's next fire time moved.
    UpdateScheduleNextRun { name: String, next_run_ms: u64 },
}

/// Result of charging one failed delivery attempt.
#[derive(Debug, Clone, Copy, PartialEq, Eq, Structural)]
pub struct AttemptOutcome {
    /// Attempts after this failure.
    pub attempts: u32,
    /// The retry budget is exhausted.
    pub dead_letter: bool,
    /// Earliest time the job may be leased again.
    pub not_before_ms: u64,
}

pub open spec fn sat_add_u64(a: u64, b: u64) -> u64 {
    if a + b <= u64::MAX { (a + b) as u64 } else { u64::MAX }
}

pub open spec fn sat_add_u32(a: u32, b: u32) -> u32 {
    if a + b <= u32::MAX { (a + b) as u32 } else { u32::MAX }
}

pub fn saturating_add_u64(a: u64, b: u64) -> (r: u64)
    ensures
        r == sat_add_u64(a, b),
{
    if a > u64::MAX - b { u64::MAX } else { a + b }
}

pub fn saturating_add_u32(a: u32, b: u32) -> (r: u32)
    ensures
        r == sat_add_u32(a, b),
{
    if a > u32::MAX - b { u32::MAX } else { a + b }
}

/// The retry rule: count the attempt and dead-letter once a non-zero ceiling is
/// reached; otherwise the job may be leased again at once.
pub open spec fn failed_attempt_spec(attempts: u32, max_attempts: u32, now_ms: u64) -> AttemptOutcome {
    let a = sat_add_u32(attempts, 1);
    AttemptOutcome { attempts: a, dead_letter: max_attempts > 0 && a >= max_attempts, not_before_ms: now_ms }
}

/// Charge one failed delivery attempt (nack, expired lease).
pub fn after_failed_attempt(attempts: u32, max_attempts: u32, now_ms: u64) -> (o: AttemptOutcome)
    ensures
        o == failed_attempt_spec(attempts, max_attempts, now_ms),
{
    let attempts = saturating_add_u32(attempts, 1);
    AttemptOutcome { attempts, dead_letter: max_attempts > 0 && attempts >= max_attempts, not_before_ms: now_ms }
}

} // verus!
