//! In-memory prefetch on the queue leader — recent enqueues stay in RAM so a
//! lease can skip re-reading payloads from disk.
use vstd::prelude::*;

use vstd::string::{StrSliceExecFns, StringExecFns};

use crate::ids::bytes_to_vec;
use crate::schedule::{decimal, decimal_text};

verus! {

/// Default max jobs per batch enqueue / ack RPC.
pub const DEFAULT_QUEUE_BATCH_MAX: usize = 256;

/// The refusal of a batch enqueue or ack with `len` items: none within
/// [`DEFAULT_QUEUE_BATCH_MAX`], otherwise `batch size {len} exceeds max 256`.
pub fn batch_size_error(len: usize) -> (r: Option<String>)
    ensures
        len <= DEFAULT_QUEUE_BATCH_MAX ==> r is None,
        len > DEFAULT_QUEUE_BATCH_MAX ==> (r matches Some(m) && m@ == "batch size "@ + decimal(len as nat)
            + " exceeds max "@ + decimal(DEFAULT_QUEUE_BATCH_MAX as nat)),
{
    if len <= DEFAULT_QUEUE_BATCH_MAX {
        return None;
    }
    let mut m = String::from_str("batch size ");
    let d = decimal_text(len);
    m.append(d.as_str());
    m.append(" exceeds max ");
    let cap = decimal_text(DEFAULT_QUEUE_BATCH_MAX);
    m.append(cap.as_str());
    Some(m)
}

/// Default in-memory prefetch depth per stream on the queue leader.
pub const DEFAULT_QUEUE_PREFETCH: usize = 256;

/// A pending job cached on the leader after enqueue.
#[derive(Debug, Clone, PartialEq, Eq)]
pub struct CachedPendingJob {
    pub job_id: u64,
    pub payload: Vec<u8>,
    pub priority: u8,
    pub not_before_ms: u64,
}

impl CachedPendingJob {
    pub fn duplicate(&self) -> (c: Self)
        ensures
            c.job_id == self.job_id,
            c.payload@ == self.payload@,
            c.priority == self.priority,
            c.not_before_ms == self.not_before_ms,
    {
        CachedPendingJob {
            job_id: self.job_id,
            payload: bytes_to_vec(self.payload.as_slice()),
            priority: self.priority,
            not_before_ms: self.not_before_ms,
        }
    }
}

/// `a` is leased before `b`: higher priority first, then lower job id.
pub open spec fn cached_before(a: CachedPendingJob, b: CachedPendingJob) -> bool {
    a.priority > b.priority || (a.priority == b.priority && a.job_id < b.job_id)
}

/// Cached jobs are kept in lease order.
pub open spec fn cache_sorted(s: Seq<CachedPendingJob>) -> bool {
    forall|i: int, j: int| 0 <= i < j < s.len() ==> !cached_before(#[trigger] s[j], #[trigger] s[i])
}

/// Insertion point of `job`: after every cached job that ranks strictly before it.
pub open spec fn insert_pos(s: Seq<CachedPendingJob>, job: CachedPendingJob) -> int
    decreases s.len(),
{
    if s.len() == 0 {
        0
    } else if cached_before(s[0], job) {
        1 + insert_pos(s.drop_first(), job)
    } else {
        0
    }
}

/// Split `s` into (kept, taken): in order, take visible jobs while fewer than `max` are taken.
pub open spec fn select_split(s: Seq<CachedPendingJob>, max: nat, now_ms: u64) -> (Seq<CachedPendingJob>, Seq<CachedPendingJob>)
    decreases s.len(),
{
    if s.len() == 0 {
        (s, s)
    } else {
        let (kept, out) = select_split(s.drop_last(), max, now_ms);
        let j = s.last();
        if out.len() >= max {
            (kept.push(j), out)
        } else if j.not_before_ms <= now_ms {
            (kept, out.push(j))
        } else {
            (kept.push(j), out)
        }
    }
}

/// `s` without the jobs of id `job_id`.
pub open spec fn without_job(s: Seq<CachedPendingJob>, job_id: u64) -> Seq<CachedPendingJob>
    decreases s.len(),
{
    if s.len() == 0 {
        s
    } else {
        let r = without_job(s.drop_last(), job_id);
        if s.last().job_id == job_id { r } else { r.push(s.last()) }
    }
}

/// Leader-side RAM buffer of recently enqueued jobs (not durable across failover).
#[derive(Debug)]
pub struct QueuePrefetchCache {
    pending: Vec<CachedPendingJob>,
    capacity: usize,
}

impl QueuePrefetchCache {
    /// Cached jobs in lease order.
    pub closed spec fn jobs(&self) -> Seq<CachedPendingJob> {
        self.pending@
    }

    /// Maximum number of cached jobs.
    pub closed spec fn cap(&self) -> nat {
        self.capacity as nat
    }

    /// The cached jobs stay in lease order.
    #[verifier::type_invariant]
    closed spec fn in_lease_order(&self) -> bool {
        cache_sorted(self.pending@)
    }

    /// Empty cache holding at most `capacity` jobs (at least one).
    pub fn new(capacity: usize) -> (c: Self)
        ensures
            c.jobs() == Seq::<CachedPendingJob>::empty(),
            c.cap() == if capacity >= 1 { capacity as nat } else { 1 },
    {
        QueuePrefetchCache { pending: Vec::new(), capacity: if capacity >= 1 { capacity } else { 1 } }
    }

    /// Cache a freshly enqueued job in lease order; ignored when the cache is full.
    pub fn insert_enqueued(&mut self, job: CachedPendingJob)
        ensures
            cache_sorted(final(self).jobs()),
            final(self).cap() == old(self).cap(),
            final(self).jobs() == if old(self).jobs().len() >= old(self).cap() {
                old(self).jobs()
            } else {
                old(self).jobs().insert(insert_pos(old(self).jobs(), job), job)
            },
    {
        proof {
            use_type_invariant(&*self);
        }
        if self.pending.len() >= self.capacity {
            return;
        }
        let ghost s = self.pending@;
        let mut v: Vec<CachedPendingJob> = Vec::new();
        std::mem::swap(&mut v, &mut self.pending);
        let mut i: usize = 0;
        assert(s.subrange(0, s.len() as int) =~= s);
        while i < v.len() && (v[i].priority > job.priority || (v[i].priority == job.priority && v[i].job_id < job.job_id))
            invariant
                v@ == s,
                cache_sorted(s),
                0 <= i <= s.len(),
                forall|k: int| 0 <= k < i ==> cached_before(s[k], job),
                insert_pos(s, job) == i + insert_pos(s.subrange(i as int, s.len() as int), job),
            decreases s.len() - i,
        {
            proof {
                let t = s.subrange(i as int, s.len() as int);
                assert(t.drop_first() =~= s.subrange(i + 1, s.len() as int));
                assert(t[0] == s[i as int]);
            }
            i = i + 1;
        }
        proof {
            let t = s.subrange(i as int, s.len() as int);
            if i < s.len() {
                assert(t[0] == s[i as int]);
            }
            assert(insert_pos(s, job) == i);
        }
        v.insert(i, job);
        proof {
            let r = v@;
            assert forall|a: int, b: int| 0 <= a < b < r.len() implies !cached_before(#[trigger] r[b], #[trigger] r[a]) by {
                if b < i {
                    assert(r[a] == s[a] && r[b] == s[b]);
                } else if b == i {
                    assert(r[a] == s[a]);
                } else if a < i {
                    assert(r[a] == s[a] && r[b] == s[b - 1]);
                    assert(cached_before(s[a], job));
                    assert(!cached_before(s[i as int], job));
                    assert(!cached_before(s[b - 1], s[i as int]) || b - 1 == i);
                } else if a == i {
                    assert(r[b] == s[b - 1]);
                    assert(!cached_before(s[i as int], job));
                    assert(!cached_before(s[b - 1], s[i as int]) || b - 1 == i);
                } else {
                    assert(r[a] == s[a - 1] && r[b] == s[b - 1]);
                }
            }
        }
        self.pending = v;
    }

    /// Take up to `max` cached jobs visible at `now_ms`, in lease order.
    pub fn select_for_lease(&mut self, max: usize, now_ms: u64) -> (out: Vec<CachedPendingJob>)
        ensures
            cache_sorted(final(self).jobs()),
            final(self).cap() == old(self).cap(),
            (final(self).jobs(), out@) == select_split(old(self).jobs(), max as nat, now_ms),
    {
        proof {
            use_type_invariant(&*self);
        }
        let ghost s = self.pending@;
        let ghost n = self.pending.len();
        let mut src: Vec<CachedPendingJob> = Vec::new();
        std::mem::swap(&mut src, &mut self.pending);
        let mut kept: Vec<CachedPendingJob> = Vec::new();
        let mut out: Vec<CachedPendingJob> = Vec::new();
        let mut i: usize = 0;
        while src.len() > 0
            invariant
                cache_sorted(s),
                s.len() == n,
                n <= usize::MAX,
                0 <= i <= s.len(),
                src@ == s.subrange(i as int, s.len() as int),
                (kept@, out@) == select_split(s.subrange(0, i as int), max as nat, now_ms),
                cache_sorted(kept@),
                forall|k: int| 0 <= k < kept@.len() ==> exists|x: int| 0 <= x < i && #[trigger] kept@[k] == s[x],
            decreases src@.len(),
        {
            let j = src.remove(0);
            proof {
                assert(j == s[i as int]);
                assert(s.subrange(0, i + 1).drop_last() =~= s.subrange(0, i as int));
                assert(s.subrange(0, i + 1).last() == s[i as int]);
                assert(src@ =~= s.subrange(i + 1, s.len() as int));
            }
            let ghost kept0 = kept@;
            if out.len() >= max {
                kept.push(j);
            } else if j.not_before_ms <= now_ms {
                out.push(j);
            } else {
                kept.push(j);
            }
            proof {
                assert forall|k: int| 0 <= k < kept@.len() implies exists|x: int| 0 <= x < i + 1 && #[trigger] kept@[k] == s[x] by {
                    if k < kept0.len() {
                        assert(kept@[k] == kept0[k]);
                        let x = choose|x: int| 0 <= x < i && kept0[k] == s[x];
                        assert(kept@[k] == s[x]);
                    } else {
                        assert(kept@[k] == s[i as int]);
                    }
                }
                assert forall|a: int, b: int| 0 <= a < b < kept@.len() implies !cached_before(#[trigger] kept@[b], #[trigger] kept@[a]) by {
                    if b < kept0.len() {
                        assert(kept@[a] == kept0[a] && kept@[b] == kept0[b]);
                    } else {
                        assert(kept@[a] == kept0[a]);
                        let x = choose|x: int| 0 <= x < i && kept0[a] == s[x];
                        assert(kept@[b] == s[i as int]);
                        assert(!cached_before(s[i as int], s[x]));
                    }
                }
            }
            i = i + 1;
        }
        proof {
            assert(s.subrange(0, s.len() as int) =~= s);
        }
        self.pending = kept;
        out
    }

    /// Drop job `job_id` from the cache (after an ack or a lease from disk).
    pub fn remove_job(&mut self, job_id: u64)
        ensures
            cache_sorted(final(self).jobs()),
            final(self).cap() == old(self).cap(),
            final(self).jobs() == without_job(old(self).jobs(), job_id),
    {
        proof {
            use_type_invariant(&*self);
        }
        let ghost s = self.pending@;
        let ghost n = self.pending.len();
        let mut src: Vec<CachedPendingJob> = Vec::new();
        std::mem::swap(&mut src, &mut self.pending);
        let mut kept: Vec<CachedPendingJob> = Vec::new();
        let mut i: usize = 0;
        while src.len() > 0
            invariant
                cache_sorted(s),
                s.len() == n,
                n <= usize::MAX,
                0 <= i <= s.len(),
                src@ == s.subrange(i as int, s.len() as int),
                kept@ == without_job(s.subrange(0, i as int), job_id),
                cache_sorted(kept@),
                forall|k: int| 0 <= k < kept@.len() ==> exists|x: int| 0 <= x < i && #[trigger] kept@[k] == s[x],
            decreases src@.len(),
        {
            let j = src.remove(0);
            proof {
                assert(j == s[i as int]);
                assert(s.subrange(0, i + 1).drop_last() =~= s.subrange(0, i as int));
                assert(s.subrange(0, i + 1).last() == s[i as int]);
                assert(src@ =~= s.subrange(i + 1, s.len() as int));
            }
            let ghost kept0 = kept@;
            if j.job_id != job_id {
                kept.push(j);
            }
            proof {
                assert forall|k: int| 0 <= k < kept@.len() implies exists|x: int| 0 <= x < i + 1 && #[trigger] kept@[k] == s[x] by {
                    if k < kept0.len() {
                        assert(kept@[k] == kept0[k]);
                        let x = choose|x: int| 0 <= x < i && kept0[k] == s[x];
                        assert(kept@[k] == s[x]);
                    } else {
                        assert(kept@[k] == s[i as int]);
                    }
                }
                assert forall|a: int, b: int| 0 <= a < b < kept@.len() implies !cached_before(#[trigger] kept@[b], #[trigger] kept@[a]) by {
                    if b < kept0.len() {
                        assert(kept@[a] == kept0[a] && kept@[b] == kept0[b]);
                    } else {
                        assert(kept@[a] == kept0[a]);
                        let x = choose|x: int| 0 <= x < i && kept0[a] == s[x];
                        assert(kept@[b] == s[i as int]);
                        assert(!cached_before(s[i as int], s[x]));
                    }
                }
            }
            i = i + 1;
        }
        proof {
            assert(s.subrange(0, s.len() as int) =~= s);
        }
        self.pending = kept;
    }
}


/// A cache lease selection at `now_ms` hands out only jobs visible by then, at
/// most `max` of them, each a job of the cache; the rest stay cached.
pub proof fn law_selection_hands_out_visible_jobs(s: Seq<CachedPendingJob>, max: nat, now_ms: u64)
    ensures
        select_split(s, max, now_ms).1.len() <= max,
        select_split(s, max, now_ms).0.len() + select_split(s, max, now_ms).1.len() == s.len(),
        forall|k: int| 0 <= k < select_split(s, max, now_ms).1.len() ==> (#[trigger] select_split(s, max, now_ms).1[k]).not_before_ms <= now_ms
            && s.contains(select_split(s, max, now_ms).1[k]),
    decreases s.len(),
{
    if s.len() > 0 {
        let t = s.drop_last();
        law_selection_hands_out_visible_jobs(t, max, now_ms);
        let (kept, out) = select_split(t, max, now_ms);
        let out2 = select_split(s, max, now_ms).1;
        assert forall|k: int| 0 <= k < out2.len() implies (#[trigger] out2[k]).not_before_ms <= now_ms && s.contains(out2[k]) by {
            if k < out.len() {
                assert(out2[k] == out[k]);
                assert(t.contains(out[k]));
                let x = choose|x: int| 0 <= x < t.len() && t[x] == out[k];
                assert(s[x] == t[x]);
            } else {
                assert(out2[k] == s.last());
                assert(s[s.len() - 1] == s.last());
            }
        }
    }
}

} // verus!
