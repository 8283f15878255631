//! Properties of the job queue that span several operations.
use vstd::prelude::*;

use crate::ids::WorkerId;
use crate::job_queue::{
    apply_release, first_lease_of_at, job_status_spec, has_lease, insert_lease_absent, is_lease_pos, lease_at, lease_pos, leases_sorted, lemma_lease_pos,
    reclaim_upto, remove_all, LeaseEntry, FOLLOWER_LEASE_MS, model_wf,
    ack_spec, apply_spec, best_index, dedup_unique, drop_lease, enqueue_spec, fail_job, find_dedup,
    is_enqueue_op, lease_index, lease_selection, lemma_best_index_range, lemma_reclaim_upto_frame,
    max_u64, nack_spec, opt_bytes_view, ranks_before, ready_list, reclaim, select_best, QueueModel,
};
use crate::ids::JobId;
use crate::queue::{sat_add_u64, EnqueueOptions, JobLifecycle, QueueReplicateOp};

verus! {

/// Reclaiming never changes which dedup keys the live jobs hold.
pub proof fn lemma_reclaim_keeps_dedup(m: QueueModel, now_ms: u64)
    requires
        dedup_unique(m.jobs),
    ensures
        dedup_unique(reclaim(m, now_ms).jobs),
        reclaim(m, now_ms).jobs.dom() == m.jobs.dom(),
        forall|id: u64| #[trigger] m.jobs.contains_key(id) ==> reclaim(m, now_ms).jobs[id].dedup_key == m.jobs[id].dedup_key,
{
    lemma_reclaim_upto_frame(m, now_ms, m.leases.len());
    let r = reclaim(m, now_ms);
    assert forall|a: u64, b: u64|
        r.jobs.contains_key(a) && r.jobs.contains_key(b) && a != b && r.jobs[a].dedup_key.is_some()
            implies r.jobs[a].dedup_key != r.jobs[b].dedup_key by {
        assert(m.jobs.contains_key(a) && m.jobs.contains_key(b));
    }
}

/// Dedup keys stay unique across an enqueue.
pub proof fn lemma_enqueue_keeps_dedup(m: QueueModel, payload: Seq<u8>, options: EnqueueOptions, now_ms: u64)
    requires
        dedup_unique(m.jobs),
    ensures
        dedup_unique(enqueue_spec(m, payload, options, now_ms).0.jobs),
        ({
            let (m2, id) = enqueue_spec(m, payload, options, now_ms);
            opt_bytes_view(options.dedup_key).is_some() ==> m2.jobs.contains_key(id) && m2.jobs[id].dedup_key
                == opt_bytes_view(options.dedup_key)
        }),
{
    lemma_reclaim_keeps_dedup(m, now_ms);
    let m1 = reclaim(m, now_ms);
    let dk = opt_bytes_view(options.dedup_key);
    if dk.is_some() && find_dedup(m1, dk.unwrap()).is_some() {
        let id = find_dedup(m1, dk.unwrap()).unwrap();
        assert(m1.jobs.contains_key(id) && m1.jobs[id].dedup_key == Some(dk.unwrap()));
    } else {
        let (m2, id) = enqueue_spec(m, payload, options, now_ms);
        assert forall|a: u64, b: u64|
            m2.jobs.contains_key(a) && m2.jobs.contains_key(b) && a != b && m2.jobs[a].dedup_key.is_some()
                implies m2.jobs[a].dedup_key != m2.jobs[b].dedup_key by {
            if a != id && b != id {
                assert(m1.jobs.contains_key(a) && m1.jobs.contains_key(b));
            } else if a == id {
                if b != id && m1.jobs[b].dedup_key == dk {
                    assert(m1.jobs.contains_key(b) && m1.jobs[b].dedup_key == Some(dk.unwrap()));
                }
            } else {
                if m1.jobs[a].dedup_key == dk {
                    assert(m1.jobs.contains_key(a) && m1.jobs[a].dedup_key == Some(dk.unwrap()));
                }
            }
        }
    }
}

/// Enqueueing twice with the same dedup key yields the same job id: a retried
/// enqueue never creates a second job while the first one is live.
pub proof fn law_dedup_enqueue_is_idempotent(
    m: QueueModel,
    p1: Seq<u8>,
    p2: Seq<u8>,
    o1: EnqueueOptions,
    o2: EnqueueOptions,
    t1: u64,
    t2: u64,
)
    requires
        dedup_unique(m.jobs),
        opt_bytes_view(o1.dedup_key).is_some(),
        opt_bytes_view(o1.dedup_key) == opt_bytes_view(o2.dedup_key),
    ensures
        enqueue_spec(enqueue_spec(m, p1, o1, t1).0, p2, o2, t2).1 == enqueue_spec(m, p1, o1, t1).1,
        enqueue_spec(enqueue_spec(m, p1, o1, t1).0, p2, o2, t2).0 == reclaim(enqueue_spec(m, p1, o1, t1).0, t2),
{
    lemma_enqueue_keeps_dedup(m, p1, o1, t1);
    let (ma, id) = enqueue_spec(m, p1, o1, t1);
    lemma_reclaim_keeps_dedup(ma, t2);
    let mb = reclaim(ma, t2);
    let k = opt_bytes_view(o1.dedup_key).unwrap();
    assert(mb.jobs.contains_key(id) && mb.jobs[id].dedup_key == Some(k));
    let f = find_dedup(mb, k);
    assert(f.is_some());
    let c = f.unwrap();
    assert(mb.jobs.contains_key(c) && mb.jobs[c].dedup_key == Some(k));
    assert(c == id);
}

/// The best-ranked element ranks at least as high as every element.
pub proof fn lemma_best_index_is_best(m: QueueModel, s: Seq<u64>)
    requires
        s.len() > 0,
    ensures
        forall|k: int| 0 <= k < s.len() ==> !ranks_before(m, #[trigger] s[k], s[best_index(m, s)]),
    decreases s.len(),
{
    lemma_best_index_range(m, s);
    if s.len() > 1 {
        let t = s.drop_last();
        lemma_best_index_is_best(m, t);
        lemma_best_index_range(m, t);
        let b = best_index(m, t);
        assert forall|k: int| 0 <= k < s.len() implies !ranks_before(m, #[trigger] s[k], s[best_index(m, s)]) by {
            if k < s.len() - 1 {
                assert(s[k] == t[k]);
                assert(!ranks_before(m, t[k], t[b]));
            }
        }
    }
}

/// A lease hands out the best-ranked ready job first: no ready job has a higher
/// priority, or the same priority and a lower id, than the first job leased.
pub proof fn law_lease_takes_highest_priority_first(m: QueueModel, max: nat, now_ms: u64)
    requires
        max > 0,
    ensures
        ({
            let m1 = reclaim(m, now_ms);
            let ready = ready_list(m1, now_ms, m1.pending);
            let sel = lease_selection(m, max, now_ms);
            ready.len() > 0 ==> sel.len() > 0 && forall|k: int| 0 <= k < ready.len() ==> !ranks_before(m1, #[trigger] ready[k], sel[0])
        }),
{
    let m1 = reclaim(m, now_ms);
    let ready = ready_list(m1, now_ms, m1.pending);
    if ready.len() > 0 {
        lemma_best_index_is_best(m1, ready);
        lemma_best_index_range(m1, ready);
        let sel = select_best(m1, ready, max);
        assert(sel[0] == ready[best_index(m1, ready)]);
    }
}

/// A follower that applies the op produced by the leader's enqueue reaches the
/// leader's state (when no stored job already holds the next id).
pub proof fn law_enqueue_replicates(m: QueueModel, payload: Seq<u8>, options: EnqueueOptions, now_ms: u64, op: QueueReplicateOp)
    requires
        forall|id: u64| #[trigger] m.jobs.contains_key(id) ==> id < m.next_job_id,
        m.next_job_id < u64::MAX,
        is_enqueue_op(op, enqueue_spec(m, payload, options, now_ms).1, payload, options, now_ms),
    ensures
        apply_spec(m, op, now_ms) == enqueue_spec(m, payload, options, now_ms).0,
{
    lemma_reclaim_upto_frame(m, now_ms, m.leases.len());
    let m1 = reclaim(m, now_ms);
    let dk = opt_bytes_view(options.dedup_key);
    if dk.is_some() && find_dedup(m1, dk.unwrap()).is_some() {
        let id = find_dedup(m1, dk.unwrap()).unwrap();
        assert(m1.jobs.contains_key(id));
        assert(m.jobs.contains_key(id));
        let n = match op {
            QueueReplicateOp::Enqueue { next_job_id, .. } => next_job_id,
            _ => 0,
        };
        assert(n == id + 1);
        assert(max_u64(m1.next_job_id, n) == m1.next_job_id);
    } else {
        assert(!m1.jobs.contains_key(m1.next_job_id));
        match op {
            QueueReplicateOp::Enqueue { payload: p, .. } => {
                assert(p@ == payload);
            },
            _ => {},
        }
        let jm = apply_spec(m, op, now_ms).jobs;
        let je = enqueue_spec(m, payload, options, now_ms).0.jobs;
        assert(jm =~= je);
    }
}

/// A follower that applies the op produced by a successful ack reaches the leader's state.
pub proof fn law_ack_replicates(m: QueueModel, worker: WorkerId, lease_id: u64, now_ms: u64)
    requires
        ack_spec(m, worker, lease_id, now_ms).1.is_ok(),
    ensures
        apply_spec(
            m,
            QueueReplicateOp::Ack { lease_id, job_id: ack_spec(m, worker, lease_id, now_ms).1.unwrap() },
            now_ms,
        ) == ack_spec(m, worker, lease_id, now_ms).0,
{
}

/// A follower that applies the op produced by a successful nack reaches the leader's state.
pub proof fn law_nack_replicates(m: QueueModel, worker: WorkerId, lease_id: u64, now_ms: u64)
    requires
        nack_spec(m, worker, lease_id, now_ms).1.is_ok(),
    ensures
        ({
            let (job_id, o) = nack_spec(m, worker, lease_id, now_ms).1.unwrap();
            apply_spec(
                m,
                QueueReplicateOp::Nack {
                    lease_id,
                    job_id,
                    attempts: o.attempts,
                    dead_letter: o.dead_letter,
                    not_before_ms: o.not_before_ms,
                },
                now_ms,
            ) == nack_spec(m, worker, lease_id, now_ms).0
        }),
{
    let m1 = reclaim(m, now_ms);
    let l = m1.leases[lease_index(m1.leases, lease_id)];
    let m2 = QueueModel { leases: drop_lease(m1.leases, lease_id), ..m1 };
    let j = m2.jobs[l.job_id];
    let (job_id, o) = nack_spec(m, worker, lease_id, now_ms).1.unwrap();
    let op = QueueReplicateOp::Nack {
        lease_id,
        job_id,
        attempts: o.attempts,
        dead_letter: o.dead_letter,
        not_before_ms: o.not_before_ms,
    };
    assert(apply_spec(m, op, now_ms).jobs =~= fail_job(m2, l.job_id, now_ms).jobs);
}


/// Every lease in `s` is still live after `now_ms`.
pub open spec fn leases_live(s: Seq<LeaseEntry>, now_ms: u64) -> bool {
    forall|i: int| 0 <= i < s.len() ==> (#[trigger] s[i]).expires_at_ms > now_ms
}

/// Reclaiming keeps only live leases, in ascending id order, each with an id
/// below every lease not yet looked at.
pub proof fn lemma_reclaim_upto_leases(m: QueueModel, now_ms: u64, i: nat)
    requires
        leases_sorted(m.leases),
        i <= m.leases.len(),
    ensures
        leases_sorted(reclaim_upto(m, now_ms, i).leases),
        leases_live(reclaim_upto(m, now_ms, i).leases, now_ms),
        forall|k: int, j: int| 0 <= k < reclaim_upto(m, now_ms, i).leases.len() && i <= j < m.leases.len()
            ==> (#[trigger] reclaim_upto(m, now_ms, i).leases[k]).lease_id < (#[trigger] m.leases[j]).lease_id,
    decreases i,
{
    if i > 0 {
        lemma_reclaim_upto_leases(m, now_ms, (i - 1) as nat);
        let prev = reclaim_upto(m, now_ms, (i - 1) as nat);
        let l = m.leases[i - 1];
        let r = reclaim_upto(m, now_ms, i);
        if l.expires_at_ms <= now_ms {
            assert(r.leases == prev.leases);
        } else {
            assert(r.leases == prev.leases.push(l));
            assert forall|k: int, j: int| 0 <= k < r.leases.len() && i <= j < m.leases.len()
                implies (#[trigger] r.leases[k]).lease_id < (#[trigger] m.leases[j]).lease_id by {
                if k < prev.leases.len() {
                    assert(prev.leases[k] == r.leases[k]);
                    assert(prev.leases[k].lease_id < m.leases[j].lease_id);
                }
            }
            assert forall|a: int, b: int| 0 <= a < b < r.leases.len() implies r.leases[a].lease_id < r.leases[b].lease_id by {
                if b < prev.leases.len() {
                    assert(prev.leases[a] == r.leases[a] && prev.leases[b] == r.leases[b]);
                } else {
                    assert(prev.leases[a] == r.leases[a]);
                    assert(prev.leases[a].lease_id < m.leases[i - 1].lease_id);
                }
            }
            assert forall|k: int| 0 <= k < r.leases.len() implies (#[trigger] r.leases[k]).expires_at_ms > now_ms by {
                if k < prev.leases.len() {
                    assert(prev.leases[k] == r.leases[k]);
                }
            }
        }
    }
}

/// Reclaiming a queue whose leases are all live changes nothing.
pub proof fn lemma_reclaim_live_is_identity(m: QueueModel, now_ms: u64, i: nat)
    requires
        leases_live(m.leases, now_ms),
        i <= m.leases.len(),
    ensures
        reclaim_upto(m, now_ms, i) == (QueueModel { leases: m.leases.take(i as int), ..m }),
    decreases i,
{
    if i == 0 {
        assert(m.leases.take(0) =~= Seq::<LeaseEntry>::empty());
    } else {
        lemma_reclaim_live_is_identity(m, now_ms, (i - 1) as nat);
        assert(m.leases[i - 1].expires_at_ms > now_ms);
        assert(m.leases.take((i - 1) as int).push(m.leases[i - 1]) =~= m.leases.take(i as int));
    }
}

/// Removing every `x` twice is removing it once.
pub proof fn lemma_remove_all_twice(s: Seq<u64>, x: u64)
    ensures
        remove_all(remove_all(s, x), x) == remove_all(s, x),
    decreases s.len(),
{
    if s.len() > 0 {
        lemma_remove_all_twice(s.drop_last(), x);
        let r = remove_all(s.drop_last(), x);
        if s.last() != x {
            assert(r.push(s.last()).drop_last() =~= r);
            assert(r.push(s.last()).last() == s.last());
        }
    }
}

/// In ascending leases, dropping lease `id` leaves no lease with that id, keeps
/// the order and keeps every remaining lease live.
pub proof fn lemma_drop_lease_once(s: Seq<LeaseEntry>, id: u64, now_ms: u64)
    requires
        leases_sorted(s),
    ensures
        !has_lease(drop_lease(s, id), id),
        leases_live(s, now_ms) ==> leases_live(drop_lease(s, id), now_ms),
{
    if has_lease(s, id) {
        let k = lease_index(s, id);
        assert(lease_at(s, id, k));
        let t = s.remove(k);
        assert(drop_lease(s, id) == t);
        if has_lease(t, id) {
            let j = choose|j: int| #[trigger] lease_at(t, id, j);
            if j < k {
                assert(t[j] == s[j]);
            } else {
                assert(t[j] == s[j + 1]);
            }
        }
        if leases_live(s, now_ms) {
            assert forall|i: int| 0 <= i < t.len() implies (#[trigger] t[i]).expires_at_ms > now_ms by {
                if i < k {
                    assert(t[i] == s[i]);
                } else {
                    assert(t[i] == s[i + 1]);
                }
            }
        }
    }
}

/// In ascending leases, the position that splits the ids below `id` from the rest.
pub proof fn lemma_lease_split(s: Seq<LeaseEntry>, id: u64) -> (i: int)
    requires
        leases_sorted(s),
    ensures
        0 <= i <= s.len(),
        forall|j: int| 0 <= j < i ==> s[j].lease_id < id,
        forall|j: int| i <= j < s.len() ==> s[j].lease_id >= id,
    decreases s.len(),
{
    if s.len() == 0 {
        0
    } else {
        let t = s.drop_last();
        assert(leases_sorted(t)) by {
            assert forall|a: int, b: int| 0 <= a < b < t.len() implies t[a].lease_id < t[b].lease_id by {
                assert(t[a] == s[a] && t[b] == s[b]);
            }
        }
        let i0 = lemma_lease_split(t, id);
        if s.last().lease_id < id {
            assert forall|j: int| 0 <= j < s.len() implies s[j].lease_id < id by {
                if j < s.len() - 1 {
                    assert(s[j].lease_id < s[s.len() - 1].lease_id);
                }
            }
            s.len() as int
        } else {
            assert forall|j: int| 0 <= j < i0 implies s[j].lease_id < id by {
                assert(t[j] == s[j]);
            }
            assert forall|j: int| i0 <= j < s.len() implies s[j].lease_id >= id by {
                if j < s.len() - 1 {
                    assert(t[j] == s[j]);
                }
            }
            i0
        }
    }
}

/// Inserting a lease a second time changes nothing, and a live lease keeps the
/// leases live.
pub proof fn lemma_insert_lease_twice(s: Seq<LeaseEntry>, e: LeaseEntry, now_ms: u64)
    requires
        leases_sorted(s),
    ensures
        insert_lease_absent(insert_lease_absent(s, e), e) == insert_lease_absent(s, e),
        leases_live(s, now_ms) && e.expires_at_ms > now_ms ==> leases_live(insert_lease_absent(s, e), now_ms),
{
    let id = e.lease_id;
    let i = lemma_lease_split(s, id);
    lemma_lease_pos(s, id, i);
    let p = lease_pos(s, id);
    if p < s.len() && s[p].lease_id == id {
    } else {
        let t = s.insert(p, e);
        assert(is_lease_pos(t, id, p));
        let q = lease_pos(t, id);
        assert(is_lease_pos(t, id, q));
        if q < p {
            assert(t[q] == s[q]);
        }
        if q > p {
            assert(t[p].lease_id == id);
        }
        assert(q == p);
        if leases_live(s, now_ms) && e.expires_at_ms > now_ms {
            assert forall|k: int| 0 <= k < t.len() implies (#[trigger] t[k]).expires_at_ms > now_ms by {
                if k < p {
                    assert(t[k] == s[k]);
                } else if k > p {
                    assert(t[k] == s[k - 1]);
                }
            }
        }
    }
}

/// Replaying an op a follower has already applied changes nothing: every
/// replicated op is idempotent (for any time before the end of the clock).
pub proof fn law_replay_is_idempotent(m: QueueModel, op: QueueReplicateOp, now_ms: u64)
    requires
        model_wf(m),
        now_ms < u64::MAX,
    ensures
        apply_spec(apply_spec(m, op, now_ms), op, now_ms) == apply_spec(m, op, now_ms),
{
    lemma_reclaim_upto_leases(m, now_ms, m.leases.len());
    let m1 = reclaim(m, now_ms);
    let a = apply_spec(m, op, now_ms);
    // The applied state's leases stay ascending and live, so reclaiming it again is the identity.
    match op {
        QueueReplicateOp::Lease { lease_id, job_id, worker_node, worker_instance, next_lease_id, .. } => {
            let e = LeaseEntry {
                lease_id,
                job_id,
                worker: WorkerId { node: crate::ids::NodeId(worker_node), instance: worker_instance },
                expires_at_ms: sat_add_u64(now_ms, FOLLOWER_LEASE_MS),
            };
            lemma_insert_lease_twice(m1.leases, e, now_ms);
            lemma_remove_all_twice(m1.pending, job_id);
        },
        QueueReplicateOp::Ack { lease_id, job_id } => {
            lemma_drop_lease_once(m1.leases, lease_id, now_ms);
            assert(m1.jobs.remove(job_id).remove(job_id) =~= m1.jobs.remove(job_id));
        },
        QueueReplicateOp::Nack { lease_id, .. } => {
            lemma_drop_lease_once(m1.leases, lease_id, now_ms);
        },
        QueueReplicateOp::Reclaim { lease_id, .. } => {
            lemma_drop_lease_once(m1.leases, lease_id, now_ms);
        },
        _ => {},
    }
    assert(leases_live(a.leases, now_ms));
    lemma_reclaim_live_is_identity(a, now_ms, a.leases.len());
    assert(a.leases.take(a.leases.len() as int) =~= a.leases);
    assert(reclaim(a, now_ms) == a);
    match op {
        QueueReplicateOp::Enqueue { job_id, dedup_key, .. } => {
            let dk = opt_bytes_view(dedup_key);
            if a.jobs.contains_key(job_id) && dk.is_some() && a.jobs[job_id].dedup_key == dk {
                assert(find_dedup(a, dk.unwrap()).is_some());
            }
        },
        QueueReplicateOp::Ack { lease_id, job_id } => {
            assert(a.jobs.remove(job_id) =~= a.jobs);
        },
        _ => {},
    }
}


/// Reclaiming leaves a job that no lease holds untouched, and no lease on it appears.
pub proof fn lemma_reclaim_keeps_unleased_job(m: QueueModel, now_ms: u64, i: nat, job_id: u64)
    requires
        i <= m.leases.len(),
        forall|k: int| 0 <= k < m.leases.len() ==> (#[trigger] m.leases[k]).job_id != job_id,
    ensures
        reclaim_upto(m, now_ms, i).jobs.contains_key(job_id) == m.jobs.contains_key(job_id),
        m.jobs.contains_key(job_id) ==> reclaim_upto(m, now_ms, i).jobs[job_id] == m.jobs[job_id],
        forall|k: int| 0 <= k < reclaim_upto(m, now_ms, i).leases.len() ==> (#[trigger] reclaim_upto(m, now_ms, i).leases[k]).job_id != job_id,
    decreases i,
{
    if i > 0 {
        lemma_reclaim_keeps_unleased_job(m, now_ms, (i - 1) as nat, job_id);
        let prev = reclaim_upto(m, now_ms, (i - 1) as nat);
        let l = m.leases[i - 1];
        assert(l.job_id != job_id);
        let r = reclaim_upto(m, now_ms, i);
        if l.expires_at_ms <= now_ms {
            assert(r.leases == prev.leases);
        } else {
            assert forall|k: int| 0 <= k < r.leases.len() implies (#[trigger] r.leases[k]).job_id != job_id by {
                if k < prev.leases.len() {
                    assert(r.leases[k] == prev.leases[k]);
                }
            }
        }
    }
}

/// A live job that is not dead-lettered, that no lease holds, and whose visibility
/// time is later than `now_ms` reports the lifecycle `Delayed` at `now_ms`,
/// whether or not it is queued for leasing.
pub proof fn law_future_job_is_delayed(m: QueueModel, job_id: u64, now_ms: u64)
    requires
        m.jobs.contains_key(job_id),
        !m.jobs[job_id].dead_letter,
        m.jobs[job_id].not_before_ms > now_ms,
        forall|k: int| 0 <= k < m.leases.len() ==> (#[trigger] m.leases[k]).job_id != job_id,
    ensures
        job_status_spec(m, job_id, now_ms).1 matches Some(st) && st.lifecycle == JobLifecycle::Delayed
            && st.job_id == JobId(job_id) && st.leased_by is None,
{
    lemma_reclaim_keeps_unleased_job(m, now_ms, m.leases.len(), job_id);
    let m1 = reclaim(m, now_ms);
    assert(!exists|i: int| #[trigger] first_lease_of_at(m1.leases, job_id, i));
}

} // verus!
