//! Firing a recurring schedule into a job queue: the schedule's job is enqueued
//! once per fire time (deduplicated by the schedule's name) and the schedule
//! moves on to its next fire time.
use vstd::prelude::*;

use crate::job_queue::{InMemoryJobQueue, QueueModel, enqueue_spec, is_enqueue_op, opt_bytes_view, reclaim};
use crate::queue::{EnqueueOptions, QueueError, QueueReplicateOp, RecurringScheduleWire};
use crate::schedule::{CRON_QUERY_LIMIT_MS, cron_accepts, cron_next_fire, next_run_after, normalize_spec, parse_cron, query_ms, tick_enqueue_options};

verus! {

/// The options a schedule's job is enqueued with: its priority and retry
/// ceiling, visible at once, deduplicated by `recurring:` and its name.
pub open spec fn is_tick_options(o: EnqueueOptions, s: RecurringScheduleWire) -> bool {
    &&& o.priority == s.priority
    &&& o.not_before_ms is None
    &&& o.shard_key is None
    &&& opt_bytes_view(o.dedup_key) == Some(vstd::utf8::encode_utf8("recurring:"@ + s.name@))
    &&& o.max_attempts == s.max_attempts
}

/// The cron expression of `s` parses.
pub open spec fn cron_ok(s: RecurringScheduleWire) -> bool {
    normalize_spec(s.cron@) matches Some(t) && cron_accepts(t)
}

/// The next fire time after `now` of a schedule whose expression parses.
pub open spec fn next_fire(s: RecurringScheduleWire, now: u64) -> Option<u64> {
    match cron_next_fire(normalize_spec(s.cron@).unwrap(), query_ms(now)) {
        Some(t) => Some(if t < 0 { 0 } else { t as u64 }),
        None => None,
    }
}

/// `op` records `next` as the next run of schedule `s`.
pub open spec fn is_next_run_op(op: QueueReplicateOp, s: RecurringScheduleWire, next: u64) -> bool {
    op matches QueueReplicateOp::UpdateScheduleNextRun { name, next_run_ms } && name@ == s.name@ && next_run_ms == next
}

/// Firing `s` at `now` on a queue `m`: a schedule whose expression does not
/// parse is refused and nothing changes; otherwise its job is enqueued, and
/// then either its next fire time is returned with the enqueue operation (none
/// for a duplicate) followed by the next-run operation, or the lack of one is
/// reported.
pub open spec fn fire_outcome(
    m: QueueModel,
    s: RecurringScheduleWire,
    now: u64,
    r: Result<(u64, Vec<QueueReplicateOp>), QueueError>,
    m2: QueueModel,
) -> bool {
    if !cron_ok(s) {
        r matches Err(QueueError::Codec(_)) && m2 == m
    } else {
        exists|o: EnqueueOptions|
            #[trigger] is_tick_options(o, s) && {
                let (m1, id) = enqueue_spec(m, s.payload@, o, now);
                &&& m2 == m1
                &&& match next_fire(s, now) {
                    None => r matches Err(QueueError::Codec(_)),
                    Some(next) => r matches Ok((n, ops)) && {
                        &&& n == next
                        &&& 1 <= ops@.len() <= 2
                        &&& is_next_run_op(ops@.last(), s, next)
                        &&& (ops@.len() == 1 <==> m1 == reclaim(m, now))
                        &&& (ops@.len() == 2 ==> is_enqueue_op(ops@[0], id, s.payload@, o, now))
                    },
                }
            }
    }
}

/// Fire schedule `s` at `now` into `queue` (see [`fire_outcome`]).
pub fn fire_schedule_at(queue: &mut InMemoryJobQueue, s: &RecurringScheduleWire, now: u64) -> (r: Result<(u64, Vec<QueueReplicateOp>), QueueError>)
    requires
        old(queue).wf(),
        old(queue)@.next_job_id < u64::MAX,
        now < CRON_QUERY_LIMIT_MS,
    ensures
        final(queue).wf(),
        final(queue).lease_timeout() == old(queue).lease_timeout(),
        fire_outcome(old(queue)@, *s, now, r, final(queue)@),
{
    let cron = match parse_cron(s.cron.as_str()) {
        Ok(c) => c,
        Err(e) => {
            return Err(e);
        },
    };
    let o = tick_enqueue_options(s);
    let ghost og = o;
    let (_, mut ops) = queue.enqueue_opts_replicated_at(s.payload.as_slice(), o, now);
    proof {
        assert(is_tick_options(og, *s));
    }
    let next = match next_run_after(&cron, now) {
        Ok(n) => n,
        Err(e) => {
            return Err(e);
        },
    };
    ops.push(QueueReplicateOp::UpdateScheduleNextRun { name: s.name.clone(), next_run_ms: next });
    Ok((next, ops))
}

/// A stored schedule is due at `now`: enabled and its next run has come.
pub open spec fn is_due(s: RecurringScheduleWire, now: u64) -> bool {
    s.enabled && s.next_run_ms <= now
}

/// One schedule of a tick, the `j`-th, handled successfully: a schedule that is
/// not due changes nothing; a due one is fired (see [`fire_outcome`]), takes its
/// next fire time, and its operations are appended.
pub open spec fn tick_step(
    mp: QueueModel,
    ssp: Seq<RecurringScheduleWire>,
    opsp: Seq<QueueReplicateOp>,
    j: int,
    now: u64,
    m: QueueModel,
    ss: Seq<RecurringScheduleWire>,
    ops: Seq<QueueReplicateOp>,
) -> bool {
    if !is_due(ssp[j], now) {
        m == mp && ss == ssp && ops == opsp
    } else {
        mp.next_job_id < u64::MAX && exists|n: u64, fops: Vec<QueueReplicateOp>|
            #[trigger] fire_outcome(mp, ssp[j], now, Ok((n, fops)), m) && ss == ssp.update(
                j,
                RecurringScheduleWire { next_run_ms: n, ..ssp[j] },
            ) && ops == opsp + fops@
    }
}

/// `k` schedules handled in a row: `ms`, `sss` and `opss` hold the queue, the
/// schedules and the operations so far before each step and after the last one.
pub open spec fn tick_chain(
    ss0: Seq<RecurringScheduleWire>,
    now: u64,
    k: nat,
    ms: Seq<QueueModel>,
    sss: Seq<Seq<RecurringScheduleWire>>,
    opss: Seq<Seq<QueueReplicateOp>>,
) -> bool {
    &&& ms.len() == k + 1
    &&& sss.len() == k + 1
    &&& opss.len() == k + 1
    &&& sss[0] == ss0
    &&& opss[0] == Seq::<QueueReplicateOp>::empty()
    &&& forall|j: int| 0 <= j < k ==> #[trigger] tick_step(ms[j], sss[j], opss[j], j, now, ms[j + 1], sss[j + 1], opss[j + 1])
}

/// The first `k` schedules of a tick at `now` were handled successfully, taking
/// queue `m0` and schedules `ss0` to `m` and `ss` with operations `ops`.
pub open spec fn tick_run(
    m0: QueueModel,
    ss0: Seq<RecurringScheduleWire>,
    now: u64,
    k: nat,
    m: QueueModel,
    ss: Seq<RecurringScheduleWire>,
    ops: Seq<QueueReplicateOp>,
) -> bool {
    exists|ms: Seq<QueueModel>, sss: Seq<Seq<RecurringScheduleWire>>, opss: Seq<Seq<QueueReplicateOp>>|
        #[trigger] tick_chain(ss0, now, k, ms, sss, opss) && ms[0] == m0 && ms[k as int] == m && sss[k as int] == ss
            && opss[k as int] == ops
}

/// Fire every due schedule at `now`, in order, recording each one's next fire
/// time; the first schedule that cannot fire (ids exhausted, or refused by
/// [`fire_schedule_at`]) stops the tick with its error.
pub fn tick_schedules_at(queue: &mut InMemoryJobQueue, schedules: &mut Vec<RecurringScheduleWire>, now: u64) -> (r: Result<
    Vec<QueueReplicateOp>,
    QueueError,
>)
    requires
        old(queue).wf(),
        now < CRON_QUERY_LIMIT_MS,
    ensures
        final(queue).wf(),
        final(queue).lease_timeout() == old(queue).lease_timeout(),
        final(schedules)@.len() == old(schedules)@.len(),
        match r {
            Ok(ops) => tick_run(old(queue)@, old(schedules)@, now, old(schedules)@.len() as nat, final(queue)@, final(schedules)@, ops@),
            Err(e) => exists|k: nat, mp: QueueModel, opsp: Seq<QueueReplicateOp>|
                k < old(schedules)@.len() && #[trigger] tick_run(old(queue)@, old(schedules)@, now, k, mp, final(schedules)@, opsp)
                    && is_due(final(schedules)@[k as int], now) && (if mp.next_job_id == u64::MAX {
                    (e matches QueueError::Backend(msg) && msg@ == "job ids exhausted"@) && final(queue)@ == mp
                } else {
                    fire_outcome(mp, final(schedules)@[k as int], now, Err(e), final(queue)@)
                }),
        },
{
    let ghost m0 = queue@;
    let ghost ss0 = schedules@;
    let mut ops: Vec<QueueReplicateOp> = Vec::new();
    let n = schedules.len();
    let mut i: usize = 0;
    let ghost mut ms: Seq<QueueModel> = seq![m0];
    let ghost mut sss: Seq<Seq<RecurringScheduleWire>> = seq![ss0];
    let ghost mut opss: Seq<Seq<QueueReplicateOp>> = seq![Seq::<QueueReplicateOp>::empty()];
    while i < n
        invariant
            0 <= i <= n,
            n == schedules@.len(),
            n == ss0.len(),
            ss0 == old(schedules)@,
            m0 == old(queue)@,
            queue.wf(),
            queue.lease_timeout() == old(queue).lease_timeout(),
            now < CRON_QUERY_LIMIT_MS,
            tick_chain(ss0, now, i as nat, ms, sss, opss),
            ms[0] == m0,
            ms[i as int] == queue@,
            sss[i as int] == schedules@,
            opss[i as int] == ops@,
            forall|j: int| i <= j < n ==> schedules@[j] == ss0[j],
        decreases n - i,
    {
        proof {
            assert(tick_run(m0, ss0, now, i as nat, queue@, schedules@, ops@));
        }
        let ghost mp = queue@;
        let ghost ssp = schedules@;
        let ghost opsp = ops@;
        if schedules[i].enabled && schedules[i].next_run_ms <= now {
            if !queue.has_job_id_room() {
                return Err(QueueError::Backend(String::from_str("job ids exhausted")));
            }
            let fired = fire_schedule_at(queue, &schedules[i], now);
            match fired {
                Ok((next, fops)) => {
                    let mut s = schedules.remove(i);
                    s.next_run_ms = next;
                    schedules.insert(i, s);
                    let ghost fv = fops;
                    let mut fops = fops;
                    ops.append(&mut fops);
                    proof {
                        assert(schedules@ =~= ssp.update(i as int, RecurringScheduleWire { next_run_ms: next, ..ssp[i as int] }));
                        assert(fire_outcome(mp, ssp[i as int], now, Ok((next, fv)), queue@));
                        assert(tick_step(mp, ssp, opsp, i as int, now, queue@, schedules@, ops@));
                    }
                },
                Err(e) => {
                    return Err(e);
                },
            }
        } else {
            proof {
                assert(tick_step(mp, ssp, opsp, i as int, now, queue@, schedules@, ops@));
            }
        }
        proof {
            let ms2 = ms.push(queue@);
            let sss2 = sss.push(schedules@);
            let opss2 = opss.push(ops@);
            assert forall|j: int| 0 <= j < i + 1 implies #[trigger] tick_step(ms2[j], sss2[j], opss2[j], j, now, ms2[j + 1], sss2[j + 1], opss2[j + 1]) by {
                if j < i {
                    assert(tick_step(ms[j], sss[j], opss[j], j, now, ms[j + 1], sss[j + 1], opss[j + 1]));
                }
            }
            ms = ms2;
            sss = sss2;
            opss = opss2;
        }
        i = i + 1;
    }
    proof {
        assert(tick_chain(ss0, now, n as nat, ms, sss, opss));
    }
    Ok(ops)
}


/// Along a tick the schedules keep their number.
pub proof fn lemma_tick_len(
    ss0: Seq<RecurringScheduleWire>,
    now: u64,
    k: nat,
    ms: Seq<QueueModel>,
    sss: Seq<Seq<RecurringScheduleWire>>,
    opss: Seq<Seq<QueueReplicateOp>>,
    j: nat,
)
    requires
        tick_chain(ss0, now, k, ms, sss, opss),
        k <= ss0.len(),
        j <= k,
    ensures
        sss[j as int].len() == ss0.len(),
    decreases j,
{
    if j > 0 {
        let p = (j - 1) as int;
        lemma_tick_len(ss0, now, k, ms, sss, opss, (j - 1) as nat);
        assert(tick_step(ms[p], sss[p], opss[p], p, now, ms[p + 1], sss[p + 1], opss[p + 1]));
    }
}

/// Along a tick, a disabled schedule keeps its place and value in every state.
pub proof fn lemma_disabled_schedule_kept(
    ss0: Seq<RecurringScheduleWire>,
    now: u64,
    k: nat,
    ms: Seq<QueueModel>,
    sss: Seq<Seq<RecurringScheduleWire>>,
    opss: Seq<Seq<QueueReplicateOp>>,
    x: int,
    j: nat,
)
    requires
        tick_chain(ss0, now, k, ms, sss, opss),
        k <= ss0.len(),
        0 <= x < ss0.len(),
        !ss0[x].enabled,
        j <= k,
    ensures
        sss[j as int].len() == ss0.len(),
        sss[j as int][x] == ss0[x],
    decreases j,
{
    lemma_tick_len(ss0, now, k, ms, sss, opss, j);
    if j > 0 {
        let p = (j - 1) as int;
        lemma_disabled_schedule_kept(ss0, now, k, ms, sss, opss, x, (j - 1) as nat);
        lemma_tick_len(ss0, now, k, ms, sss, opss, (j - 1) as nat);
        assert(tick_step(ms[p], sss[p], opss[p], p, now, ms[p + 1], sss[p + 1], opss[p + 1]));
        if p == x {
            assert(!is_due(sss[p][x], now));
        }
    }
}

/// Along a tick of schedules that are all disabled, nothing changes and no
/// operation is emitted.
pub proof fn lemma_all_disabled_idle(
    ss0: Seq<RecurringScheduleWire>,
    now: u64,
    k: nat,
    ms: Seq<QueueModel>,
    sss: Seq<Seq<RecurringScheduleWire>>,
    opss: Seq<Seq<QueueReplicateOp>>,
    j: nat,
)
    requires
        tick_chain(ss0, now, k, ms, sss, opss),
        k <= ss0.len(),
        forall|x: int| 0 <= x < ss0.len() ==> !(#[trigger] ss0[x]).enabled,
        j <= k,
    ensures
        ms[j as int] == ms[0],
        sss[j as int] == ss0,
        opss[j as int] == Seq::<QueueReplicateOp>::empty(),
    decreases j,
{
    if j > 0 {
        let p = (j - 1) as int;
        lemma_all_disabled_idle(ss0, now, k, ms, sss, opss, (j - 1) as nat);
        assert(tick_step(ms[p], sss[p], opss[p], p, now, ms[p + 1], sss[p + 1], opss[p + 1]));
        assert(!ss0[p].enabled);
    }
}

/// A disabled schedule never fires in a tick: after a successful tick it is
/// unchanged, and a tick over disabled schedules only leaves the queue and the
/// schedules as they were, with no operation.
pub proof fn law_disabled_schedules_never_fire(
    m0: QueueModel,
    ss0: Seq<RecurringScheduleWire>,
    now: u64,
    m: QueueModel,
    ss: Seq<RecurringScheduleWire>,
    ops: Seq<QueueReplicateOp>,
)
    requires
        tick_run(m0, ss0, now, ss0.len(), m, ss, ops),
    ensures
        ss.len() == ss0.len(),
        forall|x: int| 0 <= x < ss0.len() && !(#[trigger] ss0[x]).enabled ==> ss[x] == ss0[x],
        (forall|x: int| 0 <= x < ss0.len() ==> !(#[trigger] ss0[x]).enabled) ==> m == m0 && ss == ss0 && ops.len() == 0,
{
    let (ms, sss, opss) = choose|ms: Seq<QueueModel>, sss: Seq<Seq<RecurringScheduleWire>>, opss: Seq<Seq<QueueReplicateOp>>|
        #[trigger] tick_chain(ss0, now, ss0.len(), ms, sss, opss) && ms[0] == m0 && ms[ss0.len() as int] == m
            && sss[ss0.len() as int] == ss && opss[ss0.len() as int] == ops;
    lemma_tick_len(ss0, now, ss0.len(), ms, sss, opss, ss0.len());
    assert forall|x: int| 0 <= x < ss0.len() && !(#[trigger] ss0[x]).enabled implies ss[x] == ss0[x] by {
        lemma_disabled_schedule_kept(ss0, now, ss0.len(), ms, sss, opss, x, ss0.len());
    }
    if forall|x: int| 0 <= x < ss0.len() ==> !(#[trigger] ss0[x]).enabled {
        lemma_all_disabled_idle(ss0, now, ss0.len(), ms, sss, opss, ss0.len());
    }
}

} // verus!
