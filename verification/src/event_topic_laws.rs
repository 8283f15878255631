//! What the topic's replicated operations promise: replay, fan-out, cursor
//! order and safe compaction.
use vstd::prelude::*;

use crate::event_topic::{
    EventModel, SubModel, TopicModel, TopicReplicateOp, above, apply_op_spec, compact_spec, compact_subs, dead_above,
    event_above, fan_out, has_event, ids_ascending, insert_event, is_event_pos, lease_exists, min_cur, min_cursor,
    names_distinct, not_dead, not_lease, not_named, op_subscription, sub_index, sub_step,
};
use crate::keyed::has_key;
use crate::event_topic::{discard_list, head_spec, lagging, oldest_age, retention_outcome, sat_sub_u64};
use crate::topic::TopicRetentionOpts;

verus! {

/// Filtering twice keeps what filtering once keeps.
pub proof fn lemma_filter_twice<A>(s: Seq<A>, f: spec_fn(A) -> bool)
    ensures
        s.filter(f).filter(f) == s.filter(f),
    decreases s.len(),
{
    if s.len() > 0 {
        let pre = s.drop_last();
        let x = s.last();
        lemma_filter_twice(pre, f);
        assert(s =~= pre.push(x));
        pre.lemma_filter_push(x, f);
        pre.filter(f).lemma_filter_push(x, f);
    } else {
        assert(s.filter(f) =~= s);
        assert(s.filter(f).filter(f) =~= s);
    }
}

/// In an ascending log without `id`, there is a place where `id` belongs.
pub proof fn lemma_event_pos_exists(e: Seq<(u64, EventModel)>, id: u64)
    requires
        ids_ascending(e),
        !has_event(e, id),
    ensures
        exists|p: int| is_event_pos(e, id, p),
    decreases e.len(),
{
    if e.len() == 0 {
        assert(is_event_pos(e, id, 0));
    } else {
        let pre = e.drop_last();
        assert(e.last() == e[e.len() - 1]);
        if e.last().0 < id {
            assert(is_event_pos(e, id, e.len() as int)) by {
                assert forall|j: int| 0 <= j < e.len() implies e[j].0 < id by {
                    if j < e.len() - 1 {
                        assert(e[j].0 < e[e.len() - 1].0);
                    }
                }
            }
        } else {
            assert(e.last().0 != id);
            assert(ids_ascending(pre)) by {
                assert forall|i: int, j: int| 0 <= i < j < pre.len() implies (#[trigger] pre[i]).0 < (#[trigger] pre[j]).0 by {
                    assert(pre[i] == e[i] && pre[j] == e[j]);
                }
            }
            assert(!has_event(pre, id)) by {
                if has_event(pre, id) {
                    let k = choose|k: int| 0 <= k < pre.len() && pre[k].0 == id;
                    assert(e[k] == pre[k]);
                }
            }
            lemma_event_pos_exists(pre, id);
            let p = choose|p: int| is_event_pos(pre, id, p);
            assert(is_event_pos(e, id, p)) by {
                assert forall|j: int| 0 <= j < p implies e[j].0 < id by {
                    assert(e[j] == pre[j]);
                }
                assert forall|j: int| p <= j < e.len() implies e[j].0 > id by {
                    if j < e.len() - 1 {
                        assert(e[j] == pre[j]);
                    }
                }
            }
        }
    }
}

/// A new event is stored by `insert_event`.
pub proof fn lemma_insert_event_stores(e: Seq<(u64, EventModel)>, id: u64, x: EventModel)
    requires
        ids_ascending(e),
        !has_event(e, id),
    ensures
        has_event(insert_event(e, id, x), id),
{
    lemma_event_pos_exists(e, id);
    let p = choose|p: int| is_event_pos(e, id, p);
    assert(insert_event(e, id, x)[p] == (id, x));
}

/// The compaction floor is at most every cursor.
pub proof fn lemma_min_cur_le(subs: Seq<(Seq<char>, SubModel)>, j: int)
    requires
        0 <= j < subs.len(),
    ensures
        min_cur(subs) <= subs[j].1.cursor,
    decreases subs.len(),
{
    if j < subs.len() - 1 {
        lemma_min_cur_le(subs.drop_last(), j);
        assert(subs.drop_last()[j] == subs[j]);
    }
}

/// Names are unique, so the subscription called `subs[i].0` is at `i`.
pub proof fn lemma_sub_index_of(subs: Seq<(Seq<char>, SubModel)>, i: int)
    requires
        names_distinct(subs),
        0 <= i < subs.len(),
    ensures
        sub_index(subs, subs[i].0) == i,
{
    let c = sub_index(subs, subs[i].0);
    assert(0 <= c < subs.len() && subs[c].0 == subs[i].0);
}

/// Once lease `lease_id` is dropped, no lease with that id is left.
pub proof fn lemma_no_lease_after_drop(s: SubModel, lease_id: u64)
    ensures
        !lease_exists(SubModel { leases: s.leases.filter(not_lease(lease_id)), ..s }, lease_id),
{
    let f = s.leases.filter(not_lease(lease_id));
    assert forall|i: int| 0 <= i < f.len() implies f[i].lease_id != lease_id by {
        s.leases.lemma_filter_pred(not_lease(lease_id), i);
    }
}

/// Replaying an operation a follower has already applied changes nothing: every
/// replicated topic operation is idempotent.
pub proof fn law_replay_is_idempotent(m: TopicModel, op: TopicReplicateOp)
    requires
        ids_ascending(m.events),
        names_distinct(m.subs),
    ensures
        apply_op_spec(m, op) matches Ok(m1) ==> apply_op_spec(m1, op) == Ok::<TopicModel, crate::topic::TopicError>(m1),
{
    match apply_op_spec(m, op) {
        Ok(m1) => {
            match op {
                TopicReplicateOp::Publish { event_id, payload, published_at_ms, next_event_id } => {
                    if !has_event(m.events, event_id) {
                        lemma_insert_event_stores(m.events, event_id, EventModel { payload: payload@, published_at_ms });
                    }
                },
                TopicReplicateOp::RegisterSubscription { name, cursor, max_attempts } => {
                    if !has_key(m.subs, name@) {
                        assert(m1.subs[m1.subs.len() - 1].0 == name@);
                    }
                },
                TopicReplicateOp::RemoveSubscription { name } => {
                    lemma_filter_twice(m.subs, not_named(name@));
                },
                TopicReplicateOp::CompactHead { compact_head } => {
                    lemma_filter_twice(m.events, event_above(compact_head));
                    let c1 = compact_subs(m.subs, compact_head);
                    assert(compact_subs(c1, compact_head) =~= c1) by {
                        assert forall|j: int| 0 <= j < c1.len() implies #[trigger] compact_subs(c1, compact_head)[j] == c1[j] by {
                            lemma_filter_twice(m.subs[j].1.pending, above(compact_head));
                            lemma_filter_twice(m.subs[j].1.dead_letter, dead_above(compact_head));
                        }
                    }
                },
                _ => {
                    let name = op_subscription(op).unwrap()@;
                    let i = sub_index(m.subs, name);
                    let s = m.subs[i].1;
                    let s1 = sub_step(s, op);
                    assert(m1.subs[i] == (name, s1));
                    assert(names_distinct(m1.subs)) by {
                        assert forall|a: int, b: int| 0 <= a < m1.subs.len() && 0 <= b < m1.subs.len() && a != b implies m1.subs[a].0
                            != m1.subs[b].0 by {
                            assert(m1.subs[a].0 == m.subs[a].0 && m1.subs[b].0 == m.subs[b].0);
                        }
                    }
                    lemma_sub_index_of(m1.subs, i);
                    match op {
                        TopicReplicateOp::Lease { lease_id, .. } => {
                            if !lease_exists(s, lease_id) {
                                assert(s1.leases[s1.leases.len() - 1].lease_id == lease_id);
                            }
                            assert(sub_step(s1, op) == s1);
                        },
                        TopicReplicateOp::Ack { lease_id, event_id, .. } => {
                            lemma_filter_twice(s.leases, not_lease(lease_id));
                            lemma_filter_twice(s.dead_letter, not_dead(event_id));
                            assert(sub_step(s1, op) == s1);
                        },
                        TopicReplicateOp::RetentionDiscard { cursor, .. } => {
                            lemma_filter_twice(s.pending, above(cursor));
                            lemma_filter_twice(s.leases, crate::event_topic::lease_event_above(cursor));
                            lemma_filter_twice(s.dead_letter, dead_above(cursor));
                            assert(sub_step(s1, op) == s1);
                        },
                        TopicReplicateOp::Nack { lease_id, .. } => {
                            lemma_no_lease_after_drop(s, lease_id);
                            assert(sub_step(s1, op) == s1);
                        },
                        TopicReplicateOp::Reclaim { lease_id, .. } => {
                            lemma_no_lease_after_drop(s, lease_id);
                            assert(sub_step(s1, op) == s1);
                        },
                        _ => {},
                    }
                    assert(m1.subs.update(i, (name, sub_step(s1, op))) =~= m1.subs);
                },
            }
        },
        Err(_) => {},
    }
}

/// Publishing a new event stores it and appends it to the pending queue of
/// exactly the subscriptions whose cursor is below it; every other part of each
/// subscription is unchanged.
pub proof fn law_publish_reaches_every_subscription(m: TopicModel, op: TopicReplicateOp)
    requires
        ids_ascending(m.events),
        op matches TopicReplicateOp::Publish { event_id, .. } && !has_event(m.events, event_id),
    ensures
        apply_op_spec(m, op) matches Ok(m1) && op matches TopicReplicateOp::Publish { event_id, .. } && {
            &&& has_event(m1.events, event_id)
            &&& m1.subs.len() == m.subs.len()
            &&& forall|j: int|
                0 <= j < m.subs.len() ==> {
                    let (s, s1) = (m.subs[j].1, (#[trigger] m1.subs[j]).1);
                    &&& m1.subs[j].0 == m.subs[j].0
                    &&& s1.pending == (if event_id > s.cursor { s.pending.push(event_id) } else { s.pending })
                    &&& s1.cursor == s.cursor
                    &&& s1.leases == s.leases
                    &&& s1.dead_letter == s.dead_letter
                }
        },
{
    match op {
        TopicReplicateOp::Publish { event_id, payload, published_at_ms, .. } => {
            lemma_insert_event_stores(m.events, event_id, EventModel { payload: payload@, published_at_ms });
            let m1 = apply_op_spec(m, op).unwrap();
            assert forall|j: int| 0 <= j < m.subs.len() implies (#[trigger] m1.subs[j]) == fan_out(m.subs, event_id)[j] by {}
        },
        _ => {},
    }
}

/// No operation but a removal moves a subscription's cursor back, renames a
/// subscription or drops one.
pub proof fn law_cursor_never_moves_back(m: TopicModel, op: TopicReplicateOp)
    requires
        names_distinct(m.subs),
        !(op is RemoveSubscription),
    ensures
        apply_op_spec(m, op) matches Ok(m1) ==> {
            &&& m1.subs.len() >= m.subs.len()
            &&& forall|j: int|
                0 <= j < m.subs.len() ==> (#[trigger] m1.subs[j]).0 == m.subs[j].0 && m1.subs[j].1.cursor >= m.subs[j].1.cursor
        },
{
    match apply_op_spec(m, op) {
        Ok(m1) => {
            match op {
                TopicReplicateOp::Publish { .. } => {},
                TopicReplicateOp::RegisterSubscription { .. } => {
                    assert forall|j: int| 0 <= j < m.subs.len() implies (#[trigger] m1.subs[j]).0 == m.subs[j].0
                        && m1.subs[j].1.cursor >= m.subs[j].1.cursor by {
                        if m1.subs.len() > m.subs.len() {
                            assert(m1.subs[j] == m.subs[j]);
                        }
                    }
                },
                TopicReplicateOp::CompactHead { .. } => {},
                _ => {
                    let i = sub_index(m.subs, op_subscription(op).unwrap()@);
                    assert forall|j: int| 0 <= j < m.subs.len() implies (#[trigger] m1.subs[j]).0 == m.subs[j].0
                        && m1.subs[j].1.cursor >= m.subs[j].1.cursor by {
                        if j == i {
                            assert(m1.subs[j].1 == sub_step(m.subs[j].1, op));
                        }
                    }
                },
            }
        },
        Err(_) => {},
    }
}

/// Compaction removes exactly the events at or below the smallest cursor, so
/// no event that some subscription has not acknowledged is ever removed.
pub proof fn law_compaction_keeps_unacknowledged(m: TopicModel)
    ensures
        forall|k: int| 0 <= k < compact_spec(m).0.events.len() ==> m.events.contains(#[trigger] compact_spec(m).0.events[k]),
        forall|k: int, j: int|
            0 <= k < m.events.len() && 0 <= j < m.subs.len() && (#[trigger] m.events[k]).0 > (#[trigger] m.subs[j]).1.cursor ==> compact_spec(
                m,
            ).0.events.contains(m.events[k]),
{
    let floor = min_cursor(m.subs);
    let m1 = compact_spec(m).0;
    if floor > m.compact_head {
        assert forall|k: int| 0 <= k < m1.events.len() implies m.events.contains(#[trigger] m1.events[k]) by {
            m.events.lemma_filter_contains_rev(event_above(floor), m1.events[k]);
        }
        assert forall|k: int, j: int|
            0 <= k < m.events.len() && 0 <= j < m.subs.len() && (#[trigger] m.events[k]).0 > (#[trigger] m.subs[j]).1.cursor implies m1.events.contains(
            m.events[k],
        ) by {
            lemma_min_cur_le(m.subs, j);
            m.events.lemma_filter_contains(event_above(floor), k);
        }
    } else {
        assert forall|k: int| 0 <= k < m1.events.len() implies m.events.contains(#[trigger] m1.events[k]) by {
            assert(m1.events[k] == m.events[k]);
        }
        assert forall|k: int, j: int|
            0 <= k < m.events.len() && 0 <= j < m.subs.len() && (#[trigger] m.events[k]).0 > (#[trigger] m.subs[j]).1.cursor implies m1.events.contains(
            m.events[k],
        ) by {
            assert(m1.events[k] == m.events[k]);
        }
    }
}


/// The oldest age is at least the age of every stored event.
pub proof fn lemma_oldest_age_covers(e: Seq<(u64, EventModel)>, now: u64, k: int)
    requires
        0 <= k < e.len(),
    ensures
        oldest_age(e, now) >= sat_sub_u64(now, e[k].1.published_at_ms),
    decreases e.len(),
{
    if k < e.len() - 1 {
        lemma_oldest_age_covers(e.drop_last(), now, k);
        assert(e.drop_last()[k] == e[k]);
    }
}

/// Retention by age: when some stored event is older than `max_event_age_ms`
/// at `now`, enforcing retention force-advances every subscription that lags
/// the head, whatever the event count: one `RetentionDiscard` op for it moves
/// its cursor to the head.
pub proof fn law_stale_event_forces_retention(
    m0: TopicModel,
    opts: TopicRetentionOpts,
    now: u64,
    ops: Seq<TopicReplicateOp>,
    m: TopicModel,
    k: int,
    i: int,
)
    requires
        retention_outcome(m0, opts, now, ops, m),
        0 <= k < m0.events.len(),
        sat_sub_u64(now, m0.events[k].1.published_at_ms) > opts.max_event_age_ms,
        0 <= i < m0.subs.len(),
        m0.subs[i].1.cursor < head_spec(m0),
    ensures
        exists|j: int| 0 <= j < ops.len() && (#[trigger] ops[j] matches TopicReplicateOp::RetentionDiscard { subscription, cursor, .. }
            && subscription@ == m0.subs[i].0 && cursor == head_spec(m0)),
{
    lemma_oldest_age_covers(m0.events, now, k);
    let head = head_spec(m0);
    let subs = m0.subs;
    assert(lagging(head)(subs[i]));
    subs.lemma_filter_contains(lagging(head), i);
    let f = subs.filter(lagging(head));
    let j = choose|j: int| 0 <= j < f.len() && f[j] == subs[i];
    let list = discard_list(subs, head);
    assert(list[j].0 == subs[i].0);
    assert(crate::event_topic::is_discard_op(ops[j], list[j], head));
}

} // verus!
