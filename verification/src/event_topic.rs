//! In-memory durable pub/sub topic: one log of events, many named subscriptions
//! with their own cursor, pending queue, leases and dead letter. Every mutation
//! is expressed as replicated operations that followers apply idempotently.
use vstd::prelude::*;

use crate::ids::{EventId, NodeId, TopicLeaseId, WorkerId, bytes_to_vec, same_worker};
use crate::keyed::{has_key, keys_distinct};
use crate::queue::{failed_attempt_spec, sat_add_u32, sat_add_u64, saturating_add_u32, saturating_add_u64, unix_now_ms};
use crate::retain::{filter_copy, find_copy, retain_copy};
use crate::topic::{
    LeasedEvent, SubscriptionStart, TopicError, TopicMetrics, TopicRetentionOpts, TopicSubscriptionDef,
    TopicSubscriptionMetrics, failed_delivery_at, subscription_lag,
};

verus! {

/// One replicated topic mutation.
#[derive(Debug, Clone, PartialEq, Eq)]
pub enum TopicReplicateOp {
    /// Append an event (no-op when the id is already stored).
    Publish { event_id: u64, payload: Vec<u8>, published_at_ms: u64, next_event_id: u64 },
    /// Add a subscription (no-op when the name exists).
    RegisterSubscription { name: String, cursor: u64, max_attempts: u32 },
    /// Drop a subscription.
    RemoveSubscription { name: String },
    /// Lease an event of a subscription to a worker.
    Lease {
        subscription: String,
        lease_id: u64,
        event_id: u64,
        worker_node: u64,
        worker_instance: u32,
        expires_at_ms: u64,
        next_lease_id: u64,
        attempts: u32,
    },
    /// Acknowledge a lease and advance the cursor.
    Ack { subscription: String, lease_id: u64, event_id: u64, cursor: u64 },
    /// Return a leased event (to pending or to the dead letter).
    Nack { subscription: String, lease_id: u64, event_id: u64, attempts: u32, dead_letter: bool },
    /// Same as `Nack`, for an expired lease.
    Reclaim { subscription: String, lease_id: u64, event_id: u64, attempts: u32, dead_letter: bool },
    /// Retention force-advanced a lagging subscription to `cursor`.
    RetentionDiscard { subscription: String, cursor: u64, discarded: u64 },
    /// Events at or below `compact_head` were removed.
    CompactHead { compact_head: u64 },
}

/// An outstanding delivery of a subscription.
#[derive(Debug, Clone, Copy, PartialEq, Eq, Structural)]
pub struct TopicLease {
    pub lease_id: u64,
    pub event_id: u64,
    pub worker: WorkerId,
    pub attempts: u32,
    /// When the lease lapses (unix ms).
    pub expires_at_ms: u64,
}

/// A stored event.
#[derive(Debug)]
pub struct StoredEvent {
    pub payload: Vec<u8>,
    pub published_at_ms: u64,
}

/// State of one subscription.
#[derive(Debug)]
pub struct SubState {
    /// Highest acknowledged event id.
    pub cursor: u64,
    /// Retry ceiling (`0` = unlimited).
    pub max_attempts: u32,
    /// Events discarded by retention.
    pub retention_discards: u64,
    /// Event ids ready to lease, in delivery order.
    pub pending: Vec<u64>,
    /// Outstanding leases.
    pub leases: Vec<TopicLease>,
    /// Dead-lettered event ids with their attempt counts.
    pub dead_letter: Vec<(u64, u32)>,
}

/// A subscription as a mathematical value.
pub struct SubModel {
    pub cursor: u64,
    pub max_attempts: u32,
    pub retention_discards: u64,
    pub pending: Seq<u64>,
    pub leases: Seq<TopicLease>,
    pub dead_letter: Seq<(u64, u32)>,
}

/// An event as a mathematical value.
pub struct EventModel {
    pub payload: Seq<u8>,
    pub published_at_ms: u64,
}

impl SubState {
    pub open spec fn model(&self) -> SubModel {
        SubModel {
            cursor: self.cursor,
            max_attempts: self.max_attempts,
            retention_discards: self.retention_discards,
            pending: self.pending@,
            leases: self.leases@,
            dead_letter: self.dead_letter@,
        }
    }
}

pub open spec fn above(floor: u64) -> spec_fn(u64) -> bool {
    |id: u64| id > floor
}

pub open spec fn dead_above(floor: u64) -> spec_fn((u64, u32)) -> bool {
    |e: (u64, u32)| e.0 > floor
}

pub open spec fn lease_event_above(floor: u64) -> spec_fn(TopicLease) -> bool {
    |l: TopicLease| l.event_id > floor
}

pub open spec fn not_lease(id: u64) -> spec_fn(TopicLease) -> bool {
    |l: TopicLease| l.lease_id != id
}

pub open spec fn not_event(id: u64) -> spec_fn(u64) -> bool {
    |x: u64| x != id
}

pub open spec fn not_dead(id: u64) -> spec_fn((u64, u32)) -> bool {
    |e: (u64, u32)| e.0 != id
}

/// The dead-letter attempt count of `id`: the first entry for it.
pub open spec fn dead_get(d: Seq<(u64, u32)>, id: u64) -> Option<u32> {
    if exists|i: int| 0 <= i < d.len() && d[i].0 == id {
        Some(d[choose|i: int| 0 <= i < d.len() && d[i].0 == id && forall|j: int| 0 <= j < i ==> d[j].0 != id].1)
    } else {
        None
    }
}

/// Dead letter after recording `attempts` for `id` (replacing an earlier entry).
pub open spec fn dead_put(d: Seq<(u64, u32)>, id: u64, attempts: u32) -> Seq<(u64, u32)> {
    d.filter(not_dead(id)).push((id, attempts))
}

/// Both pending and dead letter keep only ids above `floor`.
pub open spec fn sub_compact(s: SubModel, floor: u64) -> SubModel {
    SubModel { pending: s.pending.filter(above(floor)), dead_letter: s.dead_letter.filter(dead_above(floor)), ..s }
}

impl SubState {
    /// Keep only events above `floor` in pending and dead letter.
    pub fn compact_above(&mut self, floor: u64)
        ensures
            final(self).model() == sub_compact(old(self).model(), floor),
    {
        retain_copy(&mut self.pending, |x: u64| -> (r: bool) ensures r == (x > floor) { x > floor }, Ghost(above(floor)));
        retain_copy(
            &mut self.dead_letter,
            |e: (u64, u32)| -> (r: bool) ensures r == (e.0 > floor) { e.0 > floor },
            Ghost(dead_above(floor)),
        );
    }

    /// Record a failed delivery's result: dead letter or back to pending.
    pub fn settle_failed(&mut self, event_id: u64, attempts: u32, dead: bool)
        ensures
            final(self).model() == (if dead {
                SubModel { dead_letter: dead_put(old(self).model().dead_letter, event_id, attempts), ..old(self).model() }
            } else {
                SubModel { pending: old(self).model().pending.push(event_id), ..old(self).model() }
            }),
    {
        if dead {
            retain_copy(
                &mut self.dead_letter,
                |e: (u64, u32)| -> (r: bool) ensures r == (e.0 != event_id) { e.0 != event_id },
                Ghost(not_dead(event_id)),
            );
            self.dead_letter.push((event_id, attempts));
        } else {
            self.pending.push(event_id);
        }
    }

    /// Drop the lease `lease_id` (if any).
    pub fn drop_lease(&mut self, lease_id: u64)
        ensures
            final(self).model() == (SubModel { leases: old(self).model().leases.filter(not_lease(lease_id)), ..old(self).model() }),
    {
        retain_copy(
            &mut self.leases,
            |l: TopicLease| -> (r: bool) ensures r == (l.lease_id != lease_id) { l.lease_id != lease_id },
            Ghost(not_lease(lease_id)),
        );
    }

    /// Dead-letter attempt count of `event_id`.
    pub fn dead_attempts(&self, event_id: u64) -> (r: Option<u32>)
        ensures
            r == dead_get(self.model().dead_letter, event_id),
    {
        let ghost d = self.dead_letter@;
        match find_copy(
            &self.dead_letter,
            |e: (u64, u32)| -> (r: bool) ensures r == (e.0 == event_id) { e.0 == event_id },
            Ghost(|e: (u64, u32)| e.0 == event_id),
        ) {
            Some(i) => {
                proof {
                    let c = choose|k: int| 0 <= k < d.len() && d[k].0 == event_id && forall|j: int| 0 <= j < k ==> d[j].0 != event_id;
                    assert(0 <= i < d.len() && d[i as int].0 == event_id && forall|j: int| 0 <= j < i ==> d[j].0 != event_id);
                    if c < i {
                        assert(d[c].0 == event_id);
                    } else if c > i {
                        assert(d[i as int].0 != event_id);
                    }
                }
                Some(self.dead_letter[i].1)
            },
            None => None,
        }
    }
}

/// Abstract state of a topic.
pub struct TopicModel {
    pub next_event_id: u64,
    pub next_lease_id: u64,
    pub compact_head: u64,
    /// Retained events in ascending id order.
    pub events: Seq<(u64, EventModel)>,
    /// Subscriptions by name, in registration order.
    pub subs: Seq<(Seq<char>, SubModel)>,
}

pub open spec fn events_model(v: Seq<(u64, StoredEvent)>) -> Seq<(u64, EventModel)> {
    v.map_values(|e: (u64, StoredEvent)| (e.0, EventModel { payload: e.1.payload@, published_at_ms: e.1.published_at_ms }))
}

pub open spec fn subs_model(v: Seq<(String, SubState)>) -> Seq<(Seq<char>, SubModel)> {
    v.map_values(|r: (String, SubState)| (r.0@, r.1.model()))
}

/// Event ids strictly increase.
pub open spec fn ids_ascending(e: Seq<(u64, EventModel)>) -> bool {
    forall|i: int, j: int| 0 <= i < j < e.len() ==> (#[trigger] e[i]).0 < (#[trigger] e[j]).0
}

/// Ids of the retained events, ascending.
pub open spec fn event_ids(e: Seq<(u64, EventModel)>) -> Seq<u64> {
    e.map_values(|x: (u64, EventModel)| x.0)
}

pub open spec fn has_event(e: Seq<(u64, EventModel)>, id: u64) -> bool {
    exists|i: int| 0 <= i < e.len() && e[i].0 == id
}

/// `p` is where an event with id `id` goes in ascending order.
pub open spec fn is_event_pos(e: Seq<(u64, EventModel)>, id: u64, p: int) -> bool {
    0 <= p <= e.len() && (forall|j: int| 0 <= j < p ==> e[j].0 < id) && (forall|j: int| p <= j < e.len() ==> e[j].0 > id)
}

/// Events after storing `x` under `id` in order.
pub open spec fn insert_event(e: Seq<(u64, EventModel)>, id: u64, x: EventModel) -> Seq<(u64, EventModel)> {
    e.insert(choose|p: int| is_event_pos(e, id, p), (id, x))
}

/// Every subscription whose cursor is below `id` gets `id` appended to its pending queue.
pub open spec fn fan_out(subs: Seq<(Seq<char>, SubModel)>, id: u64) -> Seq<(Seq<char>, SubModel)> {
    subs.map_values(|r: (Seq<char>, SubModel)| (r.0, if id > r.1.cursor {
        SubModel { pending: r.1.pending.push(id), ..r.1 }
    } else {
        r.1
    }))
}

/// Names are unique.
pub open spec fn names_distinct(subs: Seq<(Seq<char>, SubModel)>) -> bool {
    keys_distinct(subs)
}

/// Index of the subscription named `name`.
pub open spec fn sub_index(subs: Seq<(Seq<char>, SubModel)>, name: Seq<char>) -> int {
    choose|i: int| 0 <= i < subs.len() && subs[i].0 == name
}

pub open spec fn not_named(name: Seq<char>) -> spec_fn((Seq<char>, SubModel)) -> bool {
    |r: (Seq<char>, SubModel)| r.0 != name
}

pub open spec fn fresh_sub(events: Seq<(u64, EventModel)>, cursor: u64, max_attempts: u32) -> SubModel {
    SubModel {
        cursor,
        max_attempts,
        retention_discards: 0,
        pending: if cursor == 0 { event_ids(events).filter(above(0)) } else { Seq::empty() },
        leases: Seq::empty(),
        dead_letter: Seq::empty(),
    }
}

/// Every subscription compacted to `h`.
pub open spec fn compact_subs(subs: Seq<(Seq<char>, SubModel)>, h: u64) -> Seq<(Seq<char>, SubModel)> {
    subs.map_values(|r: (Seq<char>, SubModel)| (r.0, sub_compact(r.1, h)))
}

pub open spec fn event_above(h: u64) -> spec_fn((u64, EventModel)) -> bool {
    |e: (u64, EventModel)| e.0 > h
}

pub open spec fn max3(a: u64, b: u64, c: u64) -> u64 {
    let m = if a >= b { a } else { b };
    if m >= c { m } else { c }
}

pub open spec fn lease_exists(s: SubModel, lease_id: u64) -> bool {
    exists|i: int| 0 <= i < s.leases.len() && s.leases[i].lease_id == lease_id
}

/// The effect of one subscription-level operation on the subscription.
pub open spec fn sub_step(s: SubModel, op: TopicReplicateOp) -> SubModel {
    match op {
        TopicReplicateOp::Lease { lease_id, event_id, worker_node, worker_instance, expires_at_ms, attempts, .. } =>
            if lease_exists(s, lease_id) {
            s
        } else {
            SubModel {
                pending: s.pending.filter(not_event(event_id)),
                leases: s.leases.push(
                    TopicLease {
                        lease_id,
                        event_id,
                        worker: WorkerId { node: NodeId(worker_node), instance: worker_instance },
                        attempts,
                        expires_at_ms,
                    },
                ),
                ..s
            }
        },
        TopicReplicateOp::Ack { lease_id, event_id, cursor, .. } => SubModel {
            leases: s.leases.filter(not_lease(lease_id)),
            dead_letter: s.dead_letter.filter(not_dead(event_id)),
            cursor: max3(s.cursor, cursor, event_id),
            ..s
        },
        TopicReplicateOp::Nack { lease_id, event_id, attempts, dead_letter, .. } => if !lease_exists(s, lease_id) {
            s
        } else {
            let t = SubModel { leases: s.leases.filter(not_lease(lease_id)), ..s };
            if dead_letter {
                SubModel { dead_letter: dead_put(t.dead_letter, event_id, attempts), ..t }
            } else {
                SubModel { pending: t.pending.push(event_id), ..t }
            }
        },
        TopicReplicateOp::Reclaim { lease_id, event_id, attempts, dead_letter, .. } => if !lease_exists(s, lease_id) {
            s
        } else {
            let t = SubModel { leases: s.leases.filter(not_lease(lease_id)), ..s };
            if dead_letter {
                SubModel { dead_letter: dead_put(t.dead_letter, event_id, attempts), ..t }
            } else {
                SubModel { pending: t.pending.push(event_id), ..t }
            }
        },
        TopicReplicateOp::RetentionDiscard { cursor, discarded, .. } => SubModel {
            pending: s.pending.filter(above(cursor)),
            leases: s.leases.filter(lease_event_above(cursor)),
            dead_letter: s.dead_letter.filter(dead_above(cursor)),
            cursor: if s.cursor >= cursor { s.cursor } else { cursor },
            retention_discards: if s.cursor < cursor { sat_add_u64(s.retention_discards, discarded) } else { s.retention_discards },
            ..s
        },
        _ => s,
    }
}

/// The subscription a subscription-level operation addresses.
pub open spec fn op_subscription(op: TopicReplicateOp) -> Option<String> {
    match op {
        TopicReplicateOp::Lease { subscription, .. } => Some(subscription),
        TopicReplicateOp::Ack { subscription, .. } => Some(subscription),
        TopicReplicateOp::Nack { subscription, .. } => Some(subscription),
        TopicReplicateOp::Reclaim { subscription, .. } => Some(subscription),
        TopicReplicateOp::RetentionDiscard { subscription, .. } => Some(subscription),
        _ => None,
    }
}

/// The effect of applying one replicated operation, or the error it is refused with.
pub open spec fn apply_op_spec(m: TopicModel, op: TopicReplicateOp) -> Result<TopicModel, TopicError> {
    match op {
        TopicReplicateOp::Publish { event_id, payload, published_at_ms, next_event_id } => Ok(
            if has_event(m.events, event_id) {
                TopicModel { next_event_id, ..m }
            } else {
                TopicModel {
                    next_event_id,
                    events: insert_event(m.events, event_id, EventModel { payload: payload@, published_at_ms }),
                    subs: fan_out(m.subs, event_id),
                    ..m
                }
            },
        ),
        TopicReplicateOp::RegisterSubscription { name, cursor, max_attempts } => Ok(
            if has_key(m.subs, name@) {
                m
            } else {
                TopicModel { subs: m.subs.push((name@, fresh_sub(m.events, cursor, max_attempts))), ..m }
            },
        ),
        TopicReplicateOp::RemoveSubscription { name } => Ok(TopicModel { subs: m.subs.filter(not_named(name@)), ..m }),
        TopicReplicateOp::CompactHead { compact_head } => Ok(
            TopicModel {
                compact_head,
                events: m.events.filter(event_above(compact_head)),
                subs: compact_subs(m.subs, compact_head),
                ..m
            },
        ),
        _ => {
            let name = op_subscription(op).unwrap();
            if !has_key(m.subs, name@) {
                Err(TopicError::SubscriptionNotFound(name))
            } else {
                let i = sub_index(m.subs, name@);
                let next_lease_id = match op {
                    TopicReplicateOp::Lease { next_lease_id, .. } => next_lease_id,
                    _ => m.next_lease_id,
                };
                Ok(TopicModel { subs: m.subs.update(i, (name@, sub_step(m.subs[i].1, op))), next_lease_id, ..m })
            }
        },
    }
}

/// Smallest cursor among `subs` (`u64::MAX` for none).
pub open spec fn min_cur(subs: Seq<(Seq<char>, SubModel)>) -> u64
    decreases subs.len(),
{
    if subs.len() == 0 {
        u64::MAX
    } else {
        let rest = min_cur(subs.drop_last());
        if subs.last().1.cursor < rest { subs.last().1.cursor } else { rest }
    }
}

/// Compaction floor: the smallest cursor, or 0 without subscriptions.
pub open spec fn min_cursor(subs: Seq<(Seq<char>, SubModel)>) -> u64 {
    if subs.len() == 0 { 0 } else { min_cur(subs) }
}

/// Compaction: when every subscription has moved past the compact head, drop
/// what all of them acknowledged.
pub open spec fn compact_spec(m: TopicModel) -> (TopicModel, Option<TopicReplicateOp>) {
    let floor = min_cursor(m.subs);
    if floor <= m.compact_head {
        (m, None)
    } else {
        (
            TopicModel { compact_head: floor, events: m.events.filter(event_above(floor)), subs: compact_subs(m.subs, floor), ..m },
            Some(TopicReplicateOp::CompactHead { compact_head: floor }),
        )
    }
}

/// Operations applied in order; the first refusal stops.
pub open spec fn apply_ops_spec(m: TopicModel, ops: Seq<TopicReplicateOp>) -> Result<TopicModel, TopicError>
    decreases ops.len(),
{
    if ops.len() == 0 {
        Ok(m)
    } else {
        match apply_ops_spec(m, ops.drop_last()) {
            Ok(m1) => apply_op_spec(m1, ops.last()),
            Err(e) => Err(e),
        }
    }
}

/// Log head: the last assigned event id (0 when none).
pub open spec fn head_spec(m: TopicModel) -> u64 {
    if m.next_event_id >= 1 { (m.next_event_id - 1) as u64 } else { 0 }
}

/// The registration operation of one declaration.
pub open spec fn register_op(def: TopicSubscriptionDef, head: u64) -> TopicReplicateOp {
    TopicReplicateOp::RegisterSubscription {
        name: def.name,
        cursor: match def.start {
            SubscriptionStart::Earliest => 0,
            SubscriptionStart::Latest => head,
        },
        max_attempts: def.max_attempts,
    }
}

/// Operations that are followed by a compaction on followers.
pub open spec fn compacts_after(op: TopicReplicateOp) -> bool {
    op is Ack || op is RetentionDiscard || op is RemoveSubscription
}

/// Leases lapsed at `now`.
pub open spec fn expired_at(now: u64) -> spec_fn(TopicLease) -> bool {
    |l: TopicLease| l.expires_at_ms <= now
}

/// Leases still running at `now`.
pub open spec fn live_at(now: u64) -> spec_fn(TopicLease) -> bool {
    |l: TopicLease| l.expires_at_ms > now
}

/// One failed delivery of `event_id` (after `attempts` attempts) settled into `s`.
pub open spec fn settle_one(s: SubModel, event_id: u64, attempts: u32, now: u64) -> SubModel {
    let o = failed_attempt_spec(attempts, s.max_attempts, now);
    if o.dead_letter {
        SubModel { dead_letter: dead_put(s.dead_letter, event_id, o.attempts), ..s }
    } else {
        SubModel { pending: s.pending.push(event_id), ..s }
    }
}

/// The expired leases `exp` settled in order.
pub open spec fn settle_expired(s: SubModel, exp: Seq<TopicLease>, now: u64) -> SubModel
    decreases exp.len(),
{
    if exp.len() == 0 {
        s
    } else {
        let l = exp.last();
        settle_one(settle_expired(s, exp.drop_last(), now), l.event_id, l.attempts, now)
    }
}

/// A subscription after reclaiming its leases that lapsed at `now`.
pub open spec fn reclaim_sub(s: SubModel, now: u64) -> SubModel {
    settle_expired(SubModel { leases: s.leases.filter(live_at(now)), ..s }, s.leases.filter(expired_at(now)), now)
}

/// What one reclaim reports: subscription, lease, event, attempts, dead letter.
pub open spec fn reclaim_entry(name: Seq<char>, max_attempts: u32, now: u64, l: TopicLease) -> (Seq<char>, u64, u64, u32, bool) {
    let o = failed_attempt_spec(l.attempts, max_attempts, now);
    (name, l.lease_id, l.event_id, o.attempts, o.dead_letter)
}

/// Every reclaim at `now`, subscription by subscription, lease by lease.
pub open spec fn reclaim_list(subs: Seq<(Seq<char>, SubModel)>, now: u64) -> Seq<(Seq<char>, u64, u64, u32, bool)>
    decreases subs.len(),
{
    if subs.len() == 0 {
        Seq::empty()
    } else {
        let r = subs.last();
        reclaim_list(subs.drop_last(), now) + r.1.leases.filter(expired_at(now)).map_values(
            |l: TopicLease| reclaim_entry(r.0, r.1.max_attempts, now, l),
        )
    }
}

/// The operation reports `e`.
pub open spec fn is_reclaim_op(op: TopicReplicateOp, e: (Seq<char>, u64, u64, u32, bool)) -> bool {
    op matches TopicReplicateOp::Reclaim { subscription, lease_id, event_id, attempts, dead_letter } && subscription@ == e.0
        && lease_id == e.1 && event_id == e.2 && attempts == e.3 && dead_letter == e.4
}

/// The topic after reclaiming every lapsed lease.
pub open spec fn reclaim_all(m: TopicModel, now: u64) -> TopicModel {
    TopicModel { subs: m.subs.map_values(|r: (Seq<char>, SubModel)| (r.0, reclaim_sub(r.1, now))), ..m }
}

/// In-memory topic.
pub struct InMemoryEventTopic {
    lease_timeout_ms: u64,
    retention: TopicRetentionOpts,
    next_event_id: u64,
    next_lease_id: u64,
    compact_head: u64,
    events: Vec<(u64, StoredEvent)>,
    subs: Vec<(String, SubState)>,
}

impl InMemoryEventTopic {
    /// The topic as a mathematical value.
    pub closed spec fn model(&self) -> TopicModel {
        TopicModel {
            next_event_id: self.next_event_id,
            next_lease_id: self.next_lease_id,
            compact_head: self.compact_head,
            events: events_model(self.events@),
            subs: subs_model(self.subs@),
        }
    }

    /// Lease duration in milliseconds.
    pub closed spec fn lease_timeout(&self) -> u64 {
        self.lease_timeout_ms
    }

    /// Retention limits.
    pub closed spec fn retention_opts(&self) -> TopicRetentionOpts {
        self.retention
    }

    /// Events ascend by id; subscription names are unique.
    pub open spec fn wf(&self) -> bool {
        ids_ascending(self.model().events) && names_distinct(self.model().subs)
    }

    /// Empty topic; retention limits are off until [`Self::retention`] sets them.
    pub fn new(lease_timeout_ms: u64) -> (t: Self)
        ensures
            t.wf(),
            t.lease_timeout() == lease_timeout_ms,
            t.retention_opts() == (TopicRetentionOpts { max_event_age_ms: u64::MAX, max_retained_events: u64::MAX }),
            t.model().next_event_id == 1,
            t.model().next_lease_id == 1,
            t.model().compact_head == 0,
            t.model().events.len() == 0,
            t.model().subs.len() == 0,
    {
        InMemoryEventTopic {
            lease_timeout_ms,
            retention: TopicRetentionOpts { max_event_age_ms: u64::MAX, max_retained_events: u64::MAX },
            next_event_id: 1,
            next_lease_id: 1,
            compact_head: 0,
            events: Vec::new(),
            subs: Vec::new(),
        }
    }

    /// Override retention thresholds.
    pub fn retention(self, retention: TopicRetentionOpts) -> (t: Self)
        ensures
            t.retention_opts() == retention,
            t.model() == self.model(),
            t.lease_timeout() == self.lease_timeout(),
    {
        let mut t = self;
        t.retention = retention;
        t
    }

    fn find_sub(&self, name: &String) -> (r: Option<usize>)
        requires
            self.wf(),
        ensures
            r matches Some(i) ==> i < self.subs@.len() && self.model().subs[i as int].0 == name@ && i as int == sub_index(
                self.model().subs,
                name@,
            ),
            r is None ==> !has_key(self.model().subs, name@),
    {
        let ghost m = self.model().subs;
        let mut i: usize = 0;
        while i < self.subs.len()
            invariant
                m == self.model().subs,
                names_distinct(m),
                0 <= i <= self.subs@.len(),
                forall|j: int| 0 <= j < i ==> m[j].0 != name@,
            decreases self.subs@.len() - i,
        {
            if self.subs[i].0 == *name {
                proof {
                    assert(m[i as int].0 == name@);
                    let c = sub_index(m, name@);
                    assert(0 <= c < m.len() && m[c].0 == name@);
                    if c != i {
                        assert(m[c].0 != m[i as int].0);
                    }
                }
                return Some(i);
            }
            i = i + 1;
        }
        None
    }

    /// Apply a subscription-level operation to the subscription at `i`.
    fn apply_to_sub(&mut self, i: usize, op: &TopicReplicateOp)
        requires
            old(self).wf(),
            i < old(self).subs@.len(),
            op_subscription(*op) is Some,
        ensures
            final(self).wf(),
            final(self).model() == (TopicModel {
                subs: old(self).model().subs.update(i as int, (old(self).model().subs[i as int].0, sub_step(old(self).model().subs[i as int].1, *op))),
                ..old(self).model()
            }),
            final(self).lease_timeout() == old(self).lease_timeout(),
            final(self).retention_opts() == old(self).retention_opts(),
    {
        let ghost m = self.model();
        let (name, mut sub) = self.subs.remove(i);
        let ghost before = sub.model();
        match op {
            TopicReplicateOp::Lease { lease_id, event_id, worker_node, worker_instance, expires_at_ms, attempts, .. } => {
                let lid = *lease_id;
                let found = find_copy(
                    &sub.leases,
                    |l: TopicLease| -> (r: bool) ensures r == (l.lease_id == lid) { l.lease_id == lid },
                    Ghost(|l: TopicLease| l.lease_id == lid),
                );
                if found.is_none() {
                    let eid = *event_id;
                    retain_copy(&mut sub.pending, |x: u64| -> (r: bool) ensures r == (x != eid) { x != eid }, Ghost(not_event(eid)));
                    sub.leases.push(
                        TopicLease {
                            lease_id: lid,
                            event_id: eid,
                            worker: WorkerId { node: NodeId(*worker_node), instance: *worker_instance },
                            attempts: *attempts,
                            expires_at_ms: *expires_at_ms,
                        },
                    );
                }
            },
            TopicReplicateOp::Ack { lease_id, event_id, cursor, .. } => {
                sub.drop_lease(*lease_id);
                let eid = *event_id;
                retain_copy(
                    &mut sub.dead_letter,
                    |e: (u64, u32)| -> (r: bool) ensures r == (e.0 != eid) { e.0 != eid },
                    Ghost(not_dead(eid)),
                );
                let c1 = if sub.cursor >= *cursor { sub.cursor } else { *cursor };
                sub.cursor = if c1 >= eid { c1 } else { eid };
            },
            TopicReplicateOp::Nack { lease_id, event_id, attempts, dead_letter, .. } => {
                let lid = *lease_id;
                let found = find_copy(
                    &sub.leases,
                    |l: TopicLease| -> (r: bool) ensures r == (l.lease_id == lid) { l.lease_id == lid },
                    Ghost(|l: TopicLease| l.lease_id == lid),
                );
                if found.is_some() {
                    sub.drop_lease(lid);
                    sub.settle_failed(*event_id, *attempts, *dead_letter);
                }
            },
            TopicReplicateOp::Reclaim { lease_id, event_id, attempts, dead_letter, .. } => {
                let lid = *lease_id;
                let found = find_copy(
                    &sub.leases,
                    |l: TopicLease| -> (r: bool) ensures r == (l.lease_id == lid) { l.lease_id == lid },
                    Ghost(|l: TopicLease| l.lease_id == lid),
                );
                if found.is_some() {
                    sub.drop_lease(lid);
                    sub.settle_failed(*event_id, *attempts, *dead_letter);
                }
            },
            TopicReplicateOp::RetentionDiscard { cursor, discarded, .. } => {
                let c = *cursor;
                retain_copy(&mut sub.pending, |x: u64| -> (r: bool) ensures r == (x > c) { x > c }, Ghost(above(c)));
                retain_copy(
                    &mut sub.leases,
                    |l: TopicLease| -> (r: bool) ensures r == (l.event_id > c) { l.event_id > c },
                    Ghost(lease_event_above(c)),
                );
                retain_copy(
                    &mut sub.dead_letter,
                    |e: (u64, u32)| -> (r: bool) ensures r == (e.0 > c) { e.0 > c },
                    Ghost(dead_above(c)),
                );
                if sub.cursor < c {
                    sub.cursor = c;
                    sub.retention_discards = saturating_add_u64(sub.retention_discards, *discarded);
                }
            },
            _ => {},
        }
        proof {
            assert(sub.model() == sub_step(before, *op)) by {
                match *op {
                    TopicReplicateOp::Lease { lease_id, .. } => {
                        if lease_exists(before, lease_id) {
                            let k = choose|k: int| 0 <= k < before.leases.len() && before.leases[k].lease_id == lease_id;
                        }
                    },
                    TopicReplicateOp::Nack { lease_id, .. } => {
                        if lease_exists(before, lease_id) {
                            let k = choose|k: int| 0 <= k < before.leases.len() && before.leases[k].lease_id == lease_id;
                        }
                    },
                    TopicReplicateOp::Reclaim { lease_id, .. } => {
                        if lease_exists(before, lease_id) {
                            let k = choose|k: int| 0 <= k < before.leases.len() && before.leases[k].lease_id == lease_id;
                        }
                    },
                    _ => {},
                }
            }
        }
        self.subs.insert(i, (name, sub));
        proof {
            let t = subs_model(self.subs@);
            assert(t =~= m.subs.update(i as int, (m.subs[i as int].0, sub_step(m.subs[i as int].1, *op))));
            assert forall|a: int, b: int| 0 <= a < t.len() && 0 <= b < t.len() && a != b implies t[a].0 != t[b].0 by {
                assert(t[a].0 == m.subs[a].0 && t[b].0 == m.subs[b].0);
            }
        }
    }

    /// Store event `id` at its place in id order unless it is already stored.
    fn store_event(&mut self, id: u64, payload: Vec<u8>, published_at_ms: u64) -> (added: bool)
        requires
            old(self).wf(),
        ensures
            final(self).wf(),
            added == !has_event(old(self).model().events, id),
            final(self).model() == (TopicModel {
                events: if added {
                    insert_event(old(self).model().events, id, EventModel { payload: payload@, published_at_ms })
                } else {
                    old(self).model().events
                },
                ..old(self).model()
            }),
            final(self).lease_timeout() == old(self).lease_timeout(),
            final(self).retention_opts() == old(self).retention_opts(),
    {
        let ghost m = self.model();
        let ghost e = m.events;
        let mut p: usize = 0;
        while p < self.events.len() && self.events[p].0 < id
            invariant
                e == self.model().events,
                ids_ascending(e),
                0 <= p <= self.events@.len(),
                forall|j: int| 0 <= j < p ==> e[j].0 < id,
            decreases self.events@.len() - p,
        {
            p = p + 1;
        }
        proof {
            assert forall|j: int| p <= j < e.len() implies e[j].0 >= id by {
                if j > p {
                    assert(e[p as int].0 < e[j].0);
                }
            }
        }
        if p < self.events.len() && self.events[p].0 == id {
            proof {
                assert(e[p as int].0 == id);
            }
            return false;
        }
        proof {
            if p < e.len() {
                assert(e[p as int].0 == self.events@[p as int].0);
                assert(e[p as int].0 != id);
            }
            assert forall|j: int| p <= j < e.len() implies e[j].0 > id by {
                if j == p {
                    assert(e[j].0 != id);
                }
            }
            assert(!has_event(e, id)) by {
                if has_event(e, id) {
                    let k = choose|k: int| 0 <= k < e.len() && e[k].0 == id;
                }
            }
            assert(is_event_pos(e, id, p as int));
            let c = choose|q: int| is_event_pos(e, id, q);
            assert(is_event_pos(e, id, c));
            if c < p {
                assert(e[c].0 > id);
            }
            if c > p {
                assert(e[p as int].0 < id);
            }
        }
        let ghost x = EventModel { payload: payload@, published_at_ms };
        self.events.insert(p, (id, StoredEvent { payload, published_at_ms }));
        proof {
            let t = events_model(self.events@);
            assert(t =~= e.insert(p as int, (id, x)));
            assert forall|a: int, b: int| 0 <= a < b < t.len() implies (#[trigger] t[a]).0 < (#[trigger] t[b]).0 by {
                if b < p {
                    assert(t[a] == e[a] && t[b] == e[b]);
                } else if b == p {
                    assert(t[a] == e[a]);
                } else if a == p {
                    assert(t[b] == e[b - 1]);
                } else if a < p {
                    assert(t[a] == e[a] && t[b] == e[b - 1]);
                } else {
                    assert(t[a] == e[a - 1] && t[b] == e[b - 1]);
                }
            }
        }
        true
    }

    /// Append `id` to the pending queue of every subscription it is new to.
    fn fan_out_event(&mut self, id: u64)
        requires
            old(self).wf(),
        ensures
            final(self).wf(),
            final(self).model() == (TopicModel { subs: fan_out(old(self).model().subs, id), ..old(self).model() }),
            final(self).lease_timeout() == old(self).lease_timeout(),
            final(self).retention_opts() == old(self).retention_opts(),
    {
        let ghost m = self.model();
        let ghost target = fan_out(m.subs, id);
        let n = self.subs.len();
        let mut i: usize = 0;
        while i < n
            invariant
                n == self.subs@.len(),
                n == m.subs.len(),
                0 <= i <= n,
                target == fan_out(m.subs, id),
                self.model().events == m.events,
                self.model().next_event_id == m.next_event_id,
                self.model().next_lease_id == m.next_lease_id,
                self.model().compact_head == m.compact_head,
                self.lease_timeout() == old(self).lease_timeout(),
                self.retention_opts() == old(self).retention_opts(),
                forall|j: int| 0 <= j < i ==> #[trigger] self.model().subs[j] == target[j],
                forall|j: int| i <= j < n ==> #[trigger] self.model().subs[j] == m.subs[j],
            decreases n - i,
        {
            let ghost cur = self.model().subs;
            let (name, mut sub) = self.subs.remove(i);
            proof {
                assert((name@, sub.model()) == cur[i as int]);
                assert(cur[i as int] == m.subs[i as int]);
            }
            if id > sub.cursor {
                sub.pending.push(id);
            }
            proof {
                assert((name@, sub.model()) == target[i as int]);
            }
            self.subs.insert(i, (name, sub));
            proof {
                let t = self.model().subs;
                assert(t =~= cur.update(i as int, target[i as int]));
            }
            i = i + 1;
        }
        proof {
            assert(self.model().subs =~= target);
            let t = self.model().subs;
            assert forall|a: int, b: int| 0 <= a < t.len() && 0 <= b < t.len() && a != b implies t[a].0 != t[b].0 by {
                assert(t[a].0 == m.subs[a].0 && t[b].0 == m.subs[b].0);
            }
        }
    }

    /// Ids of the stored events above 0, ascending.
    fn event_ids_above_zero(&self) -> (v: Vec<u64>)
        ensures
            v@ == event_ids(self.model().events).filter(above(0)),
    {
        let ghost ids = event_ids(self.model().events);
        let mut v: Vec<u64> = Vec::new();
        let mut i: usize = 0;
        while i < self.events.len()
            invariant
                ids == event_ids(self.model().events),
                0 <= i <= self.events@.len(),
                v@ == ids.subrange(0, i as int).filter(above(0)),
            decreases self.events@.len() - i,
        {
            let id = self.events[i].0;
            proof {
                assert(ids[i as int] == id);
                assert(ids.subrange(0, i + 1) =~= ids.subrange(0, i as int).push(id));
                ids.subrange(0, i as int).lemma_filter_push(id, above(0));
            }
            if id > 0 {
                v.push(id);
            }
            i = i + 1;
        }
        proof {
            assert(ids.subrange(0, self.events@.len() as int) =~= ids);
        }
        v
    }

    /// Add a subscription unless one with that name exists.
    fn register(&mut self, name: &String, cursor: u64, max_attempts: u32)
        requires
            old(self).wf(),
        ensures
            final(self).wf(),
            final(self).model() == (if has_key(old(self).model().subs, name@) {
                old(self).model()
            } else {
                TopicModel {
                    subs: old(self).model().subs.push((name@, fresh_sub(old(self).model().events, cursor, max_attempts))),
                    ..old(self).model()
                }
            }),
            final(self).lease_timeout() == old(self).lease_timeout(),
            final(self).retention_opts() == old(self).retention_opts(),
    {
        if self.find_sub(name).is_some() {
            return;
        }
        let ghost m = self.model();
        let pending = if cursor == 0 { self.event_ids_above_zero() } else { Vec::new() };
        let sub = SubState {
            cursor,
            max_attempts,
            retention_discards: 0,
            pending,
            leases: Vec::new(),
            dead_letter: Vec::new(),
        };
        proof {
            assert(sub.model() == fresh_sub(m.events, cursor, max_attempts)) by {
                assert(sub.model().leases =~= Seq::<TopicLease>::empty());
                assert(sub.model().dead_letter =~= Seq::<(u64, u32)>::empty());
                if cursor != 0 {
                    assert(sub.model().pending =~= Seq::<u64>::empty());
                }
            }
        }
        self.subs.push((name.clone(), sub));
        proof {
            let t = self.model().subs;
            assert(t =~= m.subs.push((name@, fresh_sub(m.events, cursor, max_attempts))));
            assert forall|a: int, b: int| 0 <= a < t.len() && 0 <= b < t.len() && a != b implies t[a].0 != t[b].0 by {
                if a < m.subs.len() && b < m.subs.len() {
                    assert(t[a] == m.subs[a] && t[b] == m.subs[b]);
                } else if a < m.subs.len() {
                    assert(t[a] == m.subs[a]);
                    assert(m.subs[a].0 != name@);
                } else {
                    assert(t[b] == m.subs[b]);
                    assert(m.subs[b].0 != name@);
                }
            }
        }
    }

    /// Drop the subscription named `name` (if any).
    fn remove_sub(&mut self, name: &String)
        requires
            old(self).wf(),
        ensures
            final(self).wf(),
            final(self).model() == (TopicModel { subs: old(self).model().subs.filter(not_named(name@)), ..old(self).model() }),
            final(self).lease_timeout() == old(self).lease_timeout(),
            final(self).retention_opts() == old(self).retention_opts(),
    {
        let ghost m = self.model();
        let ghost f = not_named(name@);
        let mut rest: Vec<(String, SubState)> = Vec::new();
        std::mem::swap(&mut rest, &mut self.subs);
        let ghost orig = subs_model(rest@);
        let n = rest.len();
        let mut k: usize = 0;
        while k < n
            invariant
                n == orig.len(),
                0 <= k <= n,
                orig == m.subs,
                names_distinct(orig),
                f == not_named(name@),
                subs_model(rest@) == orig.skip(k as int),
                rest@.len() == n - k,
                subs_model(self.subs@) == orig.subrange(0, k as int).filter(f),
                forall|a: int| 0 <= a < self.subs@.len() ==> exists|b: int| 0 <= b < k && #[trigger] subs_model(self.subs@)[a] == orig[b],
                names_distinct(subs_model(self.subs@)),
                self.next_event_id == m.next_event_id,
                self.next_lease_id == m.next_lease_id,
                self.compact_head == m.compact_head,
                events_model(self.events@) == m.events,
                self.lease_timeout() == old(self).lease_timeout(),
                self.retention_opts() == old(self).retention_opts(),
            decreases n - k,
        {
            let ghost before = subs_model(self.subs@);
            let ghost old_rest = rest@;
            proof {
                assert(subs_model(old_rest)[0] == orig.skip(k as int)[0]);
            }
            let r = rest.remove(0);
            proof {
                assert(orig.subrange(0, k + 1) =~= orig.subrange(0, k as int).push(orig[k as int]));
                orig.subrange(0, k as int).lemma_filter_push(orig[k as int], f);
                assert(rest@ =~= old_rest.remove(0));
                assert forall|j: int| 0 <= j < rest@.len() implies #[trigger] subs_model(rest@)[j] == orig.skip(k + 1)[j] by {
                    assert(rest@[j] == old_rest[j + 1]);
                    assert(subs_model(old_rest)[j + 1] == orig.skip(k as int)[j + 1]);
                }
                assert(subs_model(rest@) =~= orig.skip(k + 1));
                assert(r == old_rest[0]);
                assert((r.0@, r.1.model()) == orig[k as int]);
            }
            if r.0 != *name {
                self.subs.push(r);
                proof {
                    let t = subs_model(self.subs@);
                    assert(t =~= before.push(orig[k as int]));
                    assert forall|a: int| 0 <= a < t.len() implies exists|b: int| 0 <= b < k + 1 && #[trigger] t[a] == orig[b] by {
                        if a < before.len() {
                            assert(t[a] == before[a]);
                        } else {
                            assert(t[a] == orig[k as int]);
                        }
                    }
                    assert forall|a: int, c: int| 0 <= a < t.len() && 0 <= c < t.len() && a != c implies t[a].0 != t[c].0 by {
                        if a < before.len() && c < before.len() {
                            assert(t[a] == before[a] && t[c] == before[c]);
                        } else if a < before.len() {
                            let b = choose|b: int| 0 <= b < k && before[a] == orig[b];
                            assert(t[a] == orig[b]);
                            assert(orig[b].0 != orig[k as int].0);
                        } else {
                            let b = choose|b: int| 0 <= b < k && before[c] == orig[b];
                            assert(t[c] == orig[b]);
                            assert(orig[b].0 != orig[k as int].0);
                        }
                    }
                }
            } else {
                proof {
                    let t = subs_model(self.subs@);
                    assert forall|a: int| 0 <= a < t.len() implies exists|b: int| 0 <= b < k + 1 && #[trigger] t[a] == orig[b] by {
                        let b = choose|b: int| 0 <= b < k && t[a] == orig[b];
                    }
                }
            }
            k = k + 1;
        }
        proof {
            assert(orig.subrange(0, n as int) =~= orig);
        }
    }

    /// Remove every event at or below `h`, from the log and from every
    /// subscription's pending queue and dead letter.
    fn compact_to(&mut self, h: u64)
        requires
            old(self).wf(),
        ensures
            final(self).wf(),
            final(self).model() == (TopicModel {
                compact_head: h,
                events: old(self).model().events.filter(event_above(h)),
                subs: compact_subs(old(self).model().subs, h),
                ..old(self).model()
            }),
            final(self).lease_timeout() == old(self).lease_timeout(),
            final(self).retention_opts() == old(self).retention_opts(),
    {
        let ghost m = self.model();
        let ghost f = event_above(h);
        let mut rest: Vec<(u64, StoredEvent)> = Vec::new();
        std::mem::swap(&mut rest, &mut self.events);
        let ghost orig = events_model(rest@);
        let n = rest.len();
        let mut k: usize = 0;
        while k < n
            invariant
                n == orig.len(),
                0 <= k <= n,
                orig == m.events,
                ids_ascending(orig),
                f == event_above(h),
                events_model(rest@) == orig.skip(k as int),
                rest@.len() == n - k,
                events_model(self.events@) == orig.subrange(0, k as int).filter(f),
                forall|a: int| 0 <= a < self.events@.len() ==> exists|b: int| 0 <= b < k && #[trigger] events_model(self.events@)[a] == orig[b],
                ids_ascending(events_model(self.events@)),
                forall|a: int| 0 <= a < self.events@.len() ==> (#[trigger] events_model(self.events@)[a]).0 < (if k < n { orig[k as int].0 as int } else { u64::MAX as int + 1 }),
                self.subs@ == old(self).subs@,
                self.next_event_id == m.next_event_id,
                self.next_lease_id == m.next_lease_id,
                self.compact_head == m.compact_head,
                self.lease_timeout() == old(self).lease_timeout(),
                self.retention_opts() == old(self).retention_opts(),
            decreases n - k,
        {
            let ghost before = events_model(self.events@);
            let ghost old_rest = rest@;
            proof {
                assert(events_model(old_rest)[0] == orig.skip(k as int)[0]);
            }
            let r = rest.remove(0);
            proof {
                assert(orig.subrange(0, k + 1) =~= orig.subrange(0, k as int).push(orig[k as int]));
                orig.subrange(0, k as int).lemma_filter_push(orig[k as int], f);
                assert(rest@ =~= old_rest.remove(0));
                assert forall|j: int| 0 <= j < rest@.len() implies #[trigger] events_model(rest@)[j] == orig.skip(k + 1)[j] by {
                    assert(rest@[j] == old_rest[j + 1]);
                    assert(events_model(old_rest)[j + 1] == orig.skip(k as int)[j + 1]);
                }
                assert(events_model(rest@) =~= orig.skip(k + 1));
                assert(r == old_rest[0]);
            }
            if r.0 > h {
                self.events.push(r);
                proof {
                    let t = events_model(self.events@);
                    assert(t =~= before.push(orig[k as int]));
                    assert forall|a: int| 0 <= a < t.len() implies exists|b: int| 0 <= b < k + 1 && #[trigger] t[a] == orig[b] by {
                        if a < before.len() {
                            assert(t[a] == before[a]);
                        } else {
                            assert(t[a] == orig[k as int]);
                        }
                    }
                }
            } else {
                proof {
                    let t = events_model(self.events@);
                    assert forall|a: int| 0 <= a < t.len() implies exists|b: int| 0 <= b < k + 1 && #[trigger] t[a] == orig[b] by {
                        let b = choose|b: int| 0 <= b < k && t[a] == orig[b];
                    }
                }
            }
            proof {
                let t = events_model(self.events@);
                assert forall|a: int| 0 <= a < t.len() implies (#[trigger] t[a]).0 < (if k + 1 < n { orig[k + 1].0 as int } else { u64::MAX as int + 1 }) by {
                    let b = choose|b: int| 0 <= b < k + 1 && t[a] == orig[b];
                    if k + 1 < n {
                        assert(orig[b].0 < orig[k + 1].0);
                    }
                }
            }
            k = k + 1;
        }
        proof {
            assert(orig.subrange(0, n as int) =~= orig);
        }
        let ghost m2 = self.model();
        let ns = self.subs.len();
        let mut i: usize = 0;
        while i < ns
            invariant
                ns == self.subs@.len(),
                ns == m.subs.len(),
                0 <= i <= ns,
                names_distinct(m.subs),
                self.model().events == m2.events,
                ids_ascending(m2.events),
                self.next_event_id == m.next_event_id,
                self.next_lease_id == m.next_lease_id,
                self.compact_head == m.compact_head,
                self.lease_timeout() == old(self).lease_timeout(),
                self.retention_opts() == old(self).retention_opts(),
                forall|j: int| 0 <= j < i ==> #[trigger] self.model().subs[j] == (m.subs[j].0, sub_compact(m.subs[j].1, h)),
                forall|j: int| i <= j < ns ==> #[trigger] self.model().subs[j] == m.subs[j],
            decreases ns - i,
        {
            let ghost cur = self.model().subs;
            let (name, mut sub) = self.subs.remove(i);
            proof {
                assert((name@, sub.model()) == cur[i as int]);
            }
            sub.compact_above(h);
            self.subs.insert(i, (name, sub));
            proof {
                assert(self.model().subs =~= cur.update(i as int, (m.subs[i as int].0, sub_compact(m.subs[i as int].1, h))));
            }
            i = i + 1;
        }
        proof {
            let t0 = self.model().subs;
            assert forall|j: int| 0 <= j < t0.len() implies #[trigger] t0[j] == compact_subs(m.subs, h)[j] by {
                assert(t0[j] == (m.subs[j].0, sub_compact(m.subs[j].1, h)));
            }
            assert(t0 =~= compact_subs(m.subs, h));
        }
        self.compact_head = h;
        proof {
            let t = self.model().subs;
            assert(t =~= compact_subs(m.subs, h));
            assert forall|a: int, b: int| 0 <= a < t.len() && 0 <= b < t.len() && a != b implies t[a].0 != t[b].0 by {
                assert(t[a].0 == m.subs[a].0 && t[b].0 == m.subs[b].0);
            }
        }
    }

    /// Apply one replicated operation (followers and idempotent replay).
    pub fn apply_op(&mut self, op: &TopicReplicateOp) -> (r: Result<(), TopicError>)
        requires
            old(self).wf(),
        ensures
            final(self).wf(),
            match apply_op_spec(old(self).model(), *op) {
                Ok(m) => r is Ok && final(self).model() == m,
                Err(e) => r == Err::<(), TopicError>(e) && final(self).model() == old(self).model(),
            },
            final(self).lease_timeout() == old(self).lease_timeout(),
            final(self).retention_opts() == old(self).retention_opts(),
    {
        match op {
            TopicReplicateOp::Publish { event_id, payload, published_at_ms, next_event_id } => {
                let added = self.store_event(*event_id, bytes_to_vec(payload.as_slice()), *published_at_ms);
                if added {
                    self.fan_out_event(*event_id);
                }
                self.next_event_id = *next_event_id;
                Ok(())
            },
            TopicReplicateOp::RegisterSubscription { name, cursor, max_attempts } => {
                self.register(name, *cursor, *max_attempts);
                Ok(())
            },
            TopicReplicateOp::RemoveSubscription { name } => {
                self.remove_sub(name);
                Ok(())
            },
            TopicReplicateOp::CompactHead { compact_head } => {
                self.compact_to(*compact_head);
                Ok(())
            },
            TopicReplicateOp::Lease { subscription, next_lease_id, .. } => {
                match self.find_sub(subscription) {
                    Some(i) => {
                        self.apply_to_sub(i, op);
                        self.next_lease_id = *next_lease_id;
                        Ok(())
                    },
                    None => Err(TopicError::SubscriptionNotFound(subscription.clone())),
                }
            },
            TopicReplicateOp::Ack { subscription, .. } | TopicReplicateOp::Nack { subscription, .. }
            | TopicReplicateOp::Reclaim { subscription, .. }
            | TopicReplicateOp::RetentionDiscard { subscription, .. } => {
                match self.find_sub(subscription) {
                    Some(i) => {
                        self.apply_to_sub(i, op);
                        Ok(())
                    },
                    None => Err(TopicError::SubscriptionNotFound(subscription.clone())),
                }
            },
        }
    }

    /// Smallest subscription cursor (0 without subscriptions).
    fn min_cursor_exec(&self) -> (c: u64)
        ensures
            c == min_cursor(self.model().subs),
    {
        let ghost m = self.model().subs;
        if self.subs.len() == 0 {
            return 0;
        }
        let mut c: u64 = u64::MAX;
        let mut i: usize = 0;
        while i < self.subs.len()
            invariant
                m == self.model().subs,
                0 <= i <= self.subs@.len(),
                c == min_cur(m.subrange(0, i as int)),
            decreases self.subs@.len() - i,
        {
            proof {
                assert(m.subrange(0, i + 1).drop_last() =~= m.subrange(0, i as int));
                assert(m.subrange(0, i + 1).last() == m[i as int]);
                assert(m[i as int].1.cursor == self.subs@[i as int].1.cursor);
            }
            if self.subs[i].1.cursor < c {
                c = self.subs[i].1.cursor;
            }
            i = i + 1;
        }
        proof {
            assert(m.subrange(0, m.len() as int) =~= m);
        }
        c
    }

    /// Compact when every subscription has moved past the compact head.
    pub fn compact_locked(&mut self) -> (r: Option<TopicReplicateOp>)
        requires
            old(self).wf(),
        ensures
            final(self).wf(),
            (final(self).model(), r) == compact_spec(old(self).model()),
            final(self).lease_timeout() == old(self).lease_timeout(),
            final(self).retention_opts() == old(self).retention_opts(),
    {
        let floor = self.min_cursor_exec();
        if floor <= self.compact_head {
            return None;
        }
        self.compact_to(floor);
        Some(TopicReplicateOp::CompactHead { compact_head: floor })
    }

    /// Apply a list of operations in order, stopping at the first refusal.
    fn apply_all(&mut self, ops: &Vec<TopicReplicateOp>) -> (r: Result<(), TopicError>)
        requires
            old(self).wf(),
        ensures
            final(self).wf(),
            match apply_ops_spec(old(self).model(), ops@) {
                Ok(m) => r is Ok && final(self).model() == m,
                Err(e) => r == Err::<(), TopicError>(e),
            },
            final(self).lease_timeout() == old(self).lease_timeout(),
            final(self).retention_opts() == old(self).retention_opts(),
    {
        let ghost m0 = self.model();
        let mut i: usize = 0;
        while i < ops.len()
            invariant
                self.wf(),
                m0 == old(self).model(),
                0 <= i <= ops@.len(),
                apply_ops_spec(m0, ops@.subrange(0, i as int)) == Ok::<TopicModel, TopicError>(self.model()),
                self.lease_timeout() == old(self).lease_timeout(),
                self.retention_opts() == old(self).retention_opts(),
            decreases ops@.len() - i,
        {
            proof {
                assert(ops@.subrange(0, i + 1).drop_last() =~= ops@.subrange(0, i as int));
                assert(ops@.subrange(0, i + 1).last() == ops@[i as int]);
            }
            let ghost before = self.model();
            let res = self.apply_op(&ops[i]);
            match res {
                Ok(()) => {},
                Err(e) => {
                    proof {
                        assert(apply_op_spec(before, ops@[i as int]) == Err::<TopicModel, TopicError>(e));
                        assert(apply_ops_spec(m0, ops@.subrange(0, i + 1)) == Err::<TopicModel, TopicError>(e));
                        lemma_apply_ops_err_sticks(m0, ops@, i as int + 1, e);
                    }
                    return Err(e);
                },
            }
            i = i + 1;
        }
        proof {
            assert(ops@.subrange(0, ops@.len() as int) =~= ops@);
        }
        Ok(())
    }

    /// Apply one replicated operation; after an ack, a retention discard or a
    /// subscription removal, compact what every subscription has passed.
    pub fn apply_replicate(&mut self, op: &TopicReplicateOp) -> (r: Result<(), TopicError>)
        requires
            old(self).wf(),
        ensures
            final(self).wf(),
            match apply_op_spec(old(self).model(), *op) {
                Ok(m) => r is Ok && final(self).model() == (if compacts_after(*op) { compact_spec(m).0 } else { m }),
                Err(e) => r == Err::<(), TopicError>(e) && final(self).model() == old(self).model(),
            },
            final(self).lease_timeout() == old(self).lease_timeout(),
            final(self).retention_opts() == old(self).retention_opts(),
    {
        match self.apply_op(op) {
            Ok(()) => {},
            Err(e) => {
                return Err(e);
            },
        }
        let compacts = match op {
            TopicReplicateOp::Ack { .. } => true,
            TopicReplicateOp::RetentionDiscard { .. } => true,
            TopicReplicateOp::RemoveSubscription { .. } => true,
            _ => false,
        };
        if compacts {
            let _ = self.compact_locked();
        }
        Ok(())
    }

    /// Log head: the last assigned event id (0 when none).
    pub fn head(&self) -> (h: u64)
        ensures
            h == head_spec(self.model()),
    {
        if self.next_event_id >= 1 {
            self.next_event_id - 1
        } else {
            0
        }
    }

    /// Register subscriptions declared at build time: earliest-start ones from
    /// the first retained event, latest-start ones from the current head.
    pub fn register_subscriptions(&mut self, defs: &[TopicSubscriptionDef]) -> (r: Result<Vec<TopicReplicateOp>, TopicError>)
        requires
            old(self).wf(),
        ensures
            final(self).wf(),
            r matches Ok(ops) && ops@ == defs@.map_values(|d: TopicSubscriptionDef| register_op(d, head_spec(old(self).model())))
                && apply_ops_spec(old(self).model(), ops@) == Ok::<TopicModel, TopicError>(final(self).model()),
            final(self).lease_timeout() == old(self).lease_timeout(),
            final(self).retention_opts() == old(self).retention_opts(),
    {
        let head = self.head();
        let ghost h = head;
        let mut ops: Vec<TopicReplicateOp> = Vec::new();
        let mut i: usize = 0;
        while i < defs.len()
            invariant
                0 <= i <= defs@.len(),
                h == head,
                ops@ == defs@.subrange(0, i as int).map_values(|d: TopicSubscriptionDef| register_op(d, h)),
            decreases defs@.len() - i,
        {
            let d = &defs[i];
            let cursor = match d.start {
                SubscriptionStart::Earliest => 0,
                SubscriptionStart::Latest => head,
            };
            ops.push(TopicReplicateOp::RegisterSubscription { name: d.name.clone(), cursor, max_attempts: d.max_attempts });
            i = i + 1;
            assert(ops@ =~= defs@.subrange(0, i as int).map_values(|d: TopicSubscriptionDef| register_op(d, h)));
        }
        proof {
            assert(defs@.subrange(0, defs@.len() as int) =~= defs@);
        }
        match self.apply_all(&ops) {
            Ok(()) => {},
            Err(e) => {
                proof {
                    lemma_registrations_succeed(old(self).model(), ops@);
                }
                return Err(e);
            },
        }
        proof {
            lemma_registrations_succeed(old(self).model(), ops@);
        }
        Ok(ops)
    }
    /// Return every lapsed lease (at `now`) to pending or the dead letter, and
    /// report each as a `Reclaim` operation.
    pub fn reclaim_expired_at(&mut self, now: u64) -> (ops: Vec<TopicReplicateOp>)
        requires
            old(self).wf(),
        ensures
            final(self).wf(),
            final(self).model() == reclaim_all(old(self).model(), now),
            ops@.len() == reclaim_list(old(self).model().subs, now).len(),
            forall|k: int| 0 <= k < ops@.len() ==> is_reclaim_op(#[trigger] ops@[k], reclaim_list(old(self).model().subs, now)[k]),
            final(self).lease_timeout() == old(self).lease_timeout(),
            final(self).retention_opts() == old(self).retention_opts(),
    {
        let ghost m = self.model();
        let mut ops: Vec<TopicReplicateOp> = Vec::new();
        let ns = self.subs.len();
        let mut i: usize = 0;
        while i < ns
            invariant
                ns == self.subs@.len(),
                ns == m.subs.len(),
                0 <= i <= ns,
                names_distinct(m.subs),
                self.model().events == m.events,
                ids_ascending(m.events),
                self.next_event_id == m.next_event_id,
                self.next_lease_id == m.next_lease_id,
                self.compact_head == m.compact_head,
                self.lease_timeout() == old(self).lease_timeout(),
                self.retention_opts() == old(self).retention_opts(),
                forall|j: int| 0 <= j < i ==> #[trigger] self.model().subs[j] == (m.subs[j].0, reclaim_sub(m.subs[j].1, now)),
                forall|j: int| i <= j < ns ==> #[trigger] self.model().subs[j] == m.subs[j],
                ops@.len() == reclaim_list(m.subs.subrange(0, i as int), now).len(),
                forall|k: int| 0 <= k < ops@.len() ==> is_reclaim_op(#[trigger] ops@[k], reclaim_list(m.subs.subrange(0, i as int), now)[k]),
            decreases ns - i,
        {
            let ghost cur = self.model().subs;
            let ghost ops0 = ops@;
            let (name, mut sub) = self.subs.remove(i);
            proof {
                assert((name@, sub.model()) == cur[i as int]);
            }
            let ghost s0 = sub.model();
            let expired = filter_copy(
                &sub.leases,
                |l: TopicLease| -> (r: bool) ensures r == (l.expires_at_ms <= now) { l.expires_at_ms <= now },
                Ghost(expired_at(now)),
            );
            retain_copy(
                &mut sub.leases,
                |l: TopicLease| -> (r: bool) ensures r == (l.expires_at_ms > now) { l.expires_at_ms > now },
                Ghost(live_at(now)),
            );
            let ghost base = SubModel { leases: s0.leases.filter(live_at(now)), ..s0 };
            let ghost entries = expired@.map_values(|l: TopicLease| reclaim_entry(name@, s0.max_attempts, now, l));
            let mut k: usize = 0;
            while k < expired.len()
                invariant
                    0 <= k <= expired@.len(),
                    expired@ == s0.leases.filter(expired_at(now)),
                    sub.model() == settle_expired(base, expired@.subrange(0, k as int), now),
                    sub.max_attempts == s0.max_attempts,
                    entries == expired@.map_values(|l: TopicLease| reclaim_entry(name@, s0.max_attempts, now, l)),
                    ops@.len() == ops0.len() + k,
                    forall|q: int| 0 <= q < ops0.len() ==> #[trigger] ops@[q] == ops0[q],
                    forall|q: int| 0 <= q < k ==> is_reclaim_op(#[trigger] ops@[ops0.len() + q], entries[q]),
                decreases expired@.len() - k,
            {
                let l = expired[k];
                let (attempts, dead) = failed_delivery_at(l.attempts, sub.max_attempts, now);
                proof {
                    assert(expired@.subrange(0, k + 1).drop_last() =~= expired@.subrange(0, k as int));
                    assert(expired@.subrange(0, k + 1).last() == l);
                    assert(settle_expired(base, expired@.subrange(0, k as int), now).max_attempts == s0.max_attempts) by {
                        lemma_settle_keeps_max(base, expired@.subrange(0, k as int), now);
                    }
                }
                sub.settle_failed(l.event_id, attempts, dead);
                ops.push(
                    TopicReplicateOp::Reclaim { subscription: name.clone(), lease_id: l.lease_id, event_id: l.event_id, attempts, dead_letter: dead },
                );
                proof {
                    assert(ops@[ops0.len() + k] == ops@.last());
                    assert(entries[k as int] == reclaim_entry(name@, s0.max_attempts, now, l));
                }
                k = k + 1;
            }
            proof {
                assert(expired@.subrange(0, expired@.len() as int) =~= expired@);
                assert(sub.model() == reclaim_sub(s0, now));
                let pre = m.subs.subrange(0, i as int);
                let pre1 = m.subs.subrange(0, i + 1);
                assert(pre1.drop_last() =~= pre);
                assert(pre1.last() == m.subs[i as int]);
                assert(m.subs[i as int] == (name@, s0));
                let lst = reclaim_list(pre1, now);
                assert(lst =~= reclaim_list(pre, now) + entries);
                assert forall|q: int| 0 <= q < ops@.len() implies is_reclaim_op(#[trigger] ops@[q], lst[q]) by {
                    if q < ops0.len() {
                        assert(ops@[q] == ops0[q]);
                    } else {
                        let z = q - ops0.len();
                        assert(ops@[ops0.len() + z] == ops@[q]);
                    }
                }
            }
            self.subs.insert(i, (name, sub));
            proof {
                assert(self.model().subs =~= cur.update(i as int, (m.subs[i as int].0, reclaim_sub(m.subs[i as int].1, now))));
            }
            i = i + 1;
        }
        proof {
            assert(m.subs.subrange(0, ns as int) =~= m.subs);
            let t0 = self.model().subs;
            let target = m.subs.map_values(|r: (Seq<char>, SubModel)| (r.0, reclaim_sub(r.1, now)));
            assert forall|j: int| 0 <= j < t0.len() implies #[trigger] t0[j] == target[j] by {
                assert(t0[j] == (m.subs[j].0, reclaim_sub(m.subs[j].1, now)));
            }
            assert(t0 =~= target);
            assert forall|a: int, b: int| 0 <= a < t0.len() && 0 <= b < t0.len() && a != b implies t0[a].0 != t0[b].0 by {
                assert(t0[a].0 == m.subs[a].0 && t0[b].0 == m.subs[b].0);
            }
        }
        ops
    }
}


pub proof fn lemma_apply_ops_err_sticks(m: TopicModel, ops: Seq<TopicReplicateOp>, k: int, e: TopicError)
    requires
        0 <= k <= ops.len(),
        apply_ops_spec(m, ops.subrange(0, k)) == Err::<TopicModel, TopicError>(e),
    ensures
        apply_ops_spec(m, ops) == Err::<TopicModel, TopicError>(e),
    decreases ops.len() - k,
{
    if k < ops.len() {
        assert(ops.subrange(0, k + 1).drop_last() =~= ops.subrange(0, k));
        lemma_apply_ops_err_sticks(m, ops, k + 1, e);
    } else {
        assert(ops.subrange(0, k) =~= ops);
    }
}

/// Registrations are never refused.
pub proof fn lemma_registrations_succeed(m: TopicModel, ops: Seq<TopicReplicateOp>)
    requires
        forall|i: int| 0 <= i < ops.len() ==> (#[trigger] ops[i]) is RegisterSubscription,
    ensures
        apply_ops_spec(m, ops) is Ok,
    decreases ops.len(),
{
    if ops.len() > 0 {
        lemma_registrations_succeed(m, ops.drop_last());
        assert(ops.last() is RegisterSubscription);
    }

}


pub proof fn lemma_settle_keeps_max(s: SubModel, exp: Seq<TopicLease>, now: u64)
    ensures
        settle_expired(s, exp, now).max_attempts == s.max_attempts,
        settle_expired(s, exp, now).cursor == s.cursor,
        settle_expired(s, exp, now).leases == s.leases,
    decreases exp.len(),
{
    if exp.len() > 0 {
        lemma_settle_keeps_max(s, exp.drop_last(), now);
    }
}


/// Subscription-level operations on existing subscriptions are never refused,
/// and keep the set of subscription names, the events and the event counter.
pub proof fn lemma_sub_ops_succeed(m: TopicModel, ops: Seq<TopicReplicateOp>)
    requires
        forall|k: int| 0 <= k < ops.len() ==> (#[trigger] ops[k]) is Reclaim || ops[k] is Nack || ops[k] is RetentionDiscard,
        forall|k: int| 0 <= k < ops.len() ==> has_key(m.subs, (#[trigger] op_subscription(ops[k])).unwrap()@),
    ensures
        apply_ops_spec(m, ops) matches Ok(m2) && {
            &&& m2.subs.len() == m.subs.len()
            &&& forall|j: int| 0 <= j < m.subs.len() ==> (#[trigger] m2.subs[j]).0 == m.subs[j].0
            &&& m2.events == m.events
            &&& m2.next_event_id == m.next_event_id
            &&& m2.next_lease_id == m.next_lease_id
            &&& m2.compact_head == m.compact_head
        },
    decreases ops.len(),
{
    if ops.len() > 0 {
        let pre = ops.drop_last();
        assert forall|k: int| 0 <= k < pre.len() implies (#[trigger] pre[k]) is Reclaim || pre[k] is Nack || pre[k] is RetentionDiscard by {
            assert(pre[k] == ops[k]);
        }
        assert forall|k: int| 0 <= k < pre.len() implies has_key(m.subs, (#[trigger] op_subscription(pre[k])).unwrap()@) by {
            assert(pre[k] == ops[k]);
        }
        lemma_sub_ops_succeed(m, pre);
        let m1 = apply_ops_spec(m, pre).unwrap();
        let op = ops.last();
        assert(op == ops[ops.len() - 1]);
        let name = op_subscription(op).unwrap()@;
        assert(has_key(m.subs, name));
        let j = choose|j: int| 0 <= j < m.subs.len() && m.subs[j].0 == name;
        assert(m1.subs[j].0 == name);
        assert(has_key(m1.subs, name));
    }
}


/// The first lease with id `lease_id`.
pub open spec fn lease_get(ls: Seq<TopicLease>, lease_id: u64) -> Option<TopicLease> {
    if exists|i: int| 0 <= i < ls.len() && ls[i].lease_id == lease_id {
        Some(ls[choose|i: int| 0 <= i < ls.len() && ls[i].lease_id == lease_id && forall|j: int| 0 <= j < i ==> ls[j].lease_id != lease_id])
    } else {
        None
    }
}

/// Lease `l`, handed back by a worker that does not own it, returns to its
/// owner with `attempts` and lapses at `now`.
pub open spec fn restore_lease(s: SubModel, l: TopicLease, attempts: u32, now: u64) -> SubModel {
    SubModel {
        leases: s.leases.filter(not_lease(l.lease_id)).push(
            TopicLease { lease_id: l.lease_id, event_id: l.event_id, worker: l.worker, attempts, expires_at_ms: now },
        ),
        ..s
    }
}

/// The topic with subscription `i` replaced by `s`.
pub open spec fn with_sub(m: TopicModel, i: int, s: SubModel) -> TopicModel {
    TopicModel { subs: m.subs.update(i, (m.subs[i].0, s)), ..m }
}

/// `e` reports the unknown subscription `name`.
pub open spec fn not_found(e: TopicError, name: Seq<char>) -> bool {
    e matches TopicError::SubscriptionNotFound(s) && s@ == name
}

/// Taking lease `lease_id` of subscription `i` out for `worker`: refused when
/// there is no such lease; refused, with the lease handed back to its owner
/// (lapsing at `now`, attempts reset when `reset_attempts`), when another worker
/// owns it; otherwise the lease is removed and returned.
pub open spec fn take_lease_outcome(
    m0: TopicModel,
    i: int,
    worker: WorkerId,
    lease_id: u64,
    reset_attempts: bool,
    now: u64,
    r: Result<TopicLease, TopicError>,
    m: TopicModel,
) -> bool {
    let s = m0.subs[i].1;
    match lease_get(s.leases, lease_id) {
        None => r == Err::<TopicLease, TopicError>(TopicError::InvalidLease) && m == m0,
        Some(l) => if l.worker != worker {
            r == Err::<TopicLease, TopicError>(TopicError::InvalidLease) && m == with_sub(
                m0,
                i,
                restore_lease(s, l, if reset_attempts { 0 } else { l.attempts }, now),
            )
        } else {
            r == Ok::<TopicLease, TopicError>(l) && m == with_sub(m0, i, SubModel { leases: s.leases.filter(not_lease(lease_id)), ..s })
        },
    }
}

/// `op` acknowledges lease `lease_id` of event `event_id` on `name`, moving the cursor to `cursor`.
pub open spec fn is_ack_op(op: TopicReplicateOp, name: Seq<char>, lease_id: u64, event_id: u64, cursor: u64) -> bool {
    match op {
        TopicReplicateOp::Ack { subscription, lease_id: li, event_id: e, cursor: c } => subscription@ == name && li == lease_id
            && e == event_id && c == cursor,
        _ => false,
    }
}

/// `op` returns lease `lease_id` of event `event_id` on `name` with the given outcome.
pub open spec fn is_nack_op(op: TopicReplicateOp, name: Seq<char>, lease_id: u64, event_id: u64, attempts: u32, dead: bool) -> bool {
    match op {
        TopicReplicateOp::Nack { subscription, lease_id: li, event_id: e, attempts: a, dead_letter } => subscription@ == name && li
            == lease_id && e == event_id && a == attempts && dead_letter == dead,
        _ => false,
    }
}

/// The operations of a successful ack: the `Ack` itself, which applied to `m1`
/// and compacted gives `m`, then the compaction it caused, if any.
pub open spec fn ack_reply(
    ops: Seq<TopicReplicateOp>,
    name: Seq<char>,
    lease_id: u64,
    event_id: u64,
    cursor: u64,
    m1: TopicModel,
    m: TopicModel,
) -> bool {
    &&& 1 <= ops.len() <= 2
    &&& is_ack_op(ops[0], name, lease_id, event_id, cursor)
    &&& match apply_op_spec(m1, ops[0]) {
        Ok(m2) => compact_spec(m2) == (m, if ops.len() == 2 { Some(ops[1]) } else { None::<TopicReplicateOp> }),
        Err(_) => false,
    }
}

/// Acknowledging lease `lease_id` of subscription `name` for `worker` at `now`:
/// the answer and the topic it leaves. On success the cursor moves up to the
/// event, the event leaves the dead letter, the `Ack` operation is applied once
/// more and the topic is compacted.
pub open spec fn ack_outcome(
    m0: TopicModel,
    name: Seq<char>,
    worker: WorkerId,
    lease_id: u64,
    now: u64,
    r: Result<Vec<TopicReplicateOp>, TopicError>,
    m: TopicModel,
) -> bool {
    if !has_key(m0.subs, name) {
        r matches Err(e) && not_found(e, name) && m == m0
    } else {
        let i = sub_index(m0.subs, name);
        let s = m0.subs[i].1;
        match lease_get(s.leases, lease_id) {
            None => r == Err::<Vec<TopicReplicateOp>, TopicError>(TopicError::InvalidLease) && m == m0,
            Some(l) => if l.worker != worker {
                r == Err::<Vec<TopicReplicateOp>, TopicError>(TopicError::InvalidLease) && m == with_sub(m0, i, restore_lease(s, l, 0, now))
            } else {
                let cursor = if s.cursor >= l.event_id { s.cursor } else { l.event_id };
                let m1 = with_sub(
                    m0,
                    i,
                    SubModel {
                        leases: s.leases.filter(not_lease(lease_id)),
                        dead_letter: s.dead_letter.filter(not_dead(l.event_id)),
                        cursor,
                        ..s
                    },
                );
                match r {
                    Ok(ops) => ack_reply(ops@, name, lease_id, l.event_id, cursor, m1, m),
                    Err(_) => false,
                }
            },
        }
    }
}

/// Returning lease `lease_id` of subscription `name` for `worker` at `now`: the
/// answer and the topic it leaves. On success one failed attempt is charged,
/// the event goes back to pending or to the dead letter, and the `Nack`
/// operation is applied once more.
pub open spec fn nack_outcome(
    m0: TopicModel,
    name: Seq<char>,
    worker: WorkerId,
    lease_id: u64,
    now: u64,
    r: Result<Vec<TopicReplicateOp>, TopicError>,
    m: TopicModel,
) -> bool {
    if !has_key(m0.subs, name) {
        r matches Err(e) && not_found(e, name) && m == m0
    } else {
        let i = sub_index(m0.subs, name);
        let s = m0.subs[i].1;
        match lease_get(s.leases, lease_id) {
            None => r == Err::<Vec<TopicReplicateOp>, TopicError>(TopicError::InvalidLease) && m == m0,
            Some(l) => if l.worker != worker {
                r == Err::<Vec<TopicReplicateOp>, TopicError>(TopicError::InvalidLease) && m == with_sub(
                    m0,
                    i,
                    restore_lease(s, l, l.attempts, now),
                )
            } else {
                let o = failed_attempt_spec(l.attempts, s.max_attempts, now);
                let m1 = with_sub(m0, i, settle_one(SubModel { leases: s.leases.filter(not_lease(lease_id)), ..s }, l.event_id, l.attempts, now));
                match r {
                    Ok(ops) => ops@.len() == 1 && is_nack_op(ops@[0], name, lease_id, l.event_id, o.attempts, o.dead_letter)
                        && apply_op_spec(m1, ops@[0]) == Ok::<TopicModel, TopicError>(m),
                    Err(_) => false,
                }
            },
        }
    }
}

impl InMemoryEventTopic {
    /// Take lease `lease_id` of subscription `i` out for `worker` (see [`take_lease_outcome`]).
    fn take_lease(&mut self, i: usize, worker: WorkerId, lease_id: u64, reset_attempts: bool, now: u64) -> (r: Result<TopicLease, TopicError>)
        requires
            old(self).wf(),
            i < old(self).subs@.len(),
        ensures
            final(self).wf(),
            take_lease_outcome(old(self).model(), i as int, worker, lease_id, reset_attempts, now, r, final(self).model()),
            final(self).subs@.len() == old(self).subs@.len(),
            final(self).lease_timeout() == old(self).lease_timeout(),
            final(self).retention_opts() == old(self).retention_opts(),
    {
        let ghost m = self.model();
        let (name, mut sub) = self.subs.remove(i);
        let ghost s0 = sub.model();
        proof {
            assert((name@, s0) == m.subs[i as int]);
        }
        let pos = find_copy(
            &sub.leases,
            |l: TopicLease| -> (r: bool) ensures r == (l.lease_id == lease_id) { l.lease_id == lease_id },
            Ghost(|l: TopicLease| l.lease_id == lease_id),
        );
        let r = match pos {
            None => {
                proof {
                    assert(lease_get(s0.leases, lease_id) is None);
                }
                Err(TopicError::InvalidLease)
            },
            Some(p) => {
                let l = sub.leases[p];
                proof {
                    let ls = s0.leases;
                    assert(ls[p as int].lease_id == lease_id);
                    let c = choose|k: int| 0 <= k < ls.len() && ls[k].lease_id == lease_id && forall|j: int| 0 <= j < k ==> ls[j].lease_id != lease_id;
                    if c < p {
                        assert(ls[c].lease_id == lease_id);
                    } else if c > p {
                        assert(ls[p as int].lease_id != lease_id);
                    }
                    assert(lease_get(ls, lease_id) == Some(l));
                }
                sub.drop_lease(lease_id);
                if same_worker(l.worker, worker) {
                    Ok(l)
                } else {
                    let attempts = if reset_attempts { 0 } else { l.attempts };
                    sub.leases.push(TopicLease { lease_id: l.lease_id, event_id: l.event_id, worker: l.worker, attempts, expires_at_ms: now });
                    Err(TopicError::InvalidLease)
                }
            },
        };
        let ghost s1 = sub.model();
        self.subs.insert(i, (name, sub));
        proof {
            assert(self.model().subs =~= m.subs.update(i as int, (m.subs[i as int].0, s1)));
            crate::keyed::lemma_seq_map_update(m.subs, i as int, s1);
            if pos is None {
                assert(m.subs.update(i as int, (m.subs[i as int].0, s1)) =~= m.subs);
            }
        }
        r
    }

    /// Acknowledge lease `lease_id` of `subscription` for `worker` at `now`
    /// (see [`ack_outcome`]).
    #[verifier::rlimit(40)]
    pub fn ack_replicated_at(&mut self, subscription: &str, worker: WorkerId, lease_id: TopicLeaseId, now: u64) -> (r: Result<
        Vec<TopicReplicateOp>,
        TopicError,
    >)
        requires
            old(self).wf(),
        ensures
            final(self).wf(),
            ack_outcome(old(self).model(), subscription@, worker, lease_id.0, now, r, final(self).model()),
            final(self).lease_timeout() == old(self).lease_timeout(),
            final(self).retention_opts() == old(self).retention_opts(),
    {
        let name = subscription.to_owned();
        let i = match self.find_sub(&name) {
            Some(i) => i,
            None => {
                return Err(TopicError::SubscriptionNotFound(name));
            },
        };
        let ghost m0 = self.model();
        let l = match self.take_lease(i, worker, lease_id.0, true, now) {
            Ok(l) => l,
            Err(e) => {
                return Err(e);
            },
        };
        let ghost m1 = self.model();
        proof {
            assert(self.subs@.len() == m1.subs.len());
        }
        let (nm, mut sub) = self.subs.remove(i);
        proof {
            assert((nm@, sub.model()) == m1.subs[i as int]);
        }
        let eid = l.event_id;
        let cursor = if sub.cursor >= eid { sub.cursor } else { eid };
        sub.cursor = cursor;
        retain_copy(
            &mut sub.dead_letter,
            |e: (u64, u32)| -> (r: bool) ensures r == (e.0 != eid) { e.0 != eid },
            Ghost(not_dead(eid)),
        );
        let ghost s2 = sub.model();
        self.subs.insert(i, (nm, sub));
        proof {
            assert(self.model().subs =~= m1.subs.update(i as int, (m1.subs[i as int].0, s2)));
            crate::keyed::lemma_seq_map_update(m1.subs, i as int, s2);
        }
        let ghost m2 = self.model();
        let mut ops: Vec<TopicReplicateOp> = Vec::new();
        ops.push(TopicReplicateOp::Ack { subscription: name, lease_id: lease_id.0, event_id: eid, cursor });
        match self.apply_op(&ops[0]) {
            Ok(()) => {},
            Err(e) => {
                proof {
                    assert(m2.subs[i as int].0 == subscription@);
                }
                return Err(e);
            },
        }
        match self.compact_locked() {
            Some(c) => {
                ops.push(c);
            },
            None => {},
        }
        proof {
            let s = m0.subs[i as int].1;
            assert(m2 == with_sub(
                m0,
                i as int,
                SubModel { leases: s.leases.filter(not_lease(lease_id.0)), dead_letter: s.dead_letter.filter(not_dead(eid)), cursor, ..s },
            )) by {
                assert(m2.subs =~= m0.subs.update(
                    i as int,
                    (m0.subs[i as int].0, SubModel { leases: s.leases.filter(not_lease(lease_id.0)), dead_letter: s.dead_letter.filter(not_dead(eid)), cursor, ..s }),
                ));
            }
        }
        Ok(ops)
    }

    /// Return lease `lease_id` of `subscription` for `worker` at `now`
    /// (see [`nack_outcome`]).
    #[verifier::rlimit(40)]
    pub fn nack_replicated_at(&mut self, subscription: &str, worker: WorkerId, lease_id: TopicLeaseId, now: u64) -> (r: Result<
        Vec<TopicReplicateOp>,
        TopicError,
    >)
        requires
            old(self).wf(),
        ensures
            final(self).wf(),
            nack_outcome(old(self).model(), subscription@, worker, lease_id.0, now, r, final(self).model()),
            final(self).lease_timeout() == old(self).lease_timeout(),
            final(self).retention_opts() == old(self).retention_opts(),
    {
        let name = subscription.to_owned();
        let i = match self.find_sub(&name) {
            Some(i) => i,
            None => {
                return Err(TopicError::SubscriptionNotFound(name));
            },
        };
        let ghost m0 = self.model();
        let l = match self.take_lease(i, worker, lease_id.0, false, now) {
            Ok(l) => l,
            Err(e) => {
                return Err(e);
            },
        };
        let ghost m1 = self.model();
        proof {
            assert(self.subs@.len() == m1.subs.len());
        }
        let (nm, mut sub) = self.subs.remove(i);
        proof {
            assert((nm@, sub.model()) == m1.subs[i as int]);
        }
        let (attempts, dead) = failed_delivery_at(l.attempts, sub.max_attempts, now);
        sub.settle_failed(l.event_id, attempts, dead);
        let ghost s2 = sub.model();
        self.subs.insert(i, (nm, sub));
        proof {
            assert(self.model().subs =~= m1.subs.update(i as int, (m1.subs[i as int].0, s2)));
            crate::keyed::lemma_seq_map_update(m1.subs, i as int, s2);
        }
        let ghost m2 = self.model();
        let mut ops: Vec<TopicReplicateOp> = Vec::new();
        ops.push(TopicReplicateOp::Nack { subscription: name, lease_id: lease_id.0, event_id: l.event_id, attempts, dead_letter: dead });
        match self.apply_op(&ops[0]) {
            Ok(()) => {},
            Err(e) => {
                proof {
                    assert(m2.subs[i as int].0 == subscription@);
                }
                return Err(e);
            },
        }
        proof {
            let s = m0.subs[i as int].1;
            let t = settle_one(SubModel { leases: s.leases.filter(not_lease(lease_id.0)), ..s }, l.event_id, l.attempts, now);
            assert(m2 == with_sub(m0, i as int, t)) by {
                assert(m2.subs =~= m0.subs.update(i as int, (m0.subs[i as int].0, t)));
            }
        }
        Ok(ops)
    }
}


/// Every reclaim names an existing subscription.
pub proof fn lemma_reclaim_names(subs: Seq<(Seq<char>, SubModel)>, now: u64)
    ensures
        forall|k: int| 0 <= k < reclaim_list(subs, now).len() ==> has_key(subs, (#[trigger] reclaim_list(subs, now)[k]).0),
    decreases subs.len(),
{
    if subs.len() > 0 {
        let pre = subs.drop_last();
        lemma_reclaim_names(pre, now);
        let r = subs.last();
        let tail = r.1.leases.filter(expired_at(now)).map_values(|l: TopicLease| reclaim_entry(r.0, r.1.max_attempts, now, l));
        let lst = reclaim_list(subs, now);
        assert(lst =~= reclaim_list(pre, now) + tail);
        assert forall|k: int| 0 <= k < lst.len() implies has_key(subs, (#[trigger] lst[k]).0) by {
            if k < reclaim_list(pre, now).len() {
                let j = choose|j: int| 0 <= j < pre.len() && pre[j].0 == reclaim_list(pre, now)[k].0;
                assert(subs[j] == pre[j]);
            } else {
                assert(lst[k] == tail[k - reclaim_list(pre, now).len()]);
                assert(subs[subs.len() - 1].0 == r.0);
            }
        }
    }
}

/// Reclaim operations for `list`, applied to a topic whose subscriptions have
/// the names of `subs`, are all accepted.
pub proof fn lemma_reclaims_accepted(m: TopicModel, subs: Seq<(Seq<char>, SubModel)>, ops: Seq<TopicReplicateOp>, now: u64)
    requires
        m.subs.len() == subs.len(),
        forall|j: int| 0 <= j < subs.len() ==> (#[trigger] m.subs[j]).0 == subs[j].0,
        ops.len() == reclaim_list(subs, now).len(),
        forall|k: int| 0 <= k < ops.len() ==> is_reclaim_op(#[trigger] ops[k], reclaim_list(subs, now)[k]),
    ensures
        apply_ops_spec(m, ops) matches Ok(m2) && {
            &&& m2.subs.len() == m.subs.len()
            &&& forall|j: int| 0 <= j < m.subs.len() ==> (#[trigger] m2.subs[j]).0 == m.subs[j].0
            &&& m2.events == m.events
            &&& m2.next_event_id == m.next_event_id
            &&& m2.next_lease_id == m.next_lease_id
            &&& m2.compact_head == m.compact_head
        },
{
    lemma_reclaim_names(subs, now);
    let lst = reclaim_list(subs, now);
    assert forall|k: int| 0 <= k < ops.len() implies (#[trigger] ops[k]) is Reclaim || ops[k] is Nack || ops[k] is RetentionDiscard by {
        assert(is_reclaim_op(ops[k], lst[k]));
    }
    assert forall|k: int| 0 <= k < ops.len() implies has_key(m.subs, (#[trigger] op_subscription(ops[k])).unwrap()@) by {
        assert(is_reclaim_op(ops[k], lst[k]));
        assert(has_key(subs, lst[k].0));
        let j = choose|j: int| 0 <= j < subs.len() && subs[j].0 == lst[k].0;
        assert(m.subs[j].0 == subs[j].0);
    }
    lemma_sub_ops_succeed(m, ops);
}

/// `op` appends event `id` with `payload` at `now`, advancing the id counter to `next`.
pub open spec fn is_publish_op(op: TopicReplicateOp, id: u64, payload: Seq<u8>, now: u64, next: u64) -> bool {
    match op {
        TopicReplicateOp::Publish { event_id, payload: p, published_at_ms, next_event_id } => event_id == id && p@ == payload
            && published_at_ms == now && next_event_id == next,
        _ => false,
    }
}

/// Publishing `payload` at `now`: lapsed leases are reclaimed (one `Reclaim`
/// each, in the order of [`reclaim_list`]), the next event id is taken, the
/// `Publish` operation follows, all of these are applied (the reclaims a second
/// time), and the topic is compacted.
pub open spec fn publish_outcome(
    m0: TopicModel,
    now: u64,
    payload: Seq<u8>,
    id: EventId,
    ops: Seq<TopicReplicateOp>,
    m: TopicModel,
) -> bool {
    let list = reclaim_list(m0.subs, now);
    let n = list.len() as int;
    let next = sat_add_u64(m0.next_event_id, 1);
    let m1 = TopicModel { next_event_id: next, ..reclaim_all(m0, now) };
    &&& id.0 == m0.next_event_id
    &&& n + 1 <= ops.len() <= n + 2
    &&& forall|k: int| 0 <= k < n ==> is_reclaim_op(#[trigger] ops[k], list[k])
    &&& is_publish_op(ops[n], m0.next_event_id, payload, now, next)
    &&& match apply_ops_spec(m1, ops.subrange(0, n + 1)) {
        Ok(m2) => compact_spec(m2) == (m, if ops.len() == n + 2 { Some(ops[n + 1]) } else { None::<TopicReplicateOp> }),
        Err(_) => false,
    }
}

impl InMemoryEventTopic {
    /// Append one event published at `now` (see [`publish_outcome`]). Never refused.
    #[verifier::rlimit(40)]
    pub fn publish_replicated_at(&mut self, payload: &[u8], now: u64) -> (r: Result<(EventId, Vec<TopicReplicateOp>), TopicError>)
        requires
            old(self).wf(),
        ensures
            final(self).wf(),
            match r {
                Ok((id, ops)) => publish_outcome(old(self).model(), now, payload@, id, ops@, final(self).model()),
                Err(_) => false,
            },
            final(self).lease_timeout() == old(self).lease_timeout(),
            final(self).retention_opts() == old(self).retention_opts(),
    {
        let ghost m0 = self.model();
        let mut ops = self.reclaim_expired_at(now);
        let ghost n = ops@.len() as int;
        let ghost rops = ops@;
        let id = self.next_event_id;
        self.next_event_id = saturating_add_u64(id, 1);
        let ghost m1 = self.model();
        proof {
            assert(m1 == TopicModel { next_event_id: sat_add_u64(m0.next_event_id, 1), ..reclaim_all(m0, now) });
            let ra = reclaim_all(m0, now);
            assert forall|j: int| 0 <= j < m0.subs.len() implies (#[trigger] m1.subs[j]).0 == m0.subs[j].0 by {
                assert(m1.subs[j] == ra.subs[j]);
            }
            lemma_reclaims_accepted(m1, m0.subs, rops, now);
        }
        let next = self.next_event_id;
        ops.push(TopicReplicateOp::Publish { event_id: id, payload: bytes_to_vec(payload), published_at_ms: now, next_event_id: next });
        proof {
            assert(ops@.drop_last() =~= rops);
            assert(ops@.subrange(0, n + 1) =~= ops@);
        }
        match self.apply_all(&ops) {
            Ok(()) => {},
            Err(e) => {
                return Err(e);
            },
        }
        let ghost full = ops@;
        match self.compact_locked() {
            Some(c) => {
                ops.push(c);
            },
            None => {},
        }
        proof {
            assert(ops@.subrange(0, n + 1) =~= full);
            assert forall|k: int| 0 <= k < n implies is_reclaim_op(#[trigger] ops@[k], reclaim_list(m0.subs, now)[k]) by {
                assert(ops@[k] == rops[k]);
            }
            assert(ops@[n] == full[n]);
        }
        Ok((EventId(id), ops))
    }
}


/// State of a lease round: the subscription, the next lease id, and the grants
/// so far (lease id, event id, attempt number).
pub struct LeaseRun {
    pub sub: SubModel,
    pub next_lease: u64,
    pub grants: Seq<(u64, u64, u32)>,
}

/// Attempt number of a new delivery of `id`: one more than its dead-letter
/// count, or 1.
pub open spec fn lease_attempts(d: Seq<(u64, u32)>, id: u64) -> u32 {
    match dead_get(d, id) {
        Some(a) => sat_add_u32(a, 1),
        None => 1,
    }
}

/// One turn of a lease round: take the head of the pending queue and lease it
/// to `worker` until `expires`, unless its event is no longer stored.
pub open spec fn lease_turn(r: LeaseRun, events: Seq<(u64, EventModel)>, worker: WorkerId, expires: u64) -> LeaseRun {
    if r.sub.pending.len() == 0 {
        r
    } else {
        let id = r.sub.pending[0];
        let s = SubModel { pending: r.sub.pending.drop_first(), ..r.sub };
        if !has_event(events, id) {
            LeaseRun { sub: s, ..r }
        } else {
            let a = lease_attempts(s.dead_letter, id);
            LeaseRun {
                sub: SubModel {
                    leases: s.leases.filter(not_lease(r.next_lease)).push(
                        TopicLease { lease_id: r.next_lease, event_id: id, worker, attempts: a, expires_at_ms: expires },
                    ),
                    ..s
                },
                next_lease: sat_add_u64(r.next_lease, 1),
                grants: r.grants.push((r.next_lease, id, a)),
            }
        }
    }
}

/// `n` turns of a lease round.
pub open spec fn lease_turns(r: LeaseRun, events: Seq<(u64, EventModel)>, worker: WorkerId, expires: u64, n: nat) -> LeaseRun
    decreases n,
{
    if n == 0 {
        r
    } else {
        lease_turn(lease_turns(r, events, worker, expires, (n - 1) as nat), events, worker, expires)
    }
}

/// Once the pending queue is empty, further turns change nothing.
pub proof fn lemma_lease_turns_rest(r: LeaseRun, events: Seq<(u64, EventModel)>, worker: WorkerId, expires: u64, k: nat, n: nat)
    requires
        k <= n,
        lease_turns(r, events, worker, expires, k).sub.pending.len() == 0,
    ensures
        lease_turns(r, events, worker, expires, n) == lease_turns(r, events, worker, expires, k),
    decreases n - k,
{
    if k < n {
        lemma_lease_turns_rest(r, events, worker, expires, k, (n - 1) as nat);
    }
}

/// Payload of the stored event `id`.
pub open spec fn event_payload(e: Seq<(u64, EventModel)>, id: u64) -> Seq<u8> {
    e[choose|i: int| 0 <= i < e.len() && e[i].0 == id].1.payload
}

/// `op` records grant `g` on subscription `name` to `worker` until `expires`.
pub open spec fn is_lease_op(op: TopicReplicateOp, name: Seq<char>, g: (u64, u64, u32), worker: WorkerId, expires: u64) -> bool {
    match op {
        TopicReplicateOp::Lease {
            subscription,
            lease_id,
            event_id,
            worker_node,
            worker_instance,
            expires_at_ms,
            next_lease_id,
            attempts,
        } => subscription@ == name && lease_id == g.0 && event_id == g.1 && worker_node == worker.node.0 && worker_instance
            == worker.instance && expires_at_ms == expires && next_lease_id == sat_add_u64(g.0, 1) && attempts == g.2,
        _ => false,
    }
}

/// The operations record the grants in order.
pub open spec fn lease_ops_match(ops: Seq<TopicReplicateOp>, name: Seq<char>, grants: Seq<(u64, u64, u32)>, worker: WorkerId, expires: u64) -> bool {
    ops.len() == grants.len() && forall|g: int| 0 <= g < grants.len() ==> is_lease_op(#[trigger] ops[g], name, grants[g], worker, expires)
}

/// The handed-out events are the grants in order, with their payloads.
pub open spec fn leased_match(out: Seq<LeasedEvent>, grants: Seq<(u64, u64, u32)>, events: Seq<(u64, EventModel)>) -> bool {
    out.len() == grants.len() && forall|g: int|
        0 <= g < grants.len() ==> {
            let ev = #[trigger] out[g];
            &&& ev.lease_id == TopicLeaseId(grants[g].0)
            &&& ev.event_id == EventId(grants[g].1)
            &&& ev.payload@ == event_payload(events, grants[g].1)
            &&& ev.attempts == grants[g].2
        }
}

/// Leasing up to `max` events of subscription `name` to `worker` at `now`:
/// lapsed leases are reclaimed and their `Reclaim` operations applied once
/// more; then an unknown subscription is refused, otherwise `max` turns of a
/// lease round run, each grant lasting `timeout` ms and reported as a `Lease`
/// operation and a leased event.
pub open spec fn lease_outcome(
    m0: TopicModel,
    now: u64,
    timeout: u64,
    name: Seq<char>,
    worker: WorkerId,
    max: nat,
    r: Result<(Vec<LeasedEvent>, Vec<TopicReplicateOp>), TopicError>,
    m: TopicModel,
) -> bool {
    let list = reclaim_list(m0.subs, now);
    let n = list.len() as int;
    let m1 = reclaim_all(m0, now);
    if !has_key(m0.subs, name) {
        match r {
            Err(e) => not_found(e, name) && exists|rops: Seq<TopicReplicateOp>|
                rops.len() == n && (forall|k: int| 0 <= k < n ==> is_reclaim_op(#[trigger] rops[k], list[k])) && apply_ops_spec(
                    m1,
                    rops,
                ) == Ok::<TopicModel, TopicError>(m),
            Ok(_) => false,
        }
    } else {
        match r {
            Ok((out, ops)) => n <= ops@.len() && (forall|k: int| 0 <= k < n ==> is_reclaim_op(#[trigger] ops@[k], list[k]))
                && match apply_ops_spec(m1, ops@.subrange(0, n)) {
                Ok(m2) => {
                    let i = sub_index(m2.subs, name);
                    let expires = sat_add_u64(now, timeout);
                    let run = lease_turns(
                        LeaseRun { sub: m2.subs[i].1, next_lease: m2.next_lease_id, grants: Seq::empty() },
                        m2.events,
                        worker,
                        expires,
                        max,
                    );
                    &&& lease_ops_match(ops@.skip(n), name, run.grants, worker, expires)
                    &&& leased_match(out@, run.grants, m2.events)
                    &&& m == TopicModel { subs: m2.subs.update(i, (name, run.sub)), next_lease_id: run.next_lease, ..m2 }
                },
                Err(_) => false,
            },
            Err(_) => false,
        }
    }
}

impl InMemoryEventTopic {
    /// Position of the stored event `id`.
    fn event_pos(&self, id: u64) -> (r: Option<usize>)
        requires
            ids_ascending(self.model().events),
        ensures
            r matches Some(p) ==> p < self.events@.len() && self.model().events[p as int].0 == id && event_payload(self.model().events, id)
                == self.model().events[p as int].1.payload,
            r is None ==> !has_event(self.model().events, id),
    {
        let ghost e = self.model().events;
        let mut i: usize = 0;
        while i < self.events.len()
            invariant
                e == self.model().events,
                ids_ascending(e),
                0 <= i <= self.events@.len(),
                forall|j: int| 0 <= j < i ==> e[j].0 != id,
            decreases self.events@.len() - i,
        {
            if self.events[i].0 == id {
                proof {
                    assert(e[i as int].0 == id);
                    let c = choose|c: int| 0 <= c < e.len() && e[c].0 == id;
                    if c < i {
                        assert(e[c].0 < e[i as int].0);
                    } else if c > i {
                        assert(e[i as int].0 < e[c].0);
                    }
                }
                return Some(i);
            }
            i = i + 1;
        }
        None
    }

    /// Lease up to `max` events of `subscription` to `worker` at `now` (see [`lease_outcome`]).
    #[verifier::rlimit(60)]
    pub fn lease_replicated_at(&mut self, subscription: &str, worker: WorkerId, max: usize, now: u64) -> (r: Result<
        (Vec<LeasedEvent>, Vec<TopicReplicateOp>),
        TopicError,
    >)
        requires
            old(self).wf(),
        ensures
            final(self).wf(),
            lease_outcome(old(self).model(), now, old(self).lease_timeout(), subscription@, worker, max as nat, r, final(self).model()),
            final(self).lease_timeout() == old(self).lease_timeout(),
            final(self).retention_opts() == old(self).retention_opts(),
    {
        let ghost m0 = self.model();
        let mut ops = self.reclaim_expired_at(now);
        let ghost n = ops@.len() as int;
        let ghost rops = ops@;
        let ghost m1 = self.model();
        proof {
            let ra = reclaim_all(m0, now);
            assert(m1 == ra);
            assert forall|j: int| 0 <= j < m0.subs.len() implies (#[trigger] m1.subs[j]).0 == m0.subs[j].0 by {
                assert(m1.subs[j] == ra.subs[j]);
            }
            lemma_reclaims_accepted(m1, m0.subs, rops, now);
        }
        match self.apply_all(&ops) {
            Ok(()) => {},
            Err(e) => {
                return Err(e);
            },
        }
        let ghost m2 = self.model();
        let name = subscription.to_owned();
        let i = match self.find_sub(&name) {
            Some(i) => i,
            None => {
                proof {
                    if has_key(m0.subs, name@) {
                        let j = choose|j: int| 0 <= j < m0.subs.len() && m0.subs[j].0 == name@;
                        assert(m2.subs[j].0 == name@);
                    }
                    assert(rops.len() == n && (forall|k: int| 0 <= k < n ==> is_reclaim_op(#[trigger] rops[k], reclaim_list(m0.subs, now)[k]))
                        && apply_ops_spec(m1, rops) == Ok::<TopicModel, TopicError>(m2));
                }
                return Err(TopicError::SubscriptionNotFound(name));
            },
        };
        proof {
            assert(has_key(m0.subs, name@)) by {
                assert(m2.subs[i as int].0 == m0.subs[i as int].0);
            }
            assert(ops@.subrange(0, n) =~= rops);
            assert(self.subs@.len() == m2.subs.len());
        }
        let expires = saturating_add_u64(now, self.lease_timeout_ms);
        let mut next_lease = self.next_lease_id;
        let mut out: Vec<LeasedEvent> = Vec::new();
        let (nm, mut sub) = self.subs.remove(i);
        proof {
            assert((nm@, sub.model()) == m2.subs[i as int]);
        }
        let ghost init = LeaseRun { sub: sub.model(), next_lease, grants: Seq::empty() };
        let ghost mut grants: Seq<(u64, u64, u32)> = Seq::empty();
        let mut k: usize = 0;
        while k < max && sub.pending.len() > 0
            invariant
                0 <= k <= max,
                lease_turns(init, m2.events, worker, expires, k as nat) == (LeaseRun { sub: sub.model(), next_lease, grants }),
                events_model(self.events@) == m2.events,
                ids_ascending(m2.events),
                n == rops.len(),
                ops@.len() == n + grants.len(),
                ops@.subrange(0, n) == rops,
                lease_ops_match(ops@.skip(n), name@, grants, worker, expires),
                leased_match(out@, grants, m2.events),
                name@ == subscription@,
            decreases max - k,
        {
            let ghost before = LeaseRun { sub: sub.model(), next_lease, grants };
            let ghost ops0 = ops@;
            let ghost out0 = out@;
            let id = sub.pending.remove(0);
            proof {
                assert(sub.model().pending =~= before.sub.pending.drop_first());
            }
            match self.event_pos(id) {
                None => {
                    proof {
                        assert(sub.model() == (SubModel { pending: before.sub.pending.drop_first(), ..before.sub }));
                    }
                },
                Some(p) => {
                    let attempts = match sub.dead_attempts(id) {
                        Some(a) => saturating_add_u32(a, 1),
                        None => 1,
                    };
                    let lid = next_lease;
                    next_lease = saturating_add_u64(next_lease, 1);
                    sub.drop_lease(lid);
                    sub.leases.push(TopicLease { lease_id: lid, event_id: id, worker, attempts, expires_at_ms: expires });
                    ops.push(
                        TopicReplicateOp::Lease {
                            subscription: name.clone(),
                            lease_id: lid,
                            event_id: id,
                            worker_node: worker.node.0,
                            worker_instance: worker.instance,
                            expires_at_ms: expires,
                            next_lease_id: next_lease,
                            attempts,
                        },
                    );
                    let payload = bytes_to_vec(self.events[p].1.payload.as_slice());
                    out.push(LeasedEvent { lease_id: TopicLeaseId(lid), event_id: EventId(id), payload, attempts });
                    proof {
                        grants = grants.push((lid, id, attempts));
                        let tl = ops@.skip(n);
                        assert(tl =~= ops0.skip(n).push(ops@.last()));
                        assert(forall|g: int| 0 <= g < grants.len() - 1 ==> tl[g] == ops0.skip(n)[g]);
                        assert(is_lease_op(tl[grants.len() - 1], name@, grants[grants.len() - 1], worker, expires));
                        assert(ops@.subrange(0, n) =~= ops0.subrange(0, n));
                        assert(forall|g: int| 0 <= g < grants.len() - 1 ==> out@[g] == out0[g]);
                        assert(out@[grants.len() - 1].payload@ == event_payload(m2.events, id));
                    }
                },
            }
            k = k + 1;
            proof {
                assert(lease_turns(init, m2.events, worker, expires, k as nat) == lease_turn(before, m2.events, worker, expires));
            }
        }
        proof {
            if k < max {
                lemma_lease_turns_rest(init, m2.events, worker, expires, k as nat, max as nat);
            }
        }
        self.next_lease_id = next_lease;
        let ghost s2 = sub.model();
        self.subs.insert(i, (nm, sub));
        proof {
            assert(self.model().subs =~= m2.subs.update(i as int, (m2.subs[i as int].0, s2)));
            crate::keyed::lemma_seq_map_update(m2.subs, i as int, s2);
            let run = lease_turns(init, m2.events, worker, expires, max as nat);
            assert(run.sub == s2);
            assert(init == LeaseRun { sub: m2.subs[i as int].1, next_lease: m2.next_lease_id, grants: Seq::empty() });
            assert(i as int == sub_index(m2.subs, name@));
            assert(expires == sat_add_u64(now, old(self).lease_timeout()));
            assert(self.model() == TopicModel { subs: m2.subs.update(i as int, (name@, run.sub)), next_lease_id: run.next_lease, ..m2 });
            assert(lease_ops_match(ops@.skip(n), name@, run.grants, worker, expires));
            assert(leased_match(out@, run.grants, m2.events));
            assert(apply_ops_spec(m1, ops@.subrange(0, n)) == Ok::<TopicModel, TopicError>(m2));
            assert(n == reclaim_list(m0.subs, now).len());
            assert(forall|k: int| 0 <= k < n ==> is_reclaim_op(#[trigger] ops@[k], reclaim_list(m0.subs, now)[k])) by {
                assert forall|k: int| 0 <= k < n implies is_reclaim_op(#[trigger] ops@[k], reclaim_list(m0.subs, now)[k]) by {
                    assert(ops@.subrange(0, n)[k] == ops@[k]);
                }
            }
        }
        Ok((out, ops))
    }
}


/// `a - b`, or 0 when `b` is larger.
pub open spec fn sat_sub_u64(a: u64, b: u64) -> u64 {
    if a >= b { (a - b) as u64 } else { 0 }
}

/// Age at `now` of the oldest stored event (0 without events).
pub open spec fn oldest_age(e: Seq<(u64, EventModel)>, now: u64) -> u64
    decreases e.len(),
{
    if e.len() == 0 {
        0
    } else {
        let a = sat_sub_u64(now, e.last().1.published_at_ms);
        let rest = oldest_age(e.drop_last(), now);
        if a >= rest { a } else { rest }
    }
}

/// `x` reports subscription `r` against log head `head`.
pub open spec fn sub_metrics_match(x: TopicSubscriptionMetrics, r: (Seq<char>, SubModel), head: u64) -> bool {
    &&& x.subscription@ == r.0
    &&& x.cursor == r.1.cursor
    &&& x.lag == sat_sub_u64(head, r.1.cursor)
    &&& x.pending == r.1.pending.len()
    &&& x.leased == r.1.leases.len()
    &&& x.retention_discards == r.1.retention_discards
}

/// `mt` reports topic `m` at `now`, subscriptions in registration order.
pub open spec fn metrics_match(mt: TopicMetrics, m: TopicModel, now: u64) -> bool {
    &&& mt.event_count == m.events.len()
    &&& mt.head == head_spec(m)
    &&& mt.compact_head == m.compact_head
    &&& mt.oldest_event_age_ms == oldest_age(m.events, now)
    &&& mt.subscriptions@.len() == m.subs.len()
    &&& forall|j: int| 0 <= j < m.subs.len() ==> sub_metrics_match(#[trigger] mt.subscriptions@[j], m.subs[j], head_spec(m))
}

/// Events a subscription is behind `head`.
pub open spec fn lag_of(s: SubModel, head: u64) -> u64 {
    sat_sub_u64(head, s.cursor)
}

/// Retention force-advances a lagging subscription to `head`: its pending
/// queue is cleared, leases and dead letter keep only later events, and the
/// lag is counted as discarded.
pub open spec fn discard_sub(s: SubModel, head: u64) -> SubModel {
    if lag_of(s, head) == 0 {
        s
    } else {
        SubModel {
            pending: Seq::empty(),
            leases: s.leases.filter(lease_event_above(head)),
            dead_letter: s.dead_letter.filter(dead_above(head)),
            cursor: head,
            retention_discards: sat_add_u64(s.retention_discards, lag_of(s, head)),
            ..s
        }
    }
}

pub open spec fn lagging(head: u64) -> spec_fn((Seq<char>, SubModel)) -> bool {
    |r: (Seq<char>, SubModel)| lag_of(r.1, head) != 0
}

/// Name and lag of every lagging subscription, in order.
pub open spec fn discard_list(subs: Seq<(Seq<char>, SubModel)>, head: u64) -> Seq<(Seq<char>, u64)> {
    subs.filter(lagging(head)).map_values(|r: (Seq<char>, SubModel)| (r.0, lag_of(r.1, head)))
}

/// The oldest event is older than the age limit, or more events are stored than allowed.
pub open spec fn retention_due(m: TopicModel, opts: TopicRetentionOpts, now: u64) -> bool {
    oldest_age(m.events, now) > opts.max_event_age_ms || m.events.len() > opts.max_retained_events
}

/// `op` force-advances `e.0` to `head`, discarding `e.1` events.
pub open spec fn is_discard_op(op: TopicReplicateOp, e: (Seq<char>, u64), head: u64) -> bool {
    match op {
        TopicReplicateOp::RetentionDiscard { subscription, cursor, discarded } => subscription@ == e.0 && cursor == head
            && discarded == e.1,
        _ => false,
    }
}

/// Enforcing retention at `now`: when it is due, every lagging subscription is
/// force-advanced to the head (one `RetentionDiscard` each); those operations
/// are applied once more, and the topic is compacted.
pub open spec fn retention_outcome(m0: TopicModel, opts: TopicRetentionOpts, now: u64, ops: Seq<TopicReplicateOp>, m: TopicModel) -> bool {
    let head = head_spec(m0);
    let due = retention_due(m0, opts, now);
    let list = if due { discard_list(m0.subs, head) } else { Seq::empty() };
    let n = list.len() as int;
    let m1 = if due {
        TopicModel { subs: m0.subs.map_values(|r: (Seq<char>, SubModel)| (r.0, discard_sub(r.1, head))), ..m0 }
    } else {
        m0
    };
    &&& n <= ops.len() <= n + 1
    &&& forall|k: int| 0 <= k < n ==> is_discard_op(#[trigger] ops[k], list[k], head)
    &&& match apply_ops_spec(m1, ops.subrange(0, n)) {
        Ok(m2) => compact_spec(m2) == (m, if ops.len() == n + 1 { Some(ops[n]) } else { None::<TopicReplicateOp> }),
        Err(_) => false,
    }
}

impl InMemoryEventTopic {
    /// Age at `now` of the oldest stored event (0 without events).
    fn oldest_age_at(&self, now: u64) -> (a: u64)
        ensures
            a == oldest_age(self.model().events, now),
    {
        let ghost e = self.model().events;
        let mut a: u64 = 0;
        let mut i: usize = 0;
        while i < self.events.len()
            invariant
                e == self.model().events,
                0 <= i <= self.events@.len(),
                a == oldest_age(e.subrange(0, i as int), now),
            decreases self.events@.len() - i,
        {
            proof {
                assert(e.subrange(0, i + 1).drop_last() =~= e.subrange(0, i as int));
                assert(e.subrange(0, i + 1).last() == e[i as int]);
            }
            let t = self.events[i].1.published_at_ms;
            let age = if now >= t { now - t } else { 0 };
            if age >= a {
                a = age;
            }
            i = i + 1;
        }
        proof {
            assert(e.subrange(0, e.len() as int) =~= e);
        }
        a
    }

    /// Depth, lag and age gauges at `now`. Never refused.
    pub fn metrics_at(&self, now: u64) -> (r: Result<TopicMetrics, TopicError>)
        ensures
            r matches Ok(mt) && metrics_match(mt, self.model(), now),
    {
        let ghost m = self.model();
        let head = self.head();
        let mut subscriptions: Vec<TopicSubscriptionMetrics> = Vec::new();
        let mut i: usize = 0;
        while i < self.subs.len()
            invariant
                m == self.model(),
                head == head_spec(m),
                0 <= i <= self.subs@.len(),
                subscriptions@.len() == i,
                forall|j: int| 0 <= j < i ==> sub_metrics_match(#[trigger] subscriptions@[j], m.subs[j], head),
            decreases self.subs@.len() - i,
        {
            let sub = &self.subs[i].1;
            proof {
                assert(m.subs[i as int] == (self.subs@[i as int].0@, sub.model()));
            }
            subscriptions.push(
                TopicSubscriptionMetrics {
                    subscription: self.subs[i].0.clone(),
                    cursor: sub.cursor,
                    lag: subscription_lag(head, sub.cursor),
                    pending: sub.pending.len() as u64,
                    leased: sub.leases.len() as u64,
                    retention_discards: sub.retention_discards,
                },
            );
            i = i + 1;
        }
        Ok(
            TopicMetrics {
                event_count: self.events.len() as u64,
                head,
                compact_head: self.compact_head,
                oldest_event_age_ms: self.oldest_age_at(now),
                subscriptions,
            },
        )
    }

    /// Enforce the retention limits at `now` (see [`retention_outcome`]). Never refused.
    #[verifier::rlimit(60)]
    pub fn enforce_retention_at(&mut self, now: u64) -> (r: Result<Vec<TopicReplicateOp>, TopicError>)
        requires
            old(self).wf(),
        ensures
            final(self).wf(),
            match r {
                Ok(ops) => retention_outcome(old(self).model(), old(self).retention_opts(), now, ops@, final(self).model()),
                Err(_) => false,
            },
            final(self).lease_timeout() == old(self).lease_timeout(),
            final(self).retention_opts() == old(self).retention_opts(),
    {
        let ghost m0 = self.model();
        let head = self.head();
        let oldest = self.oldest_age_at(now);
        let count = self.events.len() as u64;
        let mut ops: Vec<TopicReplicateOp> = Vec::new();
        let due = oldest > self.retention.max_event_age_ms || count > self.retention.max_retained_events;
        if due {
            let ns = self.subs.len();
            let mut i: usize = 0;
            while i < ns
                invariant
                    ns == self.subs@.len(),
                    ns == m0.subs.len(),
                    0 <= i <= ns,
                    names_distinct(m0.subs),
                    head == head_spec(m0),
                    self.model().events == m0.events,
                    ids_ascending(m0.events),
                    self.next_event_id == m0.next_event_id,
                    self.next_lease_id == m0.next_lease_id,
                    self.compact_head == m0.compact_head,
                    self.lease_timeout() == old(self).lease_timeout(),
                    self.retention_opts() == old(self).retention_opts(),
                    forall|j: int| 0 <= j < i ==> #[trigger] self.model().subs[j] == (m0.subs[j].0, discard_sub(m0.subs[j].1, head)),
                    forall|j: int| i <= j < ns ==> #[trigger] self.model().subs[j] == m0.subs[j],
                    ops@.len() == discard_list(m0.subs.subrange(0, i as int), head).len(),
                    forall|k: int| 0 <= k < ops@.len() ==> is_discard_op(#[trigger] ops@[k], discard_list(m0.subs.subrange(0, i as int), head)[k], head),
                decreases ns - i,
            {
                let ghost cur = self.model().subs;
                let ghost ops0 = ops@;
                let (nm, mut sub) = self.subs.remove(i);
                proof {
                    assert((nm@, sub.model()) == cur[i as int]);
                }
                let ghost s0 = sub.model();
                let lag = subscription_lag(head, sub.cursor);
                if lag != 0 {
                    sub.pending = Vec::new();
                    retain_copy(
                        &mut sub.leases,
                        |l: TopicLease| -> (r: bool) ensures r == (l.event_id > head) { l.event_id > head },
                        Ghost(lease_event_above(head)),
                    );
                    retain_copy(
                        &mut sub.dead_letter,
                        |e: (u64, u32)| -> (r: bool) ensures r == (e.0 > head) { e.0 > head },
                        Ghost(dead_above(head)),
                    );
                    sub.cursor = head;
                    sub.retention_discards = saturating_add_u64(sub.retention_discards, lag);
                    ops.push(TopicReplicateOp::RetentionDiscard { subscription: nm.clone(), cursor: head, discarded: lag });
                }
                proof {
                    assert(sub.model() == discard_sub(s0, head)) by {
                        if lag != 0 {
                            assert(sub.model().pending =~= Seq::<u64>::empty());
                        }
                    }
                    let pre = m0.subs.subrange(0, i as int);
                    let pre1 = m0.subs.subrange(0, i + 1);
                    assert(pre1 =~= pre.push(m0.subs[i as int]));
                    pre.lemma_filter_push(m0.subs[i as int], lagging(head));
                    let f = |r: (Seq<char>, SubModel)| (r.0, lag_of(r.1, head));
                    if lag != 0 {
                        assert(pre1.filter(lagging(head)) == pre.filter(lagging(head)).push(m0.subs[i as int]));
                        assert(pre.filter(lagging(head)).push(m0.subs[i as int]).map_values(f) =~= pre.filter(lagging(head)).map_values(f).push(
                            f(m0.subs[i as int]),
                        ));
                        assert forall|k: int| 0 <= k < ops@.len() implies is_discard_op(#[trigger] ops@[k], discard_list(pre1, head)[k], head) by {
                            if k < ops0.len() {
                                assert(ops@[k] == ops0[k]);
                            }
                        }
                    } else {
                        assert(pre1.filter(lagging(head)) == pre.filter(lagging(head)));
                    }
                }
                self.subs.insert(i, (nm, sub));
                proof {
                    assert(self.model().subs =~= cur.update(i as int, (m0.subs[i as int].0, discard_sub(m0.subs[i as int].1, head))));
                }
                i = i + 1;
            }
            proof {
                assert(m0.subs.subrange(0, ns as int) =~= m0.subs);
                let t0 = self.model().subs;
                let target = m0.subs.map_values(|r: (Seq<char>, SubModel)| (r.0, discard_sub(r.1, head)));
                assert forall|j: int| 0 <= j < t0.len() implies #[trigger] t0[j] == target[j] by {
                    assert(t0[j] == (m0.subs[j].0, discard_sub(m0.subs[j].1, head)));
                }
                assert(t0 =~= target);
                assert forall|a: int, b: int| 0 <= a < t0.len() && 0 <= b < t0.len() && a != b implies t0[a].0 != t0[b].0 by {
                    assert(t0[a].0 == m0.subs[a].0 && t0[b].0 == m0.subs[b].0);
                }
            }
        }
        let ghost m1 = self.model();
        let ghost dops = ops@;
        let ghost n = ops@.len() as int;
        proof {
            let lst = if due { discard_list(m0.subs, head) } else { Seq::empty() };
            assert(n == lst.len());
            assert forall|k: int| 0 <= k < n implies (#[trigger] dops[k]) is Reclaim || dops[k] is Nack || dops[k] is RetentionDiscard by {
                assert(is_discard_op(dops[k], lst[k], head));
            }
            assert forall|k: int| 0 <= k < n implies has_key(m1.subs, (#[trigger] op_subscription(dops[k])).unwrap()@) by {
                assert(is_discard_op(dops[k], lst[k], head));
                let fl = m0.subs.filter(lagging(head));
                assert(lst[k] == (fl[k].0, lag_of(fl[k].1, head)));
                m0.subs.lemma_filter_contains_rev(lagging(head), fl[k]);
                let j = choose|j: int| 0 <= j < m0.subs.len() && m0.subs[j] == fl[k];
                assert(m1.subs[j].0 == m0.subs[j].0);
            }
            lemma_sub_ops_succeed(m1, dops);
        }
        match self.apply_all(&ops) {
            Ok(()) => {},
            Err(e) => {
                return Err(e);
            },
        }
        match self.compact_locked() {
            Some(c) => {
                ops.push(c);
            },
            None => {},
        }
        proof {
            assert(ops@.subrange(0, n) =~= dops);
            assert forall|k: int| 0 <= k < n implies ops@[k] == dops[k] by {}
        }
        Ok(ops)
    }
}


/// The events of a lease answer, without its operations.
pub open spec fn leased_only(full: Result<(Vec<LeasedEvent>, Vec<TopicReplicateOp>), TopicError>) -> Result<Vec<LeasedEvent>, TopicError> {
    match full {
        Ok((out, _)) => Ok(out),
        Err(e) => Err(e),
    }
}

/// An answer without its operations.
pub open spec fn unit_only(full: Result<Vec<TopicReplicateOp>, TopicError>) -> Result<(), TopicError> {
    match full {
        Ok(_) => Ok(()),
        Err(e) => Err(e),
    }
}

impl InMemoryEventTopic {
    /// Append one event stamped with the current time (see [`publish_outcome`]). Never refused.
    pub fn publish_replicated(&mut self, payload: &[u8]) -> (r: Result<(EventId, Vec<TopicReplicateOp>), TopicError>)
        requires
            old(self).wf(),
        ensures
            final(self).wf(),
            match r {
                Ok((id, ops)) => exists|now: u64| #[trigger] publish_outcome(old(self).model(), now, payload@, id, ops@, final(self).model()),
                Err(_) => false,
            },
            final(self).lease_timeout() == old(self).lease_timeout(),
            final(self).retention_opts() == old(self).retention_opts(),
    {
        self.publish_replicated_at(payload, unix_now_ms())
    }

    /// Lease up to `max` events of `subscription` to `worker`, lasting the lease
    /// timeout from now (see [`lease_outcome`]).
    pub fn lease_replicated(&mut self, subscription: &str, worker: WorkerId, max: usize) -> (r: Result<
        (Vec<LeasedEvent>, Vec<TopicReplicateOp>),
        TopicError,
    >)
        requires
            old(self).wf(),
        ensures
            final(self).wf(),
            exists|now: u64|
                #[trigger] lease_outcome(old(self).model(), now, old(self).lease_timeout(), subscription@, worker, max as nat, r, final(self).model()),
            final(self).lease_timeout() == old(self).lease_timeout(),
            final(self).retention_opts() == old(self).retention_opts(),
    {
        self.lease_replicated_at(subscription, worker, max, unix_now_ms())
    }

    /// Acknowledge lease `lease_id` of `subscription` for `worker` (see [`ack_outcome`]).
    pub fn ack_replicated(&mut self, subscription: &str, worker: WorkerId, lease_id: TopicLeaseId) -> (r: Result<
        Vec<TopicReplicateOp>,
        TopicError,
    >)
        requires
            old(self).wf(),
        ensures
            final(self).wf(),
            exists|now: u64| #[trigger] ack_outcome(old(self).model(), subscription@, worker, lease_id.0, now, r, final(self).model()),
            final(self).lease_timeout() == old(self).lease_timeout(),
            final(self).retention_opts() == old(self).retention_opts(),
    {
        self.ack_replicated_at(subscription, worker, lease_id, unix_now_ms())
    }

    /// Return lease `lease_id` of `subscription` for `worker` (see [`nack_outcome`]).
    pub fn nack_replicated(&mut self, subscription: &str, worker: WorkerId, lease_id: TopicLeaseId) -> (r: Result<
        Vec<TopicReplicateOp>,
        TopicError,
    >)
        requires
            old(self).wf(),
        ensures
            final(self).wf(),
            exists|now: u64| #[trigger] nack_outcome(old(self).model(), subscription@, worker, lease_id.0, now, r, final(self).model()),
            final(self).lease_timeout() == old(self).lease_timeout(),
            final(self).retention_opts() == old(self).retention_opts(),
    {
        self.nack_replicated_at(subscription, worker, lease_id, unix_now_ms())
    }

    /// Depth, lag and age gauges now. Never refused.
    pub fn metrics(&self) -> (r: Result<TopicMetrics, TopicError>)
        ensures
            r matches Ok(mt) && exists|now: u64| #[trigger] metrics_match(mt, self.model(), now),
    {
        self.metrics_at(unix_now_ms())
    }

    /// Enforce the retention limits now (see [`retention_outcome`]). Never refused.
    pub fn enforce_retention_replicated(&mut self) -> (r: Result<Vec<TopicReplicateOp>, TopicError>)
        requires
            old(self).wf(),
        ensures
            final(self).wf(),
            match r {
                Ok(ops) => exists|now: u64| #[trigger] retention_outcome(old(self).model(), old(self).retention_opts(), now, ops@, final(self).model()),
                Err(_) => false,
            },
            final(self).lease_timeout() == old(self).lease_timeout(),
            final(self).retention_opts() == old(self).retention_opts(),
    {
        self.enforce_retention_at(unix_now_ms())
    }

    /// Publish without exposing the replication operations; returns the new
    /// event's id, which is the id counter before the call.
    pub fn publish(&mut self, payload: &[u8]) -> (r: Result<EventId, TopicError>)
        requires
            old(self).wf(),
        ensures
            final(self).wf(),
            match r {
                Ok(id) => id.0 == old(self).model().next_event_id && exists|now: u64, ops: Seq<TopicReplicateOp>|
                    #[trigger] publish_outcome(old(self).model(), now, payload@, id, ops, final(self).model()),
                Err(_) => false,
            },
            final(self).lease_timeout() == old(self).lease_timeout(),
            final(self).retention_opts() == old(self).retention_opts(),
    {
        match self.publish_replicated(payload) {
            Ok((id, ops)) => {
                proof {
                    let now = choose|now: u64| #[trigger] publish_outcome(old(self).model(), now, payload@, id, ops@, self.model());
                    assert(publish_outcome(old(self).model(), now, payload@, id, ops@, self.model()));
                }
                Ok(id)
            },
            Err(e) => Err(e),
        }
    }

    /// Lease without exposing the replication operations.
    pub fn lease(&mut self, subscription: &str, worker: WorkerId, max: usize) -> (r: Result<Vec<LeasedEvent>, TopicError>)
        requires
            old(self).wf(),
        ensures
            final(self).wf(),
            exists|now: u64, full: Result<(Vec<LeasedEvent>, Vec<TopicReplicateOp>), TopicError>|
                #[trigger] lease_outcome(old(self).model(), now, old(self).lease_timeout(), subscription@, worker, max as nat, full, final(self).model())
                    && r == leased_only(full),
            final(self).lease_timeout() == old(self).lease_timeout(),
            final(self).retention_opts() == old(self).retention_opts(),
    {
        let full = self.lease_replicated(subscription, worker, max);
        match full {
            Ok((out, _ops)) => Ok(out),
            Err(e) => Err(e),
        }
    }

    /// Acknowledge without exposing the replication operations.
    pub fn ack(&mut self, subscription: &str, worker: WorkerId, lease_id: TopicLeaseId) -> (r: Result<(), TopicError>)
        requires
            old(self).wf(),
        ensures
            final(self).wf(),
            exists|now: u64, full: Result<Vec<TopicReplicateOp>, TopicError>|
                #[trigger] ack_outcome(old(self).model(), subscription@, worker, lease_id.0, now, full, final(self).model()) && r == unit_only(full),
            final(self).lease_timeout() == old(self).lease_timeout(),
            final(self).retention_opts() == old(self).retention_opts(),
    {
        let full = self.ack_replicated(subscription, worker, lease_id);
        match full {
            Ok(_ops) => Ok(()),
            Err(e) => Err(e),
        }
    }

    /// Return a lease without exposing the replication operations.
    pub fn nack(&mut self, subscription: &str, worker: WorkerId, lease_id: TopicLeaseId) -> (r: Result<(), TopicError>)
        requires
            old(self).wf(),
        ensures
            final(self).wf(),
            exists|now: u64, full: Result<Vec<TopicReplicateOp>, TopicError>|
                #[trigger] nack_outcome(old(self).model(), subscription@, worker, lease_id.0, now, full, final(self).model()) && r == unit_only(full),
            final(self).lease_timeout() == old(self).lease_timeout(),
            final(self).retention_opts() == old(self).retention_opts(),
    {
        let full = self.nack_replicated(subscription, worker, lease_id);
        match full {
            Ok(_ops) => Ok(()),
            Err(e) => Err(e),
        }
    }
}

} // verus!
