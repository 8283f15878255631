//! Durable pub/sub vocabulary: leased events, subscription declarations,
//! gauges, retention limits and the delivery context handed to subscribers.
use vstd::prelude::*;

use crate::ids::{EventId, TopicLeaseId};
use crate::queue::{AttemptOutcome, after_failed_attempt, failed_attempt_spec, sat_add_u32, unix_now_ms};

verus! {

/// An event handed to a subscriber under lease.
#[derive(Debug, Clone, PartialEq, Eq)]
pub struct LeasedEvent {
    /// Token required for ack/nack.
    pub lease_id: TopicLeaseId,
    /// Event id within the topic log.
    pub event_id: EventId,
    /// Opaque payload from publish.
    pub payload: Vec<u8>,
    /// Delivery attempts including this one (`1` on first delivery).
    pub attempts: u32,
}

/// Where a subscription starts reading when registered after events exist.
#[derive(Debug, Clone, Copy, PartialEq, Eq, Structural)]
pub enum SubscriptionStart {
    /// From the first retained event (fan out the backlog).
    Earliest,
    /// Only events published after registration.
    Latest,
}

impl Default for SubscriptionStart {
    fn default() -> (s: Self)
        ensures
            s == SubscriptionStart::Latest,
    {
        SubscriptionStart::Latest
    }
}

/// Initial cursor of a new subscription: `0` from the earliest event, the log
/// head for only later events.
pub fn start_cursor(start: SubscriptionStart, head: u64) -> (c: u64)
    ensures
        c == (match start {
            SubscriptionStart::Earliest => 0,
            SubscriptionStart::Latest => head,
        }),
{
    match start {
        SubscriptionStart::Earliest => 0,
        SubscriptionStart::Latest => head,
    }
}

/// Boot-time subscription declaration.
#[derive(Debug, Clone, PartialEq, Eq)]
pub struct TopicSubscriptionDef {
    /// Stable subscription name within the topic.
    pub name: String,
    /// Initial cursor when the subscription is first seen.
    pub start: SubscriptionStart,
    /// Retry ceiling (`0` = unlimited).
    pub max_attempts: u32,
}

/// Per-subscription gauges in [`TopicMetrics`].
#[derive(Debug, Clone, PartialEq, Eq)]
pub struct TopicSubscriptionMetrics {
    /// Subscription name.
    pub subscription: String,
    /// Committed cursor (last acknowledged event id).
    pub cursor: u64,
    /// Events behind log head (`head - cursor`, at least 0).
    pub lag: u64,
    /// Ready but not yet leased.
    pub pending: u64,
    /// Currently leased to workers.
    pub leased: u64,
    /// Events discarded by retention for this subscription.
    pub retention_discards: u64,
}

/// Events a subscription is behind the log head.
pub fn subscription_lag(head: u64, cursor: u64) -> (lag: u64)
    ensures
        lag == (if head >= cursor { head - cursor } else { 0 }),
{
    if head >= cursor {
        head - cursor
    } else {
        0
    }
}

/// Topic depth and lag gauges.
#[derive(Debug, Clone, PartialEq, Eq)]
pub struct TopicMetrics {
    /// Retained events in the log.
    pub event_count: u64,
    /// Log head (last assigned event id, `0` when empty).
    pub head: u64,
    /// Compaction floor — events at or below this id are removed.
    pub compact_head: u64,
    /// Age of the oldest retained event, in milliseconds.
    pub oldest_event_age_ms: u64,
    /// Per-subscription lag and counters.
    pub subscriptions: Vec<TopicSubscriptionMetrics>,
}

/// Retention limits; exceeding them force-advances a lagging subscription cursor.
#[derive(Debug, Clone, Copy, PartialEq, Eq, Structural)]
pub struct TopicRetentionOpts {
    /// Maximum age of the oldest retained event before forced discard, in milliseconds.
    pub max_event_age_ms: u64,
    /// Maximum events retained in the log.
    pub max_retained_events: u64,
}

/// What a topic subscriber knows about the delivery it is handling.
#[derive(Debug, Clone, PartialEq, Eq)]
pub struct TopicContext<'a> {
    /// Event id within the topic.
    pub event_id: EventId,
    /// Lease token backing this delivery.
    pub lease_id: TopicLeaseId,
    /// Topic name.
    pub topic: &'a str,
    /// Named subscription within the topic.
    pub subscription: &'a str,
    /// Delivery attempts including this one.
    pub attempts: u32,
}

impl<'a> TopicContext<'a> {
    /// Build a delivery context for tests and manual handler invocation.
    pub fn new(event_id: EventId, lease_id: TopicLeaseId, topic: &'a str, subscription: &'a str, attempts: u32) -> (c: TopicContext<'a>)
        ensures
            c.event_id == event_id,
            c.lease_id == lease_id,
            c.topic == topic,
            c.subscription == subscription,
            c.attempts == attempts,
    {
        TopicContext { event_id, lease_id, topic, subscription, attempts }
    }

    /// `true` when this is not the first delivery of the event on this subscription.
    pub fn is_redelivery(&self) -> (r: bool)
        ensures
            r == (self.attempts > 1),
    {
        self.attempts > 1
    }
}

/// Errors from topic operations.
#[derive(Debug, Clone, PartialEq, Eq)]
pub enum TopicError {
    /// Unknown topic.
    NotFound(String),
    /// Unknown subscription within a topic.
    SubscriptionNotFound(String),
    /// Lease expired or belongs to another worker.
    InvalidLease,
    /// Storage or wire failure.
    Backend(String),
    /// Encode/decode failure.
    Codec(String),
    /// Caller is not the Raft leader.
    NotLeader,
}

/// Charge one failed delivery at `now_ms`: the new attempt count and whether the
/// event goes to the dead letter.
pub fn failed_delivery_at(attempts: u32, max_attempts: u32, now_ms: u64) -> (r: (u32, bool))
    ensures
        r.0 == failed_attempt_spec(attempts, max_attempts, now_ms).attempts,
        r.1 == failed_attempt_spec(attempts, max_attempts, now_ms).dead_letter,
{
    let o: AttemptOutcome = after_failed_attempt(attempts, max_attempts, now_ms);
    (o.attempts, o.dead_letter)
}

/// Charge one failed delivery now. The outcome does not depend on the clock:
/// the attempt count goes up by one (saturating) and the event is dead-lettered
/// exactly when a retry ceiling is set and reached.
pub fn failed_delivery(attempts: u32, max_attempts: u32) -> (r: (u32, bool))
    ensures
        r.0 == sat_add_u32(attempts, 1),
        r.1 == (max_attempts > 0 && sat_add_u32(attempts, 1) >= max_attempts),
{
    failed_delivery_at(attempts, max_attempts, unix_now_ms())
}

} // verus!
