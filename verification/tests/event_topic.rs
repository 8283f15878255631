use crafty::event_topic::{InMemoryEventTopic, TopicReplicateOp};
use crafty::ids::{EventId, NodeId, TopicLeaseId, WorkerId};
use crafty::topic::{SubscriptionStart, TopicError, TopicRetentionOpts, TopicSubscriptionDef};

fn worker(id: u64) -> WorkerId {
    WorkerId { node: NodeId(id), instance: 0 }
}

fn def(name: &str, start: SubscriptionStart, max_attempts: u32) -> TopicSubscriptionDef {
    TopicSubscriptionDef { name: name.into(), start, max_attempts }
}

fn register_three(topic: &mut InMemoryEventTopic) {
    topic
        .register_subscriptions(&[
            def("a", SubscriptionStart::Earliest, 0),
            def("b", SubscriptionStart::Earliest, 0),
            def("c", SubscriptionStart::Earliest, 0),
        ])
        .unwrap();
}

#[test]
fn three_subscriptions_see_all_events() {
    let mut topic = InMemoryEventTopic::new(30_000);
    register_three(&mut topic);
    for i in 0..5 {
        topic.publish(format!("e{i}").as_bytes()).unwrap();
    }
    for sub in ["a", "b", "c"] {
        let mut seen = Vec::new();
        for _ in 0..5 {
            let batch = topic.lease(sub, worker(1), 10).unwrap();
            for ev in batch {
                seen.push(ev.payload);
                topic.ack(sub, worker(1), ev.lease_id).unwrap();
            }
        }
        assert_eq!(seen.len(), 5);
    }
}

#[test]
fn slow_subscription_does_not_block_fast_ones() {
    let mut topic = InMemoryEventTopic::new(30_000);
    register_three(&mut topic);
    topic.publish(b"1").unwrap();
    topic.publish(b"2").unwrap();
    let slow = topic.lease("a", worker(1), 2).unwrap();
    assert_eq!(slow.len(), 2);
    let fast = topic.lease("b", worker(2), 10).unwrap();
    assert_eq!(fast.len(), 2);
    for ev in fast {
        topic.ack("b", worker(2), ev.lease_id).unwrap();
    }
    let metrics = topic.metrics().unwrap();
    let b = metrics.subscriptions.iter().find(|s| s.subscription == "b").unwrap();
    assert_eq!(b.cursor, 2);
    let a = metrics.subscriptions.iter().find(|s| s.subscription == "a").unwrap();
    assert_eq!(a.leased, 2);
}

#[test]
fn late_subscription_starts_at_latest() {
    let mut topic = InMemoryEventTopic::new(30_000);
    topic.register_subscriptions(&[def("early", SubscriptionStart::Earliest, 0)]).unwrap();
    topic.publish(b"before").unwrap();
    let ev = topic.lease("early", worker(1), 1).unwrap();
    topic.ack("early", worker(1), ev[0].lease_id).unwrap();
    topic.register_subscriptions(&[def("late", SubscriptionStart::Latest, 0)]).unwrap();
    topic.publish(b"after").unwrap();
    let late = topic.lease("late", worker(1), 10).unwrap();
    assert_eq!(late.len(), 1);
    assert_eq!(late[0].payload, b"after");
}

#[test]
fn retention_threshold_discards_lagging_subscription() {
    let mut topic =
        InMemoryEventTopic::new(30_000).retention(TopicRetentionOpts { max_event_age_ms: 0, max_retained_events: 1 });
    register_three(&mut topic);
    topic.publish(b"1").unwrap();
    topic.publish(b"2").unwrap();
    let _leased = topic.lease("a", worker(1), 2).unwrap();
    topic.enforce_retention_replicated().unwrap();
    let metrics = topic.metrics().unwrap();
    let a = metrics.subscriptions.iter().find(|s| s.subscription == "a").unwrap();
    assert!(a.retention_discards >= 1);
    assert_eq!(a.cursor, 2);
}

#[test]
fn removing_subscription_advances_compact_head() {
    let mut topic = InMemoryEventTopic::new(30_000);
    register_three(&mut topic);
    topic.publish(b"1").unwrap();
    let ev = topic.lease("a", worker(1), 1).unwrap();
    topic.ack("a", worker(1), ev[0].lease_id).unwrap();
    topic.apply_replicate(&TopicReplicateOp::RemoveSubscription { name: "b".into() }).unwrap();
    topic.apply_replicate(&TopicReplicateOp::RemoveSubscription { name: "c".into() }).unwrap();
    let metrics = topic.metrics().unwrap();
    assert_eq!(metrics.compact_head, 1);
    assert_eq!(metrics.event_count, 0);
}

#[test]
fn replaying_a_publish_changes_nothing() {
    let mut topic = InMemoryEventTopic::new(30_000);
    register_three(&mut topic);
    let op = TopicReplicateOp::Publish { event_id: 1, payload: b"x".to_vec(), published_at_ms: 5, next_event_id: 2 };
    topic.apply_replicate(&op).unwrap();
    let once = topic.metrics_at(10).unwrap();
    topic.apply_replicate(&op).unwrap();
    let twice = topic.metrics_at(10).unwrap();
    assert_eq!(once, twice);
    assert_eq!(twice.event_count, 1);
    assert_eq!(twice.head, 1);
    assert_eq!(twice.oldest_event_age_ms, 5);
    assert!(twice.subscriptions.iter().all(|s| s.pending == 1 && s.lag == 1));
}

#[test]
fn publish_reports_its_operations() {
    let mut topic = InMemoryEventTopic::new(30_000);
    register_three(&mut topic);
    let (id, ops) = topic.publish_replicated_at(b"p", 77).unwrap();
    assert_eq!(id, EventId(1));
    assert_eq!(
        ops,
        vec![TopicReplicateOp::Publish { event_id: 1, payload: b"p".to_vec(), published_at_ms: 77, next_event_id: 2 }]
    );
    let (id2, _) = topic.publish_replicated_at(b"q", 78).unwrap();
    assert_eq!(id2, EventId(2));
}

#[test]
fn lease_reports_grants_and_expiry() {
    let mut topic = InMemoryEventTopic::new(1_000);
    register_three(&mut topic);
    topic.publish_replicated_at(b"p", 0).unwrap();
    let (out, ops) = topic.lease_replicated_at("a", worker(3), 5, 100).unwrap();
    assert_eq!(out.len(), 1);
    assert_eq!(out[0].lease_id, TopicLeaseId(1));
    assert_eq!(out[0].event_id, EventId(1));
    assert_eq!(out[0].attempts, 1);
    assert_eq!(out[0].payload, b"p");
    assert_eq!(
        ops,
        vec![TopicReplicateOp::Lease {
            subscription: "a".into(),
            lease_id: 1,
            event_id: 1,
            worker_node: 3,
            worker_instance: 0,
            expires_at_ms: 1_100,
            next_lease_id: 2,
            attempts: 1,
        }]
    );
}

#[test]
fn expired_lease_is_reclaimed_on_next_publish() {
    let mut topic = InMemoryEventTopic::new(1_000);
    register_three(&mut topic);
    topic.publish_replicated_at(b"p", 0).unwrap();
    topic.lease_replicated_at("a", worker(3), 1, 100).unwrap();
    let (_, ops) = topic.publish_replicated_at(b"q", 5_000).unwrap();
    assert_eq!(
        ops[0],
        TopicReplicateOp::Reclaim { subscription: "a".into(), lease_id: 1, event_id: 1, attempts: 2, dead_letter: false }
    );
    assert!(matches!(ops[1], TopicReplicateOp::Publish { event_id: 2, .. }));
    let m = topic.metrics_at(5_000).unwrap();
    let a = m.subscriptions.iter().find(|s| s.subscription == "a").unwrap();
    assert_eq!(a.leased, 0);
    assert!(a.pending >= 2);
}

#[test]
fn ack_from_another_worker_is_refused() {
    let mut topic = InMemoryEventTopic::new(30_000);
    register_three(&mut topic);
    topic.publish(b"1").unwrap();
    let ev = topic.lease("a", worker(1), 1).unwrap();
    assert_eq!(topic.ack("a", worker(2), ev[0].lease_id), Err(TopicError::InvalidLease));
    assert_eq!(topic.ack("a", worker(1), TopicLeaseId(99)), Err(TopicError::InvalidLease));
    assert_eq!(topic.ack("a", worker(1), ev[0].lease_id), Ok(()));
    let m = topic.metrics().unwrap();
    let a = m.subscriptions.iter().find(|s| s.subscription == "a").unwrap();
    assert_eq!(a.cursor, 1);
    assert_eq!(a.leased, 0);
}

#[test]
fn unknown_subscription_is_reported() {
    let mut topic = InMemoryEventTopic::new(30_000);
    register_three(&mut topic);
    assert_eq!(topic.lease("zz", worker(1), 1), Err(TopicError::SubscriptionNotFound("zz".into())));
    assert_eq!(topic.ack("zz", worker(1), TopicLeaseId(1)), Err(TopicError::SubscriptionNotFound("zz".into())));
    assert_eq!(topic.nack("zz", worker(1), TopicLeaseId(1)), Err(TopicError::SubscriptionNotFound("zz".into())));
    let op = TopicReplicateOp::Ack { subscription: "zz".into(), lease_id: 1, event_id: 1, cursor: 1 };
    assert_eq!(topic.apply_replicate(&op), Err(TopicError::SubscriptionNotFound("zz".into())));
}

#[test]
fn nack_returns_event_to_pending() {
    let mut topic = InMemoryEventTopic::new(30_000);
    register_three(&mut topic);
    topic.publish(b"1").unwrap();
    let ev = topic.lease("a", worker(1), 1).unwrap();
    let ops = topic.nack_replicated_at("a", worker(1), ev[0].lease_id, 0).unwrap();
    assert_eq!(
        ops,
        vec![TopicReplicateOp::Nack { subscription: "a".into(), lease_id: 1, event_id: 1, attempts: 2, dead_letter: false }]
    );
    let again = topic.lease("a", worker(1), 1).unwrap();
    assert_eq!(again.len(), 1);
    assert_eq!(again[0].event_id, EventId(1));
}

#[test]
fn nack_at_ceiling_dead_letters() {
    let mut topic = InMemoryEventTopic::new(30_000);
    topic.register_subscriptions(&[def("d", SubscriptionStart::Earliest, 2)]).unwrap();
    topic.publish(b"1").unwrap();
    let ev = topic.lease("d", worker(1), 1).unwrap();
    let ops = topic.nack_replicated_at("d", worker(1), ev[0].lease_id, 0).unwrap();
    assert_eq!(
        ops,
        vec![TopicReplicateOp::Nack { subscription: "d".into(), lease_id: 1, event_id: 1, attempts: 2, dead_letter: true }]
    );
    assert!(topic.lease("d", worker(1), 5).unwrap().is_empty());
}

#[test]
fn registration_is_idempotent_and_reports_cursors() {
    let mut topic = InMemoryEventTopic::new(30_000);
    topic.publish(b"1").unwrap();
    let ops = topic
        .register_subscriptions(&[def("e", SubscriptionStart::Earliest, 3), def("l", SubscriptionStart::Latest, 0)])
        .unwrap();
    assert_eq!(
        ops,
        vec![
            TopicReplicateOp::RegisterSubscription { name: "e".into(), cursor: 0, max_attempts: 3 },
            TopicReplicateOp::RegisterSubscription { name: "l".into(), cursor: 1, max_attempts: 0 },
        ]
    );
    topic.register_subscriptions(&[def("e", SubscriptionStart::Latest, 0)]).unwrap();
    let m = topic.metrics().unwrap();
    assert_eq!(m.subscriptions.len(), 2);
    assert_eq!(m.subscriptions[0].pending, 1);
    assert_eq!(m.subscriptions[1].pending, 0);
    assert_eq!(m.subscriptions[1].lag, 0);
}

#[test]
fn replayed_nack_and_discard_change_nothing() {
    let mut topic = InMemoryEventTopic::new(30_000);
    register_three(&mut topic);
    topic.publish_replicated_at(b"1", 0).unwrap();
    let (ev, _) = topic.lease_replicated_at("a", worker(1), 1, 0).unwrap();
    let ops = topic.nack_replicated_at("a", worker(1), ev[0].lease_id, 0).unwrap();
    let once = topic.metrics_at(0).unwrap();
    topic.apply_replicate(&ops[0]).unwrap();
    assert_eq!(topic.metrics_at(0).unwrap(), once);
    let a = once.subscriptions.iter().find(|s| s.subscription == "a").unwrap();
    assert_eq!(a.pending, 1);

    let discard = TopicReplicateOp::RetentionDiscard { subscription: "b".into(), cursor: 1, discarded: 1 };
    topic.apply_replicate(&discard).unwrap();
    let after = topic.metrics_at(0).unwrap();
    topic.apply_replicate(&discard).unwrap();
    assert_eq!(topic.metrics_at(0).unwrap(), after);
    let b = after.subscriptions.iter().find(|s| s.subscription == "b").unwrap();
    assert_eq!(b.retention_discards, 1);
    assert_eq!(b.cursor, 1);
}
