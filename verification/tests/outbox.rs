use crafty::outbox::{
    push_backlog_settle, BacklogSettleEvent, BacklogSettleOutbox, BacklogSettleOutboxError, BacklogSettleOutboxId,
    BacklogSettleOutboxOpts, BacklogSettleOutcome, InMemoryBacklogSettleOutbox,
};

#[test]
fn in_memory_upserts_same_dedup_key() {
    let mut outbox = InMemoryBacklogSettleOutbox::new();
    outbox
        .push(BacklogSettleEvent {
            stream: "imports".into(),
            dedup_key: Some(b"k1".to_vec()),
            outcome: BacklogSettleOutcome::Failed {
                attempts: 1,
                error: "nack".into(),
            },
        })
        .unwrap();
    outbox
        .push(BacklogSettleEvent {
            stream: "imports".into(),
            dedup_key: Some(b"k1".to_vec()),
            outcome: BacklogSettleOutcome::Done,
        })
        .unwrap();
    assert_eq!(outbox.pending_count().unwrap(), 1);
    let pending = outbox.list_pending(8).unwrap();
    assert_eq!(pending.len(), 1);
    assert_eq!(pending[0].1.outcome, BacklogSettleOutcome::Done);
}

fn ev(stream: &str, key: &[u8]) -> BacklogSettleEvent {
    BacklogSettleEvent { stream: stream.into(), dedup_key: Some(key.to_vec()), outcome: BacklogSettleOutcome::Done }
}

#[test]
fn rows_list_in_insertion_order_and_remove_by_id() {
    let mut outbox = InMemoryBacklogSettleOutbox::new();
    let a = outbox.push(ev("s", b"a")).unwrap();
    let b = outbox.push(ev("s", b"b")).unwrap();
    let c = outbox.push(ev("t", b"a")).unwrap();
    assert_eq!((a, b, c), (BacklogSettleOutboxId(0), BacklogSettleOutboxId(1), BacklogSettleOutboxId(2)));
    let two = outbox.list_pending(2).unwrap();
    assert_eq!(two.iter().map(|r| r.0).collect::<Vec<_>>(), vec![a, b]);
    // replacing "a" moves it to the end under a new id
    let a2 = outbox.push(ev("s", b"a")).unwrap();
    assert_eq!(a2, BacklogSettleOutboxId(3));
    let all = outbox.list_pending(10).unwrap();
    assert_eq!(all.iter().map(|r| r.0).collect::<Vec<_>>(), vec![b, c, a2]);
    outbox.remove(b).unwrap();
    outbox.remove(BacklogSettleOutboxId(99)).unwrap();
    assert_eq!(outbox.pending_count().unwrap(), 2);
}

#[test]
fn event_without_dedup_key_is_refused() {
    let mut outbox = InMemoryBacklogSettleOutbox::new();
    let r = outbox.push(BacklogSettleEvent { stream: "s".into(), dedup_key: None, outcome: BacklogSettleOutcome::Done });
    assert!(matches!(r, Err(BacklogSettleOutboxError::Backend(_))));
    assert_eq!(outbox.pending_count().unwrap(), 0);
}

#[test]
fn push_helper_skips_missing_key_or_outbox() {
    let mut outbox = InMemoryBacklogSettleOutbox::new();
    push_backlog_settle(
        Some(&mut outbox),
        BacklogSettleEvent { stream: "s".into(), dedup_key: None, outcome: BacklogSettleOutcome::Done },
    );
    assert_eq!(BacklogSettleOutbox::pending_count(&outbox).unwrap(), 0);
    push_backlog_settle::<InMemoryBacklogSettleOutbox>(None, ev("s", b"k"));
    push_backlog_settle(Some(&mut outbox), ev("s", b"k"));
    assert_eq!(BacklogSettleOutbox::pending_count(&outbox).unwrap(), 1);
    let rows = BacklogSettleOutbox::list_pending(&outbox, 8).unwrap();
    assert_eq!(rows[0].0, BacklogSettleOutboxId(0));
}

#[test]
fn composite_key_includes_stream() {
    let mut outbox = InMemoryBacklogSettleOutbox::new();
    outbox.push(ev("a", b"k")).unwrap();
    outbox.push(ev("b", b"k")).unwrap();
    assert_eq!(outbox.pending_count().unwrap(), 2);
}

#[test]
fn opts_builders() {
    let o = BacklogSettleOutboxOpts::default();
    assert_eq!(o, BacklogSettleOutboxOpts { poll_interval_ms: 500, max_batch: 64 });
    let o = o.poll(20).max_batch(0);
    assert_eq!(o, BacklogSettleOutboxOpts { poll_interval_ms: 20, max_batch: 1 });
}

#[test]
fn list_pending_gives_the_oldest_rows_first() {
    let mut outbox = InMemoryBacklogSettleOutbox::new();
    outbox.push(ev("s", b"a")).unwrap();
    outbox.push(ev("s", b"b")).unwrap();
    outbox.push(ev("s", b"c")).unwrap();
    outbox.push(ev("s", b"a")).unwrap();
    let rows = outbox.list_pending(2).unwrap();
    assert_eq!(rows.len(), 2);
    assert_eq!(rows[0].0, BacklogSettleOutboxId(1));
    assert_eq!(rows[1].0, BacklogSettleOutboxId(2));
}
