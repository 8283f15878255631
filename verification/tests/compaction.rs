use crafty::compaction::{entry_estimated_bytes, EntryPayload, LogEntry};
use crafty::compaction::{should_compact, CompactionPolicy, CompactionStats, DEFAULT_COMPACT_BYTES, DEFAULT_COMPACT_ENTRIES};
use crafty::ids::LogIndex;

#[test]
fn entry_threshold_triggers() {
    let policy = CompactionPolicy::entries(3);
    assert!(should_compact(
        &policy,
        &CompactionStats {
            snapshot_index: LogIndex(0),
            last_applied: LogIndex(3),
            compactable_entries: 3,
            compactable_bytes: 0,
        }
    ));
    assert!(!should_compact(
        &policy,
        &CompactionStats {
            snapshot_index: LogIndex(0),
            last_applied: LogIndex(2),
            compactable_entries: 2,
            compactable_bytes: 0,
        }
    ));
}

#[test]
fn byte_threshold_triggers() {
    let policy = CompactionPolicy {
        max_entries: None,
        max_bytes: Some(100),
    };
    assert!(should_compact(
        &policy,
        &CompactionStats {
            snapshot_index: LogIndex(1),
            last_applied: LogIndex(2),
            compactable_entries: 1,
            compactable_bytes: 100,
        }
    ));
}

#[test]
fn disabled_policy_never_compacts_even_a_large_log() {
    let stats = CompactionStats {
        snapshot_index: LogIndex(0),
        last_applied: LogIndex(5000),
        compactable_entries: 5000,
        compactable_bytes: u64::MAX,
    };
    assert!(CompactionPolicy::disabled().is_disabled());
    assert!(!should_compact(&CompactionPolicy::disabled(), &stats));
}

#[test]
fn nothing_compactable_never_triggers() {
    let stats = CompactionStats {
        snapshot_index: LogIndex(7),
        last_applied: LogIndex(7),
        compactable_entries: 0,
        compactable_bytes: 1 << 30,
    };
    assert!(!should_compact(&CompactionPolicy::entries(0), &stats));
    assert!(!should_compact(&CompactionPolicy::default(), &stats));
}

#[test]
fn default_policy_uses_both_thresholds() {
    let p = CompactionPolicy::default_auto();
    assert_eq!(p, CompactionPolicy::default());
    assert_eq!(p.max_entries, Some(DEFAULT_COMPACT_ENTRIES));
    assert_eq!(p.max_bytes, Some(4 * 1024 * 1024));
    assert_eq!(DEFAULT_COMPACT_BYTES, 4 * 1024 * 1024);
    let below = CompactionStats {
        snapshot_index: LogIndex(0),
        last_applied: LogIndex(1023),
        compactable_entries: 1023,
        compactable_bytes: 4 * 1024 * 1024 - 1,
    };
    assert!(!should_compact(&p, &below));
    let bytes_hit = CompactionStats { compactable_bytes: 4 * 1024 * 1024, ..below };
    assert!(should_compact(&p, &bytes_hit));
    let entries_hit = CompactionStats { compactable_entries: 1024, ..below };
    assert!(should_compact(&p, &entries_hit));
}

#[test]
fn entry_size_estimate_adds_fixed_header_to_payload() {
    let e = |payload| LogEntry { term: 1, index: LogIndex(1), payload };
    assert_eq!(entry_estimated_bytes(&e(EntryPayload::Noop)), 17);
    assert_eq!(entry_estimated_bytes(&e(EntryPayload::Command { len: 10 })), 26);
    assert_eq!(
        entry_estimated_bytes(&e(EntryPayload::Membership { voters: 3, voters_outgoing: 1, learners: 1 })),
        16 + 40 + 8
    );
    assert_eq!(entry_estimated_bytes(&e(EntryPayload::Catalog { new_groups: 2 })), 16 + 16);
    assert_eq!(
        entry_estimated_bytes(&e(EntryPayload::TwoPhasePrepare { tx_id: 4, route_key: 2, command: 6 })),
        16 + 44
    );
    assert_eq!(
        entry_estimated_bytes(&e(EntryPayload::QueueAutoscalePolicy { stream: 5, worker_group: Some(3), membership: true })),
        16 + 5 + 35 + 32 + 16
    );
    assert_eq!(
        entry_estimated_bytes(&e(EntryPayload::QueueAutoscalePolicy { stream: 5, worker_group: None, membership: false })),
        16 + 21
    );
}
