//! Automatic log compaction policy: when the applied prefix of the log should be
//! folded into a snapshot.
use vstd::prelude::*;

use crate::ids::LogIndex;

verus! {

/// Default retained applied entries before auto-compaction.
pub const DEFAULT_COMPACT_ENTRIES: u64 = 1024;

/// Default retained applied log bytes before auto-compaction (4 MiB).
pub const DEFAULT_COMPACT_BYTES: u64 = 4194304;

/// When the runtime should automatically compact the Raft log.
#[derive(Debug, Clone, Copy, PartialEq, Eq, Structural)]
pub struct CompactionPolicy {
    /// Compact when applied entries since the last snapshot reach this count.
    /// `None` disables the entry threshold.
    pub max_entries: Option<u64>,
    /// Compact when applied log bytes since the last snapshot reach this size.
    /// `None` disables the byte threshold.
    pub max_bytes: Option<u64>,
}

impl CompactionPolicy {
    /// Disable automatic compaction (manual compaction remains available).
    pub fn disabled() -> (p: Self)
        ensures
            p.max_entries is None,
            p.max_bytes is None,
    {
        CompactionPolicy { max_entries: None, max_bytes: None }
    }

    /// Entry and byte thresholds with the defaults.
    pub fn default_auto() -> (p: Self)
        ensures
            p.max_entries == Some(DEFAULT_COMPACT_ENTRIES),
            p.max_bytes == Some(DEFAULT_COMPACT_BYTES),
    {
        CompactionPolicy { max_entries: Some(DEFAULT_COMPACT_ENTRIES), max_bytes: Some(DEFAULT_COMPACT_BYTES) }
    }

    /// Compact after `entries` applied log entries beyond the snapshot boundary.
    pub fn entries(entries: u64) -> (p: Self)
        ensures
            p.max_entries == Some(entries),
            p.max_bytes is None,
    {
        CompactionPolicy { max_entries: Some(entries), max_bytes: None }
    }

    /// Whether every threshold is unset.
    pub fn is_disabled(&self) -> (r: bool)
        ensures
            r == (self.max_entries is None && self.max_bytes is None),
    {
        self.max_entries.is_none() && self.max_bytes.is_none()
    }
}

impl Default for CompactionPolicy {
    fn default() -> (p: Self)
        ensures
            p.max_entries == Some(DEFAULT_COMPACT_ENTRIES),
            p.max_bytes == Some(DEFAULT_COMPACT_BYTES),
    {
        CompactionPolicy::default_auto()
    }
}

/// Observed log retention relative to the last snapshot.
#[derive(Debug, Clone, Copy, PartialEq, Eq, Structural)]
pub struct CompactionStats {
    /// Highest index covered by the current snapshot (0 if none).
    pub snapshot_index: LogIndex,
    /// Highest index applied to the state machine.
    pub last_applied: LogIndex,
    /// Applied entries not yet compacted (`last_applied - snapshot_index`).
    pub compactable_entries: u64,
    /// Estimated byte size of the compactable prefix.
    pub compactable_bytes: u64,
}

/// A threshold that is set and reached.
pub open spec fn threshold_reached(limit: Option<u64>, value: u64) -> bool {
    limit matches Some(l) && value >= l
}

/// Compaction is due: something is compactable and a configured threshold is reached.
pub open spec fn compaction_due(policy: CompactionPolicy, stats: CompactionStats) -> bool {
    stats.compactable_entries > 0 && (threshold_reached(policy.max_entries, stats.compactable_entries)
        || threshold_reached(policy.max_bytes, stats.compactable_bytes))
}

/// Whether `policy` says the runtime should compact now: whichever configured
/// threshold is reached first, and never with nothing to compact.
pub fn should_compact(policy: &CompactionPolicy, stats: &CompactionStats) -> (r: bool)
    ensures
        r == compaction_due(*policy, *stats),
{
    if policy.is_disabled() || stats.compactable_entries == 0 {
        return false;
    }
    if let Some(limit) = policy.max_entries {
        if stats.compactable_entries >= limit {
            return true;
        }
    }
    match policy.max_bytes {
        Some(limit) => stats.compactable_bytes >= limit,
        None => false,
    }
}

/// What the size estimate reads of a log entry's payload: the kind of payload
/// and the lengths of its parts.
#[derive(Debug, Clone, Copy, PartialEq, Eq, Structural)]
pub enum EntryPayload {
    /// Leader no-op.
    Noop,
    /// Opaque state-machine command of `len` bytes.
    Command { len: usize },
    /// Membership change with the sizes of its three node lists.
    Membership { voters: usize, voters_outgoing: usize, learners: usize },
    /// Catalog change adding `new_groups` groups.
    Catalog { new_groups: usize },
    /// Saga journal record of `record` bytes.
    SagaJournal { record: usize },
    /// Two-phase prepare with the lengths of its transaction id, route key and command.
    TwoPhasePrepare { tx_id: usize, route_key: usize, command: usize },
    /// Two-phase abort with the lengths of its transaction id and route key.
    TwoPhaseAbort { tx_id: usize, route_key: usize },
    /// Two-phase journal record of `record` bytes.
    TwoPhaseJournal { record: usize },
    /// Autoscale policy for a stream name of `stream` bytes, with the worker
    /// group name's length when a worker policy is set, and whether a
    /// membership policy is set.
    QueueAutoscalePolicy { stream: usize, worker_group: Option<usize>, membership: bool },
}

/// One replicated log entry, as the size estimate sees it.
#[derive(Debug, Clone, Copy, PartialEq, Eq, Structural)]
pub struct LogEntry {
    pub term: u64,
    pub index: LogIndex,
    pub payload: EntryPayload,
}

/// Bytes a payload adds to an entry's fixed header.
pub open spec fn payload_estimate(p: EntryPayload) -> int {
    match p {
        EntryPayload::Noop => 1,
        EntryPayload::Command { len } => len as int,
        EntryPayload::Membership { voters, voters_outgoing, learners } => (voters + voters_outgoing + learners) * 8 + 8,
        EntryPayload::Catalog { new_groups } => new_groups * 4 + 8,
        EntryPayload::SagaJournal { record } => record + 32,
        EntryPayload::TwoPhasePrepare { tx_id, route_key, command } => tx_id + route_key + command + 32,
        EntryPayload::TwoPhaseAbort { tx_id, route_key } => tx_id + route_key + 32,
        EntryPayload::TwoPhaseJournal { record } => record + 32,
        EntryPayload::QueueAutoscalePolicy { stream, worker_group, membership } => stream + (match worker_group {
            Some(w) => w + 32,
            None => 0int,
        }) + (if membership { 32int } else { 0int }) + 16,
    }
}

/// Rough on-disk size of an entry: 16 bytes of term and index plus its payload.
pub open spec fn entry_estimate(entry: LogEntry) -> int {
    16 + payload_estimate(entry.payload)
}

/// The estimate can be computed: a membership entry's node count times 8 fits
/// in `usize`, and the estimate fits in `u64`.
pub open spec fn estimate_fits(entry: LogEntry) -> bool {
    &&& entry.payload matches EntryPayload::Membership { voters, voters_outgoing, learners }
        ==> (voters + voters_outgoing + learners) * 8 <= usize::MAX
    &&& entry_estimate(entry) <= u64::MAX
}

/// Rough on-disk size of one log entry for byte-threshold policy.
pub fn entry_estimated_bytes(entry: &LogEntry) -> (n: u64)
    requires
        estimate_fits(*entry),
    ensures
        n as int == entry_estimate(*entry),
{
    let fixed: u64 = 16;
    let payload: u64 = match entry.payload {
        EntryPayload::Noop => 1,
        EntryPayload::Command { len } => len as u64,
        EntryPayload::Membership { voters, voters_outgoing, learners } => ((voters + voters_outgoing + learners) * 8) as u64 + 8,
        EntryPayload::Catalog { new_groups } => new_groups as u64 * 4 + 8,
        EntryPayload::SagaJournal { record } => record as u64 + 32,
        EntryPayload::TwoPhasePrepare { tx_id, route_key, command } => tx_id as u64 + route_key as u64 + command as u64 + 32,
        EntryPayload::TwoPhaseAbort { tx_id, route_key } => tx_id as u64 + route_key as u64 + 32,
        EntryPayload::TwoPhaseJournal { record } => record as u64 + 32,
        EntryPayload::QueueAutoscalePolicy { stream, worker_group, membership } => {
            let w: u64 = match worker_group {
                Some(g) => g as u64 + 32,
                None => 0,
            };
            let m: u64 = if membership { 32 } else { 0 };
            stream as u64 + w + m + 16
        },
    };
    fixed + payload
}

/// A disabled policy never asks for compaction, whatever the log holds.
pub proof fn law_disabled_policy_never_compacts(stats: CompactionStats)
    ensures
        !compaction_due(CompactionPolicy { max_entries: None, max_bytes: None }, stats),
{
}

/// Growing the log never turns a due compaction off: more entries and more bytes
/// keep every reached threshold reached.
pub proof fn law_compaction_due_is_monotone(policy: CompactionPolicy, a: CompactionStats, b: CompactionStats)
    requires
        compaction_due(policy, a),
        a.compactable_entries <= b.compactable_entries,
        a.compactable_bytes <= b.compactable_bytes,
    ensures
        compaction_due(policy, b),
{
}

} // verus!
