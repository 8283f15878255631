//! Point-in-time snapshots the admin server renders for readiness and
//! introspection endpoints.
use vstd::prelude::*;

verus! {

/// Readiness snapshot for `GET /ready`: `200` iff [`Readiness::is_ready`].
#[derive(Debug, Clone, PartialEq, Eq)]
pub struct Readiness {
    /// This node's id.
    pub node_id: u64,
    /// Current role (`leader`/`follower`/`candidate`/…).
    pub role: String,
    /// Whether the node is a member of the current Raft configuration.
    pub member: bool,
    /// Whether the node is draining/leaving.
    pub draining: bool,
    /// Auto-spawned workers currently hosted.
    pub workers: Vec<String>,
    /// Human-readable reason when not ready (e.g. `"joining"`).
    pub reason: Option<String>,
}

impl Readiness {
    /// A node is ready when it is a cluster member and not draining.
    pub fn is_ready(&self) -> (r: bool)
        ensures
            r == (self.member && !self.draining),
    {
        self.member && !self.draining
    }
}

/// One node's summary within a [`ClusterView`].
#[derive(Debug, Clone, PartialEq, Eq)]
pub struct NodeSummary {
    /// Node id.
    pub id: u64,
    /// Role as seen by the responder.
    pub role: String,
    /// Whether it is a voting member.
    pub member: bool,
}

/// Cluster-wide view for `GET /introspect/cluster`.
#[derive(Debug, Clone, PartialEq, Eq)]
pub struct ClusterView {
    /// Current best-known leader.
    pub leader: Option<u64>,
    /// Current term.
    pub term: u64,
    /// Highest committed index.
    pub commit_index: u64,
    /// Known nodes and their roles.
    pub nodes: Vec<NodeSummary>,
}

/// Per-node view for `GET /introspect/node/{id}`.
#[derive(Debug, Clone, PartialEq, Eq)]
pub struct NodeView {
    /// Node id.
    pub id: u64,
    /// Worker pools hosted here.
    pub workers: Vec<String>,
    /// Logical CPU/parallelism available.
    pub cpus: u32,
    /// Whether the external actor-state store is reachable.
    pub store_healthy: bool,
}

/// One multi-Raft group's consensus snapshot.
#[derive(Debug, Clone, PartialEq, Eq)]
pub struct RaftGroupSummary {
    /// Raft group id (shard coordinator index).
    pub group_id: u32,
    /// Role on this node for the group.
    pub role: String,
    /// Current leader node id, if known.
    pub leader: Option<u64>,
    /// Current term.
    pub term: u64,
    /// Highest committed index.
    pub commit_index: u64,
    /// Voting members.
    pub voters: Vec<u64>,
    /// Learner members (non-voting replicas).
    pub learners: Vec<u64>,
    /// Whether this node hosts the group's Raft runtime.
    pub hosted_on_this_node: bool,
}

/// Multi-Raft routing and per-group status for `GET /introspect/raft-groups`.
#[derive(Debug, Clone, PartialEq, Eq)]
pub struct RaftGroupsView {
    /// Active virtual shard count (may grow via expansion).
    pub shard_count: u32,
    /// Keyed routing mode: `modulus` or `stable_virtual`.
    pub shard_routing: String,
    /// Number of catalogued Raft groups.
    pub catalog_size: u32,
    /// Monotonic catalog generation (bumps on each committed expansion).
    pub catalog_version: u32,
    /// Target voter replication factor per group.
    pub replication_factor: u32,
    /// Target learner replicas per group.
    pub learner_factor: u32,
    /// Group ids hosted on this node.
    pub hosted_groups: Vec<u32>,
    /// Per-group snapshots for groups hosted here.
    pub groups: Vec<RaftGroupSummary>,
}

/// One job stream's depth gauges for `GET /introspect/queues`.
#[derive(Debug, Clone, PartialEq, Eq)]
pub struct QueueStreamView {
    /// Stream name (e.g. `jobs`).
    pub stream: String,
    /// Jobs eligible to lease now.
    pub pending: u64,
    /// Jobs currently leased.
    pub leased: u64,
    /// Jobs in dead letter.
    pub dead_letter: u64,
    /// Age of the oldest ready pending job in milliseconds.
    pub oldest_pending_age_ms: u64,
    /// Jobs that have already failed an attempt and will be delivered again.
    pub redelivered: u64,
}

/// All registered job streams on this node.
#[derive(Debug, Clone, PartialEq, Eq)]
pub struct QueuesView {
    /// Per-stream queue depth.
    pub streams: Vec<QueueStreamView>,
}

/// One saga journal record for `GET /introspect/sagas`.
#[derive(Debug, Clone, PartialEq, Eq)]
pub struct SagaRecordView {
    /// Saga id (hex-encoded bytes).
    pub saga_id: String,
    /// Latest phase (`running`, `completed`, `compensating`, `compensated`, `stuck`).
    pub phase: String,
    /// Forward steps committed so far.
    pub completed_steps: u32,
    /// Catalog version pinned at start, if any.
    pub catalog_version: Option<u32>,
    /// Forward step that failed before compensation (if any).
    pub failed_step: Option<u32>,
    /// Compensate step index that failed when phase is `stuck`.
    pub compensate_failed_at: Option<u32>,
}

} // verus!
