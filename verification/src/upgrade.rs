//! Rolling-upgrade state machine: the replicated record of which build the
//! fleet should run, which node holds the single upgrade slot, and which nodes
//! are done; plus the planner that picks the next node (leader last, lowest id
//! first).
use vstd::prelude::*;

use crate::ids::{LogIndex, NodeId};
use crate::nodes::{NodeMap, NodeSet};

verus! {

/// Target artifact published by ops.
#[derive(Clone, Debug, PartialEq, Eq)]
pub struct ArtifactManifest {
    /// Application semver after restart.
    pub app_version: String,
    /// Download URL (`https://…` or `file://…` for local demos).
    pub url: String,
    /// SHA-256 of the artifact bytes (hex-encoded).
    pub sha256_hex: String,
    /// Optional lower bound for protocol compatibility.
    pub min_protocol: Option<u32>,
}

impl ArtifactManifest {
    /// A field-by-field copy.
    pub fn duplicate(&self) -> (c: Self)
        ensures
            c == *self,
    {
        ArtifactManifest {
            app_version: self.app_version.clone(),
            url: self.url.clone(),
            sha256_hex: self.sha256_hex.clone(),
            min_protocol: self.min_protocol,
        }
    }
}

/// Executor / coordinator lifecycle phases.
#[derive(Clone, Debug, PartialEq, Eq)]
pub enum UpgradePhase {
    /// Download in progress.
    Downloading,
    /// Artifact verified and installed on disk; restart pending.
    Installed,
    /// Process is shutting down for restart.
    Restarting,
    /// Post-boot: running build matches desired.
    Ready,
    /// Unrecoverable error on this node.
    Failed {
        /// Error summary.
        message: String,
    },
}

impl UpgradePhase {
    /// Whether the phase is terminal for the current grant slot.
    pub fn is_terminal(&self) -> (r: bool)
        ensures
            r == (*self is Ready || *self is Failed),
    {
        match self {
            UpgradePhase::Ready => true,
            UpgradePhase::Failed { .. } => true,
            _ => false,
        }
    }

    /// A copy of the phase.
    pub fn duplicate(&self) -> (c: Self)
        ensures
            c == *self,
    {
        match self {
            UpgradePhase::Downloading => UpgradePhase::Downloading,
            UpgradePhase::Installed => UpgradePhase::Installed,
            UpgradePhase::Restarting => UpgradePhase::Restarting,
            UpgradePhase::Ready => UpgradePhase::Ready,
            UpgradePhase::Failed { message } => UpgradePhase::Failed { message: message.clone() },
        }
    }
}

/// Replicated upgrade commands.
#[derive(Clone, Debug, PartialEq, Eq)]
pub enum UpgradeCommand {
    /// Begin or replace the desired rolling target.
    SetDesired(ArtifactManifest),
    /// Leader assigns the next node (one slot at a time).
    Grant {
        /// Node that may download, install, and restart.
        node_id: NodeId,
    },
    /// Executor lifecycle report from any member.
    Report {
        /// Reporting node.
        node_id: NodeId,
        /// Current phase on that node.
        phase: UpgradePhase,
    },
    /// Abort the rolling upgrade.
    Abort {
        /// Human-readable reason.
        reason: String,
    },
}

/// Read side of the upgrade machine.
#[derive(Clone, Debug, PartialEq, Eq)]
pub enum UpgradeQuery {
    /// Fleet rolling snapshot for coordinator ticks and admin HTTP.
    View {
        /// Committed voter set used to compute `pending`.
        members: Vec<NodeId>,
    },
}

/// Errors from the upgrade machine.
#[derive(Debug, Clone, Copy, PartialEq, Eq, Structural)]
pub enum UpgradeError {
    /// No rolling target configured.
    NoDesired,
    /// Grant rejected (unknown node, duplicate slot, …).
    InvalidGrant,
    /// Rolling aborted.
    Aborted,
    /// Snapshot encode/decode failed.
    Snapshot,
}

impl UpgradeError {
    /// The error's display text.
    pub fn message(&self) -> (s: String)
        ensures
            s@ == (match *self {
                UpgradeError::NoDesired => "no desired upgrade"@,
                UpgradeError::InvalidGrant => "invalid grant"@,
                UpgradeError::Aborted => "upgrade aborted"@,
                UpgradeError::Snapshot => "upgrade snapshot error"@,
            }),
    {
        match self {
            UpgradeError::NoDesired => String::from_str("no desired upgrade"),
            UpgradeError::InvalidGrant => String::from_str("invalid grant"),
            UpgradeError::Aborted => String::from_str("upgrade aborted"),
            UpgradeError::Snapshot => String::from_str("upgrade snapshot error"),
        }
    }
}

/// Durable rolling-upgrade state replicated through Raft.
#[derive(Debug, PartialEq, Eq)]
pub struct UpgradeState {
    /// Active target, if any.
    pub desired: Option<ArtifactManifest>,
    /// Node currently holding the grant slot.
    pub granted: Option<NodeId>,
    /// Nodes that reported `Ready` for the current target.
    pub completed: NodeSet,
    /// Last phase each node reported.
    pub last_report: NodeMap<UpgradePhase>,
    /// Abort reason when set.
    pub aborted: Option<String>,
}

/// Abstract rolling-upgrade state.
pub struct UpgradeModel {
    pub desired: Option<ArtifactManifest>,
    pub granted: Option<NodeId>,
    pub completed: Set<NodeId>,
    pub reports: Map<NodeId, UpgradePhase>,
    pub aborted: Option<String>,
}

impl UpgradeState {
    /// The state as a mathematical value.
    pub open spec fn model(&self) -> UpgradeModel {
        UpgradeModel {
            desired: self.desired,
            granted: self.granted,
            completed: self.completed@,
            reports: self.last_report@,
            aborted: self.aborted,
        }
    }
}

impl Default for UpgradeState {
    fn default() -> (s: Self)
        ensures
            s.desired is None,
            s.granted is None,
            s.completed@ == Set::<NodeId>::empty(),
            s.last_report@ == Map::<NodeId, UpgradePhase>::empty(),
            s.aborted is None,
    {
        UpgradeState {
            desired: None,
            granted: None,
            completed: NodeSet::new(),
            last_report: NodeMap::new(),
            aborted: None,
        }
    }
}

/// Derived snapshot for coordinator ticks and admin APIs.
#[derive(Debug, PartialEq, Eq)]
pub struct UpgradeView {
    /// Active target, if any.
    pub desired: Option<ArtifactManifest>,
    /// Node currently holding the grant slot.
    pub granted: Option<NodeId>,
    /// Members that reported `Ready` for the current desired target.
    pub completed: NodeSet,
    /// Committed members not yet `Ready`.
    pub pending: Vec<NodeId>,
    /// All committed members match desired (rolling complete).
    pub fleet_ready: bool,
    /// Abort reason when set.
    pub aborted: Option<String>,
}

/// Apply/query responses.
#[derive(Debug, PartialEq, Eq)]
pub enum UpgradeResponse {
    /// Command applied (no payload).
    Applied,
    /// Result of [`UpgradeQuery::View`].
    View(UpgradeView),
}

// ---------------------------------------------------------------------------
// Transition and planning rules
// ---------------------------------------------------------------------------

/// The state refuses a grant: aborted, no target, or the slot is taken.
pub open spec fn grant_blocked(m: UpgradeModel) -> bool {
    m.aborted is Some || m.desired is None || m.granted is Some
}

/// The effect of one command on the state, or the error it is refused with.
pub open spec fn upgrade_step(m: UpgradeModel, c: UpgradeCommand) -> Result<UpgradeModel, UpgradeError> {
    match c {
        UpgradeCommand::SetDesired(manifest) => Ok(
            UpgradeModel {
                desired: Some(manifest),
                granted: None,
                completed: Set::empty(),
                reports: Map::empty(),
                aborted: None,
            },
        ),
        UpgradeCommand::Grant { node_id } => if grant_blocked(m) {
            Err(UpgradeError::InvalidGrant)
        } else {
            Ok(
                UpgradeModel {
                    desired: m.desired,
                    granted: Some(node_id),
                    completed: m.completed,
                    reports: m.reports,
                    aborted: m.aborted,
                },
            )
        },
        UpgradeCommand::Report { node_id, phase } => Ok(
            UpgradeModel {
                desired: m.desired,
                granted: if (phase is Ready || phase is Failed) && m.granted == Some(node_id) {
                    None
                } else {
                    m.granted
                },
                completed: if phase is Ready {
                    m.completed.insert(node_id)
                } else {
                    m.completed
                },
                reports: m.reports.insert(node_id, phase),
                aborted: m.aborted,
            },
        ),
        UpgradeCommand::Abort { reason } => Ok(
            UpgradeModel {
                desired: m.desired,
                granted: None,
                completed: m.completed,
                reports: m.reports,
                aborted: Some(reason),
            },
        ),
    }
}

/// `n` is a committed member that has not finished the current target.
pub open spec fn is_pending(m: UpgradeModel, members: Seq<NodeId>, n: NodeId) -> bool {
    members.contains(n) && !m.completed.contains(n)
}

/// `n` may take the slot: pending, and not the leader unless only the leader is pending.
pub open spec fn grant_candidate(m: UpgradeModel, members: Seq<NodeId>, leader: NodeId, n: NodeId) -> bool {
    is_pending(m, members, n) && (n != leader || forall|p: NodeId| is_pending(m, members, p) ==> p == leader)
}

/// Members not yet done, in membership order.
pub open spec fn pending_members(m: UpgradeModel, members: Seq<NodeId>) -> Seq<NodeId> {
    members.filter(|n: NodeId| !m.completed.contains(n))
}

fn apply_command(state: &mut UpgradeState, command: &UpgradeCommand) -> (r: Result<(), UpgradeError>)
    ensures
        match upgrade_step(old(state).model(), *command) {
            Ok(m) => r is Ok && final(state).model() == m,
            Err(e) => r == Err::<(), UpgradeError>(e) && final(state).model() == old(state).model(),
        },
{
    match command {
        UpgradeCommand::SetDesired(manifest) => {
            state.desired = Some(manifest.duplicate());
            state.granted = None;
            state.completed.clear();
            state.last_report.clear();
            state.aborted = None;
        },
        UpgradeCommand::Grant { node_id } => {
            if state.aborted.is_some() || state.desired.is_none() || state.granted.is_some() {
                return Err(UpgradeError::InvalidGrant);
            }
            state.granted = Some(*node_id);
        },
        UpgradeCommand::Report { node_id, phase } => {
            state.last_report.insert(*node_id, phase.duplicate());
            let ready = match phase {
                UpgradePhase::Ready => true,
                _ => false,
            };
            let failed = match phase {
                UpgradePhase::Failed { .. } => true,
                _ => false,
            };
            let holds_slot = match state.granted {
                Some(g) => g.0 == node_id.0,
                None => false,
            };
            if ready {
                state.completed.insert(*node_id);
                if holds_slot {
                    state.granted = None;
                }
            }
            if failed && holds_slot {
                state.granted = None;
            }
        },
        UpgradeCommand::Abort { reason } => {
            state.aborted = Some(reason.clone());
            state.granted = None;
        },
    }
    Ok(())
}

/// Pick the next node to grant when the current slot is idle.
///
/// Leader last: non-leader pending members go first, the leader only once it is
/// the sole pending member. Among eligible nodes the lowest id wins, so every
/// leader computes the same next step from the replicated state alone.
pub fn plan_next_grant(state: &UpgradeState, members: &[NodeId], leader_id: NodeId) -> (r: Option<NodeId>)
    ensures
        r is None <==> (grant_blocked(state.model()) || forall|n: NodeId| !is_pending(state.model(), members@, n)),
        r matches Some(n) ==> grant_candidate(state.model(), members@, leader_id, n)
            && forall|p: NodeId| grant_candidate(state.model(), members@, leader_id, p) ==> n.0 <= p.0,
{
    let ghost m = state.model();
    if state.aborted.is_some() || state.desired.is_none() || state.granted.is_some() {
        return None;
    }
    let mut best: Option<NodeId> = None;
    let mut leader_pending = false;
    let mut i: usize = 0;
    while i < members.len()
        invariant
            m == state.model(),
            0 <= i <= members@.len(),
            best matches Some(b) ==> {
                &&& is_pending(m, members@, b)
                &&& b != leader_id
                &&& forall|j: int| 0 <= j < i && !m.completed.contains(#[trigger] members@[j]) && members@[j] != leader_id ==> b.0 <= members@[j].0
            },
            best is None ==> forall|j: int| 0 <= j < i && !m.completed.contains(#[trigger] members@[j]) ==> members@[j] == leader_id,
            leader_pending ==> is_pending(m, members@, leader_id),
            !leader_pending ==> forall|j: int| 0 <= j < i ==> #[trigger] members@[j] != leader_id || m.completed.contains(leader_id),
        decreases members@.len() - i,
    {
        let id = members[i];
        if !state.completed.contains(&id) {
            proof {
                assert(members@.contains(id));
            }
            if id.0 == leader_id.0 {
                leader_pending = true;
            } else {
                match best {
                    Some(b) => {
                        if id.0 < b.0 {
                            best = Some(id);
                        }
                    },
                    None => {
                        best = Some(id);
                    },
                }
            }
        }
        i = i + 1;
    }
    proof {
        assert forall|p: NodeId| is_pending(m, members@, p) implies (best matches Some(b) ==> (p == leader_id || b.0 <= p.0)) && (best is None ==> p == leader_id) by {
            let j = choose|j: int| 0 <= j < members@.len() && members@[j] == p;
            assert(!m.completed.contains(members@[j]));
        }
    }
    match best {
        Some(b) => Some(b),
        None => {
            if leader_pending {
                Some(leader_id)
            } else {
                proof {
                    assert forall|n: NodeId| !is_pending(m, members@, n) by {
                        if is_pending(m, members@, n) {
                            let j = choose|j: int| 0 <= j < members@.len() && members@[j] == n;
                            assert(members@[j] != leader_id || m.completed.contains(leader_id));
                        }
                    }
                }
                None
            }
        },
    }
}

fn copy_reason(r: &Option<String>) -> (c: Option<String>)
    ensures
        c == *r,
{
    match r {
        Some(s) => Some(s.clone()),
        None => None,
    }
}

fn copy_manifest(d: &Option<ArtifactManifest>) -> (c: Option<ArtifactManifest>)
    ensures
        c == *d,
{
    match d {
        Some(m) => Some(m.duplicate()),
        None => None,
    }
}

/// Build an [`UpgradeView`] from durable state and committed membership.
pub fn upgrade_view(state: &UpgradeState, members: &[NodeId]) -> (v: UpgradeView)
    ensures
        v.desired == state.desired,
        v.granted == state.granted,
        v.completed@ == state.completed@,
        v.pending@ == pending_members(state.model(), members@),
        v.fleet_ready == (state.desired is Some && pending_members(state.model(), members@).len() == 0
            && state.aborted is None),
        v.aborted == state.aborted,
{
    let ghost m = state.model();
    let mut pending: Vec<NodeId> = Vec::new();
    let mut i: usize = 0;
    while i < members.len()
        invariant
            m == state.model(),
            0 <= i <= members@.len(),
            pending@ == pending_members(m, members@.subrange(0, i as int)),
        decreases members@.len() - i,
    {
        let id = members[i];
        let done = state.completed.contains(&id);
        if !done {
            pending.push(id);
        }
        proof {
            let f = |n: NodeId| !m.completed.contains(n);
            let before = members@.subrange(0, i as int);
            assert(members@.subrange(0, i + 1) =~= before.push(id));
            before.lemma_filter_push(id, f);
        }
        i = i + 1;
    }
    proof {
        assert(members@.subrange(0, members@.len() as int) =~= members@);
    }
    let fleet_ready = state.desired.is_some() && pending.len() == 0 && state.aborted.is_none();
    UpgradeView {
        desired: copy_manifest(&state.desired),
        granted: state.granted,
        completed: state.completed.duplicate(),
        pending,
        fleet_ready,
        aborted: copy_reason(&state.aborted),
    }
}

/// Build planning state from a query view (leader reconcile helper).
pub fn upgrade_state_for_planning(view: &UpgradeView) -> (s: UpgradeState)
    ensures
        s.desired == view.desired,
        s.granted == view.granted,
        s.completed@ == view.completed@,
        s.last_report@ == Map::<NodeId, UpgradePhase>::empty(),
        s.aborted == view.aborted,
{
    UpgradeState {
        desired: copy_manifest(&view.desired),
        granted: view.granted,
        completed: view.completed.duplicate(),
        last_report: NodeMap::new(),
        aborted: copy_reason(&view.aborted),
    }
}

/// Upgrade state machine — use standalone or merge commands into an app machine.
#[derive(Debug, PartialEq, Eq)]
pub struct UpgradeMachine {
    inner: UpgradeState,
}

/// Shorter alias used in docs and tests.
pub type UpgradeStateMachine = UpgradeMachine;

impl UpgradeMachine {
    /// Fresh machine with no target.
    pub fn new() -> (sm: Self)
        ensures
            sm.current().desired is None,
            sm.current().granted is None,
            sm.current().completed@ == Set::<NodeId>::empty(),
            sm.current().last_report@ == Map::<NodeId, UpgradePhase>::empty(),
            sm.current().aborted is None,
    {
        UpgradeMachine { inner: UpgradeState::default() }
    }

    /// The durable state.
    pub closed spec fn current(&self) -> UpgradeState {
        self.inner
    }

    /// Borrow durable state.
    pub fn state(&self) -> (s: &UpgradeState)
        ensures
            *s == self.current(),
    {
        &self.inner
    }

    /// Apply a replicated command.
    pub fn apply(&mut self, index: LogIndex, command: &UpgradeCommand) -> (r: Result<UpgradeResponse, UpgradeError>)
        ensures
            match upgrade_step(old(self).current().model(), *command) {
                Ok(m) => r matches Ok(UpgradeResponse::Applied) && final(self).current().model() == m,
                Err(e) => r matches Err(x) && x == e && final(self).current().model() == old(self).current().model(),
            },
    {
        match apply_command(&mut self.inner, command) {
            Ok(()) => Ok(UpgradeResponse::Applied),
            Err(e) => Err(e),
        }
    }

    /// Answer a read.
    pub fn query(&self, query: &UpgradeQuery) -> (r: Result<UpgradeResponse, UpgradeError>)
        ensures
            match query {
                UpgradeQuery::View { members } => r matches Ok(UpgradeResponse::View(v)) && {
                    &&& v.desired == self.current().desired
                    &&& v.granted == self.current().granted
                    &&& v.completed@ == self.current().completed@
                    &&& v.pending@ == pending_members(self.current().model(), members@)
                    &&& v.fleet_ready == (self.current().desired is Some && pending_members(self.current().model(), members@).len() == 0
                        && self.current().aborted is None)
                    &&& v.aborted == self.current().aborted
                },
            },
    {
        match query {
            UpgradeQuery::View { members } => Ok(UpgradeResponse::View(upgrade_view(&self.inner, members.as_slice()))),
        }
    }
}

impl Default for UpgradeMachine {
    fn default() -> (sm: Self)
        ensures
            sm.current().desired is None,
            sm.current().granted is None,
            sm.current().completed@ == Set::<NodeId>::empty(),
            sm.current().last_report@ == Map::<NodeId, UpgradePhase>::empty(),
            sm.current().aborted is None,
    {
        UpgradeMachine::new()
    }
}

} // verus!
