//! Queue-depth-driven scaling: worker-group size and cluster growth decided from
//! queue depth, reachable nodes and the replicated per-stream policies.
use vstd::prelude::*;

use crate::keyed::{has_key, keys_distinct, lemma_seq_map_index, lemma_seq_map_push, lemma_seq_map_update, seq_map};

verus! {

/// Replicated form of an [`AutoscalePolicy`].
#[derive(Debug, Clone, PartialEq, Eq)]
pub struct AutoscalePolicyWire {
    pub worker_group: String,
    pub target_pending_per_worker: u64,
    pub min_workers: usize,
    pub max_workers: usize,
    pub cooldown_ms: u64,
    pub poll_interval_ms: u64,
}

/// Replicated form of a [`MembershipAutoscalePolicy`].
#[derive(Debug, Clone, Copy, PartialEq, Eq, Structural)]
pub struct MembershipAutoscalePolicyWire {
    pub pending_per_node_threshold: u64,
    pub max_nodes: usize,
    pub cooldown_ms: u64,
    pub poll_interval_ms: u64,
}

/// Committed upsert of the autoscale policies of one queue stream.
#[derive(Debug, Clone, PartialEq, Eq)]
pub struct QueueAutoscalePolicyCommand {
    pub stream: String,
    pub worker: Option<AutoscalePolicyWire>,
    pub membership: Option<MembershipAutoscalePolicyWire>,
}

/// Tunables for the worker autoscaler.
#[derive(Debug, Clone, PartialEq, Eq)]
pub struct AutoscalePolicy {
    /// Worker actor group to scale (must be registered on the control plane).
    pub worker_group: String,
    /// Target pending jobs per worker instance.
    pub target_pending_per_worker: u64,
    /// Minimum worker instances for this group.
    pub min_workers: usize,
    /// Maximum worker instances (also capped by reachable nodes).
    pub max_workers: usize,
    /// Minimum time between scale decisions, in milliseconds.
    pub cooldown_ms: u64,
    /// How often depth is sampled, in milliseconds.
    pub poll_interval_ms: u64,
}

/// Tunables for the membership autoscaler: add cluster nodes when worker
/// scaling is capped by the live node count.
#[derive(Debug, Clone, Copy, PartialEq, Eq, Structural)]
pub struct MembershipAutoscalePolicy {
    /// Request a new node when `(pending + leased) / live_nodes` exceeds this.
    pub pending_per_node_threshold: u64,
    /// Maximum cluster size this policy may grow to.
    pub max_nodes: usize,
    /// Minimum time between join attempts, in milliseconds.
    pub cooldown_ms: u64,
    /// How often queue depth is sampled, in milliseconds.
    pub poll_interval_ms: u64,
}

pub open spec fn worker_policy_of(w: AutoscalePolicyWire) -> AutoscalePolicy {
    AutoscalePolicy {
        worker_group: w.worker_group,
        target_pending_per_worker: w.target_pending_per_worker,
        min_workers: w.min_workers,
        max_workers: w.max_workers,
        cooldown_ms: w.cooldown_ms,
        poll_interval_ms: w.poll_interval_ms,
    }
}

pub open spec fn membership_policy_of(w: MembershipAutoscalePolicyWire) -> MembershipAutoscalePolicy {
    MembershipAutoscalePolicy {
        pending_per_node_threshold: w.pending_per_node_threshold,
        max_nodes: w.max_nodes,
        cooldown_ms: w.cooldown_ms,
        poll_interval_ms: w.poll_interval_ms,
    }
}

impl AutoscalePolicy {
    /// A field-by-field copy.
    pub fn duplicate(&self) -> (c: Self)
        ensures
            c == *self,
    {
        AutoscalePolicy {
            worker_group: self.worker_group.clone(),
            target_pending_per_worker: self.target_pending_per_worker,
            min_workers: self.min_workers,
            max_workers: self.max_workers,
            cooldown_ms: self.cooldown_ms,
            poll_interval_ms: self.poll_interval_ms,
        }
    }

    /// Encode for replication.
    pub fn to_wire(&self) -> (w: AutoscalePolicyWire)
        ensures
            worker_policy_of(w) == *self,
    {
        AutoscalePolicyWire {
            worker_group: self.worker_group.clone(),
            target_pending_per_worker: self.target_pending_per_worker,
            min_workers: self.min_workers,
            max_workers: self.max_workers,
            cooldown_ms: self.cooldown_ms,
            poll_interval_ms: self.poll_interval_ms,
        }
    }

    /// Decode from replicated metadata.
    pub fn from_wire(w: &AutoscalePolicyWire) -> (p: Self)
        ensures
            p == worker_policy_of(*w),
    {
        AutoscalePolicy {
            worker_group: w.worker_group.clone(),
            target_pending_per_worker: w.target_pending_per_worker,
            min_workers: w.min_workers,
            max_workers: w.max_workers,
            cooldown_ms: w.cooldown_ms,
            poll_interval_ms: w.poll_interval_ms,
        }
    }
}

impl MembershipAutoscalePolicy {
    /// Encode for replication.
    pub fn to_wire(&self) -> (w: MembershipAutoscalePolicyWire)
        ensures
            membership_policy_of(w) == *self,
    {
        MembershipAutoscalePolicyWire {
            pending_per_node_threshold: self.pending_per_node_threshold,
            max_nodes: self.max_nodes,
            cooldown_ms: self.cooldown_ms,
            poll_interval_ms: self.poll_interval_ms,
        }
    }

    /// Decode from replicated metadata.
    pub fn from_wire(w: &MembershipAutoscalePolicyWire) -> (p: Self)
        ensures
            p == membership_policy_of(*w),
    {
        MembershipAutoscalePolicy {
            pending_per_node_threshold: w.pending_per_node_threshold,
            max_nodes: w.max_nodes,
            cooldown_ms: w.cooldown_ms,
            poll_interval_ms: w.poll_interval_ms,
        }
    }
}

/// Rows keyed by stream name, no name twice.
struct PolicyTable<V> {
    rows: Vec<(String, V)>,
}

pub open spec fn named_rows<V>(rows: Seq<(String, V)>) -> Seq<(Seq<char>, V)> {
    rows.map_values(|r: (String, V)| (r.0@, r.1))
}

impl<V> PolicyTable<V> {
    spec fn wf(&self) -> bool {
        keys_distinct(named_rows(self.rows@))
    }

    spec fn map(&self) -> Map<Seq<char>, V> {
        seq_map(named_rows(self.rows@))
    }

    fn new() -> (t: Self)
        ensures
            t.wf(),
            t.map() == Map::<Seq<char>, V>::empty(),
    {
        let t = PolicyTable { rows: Vec::new() };
        assert(named_rows(t.rows@) =~= Seq::<(Seq<char>, V)>::empty());
        assert(seq_map(named_rows(t.rows@)) =~= Map::<Seq<char>, V>::empty());
        t
    }

    fn find(&self, name: &String) -> (r: Option<usize>)
        requires
            self.wf(),
        ensures
            r matches Some(i) ==> i < self.rows@.len() && self.rows@[i as int].0@ == name@,
            r is None ==> !has_key(named_rows(self.rows@), name@),
    {
        let mut i: usize = 0;
        while i < self.rows.len()
            invariant
                0 <= i <= self.rows@.len(),
                forall|j: int| 0 <= j < i ==> self.rows@[j].0@ != name@,
            decreases self.rows@.len() - i,
        {
            if self.rows[i].0 == *name {
                return Some(i);
            }
            i = i + 1;
        }
        proof {
            let s = named_rows(self.rows@);
            assert forall|j: int| 0 <= j < s.len() implies s[j].0 != name@ by {
                assert(s[j].0 == self.rows@[j].0@);
            }
        }
        None
    }

    fn upsert(&mut self, name: String, value: V)
        requires
            old(self).wf(),
        ensures
            final(self).wf(),
            final(self).map() == old(self).map().insert(name@, value),
    {
        let ghost s = named_rows(self.rows@);
        match self.find(&name) {
            Some(i) => {
                let ghost k = name@;
                self.rows.remove(i);
                self.rows.insert(i, (name, value));
                proof {
                    assert(named_rows(self.rows@) =~= s.update(i as int, (s[i as int].0, value)));
                    lemma_seq_map_update(s, i as int, value);
                }
            },
            None => {
                let ghost k = name@;
                self.rows.push((name, value));
                proof {
                    assert(named_rows(self.rows@) =~= s.push((k, value)));
                    lemma_seq_map_push(s, k, value);
                }
            },
        }
    }

    fn get(&self, name: &String) -> (r: Option<&V>)
        requires
            self.wf(),
        ensures
            r == (if self.map().contains_key(name@) { Some(&self.map()[name@]) } else { None::<&V> }),
    {
        match self.find(name) {
            Some(i) => {
                proof {
                    let s = named_rows(self.rows@);
                    assert(s[i as int] == (self.rows@[i as int].0@, self.rows@[i as int].1));
                    lemma_seq_map_index(s, i as int);
                }
                Some(&self.rows[i].1)
            },
            None => None,
        }
    }
}

/// Replicated autoscale policies keyed by queue stream name.
pub struct QueueAutoscaleRegistry {
    worker: PolicyTable<AutoscalePolicy>,
    membership: PolicyTable<MembershipAutoscalePolicy>,
}

impl QueueAutoscaleRegistry {
    /// Worker policies by stream name.
    pub closed spec fn workers(&self) -> Map<Seq<char>, AutoscalePolicy> {
        self.worker.map()
    }

    /// Membership policies by stream name.
    pub closed spec fn memberships(&self) -> Map<Seq<char>, MembershipAutoscalePolicy> {
        self.membership.map()
    }

    pub closed spec fn wf(&self) -> bool {
        self.worker.wf() && self.membership.wf()
    }

    /// Empty registry.
    pub fn new() -> (r: Self)
        ensures
            r.wf(),
            r.workers() == Map::<Seq<char>, AutoscalePolicy>::empty(),
            r.memberships() == Map::<Seq<char>, MembershipAutoscalePolicy>::empty(),
    {
        QueueAutoscaleRegistry { worker: PolicyTable::new(), membership: PolicyTable::new() }
    }

    /// Apply a committed policy upsert: each policy the command carries replaces
    /// the stream's previous one; an absent policy leaves it as it was.
    pub fn apply(&mut self, command: &QueueAutoscalePolicyCommand)
        requires
            old(self).wf(),
        ensures
            final(self).wf(),
            final(self).workers() == match command.worker {
                Some(w) => old(self).workers().insert(command.stream@, worker_policy_of(w)),
                None => old(self).workers(),
            },
            final(self).memberships() == match command.membership {
                Some(m) => old(self).memberships().insert(command.stream@, membership_policy_of(m)),
                None => old(self).memberships(),
            },
    {
        if let Some(w) = &command.worker {
            self.worker.upsert(command.stream.clone(), AutoscalePolicy::from_wire(w));
        }
        if let Some(m) = &command.membership {
            self.membership.upsert(command.stream.clone(), MembershipAutoscalePolicy::from_wire(m));
        }
    }

    /// Latest worker policy for `stream`, if any.
    pub fn worker_policy(&self, stream: &str) -> (r: Option<AutoscalePolicy>)
        requires
            self.wf(),
        ensures
            r == (if self.workers().contains_key(stream@) { Some(self.workers()[stream@]) } else { None::<AutoscalePolicy> }),
    {
        let key = stream.to_owned();
        match self.worker.get(&key) {
            Some(p) => Some(p.duplicate()),
            None => None,
        }
    }

    /// Latest membership policy for `stream`, if any.
    pub fn membership_policy(&self, stream: &str) -> (r: Option<MembershipAutoscalePolicy>)
        requires
            self.wf(),
        ensures
            r == (if self.memberships().contains_key(stream@) {
                Some(self.memberships()[stream@])
            } else {
                None::<MembershipAutoscalePolicy>
            }),
    {
        let key = stream.to_owned();
        match self.membership.get(&key) {
            Some(p) => Some(*p),
            None => None,
        }
    }
}

/// `a / b` rounded up.
pub open spec fn div_ceil_spec(a: u64, b: u64) -> int {
    if a % b == 0 { (a / b) as int } else { (a / b) as int + 1 }
}

/// Worker count the depth asks for before clamping.
pub open spec fn desired_raw(policy: AutoscalePolicy, depth: u64) -> int {
    if policy.target_pending_per_worker == 0 {
        policy.min_workers as int
    } else {
        let w = div_ceil_spec(depth, policy.target_pending_per_worker);
        if w > usize::MAX { usize::MAX as int } else { w }
    }
}

/// Worker count to run: the depth's demand clamped to the policy bounds and to
/// the reachable nodes.
pub open spec fn desired_workers_spec(policy: AutoscalePolicy, depth: u64, reachable: usize) -> int {
    let raw = desired_raw(policy, depth);
    let clamped = if raw < policy.min_workers { policy.min_workers as int } else if raw > policy.max_workers {
        policy.max_workers as int
    } else {
        raw
    };
    if clamped < reachable { clamped } else { reachable as int }
}

/// Worker count the autoscaler aims for.
pub fn desired_workers(policy: &AutoscalePolicy, depth: u64, reachable: usize) -> (n: usize)
    requires
        policy.min_workers <= policy.max_workers,
    ensures
        n as int == desired_workers_spec(*policy, depth, reachable),
        n <= reachable,
        n <= policy.max_workers,
        n >= policy.min_workers || n == reachable,
{
    let raw: usize = if policy.target_pending_per_worker == 0 {
        policy.min_workers
    } else {
        let t = policy.target_pending_per_worker;
        let q = depth / t;
        proof {
            if depth % t != 0 {
                assert(t != 1) by {
                    if t == 1 {
                        assert(depth % 1 == 0);
                    }
                }
                assert(depth / t < u64::MAX) by (nonlinear_arith)
                    requires
                        t >= 2,
                        depth <= u64::MAX,
                ;
            }
        }
        let w: u64 = if depth % t == 0 { q } else { q + 1 };
        if w > usize::MAX as u64 { usize::MAX } else { w as usize }
    };
    let clamped = if raw < policy.min_workers {
        policy.min_workers
    } else if raw > policy.max_workers {
        policy.max_workers
    } else {
        raw
    };
    if clamped < reachable { clamped } else { reachable }
}

/// One worker-autoscaler tick on the leader: `Some(n)` when the group should be
/// scaled to `n` workers now. Nothing happens without reachable nodes, when the
/// group already has the desired size, or inside the cooldown since the last scale.
pub fn worker_scale_decision(
    policy: &AutoscalePolicy,
    depth: u64,
    reachable: usize,
    current: usize,
    since_last_scale_ms: u64,
) -> (r: Option<usize>)
    requires
        policy.min_workers <= policy.max_workers,
    ensures
        r == (if reachable == 0 || desired_workers_spec(*policy, depth, reachable) == current
            || since_last_scale_ms < policy.cooldown_ms {
            None::<usize>
        } else {
            Some(desired_workers_spec(*policy, depth, reachable) as usize)
        }),
{
    if reachable == 0 {
        return None;
    }
    let desired = desired_workers(policy, depth, reachable);
    if desired == current {
        return None;
    }
    if since_last_scale_ms < policy.cooldown_ms {
        return None;
    }
    Some(desired)
}

/// One membership-autoscaler tick on the leader: whether to ask for one more
/// node. Only below the node cap, only when the depth per reachable node exceeds
/// the threshold, and only outside the cooldown since the last join.
pub fn membership_join_decision(
    policy: &MembershipAutoscalePolicy,
    depth: u64,
    reachable: usize,
    since_last_join_ms: u64,
) -> (join: bool)
    ensures
        join == (reachable > 0 && reachable < policy.max_nodes && depth / (reachable as u64)
            > policy.pending_per_node_threshold && since_last_join_ms >= policy.cooldown_ms),
{
    if reachable == 0 || reachable >= policy.max_nodes {
        return false;
    }
    let per_node = depth / (reachable as u64);
    if per_node <= policy.pending_per_node_threshold {
        return false;
    }
    if since_last_join_ms < policy.cooldown_ms {
        return false;
    }
    true
}

} // verus!
