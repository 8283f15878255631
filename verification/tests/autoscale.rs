use crafty::autoscale::{
    desired_workers, membership_join_decision, worker_scale_decision, AutoscalePolicy, AutoscalePolicyWire,
    MembershipAutoscalePolicy, MembershipAutoscalePolicyWire, QueueAutoscalePolicyCommand, QueueAutoscaleRegistry,
};

fn policy() -> AutoscalePolicy {
    AutoscalePolicy {
        worker_group: "workers".into(),
        target_pending_per_worker: 10,
        min_workers: 1,
        max_workers: 8,
        cooldown_ms: 1000,
        poll_interval_ms: 100,
    }
}

#[test]
fn membership_autoscale_invokes_join_when_depth_per_node_high() {
    let policy = MembershipAutoscalePolicy {
        pending_per_node_threshold: 5,
        max_nodes: 4,
        cooldown_ms: 10,
        poll_interval_ms: 5,
    };
    // 20 jobs over 2 reachable nodes: 10 per node exceeds the threshold
    assert!(membership_join_decision(&policy, 20, 2, 10));
    // inside the cooldown
    assert!(!membership_join_decision(&policy, 20, 2, 9));
    // at the node cap
    assert!(!membership_join_decision(&policy, 20, 4, 10));
    // per-node depth at the threshold
    assert!(!membership_join_decision(&policy, 10, 2, 10));
    assert!(!membership_join_decision(&policy, 20, 0, 10));
}

#[test]
fn desired_workers_rounds_up_and_clamps() {
    let p = policy();
    assert_eq!(desired_workers(&p, 0, 10), 1);
    assert_eq!(desired_workers(&p, 11, 10), 2);
    assert_eq!(desired_workers(&p, 20, 10), 2);
    assert_eq!(desired_workers(&p, 1000, 10), 8);
    assert_eq!(desired_workers(&p, 1000, 3), 3);
    let mut z = p.clone();
    z.target_pending_per_worker = 0;
    assert_eq!(desired_workers(&z, 1000, 10), 1);
}

#[test]
fn worker_scale_respects_current_and_cooldown() {
    let p = policy();
    assert_eq!(worker_scale_decision(&p, 35, 10, 1, 5000), Some(4));
    assert_eq!(worker_scale_decision(&p, 35, 10, 4, 5000), None);
    assert_eq!(worker_scale_decision(&p, 35, 10, 1, 999), None);
    assert_eq!(worker_scale_decision(&p, 35, 0, 1, 5000), None);
}

#[test]
fn registry_keeps_latest_policy_per_stream() {
    let mut reg = QueueAutoscaleRegistry::new();
    assert_eq!(reg.worker_policy("jobs"), None);
    reg.apply(&QueueAutoscalePolicyCommand {
        stream: "jobs".into(),
        worker: Some(policy().to_wire()),
        membership: None,
    });
    assert_eq!(reg.worker_policy("jobs"), Some(policy()));
    assert_eq!(reg.membership_policy("jobs"), None);
    let wire = MembershipAutoscalePolicyWire { pending_per_node_threshold: 3, max_nodes: 5, cooldown_ms: 7, poll_interval_ms: 9 };
    let mut p2 = policy();
    p2.max_workers = 2;
    reg.apply(&QueueAutoscalePolicyCommand {
        stream: "jobs".into(),
        worker: Some(AutoscalePolicyWire { max_workers: 2, ..policy().to_wire() }),
        membership: Some(wire),
    });
    assert_eq!(reg.worker_policy("jobs"), Some(p2));
    assert_eq!(reg.membership_policy("jobs"), Some(MembershipAutoscalePolicy::from_wire(&wire)));
    assert_eq!(reg.worker_policy("other"), None);
    assert_eq!(MembershipAutoscalePolicy::from_wire(&wire).to_wire(), wire);
    assert_eq!(AutoscalePolicy::from_wire(&policy().to_wire()), policy());
}
