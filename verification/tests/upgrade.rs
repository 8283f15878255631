use crafty::ids::{LogIndex, NodeId};
use crafty::upgrade::{
    plan_next_grant, upgrade_state_for_planning, upgrade_view, ArtifactManifest, UpgradeCommand, UpgradeError,
    UpgradeMachine, UpgradePhase, UpgradeQuery, UpgradeResponse, UpgradeState,
};

fn members() -> Vec<NodeId> {
    vec![NodeId(1), NodeId(2), NodeId(3)]
}

fn manifest() -> ArtifactManifest {
    ArtifactManifest {
        app_version: "1.1.0".into(),
        url: "file:///tmp/app".into(),
        sha256_hex: "00".repeat(64),
        min_protocol: None,
    }
}

#[test]
fn leader_last_grant_ordering() {
    let mut state = UpgradeState {
        desired: Some(ArtifactManifest {
            app_version: "1.0.0".into(),
            url: "file:///tmp/x".into(),
            sha256_hex: "00".repeat(64),
            min_protocol: None,
        }),
        ..Default::default()
    };
    let leader = NodeId(2);
    let m = members();

    assert_eq!(plan_next_grant(&state, &m, leader), Some(NodeId(1)));

    state.granted = Some(NodeId(1));
    state.last_report.insert(NodeId(1), UpgradePhase::Ready);
    state.completed.insert(NodeId(1));
    state.granted = None;

    assert_eq!(plan_next_grant(&state, &m, leader), Some(NodeId(3)));

    state.completed.insert(NodeId(3));
    assert_eq!(plan_next_grant(&state, &m, leader), Some(NodeId(2)));
}

#[test]
fn report_ready_clears_grant_and_completes_node() {
    let mut sm = UpgradeMachine::default();
    let manifest = ArtifactManifest {
        app_version: "2.0.0".into(),
        url: "file:///bin".into(),
        sha256_hex: "ab".repeat(64),
        min_protocol: None,
    };
    sm.apply(LogIndex(1), &UpgradeCommand::SetDesired(manifest)).unwrap();
    sm.apply(LogIndex(2), &UpgradeCommand::Grant { node_id: NodeId(1) }).unwrap();
    sm.apply(
        LogIndex(3),
        &UpgradeCommand::Report {
            node_id: NodeId(1),
            phase: UpgradePhase::Ready,
        },
    )
    .unwrap();
    assert!(sm.state().completed.contains(&NodeId(1)));
    assert_eq!(sm.state().granted, None);
}

#[test]
fn fleet_ready_when_all_members_complete() {
    let mut sm = UpgradeMachine::default();
    sm.apply(
        LogIndex(1),
        &UpgradeCommand::SetDesired(ArtifactManifest {
            app_version: "1.0.0".into(),
            url: "file:///x".into(),
            sha256_hex: "00".repeat(64),
            min_protocol: None,
        }),
    )
    .unwrap();
    for (idx, id) in members().into_iter().enumerate() {
        sm.apply(
            LogIndex(u64::try_from(idx + 2).unwrap()),
            &UpgradeCommand::Report {
                node_id: id,
                phase: UpgradePhase::Ready,
            },
        )
        .unwrap();
    }
    let UpgradeResponse::View(view) = sm.query(&UpgradeQuery::View { members: members() }).unwrap() else {
        panic!("expected view");
    };
    assert!(view.fleet_ready);
    assert!(view.pending.is_empty());
}

#[test]
fn rolling_grants_follow_leader_last_lowest_id() {
    let leader = NodeId(2);
    let mut sm = UpgradeMachine::default();
    sm.apply(LogIndex(1), &UpgradeCommand::SetDesired(manifest())).expect("set desired");

    let order = [NodeId(1), NodeId(3), NodeId(2)];
    for (step, expected) in order.iter().enumerate() {
        let next = plan_next_grant(sm.state(), &members(), leader);
        assert_eq!(next, Some(*expected), "step {step}");
        sm.apply(LogIndex(u64::try_from(step + 2).unwrap()), &UpgradeCommand::Grant { node_id: *expected })
            .expect("grant");
        sm.apply(
            LogIndex(u64::try_from(step + 5).unwrap()),
            &UpgradeCommand::Report {
                node_id: *expected,
                phase: UpgradePhase::Ready,
            },
        )
        .expect("ready");
    }

    let UpgradeResponse::View(view) = sm.query(&UpgradeQuery::View { members: members() }).expect("view") else {
        panic!("expected view");
    };
    assert!(view.fleet_ready);
    assert_eq!(plan_next_grant(sm.state(), &members(), leader), None);
}

#[test]
fn abort_stops_further_grants() {
    let mut sm = UpgradeMachine::default();
    sm.apply(LogIndex(1), &UpgradeCommand::SetDesired(manifest())).unwrap();
    sm.apply(
        LogIndex(2),
        &UpgradeCommand::Abort {
            reason: "bad checksum".into(),
        },
    )
    .unwrap();
    assert_eq!(plan_next_grant(sm.state(), &members(), NodeId(1)), None);
}

#[test]
fn second_grant_is_refused_while_slot_is_held() {
    let mut sm = UpgradeMachine::new();
    assert_eq!(
        sm.apply(LogIndex(1), &UpgradeCommand::Grant { node_id: NodeId(1) }),
        Err(UpgradeError::InvalidGrant)
    );
    sm.apply(LogIndex(2), &UpgradeCommand::SetDesired(manifest())).unwrap();
    sm.apply(LogIndex(3), &UpgradeCommand::Grant { node_id: NodeId(1) }).unwrap();
    assert_eq!(
        sm.apply(LogIndex(4), &UpgradeCommand::Grant { node_id: NodeId(3) }),
        Err(UpgradeError::InvalidGrant)
    );
    assert_eq!(sm.state().granted, Some(NodeId(1)));
    assert_eq!(plan_next_grant(sm.state(), &members(), NodeId(2)), None);
}

#[test]
fn failed_report_frees_slot_without_completing() {
    let mut sm = UpgradeMachine::new();
    sm.apply(LogIndex(1), &UpgradeCommand::SetDesired(manifest())).unwrap();
    sm.apply(LogIndex(2), &UpgradeCommand::Grant { node_id: NodeId(3) }).unwrap();
    sm.apply(
        LogIndex(3),
        &UpgradeCommand::Report {
            node_id: NodeId(3),
            phase: UpgradePhase::Failed { message: "disk".into() },
        },
    )
    .unwrap();
    assert_eq!(sm.state().granted, None);
    assert!(!sm.state().completed.contains(&NodeId(3)));
    assert_eq!(
        sm.state().last_report.get(&NodeId(3)),
        Some(&UpgradePhase::Failed { message: "disk".into() })
    );
    assert!(UpgradePhase::Failed { message: "x".into() }.is_terminal());
    assert!(UpgradePhase::Ready.is_terminal());
    assert!(!UpgradePhase::Installed.is_terminal());
}

#[test]
fn view_lists_pending_in_member_order_and_planning_state_copies_it() {
    let mut state = UpgradeState::default();
    state.desired = Some(manifest());
    state.completed.insert(NodeId(2));
    let view = upgrade_view(&state, &[NodeId(3), NodeId(2), NodeId(1)]);
    assert_eq!(view.pending, vec![NodeId(3), NodeId(1)]);
    assert!(!view.fleet_ready);
    let planning = upgrade_state_for_planning(&view);
    assert_eq!(planning.completed.to_vec(), vec![NodeId(2)]);
    assert_eq!(plan_next_grant(&planning, &[NodeId(3), NodeId(2), NodeId(1)], NodeId(1)), Some(NodeId(3)));
}

#[test]
fn upgrade_error_messages() {
    assert_eq!(UpgradeError::NoDesired.message(), "no desired upgrade");
    assert_eq!(UpgradeError::InvalidGrant.message(), "invalid grant");
    assert_eq!(UpgradeError::Aborted.message(), "upgrade aborted");
    assert_eq!(UpgradeError::Snapshot.message(), "upgrade snapshot error");
}
