use crafty::ids::{LogIndex, NodeId};
use crafty::membership::{
    occupied_node_ids, pick_promotion_candidate, plan_voter_replacement, voter_replacement_grace_ticks,
    DEFAULT_VOTER_REPLACEMENT_GRACE_MULTIPLIER,
};
use crafty::nodes::NodeMap;

#[test]
fn pick_promotion_candidate_prefers_lowest_caught_up_id() {
    let learners = vec![NodeId(5), NodeId(4), NodeId(6)];
    let mut match_index = NodeMap::new();
    match_index.insert(NodeId(4), LogIndex(10));
    match_index.insert(NodeId(5), LogIndex(10));
    match_index.insert(NodeId(6), LogIndex(9));
    assert_eq!(
        pick_promotion_candidate(&learners, &match_index, LogIndex(10)),
        Some(NodeId(4))
    );
}

#[test]
fn plan_voter_replacement_swaps_roles() {
    let (voters, learners) = plan_voter_replacement(
        NodeId(2),
        vec![NodeId(1), NodeId(2), NodeId(3)],
        vec![NodeId(4), NodeId(5)],
        NodeId(4),
    );
    assert_eq!(voters, vec![NodeId(1), NodeId(3), NodeId(4)]);
    assert_eq!(learners, vec![NodeId(5)]);
}

#[test]
fn no_candidate_when_no_learner_is_caught_up() {
    let mut match_index = NodeMap::new();
    match_index.insert(NodeId(7), LogIndex(3));
    assert_eq!(pick_promotion_candidate(&[NodeId(7), NodeId(8)], &match_index, LogIndex(4)), None);
    assert_eq!(pick_promotion_candidate(&[], &match_index, LogIndex(0)), None);
}

#[test]
fn grace_ticks_scale_and_saturate() {
    assert_eq!(DEFAULT_VOTER_REPLACEMENT_GRACE_MULTIPLIER, 6);
    assert_eq!(voter_replacement_grace_ticks(5), 30);
    assert_eq!(voter_replacement_grace_ticks(0), 0);
    assert_eq!(voter_replacement_grace_ticks(u64::MAX / 2), u64::MAX);
}

#[test]
fn occupied_ids_are_sorted_and_unique() {
    let ids = occupied_node_ids(&[NodeId(3), NodeId(1), NodeId(3)], &[NodeId(2), NodeId(1)]);
    assert_eq!(ids, vec![NodeId(1), NodeId(2), NodeId(3)]);
}
