//! What the rolling-upgrade rules promise across commands and the planner.
use vstd::prelude::*;

use crate::ids::NodeId;
use crate::upgrade::{
    UpgradeCommand, UpgradeError, UpgradeModel, UpgradePhase, grant_blocked, grant_candidate, is_pending,
    pending_members, upgrade_step,
};

verus! {

/// A node the planner proposes is accepted by the `Grant` command, which hands it
/// the slot and changes nothing else.
pub proof fn law_planned_grant_is_accepted(m: UpgradeModel, members: Seq<NodeId>, leader: NodeId, n: NodeId)
    requires
        !grant_blocked(m),
        grant_candidate(m, members, leader, n),
    ensures
        upgrade_step(m, UpgradeCommand::Grant { node_id: n }) matches Ok(m2) && {
            &&& m2.granted == Some(n)
            &&& m2.desired == m.desired
            &&& m2.completed == m.completed
            &&& m2.aborted == m.aborted
        },
{
}

/// While a node holds the slot no second grant is accepted.
pub proof fn law_one_slot_at_a_time(m: UpgradeModel, n: NodeId)
    requires
        m.granted is Some,
    ensures
        upgrade_step(m, UpgradeCommand::Grant { node_id: n }) == Err::<UpgradeModel, UpgradeError>(UpgradeError::InvalidGrant),
{
}

/// A `Ready` report completes the node and frees the slot it held; the node is
/// not proposed again for the same target.
pub proof fn law_ready_report_completes_node(m: UpgradeModel, members: Seq<NodeId>, n: NodeId)
    requires
        m.granted == Some(n),
    ensures
        upgrade_step(m, UpgradeCommand::Report { node_id: n, phase: UpgradePhase::Ready }) matches Ok(m2) && {
            &&& m2.completed.contains(n)
            &&& m2.granted is None
            &&& !is_pending(m2, members, n)
            &&& m2.reports[n] == UpgradePhase::Ready
        },
{
}

/// A failure report from the slot holder frees the slot without completing it.
pub proof fn law_failed_report_frees_slot(m: UpgradeModel, n: NodeId, message: String)
    requires
        m.granted == Some(n),
    ensures
        upgrade_step(m, UpgradeCommand::Report { node_id: n, phase: UpgradePhase::Failed { message } }) matches Ok(m2) && {
            &&& m2.granted is None
            &&& m2.completed == m.completed
        },
{
}

/// After an abort nothing is granted until a new target is set.
pub proof fn law_abort_stops_grants(m: UpgradeModel, reason: String, c: UpgradeCommand)
    requires
        !(c is SetDesired),
    ensures
        upgrade_step(m, UpgradeCommand::Abort { reason }) matches Ok(m2) && {
            &&& grant_blocked(m2)
            &&& m2.granted is None
            &&& (upgrade_step(m2, c) matches Ok(m3) ==> grant_blocked(m3))
        },
{
}

/// Setting a target restarts the rollout: every member is pending again and the
/// slot is free.
pub proof fn law_set_desired_restarts_rollout(m: UpgradeModel, members: Seq<NodeId>, c: UpgradeCommand)
    requires
        c is SetDesired,
    ensures
        upgrade_step(m, c) matches Ok(m2) && {
            &&& !grant_blocked(m2)
            &&& forall|n: NodeId| members.contains(n) ==> is_pending(m2, members, n)
        },
{
}

/// One planned grant followed by that node's `Ready` report shrinks the set of
/// pending members by exactly that node and frees the slot again.
pub proof fn law_grant_then_ready_progresses(m: UpgradeModel, members: Seq<NodeId>, leader: NodeId, n: NodeId)
    requires
        !grant_blocked(m),
        grant_candidate(m, members, leader, n),
    ensures
        upgrade_step(m, UpgradeCommand::Grant { node_id: n }) matches Ok(m2) && upgrade_step(
            m2,
            UpgradeCommand::Report { node_id: n, phase: UpgradePhase::Ready },
        ) matches Ok(m3) && {
            &&& !grant_blocked(m3)
            &&& !is_pending(m3, members, n)
            &&& forall|p: NodeId| p != n ==> is_pending(m3, members, p) == is_pending(m, members, p)
        },
{
}

/// The fleet is ready exactly when a target is set, nothing aborted it, and no
/// member is left for the planner to grant.
pub proof fn law_fleet_ready_iff_nothing_pending(m: UpgradeModel, members: Seq<NodeId>)
    ensures
        (pending_members(m, members).len() == 0) <==> (forall|n: NodeId| !is_pending(m, members, n)),
{
    let f = |n: NodeId| !m.completed.contains(n);
    if pending_members(m, members).len() == 0 {
        assert forall|n: NodeId| !is_pending(m, members, n) by {
            if is_pending(m, members, n) {
                let i = choose|i: int| 0 <= i < members.len() && members[i] == n;
                members.lemma_filter_contains(f, i);
            }
        }
    } else {
        let x = pending_members(m, members)[0];
        assert(pending_members(m, members).contains(x));
        members.lemma_filter_contains_rev(f, x);
        members.lemma_filter_pred(f, 0);
        assert(is_pending(m, members, x));
    }
}

} // verus!
