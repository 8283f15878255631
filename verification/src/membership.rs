//! Pure planners for replacing a permanently unreachable voter by promoting a
//! caught-up learner.
use vstd::prelude::*;

use crate::ids::{LogIndex, NodeId};
use crate::keyed::{lemma_insert_contains, lemma_push_contains};
use crate::nodes::{NodeMap, ids_sorted};

verus! {

/// Multiplier applied to the reachability silence window before an unreachable
/// voter is replaced by promoting a learner.
pub const DEFAULT_VOTER_REPLACEMENT_GRACE_MULTIPLIER: u64 = 6;

/// `a * b`, or `u64::MAX` when that does not fit.
pub open spec fn saturating_mul_spec(a: u64, b: u64) -> u64 {
    if a * b > u64::MAX { u64::MAX } else { (a * b) as u64 }
}

/// Logical ticks a voter must stay unreachable before replacement is attempted.
pub fn voter_replacement_grace_ticks(reachability_window: u64) -> (t: u64)
    ensures
        t == saturating_mul_spec(reachability_window, DEFAULT_VOTER_REPLACEMENT_GRACE_MULTIPLIER),
{
    match reachability_window.checked_mul(DEFAULT_VOTER_REPLACEMENT_GRACE_MULTIPLIER) {
        Some(t) => t,
        None => u64::MAX,
    }
}

/// Sorted ids without repeats holding exactly the ids of `s`.
fn sorted_unique(s: &[NodeId]) -> (v: Vec<NodeId>)
    ensures
        ids_sorted(v@),
        forall|x: NodeId| v@.contains(x) <==> s@.contains(x),
{
    let mut v: Vec<NodeId> = Vec::new();
    let mut i: usize = 0;
    while i < s.len()
        invariant
            0 <= i <= s@.len(),
            ids_sorted(v@),
            forall|x: NodeId| v@.contains(x) <==> s@.subrange(0, i as int).contains(x),
        decreases s@.len() - i,
    {
        let id = s[i];
        let ghost old_v = v@;
        let ghost pre = s@.subrange(0, i as int);
        let mut p: usize = 0;
        while p < v.len() && v[p].0 < id.0
            invariant
                v@ == old_v,
                ids_sorted(v@),
                0 <= p <= v@.len(),
                forall|j: int| 0 <= j < p ==> v@[j].0 < id.0,
            decreases v@.len() - p,
        {
            p = p + 1;
        }
        proof {
            assert forall|j: int| p <= j < v@.len() implies v@[j].0 >= id.0 by {
                if j > p {
                    assert(v@[p as int].0 < v@[j].0);
                }
            }
            assert(s@.subrange(0, i + 1) =~= pre.push(id));
        }
        if p < v.len() && v[p].0 == id.0 {
            proof {
                assert(v@[p as int] == id);
                assert forall|x: NodeId| v@.contains(x) <==> pre.push(id).contains(x) by {
                    lemma_push_contains(pre, id, x);
                }
            }
        } else {
            v.insert(p, id);
            proof {
                let t = v@;
                assert(t =~= old_v.insert(p as int, id));
                assert forall|a: int, b: int| 0 <= a < b < t.len() implies (#[trigger] t[a]).0 < (#[trigger] t[b]).0 by {
                    if b < p {
                        assert(t[a] == old_v[a] && t[b] == old_v[b]);
                    } else if b == p {
                        assert(t[a] == old_v[a]);
                    } else if a == p {
                        assert(t[b] == old_v[b - 1]);
                    } else if a < p {
                        assert(t[a] == old_v[a] && t[b] == old_v[b - 1]);
                    } else {
                        assert(t[a] == old_v[a - 1] && t[b] == old_v[b - 1]);
                    }
                }
                assert forall|x: NodeId| t.contains(x) <==> pre.push(id).contains(x) by {
                    lemma_insert_contains(old_v, p as int, id, x);
                    lemma_push_contains(pre, id, x);
                }
            }
        }
        i = i + 1;
    }
    proof {
        assert(s@.subrange(0, s@.len() as int) =~= s@);
    }
    v
}

/// Every node id currently reserved in cluster membership, ascending, each once.
pub fn occupied_node_ids(voters: &[NodeId], learners: &[NodeId]) -> (ids: Vec<NodeId>)
    ensures
        ids_sorted(ids@),
        forall|x: NodeId| ids@.contains(x) <==> (voters@.contains(x) || learners@.contains(x)),
{
    let mut all: Vec<NodeId> = Vec::new();
    let mut i: usize = 0;
    while i < voters.len()
        invariant
            0 <= i <= voters@.len(),
            all@ == voters@.subrange(0, i as int),
        decreases voters@.len() - i,
    {
        all.push(voters[i]);
        i = i + 1;
    }
    let mut j: usize = 0;
    while j < learners.len()
        invariant
            0 <= j <= learners@.len(),
            all@ == voters@ + learners@.subrange(0, j as int),
        decreases learners@.len() - j,
    {
        all.push(learners[j]);
        j = j + 1;
        assert(all@ =~= voters@ + learners@.subrange(0, j as int));
    }
    proof {
        assert(all@ =~= voters@ + learners@);
        assert forall|x: NodeId| (voters@ + learners@).contains(x) <==> (voters@.contains(x) || learners@.contains(x)) by {
            let c = voters@ + learners@;
            if c.contains(x) {
                let k = choose|k: int| 0 <= k < c.len() && c[k] == x;
                if k < voters@.len() {
                    assert(voters@[k] == x);
                } else {
                    assert(learners@[k - voters@.len()] == x);
                }
            }
            if voters@.contains(x) {
                let k = choose|k: int| 0 <= k < voters@.len() && voters@[k] == x;
                assert(c[k] == x);
            }
            if learners@.contains(x) {
                let k = choose|k: int| 0 <= k < learners@.len() && learners@[k] == x;
                assert(c[voters@.len() + k] == x);
            }
        }
    }
    sorted_unique(all.as_slice())
}

/// `id` is a learner whose replication has reached `commit`.
pub open spec fn caught_up(learners: Seq<NodeId>, match_index: Map<NodeId, LogIndex>, commit: LogIndex, id: NodeId) -> bool {
    learners.contains(id) && match_index.contains_key(id) && match_index[id].0 >= commit.0
}

/// Pick the lowest-id learner whose replication progress is caught up to
/// `commit_index`.
pub fn pick_promotion_candidate(
    learners: &[NodeId],
    match_index: &NodeMap<LogIndex>,
    commit_index: LogIndex,
) -> (r: Option<NodeId>)
    ensures
        r is None <==> forall|id: NodeId| !caught_up(learners@, match_index@, commit_index, id),
        r matches Some(id) ==> caught_up(learners@, match_index@, commit_index, id)
            && forall|o: NodeId| caught_up(learners@, match_index@, commit_index, o) ==> id.0 <= o.0,
{
    let mut best: Option<NodeId> = None;
    let mut i: usize = 0;
    while i < learners.len()
        invariant
            0 <= i <= learners@.len(),
            best matches Some(b) ==> caught_up(learners@, match_index@, commit_index, b)
                && forall|j: int| 0 <= j < i && caught_up(learners@, match_index@, commit_index, #[trigger] learners@[j]) ==> b.0 <= learners@[j].0,
            best is None ==> forall|j: int| 0 <= j < i ==> !caught_up(learners@, match_index@, commit_index, #[trigger] learners@[j]),
        decreases learners@.len() - i,
    {
        let id = learners[i];
        proof {
            assert(learners@.contains(id));
        }
        let ok = match match_index.get(&id) {
            Some(idx) => idx.0 >= commit_index.0,
            None => false,
        };
        if ok {
            match best {
                Some(b) => {
                    if id.0 < b.0 {
                        best = Some(id);
                    }
                },
                None => {
                    best = Some(id);
                },
            }
        }
        i = i + 1;
    }
    proof {
        assert forall|o: NodeId| caught_up(learners@, match_index@, commit_index, o) implies (best matches Some(b) && b.0 <= o.0) by {
            let j = choose|j: int| 0 <= j < learners@.len() && learners@[j] == o;
            assert(caught_up(learners@, match_index@, commit_index, learners@[j]));
        }
    }
    best
}

/// `s` without every occurrence of `x`.
pub open spec fn without(s: Seq<NodeId>, x: NodeId) -> Seq<NodeId> {
    s.filter(|n: NodeId| n != x)
}

/// Remove `dead_voter` and promote `promote` from learners to voters. Both
/// returned lists are ascending without repeats.
pub fn plan_voter_replacement(
    dead_voter: NodeId,
    voters: Vec<NodeId>,
    learners: Vec<NodeId>,
    promote: NodeId,
) -> (r: (Vec<NodeId>, Vec<NodeId>))
    requires
        voters@.contains(dead_voter),
        learners@.contains(promote),
        exists|v: NodeId| voters@.contains(v) && v != dead_voter,
    ensures
        ids_sorted(r.0@),
        ids_sorted(r.1@),
        forall|x: NodeId| r.0@.contains(x) <==> ((voters@.contains(x) && x != dead_voter) || x == promote),
        forall|x: NodeId| r.1@.contains(x) <==> (learners@.contains(x) && x != promote),
{
    let mut kept: Vec<NodeId> = Vec::new();
    let mut i: usize = 0;
    while i < voters.len()
        invariant
            0 <= i <= voters@.len(),
            forall|x: NodeId| kept@.contains(x) <==> (voters@.subrange(0, i as int).contains(x) && x != dead_voter),
        decreases voters@.len() - i,
    {
        let id = voters[i];
        let ghost pre = voters@.subrange(0, i as int);
        let ghost before = kept@;
        proof {
            assert(voters@.subrange(0, i + 1) =~= pre.push(id));
        }
        if id.0 != dead_voter.0 {
            kept.push(id);
        }
        proof {
            assert forall|x: NodeId| kept@.contains(x) <==> (pre.push(id).contains(x) && x != dead_voter) by {
                lemma_push_contains(pre, id, x);
                lemma_push_contains(before, id, x);
            }
        }
        i = i + 1;
    }
    let ghost before_promote = kept@;
    kept.push(promote);
    let mut rest: Vec<NodeId> = Vec::new();
    let mut j: usize = 0;
    while j < learners.len()
        invariant
            0 <= j <= learners@.len(),
            forall|x: NodeId| rest@.contains(x) <==> (learners@.subrange(0, j as int).contains(x) && x != promote),
        decreases learners@.len() - j,
    {
        let id = learners[j];
        let ghost pre = learners@.subrange(0, j as int);
        let ghost before = rest@;
        proof {
            assert(learners@.subrange(0, j + 1) =~= pre.push(id));
        }
        if id.0 != promote.0 {
            rest.push(id);
        }
        proof {
            assert forall|x: NodeId| rest@.contains(x) <==> (pre.push(id).contains(x) && x != promote) by {
                lemma_push_contains(pre, id, x);
                lemma_push_contains(before, id, x);
            }
        }
        j = j + 1;
    }
    proof {
        assert(voters@.subrange(0, voters@.len() as int) =~= voters@);
        assert(learners@.subrange(0, learners@.len() as int) =~= learners@);
        assert forall|x: NodeId| kept@.contains(x) <==> ((voters@.contains(x) && x != dead_voter) || x == promote) by {
            lemma_push_contains(before_promote, promote, x);
        }
    }
    let v = sorted_unique(kept.as_slice());
    let l = sorted_unique(rest.as_slice());
    (v, l)
}

} // verus!
