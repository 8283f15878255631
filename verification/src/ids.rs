//! Identifiers shared by the queue, topic, membership and upgrade modules.
use vstd::prelude::*;

verus! {

/// A cluster node.
#[derive(Debug, Clone, Copy, PartialEq, Eq, Structural, PartialOrd, Ord, Hash)]
pub struct NodeId(pub u64);

/// Position in the replicated log.
#[derive(Debug, Clone, Copy, PartialEq, Eq, Structural, PartialOrd, Ord, Hash)]
pub struct LogIndex(pub u64);

/// Opaque job identifier (monotonic per queue stream).
#[derive(Debug, Clone, Copy, PartialEq, Eq, Structural, PartialOrd, Ord, Hash)]
pub struct JobId(pub u64);

/// Opaque lease token returned by a queue lease.
#[derive(Debug, Clone, Copy, PartialEq, Eq, Structural, PartialOrd, Ord, Hash)]
pub struct LeaseId(pub u64);

/// Identifies a queue consumer (actor instance on a node).
#[derive(Debug, Clone, Copy, PartialEq, Eq, Structural, Hash)]
pub struct WorkerId {
    /// Hosting cluster node.
    pub node: NodeId,
    /// Worker actor instance id on that node.
    pub instance: u32,
}

/// Monotonic event id within a topic.
#[derive(Debug, Clone, Copy, PartialEq, Eq, Structural, PartialOrd, Ord, Hash)]
pub struct EventId(pub u64);

/// Lease token for an in-flight event delivery on a subscription.
#[derive(Debug, Clone, Copy, PartialEq, Eq, Structural, PartialOrd, Ord, Hash)]
pub struct TopicLeaseId(pub u64);

/// Two workers are the same consumer.
pub fn same_worker(a: WorkerId, b: WorkerId) -> (r: bool)
    ensures
        r == (a == b),
{
    a.node.0 == b.node.0 && a.instance == b.instance
}

/// Byte-wise equality of two byte strings.
pub fn bytes_eq(a: &[u8], b: &[u8]) -> (r: bool)
    ensures
        r == (a@ == b@),
{
    if a.len() != b.len() {
        return false;
    }
    let mut i: usize = 0;
    while i < a.len()
        invariant
            a@.len() == b@.len(),
            0 <= i <= a@.len(),
            forall|j: int| 0 <= j < i ==> a@[j] == b@[j],
        decreases a@.len() - i,
    {
        if a[i] != b[i] {
            return false;
        }
        i = i + 1;
    }
    assert(a@ =~= b@);
    true
}

/// Copy a byte slice into a fresh vector.
pub fn bytes_to_vec(a: &[u8]) -> (v: Vec<u8>)
    ensures
        v@ == a@,
{
    let mut v: Vec<u8> = Vec::new();
    let mut i: usize = 0;
    while i < a.len()
        invariant
            0 <= i <= a@.len(),
            v@ == a@.subrange(0, i as int),
        decreases a@.len() - i,
    {
        v.push(a[i]);
        i = i + 1;
    }
    assert(v@ =~= a@);
    v
}

} // verus!
