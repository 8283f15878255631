//! Best-effort keyed batches: each step is proposed to its own shard in order;
//! not atomic across shards, and the first failure stops the batch.
use vstd::prelude::*;

verus! {

/// One keyed write in a batch.
#[derive(Debug, Clone, PartialEq, Eq)]
pub struct KeyedBatchStep {
    /// Shard routing key.
    pub key: Vec<u8>,
    /// Application-encoded command bytes.
    pub payload: Vec<u8>,
}

} // verus!
