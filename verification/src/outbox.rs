//! Outbox of pending settle notifications for an external backlog: at-least-once
//! delivery after job-queue ack/nack/reclaim, one pending row per
//! `(stream, dedup_key)`, drained in insertion order.
use vstd::prelude::*;
use vstd::utf8::encode_utf8;

use crate::ids::bytes_to_vec;

verus! {

/// How a job that came from an external backlog ended.
#[derive(Debug, Clone, PartialEq, Eq)]
pub enum BacklogSettleOutcome {
    /// The job was acknowledged.
    Done,
    /// The job failed; `attempts` deliveries were made.
    Failed { attempts: u32, error: String },
}

/// A pending settle notification.
#[derive(Debug, Clone, PartialEq, Eq)]
pub struct BacklogSettleEvent {
    /// Queue stream the job belonged to.
    pub stream: String,
    /// Dedup key the job was enqueued with (rows are keyed by it).
    pub dedup_key: Option<Vec<u8>>,
    /// How the job ended.
    pub outcome: BacklogSettleOutcome,
}

/// The event as a mathematical value.
pub struct SettleModel {
    pub stream: Seq<char>,
    pub dedup_key: Option<Seq<u8>>,
    pub outcome: BacklogSettleOutcome,
}

impl View for BacklogSettleEvent {
    type V = SettleModel;

    open spec fn view(&self) -> SettleModel {
        SettleModel {
            stream: self.stream@,
            dedup_key: match self.dedup_key {
                Some(d) => Some(d@),
                None => None,
            },
            outcome: self.outcome,
        }
    }
}

impl BacklogSettleOutcome {
    /// A copy of the outcome.
    pub fn duplicate(&self) -> (c: Self)
        ensures
            c == *self,
    {
        match self {
            BacklogSettleOutcome::Done => BacklogSettleOutcome::Done,
            BacklogSettleOutcome::Failed { attempts, error } => BacklogSettleOutcome::Failed {
                attempts: *attempts,
                error: error.clone(),
            },
        }
    }
}

impl BacklogSettleEvent {
    /// A copy of the event.
    pub fn duplicate(&self) -> (c: Self)
        ensures
            c@ == self@,
    {
        let dedup_key = match &self.dedup_key {
            Some(d) => Some(bytes_to_vec(d.as_slice())),
            None => None,
        };
        BacklogSettleEvent { stream: self.stream.clone(), dedup_key, outcome: self.outcome.duplicate() }
    }
}

/// Stable row id in the settle outbox.
#[derive(Debug, Clone, Copy, PartialEq, Eq, Structural, Hash)]
pub struct BacklogSettleOutboxId(pub u64);

/// Why a settle outbox read or write failed.
#[derive(Debug, Clone, PartialEq, Eq)]
pub enum BacklogSettleOutboxError {
    /// Storage backend failure (or a row that cannot be stored).
    Backend(String),
    /// Record encode/decode failure.
    Codec(String),
}

/// Tunables for the settle drainer.
#[derive(Debug, Clone, Copy, PartialEq, Eq, Structural)]
pub struct BacklogSettleOutboxOpts {
    /// Leader poll interval, in milliseconds.
    pub poll_interval_ms: u64,
    /// Max pending rows drained per tick.
    pub max_batch: usize,
}

impl Default for BacklogSettleOutboxOpts {
    fn default() -> (o: Self)
        ensures
            o.poll_interval_ms == 500,
            o.max_batch == 64,
    {
        BacklogSettleOutboxOpts { poll_interval_ms: 500, max_batch: 64 }
    }
}

impl BacklogSettleOutboxOpts {
    /// Drainer poll interval.
    pub fn poll(self, interval_ms: u64) -> (o: Self)
        ensures
            o == (BacklogSettleOutboxOpts { poll_interval_ms: interval_ms, ..self }),
    {
        BacklogSettleOutboxOpts { poll_interval_ms: interval_ms, max_batch: self.max_batch }
    }

    /// Max rows processed per leader tick (at least 1).
    pub fn max_batch(self, n: usize) -> (o: Self)
        ensures
            o == (BacklogSettleOutboxOpts { max_batch: if n >= 1 { n } else { 1 }, ..self }),
    {
        BacklogSettleOutboxOpts { poll_interval_ms: self.poll_interval_ms, max_batch: if n >= 1 { n } else { 1 } }
    }
}

/// Durable pending settle rows awaiting the external `settle` call.
pub trait BacklogSettleOutbox {
    /// The pending rows, oldest first.
    spec fn settle_rows(&self) -> Seq<(u64, SettleModel)>;

    /// Enqueue or replace a pending settle for `(stream, dedup_key)`: on success
    /// the row with the same key (if any) leaves and the new row goes last under
    /// the returned id; a failed push stores nothing, and an event without a
    /// dedup key always fails.
    fn push(&mut self, event: BacklogSettleEvent) -> (r: Result<BacklogSettleOutboxId, BacklogSettleOutboxError>)
        ensures
            r matches Ok(id) ==> final(self).settle_rows() == settle_push(old(self).settle_rows(), id.0, event@),
            r is Err ==> final(self).settle_rows() == old(self).settle_rows(),
            event.dedup_key is None ==> r is Err,
    ;

    /// List up to `max` pending rows in insertion order: on success, the first
    /// `min(max, pending)` rows, each with its id and event.
    fn list_pending(&self, max: usize) -> (r: Result<Vec<(BacklogSettleOutboxId, BacklogSettleEvent)>, BacklogSettleOutboxError>)
        ensures
            r matches Ok(v) ==> v@.len() == (if max < self.settle_rows().len() { max as int } else { self.settle_rows().len() as int })
                && forall|i: int| 0 <= i < v@.len() ==> (#[trigger] v@[i]).0.0 == self.settle_rows()[i].0 && v@[i].1@ == self.settle_rows()[i].1,
    ;

    /// Remove a delivered row: on success the row with that id (if any) leaves;
    /// a failed removal changes nothing.
    fn remove(&mut self, id: BacklogSettleOutboxId) -> (r: Result<(), BacklogSettleOutboxError>)
        ensures
            r is Ok ==> final(self).settle_rows() == old(self).settle_rows().filter(|row: (u64, SettleModel)| row.0 != id.0),
            r is Err ==> final(self).settle_rows() == old(self).settle_rows(),
    ;

    /// Count of pending rows.
    fn pending_count(&self) -> (r: Result<u64, BacklogSettleOutboxError>)
        ensures
            r matches Ok(n) ==> n == self.settle_rows().len(),
    ;
}

/// Row ids strictly increase along the rows.
pub open spec fn rows_ascending(rows: Seq<(u64, SettleModel)>) -> bool {
    forall|i: int, j: int| 0 <= i < j < rows.len() ==> (#[trigger] rows[i]).0 < (#[trigger] rows[j]).0
}

/// Row key: the stream's UTF-8 bytes, a zero byte, then the dedup key.
pub open spec fn composite(stream: Seq<char>, dedup: Seq<u8>) -> Seq<u8> {
    encode_utf8(stream) + seq![0u8] + dedup
}

/// The row key of an event, when it has a dedup key.
pub open spec fn row_key(e: SettleModel) -> Option<Seq<u8>> {
    match e.dedup_key {
        Some(d) => Some(composite(e.stream, d)),
        None => None,
    }
}

/// Rows after pushing `e` under id `id`: the row with the same key (if any)
/// leaves and the new row goes last.
pub open spec fn settle_push(rows: Seq<(u64, SettleModel)>, id: u64, e: SettleModel) -> Seq<(u64, SettleModel)> {
    rows.filter(|r: (u64, SettleModel)| row_key(r.1) != row_key(e)).push((id, e))
}

/// Row key bytes for `(stream, dedup_key)`.
fn composite_key(stream: &str, dedup_key: &[u8]) -> (k: Vec<u8>)
    ensures
        k@ == composite(stream@, dedup_key@),
{
    let sb = stream.as_bytes();
    let mut key = bytes_to_vec(sb);
    key.push(0);
    let mut i: usize = 0;
    let ghost start = key@;
    while i < dedup_key.len()
        invariant
            0 <= i <= dedup_key@.len(),
            key@ == start + dedup_key@.subrange(0, i as int),
        decreases dedup_key@.len() - i,
    {
        key.push(dedup_key[i]);
        i = i + 1;
        assert(key@ =~= start + dedup_key@.subrange(0, i as int));
    }
    assert(dedup_key@.subrange(0, dedup_key@.len() as int) =~= dedup_key@);
    assert(key@ =~= composite(stream@, dedup_key@));
    key
}

fn bytes_equal(a: &Vec<u8>, b: &Vec<u8>) -> (r: bool)
    ensures
        r == (a@ == b@),
{
    crate::ids::bytes_eq(a.as_slice(), b.as_slice())
}

/// In-process outbox.
pub struct InMemoryBacklogSettleOutbox {
    next_id: u64,
    rows: Vec<(u64, BacklogSettleEvent)>,
}

pub open spec fn row_models(rows: Seq<(u64, BacklogSettleEvent)>) -> Seq<(u64, SettleModel)> {
    rows.map_values(|r: (u64, BacklogSettleEvent)| (r.0, r.1@))
}

impl InMemoryBacklogSettleOutbox {
    /// Pending rows, oldest first.
    pub closed spec fn pending(&self) -> Seq<(u64, SettleModel)> {
        row_models(self.rows@)
    }

    /// Id the next pushed row receives.
    pub closed spec fn next_row_id(&self) -> u64 {
        self.next_id
    }

    /// Ids increase along the rows and stay below the next id; every row has a
    /// dedup key and no two rows share a row key.
    #[verifier::type_invariant]
    closed spec fn wf(&self) -> bool {
        let p = row_models(self.rows@);
        &&& forall|i: int, j: int| 0 <= i < j < p.len() ==> (#[trigger] p[i]).0 < (#[trigger] p[j]).0
        &&& forall|i: int| 0 <= i < p.len() ==> (#[trigger] p[i]).0 < self.next_id
        &&& forall|i: int| 0 <= i < p.len() ==> (#[trigger] p[i]).1.dedup_key is Some
        &&& forall|i: int, j: int| 0 <= i < j < p.len() ==> row_key((#[trigger] p[i]).1) != row_key((#[trigger] p[j]).1)
    }

    /// Empty outbox.
    pub fn new() -> (o: Self)
        ensures
            o.pending() == Seq::<(u64, SettleModel)>::empty(),
            o.next_row_id() == 0,
    {
        let o = InMemoryBacklogSettleOutbox { next_id: 0, rows: Vec::new() };
        assert(row_models(o.rows@) =~= Seq::<(u64, SettleModel)>::empty());
        o
    }

    /// Whether another row id can be handed out.
    pub fn has_id_room(&self) -> (r: bool)
        ensures
            r == (self.next_row_id() < u64::MAX),
    {
        self.next_id < u64::MAX
    }

    /// Enqueue or replace the pending settle for the event's `(stream, dedup_key)`.
    /// An event without a dedup key is refused.
    pub fn push(&mut self, event: BacklogSettleEvent) -> (r: Result<BacklogSettleOutboxId, BacklogSettleOutboxError>)
        requires
            old(self).next_row_id() < u64::MAX,
        ensures
            event.dedup_key is None ==> (r matches Err(BacklogSettleOutboxError::Backend(m))
                && m@ == "settle outbox requires dedup_key"@) && final(self).pending() == old(self).pending()
                && final(self).next_row_id() == old(self).next_row_id(),
            event.dedup_key is Some ==> r == Ok::<BacklogSettleOutboxId, BacklogSettleOutboxError>(
                BacklogSettleOutboxId(old(self).next_row_id()),
            ) && final(self).pending() == settle_push(old(self).pending(), old(self).next_row_id(), event@)
                && final(self).next_row_id() == old(self).next_row_id() + 1,
    {
        proof {
            use_type_invariant(&*self);
        }
        let ck = match &event.dedup_key {
            Some(d) => composite_key(event.stream.as_str(), d.as_slice()),
            None => {
                return Err(BacklogSettleOutboxError::Backend(String::from_str("settle outbox requires dedup_key")));
            },
        };
        let ghost e = event@;
        let ghost p = row_models(self.rows@);
        let ghost f = |r: (u64, SettleModel)| row_key(r.1) != row_key(e);
        assert(row_key(e) == Some(ck@));
        let mut kept: Vec<(u64, BacklogSettleEvent)> = Vec::new();
        let mut old_rows: Vec<(u64, BacklogSettleEvent)> = Vec::new();
        std::mem::swap(&mut old_rows, &mut self.rows);
        let ghost nid = self.next_id;
        assert(row_models(old_rows@) == p);
        let n = old_rows.len();
        let mut i: usize = 0;
        while i < n
            invariant
                n == old_rows@.len(),
                0 <= i <= n,
                p == row_models(old_rows@),
                nid == self.next_id,
                row_key(e) == Some(ck@),
                f == (|r: (u64, SettleModel)| row_key(r.1) != row_key(e)),
                forall|a: int, b: int| 0 <= a < b < p.len() ==> (#[trigger] p[a]).0 < (#[trigger] p[b]).0,
                forall|a: int| 0 <= a < p.len() ==> (#[trigger] p[a]).0 < nid,
                forall|a: int| 0 <= a < p.len() ==> (#[trigger] p[a]).1.dedup_key is Some,
                forall|a: int, b: int| 0 <= a < b < p.len() ==> row_key((#[trigger] p[a]).1) != row_key((#[trigger] p[b]).1),
                row_models(kept@) == p.subrange(0, i as int).filter(f),
                forall|a: int| 0 <= a < kept@.len() ==> exists|b: int| 0 <= b < i && #[trigger] row_models(kept@)[a] == p[b],
                forall|a: int, c: int| 0 <= a < c < kept@.len() ==> (#[trigger] row_models(kept@)[a]).0 < (#[trigger] row_models(kept@)[c]).0,
                forall|a: int| 0 <= a < kept@.len() ==> row_key((#[trigger] row_models(kept@)[a]).1) != row_key(e),
            decreases n - i,
        {
            let ghost before = p.subrange(0, i as int);
            let ghost km = row_models(kept@);
            proof {
                assert(p.subrange(0, i + 1) =~= before.push(p[i as int]));
                before.lemma_filter_push(p[i as int], f);
                assert(p[i as int] == (old_rows@[i as int].0, old_rows@[i as int].1@));
            }
            let same = match &old_rows[i].1.dedup_key {
                Some(d) => {
                    let k = composite_key(old_rows[i].1.stream.as_str(), d.as_slice());
                    bytes_equal(&k, &ck)
                },
                None => false,
            };
            proof {
                assert(same == (row_key(p[i as int].1) == Some(ck@)));
            }
            if !same {
                let row = (old_rows[i].0, old_rows[i].1.duplicate());
                kept.push(row);
                proof {
                    let km2 = row_models(kept@);
                    assert(km2 =~= km.push((row.0, row.1@)));
                    assert(km2[km.len() as int] == p[i as int]);
                    assert forall|a: int| 0 <= a < km2.len() implies exists|b: int| 0 <= b < i + 1 && #[trigger] km2[a] == p[b] by {
                        if a < km.len() {
                            assert(km2[a] == km[a]);
                        } else {
                            assert(km2[a] == p[i as int]);
                        }
                    }
                    assert forall|a: int, c: int| 0 <= a < c < km2.len() implies (#[trigger] km2[a]).0 < (#[trigger] km2[c]).0 by {
                        if c == km.len() {
                            assert(km2[a] == km[a]);
                            let b = choose|b: int| 0 <= b < i && km[a] == p[b];
                            assert(p[b].0 < p[i as int].0);
                        } else {
                            assert(km2[a] == km[a] && km2[c] == km[c]);
                        }
                    }
                    assert forall|a: int| 0 <= a < km2.len() implies row_key((#[trigger] km2[a]).1) != row_key(e) by {
                        if a < km.len() {
                            assert(km2[a] == km[a]);
                        }
                    }
                }
            } else {
                proof {
                    assert forall|a: int| 0 <= a < km.len() implies exists|b: int| 0 <= b < i + 1 && #[trigger] km[a] == p[b] by {
                        let b = choose|b: int| 0 <= b < i && km[a] == p[b];
                    }
                }
            }
            i = i + 1;
        }
        proof {
            assert(p.subrange(0, n as int) =~= p);
        }
        let id = self.next_id;
        let ghost km = row_models(kept@);
        kept.push((id, event));
        proof {
            let q = row_models(kept@);
            assert(q =~= km.push((id, e)));
            assert(q =~= settle_push(p, id, e));
            assert forall|a: int, c: int| 0 <= a < c < q.len() implies (#[trigger] q[a]).0 < (#[trigger] q[c]).0 by {
                if c == km.len() {
                    assert(q[a] == km[a]);
                    let b = choose|b: int| 0 <= b < n && km[a] == p[b];
                } else {
                    assert(q[a] == km[a] && q[c] == km[c]);
                }
            }
            assert forall|a: int| 0 <= a < q.len() implies (#[trigger] q[a]).0 < id + 1 && q[a].1.dedup_key is Some by {
                if a < km.len() {
                    assert(q[a] == km[a]);
                    let b = choose|b: int| 0 <= b < n && km[a] == p[b];
                }
            }
            assert forall|a: int, c: int| 0 <= a < c < q.len() implies row_key((#[trigger] q[a]).1) != row_key((#[trigger] q[c]).1) by {
                if c == km.len() {
                    assert(q[a] == km[a]);
                } else {
                    assert(q[a] == km[a] && q[c] == km[c]);
                    let ba = choose|b: int| 0 <= b < n && km[a] == p[b];
                    let bc = choose|b: int| 0 <= b < n && km[c] == p[b];
                    if ba > bc {
                        assert(p[bc].0 < p[ba].0);
                    }
                }
            }
        }
        self.next_id = id + 1;
        self.rows = kept;
        Ok(BacklogSettleOutboxId(id))
    }

    /// Up to `max` pending rows, oldest first.
    pub fn list_pending(&self, max: usize) -> (r: Result<Vec<(BacklogSettleOutboxId, BacklogSettleEvent)>, BacklogSettleOutboxError>)
        ensures
            rows_ascending(self.pending()),
            forall|i: int| 0 <= i < self.pending().len() ==> (#[trigger] self.pending()[i]).0 < self.next_row_id(),
            r matches Ok(v) ==> forall|i: int, k: int| 0 <= i < v@.len() <= k < self.pending().len()
                ==> (#[trigger] v@[i]).0.0 < (#[trigger] self.pending()[k]).0,
            r matches Ok(v) && v@.len() == (if max < self.pending().len() { max as int } else { self.pending().len() as int })
                && forall|i: int| 0 <= i < v@.len() ==> (#[trigger] v@[i]).0.0 == self.pending()[i].0 && v@[i].1@ == self.pending()[i].1,
    {
        proof {
            use_type_invariant(self);
        }
        let mut out: Vec<(BacklogSettleOutboxId, BacklogSettleEvent)> = Vec::new();
        let mut i: usize = 0;
        while i < self.rows.len() && i < max
            invariant
                0 <= i <= self.rows@.len(),
                i <= max,
                out@.len() == i,
                forall|j: int| 0 <= j < i ==> (#[trigger] out@[j]).0.0 == row_models(self.rows@)[j].0 && out@[j].1@ == row_models(self.rows@)[j].1,
            decreases self.rows@.len() - i,
        {
            out.push((BacklogSettleOutboxId(self.rows[i].0), self.rows[i].1.duplicate()));
            i = i + 1;
        }
        Ok(out)
    }

    /// Remove a delivered row; an unknown id changes nothing.
    pub fn remove(&mut self, id: BacklogSettleOutboxId) -> (r: Result<(), BacklogSettleOutboxError>)
        ensures
            r is Ok,
            final(self).next_row_id() == old(self).next_row_id(),
            final(self).pending() == old(self).pending().filter(|row: (u64, SettleModel)| row.0 != id.0),
    {
        proof {
            use_type_invariant(&*self);
        }
        let ghost p = row_models(self.rows@);
        let ghost f = |row: (u64, SettleModel)| row.0 != id.0;
        let mut kept: Vec<(u64, BacklogSettleEvent)> = Vec::new();
        let mut old_rows: Vec<(u64, BacklogSettleEvent)> = Vec::new();
        std::mem::swap(&mut old_rows, &mut self.rows);
        let ghost nid = self.next_id;
        let n = old_rows.len();
        let mut i: usize = 0;
        while i < n
            invariant
                n == old_rows@.len(),
                0 <= i <= n,
                p == row_models(old_rows@),
                nid == self.next_id,
                f == (|row: (u64, SettleModel)| row.0 != id.0),
                forall|a: int, b: int| 0 <= a < b < p.len() ==> (#[trigger] p[a]).0 < (#[trigger] p[b]).0,
                forall|a: int| 0 <= a < p.len() ==> (#[trigger] p[a]).0 < nid,
                forall|a: int| 0 <= a < p.len() ==> (#[trigger] p[a]).1.dedup_key is Some,
                forall|a: int, b: int| 0 <= a < b < p.len() ==> row_key((#[trigger] p[a]).1) != row_key((#[trigger] p[b]).1),
                row_models(kept@) == p.subrange(0, i as int).filter(f),
                forall|a: int| 0 <= a < kept@.len() ==> exists|b: int| 0 <= b < i && #[trigger] row_models(kept@)[a] == p[b],
                forall|a: int, c: int| 0 <= a < c < kept@.len() ==> (#[trigger] row_models(kept@)[a]).0 < (#[trigger] row_models(kept@)[c]).0,
            decreases n - i,
        {
            let ghost before = p.subrange(0, i as int);
            let ghost km = row_models(kept@);
            proof {
                assert(p.subrange(0, i + 1) =~= before.push(p[i as int]));
                before.lemma_filter_push(p[i as int], f);
                assert(p[i as int] == (old_rows@[i as int].0, old_rows@[i as int].1@));
            }
            if old_rows[i].0 != id.0 {
                let row = (old_rows[i].0, old_rows[i].1.duplicate());
                kept.push(row);
                proof {
                    let km2 = row_models(kept@);
                    assert(km2 =~= km.push((row.0, row.1@)));
                    assert(km2[km.len() as int] == p[i as int]);
                    assert forall|a: int| 0 <= a < km2.len() implies exists|b: int| 0 <= b < i + 1 && #[trigger] km2[a] == p[b] by {
                        if a < km.len() {
                            assert(km2[a] == km[a]);
                        } else {
                            assert(km2[a] == p[i as int]);
                        }
                    }
                    assert forall|a: int, c: int| 0 <= a < c < km2.len() implies (#[trigger] km2[a]).0 < (#[trigger] km2[c]).0 by {
                        if c == km.len() {
                            assert(km2[a] == km[a]);
                            let b = choose|b: int| 0 <= b < i && km[a] == p[b];
                            assert(p[b].0 < p[i as int].0);
                        } else {
                            assert(km2[a] == km[a] && km2[c] == km[c]);
                        }
                    }
                }
            } else {
                proof {
                    assert forall|a: int| 0 <= a < km.len() implies exists|b: int| 0 <= b < i + 1 && #[trigger] km[a] == p[b] by {
                        let b = choose|b: int| 0 <= b < i && km[a] == p[b];
                    }
                }
            }
            i = i + 1;
        }
        proof {
            assert(p.subrange(0, n as int) =~= p);
            let q = row_models(kept@);
            assert forall|a: int| 0 <= a < q.len() implies (#[trigger] q[a]).0 < nid && q[a].1.dedup_key is Some by {
                let b = choose|b: int| 0 <= b < n && q[a] == p[b];
            }
            assert forall|a: int, c: int| 0 <= a < c < q.len() implies row_key((#[trigger] q[a]).1) != row_key((#[trigger] q[c]).1) by {
                let ba = choose|b: int| 0 <= b < n && q[a] == p[b];
                let bc = choose|b: int| 0 <= b < n && q[c] == p[b];
                if ba > bc {
                    assert(p[bc].0 < p[ba].0);
                }
            }
        }
        self.rows = kept;
        Ok(())
    }

    /// Number of pending rows.
    pub fn pending_count(&self) -> (r: Result<u64, BacklogSettleOutboxError>)
        ensures
            r == Ok::<u64, BacklogSettleOutboxError>(self.pending().len() as u64),
            self.pending().len() <= usize::MAX,
    {
        let n = self.rows.len();
        assert(self.pending().len() == n);
        Ok(n as u64)
    }
}

impl BacklogSettleOutbox for InMemoryBacklogSettleOutbox {
    open spec fn settle_rows(&self) -> Seq<(u64, SettleModel)> {
        self.pending()
    }

    fn push(&mut self, event: BacklogSettleEvent) -> (r: Result<BacklogSettleOutboxId, BacklogSettleOutboxError>)
        ensures
            old(self).next_row_id() == u64::MAX ==> (r matches Err(BacklogSettleOutboxError::Backend(m))
                && m@ == "settle outbox ids exhausted"@) && final(self).pending() == old(self).pending()
                && final(self).next_row_id() == old(self).next_row_id(),
            old(self).next_row_id() < u64::MAX && event.dedup_key is None ==> (r matches Err(
                BacklogSettleOutboxError::Backend(m),
            ) && m@ == "settle outbox requires dedup_key"@) && final(self).pending() == old(self).pending()
                && final(self).next_row_id() == old(self).next_row_id(),
            old(self).next_row_id() < u64::MAX && event.dedup_key is Some ==> r == Ok::<
                BacklogSettleOutboxId,
                BacklogSettleOutboxError,
            >(BacklogSettleOutboxId(old(self).next_row_id())) && final(self).pending() == settle_push(
                old(self).pending(),
                old(self).next_row_id(),
                event@,
            ) && final(self).next_row_id() == old(self).next_row_id() + 1,
    {
        if !self.has_id_room() {
            return Err(BacklogSettleOutboxError::Backend(String::from_str("settle outbox ids exhausted")));
        }
        InMemoryBacklogSettleOutbox::push(self, event)
    }

    fn list_pending(&self, max: usize) -> (r: Result<Vec<(BacklogSettleOutboxId, BacklogSettleEvent)>, BacklogSettleOutboxError>)
        ensures
            r matches Ok(v) && v@.len() == (if max < self.pending().len() { max as int } else { self.pending().len() as int })
                && forall|i: int| 0 <= i < v@.len() ==> (#[trigger] v@[i]).0.0 == self.pending()[i].0 && v@[i].1@ == self.pending()[i].1,
    {
        InMemoryBacklogSettleOutbox::list_pending(self, max)
    }

    fn remove(&mut self, id: BacklogSettleOutboxId) -> (r: Result<(), BacklogSettleOutboxError>)
        ensures
            r is Ok,
            final(self).next_row_id() == old(self).next_row_id(),
            final(self).pending() == old(self).pending().filter(|row: (u64, SettleModel)| row.0 != id.0),
    {
        InMemoryBacklogSettleOutbox::remove(self, id)
    }

    fn pending_count(&self) -> (r: Result<u64, BacklogSettleOutboxError>)
        ensures
            r == Ok::<u64, BacklogSettleOutboxError>(self.pending().len() as u64),
            self.pending().len() <= usize::MAX,
    {
        InMemoryBacklogSettleOutbox::pending_count(self)
    }
}

/// Hand `event` to the outbox when there is one and the event has a dedup key
/// (events without one are not tracked). The settle is best effort: a failed
/// push is dropped, and then the outbox is as it was.
pub fn push_backlog_settle<O: BacklogSettleOutbox>(outbox: Option<&mut O>, event: BacklogSettleEvent)
    ensures
        match outbox {
            Some(o) => if event.dedup_key is Some {
                final(o).settle_rows() == (*o).settle_rows() || exists|id: u64|
                    final(o).settle_rows() == #[trigger] settle_push((*o).settle_rows(), id, event@)
            } else {
                final(o).settle_rows() == (*o).settle_rows()
            },
            None => true,
        },
{
    if event.dedup_key.is_none() {
        return;
    }
    match outbox {
        Some(o) => {
            let ghost before = o.settle_rows();
            let ghost e = event@;
            match o.push(event) {
                Ok(id) => {
                    assert(o.settle_rows() == settle_push(before, id.0, e));
                },
                Err(_) => {},
            }
        },
        None => {},
    }
}

/// Pushing two events with the same stream and dedup key leaves one row for
/// that key: the later event, at the end.
pub proof fn law_same_key_upserts(rows: Seq<(u64, SettleModel)>, id1: u64, e1: SettleModel, id2: u64, e2: SettleModel)
    requires
        e1.dedup_key is Some,
        row_key(e1) == row_key(e2),
    ensures
        ({
            let after = settle_push(settle_push(rows, id1, e1), id2, e2);
            &&& after.last() == (id2, e2)
            &&& forall|i: int| 0 <= i < after.len() - 1 ==> row_key((#[trigger] after[i]).1) != row_key(e2)
        }),
{
    let mid = settle_push(rows, id1, e1);
    let f = |r: (u64, SettleModel)| row_key(r.1) != row_key(e2);
    let kept = mid.filter(f);
    let after = kept.push((id2, e2));
    assert forall|i: int| 0 <= i < after.len() - 1 implies row_key((#[trigger] after[i]).1) != row_key(e2) by {
        assert(after[i] == kept[i]);
        mid.lemma_filter_pred(f, i);
    }
}

} // verus!